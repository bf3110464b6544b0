use underclass::correlation::{
    canonical_id, incoming_id, request_id_for, request_identity, uuid_text,
};

fn header(text: &str) -> Vec<u8> {
    text.as_bytes().to_vec()
}

#[test]
fn malformed_and_non_v4_ids_are_not_accepted() {
    for value in [
        "",
        "client-controlled-text",
        "00000000-0000-0000-0000-000000000000",
        "6ba7b810-9dad-11d1-80b4-00c04fd430c8",
        "urn:uuid:550e8400-e29b-41d4-a716-446655440000",
    ] {
        assert!(canonical_id(value).is_none());
    }
}

#[test]
fn uuid_headers_roundtrip_but_duplicates_do_not() {
    for duplicate in [false, true, false, true] {
        let id = uuid::Uuid::new_v4();
        let value = header(&id.to_string());
        let mut values = vec![value.clone()];
        if duplicate {
            values.push(value);
        }
        assert_eq!(
            incoming_id(&values),
            if duplicate { None } else { Some(id.as_u128()) }
        );
    }
}

#[test]
fn arbitrary_inputs_cannot_escape_the_uuid_contract() {
    for text in [
        "550e8400-e29b-41d4-a716-446655440000",
        "550E8400-E29B-41D4-A716-446655440000",
        "550e8400e29b41d4a716446655440000",
        "{550e8400-e29b-41d4-a716-446655440000}",
        "550e8400-e29b-41d4-c716-446655440000",
        "550e8400-e29b-51d4-a716-446655440000",
        "ffffffff-ffff-4fff-bfff-ffffffffffff",
        "héllo",
        "",
    ] {
        if let Some(id) = canonical_id(text) {
            let parsed = uuid::Uuid::from_u128(id);
            assert_eq!(text.len(), 36);
            assert_eq!(parsed.get_version(), Some(uuid::Version::Random));
            assert_eq!(parsed.get_variant(), uuid::Variant::RFC4122);
            assert!(parsed.to_string().eq_ignore_ascii_case(text));
        }
    }
}

#[test]
fn canonical_ids_accept_v4_in_either_case() {
    let expected = 0x550e8400_e29b_41d4_a716_446655440000u128;
    assert_eq!(canonical_id("550e8400-e29b-41d4-a716-446655440000"), Some(expected));
    assert_eq!(canonical_id("550E8400-E29B-41D4-A716-446655440000"), Some(expected));
    assert_eq!(canonical_id("550e8400e29b41d4a716446655440000"), None);
    assert_eq!(canonical_id("550e8400-e29b-41d4-c716-446655440000"), None);
}

#[test]
fn uuid_text_is_hyphenated_lowercase() {
    assert_eq!(
        uuid_text(0x550e8400_e29b_41d4_a716_446655440000u128),
        "550e8400-e29b-41d4-a716-446655440000"
    );
    assert_eq!(uuid_text(0), "00000000-0000-0000-0000-000000000000");
}

#[test]
fn incoming_identity_needs_one_text_value() {
    let good = header("550e8400-e29b-41d4-a716-446655440000");
    assert_eq!(incoming_id(&vec![]), None);
    assert_eq!(incoming_id(&vec![good.clone()]), Some(0x550e8400_e29b_41d4_a716_446655440000u128));
    assert_eq!(incoming_id(&vec![vec![0xff, 0x00]]), None);
    let mut tabbed = good.clone();
    tabbed.push(b'\t');
    assert_eq!(incoming_id(&vec![tabbed]), None);
}

#[test]
fn request_identity_keeps_a_valid_id_or_mints_a_v4() {
    let good = header("550e8400-e29b-41d4-a716-446655440000");
    assert_eq!(request_id_for(&vec![good.clone()], 7), 0x550e8400_e29b_41d4_a716_446655440000u128);
    assert_eq!(request_id_for(&vec![header("nope")], 7), 7);
    assert_eq!(request_identity(&vec![good]), 0x550e8400_e29b_41d4_a716_446655440000u128);
    let minted = uuid::Uuid::from_u128(request_identity(&vec![header("nope")]));
    assert_eq!(minted.get_version(), Some(uuid::Version::Random));
    assert_eq!(minted.get_variant(), uuid::Variant::RFC4122);
    let a = request_identity(&vec![]);
    let b = request_identity(&vec![]);
    assert_ne!(a, b);
}
