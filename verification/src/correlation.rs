//! The request identity shared across the proxy: which incoming `x-request-id` value is
//! accepted (one hyphenated RFC 4122 version-4 UUID, nothing else) and which identity a
//! request carries.
use vstd::prelude::*;
use crate::text::{push_char, string_of_chars};

verus! {

broadcast use vstd::string::group_string_axioms;

/// The version number of a UUID (the high nibble of its seventh byte).
pub open spec fn version_num(id: u128) -> u128 {
    (id >> 76u128) & 0xfu128
}

/// Whether a UUID has the RFC 4122 variant (the top bits of its ninth byte are `10`).
pub open spec fn is_rfc4122(id: u128) -> bool {
    (id >> 56u128) & 0xc0u128 == 0x80u128
}

/// The lowercase hexadecimal digit of `n` (below 16).
pub open spec fn hex_digit(n: int) -> char {
    if n < 10 {
        (48 + n) as char
    } else {
        (87 + n) as char
    }
}

/// The hexadecimal digit at position `k` (0 to 31, most significant first) of `id`.
pub open spec fn nibble(id: u128, k: int) -> int {
    (id as int / vstd::arithmetic::power::pow(16, (31 - k) as nat)) % 16
}

/// The position among the hex digits of the character at `i` of the hyphenated form.
pub open spec fn digit_position(i: int) -> int {
    if i < 8 {
        i
    } else if i < 13 {
        i - 1
    } else if i < 18 {
        i - 2
    } else if i < 23 {
        i - 3
    } else {
        i - 4
    }
}

/// The hyphenated lowercase form of a UUID: 32 hex digits in groups of 8-4-4-4-12.
pub open spec fn hyphenated(id: u128) -> Seq<char> {
    Seq::new(
        36,
        |i: int|
            if i == 8 || i == 13 || i == 18 || i == 23 {
                '-'
            } else {
                hex_digit(nibble(id, digit_position(i)))
            },
    )
}

/// The UUID that `uuid::Uuid::parse_str` reads from `text`, if it reads one.
pub uninterp spec fn parsed_uuid(text: Seq<char>) -> Option<u128>;

/// Reads a UUID with `uuid::Uuid::parse_str`. Besides naming the result, this states the
/// one fact that the crate's parser shows plainly: the hyphenated lowercase form that
/// `Uuid` displays reads back as the same UUID.
#[verifier::external_body]
fn parse_uuid(text: &str) -> (r: Option<u128>)
    ensures
        r == parsed_uuid(text@),
        forall|id: u128| #[trigger] hyphenated(id) == text@ ==> r == Some(id),
{
    match uuid::Uuid::parse_str(text) {
        Ok(id) => Some(id.as_u128()),
        Err(_) => None,
    }
}

/// A fresh random UUID from `uuid::Uuid::new_v4`, which sets the version to 4 and the
/// variant to RFC 4122 and draws the other bits at random; only those two facts are stated.
#[verifier::external_body]
pub(crate) fn new_uuid_v4() -> (r: u128)
    ensures
        version_num(r) == 4,
        is_rfc4122(r),
{
    uuid::Uuid::new_v4().as_u128()
}

/// The text of a UUID as `uuid::Uuid` displays it: the hyphenated lowercase form.
#[verifier::external_body]
pub fn uuid_text(id: u128) -> (r: String)
    ensures
        r@ == hyphenated(id),
{
    uuid::Uuid::from_u128(id).to_string()
}

pub open spec fn ascii_lower(b: u8) -> u8 {
    if 65 <= b && b <= 90 {
        (b + 32) as u8
    } else {
        b
    }
}

/// Whether two byte strings are equal when ASCII letters are compared without case.
pub open spec fn eq_ignore_ascii_case(a: Seq<u8>, b: Seq<u8>) -> bool {
    a.len() == b.len() && forall|i: int| 0 <= i < a.len() ==> ascii_lower(#[trigger] a[i]) == ascii_lower(b[i])
}

fn bytes_eq_ignore_ascii_case(a: &[u8], b: &[u8]) -> (r: bool)
    ensures
        r == eq_ignore_ascii_case(a@, b@),
{
    if a.len() != b.len() {
        return false;
    }
    let mut i: usize = 0;
    while i < a.len()
        invariant
            a@.len() == b@.len(),
            i <= a@.len(),
            forall|k: int| 0 <= k < i ==> ascii_lower(#[trigger] a@[k]) == ascii_lower(b@[k]),
        decreases a@.len() - i,
    {
        let x = if a[i] >= 65 && a[i] <= 90 { a[i] + 32 } else { a[i] };
        let y = if b[i] >= 65 && b[i] <= 90 { b[i] + 32 } else { b[i] };
        if x != y {
            return false;
        }
        i += 1;
    }
    true
}

/// The hyphenated form of a UUID is ASCII: its UTF-8 bytes are its characters, all of them
/// header text, and read back as characters they give the form again.
pub proof fn lemma_hyphenated_ascii(id: u128)
    ensures
        vstd::utf8::is_ascii_chars(hyphenated(id)),
        vstd::utf8::encode_utf8(hyphenated(id)).len() == 36,
        is_header_text(vstd::utf8::encode_utf8(hyphenated(id))),
        header_chars(vstd::utf8::encode_utf8(hyphenated(id))) == hyphenated(id),
{
    let h = hyphenated(id);
    assert forall|i: int| 0 <= i < h.len() implies 45 <= (#[trigger] h[i]) as int <= 102 && (
    h[i] == '-' || 48 <= h[i] as int <= 57 || 97 <= h[i] as int <= 102) by {
        if !(i == 8 || i == 13 || i == 18 || i == 23) {
            let n = nibble(id, digit_position(i));
            assert(0 <= n < 16);
        }
    }
    assert(vstd::utf8::is_ascii_chars(h));
    vstd::utf8::is_ascii_chars_encode_utf8(h);
    let e = vstd::utf8::encode_utf8(h);
    assert forall|i: int| 0 <= i < e.len() implies (32 <= #[trigger] e[i] && e[i] < 127) || e[i]
        == 9 by {
        assert(h[i] as u8 == e[i]);
    }
    assert forall|i: int| 0 <= i < h.len() implies #[trigger] header_chars(e)[i] == h[i] by {
        assert(h[i] as u8 == e[i]);
    }
    assert(header_chars(e) =~= h);
}

/// Accepts `value` as a request identity only when it is one hyphenated RFC 4122 UUIDv4.
pub fn canonical_id(value: &str) -> (r: Option<u128>)
    ensures
        r == parsed_canonical(value@),
        forall|id: u128|
            version_num(id) == 4 && is_rfc4122(id) && #[trigger] hyphenated(id) == value@ ==> r
                == Some(id),
        r matches Some(id) ==> vstd::utf8::encode_utf8(value@).len() == 36 && version_num(id) == 4
            && is_rfc4122(id) && eq_ignore_ascii_case(
            vstd::utf8::encode_utf8(hyphenated(id)),
            vstd::utf8::encode_utf8(value@),
        ),
{
    let vb = value.as_bytes();
    proof {
        assert forall|id: u128| #[trigger] hyphenated(id) == value@ implies vb@.len() == 36 by {
            lemma_hyphenated_ascii(id);
        }
    }
    if vb.len() != 36 {
        return None;
    }
    let id = match parse_uuid(value) {
        Some(id) => id,
        None => return None,
    };
    let text = uuid_text(id);
    let tb = text.as_str().as_bytes();
    if (id >> 76u128) & 0xfu128 == 4 && (id >> 56u128) & 0xc0u128 == 0x80
        && bytes_eq_ignore_ascii_case(tb, vb) {
        Some(id)
    } else {
        None
    }
}

/// Whether a header value is text: visible ASCII characters and tabs only.
pub open spec fn is_header_text(v: Seq<u8>) -> bool {
    forall|i: int| 0 <= i < v.len() ==> (32 <= #[trigger] v[i] && v[i] < 127) || v[i] == 9
}

/// The characters of a header value that is text.
pub open spec fn header_chars(v: Seq<u8>) -> Seq<char> {
    Seq::new(v.len(), |i: int| v[i] as char)
}

/// The identity carried by the `x-request-id` values of a request: the single value, when
/// there is exactly one, it is text, and it is a canonical UUIDv4.
pub open spec fn incoming_uuid(values: Seq<Vec<u8>>) -> Option<u128> {
    if values.len() != 1 || !is_header_text(values[0]@) {
        None
    } else {
        parsed_canonical(header_chars(values[0]@))
    }
}

/// The request identity that the text `s` carries, if it is one: exactly 36 bytes that
/// read as a UUID of version 4 and RFC 4122 variant whose hyphenated form equals `s` up to
/// ASCII case.
pub open spec fn parsed_canonical(s: Seq<char>) -> Option<u128> {
    if vstd::utf8::encode_utf8(s).len() != 36 {
        None
    } else {
        match parsed_uuid(s) {
            Some(id) => if version_num(id) == 4 && is_rfc4122(id) && eq_ignore_ascii_case(
                vstd::utf8::encode_utf8(hyphenated(id)),
                vstd::utf8::encode_utf8(s),
            ) {
                Some(id)
            } else {
                None
            },
            None => None,
        }
    }
}

fn header_text(v: &Vec<u8>) -> (r: Option<String>)
    ensures
        match r {
            Some(s) => is_header_text(v@) && s@ == header_chars(v@),
            None => !is_header_text(v@),
        },
{
    let mut cs: Vec<char> = Vec::new();
    let mut i: usize = 0;
    while i < v.len()
        invariant
            i <= v@.len(),
            cs@ == header_chars(v@).take(i as int),
            forall|k: int| 0 <= k < i ==> (32 <= #[trigger] v@[k] && v@[k] < 127) || v@[k] == 9,
        decreases v@.len() - i,
    {
        let b = v[i];
        if !((b >= 32 && b < 127) || b == 9) {
            return None;
        }
        cs.push(b as char);
        i += 1;
        assert(cs@ =~= header_chars(v@).take(i as int));
    }
    assert(header_chars(v@).take(i as int) =~= header_chars(v@));
    Some(string_of_chars(cs.as_slice()))
}

/// The request identity carried by the `x-request-id` header values of a request: one
/// canonical UUIDv4 value is accepted; a missing, duplicated or other value gives none.
pub fn incoming_id(values: &Vec<Vec<u8>>) -> (r: Option<u128>)
    ensures
        r == incoming_uuid(values@),
        values@.len() != 1 ==> r is None,
        forall|id: u128|
            version_num(id) == 4 && is_rfc4122(id) && values@.len() == 1 && values@[0]@
                == #[trigger] vstd::utf8::encode_utf8(hyphenated(id)) ==> r == Some(id),
{
    proof {
        assert forall|id: u128|
            version_num(id) == 4 && is_rfc4122(id) && values@.len() == 1 && values@[0]@
                == #[trigger] vstd::utf8::encode_utf8(hyphenated(id)) implies is_header_text(
            values@[0]@,
        ) && header_chars(values@[0]@) == hyphenated(id) by {
            lemma_hyphenated_ascii(id);
        }
    }
    if values.len() != 1 {
        return None;
    }
    match header_text(&values[0]) {
        Some(text) => canonical_id(text.as_str()),
        None => None,
    }
}

/// The identity that a request carries through its logs, handlers and response: the
/// accepted incoming one, else `minted` (a fresh UUIDv4).
pub fn request_id_for(values: &Vec<Vec<u8>>, minted: u128) -> (r: u128)
    ensures
        r == match incoming_uuid(values@) {
            Some(id) => id,
            None => minted,
        },
{
    match incoming_id(values) {
        Some(id) => id,
        None => minted,
    }
}

/// The identity of a request: the accepted incoming `x-request-id`, else a freshly minted
/// UUIDv4.
pub fn request_identity(values: &Vec<Vec<u8>>) -> (r: u128)
    ensures
        match incoming_uuid(values@) {
            Some(id) => r == id,
            None => version_num(r) == 4 && is_rfc4122(r),
        },
        forall|id: u128|
            version_num(id) == 4 && is_rfc4122(id) && values@.len() == 1 && values@[0]@
                == #[trigger] vstd::utf8::encode_utf8(hyphenated(id)) ==> r == id,
{
    match incoming_id(values) {
        Some(id) => id,
        None => new_uuid_v4(),
    }
}

} // verus!
