//! Reading the claims of the ChatGPT access token (a JWT): the payload segment, and the
//! account id, data residency, e-mail address and display name that it carries.
use vstd::prelude::*;
use base64::Engine;
use crate::json::{Json, JsonV, member, element, text_of, member_of, element_of, text_copy};
use crate::text::{chars_of, string_of_chars, owned, same_text};

verus! {

broadcast use vstd::string::group_string_axioms;

/// The namespaced claim that carries the ChatGPT account.
pub open spec fn auth_claim() -> Seq<char> {
    "https://api.openai.com/auth"@
}

/// The namespaced claim that carries the profile.
pub open spec fn profile_claim() -> Seq<char> {
    "https://api.openai.com/profile"@
}

/// Position of the first `c` at or after `from` in `s`, or -1.
pub open spec fn find_char(s: Seq<char>, c: char, from: int) -> int
    decreases s.len() - from,
{
    if from < 0 || from >= s.len() {
        -1
    } else if s[from] == c {
        from
    } else {
        find_char(s, c, from + 1)
    }
}

/// The middle segment of a token made of exactly three `.`-separated segments.
pub open spec fn middle_segment(token: Seq<char>) -> Option<Seq<char>> {
    let a = find_char(token, '.', 0);
    let b = find_char(token, '.', a + 1);
    if a < 0 || b < 0 || find_char(token, '.', b + 1) >= 0 {
        None
    } else {
        Some(token.subrange(a + 1, b))
    }
}

proof fn lemma_find_char(s: Seq<char>, c: char, from: int)
    requires
        0 <= from,
    ensures
        find_char(s, c, from) == -1 || (from <= find_char(s, c, from) < s.len() && s[find_char(
            s,
            c,
            from,
        )] == c),
    decreases s.len() - from,
{
    if from < s.len() && s[from] != c {
        lemma_find_char(s, c, from + 1);
    }
}

fn find_dot(cs: &Vec<char>, from: usize) -> (r: Option<usize>)
    requires
        from <= cs@.len(),
    ensures
        match r {
            Some(i) => i as int == find_char(cs@, '.', from as int),
            None => find_char(cs@, '.', from as int) == -1,
        },
{
    let mut i = from;
    while i < cs.len()
        invariant
            from <= i <= cs@.len(),
            find_char(cs@, '.', from as int) == find_char(cs@, '.', i as int),
        decreases cs@.len() - i,
    {
        if cs[i] == '.' {
            return Some(i);
        }
        i += 1;
    }
    None
}

/// The bytes that decoding `input` as unpadded URL-safe base64 gives, or none when it is not
/// such base64.
pub uninterp spec fn base64url_decoded(input: Seq<u8>) -> Option<Seq<u8>>;

/// Whether `b` is in the URL-safe base64 alphabet (`A`-`Z`, `a`-`z`, `0`-`9`, `-`, `_`) or is
/// the padding `=`.
pub open spec fn is_base64url_byte(b: u8) -> bool {
    (65 <= b && b <= 90) || (97 <= b && b <= 122) || (48 <= b && b <= 57) || b == 45 || b == 95
        || b == 61
}

/// Decodes unpadded URL-safe base64 with `base64`'s `URL_SAFE_NO_PAD` engine; input holding a
/// byte outside the alphabet is refused.
#[verifier::external_body]
fn decode_base64url(input: &[u8]) -> (r: Option<Vec<u8>>)
    ensures
        match r {
            Some(v) => base64url_decoded(input@) == Some(v@),
            None => base64url_decoded(input@) is None,
        },
        (exists|i: int| 0 <= i < input@.len() && !is_base64url_byte(#[trigger] input@[i])) ==> r is None,
{
    base64::engine::general_purpose::URL_SAFE_NO_PAD
        .decode(input).ok()
}

/// The payload of a JWT: its middle segment decoded from unpadded URL-safe base64; none when
/// the token is not three `.`-separated segments or the payload is not such base64 (in
/// particular when it holds a character outside the base64 alphabet).
pub fn jwt_payload(token: &str) -> (r: Option<Vec<u8>>)
    ensures
        match middle_segment(token@) {
            Some(m) => match r {
                Some(v) => base64url_decoded(vstd::utf8::encode_utf8(m)) == Some(v@),
                None => base64url_decoded(vstd::utf8::encode_utf8(m)) is None,
            },
            None => r is None,
        },
        middle_segment(token@) matches Some(m) && (exists|i: int|
            0 <= i < vstd::utf8::encode_utf8(m).len() && !is_base64url_byte(
                #[trigger] vstd::utf8::encode_utf8(m)[i],
            )) ==> r is None,
{
    let mut cs = chars_of(token);
    let ghost s = cs@;
    proof {
        vstd::std_specs::vec::axiom_spec_len(&cs);
    }
    let a = match find_dot(&cs, 0) {
        Some(a) => a,
        None => return None,
    };
    proof {
        lemma_find_char(s, '.', 0);
    }
    let b = match find_dot(&cs, a + 1) {
        Some(b) => b,
        None => return None,
    };
    proof {
        lemma_find_char(s, '.', a + 1);
    }
    if find_dot(&cs, b + 1).is_some() {
        return None;
    }
    let mut tail = cs.split_off(a + 1);
    tail.truncate(b - a - 1);
    assert(tail@ =~= s.subrange(a + 1, b as int));
    let middle = string_of_chars(tail.as_slice());
    decode_base64url(middle.as_str().as_bytes())
}

/// The ChatGPT account id of the claims: `chatgpt_account_id`, else the one under the
/// namespaced auth claim, else the id of the first organization.
pub open spec fn account_id_of(claims: JsonV) -> Option<Seq<char>> {
    let direct = text_of(member(claims, "chatgpt_account_id"@));
    let nested = match member(claims, auth_claim()) {
        Some(a) => text_of(member(a, "chatgpt_account_id"@)),
        None => None,
    };
    let org = match member(claims, "organizations"@) {
        Some(o) => match element(o, 0) {
            Some(e) => text_of(member(e, "id"@)),
            None => None,
        },
        None => None,
    };
    if direct is Some {
        direct
    } else if nested is Some {
        nested
    } else {
        org
    }
}

/// The account id comes from the first of its sources that holds a string: the top-level
/// `chatgpt_account_id`, then the one under the namespaced auth claim, then the `id` of the
/// first organization. A later source never overrides an earlier one, and the id is always
/// one of them.
pub proof fn law_account_id_precedence(claims: JsonV)
    ensures
        text_of(member(claims, "chatgpt_account_id"@)) is Some ==> account_id_of(claims) == text_of(
            member(claims, "chatgpt_account_id"@),
        ),
        text_of(member(claims, "chatgpt_account_id"@)) is None && member(claims, auth_claim()) is Some
            && text_of(member(member(claims, auth_claim())->0, "chatgpt_account_id"@)) is Some
            ==> account_id_of(claims) == text_of(
            member(member(claims, auth_claim())->0, "chatgpt_account_id"@),
        ),
        account_id_of(claims) is Some ==> {
            ||| account_id_of(claims) == text_of(member(claims, "chatgpt_account_id"@))
            ||| (member(claims, auth_claim()) is Some && account_id_of(claims) == text_of(
                member(member(claims, auth_claim())->0, "chatgpt_account_id"@),
            ))
            ||| (member(claims, "organizations"@) is Some && element(
                member(claims, "organizations"@)->0,
                0,
            ) is Some && account_id_of(claims) == text_of(
                member(element(member(claims, "organizations"@)->0, 0)->0, "id"@),
            ))
        },
{
}

/// The residency comes from the namespaced auth claim before the top-level one, and is
/// never empty nor `no_constraint`.
pub proof fn law_residency_precedence(claims: JsonV)
    ensures
        member(claims, auth_claim()) is Some && text_of(
            member(member(claims, auth_claim())->0, "chatgpt_compute_residency"@),
        ) is Some ==> residency_of(claims) == {
            let r = text_of(member(member(claims, auth_claim())->0, "chatgpt_compute_residency"@))->0;
            if r.len() > 0 && r != "no_constraint"@ {
                Some(r)
            } else {
                None
            }
        },
        residency_of(claims) is Some ==> residency_of(claims)->0.len() > 0 && residency_of(claims)->0
            != "no_constraint"@,
{
}

pub fn extract_account_id(claims: &Json) -> (r: Option<String>)
    ensures
        match account_id_of(claims@) {
            Some(id) => r matches Some(s) && s@ == id,
            None => r is None,
        },
{
    let direct = text_copy(member_of(claims, "chatgpt_account_id"));
    if direct.is_some() {
        return direct;
    }
    let nested = match member_of(claims, "https://api.openai.com/auth") {
        Some(auth) => text_copy(member_of(auth, "chatgpt_account_id")),
        None => None,
    };
    if nested.is_some() {
        return nested;
    }
    match member_of(claims, "organizations") {
        Some(o) => match element_of(o, 0) {
            Some(e) => text_copy(member_of(e, "id")),
            None => None,
        },
        None => None,
    }
}

/// The data residency of the claims (the namespaced `chatgpt_compute_residency`, else the
/// top-level one), unless it is empty or `no_constraint`.
pub open spec fn residency_of(claims: JsonV) -> Option<Seq<char>> {
    let nested = match member(claims, auth_claim()) {
        Some(a) => text_of(member(a, "chatgpt_compute_residency"@)),
        None => None,
    };
    let found = if nested is Some {
        nested
    } else {
        text_of(member(claims, "chatgpt_compute_residency"@))
    };
    match found {
        Some(r) => if r != "no_constraint"@ && r.len() > 0 {
            Some(r)
        } else {
            None
        },
        None => None,
    }
}

pub fn extract_residency(claims: &Json) -> (r: Option<String>)
    ensures
        match residency_of(claims@) {
            Some(v) => r matches Some(s) && s@ == v,
            None => r is None,
        },
{
    let nested = match member_of(claims, "https://api.openai.com/auth") {
        Some(auth) => text_copy(member_of(auth, "chatgpt_compute_residency")),
        None => None,
    };
    let found = if nested.is_some() {
        nested
    } else {
        text_copy(member_of(claims, "chatgpt_compute_residency"))
    };
    match found {
        Some(r) => if !same_text(r.as_str(), "no_constraint") && !r.as_str().is_empty() {
            Some(r)
        } else {
            None
        },
        None => None,
    }
}

/// The e-mail address of the claims (`email`, else the namespaced profile's), unless empty.
pub open spec fn email_of(claims: JsonV) -> Option<Seq<char>> {
    let direct = text_of(member(claims, "email"@));
    let found = if direct is Some {
        direct
    } else {
        match member(claims, profile_claim()) {
            Some(p) => text_of(member(p, "email"@)),
            None => None,
        }
    };
    match found {
        Some(e) => if e.len() > 0 {
            Some(e)
        } else {
            None
        },
        None => None,
    }
}

pub fn extract_email(claims: &Json) -> (r: Option<String>)
    ensures
        match email_of(claims@) {
            Some(v) => r matches Some(s) && s@ == v,
            None => r is None,
        },
{
    let direct = text_copy(member_of(claims, "email"));
    let found = if direct.is_some() {
        direct
    } else {
        match member_of(claims, "https://api.openai.com/profile") {
            Some(p) => text_copy(member_of(p, "email")),
            None => None,
        }
    };
    match found {
        Some(e) => if !e.as_str().is_empty() {
            Some(e)
        } else {
            None
        },
        None => None,
    }
}

/// The display name of the claims (the namespaced profile's `name`), unless empty.
pub open spec fn display_name_of(claims: JsonV) -> Option<Seq<char>> {
    let found = match member(claims, profile_claim()) {
        Some(p) => text_of(member(p, "name"@)),
        None => None,
    };
    match found {
        Some(n) => if n.len() > 0 {
            Some(n)
        } else {
            None
        },
        None => None,
    }
}

pub fn extract_display_name(claims: &Json) -> (r: Option<String>)
    ensures
        match display_name_of(claims@) {
            Some(v) => r matches Some(s) && s@ == v,
            None => r is None,
        },
{
    let found = match member_of(claims, "https://api.openai.com/profile") {
        Some(p) => text_copy(member_of(p, "name")),
        None => None,
    };
    match found {
        Some(n) => if !n.as_str().is_empty() {
            Some(n)
        } else {
            None
        },
        None => None,
    }
}

} // verus!
