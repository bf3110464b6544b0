//! Reading opencode's JSONC files: comments are blanked out and trailing commas dropped, so
//! that what is left is plain JSON.
use vstd::prelude::*;
use crate::text::{chars_of, push_char};

verus! {

/// Whether `c` has the Unicode White_Space property.
pub open spec fn is_white_space(c: char) -> bool {
    ('\u{9}' <= c && c <= '\u{d}') || c == ' ' || c == '\u{85}' || c == '\u{a0}' || c
        == '\u{1680}' || ('\u{2000}' <= c && c <= '\u{200a}') || c == '\u{2028}' || c
        == '\u{2029}' || c == '\u{202f}' || c == '\u{205f}' || c == '\u{3000}'
}

/// `char::is_whitespace`.
pub fn is_whitespace(c: char) -> (r: bool)
    ensures
        r == is_white_space(c),
{
    ('\u{9}' <= c && c <= '\u{d}') || c == ' ' || c == '\u{85}' || c == '\u{a0}' || c
        == '\u{1680}' || ('\u{2000}' <= c && c <= '\u{200a}') || c == '\u{2028}' || c
        == '\u{2029}' || c == '\u{202f}' || c == '\u{205f}' || c == '\u{3000}'
}

/// Where a scan of JSON text stands: inside a string literal or not, and, inside one,
/// whether the previous character was an escaping backslash.
pub struct ScanState {
    pub in_string: bool,
    pub escaped: bool,
}

pub open spec fn scan_step(st: ScanState, c: char) -> ScanState {
    if st.in_string {
        if st.escaped {
            ScanState { in_string: true, escaped: false }
        } else if c == '\\' {
            ScanState { in_string: true, escaped: true }
        } else if c == '"' {
            ScanState { in_string: false, escaped: false }
        } else {
            ScanState { in_string: true, escaped: false }
        }
    } else if c == '"' {
        ScanState { in_string: true, escaped: false }
    } else {
        st
    }
}

/// The scan state after the first `n` characters of `s`.
pub open spec fn scan(s: Seq<char>, n: int) -> ScanState
    decreases n,
{
    if n <= 0 || n > s.len() {
        ScanState { in_string: false, escaped: false }
    } else {
        scan_step(scan(s, n - 1), s[n - 1])
    }
}

/// Whether the first character at or after `j` that is not white space closes an object
/// or an array.
pub open spec fn closes_after(s: Seq<char>, j: int) -> bool
    decreases s.len() - j,
{
    if j < 0 || j >= s.len() {
        false
    } else if is_white_space(s[j]) {
        closes_after(s, j + 1)
    } else {
        s[j] == '}' || s[j] == ']'
    }
}

/// Whether the character at `i` is a trailing comma: a comma outside any string literal
/// that is followed, past white space, by `}` or `]`.
pub open spec fn is_trailing_comma(s: Seq<char>, i: int) -> bool {
    !scan(s, i).in_string && s[i] == ',' && closes_after(s, i + 1)
}

/// The first `n` characters of `s` without the trailing commas among them.
pub open spec fn kept_prefix(s: Seq<char>, n: int) -> Seq<char>
    decreases n,
{
    if n <= 0 || n > s.len() {
        Seq::empty()
    } else if is_trailing_comma(s, n - 1) {
        kept_prefix(s, n - 1)
    } else {
        kept_prefix(s, n - 1).push(s[n - 1])
    }
}

/// `s` without its trailing commas.
pub open spec fn without_trailing_commas(s: Seq<char>) -> Seq<char> {
    kept_prefix(s, s.len() as int)
}

proof fn lemma_closes_through(s: Seq<char>, k: int, j: int)
    requires
        0 <= k <= j < s.len(),
        forall|m: int| k <= m < j ==> is_white_space(#[trigger] s[m]),
    ensures
        closes_after(s, k) == closes_after(s, j),
    decreases j - k,
{
    if k < j {
        lemma_closes_through(s, k + 1, j);
    }
}

/// A comma outside string literals that is followed by white space only (any character
/// that `char::is_whitespace` accepts, `\r` among them) and then by `}` or `]` is dropped,
/// however much white space stands between; followed, past white space, by anything else,
/// it is kept.
pub proof fn law_trailing_comma_dropped(s: Seq<char>, i: int, j: int)
    requires
        0 <= i < j < s.len(),
        s[i] == ',',
        !scan(s, i).in_string,
        forall|k: int| i < k < j ==> is_white_space(#[trigger] s[k]),
    ensures
        (s[j] == '}' || s[j] == ']') ==> is_trailing_comma(s, i),
        (!is_white_space(s[j]) && s[j] != '}' && s[j] != ']') ==> !is_trailing_comma(s, i),
{
    lemma_closes_through(s, i + 1, j);
}

/// Every character but a dropped comma is kept: the cleaned text of `s` is `s` with its
/// trailing commas left out, and a text without trailing commas comes out unchanged.
pub proof fn law_only_trailing_commas_dropped(s: Seq<char>, n: int)
    requires
        0 <= n <= s.len(),
    ensures
        (forall|i: int| 0 <= i < n ==> !is_trailing_comma(s, i)) ==> kept_prefix(s, n) == s.take(n),
        kept_prefix(s, n).len() <= n,
        n > 0 && !is_trailing_comma(s, n - 1) ==> kept_prefix(s, n).last() == s[n - 1],
    decreases n,
{
    if n > 0 {
        law_only_trailing_commas_dropped(s, n - 1);
        if forall|i: int| 0 <= i < n ==> !is_trailing_comma(s, i) {
            assert(!is_trailing_comma(s, n - 1));
            assert(s.take(n - 1).push(s[n - 1]) =~= s.take(n));
        }
    } else {
        assert(s.take(0) =~= Seq::<char>::empty());
    }
}

/// Drops every comma that stands outside string literals and is followed, past white
/// space, by `}` or `]`; every other character, string contents included, is kept.
pub fn remove_trailing_commas(text: &str) -> (r: String)
    ensures
        r@ == without_trailing_commas(text@),
{
    let chars = chars_of(text);
    let ghost s = chars@;
    let mut out = String::new();
    let mut in_string = false;
    let mut escape = false;
    let mut i: usize = 0;
    while i < chars.len()
        invariant
            s == chars@,
            s == text@,
            i <= s.len(),
            out@ == kept_prefix(s, i as int),
            scan(s, i as int) == (ScanState { in_string: in_string, escaped: escape }),
            !in_string ==> !escape,
        decreases s.len() - i,
    {
        let c = chars[i];
        if in_string {
            push_char(&mut out, c);
            if escape {
                escape = false;
            } else if c == '\\' {
                escape = true;
            } else if c == '"' {
                in_string = false;
            }
            i += 1;
            continue;
        }
        if c == ',' {
            let mut j = i + 1;
            while j < chars.len() && is_whitespace(chars[j])
                invariant
                    s == chars@,
                    i < j <= s.len(),
                    closes_after(s, i + 1) == closes_after(s, j as int),
                decreases s.len() - j,
            {
                j += 1;
            }
            let closes = j < chars.len() && (chars[j] == '}' || chars[j] == ']');
            if !closes {
                push_char(&mut out, c);
            }
            i += 1;
        } else {
            push_char(&mut out, c);
            if c == '"' {
                in_string = true;
            }
            i += 1;
        }
    }
    out
}

/// What blanking out the comments of `text` gives: the text with every `//` and `#` line
/// comment and every `/* */` block comment turned into spaces, or an error message when the
/// text ends inside a string or a block comment or holds a lone `/`.
pub uninterp spec fn stripped_comments(text: Seq<char>) -> Result<Seq<char>, Seq<char>>;

/// Blanks out the comments of `text` with `json_comments::StripComments`.
#[verifier::external_body]
fn strip_comments(text: &str) -> (r: Result<String, String>)
    ensures
        match r {
            Ok(s) => stripped_comments(text@) == Ok::<Seq<char>, Seq<char>>(s@),
            Err(e) => stripped_comments(text@) == Err::<Seq<char>, Seq<char>>(e@),
        },
{
    let mut out = String::new();
    let mut reader = json_comments::StripComments::new(text.as_bytes());
    match std::io::Read::read_to_string(&mut reader, &mut out) {
        Ok(_) => Ok(out),
        Err(e) => Err(e.to_string()),
    }
}

/// The plain JSON text of a JSONC document: comments blanked out, then trailing commas
/// dropped; an error message when the comments cannot be stripped.
pub fn clean_jsonc(text: &str) -> (r: Result<String, String>)
    ensures
        match stripped_comments(text@) {
            Ok(s) => r matches Ok(c) && c@ == without_trailing_commas(s),
            Err(e) => r matches Err(m) && m@ == e,
        },
{
    match strip_comments(text) {
        Ok(s) => Ok(remove_trailing_commas(s.as_str())),
        Err(e) => Err(e),
    }
}

} // verus!
