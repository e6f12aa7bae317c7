//! Bytes as text: UTF-8 decoding, and pattern search with the `regex` crate.

use vstd::prelude::*;
use vstd::utf8::{encode_utf8, encode_utf8_decode_utf8, valid_utf8};

verus! {

/// Calls `String::from_utf8`. The standard library accepts exactly the byte
/// strings that are valid UTF-8, and the string it builds holds the bytes it
/// was given.
#[verifier::external_body]
fn string_from_utf8(bytes: Vec<u8>) -> (text: Option<String>)
    ensures
        text is Some <==> valid_utf8(bytes@),
        text matches Some(s) ==> encode_utf8(s@) == bytes@,
{
    String::from_utf8(bytes).ok()
}

/// The text that `bytes` encode in UTF-8, if they encode one.
pub fn decode_text(bytes: Vec<u8>) -> (text: Option<String>)
    ensures
        text is Some <==> valid_utf8(bytes@),
        text matches Some(s) ==> encode_utf8(s@) == bytes@,
{
    string_from_utf8(bytes)
}

/// Whether two byte strings hold the same bytes.
pub fn same_bytes(a: &[u8], b: &[u8]) -> (same: bool)
    ensures
        same == (a@ == b@),
{
    if a.len() != b.len() {
        return false;
    }
    let mut i: usize = 0;
    while i < a.len()
        invariant
            i <= a@.len(),
            a@.len() == b@.len(),
            forall|k: int| 0 <= k < i ==> a@[k] == b@[k],
        decreases a@.len() - i,
    {
        if a[i] != b[i] {
            return false;
        }
        i = i + 1;
    }
    assert(a@ =~= b@);
    true
}

/// Whether two texts hold the same characters.
pub fn same_text(a: &str, b: &str) -> (same: bool)
    ensures
        same == (a@ == b@),
{
    proof {
        encode_utf8_decode_utf8(a@);
        encode_utf8_decode_utf8(b@);
    }
    same_bytes(a.as_bytes(), b.as_bytes())
}

/// Whether the `regex` crate accepts `pattern` as a regular expression.
pub uninterp spec fn regex_compiles(pattern: Seq<char>) -> bool;

/// Start and end of the first match of `pattern` in `text`, as the `regex`
/// crate finds it, for a pattern that it accepts.
pub uninterp spec fn regex_first_match(pattern: Seq<char>, text: Seq<u8>) -> Option<(int, int)>;

/// Outcome of one search.
#[derive(Clone, Copy, Debug, PartialEq, Eq, Structural)]
pub enum Search {
    /// The pattern is not a regular expression.
    Refused,
    /// The pattern matches nowhere in the text.
    Absent,
    /// Byte offsets of the start and the end of the first match.
    Found(usize, usize),
}

/// What a search for `pattern` in `text` yields.
pub open spec fn search_spec(pattern: Seq<char>, text: Seq<u8>) -> Option<(int, int)> {
    if regex_compiles(pattern) {
        regex_first_match(pattern, text)
    } else {
        None
    }
}

/// Compiles `pattern` with `regex::bytes::Regex::new` and searches `text`
/// with `Regex::find`. The crate refuses a pattern for reasons that lie in
/// the pattern alone. A match it reports is the first one, given by the byte
/// offsets of its start and end.
#[verifier::external_body]
fn regex_find(pattern: &str, text: &[u8]) -> (outcome: Search)
    ensures
        outcome is Refused <==> !regex_compiles(pattern@),
        outcome is Absent ==> regex_first_match(pattern@, text@) is None,
        outcome matches Search::Found(start, end) ==> regex_first_match(pattern@, text@) == Some(
            (start as int, end as int),
        ),
{
    match regex::bytes::Regex::new(pattern) {
        Ok(re) => match re.find(text) {
            Some(m) => Search::Found(m.start(), m.end()),
            None => Search::Absent,
        },
        Err(_) => Search::Refused,
    }
}

/// Start and end of the first match of `pattern` in `text`; `None` when
/// there is no match or the pattern is not a regular expression.
pub fn first_match(pattern: &str, text: &[u8]) -> (found: Option<(usize, usize)>)
    ensures
        found matches Some(span) ==> search_spec(pattern@, text@) == Some(
            (span.0 as int, span.1 as int),
        ),
        found is None ==> search_spec(pattern@, text@) is None,
{
    match regex_find(pattern, text) {
        Search::Found(start, end) => Some((start, end)),
        Search::Absent => None,
        Search::Refused => None,
    }
}

} // verus!
