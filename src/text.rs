//! Turning spans of source bytes into text.
use vstd::prelude::*;
use vstd::utf8::{decode_utf8, valid_utf8};

verus! {

/// Unicode's White_Space property.
pub open spec fn is_white_space(c: char) -> bool {
    let u = c as u32;
    (9 <= u <= 13) || u == 32 || u == 0x85 || u == 0xa0 || u == 0x1680 || (0x2000 <= u <= 0x200a)
        || u == 0x2028 || u == 0x2029 || u == 0x202f || u == 0x205f || u == 0x3000
}

pub open spec fn trim_start(s: Seq<char>) -> Seq<char>
    decreases s.len(),
{
    if s.len() > 0 && is_white_space(s[0]) {
        trim_start(s.drop_first())
    } else {
        s
    }
}

pub open spec fn trim_end(s: Seq<char>) -> Seq<char>
    decreases s.len(),
{
    if s.len() > 0 && is_white_space(s.last()) {
        trim_end(s.drop_last())
    } else {
        s
    }
}

/// The text without its leading and trailing white space.
pub open spec fn trimmed(s: Seq<char>) -> Seq<char> {
    trim_end(trim_start(s))
}

/// The length of the longest prefix of `b`, no longer than `j`, that is valid UTF-8.
pub open spec fn valid_prefix(b: Seq<u8>, j: int) -> int
    decreases j,
{
    if j <= 0 {
        0
    } else if valid_utf8(b.subrange(0, j)) {
        j
    } else {
        valid_prefix(b, j - 1)
    }
}

/// How far the bytes are valid UTF-8: the length of their longest valid prefix.
pub open spec fn valid_up_to(b: Seq<u8>) -> int {
    valid_prefix(b, b.len() as int)
}

/// Relies on `std::str::from_utf8`: it accepts exactly the byte sequences that are
/// valid UTF-8, and the text it gives is the one those bytes encode; otherwise
/// its error's `valid_up_to` is the largest index up to which the bytes are
/// valid UTF-8.
#[verifier::external_body]
pub(crate) fn decode_text(b: &[u8]) -> (r: Result<String, usize>)
    ensures
        r is Ok <==> valid_utf8(b@),
        r matches Ok(t) ==> t@ == decode_utf8(b@),
        r matches Err(k) ==> k == valid_up_to(b@) && k <= b@.len(),
{
    match std::str::from_utf8(b) {
        Ok(t) => Ok(t.to_string()),
        Err(e) => Err(e.valid_up_to()),
    }
}

/// Relies on `str::trim`: it removes the leading and trailing characters that have
/// Unicode's White_Space property.
#[verifier::external_body]
pub(crate) fn trim_text(t: &str) -> (r: String)
    ensures
        r@ == trimmed(t@),
{
    t.trim().to_string()
}

} // verus!
