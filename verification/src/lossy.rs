//! Lossy UTF-8 recovery: turning arbitrary bytes into text, repairing invalid
//! sequences with the Unicode replacement character instead of failing.

use std::borrow::Cow;
use vstd::prelude::*;
use vstd::utf8::{decode_utf8, valid_utf8};

verus! {

/// What a lossy UTF-8 decode yields on bytes that are not valid UTF-8: the
/// decoded text with each invalid sequence replaced by U+FFFD. A function of
/// the bytes alone.
pub uninterp spec fn repaired_utf8(bytes: Seq<u8>) -> Seq<char>;

/// The text a lossy UTF-8 decode of `bytes` yields: exactly the decoded
/// characters when the bytes are valid UTF-8, the repaired text otherwise.
pub open spec fn lossy_utf8(bytes: Seq<u8>) -> Seq<char> {
    if valid_utf8(bytes) {
        decode_utf8(bytes)
    } else {
        repaired_utf8(bytes)
    }
}

/// Relies on `String::from_utf8_lossy` (with `String::from_utf8` reclaiming
/// the buffer on the borrowed, already-valid branch): on valid UTF-8 it
/// returns exactly the characters the bytes encode; on invalid input it
/// substitutes U+FFFD for each invalid sequence, a result that depends on the
/// bytes alone.
#[verifier::external_body]
pub(crate) fn lossy_string_from_bytes(content: Vec<u8>) -> (r: String)
    ensures
        r@ == lossy_utf8(content@),
        !valid_utf8(content@) ==> r@ == repaired_utf8(content@),
{
    match String::from_utf8_lossy(&content) {
        Cow::Borrowed(_) => String::from_utf8(content).unwrap(),
        Cow::Owned(repaired) => repaired,
    }
}

} // verus!
