//! Lossy text decoding for the identifiers and names a PSD file stores:
//! ASCII/Latin strings decoded as UTF-8 and UTF-16 big-endian strings.

use vstd::prelude::*;

verus! {

/// What `String::from_utf8_lossy` decodes a byte sequence to.
pub uninterp spec fn utf8_lossy_of(bytes: Seq<u8>) -> Seq<char>;

/// What `String::from_utf16_lossy` decodes a sequence of UTF-16 code units
/// to.
pub uninterp spec fn utf16_lossy_of(units: Seq<u16>) -> Seq<char>;

/// Relies on `String::from_utf8_lossy`: the decoded text is a function of
/// the input bytes alone (invalid sequences become replacement characters,
/// everything else decodes as UTF-8).
#[verifier::external_body]
pub(crate) fn utf8_lossy(bytes: &[u8]) -> (r: String)
    ensures
        r@ == utf8_lossy_of(bytes@),
{
    String::from_utf8_lossy(bytes).into_owned()
}

/// Relies on `String::from_utf16_lossy`: the decoded text is a function of
/// the input code units alone (unpaired surrogates become replacement
/// characters, everything else decodes as UTF-16).
#[verifier::external_body]
pub(crate) fn utf16_lossy(units: &[u16]) -> (r: String)
    ensures
        r@ == utf16_lossy_of(units@),
{
    String::from_utf16_lossy(units)
}

} // verus!
