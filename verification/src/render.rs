//! Lossy text rendering of stored byte fields, for diagnostics.
//!
//! Fields are kept as raw bytes and never re-validated as text, so rendering
//! must not fail on bytes that are not well-formed UTF-8: invalid sequences
//! come out as replacement characters instead. This only affects display;
//! the binary encode/decode contract never goes through here.

use vstd::prelude::*;

verus! {

/// The characters that the lossy UTF-8 decoding of `bytes` yields.
pub uninterp spec fn lossy_text_of(bytes: Seq<u8>) -> Seq<char>;

/// Relies on String::from_utf8_lossy: the result is a function of the bytes
/// alone, and valid UTF-8 — in particular pure ASCII — decodes to itself,
/// while invalid sequences are replaced with U+FFFD.
#[verifier::external_body]
pub(crate) fn lossy_text(bytes: &[u8]) -> (r: String)
    ensures
        r@ == lossy_text_of(bytes@),
        (forall|k: int| 0 <= k < bytes@.len() ==> bytes@[k] < 0x80) ==> r@ == bytes@.map_values(
            |b: u8| b as char,
        ),
{
    String::from_utf8_lossy(bytes).into_owned()
}

} // verus!
