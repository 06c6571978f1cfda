//! The few outside calls the codec rests on, each behind one trusted
//! wrapper whose contract states what the called crate's source and
//! documentation promise.

use vstd::prelude::*;
use vstd::utf8::{decode_utf8, valid_utf8};

verus! {

/// The byte sequence that standard (padded) base64 decoding yields for
/// the given text, or `None` where the text is not well-formed base64.
/// The result is determined by the input alone.
pub uninterp spec fn b64_decoded(s: Seq<u8>) -> Option<Seq<u8>>;

/// Relies on base64's `Engine::decode` with the `STANDARD` engine: a pure
/// function of the input that succeeds exactly on well-formed standard
/// base64 and returns the decoded bytes.
#[verifier::external_body]
pub(crate) fn base64_decode(s: &[u8]) -> (r: Option<Vec<u8>>)
    ensures
        match r {
            Some(v) => b64_decoded(s@) == Some(v@),
            None => b64_decoded(s@) is None,
        },
{
    base64::Engine::decode(&base64::engine::general_purpose::STANDARD, s).ok()
}

/// Relies on `String::from_utf8`: succeeds exactly on valid UTF-8 and
/// keeps the bytes, so the returned text decodes them.
#[verifier::external_body]
pub(crate) fn string_from_utf8(v: &[u8]) -> (r: Option<String>)
    ensures
        match r {
            Some(t) => valid_utf8(v@) && t@ == decode_utf8(v@),
            None => !valid_utf8(v@),
        },
{
    String::from_utf8(v.to_vec()).ok()
}

/// The character sequence that lossy UTF-8 decoding yields for the given
/// bytes, invalid sequences replaced. The result is determined by the
/// input alone.
pub uninterp spec fn lossy_chars(s: Seq<u8>) -> Seq<char>;

/// Relies on `String::from_utf8_lossy`: a pure function of the bytes
/// that returns the text unchanged when the bytes are valid UTF-8.
#[verifier::external_body]
pub(crate) fn string_from_utf8_lossy(v: &[u8]) -> (r: String)
    ensures
        r@ == lossy_chars(v@),
        valid_utf8(v@) ==> r@ == decode_utf8(v@),
{
    String::from_utf8_lossy(v).into_owned()
}

} // verus!
