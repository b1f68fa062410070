//! Base64 text, as the standard padded alphabet writes it.

use base64::prelude::BASE64_STANDARD;
use base64::DecodeError;
use base64::Engine;
use vstd::prelude::*;

verus! {

/// `base64::DecodeError`, of which nothing is looked into.
#[verifier::external_type_specification]
#[verifier::external_body]
pub struct ExDecodeError(DecodeError);

/// The bytes that `text` stands for in standard base64 with padding, where
/// it is such text.
pub uninterp spec fn base64_decoded(text: Seq<char>) -> Option<Seq<u8>>;

/// The standard base64 form of `bytes`, with padding.
pub uninterp spec fn base64_encoded(bytes: Seq<u8>) -> Seq<char>;

/// `base64::Engine::decode` of the engine `BASE64_STANDARD`.
#[verifier::external_body]
fn decode(text: &str) -> (r: Result<Vec<u8>, DecodeError>)
    ensures
        r is Ok <==> base64_decoded(text@) is Some,
        r matches Ok(bytes) ==> base64_decoded(text@) == Some(bytes@),
{
    BASE64_STANDARD.decode(text)
}

/// `base64::Engine::encode` of the engine `BASE64_STANDARD`. The text is
/// four characters to three bytes, and has to be no longer than a buffer can
/// be. Decoding the text gives the bytes back.
#[verifier::external_body]
fn encode(bytes: &[u8]) -> (r: String)
    requires
        bytes@.len() <= MAX_ENCODE_LEN,
    ensures
        r@ == base64_encoded(bytes@),
        base64_decoded(r@) == Some(bytes@),
{
    BASE64_STANDARD.encode(bytes)
}

/// Reads standard base64 text, or tells that `text` is none.
pub fn from_base64(text: &str) -> (r: Option<Vec<u8>>)
    ensures
        r is Some <==> base64_decoded(text@) is Some,
        r matches Some(bytes) ==> base64_decoded(text@) == Some(bytes@),
{
    match decode(text) {
        Ok(bytes) => Some(bytes),
        Err(_) => None,
    }
}

/// The longest input that `to_base64` takes: three eighths of the address
/// space, whose text fills the longest buffer that there can be.
pub const MAX_ENCODE_LEN: usize = usize::MAX / 8 * 3;

/// Writes `bytes` as standard base64 text, unless there are more than
/// `MAX_ENCODE_LEN` of them. `from_base64` reads the bytes back from the
/// text.
pub fn to_base64(bytes: &[u8]) -> (r: Option<String>)
    ensures
        r is Some <==> bytes@.len() <= MAX_ENCODE_LEN,
        r matches Some(text) ==> text@ == base64_encoded(bytes@) && base64_decoded(text@) == Some(
            bytes@,
        ),
{
    if bytes.len() > MAX_ENCODE_LEN {
        None
    } else {
        Some(encode(bytes))
    }
}

} // verus!
