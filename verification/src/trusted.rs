use base64::Engine;
use sha2::Digest;
use vstd::prelude::*;
use vstd::utf8::*;

verus! {

/// The SHA-256 digest of a byte string.
pub uninterp spec fn sha256_digest(data: Seq<u8>) -> Seq<u8>;

/// The standard base64 text of a byte string: the alphabet of RFC 4648,
/// with padding.
pub uninterp spec fn base64_standard_text(data: Seq<u8>) -> Seq<char>;

/// The bytes that a text stands for as standard base64 with canonical
/// padding, or `None` where the text is no such encoding.
pub uninterp spec fn base64_standard_bytes(text: Seq<char>) -> Option<Seq<u8>>;

/// The text that `String::from_utf8_lossy` makes of a byte string.
pub uninterp spec fn utf8_lossy_text(bytes: Seq<u8>) -> Seq<char>;

/// `base64::DecodeError`, carried through as an opaque value.
#[verifier::external_type_specification]
#[verifier::external_body]
pub struct ExDecodeError(base64::DecodeError);

/// Whether a byte string of length `len` has a base64 text whose length
/// fits the machine's address space.
pub open spec fn encodable_len(len: nat) -> bool {
    len / 3 * 4 + 4 <= usize::MAX
}

/// `Digest::digest` of `sha2::Sha256`. Trusted: the result is the SHA-256
/// digest of `data`, which has 32 bytes.
#[verifier::external_body]
pub(crate) fn sha256(data: &[u8]) -> (res: Vec<u8>)
    ensures
        res@ == sha256_digest(data@),
        res@.len() == 32,
{
    sha2::Sha256::digest(data).to_vec()
}

/// `Engine::encode` of `base64::engine::general_purpose::STANDARD`.
/// Trusted: the result is the standard base64 text of `data`, and decoding
/// that text with the same engine gives `data` back. The call panics where
/// the text's length overflows `usize`; the precondition leaves that out.
#[verifier::external_body]
pub(crate) fn base64_encode(data: &[u8]) -> (res: String)
    requires
        encodable_len(data@.len()),
    ensures
        res@ == base64_standard_text(data@),
        base64_standard_bytes(res@) == Some(data@),
{
    base64::engine::general_purpose::STANDARD.encode(data)
}

/// `Engine::decode` of `base64::engine::general_purpose::STANDARD`.
/// Trusted: the call succeeds exactly on standard base64 text, with the
/// bytes that the text stands for.
#[verifier::external_body]
pub(crate) fn base64_decode(text: &str) -> (res: Result<Vec<u8>, base64::DecodeError>)
    ensures
        match res {
            Ok(bytes) => base64_standard_bytes(text@) == Some(bytes@),
            Err(_) => base64_standard_bytes(text@) is None,
        },
{
    base64::engine::general_purpose::STANDARD.decode(text)
}

/// The `Display` text of a `base64::DecodeError`. Nothing is claimed of it.
#[verifier::external_body]
pub(crate) fn decode_error_text(error: &base64::DecodeError) -> String {
    error.to_string()
}

/// `machineid_rs::IdBuilder::build` for the system identifier alone, keyed
/// with `salt` under HMAC-SHA256. The result depends on the machine, so
/// nothing is claimed of it; a failure comes back as its `Display` text.
#[verifier::external_body]
pub(crate) fn system_fingerprint(salt: &str) -> Result<String, String> {
    let mut builder = machineid_rs::IdBuilder::new(machineid_rs::Encryption::SHA256);
    builder.add_component(machineid_rs::HWIDComponent::SystemID);
    match builder.build(salt) {
        Ok(fingerprint) => Ok(fingerprint),
        Err(error) => Err(error.to_string()),
    }
}

/// `String::from_utf8`. Trusted: the call succeeds exactly on valid UTF-8,
/// with the text that the bytes encode.
#[verifier::external_body]
pub(crate) fn text_from_utf8(bytes: Vec<u8>) -> (res: Option<String>)
    ensures
        match res {
            Some(text) => valid_utf8(bytes@) && text@ == decode_utf8(bytes@),
            None => !valid_utf8(bytes@),
        },
{
    match String::from_utf8(bytes) {
        Ok(text) => Some(text),
        Err(_) => None,
    }
}

/// `String::from_utf8_lossy`, made an owned string. Trusted: the result is
/// determined by the bytes, and valid UTF-8 comes out as the text it
/// encodes.
#[verifier::external_body]
pub(crate) fn text_lossy(bytes: &[u8]) -> (res: String)
    ensures
        res@ == utf8_lossy_text(bytes@),
        valid_utf8(bytes@) ==> res@ == decode_utf8(bytes@),
{
    String::from_utf8_lossy(bytes).into_owned()
}

} // verus!
