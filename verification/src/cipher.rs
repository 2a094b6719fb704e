use crate::trusted::{
    base64_decode, base64_encode, base64_standard_bytes, base64_standard_text, decode_error_text,
    encodable_len, sha256, sha256_digest, system_fingerprint, text_from_utf8,
};
use vstd::prelude::*;
use vstd::string::*;
use vstd::utf8::*;

verus! {

/// The salt under which the machine fingerprint is taken.
pub const FINGERPRINT_SALT: &'static str = "hayfrp-client-far1sh";

/// Why text could not be obfuscated or recovered.
#[derive(Debug, PartialEq, Eq)]
pub enum CipherError {
    /// There is nothing to obfuscate.
    EmptyToken,
    /// The token is so long that the length of its base64 text does not
    /// fit the machine's address space.
    TokenTooLong,
    /// The encoded text is not standard base64; the text says where.
    Decode(String),
    /// The bytes recovered under this key are not text: the key is not the
    /// one that the text was obfuscated under.
    InvalidKey,
    /// The machine gave no fingerprint; the text says why.
    NoFingerprint(String),
}

/// `data` with the key laid over it, repeated as often as needed, and
/// combined byte by byte with exclusive or.
pub open spec fn masked(data: Seq<u8>, key: Seq<u8>) -> Seq<u8> {
    Seq::new(data.len(), |i: int| data[i] ^ key[i % (key.len() as int)])
}

/// The key that a machine fingerprint gives: the digest of its bytes.
pub open spec fn key_of(fingerprint: Seq<char>) -> Seq<u8> {
    sha256_digest(encode_utf8(fingerprint))
}

/// `encoded` is the obfuscated form of `token` under `key`: the base64
/// text of the masked bytes of `token`, which decodes to those bytes.
pub open spec fn is_sealing(encoded: Seq<char>, token: Seq<char>, key: Seq<u8>) -> bool {
    &&& encoded == base64_standard_text(masked(encode_utf8(token), key))
    &&& base64_standard_bytes(encoded) == Some(masked(encode_utf8(token), key))
}

/// What recovering text from an encoded form comes to.
pub enum Opened {
    /// The text that was obfuscated.
    Text(Seq<char>),
    /// The encoded form is not standard base64.
    Malformed,
    /// The unmasked bytes are not valid UTF-8.
    InvalidKey,
}

/// What unmasking already decoded bytes under `key` comes to.
pub open spec fn unmasked(bytes: Seq<u8>, key: Seq<u8>) -> Opened {
    if valid_utf8(masked(bytes, key)) {
        Opened::Text(decode_utf8(masked(bytes, key)))
    } else {
        Opened::InvalidKey
    }
}

/// What recovering the text of `encoded` under `key` comes to.
pub open spec fn opened(encoded: Seq<char>, key: Seq<u8>) -> Opened {
    match base64_standard_bytes(encoded) {
        None => Opened::Malformed,
        Some(bytes) => unmasked(bytes, key),
    }
}

/// Whether `res` is what a recovery that came to `outcome` returns.
pub open spec fn reports(res: Result<String, CipherError>, outcome: Opened) -> bool {
    match outcome {
        Opened::Text(text) => res matches Ok(found) && found@ == text,
        Opened::Malformed => res matches Err(CipherError::Decode(_)),
        Opened::InvalidKey => res == Err::<String, CipherError>(CipherError::InvalidKey),
    }
}

impl CipherError {
    /// The error as text for the caller.
    pub fn message(&self) -> (res: String)
        ensures
            res@ == (match self {
                CipherError::EmptyToken => "Token is empty"@,
                CipherError::TokenTooLong => "Token is too long"@,
                CipherError::Decode(detail) => "Base64 decode error: "@ + detail@,
                CipherError::InvalidKey => "Decryption error: invalid key"@,
                CipherError::NoFingerprint(detail) => "Failed to build HWID: "@ + detail@,
            }),
    {
        match self {
            CipherError::EmptyToken => String::from_str("Token is empty"),
            CipherError::TokenTooLong => String::from_str("Token is too long"),
            CipherError::Decode(detail) => String::from_str("Base64 decode error: ").concat(
                detail.as_str(),
            ),
            CipherError::InvalidKey => String::from_str("Decryption error: invalid key"),
            CipherError::NoFingerprint(detail) => String::from_str(
                "Failed to build HWID: ",
            ).concat(detail.as_str()),
        }
    }
}

/// Masking is its own inverse: laying the same key over masked bytes gives
/// the bytes back.
pub proof fn lemma_mask_twice(data: Seq<u8>, key: Seq<u8>)
    requires
        key.len() > 0,
    ensures
        masked(masked(data, key), key) == data,
{
    assert forall|i: int| 0 <= i < data.len() implies masked(masked(data, key), key)[i]
        == data[i] by {
        let d = data[i];
        let k = key[i % (key.len() as int)];
        assert((d ^ k) ^ k == d) by (bit_vector);
    }
    assert(masked(masked(data, key), key) =~= data);
}

/// Round trip, in terms of what the two functions return: where
/// obfuscating a text under a key succeeds, recovering under the same key
/// returns that text.
pub proof fn lemma_decrypt_inverts_encrypt(
    token: Seq<char>,
    key: Seq<u8>,
    sealed: Result<String, CipherError>,
    recovered: Result<String, CipherError>,
)
    requires
        key.len() > 0,
        seals(sealed, token, key),
        sealed is Ok,
        reports(recovered, opened(sealed->Ok_0@, key)),
    ensures
        recovered matches Ok(text) && text@ == token,
{
    lemma_round_trip(token, key, sealed->Ok_0@);
}

/// Round trip: recovering, under the same key, what obfuscating a
/// non-empty text gave returns that text.
pub proof fn lemma_round_trip(token: Seq<char>, key: Seq<u8>, encoded: Seq<char>)
    requires
        token.len() > 0,
        key.len() > 0,
        is_sealing(encoded, token, key),
    ensures
        opened(encoded, key) == Opened::Text(token),
{
    let plain = encode_utf8(token);
    lemma_mask_twice(plain, key);
    encode_utf8_valid_utf8(token);
    encode_utf8_decode_utf8(token);
}

/// Lays `key` over `data`: byte `i` of the result is byte `i` of `data`
/// combined by exclusive or with byte `i mod key.len()` of `key`.
pub fn xor_with_key(data: &[u8], key: &[u8]) -> (res: Vec<u8>)
    requires
        key@.len() > 0,
    ensures
        res@ == masked(data@, key@),
{
    let mut result: Vec<u8> = Vec::with_capacity(data.len());
    let mut i: usize = 0;
    while i < data.len()
        invariant
            key@.len() > 0,
            i <= data@.len(),
            result@.len() == i,
            forall|k: int| 0 <= k < i ==> result@[k] == data@[k] ^ key@[k % (key@.len() as int)],
        decreases data@.len() - i,
    {
        result.push(data[i] ^ key[i % key.len()]);
        i += 1;
    }
    assert(result@ =~= masked(data@, key@));
    result
}

/// The obfuscation key for a machine fingerprint: the SHA-256 digest of
/// the fingerprint's bytes.
pub fn derive_key(fingerprint: &str) -> (res: Vec<u8>)
    ensures
        res@ == key_of(fingerprint@),
        res@.len() == 32,
{
    sha256(fingerprint.as_bytes())
}

/// The obfuscation key of this machine: 32 bytes derived from its
/// fingerprint. Fails only where the machine gives no fingerprint.
pub fn get_hw_hash() -> (res: Result<Vec<u8>, CipherError>)
    ensures
        match res {
            Ok(key) => key@.len() == 32 && exists|fingerprint: Seq<char>|
                key@ == key_of(fingerprint),
            Err(error) => error is NoFingerprint,
        },
{
    match system_fingerprint(FINGERPRINT_SALT) {
        Ok(fingerprint) => {
            let key = derive_key(fingerprint.as_str());
            assert(key@ == key_of(fingerprint@));
            Ok(key)
        },
        Err(reason) => Err(CipherError::NoFingerprint(reason)),
    }
}

/// Whether `res` is what obfuscating `token` under `key` returns.
///
/// The empty token is refused, and so is a token whose base64 text no
/// machine of this address width can hold. Every other token gives its
/// obfuscated form.
pub open spec fn seals(res: Result<String, CipherError>, token: Seq<char>, key: Seq<u8>) -> bool {
    if token.len() == 0 {
        res == Err::<String, CipherError>(CipherError::EmptyToken)
    } else if !encodable_len(encode_utf8(token).len()) {
        res == Err::<String, CipherError>(CipherError::TokenTooLong)
    } else {
        res matches Ok(encoded) && is_sealing(encoded@, token, key)
    }
}

/// Obfuscates `token` under `key`: masks its UTF-8 bytes and writes the
/// result as standard base64.
pub fn encrypt_with_key(token: &str, key: &[u8]) -> (res: Result<String, CipherError>)
    requires
        key@.len() > 0,
    ensures
        seals(res, token@, key@),
{
    if token.is_empty() {
        return Err(CipherError::EmptyToken);
    }
    let plain = token.as_bytes();
    if plain.len() / 3 > (usize::MAX - 4) / 4 {
        return Err(CipherError::TokenTooLong);
    }
    let bytes = xor_with_key(plain, key);
    Ok(base64_encode(bytes.as_slice()))
}

/// Unmasks already decoded bytes under `key` and reads them as text.
pub fn reveal_with_key(bytes: &[u8], key: &[u8]) -> (res: Result<String, CipherError>)
    requires
        key@.len() > 0,
    ensures
        reports(res, unmasked(bytes@, key@)),
{
    match text_from_utf8(xor_with_key(bytes, key)) {
        Some(text) => Ok(text),
        None => Err(CipherError::InvalidKey),
    }
}

/// Recovers the text that `encoded` was obfuscated from under `key`.
///
/// Text that is not standard base64 gives a decode error; bytes that do
/// not unmask to valid UTF-8 give `InvalidKey`.
pub fn decrypt_with_key(encoded: &str, key: &[u8]) -> (res: Result<String, CipherError>)
    requires
        key@.len() > 0,
    ensures
        reports(res, opened(encoded@, key@)),
{
    match base64_decode(encoded) {
        Err(error) => Err(CipherError::Decode(decode_error_text(&error))),
        Ok(bytes) => reveal_with_key(bytes.as_slice(), key),
    }
}

/// Obfuscates `token` under this machine's key.
///
/// The empty token is refused before the machine is asked. Otherwise the
/// result is what obfuscating comes to under the key of whatever
/// fingerprint the machine gave, or the failure to get one.
pub fn secure_encrypt(token: &str) -> (res: Result<String, CipherError>)
    ensures
        token@.len() == 0 ==> res == Err::<String, CipherError>(CipherError::EmptyToken),
        token@.len() > 0 ==> (res matches Err(CipherError::NoFingerprint(_))) || exists|
            fingerprint: Seq<char>,
        | seals(res, token@, key_of(fingerprint)),
{
    if token.is_empty() {
        return Err(CipherError::EmptyToken);
    }
    match get_hw_hash() {
        Err(error) => Err(error),
        Ok(key) => {
            let res = encrypt_with_key(token, key.as_slice());
            proof {
                let fingerprint = choose|fingerprint: Seq<char>| key@ == key_of(fingerprint);
                assert(seals(res, token@, key_of(fingerprint)));
            }
            res
        },
    }
}

/// Recovers the text of `encoded` under this machine's key.
///
/// Text that is not standard base64 gives a decode error before the
/// machine is asked. Otherwise the result is what recovery comes to under
/// the key of whatever fingerprint the machine gave, or the failure to get
/// one.
pub fn secure_decrypt(encoded: &str) -> (res: Result<String, CipherError>)
    ensures
        base64_standard_bytes(encoded@) is None ==> res matches Err(CipherError::Decode(_)),
        base64_standard_bytes(encoded@) is Some ==> (res matches Err(
            CipherError::NoFingerprint(_),
        )) || exists|fingerprint: Seq<char>|
            reports(res, opened(encoded@, key_of(fingerprint))),
{
    let bytes = match base64_decode(encoded) {
        Err(error) => {
            return Err(CipherError::Decode(decode_error_text(&error)));
        },
        Ok(bytes) => bytes,
    };
    match get_hw_hash() {
        Err(error) => Err(error),
        Ok(key) => {
            let res = reveal_with_key(bytes.as_slice(), key.as_slice());
            proof {
                let fingerprint = choose|fingerprint: Seq<char>| key@ == key_of(fingerprint);
                assert(reports(res, opened(encoded@, key_of(fingerprint))));
            }
            res
        },
    }
}

} // verus!
