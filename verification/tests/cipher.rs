use hayfrp_client::cipher::{
    decrypt_with_key, derive_key, encrypt_with_key, get_hw_hash, reveal_with_key, secure_decrypt,
    secure_encrypt, xor_with_key, CipherError, FINGERPRINT_SALT,
};

const FINGERPRINT_KEY: [u8; 32] = [
    68, 134, 59, 3, 233, 144, 155, 113, 0, 224, 91, 2, 82, 105, 9, 163, 70, 253, 116, 85, 24, 63,
    102, 25, 224, 254, 97, 152, 200, 153, 129, 224,
];

#[test]
fn xor_repeats_the_key() {
    assert_eq!(xor_with_key(b"hello", &[1, 2]), vec![0x69, 0x67, 0x6d, 0x6e, 0x6e]);
    assert_eq!(xor_with_key(&[0xff, 0x00, 0xaa], &[0x0f]), vec![0xf0, 0x0f, 0xa5]);
    assert_eq!(xor_with_key(&[1, 2], &[1, 2, 3, 4]), vec![0, 0]);
    assert_eq!(xor_with_key(&[], &[9]), Vec::<u8>::new());
}

#[test]
fn xor_twice_gives_the_data_back() {
    let key = [7u8, 200, 13];
    let data = b"some bytes \x00\xff to mask".to_vec();
    assert_eq!(xor_with_key(&xor_with_key(&data, &key), &key), data);
}

#[test]
fn key_is_the_sha256_of_the_fingerprint() {
    assert_eq!(
        derive_key("abc"),
        vec![
            186, 120, 22, 191, 143, 1, 207, 234, 65, 65, 64, 222, 93, 174, 34, 35, 176, 3, 97, 163,
            150, 23, 122, 156, 180, 16, 255, 97, 242, 0, 21, 173
        ]
    );
    assert_eq!(
        derive_key(""),
        vec![
            227, 176, 196, 66, 152, 252, 28, 20, 154, 251, 244, 200, 153, 111, 185, 36, 39, 174, 65,
            228, 100, 155, 147, 76, 164, 149, 153, 27, 120, 82, 184, 85
        ]
    );
    assert_eq!(derive_key("fingerprint"), FINGERPRINT_KEY.to_vec());
}

#[test]
fn encrypt_masks_then_encodes() {
    assert_eq!(encrypt_with_key("hello", &[1, 2]), Ok("aWdtbm4=".to_string()));
    assert_eq!(encrypt_with_key("a", &[1, 2, 3]), Ok("YA==".to_string()));
    assert_eq!(encrypt_with_key("token-值", &FINGERPRINT_KEY), Ok("MOlQZoe9fvG8".to_string()));
}

#[test]
fn long_token_is_obfuscated_like_any_other() {
    let token = "0123456789".repeat(10_000);
    let encoded = encrypt_with_key(&token, &FINGERPRINT_KEY).unwrap();
    assert_eq!(encoded.len(), 133_336);
    assert_eq!(decrypt_with_key(&encoded, &FINGERPRINT_KEY), Ok(token));
}

#[test]
fn encrypt_refuses_the_empty_token() {
    assert_eq!(encrypt_with_key("", &[1, 2]), Err(CipherError::EmptyToken));
}

#[test]
fn decrypt_recovers_the_text() {
    assert_eq!(decrypt_with_key("aWdtbm4=", &[1, 2]), Ok("hello".to_string()));
    assert_eq!(decrypt_with_key("MOlQZoe9fvG8", &FINGERPRINT_KEY), Ok("token-值".to_string()));
}

#[test]
fn decrypt_of_empty_text_is_empty() {
    assert_eq!(decrypt_with_key("", &[1, 2]), Ok(String::new()));
}

#[test]
fn round_trip_under_one_key() {
    let key = derive_key("some machine");
    for token in ["x", "hello world", "密码 with spaces", "line\nbreak", "\u{1F980}"] {
        let encoded = encrypt_with_key(token, &key).unwrap();
        assert_ne!(encoded, token);
        assert_eq!(decrypt_with_key(&encoded, &key), Ok(token.to_string()));
    }
}

#[test]
fn malformed_base64_is_a_decode_error() {
    assert_eq!(
        decrypt_with_key("!!!!", &[1]),
        Err(CipherError::Decode("Invalid symbol 33, offset 0.".to_string()))
    );
    assert!(matches!(decrypt_with_key("abc", &[1]), Err(CipherError::Decode(_))));
    assert!(matches!(decrypt_with_key("aWdtbm4", &[1]), Err(CipherError::Decode(_))));
    assert!(matches!(decrypt_with_key("aGk=\n", &[1]), Err(CipherError::Decode(_))));
}

#[test]
fn wrong_key_that_gives_no_text_is_invalid_key() {
    // One byte 0xff under the key 0x00 is no UTF-8.
    assert_eq!(decrypt_with_key("/w==", &[0]), Err(CipherError::InvalidKey));
    // "hi" was masked with 0x80; unmasking with 0x00 leaves bytes above 0x7f.
    assert_eq!(decrypt_with_key("6Ok=", &[0]), Err(CipherError::InvalidKey));
    assert_eq!(decrypt_with_key("6Ok=", &[0x80]), Ok("hi".to_string()));
}

#[test]
fn reveal_unmasks_decoded_bytes() {
    assert_eq!(reveal_with_key(&[0x69, 0x67, 0x6d, 0x6e, 0x6e], &[1, 2]), Ok("hello".to_string()));
    assert_eq!(reveal_with_key(&[0xff], &[0]), Err(CipherError::InvalidKey));
    assert_eq!(reveal_with_key(&[], &[5]), Ok(String::new()));
}

#[test]
fn cipher_error_messages() {
    assert_eq!(CipherError::EmptyToken.message(), "Token is empty");
    assert_eq!(CipherError::TokenTooLong.message(), "Token is too long");
    assert_eq!(
        CipherError::Decode("Invalid padding".to_string()).message(),
        "Base64 decode error: Invalid padding"
    );
    assert_eq!(CipherError::InvalidKey.message(), "Decryption error: invalid key");
    assert_eq!(
        CipherError::NoFingerprint("FileNotFound: x".to_string()).message(),
        "Failed to build HWID: FileNotFound: x"
    );
}

#[test]
fn salt_is_fixed() {
    assert_eq!(FINGERPRINT_SALT, "hayfrp-client-far1sh");
}

#[test]
fn machine_key_has_32_bytes_and_is_stable() {
    match get_hw_hash() {
        Ok(key) => {
            assert_eq!(key.len(), 32);
            assert_eq!(get_hw_hash(), Ok(key));
        }
        Err(error) => assert!(matches!(error, CipherError::NoFingerprint(_))),
    }
}

#[test]
fn secure_encrypt_refuses_the_empty_token() {
    assert_eq!(secure_encrypt(""), Err(CipherError::EmptyToken));
}

#[test]
fn secure_decrypt_reports_malformed_input() {
    assert_eq!(
        secure_decrypt("not base64!"),
        Err(CipherError::Decode("Invalid symbol 32, offset 3.".to_string()))
    );
}

#[test]
fn secure_round_trip_on_this_machine() {
    match secure_encrypt("my secret token") {
        Ok(encoded) => {
            assert_eq!(secure_decrypt(&encoded), Ok("my secret token".to_string()));
            let key = get_hw_hash().unwrap();
            assert_eq!(encrypt_with_key("my secret token", &key), Ok(encoded));
        }
        Err(error) => assert!(matches!(error, CipherError::NoFingerprint(_))),
    }
}

#[test]
fn round_trip_over_many_tokens_and_keys() {
    let mut state: u32 = 0x2545_f491;
    let mut next = move || {
        state = state.wrapping_mul(1_664_525).wrapping_add(1_013_904_223);
        state >> 8
    };
    for _ in 0..300 {
        let token_len = 1 + (next() % 40) as usize;
        let token: String = (0..token_len)
            .map(|_| char::from_u32(0x20 + next() % 0x2000).unwrap_or('?'))
            .collect();
        let key_len = 1 + (next() % 48) as usize;
        let key: Vec<u8> = (0..key_len).map(|_| (next() % 256) as u8).collect();
        let encoded = encrypt_with_key(&token, &key).unwrap();
        assert_eq!(decrypt_with_key(&encoded, &key), Ok(token));
    }
}
