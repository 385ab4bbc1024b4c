use bridgerpay_connector::cipher::{AesCipher, CipherError, CodecError, MessageCipher};
use bridgerpay_connector::cipher::derive_key;
use bridgerpay_connector::CheckoutPayloadModel;
use base64::Engine;

fn sample_record(sign: &str) -> CheckoutPayloadModel {
    CheckoutPayloadModel {
        timestamp: 123,
        client_id: "test-client-id".to_string(),
        sign: sign.to_string(),
        metadata: vec![("test".to_string(), "test".to_string())],
    }
}

#[test]
fn works() {}

#[test]
fn derive_key_is_deterministic_and_sensitive() {
    let k1 = derive_key("a");
    let k2 = derive_key("a");
    let k3 = derive_key("b");
    assert_eq!(k1, k2);
    assert_ne!(k1, k3);
    assert_eq!(k1.len(), 24);
}

#[test]
fn derive_key_matches_sha512_prefix() {
    // SHA-512("abc"), first 24 bytes of the well-known digest value.
    let expected: Vec<u8> = vec![
        0xdd, 0xaf, 0x35, 0xa1, 0x93, 0x61, 0x7a, 0xba, 0xcc, 0x41, 0x73, 0x49, 0xae, 0x20, 0x41,
        0x31, 0x12, 0xe6, 0xfa, 0x4e, 0x89, 0xa9, 0x7e, 0xa2,
    ];
    assert_eq!(derive_key("abc"), expected);
}

#[test]
fn explicit_iv_round_trip() {
    let iv = [7u8; 16];
    let cases: Vec<Vec<u8>> = vec![
        vec![],
        vec![42],
        (0..16).collect(),
        (0..33).collect(),
        b"hello, block cipher world".to_vec(),
    ];
    for p in cases {
        let ct = AesCipher::encrypt_with_iv(&p, "secret", &iv);
        assert_eq!(ct.len(), p.len() + 16 - p.len() % 16);
        let back = AesCipher::decrypt_with_iv(&ct, "secret", &iv).unwrap();
        assert_eq!(back, p);
    }
}

#[test]
fn explicit_iv_ciphertext_differs_from_plaintext() {
    let iv = [0u8; 16];
    let p: Vec<u8> = (0..32).collect();
    let ct = AesCipher::encrypt_with_iv(&p, "secret", &iv);
    assert_ne!(&ct[..32], &p[..]);
}

#[test]
fn decrypt_with_iv_rejects_misaligned_input() {
    let iv = [0u8; 16];
    let r = AesCipher::decrypt_with_iv(&[1, 2, 3], "secret", &iv);
    assert_eq!(r, Err(CipherError::InvalidLength));
}

#[test]
fn decrypt_with_iv_rejects_bad_padding() {
    let iv = [0u8; 16];
    // A tampered final block: overwhelmingly unlikely to end in valid padding.
    let p: Vec<u8> = (0..16).collect();
    let mut ct = AesCipher::encrypt_with_iv(&p, "secret", &iv);
    let last = ct.len() - 1;
    ct[last] ^= 0xFF;
    let r = AesCipher::decrypt_with_iv(&ct, "secret", &iv);
    assert_eq!(r, Err(CipherError::InvalidPadding));
}

#[test]
fn embedded_mode_minimum_length() {
    let short = [1u8; 15];
    assert_eq!(
        AesCipher::encrypt(&short, "secret"),
        Err(CipherError::PlaintextTooShort)
    );
    let exact = [1u8; 16];
    let blob = AesCipher::encrypt(&exact, "secret").unwrap();
    // 16 IV bytes plus two ciphertext blocks: PKCS#7 always pads, so an
    // aligned plaintext gains a full padding block.
    assert_eq!(blob.len(), 48);
    assert_eq!(&blob[..16], &exact[..]);
    assert_eq!(AesCipher::decrypt(&blob, "secret").unwrap(), exact.to_vec());
}

#[test]
fn embedded_mode_errors() {
    assert_eq!(
        AesCipher::decrypt(&[0u8; 10], "secret"),
        Err(CipherError::BlobTooShort)
    );
    assert_eq!(
        AesCipher::decrypt(&[0u8; 20], "secret"),
        Err(CipherError::InvalidLength)
    );
}

#[test]
fn embedded_mode_is_deterministic() {
    let p: Vec<u8> = (0..40).collect();
    let a = AesCipher::encrypt(&p, "secret").unwrap();
    let b = AesCipher::encrypt(&p, "secret").unwrap();
    assert_eq!(a, b);
}

#[test]
fn explicit_iv_matches_direct_cbc() {
    // The same key derivation and cipher, driven directly: SHA-512 prefix
    // as the key, CBC with automatic PKCS#7 padding.
    let iv = [3u8; 16];
    let p: Vec<u8> = (0..20).collect();
    let key_bytes = derive_key("cross-check");
    let mut k = [0u8; 24];
    k.copy_from_slice(&key_bytes);
    let cipher = libaes::Cipher::new_192(&k);
    let expected = cipher.cbc_encrypt(&iv, &p);
    assert_eq!(AesCipher::encrypt_with_iv(&p, "cross-check", &iv), expected);
}

#[test]
fn record_round_trip_concrete_scenario() {
    let sign = bridgerpay_connector::generate_sign(
        &bridgerpay_connector::CheckoutSign {
            amount: "10.0".to_string(),
            order_id: "abc".to_string(),
            currency: "USD".to_string(),
        },
        "k1",
    );
    let record = sample_record(&sign);
    let msg = record.encrypt("API_KEY_VALUE").unwrap();
    let back = CheckoutPayloadModel::try_decrypt(&msg, "API_KEY_VALUE").unwrap();
    assert_eq!(back.timestamp, 123);
    assert_eq!(back.client_id, "test-client-id");
    assert_eq!(back.sign, sign);
    assert_eq!(
        back.metadata,
        vec![("test".to_string(), "test".to_string())]
    );
    assert_eq!(back, record);
}

#[test]
fn record_encrypt_is_deterministic() {
    let record = sample_record("s");
    let a = record.encrypt("k").unwrap();
    let b = record.encrypt("k").unwrap();
    assert_eq!(a, b);
}

#[test]
fn wrong_key_decode_fails() {
    let record = sample_record("sig");
    let msg = record.encrypt("first-secret").unwrap();
    let r = CheckoutPayloadModel::try_decrypt(&msg, "second-secret");
    match r {
        Err(CodecError::DecryptionFailed(_)) | Err(CodecError::MalformedRecord) => {}
        other => panic!("expected a decryption or deserialization error, got {:?}", other),
    }
}

#[test]
fn invalid_base64_is_rejected() {
    let r = CheckoutPayloadModel::try_decrypt("not base64!!!", "k");
    assert_eq!(r, Err(CodecError::InvalidEncoding));
}

#[test]
fn empty_message_is_too_short() {
    let r = CheckoutPayloadModel::try_decrypt("", "k");
    assert_eq!(
        r,
        Err(CodecError::DecryptionFailed(CipherError::BlobTooShort))
    );
}

#[test]
fn garbage_plaintext_is_malformed() {
    // Encrypt bytes that are not a record serialization: 0xFF is no field tag.
    let wire = [0xFFu8; 16];
    let blob = AesCipher::encrypt(&wire, "k").unwrap();
    let msg = base64::engine::general_purpose::STANDARD.encode(&blob);
    let r = CheckoutPayloadModel::try_decrypt(&msg, "k");
    assert_eq!(r, Err(CodecError::MalformedRecord));
}

#[test]
fn invalid_utf8_field_is_malformed() {
    // Field 2 with a 14-byte value that is not valid UTF-8.
    let mut wire = vec![0x12u8, 0x0E, 0xC3, 0x28];
    wire.extend_from_slice(&[0u8; 12]);
    assert_eq!(wire.len(), 16);
    let blob = AesCipher::encrypt(&wire, "k").unwrap();
    let msg = base64::engine::general_purpose::STANDARD.encode(&blob);
    let r = CheckoutPayloadModel::try_decrypt(&msg, "k");
    assert_eq!(r, Err(CodecError::MalformedRecord));
}

#[test]
fn record_level_explicit_iv_round_trip() {
    let iv = [9u8; 16];
    // Explicit-IV mode has no minimum length: even the all-default record,
    // which serializes to zero bytes, round-trips.
    let empty = CheckoutPayloadModel {
        timestamp: 0,
        client_id: String::new(),
        sign: String::new(),
        metadata: vec![],
    };
    let msg = MessageCipher::encrypt_with_iv(&empty, "k", &iv);
    let back = MessageCipher::decrypt_with_iv(&msg, "k", &iv).unwrap();
    assert_eq!(back, empty);

    let record = sample_record("xyz");
    let msg = MessageCipher::encrypt_with_iv(&record, "k", &iv);
    let back = MessageCipher::decrypt_with_iv(&msg, "k", &iv).unwrap();
    assert_eq!(back, record);
}

#[test]
fn embedded_encrypt_rejects_tiny_record() {
    // This record serializes to 2 bytes, fewer than the 16 an IV needs.
    let tiny = CheckoutPayloadModel {
        timestamp: 1,
        client_id: String::new(),
        sign: String::new(),
        metadata: vec![],
    };
    assert_eq!(tiny.encrypt("k"), Err(CipherError::PlaintextTooShort));
}

#[test]
fn message_is_valid_base64() {
    let record = sample_record("sig");
    let msg = record.encrypt("k").unwrap();
    let blob = base64::engine::general_purpose::STANDARD
        .decode(&msg)
        .unwrap();
    assert_eq!(blob.len() % 16, 0);
    assert!(blob.len() >= 32);
}
