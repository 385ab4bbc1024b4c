use bridgerpay_connector::{canonical_json, generate_sign, sign_str, CheckoutSign};
use base64::Engine;

fn attestation(order_id: &str) -> CheckoutSign {
    CheckoutSign {
        amount: "10.0".to_string(),
        order_id: order_id.to_string(),
        currency: "USD".to_string(),
    }
}

#[test]
fn canonical_json_exact_form() {
    let json = canonical_json(&attestation("abc"));
    assert_eq!(
        String::from_utf8(json).unwrap(),
        "{\"amount\":10.0,\"order_id\":\"abc\",\"currency\":\"USD\"}"
    );
}

#[test]
fn canonical_json_escapes_string_content() {
    let sign = CheckoutSign {
        amount: "1".to_string(),
        order_id: "a\"b\\c\nd\u{1}e".to_string(),
        currency: "EU\tRO".to_string(),
    };
    let json = canonical_json(&sign);
    assert_eq!(
        String::from_utf8(json).unwrap(),
        "{\"amount\":1,\"order_id\":\"a\\\"b\\\\c\\nd\\u0001e\",\"currency\":\"EU\\tRO\"}"
    );
}

#[test]
fn sign_is_deterministic_and_sensitive() {
    let a1 = generate_sign(&attestation("abc"), "k1");
    let a2 = generate_sign(&attestation("abc"), "k1");
    let b = generate_sign(&attestation("abd"), "k1");
    assert_eq!(a1, a2);
    assert_ne!(a1, b);
}

#[test]
fn sign_depends_on_the_secret() {
    let a = generate_sign(&attestation("abc"), "k1");
    let b = generate_sign(&attestation("abc"), "k2");
    assert_ne!(a, b);
}

#[test]
fn sign_str_matches_direct_hmac() {
    let key = ring::hmac::Key::new(ring::hmac::HMAC_SHA512, b"shared-secret");
    let tag = ring::hmac::sign(&key, b"what do ya want for nothing?");
    let expected = base64::engine::general_purpose::STANDARD.encode(tag.as_ref());
    assert_eq!(
        sign_str("what do ya want for nothing?", "shared-secret"),
        expected
    );
}

#[test]
fn generate_sign_signs_the_canonical_json() {
    let record = attestation("xyz");
    let json = canonical_json(&record);
    let via_str = sign_str(&String::from_utf8(json).unwrap(), "kk");
    assert_eq!(generate_sign(&record, "kk"), via_str);
}
