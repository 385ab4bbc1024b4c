use bridgerpay_connector::pkcs7::{pad_block, unpad_block};
use bridgerpay_connector::rest::endpoints::RestApiEndpoint;
use bridgerpay_connector::rest::models::CheckoutTheme;
use bridgerpay_connector::rest::{build_full_url, build_query_string};
use bridgerpay_connector::webhook::WebhookType;

#[test]
fn query_string_joins_pairs() {
    assert_eq!(build_query_string(vec![]), "");
    assert_eq!(build_query_string(vec![("a", "1")]), "a=1");
    assert_eq!(
        build_query_string(vec![("a", "1"), ("b", "2"), ("c", "3")]),
        "a=1&b=2&c=3"
    );
}

#[test]
fn full_url_with_and_without_query() {
    assert_eq!(
        build_full_url("https://api.example.com", &RestApiEndpoint::AuthLogin, None),
        "https://api.example.com/v2/auth/login"
    );
    assert_eq!(
        build_full_url(
            "https://api.example.com",
            &RestApiEndpoint::CashierCreateSession,
            Some("a=1&b=2".to_string()),
        ),
        "https://api.example.com/v2/cashier/session/create?a=1&b=2"
    );
}

#[test]
fn endpoint_paths() {
    assert_eq!(RestApiEndpoint::AuthLogin.path(), "/v2/auth/login");
    assert_eq!(
        RestApiEndpoint::CashierCreateSession.path(),
        "/v2/cashier/session/create"
    );
}

#[test]
fn theme_and_webhook_names() {
    assert_eq!(CheckoutTheme::Dark.as_str(), "dark");
    assert_eq!(CheckoutTheme::Transparent.as_str(), "transparent");
    assert_eq!(WebhookType::CashierSessionInit.as_str(), "cashier.session.init");
    assert_eq!(WebhookType::PaymentCardToken.as_str(), "payment_card_token");
}

#[test]
fn pkcs7_pad_and_unpad() {
    let padded = pad_block(&[]);
    assert_eq!(padded, vec![16u8; 16]);
    assert_eq!(unpad_block(&padded), Some(vec![]));

    let padded = pad_block(&[1, 2, 3]);
    assert_eq!(padded.len(), 16);
    assert_eq!(&padded[..3], &[1, 2, 3]);
    assert_eq!(&padded[3..], &[13u8; 13][..]);
    assert_eq!(unpad_block(&padded), Some(vec![1, 2, 3]));

    let aligned = pad_block(&[9u8; 16]);
    assert_eq!(aligned.len(), 32);
    assert_eq!(&aligned[16..], &[16u8; 16][..]);
}

#[test]
fn pkcs7_unpad_rejects_bad_padding() {
    assert_eq!(unpad_block(&[]), None);
    assert_eq!(unpad_block(&[1, 2, 3]), None);
    // Last byte zero is never a valid pad count.
    assert_eq!(unpad_block(&[0u8; 16]), None);
    // Count larger than the block size.
    assert_eq!(unpad_block(&[17u8; 16]), None);
    // Mismatched padding bytes.
    let mut v = vec![2u8; 16];
    v[14] = 3;
    assert_eq!(unpad_block(&v), None);
}
