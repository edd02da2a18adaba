use oauth1::canonical::canonical_query_string;
use oauth1::encode::percent_encode;
use oauth1::header::TwitterOAuth;
use oauth1::params::{add_param, ParamList};
use oauth1::sign::{sign, Method};
use oauth1::KeyPair;

fn fixed_header() -> TwitterOAuth {
    TwitterOAuth {
        consumer_key: "ck".to_string(),
        nonce: "nonceXYZ".to_string(),
        signature: None,
        timestamp: 1000000000,
        token: Some("tk".to_string()),
        callback: None,
        verifier: None,
    }
}

#[test]
fn signature_is_deterministic() {
    let consumer = KeyPair::new("ck".to_string(), "cs".to_string());
    let token = KeyPair::new("tk".to_string(), "ts".to_string());
    let first = sign(
        fixed_header(),
        Method::Get,
        "http://example.com/api",
        None,
        &consumer,
        Some(&token),
    );
    let second = sign(
        fixed_header(),
        Method::Get,
        "http://example.com/api",
        None,
        &consumer,
        Some(&token),
    );
    assert_eq!(first.signature, second.signature);
    assert!(first.signature.is_some());
}

#[test]
fn signature_matches_known_value() {
    let consumer = KeyPair::new("ck".to_string(), "cs".to_string());
    let token = KeyPair::new("tk".to_string(), "ts".to_string());
    let signed = sign(
        fixed_header(),
        Method::Get,
        "http://example.com/api",
        None,
        &consumer,
        Some(&token),
    );
    assert_eq!(signed.signature.as_deref(), Some("Bmh681qLUkngZI19o7IT4Vr9LEY="));
}

#[test]
fn signed_header_value_matches_known_value() {
    let consumer = KeyPair::new("ck".to_string(), "cs".to_string());
    let token = KeyPair::new("tk".to_string(), "ts".to_string());
    let signed = sign(
        fixed_header(),
        Method::Get,
        "http://example.com/api",
        None,
        &consumer,
        Some(&token),
    );
    assert_eq!(
        signed.header_value(),
        "OAuth oauth_consumer_key=\"ck\", oauth_nonce=\"nonceXYZ\", \
         oauth_signature=\"Bmh681qLUkngZI19o7IT4Vr9LEY%3D\", \
         oauth_signature_method=\"HMAC-SHA1\", oauth_timestamp=\"1000000000\", \
         oauth_token=\"tk\", oauth_version=\"1.0\""
    );
}

#[test]
fn canonical_order_is_by_encoded_string() {
    let mut params = ParamList::new();
    add_param(&mut params, "b".to_string(), "2".to_string());
    add_param(&mut params, "a".to_string(), "1".to_string());
    add_param(&mut params, "a2".to_string(), "x".to_string());
    assert_eq!(canonical_query_string(&params), "a=1&a2=x&b=2");
}

#[test]
fn canonical_order_diverges_from_raw_order() {
    // Raw keys sort "kz" before "k|" (0x7a < 0x7c), but "|" encodes to
    // "%7C", and "k%7C" sorts before "kz".
    let mut params = ParamList::new();
    add_param(&mut params, "kz".to_string(), "2".to_string());
    add_param(&mut params, "k|".to_string(), "1".to_string());
    assert_eq!(canonical_query_string(&params), "k%7C=1&kz=2");
}

#[test]
fn canonical_query_of_empty_table_is_empty() {
    let params = ParamList::new();
    assert_eq!(canonical_query_string(&params), "");
}

#[test]
fn percent_encode_space_and_bang() {
    assert_eq!(percent_encode("hello world!"), "hello%20world%21");
}

#[test]
fn percent_encode_keeps_unreserved() {
    let unreserved = "ABCDEFGHIJKLMNOPQRSTUVWXYZabcdefghijklmnopqrstuvwxyz0123456789-._~";
    assert_eq!(percent_encode(unreserved), unreserved);
}

#[test]
fn percent_encode_multibyte_uppercase_hex() {
    assert_eq!(percent_encode("\u{fc}"), "%C3%BC");
    assert_eq!(percent_encode("a&b=c"), "a%26b%3Dc");
}

#[test]
fn add_param_overwrites_and_returns_previous() {
    let mut params = ParamList::new();
    assert_eq!(add_param(&mut params, "k".to_string(), "v1".to_string()), None);
    assert_eq!(
        add_param(&mut params, "k".to_string(), "v2".to_string()),
        Some("v1".to_string())
    );
    assert_eq!(canonical_query_string(&params), "k=v2");
}

#[test]
fn merge_is_right_biased() {
    let mut base = ParamList::new();
    add_param(&mut base, "a".to_string(), "1".to_string());
    add_param(&mut base, "b".to_string(), "2".to_string());
    let mut overrides = ParamList::new();
    add_param(&mut overrides, "b".to_string(), "9".to_string());
    add_param(&mut overrides, "c".to_string(), "3".to_string());
    base.merge(&overrides);
    assert_eq!(canonical_query_string(&base), "a=1&b=9&c=3");
}
