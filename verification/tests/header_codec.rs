use oauth1::error::ErrorKind;
use oauth1::header::TwitterOAuth;

fn full_record() -> TwitterOAuth {
    TwitterOAuth {
        consumer_key: "key with spaces, =\"quotes\"".to_string(),
        nonce: "n0nceN0NCE".to_string(),
        signature: Some("c2lnbmF0dXJl+/==".to_string()),
        timestamp: 1000000000,
        token: Some("tok&en".to_string()),
        callback: Some("https://example.com/cb?x=1&y=2".to_string()),
        verifier: Some("v\u{e9}rifi\u{e9}".to_string()),
    }
}

#[test]
fn round_trip_full_record() {
    let record = full_record();
    let wire = record.header_value();
    let parsed = TwitterOAuth::parse(&wire).unwrap();
    assert_eq!(parsed, record);
}

#[test]
fn round_trip_minimal_record() {
    let record = TwitterOAuth {
        consumer_key: "ck".to_string(),
        nonce: "n".to_string(),
        signature: Some("sig".to_string()),
        timestamp: u64::MAX,
        token: None,
        callback: None,
        verifier: None,
    };
    let wire = record.header_value();
    let parsed = TwitterOAuth::parse(&wire).unwrap();
    assert_eq!(parsed, record);
}

#[test]
fn parse_known_wire_form() {
    let wire = "OAuth oauth_consumer_key=\"ck\", oauth_nonce=\"nonceXYZ\", \
                oauth_signature=\"Bmh681qLUkngZI19o7IT4Vr9LEY%3D\", \
                oauth_signature_method=\"HMAC-SHA1\", oauth_timestamp=\"1000000000\", \
                oauth_token=\"tk\", oauth_version=\"1.0\"";
    let parsed = TwitterOAuth::parse(wire).unwrap();
    assert_eq!(parsed.consumer_key, "ck");
    assert_eq!(parsed.nonce, "nonceXYZ");
    assert_eq!(parsed.signature.as_deref(), Some("Bmh681qLUkngZI19o7IT4Vr9LEY="));
    assert_eq!(parsed.timestamp, 1000000000);
    assert_eq!(parsed.token.as_deref(), Some("tk"));
    assert_eq!(parsed.callback, None);
    assert_eq!(parsed.verifier, None);
}

#[test]
fn parse_rejects_unknown_field() {
    let r = TwitterOAuth::parse("OAuth oauth_consumer_key=\"x\", oauth_bogus=\"y\"");
    assert_eq!(r, Err(ErrorKind::UnrecognizedField));
}

#[test]
fn parse_rejects_missing_nonce() {
    let r = TwitterOAuth::parse("OAuth oauth_consumer_key=\"x\", oauth_timestamp=\"12\"");
    assert_eq!(r, Err(ErrorKind::MissingRequiredField));
}

#[test]
fn parse_rejects_malformed_timestamp() {
    let r = TwitterOAuth::parse(
        "OAuth oauth_consumer_key=\"x\", oauth_nonce=\"n\", oauth_timestamp=\"12a\"",
    );
    assert_eq!(r, Err(ErrorKind::MalformedTimestamp));
    let r = TwitterOAuth::parse(
        "OAuth oauth_consumer_key=\"x\", oauth_nonce=\"n\", \
         oauth_timestamp=\"18446744073709551616\"",
    );
    assert_eq!(r, Err(ErrorKind::MalformedTimestamp));
}

#[test]
fn parse_rejects_unquoted_value() {
    let r = TwitterOAuth::parse("OAuth oauth_consumer_key=x");
    assert_eq!(r, Err(ErrorKind::EncodingError));
}

#[test]
fn parse_rejects_bad_percent_escape() {
    let r = TwitterOAuth::parse("OAuth oauth_consumer_key=\"%zz\"");
    assert_eq!(r, Err(ErrorKind::EncodingError));
}

#[test]
fn parse_rejects_missing_scheme_prefix() {
    let r = TwitterOAuth::parse("oauth_consumer_key=\"x\"");
    assert_eq!(r, Err(ErrorKind::UnrecognizedField));
}

#[test]
fn parse_last_repeated_field_wins() {
    let r = TwitterOAuth::parse(
        "OAuth oauth_consumer_key=\"a\", oauth_consumer_key=\"b\", oauth_nonce=\"n\", \
         oauth_timestamp=\"7\"",
    )
    .unwrap();
    assert_eq!(r.consumer_key, "b");
}

#[test]
fn error_kinds_are_distinct_values() {
    assert_ne!(ErrorKind::TransportError, ErrorKind::ResponseParseError);
    assert_ne!(
        ErrorKind::ProtocolResponseMissingField,
        ErrorKind::ResponseParseError
    );
    assert_eq!(ErrorKind::UnexpectedStatus(404), ErrorKind::UnexpectedStatus(404));
    assert_ne!(ErrorKind::UnexpectedStatus(404), ErrorKind::UnexpectedStatus(500));
}
