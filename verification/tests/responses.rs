use oauth1::error::ErrorKind;
use oauth1::flows::{
    access_token_finish, access_token_prepare, authorized_get_prepare, list_owners_finish,
    memberships_request, request_token_finish, request_token_prepare,
};
use oauth1::json::parse_list_owners;
use oauth1::params::{add_param, ParamList};
use oauth1::KeyPair;

#[test]
fn request_token_end_to_end_body() {
    let body = b"oauth_token=ABC&oauth_token_secret=XYZ&oauth_callback_confirmed=true";
    let kp = request_token_finish(200, body).unwrap();
    assert_eq!(kp.key, "ABC");
    assert_eq!(kp.secret, "XYZ");
}

#[test]
fn request_token_missing_secret() {
    let body = b"oauth_token=ABC&oauth_callback_confirmed=true";
    let r = request_token_finish(200, body);
    assert_eq!(r, Err(ErrorKind::ProtocolResponseMissingField));
}

#[test]
fn request_token_bad_status() {
    let body = b"oauth_token=ABC&oauth_token_secret=XYZ";
    let r = request_token_finish(401, body);
    assert_eq!(r, Err(ErrorKind::UnexpectedStatus(401)));
}

#[test]
fn request_token_malformed_body() {
    let body = b"oauth_token=%zz";
    let r = request_token_finish(200, body);
    assert_eq!(r, Err(ErrorKind::ResponseParseError));
}

#[test]
fn access_token_end_to_end_body() {
    let body = b"oauth_token=A&oauth_token_secret=B&user_id=42";
    let (kp, id) = access_token_finish(200, body).unwrap();
    assert_eq!(kp.key, "A");
    assert_eq!(kp.secret, "B");
    assert_eq!(id, 42);
}

#[test]
fn access_token_non_numeric_user_id() {
    let body = b"oauth_token=A&oauth_token_secret=B&user_id=notanumber";
    let r = access_token_finish(200, body);
    assert_eq!(r, Err(ErrorKind::ResponseParseError));
}

#[test]
fn access_token_missing_user_id() {
    let body = b"oauth_token=A&oauth_token_secret=B";
    let r = access_token_finish(200, body);
    assert_eq!(r, Err(ErrorKind::ProtocolResponseMissingField));
}

#[test]
fn form_body_plus_decodes_to_space() {
    let body = b"oauth_token=a+b&oauth_token_secret=x%2By";
    let kp = request_token_finish(204, body).unwrap();
    assert_eq!(kp.key, "a b");
    assert_eq!(kp.secret, "x+y");
}

#[test]
fn list_membership_dedup_ascending() {
    let body = b"{\"lists\":[{\"user\":{\"id\":5}},{\"user\":{\"id\":3}},{\"user\":{\"id\":5}}]}";
    let ids = parse_list_owners(body, 75).unwrap();
    assert_eq!(ids, vec![3, 5]);
}

#[test]
fn list_membership_with_whitespace() {
    let body = b"{ \"lists\" : [ { \"user\" : { \"id\" : 9 } } , { \"user\" : { \"id\" : 2 } } ] }";
    let ids = parse_list_owners(body, 75).unwrap();
    assert_eq!(ids, vec![2, 9]);
}

#[test]
fn list_membership_max_count() {
    let body = b"{\"lists\":[{\"user\":{\"id\":5}},{\"user\":{\"id\":3}},{\"user\":{\"id\":1}}]}";
    let ids = parse_list_owners(body, 2).unwrap();
    assert_eq!(ids, vec![1, 3]);
}

#[test]
fn list_membership_empty() {
    let body = b"{\"lists\":[]}";
    let ids = parse_list_owners(body, 75).unwrap();
    assert_eq!(ids, Vec::<u64>::new());
}

#[test]
fn list_membership_malformed() {
    assert_eq!(
        parse_list_owners(b"{\"lists\":", 75),
        Err(ErrorKind::ResponseParseError)
    );
    assert_eq!(
        parse_list_owners(b"{\"lists\":[{\"user\":{\"id\":x}}]}", 75),
        Err(ErrorKind::ResponseParseError)
    );
    assert_eq!(
        list_owners_finish(500, b"{\"lists\":[]}"),
        Err(ErrorKind::UnexpectedStatus(500))
    );
}

#[test]
fn prepared_requests_carry_signed_headers() {
    let consumer = KeyPair::new("ck".to_string(), "cs".to_string());
    let req = request_token_prepare(&consumer, "http://localhost:3000/cb");
    assert_eq!(req.uri, "https://api.twitter.com/oauth/request_token");
    assert_eq!(req.header.nonce.len(), 32);
    assert!(req.header.nonce.chars().all(|c| c.is_ascii_alphanumeric()));
    assert!(req.header.signature.is_some());
    assert!(req.authorization.starts_with("OAuth oauth_consumer_key=\"ck\""));
    assert!(req.authorization.contains("oauth_callback=\"http%3A%2F%2Flocalhost%3A3000%2Fcb\""));

    let request_token = KeyPair::new("rt".to_string(), "rs".to_string());
    let req = access_token_prepare(&consumer, &request_token, "verif");
    assert_eq!(req.uri, "https://api.twitter.com/oauth/access_token");
    assert!(req.authorization.contains("oauth_token=\"rt\""));
    assert!(req.authorization.contains("oauth_verifier=\"verif\""));
}

#[test]
fn authorized_get_uri_and_signature_share_the_query() {
    let consumer = KeyPair::new("ck".to_string(), "cs".to_string());
    let access = KeyPair::new("at".to_string(), "as".to_string());
    let mut params = ParamList::new();
    add_param(&mut params, "cursor".to_string(), "-1".to_string());
    add_param(&mut params, "count".to_string(), "75".to_string());
    let req = authorized_get_prepare(&consumer, &access, "https://example.com/x.json", &params);
    assert_eq!(req.uri, "https://example.com/x.json?count=75&cursor=-1");

    let req = memberships_request(7, &consumer, &access);
    assert_eq!(
        req.uri,
        "https://api.twitter.com/1.1/lists/memberships.json?count=75&cursor=-1&user_id=7"
    );
    assert!(req.authorization.contains("oauth_token=\"at\""));
}
