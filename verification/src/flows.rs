//! The three token-exchange flows, as pure protocol recipes: each builds
//! a signed request for the transport collaborator to send, and decodes
//! the response body the transport hands back. The transport itself —
//! connections, TLS, retries — stays outside the library.

use vstd::prelude::*;

verus! {

use vstd::string::StringExecFns;

use crate::canonical::canonical_query;
use crate::error::ErrorKind;
use crate::header::{render, HeaderFields, TwitterOAuth};
use crate::params::{add_param, key_index, upsert, ParamList};
use crate::sign::{get_header, is_alnum_char, signature_chars, Method};
use crate::KeyPair;

pub const REQUEST_TOKEN: &'static str = "https://api.twitter.com/oauth/request_token";

pub const AUTHENTICATE: &'static str = "https://api.twitter.com/oauth/authenticate";

pub const ACCESS_TOKEN: &'static str = "https://api.twitter.com/oauth/access_token";

pub const MEMBERSHIPS: &'static str = "https://api.twitter.com/1.1/lists/memberships.json";

/// How many list entries an owners call asks for and keeps.
pub const MEMBERSHIP_PAGE: usize = 75;

/// A fully prepared outbound request: what the transport needs, and the
/// signed header record it was derived from.
pub struct PreparedRequest {
    pub method: Method,
    pub uri: String,
    pub header: TwitterOAuth,
    pub authorization: String,
}

/// The signed record is exactly the given unsigned fields plus the
/// signature computed over them, and the authorization string is its
/// wire form.
pub open spec fn prepared_as(
    r: PreparedRequest,
    m: Method,
    uri: Seq<char>,
    params: Seq<(Seq<char>, Seq<char>)>,
    h: HeaderFields,
    consumer_secret: Seq<char>,
    token_secret: Seq<char>,
) -> bool {
    &&& r.method == m
    &&& r.header@ == (HeaderFields {
        signature: Some(signature_chars(m, uri, params, h, consumer_secret, token_secret)),
        ..h
    })
    &&& r.authorization@ == render(r.header@)
    &&& r.header@.nonce.len() == 32
    &&& forall|i: int| 0 <= i < r.header@.nonce.len() ==> is_alnum_char(#[trigger] r.header@.nonce[i])
}

/// A successful status code: the 2xx class.
pub open spec fn is_success(status: u16) -> bool {
    200 <= status < 300
}

/// Builds the signed request that begins the exchange: POST to the
/// request-token endpoint, no token, the callback carried along.
pub fn request_token_prepare(con_token: &KeyPair, callback: &str) -> (r: PreparedRequest)
    ensures
        ({
            let h = HeaderFields {
                consumer_key: con_token.key@,
                nonce: r.header@.nonce,
                signature: None,
                timestamp: r.header@.timestamp,
                token: None,
                callback: Some(callback@),
                verifier: None,
            };
            prepared_as(
                r,
                Method::Post,
                REQUEST_TOKEN@,
                Seq::empty(),
                h,
                con_token.secret@,
                Seq::empty(),
            )
        }),
        r.uri@ == REQUEST_TOKEN@,
{
    let header = get_header(
        Method::Post,
        REQUEST_TOKEN,
        con_token,
        None,
        Some(String::from_str(callback)),
        None,
        None,
    );
    let authorization = header.header_value();
    PreparedRequest {
        method: Method::Post,
        uri: String::from_str(REQUEST_TOKEN),
        header,
        authorization,
    }
}

/// Decodes the request-token response: a non-success status is
/// `UnexpectedStatus`, then the body must carry `oauth_token` and
/// `oauth_token_secret`.
pub fn request_token_finish(status: u16, body: &[u8]) -> (r: Result<KeyPair, ErrorKind>)
    ensures
        !is_success(status) ==> (r matches Err(e) && e == ErrorKind::UnexpectedStatus(status)),
        is_success(status) ==> match crate::form::oauth_tok_spec(body@) {
            Ok(p) => r matches Ok(kp) && kp.key@ == p.0 && kp.secret@ == p.1,
            Err(e) => r matches Err(e2) && e2 == e,
        },
{
    if status < 200 || status >= 300 {
        return Err(ErrorKind::UnexpectedStatus(status));
    }
    crate::form::parse_oauth_tok(body)
}

/// Builds the signed request that closes the exchange: POST to the
/// access-token endpoint, signed with the request token, the verifier
/// carried along.
pub fn access_token_prepare(con_token: &KeyPair, request_token: &KeyPair, verifier: &str) -> (r:
    PreparedRequest)
    ensures
        ({
            let h = HeaderFields {
                consumer_key: con_token.key@,
                nonce: r.header@.nonce,
                signature: None,
                timestamp: r.header@.timestamp,
                token: Some(request_token.key@),
                callback: None,
                verifier: Some(verifier@),
            };
            prepared_as(
                r,
                Method::Post,
                ACCESS_TOKEN@,
                Seq::empty(),
                h,
                con_token.secret@,
                request_token.secret@,
            )
        }),
        r.uri@ == ACCESS_TOKEN@,
{
    let header = get_header(
        Method::Post,
        ACCESS_TOKEN,
        con_token,
        Some(request_token),
        None,
        Some(String::from_str(verifier)),
        None,
    );
    let authorization = header.header_value();
    PreparedRequest {
        method: Method::Post,
        uri: String::from_str(ACCESS_TOKEN),
        header,
        authorization,
    }
}

/// Decodes the access-token response: the long-lived credential pair and
/// the authenticated user's numeric id.
pub fn access_token_finish(status: u16, body: &[u8]) -> (r: Result<(KeyPair, u64), ErrorKind>)
    ensures
        !is_success(status) ==> (r matches Err(e) && e == ErrorKind::UnexpectedStatus(status)),
        is_success(status) ==> match crate::form::oauth_tok_and_user_id_spec(body@) {
            Ok(p) => r matches Ok(kp) && kp.0.key@ == p.0 && kp.0.secret@ == p.1 && kp.1 == p.2,
            Err(e) => r matches Err(e2) && e2 == e,
        },
{
    if status < 200 || status >= 300 {
        return Err(ErrorKind::UnexpectedStatus(status));
    }
    crate::form::parse_oauth_tok_and_user_id(body)
}

/// Builds a signed GET: the query parameters are folded into the
/// signature and written literally into the URI, both derived from the
/// one parameter table, so the signed set and the wire query always
/// agree.
pub fn authorized_get_prepare(
    con_token: &KeyPair,
    access_token: &KeyPair,
    endpoint: &str,
    params: &ParamList,
) -> (r: PreparedRequest)
    requires
        params.wf(),
    ensures
        ({
            let h = HeaderFields {
                consumer_key: con_token.key@,
                nonce: r.header@.nonce,
                signature: None,
                timestamp: r.header@.timestamp,
                token: Some(access_token.key@),
                callback: None,
                verifier: None,
            };
            prepared_as(
                r,
                Method::Get,
                endpoint@,
                params@,
                h,
                con_token.secret@,
                access_token.secret@,
            )
        }),
        params@.len() > 0 ==> r.uri@ == endpoint@ + seq!['?'] + canonical_query(params@),
        params@.len() == 0 ==> r.uri@ == endpoint@,
{
    let header = get_header(
        Method::Get,
        endpoint,
        con_token,
        Some(access_token),
        None,
        None,
        Some(params),
    );
    let authorization = header.header_value();
    let uri = if params.len() > 0 {
        let q = crate::canonical::canonical_query_string(params);
        String::from_str(endpoint).concat("?").concat(q.as_str())
    } else {
        String::from_str(endpoint)
    };
    proof {
        if params@.len() > 0 {
            reveal_strlit("?");
            assert(uri@ =~= endpoint@ + seq!['?'] + canonical_query(params@));
        }
    }
    PreparedRequest { method: Method::Get, uri, header, authorization }
}

/// The parameter table of an owners call: the first page, by user.
pub open spec fn memberships_params(user_id: u64) -> Seq<(Seq<char>, Seq<char>)> {
    let s = upsert(Seq::empty(), "cursor"@, "-1"@);
    let s = upsert(s, "user_id"@, crate::decimal::dec_chars(user_id));
    upsert(s, "count"@, "75"@)
}

/// Builds the signed request asking which lists hold a user, first page.
pub fn memberships_request(user_id: u64, con_token: &KeyPair, access_token: &KeyPair) -> (r:
    PreparedRequest)
    ensures
        ({
            let h = HeaderFields {
                consumer_key: con_token.key@,
                nonce: r.header@.nonce,
                signature: None,
                timestamp: r.header@.timestamp,
                token: Some(access_token.key@),
                callback: None,
                verifier: None,
            };
            prepared_as(
                r,
                Method::Get,
                MEMBERSHIPS@,
                memberships_params(user_id),
                h,
                con_token.secret@,
                access_token.secret@,
            )
        }),
        r.uri@ == MEMBERSHIPS@ + seq!['?'] + canonical_query(memberships_params(user_id)),
{
    let mut params = ParamList::new();
    proof {
        reveal_strlit("cursor");
        reveal_strlit("user_id");
        reveal_strlit("count");
        reveal_with_fuel(crate::params::key_index, 5);
    }
    add_param(&mut params, String::from_str("cursor"), String::from_str("-1"));
    proof {
        assert(params@.len() == 1);
    }
    add_param(&mut params, String::from_str("user_id"), crate::decimal::u64_string(user_id));
    proof {
        reveal_with_fuel(crate::params::key_index, 5);
        let s1 = upsert(Seq::empty(), "cursor"@, "-1"@);
        assert(s1 == Seq::<(Seq<char>, Seq<char>)>::empty().push(("cursor"@, "-1"@)));
        assert(s1[0] == ("cursor"@, "-1"@));
        assert("cursor"@.len() == 6 && "user_id"@.len() == 7);
        assert("cursor"@ != "user_id"@);
        assert(key_index(s1.drop_first(), "user_id"@) is None);
        assert(key_index(s1, "user_id"@) is None);
        assert(params@.len() == 2);
    }
    add_param(&mut params, String::from_str("count"), String::from_str("75"));
    proof {
        reveal_with_fuel(crate::params::key_index, 5);
        assert(params@ == memberships_params(user_id));
        assert(params@.len() > 0);
    }
    authorized_get_prepare(con_token, access_token, MEMBERSHIPS, &params)
}

/// Decodes the owners response: at most a page of distinct owner ids in
/// ascending order.
pub fn list_owners_finish(status: u16, body: &[u8]) -> (r: Result<Vec<u64>, ErrorKind>)
    ensures
        !is_success(status) ==> (r matches Err(e) && e == ErrorKind::UnexpectedStatus(status)),
        is_success(status) ==> match crate::json::list_owner_ids(body@) {
            Some(ids) => ({
                let d = crate::json::sorted_distinct(ids);
                let m = if MEMBERSHIP_PAGE <= d.len() {
                    MEMBERSHIP_PAGE as int
                } else {
                    d.len() as int
                };
                r matches Ok(v) && v@ == d.take(m)
            }),
            None => r matches Err(e) && e == ErrorKind::ResponseParseError,
        },
{
    if status < 200 || status >= 300 {
        return Err(ErrorKind::UnexpectedStatus(status));
    }
    crate::json::parse_list_owners(body, MEMBERSHIP_PAGE)
}

} // verus!
