//! The signature engine: builds the signing parameter set, the signature
//! base string and the signing key, computes the HMAC-SHA1 digest through
//! the hmac and sha1 crates, and base64-encodes it with padding.
//!
//! Given the nonce and timestamp, the signature is a function of the
//! inputs alone, which the contracts state exactly.

use vstd::prelude::*;

verus! {

use vstd::string::StringExecFns;
use vstd::utf8::encode_utf8;

use crate::canonical::{canonical_query, canonical_query_string};
use crate::decimal::dec_chars;
use crate::encode::{pe, push_percent_encoded};
use crate::header::{opt_view, HeaderFields, TwitterOAuth};
use crate::params::{add_param, upsert, ParamList};
use crate::text::{ascii_bytes, ascii_view};
use crate::KeyPair;

/// The HTTP method of a signed call.
#[derive(Clone, Copy, Debug, PartialEq, Eq, Structural)]
pub enum Method {
    Get,
    Post,
}

pub open spec fn method_chars(m: Method) -> Seq<char> {
    match m {
        Method::Get => "GET"@,
        Method::Post => "POST"@,
    }
}

/// The uppercased method name on the wire.
pub fn method_str(m: Method) -> (r: &'static str)
    ensures
        r@ == method_chars(m),
{
    match m {
        Method::Get => "GET",
        Method::Post => "POST",
    }
}

/// What an HMAC-SHA1 computation returns: a function of key and message
/// alone.
pub uninterp spec fn hmac_sha1(key: Seq<u8>, msg: Seq<u8>) -> Seq<u8>;

/// Relies on `Hmac::<Sha1>` of the hmac and sha1 crates: the tag depends
/// on the key and message alone, and a SHA-1 tag is 20 bytes.
#[verifier::external_body]
fn hmac_sha1_digest(key: &[u8], msg: &[u8]) -> (r: Vec<u8>)
    ensures
        r@ == hmac_sha1(key@, msg@),
        r@.len() == 20,
{
    let mut mac = <hmac::Hmac<sha1::Sha1> as hmac::KeyInit>::new_from_slice(key).expect(
        "HMAC accepts keys of any length",
    );
    hmac::Mac::update(&mut mac, msg);
    hmac::Mac::finalize(mac).into_bytes().to_vec()
}

/// The base64 character of a 6-bit value, standard alphabet.
pub open spec fn b64_char(v: u8) -> char
    recommends
        v < 64,
{
    if v < 26 {
        ((65 + v) as u8) as char
    } else if v < 52 {
        ((97 + (v - 26)) as u8) as char
    } else if v < 62 {
        ((48 + (v - 52)) as u8) as char
    } else if v == 62 {
        '+'
    } else {
        '/'
    }
}

/// Standard base64 with padding: three input bytes become four
/// characters; a final group of one or two bytes is padded with `=`.
pub open spec fn base64_chars(bs: Seq<u8>) -> Seq<char>
    decreases bs.len(),
{
    if bs.len() == 0 {
        Seq::empty()
    } else if bs.len() == 1 {
        seq![b64_char(bs[0] >> 2), b64_char(((bs[0] & 3) << 4) as u8), '=', '=']
    } else if bs.len() == 2 {
        seq![
            b64_char(bs[0] >> 2),
            b64_char((((bs[0] & 3) << 4) | (bs[1] >> 4)) as u8),
            b64_char(((bs[1] & 15) << 2) as u8),
            '=',
        ]
    } else {
        seq![
            b64_char(bs[0] >> 2),
            b64_char((((bs[0] & 3) << 4) | (bs[1] >> 4)) as u8),
            b64_char((((bs[1] & 15) << 2) | (bs[2] >> 6)) as u8),
            b64_char((bs[2] & 63) as u8),
        ] + base64_chars(bs.skip(3))
    }
}

/// Relies on base64's `STANDARD` engine: the standard alphabet, with
/// padding characters included.
#[verifier::external_body]
fn base64_standard(bytes: &[u8]) -> (r: String)
    ensures
        r@ == base64_chars(bytes@),
{
    base64::Engine::encode(&base64::engine::general_purpose::STANDARD, bytes)
}

pub open spec fn is_alnum_char(c: char) -> bool {
    ('a' <= c && c <= 'z') || ('A' <= c && c <= 'Z') || ('0' <= c && c <= '9')
}

/// Relies on rand's `Alphanumeric` distribution: 32 characters drawn
/// from `A-Z`, `a-z` and `0-9`.
#[verifier::external_body]
fn random_nonce() -> (r: String)
    ensures
        r@.len() == 32,
        forall|i: int| 0 <= i < r@.len() ==> is_alnum_char(#[trigger] r@[i]),
{
    rand::distr::SampleString::sample_string(&rand::distr::Alphanumeric, &mut rand::rng(), 32)
}

/// Relies on `SystemTime::now` and `duration_since`: seconds since the
/// Unix epoch, or the duration's magnitude if the clock reads earlier.
#[verifier::external_body]
fn unix_seconds_now() -> u64 {
    match std::time::SystemTime::now().duration_since(std::time::UNIX_EPOCH) {
        Ok(d) => d.as_secs(),
        Err(e) => e.duration().as_secs(),
    }
}

/// The signing parameter set: the request parameters joined by the
/// protocol parameters, which overwrite on a key collision. The
/// signature itself is never part of this set.
pub open spec fn signing_pairs(params: Seq<(Seq<char>, Seq<char>)>, h: HeaderFields) -> Seq<
    (Seq<char>, Seq<char>),
> {
    let s = upsert(params, "oauth_consumer_key"@, h.consumer_key);
    let s = upsert(s, "oauth_nonce"@, h.nonce);
    let s = upsert(s, "oauth_signature_method"@, "HMAC-SHA1"@);
    let s = upsert(s, "oauth_timestamp"@, dec_chars(h.timestamp));
    let s = upsert(s, "oauth_version"@, "1.0"@);
    let s = match h.token {
        Some(t) => upsert(s, "oauth_token"@, t),
        None => s,
    };
    let s = match h.callback {
        Some(c) => upsert(s, "oauth_callback"@, c),
        None => s,
    };
    match h.verifier {
        Some(v) => upsert(s, "oauth_verifier"@, v),
        None => s,
    }
}

/// The signature base string: method, target URI and canonical query
/// string, each percent-encoded, joined with `&`.
pub open spec fn base_string(m: Method, uri: Seq<char>, q: Seq<char>) -> Seq<char> {
    pe(method_chars(m)) + seq!['&'] + pe(uri) + seq!['&'] + pe(q)
}

/// The signing key: encoded consumer secret and encoded token secret
/// (empty without a token), joined with `&`.
pub open spec fn signing_key(consumer_secret: Seq<char>, token_secret: Seq<char>) -> Seq<char> {
    pe(consumer_secret) + seq!['&'] + pe(token_secret)
}

/// The signature of a call: base64 of the HMAC-SHA1 digest of the base
/// string under the signing key.
pub open spec fn signature_chars(
    m: Method,
    uri: Seq<char>,
    params: Seq<(Seq<char>, Seq<char>)>,
    h: HeaderFields,
    consumer_secret: Seq<char>,
    token_secret: Seq<char>,
) -> Seq<char> {
    base64_chars(
        hmac_sha1(
            encode_utf8(signing_key(consumer_secret, token_secret)),
            encode_utf8(base_string(m, uri, canonical_query(signing_pairs(params, h)))),
        ),
    )
}

pub open spec fn opt_params_view(params: Option<&ParamList>) -> Seq<(Seq<char>, Seq<char>)> {
    match params {
        Some(p) => p@,
        None => Seq::empty(),
    }
}

pub open spec fn opt_token_secret(t: Option<&KeyPair>) -> Seq<char> {
    match t {
        Some(k) => k.secret@,
        None => Seq::empty(),
    }
}

pub open spec fn opt_token_key(t: Option<&KeyPair>) -> Option<Seq<char>> {
    match t {
        Some(k) => Some(k.key@),
        None => None,
    }
}

/// Law: the signature is a function of its inputs — two computations
/// over equal method, URI, parameters, header fields and secrets give
/// byte-identical signatures.
pub proof fn lemma_signature_deterministic(
    m: Method,
    uri: Seq<char>,
    params: Seq<(Seq<char>, Seq<char>)>,
    h1: HeaderFields,
    h2: HeaderFields,
    consumer_secret: Seq<char>,
    token_secret: Seq<char>,
)
    requires
        h1 == h2,
    ensures
        signature_chars(m, uri, params, h1, consumer_secret, token_secret) == signature_chars(
            m,
            uri,
            params,
            h2,
            consumer_secret,
            token_secret,
        ),
{
}

/// The character sequences of a vector of string slices.
pub open spec fn str_views(parts: Seq<&str>) -> Seq<Seq<char>> {
    parts.map_values(|p: &str| p@)
}

/// Builds an ASCII buffer holding `pe(a) & pe(b) & pe(c)` for the base
/// string, or `pe(a) & pe(b)` for the signing key.
fn encode_joined(parts: &Vec<&str>) -> (r: Vec<u8>)
    ensures
        ascii_bytes(r@),
        ascii_view(r@) == joined_encoded(str_views(parts@)),
{
    let ghost views = str_views(parts@);
    let mut out: Vec<u8> = Vec::new();
    let n = parts.len();
    let mut i: usize = 0;
    proof {
        assert(ascii_view(out@) =~= Seq::<char>::empty());
        assert(joined_encoded(views.take(0)) =~= Seq::<char>::empty());
    }
    while i < n
        invariant
            n == parts@.len(),
            views == str_views(parts@),
            i <= n,
            ascii_bytes(out@),
            ascii_view(out@) == joined_encoded(views.take(i as int)),
        decreases n - i,
    {
        proof {
            assert(views[i as int] == parts@[i as int]@);
        }
        let ghost base = ascii_view(out@);
        if i > 0 {
            let ghost b0 = out@;
            out.push(38);
            proof {
                crate::text::lemma_ascii_view_push(b0, 38);
            }
        }
        let p = parts[i];
        let bytes = p.as_bytes();
        push_percent_encoded(&mut out, bytes, 0, bytes.len());
        proof {
            assert(bytes@.subrange(0, bytes@.len() as int) =~= bytes@);
            lemma_joined_encoded_snoc(views.take(i as int), views[i as int]);
            assert(views.take(i + 1) =~= views.take(i as int).push(views[i as int]));
            if i == 0 {
                assert(ascii_view(out@) =~= pe(views[0]));
            } else {
                assert(ascii_view(out@) =~= (base + seq!['&']) + pe(views[i as int]));
                assert(ascii_view(out@) =~= base + seq!['&'] + pe(views[i as int]));
            }
        }
        i = i + 1;
    }
    proof {
        assert(views.take(n as int) =~= views);
    }
    out
}

/// Percent-encoded parts joined with `&`.
pub open spec fn joined_encoded(parts: Seq<Seq<char>>) -> Seq<char>
    decreases parts.len(),
{
    if parts.len() == 0 {
        Seq::empty()
    } else if parts.len() == 1 {
        pe(parts[0])
    } else {
        pe(parts[0]) + seq!['&'] + joined_encoded(parts.drop_first())
    }
}

proof fn lemma_joined_encoded_snoc(parts: Seq<Seq<char>>, e: Seq<char>)
    ensures
        joined_encoded(parts.push(e)) == if parts.len() == 0 {
            pe(e)
        } else {
            joined_encoded(parts) + seq!['&'] + pe(e)
        },
    decreases parts.len(),
{
    let w = parts.push(e);
    if parts.len() == 0 {
        assert(w.len() == 1);
        assert(w[0] == e);
    } else {
        lemma_joined_encoded_snoc(parts.drop_first(), e);
        assert(w.drop_first() =~= parts.drop_first().push(e));
        assert(w[0] == parts[0]);
        if parts.len() == 1 {
            assert(parts.drop_first().len() == 0);
        } else {
            assert(pe(parts[0]) + seq!['&'] + (joined_encoded(parts.drop_first()) + seq!['&']
                + pe(e)) =~= (pe(parts[0]) + seq!['&'] + joined_encoded(parts.drop_first()))
                + seq!['&'] + pe(e));
        }
    }
}

/// Signs a header record: computes the signature over the given method,
/// URI and parameters and returns the record with `signature` populated.
pub fn sign(
    header: TwitterOAuth,
    method: Method,
    uri: &str,
    params: Option<&ParamList>,
    con_token: &KeyPair,
    access_token: Option<&KeyPair>,
) -> (r: TwitterOAuth)
    requires
        match params {
            Some(p) => p.wf(),
            None => true,
        },
    ensures
        r@ == (HeaderFields {
            signature: Some(
                signature_chars(
                    method,
                    uri@,
                    opt_params_view(params),
                    header@,
                    con_token.secret@,
                    opt_token_secret(access_token),
                ),
            ),
            ..header@
        }),
{
    let ghost h = header@;
    let mut sig_params: ParamList = match params {
        Some(p) => p.duplicate(),
        None => ParamList::new(),
    };
    proof {
        assert(sig_params@ == opt_params_view(params));
        if params is None {
            assert(crate::params::unique_keys(sig_params@));
        }
    }
    add_param(&mut sig_params, String::from_str("oauth_consumer_key"), header.consumer_key.clone());
    add_param(&mut sig_params, String::from_str("oauth_nonce"), header.nonce.clone());
    add_param(
        &mut sig_params,
        String::from_str("oauth_signature_method"),
        String::from_str("HMAC-SHA1"),
    );
    add_param(
        &mut sig_params,
        String::from_str("oauth_timestamp"),
        crate::decimal::u64_string(header.timestamp),
    );
    add_param(&mut sig_params, String::from_str("oauth_version"), String::from_str("1.0"));
    if let Some(t) = &header.token {
        add_param(&mut sig_params, String::from_str("oauth_token"), t.clone());
    }
    if let Some(c) = &header.callback {
        add_param(&mut sig_params, String::from_str("oauth_callback"), c.clone());
    }
    if let Some(v) = &header.verifier {
        add_param(&mut sig_params, String::from_str("oauth_verifier"), v.clone());
    }
    proof {
        assert(sig_params@ == signing_pairs(opt_params_view(params), h));
    }
    let query = canonical_query_string(&sig_params);
    let mut base_parts: Vec<&str> = Vec::new();
    base_parts.push(method_str(method));
    base_parts.push(uri);
    base_parts.push(query.as_str());
    let base = encode_joined(&base_parts);
    proof {
        reveal_with_fuel(joined_encoded, 4);
        let views = str_views(base_parts@);
        assert(views.len() == 3);
        assert(views[0] == method_chars(method) && views[1] == uri@ && views[2] == query@);
        assert(views.drop_first() =~= seq![uri@, query@]);
        assert(views.drop_first().drop_first() =~= seq![query@]);
        assert(joined_encoded(views) =~= base_string(
            method,
            uri@,
            canonical_query(signing_pairs(opt_params_view(params), h)),
        ));
        crate::text::lemma_ascii_view_chars(base@);
        vstd::utf8::is_ascii_chars_encode_utf8(ascii_view(base@));
        assert(encode_utf8(ascii_view(base@)) =~= base@);
    }
    let mut key_parts: Vec<&str> = Vec::new();
    key_parts.push(con_token.secret.as_str());
    let token_secret: &str = match access_token {
        Some(k) => k.secret.as_str(),
        None => "",
    };
    key_parts.push(token_secret);
    let key = encode_joined(&key_parts);
    proof {
        reveal_with_fuel(joined_encoded, 3);
        reveal_strlit("");
        assert(token_secret@ == opt_token_secret(access_token));
        let views = str_views(key_parts@);
        assert(views.len() == 2);
        assert(views[0] == con_token.secret@ && views[1] == opt_token_secret(access_token));
        assert(views.drop_first() =~= seq![opt_token_secret(access_token)]);
        assert(joined_encoded(views) =~= signing_key(
            con_token.secret@,
            opt_token_secret(access_token),
        ));
        crate::text::lemma_ascii_view_chars(key@);
        vstd::utf8::is_ascii_chars_encode_utf8(ascii_view(key@));
        assert(encode_utf8(ascii_view(key@)) =~= key@);
    }
    let digest = hmac_sha1_digest(key.as_slice(), base.as_slice());
    let signature = base64_standard(digest.as_slice());
    let r = TwitterOAuth { signature: Some(signature), ..header };
    proof {
        assert(r@ == (HeaderFields {
            signature: Some(
                signature_chars(
                    method,
                    uri@,
                    opt_params_view(params),
                    h,
                    con_token.secret@,
                    opt_token_secret(access_token),
                ),
            ),
            ..h
        }));
    }
    r
}

/// Builds a signed header for a call: a fresh nonce and the current
/// clock reading, then the signature over the given inputs.
pub fn get_header(
    method: Method,
    uri: &str,
    con_token: &KeyPair,
    access_token: Option<&KeyPair>,
    callback: Option<String>,
    verifier: Option<String>,
    params: Option<&ParamList>,
) -> (r: TwitterOAuth)
    requires
        match params {
            Some(p) => p.wf(),
            None => true,
        },
    ensures
        ({
            let h = HeaderFields {
                consumer_key: con_token.key@,
                nonce: r@.nonce,
                signature: None,
                timestamp: r@.timestamp,
                token: opt_token_key(access_token),
                callback: opt_view(callback),
                verifier: opt_view(verifier),
            };
            r@ == (HeaderFields {
                signature: Some(
                    signature_chars(
                        method,
                        uri@,
                        opt_params_view(params),
                        h,
                        con_token.secret@,
                        opt_token_secret(access_token),
                    ),
                ),
                ..h
            })
        }),
        r@.nonce.len() == 32,
        forall|i: int| 0 <= i < r@.nonce.len() ==> is_alnum_char(#[trigger] r@.nonce[i]),
{
    let nonce = random_nonce();
    let timestamp = unix_seconds_now();
    let token = match access_token {
        Some(k) => Some(k.key.clone()),
        None => None,
    };
    let header = TwitterOAuth {
        consumer_key: con_token.key.clone(),
        nonce,
        signature: None,
        timestamp,
        token,
        callback,
        verifier,
    };
    sign(header, method, uri, params, con_token, access_token)
}

} // verus!
