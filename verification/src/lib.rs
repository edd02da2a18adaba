//! Client-side engine for the OAuth 1.0a three-legged authorization
//! protocol: canonical parameter serialization, HMAC-SHA1 request signing,
//! `Authorization` header construction and parsing, and the token-exchange
//! response parsers.

use vstd::prelude::*;

pub mod canonical;
pub mod decimal;
pub mod encode;
pub mod error;
pub mod flows;
pub mod form;
pub mod header;
pub mod json;
pub mod params;
pub mod sign;
pub mod parse;
pub mod roundtrip;
pub mod text;

verus! {

/// A key/secret pair: either a consumer identity or an issued token.
#[derive(Debug, Clone, PartialEq, Eq)]
pub struct KeyPair {
    pub key: String,
    pub secret: String,
}

impl KeyPair {
    pub fn new(key: String, secret: String) -> (r: KeyPair)
        ensures
            r.key@ == key@,
            r.secret@ == secret@,
    {
        KeyPair { key, secret }
    }
}

} // verus!
