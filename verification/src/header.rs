//! The authorization header record and its wire codec.
//!
//! `header_value` serializes a record as `OAuth name="value", ...` with
//! percent-encoded values in a fixed field order; `parse` reads such a
//! string back. Parsing recovers every field of a serialized record.

use vstd::prelude::*;

verus! {

use vstd::utf8::encode_utf8;

use crate::decimal::dec_chars;
use crate::encode::{pe, push_percent_encoded};
use crate::text::{ascii_bytes, ascii_string, ascii_view, push_ascii_str};

/// The mathematical content of an authorization header record.
pub struct HeaderFields {
    pub consumer_key: Seq<char>,
    pub nonce: Seq<char>,
    pub signature: Option<Seq<char>>,
    pub timestamp: u64,
    pub token: Option<Seq<char>>,
    pub callback: Option<Seq<char>>,
    pub verifier: Option<Seq<char>>,
}

/// An authorization header record. Created unsigned; signing produces a
/// copy with `signature` populated.
#[derive(Debug, Clone, PartialEq, Eq)]
pub struct TwitterOAuth {
    pub consumer_key: String,
    pub nonce: String,
    pub signature: Option<String>,
    pub timestamp: u64,
    pub token: Option<String>,
    pub callback: Option<String>,
    pub verifier: Option<String>,
}

pub open spec fn opt_view(o: Option<String>) -> Option<Seq<char>> {
    match o {
        Some(s) => Some(s@),
        None => None,
    }
}

impl View for TwitterOAuth {
    type V = HeaderFields;

    open spec fn view(&self) -> HeaderFields {
        HeaderFields {
            consumer_key: self.consumer_key@,
            nonce: self.nonce@,
            signature: opt_view(self.signature),
            timestamp: self.timestamp,
            token: opt_view(self.token),
            callback: opt_view(self.callback),
            verifier: opt_view(self.verifier),
        }
    }
}

/// One serialized field: `name="encoded-value"`.
pub open spec fn seg(name: Seq<char>, value: Seq<char>) -> Seq<char> {
    name + seq!['=', '"'] + pe(value) + seq!['"']
}

/// A field preceded by the `, ` separator.
pub open spec fn sep_seg(name: Seq<char>, value: Seq<char>) -> Seq<char> {
    seq![',', ' '] + seg(name, value)
}

/// An optional field: present with its separator, or nothing.
pub open spec fn opt_seg(name: Seq<char>, o: Option<Seq<char>>) -> Seq<char> {
    match o {
        Some(v) => sep_seg(name, v),
        None => Seq::empty(),
    }
}

/// The full wire form of a record.
pub open spec fn render(h: HeaderFields) -> Seq<char> {
    "OAuth "@ + seg("oauth_consumer_key"@, h.consumer_key) + sep_seg("oauth_nonce"@, h.nonce)
        + opt_seg("oauth_signature"@, h.signature) + sep_seg(
        "oauth_signature_method"@,
        "HMAC-SHA1"@,
    ) + sep_seg("oauth_timestamp"@, dec_chars(h.timestamp)) + opt_seg("oauth_token"@, h.token)
        + sep_seg("oauth_version"@, "1.0"@) + opt_seg("oauth_callback"@, h.callback) + opt_seg(
        "oauth_verifier"@,
        h.verifier,
    )
}

/// Appends `name="encoded-value"` to an ASCII buffer.
fn push_field(out: &mut Vec<u8>, name: &str, value: &str)
    requires
        vstd::string::is_ascii(name),
        ascii_bytes(old(out)@),
    ensures
        ascii_bytes(final(out)@),
        ascii_view(final(out)@) == ascii_view(old(out)@) + seg(name@, value@),
{
    let ghost prefix = ascii_view(old(out)@);
    push_ascii_str(out, name);
    let ghost b1 = out@;
    out.push(61);
    let ghost b2 = out@;
    out.push(34);
    let bytes = value.as_bytes();
    push_percent_encoded(out, bytes, 0, bytes.len());
    let ghost b3 = out@;
    out.push(34);
    proof {
        crate::text::lemma_ascii_view_push(b1, 61);
        crate::text::lemma_ascii_view_push(b2, 34);
        crate::text::lemma_ascii_view_push(b3, 34);
        assert(bytes@.subrange(0, bytes@.len() as int) =~= bytes@);
        assert(bytes@ == encode_utf8(value@));
        assert(ascii_view(out@) =~= prefix + seg(name@, value@));
    }
}

/// Appends `name="timestamp-digits"` to an ASCII buffer.
fn push_timestamp_field(out: &mut Vec<u8>, name: &str, ts: u64)
    requires
        vstd::string::is_ascii(name),
        ascii_bytes(old(out)@),
    ensures
        ascii_bytes(final(out)@),
        ascii_view(final(out)@) == ascii_view(old(out)@) + seg(name@, dec_chars(ts)),
{
    let ghost prefix = ascii_view(old(out)@);
    let mut digits: Vec<u8> = Vec::new();
    crate::decimal::push_u64_decimal(&mut digits, ts);
    proof {
        assert(ascii_view(digits@) =~= dec_chars(ts));
        crate::text::lemma_ascii_view_chars(digits@);
        vstd::utf8::is_ascii_chars_encode_utf8(dec_chars(ts));
        assert(encode_utf8(dec_chars(ts)) =~= digits@);
    }
    push_ascii_str(out, name);
    let ghost b1 = out@;
    out.push(61);
    let ghost b2 = out@;
    out.push(34);
    push_percent_encoded(out, digits.as_slice(), 0, digits.len());
    let ghost b3 = out@;
    out.push(34);
    proof {
        crate::text::lemma_ascii_view_push(b1, 61);
        crate::text::lemma_ascii_view_push(b2, 34);
        crate::text::lemma_ascii_view_push(b3, 34);
        assert(digits@.subrange(0, digits@.len() as int) =~= digits@);
        assert(ascii_view(out@) =~= prefix + seg(name@, dec_chars(ts)));
    }
}

impl TwitterOAuth {
    /// The wire form of this record: `OAuth ` followed by the fields in
    /// the fixed order, comma-space separated, values percent-encoded.
    pub fn header_value(&self) -> (r: String)
        ensures
            r@ == render(self@),
    {
        let ghost h = self@;
        let mut out: Vec<u8> = Vec::new();
        proof {
            reveal_strlit("OAuth ");
            reveal_strlit("oauth_consumer_key");
        }
        push_ascii_str(&mut out, "OAuth ");
        proof {
            assert(ascii_view(out@) =~= "OAuth "@);
        }
        push_field(&mut out, "oauth_consumer_key", self.consumer_key.as_str());
        proof {
            reveal_strlit("oauth_nonce");
        }
        push_sep_field(&mut out, "oauth_nonce", self.nonce.as_str());
        let ghost g1 = ascii_view(out@);
        if let Some(sig) = &self.signature {
            proof {
                reveal_strlit("oauth_signature");
            }
            push_sep_field(&mut out, "oauth_signature", sig.as_str());
        }
        proof {
            assert(ascii_view(out@) =~= g1 + opt_seg("oauth_signature"@, h.signature));
        }
        proof {
            reveal_strlit("oauth_signature_method");
            reveal_strlit("HMAC-SHA1");
        }
        push_sep_field(&mut out, "oauth_signature_method", "HMAC-SHA1");
        proof {
            reveal_strlit("oauth_timestamp");
        }
        push_sep_timestamp(&mut out, "oauth_timestamp", self.timestamp);
        let ghost g2 = ascii_view(out@);
        if let Some(t) = &self.token {
            proof {
                reveal_strlit("oauth_token");
            }
            push_sep_field(&mut out, "oauth_token", t.as_str());
        }
        proof {
            assert(ascii_view(out@) =~= g2 + opt_seg("oauth_token"@, h.token));
        }
        proof {
            reveal_strlit("oauth_version");
            reveal_strlit("1.0");
        }
        push_sep_field(&mut out, "oauth_version", "1.0");
        let ghost g3 = ascii_view(out@);
        if let Some(c) = &self.callback {
            proof {
                reveal_strlit("oauth_callback");
            }
            push_sep_field(&mut out, "oauth_callback", c.as_str());
        }
        proof {
            assert(ascii_view(out@) =~= g3 + opt_seg("oauth_callback"@, h.callback));
        }
        let ghost g4 = ascii_view(out@);
        if let Some(v) = &self.verifier {
            proof {
                reveal_strlit("oauth_verifier");
            }
            push_sep_field(&mut out, "oauth_verifier", v.as_str());
        }
        proof {
            assert(ascii_view(out@) =~= g4 + opt_seg("oauth_verifier"@, h.verifier));
            assert(ascii_view(out@) =~= render(h));
        }
        ascii_string(out)
    }
}

/// Appends `, name="encoded-value"` to an ASCII buffer.
fn push_sep_field(out: &mut Vec<u8>, name: &str, value: &str)
    requires
        vstd::string::is_ascii(name),
        ascii_bytes(old(out)@),
    ensures
        ascii_bytes(final(out)@),
        ascii_view(final(out)@) == ascii_view(old(out)@) + sep_seg(name@, value@),
{
    let ghost prefix = ascii_view(old(out)@);
    push_sep(out);
    push_field(out, name, value);
    proof {
        assert(ascii_view(out@) =~= prefix + sep_seg(name@, value@));
    }
}

/// Appends `, name="timestamp-digits"` to an ASCII buffer.
fn push_sep_timestamp(out: &mut Vec<u8>, name: &str, ts: u64)
    requires
        vstd::string::is_ascii(name),
        ascii_bytes(old(out)@),
    ensures
        ascii_bytes(final(out)@),
        ascii_view(final(out)@) == ascii_view(old(out)@) + sep_seg(name@, dec_chars(ts)),
{
    let ghost prefix = ascii_view(old(out)@);
    push_sep(out);
    push_timestamp_field(out, name, ts);
    proof {
        assert(ascii_view(out@) =~= prefix + sep_seg(name@, dec_chars(ts)));
    }
}

/// Appends `, ` to an ASCII buffer.
fn push_sep(out: &mut Vec<u8>)
    requires
        ascii_bytes(old(out)@),
    ensures
        ascii_bytes(final(out)@),
        ascii_view(final(out)@) == ascii_view(old(out)@) + seq![',', ' '],
{
    let ghost b0 = out@;
    out.push(44);
    let ghost b1 = out@;
    out.push(32);
    proof {
        crate::text::lemma_ascii_view_push(b0, 44);
        crate::text::lemma_ascii_view_push(b1, 32);
        assert(ascii_view(out@) =~= ascii_view(b0) + seq![',', ' ']);
    }
}

} // verus!
