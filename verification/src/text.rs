//! Conversions between byte buffers and `String`, and small helpers for
//! building ASCII output one byte at a time.

use vstd::prelude::*;

verus! {

use vstd::string::is_ascii_spec_bytes;
use vstd::utf8::{decode_utf8, encode_utf8, is_ascii_chars, valid_utf8};

/// The characters a sequence of bytes below 128 stands for, one per byte.
pub open spec fn ascii_view(bs: Seq<u8>) -> Seq<char> {
    bs.map(|_i: int, b: u8| b as char)
}

pub open spec fn ascii_bytes(bs: Seq<u8>) -> bool {
    forall|i: int| 0 <= i < bs.len() ==> bs[i] < 128
}

pub proof fn lemma_ascii_view_push(bs: Seq<u8>, b: u8)
    ensures
        ascii_view(bs.push(b)) =~= ascii_view(bs).push(b as char),
{
}

pub proof fn lemma_ascii_view_concat(a: Seq<u8>, b: Seq<u8>)
    ensures
        ascii_view(a + b) =~= ascii_view(a) + ascii_view(b),
{
}

/// A sequence of characters below 128 viewed back as bytes round-trips.
pub proof fn lemma_ascii_view_chars(bs: Seq<u8>)
    requires
        ascii_bytes(bs),
    ensures
        is_ascii_chars(ascii_view(bs)),
        forall|i: int| 0 <= i < bs.len() ==> (#[trigger] ascii_view(bs)[i]) as u8 == bs[i],
{
    assert forall|i: int| 0 <= i < bs.len() implies '\0' <= #[trigger] ascii_view(bs)[i]
        <= '\u{7f}' && ascii_view(bs)[i] as u8 == bs[i] by {
        assert(ascii_view(bs)[i] == bs[i] as char);
    }
}

/// Relies on `String::from_utf8`: bytes below 128 are single-byte UTF-8
/// code points, so the call returns a string of exactly those characters.
#[verifier::external_body]
pub fn ascii_string(v: Vec<u8>) -> (r: String)
    requires
        ascii_bytes(v@),
    ensures
        r@ == ascii_view(v@),
{
    String::from_utf8(v).unwrap_or_default()
}

/// Relies on `String::from_utf8`: it returns `Ok` exactly on valid UTF-8
/// input, and the returned string decodes those bytes.
#[verifier::external_body]
pub fn utf8_string(v: Vec<u8>) -> (r: Option<String>)
    ensures
        r is Some <==> valid_utf8(v@),
        r matches Some(s) ==> s@ == decode_utf8(v@),
{
    match String::from_utf8(v) {
        Ok(s) => Some(s),
        Err(_) => None,
    }
}

/// Appends the bytes of an ASCII string slice to a byte buffer.
pub fn push_ascii_str(out: &mut Vec<u8>, s: &str)
    requires
        vstd::string::is_ascii(s),
        ascii_bytes(old(out)@),
    ensures
        ascii_bytes(final(out)@),
        ascii_view(final(out)@) == ascii_view(old(out)@) + s@,
{
    broadcast use is_ascii_spec_bytes;

    let ghost prefix = out@;
    let bytes = s.as_bytes();
    out.extend_from_slice(bytes);
    proof {
        assert forall|i: int| 0 <= i < out@.len() implies out@[i] < 128 by {
            if i >= prefix.len() {
                assert(out@[i] == s@[i - prefix.len()] as u8);
            }
        }
        lemma_ascii_view_concat(prefix, bytes@);
        assert(ascii_view(bytes@) =~= s@);
    }
}

fn bytes_eq(a: &[u8], b: &[u8]) -> (r: bool)
    ensures
        r == (a@ == b@),
{
    if a.len() != b.len() {
        return false;
    }
    let mut i: usize = 0;
    while i < a.len()
        invariant
            a@.len() == b@.len(),
            i <= a@.len(),
            forall|j: int| 0 <= j < i ==> a@[j] == b@[j],
        decreases a@.len() - i,
    {
        if a[i] != b[i] {
            return false;
        }
        i = i + 1;
    }
    proof {
        assert(a@ =~= b@);
    }
    true
}

/// Compares two string slices by their characters.
pub fn str_eq(a: &str, b: &str) -> (r: bool)
    ensures
        r == (a@ == b@),
{
    let r = bytes_eq(a.as_bytes(), b.as_bytes());
    proof {
        if encode_utf8(a@) == encode_utf8(b@) {
            vstd::utf8::encode_utf8_decode_utf8(a@);
            vstd::utf8::encode_utf8_decode_utf8(b@);
        }
    }
    r
}

/// Copies the characters of a string into a vector.
pub fn str_chars(s: &str) -> (r: Vec<char>)
    ensures
        r@ == s@,
{
    let n = s.unicode_len();
    let mut out: Vec<char> = Vec::new();
    let mut i: usize = 0;
    while i < n
        invariant
            n == s@.len(),
            i <= n,
            out@ =~= s@.take(i as int),
        decreases n - i,
    {
        let c = s.get_char(i);
        out.push(c);
        proof {
            assert(out@ =~= s@.take(i + 1));
        }
        i = i + 1;
    }
    proof {
        assert(s@.take(n as int) =~= s@);
    }
    out
}

} // verus!
