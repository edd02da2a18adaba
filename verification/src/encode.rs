//! The percent-encoder and -decoder.
//!
//! Encoding passes ASCII letters, digits and `- . _ ~` through unchanged
//! and writes every other byte as `%XX` with uppercase hex digits; this
//! alphabet is deliberately narrower than general URL encoding.

use vstd::prelude::*;

verus! {

use vstd::utf8::{encode_utf8, is_ascii_chars};

use crate::text::{ascii_bytes, ascii_string, ascii_view};

/// A byte the encoder passes through unchanged: an ASCII letter, an ASCII
/// digit, or one of `- . _ ~`.
pub open spec fn is_unreserved(b: u8) -> bool {
    (('a' as u8) <= b && b <= ('z' as u8)) || (('A' as u8) <= b && b <= ('Z' as u8)) || (('0'
        as u8) <= b && b <= ('9' as u8)) || b == ('-' as u8) || b == ('.' as u8) || b == ('_'
        as u8) || b == ('~' as u8)
}

/// Uppercase hexadecimal digit for a value below 16.
pub open spec fn hex_char(n: u8) -> char
    recommends
        n < 16,
{
    if n < 10 {
        ((n + 48) as u8) as char
    } else {
        ((n + 55) as u8) as char
    }
}

/// Percent-encoding of a single byte.
pub open spec fn pe_byte(b: u8) -> Seq<char> {
    if is_unreserved(b) {
        seq![b as char]
    } else {
        seq!['%', hex_char(b / 16), hex_char(b % 16)]
    }
}

/// Percent-encoding of a byte sequence.
pub open spec fn pe_bytes(bs: Seq<u8>) -> Seq<char>
    decreases bs.len(),
{
    if bs.len() == 0 {
        Seq::empty()
    } else {
        pe_byte(bs[0]) + pe_bytes(bs.drop_first())
    }
}

/// Percent-encoding of a string: its UTF-8 bytes, encoded one by one.
pub open spec fn pe(s: Seq<char>) -> Seq<char> {
    pe_bytes(encode_utf8(s))
}

/// Every character the encoder emits: an unreserved byte as a character,
/// or `%`, or an uppercase hex digit (itself unreserved).
pub open spec fn is_encoded_char(c: char) -> bool {
    '\0' <= c && c <= '\u{7f}' && (is_unreserved(c as u8) || c == '%')
}

pub proof fn lemma_pe_bytes_concat(a: Seq<u8>, b: Seq<u8>)
    ensures
        pe_bytes(a + b) == pe_bytes(a) + pe_bytes(b),
    decreases a.len(),
{
    if a.len() == 0 {
        assert(a + b =~= b);
        assert(pe_bytes(a) + pe_bytes(b) =~= pe_bytes(b));
    } else {
        lemma_pe_bytes_concat(a.drop_first(), b);
        assert((a + b).drop_first() =~= a.drop_first() + b);
        assert(pe_byte(a[0]) + (pe_bytes(a.drop_first()) + pe_bytes(b)) =~= (pe_byte(a[0])
            + pe_bytes(a.drop_first())) + pe_bytes(b));
    }
}

pub proof fn lemma_pe_bytes_snoc(bs: Seq<u8>, i: int)
    requires
        0 <= i < bs.len(),
    ensures
        pe_bytes(bs.take(i + 1)) == pe_bytes(bs.take(i)) + pe_byte(bs[i]),
{
    assert(bs.take(i + 1) =~= bs.take(i) + seq![bs[i]]);
    lemma_pe_bytes_concat(bs.take(i), seq![bs[i]]);
    assert(seq![bs[i]].drop_first() =~= Seq::<u8>::empty());
    assert(pe_bytes(Seq::<u8>::empty()) == Seq::<char>::empty());
    assert(pe_bytes(seq![bs[i]]) == pe_byte(bs[i]) + pe_bytes(seq![bs[i]].drop_first()));
    assert(pe_bytes(seq![bs[i]]) =~= pe_byte(bs[i]));
}

/// Everything the encoder emits is an encoded character.
pub proof fn lemma_pe_bytes_chars(bs: Seq<u8>)
    ensures
        forall|j: int| 0 <= j < pe_bytes(bs).len() ==> is_encoded_char(#[trigger] pe_bytes(bs)[j]),
        is_ascii_chars(pe_bytes(bs)),
    decreases bs.len(),
{
    if bs.len() > 0 {
        lemma_pe_bytes_chars(bs.drop_first());
        let b = bs[0];
        assert forall|j: int| 0 <= j < pe_byte(b).len() implies is_encoded_char(
            #[trigger] pe_byte(b)[j],
        ) by {
            if is_unreserved(b) {
                assert(pe_byte(b)[0] == b as char);
                assert((b as char) as u8 == b);
            } else {
                assert(hex_char(b / 16) as u8 == if b / 16 < 10 {
                    b / 16 + 48
                } else {
                    b / 16 + 55
                });
                assert(hex_char(b % 16) as u8 == if b % 16 < 10 {
                    b % 16 + 48
                } else {
                    b % 16 + 55
                });
            }
        }
    }
}

/// Uppercase hexadecimal digit of a value below 16, as a byte.
fn hex_digit(n: u8) -> (c: u8)
    requires
        n < 16,
    ensures
        c as char == hex_char(n),
        c < 128,
{
    if n < 10 {
        n + 48
    } else {
        n + 55
    }
}

fn is_unreserved_byte(b: u8) -> (r: bool)
    ensures
        r == is_unreserved(b),
{
    (97 <= b && b <= 122) || (65 <= b && b <= 90) || (48 <= b && b <= 57) || b == 45 || b == 46
        || b == 95 || b == 126
}

/// Appends the percent-encoding of `bs[from..to]` to an ASCII buffer.
pub fn push_percent_encoded(out: &mut Vec<u8>, bs: &[u8], from: usize, to: usize)
    requires
        from <= to <= bs@.len(),
        ascii_bytes(old(out)@),
    ensures
        ascii_bytes(final(out)@),
        ascii_view(final(out)@) == ascii_view(old(out)@) + pe_bytes(bs@.subrange(from as int, to as int)),
{
    let ghost prefix = ascii_view(old(out)@);
    let ghost sub = bs@.subrange(from as int, to as int);
    let mut i: usize = from;
    while i < to
        invariant
            from <= i <= to <= bs@.len(),
            ascii_bytes(out@),
            sub == bs@.subrange(from as int, to as int),
            ascii_view(out@) == prefix + pe_bytes(sub.take(i - from)),
        decreases to - i,
    {
        let b = bs[i];
        let ghost before = out@;
        if is_unreserved_byte(b) {
            out.push(b);
            proof {
                assert(b < 128);
                assert(ascii_view(out@) =~= ascii_view(before).push(b as char));
                assert(pe_byte(b) =~= seq![b as char]);
            }
        } else {
            out.push(37);
            let hi = hex_digit(b / 16);
            out.push(hi);
            let lo = hex_digit(b % 16);
            out.push(lo);
            proof {
                assert(ascii_view(out@) =~= ascii_view(before) + seq![
                    '%',
                    hex_char(b / 16),
                    hex_char(b % 16),
                ]);
            }
        }
        proof {
            lemma_pe_bytes_snoc(sub, i - from);
            assert(sub[i - from] == b);
            assert(ascii_view(out@) =~= prefix + (pe_bytes(sub.take(i - from)) + pe_byte(b)));
        }
        i = i + 1;
    }
    proof {
        assert(sub.take(to - from) =~= sub);
    }
}

/// Value of one hexadecimal digit, either case.
pub open spec fn hex_val(c: char) -> Option<u8> {
    if '0' <= c && c <= '9' {
        Some((c as u8 - 48) as u8)
    } else if 'A' <= c && c <= 'F' {
        Some((c as u8 - 55) as u8)
    } else if 'a' <= c && c <= 'f' {
        Some((c as u8 - 87) as u8)
    } else {
        None
    }
}

/// Percent-decoding of a character sequence into bytes: `%XX` becomes one
/// byte, `+` becomes a space when `plus_space` is set (the form-body
/// convention), any other character below 128 becomes its own byte, and
/// anything else fails.
pub open spec fn pd(s: Seq<char>, plus_space: bool) -> Option<Seq<u8>>
    decreases s.len(),
{
    if s.len() == 0 {
        Some(Seq::empty())
    } else if s[0] == '%' {
        if s.len() >= 3 {
            match (hex_val(s[1]), hex_val(s[2])) {
                (Some(hi), Some(lo)) => match pd(s.subrange(3, s.len() as int), plus_space) {
                    Some(rest) => Some(seq![(hi * 16 + lo) as u8] + rest),
                    None => None,
                },
                _ => None,
            }
        } else {
            None
        }
    } else if plus_space && s[0] == '+' {
        match pd(s.drop_first(), plus_space) {
            Some(rest) => Some(seq![32u8] + rest),
            None => None,
        }
    } else if s[0] <= '\u{7f}' {
        match pd(s.drop_first(), plus_space) {
            Some(rest) => Some(seq![s[0] as u8] + rest),
            None => None,
        }
    } else {
        None
    }
}

fn hex_val_exec(c: char) -> (r: Option<u8>)
    ensures
        r == hex_val(c),
{
    if '0' <= c && c <= '9' {
        Some(c as u8 - 48)
    } else if 'A' <= c && c <= 'F' {
        Some(c as u8 - 55)
    } else if 'a' <= c && c <= 'f' {
        Some(c as u8 - 87)
    } else {
        None
    }
}

/// Percent-decodes the characters `v[from..to]` into bytes.
pub fn percent_decode_range(v: &Vec<char>, from: usize, to: usize, plus_space: bool) -> (r: Option<
    Vec<u8>,
>)
    requires
        from <= to <= v@.len(),
    ensures
        ({
            let d = pd(v@.subrange(from as int, to as int), plus_space);
            &&& (r is Some <==> d is Some)
            &&& (r matches Some(out) ==> d == Some(out@))
        }),
{
    let ghost whole = v@.subrange(from as int, to as int);
    let mut out: Vec<u8> = Vec::new();
    let mut i: usize = from;
    while i < to
        invariant
            from <= i <= to <= v@.len(),
            whole == v@.subrange(from as int, to as int),
            match pd(v@.subrange(i as int, to as int), plus_space) {
                Some(rest) => pd(whole, plus_space) == Some(out@ + rest),
                None => pd(whole, plus_space) is None,
            },
        decreases to - i,
    {
        let ghost cur = v@.subrange(i as int, to as int);
        let ghost before = out@;
        let c = v[i];
        proof {
            assert(cur[0] == c);
        }
        if c == '%' {
            if to - i < 3 {
                return None;
            }
            let h1 = hex_val_exec(v[i + 1]);
            let h2 = hex_val_exec(v[i + 2]);
            proof {
                assert(cur[1] == v@[i + 1]);
                assert(cur[2] == v@[i + 2]);
            }
            match (h1, h2) {
                (Some(hi), Some(lo)) => {
                    out.push(hi * 16 + lo);
                    proof {
                        assert(cur.subrange(3, cur.len() as int) =~= v@.subrange(
                            i + 3,
                            to as int,
                        ));
                        match pd(v@.subrange(i + 3, to as int), plus_space) {
                            Some(rest) => {
                                assert(pd(cur, plus_space) == Some(
                                    seq![(hi * 16 + lo) as u8] + rest,
                                ));
                                assert(before + (seq![(hi * 16 + lo) as u8] + rest) =~= out@
                                    + rest);
                            },
                            None => {},
                        }
                    }
                    i = i + 3;
                },
                _ => {
                    return None;
                },
            }
        } else if plus_space && c == '+' {
            out.push(32);
            proof {
                assert(cur.drop_first() =~= v@.subrange(i + 1, to as int));
                match pd(v@.subrange(i + 1, to as int), plus_space) {
                    Some(rest) => {
                        assert(before + (seq![32u8] + rest) =~= out@ + rest);
                    },
                    None => {},
                }
            }
            i = i + 1;
        } else if c <= '\u{7f}' {
            out.push(c as u8);
            proof {
                assert(cur.drop_first() =~= v@.subrange(i + 1, to as int));
                match pd(v@.subrange(i + 1, to as int), plus_space) {
                    Some(rest) => {
                        assert(before + (seq![c as u8] + rest) =~= out@ + rest);
                    },
                    None => {},
                }
            }
            i = i + 1;
        } else {
            return None;
        }
    }
    proof {
        assert(v@.subrange(i as int, to as int) =~= Seq::<char>::empty());
        assert(out@ + Seq::<u8>::empty() =~= out@);
    }
    Some(out)
}

/// Decoding undoes encoding: for any byte sequence, decoding the
/// percent-encoded characters gives back exactly those bytes, under either
/// decoding convention.
pub proof fn lemma_pd_pe_bytes(bs: Seq<u8>, plus_space: bool)
    ensures
        pd(pe_bytes(bs), plus_space) == Some(bs),
    decreases bs.len(),
{
    if bs.len() == 0 {
        assert(pd(pe_bytes(bs), plus_space) == Some(Seq::<u8>::empty()));
        assert(Seq::<u8>::empty() =~= bs);
    } else {
        let b = bs[0];
        let s = pe_bytes(bs);
        let rest_enc = pe_bytes(bs.drop_first());
        lemma_pd_pe_bytes(bs.drop_first(), plus_space);
        vstd::arithmetic::div_mod::lemma_fundamental_div_mod(b as int, 16);
        if is_unreserved(b) {
            assert(s =~= seq![b as char] + rest_enc);
            assert(s[0] == b as char);
            assert((b as char) as u8 == b);
            assert(b != 37 && b != 43);
            assert(s[0] != '%' && s[0] != '+');
            assert(s[0] <= '\u{7f}');
            assert(s.drop_first() =~= rest_enc);
            assert(pd(s, plus_space) == Some(seq![b] + bs.drop_first()));
            assert(seq![b] + bs.drop_first() =~= bs);
        } else {
            let hi = (b / 16) as u8;
            let lo = (b % 16) as u8;
            assert(s =~= seq!['%', hex_char(hi), hex_char(lo)] + rest_enc);
            assert(s[0] == '%');
            assert(s[1] == hex_char(hi) && s[2] == hex_char(lo));
            assert(hex_val(hex_char(hi)) == Some(hi));
            assert(hex_val(hex_char(lo)) == Some(lo));
            assert(s.subrange(3, s.len() as int) =~= rest_enc);
            assert(hi * 16 + lo == b);
            assert(pd(s, plus_space) == Some(seq![b] + bs.drop_first()));
            assert(seq![b] + bs.drop_first() =~= bs);
        }
    }
}

/// Percent-encodes a string per the protocol's reserved-character set.
pub fn percent_encode(src: &str) -> (r: String)
    ensures
        r@ == pe(src@),
        is_ascii_chars(r@),
{
    let bytes = src.as_bytes();
    let mut out: Vec<u8> = Vec::new();
    push_percent_encoded(&mut out, bytes, 0, bytes.len());
    proof {
        assert(bytes@.subrange(0, bytes@.len() as int) =~= bytes@);
        assert(ascii_view(Seq::<u8>::empty()) + pe_bytes(bytes@) =~= pe_bytes(bytes@));
        lemma_pe_bytes_chars(bytes@);
    }
    ascii_string(out)
}

} // verus!
