//! Decimal rendering and parsing of unsigned 64-bit integers, for
//! timestamps and numeric identifiers.

use vstd::prelude::*;

verus! {

use crate::text::{ascii_bytes, ascii_view};

pub open spec fn is_digit(c: char) -> bool {
    '0' <= c && c <= '9'
}

/// The decimal digits of a number, most significant first.
pub open spec fn dec_chars(n: u64) -> Seq<char>
    decreases n,
{
    if n < 10 {
        seq![((48 + n % 10) as u8) as char]
    } else {
        dec_chars(n / 10) + seq![((48 + n % 10) as u8) as char]
    }
}

/// The numeric value of a digit sequence.
pub open spec fn dec_val(s: Seq<char>) -> nat
    decreases s.len(),
{
    if s.len() == 0 {
        0
    } else {
        (dec_val(s.drop_last()) * 10 + (s.last() as u8 - 48)) as nat
    }
}

pub open spec fn all_digits(s: Seq<char>) -> bool {
    forall|i: int| 0 <= i < s.len() ==> is_digit(#[trigger] s[i])
}

/// Parse of a decimal numeral: at least one digit, nothing but digits,
/// and a value that fits in 64 bits.
pub open spec fn parse_dec(s: Seq<char>) -> Option<u64> {
    if s.len() > 0 && all_digits(s) && dec_val(s) <= u64::MAX {
        Some(dec_val(s) as u64)
    } else {
        None
    }
}

pub proof fn lemma_dec_chars_digits(n: u64)
    ensures
        dec_chars(n).len() >= 1,
        all_digits(dec_chars(n)),
        dec_val(dec_chars(n)) == n,
    decreases n,
{
    if n < 10 {
        let s = dec_chars(n);
        assert(s.len() == 1);
        assert(s[0] == ((48 + n % 10) as u8) as char);
        assert(s.last() == s[0]);
        assert(s.drop_last() =~= Seq::<char>::empty());
        assert(dec_val(Seq::<char>::empty()) == 0);
        assert(s.last() as u8 == 48 + n % 10);
        vstd::arithmetic::div_mod::lemma_small_mod(n as nat, 10);
        assert(dec_val(s) == n);
    } else {
        lemma_dec_chars_digits(n / 10);
        let s = dec_chars(n);
        let d = ((48 + n % 10) as u8) as char;
        assert(s.drop_last() =~= dec_chars(n / 10));
        assert(s.last() == d);
        assert forall|i: int| 0 <= i < s.len() implies is_digit(#[trigger] s[i]) by {
            if i < s.len() - 1 {
                assert(s[i] == dec_chars(n / 10)[i]);
            }
        }
        assert(dec_val(s) == (n / 10) * 10 + (n % 10));
        vstd::arithmetic::div_mod::lemma_fundamental_div_mod(n as int, 10);
    }
}

/// Parsing undoes rendering.
pub proof fn lemma_parse_dec_chars(n: u64)
    ensures
        parse_dec(dec_chars(n)) == Some(n),
{
    lemma_dec_chars_digits(n);
}

proof fn lemma_dec_val_extend(s: Seq<char>, i: int)
    requires
        0 <= i < s.len(),
        is_digit(s[i]),
    ensures
        dec_val(s.take(i + 1)) == dec_val(s.take(i)) * 10 + (s[i] as u8 - 48),
{
    assert(s.take(i + 1).drop_last() =~= s.take(i));
    assert(s.take(i + 1).last() == s[i]);
}

proof fn lemma_dec_val_prefix(s: Seq<char>, i: int)
    requires
        0 <= i <= s.len(),
        all_digits(s),
    ensures
        dec_val(s.take(i)) <= dec_val(s),
    decreases s.len() - i,
{
    if i == s.len() {
        assert(s.take(i) =~= s);
    } else {
        lemma_dec_val_prefix(s, i + 1);
        assert(is_digit(s[i]));
        lemma_dec_val_extend(s, i);
        assert(s[i] as u8 >= 48);
        assert(dec_val(s.take(i)) * 10 + (s[i] as u8 - 48) >= dec_val(s.take(i)));
    }
}

/// Appends the decimal digits of a number to an ASCII buffer.
pub fn push_u64_decimal(out: &mut Vec<u8>, n: u64)
    requires
        ascii_bytes(old(out)@),
    ensures
        ascii_bytes(final(out)@),
        ascii_view(final(out)@) == ascii_view(old(out)@) + dec_chars(n),
{
    let ghost prefix = ascii_view(old(out)@);
    let mut rev: Vec<u8> = Vec::new();
    let mut m: u64 = n;
    proof {
        assert(ascii_view(rev@).reverse() =~= Seq::<char>::empty());
        assert(dec_chars(n) =~= dec_chars(n) + ascii_view(rev@).reverse());
    }
    while m >= 10
        invariant
            ascii_bytes(rev@),
            dec_chars(n) == dec_chars(m) + ascii_view(rev@).reverse(),
        decreases m,
    {
        let ghost mm = m;
        let ghost rv = rev@;
        let d = (m % 10) as u8;
        rev.push(48 + d);
        m = m / 10;
        proof {
            crate::text::lemma_ascii_view_push(rv, (48 + d) as u8);
            assert(ascii_view(rev@).reverse() =~= seq![((48 + mm % 10) as u8) as char]
                + ascii_view(rv).reverse());
            assert(dec_chars(mm) == dec_chars(mm / 10) + seq![((48 + mm % 10) as u8) as char]);
            assert(dec_chars(mm / 10) + (seq![((48 + mm % 10) as u8) as char]
                + ascii_view(rv).reverse()) =~= (dec_chars(mm / 10) + seq![((48 + mm % 10) as u8)
                as char]) + ascii_view(rv).reverse());
        }
    }
    let ghost before_digit = out@;
    out.push(48 + (m % 10) as u8);
    proof {
        crate::text::lemma_ascii_view_push(before_digit, (48 + (m % 10) as u8) as u8);
        assert(dec_chars(m) =~= seq![((48 + m % 10) as u8) as char]);
        assert(ascii_view(out@) =~= prefix + dec_chars(m));
        let w = dec_chars(n);
        assert(w == dec_chars(m) + ascii_view(rev@).reverse());
        assert(dec_chars(m).len() == 1);
        assert(w.take(w.len() - rev@.len()) =~= dec_chars(m));
        assert(rev@.take(rev@.len() as int) =~= rev@);
    }
    let mut k: usize = rev.len();
    while k > 0
        invariant
            ascii_bytes(out@),
            ascii_bytes(rev@),
            k <= rev@.len(),
            ascii_view(out@) == prefix + dec_chars(n).take(dec_chars(n).len() - k),
            dec_chars(n) == dec_chars(n).take(dec_chars(n).len() - k) + ascii_view(
                rev@.take(k as int),
            ).reverse(),
        decreases k,
    {
        let ghost taken = dec_chars(n).take(dec_chars(n).len() - k);
        let b = rev[k - 1];
        let ghost before = out@;
        out.push(b);
        k = k - 1;
        proof {
            crate::text::lemma_ascii_view_push(before, b);
            let w = dec_chars(n);
            assert(ascii_view(rev@.take(k + 1)).reverse()[0] == b as char);
            assert(w[taken.len() as int] == b as char);
            assert(ascii_view(out@) =~= prefix + w.take(w.len() - k));
            assert(ascii_view(rev@.take(k as int)).reverse() =~= ascii_view(
                rev@.take(k + 1),
            ).reverse().drop_first());
            assert(w =~= w.take(w.len() - k) + ascii_view(rev@.take(k as int)).reverse());
        }
    }
    proof {
        assert(dec_chars(n).take(dec_chars(n).len() as int) =~= dec_chars(n));
    }
}

/// The decimal digits of a number as a string.
pub fn u64_string(n: u64) -> (r: String)
    ensures
        r@ == dec_chars(n),
{
    let mut out: Vec<u8> = Vec::new();
    push_u64_decimal(&mut out, n);
    proof {
        assert(ascii_view(out@) =~= dec_chars(n));
    }
    crate::text::ascii_string(out)
}

/// Parses the characters `v[from..to]` as a decimal 64-bit number.
pub fn parse_u64_range(v: &Vec<char>, from: usize, to: usize) -> (r: Option<u64>)
    requires
        from <= to <= v@.len(),
    ensures
        r == parse_dec(v@.subrange(from as int, to as int)),
{
    let ghost s = v@.subrange(from as int, to as int);
    if from == to {
        return None;
    }
    let mut acc: u64 = 0;
    let mut i: usize = from;
    while i < to
        invariant
            from <= i <= to <= v@.len(),
            s == v@.subrange(from as int, to as int),
            all_digits(s.take(i - from)),
            acc == dec_val(s.take(i - from)),
        decreases to - i,
    {
        let c = v[i];
        proof {
            assert(s[i - from] == c);
        }
        if c < '0' || c > '9' {
            proof {
                assert(!is_digit(s[i - from]));
                assert(!all_digits(s));
            }
            return None;
        }
        let d = (c as u8) - 48;
        proof {
            lemma_dec_val_extend(s, i - from);
        }
        proof {
            assert(s[i - from] as u8 >= 48 && s[i - from] as u8 <= 57);
            lemma_dec_val_extend(s, i - from);
            vstd::arithmetic::div_mod::lemma_fundamental_div_mod(
                u64::MAX - d,
                10,
            );
            assert(s.take(i - from + 1) =~= s.take(i - from).push(s[i - from]));
        }
        if acc > (u64::MAX - (d as u64)) / 10 {
            proof {
                assert(dec_val(s.take(i - from + 1)) > u64::MAX);
                if all_digits(s) {
                    lemma_dec_val_prefix(s, i - from + 1);
                    assert(dec_val(s) > u64::MAX);
                }
            }
            return None;
        }
        proof {
            assert(acc * 10 + d <= u64::MAX);
        }
        acc = acc * 10 + (d as u64);
        i = i + 1;
    }
    proof {
        assert(s.take(to - from) =~= s);
    }
    Some(acc)
}

} // verus!
