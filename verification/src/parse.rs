//! Parsing of authorization header strings back into records.
//!
//! The input splits on commas; each segment is trimmed and split at its
//! first `=`; exactly the serialized field names are recognized. Unknown
//! names are `UnrecognizedField`; a value that is not quoted or not
//! decodable is `EncodingError`; a timestamp that does not parse as an
//! integer is `MalformedTimestamp`; a missing consumer key, nonce, or
//! timestamp is `MissingRequiredField`.

use vstd::prelude::*;

verus! {

use vstd::utf8::{decode_utf8, valid_utf8};

use crate::decimal::parse_dec;
use crate::encode::pd;
use crate::error::ErrorKind;
use crate::header::HeaderFields;

pub open spec fn is_space(c: char) -> bool {
    c == ' ' || c == '\t'
}

/// The segments of a character sequence split on commas; always at least
/// one segment, commas themselves dropped.
pub open spec fn split_commas(s: Seq<char>) -> Seq<Seq<char>>
    decreases s.len(),
{
    if s.len() == 0 {
        seq![Seq::empty()]
    } else {
        let rest = split_commas(s.drop_first());
        if s[0] == ',' {
            seq![Seq::<char>::empty()] + rest
        } else {
            seq![seq![s[0]] + rest[0]] + rest.drop_first()
        }
    }
}

pub proof fn lemma_split_commas_len(s: Seq<char>)
    ensures
        split_commas(s).len() >= 1,
    decreases s.len(),
{
    if s.len() > 0 {
        lemma_split_commas_len(s.drop_first());
    }
}

/// Index of the first occurrence of a character, or the length if absent.
pub open spec fn find_idx(s: Seq<char>, c: char) -> int
    decreases s.len(),
{
    if s.len() == 0 {
        0
    } else if s[0] == c {
        0
    } else {
        1 + find_idx(s.drop_first(), c)
    }
}

pub proof fn lemma_find_idx(s: Seq<char>, c: char)
    ensures
        0 <= find_idx(s, c) <= s.len(),
        find_idx(s, c) < s.len() ==> s[find_idx(s, c)] == c,
        forall|j: int| 0 <= j < find_idx(s, c) ==> s[j] != c,
    decreases s.len(),
{
    if s.len() > 0 && s[0] != c {
        lemma_find_idx(s.drop_first(), c);
        let f = find_idx(s, c);
        assert forall|j: int| 0 <= j < f implies s[j] != c by {
            if j >= 1 {
                assert(s.drop_first()[j - 1] != c);
                assert(s[j] == s.drop_first()[j - 1]);
            }
        }
        if f < s.len() {
            assert(s[f] == s.drop_first()[f - 1]);
        }
    }
}

pub open spec fn trim_front(s: Seq<char>) -> Seq<char>
    decreases s.len(),
{
    if s.len() > 0 && is_space(s[0]) {
        trim_front(s.drop_first())
    } else {
        s
    }
}

pub open spec fn trim_back(s: Seq<char>) -> Seq<char>
    decreases s.len(),
{
    if s.len() > 0 && is_space(s.last()) {
        trim_back(s.drop_last())
    } else {
        s
    }
}

pub open spec fn trim(s: Seq<char>) -> Seq<char> {
    trim_back(trim_front(s))
}

/// A recognized field with its decoded value.
pub enum FieldVal {
    ConsumerKey(Seq<char>),
    Nonce(Seq<char>),
    Signature(Seq<char>),
    Stamp(u64),
    Token(Seq<char>),
    Callback(Seq<char>),
    Verifier(Seq<char>),
    /// `oauth_signature_method` or `oauth_version`: recognized, value
    /// not kept.
    Meta,
}

/// Unquotes and percent-decodes a raw field value.
pub open spec fn decode_value(raw: Seq<char>) -> Result<Seq<char>, ErrorKind> {
    if raw.len() < 2 || raw[0] != '"' || raw.last() != '"' {
        Err(ErrorKind::EncodingError)
    } else {
        match pd(raw.subrange(1, raw.len() - 1), false) {
            None => Err(ErrorKind::EncodingError),
            Some(bytes) => if valid_utf8(bytes) {
                Ok(decode_utf8(bytes))
            } else {
                Err(ErrorKind::EncodingError)
            },
        }
    }
}

/// Parses one comma-separated segment.
pub open spec fn parse_segment(s: Seq<char>) -> Result<FieldVal, ErrorKind> {
    let t = trim(s);
    let i = find_idx(t, '=');
    if i >= t.len() {
        Err(ErrorKind::UnrecognizedField)
    } else {
        let name = t.take(i);
        let raw = t.skip(i + 1);
        if name == "oauth_consumer_key"@ {
            match decode_value(raw) {
                Ok(v) => Ok(FieldVal::ConsumerKey(v)),
                Err(e) => Err(e),
            }
        } else if name == "oauth_nonce"@ {
            match decode_value(raw) {
                Ok(v) => Ok(FieldVal::Nonce(v)),
                Err(e) => Err(e),
            }
        } else if name == "oauth_signature"@ {
            match decode_value(raw) {
                Ok(v) => Ok(FieldVal::Signature(v)),
                Err(e) => Err(e),
            }
        } else if name == "oauth_timestamp"@ {
            match decode_value(raw) {
                Ok(v) => match parse_dec(v) {
                    Some(ts) => Ok(FieldVal::Stamp(ts)),
                    None => Err(ErrorKind::MalformedTimestamp),
                },
                Err(e) => Err(e),
            }
        } else if name == "oauth_token"@ {
            match decode_value(raw) {
                Ok(v) => Ok(FieldVal::Token(v)),
                Err(e) => Err(e),
            }
        } else if name == "oauth_callback"@ {
            match decode_value(raw) {
                Ok(v) => Ok(FieldVal::Callback(v)),
                Err(e) => Err(e),
            }
        } else if name == "oauth_verifier"@ {
            match decode_value(raw) {
                Ok(v) => Ok(FieldVal::Verifier(v)),
                Err(e) => Err(e),
            }
        } else if name == "oauth_signature_method"@ || name == "oauth_version"@ {
            match decode_value(raw) {
                Ok(v) => Ok(FieldVal::Meta),
                Err(e) => Err(e),
            }
        } else {
            Err(ErrorKind::UnrecognizedField)
        }
    }
}

/// Fields gathered while parsing; every one still optional.
pub struct AccFields {
    pub consumer_key: Option<Seq<char>>,
    pub nonce: Option<Seq<char>>,
    pub signature: Option<Seq<char>>,
    pub timestamp: Option<u64>,
    pub token: Option<Seq<char>>,
    pub callback: Option<Seq<char>>,
    pub verifier: Option<Seq<char>>,
}

pub open spec fn empty_acc() -> AccFields {
    AccFields {
        consumer_key: None,
        nonce: None,
        signature: None,
        timestamp: None,
        token: None,
        callback: None,
        verifier: None,
    }
}

/// A parsed field stored into the accumulator; the last value of a
/// repeated field wins.
pub open spec fn acc_apply(acc: AccFields, f: FieldVal) -> AccFields {
    match f {
        FieldVal::ConsumerKey(v) => AccFields { consumer_key: Some(v), ..acc },
        FieldVal::Nonce(v) => AccFields { nonce: Some(v), ..acc },
        FieldVal::Signature(v) => AccFields { signature: Some(v), ..acc },
        FieldVal::Stamp(ts) => AccFields { timestamp: Some(ts), ..acc },
        FieldVal::Token(v) => AccFields { token: Some(v), ..acc },
        FieldVal::Callback(v) => AccFields { callback: Some(v), ..acc },
        FieldVal::Verifier(v) => AccFields { verifier: Some(v), ..acc },
        FieldVal::Meta => acc,
    }
}

/// Left fold of the segments; the first bad segment decides the error.
pub open spec fn parse_fields(segs: Seq<Seq<char>>, acc: AccFields) -> Result<
    AccFields,
    ErrorKind,
>
    decreases segs.len(),
{
    if segs.len() == 0 {
        Ok(acc)
    } else {
        match parse_segment(segs[0]) {
            Err(e) => Err(e),
            Ok(f) => parse_fields(segs.drop_first(), acc_apply(acc, f)),
        }
    }
}

/// Protocol-mandated fields must be present.
pub open spec fn finalize(acc: AccFields) -> Result<HeaderFields, ErrorKind> {
    if acc.consumer_key is None || acc.nonce is None || acc.timestamp is None {
        Err(ErrorKind::MissingRequiredField)
    } else {
        Ok(
            HeaderFields {
                consumer_key: acc.consumer_key->0,
                nonce: acc.nonce->0,
                signature: acc.signature,
                timestamp: acc.timestamp->0,
                token: acc.token,
                callback: acc.callback,
                verifier: acc.verifier,
            },
        )
    }
}

/// Parse of a whole header string: the `OAuth ` scheme prefix, then the
/// comma-separated fields.
pub open spec fn parse_header(s: Seq<char>) -> Result<HeaderFields, ErrorKind> {
    if s.len() < 6 || s.take(6) != "OAuth "@ {
        Err(ErrorKind::UnrecognizedField)
    } else {
        match parse_fields(split_commas(s.skip(6)), empty_acc()) {
            Err(e) => Err(e),
            Ok(acc) => finalize(acc),
        }
    }
}

pub proof fn lemma_split_commas_nocomma(s: Seq<char>)
    requires
        forall|j: int| 0 <= j < s.len() ==> s[j] != ',',
    ensures
        split_commas(s) == seq![s],
    decreases s.len(),
{
    if s.len() == 0 {
        assert(s =~= Seq::<char>::empty());
        assert(split_commas(s) =~~= seq![s]);
    } else {
        let rest = s.drop_first();
        assert forall|j: int| 0 <= j < rest.len() implies rest[j] != ',' by {
            assert(rest[j] == s[j + 1]);
        }
        lemma_split_commas_nocomma(rest);
        assert(split_commas(rest)[0] == rest);
        assert(seq![s[0]] + rest =~= s);
        assert(split_commas(s) =~~= seq![s]);
    }
}

proof fn lemma_split_commas_head(s: Seq<char>, i: int)
    requires
        0 <= i < s.len(),
        s[i] == ',',
        forall|j: int| 0 <= j < i ==> s[j] != ',',
    ensures
        split_commas(s) == seq![s.take(i)] + split_commas(s.skip(i + 1)),
    decreases i,
{
    if i == 0 {
        assert(s.take(0) =~= Seq::<char>::empty());
        assert(s.skip(1) =~= s.drop_first());
        assert(split_commas(s) =~= seq![s.take(0)] + split_commas(s.skip(1)));
    } else {
        let df = s.drop_first();
        assert forall|j: int| 0 <= j < i - 1 implies df[j] != ',' by {
            assert(df[j] == s[j + 1]);
        }
        assert(df[i - 1] == s[i]);
        lemma_split_commas_head(df, i - 1);
        let rest = split_commas(df);
        assert(rest[0] == df.take(i - 1));
        assert(seq![s[0]] + df.take(i - 1) =~= s.take(i));
        assert(rest.drop_first() =~= split_commas(df.skip(i)));
        assert(df.skip(i) =~= s.skip(i + 1));
        assert(split_commas(s) =~= seq![s.take(i)] + split_commas(s.skip(i + 1)));
    }
}

/// Compares the characters `v[from..to]` with a literal.
pub(crate) fn range_matches_str(v: &Vec<char>, from: usize, to: usize, lit: &str) -> (r: bool)
    requires
        from <= to <= v@.len(),
        vstd::string::is_ascii(lit),
    ensures
        r == (v@.subrange(from as int, to as int) == lit@),
{
    broadcast use vstd::string::is_ascii_spec_bytes;

    let lb = lit.as_bytes();
    if to - from != lb.len() {
        proof {
            assert(v@.subrange(from as int, to as int).len() != lit@.len());
        }
        return false;
    }
    let mut i: usize = 0;
    while i < lb.len()
        invariant
            from <= to <= v@.len(),
            to - from == lb@.len(),
            lb@.len() == lit@.len(),
            forall|j: int| 0 <= j < lit@.len() ==> lb@[j] == lit@[j] as u8,
            vstd::utf8::is_ascii_chars(lit@),
            i <= lb@.len(),
            forall|j: int| 0 <= j < i ==> v@[from + j] == lit@[j],
        decreases lb@.len() - i,
    {
        let c = v[from + i];
        let lc = lb[i] as char;
        proof {
            assert((lit@[i as int] as u8) as char == lit@[i as int]);
        }
        if c != lc {
            proof {
                assert(v@.subrange(from as int, to as int)[i as int] != lit@[i as int]);
            }
            return false;
        }
        i = i + 1;
    }
    proof {
        assert(v@.subrange(from as int, to as int) =~= lit@);
    }
    true
}

/// Fields gathered while parsing, in executable form.
struct AccExec {
    consumer_key: Option<String>,
    nonce: Option<String>,
    signature: Option<String>,
    timestamp: Option<u64>,
    token: Option<String>,
    callback: Option<String>,
    verifier: Option<String>,
}

impl View for AccExec {
    type V = AccFields;

    closed spec fn view(&self) -> AccFields {
        AccFields {
            consumer_key: crate::header::opt_view(self.consumer_key),
            nonce: crate::header::opt_view(self.nonce),
            signature: crate::header::opt_view(self.signature),
            timestamp: self.timestamp,
            token: crate::header::opt_view(self.token),
            callback: crate::header::opt_view(self.callback),
            verifier: crate::header::opt_view(self.verifier),
        }
    }
}

/// Unquotes and percent-decodes the raw value `v[from..to]`.
fn decode_value_range(v: &Vec<char>, from: usize, to: usize) -> (r: Result<String, ErrorKind>)
    requires
        from <= to <= v@.len(),
    ensures
        ({
            let d = decode_value(v@.subrange(from as int, to as int));
            &&& (r matches Ok(s) ==> d == Ok::<Seq<char>, ErrorKind>(s@))
            &&& (r matches Err(e) ==> d == Err::<Seq<char>, ErrorKind>(e))
        }),
{
    let ghost raw = v@.subrange(from as int, to as int);
    if to - from < 2 || v[from] != '"' || v[to - 1] != '"' {
        proof {
            if raw.len() >= 2 {
                assert(raw[0] == v@[from as int]);
                assert(raw.last() == v@[to - 1]);
            }
        }
        return Err(ErrorKind::EncodingError);
    }
    proof {
        assert(raw[0] == '"' && raw.last() == '"');
        assert(v@.subrange(from + 1, to - 1) =~= raw.subrange(1, raw.len() - 1));
    }
    match crate::encode::percent_decode_range(v, from + 1, to - 1, false) {
        None => Err(ErrorKind::EncodingError),
        Some(bytes) => {
            match crate::text::utf8_string(bytes) {
                Some(s) => Ok(s),
                None => Err(ErrorKind::EncodingError),
            }
        },
    }
}

/// Parses the segment `v[from..to]` and stores its field.
fn apply_segment(v: &Vec<char>, from: usize, to: usize, acc: &mut AccExec) -> (r: Result<
    (),
    ErrorKind,
>)
    requires
        from <= to <= v@.len(),
    ensures
        ({
            let p = parse_segment(v@.subrange(from as int, to as int));
            &&& (r matches Ok(u) ==> p matches Ok(f) && final(acc)@ == acc_apply(old(acc)@, f))
            &&& (r matches Err(e) ==> p == Err::<FieldVal, ErrorKind>(e))
        }),
{
    let ghost whole = v@.subrange(from as int, to as int);
    let mut a = from;
    let mut b = to;
    proof {
        assert(v@.subrange(a as int, b as int) =~= whole);
    }
    while a < b && (v[a] == ' ' || v[a] == '\t')
        invariant
            from <= a <= b <= v@.len(),
            b == to,
            whole == v@.subrange(from as int, to as int),
            trim_front(whole) == trim_front(v@.subrange(a as int, b as int)),
        decreases b - a,
    {
        proof {
            let cur = v@.subrange(a as int, b as int);
            assert(cur[0] == v@[a as int]);
            assert(cur.drop_first() =~= v@.subrange(a + 1, b as int));
        }
        a = a + 1;
    }
    proof {
        let cur = v@.subrange(a as int, b as int);
        if a < b {
            assert(cur[0] == v@[a as int]);
        }
        assert(trim_front(whole) == cur);
    }
    while b > a && (v[b - 1] == ' ' || v[b - 1] == '\t')
        invariant
            from <= a <= b <= to <= v@.len(),
            whole == v@.subrange(from as int, to as int),
            trim_front(whole) == v@.subrange(a as int, to as int),
            trim_back(v@.subrange(a as int, to as int)) == trim_back(
                v@.subrange(a as int, b as int),
            ),
        decreases b - a,
    {
        proof {
            let cur = v@.subrange(a as int, b as int);
            assert(cur.last() == v@[b - 1]);
            assert(cur.drop_last() =~= v@.subrange(a as int, b - 1));
        }
        b = b - 1;
    }
    let ghost t = v@.subrange(a as int, b as int);
    proof {
        if a < b {
            assert(t.last() == v@[b - 1]);
        }
        assert(trim(whole) == t);
    }
    let mut e = a;
    while e < b && v[e] != '='
        invariant
            a <= e <= b <= v@.len(),
            t == v@.subrange(a as int, b as int),
            forall|k: int| a <= k < e ==> v@[k] != '=',
        decreases b - e,
    {
        e = e + 1;
    }
    proof {
        lemma_find_idx(t, '=');
        assert forall|k: int| 0 <= k < e - a implies t[k] != '=' by {
            assert(t[k] == v@[a + k]);
        }
        if e < b {
            assert(t[e - a] == v@[e as int]);
            assert(t[e - a] == '=');
            assert(find_idx(t, '=') == e - a);
        } else {
            assert(find_idx(t, '=') == t.len());
        }
    }
    if e == b {
        return Err(ErrorKind::UnrecognizedField);
    }
    let ghost name = t.take(e - a);
    let ghost raw = t.skip(e - a + 1);
    proof {
        assert(name =~= v@.subrange(a as int, e as int));
        assert(raw =~= v@.subrange(e + 1, b as int));
        reveal_strlit("oauth_consumer_key");
        reveal_strlit("oauth_nonce");
        reveal_strlit("oauth_signature");
        reveal_strlit("oauth_signature_method");
        reveal_strlit("oauth_timestamp");
        reveal_strlit("oauth_token");
        reveal_strlit("oauth_version");
        reveal_strlit("oauth_callback");
        reveal_strlit("oauth_verifier");
    }
    if range_matches_str(v, a, e, "oauth_consumer_key") {
        match decode_value_range(v, e + 1, b) {
            Ok(s) => {
                acc.consumer_key = Some(s);
                Ok(())
            },
            Err(err) => Err(err),
        }
    } else if range_matches_str(v, a, e, "oauth_nonce") {
        match decode_value_range(v, e + 1, b) {
            Ok(s) => {
                acc.nonce = Some(s);
                Ok(())
            },
            Err(err) => Err(err),
        }
    } else if range_matches_str(v, a, e, "oauth_signature") {
        match decode_value_range(v, e + 1, b) {
            Ok(s) => {
                acc.signature = Some(s);
                Ok(())
            },
            Err(err) => Err(err),
        }
    } else if range_matches_str(v, a, e, "oauth_timestamp") {
        match decode_value_range(v, e + 1, b) {
            Ok(s) => {
                let dchars = crate::text::str_chars(s.as_str());
                proof {
                    assert(dchars@.subrange(0, dchars@.len() as int) =~= dchars@);
                }
                match crate::decimal::parse_u64_range(&dchars, 0, dchars.len()) {
                    Some(ts) => {
                        acc.timestamp = Some(ts);
                        Ok(())
                    },
                    None => Err(ErrorKind::MalformedTimestamp),
                }
            },
            Err(err) => Err(err),
        }
    } else if range_matches_str(v, a, e, "oauth_token") {
        match decode_value_range(v, e + 1, b) {
            Ok(s) => {
                acc.token = Some(s);
                Ok(())
            },
            Err(err) => Err(err),
        }
    } else if range_matches_str(v, a, e, "oauth_callback") {
        match decode_value_range(v, e + 1, b) {
            Ok(s) => {
                acc.callback = Some(s);
                Ok(())
            },
            Err(err) => Err(err),
        }
    } else if range_matches_str(v, a, e, "oauth_verifier") {
        match decode_value_range(v, e + 1, b) {
            Ok(s) => {
                acc.verifier = Some(s);
                Ok(())
            },
            Err(err) => Err(err),
        }
    } else if range_matches_str(v, a, e, "oauth_signature_method") || range_matches_str(
        v,
        a,
        e,
        "oauth_version",
    ) {
        match decode_value_range(v, e + 1, b) {
            Ok(_s) => Ok(()),
            Err(err) => Err(err),
        }
    } else {
        Err(ErrorKind::UnrecognizedField)
    }
}

impl crate::header::TwitterOAuth {
    /// Parses an authorization header string into a record.
    pub fn parse(s: &str) -> (r: Result<crate::header::TwitterOAuth, ErrorKind>)
        ensures
            match parse_header(s@) {
                Ok(h) => r matches Ok(t) && t@ == h,
                Err(e) => r matches Err(e2) && e2 == e,
            },
    {
        let chars = crate::text::str_chars(s);
        let n = chars.len();
        proof {
            reveal_strlit("OAuth ");
        }
        if n < 6 {
            return Err(ErrorKind::UnrecognizedField);
        }
        if !range_matches_str(&chars, 0, 6, "OAuth ") {
            proof {
                assert(s@.take(6) =~= chars@.subrange(0, 6));
            }
            return Err(ErrorKind::UnrecognizedField);
        }
        proof {
            assert(s@.take(6) =~= chars@.subrange(0, 6));
        }
        let ghost w = s@.skip(6);
        let mut acc = AccExec {
            consumer_key: None,
            nonce: None,
            signature: None,
            timestamp: None,
            token: None,
            callback: None,
            verifier: None,
        };
        let mut cur: usize = 6;
        let mut finished = false;
        proof {
            assert(acc@ == empty_acc());
            assert(s@.skip(cur as int) =~= w);
        }
        while !finished
            invariant
                6 <= cur <= n,
                n == chars@.len(),
                chars@ == s@,
                w == s@.skip(6),
                s@.len() >= 6,
                s@.take(6) == "OAuth "@,
                !finished ==> parse_fields(split_commas(w), empty_acc()) == parse_fields(
                    split_commas(s@.skip(cur as int)),
                    acc@,
                ),
                finished ==> parse_fields(split_commas(w), empty_acc()) == Ok::<
                    AccFields,
                    ErrorKind,
                >(acc@),
            decreases 2 * (n - cur) + (if finished {
                0int
            } else {
                1int
            }),
        {
            let mut j = cur;
            while j < n && chars[j] != ','
                invariant
                    cur <= j <= n,
                    n == chars@.len(),
                    forall|k: int| cur <= k < j ==> chars@[k] != ',',
                decreases n - j,
            {
                j = j + 1;
            }
            let ghost rem = s@.skip(cur as int);
            let ghost segv = s@.subrange(cur as int, j as int);
            proof {
                assert forall|k: int| 0 <= k < j - cur implies rem[k] != ',' by {
                    assert(rem[k] == s@[cur + k]);
                }
                assert(segv =~= rem.take(j - cur));
            }
            let ghost acc0 = acc@;
            let step = apply_segment(&chars, cur, j, &mut acc);
            proof {
                if j < n {
                    assert(rem[j - cur] == s@[j as int]);
                    lemma_split_commas_head(rem, j - cur);
                    assert(rem.skip(j - cur + 1) =~= s@.skip(j + 1));
                    assert(split_commas(rem) == seq![segv] + split_commas(s@.skip(j + 1)));
                    assert((seq![segv] + split_commas(s@.skip(j + 1)))[0] == segv);
                    assert((seq![segv] + split_commas(s@.skip(j + 1))).drop_first()
                        =~= split_commas(s@.skip(j + 1)));
                } else {
                    assert(rem.take(j - cur) =~= rem);
                    lemma_split_commas_nocomma(rem);
                    assert((seq![segv])[0] == segv);
                    assert((seq![segv]).drop_first() =~= Seq::<Seq<char>>::empty());
                }
            }
            match step {
                Err(e) => {
                    proof {
                        assert(parse_fields(split_commas(rem), acc0) == Err::<
                            AccFields,
                            ErrorKind,
                        >(e));
                        assert(parse_fields(split_commas(w), empty_acc()) == Err::<
                            AccFields,
                            ErrorKind,
                        >(e));
                        assert(parse_header(s@) == Err::<HeaderFields, ErrorKind>(e));
                    }
                    return Err(e);
                },
                Ok(_) => {
                    proof {
                        match parse_segment(segv) {
                            Ok(f) => {
                                assert(acc@ == acc_apply(acc0, f));
                            },
                            Err(_) => {
                                assert(false);
                            },
                        }
                    }
                    if j < n {
                        cur = j + 1;
                        proof {
                            assert(parse_fields(split_commas(w), empty_acc()) == parse_fields(
                                split_commas(s@.skip(cur as int)),
                                acc@,
                            ));
                        }
                    } else {
                        finished = true;
                        proof {
                            match parse_segment(segv) {
                                Ok(f) => {
                                    assert(parse_fields(
                                        Seq::<Seq<char>>::empty(),
                                        acc_apply(acc0, f),
                                    ) == Ok::<AccFields, ErrorKind>(acc_apply(acc0, f)));
                                    assert(parse_fields(split_commas(rem), acc0) == Ok::<
                                        AccFields,
                                        ErrorKind,
                                    >(acc@));
                                },
                                Err(_) => {
                                    assert(false);
                                },
                            }
                            assert(parse_fields(split_commas(w), empty_acc()) == Ok::<
                                AccFields,
                                ErrorKind,
                            >(acc@));
                        }
                    }
                },
            }
        }
        let AccExec { consumer_key, nonce, signature, timestamp, token, callback, verifier } = acc;
        let ck = match consumer_key {
            Some(x) => x,
            None => {
                return Err(ErrorKind::MissingRequiredField);
            },
        };
        let nc = match nonce {
            Some(x) => x,
            None => {
                return Err(ErrorKind::MissingRequiredField);
            },
        };
        let ts = match timestamp {
            Some(x) => x,
            None => {
                return Err(ErrorKind::MissingRequiredField);
            },
        };
        Ok(
            crate::header::TwitterOAuth {
                consumer_key: ck,
                nonce: nc,
                signature,
                timestamp: ts,
                token,
                callback,
                verifier,
            },
        )
    }
}

} // verus!
