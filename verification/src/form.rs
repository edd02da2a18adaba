//! Parsing of form-url-encoded bodies: `key=value&key=value`, with `+`
//! for spaces, and the typed extractors for the token-exchange
//! responses.

use vstd::prelude::*;

verus! {

use vstd::utf8::{decode_utf8, valid_utf8};

use crate::encode::pd;
use crate::error::ErrorKind;
use crate::parse::find_idx;

/// The pieces of a character sequence split on `&`; always at least one
/// piece, the separators dropped.
pub open spec fn split_amps(s: Seq<char>) -> Seq<Seq<char>>
    decreases s.len(),
{
    if s.len() == 0 {
        seq![Seq::empty()]
    } else {
        let rest = split_amps(s.drop_first());
        if s[0] == '&' {
            seq![Seq::<char>::empty()] + rest
        } else {
            seq![seq![s[0]] + rest[0]] + rest.drop_first()
        }
    }
}

pub proof fn lemma_split_amps_len(s: Seq<char>)
    ensures
        split_amps(s).len() >= 1,
    decreases s.len(),
{
    if s.len() > 0 {
        lemma_split_amps_len(s.drop_first());
    }
}

pub proof fn lemma_split_amps_nosep(s: Seq<char>)
    requires
        forall|j: int| 0 <= j < s.len() ==> s[j] != '&',
    ensures
        split_amps(s) == seq![s],
    decreases s.len(),
{
    if s.len() == 0 {
        assert(s =~= Seq::<char>::empty());
        assert(split_amps(s) =~~= seq![s]);
    } else {
        let rest = s.drop_first();
        assert forall|j: int| 0 <= j < rest.len() implies rest[j] != '&' by {
            assert(rest[j] == s[j + 1]);
        }
        lemma_split_amps_nosep(rest);
        assert(split_amps(rest)[0] == rest);
        assert(seq![s[0]] + rest =~= s);
        assert(split_amps(s) =~~= seq![s]);
    }
}

pub proof fn lemma_split_amps_head(s: Seq<char>, i: int)
    requires
        0 <= i < s.len(),
        s[i] == '&',
        forall|j: int| 0 <= j < i ==> s[j] != '&',
    ensures
        split_amps(s) == seq![s.take(i)] + split_amps(s.skip(i + 1)),
    decreases i,
{
    if i == 0 {
        assert(s.take(0) =~= Seq::<char>::empty());
        assert(s.skip(1) =~= s.drop_first());
        assert(split_amps(s) =~= seq![s.take(0)] + split_amps(s.skip(1)));
    } else {
        let df = s.drop_first();
        assert forall|j: int| 0 <= j < i - 1 implies df[j] != '&' by {
            assert(df[j] == s[j + 1]);
        }
        assert(df[i - 1] == s[i]);
        lemma_split_amps_head(df, i - 1);
        let rest = split_amps(df);
        assert(rest[0] == df.take(i - 1));
        assert(seq![s[0]] + df.take(i - 1) =~= s.take(i));
        assert(rest.drop_first() =~= split_amps(df.skip(i)));
        assert(df.skip(i) =~= s.skip(i + 1));
        assert(split_amps(s) =~= seq![s.take(i)] + split_amps(s.skip(i + 1)));
    }
}

/// Percent-decodes one side of a pair, `+` as space, and reads the
/// bytes as UTF-8.
pub open spec fn decode_side(raw: Seq<char>) -> Option<Seq<char>> {
    match pd(raw, true) {
        None => None,
        Some(bytes) => if valid_utf8(bytes) {
            Some(decode_utf8(bytes))
        } else {
            None
        },
    }
}

/// One `key=value` piece; a piece without `=` is a key with an empty
/// value.
pub open spec fn parse_form_pair(p: Seq<char>) -> Option<(Seq<char>, Seq<char>)> {
    let i = find_idx(p, '=');
    let kraw = if i < p.len() {
        p.take(i)
    } else {
        p
    };
    let vraw = if i < p.len() {
        p.skip(i + 1)
    } else {
        Seq::empty()
    };
    match (decode_side(kraw), decode_side(vraw)) {
        (Some(k), Some(v)) => Some((k, v)),
        _ => None,
    }
}

/// All pieces decoded; one bad piece spoils the parse.
pub open spec fn pairs_of(segs: Seq<Seq<char>>) -> Option<Seq<(Seq<char>, Seq<char>)>>
    decreases segs.len(),
{
    if segs.len() == 0 {
        Some(Seq::empty())
    } else {
        match (parse_form_pair(segs[0]), pairs_of(segs.drop_first())) {
            (Some(p), Some(rest)) => Some(seq![p] + rest),
            _ => None,
        }
    }
}

/// The key/value pairs of a form-url-encoded byte body.
pub open spec fn form_fields(bytes: Seq<u8>) -> Option<Seq<(Seq<char>, Seq<char>)>> {
    if !valid_utf8(bytes) {
        None
    } else {
        pairs_of(split_amps(decode_utf8(bytes)))
    }
}

/// The value of the last pair holding a key.
pub open spec fn last_value(pairs: Seq<(Seq<char>, Seq<char>)>, k: Seq<char>) -> Option<Seq<char>>
    decreases pairs.len(),
{
    if pairs.len() == 0 {
        None
    } else if pairs.last().0 == k {
        Some(pairs.last().1)
    } else {
        last_value(pairs.drop_last(), k)
    }
}

/// Decodes one side `v[from..to]` of a pair.
fn decode_side_range(v: &Vec<char>, from: usize, to: usize) -> (r: Option<String>)
    requires
        from <= to <= v@.len(),
    ensures
        ({
            let d = decode_side(v@.subrange(from as int, to as int));
            &&& (r is Some <==> d is Some)
            &&& (r matches Some(s) ==> d == Some(s@))
        }),
{
    match crate::encode::percent_decode_range(v, from, to, true) {
        None => None,
        Some(bytes) => crate::text::utf8_string(bytes),
    }
}

/// Parses the piece `v[from..to]` as one `key=value` pair.
fn parse_pair_range(v: &Vec<char>, from: usize, to: usize) -> (r: Option<(String, String)>)
    requires
        from <= to <= v@.len(),
    ensures
        ({
            let d = parse_form_pair(v@.subrange(from as int, to as int));
            &&& (r is Some <==> d is Some)
            &&& (r matches Some(p) ==> d == Some((p.0@, p.1@)))
        }),
{
    let ghost piece = v@.subrange(from as int, to as int);
    let mut e = from;
    while e < to && v[e] != '='
        invariant
            from <= e <= to <= v@.len(),
            piece == v@.subrange(from as int, to as int),
            forall|k: int| from <= k < e ==> v@[k] != '=',
        decreases to - e,
    {
        e = e + 1;
    }
    proof {
        crate::parse::lemma_find_idx(piece, '=');
        assert forall|k: int| 0 <= k < e - from implies piece[k] != '=' by {
            assert(piece[k] == v@[from + k]);
        }
        if e < to {
            assert(piece[e - from] == v@[e as int]);
            assert(find_idx(piece, '=') == e - from);
        } else {
            assert(find_idx(piece, '=') == piece.len());
        }
    }
    let (kfrom, kto, vfrom, vto) = if e < to {
        (from, e, e + 1, to)
    } else {
        (from, to, to, to)
    };
    proof {
        if e < to {
            assert(v@.subrange(kfrom as int, kto as int) =~= piece.take(e - from));
            assert(v@.subrange(vfrom as int, vto as int) =~= piece.skip(e - from + 1));
        } else {
            assert(v@.subrange(kfrom as int, kto as int) =~= piece);
            assert(v@.subrange(vfrom as int, vto as int) =~= Seq::<char>::empty());
        }
    }
    let key = match decode_side_range(v, kfrom, kto) {
        Some(k) => k,
        None => {
            return None;
        },
    };
    let val = match decode_side_range(v, vfrom, vto) {
        Some(x) => x,
        None => {
            return None;
        },
    };
    Some((key, val))
}

/// Parses a form-url-encoded byte body into its key/value pairs.
pub fn form_decode(body: &[u8]) -> (r: Option<Vec<(String, String)>>)
    ensures
        ({
            let d = form_fields(body@);
            &&& (r is Some <==> d is Some)
            &&& (r matches Some(ps) ==> d == Some(crate::params::pairs_view(ps@)))
        }),
{
    let bytes = vstd::slice::slice_to_vec(body);
    let s = match crate::text::utf8_string(bytes) {
        Some(s) => s,
        None => {
            return None;
        },
    };
    let chars = crate::text::str_chars(s.as_str());
    let ghost w = decode_utf8(body@);
    proof {
        assert(chars@ == w);
    }
    let n = chars.len();
    let mut out: Vec<(String, String)> = Vec::new();
    let mut cur: usize = 0;
    let mut finished = false;
    proof {
        assert(chars@.skip(0) =~= w);
        assert(crate::params::pairs_view(out@) =~= Seq::<(Seq<char>, Seq<char>)>::empty());
    }
    while !finished
        invariant
            cur <= n,
            n == chars@.len(),
            chars@ == w,
            valid_utf8(body@),
            w == decode_utf8(body@),
            !finished ==> match pairs_of(split_amps(w.skip(cur as int))) {
                Some(rest) => pairs_of(split_amps(w)) == Some(
                    crate::params::pairs_view(out@) + rest,
                ),
                None => pairs_of(split_amps(w)) is None,
            },
            finished ==> pairs_of(split_amps(w)) == Some(crate::params::pairs_view(out@)),
        decreases 2 * (n - cur) + (if finished {
            0int
        } else {
            1int
        }),
    {
        let mut j = cur;
        while j < n && chars[j] != '&'
            invariant
                cur <= j <= n,
                n == chars@.len(),
                forall|k: int| cur <= k < j ==> chars@[k] != '&',
            decreases n - j,
        {
            j = j + 1;
        }
        let ghost rem = w.skip(cur as int);
        let ghost piece = w.subrange(cur as int, j as int);
        proof {
            assert forall|k: int| 0 <= k < j - cur implies rem[k] != '&' by {
                assert(rem[k] == w[cur + k]);
            }
            assert(piece =~= rem.take(j - cur));
            if j < n {
                assert(rem[j - cur] == w[j as int]);
                lemma_split_amps_head(rem, j - cur);
                assert(rem.skip(j - cur + 1) =~= w.skip(j + 1));
            } else {
                assert(rem.take(j - cur) =~= rem);
                lemma_split_amps_nosep(rem);
            }
        }
        let ghost before = crate::params::pairs_view(out@);
        let step = parse_pair_range(&chars, cur, j);
        match step {
            None => {
                proof {
                    if j < n {
                        assert(split_amps(rem) == seq![piece] + split_amps(w.skip(j + 1)));
                        assert((seq![piece] + split_amps(w.skip(j + 1)))[0] == piece);
                    } else {
                        assert(split_amps(rem) == seq![piece]);
                        assert((seq![piece])[0] == piece);
                    }
                    assert(pairs_of(split_amps(rem)) is None);
                }
                return None;
            },
            Some(p) => {
                out.push(p);
                proof {
                    let pp = parse_form_pair(piece)->0;
                    assert(crate::params::pairs_view(out@) =~= before.push((pp.0, pp.1)));
                    assert(pp == (pp.0, pp.1));
                    if j < n {
                        let tail = split_amps(w.skip(j + 1));
                        assert(split_amps(rem) == seq![piece] + tail);
                        assert((seq![piece] + tail)[0] == piece);
                        assert((seq![piece] + tail).drop_first() =~= tail);
                        match pairs_of(tail) {
                            Some(rest) => {
                                assert(pairs_of(split_amps(rem)) == Some(
                                    seq![parse_form_pair(piece)->0] + rest,
                                ));
                                assert(before + (seq![parse_form_pair(piece)->0] + rest)
                                    =~= crate::params::pairs_view(out@) + rest);
                            },
                            None => {},
                        }
                    } else {
                        assert(split_amps(rem) == seq![piece]);
                        assert((seq![piece])[0] == piece);
                        assert((seq![piece]).drop_first() =~= Seq::<Seq<char>>::empty());
                        assert(pairs_of(Seq::<Seq<char>>::empty()) == Some(
                            Seq::<(Seq<char>, Seq<char>)>::empty(),
                        ));
                        assert(pairs_of(split_amps(rem)) == Some(
                            seq![parse_form_pair(piece)->0] + Seq::<(Seq<char>, Seq<char>)>::empty(),
                        ));
                        assert(before + (seq![parse_form_pair(piece)->0] + Seq::<
                            (Seq<char>, Seq<char>),
                        >::empty()) =~= crate::params::pairs_view(out@));
                    }
                }
                if j < n {
                    cur = j + 1;
                } else {
                    finished = true;
                }
            },
        }
    }
    Some(out)
}

/// Finds the last value of a key among parsed pairs.
fn lookup_last(pairs: &Vec<(String, String)>, key: &str) -> (r: Option<String>)
    ensures
        ({
            let d = last_value(crate::params::pairs_view(pairs@), key@);
            &&& (r is Some <==> d is Some)
            &&& (r matches Some(s) ==> d == Some(s@))
        }),
{
    let ghost ps = crate::params::pairs_view(pairs@);
    let mut i: usize = pairs.len();
    proof {
        assert(ps.take(i as int) =~= ps);
    }
    while i > 0
        invariant
            i <= pairs@.len(),
            ps == crate::params::pairs_view(pairs@),
            last_value(ps, key@) == last_value(ps.take(i as int), key@),
        decreases i,
    {
        let p = &pairs[i - 1];
        proof {
            assert(ps.take(i as int).last() == ps[i - 1]);
            assert(ps[i - 1] == (pairs@[i - 1].0@, pairs@[i - 1].1@));
            assert(ps.take(i as int).drop_last() =~= ps.take(i - 1));
        }
        if crate::text::str_eq(p.0.as_str(), key) {
            return Some(p.1.clone());
        }
        i = i - 1;
    }
    proof {
        assert(ps.take(0) =~= Seq::<(Seq<char>, Seq<char>)>::empty());
    }
    None
}

/// What a request-token response body yields: the token credential pair,
/// `ResponseParseError` on a malformed body, and
/// `ProtocolResponseMissingField` when `oauth_token` or
/// `oauth_token_secret` is absent.
pub open spec fn oauth_tok_spec(bytes: Seq<u8>) -> Result<(Seq<char>, Seq<char>), ErrorKind> {
    match form_fields(bytes) {
        None => Err(ErrorKind::ResponseParseError),
        Some(ps) => match (last_value(ps, "oauth_token"@), last_value(
            ps,
            "oauth_token_secret"@,
        )) {
            (Some(k), Some(s)) => Ok((k, s)),
            _ => Err(ErrorKind::ProtocolResponseMissingField),
        },
    }
}

/// Extracts the token credential pair from a form-url-encoded body.
pub fn parse_oauth_tok(full_resp: &[u8]) -> (r: Result<crate::KeyPair, ErrorKind>)
    ensures
        match oauth_tok_spec(full_resp@) {
            Ok(p) => r matches Ok(kp) && kp.key@ == p.0 && kp.secret@ == p.1,
            Err(e) => r matches Err(e2) && e2 == e,
        },
{
    let pairs = match form_decode(full_resp) {
        Some(ps) => ps,
        None => {
            return Err(ErrorKind::ResponseParseError);
        },
    };
    let key = lookup_last(&pairs, "oauth_token");
    let secret = lookup_last(&pairs, "oauth_token_secret");
    match (key, secret) {
        (Some(k), Some(s)) => Ok(crate::KeyPair::new(k, s)),
        _ => Err(ErrorKind::ProtocolResponseMissingField),
    }
}

/// What an access-token response body yields: the credential pair and
/// the numeric subject id; a missing key is
/// `ProtocolResponseMissingField`, an id that does not parse as a number
/// is `ResponseParseError`.
pub open spec fn oauth_tok_and_user_id_spec(bytes: Seq<u8>) -> Result<
    (Seq<char>, Seq<char>, u64),
    ErrorKind,
> {
    match form_fields(bytes) {
        None => Err(ErrorKind::ResponseParseError),
        Some(ps) => match (last_value(ps, "oauth_token"@), last_value(
            ps,
            "oauth_token_secret"@,
        ), last_value(ps, "user_id"@)) {
            (Some(k), Some(s), Some(u)) => match crate::decimal::parse_dec(u) {
                Some(id) => Ok((k, s, id)),
                None => Err(ErrorKind::ResponseParseError),
            },
            _ => Err(ErrorKind::ProtocolResponseMissingField),
        },
    }
}

/// Extracts the credential pair and the subject's numeric id from a
/// form-url-encoded body.
pub fn parse_oauth_tok_and_user_id(full_resp: &[u8]) -> (r: Result<
    (crate::KeyPair, u64),
    ErrorKind,
>)
    ensures
        match oauth_tok_and_user_id_spec(full_resp@) {
            Ok(p) => r matches Ok(kp) && kp.0.key@ == p.0 && kp.0.secret@ == p.1 && kp.1 == p.2,
            Err(e) => r matches Err(e2) && e2 == e,
        },
{
    let pairs = match form_decode(full_resp) {
        Some(ps) => ps,
        None => {
            return Err(ErrorKind::ResponseParseError);
        },
    };
    let key = lookup_last(&pairs, "oauth_token");
    let secret = lookup_last(&pairs, "oauth_token_secret");
    let user = lookup_last(&pairs, "user_id");
    match (key, secret, user) {
        (Some(k), Some(s), Some(u)) => {
            let uchars = crate::text::str_chars(u.as_str());
            proof {
                assert(uchars@.subrange(0, uchars@.len() as int) =~= uchars@);
            }
            match crate::decimal::parse_u64_range(&uchars, 0, uchars.len()) {
                Some(id) => Ok((crate::KeyPair::new(k, s), id)),
                None => Err(ErrorKind::ResponseParseError),
            }
        },
        _ => Err(ErrorKind::ProtocolResponseMissingField),
    }
}

/// What an authorization-callback query yields: the request token and
/// the verifier.
pub open spec fn token_and_verifier_spec(bytes: Seq<u8>) -> Result<
    (Seq<char>, Seq<char>),
    ErrorKind,
> {
    match form_fields(bytes) {
        None => Err(ErrorKind::ResponseParseError),
        Some(ps) => match (last_value(ps, "oauth_token"@), last_value(ps, "oauth_verifier"@)) {
            (Some(t), Some(v)) => Ok((t, v)),
            _ => Err(ErrorKind::ProtocolResponseMissingField),
        },
    }
}

/// Extracts the request token and the verifier from a callback query
/// string.
pub fn parse_oauth_token_and_verifier(query: &[u8]) -> (r: Result<(String, String), ErrorKind>)
    ensures
        match token_and_verifier_spec(query@) {
            Ok(p) => r matches Ok(tv) && tv.0@ == p.0 && tv.1@ == p.1,
            Err(e) => r matches Err(e2) && e2 == e,
        },
{
    let pairs = match form_decode(query) {
        Some(ps) => ps,
        None => {
            return Err(ErrorKind::ResponseParseError);
        },
    };
    let token = lookup_last(&pairs, "oauth_token");
    let verifier = lookup_last(&pairs, "oauth_verifier");
    match (token, verifier) {
        (Some(t), Some(v)) => Ok((t, v)),
        _ => Err(ErrorKind::ProtocolResponseMissingField),
    }
}

} // verus!
