//! Decoding of the list-membership JSON body, whose exact shape is
//! `{ "lists": [ { "user": { "id": <number> } }, ... ] }` with optional
//! whitespace between tokens, and the reduction of the ids it holds to
//! at most a given count of distinct ids in ascending order.

use vstd::prelude::*;

verus! {

use vstd::utf8::{decode_utf8, valid_utf8};

use crate::decimal::{is_digit, parse_dec};
use crate::error::ErrorKind;

pub open spec fn is_json_ws(c: char) -> bool {
    c == ' ' || c == '\t' || c == '\n' || c == '\r'
}

/// First index at or after `i` that is not whitespace.
pub open spec fn skip_ws(s: Seq<char>, i: int) -> int
    decreases s.len() - i when 0 <= i <= s.len()
{
    if i < s.len() && is_json_ws(s[i]) {
        skip_ws(s, i + 1)
    } else {
        i
    }
}

pub proof fn lemma_skip_ws(s: Seq<char>, i: int)
    requires
        0 <= i <= s.len(),
    ensures
        i <= skip_ws(s, i) <= s.len(),
        skip_ws(s, i) < s.len() ==> !is_json_ws(s[skip_ws(s, i)]),
        forall|j: int| i <= j < skip_ws(s, i) ==> is_json_ws(#[trigger] s[j]),
    decreases s.len() - i,
{
    if i < s.len() && is_json_ws(s[i]) {
        lemma_skip_ws(s, i + 1);
    }
}

/// Whether `lit` occurs at position `i`, and the position after it.
pub open spec fn expect_lit(s: Seq<char>, i: int, lit: Seq<char>) -> Option<int> {
    if 0 <= i && i + lit.len() <= s.len() && s.subrange(i, i + lit.len()) == lit {
        Some(i + lit.len())
    } else {
        None
    }
}

/// First index at or after `i` that is not a decimal digit.
pub open spec fn digit_run_end(s: Seq<char>, i: int) -> int
    decreases s.len() - i when 0 <= i <= s.len()
{
    if i < s.len() && is_digit(s[i]) {
        digit_run_end(s, i + 1)
    } else {
        i
    }
}

pub proof fn lemma_digit_run_end(s: Seq<char>, i: int)
    requires
        0 <= i <= s.len(),
    ensures
        i <= digit_run_end(s, i) <= s.len(),
        digit_run_end(s, i) < s.len() ==> !is_digit(s[digit_run_end(s, i)]),
        forall|j: int| i <= j < digit_run_end(s, i) ==> is_digit(#[trigger] s[j]),
    decreases s.len() - i,
{
    if i < s.len() && is_digit(s[i]) {
        lemma_digit_run_end(s, i + 1);
    }
}

/// A decimal number starting at `i`: its end and value.
pub open spec fn parse_number(s: Seq<char>, i: int) -> Option<(int, u64)> {
    if 0 <= i <= s.len() {
        let e = digit_run_end(s, i);
        if e > i {
            match parse_dec(s.subrange(i, e)) {
                Some(n) => Some((e, n)),
                None => None,
            }
        } else {
            None
        }
    } else {
        None
    }
}

/// One list entry `{ "user": { "id": <number> } }` starting at `i`: the
/// position after it and the id it holds.
pub open spec fn parse_entry(s: Seq<char>, i: int) -> Option<(int, u64)> {
    if !(0 <= i <= s.len()) {
        None
    } else if !(i < s.len() && s[i] == '{') {
        None
    } else {
        let a = skip_ws(s, i + 1);
        match expect_lit(s, a, "\"user\""@) {
            None => None,
            Some(b) => {
                let c = skip_ws(s, b);
                if !(c < s.len() && s[c] == ':') {
                    None
                } else {
                    let d = skip_ws(s, c + 1);
                    if !(d < s.len() && s[d] == '{') {
                        None
                    } else {
                        let e = skip_ws(s, d + 1);
                        match expect_lit(s, e, "\"id\""@) {
                            None => None,
                            Some(f) => {
                                let g = skip_ws(s, f);
                                if !(g < s.len() && s[g] == ':') {
                                    None
                                } else {
                                    let h = skip_ws(s, g + 1);
                                    match parse_number(s, h) {
                                        None => None,
                                        Some((j, id)) => {
                                            let k = skip_ws(s, j);
                                            if !(k < s.len() && s[k] == '}') {
                                                None
                                            } else {
                                                let l = skip_ws(s, k + 1);
                                                if !(l < s.len() && s[l] == '}') {
                                                    None
                                                } else {
                                                    Some((l + 1, id))
                                                }
                                            }
                                        },
                                    }
                                }
                            },
                        }
                    }
                }
            },
        }
    }
}

pub proof fn lemma_parse_entry(s: Seq<char>, i: int)
    ensures
        parse_entry(s, i) matches Some(p) ==> i < p.0 <= s.len(),
{
    if 0 <= i <= s.len() && i < s.len() && s[i] == '{' {
        lemma_skip_ws(s, i + 1);
        let a = skip_ws(s, i + 1);
        match expect_lit(s, a, "\"user\""@) {
            None => {},
            Some(b) => {
                lemma_skip_ws(s, b);
                let c = skip_ws(s, b);
                if c < s.len() && s[c] == ':' {
                    lemma_skip_ws(s, c + 1);
                    let d = skip_ws(s, c + 1);
                    if d < s.len() && s[d] == '{' {
                        lemma_skip_ws(s, d + 1);
                        let e = skip_ws(s, d + 1);
                        match expect_lit(s, e, "\"id\""@) {
                            None => {},
                            Some(f) => {
                                lemma_skip_ws(s, f);
                                let g = skip_ws(s, f);
                                if g < s.len() && s[g] == ':' {
                                    lemma_skip_ws(s, g + 1);
                                    let h = skip_ws(s, g + 1);
                                    lemma_digit_run_end(s, h);
                                    match parse_number(s, h) {
                                        None => {},
                                        Some((j, id)) => {
                                            lemma_skip_ws(s, j);
                                            let k = skip_ws(s, j);
                                            if k < s.len() && s[k] == '}' {
                                                lemma_skip_ws(s, k + 1);
                                            }
                                        },
                                    }
                                }
                            },
                        }
                    }
                }
            },
        }
    }
}

/// One or more comma-separated entries starting at `i`, up to and
/// including the closing `]`: the position after the bracket and the
/// ids in order of appearance.
pub open spec fn parse_entries(s: Seq<char>, i: int) -> Option<(int, Seq<u64>)>
    decreases s.len() - i when 0 <= i <= s.len()
{
    match parse_entry(s, i) {
        None => None,
        Some((j, id)) => if !(i < j <= s.len()) {
            None
        } else {
            let k = skip_ws(s, j);
            if k < s.len() && s[k] == ',' {
                let n = skip_ws(s, k + 1);
                if i < n <= s.len() {
                    match parse_entries(s, n) {
                        Some((e, rest)) => Some((e, seq![id] + rest)),
                        None => None,
                    }
                } else {
                    None
                }
            } else if k < s.len() && s[k] == ']' {
                Some((k + 1, seq![id]))
            } else {
                None
            }
        },
    }
}

/// The closing of the document after the list: `}` and nothing else.
pub open spec fn finish_doc(s: Seq<char>, g: int, ids: Seq<u64>) -> Option<Seq<u64>> {
    if !(0 <= g <= s.len()) {
        None
    } else {
        let h = skip_ws(s, g);
        if !(h < s.len() && s[h] == '}') {
            None
        } else if skip_ws(s, h + 1) != s.len() {
            None
        } else {
            Some(ids)
        }
    }
}

/// Bounds of the entry-list parse.
pub proof fn lemma_parse_entries_bounds(s: Seq<char>, i: int)
    requires
        0 <= i <= s.len(),
    ensures
        parse_entries(s, i) matches Some(p) ==> i < p.0 <= s.len(),
    decreases s.len() - i,
{
    lemma_parse_entry(s, i);
    match parse_entry(s, i) {
        None => {},
        Some((j, id)) => {
            if i < j <= s.len() {
                lemma_skip_ws(s, j);
                let k = skip_ws(s, j);
                if k < s.len() && s[k] == ',' {
                    lemma_skip_ws(s, k + 1);
                    let n = skip_ws(s, k + 1);
                    if i < n <= s.len() {
                        lemma_parse_entries_bounds(s, n);
                    }
                }
            }
        },
    }
}

/// The ids of a whole membership document, in order of appearance.
pub open spec fn member_ids(s: Seq<char>) -> Option<Seq<u64>> {
    let a = skip_ws(s, 0);
    if !(a < s.len() && s[a] == '{') {
        None
    } else {
        let b = skip_ws(s, a + 1);
        match expect_lit(s, b, "\"lists\""@) {
            None => None,
            Some(c) => {
                let d = skip_ws(s, c);
                if !(d < s.len() && s[d] == ':') {
                    None
                } else {
                    let e = skip_ws(s, d + 1);
                    if !(e < s.len() && s[e] == '[') {
                        None
                    } else {
                        let f = skip_ws(s, e + 1);
                        let parsed = if f < s.len() && s[f] == ']' {
                            Some((f + 1, Seq::<u64>::empty()))
                        } else {
                            parse_entries(s, f)
                        };
                        match parsed {
                            None => None,
                            Some((g, ids)) => finish_doc(s, g, ids),
                        }
                    }
                }
            },
        }
    }
}

/// The ids held by a membership body, or nothing when the bytes are not
/// a document of the expected shape.
pub open spec fn list_owner_ids(bytes: Seq<u8>) -> Option<Seq<u64>> {
    if valid_utf8(bytes) {
        member_ids(decode_utf8(bytes))
    } else {
        None
    }
}

/// Insertion into a strictly ascending id sequence; duplicates vanish.
pub open spec fn insert_id(x: u64, s: Seq<u64>) -> Seq<u64>
    decreases s.len(),
{
    if s.len() == 0 {
        seq![x]
    } else if x < s[0] {
        seq![x] + s
    } else if x == s[0] {
        s
    } else {
        seq![s[0]] + insert_id(x, s.drop_first())
    }
}

/// The distinct ids of a sequence in ascending order.
pub open spec fn sorted_distinct(ids: Seq<u64>) -> Seq<u64>
    decreases ids.len(),
{
    if ids.len() == 0 {
        Seq::empty()
    } else {
        insert_id(ids.last(), sorted_distinct(ids.drop_last()))
    }
}

/// Strictly ascending.
pub open spec fn strictly_ascending(s: Seq<u64>) -> bool {
    forall|i: int| 0 <= i < s.len() - 1 ==> #[trigger] s[i] < s[i + 1]
}

proof fn lemma_insert_id_head(x: u64, s: Seq<u64>)
    ensures
        insert_id(x, s).len() >= s.len(),
        insert_id(x, s).len() <= s.len() + 1,
        insert_id(x, s)[0] == x || (s.len() > 0 && insert_id(x, s)[0] == s[0]),
    decreases s.len(),
{
    if s.len() > 0 && x > s[0] {
        lemma_insert_id_head(x, s.drop_first());
    }
}

/// Inserting keeps the sequence strictly ascending.
#[verifier::rlimit(50)]
#[verifier::spinoff_prover]
pub proof fn lemma_insert_id_ascending(x: u64, s: Seq<u64>)
    requires
        strictly_ascending(s),
    ensures
        strictly_ascending(insert_id(x, s)),
    decreases s.len(),
{
    lemma_insert_id_head(x, s);
    if s.len() == 0 {
    } else if x < s[0] {
        let r = seq![x] + s;
        assert forall|i: int| 0 <= i < r.len() - 1 implies #[trigger] r[i] < r[i + 1] by {
            if i > 0 {
                assert(r[i] == s[i - 1] && r[i + 1] == s[i]);
            }
        }
    } else if x == s[0] {
    } else {
        let rest = s.drop_first();
        assert forall|i: int| 0 <= i < rest.len() - 1 implies #[trigger] rest[i] < rest[i + 1] by {
            assert(rest[i] == s[i + 1] && rest[i + 1] == s[i + 2]);
            assert(s[i + 1] < s[i + 2]);
        }
        lemma_insert_id_ascending(x, rest);
        lemma_insert_id_head(x, rest);
        let r = seq![s[0]] + insert_id(x, rest);
        assert forall|i: int| 0 <= i < r.len() - 1 implies #[trigger] r[i] < r[i + 1] by {
            if i == 0 {
                assert(r[1] == insert_id(x, rest)[0]);
                if rest.len() > 0 {
                    assert(s[0] < s[1]);
                }
            } else {
                assert(r[i] == insert_id(x, rest)[i - 1]);
                assert(r[i + 1] == insert_id(x, rest)[i]);
                assert(insert_id(x, rest)[i - 1] < insert_id(x, rest)[i]);
            }
        }
    }
}

/// The reduction is strictly ascending: distinct ids, ascending order.
pub proof fn lemma_sorted_distinct_ascending(ids: Seq<u64>)
    ensures
        strictly_ascending(sorted_distinct(ids)),
    decreases ids.len(),
{
    if ids.len() > 0 {
        lemma_sorted_distinct_ascending(ids.drop_last());
        lemma_insert_id_ascending(ids.last(), sorted_distinct(ids.drop_last()));
    }
}

/// An id is kept by the reduction exactly when it occurred.
pub proof fn lemma_insert_id_contains(x: u64, s: Seq<u64>, y: u64)
    ensures
        insert_id(x, s).contains(y) <==> (y == x || s.contains(y)),
    decreases s.len(),
{
    if s.len() == 0 {
        assert(insert_id(x, s)[0] == x);
    } else if x < s[0] {
        let r = seq![x] + s;
        assert forall|k: int| 0 <= k < r.len() implies r[k] == if k == 0 {
            x
        } else {
            s[k - 1]
        } by {}
        if s.contains(y) {
            let k = choose|k: int| 0 <= k < s.len() && s[k] == y;
            assert(r[k + 1] == y);
        }
        if y == x {
            assert(r[0] == y);
        }
        if r.contains(y) {
            let k = choose|k: int| 0 <= k < r.len() && r[k] == y;
            if k > 0 {
                assert(s[k - 1] == y);
            }
        }
    } else if x == s[0] {
        if y == x {
            assert(s[0] == y);
        }
    } else {
        let rest = s.drop_first();
        lemma_insert_id_contains(x, rest, y);
        let r = seq![s[0]] + insert_id(x, rest);
        assert forall|k: int| 0 <= k < r.len() implies r[k] == if k == 0 {
            s[0]
        } else {
            insert_id(x, rest)[k - 1]
        } by {}
        if y == x || s.contains(y) {
            if y == s[0] {
                assert(r[0] == y);
            } else if y == x || rest.contains(y) {
                if s.contains(y) && y != s[0] {
                    let k = choose|k: int| 0 <= k < s.len() && s[k] == y;
                    assert(rest[k - 1] == y);
                }
                assert(insert_id(x, rest).contains(y));
                let k = choose|k: int| 0 <= k < insert_id(x, rest).len() && insert_id(x, rest)[k]
                    == y;
                assert(r[k + 1] == y);
            } else {
                let k = choose|k: int| 0 <= k < s.len() && s[k] == y;
                if k > 0 {
                    assert(rest[k - 1] == y);
                }
            }
        }
        if r.contains(y) {
            let k = choose|k: int| 0 <= k < r.len() && r[k] == y;
            if k > 0 {
                assert(insert_id(x, rest)[k - 1] == y);
                if y != x {
                    assert(rest.contains(y));
                    let m = choose|m: int| 0 <= m < rest.len() && rest[m] == y;
                    assert(s[m + 1] == y);
                }
            }
        }
    }
}

fn skip_ws_exec(v: &Vec<char>, i: usize) -> (r: usize)
    requires
        i <= v@.len(),
    ensures
        r == skip_ws(v@, i as int),
        i <= r <= v@.len(),
{
    proof {
        lemma_skip_ws(v@, i as int);
    }
    let mut j = i;
    while j < v.len() && (v[j] == ' ' || v[j] == '\t' || v[j] == '\n' || v[j] == '\r')
        invariant
            i <= j <= v@.len(),
            skip_ws(v@, i as int) == skip_ws(v@, j as int),
        decreases v@.len() - j,
    {
        j = j + 1;
    }
    j
}

fn expect_lit_exec(v: &Vec<char>, i: usize, lit: &str) -> (r: Option<usize>)
    requires
        i <= v@.len(),
        vstd::string::is_ascii(lit),
    ensures
        match expect_lit(v@, i as int, lit@) {
            Some(n) => r matches Some(m) && m == n,
            None => r is None,
        },
{
    broadcast use vstd::string::is_ascii_spec_bytes;

    let n = lit.as_bytes().len();
    if n > v.len() - i {
        return None;
    }
    if crate::parse::range_matches_str(v, i, i + n, lit) {
        Some(i + n)
    } else {
        None
    }
}

fn parse_number_exec(v: &Vec<char>, i: usize) -> (r: Option<(usize, u64)>)
    requires
        i <= v@.len(),
    ensures
        match parse_number(v@, i as int) {
            Some(p) => r matches Some(q) && q.0 == p.0 && q.1 == p.1,
            None => r is None,
        },
        r matches Some(q) ==> i < q.0 <= v@.len(),
{
    proof {
        lemma_digit_run_end(v@, i as int);
    }
    let mut e = i;
    while e < v.len() && '0' <= v[e] && v[e] <= '9'
        invariant
            i <= e <= v@.len(),
            digit_run_end(v@, i as int) == digit_run_end(v@, e as int),
        decreases v@.len() - e,
    {
        e = e + 1;
    }
    if e == i {
        return None;
    }
    match crate::decimal::parse_u64_range(v, i, e) {
        Some(x) => Some((e, x)),
        None => None,
    }
}

fn parse_entry_exec(v: &Vec<char>, i: usize) -> (r: Option<(usize, u64)>)
    requires
        i <= v@.len(),
    ensures
        match parse_entry(v@, i as int) {
            Some(p) => r matches Some(q) && q.0 == p.0 && q.1 == p.1,
            None => r is None,
        },
        r matches Some(q) ==> i < q.0 <= v@.len(),
{
    proof {
        lemma_parse_entry(v@, i as int);
        reveal_strlit("\"user\"");
        reveal_strlit("\"id\"");
    }
    if i >= v.len() || v[i] != '{' {
        return None;
    }
    let a = skip_ws_exec(v, i + 1);
    let b = match expect_lit_exec(v, a, "\"user\"") {
        Some(b) => b,
        None => {
            return None;
        },
    };
    let c = skip_ws_exec(v, b);
    if c >= v.len() || v[c] != ':' {
        return None;
    }
    let d = skip_ws_exec(v, c + 1);
    if d >= v.len() || v[d] != '{' {
        return None;
    }
    let e = skip_ws_exec(v, d + 1);
    let f = match expect_lit_exec(v, e, "\"id\"") {
        Some(f) => f,
        None => {
            return None;
        },
    };
    let g = skip_ws_exec(v, f);
    if g >= v.len() || v[g] != ':' {
        return None;
    }
    let h = skip_ws_exec(v, g + 1);
    let (j, id) = match parse_number_exec(v, h) {
        Some(p) => p,
        None => {
            return None;
        },
    };
    let k = skip_ws_exec(v, j);
    if k >= v.len() || v[k] != '}' {
        return None;
    }
    let l = skip_ws_exec(v, k + 1);
    if l >= v.len() || v[l] != '}' {
        return None;
    }
    Some((l + 1, id))
}

proof fn lemma_insert_id_at(x: u64, s: Seq<u64>, j: int)
    requires
        0 <= j <= s.len(),
        forall|k: int| 0 <= k < j ==> #[trigger] s[k] < x,
        j < s.len() ==> s[j] >= x,
    ensures
        insert_id(x, s) == if j < s.len() && s[j] == x {
            s
        } else {
            s.insert(j, x)
        },
    decreases j,
{
    if j == 0 {
        if s.len() == 0 {
            assert(s.insert(0, x) =~= seq![x]);
        } else if s[0] == x {
        } else {
            assert(x < s[0]);
            assert(s.insert(0, x) =~= seq![x] + s);
        }
    } else {
        let rest = s.drop_first();
        assert(s[0] < x);
        assert forall|k: int| 0 <= k < j - 1 implies #[trigger] rest[k] < x by {
            assert(rest[k] == s[k + 1]);
        }
        assert(j - 1 < rest.len() ==> rest[j - 1] == s[j]);
        lemma_insert_id_at(x, rest, j - 1);
        if j < s.len() && s[j] == x {
            assert(insert_id(x, s) == seq![s[0]] + rest);
            assert(seq![s[0]] + rest =~= s);
        } else {
            assert(insert_id(x, s) == seq![s[0]] + rest.insert(j - 1, x));
            assert(seq![s[0]] + rest.insert(j - 1, x) =~= s.insert(j, x));
        }
    }
}

/// Inserts an id into an ascending vector, dropping a duplicate.
fn insert_id_exec(v: &mut Vec<u64>, x: u64)
    ensures
        final(v)@ == insert_id(x, old(v)@),
{
    let ghost s = v@;
    let n = v.len();
    let mut j: usize = 0;
    while j < n && v[j] < x
        invariant
            v == old(v),
            s == v@,
            n == v@.len(),
            j <= n,
            forall|k: int| 0 <= k < j ==> #[trigger] s[k] < x,
        decreases n - j,
    {
        j = j + 1;
    }
    proof {
        lemma_insert_id_at(x, s, j as int);
    }
    if j < n && v[j] == x {
        return ;
    }
    v.insert(j, x);
}

/// Decodes a membership body and yields at most `max_count` distinct
/// owner ids, in ascending order; a body that is not a document of the
/// expected shape is `ResponseParseError`.
pub fn parse_list_owners(body: &[u8], max_count: usize) -> (r: Result<Vec<u64>, ErrorKind>)
    ensures
        match list_owner_ids(body@) {
            Some(ids) => ({
                let d = sorted_distinct(ids);
                let m = if max_count <= d.len() {
                    max_count as int
                } else {
                    d.len() as int
                };
                r matches Ok(v) && v@ == d.take(m)
            }),
            None => r matches Err(e) && e == ErrorKind::ResponseParseError,
        },
{
    let bytes = vstd::slice::slice_to_vec(body);
    let s = match crate::text::utf8_string(bytes) {
        Some(s) => s,
        None => {
            return Err(ErrorKind::ResponseParseError);
        },
    };
    let v = crate::text::str_chars(s.as_str());
    let ghost w = decode_utf8(body@);
    proof {
        assert(v@ == w);
        reveal_strlit("\"lists\"");
    }
    let a = skip_ws_exec(&v, 0);
    if a >= v.len() || v[a] != '{' {
        return Err(ErrorKind::ResponseParseError);
    }
    let b = skip_ws_exec(&v, a + 1);
    let c = match expect_lit_exec(&v, b, "\"lists\"") {
        Some(c) => c,
        None => {
            return Err(ErrorKind::ResponseParseError);
        },
    };
    let d = skip_ws_exec(&v, c);
    if d >= v.len() || v[d] != ':' {
        return Err(ErrorKind::ResponseParseError);
    }
    let e = skip_ws_exec(&v, d + 1);
    if e >= v.len() || v[e] != '[' {
        return Err(ErrorKind::ResponseParseError);
    }
    let f = skip_ws_exec(&v, e + 1);
    let mut ids: Vec<u64> = Vec::new();
    let mut after: usize;
    if f < v.len() && v[f] == ']' {
        after = f + 1;
        proof {
            assert(ids@ =~= Seq::<u64>::empty());
            assert(member_ids(w) == finish_doc(w, after as int, ids@));
        }
    } else {
        let ghost f0 = f as int;
        let mut cur = f;
        let mut done = false;
        after = 0;
        proof {
            assert(ids@ =~= Seq::<u64>::empty());
            assert(member_ids(w) == (match parse_entries(w, f0) {
                None => None::<Seq<u64>>,
                Some(p) => finish_doc(w, p.0, p.1),
            }));
        }
        while !done
            invariant
                cur <= v@.len(),
                v@ == w,
                valid_utf8(body@),
                w == decode_utf8(body@),
                0 <= f0 <= v@.len(),
                member_ids(w) == (match parse_entries(w, f0) {
                    None => None::<Seq<u64>>,
                    Some(p) => finish_doc(w, p.0, p.1),
                }),
                done ==> (match parse_entries(w, f0) {
                    Some(p) => p.0 == after as int && p.1 == ids@ && after <= v@.len(),
                    None => false,
                }),
                !done ==> (f0 == cur as int && ids@.len() == 0) || (match parse_entries(
                    w,
                    cur as int,
                ) {
                    Some(p) => parse_entries(w, f0) == Some((p.0, ids@ + p.1)),
                    None => parse_entries(w, f0) is None,
                }),
            decreases 2 * (v@.len() - cur) + (if done {
                0int
            } else {
                1int
            }),
        {
            let step = parse_entry_exec(&v, cur);
            let ghost prev = ids@;
            match step {
                None => {
                    proof {
                        assert(parse_entries(w, cur as int) is None);
                        assert(parse_entries(w, f0) is None);
                        assert(member_ids(w) is None);
                    }
                    return Err(ErrorKind::ResponseParseError);
                },
                Some((j, id)) => {
                    let k = skip_ws_exec(&v, j);
                    if k < v.len() {
                        let kc = v[k];
                        if kc == ',' {
                            let n = skip_ws_exec(&v, k + 1);
                            ids.push(id);
                            proof {
                                assert(ids@ =~= prev.push(id));
                                match parse_entries(w, n as int) {
                                    Some(p) => {
                                        assert(parse_entries(w, cur as int) == Some(
                                            (p.0, seq![id] + p.1),
                                        ));
                                        assert(prev + (seq![id] + p.1) =~= ids@ + p.1);
                                    },
                                    None => {
                                        assert(parse_entries(w, cur as int) is None);
                                    },
                                }
                            }
                            cur = n;
                        } else if kc == ']' {
                            ids.push(id);
                            after = k + 1;
                            done = true;
                            proof {
                                assert(parse_entries(w, cur as int) == Some(
                                    (k + 1, seq![id]),
                                ));
                                assert(prev + seq![id] =~= ids@);
                                lemma_parse_entries_bounds(w, f0);
                            }
                        } else {
                            proof {
                                assert(parse_entries(w, cur as int) is None);
                                assert(parse_entries(w, f0) is None);
                                assert(member_ids(w) is None);
                            }
                            return Err(ErrorKind::ResponseParseError);
                        }
                    } else {
                        proof {
                            assert(parse_entries(w, cur as int) is None);
                            assert(parse_entries(w, f0) is None);
                            assert(member_ids(w) is None);
                        }
                        return Err(ErrorKind::ResponseParseError);
                    }
                },
            }
        }
        proof {
            assert(member_ids(w) == finish_doc(w, after as int, ids@));
        }
    }
    let g = skip_ws_exec(&v, after);
    if g >= v.len() || v[g] != '}' {
        proof {
            assert(member_ids(w) is None);
        }
        return Err(ErrorKind::ResponseParseError);
    }
    let h = skip_ws_exec(&v, g + 1);
    if h != v.len() {
        proof {
            assert(member_ids(w) is None);
        }
        return Err(ErrorKind::ResponseParseError);
    }
    proof {
        assert(member_ids(w) == Some(ids@));
    }
    let mut out: Vec<u64> = Vec::new();
    let m = ids.len();
    let mut i: usize = 0;
    proof {
        assert(out@ =~= sorted_distinct(ids@.take(0)));
    }
    while i < m
        invariant
            m == ids@.len(),
            i <= m,
            out@ == sorted_distinct(ids@.take(i as int)),
        decreases m - i,
    {
        let x = ids[i];
        insert_id_exec(&mut out, x);
        proof {
            assert(ids@.take(i + 1).drop_last() =~= ids@.take(i as int));
            assert(ids@.take(i + 1).last() == ids@[i as int]);
        }
        i = i + 1;
    }
    proof {
        assert(ids@.take(m as int) =~= ids@);
    }
    if max_count < out.len() {
        out.truncate(max_count);
    } else {
        proof {
            assert(out@.take(out@.len() as int) =~= out@);
        }
    }
    Ok(out)
}

/// The reduction keeps exactly the ids that occurred.
pub proof fn lemma_sorted_distinct_contains(ids: Seq<u64>, y: u64)
    ensures
        sorted_distinct(ids).contains(y) <==> ids.contains(y),
    decreases ids.len(),
{
    if ids.len() > 0 {
        lemma_sorted_distinct_contains(ids.drop_last(), y);
        lemma_insert_id_contains(ids.last(), sorted_distinct(ids.drop_last()), y);
        if ids.contains(y) {
            let k = choose|k: int| 0 <= k < ids.len() && ids[k] == y;
            if k < ids.len() - 1 {
                assert(ids.drop_last()[k] == y);
            }
        }
        if ids.drop_last().contains(y) {
            let k = choose|k: int| 0 <= k < ids.drop_last().len() && ids.drop_last()[k] == y;
            assert(ids[k] == y);
        }
    }
}

} // verus!
