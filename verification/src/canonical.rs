//! Canonical parameter ordering: percent-encoded key/value pairs, sorted
//! by the encoded key (keys are unique, so the encoded key decides), and
//! joined as `k=v&k=v`. Every signature computation derives this string.

use vstd::prelude::*;

verus! {

use vstd::string::is_ascii_spec_bytes;
use vstd::multiset::Multiset;
use vstd::utf8::is_ascii_chars;

use crate::encode::{pe, percent_encode};
use crate::params::{pairs_view, ParamList};
use crate::text::{ascii_bytes, ascii_string, ascii_view, push_ascii_str};

/// Code-point lexicographic order on character sequences (byte-wise
/// ascending for ASCII).
pub open spec fn lex_le(a: Seq<char>, b: Seq<char>) -> bool
    decreases a.len(),
{
    if a.len() == 0 {
        true
    } else if b.len() == 0 {
        false
    } else if a[0] != b[0] {
        a[0] < b[0]
    } else {
        lex_le(a.drop_first(), b.drop_first())
    }
}

/// Encoded pairs ordered by their encoded keys.
pub open spec fn key_le(x: (Seq<char>, Seq<char>), y: (Seq<char>, Seq<char>)) -> bool {
    lex_le(x.0, y.0)
}

pub proof fn lemma_lex_le_total(a: Seq<char>, b: Seq<char>)
    ensures
        lex_le(a, b) || lex_le(b, a),
    decreases a.len(),
{
    if a.len() > 0 && b.len() > 0 && a[0] == b[0] {
        lemma_lex_le_total(a.drop_first(), b.drop_first());
    }
}

/// Both strings ASCII: decides `lex_le` on their characters.
pub fn str_lex_le(a: &str, b: &str) -> (r: bool)
    requires
        vstd::string::is_ascii(a),
        vstd::string::is_ascii(b),
    ensures
        r == lex_le(a@, b@),
{
    broadcast use is_ascii_spec_bytes;

    let ab = a.as_bytes();
    let bb = b.as_bytes();
    let mut i: usize = 0;
    proof {
        assert(a@.skip(0) =~= a@);
        assert(b@.skip(0) =~= b@);
    }
    while i < ab.len() && i < bb.len()
        invariant
            ab@.len() == a@.len(),
            bb@.len() == b@.len(),
            forall|j: int| 0 <= j < a@.len() ==> ab@[j] == a@[j] as u8,
            forall|j: int| 0 <= j < b@.len() ==> bb@[j] == b@[j] as u8,
            is_ascii_chars(a@),
            is_ascii_chars(b@),
            i <= a@.len(),
            i <= b@.len(),
            lex_le(a@, b@) == lex_le(a@.skip(i as int), b@.skip(i as int)),
        decreases a@.len() - i,
    {
        let x = ab[i];
        let y = bb[i];
        let ghost ca = a@[i as int];
        let ghost cb = b@[i as int];
        proof {
            assert(ca <= '\u{7f}' && cb <= '\u{7f}');
            assert((ca as u8) as char == ca);
            assert((cb as u8) as char == cb);
            assert(a@.skip(i as int)[0] == ca);
            assert(b@.skip(i as int)[0] == cb);
        }
        if x < y {
            proof {
                assert(ca != cb && ca < cb);
            }
            return true;
        } else if y < x {
            proof {
                assert(ca != cb && cb < ca);
            }
            return false;
        }
        proof {
            assert(ca == cb);
            assert(a@.skip(i as int).drop_first() =~= a@.skip(i + 1));
            assert(b@.skip(i as int).drop_first() =~= b@.skip(i + 1));
        }
        i = i + 1;
    }
    proof {
        if i == a@.len() {
            assert(a@.skip(i as int) =~= Seq::<char>::empty());
        } else {
            assert(b@.skip(i as int) =~= Seq::<char>::empty());
            assert(a@.skip(i as int).len() > 0);
        }
    }
    i == ab.len()
}

/// Insertion of a pair into a key-sorted pair sequence.
pub open spec fn insert_sorted(x: (Seq<char>, Seq<char>), s: Seq<(Seq<char>, Seq<char>)>) -> Seq<
    (Seq<char>, Seq<char>),
>
    decreases s.len(),
{
    if s.len() == 0 {
        seq![x]
    } else if key_le(x, s[0]) {
        seq![x] + s
    } else {
        seq![s[0]] + insert_sorted(x, s.drop_first())
    }
}

/// Key-sort of a pair sequence, one insertion at a time, left to right.
pub open spec fn sort_pairs(s: Seq<(Seq<char>, Seq<char>)>) -> Seq<(Seq<char>, Seq<char>)>
    decreases s.len(),
{
    if s.len() == 0 {
        Seq::empty()
    } else {
        insert_sorted(s.last(), sort_pairs(s.drop_last()))
    }
}

/// Ascending adjacent keys.
pub open spec fn sorted_by_keys(s: Seq<(Seq<char>, Seq<char>)>) -> bool {
    forall|i: int| 0 <= i < s.len() - 1 ==> key_le(#[trigger] s[i], s[i + 1])
}

/// All characters of all pairs ASCII.
pub open spec fn ascii_pairs(s: Seq<(Seq<char>, Seq<char>)>) -> bool {
    forall|i: int|
        0 <= i < s.len() ==> is_ascii_chars((#[trigger] s[i]).0) && is_ascii_chars(s[i].1)
}

proof fn lemma_insert_sorted_at(x: (Seq<char>, Seq<char>), s: Seq<(Seq<char>, Seq<char>)>, j: int)
    requires
        0 <= j <= s.len(),
        forall|k: int| 0 <= k < j ==> !key_le(x, #[trigger] s[k]),
        j < s.len() ==> key_le(x, s[j]),
    ensures
        insert_sorted(x, s) == s.insert(j, x),
    decreases j,
{
    if j == 0 {
        if s.len() == 0 {
            assert(s.insert(0, x) =~= seq![x]);
        } else {
            assert(s.insert(0, x) =~= seq![x] + s);
        }
    } else {
        let rest = s.drop_first();
        assert(!key_le(x, s[0]));
        assert forall|k: int| 0 <= k < j - 1 implies !key_le(x, #[trigger] rest[k]) by {
            assert(rest[k] == s[k + 1]);
        }
        assert(j - 1 < rest.len() ==> key_le(x, rest[j - 1]));
        lemma_insert_sorted_at(x, rest, j - 1);
        assert(insert_sorted(x, s) == seq![s[0]] + rest.insert(j - 1, x));
        assert(seq![s[0]] + rest.insert(j - 1, x) =~= s.insert(j, x));
    }
}

proof fn lemma_insert_sorted_head(x: (Seq<char>, Seq<char>), s: Seq<(Seq<char>, Seq<char>)>)
    ensures
        insert_sorted(x, s).len() == s.len() + 1,
        insert_sorted(x, s)[0] == x || (s.len() > 0 && insert_sorted(x, s)[0] == s[0]),
    decreases s.len(),
{
    if s.len() > 0 && !key_le(x, s[0]) {
        lemma_insert_sorted_head(x, s.drop_first());
    }
}

/// Inserting into a key-sorted sequence keeps it key-sorted.
pub proof fn lemma_insert_sorted_sorted(x: (Seq<char>, Seq<char>), s: Seq<(Seq<char>, Seq<char>)>)
    requires
        sorted_by_keys(s),
    ensures
        sorted_by_keys(insert_sorted(x, s)),
    decreases s.len(),
{
    lemma_insert_sorted_head(x, s);
    if s.len() == 0 {
    } else if key_le(x, s[0]) {
        let r = seq![x] + s;
        assert forall|i: int| 0 <= i < r.len() - 1 implies key_le(#[trigger] r[i], r[i + 1]) by {
            if i > 0 {
                assert(r[i] == s[i - 1] && r[i + 1] == s[i]);
            }
        }
    } else {
        let rest = s.drop_first();
        assert forall|i: int| 0 <= i < rest.len() - 1 implies key_le(
            #[trigger] rest[i],
            rest[i + 1],
        ) by {
            assert(rest[i] == s[i + 1] && rest[i + 1] == s[i + 2]);
            assert(key_le(s[i + 1], s[i + 2]));
        }
        lemma_insert_sorted_sorted(x, rest);
        lemma_insert_sorted_head(x, rest);
        lemma_lex_le_total(x.0, s[0].0);
        let r = seq![s[0]] + insert_sorted(x, rest);
        assert forall|i: int| 0 <= i < r.len() - 1 implies key_le(#[trigger] r[i], r[i + 1]) by {
            if i == 0 {
                assert(r[1] == insert_sorted(x, rest)[0]);
                if rest.len() > 0 {
                    assert(key_le(s[0], s[1]));
                }
            } else {
                assert(r[i] == insert_sorted(x, rest)[i - 1]);
                assert(r[i + 1] == insert_sorted(x, rest)[i]);
                assert(key_le(insert_sorted(x, rest)[i - 1], insert_sorted(x, rest)[i]));
            }
        }
    }
}

/// The sort leaves a key-sorted sequence.
pub proof fn lemma_sort_pairs_sorted(s: Seq<(Seq<char>, Seq<char>)>)
    ensures
        sorted_by_keys(sort_pairs(s)),
    decreases s.len(),
{
    if s.len() > 0 {
        lemma_sort_pairs_sorted(s.drop_last());
        lemma_insert_sorted_sorted(s.last(), sort_pairs(s.drop_last()));
    }
}

/// The sort keeps exactly the pairs it was given.
pub proof fn lemma_sort_pairs_multiset(s: Seq<(Seq<char>, Seq<char>)>)
    ensures
        sort_pairs(s).to_multiset() == s.to_multiset(),
    decreases s.len(),
{
    broadcast use vstd::seq_lib::group_to_multiset_ensures;

    if s.len() > 0 {
        lemma_sort_pairs_multiset(s.drop_last());
        lemma_insert_sorted_multiset(s.last(), sort_pairs(s.drop_last()));
        assert(s.drop_last().push(s.last()) =~= s);
    }
}

proof fn lemma_insert_sorted_multiset(x: (Seq<char>, Seq<char>), s: Seq<(Seq<char>, Seq<char>)>)
    ensures
        insert_sorted(x, s).to_multiset() == s.to_multiset().insert(x),
    decreases s.len(),
{
    broadcast use vstd::seq_lib::group_to_multiset_ensures;

    if s.len() == 0 {
        assert(seq![x] =~= Seq::<(Seq<char>, Seq<char>)>::empty().push(x));
    } else if key_le(x, s[0]) {
        assert(seq![x] + s =~= (seq![x]).add(s));
        vstd::seq_lib::lemma_multiset_commutative(seq![x], s);
        assert(seq![x] =~= Seq::<(Seq<char>, Seq<char>)>::empty().push(x));
        assert(Seq::<(Seq<char>, Seq<char>)>::empty().push(x).to_multiset()
            == Multiset::<(Seq<char>, Seq<char>)>::empty().insert(x));
        assert(s.to_multiset().insert(x) == Multiset::<(Seq<char>, Seq<char>)>::empty().insert(
            x,
        ).add(s.to_multiset()));
    } else {
        let rest = s.drop_first();
        lemma_insert_sorted_multiset(x, rest);
        vstd::seq_lib::lemma_multiset_commutative(seq![s[0]], insert_sorted(x, rest));
        vstd::seq_lib::lemma_multiset_commutative(seq![s[0]], rest);
        assert(seq![s[0]] + rest =~= s);
        assert(insert_sorted(x, s) == seq![s[0]] + insert_sorted(x, rest));
        assert(seq![s[0]].to_multiset().add(insert_sorted(x, rest).to_multiset())
            == seq![s[0]].to_multiset().add(rest.to_multiset().insert(x)));
        assert(seq![s[0]].to_multiset().add(rest.to_multiset().insert(x))
            == seq![s[0]].to_multiset().add(rest.to_multiset()).insert(x));
    }
}

proof fn lemma_insert_sorted_ascii(x: (Seq<char>, Seq<char>), s: Seq<(Seq<char>, Seq<char>)>)
    requires
        ascii_pairs(s),
        is_ascii_chars(x.0),
        is_ascii_chars(x.1),
    ensures
        ascii_pairs(insert_sorted(x, s)),
    decreases s.len(),
{
    if s.len() == 0 {
    } else if key_le(x, s[0]) {
        let r = seq![x] + s;
        assert forall|i: int| 0 <= i < r.len() implies is_ascii_chars((#[trigger] r[i]).0)
            && is_ascii_chars(r[i].1) by {
            if i > 0 {
                assert(r[i] == s[i - 1]);
            }
        }
    } else {
        let rest = s.drop_first();
        assert forall|i: int| 0 <= i < rest.len() implies is_ascii_chars((#[trigger] rest[i]).0)
            && is_ascii_chars(rest[i].1) by {
            assert(rest[i] == s[i + 1]);
        }
        lemma_insert_sorted_ascii(x, rest);
        let r = seq![s[0]] + insert_sorted(x, rest);
        assert forall|i: int| 0 <= i < r.len() implies is_ascii_chars((#[trigger] r[i]).0)
            && is_ascii_chars(r[i].1) by {
            if i > 0 {
                assert(r[i] == insert_sorted(x, rest)[i - 1]);
            }
        }
    }
}

/// Inserts a pair into a vector key-sorted so far, keeping it sorted.
fn insert_pair_sorted(v: &mut Vec<(String, String)>, x: (String, String))
    requires
        ascii_pairs(pairs_view(old(v)@)),
        is_ascii_chars(x.0@),
        is_ascii_chars(x.1@),
    ensures
        pairs_view(final(v)@) == insert_sorted((x.0@, x.1@), pairs_view(old(v)@)),
        ascii_pairs(pairs_view(final(v)@)),
{
    let ghost xs = (x.0@, x.1@);
    let ghost s0 = pairs_view(v@);
    let n = v.len();
    let mut j: usize = 0;
    let mut stop: bool = false;
    while j < n && !stop
        invariant
            v == old(v),
            ascii_pairs(s0),
            is_ascii_chars(xs.0),
            xs == (x.0@, x.1@),
            s0 == pairs_view(v@),
            n == v@.len(),
            j <= n,
            stop ==> j < n && key_le(xs, s0[j as int]),
            forall|k: int| 0 <= k < j ==> !key_le(xs, #[trigger] s0[k]),
        decreases 2 * (n - j) + (if stop {
            0int
        } else {
            1int
        }),
    {
        proof {
            assert(s0[j as int] == (v@[j as int].0@, v@[j as int].1@));
            assert(is_ascii_chars(s0[j as int].0));
        }
        if str_lex_le(x.0.as_str(), v[j].0.as_str()) {
            stop = true;
        } else {
            j = j + 1;
        }
    }
    proof {
        lemma_insert_sorted_at(xs, s0, j as int);
        lemma_insert_sorted_ascii(xs, s0);
    }
    v.insert(j, x);
    proof {
        assert(pairs_view(v@) =~= s0.insert(j as int, xs));
    }
}

/// Sorts encoded pairs by their encoded key.
fn sort_encoded_pairs(v: &Vec<(String, String)>) -> (r: Vec<(String, String)>)
    requires
        ascii_pairs(pairs_view(v@)),
    ensures
        pairs_view(r@) == sort_pairs(pairs_view(v@)),
        ascii_pairs(pairs_view(r@)),
{
    let ghost s = pairs_view(v@);
    let mut out: Vec<(String, String)> = Vec::new();
    let n = v.len();
    let mut i: usize = 0;
    proof {
        assert(pairs_view(out@) =~= Seq::<(Seq<char>, Seq<char>)>::empty());
    }
    while i < n
        invariant
            ascii_pairs(s),
            s == pairs_view(v@),
            n == v@.len(),
            i <= n,
            pairs_view(out@) == sort_pairs(s.take(i as int)),
            ascii_pairs(pairs_view(out@)),
        decreases n - i,
    {
        let x = (v[i].0.clone(), v[i].1.clone());
        proof {
            assert(s[i as int] == (x.0@, x.1@));
        }
        insert_pair_sorted(&mut out, x);
        proof {
            assert(s.take(i + 1).drop_last() =~= s.take(i as int));
            assert(s.take(i + 1).last() == s[i as int]);
        }
        i = i + 1;
    }
    proof {
        assert(s.take(n as int) =~= s);
    }
    out
}

/// One encoded pair rendered as `key=value`.
pub open spec fn render_pair(p: (Seq<char>, Seq<char>)) -> Seq<char> {
    p.0 + seq!['='] + p.1
}

/// Encoded pairs joined with `&`.
pub open spec fn join_pairs(s: Seq<(Seq<char>, Seq<char>)>) -> Seq<char>
    decreases s.len(),
{
    if s.len() == 0 {
        Seq::empty()
    } else if s.len() == 1 {
        render_pair(s[0])
    } else {
        render_pair(s[0]) + seq!['&'] + join_pairs(s.drop_first())
    }
}

proof fn lemma_join_pairs_snoc(s: Seq<(Seq<char>, Seq<char>)>, p: (Seq<char>, Seq<char>))
    ensures
        join_pairs(s.push(p)) == if s.len() == 0 {
            render_pair(p)
        } else {
            join_pairs(s) + seq!['&'] + render_pair(p)
        },
    decreases s.len(),
{
    let w = s.push(p);
    if s.len() == 0 {
        assert(w.len() == 1);
        assert(w[0] == p);
    } else {
        lemma_join_pairs_snoc(s.drop_first(), p);
        assert(w.drop_first() =~= s.drop_first().push(p));
        assert(w[0] == s[0]);
        if s.len() == 1 {
            assert(s.drop_first().len() == 0);
            assert(join_pairs(w) == render_pair(s[0]) + seq!['&'] + render_pair(p));
            assert(join_pairs(s) == render_pair(s[0]));
        } else {
            assert(join_pairs(w) == render_pair(s[0]) + seq!['&'] + (join_pairs(s.drop_first())
                + seq!['&'] + render_pair(p)));
            assert(render_pair(s[0]) + seq!['&'] + (join_pairs(s.drop_first()) + seq!['&']
                + render_pair(p)) =~= (render_pair(s[0]) + seq!['&'] + join_pairs(s.drop_first()))
                + seq!['&'] + render_pair(p));
        }
    }
}

/// The pairs of a table, percent-encoded.
pub open spec fn encoded_pairs(ps: Seq<(Seq<char>, Seq<char>)>) -> Seq<(Seq<char>, Seq<char>)> {
    ps.map(|_i: int, p: (Seq<char>, Seq<char>)| (pe(p.0), pe(p.1)))
}

/// The canonical query string of a parameter table: every pair
/// percent-encoded, sorted by the encoded key, joined as `k=v&k=v`.
pub open spec fn canonical_query(ps: Seq<(Seq<char>, Seq<char>)>) -> Seq<char> {
    join_pairs(sort_pairs(encoded_pairs(ps)))
}

/// Builds the canonical query string of a parameter table.
pub fn canonical_query_string(params: &ParamList) -> (r: String)
    ensures
        r@ == canonical_query(params@),
        is_ascii_chars(r@),
{
    let ghost ps = params@;
    let mut enc: Vec<(String, String)> = Vec::new();
    let n = params.len();
    let mut i: usize = 0;
    proof {
        assert(pairs_view(enc@) =~= Seq::<(Seq<char>, Seq<char>)>::empty());
        assert(encoded_pairs(ps.take(0)) =~= Seq::<(Seq<char>, Seq<char>)>::empty());
    }
    while i < n
        invariant
            ps == params@,
            n == ps.len(),
            i <= n,
            pairs_view(enc@) == encoded_pairs(ps.take(i as int)),
            ascii_pairs(pairs_view(enc@)),
        decreases n - i,
    {
        let (k, v) = params.pair(i);
        let ek = percent_encode(k.as_str());
        let ev = percent_encode(v.as_str());
        let ghost before = pairs_view(enc@);
        enc.push((ek, ev));
        proof {
            assert(pairs_view(enc@) =~= before.push((pe(ps[i as int].0), pe(ps[i as int].1))));
            assert(encoded_pairs(ps.take(i + 1)) =~= encoded_pairs(ps.take(i as int)).push(
                (pe(ps[i as int].0), pe(ps[i as int].1)),
            ));
        }
        i = i + 1;
    }
    proof {
        assert(ps.take(n as int) =~= ps);
    }
    let sorted = sort_encoded_pairs(&enc);
    let ghost sv = pairs_view(sorted@);
    let mut out: Vec<u8> = Vec::new();
    let m = sorted.len();
    let mut j: usize = 0;
    proof {
        assert(ascii_view(out@) =~= Seq::<char>::empty());
        assert(join_pairs(sv.take(0)) =~= Seq::<char>::empty());
    }
    while j < m
        invariant
            sv == pairs_view(sorted@),
            ascii_pairs(sv),
            m == sv.len(),
            j <= m,
            ascii_bytes(out@),
            ascii_view(out@) == join_pairs(sv.take(j as int)),
        decreases m - j,
    {
        proof {
            assert(sv[j as int] == (sorted@[j as int].0@, sorted@[j as int].1@));
            assert(is_ascii_chars(sv[j as int].0) && is_ascii_chars(sv[j as int].1));
        }
        let ghost base = ascii_view(out@);
        if j > 0 {
            let ghost b0 = out@;
            out.push(38);
            proof {
                crate::text::lemma_ascii_view_push(b0, 38);
                assert(ascii_view(out@) =~= base + seq!['&']);
            }
        }
        let ghost g1 = ascii_view(out@);
        let p = &sorted[j];
        push_ascii_str(&mut out, p.0.as_str());
        let ghost b1 = out@;
        out.push(61);
        proof {
            crate::text::lemma_ascii_view_push(b1, 61);
        }
        push_ascii_str(&mut out, p.1.as_str());
        proof {
            assert(ascii_view(out@) =~= g1 + render_pair(sv[j as int]));
            assert(sv.take(j + 1) =~= sv.take(j as int).push(sv[j as int]));
            lemma_join_pairs_snoc(sv.take(j as int), sv[j as int]);
            if j == 0 {
                assert(g1 =~= Seq::<char>::empty());
                assert(ascii_view(out@) =~= render_pair(sv[0]));
            } else {
                assert(g1 =~= join_pairs(sv.take(j as int)) + seq!['&']);
                assert(ascii_view(out@) =~= (join_pairs(sv.take(j as int)) + seq!['&'])
                    + render_pair(sv[j as int]));
                assert(ascii_view(out@) =~= join_pairs(sv.take(j as int)) + seq!['&']
                    + render_pair(sv[j as int]));
            }
        }
        j = j + 1;
    }
    proof {
        assert(sv.take(m as int) =~= sv);
        crate::text::lemma_ascii_view_chars(out@);
    }
    ascii_string(out)
}

} // verus!
