//! The parameter table: an unordered string-to-string collection with
//! unique keys. Inserting an existing key overwrites and returns the old
//! value; merging is a right-biased union. Ordering is imposed only when a
//! signature is computed.

use vstd::prelude::*;

verus! {

use crate::text::str_eq;

/// The characters of a sequence of string pairs.
pub open spec fn pairs_view(s: Seq<(String, String)>) -> Seq<(Seq<char>, Seq<char>)> {
    s.map(|_i: int, p: (String, String)| (p.0@, p.1@))
}

/// No key occurs twice.
pub open spec fn unique_keys(s: Seq<(Seq<char>, Seq<char>)>) -> bool {
    forall|i: int, j: int| 0 <= i < j < s.len() ==> s[i].0 != s[j].0
}

/// Index of the pair holding a key, if any.
pub open spec fn key_index(s: Seq<(Seq<char>, Seq<char>)>, k: Seq<char>) -> Option<int>
    decreases s.len(),
{
    if s.len() == 0 {
        None
    } else if s[0].0 == k {
        Some(0int)
    } else {
        match key_index(s.drop_first(), k) {
            Some(i) => Some(i + 1),
            None => None,
        }
    }
}

/// Last-write-wins insertion on a pair sequence.
pub open spec fn upsert(s: Seq<(Seq<char>, Seq<char>)>, k: Seq<char>, v: Seq<char>) -> Seq<
    (Seq<char>, Seq<char>),
> {
    match key_index(s, k) {
        Some(i) => s.update(i, (k, v)),
        None => s.push((k, v)),
    }
}

pub proof fn lemma_key_index_some(s: Seq<(Seq<char>, Seq<char>)>, k: Seq<char>)
    ensures
        match key_index(s, k) {
            Some(i) => 0 <= i < s.len() && s[i].0 == k && forall|j: int|
                0 <= j < i ==> (#[trigger] s[j]).0 != k,
            None => forall|j: int| 0 <= j < s.len() ==> (#[trigger] s[j]).0 != k,
        },
    decreases s.len(),
{
    if s.len() > 0 && s[0].0 != k {
        let rest = s.drop_first();
        lemma_key_index_some(rest, k);
        match key_index(rest, k) {
            Some(ir) => {
                assert(s[ir + 1] == rest[ir]);
                assert forall|j: int| 0 <= j < ir + 1 implies (#[trigger] s[j]).0 != k by {
                    if j >= 1 {
                        assert(s[j] == rest[j - 1]);
                        assert(rest[j - 1].0 != k);
                    }
                }
            },
            None => {
                assert forall|j: int| 0 <= j < s.len() implies (#[trigger] s[j]).0 != k by {
                    if j >= 1 {
                        assert(s[j] == rest[j - 1]);
                        assert(rest[j - 1].0 != k);
                    }
                }
            },
        }
    }
}

/// Upserting keeps keys unique.
pub proof fn lemma_upsert_unique(s: Seq<(Seq<char>, Seq<char>)>, k: Seq<char>, v: Seq<char>)
    requires
        unique_keys(s),
    ensures
        unique_keys(upsert(s, k, v)),
{
    lemma_key_index_some(s, k);
}

/// A parameter table.
pub struct ParamList {
    items: Vec<(String, String)>,
}

impl View for ParamList {
    type V = Seq<(Seq<char>, Seq<char>)>;

    closed spec fn view(&self) -> Seq<(Seq<char>, Seq<char>)> {
        pairs_view(self.items@)
    }
}

impl ParamList {
    /// The table's invariant: keys are unique.
    pub open spec fn wf(&self) -> bool {
        unique_keys(self@)
    }

    pub fn new() -> (r: ParamList)
        ensures
            r@ == Seq::<(Seq<char>, Seq<char>)>::empty(),
            r.wf(),
    {
        let r = ParamList { items: Vec::new() };
        proof {
            assert(r@ =~= Seq::<(Seq<char>, Seq<char>)>::empty());
        }
        r
    }

    pub fn len(&self) -> (n: usize)
        ensures
            n == self@.len(),
    {
        self.items.len()
    }

    /// The pair at an index, for walking the table.
    pub fn pair(&self, i: usize) -> (r: (&String, &String))
        requires
            i < self@.len(),
        ensures
            r.0@ == self@[i as int].0,
            r.1@ == self@[i as int].1,
    {
        let p = &self.items[i];
        (&p.0, &p.1)
    }

    /// An independent copy of the table.
    pub fn duplicate(&self) -> (r: ParamList)
        ensures
            r@ == self@,
    {
        let n = self.items.len();
        let mut items: Vec<(String, String)> = Vec::new();
        let mut i: usize = 0;
        while i < n
            invariant
                n == self.items@.len(),
                i <= n,
                items@.len() == i,
                forall|j: int|
                    0 <= j < i ==> (#[trigger] items@[j]).0@ == self.items@[j].0@ && items@[j].1@
                        == self.items@[j].1@,
            decreases n - i,
        {
            let p = &self.items[i];
            items.push((p.0.clone(), p.1.clone()));
            i = i + 1;
        }
        let r = ParamList { items };
        proof {
            assert(r@ =~= self@);
        }
        r
    }

    /// Inserts a key/value pair; an existing key is overwritten and its
    /// value returned.
    pub fn insert(&mut self, key: String, value: String) -> (prev: Option<String>)
        requires
            old(self).wf(),
        ensures
            final(self).wf(),
            final(self)@ == upsert(old(self)@, key@, value@),
            match key_index(old(self)@, key@) {
                Some(i) => prev matches Some(p) && p@ == old(self)@[i].1,
                None => prev is None,
            },
    {
        proof {
            lemma_key_index_some(self@, key@);
            lemma_upsert_unique(self@, key@, value@);
        }
        let n = self.items.len();
        let mut i: usize = 0;
        while i < n
            invariant
                self == old(self),
                old(self).wf(),
                n == self@.len(),
                i <= n,
                forall|j: int| 0 <= j < i ==> (#[trigger] self@[j]).0 != key@,
            decreases n - i,
        {
            if str_eq(self.items[i].0.as_str(), key.as_str()) {
                proof {
                    assert(self@[i as int].0 == key@);
                    lemma_key_index_some(self@, key@);
                    assert(key_index(self@, key@) == Some(i as int));
                }
                let ghost before = self@;
                let ghost gk = key@;
                let ghost gv = value@;
                let old_pair = self.items.remove(i);
                self.items.insert(i, (key, value));
                proof {
                    assert(self@ =~= upsert(before, gk, gv));
                    lemma_upsert_unique(before, gk, gv);
                }
                return Some(old_pair.1);
            }
            i = i + 1;
        }
        proof {
            lemma_key_index_some(self@, key@);
        }
        let ghost before = self@;
        self.items.push((key, value));
        proof {
            assert(self@ =~= before.push((key@, value@)));
        }
        None
    }

    /// Right-biased union: every pair of `overrides` is inserted in turn.
    pub fn merge(&mut self, overrides: &ParamList)
        requires
            old(self).wf(),
        ensures
            final(self).wf(),
            final(self)@ == merge_pairs(old(self)@, overrides@),
    {
        let n = overrides.len();
        let mut i: usize = 0;
        while i < n
            invariant
                self.wf(),
                n == overrides@.len(),
                i <= n,
                self@ == merge_pairs(old(self)@, overrides@.take(i as int)),
            decreases n - i,
        {
            let (k, v) = overrides.pair(i);
            let key = k.clone();
            let value = v.clone();
            self.insert(key, value);
            proof {
                lemma_merge_pairs_snoc(old(self)@, overrides@, i as int);
            }
            i = i + 1;
        }
        proof {
            assert(overrides@.take(n as int) =~= overrides@);
        }
    }
}

/// Right-biased union of two pair sequences: pairs of `b` upserted into
/// `a`, left to right.
pub open spec fn merge_pairs(
    a: Seq<(Seq<char>, Seq<char>)>,
    b: Seq<(Seq<char>, Seq<char>)>,
) -> Seq<(Seq<char>, Seq<char>)>
    decreases b.len(),
{
    if b.len() == 0 {
        a
    } else {
        upsert(merge_pairs(a, b.drop_last()), b.last().0, b.last().1)
    }
}

proof fn lemma_merge_pairs_snoc(
    a: Seq<(Seq<char>, Seq<char>)>,
    b: Seq<(Seq<char>, Seq<char>)>,
    i: int,
)
    requires
        0 <= i < b.len(),
    ensures
        merge_pairs(a, b.take(i + 1)) == upsert(merge_pairs(a, b.take(i)), b[i].0, b[i].1),
{
    assert(b.take(i + 1).drop_last() =~= b.take(i));
    assert(b.take(i + 1).last() == b[i]);
}

/// Adds a key/value parameter to a table, returning any overwritten value.
pub fn add_param(list: &mut ParamList, key: String, value: String) -> (prev: Option<String>)
    requires
        old(list).wf(),
    ensures
        final(list).wf(),
        final(list)@ == upsert(old(list)@, key@, value@),
        match key_index(old(list)@, key@) {
            Some(i) => prev matches Some(p) && p@ == old(list)@[i].1,
            None => prev is None,
        },
{
    list.insert(key, value)
}

} // verus!
