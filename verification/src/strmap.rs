//! A map from strings to strings, stored as an association list whose
//! keys are kept strictly sorted: the map behind request headers,
//! response headers and form fields. Iteration order is key order, so
//! serialized headers come out sorted.

use crate::text::{lemma_lex_lt_connected, lemma_lex_lt_trans, lex_lt, str_eq, str_lt};
use vstd::prelude::*;

verus! {

/// A string-keyed map with sorted iteration order.
pub struct StrMap {
    entries: Vec<(String, String)>,
}

spec fn entries_view(entries: Seq<(String, String)>) -> Seq<(Seq<char>, Seq<char>)> {
    Seq::new(entries.len(), |i: int| (entries[i].0@, entries[i].1@))
}

impl View for StrMap {
    type V = Seq<(Seq<char>, Seq<char>)>;

    closed spec fn view(&self) -> Seq<(Seq<char>, Seq<char>)> {
        entries_view(self.entries@)
    }
}

/// Keys strictly increasing in lexicographic order.
pub open spec fn spec_sorted(s: Seq<(Seq<char>, Seq<char>)>) -> bool {
    forall|i: int, j: int| 0 <= i < j < s.len() ==> lex_lt(#[trigger] s[i].0, #[trigger] s[j].0)
}

/// The sequence after storing `v` under `k`: the pair replaces an equal
/// key or enters at its sorted position.
pub open spec fn spec_insert(s: Seq<(Seq<char>, Seq<char>)>, k: Seq<char>, v: Seq<char>) -> Seq<
    (Seq<char>, Seq<char>),
>
    decreases s.len(),
{
    if s.len() == 0 {
        seq![(k, v)]
    } else if lex_lt(s[0].0, k) {
        seq![s[0]] + spec_insert(s.drop_first(), k, v)
    } else if s[0].0 == k {
        seq![(k, v)] + s.drop_first()
    } else {
        seq![(k, v)] + s
    }
}

/// The value stored under `k`, if any.
pub open spec fn spec_lookup(s: Seq<(Seq<char>, Seq<char>)>, k: Seq<char>) -> Option<Seq<char>>
    decreases s.len(),
{
    if s.len() == 0 {
        None
    } else if s[0].0 == k {
        Some(s[0].1)
    } else {
        spec_lookup(s.drop_first(), k)
    }
}

/// Inserting into a sorted sequence keeps it sorted.
pub proof fn lemma_insert_sorted(s: Seq<(Seq<char>, Seq<char>)>, k: Seq<char>, v: Seq<char>)
    requires
        spec_sorted(s),
    ensures
        spec_sorted(spec_insert(s, k, v)),
    decreases s.len(),
{
    if s.len() == 0 {
    } else if lex_lt(s[0].0, k) {
        assert(spec_sorted(s.drop_first()));
        lemma_insert_sorted(s.drop_first(), k, v);
        let r = seq![s[0]] + spec_insert(s.drop_first(), k, v);
        let inner = spec_insert(s.drop_first(), k, v);
        assert forall|i: int, j: int| 0 <= i < j < r.len() implies lex_lt(r[i].0, r[j].0) by {
            if i == 0 {
                lemma_insert_head_key(s.drop_first(), k, v, j - 1);
                assert(r[j] == inner[j - 1]);
                if inner[j - 1].0 == k {
                } else {
                    let w = choose|w: int|
                        0 <= w < s.drop_first().len() && #[trigger] s.drop_first()[w].0 == inner[j
                            - 1].0;
                    assert(s[w + 1].0 == inner[j - 1].0);
                    assert(lex_lt(s[0].0, s[w + 1].0));
                }
            } else {
                assert(r[i] == inner[i - 1]);
                assert(r[j] == inner[j - 1]);
            }
        }
    } else if s[0].0 == k {
        let r = seq![(k, v)] + s.drop_first();
        assert forall|i: int, j: int| 0 <= i < j < r.len() implies lex_lt(r[i].0, r[j].0) by {
            if i == 0 {
                assert(lex_lt(s[0].0, s[j].0));
                assert(r[j] == s.drop_first()[j - 1]);
            } else {
                assert(r[i] == s[i]);
                assert(r[j] == s[j]);
            }
        }
    } else {
        lemma_lex_lt_connected(s[0].0, k);
        assert(lex_lt(k, s[0].0));
        let r = seq![(k, v)] + s;
        assert forall|i: int, j: int| 0 <= i < j < r.len() implies lex_lt(r[i].0, r[j].0) by {
            if i == 0 {
                assert(r[j] == s[j - 1]);
                if j == 1 {
                } else {
                    assert(lex_lt(s[0].0, s[j - 1].0));
                    lemma_lex_lt_trans(k, s[0].0, s[j - 1].0);
                }
            } else {
                assert(r[i] == s[i - 1]);
                assert(r[j] == s[j - 1]);
            }
        }
    }
}

/// Every key of the inserted sequence is `k` or a key of the original.
proof fn lemma_insert_head_key(
    s: Seq<(Seq<char>, Seq<char>)>,
    k: Seq<char>,
    v: Seq<char>,
    i: int,
)
    requires
        0 <= i < spec_insert(s, k, v).len(),
    ensures
        spec_insert(s, k, v)[i].0 == k || exists|j: int|
            0 <= j < s.len() && #[trigger] s[j].0 == spec_insert(s, k, v)[i].0,
    decreases s.len(),
{
    if s.len() == 0 {
    } else if lex_lt(s[0].0, k) {
        if i > 0 {
            lemma_insert_head_key(s.drop_first(), k, v, i - 1);
            let r = spec_insert(s, k, v);
            let inner = spec_insert(s.drop_first(), k, v);
            assert(r[i] == inner[i - 1]);
            if inner[i - 1].0 == k {
            } else {
                let w = choose|w: int|
                    0 <= w < s.drop_first().len() && #[trigger] s.drop_first()[w].0 == inner[i
                        - 1].0;
                assert(s[w + 1].0 == inner[i - 1].0);
            }
        } else {
            assert(s[0].0 == spec_insert(s, k, v)[0].0);
        }
    } else if s[0].0 == k {
        if i > 0 {
            assert(spec_insert(s, k, v)[i] == s.drop_first()[i - 1]);
            assert(s[i].0 == spec_insert(s, k, v)[i].0);
        }
    } else {
        if i > 0 {
            assert(spec_insert(s, k, v)[i] == s[i - 1]);
            assert(s[i - 1].0 == spec_insert(s, k, v)[i].0);
        }
    }
}

/// After an insert, `k` maps to `v` and every other key is unchanged.
pub proof fn lemma_lookup_insert(
    s: Seq<(Seq<char>, Seq<char>)>,
    k: Seq<char>,
    v: Seq<char>,
    q: Seq<char>,
)
    ensures
        spec_lookup(spec_insert(s, k, v), q) == if q == k {
            Some(v)
        } else {
            spec_lookup(s, q)
        },
    decreases s.len(),
{
    let r = spec_insert(s, k, v);
    if s.len() == 0 {
        if q != k {
            assert(r.drop_first() =~= Seq::<(Seq<char>, Seq<char>)>::empty());
        }
    } else if lex_lt(s[0].0, k) {
        lemma_lex_lt_connected(k, k);
        assert(s[0].0 != k);
        lemma_lookup_insert(s.drop_first(), k, v, q);
        assert(r.drop_first() =~= spec_insert(s.drop_first(), k, v));
        assert(r[0] == s[0]);
        if q == k {
            assert(spec_lookup(r, q) == spec_lookup(r.drop_first(), q));
            assert(spec_lookup(r, q) == Some(v));
        } else if q == s[0].0 {
            assert(spec_lookup(r, q) == Some(s[0].1));
            assert(spec_lookup(s, q) == Some(s[0].1));
        } else {
            assert(spec_lookup(r, q) == spec_lookup(s.drop_first(), q));
            assert(spec_lookup(s, q) == spec_lookup(s.drop_first(), q));
        }
    } else if s[0].0 == k {
        assert(r.drop_first() =~= s.drop_first());
        assert(r[0] == (k, v));
        if q == k {
            assert(spec_lookup(r, q) == Some(v));
        } else {
            assert(spec_lookup(r, q) == spec_lookup(s.drop_first(), q));
            assert(spec_lookup(s, q) == spec_lookup(s.drop_first(), q));
        }
    } else {
        assert(r.drop_first() =~= s);
        assert(r[0] == (k, v));
        if q == k {
            assert(spec_lookup(r, q) == Some(v));
        } else {
            assert(spec_lookup(r, q) == spec_lookup(s, q));
        }
    }
}

impl StrMap {
    /// The type invariant: iteration order is sorted key order.
    #[verifier::type_invariant]
    pub open spec fn wf(&self) -> bool {
        spec_sorted(self@)
    }

    /// The empty map.
    pub fn new() -> (r: StrMap)
        ensures
            r@ == Seq::<(Seq<char>, Seq<char>)>::empty(),
    {
        let r = StrMap { entries: Vec::new() };
        proof {
            assert(r@ =~= Seq::<(Seq<char>, Seq<char>)>::empty());
        }
        r
    }

    /// The number of entries.
    pub fn len(&self) -> (r: usize)
        ensures
            r == self@.len(),
    {
        self.entries.len()
    }

    /// The entry at position `i` in key order.
    pub fn pair_at(&self, i: usize) -> (r: (&String, &String))
        requires
            i < self@.len(),
        ensures
            r.0@ == self@[i as int].0,
            r.1@ == self@[i as int].1,
    {
        let p = &self.entries[i];
        (&p.0, &p.1)
    }

    /// The value stored under `k`, if any.
    pub fn get(&self, k: &str) -> (r: Option<&String>)
        ensures
            spec_lookup(self@, k@) matches Some(v) ==> (r matches Some(x) && x@ == v),
            spec_lookup(self@, k@) is None ==> r is None,
    {
        let n = self.entries.len();
        let mut i: usize = 0;
        proof {
            assert(self@.skip(0) =~= self@);
        }
        while i < n
            invariant
                n == self@.len(),
                n == self.entries@.len(),
                i <= n,
                spec_lookup(self@, k@) == spec_lookup(self@.skip(i as int), k@),
            decreases n - i,
        {
            proof {
                assert(self@.skip(i as int)[0] == self@[i as int]);
            }
            if str_eq(self.entries[i].0.as_str(), k) {
                return Some(&self.entries[i].1);
            }
            proof {
                assert(self@.skip(i as int).drop_first() =~= self@.skip(i + 1));
            }
            i = i + 1;
        }
        None
    }

    /// Whether `k` is present.
    pub fn contains_key(&self, k: &str) -> (r: bool)
        ensures
            r == (spec_lookup(self@, k@) is Some),
    {
        match self.get(k) {
            Some(_) => true,
            None => false,
        }
    }

    /// Stores `v` under `k`, replacing any value stored before.
    pub fn insert(&mut self, k: String, v: String)
        ensures
            final(self)@ == spec_insert(old(self)@, k@, v@),
            spec_sorted(final(self)@),
    {
        proof {
            use_type_invariant(&*self);
        }
        let ghost s = self@;
        let n = self.entries.len();
        let mut i: usize = 0;
        while i < n && str_lt(self.entries[i].0.as_str(), k.as_str())
            invariant
                n == self.entries@.len(),
                n == s.len(),
                i <= n,
                self@ == s,
                forall|j: int| 0 <= j < i ==> lex_lt(#[trigger] s[j].0, k@),
            decreases n - i,
        {
            i = i + 1;
        }
        proof {
            lemma_insert_at(s, k@, v@, i as int);
            lemma_insert_sorted(s, k@, v@);
        }
        let same_key = i < n && str_eq(self.entries[i].0.as_str(), k.as_str());
        let mut entries: Vec<(String, String)> = Vec::new();
        core::mem::swap(&mut entries, &mut self.entries);
        proof {
            assert(spec_sorted(self@)) by {
                assert(self@ =~= Seq::<(Seq<char>, Seq<char>)>::empty());
            }
        }
        if same_key {
            entries.remove(i);
        }
        entries.insert(i, (k, v));
        proof {
            if same_key {
                assert(entries_view(entries@) =~= s.take(i as int) + seq![(k@, v@)] + s.skip(
                    i + 1,
                ));
            } else {
                assert(entries_view(entries@) =~= s.take(i as int) + seq![(k@, v@)] + s.skip(
                    i as int,
                ));
            }
        }
        let r = StrMap { entries };
        *self = r;
    }
}

/// What `spec_insert` yields once the insertion position is known.
proof fn lemma_insert_at(s: Seq<(Seq<char>, Seq<char>)>, k: Seq<char>, v: Seq<char>, i: int)
    requires
        0 <= i <= s.len(),
        forall|j: int| 0 <= j < i ==> lex_lt(#[trigger] s[j].0, k),
        i < s.len() ==> !lex_lt(s[i].0, k),
    ensures
        i < s.len() && s[i].0 == k ==> spec_insert(s, k, v) == s.take(i) + seq![(k, v)] + s.skip(
            i + 1,
        ),
        !(i < s.len() && s[i].0 == k) ==> spec_insert(s, k, v) == s.take(i) + seq![(k, v)] + s.skip(
            i,
        ),
    decreases s.len(),
{
    if i == 0 {
        if 0 < s.len() && s[0].0 == k {
            assert(spec_insert(s, k, v) == seq![(k, v)] + s.drop_first());
            assert(seq![(k, v)] + s.drop_first() =~= s.take(0) + seq![(k, v)] + s.skip(1));
        } else {
            if s.len() == 0 {
                assert(spec_insert(s, k, v) =~= s.take(0) + seq![(k, v)] + s.skip(0));
            } else {
                assert(spec_insert(s, k, v) == seq![(k, v)] + s);
                assert(seq![(k, v)] + s =~= s.take(0) + seq![(k, v)] + s.skip(0));
            }
        }
    } else {
        assert(lex_lt(s[0].0, k));
        let t = s.drop_first();
        assert(forall|j: int| 0 <= j < i - 1 ==> #[trigger] t[j].0 == s[j + 1].0);
        lemma_insert_at(t, k, v, i - 1);
        assert(spec_insert(s, k, v) == seq![s[0]] + spec_insert(t, k, v));
        if i < s.len() && s[i].0 == k {
            assert(t[i - 1].0 == k);
            assert(seq![s[0]] + (t.take(i - 1) + seq![(k, v)] + t.skip(i)) =~= s.take(i) + seq![
                (k, v),
            ] + s.skip(i + 1));
        } else {
            assert(seq![s[0]] + (t.take(i - 1) + seq![(k, v)] + t.skip(i - 1)) =~= s.take(i)
                + seq![(k, v)] + s.skip(i));
        }
    }
}

} // verus!
