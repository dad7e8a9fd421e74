//! A map keyed by strings that keeps its entries sorted by key, as a
//! `BTreeMap<String, V>` does.
use vstd::prelude::*;
use crate::text::{seq_lt, str_eq, str_lt, lemma_seq_lt_irreflexive, lemma_seq_lt_transitive, lemma_seq_lt_total, lemma_seq_lt_asymmetric};

verus! {

/// Entries sorted strictly by key (so each key occurs once).
pub open spec fn sorted_keys<V>(s: Seq<(Seq<char>, V)>) -> bool {
    forall|i: int, j: int| 0 <= i < j < s.len() ==> seq_lt(#[trigger] s[i].0, #[trigger] s[j].0)
}

/// Whether `k` is a key of the entry sequence `s`.
pub open spec fn has_key<V>(s: Seq<(Seq<char>, V)>, k: Seq<char>) -> bool {
    exists|i: int| 0 <= i < s.len() && #[trigger] s[i].0 == k
}

/// The value stored under `k`, if any.
pub open spec fn lookup<V>(s: Seq<(Seq<char>, V)>, k: Seq<char>) -> Option<V> {
    if has_key(s, k) {
        Some(s[choose|i: int| 0 <= i < s.len() && #[trigger] s[i].0 == k].1)
    } else {
        None
    }
}

/// In a sorted entry sequence, the entry at `i` is the one `lookup` finds.
pub proof fn lemma_lookup_at<V>(s: Seq<(Seq<char>, V)>, i: int)
    requires
        sorted_keys(s),
        0 <= i < s.len(),
    ensures
        has_key(s, s[i].0),
        lookup(s, s[i].0) == Some(s[i].1),
{
    let k = s[i].0;
    assert(s[i].0 == k);
    assert(has_key(s, k));
    assert forall|j: int| 0 <= j < s.len() && #[trigger] s[j].0 == k implies j == i by {
        if j < i {
            assert(seq_lt(s[j].0, s[i].0));
            lemma_seq_lt_irreflexive(k);
        } else if j > i {
            assert(seq_lt(s[i].0, s[j].0));
            lemma_seq_lt_irreflexive(k);
        }
    }
}

/// A map from strings to `V`, iterated in key order.
pub struct StrMap<V> {
    entries: Vec<(String, V)>,
}

impl<V> View for StrMap<V> {
    type V = Seq<(Seq<char>, V)>;

    closed spec fn view(&self) -> Seq<(Seq<char>, V)> {
        self.entries@.map_values(|e: (String, V)| (e.0@, e.1))
    }
}

impl<V> StrMap<V> {
    #[verifier::type_invariant]
    closed spec fn inv(&self) -> bool {
        sorted_keys(self@)
    }

    /// The value stored under `k`, if any.
    pub open spec fn spec_get(&self, k: Seq<char>) -> Option<V> {
        lookup(self@, k)
    }

    /// Whether `k` is a key.
    pub open spec fn spec_has(&self, k: Seq<char>) -> bool {
        has_key(self@, k)
    }

    /// An empty map.
    pub fn new() -> (r: Self)
        ensures
            r@ == Seq::<(Seq<char>, V)>::empty(),
    {
        let r = StrMap { entries: Vec::new() };
        assert(r@ =~= Seq::<(Seq<char>, V)>::empty());
        r
    }

    /// Number of entries.
    pub fn len(&self) -> (r: usize)
        ensures
            r == self@.len(),
            sorted_keys(self@),
    {
        proof {
            use_type_invariant(self);
        }
        self.entries.len()
    }

    /// Whether the map is empty.
    pub fn is_empty(&self) -> (r: bool)
        ensures
            r == (self@.len() == 0),
    {
        self.entries.len() == 0
    }

    /// The key of the `i`-th entry in key order.
    pub fn key_at(&self, i: usize) -> (r: &String)
        requires
            i < self@.len(),
        ensures
            r@ == self@[i as int].0,
    {
        &self.entries[i].0
    }

    /// The value of the `i`-th entry in key order.
    pub fn value_at(&self, i: usize) -> (r: &V)
        requires
            i < self@.len(),
        ensures
            *r == self@[i as int].1,
    {
        &self.entries[i].1
    }

    /// Position of `k` among the entries, if present.
    pub fn find(&self, k: &str) -> (r: Option<usize>)
        ensures
            match r {
                Some(i) => i < self@.len() && self@[i as int].0 == k@,
                None => !self.spec_has(k@),
            },
    {
        let mut i: usize = 0;
        while i < self.entries.len()
            invariant
                i <= self@.len(),
                self@.len() == self.entries@.len(),
                forall|j: int| 0 <= j < i ==> #[trigger] self@[j].0 != k@,
            decreases self@.len() - i,
        {
            if str_eq(self.entries[i].0.as_str(), k) {
                return Some(i);
            }
            i = i + 1;
        }
        None
    }

    /// The value stored under `k`, if any.
    pub fn get(&self, k: &str) -> (r: Option<&V>)
        ensures
            match r {
                Some(v) => self.spec_get(k@) == Some(*v),
                None => self.spec_get(k@) is None,
            },
    {
        proof {
            use_type_invariant(self);
        }
        match self.find(k) {
            Some(i) => {
                proof {
                    lemma_lookup_at(self@, i as int);
                }
                Some(&self.entries[i].1)
            },
            None => None,
        }
    }

    /// Whether `k` is a key.
    pub fn contains_key(&self, k: &str) -> (r: bool)
        ensures
            r == self.spec_has(k@),
    {
        self.find(k).is_some()
    }

    /// Appends an entry whose key sorts after every key present.
    pub fn push_last(&mut self, k: String, v: V)
        requires
            forall|i: int| 0 <= i < old(self)@.len() ==> seq_lt(#[trigger] old(self)@[i].0, k@),
        ensures
            final(self)@ == old(self)@.push((k@, v)),
    {
        proof {
            use_type_invariant(&*self);
        }
        let ghost s0 = self@;
        let ghost kv = k@;
        let mut e: Vec<(String, V)> = Vec::new();
        std::mem::swap(&mut e, &mut self.entries);
        e.push((k, v));
        proof {
            let s1 = e@.map_values(|x: (String, V)| (x.0@, x.1));
            assert(s1 =~= s0.push((kv, v)));
            assert(sorted_keys(s1));
        }
        self.entries = e;
        proof {
            assert(self@ =~= s0.push((kv, v)));
        }
    }

    /// Stores `v` under `k`, replacing any earlier value, which it returns.
    pub fn insert(&mut self, k: String, v: V) -> (r: Option<V>)
        ensures
            r == old(self).spec_get(k@),
            forall|q: Seq<char>| #[trigger] final(self).spec_get(q) == if q == k@ {
                Some(v)
            } else {
                old(self).spec_get(q)
            },
            final(self)@.len() == old(self)@.len() + if old(self).spec_has(k@) { 0int } else { 1 },
    {
        proof {
            use_type_invariant(&*self);
        }
        let ghost s0 = self@;
        let mut p: usize = 0;
        while p < self.entries.len() && str_lt(self.entries[p].0.as_str(), k.as_str())
            invariant
                p <= s0.len(),
                s0 == self@,
                s0.len() == self.entries@.len(),
                sorted_keys(s0),
                forall|j: int| 0 <= j < p ==> seq_lt(#[trigger] s0[j].0, k@),
            decreases s0.len() - p,
        {
            p = p + 1;
        }
        // Every entry from `p` on sorts at or after `k`.
        proof {
            assert forall|j: int| p <= j < s0.len() implies #[trigger] s0[j].0 == k@ || seq_lt(k@, s0[j].0) by {
                lemma_seq_lt_total(s0[p as int].0, k@);
                if s0[p as int].0 != k@ {
                    lemma_seq_lt_asymmetric(s0[p as int].0, k@);
                }
                if j > p {
                    if s0[p as int].0 == k@ {
                    } else {
                        lemma_seq_lt_transitive(k@, s0[p as int].0, s0[j].0);
                    }
                }
            }
        }
        if p < self.entries.len() && str_eq(self.entries[p].0.as_str(), k.as_str()) {
            let ghost kk = k@;
            let mut e: Vec<(String, V)> = Vec::new();
            std::mem::swap(&mut e, &mut self.entries);
            let prev = e.remove(p);
            e.insert(p, (k, v));
            proof {
                assert(e@.map_values(|e: (String, V)| (e.0@, e.1)) =~= s0.update(p as int, (kk, v)));
                let s1 = s0.update(p as int, (kk, v));
                assert forall|j: int| 0 <= j < s1.len() implies #[trigger] s1[j].0 == s0[j].0 by {}
                assert(sorted_keys(s1));
            }
            self.entries = e;
            proof {
                let s1 = self@;
                assert(s1 =~= s0.update(p as int, (kk, v)));
                lemma_lookup_at(s0, p as int);
                assert(sorted_keys(s1));
                assert forall|q: Seq<char>| #[trigger] lookup(s1, q) == if q == kk {
                    Some(v)
                } else {
                    lookup(s0, q)
                } by {
                    lemma_lookup_at(s1, p as int);
                    if q != kk {
                        if has_key(s0, q) {
                            let i = choose|i: int| 0 <= i < s0.len() && #[trigger] s0[i].0 == q;
                            lemma_lookup_at(s0, i);
                            lemma_lookup_at(s1, i);
                        }
                        if has_key(s1, q) {
                            let i = choose|i: int| 0 <= i < s1.len() && #[trigger] s1[i].0 == q;
                            assert(s0[i].0 == q);
                        }
                    }
                }
                assert(has_key(s0, kk)) by { assert(s0[p as int].0 == kk); }
            }
            Some(prev.1)
        } else {
            let ghost kk = k@;
            proof {
                if has_key(s0, kk) {
                    let i = choose|i: int| 0 <= i < s0.len() && #[trigger] s0[i].0 == kk;
                    if i < p {
                        lemma_seq_lt_irreflexive(kk);
                    } else {
                        assert(s0[i].0 == kk || seq_lt(kk, s0[i].0));
                        if i > p {
                            assert(seq_lt(s0[p as int].0, s0[i].0));
                            lemma_seq_lt_asymmetric(kk, s0[p as int].0);
                            lemma_seq_lt_transitive(kk, s0[p as int].0, s0[i].0);
                            lemma_seq_lt_irreflexive(kk);
                        }
                    }
                }
            }
            let mut e: Vec<(String, V)> = Vec::new();
            std::mem::swap(&mut e, &mut self.entries);
            e.insert(p, (k, v));
            proof {
                let s1 = s0.insert(p as int, (kk, v));
                assert(e@.map_values(|e: (String, V)| (e.0@, e.1)) =~= s1);
                assert forall|i: int, j: int| 0 <= i < j < s1.len() implies seq_lt(#[trigger] s1[i].0, #[trigger] s1[j].0) by {
                    if i < p && j == p {
                    } else if i == p && j > p {
                        assert(s1[j] == s0[j - 1]);
                    } else if i < p && j > p {
                        assert(s1[j] == s0[j - 1]);
                        lemma_seq_lt_transitive(s0[i].0, kk, s0[j - 1].0);
                    } else if i > p {
                        assert(s1[i] == s0[i - 1]);
                        assert(s1[j] == s0[j - 1]);
                    }
                }
            }
            self.entries = e;
            proof {
                let s1 = self@;
                assert(s1 =~= s0.insert(p as int, (kk, v)));
                assert forall|i: int, j: int| 0 <= i < j < s1.len() implies seq_lt(#[trigger] s1[i].0, #[trigger] s1[j].0) by {
                    if i < p && j == p {
                    } else if i == p && j > p {
                        assert(s1[j] == s0[j - 1]);
                    } else if i < p && j > p {
                        assert(s1[j] == s0[j - 1]);
                        lemma_seq_lt_transitive(s0[i].0, kk, s0[j - 1].0);
                    } else if i > p {
                        assert(s1[i] == s0[i - 1]);
                        assert(s1[j] == s0[j - 1]);
                    }
                }
                assert forall|q: Seq<char>| #[trigger] lookup(s1, q) == if q == kk {
                    Some(v)
                } else {
                    lookup(s0, q)
                } by {
                    lemma_lookup_at(s1, p as int);
                    if q != kk {
                        if has_key(s0, q) {
                            let i = choose|i: int| 0 <= i < s0.len() && #[trigger] s0[i].0 == q;
                            lemma_lookup_at(s0, i);
                            if i < p {
                                lemma_lookup_at(s1, i);
                            } else {
                                assert(s1[i + 1] == s0[i]);
                                lemma_lookup_at(s1, i + 1);
                            }
                        }
                        if has_key(s1, q) {
                            let i = choose|i: int| 0 <= i < s1.len() && #[trigger] s1[i].0 == q;
                            if i < p {
                                assert(s0[i].0 == q);
                            } else {
                                assert(i != p);
                                assert(s0[i - 1].0 == q);
                            }
                        }
                    }
                }
                assert(!has_key(s0, kk));
            }
            None
        }
    }
}

/// A key is present exactly when a lookup finds a value.
pub proof fn lemma_has_get<V>(m: StrMap<V>, k: Seq<char>)
    ensures
        m.spec_has(k) == (m.spec_get(k) is Some),
{
}

} // verus!
