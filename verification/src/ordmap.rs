//! An associative table keyed by strings, kept strictly sorted in
//! lexicographic key order. Sortedness makes the table canonical: two
//! tables holding the same entries are the same sequence, which is what
//! gives every consumer (schema synthesis, validation diagnostics,
//! persistence) a reproducible iteration order.

use vstd::prelude::*;

use crate::ident::{lex_lt, lemma_lex_lt_trans, lemma_lex_lt_trichotomy, str_eq, str_lt};

verus! {

/// String-keyed table in strictly ascending lexicographic key order.
pub struct OrdMap<T> {
    pub pairs: Vec<(String, T)>,
}

impl<T> View for OrdMap<T> {
    type V = Map<Seq<char>, T>;

    open spec fn view(&self) -> Map<Seq<char>, T> {
        Map::new(|k: Seq<char>| self.spec_contains(k), |k: Seq<char>| self.spec_at(k))
    }
}

impl<T> OrdMap<T> {
    /// The keys, in table order, as character sequences.
    pub open spec fn spec_keys(&self) -> Seq<Seq<char>> {
        Seq::new(self.pairs@.len(), |i: int| self.pairs@[i].0@)
    }

    /// The values, in table order.
    pub open spec fn spec_vals(&self) -> Seq<T> {
        Seq::new(self.pairs@.len(), |i: int| self.pairs@[i].1)
    }

    pub open spec fn spec_len(&self) -> nat {
        self.pairs@.len()
    }

    pub open spec fn spec_contains(&self, k: Seq<char>) -> bool {
        exists|i: int| 0 <= i < self.pairs@.len() && self.pairs@[i].0@ == k
    }

    pub open spec fn spec_index_of(&self, k: Seq<char>) -> int {
        choose|i: int| 0 <= i < self.pairs@.len() && self.pairs@[i].0@ == k
    }

    pub open spec fn spec_at(&self, k: Seq<char>) -> T {
        self.pairs@[self.spec_index_of(k)].1
    }

    /// Well-formed: keys strictly ascending, hence pairwise distinct.
    pub open spec fn wf(&self) -> bool {
        forall|i: int, j: int|
            0 <= i < j < self.pairs@.len() ==> lex_lt(
                #[trigger] self.pairs@[i].0@,
                #[trigger] self.pairs@[j].0@,
            )
    }

    /// In a well-formed table distinct positions hold distinct keys.
    pub proof fn lemma_keys_distinct(&self)
        requires
            self.wf(),
        ensures
            forall|i: int, j: int|
                0 <= i < self.pairs@.len() && 0 <= j < self.pairs@.len() && i != j
                    ==> #[trigger] self.pairs@[i].0@ != #[trigger] self.pairs@[j].0@,
    {
        assert forall|i: int, j: int|
            0 <= i < self.pairs@.len() && 0 <= j < self.pairs@.len() && i != j
            implies #[trigger] self.pairs@[i].0@ != #[trigger] self.pairs@[j].0@ by {
            lemma_lex_lt_trichotomy(self.pairs@[i].0@, self.pairs@[j].0@);
        }
    }

    /// A key present at position `i` is the key `spec_index_of` finds.
    pub proof fn lemma_index_of(&self, i: int)
        requires
            self.wf(),
            0 <= i < self.pairs@.len(),
        ensures
            self.spec_contains(self.pairs@[i].0@),
            self.spec_index_of(self.pairs@[i].0@) == i,
            self@[self.pairs@[i].0@] == self.pairs@[i].1,
            self@.dom().contains(self.pairs@[i].0@),
    {
        self.lemma_keys_distinct();
    }

    pub fn new() -> (r: Self)
        ensures
            r.wf(),
            r.spec_len() == 0,
            r@ == Map::<Seq<char>, T>::empty(),
    {
        let r = OrdMap { pairs: Vec::new() };
        proof {
            assert(r@ =~= Map::<Seq<char>, T>::empty());
        }
        r
    }

    pub fn len(&self) -> (r: usize)
        ensures
            r == self.spec_len(),
    {
        self.pairs.len()
    }

    pub fn key_at(&self, i: usize) -> (r: &String)
        requires
            i < self.spec_len(),
        ensures
            r@ == self.spec_keys()[i as int],
    {
        &self.pairs[i].0
    }

    pub fn val_at(&self, i: usize) -> (r: &T)
        requires
            i < self.spec_len(),
        ensures
            *r == self.spec_vals()[i as int],
    {
        &self.pairs[i].1
    }

    pub fn contains_key(&self, k: &str) -> (r: bool)
        requires
            self.wf(),
        ensures
            r == self.spec_contains(k@),
            r == self@.dom().contains(k@),
    {
        let mut i: usize = 0;
        let n = self.pairs.len();
        while i < n
            invariant
                n == self.pairs@.len(),
                0 <= i <= n,
                forall|j: int| 0 <= j < i ==> #[trigger] self.pairs@[j].0@ != k@,
            decreases n - i,
        {
            if str_eq(self.pairs[i].0.as_str(), k) {
                return true;
            }
            i = i + 1;
        }
        false
    }

    pub fn get(&self, k: &str) -> (r: Option<&T>)
        requires
            self.wf(),
        ensures
            r is Some <==> self.spec_contains(k@),
            r matches Some(v) ==> self.spec_contains(k@) && *v == self@[k@] && *v == self.spec_at(
                k@,
            ),
    {
        let mut i: usize = 0;
        let n = self.pairs.len();
        while i < n
            invariant
                n == self.pairs@.len(),
                0 <= i <= n,
                self.wf(),
                forall|j: int| 0 <= j < i ==> #[trigger] self.pairs@[j].0@ != k@,
            decreases n - i,
        {
            if str_eq(self.pairs[i].0.as_str(), k) {
                proof {
                    self.lemma_index_of(i as int);
                }
                return Some(&self.pairs[i].1);
            }
            i = i + 1;
        }
        None
    }

    /// Inserts `k -> val` at its sorted position; refuses a key that is
    /// already present (the caller surfaces that as a duplicate-identifier
    /// error). Returns whether the entry was inserted.
    pub fn insert_or_fail(&mut self, k: String, val: T) -> (r: bool)
        requires
            old(self).wf(),
        ensures
            final(self).wf(),
            r == !old(self).spec_contains(k@),
            r ==> final(self)@ == old(self)@.insert(k@, val),
            r ==> final(self).spec_len() == old(self).spec_len() + 1,
            r ==> (forall|k2: Seq<char>|
                #[trigger] final(self).spec_contains(k2) <==> (old(self).spec_contains(k2) || k2
                    == k@)),
            r ==> (forall|k2: Seq<char>|
                old(self).spec_contains(k2) && k2 != k@ ==> #[trigger] final(self).spec_at(k2)
                    == old(self).spec_at(k2)),
            r ==> final(self).spec_at(k@) == val,
            !r ==> *final(self) == *old(self),
    {
        let n = self.pairs.len();
        let mut i: usize = 0;
        while i < n && str_lt(self.pairs[i].0.as_str(), k.as_str())
            invariant
                n == self.pairs@.len(),
                0 <= i <= n,
                self.wf(),
                forall|j: int| 0 <= j < i ==> lex_lt(#[trigger] self.pairs@[j].0@, k@),
            decreases n - i,
        {
            i = i + 1;
        }
        proof {
            assert forall|j: int| 0 <= j < i implies #[trigger] self.pairs@[j].0@ != k@ by {
                lemma_lex_lt_trichotomy(self.pairs@[j].0@, k@);
            }
        }
        if i < n {
            if str_eq(self.pairs[i].0.as_str(), k.as_str()) {
                return false;
            }
            proof {
                lemma_lex_lt_trichotomy(self.pairs@[i as int].0@, k@);
                assert(lex_lt(k@, self.pairs@[i as int].0@));
                assert forall|j: int| i <= j < n implies lex_lt(k@, #[trigger] self.pairs@[j].0@) by {
                    if j > i {
                        lemma_lex_lt_trans(k@, self.pairs@[i as int].0@, self.pairs@[j].0@);
                    }
                }
                assert forall|j: int| 0 <= j < n implies #[trigger] self.pairs@[j].0@ != k@ by {
                    lemma_lex_lt_trichotomy(self.pairs@[j].0@, k@);
                }
            }
        }
        let ghost olds = *self;
        let ghost kview = k@;
        proof {
            olds.pairs@.insert_ensures(i as int, (k, val));
        }
        self.pairs.insert(i, (k, val));
        proof {
            assert forall|p: int, q: int|
                0 <= p < q < self.pairs@.len() implies lex_lt(
                #[trigger] self.pairs@[p].0@,
                #[trigger] self.pairs@[q].0@,
            ) by {
                if q < i {
                } else if p < i && q == i {
                } else if p < i && q > i {
                    assert(self.pairs@[p].0@ == olds.pairs@[p].0@);
                    assert(self.pairs@[q].0@ == olds.pairs@[q - 1].0@);
                    if q - 1 == p {
                        lemma_lex_lt_trans(self.pairs@[p].0@, kview, olds.pairs@[q - 1].0@);
                    }
                } else if p == i {
                } else {
                    assert(self.pairs@[p].0@ == olds.pairs@[p - 1].0@);
                    assert(self.pairs@[q].0@ == olds.pairs@[q - 1].0@);
                }
            }
            assert(self.wf());
            assert forall|k2: Seq<char>| #![auto] true implies
                (self.spec_contains(k2) == (olds.spec_contains(k2) || k2 == kview)) by {
                if self.spec_contains(k2) {
                    let w = choose|w: int|
                        0 <= w < self.pairs@.len() && self.pairs@[w].0@ == k2;
                    if w < i {
                        assert(olds.pairs@[w].0@ == k2);
                    } else if w == i {
                    } else {
                        assert(olds.pairs@[w - 1].0@ == k2);
                    }
                }
                if olds.spec_contains(k2) {
                    let w = choose|w: int|
                        0 <= w < olds.pairs@.len() && olds.pairs@[w].0@ == k2;
                    if w < i {
                        assert(self.pairs@[w].0@ == k2);
                    } else {
                        assert(self.pairs@[w + 1].0@ == k2);
                    }
                }
                if k2 == kview {
                    assert(self.pairs@[i as int].0@ == k2);
                }
            }
            assert forall|k2: Seq<char>| self.spec_contains(k2) implies
                self@[k2] == olds@.insert(kview, val)[k2] by {
                let w = self.spec_index_of(k2);
                self.lemma_index_of(w);
                if k2 == kview {
                    self.lemma_index_of(i as int);
                } else {
                    let w2 = choose|w2: int|
                        0 <= w2 < olds.pairs@.len() && olds.pairs@[w2].0@ == k2;
                    olds.lemma_index_of(w2);
                    if w2 < i {
                        assert(self.pairs@[w2].0@ == k2);
                        self.lemma_index_of(w2);
                    } else {
                        assert(self.pairs@[w2 + 1].0@ == k2);
                        self.lemma_index_of(w2 + 1);
                    }
                }
            }
            assert(self@ =~= olds@.insert(kview, val));
            assert forall|k2: Seq<char>|
                olds.spec_contains(k2) && k2 != kview implies #[trigger] self.spec_at(k2)
                == olds.spec_at(k2) by {
                let w2 = choose|w2: int|
                    0 <= w2 < olds.pairs@.len() && olds.pairs@[w2].0@ == k2;
                olds.lemma_index_of(w2);
                if w2 < i {
                    assert(self.pairs@[w2].0@ == k2);
                    assert(self.pairs@[w2].1 == olds.pairs@[w2].1);
                    self.lemma_index_of(w2);
                } else {
                    assert(self.pairs@[w2 + 1].0@ == k2);
                    assert(self.pairs@[w2 + 1].1 == olds.pairs@[w2].1);
                    self.lemma_index_of(w2 + 1);
                }
            }
            self.lemma_index_of(i as int);
            assert(self.spec_at(kview) == val);
        }
        true
    }
}

/// Two strictly ascending key sequences with the same membership are equal.
pub proof fn lemma_sorted_unique_canonical(s: Seq<Seq<char>>, t: Seq<Seq<char>>)
    requires
        forall|i: int, j: int| 0 <= i < j < s.len() ==> lex_lt(#[trigger] s[i], #[trigger] s[j]),
        forall|i: int, j: int| 0 <= i < j < t.len() ==> lex_lt(#[trigger] t[i], #[trigger] t[j]),
        forall|k: Seq<char>| s.contains(k) <==> t.contains(k),
    ensures
        s == t,
    decreases s.len(),
{
    if s.len() == 0 {
        if t.len() > 0 {
            assert(t.contains(t[0]));
            assert(s.contains(t[0]));
        }
        assert(s =~= t);
    } else {
        assert(s.contains(s[0]));
        assert(t.contains(s[0]));
        assert(s.contains(t[0]));
        let a = choose|a: int| 0 <= a < t.len() && t[a] == s[0];
        let b = choose|b: int| 0 <= b < s.len() && s[b] == t[0];
        lemma_lex_lt_trichotomy(s[0], t[0]);
        if s[0] != t[0] {
            if a > 0 {
                assert(lex_lt(t[0], t[a]));
            }
            if b > 0 {
                assert(lex_lt(s[0], s[b]));
            }
        }
        assert(s[0] == t[0]);
        let s1 = s.subrange(1, s.len() as int);
        let t1 = t.subrange(1, t.len() as int);
        assert forall|k: Seq<char>| s1.contains(k) <==> t1.contains(k) by {
            lemma_lex_lt_trichotomy(k, s[0]);
            if s1.contains(k) {
                let w = choose|w: int| 0 <= w < s1.len() && s1[w] == k;
                assert(s[w + 1] == k);
                assert(lex_lt(s[0], k));
                assert(t.contains(k));
                let w2 = choose|w2: int| 0 <= w2 < t.len() && t[w2] == k;
                if w2 == 0 {
                    lemma_lex_lt_trichotomy(s[0], k);
                } else {
                    assert(t1[w2 - 1] == k);
                }
            }
            if t1.contains(k) {
                let w = choose|w: int| 0 <= w < t1.len() && t1[w] == k;
                assert(t[w + 1] == k);
                assert(lex_lt(t[0], k));
                assert(s.contains(k));
                let w2 = choose|w2: int| 0 <= w2 < s.len() && s[w2] == k;
                if w2 == 0 {
                    lemma_lex_lt_trichotomy(t[0], k);
                } else {
                    assert(s1[w2 - 1] == k);
                }
            }
        }
        lemma_sorted_unique_canonical(s1, t1);
        assert forall|j: int| 0 <= j < s.len() implies s[j] == t[j] by {
            if j > 0 {
                assert(s1[j - 1] == t1[j - 1]);
            }
        }
        assert(s =~= t);
    }
}

} // verus!
