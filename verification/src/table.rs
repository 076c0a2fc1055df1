//! An association table keyed by strings: headers, query pairs, route
//! parameters and session bags all live in one. Lookups are specified by
//! `lookup_in`, a first-match scan; the table keeps its keys distinct, so
//! the scan direction never shows.
use vstd::prelude::*;
use crate::text::str_eq;

verus! {

/// First value bound to `k`, scanning the pairs from the front.
pub open spec fn lookup_in<T>(pairs: Seq<(Seq<char>, T)>, k: Seq<char>) -> Option<T>
    decreases pairs.len(),
{
    if pairs.len() == 0 {
        None
    } else if pairs[0].0 == k {
        Some(pairs[0].1)
    } else {
        lookup_in(pairs.drop_first(), k)
    }
}

pub proof fn lemma_lookup_first<T>(pairs: Seq<(Seq<char>, T)>, k: Seq<char>, i: int)
    requires
        0 <= i < pairs.len(),
        pairs[i].0 == k,
        forall|j: int| 0 <= j < i ==> pairs[j].0 != k,
    ensures
        lookup_in(pairs, k) == Some(pairs[i].1),
    decreases i,
{
    if i > 0 {
        lemma_lookup_first(pairs.drop_first(), k, i - 1);
    }
}

pub proof fn lemma_lookup_none<T>(pairs: Seq<(Seq<char>, T)>, k: Seq<char>)
    requires
        forall|j: int| 0 <= j < pairs.len() ==> pairs[j].0 != k,
    ensures
        lookup_in(pairs, k) is None,
    decreases pairs.len(),
{
    if pairs.len() > 0 {
        lemma_lookup_none(pairs.drop_first(), k);
    }
}

/// Pairwise-distinct keys.
pub open spec fn distinct_keys<T>(pairs: Seq<(Seq<char>, T)>) -> bool {
    forall|i: int, j: int| 0 <= i < j < pairs.len() ==> pairs[i].0 != pairs[j].0
}

/// An insertion-ordered table from strings to values of `V`.
pub struct Table<V> {
    pub entries: Vec<(String, V)>,
}

/// The tables the server hands around all map strings to strings.
pub type StrMap = Table<String>;

impl<V: View> View for Table<V> {
    type V = Seq<(Seq<char>, V::V)>;

    open spec fn view(&self) -> Seq<(Seq<char>, V::V)> {
        self.pairs()
    }
}

impl<V: View> Table<V> {
    /// The pairs in storage order, as their views.
    pub open spec fn pairs(&self) -> Seq<(Seq<char>, V::V)> {
        Seq::new(self.entries@.len() as nat, |i: int| (self.entries@[i].0@, self.entries@[i].1@))
    }

    /// Keys are pairwise distinct.
    pub open spec fn wf(&self) -> bool {
        distinct_keys(self.pairs())
    }

    pub open spec fn spec_lookup(&self, k: Seq<char>) -> Option<V::V> {
        lookup_in(self.pairs(), k)
    }

    pub open spec fn contains_key(&self, k: Seq<char>) -> bool {
        self.spec_lookup(k) is Some
    }

    pub fn new() -> (r: Self)
        ensures
            r.wf(),
            r.pairs() =~= Seq::<(Seq<char>, V::V)>::empty(),
    {
        let r = Table { entries: Vec::new() };
        proof {
            assert(r.pairs() =~= Seq::<(Seq<char>, V::V)>::empty());
        }
        r
    }

    pub fn len(&self) -> (n: usize)
        ensures
            n == self.pairs().len(),
    {
        self.entries.len()
    }

    /// Index of the entry holding `k`, if any.
    fn position(&self, k: &str) -> (r: Option<usize>)
        ensures
            match r {
                Some(i) => i < self.pairs().len() && self.pairs()[i as int].0 == k@
                    && forall|j: int| 0 <= j < i ==> self.pairs()[j].0 != k@,
                None => forall|j: int| 0 <= j < self.pairs().len()
                    ==> self.pairs()[j].0 != k@,
            },
    {
        let n = self.entries.len();
        let mut i: usize = 0;
        while i < n
            invariant
                0 <= i <= n,
                n == self.entries@.len(),
                forall|j: int| 0 <= j < i ==> self.pairs()[j].0 != k@,
            decreases n - i,
        {
            if str_eq(self.entries[i].0.as_str(), k) {
                return Some(i);
            }
            i += 1;
        }
        None
    }

    /// Appends a pair as it stands, without replacing an earlier binding:
    /// for headers that may legitimately repeat on the wire.
    pub fn push_pair(&mut self, k: String, v: V)
        ensures
            final(self).pairs() =~= old(self).pairs().push((k@, v@)),
    {
        self.entries.push((k, v));
        proof {
            assert(self.pairs() =~= old(self).pairs().push((k@, v@)));
        }
    }

    pub fn get(&self, k: &str) -> (r: Option<&V>)
        ensures
            match r {
                Some(v) => self.spec_lookup(k@) == Some(v@),
                None => self.spec_lookup(k@) is None,
            },
    {
        match self.position(k) {
            Some(i) => {
                proof {
                    lemma_lookup_first(self.pairs(), k@, i as int);
                }
                Some(&self.entries[i].1)
            },
            None => {
                proof {
                    lemma_lookup_none(self.pairs(), k@);
                }
                None
            },
        }
    }

    /// Binds `k` to `v`, replacing any earlier binding: the last write wins,
    /// as a hash-map insert behaves. A fresh key goes to the end.
    pub fn insert(&mut self, k: String, v: V)
        requires
            old(self).wf(),
        ensures
            final(self).wf(),
            final(self).spec_lookup(k@) == Some(v@),
            forall|k2: Seq<char>| k2 != k@
                ==> final(self).spec_lookup(k2) == old(self).spec_lookup(k2),
            !old(self).contains_key(k@)
                ==> final(self).pairs() =~= old(self).pairs().push((k@, v@)),
            final(self).pairs().len() <= old(self).pairs().len() + 1,
    {
        let ghost before = *self;
        let pos = self.position(k.as_str());
        match pos {
            Some(i) => {
                proof {
                    lemma_lookup_first(before.pairs(), k@, i as int);
                }
                self.entries.remove(i);
                proof {
                    assert(self.pairs() =~= before.pairs().remove(i as int));
                }
            },
            None => {
                proof {
                    lemma_lookup_none(before.pairs(), k@);
                }
            },
        }
        let ghost mid = *self;
        self.entries.push((k, v));
        proof {
            assert(self.pairs() =~= mid.pairs().push((k@, v@)));
            let n = self.pairs().len() as int;
            assert(forall|j: int| 0 <= j < n - 1 ==> self.pairs()[j].0 != k@) by {
                assert(forall|j: int| 0 <= j < mid.pairs().len()
                    ==> #[trigger] mid.pairs()[j].0 != k@);
            }
            lemma_lookup_first(self.pairs(), k@, n - 1);
            assert forall|k2: Seq<char>| k2 != k@ implies
                self.spec_lookup(k2) == before.spec_lookup(k2) by {
                Self::lemma_unrelated_key(before.pairs(), mid.pairs(), pos, k@, v@, k2);
            }
        }
    }

    /// Helper for `insert`: removing the entry of `k` (if any) and pushing a
    /// new binding of `k` leaves every other key's lookup unchanged.
    proof fn lemma_unrelated_key(
        before: Seq<(Seq<char>, V::V)>,
        mid: Seq<(Seq<char>, V::V)>,
        pos: Option<usize>,
        k: Seq<char>,
        v: V::V,
        k2: Seq<char>,
    )
        requires
            k2 != k,
            match pos {
                Some(i) => 0 <= i < before.len() && before[i as int].0 == k
                    && mid == before.remove(i as int),
                None => mid == before,
            },
            forall|i: int, j: int| 0 <= i < j < before.len() ==> before[i].0 != before[j].0,
        ensures
            lookup_in(mid.push((k, v)), k2) == lookup_in(before, k2),
    {
        let fin = mid.push((k, v));
        if exists|j: int| 0 <= j < before.len() && before[j].0 == k2 {
            let j0 = choose|j0: int| 0 <= j0 < before.len() && before[j0].0 == k2
                && forall|j: int| 0 <= j < j0 ==> before[j].0 != k2;
            assert(exists|j0: int| 0 <= j0 < before.len() && before[j0].0 == k2
                && forall|j: int| 0 <= j < j0 ==> before[j].0 != k2) by {
                let jw = choose|j: int| 0 <= j < before.len() && before[j].0 == k2;
                Self::lemma_first_occurrence(before, k2, jw);
            }
            lemma_lookup_first(before, k2, j0);
            match pos {
                Some(i) => {
                    let i = i as int;
                    let j1 = if j0 < i { j0 } else { j0 - 1 };
                    assert(fin[j1].0 == k2);
                    assert(forall|j: int| 0 <= j < j1 ==> fin[j].0 != k2);
                    lemma_lookup_first(fin, k2, j1);
                },
                None => {
                    assert(fin[j0].0 == k2);
                    lemma_lookup_first(fin, k2, j0);
                },
            }
        } else {
            lemma_lookup_none(before, k2);
            assert(forall|j: int| 0 <= j < fin.len() ==> fin[j].0 != k2);
            lemma_lookup_none(fin, k2);
        }
    }

    /// There is a least index holding any present key.
    proof fn lemma_first_occurrence(pairs: Seq<(Seq<char>, V::V)>, k2: Seq<char>, jw: int)
        requires
            0 <= jw < pairs.len(),
            pairs[jw].0 == k2,
        ensures
            exists|j0: int| 0 <= j0 < pairs.len() && pairs[j0].0 == k2
                && forall|j: int| 0 <= j < j0 ==> pairs[j].0 != k2,
        decreases jw,
    {
        if exists|j: int| 0 <= j < jw && pairs[j].0 == k2 {
            let jn = choose|j: int| 0 <= j < jw && pairs[j].0 == k2;
            Self::lemma_first_occurrence(pairs, k2, jn);
        } else {
            assert(pairs[jw].0 == k2 && forall|j: int| 0 <= j < jw ==> pairs[j].0 != k2);
        }
    }

    /// Binds `k` to `v` only when `k` is absent: the first write wins, the
    /// rule the query string follows.
    pub fn insert_if_absent(&mut self, k: String, v: V)
        requires
            old(self).wf(),
        ensures
            final(self).wf(),
            old(self).contains_key(k@) ==> *final(self) == *old(self),
            !old(self).contains_key(k@)
                ==> final(self).pairs() =~= old(self).pairs().push((k@, v@)),
            final(self).spec_lookup(k@) == match old(self).spec_lookup(k@) {
                Some(v0) => Some(v0),
                None => Some(v@),
            },
            forall|k2: Seq<char>| k2 != k@
                ==> final(self).spec_lookup(k2) == old(self).spec_lookup(k2),
    {
        let ghost before = *self;
        match self.position(k.as_str()) {
            Some(i) => {
                proof {
                    lemma_lookup_first(before.pairs(), k@, i as int);
                }
            },
            None => {
                proof {
                    lemma_lookup_none(before.pairs(), k@);
                }
                self.entries.push((k, v));
                proof {
                    assert(self.pairs() =~= before.pairs().push((k@, v@)));
                    let n = self.pairs().len() as int;
                    lemma_lookup_first(self.pairs(), k@, n - 1);
                    assert forall|k2: Seq<char>| k2 != k@ implies
                        self.spec_lookup(k2) == before.spec_lookup(k2) by {
                        Self::lemma_unrelated_key(before.pairs(), before.pairs(), None, k@,
                            v@, k2);
                    }
                }
            },
        }
    }
}

impl Table<String> {
    /// An owned copy holding the same pairs.
    pub fn duplicate(&self) -> (r: Self)
        ensures
            r.pairs() == self.pairs(),
    {
        let mut entries: Vec<(String, String)> = Vec::new();
        let n = self.entries.len();
        let mut i: usize = 0;
        while i < n
            invariant
                0 <= i <= n,
                n == self.entries@.len(),
                entries@.len() == i,
                forall|j: int| 0 <= j < i ==> entries@[j].0@ == self.pairs()[j].0
                    && entries@[j].1@ == self.pairs()[j].1,
            decreases n - i,
        {
            let k = self.entries[i].0.clone();
            let v = self.entries[i].1.clone();
            entries.push((k, v));
            i += 1;
        }
        let r = Table { entries };
        proof {
            assert(r.pairs() =~= self.pairs());
        }
        r
    }
}

} // verus!
