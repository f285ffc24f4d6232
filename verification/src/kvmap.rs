//! A verified string-keyed map, kept as an association list with unique keys.
//!
//! Both tiers of the agent state store and the operation ledger rest on this
//! type; its contracts speak of the abstract `Map` it denotes.

use vstd::prelude::*;

use crate::text::str_eq;

verus! {

/// The map denoted by an association sequence; later pairs win.
pub open spec fn map_of<VM>(pairs: Seq<(Seq<char>, VM)>) -> Map<Seq<char>, VM>
    decreases pairs.len(),
{
    if pairs.len() == 0 {
        Map::empty()
    } else {
        map_of(pairs.drop_last()).insert(pairs.last().0, pairs.last().1)
    }
}

/// No two pairs share a key.
pub open spec fn unique_keys<VM>(pairs: Seq<(Seq<char>, VM)>) -> bool {
    forall|i: int, j: int|
        0 <= i < j < pairs.len() ==> (#[trigger] pairs[i]).0 != (#[trigger] pairs[j]).0
}

/// A key that appears in no pair is not in the denoted map.
pub proof fn lemma_map_of_not_contains<VM>(pairs: Seq<(Seq<char>, VM)>, key: Seq<char>)
    requires
        forall|i: int| 0 <= i < pairs.len() ==> (#[trigger] pairs[i]).0 != key,
    ensures
        !map_of(pairs).contains_key(key),
    decreases pairs.len(),
{
    if pairs.len() > 0 {
        lemma_map_of_not_contains(pairs.drop_last(), key);
    }
}

/// Under unique keys, the denoted map agrees with every pair.
pub proof fn lemma_map_of_at<VM>(pairs: Seq<(Seq<char>, VM)>, i: int)
    requires
        unique_keys(pairs),
        0 <= i < pairs.len(),
    ensures
        map_of(pairs).contains_key(pairs[i].0),
        map_of(pairs)[pairs[i].0] == pairs[i].1,
    decreases pairs.len(),
{
    if i == pairs.len() - 1 {
    } else {
        lemma_map_of_at(pairs.drop_last(), i);
    }
}

/// Every key of the denoted map comes from some pair.
pub proof fn lemma_map_of_dom<VM>(pairs: Seq<(Seq<char>, VM)>)
    ensures
        forall|k: Seq<char>|
            #[trigger] map_of(pairs).contains_key(k) ==> exists|i: int|
                0 <= i < pairs.len() && (#[trigger] pairs[i]).0 == k,
    decreases pairs.len(),
{
    if pairs.len() > 0 {
        lemma_map_of_dom(pairs.drop_last());
        assert forall|k: Seq<char>| #[trigger] map_of(pairs).contains_key(k) implies exists|i: int|
            0 <= i < pairs.len() && (#[trigger] pairs[i]).0 == k by {
            if k == pairs.last().0 {
                assert(pairs[pairs.len() - 1].0 == k);
            } else {
                assert(map_of(pairs.drop_last()).contains_key(k));
                let i = choose|i: int|
                    0 <= i < pairs.drop_last().len() && (#[trigger] pairs.drop_last()[i]).0 == k;
                assert(pairs[i].0 == k);
            }
        }
    }
}

/// Removing the pair that holds a key removes that key from the denoted map.
pub proof fn lemma_map_of_remove_idx<VM>(pairs: Seq<(Seq<char>, VM)>, i: int)
    requires
        unique_keys(pairs),
        0 <= i < pairs.len(),
    ensures
        map_of(pairs.remove(i)) =~= map_of(pairs).remove(pairs[i].0),
    decreases pairs.len(),
{
    if i == pairs.len() - 1 {
        assert(pairs.remove(i) =~= pairs.drop_last());
        assert forall|j: int| 0 <= j < pairs.drop_last().len() implies (#[trigger] pairs.drop_last(
        )[j]).0 != pairs[i].0 by {
            assert(pairs[j].0 != pairs[i].0);
        }
        lemma_map_of_not_contains(pairs.drop_last(), pairs[i].0);
    } else {
        assert(unique_keys(pairs.drop_last()));
        lemma_map_of_remove_idx(pairs.drop_last(), i);
        assert(pairs.remove(i) =~= pairs.drop_last().remove(i).push(pairs.last()));
        assert(pairs.remove(i).drop_last() =~= pairs.drop_last().remove(i));
        assert(pairs.remove(i).last() == pairs.last());
        assert(pairs[i].0 != pairs.last().0);
    }
}

/// A string-keyed map held as an association list with unique keys.
#[derive(Debug)]
pub struct KvMap<T> {
    pairs: Vec<(String, T)>,
}

impl<T: View> View for KvMap<T> {
    type V = Map<Seq<char>, T::V>;

    open spec fn view(&self) -> Map<Seq<char>, T::V> {
        map_of(self.entries())
    }
}

impl<T: View> KvMap<T> {
    /// The pair models, in storage order.
    pub closed spec fn entries(&self) -> Seq<(Seq<char>, T::V)> {
        Seq::new(self.pairs@.len(), |i: int| (self.pairs@[i].0@, self.pairs@[i].1@))
    }

    /// Well-formedness: no key is held twice. Constructors establish it and
    /// every method preserves it.
    pub open spec fn wf(&self) -> bool {
        unique_keys(self.entries())
    }

    /// Links the pair sequence to the denoted map.
    pub proof fn lemma_entries(&self)
        requires
            self.wf(),
        ensures
            forall|i: int|
                0 <= i < self.entries().len() ==> self@.contains_key(
                    (#[trigger] self.entries()[i]).0,
                ) && self@[self.entries()[i].0] == self.entries()[i].1,
            forall|k: Seq<char>|
                #[trigger] self@.contains_key(k) ==> exists|i: int|
                    0 <= i < self.entries().len() && (#[trigger] self.entries()[i]).0 == k,
    {
        lemma_map_of_dom(self.entries());
        assert forall|i: int| 0 <= i < self.entries().len() implies self@.contains_key(
            (#[trigger] self.entries()[i]).0,
        ) && self@[self.entries()[i].0] == self.entries()[i].1 by {
            lemma_map_of_at(self.entries(), i);
        }
    }

    pub fn new() -> (r: Self)
        ensures
            r.wf(),
            r@ == Map::<Seq<char>, T::V>::empty(),
            r.entries() == Seq::<(Seq<char>, T::V)>::empty(),
    {
        let r = KvMap { pairs: Vec::new() };
        proof {
            assert(r.entries() =~= Seq::<(Seq<char>, T::V)>::empty());
        }
        r
    }

    /// The position of `key` among the pairs, if it is held.
    #[verifier::loop_isolation(false)]
    fn index_of(&self, key: &str) -> (r: Option<usize>)
        ensures
            match r {
                Some(i) => i < self.entries().len() && self.entries()[i as int].0 == key@,
                None => forall|i: int|
                    0 <= i < self.entries().len() ==> (#[trigger] self.entries()[i]).0 != key@,
            },
    {
        let mut i: usize = 0;
        while i < self.pairs.len()
            invariant
                i <= self.pairs@.len(),
                forall|j: int| 0 <= j < i ==> (#[trigger] self.entries()[j]).0 != key@,
            decreases self.pairs@.len() - i,
        {
            if str_eq(self.pairs[i].0.as_str(), key) {
                return Some(i);
            }
            i += 1;
        }
        None
    }

    /// Number of keys held.
    pub fn len(&self) -> (r: usize)
        ensures
            r == self.entries().len(),
    {
        self.pairs.len()
    }

    /// The key of the pair at position `i`.
    pub fn key_at(&self, i: usize) -> (r: &String)
        requires
            i < self.entries().len(),
        ensures
            r@ == self.entries()[i as int].0,
    {
        &self.pairs[i].0
    }

    /// The value of the pair at position `i`.
    pub fn value_at(&self, i: usize) -> (r: &T)
        requires
            i < self.entries().len(),
        ensures
            r@ == self.entries()[i as int].1,
    {
        &self.pairs[i].1
    }

    pub fn contains_key(&self, key: &str) -> (r: bool)
        requires
            self.wf(),
        ensures
            r == self@.contains_key(key@),
    {
        match self.index_of(key) {
            Some(i) => {
                proof {
                    lemma_map_of_at(self.entries(), i as int);
                }
                true
            },
            None => {
                proof {
                    lemma_map_of_not_contains(self.entries(), key@);
                }
                false
            },
        }
    }

    /// A borrowed read of the value held for `key`.
    pub fn get(&self, key: &str) -> (r: Option<&T>)
        requires
            self.wf(),
        ensures
            match r {
                Some(v) => self@.contains_key(key@) && v@ == self@[key@],
                None => !self@.contains_key(key@),
            },
    {
        match self.index_of(key) {
            Some(i) => {
                proof {
                    lemma_map_of_at(self.entries(), i as int);
                }
                Some(&self.pairs[i].1)
            },
            None => {
                proof {
                    lemma_map_of_not_contains(self.entries(), key@);
                }
                None
            },
        }
    }

    /// Binds `key` to `value`; an earlier binding is replaced.
    pub fn insert(&mut self, key: String, value: T)
        requires
            old(self).wf(),
        ensures
            final(self).wf(),
            final(self)@ == old(self)@.insert(key@, value@),
    {
        let ghost old_entries = self.entries();
        let idx = self.index_of(&key);
        match idx {
            Some(i) => {
                let _ = self.pairs.remove(i);
                proof {
                    assert(self.entries() =~= old_entries.remove(i as int));
                    lemma_map_of_remove_idx(old_entries, i as int);
                }
                let ghost mid_entries = self.entries();
                self.pairs.push((key, value));
                proof {
                    assert(self.entries().drop_last() =~= mid_entries);
                    assert(self.entries().last() == (key@, value@));
                    assert(self@ =~= old(self)@.insert(key@, value@));
                    let ghost n = self.entries().len();
                    assert(unique_keys(mid_entries)) by {
                        assert forall|a: int, b: int|
                            0 <= a < b < mid_entries.len() implies (#[trigger] mid_entries[a]).0
                            != (#[trigger] mid_entries[b]).0 by {
                            let a0: int = if a < i { a } else { a + 1 };
                            let b0: int = if b < i { b } else { b + 1 };
                            assert(mid_entries[a] == old_entries[a0]);
                            assert(mid_entries[b] == old_entries[b0]);
                        }
                    }
                    assert forall|a: int, b: int|
                        0 <= a < b < n implies (#[trigger] self.entries()[a]).0 != (
                        #[trigger] self.entries()[b]).0 by {
                        if b == n - 1 {
                            assert(self.entries()[a] == mid_entries[a]);
                            let a0: int = if a < i { a } else { a + 1 };
                            assert(mid_entries[a] == old_entries[a0]);
                            assert(old_entries[a0].0 != key@);
                        } else {
                            assert(self.entries()[a] == mid_entries[a]);
                            assert(self.entries()[b] == mid_entries[b]);
                        }
                    }
                }
            },
            None => {
                self.pairs.push((key, value));
                proof {
                    assert(self.entries().drop_last() =~= old_entries);
                    assert(self.entries().last() == (key@, value@));
                    assert(self@ =~= old(self)@.insert(key@, value@));
                    let ghost n = self.entries().len();
                    assert forall|a: int, b: int|
                        0 <= a < b < n implies (#[trigger] self.entries()[a]).0 != (
                        #[trigger] self.entries()[b]).0 by {
                        if b == n - 1 {
                            assert(self.entries()[a] == old_entries[a]);
                            assert(old_entries[a].0 != key@);
                        } else {
                            assert(self.entries()[a] == old_entries[a]);
                            assert(self.entries()[b] == old_entries[b]);
                        }
                    }
                }
            },
        }
    }

    /// Unbinds `key`; reports whether a binding was removed.
    pub fn remove(&mut self, key: &str) -> (r: bool)
        requires
            old(self).wf(),
        ensures
            final(self).wf(),
            final(self)@ == old(self)@.remove(key@),
            r == old(self)@.contains_key(key@),
    {
        let ghost old_entries = self.entries();
        let idx = self.index_of(key);
        match idx {
            Some(i) => {
                proof {
                    lemma_map_of_at(old_entries, i as int);
                }
                let _ = self.pairs.remove(i);
                proof {
                    assert(self.entries() =~= old_entries.remove(i as int));
                    lemma_map_of_remove_idx(old_entries, i as int);
                    assert(self@ =~= old(self)@.remove(key@));
                }
                true
            },
            None => {
                proof {
                    lemma_map_of_not_contains(old_entries, key@);
                    assert(self@ =~= old(self)@.remove(key@));
                }
                false
            },
        }
    }

    /// Drops every binding.
    pub fn clear(&mut self)
        ensures
            final(self).wf(),
            final(self)@ == Map::<Seq<char>, T::V>::empty(),
            final(self).entries() == Seq::<(Seq<char>, T::V)>::empty(),
    {
        self.pairs.clear();
        proof {
            assert(self.entries() =~= Seq::<(Seq<char>, T::V)>::empty());
        }
    }

    /// The keys held, in storage order.
    #[verifier::loop_isolation(false)]
    pub fn keys(&self) -> (r: Vec<String>)
        ensures
            r@.len() == self.entries().len(),
            forall|i: int|
                0 <= i < r@.len() ==> (#[trigger] r@[i])@ == self.entries()[i].0,
    {
        let mut out: Vec<String> = Vec::new();
        let mut i: usize = 0;
        while i < self.pairs.len()
            invariant
                i <= self.pairs@.len(),
                out@.len() == i,
                forall|j: int| 0 <= j < i ==> (#[trigger] out@[j])@ == self.entries()[j].0,
            decreases self.pairs@.len() - i,
        {
            out.push(self.pairs[i].0.clone());
            i += 1;
        }
        out
    }
}

} // verus!
