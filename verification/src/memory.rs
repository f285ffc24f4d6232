//! The persistent backend behind an agent's state store: a contracted trait
//! that implementations establish, and a verified in-memory implementation.
//!
//! Every method is independently fallible; the contracts say exactly what the
//! durable contents look like on success and that a failure leaves them as
//! they were.

use vstd::prelude::*;

use crate::Error;
use crate::kvmap::KvMap;
use crate::text::has_prefix;
use crate::value::{ValModel, Value};

verus! {

/// The model of an optional prefix argument.
pub open spec fn opt_prefix(p: Option<&str>) -> Option<Seq<char>> {
    match p {
        Some(s) => Some(s@),
        None => None,
    }
}

/// Whether `k` passes an optional prefix filter.
pub open spec fn prefix_matches(k: Seq<char>, prefix: Option<Seq<char>>) -> bool {
    match prefix {
        Some(p) => p.is_prefix_of(k),
        None => true,
    }
}

/// A durable key/value store.
///
/// Implementations keep `inv` from construction on; `contents` is the map of
/// durable entries their contracts speak of. A backend that can never fail —
/// the in-memory one — says so through `reliable`, and callers are then owed
/// success on every operation.
pub trait MemoryBackend: Sized {
    /// The durable contents.
    spec fn contents(&self) -> Map<Seq<char>, ValModel>;

    /// Whether the backend is in a usable state.
    spec fn inv(&self) -> bool;

    /// Whether this backend's operations can never fail.
    spec fn reliable(&self) -> bool;

    /// Durably binds `key` to `value`.
    fn store(&mut self, key: &str, value: &Value) -> (r: Result<(), Error>)
        requires
            old(self).inv(),
        ensures
            final(self).inv(),
            final(self).reliable() == old(self).reliable(),
            old(self).reliable() ==> r is Ok,
            r is Ok ==> final(self).contents() == old(self).contents().insert(key@, value@),
            r is Err ==> final(self).contents() == old(self).contents(),
    ;

    /// Reads the value bound to `key`, if any.
    fn retrieve(&mut self, key: &str) -> (r: Result<Option<Value>, Error>)
        requires
            old(self).inv(),
        ensures
            final(self).inv(),
            final(self).reliable() == old(self).reliable(),
            old(self).reliable() ==> r is Ok,
            final(self).contents() == old(self).contents(),
            match r {
                Ok(found) => match found {
                    Some(v) => old(self).contents().contains_key(key@) && v@ == old(
                        self,
                    ).contents()[key@],
                    None => !old(self).contents().contains_key(key@),
                },
                Err(_) => true,
            },
    ;

    /// Unbinds `key`; reports whether a binding was removed.
    fn delete(&mut self, key: &str) -> (r: Result<bool, Error>)
        requires
            old(self).inv(),
        ensures
            final(self).inv(),
            final(self).reliable() == old(self).reliable(),
            old(self).reliable() ==> r is Ok,
            match r {
                Ok(was_held) => final(self).contents() == old(self).contents().remove(key@)
                    && was_held == old(self).contents().contains_key(key@),
                Err(_) => final(self).contents() == old(self).contents(),
            },
    ;

    /// The keys held, restricted to an optional prefix: every returned key is
    /// held and passes the filter, every held key that passes the filter is
    /// returned, and no key is returned twice.
    fn list_keys(&self, prefix: Option<&str>) -> (r: Result<Vec<String>, Error>)
        requires
            self.inv(),
        ensures
            self.reliable() ==> r is Ok,
            match r {
                Ok(keys) => {
                    &&& forall|i: int|
                        0 <= i < keys@.len() ==> self.contents().contains_key(
                            (#[trigger] keys@[i])@,
                        ) && prefix_matches(keys@[i]@, opt_prefix(prefix))
                    &&& forall|k: Seq<char>|
                        #[trigger] self.contents().contains_key(k) && prefix_matches(
                            k,
                            opt_prefix(prefix),
                        ) ==> exists|i: int| 0 <= i < keys@.len() && (#[trigger] keys@[i])@ == k
                    &&& forall|i: int, j: int|
                        0 <= i < j < keys@.len() ==> (#[trigger] keys@[i])@ != (
                        #[trigger] keys@[j])@
                },
                Err(_) => true,
            },
    ;

    /// Drops every binding.
    fn clear(&mut self) -> (r: Result<(), Error>)
        requires
            old(self).inv(),
        ensures
            final(self).inv(),
            final(self).reliable() == old(self).reliable(),
            old(self).reliable() ==> r is Ok,
            r is Ok ==> final(self).contents() == Map::<Seq<char>, ValModel>::empty(),
            r is Err ==> final(self).contents() == old(self).contents(),
    ;
}

/// An in-memory backend: durable only for the process lifetime. Its
/// operations never fail.
pub struct InMemoryBackend {
    storage: KvMap<Value>,
}

impl InMemoryBackend {
    pub fn new() -> (r: Self)
        ensures
            r.inv(),
            r.reliable(),
            r.contents() == Map::<Seq<char>, ValModel>::empty(),
    {
        InMemoryBackend { storage: KvMap::new() }
    }
}

impl MemoryBackend for InMemoryBackend {
    closed spec fn contents(&self) -> Map<Seq<char>, ValModel> {
        self.storage@
    }

    closed spec fn inv(&self) -> bool {
        self.storage.wf()
    }

    closed spec fn reliable(&self) -> bool {
        true
    }

    fn store(&mut self, key: &str, value: &Value) -> (r: Result<(), Error>) {
        self.storage.insert(key.to_owned(), value.deep_copy());
        Ok(())
    }

    fn retrieve(&mut self, key: &str) -> (r: Result<Option<Value>, Error>) {
        match self.storage.get(key) {
            Some(v) => Ok(Some(v.deep_copy())),
            None => Ok(None),
        }
    }

    fn delete(&mut self, key: &str) -> (r: Result<bool, Error>) {
        Ok(self.storage.remove(key))
    }

    #[verifier::loop_isolation(false)]
    fn list_keys(&self, prefix: Option<&str>) -> (r: Result<Vec<String>, Error>) {
        proof {
            self.storage.lemma_entries();
        }
        let mut out: Vec<String> = Vec::new();
        let n = self.storage.len();
        let mut i: usize = 0;
        while i < n
            invariant
                n == self.storage.entries().len(),
                i <= n,
                forall|j: int|
                    0 <= j < out@.len() ==> self.contents().contains_key((#[trigger] out@[j])@)
                        && prefix_matches(out@[j]@, opt_prefix(prefix)),
                forall|e: int|
                    0 <= e < i && prefix_matches(
                        (#[trigger] self.storage.entries()[e]).0,
                        opt_prefix(prefix),
                    ) ==> exists|j: int|
                        0 <= j < out@.len() && (#[trigger] out@[j])@ == self.storage.entries()[e].0,
                forall|a: int|
                    0 <= a < out@.len() ==> exists|e: int|
                        0 <= e < i && (#[trigger] out@[a])@ == self.storage.entries()[e].0,
                forall|a: int, b: int|
                    0 <= a < b < out@.len() ==> (#[trigger] out@[a])@ != (#[trigger] out@[b])@,
            decreases n - i,
        {
            let ghost out_snap = out@;
            let key = self.storage.key_at(i);
            let keep = match prefix {
                Some(p) => has_prefix(key.as_str(), p),
                None => true,
            };
            if keep {
                out.push(key.clone());
                proof {
                    assert forall|a: int|
                        0 <= a < out@.len() implies exists|e: int|
                        0 <= e < i + 1 && (#[trigger] out@[a])@ == self.storage.entries()[e].0 by {
                        if a < out_snap.len() {
                            let e = choose|e: int|
                                0 <= e < i && (#[trigger] out_snap[a])@
                                    == self.storage.entries()[e].0;
                            assert((out@[a])@ == self.storage.entries()[e].0);
                        } else {
                            assert((out@[a])@ == self.storage.entries()[i as int].0);
                        }
                    }
                    assert forall|a: int, b: int|
                        0 <= a < b < out@.len() implies (#[trigger] out@[a])@ != (
                    #[trigger] out@[b])@ by {
                        if b == out@.len() - 1 {
                            let e = choose|e: int|
                                0 <= e < i && (#[trigger] out_snap[a])@
                                    == self.storage.entries()[e].0;
                            assert((out@[a])@ == self.storage.entries()[e].0);
                            assert((out@[b])@ == self.storage.entries()[i as int].0);
                        } else {
                            assert((out@[a])@ == out_snap[a]@);
                            assert((out@[b])@ == out_snap[b]@);
                        }
                    }
                }
            }
            proof {
                assert(keep == prefix_matches(
                    self.storage.entries()[i as int].0,
                    opt_prefix(prefix),
                ));
                assert forall|e: int|
                    0 <= e < i + 1 && prefix_matches(
                        (#[trigger] self.storage.entries()[e]).0,
                        opt_prefix(prefix),
                    ) implies exists|j: int|
                    0 <= j < out@.len() && (#[trigger] out@[j])@ == self.storage.entries()[e].0 by {
                    if e < i {
                        let j = choose|j: int|
                            0 <= j < out_snap.len() && (#[trigger] out_snap[j])@
                                == self.storage.entries()[e].0;
                        assert((out@[j])@ == self.storage.entries()[e].0);
                    } else {
                        assert((out@[out@.len() - 1])@ == self.storage.entries()[i as int].0);
                    }
                }
            }
            i += 1;
        }
        proof {
            assert forall|k: Seq<char>|
                #[trigger] self.contents().contains_key(k) && prefix_matches(
                    k,
                    opt_prefix(prefix),
                ) implies exists|j: int| 0 <= j < out@.len() && (#[trigger] out@[j])@ == k by {
                let e = choose|e: int|
                    0 <= e < self.storage.entries().len() && (#[trigger] self.storage.entries()[
                    e]).0 == k;
                assert(prefix_matches(self.storage.entries()[e].0, opt_prefix(prefix)));
            }
            assert(forall|j: int|
                0 <= j < out@.len() ==> self.contents().contains_key((#[trigger] out@[j])@)
                    && prefix_matches(out@[j]@, opt_prefix(prefix)));
        }
        let r = Ok(out);
        proof {
            let keys = r->Ok_0;
            assert(keys == out);
            assert(forall|j: int|
                0 <= j < keys@.len() ==> self.contents().contains_key((#[trigger] keys@[j])@)
                    && prefix_matches(keys@[j]@, opt_prefix(prefix)));
            assert(forall|k: Seq<char>|
                #[trigger] self.contents().contains_key(k) && prefix_matches(
                    k,
                    opt_prefix(prefix),
                ) ==> exists|j: int| 0 <= j < keys@.len() && (#[trigger] keys@[j])@ == k);
        }
        r
    }

    fn clear(&mut self) -> (r: Result<(), Error>) {
        self.storage.clear();
        Ok(())
    }
}

} // verus!
