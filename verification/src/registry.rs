//! The storage registry: a mapping from profile name to a configured backend
//! capability, populated once at startup and only looked up afterwards.
//!
//! The capability is a type parameter: the bridge instantiates it with a real
//! backend handle, and the in-memory model instantiates it with a model
//! store. Names are kept as the raw bytes the guest supplied.

use vstd::prelude::*;

verus! {

pub struct RegEntry<T> {
    pub name: Vec<u8>,
    pub value: T,
}

pub struct Registry<T> {
    entries: Vec<RegEntry<T>>,
}

impl<T> Registry<T> {
    /// The registered (name, capability) pairs, in registration order.
    pub closed spec fn entry_seq(&self) -> Seq<(Seq<u8>, T)> {
        Seq::new(self.entries@.len(), |i: int| (self.entries@[i].name@, self.entries@[i].value))
    }

    /// Well-formed: no profile name is registered twice.
    pub open spec fn wf(&self) -> bool {
        forall|i: int, j: int|
            0 <= i < j < self.entry_seq().len() ==> self.entry_seq()[i].0 != self.entry_seq()[j].0
    }

    pub open spec fn contains_name(&self, n: Seq<u8>) -> bool {
        exists|i: int| 0 <= i < self.entry_seq().len() && self.entry_seq()[i].0 == n
    }

    pub open spec fn index_of(&self, n: Seq<u8>) -> int {
        choose|i: int| 0 <= i < self.entry_seq().len() && self.entry_seq()[i].0 == n
    }

    pub open spec fn value_of(&self, n: Seq<u8>) -> T {
        self.entry_seq()[self.index_of(n)].1
    }

    /// The registry as a mapping from profile name to capability.
    pub open spec fn as_map(&self) -> Map<Seq<u8>, T> {
        Map::new(|n: Seq<u8>| self.contains_name(n), |n: Seq<u8>| self.value_of(n))
    }

    /// In a well-formed registry, any entry holding name `n` holds the
    /// capability the registry maps `n` to.
    pub proof fn lemma_witness_value(&self, n: Seq<u8>, j: int)
        requires
            self.wf(),
            0 <= j < self.entry_seq().len(),
            self.entry_seq()[j].0 == n,
        ensures
            self.contains_name(n),
            self.as_map().contains_key(n),
            self.as_map()[n] == self.entry_seq()[j].1,
    {
        let k = self.index_of(n);
        assert(0 <= k < self.entry_seq().len() && self.entry_seq()[k].0 == n);
        if k != j {
            assert(self.entry_seq()[k].0 != self.entry_seq()[j].0);
        }
    }

    /// An empty registry.
    pub fn new() -> (r: Registry<T>)
        ensures
            r.wf(),
            r.entry_seq().len() == 0,
            r.as_map() == Map::<Seq<u8>, T>::empty(),
    {
        let r = Registry { entries: Vec::new() };
        proof {
            assert(r.as_map() =~= Map::<Seq<u8>, T>::empty());
        }
        r
    }

    /// The number of registered profiles.
    pub fn len(&self) -> (n: usize)
        ensures
            n == self.entry_seq().len(),
    {
        self.entries.len()
    }

    /// Registers `value` under `name`. A name already present is refused:
    /// profiles are immutable bindings, created once at startup.
    pub fn register(&mut self, name: Vec<u8>, value: T) -> (ok: bool)
        requires
            old(self).wf(),
        ensures
            final(self).wf(),
            ok == !old(self).contains_name(name@),
            ok ==> final(self).entry_seq() == old(self).entry_seq().push((name@, value)),
            ok ==> final(self).as_map() == old(self).as_map().insert(name@, value),
            !ok ==> final(self).entry_seq() == old(self).entry_seq(),
            !ok ==> final(self).as_map() == old(self).as_map(),
    {
        if self.find_index(&name).is_some() {
            return false;
        }
        let ghost n = name@;
        let ghost v = value;
        self.entries.push(RegEntry { name, value });
        proof {
            let old_seq = old(self).entry_seq();
            let m = old_seq.len() as int;
            assert(self.entry_seq() =~= old_seq.push((n, v)));
            assert forall|i: int, j: int|
                0 <= i < j < self.entry_seq().len() implies
                self.entry_seq()[i].0 != self.entry_seq()[j].0 by {
                if j == m && self.entry_seq()[i].0 == n {
                    assert(old_seq[i].0 == n);
                    assert(old(self).contains_name(n));
                }
            }
            assert forall|k: Seq<u8>| #[trigger] self.as_map().contains_key(k) implies
                old(self).as_map().insert(n, v).contains_key(k) by {
                let i = choose|i: int|
                    0 <= i < self.entry_seq().len() && self.entry_seq()[i].0 == k;
                if i < m {
                    assert(old_seq[i].0 == k);
                    assert(old(self).contains_name(k));
                }
            }
            assert forall|k: Seq<u8>| #[trigger] old(self).as_map().insert(n, v).contains_key(k)
                implies self.as_map().contains_key(k) by {
                if k == n {
                    assert(self.entry_seq()[m].0 == k);
                } else {
                    let i = choose|i: int| 0 <= i < old_seq.len() && old_seq[i].0 == k;
                    assert(self.entry_seq()[i].0 == k);
                }
            }
            assert forall|k: Seq<u8>| self.as_map().contains_key(k) implies
                #[trigger] self.as_map()[k] == old(self).as_map().insert(n, v)[k] by {
                if k == n {
                    self.lemma_witness_value(k, m);
                } else {
                    let i = choose|i: int|
                        0 <= i < self.entry_seq().len() && self.entry_seq()[i].0 == k;
                    assert(i < m && old_seq[i].0 == k);
                    self.lemma_witness_value(k, i);
                    old(self).lemma_witness_value(k, i);
                }
            }
            assert(self.as_map() =~= old(self).as_map().insert(n, v));
        }
        true
    }

    /// The position of `name` among the entries, if registered.
    pub fn find_index(&self, name: &Vec<u8>) -> (r: Option<usize>)
        ensures
            r is Some <==> self.contains_name(name@),
            r matches Some(i) ==> 0 <= i < self.entry_seq().len()
                && self.entry_seq()[i as int].0 == name@,
    {
        let n = self.entries.len();
        let mut i: usize = 0;
        while i < n
            invariant
                i <= n,
                n == self.entry_seq().len(),
                forall|j: int| 0 <= j < i ==> self.entry_seq()[j].0 != name@,
            decreases n - i,
        {
            if crate::bytes::bytes_eq(&self.entries[i].name, name) {
                assert(self.entry_seq()[i as int].0 == name@);
                return Some(i);
            }
            i = i + 1;
        }
        None
    }

    /// Concurrency-safe lookup of the capability registered under `name`:
    /// nothing when the name is unknown, otherwise a borrow of the
    /// capability. In a well-formed registry the borrow is exactly the
    /// capability `as_map` binds to `name`.
    pub fn resolve(&self, name: &Vec<u8>) -> (r: Option<&T>)
        requires
            self.wf(),
        ensures
            r is Some <==> self.contains_name(name@),
            r matches Some(v) ==> self.as_map().contains_key(name@)
                && *v == self.as_map()[name@],
    {
        match self.find_index(name) {
            None => None,
            Some(i) => {
                proof {
                    self.lemma_witness_value(name@, i as int);
                }
                Some(&self.entries[i].value)
            },
        }
    }
}

} // verus!
