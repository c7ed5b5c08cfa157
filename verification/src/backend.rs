//! A model storage backend: the capability interface the bridge consumes —
//! stat, read and write by path — realised as an in-memory table of files.
//! The bridge's handler semantics are stated and proved against this model;
//! a real remote backend replaces it behind the same interface at run time.

use vstd::prelude::*;
use vstd::pervasive::VecAdditionalExecFns;
use crate::bytes::{bytes_eq, copy_bytes};

verus! {

pub struct FileEntry {
    pub name: Vec<u8>,
    pub content: Vec<u8>,
}

/// An in-memory store mapping file names to byte contents.
pub struct MemStore {
    files: Vec<FileEntry>,
}

impl MemStore {
    /// The stored (name, content) pairs, in first-write order.
    pub closed spec fn file_seq(&self) -> Seq<(Seq<u8>, Seq<u8>)> {
        Seq::new(self.files@.len(), |i: int| (self.files@[i].name@, self.files@[i].content@))
    }

    /// Well-formed: no file name occurs twice.
    pub open spec fn wf(&self) -> bool {
        forall|i: int, j: int|
            0 <= i < j < self.file_seq().len() ==> self.file_seq()[i].0 != self.file_seq()[j].0
    }

    pub open spec fn contains_file(&self, n: Seq<u8>) -> bool {
        exists|i: int| 0 <= i < self.file_seq().len() && self.file_seq()[i].0 == n
    }

    pub open spec fn index_of(&self, n: Seq<u8>) -> int {
        choose|i: int| 0 <= i < self.file_seq().len() && self.file_seq()[i].0 == n
    }

    /// The store as a mapping from file name to content.
    pub open spec fn as_map(&self) -> Map<Seq<u8>, Seq<u8>> {
        Map::new(
            |n: Seq<u8>| self.contains_file(n),
            |n: Seq<u8>| self.file_seq()[self.index_of(n)].1,
        )
    }

    /// In a well-formed store, any entry holding name `n` holds the content
    /// the store maps `n` to.
    pub proof fn lemma_witness_content(&self, n: Seq<u8>, j: int)
        requires
            self.wf(),
            0 <= j < self.file_seq().len(),
            self.file_seq()[j].0 == n,
        ensures
            self.contains_file(n),
            self.as_map().contains_key(n),
            self.as_map()[n] == self.file_seq()[j].1,
    {
        let k = self.index_of(n);
        assert(0 <= k < self.file_seq().len() && self.file_seq()[k].0 == n);
        if k != j {
            assert(self.file_seq()[k].0 != self.file_seq()[j].0);
        }
    }

    /// An empty store.
    pub fn new() -> (r: MemStore)
        ensures
            r.wf(),
            r.as_map() == Map::<Seq<u8>, Seq<u8>>::empty(),
    {
        let r = MemStore { files: Vec::new() };
        proof {
            assert(r.as_map() =~= Map::<Seq<u8>, Seq<u8>>::empty());
        }
        r
    }

    /// The position of file `name`, if stored.
    fn find_file(&self, name: &Vec<u8>) -> (r: Option<usize>)
        ensures
            r is Some <==> self.contains_file(name@),
            r matches Some(i) ==> 0 <= i < self.file_seq().len()
                && self.file_seq()[i as int].0 == name@,
    {
        let n = self.files.len();
        let mut i: usize = 0;
        while i < n
            invariant
                i <= n,
                n == self.file_seq().len(),
                forall|j: int| 0 <= j < i ==> self.file_seq()[j].0 != name@,
            decreases n - i,
        {
            if bytes_eq(&self.files[i].name, name) {
                assert(self.file_seq()[i as int].0 == name@);
                return Some(i);
            }
            i = i + 1;
        }
        None
    }

    /// The stored content's length, or nothing when the file is absent.
    pub fn stat(&self, name: &Vec<u8>) -> (r: Option<usize>)
        requires
            self.wf(),
        ensures
            r is Some <==> self.as_map().contains_key(name@),
            r matches Some(n) ==> n == self.as_map()[name@].len(),
    {
        match self.find_file(name) {
            None => None,
            Some(i) => {
                proof {
                    self.lemma_witness_content(name@, i as int);
                }
                Some(self.files[i].content.len())
            },
        }
    }

    /// The full stored content, or nothing when the file is absent.
    pub fn read(&self, name: &Vec<u8>) -> (r: Option<Vec<u8>>)
        requires
            self.wf(),
        ensures
            r is Some <==> self.as_map().contains_key(name@),
            r matches Some(b) ==> b@ == self.as_map()[name@],
    {
        match self.find_file(name) {
            None => None,
            Some(i) => {
                proof {
                    self.lemma_witness_content(name@, i as int);
                }
                Some(copy_bytes(&self.files[i].content))
            },
        }
    }

    /// Stores `data` under `name`, replacing any prior content at that path:
    /// last write wins, no append semantics.
    pub fn write(&mut self, name: &Vec<u8>, data: &Vec<u8>)
        requires
            old(self).wf(),
        ensures
            final(self).wf(),
            final(self).as_map() == old(self).as_map().insert(name@, data@),
    {
        let ghost n = name@;
        let ghost d = data@;
        match self.find_file(name) {
            Some(i) => {
                let entry = FileEntry { name: copy_bytes(name), content: copy_bytes(data) };
                self.files.set(i, entry);
                proof {
                    assert(self.file_seq() =~= old(self).file_seq().update(i as int, (n, d)));
                    self.lemma_update_is_insert(*old(self), n, d, i as int);
                }
            },
            None => {
                let entry = FileEntry { name: copy_bytes(name), content: copy_bytes(data) };
                self.files.push(entry);
                proof {
                    assert(self.file_seq() =~= old(self).file_seq().push((n, d)));
                    self.lemma_append_is_insert(*old(self), n, d);
                }
            },
        }
    }

    /// Replacing the content of the entry already named `n` updates the map
    /// at `n` and nothing else.
    proof fn lemma_update_is_insert(&self, prev: MemStore, n: Seq<u8>, d: Seq<u8>, i: int)
        requires
            prev.wf(),
            0 <= i < prev.file_seq().len(),
            prev.file_seq()[i].0 == n,
            self.file_seq() == prev.file_seq().update(i, (n, d)),
        ensures
            self.wf(),
            self.as_map() == prev.as_map().insert(n, d),
    {
        assert forall|p: int, q: int|
            0 <= p < q < self.file_seq().len() implies
            self.file_seq()[p].0 != self.file_seq()[q].0 by {
            assert(prev.file_seq()[p].0 == self.file_seq()[p].0);
            assert(prev.file_seq()[q].0 == self.file_seq()[q].0);
        }
        assert forall|k: Seq<u8>| #[trigger] self.as_map().contains_key(k) implies
            prev.as_map().insert(n, d).contains_key(k) by {
            let j = choose|j: int| 0 <= j < self.file_seq().len() && self.file_seq()[j].0 == k;
            assert(prev.file_seq()[j].0 == k || k == n);
        }
        assert forall|k: Seq<u8>| #[trigger] prev.as_map().insert(n, d).contains_key(k) implies
            self.as_map().contains_key(k) by {
            if k == n {
                assert(self.file_seq()[i].0 == k);
            } else {
                let j = choose|j: int|
                    0 <= j < prev.file_seq().len() && prev.file_seq()[j].0 == k;
                assert(self.file_seq()[j].0 == k);
            }
        }
        assert forall|k: Seq<u8>| self.as_map().contains_key(k) implies
            #[trigger] self.as_map()[k] == prev.as_map().insert(n, d)[k] by {
            if k == n {
                self.lemma_witness_content(k, i);
            } else {
                let j = choose|j: int|
                    0 <= j < self.file_seq().len() && self.file_seq()[j].0 == k;
                assert(j != i);
                assert(prev.file_seq()[j].0 == k);
                self.lemma_witness_content(k, j);
                prev.lemma_witness_content(k, j);
            }
        }
        assert(self.as_map() =~= prev.as_map().insert(n, d));
    }

    /// Appending an entry for a name not yet stored inserts it into the map
    /// and changes nothing else.
    proof fn lemma_append_is_insert(&self, prev: MemStore, n: Seq<u8>, d: Seq<u8>)
        requires
            prev.wf(),
            !prev.contains_file(n),
            self.file_seq() == prev.file_seq().push((n, d)),
        ensures
            self.wf(),
            self.as_map() == prev.as_map().insert(n, d),
    {
        let m = prev.file_seq().len() as int;
        assert forall|p: int, q: int|
            0 <= p < q < self.file_seq().len() implies
            self.file_seq()[p].0 != self.file_seq()[q].0 by {
            if q == m {
                if self.file_seq()[p].0 == n {
                    assert(prev.file_seq()[p].0 == n);
                    assert(prev.contains_file(n));
                }
            } else {
                assert(prev.file_seq()[p].0 == self.file_seq()[p].0);
                assert(prev.file_seq()[q].0 == self.file_seq()[q].0);
            }
        }
        assert forall|k: Seq<u8>| #[trigger] self.as_map().contains_key(k) implies
            prev.as_map().insert(n, d).contains_key(k) by {
            let j = choose|j: int| 0 <= j < self.file_seq().len() && self.file_seq()[j].0 == k;
            if j < m {
                assert(prev.file_seq()[j].0 == k);
            }
        }
        assert forall|k: Seq<u8>| #[trigger] prev.as_map().insert(n, d).contains_key(k) implies
            self.as_map().contains_key(k) by {
            if k == n {
                assert(self.file_seq()[m].0 == k);
            } else {
                let j = choose|j: int|
                    0 <= j < prev.file_seq().len() && prev.file_seq()[j].0 == k;
                assert(self.file_seq()[j].0 == k);
            }
        }
        assert forall|k: Seq<u8>| self.as_map().contains_key(k) implies
            #[trigger] self.as_map()[k] == prev.as_map().insert(n, d)[k] by {
            if k == n {
                self.lemma_witness_content(k, m);
            } else {
                let j = choose|j: int|
                    0 <= j < self.file_seq().len() && self.file_seq()[j].0 == k;
                assert(j < m && prev.file_seq()[j].0 == k);
                self.lemma_witness_content(k, j);
                prev.lemma_witness_content(k, j);
            }
        }
        assert(self.as_map() =~= prev.as_map().insert(n, d));
    }
}

} // verus!
