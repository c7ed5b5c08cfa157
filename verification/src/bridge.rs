//! The host function handlers — stat, read, write — over a registry of model
//! stores. Each handler takes the guest-supplied integer handles, decodes the
//! profile and file names out of the guest's linear memory, resolves the
//! profile, performs the storage operation, and encodes the results back into
//! guest memory; its observable behaviour equals a specification function of
//! the registry snapshot and the memory contents alone.
//!
//! The wire protocol carries one integer status: `-1` for an unknown
//! profile, a content length (stat) or `0` (read, write) on success. Every
//! other misfire — an out-of-range handle, a malformed name, a buffer too
//! short for the stored content, a missing file at the backend — cannot be
//! told apart on the wire; it is surfaced as a distinct `HostFault` so the
//! caller layer can abort the guest call rather than corrupt its memory, and
//! a faulted call leaves guest memory and stores untouched.

use vstd::prelude::*;
use crate::memory::{GuestMem, region, region_fits, splice, u32_le_bytes};
use crate::utf8::{is_utf8, validate_utf8};
use crate::backend::MemStore;
use crate::bytes::bytes_eq;

verus! {

/// The fatal conditions a handler can meet: none of them is representable in
/// the wire protocol's status integer, and none of them corrupts guest state.
#[derive(Clone, Copy, PartialEq, Eq, Structural, Debug)]
pub enum HostFault {
    /// A guest handle denotes a region outside the linear memory's bounds.
    OutOfBounds,
    /// A profile or file name is not well-formed UTF-8.
    InvalidUtf8,
    /// The destination buffer is shorter than the stored content.
    BufferOverrun,
    /// The backend holds no file under the requested name.
    Backend,
    /// A length does not fit the protocol's 32-bit status integer.
    Oversize,
}

/// The largest length the protocol's 32-bit status integer can carry.
pub open spec fn status_max() -> int {
    0x7fff_ffff
}

/// A name decoded from the region `[off, off + len)` of guest memory `m`:
/// the region must lie in bounds and hold well-formed UTF-8.
pub open spec fn decode_name(m: Seq<u8>, off: usize, len: usize) -> Result<Seq<u8>, HostFault> {
    if !region_fits(m.len(), off as int, len as int) {
        Err(HostFault::OutOfBounds)
    } else if !is_utf8(region(m, off as int, len as int)) {
        Err(HostFault::InvalidUtf8)
    } else {
        Ok(region(m, off as int, len as int))
    }
}

/// What stat answers on decoded names: `-1` for an unknown profile, the
/// content length for a stored file.
pub open spec fn op_stat(
    reg: Map<Seq<u8>, Map<Seq<u8>, Seq<u8>>>,
    p: Seq<u8>,
    f: Seq<u8>,
) -> Result<i32, HostFault> {
    if !reg.contains_key(p) {
        Ok(-1i32)
    } else if !reg[p].contains_key(f) {
        Err(HostFault::Backend)
    } else if reg[p][f].len() > status_max() {
        Err(HostFault::Oversize)
    } else {
        Ok(reg[p][f].len() as i32)
    }
}

/// What read answers on decoded names and a destination buffer of `buf_len`
/// bytes: `-1` for an unknown profile, `0` when the stored content fits.
pub open spec fn op_read(
    reg: Map<Seq<u8>, Map<Seq<u8>, Seq<u8>>>,
    p: Seq<u8>,
    f: Seq<u8>,
    buf_len: usize,
) -> Result<i32, HostFault> {
    if !reg.contains_key(p) {
        Ok(-1i32)
    } else if !reg[p].contains_key(f) {
        Err(HostFault::Backend)
    } else if reg[p][f].len() > buf_len {
        Err(HostFault::BufferOverrun)
    } else if reg[p][f].len() > status_max() {
        Err(HostFault::Oversize)
    } else {
        Ok(0i32)
    }
}

/// What write answers on decoded names: `-1` for an unknown profile, `0`
/// otherwise.
pub open spec fn op_write_status(
    reg: Map<Seq<u8>, Map<Seq<u8>, Seq<u8>>>,
    p: Seq<u8>,
) -> Result<i32, HostFault> {
    if !reg.contains_key(p) {
        Ok(-1i32)
    } else {
        Ok(0i32)
    }
}

/// The registry snapshot after write stores `d` under file `f` of profile
/// `p`: the prior content at that path is replaced, other files and other
/// profiles are untouched, and an unknown profile changes nothing.
pub open spec fn op_write_map(
    reg: Map<Seq<u8>, Map<Seq<u8>, Seq<u8>>>,
    p: Seq<u8>,
    f: Seq<u8>,
    d: Seq<u8>,
) -> Map<Seq<u8>, Map<Seq<u8>, Seq<u8>>> {
    if !reg.contains_key(p) {
        reg
    } else {
        reg.insert(p, reg[p].insert(f, d))
    }
}

/// The status stat returns for raw guest handles: profile name decoded
/// first, then file name, then the lookup.
pub open spec fn spec_stat(
    reg: Map<Seq<u8>, Map<Seq<u8>, Seq<u8>>>,
    m: Seq<u8>,
    pp: usize,
    pl: usize,
    fp: usize,
    fl: usize,
) -> Result<i32, HostFault> {
    match decode_name(m, pp, pl) {
        Err(e) => Err(e),
        Ok(p) => match decode_name(m, fp, fl) {
            Err(e) => Err(e),
            Ok(f) => op_stat(reg, p, f),
        },
    }
}

/// The status read returns for raw guest handles: names decoded first, then
/// the out-parameter and buffer handles validated, then the lookup.
pub open spec fn spec_read_status(
    reg: Map<Seq<u8>, Map<Seq<u8>, Seq<u8>>>,
    m: Seq<u8>,
    pp: usize,
    pl: usize,
    fp: usize,
    fl: usize,
    bp: usize,
    bl: usize,
    rp: usize,
) -> Result<i32, HostFault> {
    match decode_name(m, pp, pl) {
        Err(e) => Err(e),
        Ok(p) => match decode_name(m, fp, fl) {
            Err(e) => Err(e),
            Ok(f) => if !region_fits(m.len(), rp as int, 4) {
                Err(HostFault::OutOfBounds)
            } else if !region_fits(m.len(), bp as int, bl as int) {
                Err(HostFault::OutOfBounds)
            } else {
                op_read(reg, p, f, bl)
            },
        },
    }
}

/// The guest memory after read: on success the content length lands
/// little-endian in the four bytes at `rp` and the content itself at `bp`;
/// on `-1` or any fault the memory is unchanged — no partial writes.
pub open spec fn spec_read_mem(
    reg: Map<Seq<u8>, Map<Seq<u8>, Seq<u8>>>,
    m: Seq<u8>,
    pp: usize,
    pl: usize,
    fp: usize,
    fl: usize,
    bp: usize,
    bl: usize,
    rp: usize,
) -> Seq<u8> {
    if spec_read_status(reg, m, pp, pl, fp, fl, bp, bl, rp) == Result::<i32, HostFault>::Ok(0) {
        let d = reg[region(m, pp as int, pl as int)][region(m, fp as int, fl as int)];
        splice(splice(m, rp as int, u32_le_bytes(d.len() as u32)), bp as int, d)
    } else {
        m
    }
}

/// The status write returns for raw guest handles: names decoded first, then
/// the data handle validated, then the lookup.
pub open spec fn spec_write_status(
    reg: Map<Seq<u8>, Map<Seq<u8>, Seq<u8>>>,
    m: Seq<u8>,
    pp: usize,
    pl: usize,
    fp: usize,
    fl: usize,
    dp: usize,
    dl: usize,
) -> Result<i32, HostFault> {
    match decode_name(m, pp, pl) {
        Err(e) => Err(e),
        Ok(p) => match decode_name(m, fp, fl) {
            Err(e) => Err(e),
            Ok(f) => if !region_fits(m.len(), dp as int, dl as int) {
                Err(HostFault::OutOfBounds)
            } else {
                op_write_status(reg, p)
            },
        },
    }
}

/// The registry snapshot after write, for raw guest handles.
pub open spec fn spec_write_map(
    reg: Map<Seq<u8>, Map<Seq<u8>, Seq<u8>>>,
    m: Seq<u8>,
    pp: usize,
    pl: usize,
    fp: usize,
    fl: usize,
    dp: usize,
    dl: usize,
) -> Map<Seq<u8>, Map<Seq<u8>, Seq<u8>>> {
    if spec_write_status(reg, m, pp, pl, fp, fl, dp, dl) == Result::<i32, HostFault>::Ok(0) {
        op_write_map(
            reg,
            region(m, pp as int, pl as int),
            region(m, fp as int, fl as int),
            region(m, dp as int, dl as int),
        )
    } else {
        reg
    }
}

/// One registered profile: an immutable binding from a name to its store.
pub struct Profile {
    pub name: Vec<u8>,
    pub store: MemStore,
}

/// The bridge: the storage registry together with the three host function
/// handlers the guest may call against it.
pub struct Bridge {
    profiles: Vec<Profile>,
}

impl Bridge {
    /// The registered (name, store) pairs, in registration order.
    pub closed spec fn profile_seq(&self) -> Seq<(Seq<u8>, MemStore)> {
        Seq::new(self.profiles@.len(), |i: int| (self.profiles@[i].name@, self.profiles@[i].store))
    }

    /// Well-formed: profile names are unique and every store is well-formed.
    pub open spec fn wf(&self) -> bool {
        &&& forall|i: int, j: int|
            0 <= i < j < self.profile_seq().len()
                ==> self.profile_seq()[i].0 != self.profile_seq()[j].0
        &&& forall|i: int|
            0 <= i < self.profile_seq().len() ==> (#[trigger] self.profile_seq()[i]).1.wf()
    }

    pub open spec fn contains_profile(&self, n: Seq<u8>) -> bool {
        exists|i: int| 0 <= i < self.profile_seq().len() && self.profile_seq()[i].0 == n
    }

    pub open spec fn index_of(&self, n: Seq<u8>) -> int {
        choose|i: int| 0 <= i < self.profile_seq().len() && self.profile_seq()[i].0 == n
    }

    /// The bridge's registry as a snapshot: profile name to file table.
    pub open spec fn as_map(&self) -> Map<Seq<u8>, Map<Seq<u8>, Seq<u8>>> {
        Map::new(
            |n: Seq<u8>| self.contains_profile(n),
            |n: Seq<u8>| self.profile_seq()[self.index_of(n)].1.as_map(),
        )
    }

    /// In a well-formed bridge, any entry holding name `n` holds the store
    /// whose table the snapshot binds to `n`.
    pub proof fn lemma_witness_store(&self, n: Seq<u8>, j: int)
        requires
            self.wf(),
            0 <= j < self.profile_seq().len(),
            self.profile_seq()[j].0 == n,
        ensures
            self.contains_profile(n),
            self.as_map().contains_key(n),
            self.as_map()[n] == self.profile_seq()[j].1.as_map(),
    {
        let k = self.index_of(n);
        assert(0 <= k < self.profile_seq().len() && self.profile_seq()[k].0 == n);
        if k != j {
            assert(self.profile_seq()[k].0 != self.profile_seq()[j].0);
        }
    }

    /// A bridge with no profiles.
    pub fn new() -> (r: Bridge)
        ensures
            r.wf(),
            r.as_map() == Map::<Seq<u8>, Map<Seq<u8>, Seq<u8>>>::empty(),
    {
        let r = Bridge { profiles: Vec::new() };
        proof {
            assert(r.as_map() =~= Map::<Seq<u8>, Map<Seq<u8>, Seq<u8>>>::empty());
        }
        r
    }

    /// Registers a profile with an empty store. A name already present is
    /// refused: profiles are created once, at startup, and never replaced.
    pub fn add_profile(&mut self, name: Vec<u8>) -> (ok: bool)
        requires
            old(self).wf(),
        ensures
            final(self).wf(),
            ok == !old(self).contains_profile(name@),
            ok ==> final(self).as_map()
                == old(self).as_map().insert(name@, Map::<Seq<u8>, Seq<u8>>::empty()),
            !ok ==> final(self).as_map() == old(self).as_map(),
            !ok ==> final(self).profile_seq() == old(self).profile_seq(),
    {
        if self.find_profile(&name).is_some() {
            return false;
        }
        let ghost n = name@;
        let store = MemStore::new();
        let ghost st = store;
        self.profiles.push(Profile { name, store });
        proof {
            let old_seq = old(self).profile_seq();
            let m = old_seq.len() as int;
            assert(self.profile_seq() =~= old_seq.push((n, st)));
            assert forall|i: int, j: int|
                0 <= i < j < self.profile_seq().len() implies
                self.profile_seq()[i].0 != self.profile_seq()[j].0 by {
                if j == m && self.profile_seq()[i].0 == n {
                    assert(old_seq[i].0 == n);
                    assert(old(self).contains_profile(n));
                }
            }
            assert forall|k: Seq<u8>| #[trigger] self.as_map().contains_key(k) implies
                old(self).as_map().insert(n, st.as_map()).contains_key(k) by {
                let i = choose|i: int|
                    0 <= i < self.profile_seq().len() && self.profile_seq()[i].0 == k;
                if i < m {
                    assert(old_seq[i].0 == k);
                    assert(old(self).contains_profile(k));
                }
            }
            assert forall|k: Seq<u8>|
                #[trigger] old(self).as_map().insert(n, st.as_map()).contains_key(k) implies
                self.as_map().contains_key(k) by {
                if k == n {
                    assert(self.profile_seq()[m].0 == k);
                } else {
                    let i = choose|i: int| 0 <= i < old_seq.len() && old_seq[i].0 == k;
                    assert(self.profile_seq()[i].0 == k);
                }
            }
            assert forall|k: Seq<u8>| self.as_map().contains_key(k) implies
                #[trigger] self.as_map()[k] == old(self).as_map().insert(n, st.as_map())[k] by {
                if k == n {
                    self.lemma_witness_store(k, m);
                } else {
                    let i = choose|i: int|
                        0 <= i < self.profile_seq().len() && self.profile_seq()[i].0 == k;
                    assert(i < m && old_seq[i].0 == k);
                    self.lemma_witness_store(k, i);
                    old(self).lemma_witness_store(k, i);
                }
            }
            assert(st.as_map() =~= Map::<Seq<u8>, Seq<u8>>::empty());
            assert(self.as_map() =~= old(self).as_map().insert(n, Map::<Seq<u8>, Seq<u8>>::empty()));
        }
        true
    }

    /// The position of profile `name`, if registered.
    fn find_profile(&self, name: &Vec<u8>) -> (r: Option<usize>)
        ensures
            r is Some <==> self.contains_profile(name@),
            r matches Some(i) ==> 0 <= i < self.profile_seq().len()
                && self.profile_seq()[i as int].0 == name@,
    {
        let n = self.profiles.len();
        let mut i: usize = 0;
        while i < n
            invariant
                i <= n,
                n == self.profile_seq().len(),
                forall|j: int| 0 <= j < i ==> self.profile_seq()[j].0 != name@,
            decreases n - i,
        {
            if bytes_eq(&self.profiles[i].name, name) {
                assert(self.profile_seq()[i as int].0 == name@);
                return Some(i);
            }
            i = i + 1;
        }
        None
    }

    /// The stat host function: decodes both names out of guest memory,
    /// resolves the profile, and answers the stored content's length — `-1`
    /// when the profile is unknown, a fault when a handle or name is
    /// malformed or the file is absent. Guest memory is never written.
    pub fn custom_stat(
        &self,
        mem: &GuestMem,
        profile_ptr: usize,
        profile_len: usize,
        file_ptr: usize,
        file_len: usize,
    ) -> (r: Result<i32, HostFault>)
        requires
            self.wf(),
        ensures
            r == spec_stat(self.as_map(), mem@, profile_ptr, profile_len, file_ptr, file_len),
    {
        let pname = match mem.read_bytes(profile_ptr, profile_len) {
            None => {
                return Err(HostFault::OutOfBounds);
            },
            Some(b) => b,
        };
        if !validate_utf8(&pname) {
            return Err(HostFault::InvalidUtf8);
        }
        let fname = match mem.read_bytes(file_ptr, file_len) {
            None => {
                return Err(HostFault::OutOfBounds);
            },
            Some(b) => b,
        };
        if !validate_utf8(&fname) {
            return Err(HostFault::InvalidUtf8);
        }
        match self.find_profile(&pname) {
            None => Ok(-1),
            Some(i) => {
                proof {
                    self.lemma_witness_store(pname@, i as int);
                }
                match self.profiles[i].store.stat(&fname) {
                    None => Err(HostFault::Backend),
                    Some(len) => {
                        if len > 0x7fff_ffffusize {
                            Err(HostFault::Oversize)
                        } else {
                            Ok(len as i32)
                        }
                    },
                }
            },
        }
    }

    /// The read host function: decodes both names, validates the
    /// out-parameter and destination buffer handles, resolves the profile,
    /// and on success writes the content length little-endian at
    /// `readlen_ptr` and the full content at `buf_ptr`. On `-1` or any fault
    /// the guest memory is left exactly as it was — no partial writes.
    pub fn custom_read(
        &self,
        mem: &mut GuestMem,
        profile_ptr: usize,
        profile_len: usize,
        file_ptr: usize,
        file_len: usize,
        buf_ptr: usize,
        buf_len: usize,
        readlen_ptr: usize,
    ) -> (r: Result<i32, HostFault>)
        requires
            self.wf(),
        ensures
            r == spec_read_status(
                self.as_map(),
                old(mem)@,
                profile_ptr,
                profile_len,
                file_ptr,
                file_len,
                buf_ptr,
                buf_len,
                readlen_ptr,
            ),
            final(mem)@ == spec_read_mem(
                self.as_map(),
                old(mem)@,
                profile_ptr,
                profile_len,
                file_ptr,
                file_len,
                buf_ptr,
                buf_len,
                readlen_ptr,
            ),
    {
        let pname = match mem.read_bytes(profile_ptr, profile_len) {
            None => {
                return Err(HostFault::OutOfBounds);
            },
            Some(b) => b,
        };
        if !validate_utf8(&pname) {
            return Err(HostFault::InvalidUtf8);
        }
        let fname = match mem.read_bytes(file_ptr, file_len) {
            None => {
                return Err(HostFault::OutOfBounds);
            },
            Some(b) => b,
        };
        if !validate_utf8(&fname) {
            return Err(HostFault::InvalidUtf8);
        }
        if !mem.check_region(readlen_ptr, 4) {
            return Err(HostFault::OutOfBounds);
        }
        if !mem.check_region(buf_ptr, buf_len) {
            return Err(HostFault::OutOfBounds);
        }
        match self.find_profile(&pname) {
            None => Ok(-1),
            Some(i) => {
                proof {
                    self.lemma_witness_store(pname@, i as int);
                }
                match self.profiles[i].store.read(&fname) {
                    None => Err(HostFault::Backend),
                    Some(content) => {
                        if content.len() > buf_len {
                            return Err(HostFault::BufferOverrun);
                        }
                        if content.len() > 0x7fff_ffffusize {
                            return Err(HostFault::Oversize);
                        }
                        let ok_len = mem.write_u32_le(readlen_ptr, content.len() as u32);
                        assert(ok_len);
                        let ok_buf = mem.write_bytes(buf_ptr, &content);
                        assert(ok_buf);
                        Ok(0)
                    },
                }
            },
        }
    }

    /// The write host function: decodes both names, reads the payload out of
    /// guest memory, resolves the profile, and stores the payload under the
    /// file name, replacing any prior content. Guest memory is never
    /// written; an unknown profile or a fault leaves every store untouched.
    pub fn custom_write(
        &mut self,
        mem: &GuestMem,
        profile_ptr: usize,
        profile_len: usize,
        file_ptr: usize,
        file_len: usize,
        data_ptr: usize,
        data_len: usize,
    ) -> (r: Result<i32, HostFault>)
        requires
            old(self).wf(),
        ensures
            final(self).wf(),
            r == spec_write_status(
                old(self).as_map(),
                mem@,
                profile_ptr,
                profile_len,
                file_ptr,
                file_len,
                data_ptr,
                data_len,
            ),
            final(self).as_map() == spec_write_map(
                old(self).as_map(),
                mem@,
                profile_ptr,
                profile_len,
                file_ptr,
                file_len,
                data_ptr,
                data_len,
            ),
    {
        let pname = match mem.read_bytes(profile_ptr, profile_len) {
            None => {
                return Err(HostFault::OutOfBounds);
            },
            Some(b) => b,
        };
        if !validate_utf8(&pname) {
            return Err(HostFault::InvalidUtf8);
        }
        let fname = match mem.read_bytes(file_ptr, file_len) {
            None => {
                return Err(HostFault::OutOfBounds);
            },
            Some(b) => b,
        };
        if !validate_utf8(&fname) {
            return Err(HostFault::InvalidUtf8);
        }
        let data = match mem.read_bytes(data_ptr, data_len) {
            None => {
                return Err(HostFault::OutOfBounds);
            },
            Some(b) => b,
        };
        match self.find_profile(&pname) {
            None => Ok(-1),
            Some(i) => {
                let ghost prev = *self;
                let mut entry = self.profiles.remove(i);
                proof {
                    assert(entry.store == prev.profile_seq()[i as int].1);
                    assert(prev.profile_seq()[i as int].1.wf());
                }
                entry.store.write(&fname, &data);
                let ghost newstore = entry.store;
                self.profiles.insert(i, entry);
                proof {
                    assert(self.profile_seq() =~= prev.profile_seq().update(
                        i as int,
                        (pname@, newstore),
                    ));
                    self.lemma_update_profile(prev, pname@, newstore, i as int);
                    prev.lemma_witness_store(pname@, i as int);
                }
                Ok(0)
            },
        }
    }

    /// Replacing the store of the entry already named `p` by a well-formed
    /// store updates the snapshot at `p` and nothing else.
    proof fn lemma_update_profile(&self, prev: Bridge, p: Seq<u8>, newstore: MemStore, i: int)
        requires
            prev.wf(),
            0 <= i < prev.profile_seq().len(),
            prev.profile_seq()[i].0 == p,
            newstore.wf(),
            self.profile_seq() == prev.profile_seq().update(i, (p, newstore)),
        ensures
            self.wf(),
            self.as_map() == prev.as_map().insert(p, newstore.as_map()),
    {
        assert forall|a: int, b: int|
            0 <= a < b < self.profile_seq().len() implies
            self.profile_seq()[a].0 != self.profile_seq()[b].0 by {
            assert(prev.profile_seq()[a].0 == self.profile_seq()[a].0);
            assert(prev.profile_seq()[b].0 == self.profile_seq()[b].0);
        }
        assert forall|a: int| 0 <= a < self.profile_seq().len() implies
            (#[trigger] self.profile_seq()[a]).1.wf() by {
            if a != i {
                assert(self.profile_seq()[a].1 == prev.profile_seq()[a].1);
            }
        }
        assert forall|k: Seq<u8>| #[trigger] self.as_map().contains_key(k) implies
            prev.as_map().insert(p, newstore.as_map()).contains_key(k) by {
            let j = choose|j: int|
                0 <= j < self.profile_seq().len() && self.profile_seq()[j].0 == k;
            assert(prev.profile_seq()[j].0 == k || k == p);
        }
        assert forall|k: Seq<u8>|
            #[trigger] prev.as_map().insert(p, newstore.as_map()).contains_key(k) implies
            self.as_map().contains_key(k) by {
            if k == p {
                assert(self.profile_seq()[i].0 == k);
            } else {
                let j = choose|j: int|
                    0 <= j < prev.profile_seq().len() && prev.profile_seq()[j].0 == k;
                assert(self.profile_seq()[j].0 == k);
            }
        }
        assert forall|k: Seq<u8>| self.as_map().contains_key(k) implies
            #[trigger] self.as_map()[k] == prev.as_map().insert(p, newstore.as_map())[k] by {
            if k == p {
                self.lemma_witness_store(k, i);
            } else {
                let j = choose|j: int|
                    0 <= j < self.profile_seq().len() && self.profile_seq()[j].0 == k;
                assert(j != i);
                assert(prev.profile_seq()[j].0 == k);
                self.lemma_witness_store(k, j);
                prev.lemma_witness_store(k, j);
            }
        }
        assert(self.as_map() =~= prev.as_map().insert(p, newstore.as_map()));
    }
}

} // verus!
