//! A model of the guest's linear memory: a flat, byte-addressable region that
//! the host may read and write on the guest's behalf, with every access
//! bounds-checked against the region's committed size.

use vstd::prelude::*;
use vstd::pervasive::VecAdditionalExecFns;

verus! {

/// True when the region `[off, off + len)` lies inside a memory of `size` bytes.
pub open spec fn region_fits(size: nat, off: int, len: int) -> bool {
    0 <= off && 0 <= len && off + len <= size
}

/// The bytes of the region `[off, off + len)` of `m`.
pub open spec fn region(m: Seq<u8>, off: int, len: int) -> Seq<u8> {
    m.subrange(off, off + len)
}

/// `m` with the bytes starting at `off` replaced by `d`; meaningful only when
/// the replaced region lies inside `m`.
pub open spec fn splice(m: Seq<u8>, off: int, d: Seq<u8>) -> Seq<u8> {
    m.take(off) + d + m.skip(off + d.len())
}

/// The four bytes of `v` in little-endian order, as the guest reads a 32-bit
/// scalar out-parameter back from its memory.
pub open spec fn u32_le_bytes(v: u32) -> Seq<u8> {
    seq![
        (v % 256) as u8,
        ((v / 256) % 256) as u8,
        ((v / 65536) % 256) as u8,
        ((v / 16777216) % 256) as u8,
    ]
}

/// The 32-bit value stored little-endian in the four bytes `b0..b3`.
pub open spec fn u32_from_le(b0: u8, b1: u8, b2: u8, b3: u8) -> int {
    b0 + 256 * b1 + 65536 * b2 + 16777216 * b3
}

/// Splicing a region that fits keeps the length, replaces exactly that
/// region, and leaves every byte outside it unchanged.
pub proof fn lemma_splice(m: Seq<u8>, off: int, d: Seq<u8>)
    requires
        region_fits(m.len(), off, d.len() as int),
    ensures
        splice(m, off, d).len() == m.len(),
        region(splice(m, off, d), off, d.len() as int) == d,
        forall|i: int|
            0 <= i < m.len() && !(off <= i < off + d.len()) ==> splice(m, off, d)[i] == m[i],
{
    assert(region(splice(m, off, d), off, d.len() as int) =~= d);
}

pub struct GuestMem {
    bytes: Vec<u8>,
}

impl View for GuestMem {
    type V = Seq<u8>;

    closed spec fn view(&self) -> Seq<u8> {
        self.bytes@
    }
}

impl GuestMem {
    /// A fresh linear memory of `size` zeroed bytes.
    pub fn new(size: usize) -> (m: GuestMem)
        ensures
            m@.len() == size,
            forall|i: int| 0 <= i < size ==> m@[i] == 0u8,
    {
        let mut bytes: Vec<u8> = Vec::new();
        let mut i: usize = 0;
        while i < size
            invariant
                i <= size,
                bytes@.len() == i,
                forall|j: int| 0 <= j < i ==> bytes@[j] == 0u8,
            decreases size - i,
        {
            bytes.push(0u8);
            i = i + 1;
        }
        GuestMem { bytes }
    }

    /// The committed size of the memory, in bytes.
    pub fn size(&self) -> (n: usize)
        ensures
            n == self@.len(),
    {
        self.bytes.len()
    }

    /// Decides whether the region `[off, off + len)` lies inside the memory.
    pub fn check_region(&self, off: usize, len: usize) -> (ok: bool)
        ensures
            ok == region_fits(self@.len(), off as int, len as int),
    {
        len <= self.bytes.len() && off <= self.bytes.len() - len
    }

    /// A read-only copy of the region `[off, off + len)`, or `None` when the
    /// region does not lie inside the memory: a bounds violation is reported,
    /// never truncated or wrapped.
    pub fn read_bytes(&self, off: usize, len: usize) -> (r: Option<Vec<u8>>)
        ensures
            r is Some <==> region_fits(self@.len(), off as int, len as int),
            r matches Some(b) ==> b@ == region(self@, off as int, len as int),
    {
        if len > self.bytes.len() || off > self.bytes.len() - len {
            return None;
        }
        let mut out: Vec<u8> = Vec::new();
        let mut i: usize = 0;
        while i < len
            invariant
                i <= len,
                off + len <= self@.len(),
                self@.len() <= usize::MAX,
                out@.len() == i,
                forall|j: int| 0 <= j < i ==> out@[j] == self@[off + j],
            decreases len - i,
        {
            out.push(self.bytes[off + i]);
            i = i + 1;
        }
        assert(out@ =~= region(self@, off as int, len as int));
        Some(out)
    }

    /// Writes `data` at `off` when the target region lies inside the memory;
    /// reports a bounds violation otherwise, leaving the memory untouched.
    pub fn write_bytes(&mut self, off: usize, data: &Vec<u8>) -> (ok: bool)
        ensures
            ok <==> region_fits(old(self)@.len(), off as int, data@.len() as int),
            ok ==> final(self)@ == splice(old(self)@, off as int, data@),
            !ok ==> final(self)@ == old(self)@,
    {
        if data.len() > self.bytes.len() || off > self.bytes.len() - data.len() {
            return false;
        }
        let ghost m0 = self@;
        let mut i: usize = 0;
        while i < data.len()
            invariant
                i <= data@.len(),
                off + data@.len() <= m0.len(),
                m0.len() <= usize::MAX,
                self@.len() == m0.len(),
                forall|j: int| 0 <= j < i ==> self@[off + j] == data@[j],
                forall|j: int|
                    0 <= j < m0.len() && !(off <= j < off + i) ==> self@[j] == m0[j],
            decreases data@.len() - i,
        {
            self.bytes.set(off + i, data[i]);
            i = i + 1;
        }
        assert(self@ =~= splice(m0, off as int, data@));
        true
    }

    /// Writes `v` as a four-byte little-endian scalar at `off`, the shape in
    /// which the guest reads a 32-bit out-parameter; reports a bounds
    /// violation otherwise, leaving the memory untouched.
    pub fn write_u32_le(&mut self, off: usize, v: u32) -> (ok: bool)
        ensures
            ok <==> region_fits(old(self)@.len(), off as int, 4),
            ok ==> final(self)@ == splice(old(self)@, off as int, u32_le_bytes(v)),
            !ok ==> final(self)@ == old(self)@,
    {
        let mut buf: Vec<u8> = Vec::new();
        buf.push((v % 256) as u8);
        buf.push(((v / 256) % 256) as u8);
        buf.push(((v / 65536) % 256) as u8);
        buf.push(((v / 16777216) % 256) as u8);
        assert(buf@ =~= u32_le_bytes(v));
        self.write_bytes(off, &buf)
    }

    /// Reads the four-byte little-endian scalar at `off` back as a 32-bit
    /// value, or `None` when the region does not lie inside the memory.
    pub fn read_u32_le(&self, off: usize) -> (r: Option<u32>)
        ensures
            r is Some <==> region_fits(self@.len(), off as int, 4),
            r matches Some(v) ==> v == u32_from_le(
                self@[off as int],
                self@[off + 1],
                self@[off + 2],
                self@[off + 3],
            ),
    {
        match self.read_bytes(off, 4) {
            None => None,
            Some(b) => {
                let v: u32 = b[0] as u32 + 256 * (b[1] as u32) + 65536 * (b[2] as u32)
                    + 16777216 * (b[3] as u32);
                Some(v)
            },
        }
    }
}

/// Encoding a 32-bit value little-endian and reading the four bytes back
/// yields the value itself.
pub proof fn lemma_u32_le_round_trip(v: u32)
    ensures
        u32_from_le(
            u32_le_bytes(v)[0],
            u32_le_bytes(v)[1],
            u32_le_bytes(v)[2],
            u32_le_bytes(v)[3],
        ) == v,
{
    assert(u32_from_le(
        (v % 256) as u8,
        ((v / 256) % 256) as u8,
        ((v / 65536) % 256) as u8,
        ((v / 16777216) % 256) as u8,
    ) == v) by (nonlinear_arith);
}

} // verus!
