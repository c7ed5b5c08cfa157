//! The laws of the bridge protocol, stated over the specification functions
//! the handlers are proved against: rejection of unknown profiles, the
//! write/read round trip, idempotence of write, stat after write, isolation
//! between profiles, and the short-buffer boundary.

use vstd::prelude::*;
use crate::bridge::{
    HostFault, decode_name, op_read, op_stat, op_write_map, op_write_status, spec_read_mem,
    spec_read_status, status_max,
};
use crate::memory::{lemma_splice, region, region_fits, splice, u32_le_bytes};

verus! {

/// A profile not present in the registry is answered with `-1` by stat,
/// read and write alike, and write leaves every store untouched.
pub proof fn lemma_unknown_profile_rejected(
    reg: Map<Seq<u8>, Map<Seq<u8>, Seq<u8>>>,
    p: Seq<u8>,
    f: Seq<u8>,
    d: Seq<u8>,
    buf_len: usize,
)
    requires
        !reg.contains_key(p),
    ensures
        op_stat(reg, p, f) == Result::<i32, HostFault>::Ok(-1i32),
        op_read(reg, p, f, buf_len) == Result::<i32, HostFault>::Ok(-1i32),
        op_write_status(reg, p) == Result::<i32, HostFault>::Ok(-1i32),
        op_write_map(reg, p, f, d) == reg,
{
}

/// A read call whose profile name decodes to an unregistered profile
/// performs no memory write at all.
pub proof fn lemma_unknown_profile_memory(
    reg: Map<Seq<u8>, Map<Seq<u8>, Seq<u8>>>,
    m: Seq<u8>,
    p: Seq<u8>,
    pp: usize,
    pl: usize,
    fp: usize,
    fl: usize,
    bp: usize,
    bl: usize,
    rp: usize,
)
    requires
        decode_name(m, pp, pl) == Result::<Seq<u8>, HostFault>::Ok(p),
        !reg.contains_key(p),
    ensures
        spec_read_mem(reg, m, pp, pl, fp, fl, bp, bl, rp) == m,
{
    assert(spec_read_status(reg, m, pp, pl, fp, fl, bp, bl, rp)
        != Result::<i32, HostFault>::Ok(0i32));
}

/// Round trip: writing `d` under file `f` of a registered profile and then
/// reading `f` back with a buffer of at least `d.len()` bytes succeeds and
/// delivers exactly `d`.
pub proof fn lemma_write_then_read_round_trip(
    reg: Map<Seq<u8>, Map<Seq<u8>, Seq<u8>>>,
    p: Seq<u8>,
    f: Seq<u8>,
    d: Seq<u8>,
    buf_len: usize,
)
    requires
        reg.contains_key(p),
        d.len() <= buf_len,
        d.len() <= status_max(),
    ensures
        op_write_status(reg, p) == Result::<i32, HostFault>::Ok(0i32),
        op_write_map(reg, p, f, d)[p][f] == d,
        op_read(op_write_map(reg, p, f, d), p, f, buf_len) == Result::<i32, HostFault>::Ok(0i32),
{
}

/// On a successful read, the memory after the call holds the stored content
/// at the buffer handle and — when the out-parameter does not overlap the
/// buffer — its length, little-endian, at the out-parameter handle; the
/// memory's size never changes.
pub proof fn lemma_read_delivers_content(
    reg: Map<Seq<u8>, Map<Seq<u8>, Seq<u8>>>,
    m: Seq<u8>,
    p: Seq<u8>,
    f: Seq<u8>,
    pp: usize,
    pl: usize,
    fp: usize,
    fl: usize,
    bp: usize,
    bl: usize,
    rp: usize,
)
    requires
        decode_name(m, pp, pl) == Result::<Seq<u8>, HostFault>::Ok(p),
        decode_name(m, fp, fl) == Result::<Seq<u8>, HostFault>::Ok(f),
        spec_read_status(reg, m, pp, pl, fp, fl, bp, bl, rp)
            == Result::<i32, HostFault>::Ok(0i32),
    ensures
        spec_read_mem(reg, m, pp, pl, fp, fl, bp, bl, rp).len() == m.len(),
        region(
            spec_read_mem(reg, m, pp, pl, fp, fl, bp, bl, rp),
            bp as int,
            reg[p][f].len() as int,
        ) == reg[p][f],
        rp + 4 <= bp || bp + bl <= rp ==> region(
            spec_read_mem(reg, m, pp, pl, fp, fl, bp, bl, rp),
            rp as int,
            4,
        ) == u32_le_bytes(reg[p][f].len() as u32),
{
    let d = reg[p][f];
    let le = u32_le_bytes(d.len() as u32);
    let m1 = splice(m, rp as int, le);
    let m2 = splice(m1, bp as int, d);
    lemma_splice(m, rp as int, le);
    lemma_splice(m1, bp as int, d);
    assert(spec_read_mem(reg, m, pp, pl, fp, fl, bp, bl, rp) == m2);
    if rp + 4 <= bp || bp + bl <= rp {
        assert(region(m2, rp as int, 4) =~= region(m1, rp as int, 4));
    }
}

/// Idempotence: writing the same payload twice leaves the registry exactly
/// as one write does — last write wins, nothing is appended.
pub proof fn lemma_write_idempotent(
    reg: Map<Seq<u8>, Map<Seq<u8>, Seq<u8>>>,
    p: Seq<u8>,
    f: Seq<u8>,
    d: Seq<u8>,
)
    ensures
        op_write_map(op_write_map(reg, p, f, d), p, f, d) == op_write_map(reg, p, f, d),
{
    if reg.contains_key(p) {
        let reg1 = op_write_map(reg, p, f, d);
        assert(reg1[p].insert(f, d) =~= reg1[p]);
        assert(op_write_map(reg1, p, f, d) =~= reg1);
    }
}

/// Stat after write: once `d` is stored under file `f` of a registered
/// profile, stat answers exactly `d.len()`.
pub proof fn lemma_stat_after_write(
    reg: Map<Seq<u8>, Map<Seq<u8>, Seq<u8>>>,
    p: Seq<u8>,
    f: Seq<u8>,
    d: Seq<u8>,
)
    requires
        reg.contains_key(p),
        d.len() <= status_max(),
    ensures
        op_stat(op_write_map(reg, p, f, d), p, f)
            == Result::<i32, HostFault>::Ok(d.len() as i32),
{
}

/// Isolation: a write through profile `p` is invisible through any other
/// profile `q` — its presence, its file table, and what stat and read
/// answer on it are unchanged.
pub proof fn lemma_profile_isolation(
    reg: Map<Seq<u8>, Map<Seq<u8>, Seq<u8>>>,
    p: Seq<u8>,
    q: Seq<u8>,
    f: Seq<u8>,
    d: Seq<u8>,
    f2: Seq<u8>,
    buf_len: usize,
)
    requires
        p != q,
    ensures
        op_write_map(reg, p, f, d).contains_key(q) == reg.contains_key(q),
        reg.contains_key(q) ==> op_write_map(reg, p, f, d)[q] == reg[q],
        op_stat(op_write_map(reg, p, f, d), q, f2) == op_stat(reg, q, f2),
        op_read(op_write_map(reg, p, f, d), q, f2, buf_len) == op_read(reg, q, f2, buf_len),
{
}

/// Boundary: a read whose destination buffer is shorter than the stored
/// content faults with `BufferOverrun` and writes nothing at all into guest
/// memory — in particular never past the buffer's declared length.
pub proof fn lemma_short_buffer_faults(
    reg: Map<Seq<u8>, Map<Seq<u8>, Seq<u8>>>,
    m: Seq<u8>,
    p: Seq<u8>,
    f: Seq<u8>,
    pp: usize,
    pl: usize,
    fp: usize,
    fl: usize,
    bp: usize,
    bl: usize,
    rp: usize,
)
    requires
        decode_name(m, pp, pl) == Result::<Seq<u8>, HostFault>::Ok(p),
        decode_name(m, fp, fl) == Result::<Seq<u8>, HostFault>::Ok(f),
        region_fits(m.len(), rp as int, 4),
        region_fits(m.len(), bp as int, bl as int),
        reg.contains_key(p),
        reg[p].contains_key(f),
        reg[p][f].len() > bl,
    ensures
        spec_read_status(reg, m, pp, pl, fp, fl, bp, bl, rp)
            == Result::<i32, HostFault>::Err(HostFault::BufferOverrun),
        spec_read_mem(reg, m, pp, pl, fp, fl, bp, bl, rp) == m,
{
}

} // verus!
