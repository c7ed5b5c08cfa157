//! The scheme index table: one entry per configured profile, built at
//! startup in lockstep with registry population, mapping the profile name to
//! a numeric index and the original backend scheme string. The indices start
//! at a fixed base, well clear of reserved low values, so a name-resolution
//! helper can tell these virtual schemes apart from natively recognised
//! ones; the table is never updated afterwards.

use vstd::prelude::*;
use crate::bytes::{bytes_eq, copy_bytes};
use crate::config::ProfileConfig;

verus! {

/// The first numeric index handed out to a virtual scheme.
pub const SCHEME_INDEX_BASE: u32 = 8888;

/// One table entry: profile name, numeric index, backend scheme string.
pub struct SchemeEntry {
    pub name: Vec<u8>,
    pub index: u32,
    pub scheme: Vec<u8>,
}

/// The scheme index table.
pub struct SchemeTable {
    pub entries: Vec<SchemeEntry>,
}

impl SchemeTable {
    /// The table as (name, index, scheme) triples, in entry order.
    pub open spec fn entry_seq(&self) -> Seq<(Seq<u8>, u32, Seq<u8>)> {
        Seq::new(
            self.entries@.len(),
            |i: int| (self.entries@[i].name@, self.entries@[i].index, self.entries@[i].scheme@),
        )
    }

    /// The position of the first entry named `name`, if any.
    pub fn find_name(&self, name: &Vec<u8>) -> (r: Option<usize>)
        ensures
            r is Some <==> exists|i: int|
                0 <= i < self.entry_seq().len() && (#[trigger] self.entry_seq()[i]).0 == name@,
            r matches Some(i) ==> 0 <= i < self.entry_seq().len()
                && self.entry_seq()[i as int].0 == name@
                && forall|j: int| 0 <= j < i ==> (#[trigger] self.entry_seq()[j]).0 != name@,
    {
        let n = self.entries.len();
        let mut i: usize = 0;
        while i < n
            invariant
                i <= n,
                n == self.entry_seq().len(),
                forall|j: int| 0 <= j < i ==> (#[trigger] self.entry_seq()[j]).0 != name@,
            decreases n - i,
        {
            if bytes_eq(&self.entries[i].name, name) {
                assert(self.entry_seq()[i as int].0 == name@);
                return Some(i);
            }
            i = i + 1;
        }
        None
    }
}

/// Builds the scheme index table for the planned profiles: entry `i` binds
/// profile `i`'s name to index `SCHEME_INDEX_BASE + i` and to its backend
/// scheme string — indices stable, consecutive, and never below the base.
pub fn build_scheme_table(plan: &Vec<ProfileConfig>) -> (t: SchemeTable)
    requires
        plan@.len() + SCHEME_INDEX_BASE <= u32::MAX,
    ensures
        t.entry_seq().len() == plan@.len(),
        forall|i: int| 0 <= i < plan@.len() ==> {
            &&& (#[trigger] t.entry_seq()[i]).0 == plan@[i].name@
            &&& t.entry_seq()[i].1 == SCHEME_INDEX_BASE + i
            &&& t.entry_seq()[i].2 == plan@[i].scheme@
        },
{
    let n = plan.len();
    let mut entries: Vec<SchemeEntry> = Vec::new();
    let mut i: usize = 0;
    while i < n
        invariant
            i <= n,
            n == plan@.len(),
            n + SCHEME_INDEX_BASE <= u32::MAX,
            entries@.len() == i,
            forall|t: int| 0 <= t < i ==> {
                &&& (#[trigger] entries@[t]).name@ == plan@[t].name@
                &&& entries@[t].index == SCHEME_INDEX_BASE + t
                &&& entries@[t].scheme@ == plan@[t].scheme@
            },
        decreases n - i,
    {
        let entry = SchemeEntry {
            name: copy_bytes(&plan[i].name),
            index: SCHEME_INDEX_BASE + (i as u32),
            scheme: copy_bytes(&plan[i].scheme),
        };
        entries.push(entry);
        i = i + 1;
    }
    SchemeTable { entries }
}

} // verus!
