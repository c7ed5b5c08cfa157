//! A host-side storage bridge: it gives an isolated guest program file-like
//! access to named storage backends through three host functions — stat,
//! read, write — whose arguments are integer handles into the guest's own
//! linear memory. The bridge validates every handle against the memory's
//! bounds, decodes the profile and file names, resolves the profile in a
//! registry populated once at startup, performs the storage operation, and
//! marshals the results back across the same memory boundary.

pub mod bytes;
pub mod memory;
pub mod utf8;
pub mod registry;
pub mod backend;
pub mod bridge;
pub mod laws;
pub mod config;
pub mod scheme;
pub mod init;
