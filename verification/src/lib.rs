//! Keeps a binary archive container in sync with a source directory tree and
//! unpacks an archive back onto a filesystem.
//!
//! The verified core is the reconciliation engine: the algorithm that decides,
//! for every file known on disk and every entry known inside the archive,
//! whether to add, update, skip, or remove it, together with the ignore-rule
//! selection policy and the corrupt-archive detection policy. The archive
//! container format and the glob matcher are external collaborators; the
//! driver around this library performs their I/O and feeds the results in as
//! plain values.

pub mod names;
pub mod scan;
pub mod reconcile;
pub mod unpack;
pub mod policy;
