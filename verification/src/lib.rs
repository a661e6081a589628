//! A unified read-only file-access layer: logical paths resolve against a
//! list of mounted pak archives (first mount wins) and fall back to a
//! disk-backed store, behind one read/seek/eof/close interface, with a
//! Win32-style wildcard directory-search iterator over the merged namespace.

pub mod archive;
pub mod file;
pub mod glob;
pub mod interface;
pub mod laws;
pub mod norm;
pub mod search;

pub use crate::file::{File, FileHandle, HandleSource};
pub use crate::interface::PakInterface;
pub use crate::norm::{dir_part, name_part, norm};
pub use crate::search::{FileData, FileSearch, FileSearchIter, SearchState, FILE_ATTRIBUTE_DIRECTORY};

use vstd::prelude::*;

verus! {

/// Failure taxonomy of the layer.
///
/// * `MalformedArchive`: a pak container's file table is structurally invalid.
/// * `NotFound`: a path resolves against no mount and no disk entry.
/// * `UnsupportedMode`: a write or unknown access mode was requested.
/// * `ReadFailure`: a genuine store error distinct from end-of-stream.
/// * `UseAfterClose`: an operation on a closed handle or cursor.
/// * `InvalidInput`: a path or pattern holds bytes that cannot form a valid
///   platform string (an embedded NUL).
#[derive(Clone, Copy, PartialEq, Eq, Structural, Debug)]
pub enum PakError {
    MalformedArchive,
    NotFound,
    UnsupportedMode,
    ReadFailure,
    UseAfterClose,
    InvalidInput,
}

} // verus!
