//! Open read cursors over a resolved backing store.
//!
//! A `FileHandle` is a small token bound to one backing store of a
//! `PakInterface` — either a byte range inside a mounted archive or one
//! registered disk-backed file — together with its own cursor position.
//! `File` is the high-level wrapper offering read / position / eof / close.

use vstd::prelude::*;

use crate::interface::handle_wf;
use crate::interface::mode_ok;
use crate::interface::resolve;
use crate::interface::source_bytes;
use crate::interface::source_ok;
use crate::interface::PakInterface;
use crate::norm::has_nul;
use crate::norm::norm;
use crate::PakError;

verus! {

/// Which backing store a handle reads from: an entry of a mounted archive,
/// or a registered disk-backed file.
#[derive(Clone, Copy, PartialEq, Eq, Structural, Debug)]
pub enum HandleSource {
    Archive { mount: usize, entry: usize },
    Disk { index: usize },
}

/// The mathematical model of a backing-store reference.
pub ghost enum SourceId {
    Archive { mount: int, entry: int },
    Disk { index: int },
}

pub open spec fn source_id_of(s: HandleSource) -> SourceId {
    match s {
        HandleSource::Archive { mount, entry } => SourceId::Archive {
            mount: mount as int,
            entry: entry as int,
        },
        HandleSource::Disk { index } => SourceId::Disk { index: index as int },
    }
}

/// An open read cursor: a backing-store reference, the cursor position, the
/// stream length, and whether the handle was closed. A handle never holds
/// the bytes themselves; reads go through the interface that produced it.
pub struct FileHandle {
    pub source: HandleSource,
    pub pos: u64,
    pub len: u64,
    pub closed: bool,
}

impl FileHandle {
    /// The backing store this handle reads from.
    pub open spec fn source_model(self) -> SourceId {
        source_id_of(self.source)
    }

    /// The cursor position, in bytes from the stream's start.
    pub open spec fn spec_pos(self) -> u64 {
        self.pos
    }

    /// The stream length in bytes.
    pub open spec fn spec_len(self) -> u64 {
        self.len
    }

    /// Has the handle been closed?
    pub open spec fn spec_closed(self) -> bool {
        self.closed
    }

    /// A fresh handle over the given backing store: cursor at the start,
    /// not closed.
    pub fn new(source: HandleSource, len: u64) -> (r: FileHandle)
        ensures
            r.source_model() == source_id_of(source),
            r.spec_pos() == 0,
            r.spec_len() == len,
            !r.spec_closed(),
    {
        FileHandle { source, pos: 0, len, closed: false }
    }
}

/// A high-level open file: a handle plus the read / position / eof / close
/// interface. Reads are served by the `PakInterface` that resolved it.
pub struct File {
    pub(crate) handle: FileHandle,
}

impl View for File {
    type V = FileHandle;

    closed spec fn view(&self) -> FileHandle {
        self.handle
    }
}

impl File {
    /// Resolve `path` against the interface (mounts in registration order,
    /// then the disk store) and open a read cursor over the match.
    pub fn open(iface: &PakInterface, path: &[u8], mode: &[u8]) -> (r: Option<File>)
        requires
            iface.wf(),
        ensures
            r is Some <==> (!has_nul(path@) && mode_ok(mode@) && resolve(iface@, norm(path@))
                is Some),
            r is Some ==> ({
                let h = r->Some_0@;
                &&& Some(h.source_model()) == resolve(iface@, norm(path@))
                &&& h.spec_pos() == 0
                &&& !h.spec_closed()
                &&& handle_wf(iface@, h)
            }),
    {
        match iface.fopen(path, mode) {
            Ok(handle) => Some(File { handle }),
            Err(_) => None,
        }
    }

    /// Read up to `count` bytes from the cursor. Returns the bytes read —
    /// fewer than `count` only when the stream's end is reached, and an
    /// empty buffer exactly at end-of-stream, which is not an error.
    pub fn read(&mut self, iface: &PakInterface, count: usize) -> (r: Result<Vec<u8>, PakError>)
        requires
            iface.wf(),
        ensures
            old(self)@.spec_closed() ==> r == Err::<Vec<u8>, PakError>(PakError::UseAfterClose)
                && *final(self) == *old(self),
            !old(self)@.spec_closed() && !source_ok(iface@, old(self)@.source_model()) ==> r
                == Err::<Vec<u8>, PakError>(PakError::ReadFailure) && *final(self) == *old(self),
            r is Ok <==> (!old(self)@.spec_closed() && source_ok(
                iface@,
                old(self)@.source_model(),
            )),
            r is Ok ==> ({
                let sb = source_bytes(iface@, old(self)@.source_model());
                let p = old(self)@.spec_pos() as int;
                &&& final(self)@.source_model() == old(self)@.source_model()
                &&& final(self)@.spec_len() == old(self)@.spec_len()
                &&& !final(self)@.spec_closed()
                &&& if p <= sb.len() {
                    let take = if count as int <= sb.len() - p {
                        count as int
                    } else {
                        sb.len() - p
                    };
                    r->Ok_0@ == sb.subrange(p, p + take) && final(self)@.spec_pos() == p + take
                } else {
                    r->Ok_0@ == Seq::<u8>::empty() && final(self)@.spec_pos() == old(
                        self,
                    )@.spec_pos()
                }
            }),
    {
        iface.fread(&mut self.handle, count)
    }

    /// Is the cursor at or past the stream's end?
    pub fn is_eof(&self) -> (r: bool)
        ensures
            r == (self@.spec_pos() >= self@.spec_len()),
    {
        self.handle.pos >= self.handle.len
    }

    /// The cursor position, or `None` once the file is closed.
    pub fn position(&self) -> (r: Option<u64>)
        ensures
            self@.spec_closed() ==> r is None,
            !self@.spec_closed() ==> r == Some(self@.spec_pos()),
    {
        if self.handle.closed {
            None
        } else {
            Some(self.handle.pos)
        }
    }

    /// Close the file. Idempotent; 0 means success, mirroring the legacy
    /// convention.
    pub fn close(&mut self) -> (r: i32)
        ensures
            r == 0,
            final(self)@.spec_closed(),
            final(self)@.source_model() == old(self)@.source_model(),
            final(self)@.spec_pos() == old(self)@.spec_pos(),
            final(self)@.spec_len() == old(self)@.spec_len(),
    {
        self.handle.closed = true;
        0
    }
}

} // verus!
