//! Directory search: Win32-style find-data records, the stateful search
//! cursor, and the high-level search iterator.
//!
//! A search walks the merged namespace — mounted archives in registration
//! order, then the disk store — and yields every entry of the pattern's
//! directory level whose name matches the `*` / `?` pattern. Enumerations
//! that reach the disk store surface the synthetic `.` and `..`
//! self-entries, as a live filesystem would; callers wanting the legacy
//! exclusion filter them, the iterator never does.

use vstd::prelude::*;

use crate::archive::EntryModel;
use crate::glob::glob_match;
use crate::interface::DiskFileModel;
use crate::interface::IfaceModel;
use crate::interface::MountModel;
use crate::norm::dir_part;
use crate::norm::name_part;
use crate::norm::norm;
use crate::PakError;

verus! {

/// The attribute bit marking a directory entry.
pub const FILE_ATTRIBUTE_DIRECTORY: u32 = 0x10;

/// The mathematical model of one find-data record.
pub ghost struct FindDataModel {
    pub filename: Seq<u8>,
    pub alternate: Seq<u8>,
    pub size_high: u32,
    pub size_low: u32,
    pub attributes: u32,
}

/// A point-in-time directory-entry record: the primary filename
/// (case-preserving as stored), an 8.3-style alternate name (empty for
/// archive entries, which never had one), the size kept as the legacy two
/// 32-bit halves, and an attribute bitmask. Immutable once produced.
pub struct FileData {
    filename: Vec<u8>,
    alternate_filename: Vec<u8>,
    size_high: u32,
    size_low: u32,
    attributes: u32,
}

impl View for FileData {
    type V = FindDataModel;

    closed spec fn view(&self) -> FindDataModel {
        FindDataModel {
            filename: self.filename@,
            alternate: self.alternate_filename@,
            size_high: self.size_high,
            size_low: self.size_low,
            attributes: self.attributes,
        }
    }
}

/// The 64-bit size a record's two legacy halves reconstruct to.
pub open spec fn spec_file_size(d: FindDataModel) -> u64 {
    ((d.size_high as u64) << 32) | (d.size_low as u64)
}

impl FileData {
    /// Assemble a record from its legacy fields: the size arrives as the
    /// two 32-bit halves of the 64-bit value.
    pub fn new(
        filename: Vec<u8>,
        alternate_filename: Vec<u8>,
        size_high: u32,
        size_low: u32,
        attributes: u32,
    ) -> (r: FileData)
        ensures
            r@ == (FindDataModel {
                filename: filename@,
                alternate: alternate_filename@,
                size_high: size_high,
                size_low: size_low,
                attributes: attributes,
            }),
    {
        FileData { filename, alternate_filename, size_high, size_low, attributes }
    }

    /// The primary filename, case-preserving as stored.
    pub fn filename(&self) -> (r: &Vec<u8>)
        ensures
            r@ == self@.filename,
    {
        &self.filename
    }

    /// The legacy 8.3-style alternate name; empty where none exists.
    pub fn alternate_filename(&self) -> (r: &Vec<u8>)
        ensures
            r@ == self@.alternate,
    {
        &self.alternate_filename
    }

    /// The 64-bit size, reconstructed exactly from the legacy high/low
    /// 32-bit halves: `(high << 32) | low`.
    pub fn file_size(&self) -> (r: u64)
        ensures
            r == spec_file_size(self@),
    {
        ((self.size_high as u64) << 32) | (self.size_low as u64)
    }

    /// Is the directory bit set in the attribute mask?
    pub fn is_dir(&self) -> (r: bool)
        ensures
            r == ((self@.attributes & FILE_ATTRIBUTE_DIRECTORY) != 0),
    {
        self.attributes & FILE_ATTRIBUTE_DIRECTORY != 0
    }
}

/// Splitting a 64-bit size into its 32-bit halves and reconstructing with
/// `(high << 32) | low` gives the size back exactly.
pub proof fn lemma_size_split_reconstruct(s: u64)
    ensures
        (((s >> 32) as u32 as u64) << 32) | (s as u32 as u64) == s,
{
    assert((((s >> 32) as u32 as u64) << 32) | (s as u32 as u64) == s) by (bit_vector);
}

/// The size a search record reconstructs from its legacy halves is exactly
/// the archive entry's 64-bit size — even past 2^32.
pub proof fn lemma_entry_fd_size(e: EntryModel)
    ensures
        spec_file_size(entry_fd(e)) == e.size,
{
    lemma_size_split_reconstruct(e.size);
}

/// The cursor's state machine: `Created` before the first step, `Active`
/// while yielding, `Exhausted` once no further match exists, `Closed` after
/// `find_close`.
#[derive(Clone, Copy, PartialEq, Eq, Structural, Debug)]
pub enum SearchState {
    Created,
    Active,
    Exhausted,
    Closed,
}

/// Transient state of one enumeration: the matches not yet yielded and the
/// state-machine state. Created by `find_first_file`, advanced by
/// `find_next_file`, closed by `find_close`.
pub struct FileSearch {
    pending: Vec<FileData>,
    state: SearchState,
}

impl FileSearch {
    /// The matches not yet yielded, in namespace order.
    pub closed spec fn spec_pending(self) -> Seq<FindDataModel> {
        self.pending@.map_values(|d: FileData| d@)
    }

    /// The cursor's state-machine state.
    pub closed spec fn spec_state(self) -> SearchState {
        self.state
    }

    /// A fresh cursor over a match list, not yet stepped.
    pub fn new(matches: Vec<FileData>) -> (r: FileSearch)
        ensures
            r.spec_state() == SearchState::Created,
            r.spec_pending() == matches@.map_values(|d: FileData| d@),
    {
        FileSearch { pending: matches, state: SearchState::Created }
    }

    /// One step of the state machine: yield the next match, or report
    /// exhaustion (for good — an exhausted cursor never yields again), or
    /// fail once closed.
    pub(crate) fn step(&mut self) -> (r: Result<Option<FileData>, PakError>)
        ensures
            old(self).spec_state() == SearchState::Closed ==> r == Err::<
                Option<FileData>,
                PakError,
            >(PakError::UseAfterClose) && *final(self) == *old(self),
            old(self).spec_state() == SearchState::Exhausted ==> r == Ok::<
                Option<FileData>,
                PakError,
            >(None) && *final(self) == *old(self),
            (old(self).spec_state() == SearchState::Created || old(self).spec_state()
                == SearchState::Active) ==> {
                &&& old(self).spec_pending().len() > 0 ==> {
                    &&& r is Ok
                    &&& r->Ok_0 is Some
                    &&& (r->Ok_0->Some_0)@ == old(self).spec_pending()[0]
                    &&& final(self).spec_pending() == old(self).spec_pending().skip(1)
                    &&& final(self).spec_state() == SearchState::Active
                }
                &&& old(self).spec_pending().len() == 0 ==> {
                    &&& r == Ok::<Option<FileData>, PakError>(None)
                    &&& final(self).spec_pending() == old(self).spec_pending()
                    &&& final(self).spec_state() == SearchState::Exhausted
                }
            },
    {
        match self.state {
            SearchState::Closed => Err(PakError::UseAfterClose),
            SearchState::Exhausted => Ok(None),
            SearchState::Created | SearchState::Active => {
                if self.pending.len() == 0 {
                    self.state = SearchState::Exhausted;
                    Ok(None)
                } else {
                    self.state = SearchState::Active;
                    let fd = self.pending.remove(0);
                    proof {
                        assert(self.pending@.map_values(|d: FileData| d@) =~= old(
                            self,
                        ).spec_pending().skip(1));
                    }
                    Ok(Some(fd))
                }
            },
        }
    }

    /// Close the cursor: idempotent, keeps the (now unreachable) pending
    /// list. Reports whether the cursor was still open.
    pub(crate) fn do_close(&mut self) -> (r: bool)
        ensures
            final(self).spec_state() == SearchState::Closed,
            final(self).spec_pending() == old(self).spec_pending(),
            r == (old(self).spec_state() != SearchState::Closed),
    {
        let was_open = !matches!(self.state, SearchState::Closed);
        self.state = SearchState::Closed;
        was_open
    }
}

/// Does the entry sit in the searched directory with a matching name?
pub open spec fn entry_matches(e: EntryModel, dirq: Seq<u8>, pat: Seq<u8>) -> bool {
    norm(dir_part(e.path)) == dirq && glob_match(pat, name_part(e.path))
}

/// The find-data record an archive entry yields: its name within the
/// directory, no alternate name, the size split into the legacy halves.
pub open spec fn entry_fd(e: EntryModel) -> FindDataModel {
    FindDataModel {
        filename: name_part(e.path),
        alternate: Seq::empty(),
        size_high: (e.size >> 32) as u32,
        size_low: e.size as u32,
        attributes: e.attributes,
    }
}

/// The per-entry match-and-map step of one mount's enumeration.
pub open spec fn entry_match_map(dirq: Seq<u8>, pat: Seq<u8>) -> spec_fn(EntryModel) -> Option<
    FindDataModel,
> {
    |e: EntryModel|
        if entry_matches(e, dirq, pat) {
            Some(entry_fd(e))
        } else {
            None
        }
}

/// One mount's matches, in table order.
pub open spec fn mount_matches(es: Seq<EntryModel>, dirq: Seq<u8>, pat: Seq<u8>) -> Seq<
    FindDataModel,
> {
    es.filter_map(entry_match_map(dirq, pat))
}

/// Growing the scanned prefix by one entry appends that entry's record
/// exactly when it matches.
pub proof fn lemma_mount_matches_take_succ(es: Seq<EntryModel>, dirq: Seq<u8>, pat: Seq<u8>, k: int)
    requires
        0 <= k < es.len(),
    ensures
        mount_matches(es.take(k + 1), dirq, pat) == mount_matches(es.take(k), dirq, pat) + (
        if entry_matches(es[k], dirq, pat) {
            seq![entry_fd(es[k])]
        } else {
            Seq::<FindDataModel>::empty()
        }),
{
    es.lemma_filter_map_take_succ(entry_match_map(dirq, pat), k);
}

/// All mounts' matches from mount `mi` on, mounts in registration order.
pub open spec fn mounts_matches_from(
    mounts: Seq<MountModel>,
    dirq: Seq<u8>,
    pat: Seq<u8>,
    mi: int,
) -> Seq<FindDataModel>
    decreases mounts.len() - mi,
{
    if !(0 <= mi < mounts.len()) {
        Seq::empty()
    } else {
        mount_matches(mounts[mi].entries, dirq, pat) + mounts_matches_from(
            mounts,
            dirq,
            pat,
            mi + 1,
        )
    }
}

/// Does normalized path `p` lie under directory `d` (at any depth)?
pub open spec fn in_dir_chain(p: Seq<u8>, d: Seq<u8>) -> bool {
    p.len() > d.len() && p.subrange(0, d.len() as int) == d && p[d.len() as int] == 0x2f
}

/// Does the searched directory exist on the disk store? The store's root
/// always exists; a subdirectory exists when some registered file lies
/// under it.
pub open spec fn disk_dir_exists(disk: Seq<DiskFileModel>, dirq: Seq<u8>) -> bool {
    dirq.len() == 0 || exists|k: int|
        0 <= k < disk.len() && in_dir_chain(norm(#[trigger] disk[k].path), dirq)
}

/// A synthetic `.` or `..` self-entry: a directory marker of size 0.
pub open spec fn dot_fd(name: Seq<u8>) -> FindDataModel {
    FindDataModel {
        filename: name,
        alternate: Seq::empty(),
        size_high: 0,
        size_low: 0,
        attributes: FILE_ATTRIBUTE_DIRECTORY,
    }
}

/// The `.` / `..` records the disk store surfaces, when its directory
/// exists and the pattern matches them.
pub open spec fn dot_matches(disk: Seq<DiskFileModel>, dirq: Seq<u8>, pat: Seq<u8>) -> Seq<
    FindDataModel,
> {
    if disk_dir_exists(disk, dirq) {
        (if glob_match(pat, seq![0x2eu8]) {
            seq![dot_fd(seq![0x2eu8])]
        } else {
            Seq::empty()
        }) + (if glob_match(pat, seq![0x2eu8, 0x2eu8]) {
            seq![dot_fd(seq![0x2eu8, 0x2eu8])]
        } else {
            Seq::empty()
        })
    } else {
        Seq::empty()
    }
}

pub open spec fn disk_file_matches(f: DiskFileModel, dirq: Seq<u8>, pat: Seq<u8>) -> bool {
    norm(dir_part(f.path)) == dirq && glob_match(pat, name_part(f.path))
}

/// The record a registered disk file yields.
pub open spec fn disk_fd(f: DiskFileModel) -> FindDataModel {
    FindDataModel {
        filename: name_part(f.path),
        alternate: Seq::empty(),
        size_high: ((f.data.len() as u64) >> 32) as u32,
        size_low: (f.data.len() as u64) as u32,
        attributes: 0,
    }
}

/// The per-file match-and-map step of the disk store's enumeration.
pub open spec fn disk_match_map(dirq: Seq<u8>, pat: Seq<u8>) -> spec_fn(DiskFileModel) -> Option<
    FindDataModel,
> {
    |f: DiskFileModel|
        if disk_file_matches(f, dirq, pat) {
            Some(disk_fd(f))
        } else {
            None
        }
}

/// The disk store's file matches, in registration order.
pub open spec fn disk_matches(disk: Seq<DiskFileModel>, dirq: Seq<u8>, pat: Seq<u8>) -> Seq<
    FindDataModel,
> {
    disk.filter_map(disk_match_map(dirq, pat))
}

/// Growing the scanned prefix by one disk file appends that file's record
/// exactly when it matches.
pub proof fn lemma_disk_matches_take_succ(
    disk: Seq<DiskFileModel>,
    dirq: Seq<u8>,
    pat: Seq<u8>,
    k: int,
)
    requires
        0 <= k < disk.len(),
    ensures
        disk_matches(disk.take(k + 1), dirq, pat) == disk_matches(disk.take(k), dirq, pat) + (
        if disk_file_matches(disk[k], dirq, pat) {
            seq![disk_fd(disk[k])]
        } else {
            Seq::<FindDataModel>::empty()
        }),
{
    disk.lemma_filter_map_take_succ(disk_match_map(dirq, pat), k);
}

/// The whole match list for a split pattern: mounts in order, then the
/// disk store's synthetic self-entries, then its files.
pub open spec fn search_matches_parts(m: IfaceModel, dirq: Seq<u8>, pat: Seq<u8>) -> Seq<
    FindDataModel,
> {
    mounts_matches_from(m.mounts, dirq, pat, 0) + dot_matches(m.disk, dirq, pat) + disk_matches(
        m.disk,
        dirq,
        pat,
    )
}

/// The match list of a raw pattern: its directory part (normalized) names
/// the searched directory, its name part is the wildcard.
pub open spec fn search_matches(m: IfaceModel, pattern: Seq<u8>) -> Seq<FindDataModel> {
    search_matches_parts(m, norm(dir_part(pattern)), name_part(pattern))
}

/// A high-level search iterator: the cursor plus the one-record buffer the
/// legacy protocol implies — `find_first_file` hands the first record out
/// before any `next` call, so the iterator always holds the record it will
/// yield next.
pub struct FileSearchIter {
    search: FileSearch,
    data: Option<FileData>,
}

impl FileSearchIter {
    /// The records the iterator has yet to yield, in namespace order.
    pub closed spec fn spec_stream(self) -> Seq<FindDataModel> {
        match self.data {
            Some(d) => seq![d@] + self.search.spec_pending(),
            None => Seq::empty(),
        }
    }

    /// Has the iterator been closed?
    pub closed spec fn spec_closed(self) -> bool {
        self.search.spec_state() == SearchState::Closed
    }

    /// The iterator's internal consistency: an exhausted cursor holds no
    /// pending match. Every constructor establishes it and every method
    /// preserves it.
    pub closed spec fn spec_inv(self) -> bool {
        self.search.spec_state() == SearchState::Exhausted ==> self.search.spec_pending().len()
            == 0
    }

    /// Begin an enumeration over the interface's merged namespace; `None`
    /// when the query is invalid or nothing matches.
    pub(crate) fn new(iface: &crate::interface::PakInterface, query: &[u8]) -> (r: Option<
        FileSearchIter,
    >)
        requires
            iface.wf(),
        ensures
            r is Some <==> (!crate::norm::has_nul(query@) && search_matches(iface@, query@).len()
                > 0),
            r is Some ==> ({
                &&& r->Some_0.spec_stream() == search_matches(iface@, query@)
                &&& !r->Some_0.spec_closed()
                &&& r->Some_0.spec_inv()
            }),
    {
        match iface.find_first_file(query) {
            Err(_) => None,
            Ok(None) => None,
            Ok(Some((search, data))) => {
                let it = FileSearchIter { search, data: Some(data) };
                proof {
                    let ms = search_matches(iface@, query@);
                    assert(it.spec_stream() =~= seq![ms[0]] + ms.skip(1));
                    assert(seq![ms[0]] + ms.skip(1) =~= ms);
                }
                Some(it)
            },
        }
    }

    /// Yield the next record: the buffered one, while the cursor fetches
    /// its successor — exactly the legacy swap. A closed or exhausted
    /// iterator yields nothing, ever.
    pub fn next(&mut self) -> (r: Option<FileData>)
        ensures
            old(self).spec_closed() ==> r is None && *final(self) == *old(self),
            !old(self).spec_closed() && old(self).spec_inv() ==> {
                &&& !final(self).spec_closed()
                &&& final(self).spec_inv()
                &&& old(self).spec_stream().len() > 0 ==> {
                    &&& r is Some
                    &&& r->Some_0@ == old(self).spec_stream()[0]
                    &&& final(self).spec_stream() == old(self).spec_stream().skip(1)
                }
                &&& old(self).spec_stream().len() == 0 ==> r is None
                    && final(self).spec_stream().len() == 0
            },
    {
        if self.data.is_none() {
            return None;
        }
        let stepped = self.search.step();
        match stepped {
            Err(_) => None,
            Ok(mut nxt) => {
                core::mem::swap(&mut self.data, &mut nxt);
                proof {
                    if old(self).spec_stream().len() > 0 && !old(self).spec_closed() && old(
                        self,
                    ).spec_inv() {
                        assert(self.spec_stream() =~= old(self).spec_stream().skip(1));
                    }
                }
                nxt
            },
        }
    }

    /// Close the enumeration: the cursor transitions to Closed and the
    /// buffer is dropped. Idempotent; reports whether it was still open.
    pub fn close(&mut self) -> (r: bool)
        ensures
            final(self).spec_closed(),
            final(self).spec_inv(),
            final(self).spec_stream().len() == 0,
            r == !old(self).spec_closed(),
    {
        self.data = None;
        self.search.do_close()
    }
}

} // verus!
