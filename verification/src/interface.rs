//! The pak interface: the mount registry and path resolver.
//!
//! A `PakInterface` owns zero or more mounted archives (each a parsed index
//! plus the raw archive bytes) and a disk store holding the host files the
//! embedding layer has registered as fallback content. A logical path
//! resolves against the mounts in registration order — the first match wins,
//! so earlier mounts shadow later ones — and falls back to the disk store.

use vstd::prelude::*;

use crate::archive::entries_in_bounds;
use crate::archive::entries_paths_ok;
use crate::archive::entries_unique;
use crate::archive::entry_in_bounds;
use crate::archive::lemma_table_paths_ok;
use crate::archive::path_ok;
use crate::archive::spec_parse;
use crate::archive::ArchiveIndex;
use crate::archive::EntryModel;
use crate::file::File;
use crate::file::FileHandle;
use crate::file::HandleSource;
use crate::file::SourceId;
use crate::glob::glob_match;
use crate::glob::glob_matches;
use crate::norm::contains_nul;
use crate::norm::dir_part;
use crate::norm::has_nul;
use crate::norm::lemma_name_start_bounds;
use crate::norm::name_part;
use crate::norm::norm;
use crate::norm::norm_eq;
use crate::norm::normalize;
use crate::norm::split_path;
use crate::search::disk_dir_exists;
use crate::search::disk_file_matches;
use crate::search::disk_fd;
use crate::search::disk_matches;
use crate::search::dot_fd;
use crate::search::dot_matches;
use crate::search::entry_fd;
use crate::search::entry_matches;
use crate::search::in_dir_chain;
use crate::search::lemma_disk_matches_take_succ;
use crate::search::lemma_mount_matches_take_succ;
use crate::search::mount_matches;
use crate::search::mounts_matches_from;
use crate::search::search_matches;
use crate::search::search_matches_parts;
use crate::search::FileData;
use crate::search::FileSearch;
use crate::search::FileSearchIter;
use crate::search::FindDataModel;
use crate::search::SearchState;
use crate::search::FILE_ATTRIBUTE_DIRECTORY;
use crate::PakError;

verus! {

/// The mathematical model of one mount: the parsed entries and the raw
/// archive bytes they address.
pub ghost struct MountModel {
    pub entries: Seq<EntryModel>,
    pub data: Seq<u8>,
}

/// The mathematical model of one registered disk-backed file.
pub ghost struct DiskFileModel {
    pub path: Seq<u8>,
    pub data: Seq<u8>,
}

/// The mathematical model of a whole interface.
pub ghost struct IfaceModel {
    pub mounts: Seq<MountModel>,
    pub disk: Seq<DiskFileModel>,
}

/// One registered, parsed archive: its index plus the archive's raw bytes.
pub(crate) struct Mount {
    pub(crate) index: ArchiveIndex,
    pub(crate) data: Vec<u8>,
}

impl View for Mount {
    type V = MountModel;

    closed spec fn view(&self) -> MountModel {
        MountModel { entries: self.index@, data: self.data@ }
    }
}

/// One disk-backed file made reachable through the fallback store.
pub(crate) struct DiskFile {
    pub(crate) path: Vec<u8>,
    pub(crate) data: Vec<u8>,
}

impl View for DiskFile {
    type V = DiskFileModel;

    closed spec fn view(&self) -> DiskFileModel {
        DiskFileModel { path: self.path@, data: self.data@ }
    }
}

/// The mount registry and path resolver.
pub struct PakInterface {
    pub(crate) mounts: Vec<Mount>,
    pub(crate) disk: Vec<DiskFile>,
}

impl View for PakInterface {
    type V = IfaceModel;

    closed spec fn view(&self) -> IfaceModel {
        IfaceModel {
            mounts: self.mounts@.map_values(|m: Mount| m@),
            disk: self.disk@.map_values(|d: DiskFile| d@),
        }
    }
}

/// A well-formed mount: entry ranges inside the archive bytes, normalized
/// paths unique, every path non-empty and NUL-free.
pub open spec fn mount_wf(m: MountModel) -> bool {
    &&& entries_in_bounds(m.entries, m.data.len() as int)
    &&& entries_unique(m.entries)
    &&& entries_paths_ok(m.entries)
}

pub open spec fn iface_wf(m: IfaceModel) -> bool {
    &&& forall|i: int| 0 <= i < m.mounts.len() ==> mount_wf(#[trigger] m.mounts[i])
    &&& forall|d: int| 0 <= d < m.disk.len() ==> path_ok(#[trigger] m.disk[d].path)
}

/// The accepted access mode: read-binary, the two bytes `rb`. The layer is
/// read-only by design; every other mode is rejected.
pub open spec fn mode_ok(mode: Seq<u8>) -> bool {
    mode == seq![0x72u8, 0x62u8]
}

/// First entry at or after `k` whose normalized path equals the normalized
/// query `q`.
pub open spec fn entry_find_from(es: Seq<EntryModel>, q: Seq<u8>, k: int) -> Option<int>
    decreases es.len() - k,
{
    if !(0 <= k < es.len()) {
        None
    } else if norm(es[k].path) == q {
        Some(k)
    } else {
        entry_find_from(es, q, k + 1)
    }
}

/// First disk file at or after `k` whose normalized path equals `q`.
pub open spec fn disk_find_from(ds: Seq<DiskFileModel>, q: Seq<u8>, k: int) -> Option<int>
    decreases ds.len() - k,
{
    if !(0 <= k < ds.len()) {
        None
    } else if norm(ds[k].path) == q {
        Some(k)
    } else {
        disk_find_from(ds, q, k + 1)
    }
}

/// Resolution from mount `mi` on: the first mount (in registration order)
/// holding the path wins; after the mounts, the disk store is consulted.
pub open spec fn resolve_from(m: IfaceModel, q: Seq<u8>, mi: int) -> Option<SourceId>
    decreases m.mounts.len() - mi,
{
    if !(0 <= mi < m.mounts.len()) {
        match disk_find_from(m.disk, q, 0) {
            Some(d) => Some(SourceId::Disk { index: d }),
            None => None,
        }
    } else {
        match entry_find_from(m.mounts[mi].entries, q, 0) {
            Some(e) => Some(SourceId::Archive { mount: mi, entry: e }),
            None => resolve_from(m, q, mi + 1),
        }
    }
}

/// Resolve a normalized query against the whole interface.
pub open spec fn resolve(m: IfaceModel, q: Seq<u8>) -> Option<SourceId> {
    resolve_from(m, q, 0)
}

/// Does some entry of the table carry this normalized path?
pub open spec fn mount_has(es: Seq<EntryModel>, q: Seq<u8>) -> bool {
    exists|e: int| 0 <= e < es.len() && norm(#[trigger] es[e].path) == q
}

/// Does the backing-store reference point into the interface, with its byte
/// range in bounds?
pub open spec fn source_ok(m: IfaceModel, s: SourceId) -> bool {
    match s {
        SourceId::Archive { mount, entry } => {
            &&& 0 <= mount < m.mounts.len()
            &&& 0 <= entry < m.mounts[mount].entries.len()
            &&& entry_in_bounds(m.mounts[mount].entries[entry], m.mounts[mount].data.len() as int)
        },
        SourceId::Disk { index } => 0 <= index < m.disk.len(),
    }
}

/// The full byte content of the stream a backing-store reference denotes.
pub open spec fn source_bytes(m: IfaceModel, s: SourceId) -> Seq<u8> {
    match s {
        SourceId::Archive { mount, entry } => {
            let e = m.mounts[mount].entries[entry];
            m.mounts[mount].data.subrange(e.offset as int, e.offset + e.size)
        },
        SourceId::Disk { index } => m.disk[index].data,
    }
}

/// A handle consistent with the interface that produced it: its source is
/// valid, its recorded length is the stream's length, and its cursor never
/// passes the end.
pub open spec fn handle_wf(m: IfaceModel, h: FileHandle) -> bool {
    &&& source_ok(m, h.source_model())
    &&& h.spec_len() == source_bytes(m, h.source_model()).len()
    &&& h.spec_pos() <= h.spec_len()
}

/// Skipping a matchless prefix of one mount's entries keeps the result.
pub proof fn lemma_entry_find_skip(es: Seq<EntryModel>, q: Seq<u8>, k: int)
    requires
        0 <= k <= es.len(),
        forall|j: int| 0 <= j < k ==> norm(#[trigger] es[j].path) != q,
    ensures
        entry_find_from(es, q, 0) == entry_find_from(es, q, k),
    decreases k,
{
    if k > 0 {
        lemma_entry_find_skip(es, q, k - 1);
    }
}

pub proof fn lemma_disk_find_skip(ds: Seq<DiskFileModel>, q: Seq<u8>, k: int)
    requires
        0 <= k <= ds.len(),
        forall|j: int| 0 <= j < k ==> norm(#[trigger] ds[j].path) != q,
    ensures
        disk_find_from(ds, q, 0) == disk_find_from(ds, q, k),
    decreases k,
{
    if k > 0 {
        lemma_disk_find_skip(ds, q, k - 1);
    }
}

/// Skipping a matchless prefix of the mount list keeps the result.
pub proof fn lemma_resolve_skip(m: IfaceModel, q: Seq<u8>, mi: int)
    requires
        0 <= mi <= m.mounts.len(),
        forall|mj: int| 0 <= mj < mi ==> entry_find_from(#[trigger] m.mounts[mj].entries, q, 0)
            is None,
    ensures
        resolve_from(m, q, 0) == resolve_from(m, q, mi),
    decreases mi,
{
    if mi > 0 {
        lemma_resolve_skip(m, q, mi - 1);
    }
}

impl PakInterface {
    /// Is the interface well-formed? Constructors establish this and every
    /// method preserves it.
    pub open spec fn wf(self) -> bool {
        iface_wf(self@)
    }

    /// A fresh interface with no mounts and an empty disk store.
    pub fn new() -> (r: PakInterface)
        ensures
            r.wf(),
            r@.mounts == Seq::<MountModel>::empty(),
            r@.disk == Seq::<DiskFileModel>::empty(),
    {
        let r = PakInterface { mounts: Vec::new(), disk: Vec::new() };
        proof {
            assert(r@.mounts =~= Seq::<MountModel>::empty());
            assert(r@.disk =~= Seq::<DiskFileModel>::empty());
        }
        r
    }

    /// Parse an archive's bytes and append it to the mount list. Mounting
    /// is best-effort: a malformed archive is reported as `false` and the
    /// interface is left unchanged, so callers can probe optional archives.
    pub fn add_pak_file(&mut self, bytes: Vec<u8>) -> (r: bool)
        requires
            old(self).wf(),
        ensures
            final(self).wf(),
            r == (spec_parse(bytes@) is Some),
            r ==> final(self)@.mounts == old(self)@.mounts.push(
                MountModel { entries: spec_parse(bytes@)->Some_0, data: bytes@ },
            ) && final(self)@.disk == old(self)@.disk,
            !r ==> final(self)@ == old(self)@,
    {
        match ArchiveIndex::parse(bytes.as_slice()) {
            Ok(index) => {
                proof {
                    lemma_table_paths_ok(bytes@, 4);
                }
                let ghost mm = MountModel { entries: index@, data: bytes@ };
                let ghost before = self@;
                self.mounts.push(Mount { index, data: bytes });
                proof {
                    assert(self@.mounts =~= before.mounts.push(mm));
                    assert(self@.disk =~= before.disk);
                    assert(mount_wf(mm));
                    assert forall|i: int| 0 <= i < self@.mounts.len() implies mount_wf(
                        #[trigger] self@.mounts[i],
                    ) by {
                        if i < before.mounts.len() {
                            assert(self@.mounts[i] == before.mounts[i]);
                        }
                    }
                }
                true
            },
            Err(_) => false,
        }
    }

    /// Register one host file's path and bytes in the disk fallback store.
    /// The embedding layer uses this to make real files reachable through
    /// the interface. Rejects an empty path or one holding a NUL.
    pub fn add_disk_file(&mut self, path: Vec<u8>, data: Vec<u8>) -> (r: bool)
        requires
            old(self).wf(),
        ensures
            final(self).wf(),
            r == path_ok(path@),
            r ==> final(self)@.disk == old(self)@.disk.push(
                DiskFileModel { path: path@, data: data@ },
            ) && final(self)@.mounts == old(self)@.mounts,
            !r ==> final(self)@ == old(self)@,
    {
        if path.len() < 1 {
            return false;
        }
        if contains_nul(path.as_slice()) {
            return false;
        }
        let ghost dm = DiskFileModel { path: path@, data: data@ };
        let ghost before = self@;
        self.disk.push(DiskFile { path, data });
        proof {
            assert(self@.disk =~= before.disk.push(dm));
            assert(self@.mounts =~= before.mounts);
            assert forall|d: int| 0 <= d < self@.disk.len() implies path_ok(
                #[trigger] self@.disk[d].path,
            ) by {
                if d < before.disk.len() {
                    assert(self@.disk[d] == before.disk[d]);
                }
            }
        }
        true
    }

    /// Open a file by logical path: mounts in registration order, then the
    /// disk store. Returns the typed failure: `InvalidInput` for a path
    /// with an embedded NUL, `UnsupportedMode` for any mode but read-binary
    /// `rb`, `NotFound` when no store holds the path.
    #[verifier::loop_isolation(false)]
    pub fn fopen(&self, name: &[u8], access: &[u8]) -> (r: Result<FileHandle, PakError>)
        requires
            self.wf(),
        ensures
            ({
                let q = norm(name@);
                &&& (r == Err::<FileHandle, PakError>(PakError::InvalidInput) <==> has_nul(name@))
                &&& (r == Err::<FileHandle, PakError>(PakError::UnsupportedMode) <==> (!has_nul(
                    name@,
                ) && !mode_ok(access@)))
                &&& (r == Err::<FileHandle, PakError>(PakError::NotFound) <==> (!has_nul(name@)
                    && mode_ok(access@) && resolve(self@, q) is None))
                &&& (r is Ok <==> (!has_nul(name@) && mode_ok(access@) && resolve(self@, q)
                    is Some))
                &&& (r is Ok ==> ({
                    let h = r->Ok_0;
                    &&& Some(h.source_model()) == resolve(self@, q)
                    &&& h.spec_pos() == 0
                    &&& !h.spec_closed()
                    &&& handle_wf(self@, h)
                }))
            }),
    {
        if contains_nul(name) {
            return Err(PakError::InvalidInput);
        }
        if !(access.len() == 2 && access[0] == 0x72 && access[1] == 0x62) {
            proof {
                assert(!mode_ok(access@)) by {
                    if access@ == seq![0x72u8, 0x62u8] {
                        assert(access@.len() == 2);
                        assert(access@[0] == 0x72 && access@[1] == 0x62);
                    }
                }
            }
            return Err(PakError::UnsupportedMode);
        }
        proof {
            assert(access@ =~= seq![0x72u8, 0x62u8]);
        }
        let ghost q = norm(name@);
        let mut mi: usize = 0;
        while mi < self.mounts.len()
            invariant
                mi <= self.mounts.len(),
                forall|mj: int| 0 <= mj < mi ==> entry_find_from(
                    #[trigger] self@.mounts[mj].entries,
                    q,
                    0,
                ) is None,
            decreases self.mounts.len() - mi,
        {
            let ghost es = self@.mounts[mi as int].entries;
            let mut k: usize = 0;
            while k < self.mounts[mi].index.entries.len()
                invariant
                    mi < self.mounts.len(),
                    k <= es.len(),
                    forall|j: int| 0 <= j < k ==> norm(#[trigger] es[j].path) != q,
                decreases es.len() - k,
            {
                if norm_eq(self.mounts[mi].index.entries[k].path.as_slice(), name) {
                    proof {
                        assert(norm(es[k as int].path) == q);
                        lemma_entry_find_skip(es, q, k as int);
                        assert(entry_find_from(es, q, 0) == Some(k as int));
                        lemma_resolve_skip(self@, q, mi as int);
                        assert(resolve(self@, q) == Some(
                            SourceId::Archive { mount: mi as int, entry: k as int },
                        ));
                    }
                    let size = self.mounts[mi].index.entries[k].size;
                    let h = FileHandle::new(
                        HandleSource::Archive { mount: mi, entry: k },
                        size,
                    );
                    proof {
                        assert(mount_wf(self@.mounts[mi as int]));
                        assert(entry_in_bounds(
                            self@.mounts[mi as int].entries[k as int],
                            self@.mounts[mi as int].data.len() as int,
                        ));
                        assert(source_bytes(self@, h.source_model()).len() == size);
                    }
                    return Ok(h);
                }
                k = k + 1;
            }
            proof {
                lemma_entry_find_skip(es, q, es.len() as int);
            }
            mi = mi + 1;
        }
        proof {
            lemma_resolve_skip(self@, q, self@.mounts.len() as int);
        }
        let mut d: usize = 0;
        while d < self.disk.len()
            invariant
                d <= self.disk.len(),
                forall|dj: int| 0 <= dj < d ==> norm(#[trigger] self@.disk[dj].path) != q,
            decreases self.disk.len() - d,
        {
            if norm_eq(self.disk[d].path.as_slice(), name) {
                proof {
                    assert(norm(self@.disk[d as int].path) == q);
                    lemma_disk_find_skip(self@.disk, q, d as int);
                    assert(disk_find_from(self@.disk, q, 0) == Some(d as int));
                    assert(resolve(self@, q) == Some(SourceId::Disk { index: d as int }));
                }
                let dlen = self.disk[d].data.len();
                let h = FileHandle::new(HandleSource::Disk { index: d }, dlen as u64);
                return Ok(h);
            }
            d = d + 1;
        }
        proof {
            lemma_disk_find_skip(self@.disk, q, self@.disk.len() as int);
        }
        Err(PakError::NotFound)
    }

    /// Close a handle. Idempotent; 0 means success, mirroring the legacy
    /// convention.
    pub fn fclose(&self, file: &mut FileHandle) -> (r: i32)
        ensures
            r == 0,
            final(file).spec_closed(),
            final(file).source_model() == old(file).source_model(),
            final(file).spec_pos() == old(file).spec_pos(),
            final(file).spec_len() == old(file).spec_len(),
    {
        file.closed = true;
        0
    }

    /// Read up to `count` bytes at the handle's cursor and advance it.
    /// Reading at the stream's end yields an empty buffer and no error;
    /// a closed handle fails with `UseAfterClose`, a handle that does not
    /// point into this interface with `ReadFailure`.
    pub fn fread(&self, file: &mut FileHandle, count: usize) -> (r: Result<Vec<u8>, PakError>)
        requires
            self.wf(),
        ensures
            old(file).spec_closed() ==> r == Err::<Vec<u8>, PakError>(PakError::UseAfterClose)
                && *final(file) == *old(file),
            !old(file).spec_closed() && !source_ok(self@, old(file).source_model()) ==> r
                == Err::<Vec<u8>, PakError>(PakError::ReadFailure) && *final(file) == *old(file),
            r is Ok <==> (!old(file).spec_closed() && source_ok(self@, old(file).source_model())),
            r is Ok ==> ({
                let sb = source_bytes(self@, old(file).source_model());
                let p = old(file).spec_pos() as int;
                &&& final(file).source_model() == old(file).source_model()
                &&& final(file).spec_len() == old(file).spec_len()
                &&& !final(file).spec_closed()
                &&& if p <= sb.len() {
                    let take = if count as int <= sb.len() - p {
                        count as int
                    } else {
                        sb.len() - p
                    };
                    r->Ok_0@ == sb.subrange(p, p + take) && final(file).spec_pos() == p + take
                } else {
                    r->Ok_0@ == Seq::<u8>::empty() && final(file).spec_pos() == old(
                        file,
                    ).spec_pos()
                }
            }),
    {
        if file.closed {
            return Err(PakError::UseAfterClose);
        }
        match file.source {
            HandleSource::Archive { mount, entry } => {
                if mount >= self.mounts.len() {
                    return Err(PakError::ReadFailure);
                }
                if entry >= self.mounts[mount].index.entries.len() {
                    return Err(PakError::ReadFailure);
                }
                proof {
                    assert(mount_wf(self@.mounts[mount as int]));
                    assert(entry_in_bounds(
                        self@.mounts[mount as int].entries[entry as int],
                        self@.mounts[mount as int].data.len() as int,
                    ));
                }
                let offset = self.mounts[mount].index.entries[entry].offset;
                let size = self.mounts[mount].index.entries[entry].size;
                let dlen = self.mounts[mount].data.len();
                proof {
                    assert(offset + size <= dlen);
                    assert(offset as usize as u64 == offset);
                    assert(size as usize as u64 == size);
                }
                let (out, newpos) = read_range(
                    &self.mounts[mount].data,
                    offset as usize,
                    size as usize,
                    file.pos,
                    count,
                );
                file.pos = newpos;
                Ok(out)
            },
            HandleSource::Disk { index } => {
                if index >= self.disk.len() {
                    return Err(PakError::ReadFailure);
                }
                let dlen = self.disk[index].data.len();
                let (out, newpos) = read_range(&self.disk[index].data, 0, dlen, file.pos, count);
                file.pos = newpos;
                proof {
                    assert(self@.disk[index as int].data =~= self@.disk[index as int].data
                        .subrange(0, self@.disk[index as int].data.len() as int));
                }
                Ok(out)
            },
        }
    }

    /// Open a file by logical path, as `fopen`, behind the high-level
    /// `File` wrapper. `None` when the path is invalid, the mode is not
    /// read-binary, or no store holds the path.
    pub fn open_file(&self, name: &[u8], access: &[u8]) -> (r: Option<File>)
        requires
            self.wf(),
        ensures
            r is Some <==> (!has_nul(name@) && mode_ok(access@) && resolve(self@, norm(name@))
                is Some),
            r is Some ==> ({
                let h = r->Some_0@;
                &&& Some(h.source_model()) == resolve(self@, norm(name@))
                &&& h.spec_pos() == 0
                &&& !h.spec_closed()
                &&& handle_wf(self@, h)
            }),
    {
        File::open(self, name, access)
    }
}

/// Are two byte sequences equal?
fn bytes_eq(a: &[u8], b: &[u8]) -> (r: bool)
    ensures
        r == (a@ == b@),
{
    if a.len() != b.len() {
        return false;
    }
    let mut i: usize = 0;
    while i < a.len()
        invariant
            i <= a.len(),
            a@.len() == b@.len(),
            forall|k: int| 0 <= k < i ==> a@[k] == b@[k],
        decreases a.len() - i,
    {
        if a[i] != b[i] {
            return false;
        }
        i = i + 1;
    }
    proof {
        assert(a@ =~= b@);
    }
    true
}

/// Does the path lie in the searched directory, with a name matching the
/// pattern? `dirq` must already be normalized.
fn path_matches(path: &[u8], dirq: &Vec<u8>, pat: &[u8]) -> (r: bool)
    requires
        norm(dirq@) == dirq@,
    ensures
        r == (norm(dir_part(path@)) == dirq@ && glob_match(pat@, name_part(path@))),
{
    proof {
        lemma_name_start_bounds(path@);
    }
    let n = split_path(path);
    let name = &path[n..path.len()];
    let dir: &[u8] = if n > 0 {
        &path[0..n - 1]
    } else {
        &path[0..0]
    };
    proof {
        assert(name@ =~= name_part(path@));
        assert(dir@ =~= dir_part(path@));
    }
    if !norm_eq(dir, dirq.as_slice()) {
        return false;
    }
    glob_matches(pat, name)
}

/// Build the find-data record of a store entry: its name within the
/// directory, no alternate name, the 64-bit size split into the legacy
/// halves.
fn make_fd(path: &[u8], size: u64, attributes: u32) -> (r: FileData)
    ensures
        r@ == (FindDataModel {
            filename: name_part(path@),
            alternate: Seq::empty(),
            size_high: (size >> 32) as u32,
            size_low: size as u32,
            attributes: attributes,
        }),
{
    proof {
        lemma_name_start_bounds(path@);
    }
    let n = split_path(path);
    let name = vstd::slice::slice_to_vec(&path[n..path.len()]);
    proof {
        assert(name@ =~= name_part(path@));
    }
    FileData::new(name, Vec::new(), (size >> 32) as u32, size as u32, attributes)
}

/// The per-entry step of `list_all_file_paths`: entries with time metadata
/// yield their normalized path, the rest are excluded.
pub open spec fn list_path_map() -> spec_fn(EntryModel) -> Option<Seq<u8>> {
    |e: EntryModel|
        if e.timestamp != 0 {
            Some(norm(e.path))
        } else {
            None
        }
}

/// One mount's listed paths, in table order.
pub open spec fn mount_paths(es: Seq<EntryModel>) -> Seq<Seq<u8>> {
    es.filter_map(list_path_map())
}

pub proof fn lemma_mount_paths_take_succ(es: Seq<EntryModel>, k: int)
    requires
        0 <= k < es.len(),
    ensures
        mount_paths(es.take(k + 1)) == mount_paths(es.take(k)) + (if es[k].timestamp != 0 {
            seq![norm(es[k].path)]
        } else {
            Seq::<Seq<u8>>::empty()
        }),
{
    es.lemma_filter_map_take_succ(list_path_map(), k);
}

/// Every mount's listed paths from mount `mi` on.
pub open spec fn list_paths_from(mounts: Seq<MountModel>, mi: int) -> Seq<Seq<u8>>
    decreases mounts.len() - mi,
{
    if !(0 <= mi < mounts.len()) {
        Seq::empty()
    } else {
        mount_paths(mounts[mi].entries) + list_paths_from(mounts, mi + 1)
    }
}

/// Every archive entry with time metadata, across every mount in
/// registration order, as a normalized path.
pub open spec fn list_paths(m: IfaceModel) -> Seq<Seq<u8>> {
    list_paths_from(m.mounts, 0)
}

impl PakInterface {
    /// Collect the whole match list of a split pattern: mounts in
    /// registration order, then the disk store's `.` / `..` self-entries,
    /// then its files. `dirq` must already be normalized.
    #[verifier::loop_isolation(false)]
    fn collect_matches(&self, dirq: &Vec<u8>, pat: &[u8]) -> (r: Vec<FileData>)
        requires
            self.wf(),
            norm(dirq@) == dirq@,
        ensures
            r@.map_values(|d: FileData| d@) == search_matches_parts(self@, dirq@, pat@),
    {
        let ghost dq = dirq@;
        let ghost pt = pat@;
        let mut r: Vec<FileData> = Vec::new();
        let mut mi: usize = 0;
        proof {
            assert(r@.map_values(|d: FileData| d@) =~= Seq::<FindDataModel>::empty());
        }
        while mi < self.mounts.len()
            invariant
                mi <= self.mounts.len(),
                mounts_matches_from(self@.mounts, dq, pt, 0) == r@.map_values(|d: FileData| d@)
                    + mounts_matches_from(self@.mounts, dq, pt, mi as int),
            decreases self.mounts.len() - mi,
        {
            let ghost es = self@.mounts[mi as int].entries;
            let ghost base = r@.map_values(|d: FileData| d@);
            let mut k: usize = 0;
            proof {
                assert(es.take(0) =~= Seq::<EntryModel>::empty());
                assert(base + mount_matches(es.take(0), dq, pt) =~= base);
            }
            while k < self.mounts[mi].index.entries.len()
                invariant
                    mi < self.mounts.len(),
                    k <= es.len(),
                    r@.map_values(|d: FileData| d@) == base + mount_matches(es.take(k as int), dq, pt),
                decreases es.len() - k,
            {
                let ghost prev = r@.map_values(|d: FileData| d@);
                proof {
                    assert(es[k as int] == self.mounts@[mi as int].index.entries@[k as int]@);
                    lemma_mount_matches_take_succ(es, dq, pt, k as int);
                }
                if path_matches(self.mounts[mi].index.entries[k].path.as_slice(), dirq, pat) {
                    let size = self.mounts[mi].index.entries[k].size;
                    let attributes = self.mounts[mi].index.entries[k].attributes;
                    let fd = make_fd(
                        self.mounts[mi].index.entries[k].path.as_slice(),
                        size,
                        attributes,
                    );
                    proof {
                        assert(fd@ == entry_fd(es[k as int]));
                    }
                    r.push(fd);
                    proof {
                        assert(r@.map_values(|d: FileData| d@) =~= prev.push(entry_fd(
                            es[k as int],
                        )));
                        assert(prev.push(entry_fd(es[k as int])) =~= prev + seq![entry_fd(
                            es[k as int],
                        )]);
                        assert(base + mount_matches(es.take(k + 1), dq, pt) =~= (base
                            + mount_matches(es.take(k as int), dq, pt)) + seq![entry_fd(
                            es[k as int],
                        )]);
                    }
                } else {
                    proof {
                        assert(base + mount_matches(es.take(k + 1), dq, pt) =~= base
                            + mount_matches(es.take(k as int), dq, pt));
                    }
                }
                k = k + 1;
            }
            proof {
                assert(es.take(es.len() as int) =~= es);
                assert(mounts_matches_from(self@.mounts, dq, pt, mi as int) == mount_matches(
                    es,
                    dq,
                    pt,
                ) + mounts_matches_from(self@.mounts, dq, pt, mi + 1));
                assert(base + (mount_matches(es, dq, pt) + mounts_matches_from(
                    self@.mounts,
                    dq,
                    pt,
                    mi + 1,
                )) =~= (base + mount_matches(es, dq, pt)) + mounts_matches_from(
                    self@.mounts,
                    dq,
                    pt,
                    mi + 1,
                ));
            }
            mi = mi + 1;
        }
        let ghost mounts_part = mounts_matches_from(self@.mounts, dq, pt, 0);
        proof {
            assert(mounts_matches_from(self@.mounts, dq, pt, mi as int)
                =~= Seq::<FindDataModel>::empty());
            assert(r@.map_values(|d: FileData| d@) + Seq::<FindDataModel>::empty()
                =~= r@.map_values(|d: FileData| d@));
            assert(r@.map_values(|d: FileData| d@) =~= mounts_part);
        }
        // does the searched directory exist on the disk store?
        let mut dir_exists: bool = dirq.len() == 0;
        let mut d: usize = 0;
        while d < self.disk.len()
            invariant
                d <= self.disk.len(),
                dir_exists == (dq.len() == 0 || exists|j: int|
                    0 <= j < d && in_dir_chain(norm(#[trigger] self@.disk[j].path), dq)),
            decreases self.disk.len() - d,
        {
            if !dir_exists {
                let np = normalize(self.disk[d].path.as_slice());
                if np.len() > dirq.len() {
                    let pref = &np.as_slice()[0..dirq.len()];
                    if bytes_eq(pref, dirq.as_slice()) && np[dirq.len()] == 0x2f {
                        proof {
                            assert(in_dir_chain(norm(self@.disk[d as int].path), dq));
                        }
                        dir_exists = true;
                    }
                }
            }
            d = d + 1;
        }
        proof {
            assert(dir_exists == disk_dir_exists(self@.disk, dq));
        }
        let ghost dots = dot_matches(self@.disk, dq, pt);
        if dir_exists {
            let ghost with_mounts = r@.map_values(|d2: FileData| d2@);
            let mut dot: Vec<u8> = Vec::new();
            dot.push(0x2e);
            proof {
                assert(dot@ =~= seq![0x2eu8]);
            }
            let g1 = glob_matches(pat, dot.as_slice());
            if g1 {
                let fd = FileData::new(dot, Vec::new(), 0, 0, FILE_ATTRIBUTE_DIRECTORY);
                proof {
                    assert(fd@ == dot_fd(seq![0x2eu8]));
                }
                r.push(fd);
                proof {
                    assert(r@.map_values(|d2: FileData| d2@) =~= with_mounts + seq![dot_fd(
                        seq![0x2eu8],
                    )]);
                }
            }
            let ghost mid = r@.map_values(|d2: FileData| d2@);
            let mut dd: Vec<u8> = Vec::new();
            dd.push(0x2e);
            dd.push(0x2e);
            proof {
                assert(dd@ =~= seq![0x2eu8, 0x2eu8]);
            }
            let g2 = glob_matches(pat, dd.as_slice());
            if g2 {
                let fd = FileData::new(dd, Vec::new(), 0, 0, FILE_ATTRIBUTE_DIRECTORY);
                proof {
                    assert(fd@ == dot_fd(seq![0x2eu8, 0x2eu8]));
                }
                r.push(fd);
                proof {
                    assert(r@.map_values(|d2: FileData| d2@) =~= mid + seq![dot_fd(
                        seq![0x2eu8, 0x2eu8],
                    )]);
                }
            }
            proof {
                assert(dots == (if glob_match(pt, seq![0x2eu8]) {
                    seq![dot_fd(seq![0x2eu8])]
                } else {
                    Seq::<FindDataModel>::empty()
                }) + (if glob_match(pt, seq![0x2eu8, 0x2eu8]) {
                    seq![dot_fd(seq![0x2eu8, 0x2eu8])]
                } else {
                    Seq::<FindDataModel>::empty()
                }));
                assert(r@.map_values(|d2: FileData| d2@) =~= mounts_part + dots);
            }
        } else {
            proof {
                assert(dots =~= Seq::<FindDataModel>::empty());
                assert(r@.map_values(|d2: FileData| d2@) =~= mounts_part + dots);
            }
        }
        // the disk store's files
        let ghost with_dots = r@.map_values(|d2: FileData| d2@);
        let ghost ds = self@.disk;
        let mut di: usize = 0;
        proof {
            assert(ds.take(0) =~= Seq::<DiskFileModel>::empty());
            assert(with_dots + disk_matches(ds.take(0), dq, pt) =~= with_dots);
        }
        while di < self.disk.len()
            invariant
                di <= self.disk.len(),
                r@.map_values(|d2: FileData| d2@) == with_dots + disk_matches(
                    ds.take(di as int),
                    dq,
                    pt,
                ),
            decreases self.disk.len() - di,
        {
            let ghost prev = r@.map_values(|d2: FileData| d2@);
            proof {
                assert(ds[di as int] == self.disk@[di as int]@);
                lemma_disk_matches_take_succ(ds, dq, pt, di as int);
            }
            if path_matches(self.disk[di].path.as_slice(), dirq, pat) {
                let dlen = self.disk[di].data.len();
                let fd = make_fd(self.disk[di].path.as_slice(), dlen as u64, 0);
                proof {
                    assert(fd@ == disk_fd(ds[di as int]));
                }
                r.push(fd);
                proof {
                    assert(r@.map_values(|d2: FileData| d2@) =~= prev.push(disk_fd(
                        ds[di as int],
                    )));
                    assert(prev.push(disk_fd(ds[di as int])) =~= prev + seq![disk_fd(
                        ds[di as int],
                    )]);
                    assert(with_dots + disk_matches(ds.take(di + 1), dq, pt) =~= (with_dots
                        + disk_matches(ds.take(di as int), dq, pt)) + seq![disk_fd(
                        ds[di as int],
                    )]);
                }
            } else {
                proof {
                    assert(with_dots + disk_matches(ds.take(di + 1), dq, pt) =~= with_dots
                        + disk_matches(ds.take(di as int), dq, pt));
                }
            }
            di = di + 1;
        }
        proof {
            assert(ds.take(ds.len() as int) =~= ds);
            assert(r@.map_values(|d2: FileData| d2@) =~= (mounts_part + dots) + disk_matches(
                ds,
                dq,
                pt,
            ));
            assert((mounts_part + dots) + disk_matches(ds, dq, pt) =~= search_matches_parts(
                self@,
                dq,
                pt,
            ));
        }
        r
    }

    /// Begin a wildcard search, as the legacy find-first call: the cursor
    /// and the first match, `Ok(None)` when nothing matches, and
    /// `InvalidInput` for a pattern holding a NUL.
    pub fn find_first_file(&self, search: &[u8]) -> (r: Result<
        Option<(FileSearch, FileData)>,
        PakError,
    >)
        requires
            self.wf(),
        ensures
            ({
                let ms = search_matches(self@, search@);
                &&& (r is Err <==> has_nul(search@))
                &&& (r is Err ==> r == Err::<Option<(FileSearch, FileData)>, PakError>(
                    PakError::InvalidInput,
                ))
                &&& (!has_nul(search@) ==> ((r is Ok && r->Ok_0 is None) <==> ms.len() == 0))
                &&& (!has_nul(search@) && ms.len() > 0 ==> {
                    &&& r is Ok
                    &&& r->Ok_0 is Some
                    &&& (r->Ok_0->Some_0).1@ == ms[0]
                    &&& (r->Ok_0->Some_0).0.spec_state() == SearchState::Active
                    &&& (r->Ok_0->Some_0).0.spec_pending() == ms.skip(1)
                })
            }),
    {
        if contains_nul(search) {
            return Err(PakError::InvalidInput);
        }
        proof {
            lemma_name_start_bounds(search@);
        }
        let n = split_path(search);
        let pat = &search[n..search.len()];
        let dir_raw: &[u8] = if n > 0 {
            &search[0..n - 1]
        } else {
            &search[0..0]
        };
        let dirq = normalize(dir_raw);
        proof {
            assert(pat@ =~= name_part(search@));
            assert(dir_raw@ =~= dir_part(search@));
            crate::norm::lemma_norm_idempotent(dir_raw@);
        }
        let ms_vec = self.collect_matches(&dirq, pat);
        let ghost ms = search_matches(self@, search@);
        if ms_vec.len() == 0 {
            return Ok(None);
        }
        let mut cursor = FileSearch::new(ms_vec);
        match cursor.step() {
            Ok(Some(first)) => Ok(Some((cursor, first))),
            _ => {
                proof {
                    assert(false);
                }
                Ok(None)
            },
        }
    }

    /// Advance a search: the next match, `Ok(None)` once exhausted — and
    /// an exhausted cursor yields no value on every later call — or
    /// `UseAfterClose` on a closed cursor.
    pub fn find_next_file(&self, search: &mut FileSearch) -> (r: Result<Option<FileData>, PakError>)
        ensures
            old(search).spec_state() == SearchState::Closed ==> r == Err::<
                Option<FileData>,
                PakError,
            >(PakError::UseAfterClose) && *final(search) == *old(search),
            old(search).spec_state() == SearchState::Exhausted ==> r == Ok::<
                Option<FileData>,
                PakError,
            >(None) && *final(search) == *old(search),
            (old(search).spec_state() == SearchState::Created || old(search).spec_state()
                == SearchState::Active) ==> {
                &&& old(search).spec_pending().len() > 0 ==> {
                    &&& r is Ok
                    &&& r->Ok_0 is Some
                    &&& (r->Ok_0->Some_0)@ == old(search).spec_pending()[0]
                    &&& final(search).spec_pending() == old(search).spec_pending().skip(1)
                    &&& final(search).spec_state() == SearchState::Active
                }
                &&& old(search).spec_pending().len() == 0 ==> {
                    &&& r == Ok::<Option<FileData>, PakError>(None)
                    &&& final(search).spec_pending() == old(search).spec_pending()
                    &&& final(search).spec_state() == SearchState::Exhausted
                }
            },
    {
        search.step()
    }

    /// Close a search cursor. Idempotent; reports whether it was open.
    pub fn find_close(&self, search: &mut FileSearch) -> (r: bool)
        ensures
            final(search).spec_state() == SearchState::Closed,
            final(search).spec_pending() == old(search).spec_pending(),
            r == (old(search).spec_state() != SearchState::Closed),
    {
        search.do_close()
    }

    /// A high-level iterator over a wildcard search. `None` when the query
    /// is invalid or nothing matches. The enumeration includes the disk
    /// store's `.` / `..` self-entries; callers wanting the legacy
    /// exclusion filter names from the first `.` on.
    pub fn find_file(&self, query: &[u8]) -> (r: Option<FileSearchIter>)
        requires
            self.wf(),
        ensures
            r is Some <==> (!has_nul(query@) && search_matches(self@, query@).len() > 0),
            r is Some ==> ({
                &&& r->Some_0.spec_stream() == search_matches(self@, query@)
                &&& !r->Some_0.spec_closed()
                &&& r->Some_0.spec_inv()
            }),
    {
        FileSearchIter::new(self, query)
    }

    /// Every archive entry carrying time metadata, across every mount in
    /// registration order, as a normalized path; records without that
    /// metadata are silently excluded. Archive entries only — the live
    /// filesystem is not walked.
    #[verifier::loop_isolation(false)]
    pub fn list_all_file_paths(&self) -> (r: Vec<Vec<u8>>)
        ensures
            r@.map_values(|p: Vec<u8>| p@) == list_paths(self@),
    {
        let mut r: Vec<Vec<u8>> = Vec::new();
        let mut mi: usize = 0;
        proof {
            assert(r@.map_values(|p: Vec<u8>| p@) =~= Seq::<Seq<u8>>::empty());
        }
        while mi < self.mounts.len()
            invariant
                mi <= self.mounts.len(),
                list_paths_from(self@.mounts, 0) == r@.map_values(|p: Vec<u8>| p@)
                    + list_paths_from(self@.mounts, mi as int),
            decreases self.mounts.len() - mi,
        {
            let ghost es = self@.mounts[mi as int].entries;
            let ghost base = r@.map_values(|p: Vec<u8>| p@);
            let mut k: usize = 0;
            proof {
                assert(es.take(0) =~= Seq::<EntryModel>::empty());
                assert(base + mount_paths(es.take(0)) =~= base);
            }
            while k < self.mounts[mi].index.entries.len()
                invariant
                    mi < self.mounts.len(),
                    k <= es.len(),
                    r@.map_values(|p: Vec<u8>| p@) == base + mount_paths(es.take(k as int)),
                decreases es.len() - k,
            {
                let ghost prev = r@.map_values(|p: Vec<u8>| p@);
                proof {
                    assert(es[k as int] == self.mounts@[mi as int].index.entries@[k as int]@);
                    lemma_mount_paths_take_succ(es, k as int);
                }
                if self.mounts[mi].index.entries[k].timestamp != 0 {
                    let p = normalize(self.mounts[mi].index.entries[k].path.as_slice());
                    r.push(p);
                    proof {
                        assert(r@.map_values(|p2: Vec<u8>| p2@) =~= prev.push(norm(
                            es[k as int].path,
                        )));
                        assert(prev.push(norm(es[k as int].path)) =~= prev + seq![norm(
                            es[k as int].path,
                        )]);
                        assert(base + mount_paths(es.take(k + 1)) =~= (base + mount_paths(
                            es.take(k as int),
                        )) + seq![norm(es[k as int].path)]);
                    }
                } else {
                    proof {
                        assert(base + mount_paths(es.take(k + 1)) =~= base + mount_paths(
                            es.take(k as int),
                        ));
                    }
                }
                k = k + 1;
            }
            proof {
                assert(es.take(es.len() as int) =~= es);
                assert(list_paths_from(self@.mounts, mi as int) == mount_paths(es)
                    + list_paths_from(self@.mounts, mi + 1));
                assert(base + (mount_paths(es) + list_paths_from(self@.mounts, mi + 1)) =~= (base
                    + mount_paths(es)) + list_paths_from(self@.mounts, mi + 1));
            }
            mi = mi + 1;
        }
        proof {
            assert(list_paths_from(self@.mounts, mi as int) =~= Seq::<Seq<u8>>::empty());
            assert(r@.map_values(|p: Vec<u8>| p@) + Seq::<Seq<u8>>::empty() =~= r@.map_values(
                |p: Vec<u8>| p@,
            ));
        }
        r
    }
}

impl Default for PakInterface {
    /// A fresh, empty interface.
    fn default() -> (r: PakInterface)
        ensures
            r.wf(),
            r@.mounts == Seq::<MountModel>::empty(),
            r@.disk == Seq::<DiskFileModel>::empty(),
    {
        PakInterface::new()
    }
}

/// Copy `count`-bounded bytes out of `data[base .. base + slen]` from
/// cursor `pos`, clamping at the range's end.
#[verifier::loop_isolation(false)]
fn read_range(data: &Vec<u8>, base: usize, slen: usize, pos: u64, count: usize) -> (r: (
    Vec<u8>,
    u64,
))
    requires
        base + slen <= data@.len(),
    ensures
        ({
            let sb = data@.subrange(base as int, base + slen);
            let p = pos as int;
            if p <= slen {
                let take = if count as int <= slen - p {
                    count as int
                } else {
                    slen - p
                };
                r.0@ == sb.subrange(p, p + take) && r.1 == p + take
            } else {
                r.0@ == Seq::<u8>::empty() && r.1 == pos
            }
        }),
{
    let dl: usize = data.len();
    proof {
        assert(dl == data@.len());
    }
    if pos > slen as u64 {
        let out: Vec<u8> = Vec::new();
        proof {
            assert(out@ =~= Seq::<u8>::empty());
        }
        return (out, pos);
    }
    let p = pos as usize;
    let avail = slen - p;
    let take = if count <= avail {
        count
    } else {
        avail
    };
    let mut out: Vec<u8> = Vec::new();
    let mut j: usize = 0;
    while j < take
        invariant
            j <= take,
            p + take <= slen,
            base + slen <= data@.len(),
            out@ == data@.subrange(base + p, base + p + j),
        decreases take - j,
    {
        out.push(data[base + p + j]);
        proof {
            assert(data@.subrange(base + p, base + p + j + 1) =~= data@.subrange(
                base + p,
                base + p + j,
            ).push(data@[base + p + j]));
        }
        j = j + 1;
    }
    proof {
        let sb = data@.subrange(base as int, base + slen);
        assert(sb.subrange(pos as int, pos + take) =~= data@.subrange(base + p, base + p + take));
    }
    (out, pos + take as u64)
}

} // verus!
