//! The pak container format: a binary archive holding a file table and a
//! data region, parsed once into an in-memory index.
//!
//! Layout of an archive, as a byte sequence:
//!
//! * a 4-byte magic, `P` `A` `K` `0`;
//! * a file table: a run of entry records, each introduced by a marker byte
//!   `0x00` and closed off by a single terminator byte `0x80`.
//!
//! One entry record, after its `0x00` marker:
//!
//! * name length `n` (one byte, at least 1), then `n` name bytes (none of
//!   them NUL);
//! * the entry's absolute byte offset into the archive (8 bytes,
//!   little-endian);
//! * the entry's uncompressed size in bytes (8 bytes, little-endian);
//! * a timestamp (8 bytes, little-endian); the value 0 marks a record
//!   without time metadata;
//! * an attribute bitmask (4 bytes, little-endian).
//!
//! Bytes after the terminator form the data region; entries address it by
//! absolute offset. An archive is malformed when the magic is wrong, the
//! table is truncated or its terminator missing, a name is empty or holds a
//! NUL, an entry's `offset + size` exceeds the archive's total length, or
//! two entries carry the same normalized path.

use vstd::prelude::*;

use crate::norm::has_nul;
use crate::norm::norm;
use crate::norm::norm_eq;
use crate::norm::contains_nul;
use crate::PakError;

verus! {

/// The mathematical model of one file-table entry.
pub ghost struct EntryModel {
    pub path: Seq<u8>,
    pub offset: u64,
    pub size: u64,
    pub timestamp: u64,
    pub attributes: u32,
}

/// One parsed file-table entry: a relative path and where its bytes live
/// inside the archive.
pub struct ArchiveEntry {
    pub path: Vec<u8>,
    pub offset: u64,
    pub size: u64,
    pub timestamp: u64,
    pub attributes: u32,
}

impl View for ArchiveEntry {
    type V = EntryModel;

    open spec fn view(&self) -> EntryModel {
        EntryModel {
            path: self.path@,
            offset: self.offset,
            size: self.size,
            timestamp: self.timestamp,
            attributes: self.attributes,
        }
    }
}

/// The in-memory directory of one archive: its file table in table order.
/// Built once at archive-open time and immutable thereafter.
pub struct ArchiveIndex {
    pub entries: Vec<ArchiveEntry>,
}

impl View for ArchiveIndex {
    type V = Seq<EntryModel>;

    open spec fn view(&self) -> Seq<EntryModel> {
        self.entries@.map_values(|e: ArchiveEntry| e@)
    }
}

/// A valid stored path: non-empty and free of NUL bytes.
pub open spec fn path_ok(p: Seq<u8>) -> bool {
    p.len() >= 1 && !has_nul(p)
}

/// Little-endian 64-bit read at position `i`.
pub open spec fn le64_at(b: Seq<u8>, i: int) -> u64 {
    (b[i] as u64) | ((b[i + 1] as u64) << 8) | ((b[i + 2] as u64) << 16) | ((b[i + 3] as u64)
        << 24) | ((b[i + 4] as u64) << 32) | ((b[i + 5] as u64) << 40) | ((b[i + 6] as u64) << 48)
        | ((b[i + 7] as u64) << 56)
}

/// Little-endian 32-bit read at position `i`.
pub open spec fn le32_at(b: Seq<u8>, i: int) -> u32 {
    (b[i] as u32) | ((b[i + 1] as u32) << 8) | ((b[i + 2] as u32) << 16) | ((b[i + 3] as u32)
        << 24)
}

fn read_le64(b: &[u8], i: usize) -> (r: u64)
    requires
        i + 8 <= b@.len(),
    ensures
        r == le64_at(b@, i as int),
{
    (b[i] as u64) | ((b[i + 1] as u64) << 8) | ((b[i + 2] as u64) << 16) | ((b[i + 3] as u64)
        << 24) | ((b[i + 4] as u64) << 32) | ((b[i + 5] as u64) << 40) | ((b[i + 6] as u64) << 48)
        | ((b[i + 7] as u64) << 56)
}

fn read_le32(b: &[u8], i: usize) -> (r: u32)
    requires
        i + 4 <= b@.len(),
    ensures
        r == le32_at(b@, i as int),
{
    (b[i] as u32) | ((b[i + 1] as u32) << 8) | ((b[i + 2] as u32) << 16) | ((b[i + 3] as u32)
        << 24)
}

/// Structural parse of the file table from position `i`: the entry models in
/// table order, or `None` when the table is truncated, a marker is invalid,
/// a name is empty or holds a NUL, or the terminator is missing.
pub open spec fn spec_parse_table(b: Seq<u8>, i: int) -> Option<Seq<EntryModel>>
    decreases b.len() - i,
{
    if !(0 <= i <= b.len()) {
        None
    } else if i == b.len() {
        None
    } else if b[i] == 0x80 {
        Some(Seq::empty())
    } else if b[i] != 0x00 {
        None
    } else if i + 2 > b.len() {
        None
    } else {
        let n = b[i + 1] as int;
        if n < 1 {
            None
        } else if i + 2 + n + 28 > b.len() {
            None
        } else {
            let path = b.subrange(i + 2, i + 2 + n);
            if !path_ok(path) {
                None
            } else {
                let e = EntryModel {
                    path: path,
                    offset: le64_at(b, i + 2 + n),
                    size: le64_at(b, i + 2 + n + 8),
                    timestamp: le64_at(b, i + 2 + n + 16),
                    attributes: le32_at(b, i + 2 + n + 24),
                };
                match spec_parse_table(b, i + 2 + n + 28) {
                    Some(rest) => Some(seq![e] + rest),
                    None => None,
                }
            }
        }
    }
}

/// Does the entry's byte range lie inside an archive of `total` bytes?
pub open spec fn entry_in_bounds(e: EntryModel, total: int) -> bool {
    e.offset + e.size <= total
}

pub open spec fn entries_in_bounds(es: Seq<EntryModel>, total: int) -> bool {
    forall|k: int| 0 <= k < es.len() ==> entry_in_bounds(#[trigger] es[k], total)
}

/// No two entries of one archive share a normalized path.
pub open spec fn entries_unique(es: Seq<EntryModel>) -> bool {
    forall|j: int, k: int|
        0 <= j < k < es.len() ==> norm(#[trigger] es[j].path) != norm(#[trigger] es[k].path)
}

pub open spec fn entries_paths_ok(es: Seq<EntryModel>) -> bool {
    forall|k: int| 0 <= k < es.len() ==> path_ok(#[trigger] es[k].path)
}

/// The whole parse: magic, table structure, entry bounds and path
/// uniqueness. `Some` exactly when the archive is well-formed.
pub open spec fn spec_parse(b: Seq<u8>) -> Option<Seq<EntryModel>> {
    if b.len() < 4 {
        None
    } else if !(b[0] == 0x50 && b[1] == 0x41 && b[2] == 0x4b && b[3] == 0x30) {
        None
    } else {
        match spec_parse_table(b, 4) {
            Some(es) => if entries_in_bounds(es, b.len() as int) && entries_unique(es) {
                Some(es)
            } else {
                None
            },
            None => None,
        }
    }
}

/// Every entry of a structurally valid table carries a valid path.
pub proof fn lemma_table_paths_ok(b: Seq<u8>, i: int)
    requires
        spec_parse_table(b, i) is Some,
    ensures
        entries_paths_ok(spec_parse_table(b, i)->Some_0),
    decreases b.len() - i,
{
    let es = spec_parse_table(b, i)->Some_0;
    if 0 <= i < b.len() && b[i] == 0x00 && i + 2 <= b.len() {
        let n = b[i + 1] as int;
        if 1 <= n && i + 2 + n + 28 <= b.len() && path_ok(b.subrange(i + 2, i + 2 + n)) {
            lemma_table_paths_ok(b, i + 2 + n + 28);
            let rest = spec_parse_table(b, i + 2 + n + 28)->Some_0;
            assert forall|k: int| 0 <= k < es.len() implies path_ok(#[trigger] es[k].path) by {
                if k >= 1 {
                    assert(es[k] == rest[k - 1]);
                }
            }
        }
    }
}

impl ArchiveIndex {
    /// Parse an archive's file table. Pure over the bytes: succeeds exactly
    /// when `spec_parse` accepts them, and then yields the table's entries
    /// in table order.
    #[verifier::loop_isolation(false)]
    pub fn parse(bytes: &[u8]) -> (r: Result<ArchiveIndex, PakError>)
        ensures
            r is Ok <==> spec_parse(bytes@) is Some,
            r is Ok ==> r->Ok_0@ == spec_parse(bytes@)->Some_0,
            r is Err ==> r == Err::<ArchiveIndex, PakError>(PakError::MalformedArchive),
    {
        let total: usize = bytes.len();
        if total < 4 {
            return Err(PakError::MalformedArchive);
        }
        if !(bytes[0] == 0x50 && bytes[1] == 0x41 && bytes[2] == 0x4b && bytes[3] == 0x30) {
            return Err(PakError::MalformedArchive);
        }
        let mut i: usize = 4;
        let mut entries: Vec<ArchiveEntry> = Vec::new();
        loop
            invariant
                4 <= i <= total,
                total == bytes@.len(),
                bytes@.len() >= 4,
                bytes@[0] == 0x50 && bytes@[1] == 0x41 && bytes@[2] == 0x4b && bytes@[3] == 0x30,
                ({
                    let acc = entries@.map_values(|e: ArchiveEntry| e@);
                    match spec_parse_table(bytes@, i as int) {
                        Some(rest) => spec_parse_table(bytes@, 4) == Some(acc + rest),
                        None => spec_parse_table(bytes@, 4) is None,
                    }
                }),
                entries_in_bounds(entries@.map_values(|e: ArchiveEntry| e@), total as int),
                entries_unique(entries@.map_values(|e: ArchiveEntry| e@)),
            decreases total - i,
        {
            let ghost acc = entries@.map_values(|e: ArchiveEntry| e@);
            if i == total {
                return Err(PakError::MalformedArchive);
            }
            let marker = bytes[i];
            if marker == 0x80 {
                proof {
                    assert(spec_parse_table(bytes@, i as int) == Some(Seq::<EntryModel>::empty()));
                    assert(acc + Seq::<EntryModel>::empty() =~= acc);
                }
                return Ok(ArchiveIndex { entries });
            }
            if marker != 0x00 {
                return Err(PakError::MalformedArchive);
            }
            if total - i < 2 {
                return Err(PakError::MalformedArchive);
            }
            let n = bytes[i + 1] as usize;
            if n < 1 {
                return Err(PakError::MalformedArchive);
            }
            if total - (i + 2) < n + 28 {
                return Err(PakError::MalformedArchive);
            }
            // copy the name
            let mut path: Vec<u8> = Vec::new();
            let mut k: usize = 0;
            while k < n
                invariant
                    k <= n,
                    i + 2 + n <= total,
                    total == bytes@.len(),
                    path@ == bytes@.subrange(i + 2, i + 2 + k),
                decreases n - k,
            {
                path.push(bytes[i + 2 + k]);
                proof {
                    assert(bytes@.subrange(i + 2, i + 2 + k + 1) =~= bytes@.subrange(
                        i + 2,
                        i + 2 + k,
                    ).push(bytes@[i + 2 + k]));
                }
                k = k + 1;
            }
            if contains_nul(path.as_slice()) {
                proof {
                    assert(!path_ok(bytes@.subrange(i as int + 2, i as int + 2 + n as int)));
                }
                return Err(PakError::MalformedArchive);
            }
            let f = i + 2 + n;
            let offset = read_le64(bytes, f);
            let size = read_le64(bytes, f + 8);
            let timestamp = read_le64(bytes, f + 16);
            let attributes = read_le32(bytes, f + 24);
            let ghost em = EntryModel {
                path: bytes@.subrange(i as int + 2, i as int + 2 + n as int),
                offset: le64_at(bytes@, i as int + 2 + n as int),
                size: le64_at(bytes@, i as int + 2 + n as int + 8),
                timestamp: le64_at(bytes@, i as int + 2 + n as int + 16),
                attributes: le32_at(bytes@, i as int + 2 + n as int + 24),
            };
            let ghost next_i = i as int + 2 + n as int + 28;
            proof {
                assert(spec_parse_table(bytes@, i as int) == (match spec_parse_table(
                    bytes@,
                    next_i,
                ) {
                    Some(rest) => Some(seq![em] + rest),
                    None => None,
                }));
            }
            // bounds check for the entry's byte range
            if size > total as u64 || offset > total as u64 - size {
                proof {
                    match spec_parse_table(bytes@, next_i) {
                        Some(rest) => {
                            let es = acc + (seq![em] + rest);
                            assert(spec_parse_table(bytes@, 4) == Some(es));
                            assert(es[acc.len() as int] == em);
                            assert(!entry_in_bounds(em, total as int));
                            assert(!entries_in_bounds(es, total as int));
                            assert(spec_parse(bytes@) is None);
                        },
                        None => {
                            assert(spec_parse_table(bytes@, 4) is None);
                        },
                    }
                }
                return Err(PakError::MalformedArchive);
            }
            // duplicate check against every earlier entry
            let mut j: usize = 0;
            while j < entries.len()
                invariant
                    j <= entries.len(),
                    acc == entries@.map_values(|e: ArchiveEntry| e@),
                    em.path == path@,
                    forall|t: int| 0 <= t < j ==> norm(acc[t].path) != norm(em.path),
                decreases entries.len() - j,
            {
                if norm_eq(entries[j].path.as_slice(), path.as_slice()) {
                    proof {
                        assert(acc[j as int].path == entries@[j as int]@.path);
                        match spec_parse_table(bytes@, next_i) {
                            Some(rest) => {
                                let es = acc + (seq![em] + rest);
                                assert(spec_parse_table(bytes@, 4) == Some(es));
                                assert(es[j as int] == acc[j as int]);
                                assert(es[acc.len() as int] == em);
                                assert(!entries_unique(es));
                                assert(spec_parse(bytes@) is None);
                            },
                            None => {
                                assert(spec_parse_table(bytes@, 4) is None);
                            },
                        }
                    }
                    return Err(PakError::MalformedArchive);
                }
                j = j + 1;
            }
            let entry = ArchiveEntry { path, offset, size, timestamp, attributes };
            proof {
                assert(entry@ == em);
            }
            entries.push(entry);
            proof {
                let acc2 = entries@.map_values(|e: ArchiveEntry| e@);
                assert(acc2 =~= acc.push(em));
                assert(acc.push(em) =~= acc + seq![em]);
                match spec_parse_table(bytes@, next_i) {
                    Some(rest) => {
                        assert((acc + (seq![em] + rest)) =~= (acc2 + rest));
                    },
                    None => {},
                }
                // bounds and uniqueness for the grown prefix
                assert forall|t: int| 0 <= t < acc2.len() implies entry_in_bounds(
                    #[trigger] acc2[t],
                    total as int,
                ) by {
                    if t < acc.len() {
                        assert(acc2[t] == acc[t]);
                    } else {
                        assert(acc2[t] == em);
                    }
                }
                assert forall|t: int, u: int| 0 <= t < u < acc2.len() implies norm(
                    #[trigger] acc2[t].path,
                ) != norm(#[trigger] acc2[u].path) by {
                    if u < acc.len() {
                        assert(acc2[t] == acc[t] && acc2[u] == acc[u]);
                    } else {
                        assert(acc2[t] == acc[t] && acc2[u] == em);
                    }
                }
            }
            i = i + 2 + n + 28;
        }
    }
}

} // verus!
