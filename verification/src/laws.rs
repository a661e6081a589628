//! The layer's global laws, proved over the interface's model.
//!
//! Each proof function here states one promise of the layer as a whole —
//! across several operations — over the same spec functions the operations'
//! own contracts use.

use vstd::prelude::*;

use crate::archive::entry_in_bounds;
use crate::archive::EntryModel;
use crate::file::SourceId;
use crate::interface::disk_find_from;
use crate::interface::entry_find_from;
use crate::interface::iface_wf;
use crate::interface::list_path_map;
use crate::interface::list_paths;
use crate::interface::list_paths_from;
use crate::interface::mount_has;
use crate::interface::mount_paths;
use crate::interface::mount_wf;
use crate::interface::resolve;
use crate::interface::resolve_from;
use crate::interface::source_bytes;
use crate::interface::source_ok;
use crate::interface::DiskFileModel;
use crate::interface::IfaceModel;
use crate::interface::MountModel;
use crate::norm::has_nul;
use crate::norm::lemma_norm_idempotent;
use crate::norm::lemma_norm_preserves_no_nul;
use crate::norm::norm;

verus! {

/// Full characterization of `entry_find_from`: the result is the first
/// match at or after `k`, and `None` means no match remains.
pub proof fn lemma_entry_find_from_props(es: Seq<EntryModel>, q: Seq<u8>, k: int)
    requires
        0 <= k <= es.len(),
    ensures
        match entry_find_from(es, q, k) {
            Some(e) => k <= e < es.len() && norm(es[e].path) == q && (forall|j: int|
                k <= j < e ==> norm(#[trigger] es[j].path) != q),
            None => forall|j: int| k <= j < es.len() ==> norm(#[trigger] es[j].path) != q,
        },
    decreases es.len() - k,
{
    if k < es.len() {
        if norm(es[k].path) != q {
            lemma_entry_find_from_props(es, q, k + 1);
        }
    }
}

/// Full characterization of `disk_find_from`.
pub proof fn lemma_disk_find_from_props(ds: Seq<DiskFileModel>, q: Seq<u8>, k: int)
    requires
        0 <= k <= ds.len(),
    ensures
        match disk_find_from(ds, q, k) {
            Some(d) => k <= d < ds.len() && norm(ds[d].path) == q && (forall|j: int|
                k <= j < d ==> norm(#[trigger] ds[j].path) != q),
            None => forall|j: int| k <= j < ds.len() ==> norm(#[trigger] ds[j].path) != q,
        },
    decreases ds.len() - k,
{
    if k < ds.len() {
        if norm(ds[k].path) != q {
            lemma_disk_find_from_props(ds, q, k + 1);
        }
    }
}

/// Full characterization of resolution: an archive source comes from the
/// first mount holding the path (and its first matching entry); a disk
/// source only when no mount holds it; `None` only when nothing does.
pub proof fn lemma_resolve_from_props(m: IfaceModel, q: Seq<u8>, mi: int)
    requires
        0 <= mi <= m.mounts.len(),
    ensures
        match resolve_from(m, q, mi) {
            Some(s) => match s {
                SourceId::Archive { mount, entry } => {
                    &&& mi <= mount < m.mounts.len()
                    &&& entry_find_from(m.mounts[mount].entries, q, 0) == Some(entry)
                    &&& forall|mj: int|
                        mi <= mj < mount ==> entry_find_from(
                            #[trigger] m.mounts[mj].entries,
                            q,
                            0,
                        ) is None
                },
                SourceId::Disk { index } => {
                    &&& forall|mj: int|
                        mi <= mj < m.mounts.len() ==> entry_find_from(
                            #[trigger] m.mounts[mj].entries,
                            q,
                            0,
                        ) is None
                    &&& disk_find_from(m.disk, q, 0) == Some(index)
                },
            },
            None => {
                &&& forall|mj: int|
                    mi <= mj < m.mounts.len() ==> entry_find_from(
                        #[trigger] m.mounts[mj].entries,
                        q,
                        0,
                    ) is None
                &&& disk_find_from(m.disk, q, 0) is None
            },
        },
    decreases m.mounts.len() - mi,
{
    if mi < m.mounts.len() {
        if entry_find_from(m.mounts[mi].entries, q, 0) is None {
            lemma_resolve_from_props(m, q, mi + 1);
        }
    }
}

/// Every listed path is the normalized path of some archive entry that
/// carries time metadata.
pub proof fn lemma_list_paths_witness(mounts: Seq<MountModel>, mi: int, i: int)
    requires
        0 <= mi <= mounts.len(),
        0 <= i < list_paths_from(mounts, mi).len(),
    ensures
        exists|mx: int, ex: int|
            {
                &&& mi <= mx < mounts.len()
                &&& 0 <= ex < mounts[mx].entries.len()
                &&& (#[trigger] mounts[mx].entries[ex]).timestamp != 0
                &&& list_paths_from(mounts, mi)[i] == norm(mounts[mx].entries[ex].path)
            },
    decreases mounts.len() - mi,
{
    let es = mounts[mi].entries;
    let head = mount_paths(es);
    let rest = list_paths_from(mounts, mi + 1);
    if i < head.len() {
        let p = head[i];
        assert(head.contains(p));
        es.lemma_filter_map_contains(list_path_map(), p);
        let t = choose|t: EntryModel| #[trigger] es.contains(t) && list_path_map()(t) == Some(p);
        let ex = choose|ex: int| 0 <= ex < es.len() && es[ex] == t;
        assert(mi <= mi < mounts.len() && 0 <= ex < mounts[mi].entries.len() && mounts[
            mi
        ].entries[ex].timestamp != 0 && list_paths_from(mounts, mi)[i] == norm(
            mounts[mi].entries[ex].path,
        ));
    } else {
        lemma_list_paths_witness(mounts, mi + 1, i - head.len());
        let (mx, ex) = choose|mx: int, ex: int|
            {
                &&& mi + 1 <= mx < mounts.len()
                &&& 0 <= ex < mounts[mx].entries.len()
                &&& (#[trigger] mounts[mx].entries[ex]).timestamp != 0
                &&& list_paths_from(mounts, mi + 1)[i - head.len()] == norm(
                    mounts[mx].entries[ex].path,
                )
            };
        assert(list_paths_from(mounts, mi)[i] == rest[i - head.len()]);
        assert(mi <= mx < mounts.len() && 0 <= ex < mounts[mx].entries.len() && mounts[
            mx
        ].entries[ex].timestamp != 0 && list_paths_from(mounts, mi)[i] == norm(
            mounts[mx].entries[ex].path,
        ));
    }
}

/// Round trip: every path `list_all_file_paths` yields resolves, through
/// `open_file`'s normalization, to an archive-backed source whose stream
/// holds exactly the resolved entry's `size` bytes — so a handle opened on
/// it reads `size` bytes and then reports end-of-stream, by the read
/// contract.
pub proof fn lemma_round_trip(m: IfaceModel, i: int)
    requires
        iface_wf(m),
        0 <= i < list_paths(m).len(),
    ensures
        !has_nul(list_paths(m)[i]),
        resolve(m, norm(list_paths(m)[i])) is Some,
        source_ok(m, resolve(m, norm(list_paths(m)[i]))->Some_0),
        ({
            let src = resolve(m, norm(list_paths(m)[i]))->Some_0;
            src matches SourceId::Archive { mount, entry } && source_bytes(m, src).len()
                == m.mounts[mount].entries[entry].size && norm(m.mounts[mount].entries[entry].path)
                == norm(list_paths(m)[i])
        }),
{
    lemma_list_paths_witness(m.mounts, 0, i);
    let (mx, ex) = choose|mx: int, ex: int|
        {
            &&& 0 <= mx < m.mounts.len()
            &&& 0 <= ex < m.mounts[mx].entries.len()
            &&& (#[trigger] m.mounts[mx].entries[ex]).timestamp != 0
            &&& list_paths_from(m.mounts, 0)[i] == norm(m.mounts[mx].entries[ex].path)
        };
    lemma_norm_idempotent(m.mounts[mx].entries[ex].path);
    assert(mount_wf(m.mounts[mx]));
    assert(crate::archive::path_ok(m.mounts[mx].entries[ex].path));
    lemma_norm_preserves_no_nul(m.mounts[mx].entries[ex].path);
    let q = norm(list_paths(m)[i]);
    assert(q == norm(m.mounts[mx].entries[ex].path));
    lemma_resolve_from_props(m, q, 0);
    match resolve(m, q) {
        Some(s) => match s {
            SourceId::Archive { mount, entry } => {
                lemma_entry_find_from_props(m.mounts[mount].entries, q, 0);
                assert(mount_wf(m.mounts[mount]));
                assert(entry_in_bounds(
                    m.mounts[mount].entries[entry],
                    m.mounts[mount].data.len() as int,
                ));
            },
            SourceId::Disk { .. } => {
                lemma_entry_find_from_props(m.mounts[mx].entries, q, 0);
                assert(false);
            },
        },
        None => {
            lemma_entry_find_from_props(m.mounts[mx].entries, q, 0);
            assert(false);
        },
    }
}

/// Resolution order: when two mounts both hold a path, the one registered
/// first wins — `open_file` returns the earlier mount's content, and never
/// the later one's.
pub proof fn lemma_resolution_order(m: IfaceModel, q: Seq<u8>, a: int, b: int)
    requires
        0 <= a < b < m.mounts.len(),
        mount_has(m.mounts[a].entries, q),
        mount_has(m.mounts[b].entries, q),
    ensures
        resolve(m, q) matches Some(SourceId::Archive { mount, entry }) && mount <= a && mount < b
            && 0 <= entry < m.mounts[mount].entries.len() && norm(m.mounts[mount].entries[entry].path)
            == q,
{
    lemma_resolve_from_props(m, q, 0);
    lemma_entry_find_from_props(m.mounts[a].entries, q, 0);
    match resolve(m, q) {
        Some(s) => match s {
            SourceId::Archive { mount, entry } => {
                if mount > a {
                    assert(entry_find_from(m.mounts[a].entries, q, 0) is None);
                    assert(false);
                }
                lemma_entry_find_from_props(m.mounts[mount].entries, q, 0);
            },
            SourceId::Disk { .. } => {
                assert(entry_find_from(m.mounts[a].entries, q, 0) is None);
                assert(false);
            },
        },
        None => {
            assert(entry_find_from(m.mounts[a].entries, q, 0) is None);
            assert(false);
        },
    }
}

/// Disk fallback: a path absent from every mount but present in the disk
/// store resolves to the disk-backed source, whose stream is exactly the
/// registered file's bytes — so reading the handle yields the same bytes a
/// direct disk read gave.
pub proof fn lemma_disk_fallback(m: IfaceModel, q: Seq<u8>)
    requires
        forall|mj: int| 0 <= mj < m.mounts.len() ==> !mount_has(#[trigger] m.mounts[mj].entries, q),
        exists|d: int| 0 <= d < m.disk.len() && norm(#[trigger] m.disk[d].path) == q,
    ensures
        resolve(m, q) matches Some(SourceId::Disk { index }) && 0 <= index < m.disk.len() && norm(
            m.disk[index].path,
        ) == q && source_bytes(m, resolve(m, q)->Some_0) == m.disk[index].data && source_ok(
            m,
            resolve(m, q)->Some_0,
        ),
{
    lemma_resolve_from_props(m, q, 0);
    let dw = choose|d: int| 0 <= d < m.disk.len() && norm(#[trigger] m.disk[d].path) == q;
    lemma_disk_find_from_props(m.disk, q, 0);
    match resolve(m, q) {
        Some(s) => match s {
            SourceId::Archive { mount, entry } => {
                lemma_entry_find_from_props(m.mounts[mount].entries, q, 0);
                assert(mount_has(m.mounts[mount].entries, q));
                assert(false);
            },
            SourceId::Disk { index } => {
                assert(norm(m.disk[index].path) == q);
            },
        },
        None => {
            assert(disk_find_from(m.disk, q, 0) is None);
            assert(norm(m.disk[dw].path) != q);
            assert(false);
        },
    }
}

} // verus!
