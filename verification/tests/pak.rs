//! Tests of the pak archive layer: parsing, resolution, reading, searching.

use pakfs::PakError;
use pakfs::PakInterface;

/// Append one file-table entry record.
fn push_entry(out: &mut Vec<u8>, name: &[u8], offset: u64, size: u64, ts: u64, attrs: u32) {
    out.push(0x00);
    out.push(name.len() as u8);
    out.extend_from_slice(name);
    out.extend_from_slice(&offset.to_le_bytes());
    out.extend_from_slice(&size.to_le_bytes());
    out.extend_from_slice(&ts.to_le_bytes());
    out.extend_from_slice(&attrs.to_le_bytes());
}

/// Build a whole archive: magic, table, terminator, data region. Each file
/// is (name, content, timestamp, attributes); offsets are laid out in
/// order after the table.
fn build_pak(files: &[(&[u8], &[u8], u64, u32)]) -> Vec<u8> {
    let table: usize = files.iter().map(|f| 2 + f.0.len() + 28).sum();
    let mut offset = 4 + table as u64 + 1;
    let mut out = vec![0x50, 0x41, 0x4b, 0x30];
    for (name, content, ts, attrs) in files {
        push_entry(&mut out, name, offset, content.len() as u64, *ts, *attrs);
        offset += content.len() as u64;
    }
    out.push(0x80);
    for (_, content, _, _) in files {
        out.extend_from_slice(content);
    }
    out
}

fn logo_bytes() -> Vec<u8> {
    (0..1000u32).map(|i| (i % 251) as u8).collect()
}

fn config_bytes() -> Vec<u8> {
    (0..42u32).map(|i| (i * 7 % 256) as u8).collect()
}

fn sample_pak() -> Vec<u8> {
    let logo = logo_bytes();
    let config = config_bytes();
    build_pak(&[
        (b"images/logo.png", &logo, 11, 0),
        (b"data/config.txt", &config, 22, 0),
    ])
}

#[test]
fn mount_and_list_paths() {
    let mut interface = PakInterface::new();
    assert!(interface.add_pak_file(sample_pak()));
    let paths = interface.list_all_file_paths();
    assert_eq!(paths.len(), 2);
    assert_eq!(paths[0], b"images/logo.png".to_vec());
    assert_eq!(paths[1], b"data/config.txt".to_vec());
}

#[test]
fn concrete_scenario() {
    let mut interface = PakInterface::new();
    assert!(interface.add_pak_file(sample_pak()));

    let paths = interface.list_all_file_paths();
    assert_eq!(
        paths,
        vec![b"images/logo.png".to_vec(), b"data/config.txt".to_vec()]
    );

    let mut f = interface.open_file(b"images/logo.png", b"rb").unwrap();
    let bytes = f.read(&interface, 2000).unwrap();
    assert_eq!(bytes.len(), 1000);
    assert_eq!(bytes, logo_bytes());
    assert!(f.is_eof());

    let mut iter = interface.find_file(b"images/*").unwrap();
    let first = iter.next().unwrap();
    assert_eq!(first.filename(), &b"logo.png".to_vec());
    assert_eq!(first.file_size(), 1000);
    assert!(!first.is_dir());
    assert!(iter.next().is_none());
}

#[test]
fn round_trip_all_listed_paths() {
    let mut interface = PakInterface::new();
    assert!(interface.add_pak_file(sample_pak()));
    let paths = interface.list_all_file_paths();
    assert_eq!(paths.len(), 2);
    let sizes = [1000usize, 42usize];
    for (i, p) in paths.iter().enumerate() {
        let mut f = interface.open_file(p, b"rb").unwrap();
        let bytes = f.read(&interface, usize::MAX).unwrap();
        assert_eq!(bytes.len(), sizes[i]);
        assert!(f.is_eof());
        let tail = f.read(&interface, 1).unwrap();
        assert_eq!(tail.len(), 0);
    }
}

#[test]
fn resolution_order_first_mount_wins() {
    let a = build_pak(&[(b"shared.txt", b"from mount a", 1, 0)]);
    let b = build_pak(&[(b"shared.txt", b"from mount b, longer", 1, 0)]);
    let mut interface = PakInterface::new();
    assert!(interface.add_pak_file(a));
    assert!(interface.add_pak_file(b));
    let mut f = interface.open_file(b"shared.txt", b"rb").unwrap();
    let bytes = f.read(&interface, 100).unwrap();
    assert_eq!(bytes, b"from mount a".to_vec());
}

#[test]
fn disk_fallback_reads_identical_bytes() {
    let disk_content = b"host file content".to_vec();
    let mut interface = PakInterface::new();
    assert!(interface.add_pak_file(sample_pak()));
    assert!(interface.add_disk_file(b"notes/readme.txt".to_vec(), disk_content.clone()));
    let mut f = interface.open_file(b"notes/readme.txt", b"rb").unwrap();
    let bytes = f.read(&interface, 1000).unwrap();
    assert_eq!(bytes, disk_content);
    assert!(f.is_eof());
}

#[test]
fn mounts_shadow_disk() {
    let pak = build_pak(&[(b"shared.txt", b"archive bytes", 1, 0)]);
    let mut interface = PakInterface::new();
    assert!(interface.add_disk_file(b"shared.txt".to_vec(), b"disk bytes".to_vec()));
    assert!(interface.add_pak_file(pak));
    let mut f = interface.open_file(b"shared.txt", b"rb").unwrap();
    assert_eq!(f.read(&interface, 100).unwrap(), b"archive bytes".to_vec());
}

#[test]
fn eof_boundary_exact_read() {
    let mut interface = PakInterface::new();
    assert!(interface.add_pak_file(sample_pak()));
    let mut f = interface.open_file(b"data/config.txt", b"rb").unwrap();
    let first = f.read(&interface, 42).unwrap();
    assert_eq!(first.len(), 42);
    assert!(f.is_eof());
    let second = f.read(&interface, 42).unwrap();
    assert_eq!(second.len(), 0);
    assert!(f.is_eof());
}

#[test]
fn partial_reads_and_position() {
    let mut interface = PakInterface::new();
    assert!(interface.add_pak_file(sample_pak()));
    let mut f = interface.open_file(b"images/logo.png", b"rb").unwrap();
    assert_eq!(f.position(), Some(0));
    let a = f.read(&interface, 600).unwrap();
    assert_eq!(a.len(), 600);
    assert_eq!(f.position(), Some(600));
    assert!(!f.is_eof());
    let b = f.read(&interface, 600).unwrap();
    assert_eq!(b.len(), 400);
    assert_eq!(f.position(), Some(1000));
    assert!(f.is_eof());
    let whole = logo_bytes();
    assert_eq!(a, whole[..600].to_vec());
    assert_eq!(b, whole[600..].to_vec());
}

#[test]
fn close_is_idempotent_and_guards_reads() {
    let mut interface = PakInterface::new();
    assert!(interface.add_pak_file(sample_pak()));
    let mut f = interface.open_file(b"images/logo.png", b"rb").unwrap();
    assert_eq!(f.close(), 0);
    assert_eq!(f.close(), 0);
    assert!(matches!(
        f.read(&interface, 1),
        Err(PakError::UseAfterClose)
    ));
    assert_eq!(f.position(), None);
}

#[test]
fn fopen_error_taxonomy() {
    let mut interface = PakInterface::new();
    assert!(interface.add_pak_file(sample_pak()));
    assert!(matches!(
        interface.fopen(b"images/logo.png", b"wb"),
        Err(PakError::UnsupportedMode)
    ));
    assert!(matches!(
        interface.fopen(b"images/logo.png", b"r"),
        Err(PakError::UnsupportedMode)
    ));
    assert!(matches!(
        interface.fopen(b"images\0logo.png", b"rb"),
        Err(PakError::InvalidInput)
    ));
    assert!(matches!(
        interface.fopen(b"missing.txt", b"rb"),
        Err(PakError::NotFound)
    ));
    assert!(interface.fopen(b"images/logo.png", b"rb").is_ok());
    assert!(interface.open_file(b"images/logo.png", b"wb").is_none());
}

#[test]
fn case_and_separator_insensitive_lookup() {
    let mut interface = PakInterface::new();
    assert!(interface.add_pak_file(sample_pak()));
    let mut f = interface.open_file(b"IMAGES\\Logo.PNG", b"rb").unwrap();
    let bytes = f.read(&interface, 2000).unwrap();
    assert_eq!(bytes, logo_bytes());
}

#[test]
fn entries_without_timestamp_are_listed_out_but_openable() {
    let pak = build_pak(&[
        (b"kept.bin", b"abc", 5, 0),
        (b"hidden.bin", b"defg", 0, 0),
    ]);
    let mut interface = PakInterface::new();
    assert!(interface.add_pak_file(pak));
    let paths = interface.list_all_file_paths();
    assert_eq!(paths, vec![b"kept.bin".to_vec()]);
    let mut f = interface.open_file(b"hidden.bin", b"rb").unwrap();
    assert_eq!(f.read(&interface, 10).unwrap(), b"defg".to_vec());
}

#[test]
fn malformed_archives_are_rejected() {
    let mut interface = PakInterface::new();
    // empty, short, wrong magic
    assert!(!interface.add_pak_file(Vec::new()));
    assert!(!interface.add_pak_file(vec![0x50, 0x41]));
    assert!(!interface.add_pak_file(vec![0x51, 0x41, 0x4b, 0x30, 0x80]));
    // missing terminator
    assert!(!interface.add_pak_file(vec![0x50, 0x41, 0x4b, 0x30]));
    // bad marker byte
    assert!(!interface.add_pak_file(vec![0x50, 0x41, 0x4b, 0x30, 0x7f]));
    // truncated entry record
    let mut t = vec![0x50, 0x41, 0x4b, 0x30];
    t.push(0x00);
    t.push(3);
    t.extend_from_slice(b"abc");
    assert!(!interface.add_pak_file(t));
    // zero-length name
    let mut z = vec![0x50, 0x41, 0x4b, 0x30];
    push_entry(&mut z, b"", 0, 0, 1, 0);
    z.push(0x80);
    assert!(!interface.add_pak_file(z));
    // NUL inside a name
    let mut n = vec![0x50, 0x41, 0x4b, 0x30];
    push_entry(&mut n, b"a\0b", 0, 0, 1, 0);
    n.push(0x80);
    assert!(!interface.add_pak_file(n));
    // entry range past the archive's end
    let mut o = vec![0x50, 0x41, 0x4b, 0x30];
    push_entry(&mut o, b"big.bin", 4, u64::MAX, 1, 0);
    o.push(0x80);
    assert!(!interface.add_pak_file(o));
    // duplicate path, differing only in case and separator
    let dup = build_pak(&[
        (b"Dir/File.txt", b"one", 1, 0),
        (b"dir\\file.TXT", b"two", 1, 0),
    ]);
    assert!(!interface.add_pak_file(dup));
    // nothing was mounted by any of the rejected archives
    assert_eq!(interface.list_all_file_paths().len(), 0);
}

#[test]
fn iterator_termination_and_use_after_close() {
    let mut interface = PakInterface::new();
    assert!(interface.add_pak_file(sample_pak()));
    let (mut cursor, first) = interface.find_first_file(b"images/*").unwrap().unwrap();
    assert_eq!(first.filename(), &b"logo.png".to_vec());
    // exhaust the cursor, then poke it again: no resurrection
    assert!(matches!(interface.find_next_file(&mut cursor), Ok(None)));
    assert!(matches!(interface.find_next_file(&mut cursor), Ok(None)));
    assert!(matches!(interface.find_next_file(&mut cursor), Ok(None)));
    // closing is idempotent, and a closed cursor fails typed
    assert!(interface.find_close(&mut cursor));
    assert!(matches!(
        interface.find_next_file(&mut cursor),
        Err(PakError::UseAfterClose)
    ));
    assert!(!interface.find_close(&mut cursor));
}

#[test]
fn find_first_file_reports_invalid_pattern_and_no_match() {
    let mut interface = PakInterface::new();
    assert!(interface.add_pak_file(sample_pak()));
    assert!(matches!(
        interface.find_first_file(b"images/\0"),
        Err(PakError::InvalidInput)
    ));
    assert!(matches!(interface.find_first_file(b"images/*.txt"), Ok(None)));
    assert!(interface.find_file(b"images/*.txt").is_none());
}

#[test]
fn search_is_one_directory_level_only() {
    let mut interface = PakInterface::new();
    assert!(interface.add_pak_file(sample_pak()));
    // entries live in subdirectories: a top-level pattern must not recurse
    assert!(interface.find_file(b"*.png").is_none());
    // `*` at the top level surfaces only the disk root's self-entries,
    // never the archives' subdirectory entries
    let mut iter = interface.find_file(b"*").unwrap();
    assert_eq!(iter.next().unwrap().filename(), &b".".to_vec());
    assert_eq!(iter.next().unwrap().filename(), &b"..".to_vec());
    assert!(iter.next().is_none());
}

#[test]
fn wildcard_semantics() {
    let pak = build_pak(&[
        (b"a1.txt", b"x", 1, 0),
        (b"a22.txt", b"y", 1, 0),
        (b"b1.txt", b"z", 1, 0),
    ]);
    let mut interface = PakInterface::new();
    assert!(interface.add_pak_file(pak));
    // '?' matches exactly one byte
    let mut iter = interface.find_file(b"a?.txt").unwrap();
    let only = iter.next().unwrap();
    assert_eq!(only.filename(), &b"a1.txt".to_vec());
    assert!(iter.next().is_none());
    // '*' matches any run, case-insensitively
    let mut all = interface.find_file(b"A*.TXT").unwrap();
    assert_eq!(all.next().unwrap().filename(), &b"a1.txt".to_vec());
    assert_eq!(all.next().unwrap().filename(), &b"a22.txt".to_vec());
    assert!(all.next().is_none());
}

#[test]
fn search_order_mounts_then_dots_then_disk() {
    let pak = build_pak(&[(b"top.txt", b"pak!", 1, 0)]);
    let mut interface = PakInterface::new();
    assert!(interface.add_pak_file(pak));
    assert!(interface.add_disk_file(b"host.txt".to_vec(), b"hh".to_vec()));
    let mut iter = interface.find_file(b"*").unwrap();
    // archive entries first
    let a = iter.next().unwrap();
    assert_eq!(a.filename(), &b"top.txt".to_vec());
    assert!(!a.is_dir());
    // then the synthetic self-entries the disk store surfaces
    let dot = iter.next().unwrap();
    assert_eq!(dot.filename(), &b".".to_vec());
    assert!(dot.is_dir());
    assert_eq!(dot.file_size(), 0);
    let dotdot = iter.next().unwrap();
    assert_eq!(dotdot.filename(), &b"..".to_vec());
    assert!(dotdot.is_dir());
    // then the disk store's files
    let h = iter.next().unwrap();
    assert_eq!(h.filename(), &b"host.txt".to_vec());
    assert_eq!(h.file_size(), 2);
    assert!(iter.next().is_none());
    assert!(iter.next().is_none());
}

#[test]
fn legacy_dot_filter_keeps_archive_entries() {
    // the legacy consumer convention: stop at the first `.` entry to keep
    // only the archive-backed part of the enumeration
    let pak = build_pak(&[(b"one.txt", b"1", 1, 0), (b"two.txt", b"22", 1, 0)]);
    let mut interface = PakInterface::new();
    assert!(interface.add_pak_file(pak));
    assert!(interface.add_disk_file(b"host.txt".to_vec(), b"hh".to_vec()));
    let mut iter = interface.find_file(b"*").unwrap();
    let mut names: Vec<Vec<u8>> = Vec::new();
    while let Some(d) = iter.next() {
        if d.filename().first() == Some(&b'.') {
            break;
        }
        names.push(d.filename().clone());
    }
    assert_eq!(names, vec![b"one.txt".to_vec(), b"two.txt".to_vec()]);
}

#[test]
fn no_dot_entries_for_missing_disk_directory() {
    let mut interface = PakInterface::new();
    assert!(interface.add_pak_file(sample_pak()));
    // the disk store holds nothing under images/, so no `.`/`..` surface
    let mut iter = interface.find_file(b"images/*").unwrap();
    assert_eq!(iter.next().unwrap().filename(), &b"logo.png".to_vec());
    assert!(iter.next().is_none());
}

#[test]
fn iterator_close_is_idempotent() {
    let mut interface = PakInterface::new();
    assert!(interface.add_pak_file(sample_pak()));
    let mut iter = interface.find_file(b"data/*").unwrap();
    assert!(iter.close());
    assert!(!iter.close());
    assert!(iter.next().is_none());
}
