//! Tests of the find-data record, the raw handles and the low-level calls.

use pakfs::File;
use pakfs::FileData;
use pakfs::FileHandle;
use pakfs::FileSearch;
use pakfs::HandleSource;
use pakfs::PakError;
use pakfs::PakInterface;
use pakfs::FILE_ATTRIBUTE_DIRECTORY;

fn push_entry(out: &mut Vec<u8>, name: &[u8], offset: u64, size: u64, ts: u64, attrs: u32) {
    out.push(0x00);
    out.push(name.len() as u8);
    out.extend_from_slice(name);
    out.extend_from_slice(&offset.to_le_bytes());
    out.extend_from_slice(&size.to_le_bytes());
    out.extend_from_slice(&ts.to_le_bytes());
    out.extend_from_slice(&attrs.to_le_bytes());
}

fn one_file_pak(name: &[u8], content: &[u8], attrs: u32) -> Vec<u8> {
    let mut out = vec![0x50, 0x41, 0x4b, 0x30];
    let offset = 4 + (2 + name.len() + 28) as u64 + 1;
    push_entry(&mut out, name, offset, content.len() as u64, 9, attrs);
    out.push(0x80);
    out.extend_from_slice(content);
    out
}

#[test]
fn size_reconstruction_from_split_halves() {
    // a value over 2^32: high = 3, low = 0x2A → (3 << 32) | 0x2A
    let d = FileData::new(b"big.bin".to_vec(), Vec::new(), 3, 0x2A, 0);
    assert_eq!(d.file_size(), (3u64 << 32) | 0x2A);
    assert!(d.file_size() > u32::MAX as u64);
    // and a small one reconstructs unchanged
    let s = FileData::new(b"small.bin".to_vec(), Vec::new(), 0, 1000, 0);
    assert_eq!(s.file_size(), 1000);
}

#[test]
fn file_data_fields() {
    let d = FileData::new(
        b"Name.TXT".to_vec(),
        b"NAME~1.TXT".to_vec(),
        0,
        7,
        FILE_ATTRIBUTE_DIRECTORY | 0x1,
    );
    assert_eq!(d.filename(), &b"Name.TXT".to_vec());
    assert_eq!(d.alternate_filename(), &b"NAME~1.TXT".to_vec());
    assert!(d.is_dir());
    let plain = FileData::new(b"a".to_vec(), Vec::new(), 0, 0, 0x1);
    assert!(!plain.is_dir());
}

#[test]
fn archive_entries_have_empty_alternate_names() {
    let mut interface = PakInterface::new();
    assert!(interface.add_pak_file(one_file_pak(b"x.bin", b"abc", 0)));
    let mut iter = interface.find_file(b"*").unwrap();
    let d = iter.next().unwrap();
    assert_eq!(d.filename(), &b"x.bin".to_vec());
    assert_eq!(d.alternate_filename(), &Vec::<u8>::new());
}

#[test]
fn directory_attribute_is_surfaced() {
    let mut interface = PakInterface::new();
    assert!(interface.add_pak_file(one_file_pak(b"sub", b"", FILE_ATTRIBUTE_DIRECTORY)));
    let mut iter = interface.find_file(b"*").unwrap();
    let d = iter.next().unwrap();
    assert_eq!(d.filename(), &b"sub".to_vec());
    assert!(d.is_dir());
}

#[test]
fn raw_handle_roundtrip() {
    let mut interface = PakInterface::new();
    assert!(interface.add_disk_file(b"h.bin".to_vec(), b"0123456789".to_vec()));
    let mut h = interface.fopen(b"h.bin", b"rb").unwrap();
    let part = interface.fread(&mut h, 4).unwrap();
    assert_eq!(part, b"0123".to_vec());
    let rest = interface.fread(&mut h, 100).unwrap();
    assert_eq!(rest, b"456789".to_vec());
    assert_eq!(interface.fclose(&mut h), 0);
    assert_eq!(interface.fclose(&mut h), 0);
    assert!(matches!(
        interface.fread(&mut h, 1),
        Err(PakError::UseAfterClose)
    ));
}

#[test]
fn forged_handle_reports_read_failure() {
    let interface = PakInterface::new();
    let mut h = FileHandle::new(HandleSource::Disk { index: 3 }, 10);
    assert!(matches!(
        interface.fread(&mut h, 1),
        Err(PakError::ReadFailure)
    ));
    let mut a = FileHandle::new(HandleSource::Archive { mount: 0, entry: 0 }, 10);
    assert!(matches!(
        interface.fread(&mut a, 1),
        Err(PakError::ReadFailure)
    ));
}

#[test]
fn handle_constructed_over_real_store_reads() {
    let mut interface = PakInterface::new();
    assert!(interface.add_disk_file(b"h.bin".to_vec(), b"xyz".to_vec()));
    let mut h = FileHandle::new(HandleSource::Disk { index: 0 }, 3);
    let bytes = interface.fread(&mut h, 10).unwrap();
    assert_eq!(bytes, b"xyz".to_vec());
}

#[test]
fn file_open_mirrors_fopen() {
    let mut interface = PakInterface::new();
    assert!(interface.add_disk_file(b"h.bin".to_vec(), b"xyz".to_vec()));
    assert!(File::open(&interface, b"h.bin", b"rb").is_some());
    assert!(File::open(&interface, b"h.bin", b"wb").is_none());
    assert!(File::open(&interface, b"absent", b"rb").is_none());
}

#[test]
fn fresh_cursor_exhausts_immediately_when_empty() {
    let interface = PakInterface::new();
    let mut cursor = FileSearch::new(Vec::new());
    assert!(matches!(interface.find_next_file(&mut cursor), Ok(None)));
    assert!(matches!(interface.find_next_file(&mut cursor), Ok(None)));
}

#[test]
fn fresh_cursor_yields_its_matches_in_order() {
    let interface = PakInterface::new();
    let matches = vec![
        FileData::new(b"first".to_vec(), Vec::new(), 0, 1, 0),
        FileData::new(b"second".to_vec(), Vec::new(), 0, 2, 0),
    ];
    let mut cursor = FileSearch::new(matches);
    let a = interface.find_next_file(&mut cursor).unwrap().unwrap();
    assert_eq!(a.filename(), &b"first".to_vec());
    let b = interface.find_next_file(&mut cursor).unwrap().unwrap();
    assert_eq!(b.filename(), &b"second".to_vec());
    assert!(matches!(interface.find_next_file(&mut cursor), Ok(None)));
}

#[test]
fn add_disk_file_rejects_invalid_paths() {
    let mut interface = PakInterface::new();
    assert!(!interface.add_disk_file(Vec::new(), b"x".to_vec()));
    assert!(!interface.add_disk_file(b"a\0b".to_vec(), b"x".to_vec()));
    assert!(interface.add_disk_file(b"ok".to_vec(), b"x".to_vec()));
}

#[test]
fn default_interface_is_empty() {
    let interface = PakInterface::default();
    assert_eq!(interface.list_all_file_paths().len(), 0);
    assert!(interface.find_file(b"anything/*").is_none());
}
