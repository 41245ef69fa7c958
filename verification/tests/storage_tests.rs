use torrent_core::file::Segment;
use torrent_core::file::TorrentFile;
use torrent_core::storage::Storage;
use torrent_core::storage::StorageError;
use torrent_core::storage::memory::MemoryStorage;

fn bytes(len: usize) -> Vec<u8> {
    (0..len).map(|i| (i % 97) as u8).collect()
}

#[test]
fn register_and_query_a_file() {
    let mut s = MemoryStorage::new("srv".to_string(), 4);
    assert!(s.register_file("a.bin", bytes(10)).is_ok());
    assert_eq!(s.file_size("a.bin"), Some(10));
    assert!(s.is_complete("a.bin"));
    assert_eq!(s.segment_numbers("a.bin"), Some(vec![0, 1, 2]));
    assert_eq!(s.file_data("a.bin"), bytes(10));
    let f: &TorrentFile = s.find_file("a.bin").unwrap();
    assert_eq!(f.intended_size, 10);
}

#[test]
fn unknown_names_degrade_gracefully() {
    let s = MemoryStorage::new("srv".to_string(), 4);
    assert!(!s.is_complete("nope.bin"));
    assert_eq!(s.file_size("nope.bin"), None);
    assert_eq!(s.segment_numbers("nope.bin"), None);
    assert!(s.find_file("nope.bin").is_none());
}

#[test]
fn register_file_refuses_duplicate_names() {
    let mut s = MemoryStorage::new("srv".to_string(), 4);
    assert!(s.register_file("a.bin", bytes(10)).is_ok());
    assert!(matches!(
        s.register_file("a.bin", bytes(3)),
        Err(StorageError::AlreadyExists)
    ));
    // The first registration stands untouched.
    assert_eq!(s.file_size("a.bin"), Some(10));
}

#[test]
fn create_empty_file_refuses_duplicate_names() {
    let mut s = MemoryStorage::new("srv".to_string(), 4);
    assert!(s.create_empty_file("a.bin", 10).is_ok());
    assert!(matches!(
        s.create_empty_file("a.bin", 99),
        Err(StorageError::AlreadyExists)
    ));
    assert_eq!(s.file_size("a.bin"), Some(10));
}

#[test]
fn add_segment_to_unknown_name_fails() {
    let mut s = MemoryStorage::new("srv".to_string(), 4);
    let r = s.add_segment("nope.bin", Segment { index: 0, data: vec![1] });
    assert!(matches!(r, Err(StorageError::UnknownFile)));
}

#[test]
fn segments_accumulate_until_complete() {
    let mut s = MemoryStorage::new("srv".to_string(), 4);
    assert!(s.create_empty_file("d.bin", 6).is_ok());
    assert!(!s.is_complete("d.bin"));
    assert!(s.add_segment("d.bin", Segment { index: 1, data: vec![5, 6] }).is_ok());
    assert!(!s.is_complete("d.bin"));
    assert!(s.add_segment("d.bin", Segment { index: 0, data: vec![1, 2, 3, 4] }).is_ok());
    assert!(s.is_complete("d.bin"));
    assert_eq!(s.file_data("d.bin"), vec![1, 2, 3, 4, 5, 6]);
    assert_eq!(s.segment_numbers("d.bin"), Some(vec![1, 0]));
}

#[test]
fn segment_returns_the_held_segment() {
    let mut s = MemoryStorage::new("srv".to_string(), 4);
    assert!(s.register_file("a.bin", bytes(10)).is_ok());
    let seg = s.segment("a.bin", 2);
    assert_eq!(seg.index, 2);
    assert_eq!(seg.data, vec![8, 9]);
}

#[test]
fn path_joins_folder_and_name() {
    let s = MemoryStorage::new("downloads".to_string(), 4);
    assert_eq!(s.path("x.bin"), "downloads/x.bin".to_string());
}

#[test]
fn files_are_kept_apart_by_name() {
    let mut s = MemoryStorage::new("srv".to_string(), 4);
    assert!(s.register_file("a.bin", bytes(10)).is_ok());
    assert!(s.create_empty_file("b.bin", 2).is_ok());
    assert!(s.add_segment("b.bin", Segment { index: 0, data: vec![8, 9] }).is_ok());
    assert!(s.is_complete("a.bin"));
    assert!(s.is_complete("b.bin"));
    assert_eq!(s.file_data("a.bin"), bytes(10));
    assert_eq!(s.file_data("b.bin"), vec![8, 9]);
}
