use torrent_core::SEGMENT_SIZE;
use torrent_core::file::Segment;
use torrent_core::file::TorrentFile;

fn pattern(len: usize) -> Vec<u8> {
    let mut v = Vec::with_capacity(len);
    for i in 0..len {
        v.push((i % 251) as u8);
    }
    v
}

#[test]
fn chunking_splits_at_segment_boundaries() {
    let data: Vec<u8> = (0u8..10).collect();
    let file = TorrentFile::new(data.clone(), "a.bin", 4);
    assert_eq!(file.segments.len(), 3);
    assert_eq!(file.intended_size, 10);
    assert_eq!(file.actual_size, 10);
    assert_eq!(file.segments[0].index, 0);
    assert_eq!(file.segments[0].data, vec![0, 1, 2, 3]);
    assert_eq!(file.segments[1].index, 1);
    assert_eq!(file.segments[1].data, vec![4, 5, 6, 7]);
    assert_eq!(file.segments[2].index, 2);
    assert_eq!(file.segments[2].data, vec![8, 9]);
    assert!(file.is_complete());
    assert_eq!(file.collect_file(), data);
}

#[test]
fn chunk_reassemble_round_trip() {
    for len in [
        0,
        1,
        SEGMENT_SIZE - 1,
        SEGMENT_SIZE,
        SEGMENT_SIZE + 1,
        10 * SEGMENT_SIZE,
    ] {
        let data = pattern(len);
        let file = TorrentFile::new(data.clone(), "r.bin", SEGMENT_SIZE);
        assert!(file.is_complete(), "length {len} should chunk to a complete file");
        assert_eq!(file.collect_file(), data, "length {len} should round-trip");
    }
}

#[test]
fn add_segment_is_idempotent() {
    let mut file = TorrentFile::new_empty("i.bin", 6, 4);
    let seg = Segment { index: 0, data: vec![1, 2, 3, 4] };
    file.add_segment(seg.clone());
    assert_eq!(file.actual_size, 4);
    assert_eq!(file.segments.len(), 1);
    file.add_segment(seg);
    assert_eq!(file.actual_size, 4);
    assert_eq!(file.segments.len(), 1);
    assert_eq!(file.segments[0].data, vec![1, 2, 3, 4]);
}

#[test]
fn first_writer_wins_on_duplicate_index() {
    let mut file = TorrentFile::new_empty("w.bin", 8, 4);
    file.add_segment(Segment { index: 0, data: vec![9, 9, 9, 9] });
    file.add_segment(Segment { index: 0, data: vec![7, 7, 7, 7] });
    assert_eq!(file.segments.len(), 1);
    assert_eq!(file.segments[0].data, vec![9, 9, 9, 9]);
    assert_eq!(file.actual_size, 4);
}

#[test]
fn out_of_order_delivery_matches_forward_order() {
    let data = pattern(11);
    let chunked = TorrentFile::new(data.clone(), "o.bin", 4);

    let mut forward = TorrentFile::new_empty("o.bin", 11, 4);
    for seg in chunked.segments.iter() {
        forward.add_segment(seg.clone());
    }

    let mut backward = TorrentFile::new_empty("o.bin", 11, 4);
    for seg in chunked.segments.iter().rev() {
        backward.add_segment(seg.clone());
    }

    assert_eq!(forward.is_complete(), backward.is_complete());
    assert!(backward.is_complete());
    assert_eq!(forward.collect_file(), backward.collect_file());
    assert_eq!(backward.collect_file(), data);
}

#[test]
fn completeness_survives_further_insertions() {
    let data = pattern(9);
    let chunked = TorrentFile::new(data.clone(), "m.bin", 4);
    let mut file = TorrentFile::new_empty("m.bin", 9, 4);
    for seg in chunked.segments.iter() {
        file.add_segment(seg.clone());
    }
    assert!(file.is_complete());
    for seg in chunked.segments.iter() {
        file.add_segment(seg.clone());
        assert!(file.is_complete());
    }
    assert_eq!(file.collect_file(), data);
}

#[test]
fn zero_length_file_is_complete_immediately() {
    let empty = TorrentFile::new_empty("z.bin", 0, SEGMENT_SIZE);
    assert!(empty.is_complete());
    assert_eq!(empty.collect_file(), Vec::<u8>::new());

    let chunked = TorrentFile::new(Vec::new(), "z.bin", SEGMENT_SIZE);
    assert_eq!(chunked.segments.len(), 0);
    assert!(chunked.is_complete());
}

#[test]
fn nonzero_placeholder_is_not_complete() {
    let file = TorrentFile::new_empty("p.bin", 5, 4);
    assert!(!file.is_complete());
}

#[test]
fn gap_in_indices_is_not_complete() {
    let mut file = TorrentFile::new_empty("g.bin", 10, 4);
    file.add_segment(Segment { index: 0, data: vec![1, 2, 3, 4] });
    file.add_segment(Segment { index: 2, data: vec![9, 10] });
    // Byte count alone does not decide completeness: 4 + 2 != 10 anyway,
    // and index 1 is missing.
    assert!(!file.is_complete());
    file.add_segment(Segment { index: 1, data: vec![5, 6, 7, 8] });
    assert!(file.is_complete());
    assert_eq!(file.collect_file(), vec![1, 2, 3, 4, 5, 6, 7, 8, 9, 10]);
}

#[test]
fn byte_count_alone_is_not_completeness() {
    // All ten bytes in one segment at index 0, but a 10-byte file chunked
    // at 4 expects three segments: the defensive double check refuses it.
    let mut file = TorrentFile::new_empty("b.bin", 10, 4);
    file.add_segment(Segment { index: 0, data: pattern(10) });
    assert_eq!(file.actual_size, 10);
    assert!(!file.is_complete());
}

#[test]
fn find_segment_reports_held_indices() {
    let mut file = TorrentFile::new_empty("f.bin", 8, 4);
    file.add_segment(Segment { index: 1, data: vec![5, 6, 7, 8] });
    assert_eq!(file.find_segment(1), Some(0));
    assert_eq!(file.find_segment(0), None);
    assert_eq!(file.segment_numbers(), vec![1]);
}
