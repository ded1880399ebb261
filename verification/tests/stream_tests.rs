use fsg_extract::stream::{read_all, read_byte_at, PartReader};

#[test]
fn reading_is_partition_invariant() {
    let data: Vec<u8> = (0u8..200).collect();
    let whole = read_all(vec![data.clone()]);
    let halves = read_all(vec![data[..77].to_vec(), data[77..].to_vec()]);
    let many = read_all(vec![
        data[..1].to_vec(),
        data[1..1].to_vec(),
        data[1..63].to_vec(),
        data[63..199].to_vec(),
        data[199..].to_vec(),
    ]);
    assert_eq!(whole, data);
    assert_eq!(halves, data);
    assert_eq!(many, data);
}

#[test]
fn seek_then_read_returns_the_logical_byte() {
    let parts = vec![vec![10u8, 11, 12], vec![], vec![13u8, 14]];
    let flat = vec![10u8, 11, 12, 13, 14];
    let mut s = PartReader::new(parts);
    for p in 0..flat.len() {
        assert_eq!(read_byte_at(&mut s, p as u64), Ok(flat[p]));
    }
    assert!(read_byte_at(&mut s, 5).is_err());
}

#[test]
fn read_is_short_only_at_end_of_stream() {
    let mut s = PartReader::new(vec![vec![1u8, 2], vec![3u8]]);
    let r = s.read(2);
    assert_eq!(r, vec![1, 2]);
    let r = s.read(5);
    assert_eq!(r, vec![3]);
    let r = s.read(4);
    assert_eq!(r, Vec::<u8>::new());
}

#[test]
fn read_exact_fails_without_moving_the_cursor() {
    let mut s = PartReader::new(vec![vec![1u8, 2, 3]]);
    assert!(s.read_exact(4).is_err());
    assert_eq!(s.read_exact(3), Ok(vec![1, 2, 3]));
}

#[test]
fn seek_start_rejects_targets_past_the_end() {
    let mut s = PartReader::new(vec![vec![1u8, 2, 3]]);
    assert!(s.seek_start(2).is_ok());
    assert!(s.seek_start(3).is_err());
    assert!(s.seek_start(100).is_err());
}

#[test]
fn seek_end_resolves_against_total_length() {
    let mut s = PartReader::new(vec![vec![1u8, 2], vec![3u8, 4]]);
    assert!(s.seek_end(-1).is_ok());
    assert_eq!(s.read_byte(), Ok(4));
    assert!(s.seek_end(-4).is_ok());
    assert_eq!(s.read_byte(), Ok(1));
    assert!(s.seek_end(0).is_err());
    assert!(s.seek_end(-5).is_err());
}

#[test]
fn seek_current_moves_relative_to_the_cursor() {
    let mut s = PartReader::new(vec![vec![1u8, 2, 3, 4]]);
    assert!(s.seek_start(1).is_ok());
    assert!(s.seek_current(2).is_ok());
    assert_eq!(s.read_byte(), Ok(4));
    assert!(s.seek_current(-4).is_ok());
    assert_eq!(s.read_byte(), Ok(1));
    assert!(s.seek_current(100).is_err());
}

#[test]
fn position_tracks_reads_and_seeks() {
    let mut s = PartReader::new(vec![vec![1u8, 2], vec![3u8, 4]]);
    assert_eq!(s.position(), 0);
    let _ = s.read(3);
    assert_eq!(s.position(), 3);
    assert!(s.seek_start(1).is_ok());
    assert_eq!(s.position(), 1);
}

#[test]
fn total_len_sums_all_parts() {
    let s = PartReader::new(vec![vec![0u8; 7], vec![], vec![0u8; 5]]);
    assert_eq!(s.total_len(), 12);
}
