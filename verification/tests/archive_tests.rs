use fsg_extract::hash::hash;
use fsg_extract::resolve::extract_archive;
use fsg_extract::Error;

fn be32(x: u32) -> [u8; 4] {
    x.to_be_bytes()
}

fn header(base_offset: u32, file_count: u32) -> Vec<u8> {
    let mut v = Vec::new();
    v.extend_from_slice(b"FSG-FILE-SYSTEM\0");
    v.extend_from_slice(&be32(0)); // reserved
    v.extend_from_slice(&be32(56)); // header length
    v.extend_from_slice(&be32(0)); // sector count
    v.extend_from_slice(&be32(0)); // sector-map offset
    v.extend_from_slice(&be32(base_offset));
    v.extend_from_slice(&be32(0)); // reserved
    v.extend_from_slice(&be32(0)); // reserved
    v.extend_from_slice(&be32(file_count));
    v.extend_from_slice(&be32(0)); // reserved
    v.extend_from_slice(&be32(0)); // checksum
    v
}

fn put(buf: &mut Vec<u8>, off: usize, bytes: &[u8]) {
    if buf.len() < off + bytes.len() {
        buf.resize(off + bytes.len(), 0);
    }
    buf[off..off + bytes.len()].copy_from_slice(bytes);
}

fn index_entry(hash: u32, table_offset: u32) -> [u8; 8] {
    let h = be32(hash);
    let t = be32(table_offset);
    [h[0], h[1], h[2], h[3], 0, t[1], t[2], t[3]]
}

fn table_record(raw_offset: u32, size: u32) -> [u8; 8] {
    let mut r = [0u8; 8];
    r[..4].copy_from_slice(&be32(raw_offset));
    r[4..].copy_from_slice(&be32(size));
    r
}

/// One file `readme.txt` holding `hello`: header and index up front, the
/// root listing at the base offset, the data one sector below it.
fn readme_archive() -> Vec<u8> {
    let base: u32 = 0x400;
    let mut v = header(base, 1);
    let e = index_entry(hash("readme.txt"), 64);
    put(&mut v, 56, &e);
    put(&mut v, 64, &table_record(1, 5));
    put(&mut v, base as usize, b"Freadme.txt\0\0");
    put(&mut v, (base + 1024) as usize, b"hello");
    v
}

#[test]
fn single_file_archive_extracts_hello() {
    let files = extract_archive(vec![readme_archive()], 16).unwrap();
    assert_eq!(files.len(), 1);
    assert_eq!(files[0].path, b"readme.txt".to_vec());
    assert_eq!(files[0].data, b"hello".to_vec());
}

#[test]
fn split_archive_extracts_like_the_unsplit_one() {
    let whole = readme_archive();
    let unsplit = extract_archive(vec![whole.clone()], 16).unwrap();
    // part0: header and index; part1: listing and file data
    let part0 = whole[..0x400].to_vec();
    let part1 = whole[0x400..].to_vec();
    let split = extract_archive(vec![part0, part1], 16).unwrap();
    assert_eq!(unsplit.len(), split.len());
    for (a, b) in unsplit.iter().zip(split.iter()) {
        assert_eq!(a.path, b.path);
        assert_eq!(a.data, b.data);
    }
}

#[test]
fn tree_round_trip_reproduces_contents_and_skips_orphans() {
    let base: u32 = 0x400;
    let mut v = header(base, 4);
    // index: dir "a", file "b.txt", file "a/c.txt", and an orphan entry
    // whose hash matches no discoverable path
    put(&mut v, 56, &index_entry(hash("a"), 88));
    put(&mut v, 64, &index_entry(hash("b.txt"), 96));
    put(&mut v, 72, &index_entry(hash("a/c.txt"), 104));
    put(&mut v, 80, &index_entry(hash("zzz-orphan"), 112));
    put(&mut v, 88, &table_record(1, 0)); // dir "a" listing at base + 1024
    put(&mut v, 96, &table_record(2, 3)); // "bee" at base + 2048
    put(&mut v, 104, &table_record(3, 3)); // "sea" at base + 3072
    put(&mut v, 112, &table_record(2, 3)); // orphan points at valid bytes
    put(&mut v, base as usize, b"Da\0Fb.txt\0\0");
    put(&mut v, (base + 1024) as usize, b"Fc.txt\0\0");
    put(&mut v, (base + 2048) as usize, b"bee");
    put(&mut v, (base + 3072) as usize, b"sea");

    let files = extract_archive(vec![v], 16).unwrap();
    // depth-first, in listing order: the subtree of "a" before "b.txt",
    // and nothing for the orphan index entry
    assert_eq!(files.len(), 2);
    assert_eq!(files[0].path, b"a/c.txt".to_vec());
    assert_eq!(files[0].data, b"sea".to_vec());
    assert_eq!(files[1].path, b"b.txt".to_vec());
    assert_eq!(files[1].data, b"bee".to_vec());
}

#[test]
fn wrong_magic_is_rejected_with_no_output() {
    let mut v = readme_archive();
    v[0] = b'X';
    assert_eq!(extract_archive(vec![v], 16), Err(Error::InvalidFormat));
}

#[test]
fn all_zero_prefix_is_rejected() {
    let v = vec![0u8; 4096];
    assert_eq!(extract_archive(vec![v], 16), Err(Error::InvalidFormat));
}

#[test]
fn input_shorter_than_the_magic_is_truncated() {
    let v = b"FSG-FILE".to_vec();
    assert_eq!(extract_archive(vec![v], 16), Err(Error::TruncatedInput));
}

#[test]
fn header_cut_before_its_last_field_is_truncated() {
    let v = header(0x400, 1)[..50].to_vec();
    assert_eq!(extract_archive(vec![v], 16), Err(Error::TruncatedInput));
}

#[test]
fn index_claiming_more_entries_than_the_stream_holds_is_truncated() {
    let v = header(0x400, 1000);
    assert_eq!(extract_archive(vec![v], 16), Err(Error::TruncatedInput));
}

#[test]
fn listing_without_terminator_is_truncated() {
    let base: u32 = 0x400;
    let mut v = header(base, 0);
    put(&mut v, base as usize, b"Freadme.txt"); // no NUL, no empty name
    assert_eq!(extract_archive(vec![v], 16), Err(Error::TruncatedInput));
}

#[test]
fn file_range_past_the_end_is_truncated() {
    let base: u32 = 0x400;
    let mut v = header(base, 1);
    put(&mut v, 56, &index_entry(hash("big"), 64));
    put(&mut v, 64, &table_record(1, 100000));
    put(&mut v, base as usize, b"Fbig\0\0");
    assert_eq!(extract_archive(vec![v], 16), Err(Error::TruncatedInput));
}

#[test]
fn nesting_deeper_than_the_guard_fails_and_within_it_succeeds() {
    let base: u32 = 0x400;
    let mut v = header(base, 2);
    put(&mut v, 56, &index_entry(hash("a"), 72));
    put(&mut v, 64, &index_entry(hash("a/b"), 80));
    put(&mut v, 72, &table_record(1, 0)); // listing of "a" at base + 1024
    put(&mut v, 80, &table_record(2, 0)); // listing of "a/b" at base + 2048
    put(&mut v, base as usize, b"Da\0\0");
    put(&mut v, (base + 1024) as usize, b"Db\0\0");
    put(&mut v, (base + 2048) as usize, b"\0");
    assert_eq!(extract_archive(vec![v.clone()], 2), Err(Error::RecursionLimit));
    assert_eq!(extract_archive(vec![v], 3), Ok(Vec::new()));
}

#[test]
fn entry_with_unmatched_hash_is_silently_skipped() {
    let base: u32 = 0x400;
    let mut v = header(base, 1);
    put(&mut v, 56, &index_entry(hash("readme.txt"), 64));
    put(&mut v, 64, &table_record(1, 5));
    // the listing names a different file, whose hash misses the index
    put(&mut v, base as usize, b"Fother.txt\0\0");
    put(&mut v, (base + 1024) as usize, b"hello");
    let files = extract_archive(vec![v], 16).unwrap();
    assert_eq!(files.len(), 0);
}

#[test]
fn table_offset_past_the_end_is_truncated() {
    let base: u32 = 0x400;
    let mut v = header(base, 1);
    put(&mut v, 56, &index_entry(hash("readme.txt"), 0xFFFFF0));
    put(&mut v, base as usize, b"\0");
    assert_eq!(extract_archive(vec![v], 16), Err(Error::TruncatedInput));
}
