use fsg_extract::hash::{hash, hash_bytes};
use fsg_extract::resolve::extend_path;

#[test]
fn hash_of_empty_is_seed() {
    assert_eq!(hash(""), 2166136261);
}

#[test]
fn hash_of_single_letter() {
    // 2166136261 * 1677619 mod 2^32, XOR 'A'
    assert_eq!(hash("A"), 993733502);
}

#[test]
fn hash_is_case_insensitive() {
    assert_eq!(hash("Foo/Bar"), hash("FOO/BAR"));
    assert_eq!(hash("Foo/Bar"), 3356199025);
    assert_eq!(hash("readme.txt"), hash("README.TXT"));
}

#[test]
fn hash_is_deterministic() {
    assert_eq!(hash("some/long/path.bin"), hash("some/long/path.bin"));
}

#[test]
fn hash_bytes_matches_hash_on_ascii() {
    assert_eq!(hash_bytes(b"readme.txt"), hash("readme.txt"));
    assert_eq!(hash_bytes(b"readme.txt"), 1898591865);
}

#[test]
fn hash_distinguishes_paths() {
    assert_ne!(hash("a"), hash("b"));
}

#[test]
fn extend_path_at_root_strips_marker() {
    assert_eq!(extend_path("", "Freadme.txt"), "readme.txt");
}

#[test]
fn extend_path_below_directory_joins_with_slash() {
    assert_eq!(extend_path("some/dir", "Dchild"), "some/dir/child");
}
