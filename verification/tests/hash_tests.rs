use mm_installer::download::DownloadTracker;
use mm_installer::error::InstallError;
use mm_installer::hashing::{hash_matches, hex_encode, sha1_hex, verify_hash, StreamHasher};

#[test]
fn sha1_of_abc_matches_known_vector() {
    assert_eq!(sha1_hex(b"abc"), "a9993e364706816aba3e25717850c26c9cd0d89d");
}

#[test]
fn sha1_of_empty_input() {
    assert_eq!(sha1_hex(b""), "da39a3ee5e6b4b0d3255bfef95601890afd80709");
}

#[test]
fn hex_encode_is_lower_case_two_digits_per_byte() {
    assert_eq!(hex_encode(&[0xbe, 0xef]), "beef");
    assert_eq!(hex_encode(&[0x00, 0x0a, 0xff]), "000aff");
    assert_eq!(hex_encode(&[]), "");
}

#[test]
fn streaming_hash_equals_one_shot() {
    let mut h = StreamHasher::new();
    h.update(b"ab");
    h.update(b"c");
    let digest = h.finalize();
    assert_eq!(hex_encode(&digest), sha1_hex(b"abc"));
}

#[test]
fn tracker_counts_bytes_and_hashes_them() {
    let mut t = DownloadTracker::new(Some(5));
    t.update(b"he");
    t.update(b"llo");
    let p = t.progress();
    assert_eq!(p.received_bytes, 5);
    assert_eq!(p.total_bytes, Some(5));
    assert_eq!(t.finalize(), sha1_hex(b"hello"));
}

#[test]
fn tracker_without_total() {
    let mut t = DownloadTracker::new(None);
    t.update(b"xyz");
    let p = t.progress();
    assert_eq!(p.received_bytes, 3);
    assert_eq!(p.total_bytes, None);
}

#[test]
fn hash_matches_ignores_ascii_case() {
    assert!(hash_matches("A9993E364706816ABA3E25717850C26C9CD0D89D",
        "a9993e364706816aba3e25717850c26c9cd0d89d"));
    assert!(hash_matches("abc123", "abc123"));
    assert!(!hash_matches("abc123", "abc124"));
    assert!(!hash_matches("abc", "abcd"));
}

#[test]
fn verify_hash_accepts_matching() {
    assert!(verify_hash("AA12", "aa12", "mods/x.jar").is_ok());
}

#[test]
fn verify_hash_rejects_mismatch_with_integrity_error() {
    let err = verify_hash("aa12", "bb34", "mods/x.jar").unwrap_err();
    match err {
        InstallError::Integrity { expected, actual, path } => {
            assert_eq!(expected, "aa12");
            assert_eq!(actual, "bb34");
            assert_eq!(path, "mods/x.jar");
        }
        other => panic!("expected integrity error, got {:?}", other),
    }
}
