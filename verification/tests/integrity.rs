use folder_compare::ChecksumError;
use folder_compare::checksums::{build_manifest, from_parts, Checksums, ChecksumsEntry};
use folder_compare::compare::diff_manifests;
use folder_compare::hasher::{hash_bytes, hex_upper, sha1_hex_upper, BLOCK_SIZE};
use folder_compare::message::{Message, Phase, ProgressTracker};
use folder_compare::verify::hash_plan;

const EMPTY_SHA1: &str = "DA39A3EE5E6B4B0D3255BFEF95601890AFD80709";

fn manifest_of(algorithm: &str, rows: &[(&str, u64, &str)]) -> Checksums {
    let mut m = Checksums::new(algorithm);
    for &(path, size, hash) in rows {
        m.add(ChecksumsEntry::new(path, size, hash));
    }
    m
}

fn strings(paths: &[&str]) -> Vec<String> {
    paths.iter().map(|p| p.to_string()).collect()
}

#[test]
fn empty_digest_is_the_sha1_constant() {
    assert_eq!(sha1_hex_upper(&Vec::new(), BLOCK_SIZE), EMPTY_SHA1);
    assert_eq!(sha1_hex_upper(&Vec::new(), 0), EMPTY_SHA1);
}

#[test]
fn hex_upper_renders_bytes() {
    assert_eq!(hex_upper(&vec![0xbe, 0xef]), "BEEF");
    assert_eq!(hex_upper(&vec![0x00, 0x0a, 0x7f]), "000A7F");
    assert_eq!(hex_upper(&Vec::new()), "");
}

#[test]
fn digest_matches_known_value() {
    let data: Vec<u8> = b"hello\n".to_vec();
    assert_eq!(
        sha1_hex_upper(&data, BLOCK_SIZE),
        "F572D396FAE9206628714FB2CE00F72E94F2258F"
    );
}

#[test]
fn digest_is_deterministic_and_block_size_free() {
    let mut data: Vec<u8> = Vec::new();
    for i in 0..3000u32 {
        data.push((i % 251) as u8);
    }
    let whole = sha1_hex_upper(&data, 0);
    assert_eq!(sha1_hex_upper(&data, 1), whole);
    assert_eq!(sha1_hex_upper(&data, 7), whole);
    assert_eq!(sha1_hex_upper(&data, BLOCK_SIZE), whole);
    assert_eq!(sha1_hex_upper(&data, 0), whole);
    assert_eq!(whole.len(), 40);
}

#[test]
fn unknown_algorithm_is_rejected() {
    let data: Vec<u8> = b"abc".to_vec();
    let r = hash_bytes("md5", &data, BLOCK_SIZE);
    assert!(matches!(r, Err(ChecksumError::UnknownAlgorithm)));
    let ok = hash_bytes("sha1", &data, BLOCK_SIZE);
    assert!(ok.is_ok());
}

#[test]
fn build_manifest_counts_files_and_bytes() {
    let files = vec![("a.txt".to_string(), 6u64), ("sub/b.bin".to_string(), 256u64)];
    let m = build_manifest("sha1", &files).unwrap();
    assert_eq!(m.len(), 2);
    assert_eq!(m.total_size(), 262);
    assert_eq!(m.algorithm(), "sha1");
    assert_eq!(m.entry_at(0).path(), "a.txt");
    assert_eq!(m.entry_at(0).size(), 6);
    assert_eq!(m.entry_at(0).hash(), "");
    assert_eq!(m.entry_at(1).path(), "sub/b.bin");
}

#[test]
fn empty_manifest_builds_and_rebuilds() {
    let files: Vec<(String, u64)> = Vec::new();
    let m = build_manifest("sha1", &files).unwrap();
    assert_eq!(m.len(), 0);
    assert_eq!(m.total_size(), 0);
    let m2 = from_parts(m.algorithm().clone(), m.entries().clone()).unwrap();
    assert_eq!(m2.len(), 0);
    assert_eq!(m2.total_size(), 0);
}

#[test]
fn build_manifest_rejects_size_overflow() {
    let files = vec![("a".to_string(), u64::MAX), ("b".to_string(), 1u64)];
    let r = build_manifest("sha1", &files);
    assert!(matches!(r, Err(ChecksumError::SizeOverflow)));
}

#[test]
fn from_parts_rejects_size_overflow() {
    let entries = vec![
        ChecksumsEntry::new("a", u64::MAX, ""),
        ChecksumsEntry::new("b", 1, ""),
    ];
    let r = from_parts("sha1".to_string(), entries);
    assert!(matches!(r, Err(ChecksumError::SizeOverflow)));
}

#[test]
fn find_returns_first_match_by_exact_path() {
    let m = manifest_of(
        "sha1",
        &[("a.txt", 1, "AA"), ("b.txt", 2, "BB"), ("a.txt", 3, "CC")],
    );
    let hit = m.find(&"a.txt".to_string()).unwrap();
    assert_eq!(hit.size(), 1);
    assert_eq!(hit.hash(), "AA");
    assert!(m.find(&"A.TXT".to_string()).is_none());
    assert!(m.find(&"c.txt".to_string()).is_none());
    assert_eq!(m.find_index(&"b.txt".to_string()), Some(1));
    assert_eq!(m.find_index(&"c.txt".to_string()), None);
}

#[test]
fn set_hash_at_changes_only_the_digest() {
    let mut m = manifest_of("sha1", &[("a.txt", 5, ""), ("b.txt", 7, "")]);
    m.set_hash_at(1, "FFFF");
    assert_eq!(m.entry_at(1).hash(), "FFFF");
    assert_eq!(m.entry_at(1).path(), "b.txt");
    assert_eq!(m.entry_at(1).size(), 7);
    assert_eq!(m.entry_at(0).hash(), "");
    assert_eq!(m.total_size(), 12);
}

#[test]
fn calculate_hash_fills_the_entry_digest() {
    let data: Vec<u8> = b"hello\n".to_vec();
    let mut m = manifest_of("sha1", &[("a.txt", 6, "")]);
    m.calculate_hash_at(0, &data, BLOCK_SIZE).unwrap();
    assert_eq!(
        m.entry_at(0).hash(),
        "F572D396FAE9206628714FB2CE00F72E94F2258F"
    );

    let mut e = ChecksumsEntry::new("x", 3, "");
    e.calculate_hash(&b"abc".to_vec(), "sha1", 0).unwrap();
    assert_eq!(e.hash().len(), 40);
    let r = e.calculate_hash(&b"abc".to_vec(), "sha512", 0);
    assert!(matches!(r, Err(ChecksumError::UnknownAlgorithm)));
}

#[test]
fn save_parts_and_reload_round_trips() {
    let data: Vec<u8> = b"payload".to_vec();
    let digest = sha1_hex_upper(&data, BLOCK_SIZE);
    let m = manifest_of(
        "sha1",
        &[("a.txt", 7, digest.as_str()), ("b.txt", 0, EMPTY_SHA1)],
    );
    let loaded = from_parts(m.algorithm().clone(), m.entries().clone()).unwrap();
    assert_eq!(loaded.algorithm(), m.algorithm());
    assert_eq!(loaded.len(), m.len());
    assert_eq!(loaded.total_size(), m.total_size());
    for i in 0..m.len() {
        assert_eq!(loaded.entry_at(i).path(), m.entry_at(i).path());
        assert_eq!(loaded.entry_at(i).size(), m.entry_at(i).size());
        assert_eq!(loaded.entry_at(i).hash(), m.entry_at(i).hash());
    }
}

#[test]
fn diff_of_equal_manifests_is_all_unchanged() {
    let a = sha1_hex_upper(&b"hello\n".to_vec(), BLOCK_SIZE);
    let b = sha1_hex_upper(&vec![0u8; 256], BLOCK_SIZE);
    let m1 = manifest_of("sha1", &[("a.txt", 6, a.as_str()), ("sub/b.bin", 256, b.as_str())]);
    let m2 = manifest_of("sha1", &[("a.txt", 6, a.as_str()), ("sub/b.bin", 256, b.as_str())]);
    let d = diff_manifests(&m1, &m2).unwrap();
    assert_eq!(d.unchanged, strings(&["a.txt", "sub/b.bin"]));
    assert_eq!(d.changed, strings(&[]));
    assert_eq!(d.added, strings(&[]));
    assert_eq!(d.removed, strings(&[]));
}

#[test]
fn diff_sees_a_modified_file_as_changed() {
    let old_digest = sha1_hex_upper(&b"hello\n".to_vec(), BLOCK_SIZE);
    let new_digest = sha1_hex_upper(&b"world\n".to_vec(), BLOCK_SIZE);
    let keep = sha1_hex_upper(&vec![0u8; 256], BLOCK_SIZE);
    assert_ne!(old_digest, new_digest);
    let m1 = manifest_of(
        "sha1",
        &[("a.txt", 6, old_digest.as_str()), ("sub/b.bin", 256, keep.as_str())],
    );
    let m2 = manifest_of(
        "sha1",
        &[("a.txt", 6, new_digest.as_str()), ("sub/b.bin", 256, keep.as_str())],
    );
    let d = diff_manifests(&m1, &m2).unwrap();
    assert_eq!(d.changed, strings(&["a.txt"]));
    assert_eq!(d.unchanged, strings(&["sub/b.bin"]));
    assert_eq!(d.added, strings(&[]));
    assert_eq!(d.removed, strings(&[]));
}

#[test]
fn diff_sees_additions_and_removals() {
    let a = sha1_hex_upper(&b"hello\n".to_vec(), BLOCK_SIZE);
    let b = sha1_hex_upper(&vec![0u8; 256], BLOCK_SIZE);
    let c = sha1_hex_upper(&b"x".to_vec(), BLOCK_SIZE);
    let m1 = manifest_of("sha1", &[("a.txt", 6, a.as_str()), ("sub/b.bin", 256, b.as_str())]);
    let m2 = manifest_of("sha1", &[("a.txt", 6, a.as_str()), ("c.txt", 1, c.as_str())]);
    let d = diff_manifests(&m1, &m2).unwrap();
    assert_eq!(d.removed, strings(&["sub/b.bin"]));
    assert_eq!(d.added, strings(&["c.txt"]));
    assert_eq!(d.unchanged, strings(&["a.txt"]));
    assert_eq!(d.changed, strings(&[]));
}

#[test]
fn diff_same_size_different_content_is_changed() {
    let old_digest = sha1_hex_upper(&b"AAAA".to_vec(), BLOCK_SIZE);
    let new_digest = sha1_hex_upper(&b"BBBB".to_vec(), BLOCK_SIZE);
    assert_ne!(old_digest, new_digest);
    let m1 = manifest_of("sha1", &[("f", 4, old_digest.as_str())]);
    let m2 = manifest_of("sha1", &[("f", 4, new_digest.as_str())]);
    let d = diff_manifests(&m1, &m2).unwrap();
    assert_eq!(d.changed, strings(&["f"]));
    assert_eq!(d.unchanged, strings(&[]));
}

#[test]
fn diff_rejects_mismatched_algorithms() {
    let m1 = manifest_of("sha1", &[("a.txt", 6, "AA")]);
    let m2 = manifest_of("sha256", &[("a.txt", 6, "AA")]);
    let r = diff_manifests(&m1, &m2);
    assert!(matches!(r, Err(ChecksumError::AlgorithmMismatch)));
}

#[test]
fn hash_plan_skips_size_mismatches_and_new_paths() {
    let old = manifest_of(
        "sha1",
        &[("same", 10, "AA"), ("resized", 5, "BB"), ("gone", 1, "CC")],
    );
    let new = manifest_of(
        "sha1",
        &[("resized", 6, ""), ("same", 10, ""), ("fresh", 3, "")],
    );
    let plan = hash_plan(&old, &new);
    // Only "same" keeps its size; "resized" differs, "fresh" is new-only.
    assert_eq!(plan, vec![1usize]);
}

#[test]
fn hash_plan_covers_every_size_match() {
    let old = manifest_of("sha1", &[("a", 1, "AA"), ("b", 2, "BB")]);
    let new = manifest_of("sha1", &[("b", 2, ""), ("a", 1, "")]);
    let plan = hash_plan(&old, &new);
    assert_eq!(plan, vec![0usize, 1usize]);
}

#[test]
fn verify_flow_classifies_like_compare() {
    // Old manifest: a.txt = "hello\n", sub/b.bin = 256 zero bytes.
    let hello = sha1_hex_upper(&b"hello\n".to_vec(), BLOCK_SIZE);
    let zeros = sha1_hex_upper(&vec![0u8; 256], BLOCK_SIZE);
    let old = manifest_of(
        "sha1",
        &[("a.txt", 6, hello.as_str()), ("sub/b.bin", 256, zeros.as_str())],
    );
    // Fresh walk: a.txt overwritten by "world\n" (same size), sub/b.bin
    // deleted, c.txt created.
    let files = vec![("a.txt".to_string(), 6u64), ("c.txt".to_string(), 1u64)];
    let mut fresh = build_manifest(old.algorithm(), &files).unwrap();
    let plan = hash_plan(&old, &fresh);
    // Only a.txt keeps its size; c.txt is new-only and never hashed.
    assert_eq!(plan, vec![0usize]);
    for &i in &plan {
        fresh.calculate_hash_at(i, &b"world\n".to_vec(), BLOCK_SIZE).unwrap();
    }
    let d = diff_manifests(&old, &fresh).unwrap();
    assert_eq!(d.changed, strings(&["a.txt"]));
    assert_eq!(d.removed, strings(&["sub/b.bin"]));
    assert_eq!(d.added, strings(&["c.txt"]));
    assert_eq!(d.unchanged, strings(&[]));
}

#[test]
fn progress_protocol_orders_events() {
    let mut t = ProgressTracker::new();
    assert_eq!(t.phase, Phase::Idle);
    assert!(!t.record(&Message::Progress(10)));
    assert!(!t.record(&Message::Done));
    assert!(t.record(&Message::Started(100, 2)));
    assert_eq!(t.phase, Phase::Running);
    assert_eq!(t.total_size, 100);
    assert_eq!(t.total_files, 2);
    assert!(!t.record(&Message::Started(1, 1)));
    assert!(t.record(&Message::Progress(60)));
    assert!(t.record(&Message::Progress(40)));
    assert!(t.record(&Message::FileDone));
    assert!(t.record(&Message::FileDone));
    assert!(t.record(&Message::Success));
    assert_eq!(t.bytes_seen, 100);
    assert_eq!(t.files_seen, 2);
    assert!(t.record(&Message::Done));
    assert_eq!(t.phase, Phase::Finished);
    assert!(!t.record(&Message::Progress(1)));
    assert!(!t.record(&Message::Done));
}

#[test]
fn progress_counters_saturate() {
    let mut t = ProgressTracker::new();
    assert!(t.record(&Message::Started(u64::MAX, 1)));
    assert!(t.record(&Message::Progress(usize::MAX)));
    assert!(t.record(&Message::Progress(usize::MAX)));
    assert!(t.record(&Message::Progress(usize::MAX)));
    assert_eq!(t.bytes_seen, u64::MAX);
}
