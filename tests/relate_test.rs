use file_deduplicator::fingerprint::fingerprint;
use file_deduplicator::inventory::{
    io_error, no_created, walkdir_error, wrong_size, ErrorType, FileInfo, WalkInfo,
};
use file_deduplicator::relate::{
    file_content_equal, hash_contents, HashedFile, Progress, RelateConf, RelatedFiles, Relating,
};
use std::collections::BTreeSet;

fn info(name: &str, size: u64) -> FileInfo {
    FileInfo { name: name.to_string(), size, created: 1_700_000_000_000_000_000 }
}

fn pseudo_random_bytes(seed: u64, len: usize) -> Vec<u8> {
    let mut x = seed.wrapping_mul(6364136223846793005).wrapping_add(1442695040888963407);
    let mut out = Vec::with_capacity(len);
    for _ in 0..len {
        x = x.wrapping_mul(6364136223846793005).wrapping_add(1442695040888963407);
        out.push((x >> 33) as u8);
    }
    out
}

/// The groups as a set of (size, sorted names).
fn group_names(related: &RelatedFiles) -> BTreeSet<(u64, BTreeSet<String>)> {
    related
        .files
        .iter()
        .map(|g| (g.size, g.files.iter().map(|f| f.name.clone()).collect()))
        .collect()
}

fn names(list: &[&str]) -> BTreeSet<String> {
    list.iter().map(|s| s.to_string()).collect()
}

/// Runs the coordinator over files given with their contents, as a caller
/// does after reading each file.
fn run(files: Vec<(FileInfo, Vec<u8>)>) -> (RelatedFiles, Vec<Progress>, Progress) {
    let mut relating = Relating::new(files.len() as u64);
    let mut reported = Vec::new();
    for (fi, contents) in &files {
        reported.push(relating.record(hash_contents(fi, contents)));
    }
    let (related, last) = relating.finish();
    (related, reported, last)
}

#[test]
fn fingerprint_of_known_inputs() {
    assert_eq!(
        fingerprint(b"abc"),
        "ba7816bf8f01cfea414140de5dae2223b00361a396177a9cb410ff61f20015ad"
    );
    assert_eq!(
        fingerprint(b""),
        "e3b0c44298fc1c149afbf4c8996fb92427ae41e4649b934ca495991b7852b855"
    );
    assert_eq!(fingerprint(&[0u8; 10]).len(), 64);
}

#[test]
fn hash_contents_gives_fingerprint_and_keeps_info() {
    let fi = info("dir/a.txt", 3);
    let h = hash_contents(&fi, b"abc").unwrap();
    assert_eq!(h.hash, "ba7816bf8f01cfea414140de5dae2223b00361a396177a9cb410ff61f20015ad");
    assert!(h.info == fi);
}

#[test]
fn truncated_file_is_a_size_mismatch() {
    let fi = info("dir/t.txt", 100);
    let e = hash_contents(&fi, &pseudo_random_bytes(7, 60)).unwrap_err();
    assert_eq!(e.path, "dir/t.txt");
    assert!(matches!(e.error_type, ErrorType::WrongSize(100, 60)));
}

#[test]
fn file_content_equal_ignores_paths() {
    let data = pseudo_random_bytes(1, 50);
    let a = hash_contents(&info("a", 50), &data).unwrap();
    let b = hash_contents(&info("b", 50), &data).unwrap();
    let c = hash_contents(&info("c", 50), &pseudo_random_bytes(2, 50)).unwrap();
    assert!(file_content_equal(&a, &b));
    assert!(!file_content_equal(&a, &c));
    let d = HashedFile { hash: a.hash.clone(), info: info("d", 51) };
    assert!(!file_content_equal(&a, &d));
}

#[test]
fn two_equal_files_and_one_other() {
    let same = pseudo_random_bytes(11, 100);
    let other = pseudo_random_bytes(12, 100);
    let (related, _, _) = run(vec![
        (info("a.txt", 100), same.clone()),
        (info("b.txt", 100), same),
        (info("c.txt", 100), other),
    ]);
    assert!(related.errors.is_empty());
    let expected: BTreeSet<_> =
        vec![(100, names(&["a.txt", "b.txt"])), (100, names(&["c.txt"]))].into_iter().collect();
    assert_eq!(group_names(&related), expected);
}

#[test]
fn groups_match_a_generated_partition() {
    let group_count = 7u64;
    let mut files = Vec::new();
    let mut expected: Vec<(u64, BTreeSet<String>)> = Vec::new();
    for g in 0..group_count {
        let len = (g as usize * 37 + 5) % 90 + 1;
        expected.push((len as u64, BTreeSet::new()));
        let _ = len;
    }
    for i in 0..40u64 {
        let g = (i * 13 + 3) % group_count;
        let len = expected[g as usize].0;
        let name = format!("d{}/{}.txt", i % 4, i);
        files.push((info(&name, len), pseudo_random_bytes(100 + g, len as usize)));
        expected[g as usize].1.insert(name);
    }
    let expected: BTreeSet<_> = expected.into_iter().filter(|(_, s)| !s.is_empty()).collect();
    let (related, _, _) = run(files);
    assert!(related.errors.is_empty());
    assert_eq!(related.files.len(), expected.len());
    assert_eq!(group_names(&related), expected);
}

#[test]
fn different_sizes_never_share_a_group() {
    let data = pseudo_random_bytes(3, 10);
    let mut longer = data.clone();
    longer.push(0);
    let (related, _, _) = run(vec![
        (info("short", 10), data.clone()),
        (info("long", 11), longer),
        (info("short2", 10), data),
    ]);
    assert_eq!(related.files.len(), 2);
    for g in &related.files {
        for f in &g.files {
            assert_eq!(f.size, g.size);
        }
    }
}

#[test]
fn truncation_is_reported_for_that_file_only() {
    let same = pseudo_random_bytes(21, 100);
    let (related, _, _) = run(vec![
        (info("a.txt", 100), same.clone()),
        (info("b.txt", 100), same.clone()),
        (info("t.txt", 100), same[..40].to_vec()),
    ]);
    assert_eq!(related.errors.len(), 1);
    assert_eq!(related.errors[0].path, "t.txt");
    assert!(matches!(related.errors[0].error_type, ErrorType::WrongSize(100, 40)));
    let expected: BTreeSet<_> = vec![(100, names(&["a.txt", "b.txt"]))].into_iter().collect();
    assert_eq!(group_names(&related), expected);
}

#[test]
fn progress_rises_and_ends_at_one() {
    let files: Vec<_> = (0..5u64)
        .map(|i| (info(&format!("{}.bin", i), 8), pseudo_random_bytes(i % 2, 8)))
        .collect();
    let (_, reported, last) = run(files);
    assert_eq!(reported.len(), 5);
    let mut previous = 0.0f64;
    for p in &reported {
        let v = p.done as f64 / p.total as f64;
        assert!(v > previous);
        previous = v;
    }
    assert_eq!(reported[4], Progress { done: 5, total: 5 });
    assert_eq!(last, Progress { done: 5, total: 5 });
}

#[test]
fn progress_with_errors_still_counts() {
    let (_, reported, last) =
        run(vec![(info("x", 5), vec![1, 2, 3]), (info("y", 2), vec![1, 2])]);
    assert_eq!(reported, vec![Progress { done: 1, total: 2 }, Progress { done: 2, total: 2 }]);
    assert_eq!(last, Progress { done: 2, total: 2 });
}

#[test]
fn empty_inventory() {
    let walk = WalkInfo::new();
    assert_eq!(walk.total_size, 0);
    assert!(walk.files.is_empty());
    assert!(walk.errors.is_empty());
    let relating = Relating::new(walk.files.len() as u64);
    assert_eq!(relating.progress(), Progress { done: 0, total: 1 });
    let (related, last) = relating.finish();
    assert!(related.files.is_empty());
    assert!(related.errors.is_empty());
    assert_eq!(last, Progress { done: 1, total: 1 });
    let conf = RelateConf { max_threads: 12, file_threshold: 100, size_threshold: 4_000_000_000 };
    assert!(conf.chunks(0).is_empty());
    assert_eq!(conf.chunk_size(0), 1);
}

#[test]
fn walk_inventory_counts_each_file_once() {
    let walk = WalkInfo::new();
    let walk = walk.insert_entry(info("a", 10));
    let walk = walk.insert_entry(info("b", 32));
    let walk = walk.insert_entry(info("a", 10));
    assert_eq!(walk.files.len(), 2);
    assert_eq!(walk.total_size, 42);
    assert!(walk.contains(&info("b", 32)));
    assert!(!walk.contains(&info("b", 33)));
    let walk = walk.insert_error(io_error(&"<no path>".to_string(), "denied".to_string()));
    assert_eq!(walk.errors.len(), 1);
    assert_eq!(walk.total_size, 42);
    assert_eq!(walk.errors[0].path, "<no path>");
}

#[test]
fn error_constructors() {
    let p = "some/file".to_string();
    assert!(matches!(io_error(&p, "x".to_string()).error_type, ErrorType::IO(ref s) if s == "x"));
    assert!(matches!(walkdir_error(&p, "y".to_string()).error_type, ErrorType::WalkDir(ref s) if s == "y"));
    assert!(matches!(no_created(&p, "z".to_string()).error_type, ErrorType::NoCreatedTime(ref s) if s == "z"));
    let e = wrong_size(&p, 9, 4);
    assert_eq!(e.path, "some/file");
    assert!(matches!(e.error_type, ErrorType::WrongSize(9, 4)));
}

#[test]
fn chunks_split_indices_among_workers() {
    let conf = RelateConf { max_threads: 3, file_threshold: 100, size_threshold: 1000 };
    assert_eq!(conf.chunk_size(10), 4);
    assert_eq!(conf.chunks(10), vec![vec![0, 1, 2, 3], vec![4, 5, 6, 7], vec![8, 9]]);
    assert_eq!(conf.chunks(3), vec![vec![0], vec![1], vec![2]]);
    assert_eq!(conf.chunks(2), vec![vec![0], vec![1]]);
    let one = RelateConf { max_threads: 0, file_threshold: 0, size_threshold: 0 };
    assert_eq!(one.workers(), 1);
    assert_eq!(one.chunks(4), vec![vec![0, 1, 2, 3]]);
}

#[test]
fn parallel_only_above_a_threshold() {
    let conf = RelateConf { max_threads: 12, file_threshold: 100, size_threshold: 4_000_000_000 };
    assert!(!conf.use_parallel(10_000_000, 1));
    assert!(conf.use_parallel(10_000_000, 101));
    assert!(conf.use_parallel(4_000_000_001, 1));
    assert!(!conf.use_parallel(4_000_000_000, 100));
}
