use ovax::checksum::{sample_ranges, sampled_digest_hex, to_lower_hex, ByteRange, SAMPLE_CHUNK};
use ovax::results::{HashOutcome, HashResults};

fn ranges(size: u64) -> Vec<(u64, u64)> {
    sample_ranges(size).iter().map(|r: &ByteRange| (r.start, r.len)).collect()
}

#[test]
fn sample_ranges_by_size() {
    let c = SAMPLE_CHUNK;
    assert_eq!(c, 5 * 1024 * 1024);
    assert_eq!(ranges(0), vec![(0, 0)]);
    assert_eq!(ranges(100), vec![(0, 100)]);
    assert_eq!(ranges(c), vec![(0, c)]);
    assert_eq!(ranges(c + 1), vec![(0, c), (c, 1)]);
    assert_eq!(ranges(2 * c), vec![(0, c), (c, c)]);
    assert_eq!(ranges(2 * c + 1), vec![(0, c), (c + 1, c)]);
    assert_eq!(ranges(20 * c), vec![(0, c), (19 * c, c)]);
}

#[test]
fn sample_plan_is_sound_on_examples() {
    let c = SAMPLE_CHUNK;
    for size in [0, 1, c - 1, c, c + 7, 2 * c, 2 * c + 1, 9 * c + 3] {
        let r = ranges(size);
        let total: u64 = r.iter().map(|x| x.1).sum();
        assert_eq!(total, size.min(2 * c));
        for w in r.windows(2) {
            assert!(w[0].0 + w[0].1 <= w[1].0);
        }
        assert!(r.iter().all(|x| x.0 + x.1 <= size));
    }
}

#[test]
fn lower_hex_two_digits_per_byte() {
    assert_eq!(to_lower_hex(&[0x0a, 0x14, 0x1e]), "0a141e");
    assert_eq!(to_lower_hex(&[0x00, 0xff, 0xab]), "00ffab");
    assert_eq!(to_lower_hex(&[]), "");
}

#[test]
fn sampled_digest_is_sha256_hex() {
    assert_eq!(
        sampled_digest_hex(&vec![b"abc".to_vec()]),
        "ba7816bf8f01cfea414140de5dae2223b00361a396177a9cb410ff61f20015ad"
    );
    assert_eq!(
        sampled_digest_hex(&vec![b"a".to_vec(), b"bc".to_vec()]),
        "ba7816bf8f01cfea414140de5dae2223b00361a396177a9cb410ff61f20015ad"
    );
    assert_eq!(
        sampled_digest_hex(&vec![]),
        "e3b0c44298fc1c149afbf4c8996fb92427ae41e4649b934ca495991b7852b855"
    );
}

fn hashed(path: &str, hash: &str) -> HashOutcome {
    HashOutcome::Hashed { path: path.to_string(), hash: hash.to_string() }
}

fn failed(path: &str, error: &str) -> HashOutcome {
    HashOutcome::Failed { path: path.to_string(), error: error.to_string() }
}

#[test]
fn hash_results_record_every_outcome() {
    let outcomes = vec![
        hashed("a.mp4", "h1"),
        failed("b.mp4", "No such file or directory (os error 2)"),
        hashed("c.mp4", "h2"),
    ];
    let r = HashResults::from_outcomes(&outcomes);
    assert_eq!(r.successes.len(), 2);
    assert_eq!(r.failures.len(), 1);
    assert_eq!(r.successes.get(&"h1".to_string()).map(|s| s.as_str()), Some("a.mp4"));
    assert_eq!(r.successes.get(&"h2".to_string()).map(|s| s.as_str()), Some("c.mp4"));
    assert_eq!(
        r.failures.get(&"b.mp4".to_string()).map(|s| s.as_str()),
        Some("No such file or directory (os error 2)")
    );
    assert_eq!(r.successes.get(&"a.mp4".to_string()), None);
}

#[test]
fn hash_results_last_outcome_for_a_key_wins() {
    let outcomes = vec![hashed("a.mp4", "same"), hashed("copy.mp4", "same"), failed("x", "e1"), failed("x", "e2")];
    let r = HashResults::from_outcomes(&outcomes);
    assert_eq!(r.successes.len(), 1);
    assert_eq!(r.successes.get(&"same".to_string()).map(|s| s.as_str()), Some("copy.mp4"));
    assert_eq!(r.failures.get(&"x".to_string()).map(|s| s.as_str()), Some("e2"));
    let entries = r.successes.entries();
    assert_eq!(entries.len(), 1);
}

#[test]
fn hash_results_start_empty() {
    let mut r = HashResults::new();
    assert_eq!(r.successes.len(), 0);
    assert_eq!(r.failures.len(), 0);
    r.record(failed("p", "e"));
    assert_eq!(r.failures.len(), 1);
    assert_eq!(r.successes.len(), 0);
}

fn read_ranges(contents: &[u8]) -> Vec<Vec<u8>> {
    sample_ranges(contents.len() as u64)
        .iter()
        .map(|r| contents[r.start as usize..(r.start + r.len) as usize].to_vec())
        .collect()
}

#[test]
fn small_files_are_sampled_whole_on_example() {
    let c = SAMPLE_CHUNK as usize;
    let small: Vec<u8> = (0..(c + 1234)).map(|i| (i % 251) as u8).collect();
    assert_eq!(sampled_digest_hex(&read_ranges(&small)), sampled_digest_hex(&vec![small.clone()]));
    let large: Vec<u8> = (0..(2 * c + 77)).map(|i| (i % 253) as u8).collect();
    let mut ends = large[..c].to_vec();
    ends.extend_from_slice(&large[large.len() - c..]);
    assert_eq!(sampled_digest_hex(&read_ranges(&large)), sampled_digest_hex(&vec![ends]));
    assert_ne!(sampled_digest_hex(&read_ranges(&large)), sampled_digest_hex(&vec![large.clone()]));
}

#[test]
fn hash_results_ignore_order_on_example() {
    let a = vec![hashed("a.mp4", "h1"), failed("b.mp4", "e"), hashed("c.mp4", "h2")];
    let b = vec![hashed("c.mp4", "h2"), hashed("a.mp4", "h1"), failed("b.mp4", "e")];
    let (ra, rb) = (HashResults::from_outcomes(&a), HashResults::from_outcomes(&b));
    for key in ["h1", "h2", "a.mp4"] {
        assert_eq!(ra.successes.get(&key.to_string()), rb.successes.get(&key.to_string()));
    }
    assert_eq!(ra.successes.len(), rb.successes.len());
    assert_eq!(ra.failures.get(&"b.mp4".to_string()), rb.failures.get(&"b.mp4".to_string()));
    assert_eq!(ra.failures.len(), rb.failures.len());
}

#[test]
fn repeated_key_with_same_value_keeps_order_irrelevant() {
    let a = vec![failed("x", "e"), hashed("a.mp4", "h1"), failed("x", "e")];
    let b = vec![hashed("a.mp4", "h1"), failed("x", "e"), failed("x", "e")];
    let (ra, rb) = (HashResults::from_outcomes(&a), HashResults::from_outcomes(&b));
    assert_eq!(ra.failures.len(), 1);
    assert_eq!(ra.failures.get(&"x".to_string()), rb.failures.get(&"x".to_string()));
    assert_eq!(ra.successes.get(&"h1".to_string()), rb.successes.get(&"h1".to_string()));
}
