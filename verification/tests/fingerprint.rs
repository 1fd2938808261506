use minetrace::scan::fingerprint::{same_observation, FingerprintAccumulator, FingerprintError, Observation};

fn observed(len: u64) -> Observation {
    Observation { len, modified_ms: Some(1_000) }
}

fn fingerprint_in_chunks(bytes: &[u8], chunk: usize, previous: Option<u64>) -> minetrace::scan::model::FileFingerprint {
    let mut acc = FingerprintAccumulator::new(previous);
    for part in bytes.chunks(chunk) {
        acc.absorb(part);
    }
    acc.finish(observed(bytes.len() as u64), observed(bytes.len() as u64), Some(5)).expect("unchanged file")
}

#[test]
fn fingerprints_hash_the_prefix_and_the_whole_file() {
    let bytes: Vec<u8> = (0..200_000u32).map(|i| (i % 251) as u8).collect();
    let f = fingerprint_in_chunks(&bytes, 4_096, None);
    assert_eq!(f.size_bytes, 200_000);
    assert_eq!(f.modified_at_ms, 1_000);
    assert_eq!(f.birthtime_ms, Some(5));
    assert_eq!(&f.full_hash, blake3::hash(&bytes).as_bytes());
    assert_eq!(&f.prefix_hash, blake3::hash(&bytes[..65_536]).as_bytes());
    assert_eq!(f.comparison_prefix_hash, None);
    assert_eq!(fingerprint_in_chunks(&bytes, 7_000, None), f);
}

#[test]
fn append_preserves_the_prefix_hash() {
    let first = b"[10:00:00] [main/INFO]: Loading Minecraft 1.20.1\n".to_vec();
    let mut longer = first.clone();
    longer.extend_from_slice(b"[10:00:01] [main/INFO]: Stopping!\n");
    let a = fingerprint_in_chunks(&first, 5, None);
    let b = fingerprint_in_chunks(&longer, 5, Some(first.len() as u64));
    assert_ne!(a.full_hash, b.full_hash);
    assert_eq!(b.comparison_prefix_len, Some(first.len() as u64));
    assert_eq!(b.comparison_prefix_hash, Some(a.full_hash));
    let c = fingerprint_in_chunks(&first, 5, Some(longer.len() as u64));
    assert_eq!(c.comparison_prefix_len, None);
    assert_eq!(c.comparison_prefix_hash, None);
}

#[test]
fn a_file_that_changed_while_read_is_refused() {
    let mut acc = FingerprintAccumulator::new(None);
    acc.absorb(b"abc");
    assert_eq!(acc.finish(observed(4), observed(4), None), Err(FingerprintError::FileChanged));
    let mut acc = FingerprintAccumulator::new(None);
    acc.absorb(b"abc");
    let later = Observation { len: 3, modified_ms: Some(2_000) };
    assert_eq!(acc.finish(observed(3), later, None), Err(FingerprintError::FileChanged));
    assert!(same_observation(observed(3), observed(3)));
    assert!(!same_observation(observed(3), observed(4)));
}
