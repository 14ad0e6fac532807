use mymediatrail::fingerprint::{
    fingerprint_from_digest, fingerprint_of_content, plan_fingerprint, FingerprintError, FingerprintPlan,
    CHUNK_SIZE_BYTES, THRESHOLD_BYTES,
};

#[test]
fn empty_file_cannot_be_fingerprinted() {
    assert_eq!(plan_fingerprint(0), Err(FingerprintError::EmptyFile));
    assert_eq!(FingerprintError::EmptyFile.message(), "0-byte file");
    assert!(fingerprint_of_content(0, b"").is_err());
}

#[test]
fn small_files_are_hashed_whole() {
    assert_eq!(plan_fingerprint(1), Ok(FingerprintPlan::Full));
    assert_eq!(plan_fingerprint(THRESHOLD_BYTES - 1), Ok(FingerprintPlan::Full));
}

#[test]
fn large_files_are_sampled() {
    let size = 90 * 1024 * 1024u64;
    match plan_fingerprint(size).unwrap() {
        FingerprintPlan::Sampled(offs) => {
            assert_eq!(offs, vec![0, size / 3 - CHUNK_SIZE_BYTES / 2, size * 2 / 3 - CHUNK_SIZE_BYTES / 2, size - CHUNK_SIZE_BYTES]);
            for o in offs {
                assert!(o + CHUNK_SIZE_BYTES <= size);
            }
        }
        p => panic!("unexpected plan {:?}", p),
    }
}

#[test]
fn threshold_file_is_sampled_within_bounds() {
    match plan_fingerprint(THRESHOLD_BYTES).unwrap() {
        FingerprintPlan::Sampled(offs) => {
            assert_eq!(offs[0], 0);
            assert_eq!(offs[3] + CHUNK_SIZE_BYTES, THRESHOLD_BYTES);
            assert!(offs.windows(2).all(|w| w[0] <= w[1]));
        }
        p => panic!("unexpected plan {:?}", p),
    }
}

#[test]
fn full_fingerprint_of_known_content() {
    let r = fingerprint_of_content(3, b"abc").unwrap();
    assert_eq!(r.hash, "6437b3ac38465133ffb63b75273a8db548c558465d79db03fd359c6cd5bd9d85");
    assert_eq!(r.algo, "blake3");
    assert_eq!(r.mode, "full_v1");
    assert_eq!(r.sample_chunk_bytes, 0);
    assert_eq!(r.sample_count, 0);
}

#[test]
fn sampled_fingerprint_records_sampling() {
    let r = fingerprint_of_content(THRESHOLD_BYTES, b"").unwrap();
    assert_eq!(r.hash, "af1349b9f5f9a1a6a0404dea36dcc9499bcb25c9adc112b7cc9a93cae41f3262");
    assert_eq!(r.mode, "sampled_v1");
    assert_eq!(r.sample_chunk_bytes, 262144);
    assert_eq!(r.sample_count, 4);
}

#[test]
fn same_content_same_fingerprint() {
    let a = fingerprint_of_content(5, b"hello").unwrap();
    let b = fingerprint_of_content(5, b"hello").unwrap();
    let c = fingerprint_of_content(5, b"hellp").unwrap();
    assert_eq!(a.hash, b.hash);
    assert_ne!(a.hash, c.hash);
}

#[test]
fn digest_is_rendered_in_lower_hex() {
    let r = fingerprint_from_digest(10, &[0xab, 0x01]);
    assert_eq!(r.hash, "ab01");
}
