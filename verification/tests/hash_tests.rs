use bucket_map::hash::{bounded_pearson_hash, bucket_index, PEARSON_TABLE, PEARSON_BOUND};

#[test]
fn pearson_table_entries_are_all_distinct() {
    let mut seen = [false; 256];
    for &v in PEARSON_TABLE.iter() {
        assert!(!seen[v as usize], "table value {} repeats", v);
        seen[v as usize] = true;
    }
}

#[test]
fn hash_is_deterministic() {
    let inputs: &[&[u8]] = &[b"", b"a", b"hello", b"a longer input than eight bytes"];
    for &input in inputs {
        assert_eq!(
            bounded_pearson_hash::<PEARSON_BOUND>(input),
            bounded_pearson_hash::<PEARSON_BOUND>(input)
        );
    }
}

#[test]
fn short_keys_are_zero_padded() {
    assert_eq!(
        bounded_pearson_hash::<8>(b"ab"),
        bounded_pearson_hash::<8>(b"ab\0\0\0\0\0\0")
    );
}

#[test]
fn only_the_first_eight_bytes_are_sampled() {
    assert_eq!(
        bounded_pearson_hash::<8>(b"12345678"),
        bounded_pearson_hash::<8>(b"12345678_trailing_bytes_ignored")
    );
}

#[test]
fn hash_matches_a_hand_run_of_the_fold() {
    let input = b"hello";
    let mut padded = [0u8; 8];
    padded[..input.len()].copy_from_slice(input);
    let mut expected: u8 = 0;
    for &b in padded.iter() {
        expected = PEARSON_TABLE[(expected ^ b) as usize];
    }
    assert_eq!(bounded_pearson_hash::<8>(input), expected);
}

#[test]
fn bucket_index_is_below_shard_count() {
    let inputs: &[&[u8]] = &[b"", b"a", b"b", b"hello", b"world", b"0123456789"];
    for &input in inputs {
        assert!(bucket_index(input) < 128);
    }
}
