use bucket_map::codec::{encode, decode_shard, decode_counter, sym_key};

#[test]
fn encode_shard_zero_first_counter_is_one() {
    assert_eq!(encode(0, 1), 1i64);
}

#[test]
fn encode_places_shard_in_top_byte() {
    assert_eq!(encode(1, 0), 1i64 << 56);
    assert_eq!(encode(127, 0), 127i64 << 56);
    assert_eq!(encode(3, 42), (3i64 << 56) | 42);
}

#[test]
fn encode_decode_round_trip() {
    let cases: &[(u8, u64)] = &[(0, 1), (0, 99), (1, 0), (5, 12345), (127, (1u64 << 56) - 1)];
    for &(shard, counter) in cases {
        let sym = encode(shard, counter);
        assert!(sym > 0);
        assert_eq!(decode_shard(sym), shard as usize);
        assert_eq!(decode_counter(sym), counter);
    }
}

#[test]
fn sym_key_is_eight_bytes_little_end_first() {
    let key = sym_key(1);
    assert_eq!(key, vec![1, 0, 0, 0, 0, 0, 0, 0]);
    let key2 = sym_key((7i64 << 56) | 0x0102);
    assert_eq!(key2, vec![0x02, 0x01, 0, 0, 0, 0, 0, 7]);
}

#[test]
fn sym_keys_of_distinct_symbols_differ() {
    let a = sym_key(encode(0, 1));
    let b = sym_key(encode(0, 2));
    let c = sym_key(encode(1, 1));
    assert_ne!(a, b);
    assert_ne!(a, c);
    assert_ne!(b, c);
}
