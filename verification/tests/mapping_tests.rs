use bucket_map::SharedMapping;
use bucket_map::codec::decode_shard;
use bucket_map::permission::ThreadPermission;

#[test]
fn thread_permission_claim_succeeds_exactly_once() {
    let mut p = ThreadPermission::init(5);
    assert_eq!(p.read_owner(), 0);
    assert!(p.claim(7));
    assert_eq!(p.read_owner(), 7);
    assert!(!p.claim(8));
    assert!(!p.claim(7));
    assert_eq!(p.read_owner(), 7);
}

#[test]
fn hello_on_first_shard_yields_symbol_one() {
    let mut m = SharedMapping::new();
    let permit = m.acquire_write_permit(1).expect("a fresh mapping has unclaimed shards");
    let sym = permit.get_or_insert(&mut m, b"hello");
    assert_eq!(sym, 1);
    assert_eq!(m.get_sym(b"hello"), Some(1));
    assert_eq!(m.get_bytes(1), Some(b"hello".to_vec()));
}

#[test]
fn interning_is_idempotent() {
    let mut m = SharedMapping::new();
    let permit = m.acquire_write_permit(1).unwrap();
    let s1 = permit.get_or_insert(&mut m, b"again");
    let s2 = permit.get_or_insert(&mut m, b"again");
    let s3 = permit.get_or_insert(&mut m, b"again");
    assert_eq!(s1, s2);
    assert_eq!(s2, s3);
    assert_eq!(m.get_sym(b"again"), Some(s1));
}

#[test]
fn interning_round_trips_byte_for_byte() {
    let mut m = SharedMapping::new();
    let permit = m.acquire_write_permit(1).unwrap();
    let inputs: &[&[u8]] = &[b"", b"a", b"hello", b"\x00\xff\x00", b"a longer input than eight bytes"];
    for &input in inputs {
        let sym = permit.get_or_insert(&mut m, input);
        assert_eq!(m.get_bytes(sym), Some(input.to_vec()));
    }
}

#[test]
fn distinct_keys_get_distinct_symbols() {
    let mut m = SharedMapping::new();
    let permit = m.acquire_write_permit(1).unwrap();
    let keys: Vec<Vec<u8>> = (0..200u32).map(|i| format!("key-{}", i).into_bytes()).collect();
    let mut symbols = Vec::new();
    for key in &keys {
        symbols.push(permit.get_or_insert(&mut m, key));
    }
    for i in 0..symbols.len() {
        for j in (i + 1)..symbols.len() {
            assert_ne!(symbols[i], symbols[j]);
        }
    }
    for (key, &sym) in keys.iter().zip(symbols.iter()) {
        assert_eq!(m.get_sym(key), Some(sym));
        assert_eq!(m.get_bytes(sym), Some(key.clone()));
    }
}

#[test]
fn non_positive_symbols_resolve_to_nothing() {
    let m = SharedMapping::new();
    assert_eq!(m.get_bytes(0), None);
    assert_eq!(m.get_bytes(-1), None);
    assert_eq!(m.get_bytes(i64::MIN), None);
}

#[test]
fn unknown_positive_symbols_resolve_to_nothing() {
    let m = SharedMapping::new();
    assert_eq!(m.get_bytes(1), None);
    assert_eq!(m.get_bytes(42), None);
    assert_eq!(m.get_sym(b"never interned"), None);
}

#[test]
fn the_129th_thread_is_refused_a_permit() {
    let mut m = SharedMapping::new();
    for thread_id in 1..=128u64 {
        assert!(m.acquire_write_permit(thread_id).is_some(), "thread {} was refused", thread_id);
    }
    assert!(m.acquire_write_permit(129).is_none());
    assert!(m.acquire_write_permit(130).is_none());
}

#[test]
fn a_thread_keeps_its_shard_and_reacquires_it() {
    let mut m = SharedMapping::new();
    let p1 = m.acquire_write_permit(10).unwrap();
    let first = p1.get_or_insert(&mut m, b"first");
    let p1_again = m.acquire_write_permit(10).unwrap();
    let second = p1_again.get_or_insert(&mut m, b"second");
    assert_eq!(decode_shard(first), decode_shard(second));
}

#[test]
fn a_second_thread_mints_from_its_own_shard() {
    let mut m = SharedMapping::new();
    let p1 = m.acquire_write_permit(1).unwrap();
    let p2 = m.acquire_write_permit(2).unwrap();
    let s1 = p1.get_or_insert(&mut m, b"one");
    let s2 = p2.get_or_insert(&mut m, b"two");
    assert_eq!(decode_shard(s1), 0);
    assert_eq!(decode_shard(s2), 1);
    assert_eq!(s2, 1i64 << 56);
    assert_eq!(m.get_bytes(s2), Some(b"two".to_vec()));
}

#[test]
fn a_hit_through_another_permit_returns_the_existing_symbol() {
    let mut m = SharedMapping::new();
    let p1 = m.acquire_write_permit(1).unwrap();
    let p2 = m.acquire_write_permit(2).unwrap();
    let s1 = p1.get_or_insert(&mut m, b"shared key");
    let s2 = p2.get_or_insert(&mut m, b"shared key");
    assert_eq!(s1, s2);
}

#[test]
fn keep_slabs_alive_flips_the_teardown_decision() {
    let mut m = SharedMapping::new();
    assert!(m.should_free_slabs());
    let permit = m.acquire_write_permit(1).unwrap();
    let sym = permit.get_or_insert(&mut m, b"kept");
    m.keep_slabs_alive();
    assert!(!m.should_free_slabs());
    assert_eq!(m.get_bytes(sym), Some(b"kept".to_vec()));
}

#[test]
fn init_flags_are_what_the_caller_passes() {
    let m = SharedMapping::init(0);
    assert!(m.should_free_slabs());
    let mut m2 = SharedMapping::init(0);
    m2.keep_slabs_alive();
    assert!(!m2.should_free_slabs());
}
