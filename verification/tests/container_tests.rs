use bucket_map::bytemap::{ByteMap, bytes_eq, copy_bytes};
use bucket_map::slab::{Slab, SlabChain};

#[test]
fn bytes_eq_compares_contents() {
    assert!(bytes_eq(b"", b""));
    assert!(bytes_eq(b"abc", b"abc"));
    assert!(!bytes_eq(b"abc", b"abd"));
    assert!(!bytes_eq(b"abc", b"abcd"));
}

#[test]
fn copy_bytes_copies() {
    assert_eq!(copy_bytes(b"hello"), b"hello".to_vec());
    assert_eq!(copy_bytes(b""), Vec::<u8>::new());
}

#[test]
fn byte_map_get_on_empty_is_none() {
    let m: ByteMap<i64> = ByteMap::new();
    assert_eq!(m.get(b"anything"), None);
}

#[test]
fn byte_map_insert_then_get() {
    let mut m: ByteMap<i64> = ByteMap::new();
    assert_eq!(m.insert(b"one", 1), None);
    assert_eq!(m.insert(b"two", 2), None);
    assert_eq!(m.get(b"one"), Some(1));
    assert_eq!(m.get(b"two"), Some(2));
    assert_eq!(m.get(b"three"), None);
}

#[test]
fn byte_map_insert_overwrites_and_returns_previous() {
    let mut m: ByteMap<i64> = ByteMap::new();
    assert_eq!(m.insert(b"key", 1), None);
    assert_eq!(m.insert(b"key", 2), Some(1));
    assert_eq!(m.get(b"key"), Some(2));
}

#[test]
fn slab_try_store_respects_capacity() {
    let mut slab = Slab::allocate(4);
    assert_eq!(slab.try_store(b"abcde"), None);
    assert_eq!(slab.try_store(b"ab"), Some(0));
    assert_eq!(slab.try_store(b"cd"), Some(2));
    assert_eq!(slab.try_store(b"e"), None);
}

#[test]
fn slab_chain_store_and_read_round_trip() {
    let mut chain = SlabChain::new();
    let a = chain.store(b"hello");
    let b = chain.store(b"world");
    assert_eq!(chain.read(a), b"hello".to_vec());
    assert_eq!(chain.read(b), b"world".to_vec());
}

#[test]
fn slab_chain_handles_oversized_strings() {
    let mut chain = SlabChain::new();
    let big = vec![7u8; 10_000];
    let small = chain.store(b"x");
    let tb = chain.store(&big);
    assert_eq!(chain.read(tb), big);
    assert_eq!(chain.read(small), b"x".to_vec());
}

#[test]
fn slab_chain_descriptors_stay_valid_as_it_grows() {
    let mut chain = SlabChain::new();
    let mut descriptors = Vec::new();
    for i in 0..100u32 {
        let bytes = i.to_le_bytes();
        descriptors.push((chain.store(&bytes), bytes));
    }
    for (tb, bytes) in descriptors {
        assert_eq!(chain.read(tb), bytes.to_vec());
    }
}
