//! The shared mapping: 128 forward buckets (bytes to symbol), 128 reverse
//! buckets (symbol key to thin descriptor), and 128 shard slots. A content
//! hash picks the forward bucket of a byte string; the shard index inside a
//! symbol picks its reverse bucket. The invariant ties the two sides into a
//! bijection: every interned byte string resolves back, byte for byte,
//! through the reverse side, and every filed symbol was minted below its
//! shard's current counter, so it is never minted again.

use vstd::prelude::*;
use crate::bytemap::ByteMap;
use crate::codec::{Symbol, COUNTER_MASK, shard_of, counter_of, sym_key, sym_key_spec, decode_shard};
use crate::hash::{bucket_of, bucket_index};
use crate::permission::ThreadPermission;
use crate::slab::ThinBytes;

verus! {

/// Flag bit: leak slab storage at teardown instead of freeing it.
pub const FLAG_KEEP_SLABS_ALIVE: u64 = 1;

/// Flag bit: the mapping's own storage was allocated on the heap.
pub const FLAG_HEAP_ALLOCATED: u64 = 2;

/// The shared symbol table.
pub struct SharedMapping {
    flags: u64,
    permissions: Vec<ThreadPermission>,
    to_symbol: Vec<ByteMap<Symbol>>,
    to_bytes: Vec<ByteMap<ThinBytes>>,
}

impl SharedMapping {
    /// The flag bitset.
    pub closed spec fn flags_spec(&self) -> u64 {
        self.flags
    }

    /// The shard slot at index `s`.
    pub closed spec fn perm(&self, s: int) -> ThreadPermission {
        self.permissions@[s]
    }

    /// The forward bucket at index `b`, as a map from bytes to symbols.
    pub closed spec fn fwd(&self, b: int) -> Map<Seq<u8>, Symbol> {
        self.to_symbol@[b].m()
    }

    /// The reverse bucket at index `s`, as a map from symbol keys to
    /// descriptors.
    pub closed spec fn rev(&self, s: int) -> Map<Seq<u8>, ThinBytes> {
        self.to_bytes@[s].m()
    }

    /// The thread that has claimed shard `s`; 0 while unclaimed.
    pub open spec fn owner_of(&self, s: int) -> u64 {
        self.perm(s).owner()
    }

    /// The next counter value shard `s` will mint.
    pub open spec fn shard_counter(&self, s: int) -> int {
        self.perm(s).counter()
    }

    /// Whether teardown is to leak slab storage.
    pub open spec fn slabs_kept_alive(&self) -> bool {
        self.flags_spec() & FLAG_KEEP_SLABS_ALIVE != 0
    }

    /// Whether the mapping's storage is marked heap-owned.
    pub open spec fn heap_allocated(&self) -> bool {
        self.flags_spec() & FLAG_HEAP_ALLOCATED != 0
    }

    spec fn fwd_wf(&self, b: int) -> bool {
        self.to_symbol@[b].wf()
    }

    spec fn rev_wf(&self, s: int) -> bool {
        self.to_bytes@[s].wf()
    }

    /// The three arrays have one slot per shard.
    pub closed spec fn sizes_ok(&self) -> bool {
        &&& self.permissions@.len() == 128
        &&& self.to_symbol@.len() == 128
        &&& self.to_bytes@.len() == 128
    }

    /// Every slot is well-formed and sits at its own index.
    pub closed spec fn shards_ok(&self) -> bool {
        &&& forall|s: int|
            0 <= s < 128 ==> (#[trigger] self.perm(s)).wf() && self.perm(s).shard_index() == s
        &&& forall|s: int| 0 <= s < 128 ==> #[trigger] self.fwd_wf(s)
        &&& forall|s: int| 0 <= s < 128 ==> #[trigger] self.rev_wf(s)
    }

    /// What holds of one forward entry `k` in bucket `b`: it lives in the
    /// bucket its hash picks; its symbol is positive, already minted by its
    /// shard, and filed in that shard's reverse bucket under the symbol's
    /// byte key; and the filed descriptor resolves to `k` itself.
    pub open spec fn fwd_entry_ok(&self, b: int, k: Seq<u8>) -> bool {
        let sym = self.fwd(b)[k];
        let s = shard_of(sym);
        &&& bucket_of(k) == b
        &&& sym > 0
        &&& 0 <= s < 128
        &&& counter_of(sym) < self.perm(s).counter()
        &&& self.rev(s).dom().contains(sym_key_spec(sym))
        &&& self.perm(s).chain().valid(self.rev(s)[sym_key_spec(sym)])
        &&& self.perm(s).chain().resolve(self.rev(s)[sym_key_spec(sym)]) == k
    }

    /// Every forward entry is coherent.
    pub open spec fn fwd_ok(&self) -> bool {
        forall|b: int, k: Seq<u8>|
            0 <= b < 128 && #[trigger] self.fwd(b).dom().contains(k) ==> self.fwd_entry_ok(b, k)
    }

    /// Every reverse entry's descriptor points into its shard's slab chain.
    pub open spec fn rev_ok(&self) -> bool {
        forall|s: int, kk: Seq<u8>|
            0 <= s < 128 && #[trigger] self.rev(s).dom().contains(kk) ==> self.perm(
                s,
            ).chain().valid(self.rev(s)[kk])
    }

    /// The mapping's invariant: constructors establish it, every operation
    /// preserves it.
    pub open spec fn inv(&self) -> bool {
        &&& self.sizes_ok()
        &&& self.shards_ok()
        &&& self.fwd_ok()
        &&& self.rev_ok()
    }

    /// The whole forward mapping: all interned byte strings and their
    /// symbols, across the buckets.
    pub open spec fn sym_map(&self) -> Map<Seq<u8>, Symbol> {
        Map::new(
            |k: Seq<u8>| self.fwd(bucket_of(k)).dom().contains(k),
            |k: Seq<u8>| self.fwd(bucket_of(k))[k],
        )
    }

    /// The whole reverse mapping: every filed symbol and the bytes its
    /// descriptor resolves to.
    pub open spec fn bytes_map(&self) -> Map<Symbol, Seq<u8>> {
        Map::new(
            |sym: Symbol| sym > 0 && self.rev(shard_of(sym)).dom().contains(sym_key_spec(sym)),
            |sym: Symbol|
                self.perm(shard_of(sym)).chain().resolve(
                    self.rev(shard_of(sym))[sym_key_spec(sym)],
                ),
        )
    }

    /// Initializes a mapping with the given flag bits: 128 unclaimed shard
    /// slots, all buckets empty, shard 0's counter already past the reserved
    /// value 0.
    pub fn init(init_flags: u64) -> (r: SharedMapping)
        ensures
            r.inv(),
            r.flags_spec() == init_flags,
            r.sym_map() == Map::<Seq<u8>, Symbol>::empty(),
            r.bytes_map() == Map::<Symbol, Seq<u8>>::empty(),
            forall|s: int| 0 <= s < 128 ==> r.owner_of(s) == 0,
            forall|s: int|
                0 <= s < 128 ==> r.shard_counter(s) == if s == 0 {
                    1int
                } else {
                    0int
                },
    {
        let mut permissions: Vec<ThreadPermission> = Vec::new();
        let mut to_symbol: Vec<ByteMap<Symbol>> = Vec::new();
        let mut to_bytes: Vec<ByteMap<ThinBytes>> = Vec::new();
        let mut i: usize = 0;
        while i < 128
            invariant
                0 <= i <= 128,
                permissions@.len() == i,
                to_symbol@.len() == i,
                to_bytes@.len() == i,
                forall|s: int|
                    0 <= s < i ==> {
                        &&& (#[trigger] permissions@[s]).wf()
                        &&& permissions@[s].shard_index() == s
                        &&& permissions@[s].owner() == 0
                        &&& permissions@[s].counter() == if s == 0 {
                            1int
                        } else {
                            0int
                        }
                    },
                forall|s: int|
                    0 <= s < i ==> (#[trigger] to_symbol@[s]).wf() && to_symbol@[s].m()
                        == Map::<Seq<u8>, Symbol>::empty(),
                forall|s: int|
                    0 <= s < i ==> (#[trigger] to_bytes@[s]).wf() && to_bytes@[s].m()
                        == Map::<Seq<u8>, ThinBytes>::empty(),
            decreases 128 - i,
        {
            permissions.push(ThreadPermission::init(i as u8));
            to_symbol.push(ByteMap::new());
            to_bytes.push(ByteMap::new());
            i = i + 1;
        }
        let r = SharedMapping { flags: init_flags, permissions, to_symbol, to_bytes };
        proof {
            assert forall|s: int| 0 <= s < 128 implies #[trigger] r.fwd_wf(s) by {
                assert(r.to_symbol@[s].wf());
            }
            assert forall|s: int| 0 <= s < 128 implies #[trigger] r.rev_wf(s) by {
                assert(r.to_bytes@[s].wf());
            }
            assert(r.sym_map() =~= Map::<Seq<u8>, Symbol>::empty());
            assert forall|sym: Symbol| !(#[trigger] r.bytes_map().dom().contains(sym)) by {
                if sym > 0 {
                    crate::codec::lemma_shard_of_bounded(sym);
                    assert(r.rev(shard_of(sym)) =~= Map::<Seq<u8>, ThinBytes>::empty());
                }
            }
            assert(r.bytes_map() =~= Map::<Symbol, Seq<u8>>::empty());
        }
        r
    }

    /// Framing: an operation that keeps every slot's counter, chain, index
    /// and well-formedness, and both bucket arrays, keeps the invariant and
    /// both model maps, whatever it did to claims or flags.
    proof fn lemma_frame(pre: Self, post: Self)
        requires
            pre.inv(),
            post.to_symbol@ == pre.to_symbol@,
            post.to_bytes@ == pre.to_bytes@,
            post.permissions@.len() == pre.permissions@.len(),
            forall|s: int|
                0 <= s < 128 ==> {
                    &&& (#[trigger] post.perm(s)).counter() == pre.perm(s).counter()
                    &&& post.perm(s).chain() == pre.perm(s).chain()
                    &&& post.perm(s).shard_index() == pre.perm(s).shard_index()
                },
        ensures
            post.inv(),
            post.sym_map() == pre.sym_map(),
            post.bytes_map() == pre.bytes_map(),
            forall|b: int| 0 <= b < 128 ==> post.fwd(b) == pre.fwd(b),
            forall|b: int| 0 <= b < 128 ==> post.rev(b) == pre.rev(b),
            forall|s: int| 0 <= s < 128 ==> post.shard_counter(s) == pre.shard_counter(s),
    {
        assert forall|s: int|
            0 <= s < 128 implies (#[trigger] post.perm(s)).wf() && post.perm(s).shard_index()
            == s by {
            assert(pre.perm(s).wf());
        }
        assert forall|s: int| 0 <= s < 128 implies #[trigger] post.fwd_wf(s) by {
            assert(pre.fwd_wf(s));
        }
        assert forall|s: int| 0 <= s < 128 implies #[trigger] post.rev_wf(s) by {
            assert(pre.rev_wf(s));
        }
        assert forall|b: int, k: Seq<u8>|
            0 <= b < 128 && #[trigger] post.fwd(b).dom().contains(k) implies post.fwd_entry_ok(
            b,
            k,
        ) by {
            assert(pre.fwd(b).dom().contains(k));
            assert(pre.fwd_entry_ok(b, k));
        }
        assert forall|s: int, kk: Seq<u8>|
            0 <= s < 128 && #[trigger] post.rev(s).dom().contains(kk) implies post.perm(
            s,
        ).chain().valid(post.rev(s)[kk]) by {
            assert(pre.rev(s).dom().contains(kk));
        }
        assert(post.sym_map() =~= pre.sym_map());
        assert forall|sym: Symbol|
            #![trigger post.bytes_map().dom().contains(sym)]
            #![trigger pre.bytes_map().dom().contains(sym)]
            true implies post.bytes_map().dom().contains(sym) == pre.bytes_map().dom().contains(
            sym,
        ) && (post.bytes_map().dom().contains(sym) ==> post.bytes_map()[sym]
            == pre.bytes_map()[sym]) by {
            if sym > 0 {
                crate::codec::lemma_shard_of_bounded(sym);
            }
        }
        assert(post.bytes_map() =~= pre.bytes_map());
    }

    /// Allocates a fresh mapping, marked heap-owned, with no symbols in it.
    pub fn new() -> (r: SharedMapping)
        ensures
            r.inv(),
            r.flags_spec() == FLAG_HEAP_ALLOCATED,
            r.sym_map() == Map::<Seq<u8>, Symbol>::empty(),
            r.bytes_map() == Map::<Symbol, Seq<u8>>::empty(),
            forall|s: int| 0 <= s < 128 ==> r.owner_of(s) == 0,
            forall|s: int|
                0 <= s < 128 ==> r.shard_counter(s) == if s == 0 {
                    1int
                } else {
                    0int
                },
    {
        Self::init(FLAG_HEAP_ALLOCATED)
    }

    /// Looks a byte string up in its hash-selected forward bucket and
    /// returns its symbol if it was ever interned. Needs no write permit.
    pub fn get_sym(&self, bytes: &[u8]) -> (r: Option<Symbol>)
        requires
            self.inv(),
        ensures
            r == if self.sym_map().dom().contains(bytes@) {
                Some(self.sym_map()[bytes@])
            } else {
                None::<Symbol>
            },
    {
        let b = bucket_index(bytes);
        proof {
            assert(self.fwd_wf(b as int));
        }
        let r = self.to_symbol[b].get(bytes);
        proof {
            if self.fwd(b as int).dom().contains(bytes@) {
                assert(self.fwd_entry_ok(b as int, bytes@));
            }
        }
        r
    }

    /// Resolves a symbol back to a copy of its interned bytes. Non-positive
    /// values are never symbols and resolve to nothing; a positive value
    /// resolves exactly when some shard has filed it.
    pub fn get_bytes(&self, sym: Symbol) -> (r: Option<Vec<u8>>)
        requires
            self.inv(),
        ensures
            match r {
                Some(v) => self.bytes_map().dom().contains(sym) && v@ == self.bytes_map()[sym],
                None => !self.bytes_map().dom().contains(sym),
            },
            sym <= 0 ==> r is None,
    {
        if sym <= 0 {
            return None;
        }
        let s = decode_shard(sym);
        let key = sym_key(sym);
        proof {
            assert(self.rev_wf(s as int));
            assert(self.perm(s as int).wf());
        }
        match self.to_bytes[s].get(key.as_slice()) {
            Some(tb) => {
                proof {
                    assert(self.rev(s as int).dom().contains(key@));
                }
                let v = self.permissions[s].read_bytes(tb);
                Some(v)
            },
            None => None,
        }
    }

    /// Marks the mapping so that teardown leaks slab storage, keeping byte
    /// views handed out earlier valid forever. Sets its flag bit by OR, so
    /// flags set before (such as the heap-owned mark) are kept.
    pub fn keep_slabs_alive(&mut self)
        requires
            old(self).inv(),
        ensures
            final(self).inv(),
            final(self).flags_spec() == old(self).flags_spec() | FLAG_KEEP_SLABS_ALIVE,
            final(self).slabs_kept_alive(),
            final(self).heap_allocated() == old(self).heap_allocated(),
            forall|s: int|
                0 <= s < 128 ==> final(self).perm(s) == old(self).perm(s) && final(self).fwd(s)
                    == old(self).fwd(s) && final(self).rev(s) == old(self).rev(s),
            final(self).sym_map() == old(self).sym_map(),
            final(self).bytes_map() == old(self).bytes_map(),
    {
        let f = self.flags;
        self.flags = f | FLAG_KEEP_SLABS_ALIVE;
        proof {
            assert((f | 1u64) & 1u64 != 0 && (f | 1u64) & 2u64 == f & 2u64) by (bit_vector);
            Self::lemma_frame(*old(self), *self);
        }
    }

    /// The decision teardown takes: free every shard's slab chain unless the
    /// keep-slabs-alive mark was set.
    pub fn should_free_slabs(&self) -> (r: bool)
        ensures
            r == !self.slabs_kept_alive(),
    {
        self.flags & FLAG_KEEP_SLABS_ALIVE == 0
    }

    /// Whether a permit's shard still has counter room to mint one more
    /// symbol. A shard can mint at most `COUNTER_MASK` symbols in a
    /// mapping's lifetime.
    pub fn can_mint(&self, permit: &WritePermit) -> (r: bool)
        requires
            self.inv(),
            0 <= permit.shard_index() < 128,
        ensures
            r == (self.shard_counter(permit.shard_index()) < COUNTER_MASK),
    {
        proof {
            assert(self.perm(permit.shard_index()).wf());
        }
        let c = self.permissions[permit.shard].read_counter();
        c < COUNTER_MASK
    }

    /// Grants the calling thread (identified by a nonzero id) minting rights
    /// over one shard: the shard it already owns if it has one, else the
    /// first unclaimed shard, permanently claimed. Fails exactly when all
    /// 128 shards are claimed by other threads; that never resolves itself,
    /// since claims are permanent.
    pub fn acquire_write_permit(&mut self, thread_id: u64) -> (r: Option<WritePermit>)
        requires
            old(self).inv(),
            thread_id != 0,
        ensures
            final(self).inv(),
            final(self).flags_spec() == old(self).flags_spec(),
            forall|b: int|
                0 <= b < 128 ==> final(self).fwd(b) == old(self).fwd(b) && final(self).rev(b)
                    == old(self).rev(b),
            forall|s: int|
                0 <= s < 128 ==> final(self).shard_counter(s) == old(self).shard_counter(s)
                    && final(self).perm(s).chain() == old(self).perm(s).chain(),
            final(self).sym_map() == old(self).sym_map(),
            final(self).bytes_map() == old(self).bytes_map(),
            match r {
                Some(p) => {
                    &&& 0 <= p.shard_index() < 128
                    &&& p.holder() == thread_id
                    &&& final(self).owner_of(p.shard_index()) == thread_id
                    &&& (old(self).owner_of(p.shard_index()) == 0 || old(self).owner_of(
                        p.shard_index(),
                    ) == thread_id)
                    &&& forall|s: int|
                        0 <= s < 128 && s != p.shard_index() ==> final(self).owner_of(s) == old(
                            self,
                        ).owner_of(s)
                    &&& (old(self).owner_of(p.shard_index()) == thread_id ==> forall|s: int|
                        0 <= s < p.shard_index() ==> old(self).owner_of(s) != thread_id)
                    &&& (old(self).owner_of(p.shard_index()) == 0 ==> (forall|s: int|
                        0 <= s < 128 ==> old(self).owner_of(s) != thread_id) && (forall|s: int|
                        0 <= s < p.shard_index() ==> old(self).owner_of(s) != 0))
                },
                None => {
                    &&& forall|s: int|
                        0 <= s < 128 ==> old(self).owner_of(s) != 0 && old(self).owner_of(s)
                            != thread_id
                    &&& forall|s: int|
                        0 <= s < 128 ==> final(self).owner_of(s) == old(self).owner_of(s)
                },
            },
    {
        let mut s: usize = 0;
        while s < 128
            invariant
                0 <= s <= 128,
                self == old(self),
                old(self).inv(),
                thread_id != 0,
                forall|j: int| 0 <= j < s ==> old(self).owner_of(j) != thread_id,
            decreases 128 - s,
        {
            if self.permissions[s].read_owner() == thread_id {
                return Some(WritePermit { shard: s, thread_id });
            }
            s = s + 1;
        }
        let mut c: usize = 0;
        while c < 128
            invariant
                0 <= c <= 128,
                old(self).inv(),
                thread_id != 0,
                self.flags_spec() == old(self).flags_spec(),
                self.to_symbol@ == old(self).to_symbol@,
                self.to_bytes@ == old(self).to_bytes@,
                self.permissions@.len() == old(self).permissions@.len(),
                forall|j: int| 0 <= j < 128 ==> self.perm(j) == old(self).perm(j),
                forall|j: int| 0 <= j < 128 ==> old(self).owner_of(j) != thread_id,
                forall|j: int| 0 <= j < c ==> old(self).owner_of(j) != 0,
            decreases 128 - c,
        {
            let claimed = self.permissions[c].claim(thread_id);
            if claimed {
                proof {
                    assert forall|j: int|
                        0 <= j < 128 implies {
                        &&& (#[trigger] self.perm(j)).counter() == old(self).perm(j).counter()
                        &&& self.perm(j).chain() == old(self).perm(j).chain()
                        &&& self.perm(j).shard_index() == old(self).perm(j).shard_index()
                    } by {
                        if j != c {
                            assert(self.perm(j) == old(self).perm(j));
                        }
                    }
                    Self::lemma_frame(*old(self), *self);
                    assert forall|j: int|
                        0 <= j < 128 && j != c implies self.owner_of(j) == old(self).owner_of(
                        j,
                    ) by {
                        assert(self.perm(j) == old(self).perm(j));
                    }
                }
                return Some(WritePermit { shard: c, thread_id });
            }
            proof {
                assert forall|j: int| 0 <= j < 128 implies self.perm(j) == old(self).perm(j) by {}
            }
            c = c + 1;
        }
        proof {
            Self::lemma_frame(*old(self), *self);
        }
        None
    }
}

/// A per-thread capability granting exclusive minting rights over one shard.
pub struct WritePermit {
    shard: usize,
    thread_id: u64,
}

/// What one intern call does to the table: on a hit it returns the key's
/// existing symbol and changes nothing; on a miss it returns a fresh
/// positive symbol and extends both directions of the mapping by exactly
/// that binding.
pub open spec fn interned(pre: SharedMapping, post: SharedMapping, b: Seq<u8>, r: Symbol) -> bool {
    if pre.sym_map().dom().contains(b) {
        &&& r == pre.sym_map()[b]
        &&& post.sym_map() == pre.sym_map()
        &&& post.bytes_map() == pre.bytes_map()
    } else {
        &&& r > 0
        &&& post.sym_map() == pre.sym_map().insert(b, r)
        &&& post.bytes_map() == pre.bytes_map().insert(r, b)
    }
}

impl WritePermit {
    /// The shard this permit mints from.
    pub closed spec fn shard_index(&self) -> int {
        self.shard as int
    }

    /// The thread identity the permit was granted to.
    pub closed spec fn holder(&self) -> u64 {
        self.thread_id
    }

    /// Returns the symbol of `bytes`, interning them first if they have
    /// none: a forward-bucket hit returns the existing symbol and touches
    /// nothing; a miss mints a fresh symbol from this permit's shard, copies
    /// the bytes into the shard's slab chain, and files the pair in the
    /// hash-selected forward bucket and the shard's own reverse bucket.
    pub fn get_or_insert(&self, m: &mut SharedMapping, bytes: &[u8]) -> (r: Symbol)
        requires
            old(m).inv(),
            0 <= self.shard_index() < 128,
            old(m).owner_of(self.shard_index()) == self.holder(),
            self.holder() != 0,
            old(m).shard_counter(self.shard_index()) < COUNTER_MASK,
        ensures
            final(m).inv(),
            interned(*old(m), *final(m), bytes@, r),
            r > 0,
            final(m).sym_map().dom().contains(bytes@),
            final(m).sym_map()[bytes@] == r,
            final(m).bytes_map().dom().contains(r),
            final(m).bytes_map()[r] == bytes@,
            final(m).flags_spec() == old(m).flags_spec(),
            forall|s: int| 0 <= s < 128 ==> final(m).owner_of(s) == old(m).owner_of(s),
            !old(m).sym_map().dom().contains(bytes@) ==> shard_of(r) == self.shard_index()
                && counter_of(r) == old(m).shard_counter(self.shard_index())
                && final(m).shard_counter(self.shard_index()) == old(m).shard_counter(
                self.shard_index(),
            ) + 1,
            old(m).sym_map().dom().contains(bytes@) ==> forall|s: int|
                0 <= s < 128 ==> final(m).shard_counter(s) == old(m).shard_counter(s),
    {
        let h = bucket_index(bytes);
        proof {
            assert(m.fwd_wf(h as int));
        }
        let hit = m.to_symbol[h].get(bytes);
        match hit {
            Some(sym) => {
                proof {
                    assert(m.fwd(h as int).dom().contains(bytes@));
                    assert(m.fwd_entry_ok(h as int, bytes@));
                    assert(m.sym_map().dom().contains(bytes@));
                    assert(m.sym_map()[bytes@] == sym);
                    let s1 = shard_of(sym);
                    assert(m.bytes_map().dom().contains(sym));
                    assert(m.bytes_map()[sym] == bytes@);
                }
                return sym;
            },
            None => {},
        }
        proof {
            assert(!old(m).sym_map().dom().contains(bytes@));
        }
        let s = self.shard;
        proof {
            assert(m.perm(s as int).wf() && m.perm(s as int).shard_index() == s as int);
        }
        let sym = m.permissions[s].mint();
        let tb = m.permissions[s].store_bytes(bytes);
        let key = sym_key(sym);
        proof {
            assert(old(m).fwd_wf(h as int));
            assert(old(m).rev_wf(s as int));
            assert(m.fwd_wf(h as int));
            assert(m.rev_wf(s as int));
        }
        let _prev_fwd = m.to_symbol[h].insert(bytes, sym);
        let _prev_rev = m.to_bytes[s].insert(key.as_slice(), tb);
        proof {
            let pre = *old(m);
            let s0 = self.shard_index();
            let h0 = h as int;
            let c0 = pre.perm(s0).counter();
            assert(pre.perm(s0).wf() && pre.perm(s0).shard_index() == s0);
            assert(shard_of(sym) == s0);
            assert(counter_of(sym) == c0);
            assert forall|j: int| 0 <= j < 128 && j != s0 implies m.perm(j) == pre.perm(j) by {}
            assert(m.perm(s0).counter() == c0 + 1);
            assert(m.perm(s0).chain().wf());
            assert(m.perm(s0).chain().valid(tb));
            assert(m.perm(s0).chain().resolve(tb) == bytes@);
            assert(forall|t: ThinBytes|
                pre.perm(s0).chain().valid(t) ==> m.perm(s0).chain().valid(t) && m.perm(
                    s0,
                ).chain().resolve(t) == pre.perm(s0).chain().resolve(t));
            assert(m.fwd(h0) == pre.fwd(h0).insert(bytes@, sym));
            assert forall|b: int| 0 <= b < 128 && b != h0 implies m.fwd(b) == pre.fwd(b) by {}
            assert(m.rev(s0) == pre.rev(s0).insert(sym_key_spec(sym), tb));
            assert forall|b: int| 0 <= b < 128 && b != s0 implies m.rev(b) == pre.rev(b) by {}
            // the slot array is still well-formed
            assert forall|j: int|
                0 <= j < 128 implies (#[trigger] m.perm(j)).wf() && m.perm(j).shard_index()
                == j by {
                assert(pre.perm(j).wf() && pre.perm(j).shard_index() == j);
            }
            assert forall|b: int| 0 <= b < 128 implies #[trigger] m.fwd_wf(b) by {
                assert(pre.fwd_wf(b));
            }
            assert forall|b: int| 0 <= b < 128 implies #[trigger] m.rev_wf(b) by {
                assert(pre.rev_wf(b));
            }
            // every forward entry is still coherent
            assert forall|b: int, k: Seq<u8>|
                0 <= b < 128 && #[trigger] m.fwd(b).dom().contains(k) implies m.fwd_entry_ok(
                b,
                k,
            ) by {
                if b == h0 && k == bytes@ {
                    assert(m.fwd(b)[k] == sym);
                    assert(m.rev(s0).dom().contains(sym_key_spec(sym)));
                    assert(m.rev(s0)[sym_key_spec(sym)] == tb);
                } else {
                    assert(pre.fwd(b).dom().contains(k));
                    assert(pre.fwd_entry_ok(b, k));
                    let v = pre.fwd(b)[k];
                    assert(m.fwd(b)[k] == v);
                    let sv = shard_of(v);
                    if sv == s0 {
                        assert(counter_of(v) < c0);
                        if sym_key_spec(v) == sym_key_spec(sym) {
                            crate::codec::lemma_sym_key_injective(v, sym);
                            assert(false);
                        }
                        assert(m.rev(s0).dom().contains(sym_key_spec(v)));
                        assert(m.rev(s0)[sym_key_spec(v)] == pre.rev(s0)[sym_key_spec(v)]);
                        assert(pre.perm(s0).chain().valid(pre.rev(s0)[sym_key_spec(v)]));
                    } else {
                        assert(m.rev(sv) == pre.rev(sv));
                        assert(m.perm(sv) == pre.perm(sv));
                    }
                }
            }
            // every reverse descriptor still points into its chain
            assert forall|s2: int, kk: Seq<u8>|
                0 <= s2 < 128 && #[trigger] m.rev(s2).dom().contains(kk) implies m.perm(
                s2,
            ).chain().valid(m.rev(s2)[kk]) by {
                if s2 == s0 {
                    if kk != sym_key_spec(sym) {
                        assert(pre.rev(s0).dom().contains(kk));
                        assert(pre.perm(s0).chain().valid(pre.rev(s0)[kk]));
                        assert(m.rev(s0)[kk] == pre.rev(s0)[kk]);
                    }
                } else {
                    assert(m.rev(s2) == pre.rev(s2));
                    assert(m.perm(s2) == pre.perm(s2));
                }
            }
            // the global forward map grew by exactly this binding
            assert forall|k: Seq<u8>|
                #![trigger m.sym_map().dom().contains(k)]
                #![trigger pre.sym_map().insert(bytes@, sym).dom().contains(k)]
                true implies m.sym_map().dom().contains(k) == pre.sym_map().insert(
                bytes@,
                sym,
            ).dom().contains(k) && (m.sym_map().dom().contains(k) ==> m.sym_map()[k]
                == pre.sym_map().insert(bytes@, sym)[k]) by {
                let b = bucket_of(k);
                if k != bytes@ && b == h0 {
                    assert(m.fwd(b).dom().contains(k) == pre.fwd(b).dom().contains(k));
                }
            }
            assert(m.sym_map() =~= pre.sym_map().insert(bytes@, sym));
            // the global reverse map grew by exactly this binding
            assert forall|t: Symbol|
                #![trigger m.bytes_map().dom().contains(t)]
                #![trigger pre.bytes_map().insert(sym, bytes@).dom().contains(t)]
                true implies m.bytes_map().dom().contains(t) == pre.bytes_map().insert(
                sym,
                bytes@,
            ).dom().contains(t) && (m.bytes_map().dom().contains(t) ==> m.bytes_map()[t]
                == pre.bytes_map().insert(sym, bytes@)[t]) by {
                if t != sym && t > 0 {
                    crate::codec::lemma_shard_of_bounded(t);
                    let st = shard_of(t);
                    if st == s0 {
                        if sym_key_spec(t) == sym_key_spec(sym) {
                            crate::codec::lemma_sym_key_injective(t, sym);
                            assert(false);
                        }
                        if pre.rev(s0).dom().contains(sym_key_spec(t)) {
                            assert(pre.perm(s0).chain().valid(pre.rev(s0)[sym_key_spec(t)]));
                            assert(m.rev(s0)[sym_key_spec(t)] == pre.rev(s0)[sym_key_spec(t)]);
                        }
                        assert(m.rev(s0).dom().contains(sym_key_spec(t)) == pre.rev(
                            s0,
                        ).dom().contains(sym_key_spec(t)));
                    } else {
                        assert(m.rev(st) == pre.rev(st));
                        assert(m.perm(st) == pre.perm(st));
                    }
                }
            }
            assert(m.bytes_map() =~= pre.bytes_map().insert(sym, bytes@));
            // the permit's shard keeps its owner, as does every other slot
            assert forall|j: int| 0 <= j < 128 implies m.owner_of(j) == pre.owner_of(j) by {
                if j != s0 {
                    assert(m.perm(j) == pre.perm(j));
                }
            }
        }
        sym
    }
}

} // verus!
