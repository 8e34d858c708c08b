//! Thread permission: one of the 128 fixed shard slots. Each slot records
//! which thread (if any) has claimed it, carries the monotonic counter its
//! symbols are minted from, and owns the slab chain its interned bytes are
//! copied into. A claim succeeds exactly once: the first thread to ask wins
//! the slot forever.

use vstd::prelude::*;
use crate::codec::{Symbol, COUNTER_MASK, shard_of, counter_of};
use crate::slab::{SlabChain, ThinBytes};

verus! {

/// One shard slot: claim, counter and backing storage.
pub struct ThreadPermission {
    /// Identity of the claiming thread; 0 while the slot is unclaimed.
    thread_id: u64,
    /// The next symbol this shard will mint: its own index in the top byte,
    /// the counter in the low 56 bits.
    next_symbol: u64,
    /// The slabs holding every byte string this shard has interned.
    slabs: SlabChain,
}

impl ThreadPermission {
    /// The claiming thread's identity, 0 while unclaimed.
    pub closed spec fn owner(&self) -> u64 {
        self.thread_id
    }

    /// The shard index packed into the counter word's top byte.
    pub closed spec fn shard_index(&self) -> int {
        (((self.next_symbol >> 56) as u8)) as int
    }

    /// The counter value the next minted symbol will carry.
    pub closed spec fn counter(&self) -> int {
        (self.next_symbol & COUNTER_MASK) as int
    }

    /// The shard's slab chain.
    pub closed spec fn chain(&self) -> SlabChain {
        self.slabs
    }

    /// Well-formed: the index is a shard index, shard 0 has spent counter
    /// value 0, and the slab chain is sound.
    pub open spec fn wf(&self) -> bool {
        &&& 0 <= self.shard_index() < 128
        &&& (self.shard_index() == 0 ==> self.counter() >= 1)
        &&& self.counter() >= 0
        &&& self.chain().wf()
    }

    /// A fresh, unclaimed slot for the given shard index. Shard 0 starts its
    /// counter at 1, reserving 0 so that no symbol ever has the value 0; the
    /// other shards start at 0 inside their own disjoint namespace.
    pub fn init(index: u8) -> (r: ThreadPermission)
        requires
            index < 128,
        ensures
            r.wf(),
            r.owner() == 0,
            r.shard_index() == index as int,
            r.counter() == if index == 0 {
                1int
            } else {
                0int
            },
            forall|tb: ThinBytes| !r.chain().valid(tb),
    {
        let next_symbol_val: u64 = if index == 0 {
            1
        } else {
            (index as u64) << 56
        };
        let r = ThreadPermission {
            thread_id: 0,
            next_symbol: next_symbol_val,
            slabs: SlabChain::new(),
        };
        proof {
            let ns = next_symbol_val;
            assert((index < 128 && (ns == if index == 0 {
                1u64
            } else {
                (index as u64) << 56
            })) ==> ((((ns >> 56) as u8)) == index && (ns & COUNTER_MASK) == (if index == 0 {
                1u64
            } else {
                0u64
            }))) by (bit_vector);
        }
        r
    }

    /// Claims the slot for a thread: succeeds exactly when the slot was
    /// still unclaimed, and the first successful claim is permanent.
    pub fn claim(&mut self, thread_id: u64) -> (r: bool)
        requires
            thread_id != 0,
        ensures
            r == (old(self).owner() == 0),
            final(self).owner() == if old(self).owner() == 0 {
                thread_id
            } else {
                old(self).owner()
            },
            final(self).shard_index() == old(self).shard_index(),
            final(self).counter() == old(self).counter(),
            final(self).chain() == old(self).chain(),
            old(self).owner() != 0 ==> *final(self) == *old(self),
    {
        if self.thread_id == 0 {
            self.thread_id = thread_id;
            true
        } else {
            false
        }
    }

    /// Reads the claiming thread's identity (0 while unclaimed).
    pub fn read_owner(&self) -> (r: u64)
        ensures
            r == self.owner(),
    {
        self.thread_id
    }

    /// Reads the counter value the next minted symbol will carry.
    pub fn read_counter(&self) -> (r: u64)
        requires
            self.wf(),
        ensures
            r == self.counter(),
    {
        self.next_symbol & COUNTER_MASK
    }

    /// Mints the next symbol of this shard: returns the packed counter word
    /// and advances the counter by one. Symbols minted earlier carry smaller
    /// counter values, so a shard never reuses one.
    pub fn mint(&mut self) -> (r: Symbol)
        requires
            old(self).wf(),
            old(self).counter() < COUNTER_MASK,
        ensures
            final(self).wf(),
            r > 0,
            shard_of(r) == old(self).shard_index(),
            counter_of(r) == old(self).counter(),
            final(self).shard_index() == old(self).shard_index(),
            final(self).counter() == old(self).counter() + 1,
            final(self).owner() == old(self).owner(),
            final(self).chain() == old(self).chain(),
    {
        let sym: i64 = self.next_symbol as i64;
        let ns: u64 = self.next_symbol;
        proof {
            assert(ns < 0xFFFF_FFFF_FFFF_FFFFu64 && (ns as i64) > 0 && ((((ns as i64) as u64)
                >> 56) as u8) == ((ns >> 56) as u8) && (((ns as i64) as u64) & COUNTER_MASK) == (
            ns & COUNTER_MASK) && ((((ns + 1) as u64) >> 56) as u8) == ((ns >> 56) as u8) && (((
            ns + 1) as u64) & COUNTER_MASK) == ((ns & COUNTER_MASK) + 1) as u64) by (bit_vector)
                requires
                    ((ns >> 56) as u8) < 128,
                    (ns & COUNTER_MASK) < COUNTER_MASK,
                    ((ns >> 56) as u8) == 0 ==> (ns & COUNTER_MASK) >= 1,
            ;
            assert((ns & COUNTER_MASK) + 1 <= COUNTER_MASK);
        }
        self.next_symbol = self.next_symbol + 1;
        sym
    }

    /// Copies bytes into the shard's slab chain, returning their descriptor.
    /// Descriptors handed out earlier keep resolving to the same bytes.
    pub fn store_bytes(&mut self, bytes: &[u8]) -> (tb: ThinBytes)
        requires
            old(self).chain().wf(),
        ensures
            final(self).chain().wf(),
            final(self).chain().valid(tb),
            final(self).chain().resolve(tb) == bytes@,
            forall|t: ThinBytes|
                old(self).chain().valid(t) ==> final(self).chain().valid(t)
                    && final(self).chain().resolve(t) == old(self).chain().resolve(t),
            final(self).owner() == old(self).owner(),
            final(self).shard_index() == old(self).shard_index(),
            final(self).counter() == old(self).counter(),
    {
        self.slabs.store(bytes)
    }

    /// Copies out the bytes a valid descriptor of this shard points at.
    pub fn read_bytes(&self, tb: ThinBytes) -> (r: Vec<u8>)
        requires
            self.chain().wf(),
            self.chain().valid(tb),
        ensures
            r@ == self.chain().resolve(tb),
    {
        self.slabs.read(tb)
    }
}

} // verus!
