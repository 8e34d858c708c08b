//! Slab allocator: each shard copies the byte strings it interns into a
//! chain of fixed-capacity slabs, appending a new slab whenever the current
//! one lacks room. A stored string is addressed by a thin descriptor (slab
//! position, offset, length); slabs are never resized, compacted or freed
//! while the chain lives, so a descriptor once handed out stays valid and
//! keeps resolving to the same bytes.

use vstd::prelude::*;

verus! {

/// Capacity a fresh slab is given when the bytes to store do not demand more.
pub const SLAB_CAPACITY: usize = 4096;

/// A thin descriptor for bytes stored in a slab chain: which slab, where in
/// it, and how many bytes.
#[derive(Clone, Copy)]
pub struct ThinBytes {
    pub slab: usize,
    pub offset: usize,
    pub len: usize,
}

/// One fixed-capacity block of bytes, filled front to back and never
/// shrunk.
pub struct Slab {
    data: Vec<u8>,
    capacity: usize,
}

impl Slab {
    /// Well-formed: the fill never exceeds the fixed capacity.
    pub closed spec fn wf(&self) -> bool {
        self.data@.len() <= self.capacity
    }

    /// The bytes stored so far.
    pub closed spec fn contents(&self) -> Seq<u8> {
        self.data@
    }

    /// Obtains an empty slab of the given capacity.
    pub fn allocate(capacity: usize) -> (r: Slab)
        ensures
            r.wf(),
            r.contents() == Seq::<u8>::empty(),
            r.spec_capacity() == capacity,
    {
        let r = Slab { data: Vec::new(), capacity };
        proof {
            assert(r.contents() =~= Seq::<u8>::empty());
        }
        r
    }

    /// The fixed capacity the slab was allocated with.
    pub closed spec fn spec_capacity(&self) -> nat {
        self.capacity as nat
    }

    /// Bump-copies `bytes` into the remaining room, returning the offset the
    /// copy starts at, or nothing when the room left is too small. The bytes
    /// already stored are never moved or changed.
    pub fn try_store(&mut self, bytes: &[u8]) -> (r: Option<usize>)
        requires
            old(self).wf(),
        ensures
            final(self).wf(),
            final(self).spec_capacity() == old(self).spec_capacity(),
            r == if old(self).contents().len() + bytes@.len() <= old(self).spec_capacity() {
                Some(old(self).contents().len() as usize)
            } else {
                None::<usize>
            },
            r is Some ==> final(self).contents() == old(self).contents() + bytes@,
            r is None ==> final(self).contents() == old(self).contents(),
    {
        if self.capacity - self.data.len() < bytes.len() {
            return None;
        }
        let offset = self.data.len();
        let mut i: usize = 0;
        while i < bytes.len()
            invariant
                0 <= i <= bytes@.len(),
                self.data@ == old(self).data@ + bytes@.subrange(0, i as int),
                self.capacity == old(self).capacity,
                old(self).data@.len() + bytes@.len() <= self.capacity,
            decreases bytes@.len() - i,
        {
            self.data.push(bytes[i]);
            proof {
                assert(self.data@ =~= old(self).data@ + bytes@.subrange(0, i + 1));
            }
            i = i + 1;
        }
        proof {
            assert(self.data@ =~= old(self).data@ + bytes@);
        }
        Some(offset)
    }
}

/// A shard's chain of slabs, oldest first. Grow-only: slabs are appended,
/// never removed, and a slab's stored bytes are never overwritten.
pub struct SlabChain {
    slabs: Vec<Slab>,
}

impl SlabChain {
    /// Well-formed: every slab in the chain is.
    pub closed spec fn wf(&self) -> bool {
        forall|i: int| 0 <= i < self.slabs@.len() ==> (#[trigger] self.slabs@[i]).wf()
    }

    /// Whether a descriptor points at bytes actually stored in this chain.
    pub closed spec fn valid(&self, tb: ThinBytes) -> bool {
        &&& tb.slab < self.slabs@.len()
        &&& tb.offset + tb.len <= self.slabs@[tb.slab as int].contents().len()
    }

    /// The bytes a valid descriptor points at.
    pub closed spec fn resolve(&self, tb: ThinBytes) -> Seq<u8> {
        self.slabs@[tb.slab as int].contents().subrange(
            tb.offset as int,
            tb.offset + tb.len,
        )
    }

    /// An empty chain.
    pub fn new() -> (r: Self)
        ensures
            r.wf(),
            forall|tb: ThinBytes| !r.valid(tb),
    {
        SlabChain { slabs: Vec::new() }
    }

    /// Copies `bytes` into the chain, appending a slab large enough for them
    /// when the newest one lacks room, and returns a descriptor for the
    /// copy. Every descriptor that was valid before stays valid and still
    /// resolves to the same bytes.
    pub fn store(&mut self, bytes: &[u8]) -> (tb: ThinBytes)
        requires
            old(self).wf(),
        ensures
            final(self).wf(),
            final(self).valid(tb),
            final(self).resolve(tb) == bytes@,
            tb.len == bytes@.len(),
            forall|t: ThinBytes|
                old(self).valid(t) ==> final(self).valid(t) && final(self).resolve(t) == old(
                    self,
                ).resolve(t),
    {
        let n = self.slabs.len();
        if n > 0 {
            let r = self.slabs[n - 1].try_store(bytes);
            match r {
                Some(offset) => {
                    let tb = ThinBytes { slab: n - 1, offset, len: bytes.len() };
                    proof {
                        let last = n - 1;
                        assert(self.slabs@.len() == old(self).slabs@.len());
                        assert(self.resolve(tb) =~= bytes@);
                        assert forall|t: ThinBytes| old(self).valid(t) implies self.valid(t)
                            && self.resolve(t) == old(self).resolve(t) by {
                            if t.slab == last {
                                assert(self.slabs@[t.slab as int].contents() == old(
                                    self,
                                ).slabs@[t.slab as int].contents() + bytes@);
                                assert(self.resolve(t) =~= old(self).resolve(t));
                            } else {
                                assert(self.slabs@[t.slab as int] == old(self).slabs@[t.slab as int]);
                            }
                        }
                    }
                    return tb;
                },
                None => {},
            }
        }
        let capacity = if bytes.len() > SLAB_CAPACITY {
            bytes.len()
        } else {
            SLAB_CAPACITY
        };
        let mut slab = Slab::allocate(capacity);
        let stored = slab.try_store(bytes);
        assert(stored == Some(0usize));
        let tb = ThinBytes { slab: self.slabs.len(), offset: 0, len: bytes.len() };
        self.slabs.push(slab);
        proof {
            assert(self.slabs@[tb.slab as int].contents() =~= bytes@);
            assert(self.resolve(tb) =~= bytes@);
            assert forall|t: ThinBytes| old(self).valid(t) implies self.valid(t) && self.resolve(
                t,
            ) == old(self).resolve(t) by {
                assert(self.slabs@[t.slab as int].contents() == old(self).slabs@[t.slab as int].contents());
                assert(self.resolve(t) =~= old(self).resolve(t));
            }
        }
        tb
    }

    /// Copies out the bytes a valid descriptor points at.
    pub fn read(&self, tb: ThinBytes) -> (r: Vec<u8>)
        requires
            self.wf(),
            self.valid(tb),
        ensures
            r@ == self.resolve(tb),
    {
        let slab = &self.slabs[tb.slab];
        let mut r: Vec<u8> = Vec::new();
        let mut i: usize = 0;
        while i < tb.len
            invariant
                0 <= i <= tb.len,
                tb.slab < self.slabs@.len(),
                *slab == self.slabs@[tb.slab as int],
                slab.wf(),
                tb.offset + tb.len <= slab.contents().len(),
                r@ == slab.contents().subrange(tb.offset as int, tb.offset + i),
            decreases tb.len - i,
        {
            r.push(slab.read_byte(tb.offset + i));
            proof {
                assert(r@ =~= slab.contents().subrange(tb.offset as int, tb.offset + i + 1));
            }
            i = i + 1;
        }
        r
    }
}

impl Slab {
    /// Reads one stored byte.
    fn read_byte(&self, i: usize) -> (r: u8)
        requires
            i < self.contents().len(),
        ensures
            r == self.contents()[i as int],
    {
        self.data[i]
    }
}

} // verus!
