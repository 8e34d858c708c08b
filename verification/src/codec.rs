//! Symbol codec: packing a shard index and a per-shard counter into a
//! positive 64-bit symbol, and reading the two fields back out.
//!
//! A symbol is a positive `i64`. Its top byte holds the index of the shard
//! that minted it (0 to 127, so the sign bit is never set) and its low 56
//! bits hold a counter value private to that shard. Shard 0 never issues
//! counter value 0, so the value 0 unambiguously means "no symbol".

use vstd::prelude::*;

verus! {

/// A symbol: a positive 64-bit integer identifying one interned byte string.
/// Non-positive values are reserved for other uses and are never symbols.
pub type Symbol = i64;

/// Number of shards; also the most writer threads that can ever claim one.
pub const MAX_WRITER_THREADS: usize = 128;

/// Mask selecting the counter field of a packed symbol.
pub const COUNTER_MASK: u64 = 0x00FF_FFFF_FFFF_FFFF;

/// The shard index packed into a symbol's top byte.
pub open spec fn shard_of(sym: Symbol) -> int {
    (((sym as u64) >> 56) as u8) as int
}

/// The counter value packed into a symbol's low 56 bits.
pub open spec fn counter_of(sym: Symbol) -> int {
    ((sym as u64) & COUNTER_MASK) as int
}

/// The packed form of a shard index and counter, as an unsigned value.
pub open spec fn encode_spec(shard: u64, counter: u64) -> u64 {
    (shard << 56) | counter
}

/// Packs a shard index and a counter into a positive symbol.
/// Shard 0 reserves counter 0, so that pair is excluded.
pub fn encode(shard: u8, counter: u64) -> (r: Symbol)
    requires
        shard < 128,
        counter < (1u64 << 56),
        shard > 0 || counter > 0,
    ensures
        r > 0,
        shard_of(r) == shard as int,
        counter_of(r) == counter,
{
    let packed: u64 = ((shard as u64) << 56) | counter;
    let r: i64 = packed as i64;
    proof {
        assert(r > 0 && (((r as u64) >> 56) as u8) == shard && ((r as u64) & COUNTER_MASK)
            == counter) by (bit_vector)
            requires
                shard < 128,
                counter < (1u64 << 56),
                shard > 0 || counter > 0,
                packed == ((shard as u64) << 56) | counter,
                r == packed as i64,
        ;
    }
    r
}

/// Extracts the shard index from a positive symbol.
pub fn decode_shard(sym: Symbol) -> (r: usize)
    requires
        sym > 0,
    ensures
        r == shard_of(sym),
        r < MAX_WRITER_THREADS,
{
    let r: usize = (((sym as u64) >> 56) as u8) as usize;
    proof {
        assert(((((sym as u64) >> 56) as u8) as usize) < 128 && ((((sym as u64) >> 56) as u8)
            as usize) == shard_of(sym)) by (bit_vector)
            requires
                sym > 0,
        ;
    }
    r
}

/// Extracts the counter value from a positive symbol.
pub fn decode_counter(sym: Symbol) -> (r: u64)
    requires
        sym > 0,
    ensures
        r == counter_of(sym),
{
    (sym as u64) & COUNTER_MASK
}

/// A positive symbol's shard index is always below the shard count.
pub proof fn lemma_shard_of_bounded(sym: Symbol)
    requires
        sym > 0,
    ensures
        0 <= shard_of(sym) < 128,
{
    assert(sym > 0 ==> (((sym as u64) >> 56) as u8) < 128) by (bit_vector);
}

/// The fixed-width byte key under which a symbol is filed in a reverse
/// bucket: its 64 bits, least significant byte first.
pub open spec fn sym_key_spec(sym: Symbol) -> Seq<u8> {
    let u = sym as u64;
    seq![
        (u & 0xff) as u8,
        ((u >> 8) & 0xff) as u8,
        ((u >> 16) & 0xff) as u8,
        ((u >> 24) & 0xff) as u8,
        ((u >> 32) & 0xff) as u8,
        ((u >> 40) & 0xff) as u8,
        ((u >> 48) & 0xff) as u8,
        ((u >> 56) & 0xff) as u8,
    ]
}

/// Builds the fixed-width byte key of a symbol.
pub fn sym_key(sym: Symbol) -> (r: Vec<u8>)
    ensures
        r@ == sym_key_spec(sym),
{
    let u: u64 = sym as u64;
    let mut r: Vec<u8> = Vec::new();
    r.push((u & 0xff) as u8);
    r.push(((u >> 8) & 0xff) as u8);
    r.push(((u >> 16) & 0xff) as u8);
    r.push(((u >> 24) & 0xff) as u8);
    r.push(((u >> 32) & 0xff) as u8);
    r.push(((u >> 40) & 0xff) as u8);
    r.push(((u >> 48) & 0xff) as u8);
    r.push(((u >> 56) & 0xff) as u8);
    proof {
        assert(r@ =~= sym_key_spec(sym));
    }
    r
}

/// Distinct symbols have distinct byte keys.
pub proof fn lemma_sym_key_injective(a: Symbol, b: Symbol)
    requires
        sym_key_spec(a) == sym_key_spec(b),
    ensures
        a == b,
{
    let ua = a as u64;
    let ub = b as u64;
    assert(sym_key_spec(a)[0] == sym_key_spec(b)[0]);
    assert(sym_key_spec(a)[1] == sym_key_spec(b)[1]);
    assert(sym_key_spec(a)[2] == sym_key_spec(b)[2]);
    assert(sym_key_spec(a)[3] == sym_key_spec(b)[3]);
    assert(sym_key_spec(a)[4] == sym_key_spec(b)[4]);
    assert(sym_key_spec(a)[5] == sym_key_spec(b)[5]);
    assert(sym_key_spec(a)[6] == sym_key_spec(b)[6]);
    assert(sym_key_spec(a)[7] == sym_key_spec(b)[7]);
    assert((ua & 0xff) as u8 == (ub & 0xff) as u8 && ((ua >> 8) & 0xff) as u8 == ((ub >> 8)
        & 0xff) as u8 && ((ua >> 16) & 0xff) as u8 == ((ub >> 16) & 0xff) as u8 && ((ua >> 24)
        & 0xff) as u8 == ((ub >> 24) & 0xff) as u8 && ((ua >> 32) & 0xff) as u8 == ((ub >> 32)
        & 0xff) as u8 && ((ua >> 40) & 0xff) as u8 == ((ub >> 40) & 0xff) as u8 && ((ua >> 48)
        & 0xff) as u8 == ((ub >> 48) & 0xff) as u8 && ((ua >> 56) & 0xff) as u8 == ((ub >> 56)
        & 0xff) as u8 && ua == a as u64 && ub == b as u64 ==> a == b) by (bit_vector);
}

} // verus!
