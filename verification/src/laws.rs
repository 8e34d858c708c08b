//! The table-wide laws: what the invariant guarantees of any reachable
//! mapping, stated over the same model maps the operations' contracts use.

use vstd::prelude::*;
use crate::codec::Symbol;
use crate::hash::bucket_of;
use crate::mapping::{SharedMapping, interned};

verus! {

/// Law: interning round-trips. Every byte string the table maps to a symbol
/// is recovered, byte for byte, by resolving that symbol back.
pub proof fn lemma_round_trip(m: &SharedMapping, b: Seq<u8>)
    requires
        m.inv(),
        m.sym_map().dom().contains(b),
    ensures
        m.sym_map()[b] > 0,
        m.bytes_map().dom().contains(m.sym_map()[b]),
        m.bytes_map()[m.sym_map()[b]] == b,
{
    let bkt = bucket_of(b);
    assert(m.fwd(bkt).dom().contains(b));
    assert(m.fwd_entry_ok(bkt, b));
}

/// Law: interning is injective. Distinct byte strings never share a symbol.
pub proof fn lemma_symbols_injective(m: &SharedMapping, b1: Seq<u8>, b2: Seq<u8>)
    requires
        m.inv(),
        m.sym_map().dom().contains(b1),
        m.sym_map().dom().contains(b2),
        b1 != b2,
    ensures
        m.sym_map()[b1] != m.sym_map()[b2],
{
    lemma_round_trip(m, b1);
    lemma_round_trip(m, b2);
}

/// Law: interning is idempotent. Once a byte string has been interned, any
/// later intern call for it returns the same symbol and leaves the whole
/// mapping as it was; afterwards a plain lookup also yields that symbol.
pub proof fn lemma_interning_idempotent(
    m0: SharedMapping,
    m1: SharedMapping,
    m2: SharedMapping,
    b: Seq<u8>,
    s1: Symbol,
    s2: Symbol,
)
    requires
        interned(m0, m1, b, s1),
        interned(m1, m2, b, s2),
    ensures
        s2 == s1,
        m2.sym_map() == m1.sym_map(),
        m2.bytes_map() == m1.bytes_map(),
        m1.sym_map().dom().contains(b),
        m1.sym_map()[b] == s1,
{
}

} // verus!
