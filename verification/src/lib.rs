//! A sharded bidirectional symbol table: interns arbitrary byte strings into
//! compact positive integer symbols and resolves symbols back to their bytes.
//!
//! The table is split into 128 shards. A content hash over the first few
//! bytes of a key picks the bucket consulted for forward (bytes to symbol)
//! lookups; the shard index packed into a symbol's top byte picks the bucket
//! for reverse (symbol to bytes) lookups. Each shard is permanently claimed
//! by the first writer thread that asks for it, carries its own monotonic
//! counter for minting fresh symbols, and copies interned bytes into its own
//! chain of fixed-capacity slabs.

pub mod codec;
pub mod hash;
pub mod bytemap;
pub mod slab;
pub mod permission;
pub mod mapping;
pub mod laws;

pub use codec::Symbol;
pub use mapping::SharedMapping;
pub use mapping::WritePermit;
