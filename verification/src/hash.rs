//! Bucket hash: a small Pearson-style substitution hash over at most the
//! first few bytes of a key, used only to pick which forward bucket a byte
//! string is looked up or inserted in. Shorter keys are padded with zero
//! bytes, so the fold always runs over the same number of steps.

use vstd::prelude::*;
use crate::codec::MAX_WRITER_THREADS;

verus! {

/// How many leading bytes of a key the bucket hash samples.
pub const PEARSON_BOUND: usize = 8;

/// A fixed permutation of the byte values: every entry distinct, so a change
/// in any sampled byte can change the folded result.
pub const PEARSON_TABLE: [u8; 256] = [
    65, 243, 145, 88, 141, 27, 18, 96, 233, 173, 239, 229, 48, 29, 67, 214, 39, 230, 19, 237, 128,
    49, 95, 220, 216, 198, 249, 79, 204, 171, 200, 184, 0, 111, 219, 163, 140, 59, 114, 33, 207,
    41, 210, 70, 104, 137, 14, 118, 71, 80, 209, 35, 234, 13, 232, 149, 99, 159, 153, 165, 241,
    47, 38, 218, 57, 227, 131, 68, 247, 197, 187, 105, 253, 77, 156, 16, 24, 94, 255, 181, 54,
    120, 160, 182, 244, 62, 194, 8, 113, 20, 22, 138, 17, 135, 202, 61, 58, 185, 240, 51, 169,
    179, 196, 154, 167, 55, 3, 235, 4, 238, 12, 142, 150, 157, 108, 133, 226, 109, 172, 34, 86,
    103, 106, 127, 130, 42, 168, 148, 245, 100, 143, 123, 155, 206, 60, 72, 11, 10, 180, 64, 215,
    177, 92, 189, 90, 186, 225, 115, 228, 208, 176, 82, 102, 190, 119, 222, 139, 166, 211, 136,
    89, 231, 74, 69, 56, 162, 53, 2, 87, 164, 76, 125, 205, 195, 73, 5, 107, 6, 30, 203, 213, 188,
    110, 248, 144, 101, 151, 126, 15, 91, 242, 183, 44, 146, 25, 78, 223, 254, 236, 112, 50, 31,
    224, 250, 84, 221, 46, 43, 98, 7, 147, 199, 85, 116, 66, 28, 252, 1, 93, 192, 158, 212, 124,
    81, 175, 63, 201, 36, 217, 251, 83, 26, 52, 37, 97, 152, 134, 45, 21, 178, 174, 193, 161, 129,
    170, 75, 132, 9, 122, 32, 23, 246, 191, 117, 121, 40,
];

/// The byte the hash samples at position `i`: the key's byte where the key
/// is long enough, a zero pad byte otherwise.
pub open spec fn padded_byte(bytes: Seq<u8>, i: int) -> u8 {
    if 0 <= i < bytes.len() {
        bytes[i]
    } else {
        0u8
    }
}

/// The Pearson fold of the first `n` (padded) bytes of a key.
pub open spec fn pearson_fold(bytes: Seq<u8>, n: nat) -> u8
    decreases n,
{
    if n == 0 {
        0u8
    } else {
        PEARSON_TABLE[(pearson_fold(bytes, (n - 1) as nat) ^ padded_byte(bytes, n - 1)) as int]
    }
}

/// The forward bucket a byte string belongs to.
pub open spec fn bucket_of(bytes: Seq<u8>) -> int {
    pearson_fold(bytes, PEARSON_BOUND as nat) as int % 128
}

/// Pearson-style hash of at most the first `SELECTION` bytes of `bytes`,
/// zero-padded when the input is shorter. Deterministic: the result is a
/// function of the sampled bytes alone.
pub fn bounded_pearson_hash<const SELECTION: usize>(bytes: &[u8]) -> (r: u8)
    requires
        SELECTION > 0,
    ensures
        r == pearson_fold(bytes@, SELECTION as nat),
{
    let mut hash: u8 = 0;
    let mut i: usize = 0;
    while i < SELECTION
        invariant
            0 <= i <= SELECTION,
            hash == pearson_fold(bytes@, i as nat),
        decreases SELECTION - i,
    {
        let b: u8 = if i < bytes.len() {
            bytes[i]
        } else {
            0u8
        };
        assert(b == padded_byte(bytes@, i as int));
        hash = PEARSON_TABLE[(hash ^ b) as usize];
        i = i + 1;
    }
    hash
}

/// The forward bucket index for a byte string: the bucket hash reduced
/// modulo the shard count.
pub fn bucket_index(bytes: &[u8]) -> (r: usize)
    ensures
        r == bucket_of(bytes@),
        r < MAX_WRITER_THREADS,
{
    (bounded_pearson_hash::<PEARSON_BOUND>(bytes) as usize) % 128
}

} // verus!
