//! The offline-trained lookup table of the matrix-trained chunker:
//! pure data, baked in as a constant so that boundaries are
//! deterministic and reproducible across runs. The table is kept in a
//! module of its own, behind an opaque accessor, so the large literal
//! enters only the one proof that reads it.

use vstd::prelude::*;

verus! {

/// Entry of the trained table for byte value `b`, sample index `k`.
#[verifier::opaque]
pub open spec fn ef_entry(b: int, k: int) -> u8
    recommends
        0 <= b < 256,
        0 <= k < 5,
{
    EF_MATRIX[b][k]
}

/// Table lookup, pinned to `ef_entry`.
#[verifier::rlimit(100)]
pub fn ef_lookup(b: u8, k: usize) -> (r: u8)
    requires
        k < 5,
    ensures
        r == ef_entry(b as int, k as int),
{
    proof {
        reveal(ef_entry);
    }
    EF_MATRIX[b as usize][k]
}

/// The offline-trained lookup table: for each byte value, five
/// two-bit codewords packed from two random-projection sign votes.
/// Pure data baked in as a constant so boundaries are reproducible.
pub const EF_MATRIX: [[u8; 5]; 256] = [
    [0, 0, 2, 0, 2],
    [1, 3, 3, 1, 3],
    [2, 0, 0, 3, 2],
    [3, 3, 3, 1, 2],
    [3, 3, 0, 1, 2],
    [1, 3, 3, 2, 1],
    [1, 3, 3, 1, 1],
    [0, 3, 3, 3, 0],
    [1, 3, 0, 2, 0],
    [2, 1, 3, 1, 1],
    [1, 0, 0, 1, 0],
    [0, 1, 1, 2, 3],
    [2, 3, 3, 0, 2],
    [1, 1, 3, 3, 1],
    [0, 0, 3, 2, 0],
    [3, 3, 1, 2, 2],
    [2, 0, 3, 3, 0],
    [2, 0, 1, 2, 1],
    [3, 3, 3, 1, 2],
    [0, 0, 2, 2, 2],
    [1, 1, 3, 3, 1],
    [1, 1, 3, 1, 3],
    [0, 1, 1, 3, 0],
    [3, 2, 3, 0, 3],
    [1, 3, 3, 1, 3],
    [3, 3, 2, 3, 1],
    [0, 3, 0, 1, 0],
    [1, 2, 3, 2, 0],
    [3, 1, 0, 2, 3],
    [2, 0, 1, 1, 0],
    [2, 2, 1, 2, 3],
    [0, 0, 1, 1, 1],
    [1, 0, 1, 2, 2],
    [1, 1, 0, 0, 3],
    [1, 3, 0, 0, 2],
    [2, 3, 0, 3, 1],
    [3, 3, 0, 1, 3],
    [2, 1, 3, 2, 1],
    [0, 1, 3, 2, 1],
    [0, 3, 2, 0, 2],
    [0, 0, 0, 3, 1],
    [3, 3, 0, 1, 3],
    [3, 3, 0, 1, 2],
    [3, 1, 0, 1, 0],
    [2, 3, 1, 0, 0],
    [1, 2, 2, 2, 1],
    [2, 3, 1, 0, 2],
    [3, 1, 0, 3, 0],
    [3, 0, 3, 1, 2],
    [3, 2, 3, 3, 3],
    [2, 2, 0, 1, 2],
    [2, 3, 0, 2, 2],
    [3, 1, 3, 2, 1],
    [1, 2, 3, 0, 0],
    [0, 3, 3, 0, 0],
    [1, 0, 3, 2, 1],
    [0, 2, 0, 1, 1],
    [2, 3, 2, 3, 2],
    [0, 1, 2, 1, 3],
    [0, 3, 0, 1, 3],
    [1, 1, 1, 3, 2],
    [1, 3, 2, 0, 2],
    [0, 0, 1, 1, 1],
    [2, 3, 2, 3, 1],
    [2, 3, 2, 0, 2],
    [2, 1, 3, 1, 2],
    [3, 1, 0, 0, 0],
    [1, 3, 1, 2, 1],
    [2, 3, 0, 1, 1],
    [3, 3, 3, 2, 3],
    [3, 0, 1, 3, 0],
    [0, 0, 3, 1, 1],
    [2, 2, 3, 3, 2],
    [3, 3, 1, 0, 0],
    [2, 1, 1, 3, 1],
    [3, 1, 0, 1, 0],
    [0, 0, 1, 2, 3],
    [0, 1, 3, 0, 1],
    [2, 3, 1, 0, 0],
    [2, 1, 0, 2, 1],
    [2, 0, 3, 1, 1],
    [0, 1, 3, 1, 2],
    [3, 2, 2, 2, 3],
    [1, 1, 2, 1, 3],
    [0, 0, 2, 3, 3],
    [1, 3, 3, 3, 0],
    [3, 0, 0, 0, 2],
    [2, 3, 3, 1, 1],
    [3, 1, 2, 3, 1],
    [0, 2, 0, 0, 3],
    [0, 3, 2, 2, 0],
    [3, 3, 2, 0, 1],
    [0, 3, 1, 0, 1],
    [1, 1, 0, 1, 0],
    [3, 0, 3, 3, 3],
    [1, 3, 1, 0, 0],
    [2, 3, 0, 0, 2],
    [1, 3, 3, 3, 3],
    [0, 2, 0, 0, 2],
    [0, 3, 1, 1, 1],
    [2, 3, 3, 2, 2],
    [1, 3, 2, 2, 1],
    [2, 1, 1, 2, 3],
    [0, 2, 1, 1, 0],
    [2, 1, 2, 1, 2],
    [1, 3, 2, 1, 0],
    [1, 1, 1, 0, 2],
    [2, 1, 0, 2, 3],
    [0, 1, 3, 2, 3],
    [0, 3, 1, 3, 2],
    [1, 0, 1, 2, 3],
    [2, 3, 0, 0, 0],
    [2, 3, 3, 2, 0],
    [0, 1, 1, 3, 2],
    [2, 0, 1, 2, 0],
    [1, 0, 3, 1, 0],
    [1, 1, 1, 2, 1],
    [3, 3, 1, 1, 2],
    [2, 2, 1, 3, 0],
    [3, 0, 2, 1, 1],
    [1, 0, 3, 1, 0],
    [0, 2, 2, 1, 0],
    [0, 0, 3, 1, 3],
    [3, 1, 3, 3, 2],
    [1, 3, 3, 2, 2],
    [0, 3, 0, 1, 0],
    [2, 0, 2, 1, 2],
    [0, 2, 2, 1, 1],
    [3, 1, 1, 2, 2],
    [1, 3, 1, 2, 1],
    [3, 0, 3, 2, 3],
    [2, 0, 0, 1, 1],
    [0, 2, 0, 0, 1],
    [3, 3, 0, 2, 0],
    [3, 1, 1, 2, 3],
    [2, 3, 0, 2, 3],
    [0, 3, 1, 2, 2],
    [1, 1, 2, 0, 3],
    [0, 0, 2, 2, 1],
    [2, 2, 2, 1, 2],
    [2, 3, 0, 2, 3],
    [1, 3, 2, 1, 3],
    [3, 2, 2, 0, 1],
    [1, 0, 0, 1, 3],
    [1, 0, 3, 3, 3],
    [2, 3, 2, 1, 0],
    [3, 0, 2, 0, 1],
    [3, 2, 0, 1, 0],
    [1, 2, 3, 1, 0],
    [2, 2, 2, 3, 1],
    [2, 0, 1, 2, 3],
    [1, 2, 1, 2, 1],
    [3, 1, 2, 2, 3],
    [1, 2, 2, 1, 0],
    [2, 0, 1, 1, 2],
    [1, 0, 0, 1, 1],
    [3, 0, 2, 2, 2],
    [3, 1, 3, 3, 1],
    [2, 0, 0, 0, 0],
    [1, 0, 3, 3, 1],
    [2, 0, 2, 3, 3],
    [0, 3, 0, 0, 0],
    [2, 2, 3, 2, 3],
    [3, 0, 2, 3, 2],
    [0, 0, 1, 3, 2],
    [3, 0, 1, 1, 3],
    [3, 1, 3, 3, 0],
    [0, 2, 1, 0, 2],
    [1, 0, 0, 2, 2],
    [0, 3, 3, 3, 1],
    [2, 0, 0, 0, 3],
    [3, 3, 1, 0, 0],
    [2, 2, 1, 2, 0],
    [0, 1, 1, 1, 0],
    [3, 2, 0, 2, 1],
    [1, 3, 0, 2, 2],
    [1, 2, 3, 1, 2],
    [1, 0, 2, 3, 3],
    [3, 2, 0, 3, 2],
    [3, 3, 2, 1, 0],
    [0, 2, 3, 2, 3],
    [1, 2, 2, 0, 2],
    [0, 0, 2, 3, 3],
    [1, 1, 0, 0, 1],
    [3, 3, 0, 2, 2],
    [0, 3, 2, 0, 3],
    [0, 0, 0, 1, 0],
    [1, 0, 3, 2, 2],
    [2, 0, 2, 1, 2],
    [0, 2, 3, 3, 3],
    [1, 2, 0, 2, 1],
    [1, 0, 1, 3, 1],
    [1, 0, 1, 0, 2],
    [3, 3, 2, 2, 2],
    [2, 0, 1, 3, 1],
    [2, 2, 2, 0, 1],
    [3, 0, 3, 2, 0],
    [3, 2, 1, 2, 0],
    [1, 0, 1, 0, 1],
    [3, 1, 3, 2, 2],
    [2, 3, 0, 1, 2],
    [3, 0, 0, 3, 3],
    [2, 1, 0, 3, 3],
    [0, 2, 0, 1, 2],
    [1, 0, 3, 1, 1],
    [1, 1, 3, 2, 1],
    [0, 1, 0, 0, 0],
    [0, 3, 0, 2, 1],
    [0, 2, 3, 0, 3],
    [1, 0, 2, 3, 1],
    [2, 1, 1, 1, 2],
    [1, 0, 2, 3, 3],
    [0, 2, 3, 2, 3],
    [0, 0, 3, 2, 1],
    [0, 0, 3, 2, 0],
    [3, 3, 3, 0, 2],
    [3, 0, 1, 3, 1],
    [3, 2, 0, 1, 2],
    [1, 2, 0, 1, 2],
    [0, 0, 3, 2, 0],
    [1, 0, 3, 0, 2],
    [2, 0, 3, 3, 1],
    [2, 2, 3, 3, 0],
    [2, 3, 2, 1, 1],
    [3, 3, 2, 2, 2],
    [1, 1, 2, 1, 0],
    [1, 3, 2, 2, 3],
    [0, 2, 3, 1, 0],
    [2, 1, 0, 1, 3],
    [3, 0, 3, 2, 3],
    [0, 0, 1, 0, 2],
    [2, 0, 0, 2, 0],
    [0, 1, 0, 3, 0],
    [3, 2, 2, 0, 3],
    [2, 2, 0, 2, 0],
    [2, 2, 0, 0, 2],
    [3, 3, 1, 1, 1],
    [0, 0, 0, 2, 1],
    [1, 3, 2, 1, 2],
    [1, 3, 0, 0, 3],
    [0, 0, 2, 1, 1],
    [3, 3, 0, 1, 3],
    [2, 2, 0, 0, 2],
    [1, 0, 0, 3, 1],
    [3, 2, 2, 1, 0],
    [2, 3, 3, 2, 3],
    [1, 2, 0, 2, 2],
    [2, 0, 3, 1, 3],
    [3, 0, 0, 0, 3],
    [2, 0, 0, 2, 2],
    [2, 0, 0, 1, 2],
    [0, 0, 3, 2, 1],
    [0, 0, 0, 2, 1],
    [1, 3, 3, 0, 1],
    [2, 0, 0, 2, 0],
    [3, 3, 1, 3, 1],
];

} // verus!
