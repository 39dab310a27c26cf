//! The byte-distance table of the Hamming-distance chunker: for each
//! byte value, the number of bits in which it differs from the fixed
//! reference byte `0xAA`. Pure data, baked in as a constant; kept in a
//! module of its own, behind an opaque accessor, so the large literal
//! enters only the two proofs that read it.

use vstd::prelude::*;

verus! {

/// Bit-population-count distance of byte value `b` to the reference.
#[verifier::opaque]
pub open spec fn dist_entry(b: int) -> usize
    recommends
        0 <= b < 256,
{
    BYTE_DISTANCES[b]
}

/// No byte differs from the reference in more than its eight bits.
#[verifier::rlimit(100)]
pub proof fn lemma_dist_entry_bound(b: int)
    requires
        0 <= b < 256,
    ensures
        dist_entry(b) <= 8,
{
    reveal(dist_entry);
    assert(BYTE_DISTANCES[b] <= 8);
}

/// Table lookup, pinned to `dist_entry`.
#[verifier::rlimit(100)]
pub fn dist_lookup(b: u8) -> (r: usize)
    ensures
        r == dist_entry(b as int),
        r <= 8,
{
    proof {
        lemma_dist_entry_bound(b as int);
        reveal(dist_entry);
    }
    BYTE_DISTANCES[b as usize]
}

pub const BYTE_DISTANCES: [usize; 256] = [
    4, 5, 3, 4, 5, 6, 4, 5, 3, 4, 2, 3, 4, 5, 3, 4, 5, 6, 4, 5, 6, 7, 5, 6, 4, 5, 3, 4, 5, 6, 4, 5,
    3, 4, 2, 3, 4, 5, 3, 4, 2, 3, 1, 2, 3, 4, 2, 3, 4, 5, 3, 4, 5, 6, 4, 5, 3, 4, 2, 3, 4, 5, 3, 4,
    5, 6, 4, 5, 6, 7, 5, 6, 4, 5, 3, 4, 5, 6, 4, 5, 6, 7, 5, 6, 7, 8, 6, 7, 5, 6, 4, 5, 6, 7, 5, 6,
    4, 5, 3, 4, 5, 6, 4, 5, 3, 4, 2, 3, 4, 5, 3, 4, 5, 6, 4, 5, 6, 7, 5, 6, 4, 5, 3, 4, 5, 6, 4, 5,
    3, 4, 2, 3, 4, 5, 3, 4, 2, 3, 1, 2, 3, 4, 2, 3, 4, 5, 3, 4, 5, 6, 4, 5, 3, 4, 2, 3, 4, 5, 3, 4,
    2, 3, 1, 2, 3, 4, 2, 3, 1, 2, 0, 1, 2, 3, 1, 2, 3, 4, 2, 3, 4, 5, 3, 4, 2, 3, 1, 2, 3, 4, 2, 3,
    4, 5, 3, 4, 5, 6, 4, 5, 3, 4, 2, 3, 4, 5, 3, 4, 5, 6, 4, 5, 6, 7, 5, 6, 4, 5, 3, 4, 5, 6, 4, 5,
    3, 4, 2, 3, 4, 5, 3, 4, 2, 3, 1, 2, 3, 4, 2, 3, 4, 5, 3, 4, 5, 6, 4, 5, 3, 4, 2, 3, 4, 5, 3, 4,
];

} // verus!
