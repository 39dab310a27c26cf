//! Content-defined chunking: partitioning a byte buffer into
//! variable-length, content-aligned segments whose boundaries depend
//! only on local byte content, not on absolute offset.
//!
//! Each submodule holds one boundary-detection algorithm. All of them
//! honour the shared `Chunk`/`SizeParams` model: a chunking pass over a
//! buffer yields a contiguous, non-overlapping partition of it.
//!
//! A buffered-writer repackaging of the rolling-hash chunker is not
//! included: it was never wired into a build, its cut arithmetic
//! deviates from the rolling-hash module's (it masks the checksum with
//! the polynomial table instead of folding it in, re-seeds its state
//! every third chunk, and cannot size a final remainder below the
//! maximum on its own), and the streaming packaging around the shared
//! cut rule is I/O plumbing, not chunking logic.

#![verifier::loop_isolation(false)]

use vstd::prelude::*;

pub mod ae;
pub mod dist_table;
pub mod ef_table;
pub mod gear_table;
pub mod supercdc;
pub mod ultra;
pub mod leap_based;
pub mod rabin;
pub mod seq;

verus! {

/// One contiguous region of the input buffer: an offset/length pair.
/// A chunk does not own or copy buffer bytes.
#[derive(Clone, Copy, Debug, PartialEq, Eq, Structural)]
pub struct Chunk {
    pub pos: usize,
    pub len: usize,
}

impl Chunk {
    pub fn new(pos: usize, len: usize) -> (c: Chunk)
        ensures
            c.pos == pos,
            c.len == len,
    {
        Chunk { pos, len }
    }
}

/// Size parameters shared by the chunkers: minimum, average (target)
/// and maximum chunk length, in bytes, with `min <= avg <= max`.
#[derive(Clone, Copy, Debug, PartialEq, Eq, Structural)]
pub struct SizeParams {
    pub min: usize,
    pub avg: usize,
    pub max: usize,
}

impl SizeParams {
    /// The invariant every chunking run relies on.
    pub open spec fn wf(self) -> bool {
        self.min <= self.avg <= self.max
    }

    /// Validating factory: an invalid combination is a configuration
    /// error and is rejected at construction, never at scan time.
    pub fn new(min: usize, avg: usize, max: usize) -> (s: SizeParams)
        requires
            min <= avg <= max,
        ensures
            s == (SizeParams { min, avg, max }),
            s.wf(),
    {
        SizeParams { min, avg, max }
    }

    /// The matrix-trained chunker's tuned defaults.
    pub fn leap_default() -> (s: SizeParams)
        ensures
            s == (SizeParams { min: 8192usize, avg: 12288usize, max: 16384usize }),
            s.wf(),
    {
        crate::leap_based::Chunker::default_sizes()
    }

    /// The rolling-hash chunker's tuned defaults.
    pub fn rabin_default() -> (s: SizeParams)
        ensures
            s == (SizeParams { min: 16384usize, avg: 32768usize, max: 65536usize }),
            s.wf(),
    {
        crate::rabin::Chunker::default_sizes()
    }

    /// The gear-hash chunker's tuned defaults.
    pub fn super_default() -> (s: SizeParams)
        ensures
            s == (SizeParams { min: 4096usize, avg: 8192usize, max: 65536usize }),
            s.wf(),
    {
        crate::supercdc::Chunker::default_sizes()
    }

    /// The Hamming-distance chunker's tuned defaults.
    pub fn ultra_default() -> (s: SizeParams)
        ensures
            s == (SizeParams { min: 2048usize, avg: 10240usize, max: 65536usize }),
            s.wf(),
    {
        crate::ultra::Chunker::default_sizes()
    }
}

/// `cs` is a contiguous run of chunks covering exactly `[start, end)`:
/// the first chunk begins at `start`, consecutive chunks touch, and the
/// last one ends at `end`. An empty run covers nothing (`start == end`).
pub open spec fn covers_range(cs: Seq<Chunk>, start: int, end: int) -> bool {
    &&& (forall|i: int|
        0 <= i < cs.len() - 1 ==> #[trigger] cs[i].pos + cs[i].len == cs[i + 1].pos)
    &&& (cs.len() == 0 ==> start == end)
    &&& (cs.len() > 0 ==> cs[0].pos == start && cs[cs.len() - 1].pos + cs[cs.len() - 1].len
        == end)
}

/// The partition property: the chunk sequence is contiguous,
/// non-overlapping, starts at offset 0 and ends at the buffer length.
pub open spec fn is_partition(cs: Seq<Chunk>, buf_len: int) -> bool {
    covers_range(cs, 0, buf_len)
}

/// Prepending a chunk that ends where a covering run begins extends
/// the covered range to the chunk's own start.
pub proof fn lemma_covers_range_cons(head: Chunk, rest: Seq<Chunk>, start: int, end: int)
    requires
        head.pos == start,
        covers_range(rest, start + head.len, end),
    ensures
        covers_range(seq![head] + rest, start, end),
{
    let cs = seq![head] + rest;
    assert(cs[0] == head);
    assert(forall|i: int| 0 <= i < rest.len() ==> cs[i + 1] == rest[i]);
    assert forall|i: int| 0 <= i < cs.len() - 1 implies #[trigger] cs[i].pos + cs[i].len == cs[i
        + 1].pos by {
        if i == 0 {
            assert(rest.len() > 0);
            assert(cs[1] == rest[0]);
        } else {
            assert(cs[i] == rest[i - 1]);
            assert(cs[i + 1] == rest[i]);
            assert(rest[i - 1].pos + rest[i - 1].len == rest[i].pos);
        }
    }
    if rest.len() == 0 {
        assert(cs.len() == 1);
        assert(start + head.len == end);
    } else {
        assert(cs[cs.len() - 1] == rest[rest.len() - 1]);
    }
}

/// Appending a chunk that begins where a covering run ends extends
/// the covered range to the chunk's own end.
pub proof fn lemma_covers_range_snoc(cs: Seq<Chunk>, c: Chunk, start: int, end: int)
    requires
        covers_range(cs, start, end),
        c.pos == end,
    ensures
        covers_range(cs.push(c), start, end + c.len),
{
    let cs2 = cs.push(c);
    assert(forall|i: int| 0 <= i < cs.len() ==> cs2[i] == cs[i]);
    assert(cs2[cs2.len() - 1] == c);
    assert forall|i: int| 0 <= i < cs2.len() - 1 implies #[trigger] cs2[i].pos + cs2[i].len == cs2[i
        + 1].pos by {
        if i < cs.len() - 1 {
            assert(cs2[i] == cs[i] && cs2[i + 1] == cs[i + 1]);
        } else {
            assert(cs2[i] == cs[cs.len() - 1] && cs2[i + 1] == c);
        }
    }
}

/// Total number of bytes described by a chunk sequence.
pub open spec fn total_len(cs: Seq<Chunk>) -> int
    decreases cs.len(),
{
    if cs.len() == 0 {
        0
    } else {
        cs[0].len + total_len(cs.skip(1))
    }
}

/// A contiguous run covering `[start, end)` describes exactly
/// `end - start` bytes; in particular a partition's chunk lengths sum
/// to the buffer length.
pub proof fn lemma_covers_range_total_len(cs: Seq<Chunk>, start: int, end: int)
    requires
        covers_range(cs, start, end),
    ensures
        total_len(cs) == end - start,
    decreases cs.len(),
{
    if cs.len() == 0 {
    } else if cs.len() == 1 {
        assert(cs.skip(1).len() == 0);
        assert(total_len(cs.skip(1)) == 0);
    } else {
        let rest = cs.skip(1);
        assert(forall|i: int|
            0 <= i < rest.len() - 1 ==> #[trigger] rest[i].pos + rest[i].len == rest[i
                + 1].pos) by {
            assert(forall|i: int| 0 <= i < rest.len() ==> rest[i] == cs[i + 1]);
        }
        assert(rest[0] == cs[1]);
        assert(cs[0].pos + cs[0].len == cs[1].pos);
        assert(rest[rest.len() - 1] == cs[cs.len() - 1]);
        lemma_covers_range_total_len(rest, cs[0].pos + cs[0].len, end);
    }
}

/// The partition property, stated over chunk lengths: for any buffer,
/// the lengths of the chunks of a partition sum to the buffer length.
pub proof fn lemma_partition_total_len(cs: Seq<Chunk>, buf_len: int)
    requires
        is_partition(cs, buf_len),
    ensures
        total_len(cs) == buf_len,
{
    lemma_covers_range_total_len(cs, 0, buf_len);
}

} // verus!
