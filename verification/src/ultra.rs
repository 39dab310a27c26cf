//! Hamming-distance windowed chunker: an eight-byte window slides over
//! the buffer eight bytes at a time, carrying the summed bit-distance
//! of its bytes to a fixed reference byte. Within each step the window
//! slides one byte at a time, cutting where the masked distance
//! vanishes — a tight mask up to the normal (average) size, a loose one
//! up to the maximum. A run of identical windows forces a boundary
//! after a fixed count, guarding against unbounded spin on repeats.
//! Because the scan consumes the buffer a window at a time, a forced
//! cut can overshoot the maximum size by up to a window when the size
//! spans are not window-aligned; for window-aligned spans, the tuned
//! defaults among them, the maximum is sharp: see
//! `lemma_ultra_run_len_bounds_aligned`.

use crate::dist_table::{dist_entry, dist_lookup};
use crate::{covers_range, Chunk, SizeParams};
use vstd::prelude::*;

verus! {

pub const MIN_CHUNK_SIZE: usize = 2048;

/// The normal (target) size: `MIN_CHUNK_SIZE + 8 KiB`.
pub const NORMAL_CHUNK_SIZE: usize = 10240;

pub const MAX_CHUNK_SIZE: usize = 65536;

pub const WINDOW_SIZE: usize = 8;

/// Tight mask, used while the chunk is below the normal size.
pub const MASK_S: usize = 0x2f;

/// Loose mask, used while the chunk is below the maximum size.
pub const MASK_L: usize = 0x2c;

/// Forced-boundary threshold: this many consecutive identical windows.
pub const LEST: usize = 64;

/// Summed distance of the first `k` bytes of a window.
pub open spec fn dist_sum(w: Seq<u8>, k: nat) -> int
    decreases k,
{
    if k == 0 {
        0
    } else {
        dist_sum(w, (k - 1) as nat) + dist_entry(w[k - 1] as int)
    }
}

/// The window distance after `j` one-byte slides: the first `j` bytes
/// come from the incoming window, the rest from the outgoing one.
pub open spec fn mixed_dist(out: Seq<u8>, inw: Seq<u8>, j: int) -> int {
    dist_sum(inw, j as nat) + dist_sum(out, WINDOW_SIZE as nat) - dist_sum(out, j as nat)
}

/// A distance sum over at most the window is at most eight per byte.
pub proof fn lemma_dist_sum_bound(w: Seq<u8>, k: nat)
    requires
        k <= WINDOW_SIZE,
    ensures
        0 <= dist_sum(w, k) <= 8 * k,
    decreases k,
{
    if k > 0 {
        lemma_dist_sum_bound(w, (k - 1) as nat);
        crate::dist_table::lemma_dist_entry_bound((w[k - 1] as u8) as int);
    }
}

/// Distance sums only grow with the number of bytes counted.
pub proof fn lemma_dist_sum_mono(w: Seq<u8>, j: nat, k: nat)
    requires
        j <= k <= WINDOW_SIZE,
    ensures
        dist_sum(w, j) <= dist_sum(w, k),
    decreases k,
{
    if j < k {
        lemma_dist_sum_mono(w, j, (k - 1) as nat);
        crate::dist_table::lemma_dist_entry_bound((w[k - 1] as u8) as int);
    }
}

/// The first slide offset at which the masked distance vanishes, or
/// the window size if none does.
pub open spec fn first_mask_hit(out: Seq<u8>, inw: Seq<u8>, mask: usize, j: int) -> int
    decreases WINDOW_SIZE - j,
{
    if j >= WINDOW_SIZE {
        WINDOW_SIZE as int
    } else if (mixed_dist(out, inw, j) as usize) & mask == 0 {
        j
    } else {
        first_mask_hit(out, inw, mask, j + 1)
    }
}

/// The first hit lies between `j` and the window size.
pub proof fn lemma_first_mask_hit_range(out: Seq<u8>, inw: Seq<u8>, mask: usize, j: int)
    requires
        0 <= j <= WINDOW_SIZE,
    ensures
        j <= first_mask_hit(out, inw, mask, j) <= WINDOW_SIZE,
    decreases WINDOW_SIZE - j,
{
    if j >= WINDOW_SIZE {
    } else if (mixed_dist(out, inw, j) as usize) & mask == 0 {
    } else {
        lemma_first_mask_hit_range(out, inw, mask, j + 1);
    }
}

/// The exit state of one scan phase: the outgoing window, consumed
/// length and repeat count as they stand, and the cut, if one fired
/// (`tail` marks the cut that emitted the rest of the buffer).
pub struct PhaseState {
    pub out: Seq<u8>,
    pub chk: int,
    pub eq: int,
    pub cut: Option<int>,
    pub tail: bool,
}

/// One scan phase: while the chunk is below `limit`, take the next
/// eight bytes; too little left emits the remainder; an identical
/// window counts toward the forced boundary; otherwise the window
/// slides byte by byte against `mask`.
pub open spec fn phase_scan(
    buf: Seq<u8>,
    limit: int,
    mask: usize,
    start: int,
    out: Seq<u8>,
    chk: int,
    eq: int,
) -> PhaseState
    decreases limit + WINDOW_SIZE - chk,
{
    if chk >= limit {
        PhaseState { out, chk, eq, cut: None, tail: false }
    } else if start + chk + WINDOW_SIZE >= buf.len() {
        PhaseState { out, chk, eq, cut: Some(buf.len() - start), tail: true }
    } else {
        let inw = buf.subrange(start + chk, start + chk + WINDOW_SIZE);
        if inw == out {
            if eq + 1 == LEST {
                PhaseState { out, chk: chk + WINDOW_SIZE, eq: eq + 1, cut: Some(chk + WINDOW_SIZE), tail: false }
            } else {
                phase_scan(buf, limit, mask, start, out, chk + WINDOW_SIZE, eq + 1)
            }
        } else {
            let j = first_mask_hit(out, inw, mask, 0);
            if j < WINDOW_SIZE {
                PhaseState { out, chk: chk + WINDOW_SIZE, eq: 0, cut: Some(chk + WINDOW_SIZE), tail: false }
            } else {
                phase_scan(buf, limit, mask, start, inw, chk + WINDOW_SIZE, 0)
            }
        }
    }
}

/// One whole chunk from offset `start` with repeat count `eq`: too
/// little room emits the remainder; otherwise the outgoing window is
/// loaded at the chunk start and the tight then the loose phase run,
/// with a forced boundary at the accumulated length if neither cuts.
/// Returns the chunk length, the repeat count after it, and whether the
/// chunk emptied the buffer.
pub open spec fn ultra_cut(
    buf: Seq<u8>,
    min: int,
    normal: int,
    max: int,
    start: int,
    eq: int,
) -> (int, int, bool) {
    if start + min + WINDOW_SIZE >= buf.len() {
        (buf.len() - start, eq, true)
    } else {
        let out0 = buf.subrange(start, start + WINDOW_SIZE);
        let ph1 = phase_scan(buf, normal, MASK_S as usize, start, out0, min + WINDOW_SIZE, eq);
        if ph1.cut is Some {
            (ph1.cut->Some_0, ph1.eq, ph1.tail)
        } else {
            let ph2 = phase_scan(buf, max, MASK_L as usize, start, ph1.out, ph1.chk, ph1.eq);
            if ph2.cut is Some {
                (ph2.cut->Some_0, ph2.eq, ph2.tail)
            } else {
                (ph2.chk, ph2.eq, false)
            }
        }
    }
}

/// Bounds of one phase: the consumed length only grows in window
/// steps, a cut stays inside the buffer, `tail` cuts reach its end,
/// and the repeat count grows by at most one per window.
#[verifier::rlimit(100)]
proof fn lemma_phase_scan_bounds(
    buf: Seq<u8>,
    limit: int,
    mask: usize,
    start: int,
    out: Seq<u8>,
    chk: int,
    eq: int,
)
    requires
        0 <= start,
        0 <= chk,
        chk <= limit + WINDOW_SIZE,
        start + chk <= buf.len(),
        0 <= eq,
        eq * WINDOW_SIZE <= start + chk,
    ensures
        ({
            let ph = phase_scan(buf, limit, mask, start, out, chk, eq);
            &&& (ph.cut is None ==> limit <= ph.chk <= limit + WINDOW_SIZE && start + ph.chk
                <= buf.len() && (start + ph.chk < buf.len() || ph.chk == chk) && ph.eq
                * WINDOW_SIZE <= start + ph.chk && 0 <= ph.eq && chk <= ph.chk && (ph.chk <= limit
                + WINDOW_SIZE - 1 || ph.chk == chk) && (ph.chk - chk) % (WINDOW_SIZE as int) == 0)
            &&& (ph.cut is Some && !ph.tail ==> chk < ph.cut->Some_0 <= limit + WINDOW_SIZE - 1
                && start + ph.cut->Some_0 < buf.len() && ph.eq * WINDOW_SIZE <= start
                + ph.cut->Some_0 && 0 <= ph.eq && (ph.cut->Some_0 - chk) % (WINDOW_SIZE as int)
                == 0)
            &&& (ph.cut is Some && ph.tail ==> ph.cut->Some_0 == buf.len() - start && 0 <= ph.eq
                && ph.eq * WINDOW_SIZE <= buf.len())
        }),
    decreases limit + WINDOW_SIZE - chk,
{
    if chk >= limit {
    } else if start + chk + WINDOW_SIZE >= buf.len() {
    } else {
        let inw = buf.subrange(start + chk, start + chk + WINDOW_SIZE);
        if inw == out {
            if eq + 1 == LEST {
            } else {
                lemma_phase_scan_bounds(buf, limit, mask, start, out, chk + WINDOW_SIZE, eq + 1);
            }
        } else {
            let j = first_mask_hit(out, inw, mask, 0);
            if j < WINDOW_SIZE {
            } else {
                lemma_phase_scan_bounds(buf, limit, mask, start, inw, chk + WINDOW_SIZE, 0);
            }
        }
    }
}

/// Bounds of one chunk: it is non-empty, ends inside the buffer
/// (exactly at its end when `tail`), stays within a window of the
/// maximum size, reaches the minimum unless it empties the buffer, and
/// keeps the repeat count in step with the consumed bytes.
pub proof fn lemma_ultra_cut_bounds(
    buf: Seq<u8>,
    min: int,
    normal: int,
    max: int,
    start: int,
    eq: int,
)
    requires
        0 <= start < buf.len(),
        0 <= min,
        min <= normal,
        normal <= max,
        0 <= eq,
        eq * WINDOW_SIZE <= start + min,
    ensures
        ({
            let (l, eq2, tail) = ultra_cut(buf, min, normal, max, start, eq);
            &&& 1 <= l
            &&& start + l <= buf.len()
            &&& (tail ==> start + l == buf.len())
            &&& (!tail ==> start + l < buf.len() && min < l <= max + WINDOW_SIZE)
            &&& 0 <= eq2
            &&& eq2 * WINDOW_SIZE <= start + l + min
        }),
{
    if start + min + WINDOW_SIZE >= buf.len() {
    } else {
        let out0 = buf.subrange(start, start + WINDOW_SIZE);
        lemma_phase_scan_bounds(buf, normal, MASK_S as usize, start, out0, min + WINDOW_SIZE, eq);
        let ph1 = phase_scan(buf, normal, MASK_S as usize, start, out0, min + WINDOW_SIZE, eq);
        if ph1.cut is Some {
        } else {
            lemma_phase_scan_bounds(buf, max, MASK_L as usize, start, ph1.out, ph1.chk, ph1.eq);
        }
    }
}

/// With window-aligned size spans (and a normal size at least a full
/// window past the minimum, as the tuned defaults are), the consumed
/// length walks through the limits exactly, so no cut that leaves
/// bytes behind exceeds the maximum size.
#[verifier::rlimit(100)]
pub proof fn lemma_ultra_cut_aligned(
    buf: Seq<u8>,
    min: int,
    normal: int,
    max: int,
    start: int,
    eq: int,
)
    requires
        0 <= start < buf.len(),
        0 <= min,
        min + WINDOW_SIZE <= normal <= max,
        (normal - min) % (WINDOW_SIZE as int) == 0,
        (max - min) % (WINDOW_SIZE as int) == 0,
        0 <= eq,
        eq * WINDOW_SIZE <= start + min,
    ensures
        ({
            let (l, eq2, tail) = ultra_cut(buf, min, normal, max, start, eq);
            !tail ==> l <= max
        }),
{
    if start + min + WINDOW_SIZE >= buf.len() {
    } else {
        let out0 = buf.subrange(start, start + WINDOW_SIZE);
        lemma_phase_scan_bounds(buf, normal, MASK_S as usize, start, out0, min + WINDOW_SIZE, eq);
        let ph1 = phase_scan(buf, normal, MASK_S as usize, start, out0, min + WINDOW_SIZE, eq);
        if ph1.cut is Some {
            if !ph1.tail {
                let l = ph1.cut->Some_0;
                assert((l - normal) % (WINDOW_SIZE as int) == 0);
                assert(l <= normal) by {
                    if l > normal {
                        assert(1 <= l - normal <= WINDOW_SIZE - 1);
                    }
                }
            }
        } else {
            assert((ph1.chk - normal) % (WINDOW_SIZE as int) == 0);
            assert(ph1.chk == normal) by {
                if ph1.chk > normal {
                    assert(ph1.chk <= normal + WINDOW_SIZE - 1 || ph1.chk == min + WINDOW_SIZE);
                    assert(1 <= ph1.chk - normal <= WINDOW_SIZE - 1);
                }
            }
            lemma_phase_scan_bounds(buf, max, MASK_L as usize, start, ph1.out, ph1.chk, ph1.eq);
            let ph2 = phase_scan(buf, max, MASK_L as usize, start, ph1.out, ph1.chk, ph1.eq);
            if ph2.cut is Some {
                if !ph2.tail {
                    let l = ph2.cut->Some_0;
                    assert((l - max) % (WINDOW_SIZE as int) == 0);
                    assert(l <= max) by {
                        if l > max {
                            assert(1 <= l - max <= WINDOW_SIZE - 1);
                        }
                    }
                }
            } else {
                assert((ph2.chk - max) % (WINDOW_SIZE as int) == 0);
                assert(ph2.chk == max) by {
                    if ph2.chk > max {
                        assert(ph2.chk <= max + WINDOW_SIZE - 1 || ph2.chk == normal);
                        assert(1 <= ph2.chk - max <= WINDOW_SIZE - 1);
                    }
                }
            }
        }
    }
}

/// The whole pass from offset `start` with repeat count `eq`: chunks
/// until the buffer is exhausted; when less than a minimum-size step
/// remains, the remainder is the final chunk.
pub open spec fn ultra_run(buf: Seq<u8>, min: int, normal: int, max: int, start: int, eq: int) -> Seq<
    Chunk,
>
    decreases buf.len() - start
    when 0 <= start <= buf.len() <= usize::MAX && 0 <= min <= normal <= max && 0 <= eq && eq
        * WINDOW_SIZE <= start + min
    via ultra_run_decreases
{
    if start + min >= buf.len() {
        if start == buf.len() {
            Seq::empty()
        } else {
            seq![Chunk { pos: start as usize, len: (buf.len() - start) as usize }]
        }
    } else {
        let (l, eq2, tail) = ultra_cut(buf, min, normal, max, start, eq);
        seq![Chunk { pos: start as usize, len: l as usize }] + ultra_run(
            buf,
            min,
            normal,
            max,
            start + l,
            eq2,
        )
    }
}

#[via_fn]
proof fn ultra_run_decreases(buf: Seq<u8>, min: int, normal: int, max: int, start: int, eq: int) {
    if 0 <= start <= buf.len() <= usize::MAX && 0 <= min <= normal <= max && 0 <= eq && eq
        * WINDOW_SIZE <= start + min && start + min < buf.len() {
        lemma_ultra_cut_bounds(buf, min, normal, max, start, eq);
    }
}

/// The chunks of one whole `generate_chunks` pass: an empty buffer
/// yields no chunks; a non-empty buffer no longer than the minimum
/// size is one chunk; otherwise the run from the start, with the
/// normal size clamped to the buffer length.
pub open spec fn ultra_gen(buf: Seq<u8>, sizes: SizeParams) -> Seq<Chunk> {
    if buf.len() == 0 {
        Seq::empty()
    } else if buf.len() <= sizes.min {
        seq![Chunk { pos: 0, len: buf.len() as usize }]
    } else {
        let normal = if buf.len() <= sizes.avg {
            buf.len() as int
        } else {
            sizes.avg as int
        };
        ultra_run(buf, sizes.min as int, normal, sizes.max as int, 0, 0)
    }
}

/// Partition property: a run covers exactly `[start, buf.len())`.
pub proof fn lemma_ultra_run_partition(
    buf: Seq<u8>,
    min: int,
    normal: int,
    max: int,
    start: int,
    eq: int,
)
    requires
        0 <= start <= buf.len() <= usize::MAX,
        0 <= min <= normal <= max,
        0 <= eq,
        eq * WINDOW_SIZE <= start + min,
    ensures
        covers_range(ultra_run(buf, min, normal, max, start, eq), start, buf.len() as int),
    decreases buf.len() - start,
{
    if start + min >= buf.len() {
    } else {
        let (l, eq2, tail) = ultra_cut(buf, min, normal, max, start, eq);
        lemma_ultra_cut_bounds(buf, min, normal, max, start, eq);
        lemma_ultra_run_partition(buf, min, normal, max, start + l, eq2);
        let head = Chunk { pos: start as usize, len: l as usize };
        crate::lemma_covers_range_cons(
            head,
            ultra_run(buf, min, normal, max, start + l, eq2),
            start,
            buf.len() as int,
        );
    }
}

/// Bounds property: no chunk is empty, every chunk except possibly the
/// final one is longer than the minimum size, and none is more than a
/// window short of a full window past the maximum size.
pub proof fn lemma_ultra_run_len_bounds(
    buf: Seq<u8>,
    min: int,
    normal: int,
    max: int,
    start: int,
    eq: int,
)
    requires
        0 <= start <= buf.len() <= usize::MAX,
        0 <= min <= normal <= max,
        0 <= eq,
        eq * WINDOW_SIZE <= start + min,
    ensures
        forall|i: int|
            0 <= i < ultra_run(buf, min, normal, max, start, eq).len() ==> 1 <= (
            #[trigger] ultra_run(buf, min, normal, max, start, eq)[i]).len,
        forall|i: int|
            0 <= i < ultra_run(buf, min, normal, max, start, eq).len() - 1 ==> min < (
            #[trigger] ultra_run(buf, min, normal, max, start, eq)[i]).len <= max + WINDOW_SIZE,
    decreases buf.len() - start,
{
    if start + min >= buf.len() {
    } else {
        let (l, eq2, tail) = ultra_cut(buf, min, normal, max, start, eq);
        lemma_ultra_cut_bounds(buf, min, normal, max, start, eq);
        lemma_ultra_run_len_bounds(buf, min, normal, max, start + l, eq2);
        let cs = ultra_run(buf, min, normal, max, start, eq);
        let rest = ultra_run(buf, min, normal, max, start + l, eq2);
        assert(forall|i: int| 0 <= i < rest.len() ==> cs[i + 1] == rest[i]);
        assert(rest.len() == 0 ==> cs.len() == 1);
        assert(tail ==> rest.len() == 0);
        assert forall|i: int| 0 <= i < cs.len() implies 1 <= (#[trigger] cs[i]).len by {
            if i > 0 {
                assert(cs[i] == rest[i - 1]);
            }
        }
        assert forall|i: int| 0 <= i < cs.len() - 1 implies min < (#[trigger] cs[i]).len <= max
            + WINDOW_SIZE by {
            if i > 0 {
                assert(cs[i] == rest[i - 1]);
            } else {
                assert(rest.len() > 0);
                assert(!tail);
            }
        }
    }
}

/// Bounds property, sharpened for window-aligned size spans (the
/// tuned defaults among them): no chunk that leaves bytes behind
/// exceeds the maximum size.
pub proof fn lemma_ultra_run_len_bounds_aligned(
    buf: Seq<u8>,
    min: int,
    normal: int,
    max: int,
    start: int,
    eq: int,
)
    requires
        0 <= start <= buf.len() <= usize::MAX,
        0 <= min,
        min + WINDOW_SIZE <= normal <= max,
        (normal - min) % (WINDOW_SIZE as int) == 0,
        (max - min) % (WINDOW_SIZE as int) == 0,
        0 <= eq,
        eq * WINDOW_SIZE <= start + min,
    ensures
        forall|i: int|
            0 <= i < ultra_run(buf, min, normal, max, start, eq).len() - 1 ==> (
            #[trigger] ultra_run(buf, min, normal, max, start, eq)[i]).len <= max,
    decreases buf.len() - start,
{
    if start + min >= buf.len() {
    } else {
        let (l, eq2, tail) = ultra_cut(buf, min, normal, max, start, eq);
        lemma_ultra_cut_bounds(buf, min, normal, max, start, eq);
        lemma_ultra_cut_aligned(buf, min, normal, max, start, eq);
        lemma_ultra_run_len_bounds_aligned(buf, min, normal, max, start + l, eq2);
        let cs = ultra_run(buf, min, normal, max, start, eq);
        let rest = ultra_run(buf, min, normal, max, start + l, eq2);
        assert(forall|i: int| 0 <= i < rest.len() ==> cs[i + 1] == rest[i]);
        assert(tail ==> rest.len() == 0);
        assert forall|i: int| 0 <= i < cs.len() - 1 implies (#[trigger] cs[i]).len <= max by {
            if i > 0 {
                assert(cs[i] == rest[i - 1]);
            } else {
                assert(rest.len() > 0);
                assert(!tail);
            }
        }
    }
}

/// Degenerate inputs: an empty buffer yields no chunks, and a
/// non-empty buffer no longer than the minimum size yields exactly one
/// chunk spanning it.
pub proof fn lemma_ultra_degenerate(buf: Seq<u8>, sizes: SizeParams)
    requires
        sizes.wf(),
        buf.len() <= sizes.min,
    ensures
        buf.len() == 0 ==> ultra_gen(buf, sizes) == Seq::<Chunk>::empty(),
        buf.len() > 0 ==> ultra_gen(buf, sizes) == seq![Chunk { pos: 0, len: buf.len() as usize }],
{
}

/// Determinism: equal buffers and sizes give equal chunk sequences.
pub proof fn lemma_ultra_deterministic(
    buf1: Seq<u8>,
    buf2: Seq<u8>,
    sizes1: SizeParams,
    sizes2: SizeParams,
)
    requires
        buf1 == buf2,
        sizes1 == sizes2,
    ensures
        ultra_gen(buf1, sizes1) == ultra_gen(buf2, sizes2),
{
}

/// A single forward pass over one borrowed buffer.
pub struct Chunker<'a> {
    buf: &'a [u8],
    buf_len: usize,
    out_window: [u8; 8],
    in_window: [u8; 8],
    normal_size: usize,
    start: usize,
    chk_len: usize,
    distance: usize,
    equal_window_count: usize,
    sizes: SizeParams,
}

impl<'a> Chunker<'a> {
    /// The buffer this pass walks.
    pub closed spec fn buf_spec(self) -> Seq<u8> {
        self.buf@
    }

    /// The size parameters this pass honours.
    pub closed spec fn sizes_spec(self) -> SizeParams {
        self.sizes
    }

    /// Offset where the next chunk will begin.
    pub closed spec fn start_spec(self) -> int {
        self.start as int
    }

    /// The repeat counter carried between chunks.
    pub closed spec fn eq_spec(self) -> int {
        self.equal_window_count as int
    }

    /// The normal (target) size this pass aims at.
    pub closed spec fn normal_spec(self) -> int {
        self.normal_size as int
    }

    /// Between pulls: the consumed length is reset to the minimum, the
    /// cursor is inside the buffer, the repeat counter is in step with
    /// the consumed bytes, and the headroom requirement keeps window
    /// arithmetic from overflowing.
    pub closed spec fn wf(self) -> bool {
        &&& self.buf_len == self.buf@.len()
        &&& self.start <= self.buf_len
        &&& (self.start < self.buf_len ==> self.chk_len == self.sizes.min)
        &&& self.chk_len <= self.sizes.max + WINDOW_SIZE
        &&& self.sizes.wf()
        &&& self.normal_size <= self.sizes.max
        &&& self.sizes.min <= self.normal_size || self.buf_len <= self.sizes.min
        &&& self.equal_window_count * WINDOW_SIZE <= self.start + self.sizes.min
        &&& self.buf_len + self.sizes.max + 2 * WINDOW_SIZE <= usize::MAX
    }

    /// Historically tuned default sizes for this variant.
    pub fn default_sizes() -> (s: SizeParams)
        ensures
            s == (SizeParams {
                min: MIN_CHUNK_SIZE,
                avg: NORMAL_CHUNK_SIZE,
                max: MAX_CHUNK_SIZE,
            }),
            s.wf(),
    {
        SizeParams { min: MIN_CHUNK_SIZE, avg: NORMAL_CHUNK_SIZE, max: MAX_CHUNK_SIZE }
    }

    /// Borrows the buffer for one pass. The headroom requirement keeps
    /// window arithmetic from overflowing.
    pub fn new(buf: &'a [u8], sizes: SizeParams) -> (c: Chunker<'a>)
        requires
            sizes.wf(),
            buf@.len() + sizes.max + 2 * WINDOW_SIZE <= usize::MAX,
        ensures
            c.wf(),
            c.buf_spec() == buf@,
            c.sizes_spec() == sizes,
            c.start_spec() == 0,
            c.eq_spec() == 0,
            c.normal_spec() == sizes.avg,
    {
        Chunker {
            buf,
            buf_len: buf.len(),
            out_window: [0u8; 8],
            in_window: [0u8; 8],
            normal_size: sizes.avg,
            start: 0,
            chk_len: sizes.min,
            distance: 0,
            equal_window_count: 0,
            sizes,
        }
    }

    /// Emits the remainder as the final chunk if fewer than a window of
    /// bytes would remain past the current chunk.
    fn check_border(&mut self) -> (r: Option<Chunk>)
        requires
            old(self).start <= old(self).buf_len,
            old(self).buf_len == old(self).buf@.len(),
            old(self).start + old(self).chk_len + WINDOW_SIZE <= usize::MAX,
        ensures
            final(self).buf == old(self).buf,
            final(self).sizes == old(self).sizes,
            final(self).buf_len == old(self).buf_len,
            final(self).chk_len == old(self).chk_len,
            final(self).out_window == old(self).out_window,
            final(self).in_window == old(self).in_window,
            final(self).distance == old(self).distance,
            final(self).normal_size == old(self).normal_size,
            final(self).equal_window_count == old(self).equal_window_count,
            old(self).start + old(self).chk_len + WINDOW_SIZE >= old(self).buf_len ==> r == Some(
                Chunk {
                    pos: old(self).start,
                    len: (old(self).buf_len - old(self).start) as usize,
                },
            ) && final(self).start == final(self).buf_len,
            old(self).start + old(self).chk_len + WINDOW_SIZE < old(self).buf_len ==> r is None
                && final(self).start == old(self).start,
    {
        if self.start + self.chk_len + 8 >= self.buf_len {
            let pos: usize = self.start;
            let len: usize = self.buf_len - self.start;

            self.start = self.buf_len;

            Some(Chunk::new(pos, len))
        } else {
            None
        }
    }

    /// Closes the current chunk, extended by `add_len`, and resets the
    /// consumed length to the minimum for the next one.
    fn make_chunk(&mut self, add_len: usize) -> (c: Chunk)
        requires
            old(self).start + old(self).chk_len + add_len <= usize::MAX,
        ensures
            final(self).buf == old(self).buf,
            final(self).sizes == old(self).sizes,
            final(self).buf_len == old(self).buf_len,
            final(self).out_window == old(self).out_window,
            final(self).in_window == old(self).in_window,
            final(self).distance == old(self).distance,
            final(self).normal_size == old(self).normal_size,
            final(self).equal_window_count == old(self).equal_window_count,
            c == (Chunk {
                pos: old(self).start,
                len: (old(self).chk_len + add_len) as usize,
            }),
            final(self).start == old(self).start + old(self).chk_len + add_len,
            final(self).chk_len == final(self).sizes.min,
    {
        self.chk_len = self.chk_len + add_len;

        let pos: usize = self.start;
        let len: usize = self.chk_len;

        self.start = self.start + self.chk_len;
        self.chk_len = self.sizes.min;

        Chunk::new(pos, len)
    }

    /// Loads the outgoing window's summed distance to the reference.
    fn calculate_new_distance(&mut self)
        ensures
            final(self).buf == old(self).buf,
            final(self).sizes == old(self).sizes,
            final(self).buf_len == old(self).buf_len,
            final(self).start == old(self).start,
            final(self).chk_len == old(self).chk_len,
            final(self).out_window == old(self).out_window,
            final(self).in_window == old(self).in_window,
            final(self).normal_size == old(self).normal_size,
            final(self).equal_window_count == old(self).equal_window_count,
            final(self).distance == dist_sum(final(self).out_window@, WINDOW_SIZE as nat),
            final(self).distance <= 64,
    {
        let mut sum: usize = 0;
        let mut i: usize = 0;
        while i < 8
            invariant
                i <= 8,
                sum == dist_sum(self.out_window@, i as nat),
                sum <= 8 * i,
                self.out_window == old(self).out_window,
            decreases 8 - i,
        {
            sum = sum + dist_lookup(self.out_window[i]);
            i = i + 1;
        }
        self.distance = sum;
    }

    /// One one-byte slide of the window sum: the entering byte's
    /// distance comes in, the leaving byte's goes out.
    fn slide_one_byte(&mut self, index: usize)
        requires
            index < WINDOW_SIZE,
            old(self).distance == mixed_dist(old(self).out_window@, old(self).in_window@, index as int),
        ensures
            final(self).buf == old(self).buf,
            final(self).sizes == old(self).sizes,
            final(self).buf_len == old(self).buf_len,
            final(self).start == old(self).start,
            final(self).chk_len == old(self).chk_len,
            final(self).out_window == old(self).out_window,
            final(self).in_window == old(self).in_window,
            final(self).normal_size == old(self).normal_size,
            final(self).equal_window_count == old(self).equal_window_count,
            final(self).distance == mixed_dist(final(self).out_window@, final(self).in_window@, index + 1),
    {
        let ghost outw: Seq<u8> = self.out_window@;
        let ghost inw: Seq<u8> = self.in_window@;
        proof {
            lemma_dist_sum_bound(outw, WINDOW_SIZE as nat);
            lemma_dist_sum_bound(outw, (index + 1) as nat);
            lemma_dist_sum_bound(outw, index as nat);
            lemma_dist_sum_bound(inw, (index + 1) as nat);
            lemma_dist_sum_bound(inw, index as nat);
            lemma_dist_sum_mono(outw, (index + 1) as nat, WINDOW_SIZE as nat);
            assert(dist_sum(outw, (index + 1) as nat) == dist_sum(outw, index as nat) + dist_entry(
                outw[index as int] as int,
            ));
            assert(dist_sum(inw, (index + 1) as nat) == dist_sum(inw, index as nat) + dist_entry(
                inw[index as int] as int,
            ));
        }
        let old_byte: u8 = self.out_window[index];
        let new_byte: u8 = self.in_window[index];

        self.distance = self.distance + dist_lookup(new_byte);
        self.distance = self.distance - dist_lookup(old_byte);
    }

    /// Slides the window one byte at a time, cutting where the masked
    /// distance vanishes.
    fn try_extract(&mut self, mask: usize) -> (r: Option<Chunk>)
        requires
            old(self).distance == mixed_dist(old(self).out_window@, old(self).in_window@, 0),
            old(self).start + old(self).chk_len + WINDOW_SIZE <= usize::MAX,
        ensures
            final(self).buf == old(self).buf,
            final(self).sizes == old(self).sizes,
            final(self).buf_len == old(self).buf_len,
            final(self).out_window == old(self).out_window,
            final(self).in_window == old(self).in_window,
            final(self).normal_size == old(self).normal_size,
            final(self).equal_window_count == old(self).equal_window_count,
            ({
                let j = first_mask_hit(old(self).out_window@, old(self).in_window@, mask, 0);
                &&& (j < WINDOW_SIZE ==> r == Some(
                    Chunk {
                        pos: old(self).start,
                        len: (old(self).chk_len + WINDOW_SIZE) as usize,
                    },
                ) && final(self).start == old(self).start + old(self).chk_len + WINDOW_SIZE
                    && final(self).chk_len == final(self).sizes.min)
                &&& (j == WINDOW_SIZE ==> r is None && final(self).start == old(self).start
                    && final(self).chk_len == old(self).chk_len && final(self).distance == mixed_dist(
                    final(self).out_window@,
                    final(self).in_window@,
                    WINDOW_SIZE as int,
                ))
            }),
    {
        let ghost out0: Seq<u8> = self.out_window@;
        let ghost inw0: Seq<u8> = self.in_window@;
        let mut j: usize = 0;
        while j < 8
            invariant
                j <= 8,
                self.buf == old(self).buf,
                self.sizes == old(self).sizes,
                self.buf_len == old(self).buf_len,
                self.start == old(self).start,
                self.chk_len == old(self).chk_len,
                self.out_window == old(self).out_window,
                self.in_window == old(self).in_window,
                self.normal_size == old(self).normal_size,
                self.equal_window_count == old(self).equal_window_count,
                self.distance == mixed_dist(out0, inw0, j as int),
                first_mask_hit(out0, inw0, mask, 0) == first_mask_hit(out0, inw0, mask, j as int),
            decreases 8 - j,
        {
            if (self.distance & mask) == 0 {
                assert(first_mask_hit(out0, inw0, mask, 0) == j);
                return Some(self.make_chunk(8));
            }

            self.slide_one_byte(j);
            j = j + 1;
        }
        proof {
            lemma_first_mask_hit_range(out0, inw0, mask, 0);
        }
        None
    }

    /// One scan phase: consumes windows below `size_limit`, counting
    /// identical windows toward the forced boundary and testing the
    /// sliding distance against `mask`. Pinned to `phase_scan`.
    fn try_get_chunk(&mut self, size_limit: usize, mask: usize) -> (r: Option<Chunk>)
        requires
            old(self).buf_len == old(self).buf@.len(),
            old(self).start + old(self).chk_len <= old(self).buf_len,
            old(self).buf_len + size_limit + 2 * WINDOW_SIZE <= usize::MAX,
            old(self).chk_len <= size_limit + WINDOW_SIZE,
            old(self).distance == dist_sum(old(self).out_window@, WINDOW_SIZE as nat),
            old(self).equal_window_count * WINDOW_SIZE <= old(self).start + old(self).chk_len,
        ensures
            final(self).buf == old(self).buf,
            final(self).sizes == old(self).sizes,
            final(self).buf_len == old(self).buf_len,
            final(self).normal_size == old(self).normal_size,
            ({
                let ph = phase_scan(
                    old(self).buf@,
                    size_limit as int,
                    mask,
                    old(self).start as int,
                    old(self).out_window@,
                    old(self).chk_len as int,
                    old(self).equal_window_count as int,
                );
                &&& (ph.cut is None ==> r is None && final(self).start == old(self).start && final(self).chk_len == ph.chk && final(self).out_window@ == ph.out && final(self).equal_window_count == ph.eq && final(self).distance == dist_sum(
                    final(self).out_window@,
                    WINDOW_SIZE as nat,
                ))
                &&& (ph.cut is Some && ph.tail ==> r == Some(
                    Chunk {
                        pos: old(self).start,
                        len: (old(self).buf_len - old(self).start) as usize,
                    },
                ) && final(self).start == final(self).buf_len && final(self).equal_window_count
                    == ph.eq && final(self).chk_len <= size_limit + WINDOW_SIZE)
                &&& (ph.cut is Some && !ph.tail ==> r == Some(
                    Chunk { pos: old(self).start, len: ph.cut->Some_0 as usize },
                ) && final(self).start == old(self).start + ph.cut->Some_0 && final(self).chk_len
                    == final(self).sizes.min && final(self).equal_window_count == ph.eq)
            }),
    {
        let ghost buf: Seq<u8> = self.buf@;
        let ghost start0: int = self.start as int;
        let ghost target: PhaseState = phase_scan(
            buf,
            size_limit as int,
            mask,
            start0,
            self.out_window@,
            self.chk_len as int,
            self.equal_window_count as int,
        );
        while self.chk_len < size_limit
            invariant
                self.buf == old(self).buf,
                self.sizes == old(self).sizes,
                self.buf_len == old(self).buf_len,
                self.normal_size == old(self).normal_size,
                self.in_window@.len() == WINDOW_SIZE,
                self.start == old(self).start,
                self.start + self.chk_len <= self.buf_len,
                self.chk_len >= old(self).chk_len,
                self.chk_len <= size_limit + WINDOW_SIZE,
                self.distance == dist_sum(self.out_window@, WINDOW_SIZE as nat),
                self.equal_window_count * WINDOW_SIZE <= self.start + self.chk_len,
                target == phase_scan(
                    buf,
                    size_limit as int,
                    mask,
                    start0,
                    self.out_window@,
                    self.chk_len as int,
                    self.equal_window_count as int,
                ),
            decreases size_limit + WINDOW_SIZE - self.chk_len,
        {
            let ghost chk0: int = self.chk_len as int;
            let ghost eqc0: int = self.equal_window_count as int;
            let ghost outw0: Seq<u8> = self.out_window@;
            proof {
                assert(target == phase_scan(buf, size_limit as int, mask, start0, outw0, chk0, eqc0));
            }
            match self.check_border() {
                Some(chunk) => {
                    proof {
                        assert(target.cut is Some && target.tail);
                    }
                    return Some(chunk);
                },
                None => {},
            }

            self.load_in_window();
            let ghost out0: Seq<u8> = self.out_window@;
            let ghost base: int = self.start + self.chk_len;
            proof {
                assert(self.in_window@ == buf.subrange(base, base + WINDOW_SIZE));
            }

            if windows_equal(&self.in_window, &self.out_window) {
                proof {
                    assert(self.in_window@ =~= self.out_window@);
                }
                self.equal_window_count = self.equal_window_count + 1;
                if self.equal_window_count == LEST {
                    proof {
                        assert(target.cut == Some(chk0 + WINDOW_SIZE) && !target.tail
                            && target.eq == eqc0 + 1);
                    }
                    return Some(self.make_chunk(8));
                } else {
                    self.chk_len = self.chk_len + 8;
                    continue ;
                }
            }

            self.equal_window_count = 0;
            proof {
                assert(dist_sum(self.in_window@, 0nat) == 0);
                assert(dist_sum(self.out_window@, 0nat) == 0);
                assert(self.distance == mixed_dist(self.out_window@, self.in_window@, 0));
                lemma_first_mask_hit_range(self.out_window@, self.in_window@, mask, 0);
            }
            match self.try_extract(mask) {
                Some(chunk) => {
                    proof {
                        assert(target.cut == Some(chk0 + WINDOW_SIZE) && !target.tail
                            && target.eq == 0);
                    }
                    return Some(chunk);
                },
                None => {},
            }

            self.copy_out_window();
            proof {
                assert(dist_sum(self.in_window@, 0nat) == 0);
                assert(dist_sum(out0, 0nat) == 0);
                assert(self.distance == dist_sum(self.out_window@, WINDOW_SIZE as nat));
            }
            self.chk_len = self.chk_len + 8;
        }
        None
    }

    /// Loads the next window of bytes into the incoming window.
    fn load_in_window(&mut self)
        requires
            old(self).buf_len == old(self).buf@.len(),
            old(self).start + old(self).chk_len + WINDOW_SIZE <= old(self).buf_len,
        ensures
            final(self).buf == old(self).buf,
            final(self).sizes == old(self).sizes,
            final(self).buf_len == old(self).buf_len,
            final(self).start == old(self).start,
            final(self).chk_len == old(self).chk_len,
            final(self).out_window == old(self).out_window,
            final(self).distance == old(self).distance,
            final(self).normal_size == old(self).normal_size,
            final(self).equal_window_count == old(self).equal_window_count,
            final(self).in_window@ == old(self).buf@.subrange(
                old(self).start + old(self).chk_len,
                old(self).start + old(self).chk_len + WINDOW_SIZE,
            ),
    {
        let base: usize = self.start + self.chk_len;
        let mut i: usize = 0;
        while i < 8
            invariant
                i <= 8,
                base == self.start + self.chk_len,
                base + WINDOW_SIZE <= self.buf_len,
                self.buf_len == self.buf@.len(),
                self.buf == old(self).buf,
                self.sizes == old(self).sizes,
                self.start == old(self).start,
                self.chk_len == old(self).chk_len,
                self.out_window == old(self).out_window,
                self.distance == old(self).distance,
                self.normal_size == old(self).normal_size,
                self.equal_window_count == old(self).equal_window_count,
                forall|k: int| 0 <= k < i ==> self.in_window@[k] == self.buf@[base + k],
            decreases 8 - i,
        {
            self.in_window[i] = self.buf[base + i];
            i = i + 1;
        }
        proof {
            assert(self.in_window@ =~= self.buf@.subrange(base as int, base + WINDOW_SIZE));
        }
    }

    /// Forwards the outgoing window to the bytes just consumed.
    fn copy_out_window(&mut self)
        ensures
            final(self).buf == old(self).buf,
            final(self).sizes == old(self).sizes,
            final(self).buf_len == old(self).buf_len,
            final(self).start == old(self).start,
            final(self).chk_len == old(self).chk_len,
            final(self).in_window == old(self).in_window,
            final(self).distance == old(self).distance,
            final(self).normal_size == old(self).normal_size,
            final(self).equal_window_count == old(self).equal_window_count,
            final(self).out_window@ == old(self).in_window@,
    {
        let mut k: usize = 0;
        while k < 8
            invariant
                k <= 8,
                self.buf == old(self).buf,
                self.sizes == old(self).sizes,
                self.buf_len == old(self).buf_len,
                self.start == old(self).start,
                self.chk_len == old(self).chk_len,
                self.in_window == old(self).in_window,
                self.distance == old(self).distance,
                self.normal_size == old(self).normal_size,
                self.equal_window_count == old(self).equal_window_count,
                forall|t: int| 0 <= t < k ==> self.out_window@[t] == self.in_window@[t],
            decreases 8 - k,
        {
            self.out_window[k] = self.in_window[k];
            k = k + 1;
        }
        proof {
            assert(self.out_window@ =~= self.in_window@);
        }
    }

    /// One whole chunk: the remainder if little is left, else the
    /// outgoing window is loaded and the two phases run, with a forced
    /// boundary at the accumulated length. Pinned to `ultra_cut`.
    fn generate_chunk(&mut self) -> (c: Chunk)
        requires
            old(self).wf(),
            old(self).start < old(self).buf_len,
        ensures
            final(self).wf(),
            final(self).buf == old(self).buf,
            final(self).sizes == old(self).sizes,
            final(self).normal_size == old(self).normal_size,
            ({
                let (l, eq2, tail) = ultra_cut(
                    old(self).buf@,
                    old(self).sizes.min as int,
                    old(self).normal_size as int,
                    old(self).sizes.max as int,
                    old(self).start as int,
                    old(self).equal_window_count as int,
                );
                &&& c == (Chunk { pos: old(self).start, len: l as usize })
                &&& final(self).start == old(self).start + l
                &&& final(self).equal_window_count == eq2
            }),
    {
        let ghost buf: Seq<u8> = self.buf@;
        let ghost min: int = self.sizes.min as int;
        let ghost normal: int = self.normal_size as int;
        let ghost max: int = self.sizes.max as int;
        let ghost start0: int = self.start as int;
        let ghost eq0: int = self.equal_window_count as int;
        proof {
            if start0 + min + WINDOW_SIZE < buf.len() {
                lemma_ultra_cut_bounds(buf, min, normal, max, start0, eq0);
            }
        }

        match self.check_border() {
            Some(chunk) => {
                return chunk;
            },
            None => {},
        }

        let base: usize = self.start;
        let mut i: usize = 0;
        while i < 8
            invariant
                i <= 8,
                base == self.start,
                base + self.chk_len + 8 < self.buf_len,
                self.buf_len == self.buf@.len(),
                self.buf == old(self).buf,
                self.sizes == old(self).sizes,
                self.normal_size == old(self).normal_size,
                self.chk_len == old(self).chk_len,
                self.equal_window_count == old(self).equal_window_count,
                forall|k: int| 0 <= k < i ==> self.out_window@[k] == self.buf@[base + k],
            decreases 8 - i,
        {
            self.out_window[i] = self.buf[base + i];
            i = i + 1;
        }
        proof {
            assert(self.out_window@ =~= buf.subrange(start0, start0 + WINDOW_SIZE));
        }
        self.chk_len = self.chk_len + 8;
        self.calculate_new_distance();

        let normal_limit: usize = self.normal_size;
        match self.try_get_chunk(normal_limit, MASK_S) {
            Some(chunk) => {
                proof {
                    lemma_phase_scan_bounds(
                        buf,
                        normal,
                        MASK_S,
                        start0,
                        buf.subrange(start0, start0 + WINDOW_SIZE),
                        min + WINDOW_SIZE,
                        eq0,
                    );
                }
                return chunk;
            },
            None => {},
        }

        let max_limit: usize = self.sizes.max;
        let ghost ph1: PhaseState = phase_scan(
            buf,
            normal,
            MASK_S,
            start0,
            buf.subrange(start0, start0 + WINDOW_SIZE),
            min + WINDOW_SIZE,
            eq0,
        );
        proof {
            lemma_phase_scan_bounds(
                buf,
                normal,
                MASK_S,
                start0,
                buf.subrange(start0, start0 + WINDOW_SIZE),
                min + WINDOW_SIZE,
                eq0,
            );
        }
        match self.try_get_chunk(max_limit, MASK_L) {
            Some(chunk) => {
                proof {
                    lemma_phase_scan_bounds(buf, max, MASK_L, start0, ph1.out, ph1.chk, ph1.eq);
                }
                return chunk;
            },
            None => {},
        }

        proof {
            lemma_phase_scan_bounds(buf, max, MASK_L, start0, ph1.out, ph1.chk, ph1.eq);
        }
        self.make_chunk(0)
    }

    /// Drives one whole pass and collects the chunks: exactly the
    /// spec-level `ultra_gen` sequence, hence a partition of the
    /// buffer. An empty buffer yields no chunks; a non-empty buffer no
    /// longer than the minimum size is one chunk.
    pub fn generate_chunks(&mut self) -> (chunks: Vec<Chunk>)
        requires
            old(self).wf(),
            old(self).start_spec() == 0,
            old(self).eq_spec() == 0,
            old(self).normal_spec() == old(self).sizes_spec().avg,
        ensures
            chunks@ == ultra_gen(old(self).buf_spec(), old(self).sizes_spec()),
            crate::is_partition(chunks@, old(self).buf_spec().len() as int),
    {
        let ghost buf: Seq<u8> = self.buf@;
        let ghost sizes: SizeParams = self.sizes;
        let mut chunks: Vec<Chunk> = Vec::new();
        self.normal_size = self.sizes.avg;
        if self.buf_len == 0 {
            let none: Vec<Chunk> = Vec::new();
            proof {
                assert(none@ =~= ultra_gen(buf, sizes));
            }
            return none;
        }
        if self.buf_len <= self.sizes.min {
            let mut one: Vec<Chunk> = Vec::new();
            one.push(Chunk::new(0, self.buf_len));
            proof {
                assert(one@ =~= ultra_gen(buf, sizes));
                assert(crate::is_partition(one@, buf.len() as int));
            }
            return one;
        }

        if self.buf_len <= self.normal_size {
            self.normal_size = self.buf_len;
        }
        let ghost normal: int = self.normal_size as int;
        let ghost min: int = sizes.min as int;
        let ghost max: int = sizes.max as int;

        while self.start + self.chk_len < self.buf_len
            invariant
                self.wf(),
                self.buf == old(self).buf,
                self.sizes == old(self).sizes,
                self.normal_size == normal,
                buf.len() > sizes.min,
                ultra_run(buf, min, normal, max, 0, 0) == chunks@ + ultra_run(
                    buf,
                    min,
                    normal,
                    max,
                    self.start as int,
                    self.equal_window_count as int,
                ),
                self.start < self.buf_len ==> self.chk_len == sizes.min,
            decreases buf.len() - self.start,
        {
            let ghost start0: int = self.start as int;
            let ghost eq0: int = self.equal_window_count as int;
            let chunk = self.generate_chunk();

            proof {
                let (l, eq2, tail) = ultra_cut(buf, min, normal, max, start0, eq0);
                lemma_ultra_cut_bounds(buf, min, normal, max, start0, eq0);
                assert(ultra_run(buf, min, normal, max, start0, eq0) == seq![chunk] + ultra_run(
                    buf,
                    min,
                    normal,
                    max,
                    start0 + l,
                    eq2,
                ));
                assert(chunks@.push(chunk) + ultra_run(buf, min, normal, max, start0 + l, eq2)
                    =~= chunks@ + (seq![chunk] + ultra_run(buf, min, normal, max, start0 + l, eq2)));
            }
            chunks.push(chunk);
        }

        if self.start + self.chk_len >= self.buf_len && self.start != self.buf_len {
            self.chk_len = self.buf_len - self.start;
            let tail_chunk = Chunk::new(self.start, self.chk_len);
            proof {
                assert(ultra_run(buf, min, normal, max, self.start as int, self.equal_window_count as int)
                    =~= seq![tail_chunk]);
                assert(chunks@.push(tail_chunk) =~= chunks@ + seq![tail_chunk]);
            }
            chunks.push(tail_chunk);
            self.start = self.buf_len;
        }

        proof {
            assert(ultra_run(buf, min, normal, max, buf.len() as int, self.equal_window_count as int)
                =~= Seq::<Chunk>::empty());
            assert(chunks@ + Seq::<Chunk>::empty() =~= chunks@);
            lemma_ultra_run_partition(buf, min, normal, max, 0, 0);
            lemma_covers_is_partition(chunks@, buf, sizes);
        }
        chunks
    }

    /// Pulls the next chunk, or nothing once the buffer is exhausted.
    /// The result is pinned to the spec-level cut.
    pub fn next_chunk(&mut self) -> (r: Option<Chunk>)
        requires
            old(self).wf(),
        ensures
            final(self).wf(),
            final(self).buf_spec() == old(self).buf_spec(),
            final(self).sizes_spec() == old(self).sizes_spec(),
            final(self).normal_spec() == old(self).normal_spec(),
            old(self).start_spec() == old(self).buf_spec().len() ==> r is None && final(self).start_spec() == old(self).start_spec(),
            old(self).start_spec() < old(self).buf_spec().len() ==> {
                let (l, eq2, tail) = ultra_cut(
                    old(self).buf_spec(),
                    old(self).sizes_spec().min as int,
                    old(self).normal_spec(),
                    old(self).sizes_spec().max as int,
                    old(self).start_spec(),
                    old(self).eq_spec(),
                );
                r == Some(
                    Chunk { pos: old(self).start_spec() as usize, len: l as usize },
                ) && final(self).start_spec() == old(self).start_spec() + l && final(self).eq_spec()
                    == eq2
            },
    {
        if self.start == self.buf_len {
            None
        } else {
            Some(self.generate_chunk())
        }
    }
}

/// A run from the very start whose chunks are exactly `ultra_gen` is a
/// partition of a non-empty buffer.
proof fn lemma_covers_is_partition(cs: Seq<Chunk>, buf: Seq<u8>, sizes: SizeParams)
    requires
        buf.len() > sizes.min,
        sizes.wf(),
        buf.len() <= usize::MAX,
        covers_range(cs, 0, buf.len() as int),
    ensures
        crate::is_partition(cs, buf.len() as int),
{
}

/// Compares two windows byte for byte.
fn windows_equal(a: &[u8; 8], b: &[u8; 8]) -> (r: bool)
    ensures
        r == (a@ =~= b@),
{
    let mut i: usize = 0;
    while i < 8
        invariant
            i <= 8,
            forall|k: int| 0 <= k < i ==> a@[k] == b@[k],
        decreases 8 - i,
    {
        if a[i] != b[i] {
            return false;
        }
        i = i + 1;
    }
    proof {
        assert(a@ =~= b@);
    }
    true
}

} // verus!
