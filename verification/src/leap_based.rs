//! Matrix-trained windowed chunker: a candidate boundary qualifies only
//! if all twenty-four lookback windows pass a five-sample test against
//! a fixed, offline-trained lookup table. On the first failing window
//! the cursor leaps forward by the number of windows left to check,
//! instead of advancing one byte. A forced boundary fires when the
//! chunk length exceeds the maximum size.

use crate::ef_table::{ef_entry, ef_lookup};
use crate::{covers_range, Chunk, SizeParams};
use vstd::prelude::*;
use vstd::slice::slice_subrange;

verus! {

pub const MIN_CHUNK_SIZE: usize = 8192;

pub const MAX_CHUNK_SIZE: usize = 16384;

pub const WINDOW_PRIMARY_COUNT: usize = 22;

pub const WINDOW_SECONDARY_COUNT: usize = 2;

pub const WINDOW_COUNT: usize = 24;

pub const WINDOW_SIZE: usize = 180;

/// Stride between the five sampled positions inside a window;
/// `WINDOW_MATRIX_SHIFT * 4 < WINDOW_SIZE - 5`.
pub const WINDOW_MATRIX_SHIFT: usize = 42;

/// The smallest minimum size the scan can honour: every window must lie
/// inside the already-consumed part of the chunk
/// (`WINDOW_SIZE + WINDOW_COUNT - 1`).
pub const MIN_FLOOR: usize = 203;

enum PointStatus {
    Satisfied,
    Unsatisfied(usize),
}

/// XOR-fold of the first `k` samples of a window (one table bit each).
pub open spec fn window_fold(win: Seq<u8>, k: nat) -> u8
    decreases k,
{
    if k == 0 {
        0u8
    } else {
        window_fold(win, (k - 1) as nat) ^ ef_entry(
            win[WINDOW_SIZE - 1 - (k - 1) * WINDOW_MATRIX_SHIFT] as int,
            k - 1,
        )
    }
}

/// A window qualifies if its five-sample fold is nonzero.
pub open spec fn window_qualified(win: Seq<u8>) -> bool {
    window_fold(win, 5) != 0
}

/// The window of `WINDOW_SIZE` bytes ending at offset `end` qualifies.
pub open spec fn qualified_at(buf: Seq<u8>, end: int) -> bool {
    window_qualified(buf.subrange(end - WINDOW_SIZE, end))
}

/// The first window offset in `[i, end)` whose window (ending at
/// `pos - i`) does not qualify, or `end` if all qualify.
pub open spec fn first_unqualified(buf: Seq<u8>, pos: int, i: int, end: int) -> int
    decreases end - i,
{
    if i >= end {
        end
    } else if !qualified_at(buf, pos - i) {
        i
    } else {
        first_unqualified(buf, pos, i + 1, end)
    }
}

/// The leap taken at cursor `pos`: zero if all windows qualify (a
/// boundary), else the number of windows that were left to check when
/// one failed — primary windows first, then the secondary pair.
pub open spec fn point_leap(buf: Seq<u8>, pos: int) -> int {
    let p = first_unqualified(buf, pos, WINDOW_SECONDARY_COUNT as int, WINDOW_COUNT as int);
    if p < WINDOW_COUNT {
        WINDOW_COUNT - p
    } else {
        let s = first_unqualified(buf, pos, 0, WINDOW_SECONDARY_COUNT as int);
        if s < WINDOW_SECONDARY_COUNT {
            WINDOW_COUNT - WINDOW_SECONDARY_COUNT - s
        } else {
            0
        }
    }
}

/// The first unqualified offset lies between `i` and `end`.
proof fn lemma_first_unqualified_range(buf: Seq<u8>, pos: int, i: int, end: int)
    requires
        i <= end,
    ensures
        i <= first_unqualified(buf, pos, i, end) <= end,
    decreases end - i,
{
    if i >= end {
    } else if !qualified_at(buf, pos - i) {
    } else {
        lemma_first_unqualified_range(buf, pos, i + 1, end);
    }
}

/// The leap is bounded by the window count and is positive exactly when
/// some window fails.
pub proof fn lemma_point_leap_range(buf: Seq<u8>, pos: int)
    ensures
        0 <= point_leap(buf, pos) <= WINDOW_PRIMARY_COUNT,
{
    lemma_first_unqualified_range(buf, pos, WINDOW_SECONDARY_COUNT as int, WINDOW_COUNT as int);
    lemma_first_unqualified_range(buf, pos, 0, WINDOW_SECONDARY_COUNT as int);
}

/// The scan from cursor `pos`: a qualifying point or a length past the
/// maximum size ends the chunk begun at `start`; otherwise the cursor
/// leaps and the scan goes on, clamped to the buffer end.
pub open spec fn leap_scan(buf: Seq<u8>, maxsz: int, start: int, pos: int) -> int
    decreases buf.len() + WINDOW_PRIMARY_COUNT - pos
    when pos <= buf.len() + WINDOW_PRIMARY_COUNT
    via leap_scan_decreases
{
    if pos >= buf.len() {
        buf.len() as int
    } else if pos - start > maxsz {
        pos
    } else if point_leap(buf, pos) == 0 {
        pos
    } else {
        leap_scan(buf, maxsz, start, pos + point_leap(buf, pos))
    }
}

#[via_fn]
proof fn leap_scan_decreases(buf: Seq<u8>, maxsz: int, start: int, pos: int) {
    lemma_point_leap_range(buf, pos);
}

/// Where the chunk that starts at `start` ends: the scan begins a
/// minimum length past the start; a cursor at or past the buffer end
/// makes the remainder the final chunk. The cut depends only on the
/// bytes from the chunk start to the buffer end, never on anything
/// before the start.
pub open spec fn leap_cut(buf: Seq<u8>, sizes: SizeParams, start: int) -> int {
    if start + sizes.min >= buf.len() {
        buf.len() as int
    } else {
        leap_scan(buf, sizes.max as int, start, start + sizes.min)
    }
}

/// The scan advances, stays inside the buffer, and overshoots the
/// maximum size by at most one primary leap.
proof fn lemma_leap_scan_bounds(buf: Seq<u8>, maxsz: int, start: int, pos: int)
    requires
        0 <= start <= pos,
        pos <= buf.len(),
        pos - start <= maxsz + WINDOW_PRIMARY_COUNT,
        maxsz >= 0,
    ensures
        pos <= leap_scan(buf, maxsz, start, pos) <= buf.len(),
        leap_scan(buf, maxsz, start, pos) - start <= maxsz + WINDOW_PRIMARY_COUNT,
    decreases buf.len() + WINDOW_PRIMARY_COUNT - pos,
{
    if pos >= buf.len() {
    } else if pos - start > maxsz {
    } else if point_leap(buf, pos) == 0 {
    } else {
        lemma_point_leap_range(buf, pos);
        let p2 = pos + point_leap(buf, pos);
        if p2 <= buf.len() {
            lemma_leap_scan_bounds(buf, maxsz, start, p2);
        } else {
            assert(leap_scan(buf, maxsz, start, p2) == buf.len());
        }
    }
}

/// Bounds of one cut: it advances past the start, stays inside the
/// buffer, and — when the scan runs — consumes at least the minimum
/// length and at most one primary leap past the maximum size.
pub proof fn lemma_leap_cut_bounds(buf: Seq<u8>, sizes: SizeParams, start: int)
    requires
        0 <= start < buf.len(),
        sizes.wf(),
        sizes.min >= 1,
    ensures
        start < leap_cut(buf, sizes, start) <= buf.len(),
        leap_cut(buf, sizes, start) - start <= sizes.max + WINDOW_PRIMARY_COUNT,
        start + sizes.min < buf.len() ==> leap_cut(buf, sizes, start) - start >= sizes.min,
{
    if start + sizes.min >= buf.len() {
    } else {
        lemma_leap_scan_bounds(buf, sizes.max as int, start, start + sizes.min);
    }
}

/// The whole pass: the chunks the chunker emits from `start` onward.
/// An empty buffer yields no chunks; otherwise the final chunk is the
/// one that reaches the buffer end.
pub open spec fn leap_chunks(buf: Seq<u8>, sizes: SizeParams, start: int) -> Seq<Chunk>
    decreases buf.len() - start
    when 0 <= start <= buf.len() <= usize::MAX && sizes.wf() && sizes.min >= 1
    via leap_chunks_decreases
{
    let cut = leap_cut(buf, sizes, start);
    if start >= buf.len() {
        Seq::empty()
    } else if cut == buf.len() {
        seq![Chunk { pos: start as usize, len: (cut - start) as usize }]
    } else {
        seq![Chunk { pos: start as usize, len: (cut - start) as usize }] + leap_chunks(
            buf,
            sizes,
            cut,
        )
    }
}

#[via_fn]
proof fn leap_chunks_decreases(buf: Seq<u8>, sizes: SizeParams, start: int) {
    if 0 <= start <= buf.len() <= usize::MAX && sizes.wf() && sizes.min >= 1 {
        if leap_cut(buf, sizes, start) != buf.len() {
            lemma_leap_cut_bounds(buf, sizes, start);
        }
    }
}

/// Partition property: every pass covers exactly `[start, buf.len())`.
pub proof fn lemma_leap_chunks_partition(buf: Seq<u8>, sizes: SizeParams, start: int)
    requires
        0 <= start <= buf.len() <= usize::MAX,
        sizes.wf(),
        sizes.min >= 1,
    ensures
        covers_range(leap_chunks(buf, sizes, start), start, buf.len() as int),
    decreases buf.len() - start,
{
    let cut = leap_cut(buf, sizes, start);
    if start >= buf.len() {
    } else if cut == buf.len() {
        lemma_leap_cut_bounds(buf, sizes, start);
    } else {
        lemma_leap_cut_bounds(buf, sizes, start);
        lemma_leap_chunks_partition(buf, sizes, cut);
        let head = Chunk { pos: start as usize, len: (cut - start) as usize };
        crate::lemma_covers_range_cons(head, leap_chunks(buf, sizes, cut), start, buf.len() as int);
    }
}

/// Bounds property: every chunk but the final one is at least the
/// minimum length, and no chunk is more than one primary leap longer
/// than the maximum size.
pub proof fn lemma_leap_chunks_len_bounds(buf: Seq<u8>, sizes: SizeParams, start: int)
    requires
        0 <= start <= buf.len() <= usize::MAX,
        sizes.wf(),
        sizes.min >= 1,
    ensures
        forall|i: int|
            0 <= i < leap_chunks(buf, sizes, start).len() ==> (#[trigger] leap_chunks(
                buf,
                sizes,
                start,
            )[i]).len <= sizes.max + WINDOW_PRIMARY_COUNT,
        forall|i: int|
            0 <= i < leap_chunks(buf, sizes, start).len() - 1 ==> (#[trigger] leap_chunks(
                buf,
                sizes,
                start,
            )[i]).len >= sizes.min,
    decreases buf.len() - start,
{
    let cut = leap_cut(buf, sizes, start);
    let cs = leap_chunks(buf, sizes, start);
    if start >= buf.len() {
    } else if cut == buf.len() {
        lemma_leap_cut_bounds(buf, sizes, start);
        assert(cs.len() == 1);
    } else {
        lemma_leap_cut_bounds(buf, sizes, start);
        lemma_leap_chunks_len_bounds(buf, sizes, cut);
        let rest = leap_chunks(buf, sizes, cut);
        assert(forall|i: int| 0 <= i < rest.len() ==> cs[i + 1] == rest[i]);
        assert(start + sizes.min < buf.len());
        assert forall|i: int| 0 <= i < cs.len() implies (#[trigger] cs[i]).len <= sizes.max
            + WINDOW_PRIMARY_COUNT by {
            if i > 0 {
                assert(cs[i] == rest[i - 1]);
            }
        }
        assert forall|i: int| 0 <= i < cs.len() - 1 implies (#[trigger] cs[i]).len
            >= sizes.min by {
            if i > 0 {
                assert(cs[i] == rest[i - 1]);
                assert(rest.len() > 1);
            }
        }
    }
}

/// Degenerate inputs: an empty buffer yields no chunks, and a
/// non-empty buffer at or below the minimum size yields exactly one
/// chunk spanning the whole buffer.
pub proof fn lemma_leap_degenerate(buf: Seq<u8>, sizes: SizeParams)
    requires
        sizes.wf(),
        sizes.min >= 1,
        buf.len() <= sizes.min,
        buf.len() <= usize::MAX,
    ensures
        buf.len() == 0 ==> leap_chunks(buf, sizes, 0) == Seq::<Chunk>::empty(),
        buf.len() > 0 ==> leap_chunks(buf, sizes, 0) == seq![
            Chunk { pos: 0, len: buf.len() as usize },
        ],
{
    if buf.len() > 0 {
        assert(leap_cut(buf, sizes, 0) == buf.len());
        assert(leap_chunks(buf, sizes, 0) =~= seq![Chunk { pos: 0, len: buf.len() as usize }]);
    }
}

/// Determinism: equal buffers and sizes give equal chunk sequences.
pub proof fn lemma_leap_deterministic(
    buf1: Seq<u8>,
    buf2: Seq<u8>,
    sizes1: SizeParams,
    sizes2: SizeParams,
)
    requires
        buf1 == buf2,
        sizes1 == sizes2,
    ensures
        leap_chunks(buf1, sizes1, 0) == leap_chunks(buf2, sizes2, 0),
{
}

/// A single forward pass over one borrowed buffer.
pub struct Chunker<'a> {
    buf: &'a [u8],
    position: usize,
    chunk_start: usize,
    has_cut: bool,
    sizes: SizeParams,
}

impl<'a> Chunker<'a> {
    /// The buffer this pass walks.
    pub closed spec fn buf_spec(self) -> Seq<u8> {
        self.buf@
    }

    /// The size parameters this pass honours.
    pub closed spec fn sizes_spec(self) -> SizeParams {
        self.sizes
    }

    /// Offset where the next chunk will begin.
    pub closed spec fn start_spec(self) -> int {
        self.chunk_start as int
    }

    /// The pass has emitted its final chunk.
    pub closed spec fn exhausted(self) -> bool {
        self.has_cut
    }

    /// Between pulls the cursor rests a minimum length past the chunk
    /// start until the final chunk is out. The size floor keeps every
    /// lookback window inside the consumed part of the chunk, and the
    /// headroom requirement keeps cursor arithmetic from overflowing.
    pub closed spec fn wf(self) -> bool {
        &&& self.chunk_start <= self.buf@.len()
        &&& (!self.has_cut ==> self.position == self.chunk_start + self.sizes.min)
        &&& (self.has_cut ==> self.position == self.buf@.len())
        &&& self.sizes.wf()
        &&& self.sizes.min >= MIN_FLOOR
        &&& self.buf@.len() + self.sizes.min <= usize::MAX
    }

    /// Historically tuned default sizes for this variant.
    pub fn default_sizes() -> (s: SizeParams)
        ensures
            s.min == MIN_CHUNK_SIZE,
            s.avg == (MIN_CHUNK_SIZE + MAX_CHUNK_SIZE) / 2,
            s.max == MAX_CHUNK_SIZE,
            s.wf(),
    {
        SizeParams {
            min: MIN_CHUNK_SIZE,
            avg: (MAX_CHUNK_SIZE + MIN_CHUNK_SIZE) / 2,
            max: MAX_CHUNK_SIZE,
        }
    }

    /// Borrows the buffer for one pass. The minimum size must leave
    /// room for every lookback window; the headroom requirement keeps
    /// cursor arithmetic from overflowing.
    pub fn new(buf: &'a [u8], sizes: SizeParams) -> (c: Chunker<'a>)
        requires
            sizes.wf(),
            sizes.min >= MIN_FLOOR,
            buf@.len() + sizes.min <= usize::MAX,
        ensures
            c.wf(),
            c.buf_spec() == buf@,
            c.sizes_spec() == sizes,
            c.start_spec() == 0,
            !c.exhausted(),
    {
        Chunker { buf, position: sizes.min, chunk_start: 0, has_cut: false, sizes }
    }

    /// One five-sample test of a window against the trained table.
    fn is_window_qualified(&self, window: &[u8]) -> (r: bool)
        requires
            window@.len() == WINDOW_SIZE,
        ensures
            r == window_qualified(window@),
    {
        let mut acc: u8 = 0;
        let mut index: usize = 0;
        while index < 5
            invariant
                index <= 5,
                window@.len() == WINDOW_SIZE,
                acc == window_fold(window@, index as nat),
            decreases 5 - index,
        {
            let byte: u8 = window[WINDOW_SIZE - 1 - index * WINDOW_MATRIX_SHIFT];
            acc = acc ^ ef_lookup(byte, index);
            index = index + 1;
        }
        acc != 0
    }

    /// Checks the primary then the secondary windows behind the cursor;
    /// on the first failure reports how far the cursor may leap.
    fn is_point_satisfied(&self) -> (r: PointStatus)
        requires
            self.position >= MIN_FLOOR,
            self.position <= self.buf@.len(),
        ensures
            ({
                let leap = point_leap(self.buf@, self.position as int);
                match r {
                    PointStatus::Satisfied => leap == 0,
                    PointStatus::Unsatisfied(l) => l == leap && leap > 0,
                }
            }),
    {
        let ghost buf: Seq<u8> = self.buf@;
        let ghost pos: int = self.position as int;
        let mut i: usize = WINDOW_SECONDARY_COUNT;
        while i < WINDOW_COUNT
            invariant
                WINDOW_SECONDARY_COUNT <= i <= WINDOW_COUNT,
                first_unqualified(buf, pos, WINDOW_SECONDARY_COUNT as int, WINDOW_COUNT as int)
                    == first_unqualified(buf, pos, i as int, WINDOW_COUNT as int),
            decreases WINDOW_COUNT - i,
        {
            let window: &[u8] = slice_subrange(
                self.buf,
                self.position - i - WINDOW_SIZE,
                self.position - i,
            );
            if !self.is_window_qualified(window) {
                let leap: usize = WINDOW_COUNT - i;
                return PointStatus::Unsatisfied(leap);
            }
            i = i + 1;
        }

        let mut j: usize = 0;
        while j < WINDOW_SECONDARY_COUNT
            invariant
                j <= WINDOW_SECONDARY_COUNT,
                first_unqualified(buf, pos, WINDOW_SECONDARY_COUNT as int, WINDOW_COUNT as int)
                    == WINDOW_COUNT,
                first_unqualified(buf, pos, 0, WINDOW_SECONDARY_COUNT as int)
                    == first_unqualified(buf, pos, j as int, WINDOW_SECONDARY_COUNT as int),
            decreases WINDOW_SECONDARY_COUNT - j,
        {
            let window: &[u8] = slice_subrange(
                self.buf,
                self.position - j - WINDOW_SIZE,
                self.position - j,
            );
            if !self.is_window_qualified(window) {
                let leap: usize = WINDOW_COUNT - WINDOW_SECONDARY_COUNT - j;
                return PointStatus::Unsatisfied(leap);
            }
            j = j + 1;
        }

        PointStatus::Satisfied
    }

    /// Pulls the next chunk, or nothing once the final chunk is out.
    /// The result is pinned to the spec-level cut.
    pub fn next_chunk(&mut self) -> (r: Option<Chunk>)
        requires
            old(self).wf(),
        ensures
            final(self).wf(),
            final(self).buf_spec() == old(self).buf_spec(),
            final(self).sizes_spec() == old(self).sizes_spec(),
            old(self).exhausted() ==> r is None && final(self).exhausted(),
            !old(self).exhausted() && old(self).buf_spec().len() == 0 ==> r is None && final(self).exhausted(),
            !old(self).exhausted() && old(self).buf_spec().len() > 0 ==> {
                let cut = leap_cut(
                    old(self).buf_spec(),
                    old(self).sizes_spec(),
                    old(self).start_spec(),
                );
                &&& r == Some(
                    Chunk {
                        pos: old(self).start_spec() as usize,
                        len: (cut - old(self).start_spec()) as usize,
                    },
                )
                &&& (cut == old(self).buf_spec().len() ==> final(self).exhausted())
                &&& (cut < old(self).buf_spec().len() ==> !final(self).exhausted() && final(self).start_spec() == cut)
            },
    {
        let ghost buf: Seq<u8> = self.buf@;
        let ghost start: int = self.chunk_start as int;
        let ghost sizes: SizeParams = self.sizes;
        proof {
            if start < buf.len() {
                lemma_leap_cut_bounds(buf, sizes, start);
            }
        }
        if self.buf.len() == 0 {
            self.position = 0;
            self.has_cut = true;
            return None;
        }
        if self.position == self.buf.len() {
            return if self.has_cut {
                None
            } else {
                self.has_cut = true;
                let chunk = Chunk::new(self.chunk_start, self.position - self.chunk_start);
                Some(chunk)
            };
        }
        while self.position < self.buf.len()
            invariant
                !self.has_cut,
                self.buf == old(self).buf,
                self.sizes == old(self).sizes,
                self.chunk_start == start,
                self.chunk_start + self.sizes.min <= self.position,
                self.position - start <= self.sizes.max + WINDOW_PRIMARY_COUNT,
                self.position <= buf.len() ==> leap_cut(buf, sizes, start) == leap_scan(
                    buf,
                    sizes.max as int,
                    start,
                    self.position as int,
                ),
                self.position > buf.len() ==> leap_cut(buf, sizes, start) == buf.len(),
                self.position <= buf.len() + sizes.min,
            decreases buf.len() + sizes.min - self.position,
        {
            if self.position - self.chunk_start > self.sizes.max {
                let pos: usize = self.chunk_start;
                let len: usize = self.position - self.chunk_start;

                self.chunk_start = self.position;
                self.position = self.position + self.sizes.min;

                return Some(Chunk::new(pos, len));
            } else {
                match self.is_point_satisfied() {
                    PointStatus::Satisfied => {
                        let pos: usize = self.chunk_start;
                        let len: usize = self.position - self.chunk_start;

                        self.chunk_start = self.position;
                        self.position = self.position + self.sizes.min;

                        return Some(Chunk::new(pos, len));
                    },
                    PointStatus::Unsatisfied(leap) => {
                        proof {
                            lemma_point_leap_range(self.buf@, self.position as int);
                            let p2 = self.position + point_leap(buf, self.position as int);
                            if p2 > buf.len() {
                                assert(leap_scan(buf, sizes.max as int, start, p2) == buf.len());
                            }
                        }
                        self.position = self.position + leap;
                    },
                }
            }
        }

        self.position = self.buf.len();
        self.has_cut = true;
        Some(Chunk::new(self.chunk_start, self.position - self.chunk_start))
    }

    /// Drives the pass to exhaustion. The collected chunks are exactly
    /// the spec-level chunk sequence, hence a partition of the buffer.
    pub fn chunk_all(&mut self) -> (chunks: Vec<Chunk>)
        requires
            old(self).wf(),
            old(self).start_spec() == 0,
            !old(self).exhausted(),
        ensures
            chunks@ == leap_chunks(old(self).buf_spec(), old(self).sizes_spec(), 0),
            crate::is_partition(chunks@, old(self).buf_spec().len() as int),
    {
        let ghost buf: Seq<u8> = self.buf_spec();
        let ghost sizes: SizeParams = self.sizes_spec();
        let mut chunks: Vec<Chunk> = Vec::new();
        let mut done: bool = false;
        while !done
            invariant
                self.wf(),
                self.buf_spec() == buf,
                self.sizes_spec() == sizes,
                done == self.exhausted(),
                0 <= self.start_spec() <= buf.len(),
                !done ==> self.start_spec() < buf.len() || buf.len() == 0,
                !done ==> leap_chunks(buf, sizes, 0) == chunks@ + leap_chunks(
                    buf,
                    sizes,
                    self.start_spec(),
                ),
                done ==> leap_chunks(buf, sizes, 0) == chunks@,
            decreases (if done {
                0int
            } else {
                buf.len() - self.start_spec() + 1
            }),
        {
            let ghost start: int = self.start_spec();
            match self.next_chunk() {
                Some(c) => {
                    proof {
                        let cut = leap_cut(buf, sizes, start);
                        if start < buf.len() {
                            lemma_leap_cut_bounds(buf, sizes, start);
                        }
                        if cut == buf.len() {
                            assert(leap_chunks(buf, sizes, start) == seq![c]);
                            assert(chunks@.push(c) =~= chunks@ + seq![c]);
                        } else {
                            assert(leap_chunks(buf, sizes, start) == seq![c] + leap_chunks(
                                buf,
                                sizes,
                                cut,
                            ));
                            assert(chunks@.push(c) + leap_chunks(buf, sizes, cut) =~= chunks@ + (
                            seq![c] + leap_chunks(buf, sizes, cut)));
                        }
                    }
                    chunks.push(c);
                    done = self.is_done();
                },
                None => {
                    proof {
                        assert(buf.len() == 0);
                        assert(leap_chunks(buf, sizes, 0) =~= Seq::<Chunk>::empty());
                    }
                    done = true;
                },
            }
        }
        proof {
            lemma_leap_chunks_partition(buf, sizes, 0);
        }
        chunks
    }

    /// Whether the final chunk has been emitted.
    fn is_done(&self) -> (r: bool)
        ensures
            r == self.exhausted(),
    {
        self.has_cut
    }
}

} // verus!
