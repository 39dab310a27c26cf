//! Asymmetric-extremum chunker: a boundary is declared once the cursor
//! has advanced a full lookback window past the position of the running
//! maximum byte value without a new maximum appearing. A forced
//! boundary fires when the chunk length exceeds the maximum size.

use crate::{covers_range, Chunk, SizeParams};
use vstd::prelude::*;

verus! {

/// Lookback window width.
pub const AE_WINDOW: usize = 32;

pub const MIN_CHUNK_SIZE: usize = 8192;

pub const MAX_CHUNK_SIZE: usize = 16384;

/// One step of the scan: from cursor `pos`, with running maximum `maxv`
/// last updated at `maxp`, the offset at which the chunk begun at
/// `start` ends.
pub open spec fn ae_scan(buf: Seq<u8>, maxsz: int, start: int, pos: int, maxv: u8, maxp: int) -> int
    decreases buf.len() - pos
    when pos <= buf.len()
{
    if pos >= buf.len() {
        buf.len() as int
    } else if pos - start > maxsz {
        pos
    } else if buf[pos] < maxv {
        if pos == maxp + AE_WINDOW {
            pos
        } else {
            ae_scan(buf, maxsz, start, pos + 1, maxv, maxp)
        }
    } else {
        ae_scan(buf, maxsz, start, pos + 1, buf[pos], pos)
    }
}

/// Where the chunk that starts at `start` ends: if fewer than `min`
/// bytes remain, the remainder is the final chunk; otherwise the scan
/// decides, seeded with the byte just after the chunk start.
pub open spec fn ae_cut(buf: Seq<u8>, sizes: SizeParams, start: int) -> int {
    if buf.len() - start < sizes.min {
        buf.len() as int
    } else {
        ae_scan(buf, sizes.max as int, start, start + 1, buf[start + 1], start + 1)
    }
}

/// The scan never stops before the cursor nor after the buffer, and a
/// forced boundary caps the chunk one byte past the maximum size.
proof fn lemma_ae_scan_bounds(buf: Seq<u8>, maxsz: int, start: int, pos: int, maxv: u8, maxp: int)
    requires
        start <= pos <= buf.len(),
        pos - start <= maxsz + 1,
        maxsz >= 0,
    ensures
        pos <= ae_scan(buf, maxsz, start, pos, maxv, maxp) <= buf.len(),
        ae_scan(buf, maxsz, start, pos, maxv, maxp) - start <= maxsz + 1,
    decreases buf.len() - pos,
{
    if pos >= buf.len() {
    } else if pos - start > maxsz {
    } else if buf[pos] < maxv {
        if pos == maxp + AE_WINDOW {
        } else {
            lemma_ae_scan_bounds(buf, maxsz, start, pos + 1, maxv, maxp);
        }
    } else {
        lemma_ae_scan_bounds(buf, maxsz, start, pos + 1, buf[pos], pos);
    }
}

/// Bounds of one cut: it advances, it stays inside the buffer, and the
/// chunk it closes is at most one byte longer than the maximum size.
pub proof fn lemma_ae_cut_bounds(buf: Seq<u8>, sizes: SizeParams, start: int)
    requires
        0 <= start < buf.len(),
        sizes.wf(),
        sizes.min >= 2,
    ensures
        start < ae_cut(buf, sizes, start) <= buf.len(),
        ae_cut(buf, sizes, start) - start <= sizes.max + 1,
{
    if buf.len() - start < sizes.min {
    } else {
        lemma_ae_scan_bounds(buf, sizes.max as int, start, start + 1, buf[start + 1], start + 1);
    }
}

/// The whole pass: the chunks the chunker emits from `start` to the end
/// of the buffer, in order.
pub open spec fn ae_chunks(buf: Seq<u8>, sizes: SizeParams, start: int) -> Seq<Chunk>
    decreases buf.len() - start
    when 0 <= start <= buf.len() <= usize::MAX && sizes.wf() && sizes.min >= 2
    via ae_chunks_decreases
{
    if start >= buf.len() {
        Seq::empty()
    } else {
        let cut = ae_cut(buf, sizes, start);
        seq![Chunk { pos: start as usize, len: (cut - start) as usize }] + ae_chunks(
            buf,
            sizes,
            cut,
        )
    }
}

#[via_fn]
proof fn ae_chunks_decreases(buf: Seq<u8>, sizes: SizeParams, start: int) {
    if 0 <= start < buf.len() && buf.len() <= usize::MAX && sizes.wf() && sizes.min >= 2 {
        lemma_ae_cut_bounds(buf, sizes, start);
    }
}

/// Partition property: every pass yields a contiguous run of chunks
/// covering exactly `[start, buf.len())`.
pub proof fn lemma_ae_chunks_partition(buf: Seq<u8>, sizes: SizeParams, start: int)
    requires
        0 <= start <= buf.len() <= usize::MAX,
        sizes.wf(),
        sizes.min >= 2,
    ensures
        covers_range(ae_chunks(buf, sizes, start), start, buf.len() as int),
    decreases buf.len() - start,
{
    if start >= buf.len() {
    } else {
        let cut = ae_cut(buf, sizes, start);
        lemma_ae_cut_bounds(buf, sizes, start);
        lemma_ae_chunks_partition(buf, sizes, cut);
        let head = Chunk { pos: start as usize, len: (cut - start) as usize };
        crate::lemma_covers_range_cons(head, ae_chunks(buf, sizes, cut), start, buf.len() as int);
    }
}

/// Bounds property: no chunk is empty, and none is more than one byte
/// longer than the maximum size (the forced boundary fires only once
/// the chunk length exceeds it).
pub proof fn lemma_ae_chunks_len_bounds(buf: Seq<u8>, sizes: SizeParams, start: int)
    requires
        0 <= start <= buf.len() <= usize::MAX,
        sizes.wf(),
        sizes.min >= 2,
    ensures
        forall|i: int|
            0 <= i < ae_chunks(buf, sizes, start).len() ==> 1 <= (#[trigger] ae_chunks(
                buf,
                sizes,
                start,
            )[i]).len <= sizes.max + 1,
    decreases buf.len() - start,
{
    if start >= buf.len() {
    } else {
        let cut = ae_cut(buf, sizes, start);
        lemma_ae_cut_bounds(buf, sizes, start);
        lemma_ae_chunks_len_bounds(buf, sizes, cut);
        let cs = ae_chunks(buf, sizes, start);
        let rest = ae_chunks(buf, sizes, cut);
        assert(forall|i: int| 0 <= i < rest.len() ==> cs[i + 1] == rest[i]);
        assert forall|i: int| 0 <= i < cs.len() implies 1 <= (#[trigger] cs[i]).len <= sizes.max
            + 1 by {
            if i > 0 {
                assert(cs[i] == rest[i - 1]);
                assert(1 <= rest[i - 1].len <= sizes.max + 1);
            }
        }
    }
}

/// Degenerate inputs: an empty buffer yields no chunks, and a non-empty
/// buffer shorter than the minimum size yields exactly one chunk
/// spanning the whole buffer.
pub proof fn lemma_ae_degenerate(buf: Seq<u8>, sizes: SizeParams)
    requires
        sizes.wf(),
        sizes.min >= 2,
        buf.len() < sizes.min,
        buf.len() <= usize::MAX,
    ensures
        buf.len() == 0 ==> ae_chunks(buf, sizes, 0) == Seq::<Chunk>::empty(),
        buf.len() > 0 ==> ae_chunks(buf, sizes, 0) == seq![
            Chunk { pos: 0, len: buf.len() as usize },
        ],
{
    if buf.len() > 0 {
        assert(ae_cut(buf, sizes, 0) == buf.len());
        assert(ae_chunks(buf, sizes, buf.len() as int) =~= Seq::<Chunk>::empty());
        assert(ae_chunks(buf, sizes, 0) =~= seq![Chunk { pos: 0, len: buf.len() as usize }]);
    }
}

/// Determinism: the chunk sequence is a function of the buffer and the
/// size parameters alone; equal inputs give equal chunk sequences.
pub proof fn lemma_ae_deterministic(
    buf1: Seq<u8>,
    buf2: Seq<u8>,
    sizes1: SizeParams,
    sizes2: SizeParams,
)
    requires
        buf1 == buf2,
        sizes1 == sizes2,
    ensures
        ae_chunks(buf1, sizes1, 0) == ae_chunks(buf2, sizes2, 0),
{
}

/// A cut depends only on the bytes from the chunk start to the end of
/// the buffer: two buffers that agree from `s1` and `s2` onward are cut
/// at the same distance from those starts.
pub proof fn lemma_ae_cut_local(buf1: Seq<u8>, s1: int, buf2: Seq<u8>, s2: int, sizes: SizeParams)
    requires
        0 <= s1 <= buf1.len(),
        0 <= s2 <= buf2.len(),
        buf1.subrange(s1, buf1.len() as int) == buf2.subrange(s2, buf2.len() as int),
        sizes.wf(),
        sizes.min >= 2,
    ensures
        ae_cut(buf1, sizes, s1) - s1 == ae_cut(buf2, sizes, s2) - s2,
{
    assert(buf1.subrange(s1, buf1.len() as int).len() == buf1.len() - s1);
    assert(buf2.subrange(s2, buf2.len() as int).len() == buf2.len() - s2);
    assert(buf1.len() - s1 == buf2.len() - s2);
    if buf1.len() - s1 < sizes.min {
    } else {
        assert(buf1[s1 + 1] == buf1.subrange(s1, buf1.len() as int)[1]);
        assert(buf2[s2 + 1] == buf2.subrange(s2, buf2.len() as int)[1]);
        lemma_ae_scan_local(buf1, s1, buf2, s2, sizes.max as int, s1 + 1, buf1[s1 + 1], s1 + 1);
    }
}

/// The scan shifted: matching states over a shared suffix stay matched.
proof fn lemma_ae_scan_local(
    buf1: Seq<u8>,
    s1: int,
    buf2: Seq<u8>,
    s2: int,
    maxsz: int,
    pos: int,
    maxv: u8,
    maxp: int,
)
    requires
        0 <= s1 <= pos <= buf1.len(),
        0 <= s2 <= buf2.len(),
        buf1.subrange(s1, buf1.len() as int) == buf2.subrange(s2, buf2.len() as int),
        s1 <= maxp,
    ensures
        ae_scan(buf1, maxsz, s1, pos, maxv, maxp) - s1 == ae_scan(
            buf2,
            maxsz,
            s2,
            pos - s1 + s2,
            maxv,
            maxp - s1 + s2,
        ) - s2,
    decreases buf1.len() - pos,
{
    assert(buf1.subrange(s1, buf1.len() as int).len() == buf1.len() - s1);
    assert(buf2.subrange(s2, buf2.len() as int).len() == buf2.len() - s2);
    assert(buf1.len() - s1 == buf2.len() - s2);
    let pos2 = pos - s1 + s2;
    if pos >= buf1.len() {
    } else {
        assert(buf1[pos] == buf1.subrange(s1, buf1.len() as int)[pos - s1]);
        assert(buf2[pos2] == buf2.subrange(s2, buf2.len() as int)[pos - s1]);
        if pos - s1 > maxsz {
        } else if buf1[pos] < maxv {
            if pos == maxp + AE_WINDOW {
            } else {
                lemma_ae_scan_local(buf1, s1, buf2, s2, maxsz, pos + 1, maxv, maxp);
            }
        } else {
            lemma_ae_scan_local(buf1, s1, buf2, s2, maxsz, pos + 1, buf1[pos], pos);
        }
    }
}

/// Content sensitivity: the tail of a pass depends only on the bytes
/// from its start onward. Two buffers that agree from some chunk start
/// onward produce the same chunk lengths from there, so an edit cannot
/// move boundaries beyond the chunk in which the shared suffix begins.
pub proof fn lemma_ae_chunks_local(
    buf1: Seq<u8>,
    s1: int,
    buf2: Seq<u8>,
    s2: int,
    sizes: SizeParams,
)
    requires
        0 <= s1 <= buf1.len() <= usize::MAX,
        0 <= s2 <= buf2.len() <= usize::MAX,
        buf1.subrange(s1, buf1.len() as int) == buf2.subrange(s2, buf2.len() as int),
        sizes.wf(),
        sizes.min >= 2,
    ensures
        ae_chunks(buf1, sizes, s1).map_values(|c: Chunk| c.len) == ae_chunks(
            buf2,
            sizes,
            s2,
        ).map_values(|c: Chunk| c.len),
    decreases buf1.len() - s1,
{
    assert(buf1.subrange(s1, buf1.len() as int).len() == buf1.len() - s1);
    assert(buf2.subrange(s2, buf2.len() as int).len() == buf2.len() - s2);
    assert(buf1.len() - s1 == buf2.len() - s2);
    if s1 >= buf1.len() {
        assert(ae_chunks(buf1, sizes, s1).map_values(|c: Chunk| c.len) =~= ae_chunks(
            buf2,
            sizes,
            s2,
        ).map_values(|c: Chunk| c.len));
    } else {
        let cut1 = ae_cut(buf1, sizes, s1);
        let cut2 = ae_cut(buf2, sizes, s2);
        lemma_ae_cut_local(buf1, s1, buf2, s2, sizes);
        lemma_ae_cut_bounds(buf1, sizes, s1);
        lemma_ae_cut_bounds(buf2, sizes, s2);
        assert(buf1.subrange(cut1, buf1.len() as int) =~= buf2.subrange(
            cut2,
            buf2.len() as int,
        )) by {
            assert forall|i: int| 0 <= i < buf1.len() - cut1 implies buf1.subrange(
                cut1,
                buf1.len() as int,
            )[i] == buf2.subrange(cut2, buf2.len() as int)[i] by {
                assert(buf1[cut1 + i] == buf1.subrange(s1, buf1.len() as int)[cut1 - s1 + i]);
                assert(buf2[cut2 + i] == buf2.subrange(s2, buf2.len() as int)[cut1 - s1 + i]);
            }
        }
        lemma_ae_chunks_local(buf1, cut1, buf2, cut2, sizes);
        let cs1 = ae_chunks(buf1, sizes, s1);
        let cs2 = ae_chunks(buf2, sizes, s2);
        let rest1 = ae_chunks(buf1, sizes, cut1);
        let rest2 = ae_chunks(buf2, sizes, cut2);
        let head1 = Chunk { pos: s1 as usize, len: (cut1 - s1) as usize };
        let head2 = Chunk { pos: s2 as usize, len: (cut2 - s2) as usize };
        assert(cs1 == seq![head1] + rest1);
        assert(cs2 == seq![head2] + rest2);
        let m1 = cs1.map_values(|c: Chunk| c.len);
        let m2 = cs2.map_values(|c: Chunk| c.len);
        let r1 = rest1.map_values(|c: Chunk| c.len);
        let r2 = rest2.map_values(|c: Chunk| c.len);
        assert(r1 == r2);
        assert(m1 =~= m2) by {
            assert(m1.len() == cs1.len() == 1 + rest1.len());
            assert(m2.len() == cs2.len() == 1 + rest2.len());
            assert(r1.len() == rest1.len() && r2.len() == rest2.len());
            assert forall|i: int| 0 <= i < m1.len() implies m1[i] == m2[i] by {
                if i == 0 {
                    assert(m1[0] == head1.len && m2[0] == head2.len);
                } else {
                    assert(cs1[i] == rest1[i - 1] && cs2[i] == rest2[i - 1]);
                    assert(m1[i] == cs1[i].len && m2[i] == cs2[i].len);
                    assert(r1[i - 1] == rest1[i - 1].len && r2[i - 1] == rest2[i - 1].len);
                }
            }
        }
        assert(ae_chunks(buf1, sizes, s1).map_values(|c: Chunk| c.len) == m1);
        assert(ae_chunks(buf2, sizes, s2).map_values(|c: Chunk| c.len) == m2);
    }
}

/// A single forward pass over one borrowed buffer.
pub struct Chunker<'a> {
    buf: &'a [u8],
    len: usize,
    pos: usize,
    chunk_start: usize,
    sizes: SizeParams,
    max_value: u8,
    max_position: usize,
    window_size: usize,
}

impl<'a> Chunker<'a> {
    /// The buffer this pass walks.
    pub closed spec fn buf_spec(self) -> Seq<u8> {
        self.buf@
    }

    /// The size parameters this pass honours.
    pub closed spec fn sizes_spec(self) -> SizeParams {
        self.sizes
    }

    /// Offset where the next chunk will begin.
    pub closed spec fn start_spec(self) -> int {
        self.chunk_start as int
    }

    /// Cursor position; equals the chunk start between pulls.
    closed spec fn pos_spec(self) -> int {
        self.pos as int
    }

    /// The state during a scan: the cursor may run ahead of the chunk
    /// start but stays inside the buffer. The size floor keeps the seed
    /// byte of each scan in bounds; the length headroom keeps the
    /// window arithmetic from overflowing.
    closed spec fn wf_scan(self) -> bool {
        &&& self.len == self.buf@.len()
        &&& self.chunk_start <= self.pos <= self.len
        &&& self.window_size == AE_WINDOW
        &&& self.sizes.wf()
        &&& self.sizes.min >= 2
        &&& self.len <= usize::MAX - AE_WINDOW
    }

    /// Between pulls the cursor rests on the chunk start.
    pub closed spec fn wf(self) -> bool {
        &&& self.wf_scan()
        &&& self.pos == self.chunk_start
    }

    /// Historically tuned default sizes for this variant.
    pub fn default_sizes() -> (s: SizeParams)
        ensures
            s.min == MIN_CHUNK_SIZE,
            s.avg == (MIN_CHUNK_SIZE + MAX_CHUNK_SIZE) / 2,
            s.max == MAX_CHUNK_SIZE,
            s.wf(),
    {
        SizeParams {
            min: MIN_CHUNK_SIZE,
            avg: (MAX_CHUNK_SIZE + MIN_CHUNK_SIZE) / 2,
            max: MAX_CHUNK_SIZE,
        }
    }

    /// Borrows the buffer for one pass. `min >= 2` keeps the scan's
    /// seed byte in bounds; the length headroom keeps window positions
    /// from overflowing.
    pub fn new(buf: &'a [u8], sizes: SizeParams) -> (c: Chunker<'a>)
        requires
            sizes.wf(),
            sizes.min >= 2,
            buf@.len() <= usize::MAX - AE_WINDOW,
        ensures
            c.wf(),
            c.buf_spec() == buf@,
            c.sizes_spec() == sizes,
            c.start_spec() == 0,
    {
        Chunker {
            buf,
            len: buf.len(),
            pos: 0,
            chunk_start: 0,
            sizes,
            max_value: 0,
            max_position: 0,
            window_size: AE_WINDOW,
        }
    }

    /// Advances the cursor to the end of the current chunk and returns
    /// that offset, or nothing once the buffer is exhausted.
    fn find_border(&mut self) -> (r: Option<usize>)
        requires
            old(self).wf(),
        ensures
            final(self).wf_scan(),
            final(self).buf_spec() == old(self).buf_spec(),
            final(self).sizes_spec() == old(self).sizes_spec(),
            final(self).start_spec() == old(self).start_spec(),
            old(self).start_spec() == old(self).buf_spec().len() ==> r is None && final(self).pos_spec() == old(self).pos_spec(),
            old(self).start_spec() < old(self).buf_spec().len() ==> {
                let cut = ae_cut(
                    old(self).buf_spec(),
                    old(self).sizes_spec(),
                    old(self).start_spec(),
                );
                r == Some(cut as usize) && final(self).pos_spec() == cut
            },
    {
        if self.len == self.pos {
            return None;
        }
        proof {
            lemma_ae_cut_bounds(self.buf@, self.sizes, self.pos as int);
        }
        if self.len - self.pos < self.sizes.min {
            self.pos = self.len;
            return Some(self.pos);
        }

        let ghost start: int = self.pos as int;
        self.pos = self.pos + 1;
        self.max_value = self.buf[self.pos];
        self.max_position = self.pos;

        let ghost target: int = ae_scan(
            self.buf@,
            self.sizes.max as int,
            start,
            self.pos as int,
            self.max_value,
            self.max_position as int,
        );
        assert(target == ae_cut(self.buf@, self.sizes, start));

        while self.pos < self.len
            invariant
                self.wf_scan(),
                self.buf == old(self).buf,
                self.sizes == old(self).sizes,
                self.len == old(self).len,
                self.chunk_start == start,
                start < self.max_position <= self.pos,
                self.pos - start <= self.sizes.max + 1,
                target == ae_scan(
                    self.buf@,
                    self.sizes.max as int,
                    start,
                    self.pos as int,
                    self.max_value,
                    self.max_position as int,
                ),
            decreases self.len - self.pos,
        {
            if self.pos - self.chunk_start > self.sizes.max {
                assert(self.pos == target);
                return Some(self.pos);
            }

            if self.buf[self.pos] < self.max_value {
                if self.pos == self.max_position + self.window_size {
                    assert(self.pos == target);
                    return Some(self.pos);
                }
            } else {
                self.max_value = self.buf[self.pos];
                self.max_position = self.pos;
            }

            self.pos = self.pos + 1;
        }

        Some(self.pos)
    }

    /// Pulls the next chunk, or nothing once the buffer is exhausted.
    /// The result is pinned to the spec-level cut: the chunk begins at
    /// the current chunk start and ends at `ae_cut`.
    pub fn next_chunk(&mut self) -> (r: Option<Chunk>)
        requires
            old(self).wf(),
        ensures
            final(self).wf(),
            final(self).buf_spec() == old(self).buf_spec(),
            final(self).sizes_spec() == old(self).sizes_spec(),
            old(self).start_spec() == old(self).buf_spec().len() ==> r is None && final(self).start_spec() == old(self).start_spec(),
            old(self).start_spec() < old(self).buf_spec().len() ==> {
                let cut = ae_cut(
                    old(self).buf_spec(),
                    old(self).sizes_spec(),
                    old(self).start_spec(),
                );
                r == Some(
                    Chunk {
                        pos: old(self).start_spec() as usize,
                        len: (cut - old(self).start_spec()) as usize,
                    },
                ) && final(self).start_spec() == cut
            },
    {
        let next_pos: usize = match self.find_border() {
            Some(p) => p,
            None => {
                return None;
            },
        };

        let start: usize = self.chunk_start;
        let length: usize = next_pos - self.chunk_start;
        self.chunk_start = next_pos;

        Some(Chunk::new(start, length))
    }

    /// Drives the pass to exhaustion. The collected chunks are exactly
    /// the spec-level chunk sequence, hence a partition of the buffer.
    pub fn chunk_all(&mut self) -> (chunks: Vec<Chunk>)
        requires
            old(self).wf(),
            old(self).start_spec() == 0,
        ensures
            chunks@ == ae_chunks(old(self).buf_spec(), old(self).sizes_spec(), 0),
            crate::is_partition(chunks@, old(self).buf_spec().len() as int),
    {
        let ghost buf: Seq<u8> = self.buf_spec();
        let ghost sizes: SizeParams = self.sizes_spec();
        let mut chunks: Vec<Chunk> = Vec::new();
        while self.chunk_start < self.len
            invariant
                self.wf(),
                self.buf_spec() == buf,
                self.sizes_spec() == sizes,
                0 <= self.start_spec() <= buf.len(),
                ae_chunks(buf, sizes, 0) == chunks@ + ae_chunks(buf, sizes, self.start_spec()),
            decreases buf.len() - self.start_spec(),
        {
            let ghost start: int = self.start_spec();
            match self.next_chunk() {
                Some(c) => {
                    proof {
                        lemma_ae_cut_bounds(buf, sizes, start);
                        let cut = ae_cut(buf, sizes, start);
                        assert(ae_chunks(buf, sizes, start) == seq![c] + ae_chunks(
                            buf,
                            sizes,
                            cut,
                        ));
                        assert(chunks@.push(c) + ae_chunks(buf, sizes, cut) =~= chunks@ + (seq![c]
                            + ae_chunks(buf, sizes, cut)));
                    }
                    chunks.push(c);
                },
                None => {
                    proof {
                        assert(false);
                    }
                },
            }
        }
        proof {
            assert(ae_chunks(buf, sizes, buf.len() as int) =~= Seq::<Chunk>::empty());
            assert(chunks@ + Seq::<Chunk>::empty() =~= chunks@);
            lemma_ae_chunks_partition(buf, sizes, 0);
        }
        chunks
    }
}

} // verus!
