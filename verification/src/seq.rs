//! Monotonic-run-length chunker: after consuming the minimum length
//! unconditionally, each new byte is compared to its predecessor. A run
//! of strictly monotonic comparisons of a configured length declares a
//! boundary; a configured number of opposing comparisons triggers a
//! fixed-size skip ahead; a forced boundary fires at the maximum size.

use crate::{covers_range, Chunk, SizeParams};
use vstd::prelude::*;

verus! {

/// Whether a run is built from increasing or decreasing byte values.
#[derive(Clone, Copy, Debug, PartialEq, Eq, Structural)]
pub enum OperationMode {
    Increasing,
    Decreasing,
}

/// Tuning parameters of the run-length scan.
#[derive(Clone, Copy, Debug, PartialEq, Eq, Structural)]
pub struct Config {
    pub sequence_length: usize,
    pub skip_trigger: usize,
    pub skip_size: usize,
}

impl Config {
    pub fn new(sequence_length: usize, skip_trigger: usize, skip_size: usize) -> (c: Config)
        ensures
            c == (Config { sequence_length, skip_trigger, skip_size }),
    {
        Config { sequence_length, skip_trigger, skip_size }
    }
}

impl Default for Config {
    /// The historically tuned defaults.
    fn default() -> (c: Config)
        ensures
            c == (Config { sequence_length: 5usize, skip_trigger: 55usize, skip_size: 256usize }),
    {
        Config { sequence_length: 5, skip_trigger: 55, skip_size: 256 }
    }
}

/// Does the byte pair extend the monotonic run?
pub open spec fn run_step(mode: OperationMode, prev: u8, cur: u8) -> bool {
    match mode {
        OperationMode::Increasing => cur > prev,
        OperationMode::Decreasing => cur < prev,
    }
}

/// Does the byte pair slope against the run?
pub open spec fn opp_step(mode: OperationMode, prev: u8, cur: u8) -> bool {
    match mode {
        OperationMode::Increasing => cur < prev,
        OperationMode::Decreasing => cur > prev,
    }
}

/// One step of the scan: from cursor `pos` with the current run length
/// and opposing-slope count, the length of the chunk begun at `start`.
/// Equal bytes are a no-op; a completed run cuts; a filled opposing
/// count jumps the cursor by the skip size; leaving the buffer or
/// passing the maximum size ends the chunk, clamped to the buffer.
pub open spec fn seq_scan(
    buf: Seq<u8>,
    mode: OperationMode,
    cfg: Config,
    maxsz: int,
    start: int,
    pos: int,
    runlen: int,
    opp: int,
) -> int
    decreases buf.len() + cfg.skip_size + 1 - pos
    when pos <= buf.len() + cfg.skip_size + 1
{
    if pos >= buf.len() || pos - start >= maxsz {
        if pos > buf.len() {
            buf.len() - start
        } else {
            pos - start
        }
    } else {
        let p = pos + 1;
        let prev = buf[p - 2];
        let cur = buf[p - 1];
        if run_step(mode, prev, cur) {
            if runlen + 1 == cfg.sequence_length {
                p - start
            } else if opp == cfg.skip_trigger {
                seq_scan(buf, mode, cfg, maxsz, start, p + cfg.skip_size, runlen + 1, 0)
            } else {
                seq_scan(buf, mode, cfg, maxsz, start, p, runlen + 1, opp)
            }
        } else if opp_step(mode, prev, cur) {
            if cfg.sequence_length == 0 {
                p - start
            } else if opp + 1 == cfg.skip_trigger {
                seq_scan(buf, mode, cfg, maxsz, start, p + cfg.skip_size, 0, 0)
            } else {
                seq_scan(buf, mode, cfg, maxsz, start, p, 0, opp + 1)
            }
        } else {
            seq_scan(buf, mode, cfg, maxsz, start, p, runlen, opp)
        }
    }
}

/// Length of the chunk that starts at `start`: fewer than `min` bytes
/// remaining become the final chunk; otherwise `min` bytes are consumed
/// unconditionally and the scan decides. The cut depends only on the
/// bytes from the chunk start to the buffer end, never on anything
/// before the start.
pub open spec fn seq_cut_len(
    buf: Seq<u8>,
    sizes: SizeParams,
    cfg: Config,
    mode: OperationMode,
    start: int,
) -> int {
    if buf.len() - start < sizes.min {
        buf.len() - start
    } else {
        seq_scan(buf, mode, cfg, sizes.max as int, start, start + sizes.min, 0, 0)
    }
}

/// The scan's result stays within the buffer tail and never runs more
/// than one skip past the maximum size.
proof fn lemma_seq_scan_bounds(
    buf: Seq<u8>,
    mode: OperationMode,
    cfg: Config,
    maxsz: int,
    start: int,
    pos: int,
    runlen: int,
    opp: int,
)
    requires
        0 <= start <= pos,
        pos <= buf.len() + cfg.skip_size + 1,
    ensures
        ({
            let r = seq_scan(buf, mode, cfg, maxsz, start, pos, runlen, opp);
            &&& (if pos <= buf.len() {
                pos - start
            } else {
                buf.len() - start
            }) <= r <= (if buf.len() - start >= 0 {
                buf.len() - start
            } else {
                0
            })
            &&& (pos - start <= maxsz + cfg.skip_size ==> r <= maxsz + cfg.skip_size)
        }),
    decreases buf.len() + cfg.skip_size + 1 - pos,
{
    if pos >= buf.len() || pos - start >= maxsz {
    } else {
        let p = pos + 1;
        let prev = buf[p - 2];
        let cur = buf[p - 1];
        if run_step(mode, prev, cur) {
            if runlen + 1 == cfg.sequence_length {
            } else if opp == cfg.skip_trigger {
                lemma_seq_scan_bounds(buf, mode, cfg, maxsz, start, p + cfg.skip_size, runlen + 1, 0);
            } else {
                lemma_seq_scan_bounds(buf, mode, cfg, maxsz, start, p, runlen + 1, opp);
            }
        } else if opp_step(mode, prev, cur) {
            if cfg.sequence_length == 0 {
            } else if opp + 1 == cfg.skip_trigger {
                lemma_seq_scan_bounds(buf, mode, cfg, maxsz, start, p + cfg.skip_size, 0, 0);
            } else {
                lemma_seq_scan_bounds(buf, mode, cfg, maxsz, start, p, 0, opp + 1);
            }
        } else {
            lemma_seq_scan_bounds(buf, mode, cfg, maxsz, start, p, runlen, opp);
        }
    }
}

/// Bounds of one cut: it is non-empty, stays inside the buffer, and —
/// when at least `min` bytes remain — consumes at least `min` bytes and
/// at most one skip beyond the maximum size.
pub proof fn lemma_seq_cut_bounds(
    buf: Seq<u8>,
    sizes: SizeParams,
    cfg: Config,
    mode: OperationMode,
    start: int,
)
    requires
        0 <= start < buf.len(),
        sizes.wf(),
        sizes.min >= 1,
    ensures
        1 <= seq_cut_len(buf, sizes, cfg, mode, start) <= buf.len() - start,
        buf.len() - start >= sizes.min ==> sizes.min <= seq_cut_len(buf, sizes, cfg, mode, start)
            <= sizes.max + cfg.skip_size,
{
    if buf.len() - start < sizes.min {
    } else {
        lemma_seq_scan_bounds(
            buf,
            mode,
            cfg,
            sizes.max as int,
            start,
            start + sizes.min,
            0,
            0,
        );
    }
}

/// The whole pass: the chunks the chunker emits from `start` onward.
pub open spec fn seq_chunks(
    buf: Seq<u8>,
    sizes: SizeParams,
    cfg: Config,
    mode: OperationMode,
    start: int,
) -> Seq<Chunk>
    decreases buf.len() - start
    when 0 <= start <= buf.len() <= usize::MAX && sizes.wf() && sizes.min >= 1
    via seq_chunks_decreases
{
    if start >= buf.len() {
        Seq::empty()
    } else {
        let l = seq_cut_len(buf, sizes, cfg, mode, start);
        seq![Chunk { pos: start as usize, len: l as usize }] + seq_chunks(
            buf,
            sizes,
            cfg,
            mode,
            start + l,
        )
    }
}

#[via_fn]
proof fn seq_chunks_decreases(
    buf: Seq<u8>,
    sizes: SizeParams,
    cfg: Config,
    mode: OperationMode,
    start: int,
) {
    if 0 <= start < buf.len() && buf.len() <= usize::MAX && sizes.wf() && sizes.min >= 1 {
        lemma_seq_cut_bounds(buf, sizes, cfg, mode, start);
    }
}

/// Partition property: every pass covers exactly `[start, buf.len())`.
pub proof fn lemma_seq_chunks_partition(
    buf: Seq<u8>,
    sizes: SizeParams,
    cfg: Config,
    mode: OperationMode,
    start: int,
)
    requires
        0 <= start <= buf.len() <= usize::MAX,
        sizes.wf(),
        sizes.min >= 1,
    ensures
        covers_range(seq_chunks(buf, sizes, cfg, mode, start), start, buf.len() as int),
    decreases buf.len() - start,
{
    if start >= buf.len() {
    } else {
        let l = seq_cut_len(buf, sizes, cfg, mode, start);
        lemma_seq_cut_bounds(buf, sizes, cfg, mode, start);
        lemma_seq_chunks_partition(buf, sizes, cfg, mode, start + l);
        let head = Chunk { pos: start as usize, len: l as usize };
        crate::lemma_covers_range_cons(
            head,
            seq_chunks(buf, sizes, cfg, mode, start + l),
            start,
            buf.len() as int,
        );
    }
}

/// Bounds property: no chunk is empty; every chunk except possibly the
/// final one is at least `min` long; and no chunk exceeds the maximum
/// size by more than one skip.
pub proof fn lemma_seq_chunks_len_bounds(
    buf: Seq<u8>,
    sizes: SizeParams,
    cfg: Config,
    mode: OperationMode,
    start: int,
)
    requires
        0 <= start <= buf.len() <= usize::MAX,
        sizes.wf(),
        sizes.min >= 1,
    ensures
        forall|i: int|
            0 <= i < seq_chunks(buf, sizes, cfg, mode, start).len() ==> 1 <= (#[trigger] seq_chunks(
                buf,
                sizes,
                cfg,
                mode,
                start,
            )[i]).len <= sizes.max + cfg.skip_size,
        forall|i: int|
            0 <= i < seq_chunks(buf, sizes, cfg, mode, start).len() - 1 ==> (#[trigger] seq_chunks(
                buf,
                sizes,
                cfg,
                mode,
                start,
            )[i]).len >= sizes.min,
    decreases buf.len() - start,
{
    if start >= buf.len() {
    } else {
        let l = seq_cut_len(buf, sizes, cfg, mode, start);
        lemma_seq_cut_bounds(buf, sizes, cfg, mode, start);
        lemma_seq_chunks_len_bounds(buf, sizes, cfg, mode, start + l);
        let cs = seq_chunks(buf, sizes, cfg, mode, start);
        let rest = seq_chunks(buf, sizes, cfg, mode, start + l);
        assert(forall|i: int| 0 <= i < rest.len() ==> cs[i + 1] == rest[i]);
        assert(l < sizes.min ==> start + l == buf.len());
        assert(rest.len() == 0 ==> cs.len() == 1);
        assert forall|i: int| 0 <= i < cs.len() implies 1 <= (#[trigger] cs[i]).len <= sizes.max
            + cfg.skip_size by {
            if i > 0 {
                assert(cs[i] == rest[i - 1]);
            }
        }
        assert forall|i: int| 0 <= i < cs.len() - 1 implies (#[trigger] cs[i]).len
            >= sizes.min by {
            if i > 0 {
                assert(cs[i] == rest[i - 1]);
            } else {
                assert(cs.len() > 1);
                assert(rest.len() > 0);
                assert(start + l < buf.len());
            }
        }
    }
}

/// Degenerate inputs: an empty buffer yields no chunks; a non-empty
/// buffer shorter than `min` yields exactly one chunk spanning it.
pub proof fn lemma_seq_degenerate(buf: Seq<u8>, sizes: SizeParams, cfg: Config, mode: OperationMode)
    requires
        sizes.wf(),
        sizes.min >= 1,
        buf.len() < sizes.min,
        buf.len() <= usize::MAX,
    ensures
        buf.len() == 0 ==> seq_chunks(buf, sizes, cfg, mode, 0) == Seq::<Chunk>::empty(),
        buf.len() > 0 ==> seq_chunks(buf, sizes, cfg, mode, 0) == seq![
            Chunk { pos: 0, len: buf.len() as usize },
        ],
{
    if buf.len() > 0 {
        assert(seq_cut_len(buf, sizes, cfg, mode, 0) == buf.len());
        assert(seq_chunks(buf, sizes, cfg, mode, buf.len() as int) =~= Seq::<Chunk>::empty());
        assert(seq_chunks(buf, sizes, cfg, mode, 0) =~= seq![
            Chunk { pos: 0, len: buf.len() as usize },
        ]);
    }
}

/// Determinism: equal buffers, sizes, configuration and mode give equal
/// chunk sequences.
pub proof fn lemma_seq_deterministic(
    buf1: Seq<u8>,
    buf2: Seq<u8>,
    sizes1: SizeParams,
    sizes2: SizeParams,
    cfg1: Config,
    cfg2: Config,
    mode1: OperationMode,
    mode2: OperationMode,
)
    requires
        buf1 == buf2,
        sizes1 == sizes2,
        cfg1 == cfg2,
        mode1 == mode2,
    ensures
        seq_chunks(buf1, sizes1, cfg1, mode1, 0) == seq_chunks(buf2, sizes2, cfg2, mode2, 0),
{
}

/// A single forward pass over one borrowed buffer.
pub struct Chunker<'a> {
    buf: &'a [u8],
    len: usize,
    position: usize,
    sizes: SizeParams,
    mode: OperationMode,
    sequence_length: usize,
    skip_trigger: usize,
    skip_size: usize,
}

impl<'a> Chunker<'a> {
    /// The buffer this pass walks.
    pub closed spec fn buf_spec(self) -> Seq<u8> {
        self.buf@
    }

    /// The size parameters this pass honours.
    pub closed spec fn sizes_spec(self) -> SizeParams {
        self.sizes
    }

    /// The run-length configuration this pass honours.
    pub closed spec fn cfg_spec(self) -> Config {
        Config {
            sequence_length: self.sequence_length,
            skip_trigger: self.skip_trigger,
            skip_size: self.skip_size,
        }
    }

    /// The operation mode of this pass.
    pub closed spec fn mode_spec(self) -> OperationMode {
        self.mode
    }

    /// Offset where the next chunk will begin.
    pub closed spec fn start_spec(self) -> int {
        self.position as int
    }

    /// The cursor stays inside the buffer; `min >= 1` keeps byte-pair
    /// comparisons in bounds; the headroom requirements keep cursor and
    /// length arithmetic from overflowing.
    pub closed spec fn wf(self) -> bool {
        &&& self.len == self.buf@.len()
        &&& self.position <= self.len
        &&& self.sizes.wf()
        &&& self.sizes.min >= 1
        &&& self.len + self.skip_size + 1 <= usize::MAX
        &&& self.sizes.max + self.skip_size <= usize::MAX
    }

    /// Historically tuned default sizes for this variant.
    pub fn default_sizes() -> (s: SizeParams)
        ensures
            s == (SizeParams { min: 4096usize, avg: 8192usize, max: 16384usize }),
            s.wf(),
    {
        SizeParams { min: 4 * 1024, avg: 8 * 1024, max: 16 * 1024 }
    }

    /// Borrows the buffer for one pass with the given sizes, mode and
    /// configuration. `min >= 1` keeps byte-pair comparisons in bounds;
    /// the headroom requirements rule out overflow of the skip jumps.
    pub fn new(buf: &'a [u8], params: SizeParams, mode: OperationMode, config: Config) -> (c:
        Chunker<'a>)
        requires
            params.wf(),
            params.min >= 1,
            buf@.len() + config.skip_size + 1 <= usize::MAX,
            params.max + config.skip_size <= usize::MAX,
        ensures
            c.wf(),
            c.buf_spec() == buf@,
            c.sizes_spec() == params,
            c.cfg_spec() == config,
            c.mode_spec() == mode,
            c.start_spec() == 0,
    {
        Chunker {
            buf,
            len: buf.len(),
            position: 0,
            sizes: params,
            mode,
            sequence_length: config.sequence_length,
            skip_trigger: config.skip_trigger,
            skip_size: config.skip_size,
        }
    }

    /// The increasing-mode scan: returns the length of the next chunk
    /// and advances the cursor past it, or nothing once exhausted. The
    /// result is pinned to the spec-level cut for `Increasing` mode.
    fn find_border_increasing(&mut self) -> (r: Option<usize>)
        requires
            old(self).wf(),
        ensures
            final(self).wf(),
            final(self).buf_spec() == old(self).buf_spec(),
            final(self).sizes_spec() == old(self).sizes_spec(),
            final(self).cfg_spec() == old(self).cfg_spec(),
            final(self).mode_spec() == old(self).mode_spec(),
            old(self).start_spec() == old(self).buf_spec().len() ==> r is None && final(self).start_spec() == old(self).start_spec(),
            old(self).start_spec() < old(self).buf_spec().len() ==> {
                let l = seq_cut_len(
                    old(self).buf_spec(),
                    old(self).sizes_spec(),
                    old(self).cfg_spec(),
                    OperationMode::Increasing,
                    old(self).start_spec(),
                );
                r == Some(l as usize) && final(self).start_spec() == old(self).start_spec() + l
            },
    {
        if self.position == self.len {
            return None;
        }
        let ghost start: int = self.position as int;
        let ghost cfg: Config = self.cfg_spec();
        proof {
            lemma_seq_cut_bounds(self.buf@, self.sizes, cfg, OperationMode::Increasing, start);
        }

        if self.len - self.position < self.sizes.min {
            let delta: usize = self.len - self.position;
            self.position = self.len;
            return Some(delta);
        }

        self.position = self.position + self.sizes.min;

        let mut chunk_len: usize = self.sizes.min;
        let mut sequence_length: usize = 0;
        let mut opposing_slope_count: usize = 0;

        let ghost target: int = seq_scan(
            self.buf@,
            OperationMode::Increasing,
            cfg,
            self.sizes.max as int,
            start,
            self.position as int,
            0,
            0,
        );
        assert(target == seq_cut_len(
            self.buf@,
            self.sizes,
            cfg,
            OperationMode::Increasing,
            start,
        ));

        while self.position < self.len && chunk_len < self.sizes.max
            invariant
                self.buf == old(self).buf,
                self.sizes == old(self).sizes,
                self.len == old(self).len,
                self.sequence_length == old(self).sequence_length,
                self.skip_trigger == old(self).skip_trigger,
                self.skip_size == old(self).skip_size,
                self.mode == old(self).mode,
                start + chunk_len == self.position,
                self.position <= self.len + self.skip_size,
                chunk_len >= self.sizes.min,
                chunk_len <= self.sizes.max + self.skip_size,
                sequence_length + self.sizes.min <= chunk_len,
                opposing_slope_count + self.sizes.min <= chunk_len,
                target == seq_scan(
                    self.buf@,
                    OperationMode::Increasing,
                    cfg,
                    self.sizes.max as int,
                    start,
                    self.position as int,
                    sequence_length as int,
                    opposing_slope_count as int,
                ),
            decreases self.len + self.skip_size - self.position,
        {
            self.position = self.position + 1;
            chunk_len = chunk_len + 1;

            let cur: u8 = self.buf[self.position - 1];
            let prev: u8 = self.buf[self.position - 2];
            if cur < prev {
                sequence_length = 0;
                opposing_slope_count = opposing_slope_count + 1;
            } else if cur == prev {
                continue ;
            } else {
                sequence_length = sequence_length + 1;
            }

            if sequence_length == self.sequence_length {
                assert(chunk_len == target);
                return Some(chunk_len);
            }
            if opposing_slope_count == self.skip_trigger {
                self.position = self.position + self.skip_size;
                chunk_len = chunk_len + self.skip_size;
                opposing_slope_count = 0;
            }
        }

        if self.position > self.len {
            let delta: usize = self.position - self.len;
            self.position = self.len;
            chunk_len = chunk_len - delta;
        }

        assert(chunk_len == target);
        Some(chunk_len)
    }

    /// The decreasing-mode scan, pinned to the spec-level cut for
    /// `Decreasing` mode.
    fn find_border_decreasing(&mut self) -> (r: Option<usize>)
        requires
            old(self).wf(),
        ensures
            final(self).wf(),
            final(self).buf_spec() == old(self).buf_spec(),
            final(self).sizes_spec() == old(self).sizes_spec(),
            final(self).cfg_spec() == old(self).cfg_spec(),
            final(self).mode_spec() == old(self).mode_spec(),
            old(self).start_spec() == old(self).buf_spec().len() ==> r is None && final(self).start_spec() == old(self).start_spec(),
            old(self).start_spec() < old(self).buf_spec().len() ==> {
                let l = seq_cut_len(
                    old(self).buf_spec(),
                    old(self).sizes_spec(),
                    old(self).cfg_spec(),
                    OperationMode::Decreasing,
                    old(self).start_spec(),
                );
                r == Some(l as usize) && final(self).start_spec() == old(self).start_spec() + l
            },
    {
        if self.position == self.len {
            return None;
        }
        let ghost start: int = self.position as int;
        let ghost cfg: Config = self.cfg_spec();
        proof {
            lemma_seq_cut_bounds(self.buf@, self.sizes, cfg, OperationMode::Decreasing, start);
        }

        if self.len - self.position < self.sizes.min {
            let delta: usize = self.len - self.position;
            self.position = self.len;
            return Some(delta);
        }

        self.position = self.position + self.sizes.min;

        let mut chunk_len: usize = self.sizes.min;
        let mut sequence_length: usize = 0;
        let mut opposing_slope_count: usize = 0;

        let ghost target: int = seq_scan(
            self.buf@,
            OperationMode::Decreasing,
            cfg,
            self.sizes.max as int,
            start,
            self.position as int,
            0,
            0,
        );
        assert(target == seq_cut_len(
            self.buf@,
            self.sizes,
            cfg,
            OperationMode::Decreasing,
            start,
        ));

        while self.position < self.len && chunk_len < self.sizes.max
            invariant
                self.buf == old(self).buf,
                self.sizes == old(self).sizes,
                self.len == old(self).len,
                self.sequence_length == old(self).sequence_length,
                self.skip_trigger == old(self).skip_trigger,
                self.skip_size == old(self).skip_size,
                self.mode == old(self).mode,
                start + chunk_len == self.position,
                self.position <= self.len + self.skip_size,
                chunk_len >= self.sizes.min,
                chunk_len <= self.sizes.max + self.skip_size,
                sequence_length + self.sizes.min <= chunk_len,
                opposing_slope_count + self.sizes.min <= chunk_len,
                target == seq_scan(
                    self.buf@,
                    OperationMode::Decreasing,
                    cfg,
                    self.sizes.max as int,
                    start,
                    self.position as int,
                    sequence_length as int,
                    opposing_slope_count as int,
                ),
            decreases self.len + self.skip_size - self.position,
        {
            self.position = self.position + 1;
            chunk_len = chunk_len + 1;

            let cur: u8 = self.buf[self.position - 1];
            let prev: u8 = self.buf[self.position - 2];
            if cur < prev {
                sequence_length = sequence_length + 1;
            } else if cur == prev {
                continue ;
            } else {
                sequence_length = 0;
                opposing_slope_count = opposing_slope_count + 1;
            }

            if sequence_length == self.sequence_length {
                assert(chunk_len == target);
                return Some(chunk_len);
            }
            if opposing_slope_count == self.skip_trigger {
                self.position = self.position + self.skip_size;
                chunk_len = chunk_len + self.skip_size;
                opposing_slope_count = 0;
            }
        }

        if self.position > self.len {
            let delta: usize = self.position - self.len;
            self.position = self.len;
            chunk_len = chunk_len - delta;
        }

        assert(chunk_len == target);
        Some(chunk_len)
    }

    /// Returns the next chunk's length, dispatching on the mode the
    /// chunker was constructed with.
    fn find_border(&mut self) -> (r: Option<usize>)
        requires
            old(self).wf(),
        ensures
            final(self).wf(),
            final(self).buf_spec() == old(self).buf_spec(),
            final(self).sizes_spec() == old(self).sizes_spec(),
            final(self).cfg_spec() == old(self).cfg_spec(),
            final(self).mode_spec() == old(self).mode_spec(),
            old(self).start_spec() == old(self).buf_spec().len() ==> r is None && final(self).start_spec() == old(self).start_spec(),
            old(self).start_spec() < old(self).buf_spec().len() ==> {
                let l = seq_cut_len(
                    old(self).buf_spec(),
                    old(self).sizes_spec(),
                    old(self).cfg_spec(),
                    old(self).mode_spec(),
                    old(self).start_spec(),
                );
                r == Some(l as usize) && final(self).start_spec() == old(self).start_spec() + l
            },
    {
        match self.mode {
            OperationMode::Increasing => self.find_border_increasing(),
            OperationMode::Decreasing => self.find_border_decreasing(),
        }
    }

    /// Pulls the next chunk, or nothing once the buffer is exhausted.
    /// The result is pinned to the spec-level cut length.
    pub fn next_chunk(&mut self) -> (r: Option<Chunk>)
        requires
            old(self).wf(),
        ensures
            final(self).wf(),
            final(self).buf_spec() == old(self).buf_spec(),
            final(self).sizes_spec() == old(self).sizes_spec(),
            final(self).cfg_spec() == old(self).cfg_spec(),
            final(self).mode_spec() == old(self).mode_spec(),
            old(self).start_spec() == old(self).buf_spec().len() ==> r is None && final(self).start_spec() == old(self).start_spec(),
            old(self).start_spec() < old(self).buf_spec().len() ==> {
                let l = seq_cut_len(
                    old(self).buf_spec(),
                    old(self).sizes_spec(),
                    old(self).cfg_spec(),
                    old(self).mode_spec(),
                    old(self).start_spec(),
                );
                r == Some(
                    Chunk { pos: old(self).start_spec() as usize, len: l as usize },
                ) && final(self).start_spec() == old(self).start_spec() + l
            },
    {
        let start: usize = self.position;
        match self.find_border() {
            Some(length) => Some(Chunk::new(start, length)),
            None => None,
        }
    }

    /// Drives the pass to exhaustion. The collected chunks are exactly
    /// the spec-level chunk sequence, hence a partition of the buffer.
    pub fn chunk_all(&mut self) -> (chunks: Vec<Chunk>)
        requires
            old(self).wf(),
            old(self).start_spec() == 0,
        ensures
            chunks@ == seq_chunks(
                old(self).buf_spec(),
                old(self).sizes_spec(),
                old(self).cfg_spec(),
                old(self).mode_spec(),
                0,
            ),
            crate::is_partition(chunks@, old(self).buf_spec().len() as int),
    {
        let ghost buf: Seq<u8> = self.buf_spec();
        let ghost sizes: SizeParams = self.sizes_spec();
        let ghost cfg: Config = self.cfg_spec();
        let ghost mode: OperationMode = self.mode_spec();
        let mut chunks: Vec<Chunk> = Vec::new();
        while self.position < self.len
            invariant
                self.wf(),
                self.buf_spec() == buf,
                self.sizes_spec() == sizes,
                self.cfg_spec() == cfg,
                self.mode_spec() == mode,
                0 <= self.start_spec() <= buf.len(),
                seq_chunks(buf, sizes, cfg, mode, 0) == chunks@ + seq_chunks(
                    buf,
                    sizes,
                    cfg,
                    mode,
                    self.start_spec(),
                ),
            decreases buf.len() - self.start_spec(),
        {
            let ghost start: int = self.start_spec();
            match self.next_chunk() {
                Some(c) => {
                    proof {
                        lemma_seq_cut_bounds(buf, sizes, cfg, mode, start);
                        let l = seq_cut_len(buf, sizes, cfg, mode, start);
                        assert(seq_chunks(buf, sizes, cfg, mode, start) == seq![c] + seq_chunks(
                            buf,
                            sizes,
                            cfg,
                            mode,
                            start + l,
                        ));
                        assert(chunks@.push(c) + seq_chunks(buf, sizes, cfg, mode, start + l)
                            =~= chunks@ + (seq![c] + seq_chunks(buf, sizes, cfg, mode, start + l)));
                    }
                    chunks.push(c);
                },
                None => {
                    proof {
                        assert(false);
                    }
                },
            }
        }
        proof {
            assert(seq_chunks(buf, sizes, cfg, mode, buf.len() as int) =~= Seq::<Chunk>::empty());
            assert(chunks@ + Seq::<Chunk>::empty() =~= chunks@);
            lemma_seq_chunks_partition(buf, sizes, cfg, mode, 0);
        }
        chunks
    }
}

} // verus!
