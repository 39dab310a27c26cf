//! Rabin rolling-hash chunker: after skipping most of the minimum
//! length, a 40-bit fingerprint is maintained over a 16-byte sliding
//! window in constant time per byte. Once the minimum length is
//! reached, a boundary is declared where a masked checksum vanishes, or
//! forced at the maximum length.

use crate::{covers_range, Chunk, SizeParams};
use vstd::pervasive::VecAdditionalExecFns;
use vstd::prelude::*;

verus! {

pub const PRIME: u64 = 153191;

pub const MASK: u64 = 0xff_ffff_ffff;

/// One more than the 40-bit mask: reduction modulus of the hash.
pub const MOD40: u64 = 0x100_0000_0000;

pub const MIN_SIZE: usize = 16384;

pub const AVG_SIZE: usize = 32768;

pub const MAX_SIZE: usize = 65536;

/// Irreducible polynomial for the Rabin modulus.
pub const FP_POLY: u64 = 0xbfe6_b8a5_bf37_8d83;

/// Sized so the expected cut length past the skipped minimum is near
/// the average: `AVG_SIZE - MIN_SIZE - 1`.
pub const CUT_MASK: u64 = 16383;

pub const WIN_SIZE: usize = 16;

pub const WIN_MASK: usize = 15;

pub const WIN_SLIDE_OFFSET: usize = 64;

/// Where the sliding window starts inside each chunk:
/// `MIN_SIZE - WIN_SLIDE_OFFSET`.
pub const WIN_SLIDE_POS: usize = 16320;

/// Reduction to the low 40 bits.
pub open spec fn mask40(x: int) -> u64 {
    (x % 0x100_0000_0000) as u64
}

/// `PRIME^n` under the 40-bit mask.
pub open spec fn pow_p(n: nat) -> u64
    decreases n,
{
    if n == 0 {
        1u64
    } else {
        mask40(pow_p((n - 1) as nat) * PRIME)
    }
}

/// Contribution of byte value `i` when it leaves the window.
pub open spec fn out_entry(i: int) -> u64 {
    mask40(i * pow_p(WIN_SIZE as nat))
}

/// The bit probe walking the irreducible polynomial: `2^k`.
pub open spec fn ir_term(k: nat) -> u64
    decreases k,
{
    if k == 0 {
        1u64
    } else {
        (ir_term((k - 1) as nat) * 2) as u64
    }
}

/// Accumulated irreducible-polynomial value for byte `i` after `k` of
/// the window-size steps.
pub open spec fn ir_val(i: int, k: nat) -> int
    decreases k,
{
    if k == 0 {
        1
    } else {
        let v = ir_val(i, (k - 1) as nat);
        if ir_term((k - 1) as nat) & FP_POLY != 0 {
            v + mask40(pow_p((k - 1) as nat) * i)
        } else {
            v
        }
    }
}

/// Entry of the irreducible-polynomial table for byte value `i`.
pub open spec fn ir_entry(i: int) -> u64 {
    ir_val(i, WIN_SIZE as nat) as u64
}

/// The accumulated value never leaves `[1, 1 + k * MASK]`.
pub proof fn lemma_ir_val_bounds(i: int, k: nat)
    ensures
        1 <= ir_val(i, k) <= 1 + k * (MASK as int),
    decreases k,
{
    if k == 0 {
    } else {
        lemma_ir_val_bounds(i, (k - 1) as nat);
        assert((k - 1) * (MASK as int) + (MASK as int) == k * (MASK as int)) by (nonlinear_arith);
    }
}

/// One rolling-hash update: multiply by the prime, add the incoming
/// byte, subtract the outgoing byte's contribution, all mod `2^40`.
pub open spec fn roll_step(rh: u64, ch: u8, out_c: u64) -> u64 {
    mask40(mask40(rh * PRIME) + ch - out_c)
}

/// Masking with the 40-bit mask is reduction mod `2^40`.
proof fn lemma_and_mask40(x: u64)
    ensures
        x & MASK == x % MOD40,
        x & MASK == mask40(x as int),
{
    assert(x & 0xff_ffff_ffffu64 == x % 0x100_0000_0000u64) by (bit_vector);
}

/// The executable update — wrapping subtraction then masking — equals
/// the arithmetic `roll_step`.
proof fn lemma_roll_step(rh: u64, ch: u8, out_c: u64)
    requires
        rh <= MASK,
    ensures
        ({
            let m = (rh * PRIME) as u64 & MASK;
            let s = (m + ch) as u64;
            vstd::wrapping::u64_specs::wrapping_sub(s, out_c) & MASK == roll_step(rh, ch, out_c)
        }),
{
    assert(rh * PRIME <= MASK * PRIME) by (nonlinear_arith)
        requires
            rh <= MASK,
    ;
    let m = (rh * PRIME) as u64 & MASK;
    lemma_and_mask40((rh * PRIME) as u64);
    assert(m == mask40(rh * PRIME));
    assert(m < MOD40) by {
        assert((rh * PRIME) % 0x100_0000_0000 < 0x100_0000_0000);
    }
    let s = (m + ch) as u64;
    let w = vstd::wrapping::u64_specs::wrapping_sub(s, out_c);
    lemma_and_mask40(w);
    if s >= out_c {
        assert(w == s - out_c);
    } else {
        assert(w == s - out_c + 0x1_0000_0000_0000_0000);
        assert((s - out_c + 0x1_0000_0000_0000_0000) % 0x100_0000_0000 == (s - out_c)
            % 0x100_0000_0000) by {
            vstd::arithmetic::div_mod::lemma_mod_multiples_vanish(
                0x100_0000,
                s - out_c,
                0x100_0000_0000,
            );
        }
    }
}

/// The all-zero initial window.
pub open spec fn zero_window() -> Seq<u8> {
    Seq::new(WIN_SIZE as nat, |i: int| 0u8)
}

/// One step of the scan from cursor `pos`: the incoming byte enters the
/// circular window, the outgoing byte's contribution leaves the hash,
/// and — once the chunk begun at `start` has reached the minimum
/// length — the masked checksum or the maximum length cuts.
pub open spec fn rabin_scan(
    buf: Seq<u8>,
    start: int,
    pos: int,
    win: Seq<u8>,
    win_idx: int,
    rh: u64,
) -> int
    decreases buf.len() - pos
    when pos <= buf.len() && 0 <= win_idx < WIN_SIZE && win.len() == WIN_SIZE
{
    if pos >= buf.len() {
        pos - start
    } else {
        let ch = buf[pos];
        let out = win[win_idx];
        let rh2 = roll_step(rh, ch, out_entry(out as int));
        let win2 = win.update(win_idx, ch);
        let wi2 = if win_idx + 1 == WIN_SIZE {
            0
        } else {
            win_idx + 1
        };
        let clen = pos + 1 - start;
        if clen >= MIN_SIZE && (((rh2 ^ ir_entry(out as int)) & CUT_MASK == 0) || clen >= MAX_SIZE) {
            clen
        } else {
            rabin_scan(buf, start, pos + 1, win2, wi2, rh2)
        }
    }
}

/// Length of the chunk that starts at `start`: fewer than `MIN_SIZE`
/// bytes remaining become the final chunk; otherwise the window starts
/// most of the minimum length in, over a zeroed window and hash.
pub open spec fn rabin_cut_len(buf: Seq<u8>, start: int) -> int {
    if buf.len() - start < MIN_SIZE {
        buf.len() - start
    } else {
        rabin_scan(buf, start, start + WIN_SLIDE_POS, zero_window(), 0, 0)
    }
}

/// The scan advances, stays inside the buffer, respects the maximum
/// size, and cuts before the buffer end only past the minimum size.
proof fn lemma_rabin_scan_bounds(
    buf: Seq<u8>,
    start: int,
    pos: int,
    win: Seq<u8>,
    win_idx: int,
    rh: u64,
)
    requires
        0 <= start <= pos <= buf.len(),
        0 <= win_idx < WIN_SIZE,
        win.len() == WIN_SIZE,
        pos - start < MAX_SIZE,
    ensures
        ({
            let r = rabin_scan(buf, start, pos, win, win_idx, rh);
            &&& pos - start <= r <= buf.len() - start
            &&& r <= MAX_SIZE
            &&& start + r < buf.len() ==> r >= MIN_SIZE
        }),
    decreases buf.len() - pos,
{
    if pos >= buf.len() {
    } else {
        let ch = buf[pos];
        let out = win[win_idx];
        let rh2 = roll_step(rh, ch, out_entry(out as int));
        let win2 = win.update(win_idx, ch);
        let wi2 = if win_idx + 1 == WIN_SIZE {
            0
        } else {
            win_idx + 1
        };
        let clen = pos + 1 - start;
        if clen >= MIN_SIZE && (((rh2 ^ ir_entry(out as int)) & CUT_MASK == 0) || clen
            >= MAX_SIZE) {
        } else {
            lemma_rabin_scan_bounds(buf, start, pos + 1, win2, wi2, rh2);
        }
    }
}

/// Bounds of one cut: non-empty, inside the buffer, at most the maximum
/// size, and at least the minimum size unless it ends the buffer.
pub proof fn lemma_rabin_cut_bounds(buf: Seq<u8>, start: int)
    requires
        0 <= start < buf.len(),
    ensures
        1 <= rabin_cut_len(buf, start) <= buf.len() - start,
        rabin_cut_len(buf, start) <= MAX_SIZE,
        start + rabin_cut_len(buf, start) < buf.len() ==> rabin_cut_len(buf, start) >= MIN_SIZE,
{
    if buf.len() - start < MIN_SIZE {
    } else {
        lemma_rabin_scan_bounds(buf, start, start + WIN_SLIDE_POS, zero_window(), 0, 0);
    }
}

/// The whole pass: the chunks the chunker emits from `start` onward.
pub open spec fn rabin_chunks(buf: Seq<u8>, start: int) -> Seq<Chunk>
    decreases buf.len() - start
    when 0 <= start <= buf.len() <= usize::MAX
    via rabin_chunks_decreases
{
    if start >= buf.len() {
        Seq::empty()
    } else {
        let l = rabin_cut_len(buf, start);
        seq![Chunk { pos: start as usize, len: l as usize }] + rabin_chunks(buf, start + l)
    }
}

#[via_fn]
proof fn rabin_chunks_decreases(buf: Seq<u8>, start: int) {
    if 0 <= start < buf.len() && buf.len() <= usize::MAX {
        lemma_rabin_cut_bounds(buf, start);
    }
}

/// Partition property: every pass covers exactly `[start, buf.len())`.
pub proof fn lemma_rabin_chunks_partition(buf: Seq<u8>, start: int)
    requires
        0 <= start <= buf.len() <= usize::MAX,
    ensures
        covers_range(rabin_chunks(buf, start), start, buf.len() as int),
    decreases buf.len() - start,
{
    if start >= buf.len() {
    } else {
        let l = rabin_cut_len(buf, start);
        lemma_rabin_cut_bounds(buf, start);
        lemma_rabin_chunks_partition(buf, start + l);
        let head = Chunk { pos: start as usize, len: l as usize };
        crate::lemma_covers_range_cons(head, rabin_chunks(buf, start + l), start, buf.len() as int);
    }
}

/// Bounds property: no chunk is empty or longer than the maximum size,
/// and every chunk except possibly the final one reaches the minimum.
pub proof fn lemma_rabin_chunks_len_bounds(buf: Seq<u8>, start: int)
    requires
        0 <= start <= buf.len() <= usize::MAX,
    ensures
        forall|i: int|
            0 <= i < rabin_chunks(buf, start).len() ==> 1 <= (#[trigger] rabin_chunks(
                buf,
                start,
            )[i]).len <= MAX_SIZE,
        forall|i: int|
            0 <= i < rabin_chunks(buf, start).len() - 1 ==> (#[trigger] rabin_chunks(
                buf,
                start,
            )[i]).len >= MIN_SIZE,
    decreases buf.len() - start,
{
    if start >= buf.len() {
    } else {
        let l = rabin_cut_len(buf, start);
        lemma_rabin_cut_bounds(buf, start);
        lemma_rabin_chunks_len_bounds(buf, start + l);
        let cs = rabin_chunks(buf, start);
        let rest = rabin_chunks(buf, start + l);
        assert(forall|i: int| 0 <= i < rest.len() ==> cs[i + 1] == rest[i]);
        assert(rest.len() == 0 ==> cs.len() == 1);
        assert forall|i: int| 0 <= i < cs.len() implies 1 <= (#[trigger] cs[i]).len
            <= MAX_SIZE by {
            if i > 0 {
                assert(cs[i] == rest[i - 1]);
            }
        }
        assert forall|i: int| 0 <= i < cs.len() - 1 implies (#[trigger] cs[i]).len
            >= MIN_SIZE by {
            if i > 0 {
                assert(cs[i] == rest[i - 1]);
            } else {
                assert(rest.len() > 0);
                assert(start + l < buf.len());
            }
        }
    }
}

/// Degenerate inputs: an empty buffer yields no chunks; a non-empty
/// buffer shorter than the minimum size yields exactly one chunk.
pub proof fn lemma_rabin_degenerate(buf: Seq<u8>)
    requires
        buf.len() < MIN_SIZE,
    ensures
        buf.len() == 0 ==> rabin_chunks(buf, 0) == Seq::<Chunk>::empty(),
        buf.len() > 0 ==> rabin_chunks(buf, 0) == seq![Chunk { pos: 0, len: buf.len() as usize }],
{
    if buf.len() > 0 {
        assert(rabin_cut_len(buf, 0) == buf.len());
        assert(rabin_chunks(buf, buf.len() as int) =~= Seq::<Chunk>::empty());
        assert(rabin_chunks(buf, 0) =~= seq![Chunk { pos: 0, len: buf.len() as usize }]);
    }
}

/// Determinism: equal buffers give equal chunk sequences.
pub proof fn lemma_rabin_deterministic(buf1: Seq<u8>, buf2: Seq<u8>)
    requires
        buf1 == buf2,
    ensures
        rabin_chunks(buf1, 0) == rabin_chunks(buf2, 0),
{
}

/// A cut depends only on the bytes from the chunk start onward: two
/// buffers that agree from `s1` and `s2` to their ends are cut at the
/// same distance from those starts.
pub proof fn lemma_rabin_cut_local(buf1: Seq<u8>, s1: int, buf2: Seq<u8>, s2: int)
    requires
        0 <= s1 <= buf1.len(),
        0 <= s2 <= buf2.len(),
        buf1.subrange(s1, buf1.len() as int) == buf2.subrange(s2, buf2.len() as int),
    ensures
        rabin_cut_len(buf1, s1) == rabin_cut_len(buf2, s2),
{
    assert(buf1.subrange(s1, buf1.len() as int).len() == buf1.len() - s1);
    assert(buf2.subrange(s2, buf2.len() as int).len() == buf2.len() - s2);
    assert(buf1.len() - s1 == buf2.len() - s2);
    if buf1.len() - s1 < MIN_SIZE {
    } else {
        lemma_rabin_scan_local(buf1, s1, buf2, s2, s1 + WIN_SLIDE_POS, zero_window(), 0, 0);
    }
}

/// The scan shifted: matching states over a shared suffix stay matched.
proof fn lemma_rabin_scan_local(
    buf1: Seq<u8>,
    s1: int,
    buf2: Seq<u8>,
    s2: int,
    pos: int,
    win: Seq<u8>,
    win_idx: int,
    rh: u64,
)
    requires
        0 <= s1 <= pos <= buf1.len(),
        0 <= s2 <= buf2.len(),
        0 <= win_idx < WIN_SIZE,
        win.len() == WIN_SIZE,
        buf1.subrange(s1, buf1.len() as int) == buf2.subrange(s2, buf2.len() as int),
    ensures
        rabin_scan(buf1, s1, pos, win, win_idx, rh) == rabin_scan(
            buf2,
            s2,
            pos - s1 + s2,
            win,
            win_idx,
            rh,
        ),
    decreases buf1.len() - pos,
{
    assert(buf1.subrange(s1, buf1.len() as int).len() == buf1.len() - s1);
    assert(buf2.subrange(s2, buf2.len() as int).len() == buf2.len() - s2);
    assert(buf1.len() - s1 == buf2.len() - s2);
    let pos2 = pos - s1 + s2;
    if pos >= buf1.len() {
    } else {
        assert(buf1[pos] == buf1.subrange(s1, buf1.len() as int)[pos - s1]);
        assert(buf2[pos2] == buf2.subrange(s2, buf2.len() as int)[pos - s1]);
        let ch = buf1[pos];
        let out = win[win_idx];
        let rh2 = roll_step(rh, ch, out_entry(out as int));
        let win2 = win.update(win_idx, ch);
        let wi2 = if win_idx + 1 == WIN_SIZE {
            0
        } else {
            win_idx + 1
        };
        let clen = pos + 1 - s1;
        if clen >= MIN_SIZE && (((rh2 ^ ir_entry(out as int)) & CUT_MASK == 0) || clen
            >= MAX_SIZE) {
        } else {
            lemma_rabin_scan_local(buf1, s1, buf2, s2, pos + 1, win2, wi2, rh2);
        }
    }
}

/// Content sensitivity: the tail of a pass depends only on the bytes
/// from its start onward, so an edit cannot move boundaries beyond the
/// chunk in which the buffers' shared suffix begins.
pub proof fn lemma_rabin_chunks_local(buf1: Seq<u8>, s1: int, buf2: Seq<u8>, s2: int)
    requires
        0 <= s1 <= buf1.len() <= usize::MAX,
        0 <= s2 <= buf2.len() <= usize::MAX,
        buf1.subrange(s1, buf1.len() as int) == buf2.subrange(s2, buf2.len() as int),
    ensures
        rabin_chunks(buf1, s1).map_values(|c: Chunk| c.len) == rabin_chunks(buf2, s2).map_values(
            |c: Chunk| c.len,
        ),
    decreases buf1.len() - s1,
{
    assert(buf1.subrange(s1, buf1.len() as int).len() == buf1.len() - s1);
    assert(buf2.subrange(s2, buf2.len() as int).len() == buf2.len() - s2);
    assert(buf1.len() - s1 == buf2.len() - s2);
    if s1 >= buf1.len() {
        assert(rabin_chunks(buf1, s1).map_values(|c: Chunk| c.len) =~= rabin_chunks(
            buf2,
            s2,
        ).map_values(|c: Chunk| c.len));
    } else {
        let l = rabin_cut_len(buf1, s1);
        lemma_rabin_cut_local(buf1, s1, buf2, s2);
        lemma_rabin_cut_bounds(buf1, s1);
        lemma_rabin_cut_bounds(buf2, s2);
        let cut1 = s1 + l;
        let cut2 = s2 + l;
        assert(buf1.subrange(cut1, buf1.len() as int) =~= buf2.subrange(
            cut2,
            buf2.len() as int,
        )) by {
            assert forall|i: int| 0 <= i < buf1.len() - cut1 implies buf1.subrange(
                cut1,
                buf1.len() as int,
            )[i] == buf2.subrange(cut2, buf2.len() as int)[i] by {
                assert(buf1[cut1 + i] == buf1.subrange(s1, buf1.len() as int)[cut1 - s1 + i]);
                assert(buf2[cut2 + i] == buf2.subrange(s2, buf2.len() as int)[cut1 - s1 + i]);
            }
        }
        lemma_rabin_chunks_local(buf1, cut1, buf2, cut2);
        let cs1 = rabin_chunks(buf1, s1);
        let cs2 = rabin_chunks(buf2, s2);
        let rest1 = rabin_chunks(buf1, cut1);
        let rest2 = rabin_chunks(buf2, cut2);
        let head1 = Chunk { pos: s1 as usize, len: l as usize };
        let head2 = Chunk { pos: s2 as usize, len: l as usize };
        assert(cs1 == seq![head1] + rest1);
        assert(cs2 == seq![head2] + rest2);
        let m1 = cs1.map_values(|c: Chunk| c.len);
        let m2 = cs2.map_values(|c: Chunk| c.len);
        let r1 = rest1.map_values(|c: Chunk| c.len);
        let r2 = rest2.map_values(|c: Chunk| c.len);
        assert(r1 == r2);
        assert(m1 =~= m2) by {
            assert(m1.len() == cs1.len() == 1 + rest1.len());
            assert(m2.len() == cs2.len() == 1 + rest2.len());
            assert(r1.len() == rest1.len() && r2.len() == rest2.len());
            assert forall|i: int| 0 <= i < m1.len() implies m1[i] == m2[i] by {
                if i == 0 {
                    assert(m1[0] == head1.len && m2[0] == head2.len);
                } else {
                    assert(cs1[i] == rest1[i - 1] && cs2[i] == rest2[i - 1]);
                    assert(m1[i] == cs1[i].len && m2[i] == cs2[i].len);
                    assert(r1[i - 1] == rest1[i - 1].len && r2[i - 1] == rest2[i - 1].len);
                }
            }
        }
        assert(rabin_chunks(buf1, s1).map_values(|c: Chunk| c.len) == m1);
        assert(rabin_chunks(buf2, s2).map_values(|c: Chunk| c.len) == m2);
    }
}

/// Pre-calculated chunker parameters: the power of the prime at the
/// window size, the per-byte out-going contribution table, and the
/// irreducible-polynomial table.
#[derive(Clone)]
pub struct ChunkerParams {
    poly_pow: u64,
    out_map: Vec<u64>,
    ir: Vec<u64>,
}

impl ChunkerParams {
    /// A unit power and all-zero tables, as `default` leaves them.
    pub closed spec fn is_zeroed(self) -> bool {
        &&& self.poly_pow == 1u64
        &&& self.out_map@ == Seq::new(256nat, |i: int| 0u64)
        &&& self.ir@ == Seq::new(256nat, |i: int| 0u64)
    }

    /// The tables hold exactly the spec-level entries.
    pub closed spec fn wf(self) -> bool {
        &&& self.poly_pow == pow_p(WIN_SIZE as nat)
        &&& self.out_map@.len() == 256
        &&& self.ir@.len() == 256
        &&& forall|i: int| 0 <= i < 256 ==> self.out_map@[i] == out_entry(i)
        &&& forall|i: int| 0 <= i < 256 ==> self.ir@[i] == ir_entry(i)
    }

    /// Computes the power, out-map and irreducible-polynomial tables.
    pub fn new() -> (cp: ChunkerParams)
        ensures
            cp.wf(),
    {
        let mut cp = ChunkerParams::default();

        let mut w: usize = 0;
        while w < WIN_SIZE
            invariant
                w <= WIN_SIZE,
                cp.poly_pow == pow_p(w as nat),
                cp.poly_pow <= MASK || w == 0,
                cp.out_map@.len() == 256,
                cp.ir@.len() == 256,
            decreases WIN_SIZE - w,
        {
            proof {
                assert(cp.poly_pow * PRIME <= MASK * PRIME) by (nonlinear_arith)
                    requires
                        cp.poly_pow <= MASK,
                ;
                lemma_and_mask40((cp.poly_pow * PRIME) as u64);
            }
            cp.poly_pow = (cp.poly_pow * PRIME) & MASK;
            w = w + 1;
        }

        let mut i: usize = 0;
        while i < 256
            invariant
                i <= 256,
                cp.poly_pow == pow_p(WIN_SIZE as nat),
                cp.out_map@.len() == 256,
                cp.ir@.len() == 256,
                forall|j: int| 0 <= j < i ==> cp.out_map@[j] == out_entry(j),
                forall|j: int| 0 <= j < i ==> cp.ir@[j] == ir_entry(j),
            decreases 256 - i,
        {
            proof {
                assert(pow_p(WIN_SIZE as nat) <= MASK);
                assert((i as int) * cp.poly_pow <= 255 * MASK) by (nonlinear_arith)
                    requires
                        i < 256,
                        cp.poly_pow <= MASK,
                ;
                lemma_and_mask40((i as u64 * cp.poly_pow) as u64);
            }
            cp.out_map.set(i, (i as u64 * cp.poly_pow) & MASK);

            let mut term: u64 = 1;
            let mut pow: u64 = 1;
            let mut val: u64 = 1;
            let mut k: usize = 0;
            while k < WIN_SIZE
                invariant
                    k <= WIN_SIZE,
                    i < 256,
                    term == ir_term(k as nat),
                    pow == pow_p(k as nat),
                    pow <= MASK || k == 0,
                    val == ir_val(i as int, k as nat),
                    1 <= val <= 1 + (k as int) * (MASK as int),
                decreases WIN_SIZE - k,
            {
                proof {
                    lemma_ir_val_bounds(i as int, (k + 1) as nat);
                    assert((k as int) * (MASK as int) + (MASK as int) == ((k + 1) as int) * (
                    MASK as int)) by (nonlinear_arith);
                    assert(pow * (i as u64) <= MASK * 255) by (nonlinear_arith)
                        requires
                            pow <= MASK,
                            i < 256,
                    ;
                    lemma_and_mask40((pow * i as u64) as u64);
                    assert(pow * PRIME <= MASK * PRIME) by (nonlinear_arith)
                        requires
                            pow <= MASK,
                    ;
                    lemma_and_mask40((pow * PRIME) as u64);
                    assert(ir_term(k as nat) <= 0x10000) by {
                        lemma_ir_term_bound(k as nat);
                    }
                }
                if (term & FP_POLY) != 0 {
                    val = val + ((pow * i as u64) & MASK);
                }
                pow = (pow * PRIME) & MASK;
                term = term * 2;
                k = k + 1;
            }
            cp.ir.set(i, val);

            i = i + 1;
        }

        cp
    }
}

/// The probe stays small over the window-size steps.
proof fn lemma_ir_term_bound(k: nat)
    requires
        k <= WIN_SIZE,
    ensures
        ir_term(k) <= 0x10000,
{
    assert(ir_term(0) == 1);
    assert(ir_term(1) == 2);
    assert(ir_term(2) == 4);
    assert(ir_term(3) == 8);
    assert(ir_term(4) == 16);
    assert(ir_term(5) == 32);
    assert(ir_term(6) == 64);
    assert(ir_term(7) == 128);
    assert(ir_term(8) == 256);
    assert(ir_term(9) == 512);
    assert(ir_term(10) == 1024);
    assert(ir_term(11) == 2048);
    assert(ir_term(12) == 4096);
    assert(ir_term(13) == 8192);
    assert(ir_term(14) == 16384);
    assert(ir_term(15) == 32768);
    assert(ir_term(16) == 65536);
}

impl Default for ChunkerParams {
    /// Zeroed tables, to be filled in by `new`.
    fn default() -> (cp: ChunkerParams)
        ensures
            cp.is_zeroed(),
    {
        let out_map: Vec<u64> = vec![0u64; 256];
        let ir: Vec<u64> = vec![0u64; 256];
        let ret = ChunkerParams { poly_pow: 1, out_map, ir };
        proof {
            assert(ret.out_map@ =~= Seq::new(256nat, |i: int| 0u64));
            assert(ret.ir@ =~= Seq::new(256nat, |i: int| 0u64));
        }
        ret
    }
}

/// A single forward pass over one borrowed buffer.
pub struct Chunker<'a> {
    buf: &'a [u8],
    params: ChunkerParams,
    pos: usize,
    len: usize,
}

impl<'a> Chunker<'a> {
    /// The buffer this pass walks.
    pub closed spec fn buf_spec(self) -> Seq<u8> {
        self.buf@
    }

    /// Offset where the next chunk will begin.
    pub closed spec fn start_spec(self) -> int {
        self.pos as int
    }

    /// The cursor stays inside the buffer and the tables are exact.
    pub closed spec fn wf(self) -> bool {
        &&& self.len == self.buf@.len()
        &&& self.pos <= self.len
        &&& self.params.wf()
    }

    /// Historically tuned default sizes for this variant.
    pub fn default_sizes() -> (s: SizeParams)
        ensures
            s == (SizeParams { min: MIN_SIZE, avg: AVG_SIZE, max: MAX_SIZE }),
            s.wf(),
    {
        SizeParams { min: MIN_SIZE, avg: AVG_SIZE, max: MAX_SIZE }
    }

    /// Borrows the buffer for one pass, computing fresh tables.
    pub fn new(buf: &'a [u8]) -> (c: Chunker<'a>)
        ensures
            c.wf(),
            c.buf_spec() == buf@,
            c.start_spec() == 0,
    {
        Chunker { buf, pos: 0, params: ChunkerParams::new(), len: buf.len() }
    }

    /// Borrows the buffer for one pass, reusing previously computed
    /// tables (they must be exact, as `ChunkerParams::new` leaves them).
    pub fn with_params(buf: &'a [u8], params: ChunkerParams) -> (c: Chunker<'a>)
        requires
            params.wf(),
        ensures
            c.wf(),
            c.buf_spec() == buf@,
            c.start_spec() == 0,
    {
        Chunker { buf, params, pos: 0, len: buf.len() }
    }

    /// Hands the tables back for reuse by another pass.
    pub fn give_params(self) -> (p: ChunkerParams)
        requires
            self.wf(),
        ensures
            p.wf(),
    {
        self.params
    }

    /// Advances the cursor past the current chunk and returns the
    /// chunk's length, or nothing once the buffer is exhausted. The
    /// result is pinned to the spec-level cut length.
    #[verifier::rlimit(100)]
    fn find_border(&mut self) -> (r: Option<usize>)
        requires
            old(self).wf(),
        ensures
            final(self).wf(),
            final(self).buf_spec() == old(self).buf_spec(),
            final(self).params == old(self).params,
            old(self).start_spec() == old(self).buf_spec().len() ==> r is None && final(self).start_spec() == old(self).start_spec(),
            old(self).start_spec() < old(self).buf_spec().len() ==> {
                let l = rabin_cut_len(old(self).buf_spec(), old(self).start_spec());
                r == Some(l as usize) && final(self).start_spec() == old(self).start_spec() + l
            },
    {
        if self.len == self.pos {
            return None;
        }
        let ghost start: int = self.pos as int;
        proof {
            lemma_rabin_cut_bounds(self.buf@, start);
        }

        if self.len - self.pos < MIN_SIZE {
            let pos: usize = self.pos;
            self.pos = self.len;
            return Some(self.len - pos);
        }

        self.pos = self.pos + WIN_SLIDE_POS;
        let mut chunk_len: usize = WIN_SLIDE_POS;

        let mut win: [u8; 16] = [0u8; 16];
        let mut win_idx: usize = 0;
        let mut roll_hash: u64 = 0;

        proof {
            assert(win@ =~= zero_window());
        }
        let ghost target: int = rabin_scan(self.buf@, start, self.pos as int, win@, 0, 0);
        assert(target == rabin_cut_len(self.buf@, start));

        while self.pos < self.len
            invariant
                self.buf == old(self).buf,
                self.params == old(self).params,
                self.len == old(self).len,
                self.params.wf(),
                start + chunk_len == self.pos,
                self.pos <= self.len,
                chunk_len < MAX_SIZE,
                win_idx < WIN_SIZE,
                win@.len() == WIN_SIZE,
                roll_hash <= MASK,
                target == rabin_scan(
                    self.buf@,
                    start,
                    self.pos as int,
                    win@,
                    win_idx as int,
                    roll_hash,
                ),
            decreases self.len - self.pos,
        {
            let ch: u8 = self.buf[self.pos];
            let out: usize = win[win_idx] as usize;
            let pushed_out: u64 = self.params.out_map[out];

            let ghost rh0: u64 = roll_hash;
            proof {
                assert(rh0 * PRIME <= MASK * PRIME) by (nonlinear_arith)
                    requires
                        rh0 <= MASK,
                ;
            }
            let prod: u64 = roll_hash * PRIME;
            proof {
                lemma_and_mask40(prod);
            }
            roll_hash = prod & MASK;
            roll_hash = roll_hash + (ch as u64);
            let sub: u64 = roll_hash.wrapping_sub(pushed_out);
            proof {
                lemma_and_mask40(sub);
                lemma_roll_step(rh0, ch, pushed_out);
            }
            roll_hash = sub & MASK;
            proof {
                assert(pushed_out == out_entry(out as int));
                assert(roll_hash == roll_step(rh0, ch, out_entry(out as int)));
                assert(roll_hash <= MASK);
            }

            let ghost win0: Seq<u8> = win@;
            win[win_idx] = ch;
            proof {
                assert(win@ =~= win0.update(win_idx as int, ch));
            }
            let ghost wi0: usize = win_idx;
            let next_idx: usize = win_idx + 1;
            win_idx = next_idx & WIN_MASK;
            proof {
                assert(next_idx & 15usize == next_idx % 16) by (bit_vector);
                assert(win_idx == if wi0 + 1 == WIN_SIZE {
                    0int
                } else {
                    wi0 + 1
                });
            }

            chunk_len = chunk_len + 1;
            self.pos = self.pos + 1;

            if chunk_len >= MIN_SIZE {
                let checksum: u64 = roll_hash ^ self.params.ir[out];

                if (checksum & CUT_MASK) == 0 || chunk_len >= MAX_SIZE {
                    assert(chunk_len == target);
                    return Some(chunk_len);
                }
            }
            proof {
                assert(chunk_len < MAX_SIZE);
            }
        }

        proof {
            assert(self.pos == self.len);
            assert(rabin_scan(self.buf@, start, self.pos as int, win@, win_idx as int, roll_hash)
                == self.pos - start);
        }
        assert(chunk_len == target);
        Some(chunk_len)
    }

    /// Pulls the next chunk, or nothing once the buffer is exhausted.
    pub fn next_chunk(&mut self) -> (r: Option<Chunk>)
        requires
            old(self).wf(),
        ensures
            final(self).wf(),
            final(self).buf_spec() == old(self).buf_spec(),
            old(self).start_spec() == old(self).buf_spec().len() ==> r is None && final(self).start_spec() == old(self).start_spec(),
            old(self).start_spec() < old(self).buf_spec().len() ==> {
                let l = rabin_cut_len(old(self).buf_spec(), old(self).start_spec());
                r == Some(
                    Chunk { pos: old(self).start_spec() as usize, len: l as usize },
                ) && final(self).start_spec() == old(self).start_spec() + l
            },
    {
        let start: usize = self.pos;
        match self.find_border() {
            Some(length) => Some(Chunk::new(start, length)),
            None => None,
        }
    }

    /// Drives the pass to exhaustion. The collected chunks are exactly
    /// the spec-level chunk sequence, hence a partition of the buffer.
    pub fn chunk_all(&mut self) -> (chunks: Vec<Chunk>)
        requires
            old(self).wf(),
            old(self).start_spec() == 0,
        ensures
            chunks@ == rabin_chunks(old(self).buf_spec(), 0),
            crate::is_partition(chunks@, old(self).buf_spec().len() as int),
    {
        let ghost buf: Seq<u8> = self.buf_spec();
        let mut chunks: Vec<Chunk> = Vec::new();
        while self.pos < self.len
            invariant
                self.wf(),
                self.buf_spec() == buf,
                0 <= self.start_spec() <= buf.len(),
                rabin_chunks(buf, 0) == chunks@ + rabin_chunks(buf, self.start_spec()),
            decreases buf.len() - self.start_spec(),
        {
            let ghost start: int = self.start_spec();
            match self.next_chunk() {
                Some(c) => {
                    proof {
                        lemma_rabin_cut_bounds(buf, start);
                        let l = rabin_cut_len(buf, start);
                        assert(rabin_chunks(buf, start) == seq![c] + rabin_chunks(buf, start + l));
                        assert(chunks@.push(c) + rabin_chunks(buf, start + l) =~= chunks@ + (
                        seq![c] + rabin_chunks(buf, start + l)));
                    }
                    chunks.push(c);
                },
                None => {
                    proof {
                        assert(false);
                    }
                },
            }
        }
        proof {
            assert(rabin_chunks(buf, buf.len() as int) =~= Seq::<Chunk>::empty());
            assert(chunks@ + Seq::<Chunk>::empty() =~= chunks@);
            lemma_rabin_chunks_partition(buf, 0);
        }
        chunks
    }
}

} // verus!
