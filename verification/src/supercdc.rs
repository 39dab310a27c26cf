//! Gear-hash two-stage normalized chunker with repeat memoization: a
//! gear fingerprint is folded two bytes per step; a tight mask decides
//! up to the average-size midpoint, a looser one up to the maximum-size
//! midpoint, with the first backup-mask hit as a fallback boundary.
//! The gear value seen at each boundary is recorded with the chunk's
//! length, and a matching value on the next pull shelves a follow-up
//! chunk of the recorded length without rescanning.

use crate::gear_table::{gear_entry, gear_ls_entry, gear_lookup, gear_ls_lookup};
use crate::{covers_range, Chunk, SizeParams};
use std::collections::HashMap;
use vstd::prelude::*;
use vstd::slice::slice_subrange;

verus! {

broadcast use vstd::std_specs::hash::group_hash_axioms;

pub const MIN_CHUNK_SIZE: usize = 4096;

pub const AVG_CHUNK_SIZE: usize = 8192;

pub const MAX_CHUNK_SIZE: usize = 65536;

/// Tight mask, used up to the average-size midpoint (twelve bits).
pub const MASK_S: u64 = 0xfff;

/// Loose mask, used up to the maximum-size midpoint (eleven bits).
pub const MASK_L: u64 = 0x7ff;

/// Backup mask for the fallback boundary (ten bits).
pub const MASK_B: u64 = 0x3ff;

/// Mask for the even (pre-shifted) step of the tight phase:
/// `MASK_B << 1`.
pub const MASK_S_LS: u64 = 0x7fe;

/// Mask for the even (pre-shifted) step of the loose phase:
/// `MASK_L << 1`.
pub const MASK_L_LS: u64 = 0xffe;

/// Backup mask for the even step: `MASK_B << 1`.
pub const MASK_B_LS: u64 = 0x7fe;

/// The seed fingerprint folded from the bytes just before the scan
/// start: the terms `GEAR[buf[MIN_CHUNK_SIZE - i]] << i` for
/// `1 <= i < k`, wrapping.
pub open spec fn init_fp(buf: Seq<u8>, k: int) -> u64
    decreases k,
{
    if k <= 1 {
        0u64
    } else {
        vstd::wrapping::u64_specs::wrapping_add(
            init_fp(buf, k - 1),
            gear_entry(buf[MIN_CHUNK_SIZE - (k - 1)] as int) << ((k - 1) as u64),
        )
    }
}

/// The tight phase: from pair index `p` up to the average midpoint
/// `center / 2`, fold two bytes per step and cut where the tight masks
/// vanish; past the midpoint the loose phase takes over. Returns the
/// gear value at the boundary and the boundary offset.
pub open spec fn gear_scan_s(buf: Seq<u8>, center: int, remaining: int, fp: u64, p: int) -> (
    u64,
    int,
)
    decreases center / 2 - p,
{
    if p >= center / 2 {
        gear_scan_l(buf, remaining, fp, p, remaining, 0u64, false)
    } else {
        let a = p * 2;
        let g1 = gear_ls_entry(buf[a] as int);
        let fp1 = vstd::wrapping::u64_specs::wrapping_add(fp << 2u64, g1);
        if fp1 & MASK_S_LS == 0 {
            (g1, a)
        } else {
            let g2 = gear_entry(buf[a + 1] as int);
            let fp2 = vstd::wrapping::u64_specs::wrapping_add(fp1, g2);
            if fp2 & MASK_S == 0 {
                (g2, a + 1)
            } else {
                gear_scan_s(buf, center, remaining, fp2, p + 1)
            }
        }
    }
}

/// The loose phase: up to the maximum midpoint `remaining / 2`, cut
/// where the loose masks vanish, meanwhile recording the first offset
/// where the backup masks vanish; if nothing cuts, the recorded backup
/// (or the maximum itself) is the boundary.
pub open spec fn gear_scan_l(
    buf: Seq<u8>,
    remaining: int,
    fp: u64,
    p: int,
    bp: int,
    bp_gear: u64,
    flag: bool,
) -> (u64, int)
    decreases remaining / 2 - p,
{
    if p >= remaining / 2 {
        (bp_gear, bp)
    } else {
        let a = p * 2;
        let g1 = gear_ls_entry(buf[a] as int);
        let fp1 = vstd::wrapping::u64_specs::wrapping_add(fp << 2u64, g1);
        if fp1 & MASK_L_LS == 0 {
            (g1, a)
        } else {
            let bp1 = if !flag && fp1 & MASK_B_LS == 0 {
                a
            } else {
                bp
            };
            let bpg1 = if !flag && fp1 & MASK_B_LS == 0 {
                g1
            } else {
                bp_gear
            };
            let flag1 = flag || fp1 & MASK_B_LS == 0;
            let g2 = gear_entry(buf[a + 1] as int);
            let fp2 = vstd::wrapping::u64_specs::wrapping_add(fp1, g2);
            if fp2 & MASK_L == 0 {
                (g2, a + 1)
            } else {
                let bp2 = if !flag1 && fp2 & MASK_B == 0 {
                    a + 1
                } else {
                    bp1
                };
                let bpg2 = if !flag1 && fp2 & MASK_B == 0 {
                    g2
                } else {
                    bpg1
                };
                let flag2 = flag1 || fp2 & MASK_B == 0;
                gear_scan_l(buf, remaining, fp2, p + 1, bp2, bpg2, flag2)
            }
        }
    }
}

/// The boundary search over a buffer tail of at least the minimum
/// length: the gear value at the boundary and the boundary offset.
pub open spec fn gear_cut(buf: Seq<u8>) -> (u64, int) {
    let remaining = if buf.len() > MAX_CHUNK_SIZE {
        MAX_CHUNK_SIZE as int
    } else {
        buf.len() as int
    };
    let center = if buf.len() > AVG_CHUNK_SIZE {
        AVG_CHUNK_SIZE as int
    } else {
        buf.len() as int
    };
    gear_scan_s(buf, center, remaining, init_fp(buf, 16), MIN_CHUNK_SIZE / 2 + 15)
}

/// The loose phase cuts between the minimum size and `remaining`.
proof fn lemma_gear_scan_l_bounds(
    buf: Seq<u8>,
    remaining: int,
    fp: u64,
    p: int,
    bp: int,
    bp_gear: u64,
    flag: bool,
)
    requires
        2 * p >= MIN_CHUNK_SIZE,
        MIN_CHUNK_SIZE <= bp <= remaining,
    ensures
        MIN_CHUNK_SIZE <= gear_scan_l(buf, remaining, fp, p, bp, bp_gear, flag).1 <= remaining,
    decreases remaining / 2 - p,
{
    if p >= remaining / 2 {
    } else {
        let a = p * 2;
        let g1 = gear_ls_entry(buf[a] as int);
        let fp1 = vstd::wrapping::u64_specs::wrapping_add(fp << 2u64, g1);
        if fp1 & MASK_L_LS == 0 {
        } else {
            let bp1 = if !flag && fp1 & MASK_B_LS == 0 {
                a
            } else {
                bp
            };
            let bpg1 = if !flag && fp1 & MASK_B_LS == 0 {
                g1
            } else {
                bp_gear
            };
            let flag1 = flag || fp1 & MASK_B_LS == 0;
            let g2 = gear_entry(buf[a + 1] as int);
            let fp2 = vstd::wrapping::u64_specs::wrapping_add(fp1, g2);
            if fp2 & MASK_L == 0 {
            } else {
                let bp2 = if !flag1 && fp2 & MASK_B == 0 {
                    a + 1
                } else {
                    bp1
                };
                let bpg2 = if !flag1 && fp2 & MASK_B == 0 {
                    g2
                } else {
                    bpg1
                };
                let flag2 = flag1 || fp2 & MASK_B == 0;
                lemma_gear_scan_l_bounds(buf, remaining, fp2, p + 1, bp2, bpg2, flag2);
            }
        }
    }
}

/// The tight phase cuts between the minimum size and `remaining`.
proof fn lemma_gear_scan_s_bounds(buf: Seq<u8>, center: int, remaining: int, fp: u64, p: int)
    requires
        2 * p >= MIN_CHUNK_SIZE,
        MIN_CHUNK_SIZE <= remaining,
        center <= remaining,
    ensures
        MIN_CHUNK_SIZE <= gear_scan_s(buf, center, remaining, fp, p).1 <= remaining,
    decreases center / 2 - p,
{
    if p >= center / 2 {
        lemma_gear_scan_l_bounds(buf, remaining, fp, p, remaining, 0u64, false);
    } else {
        let a = p * 2;
        let g1 = gear_ls_entry(buf[a] as int);
        let fp1 = vstd::wrapping::u64_specs::wrapping_add(fp << 2u64, g1);
        if fp1 & MASK_S_LS == 0 {
        } else {
            let g2 = gear_entry(buf[a + 1] as int);
            let fp2 = vstd::wrapping::u64_specs::wrapping_add(fp1, g2);
            if fp2 & MASK_S == 0 {
            } else {
                lemma_gear_scan_s_bounds(buf, center, remaining, fp2, p + 1);
            }
        }
    }
}

/// Bounds of one boundary search: the cut lies between the minimum
/// size and `min(MAX_CHUNK_SIZE, buf.len())`.
pub proof fn lemma_gear_cut_bounds(buf: Seq<u8>)
    requires
        buf.len() >= MIN_CHUNK_SIZE,
    ensures
        MIN_CHUNK_SIZE <= gear_cut(buf).1 <= buf.len(),
        gear_cut(buf).1 <= MAX_CHUNK_SIZE,
{
    let remaining = if buf.len() > MAX_CHUNK_SIZE {
        MAX_CHUNK_SIZE as int
    } else {
        buf.len() as int
    };
    let center = if buf.len() > AVG_CHUNK_SIZE {
        AVG_CHUNK_SIZE as int
    } else {
        buf.len() as int
    };
    lemma_gear_scan_s_bounds(buf, center, remaining, init_fp(buf, 16), MIN_CHUNK_SIZE / 2 + 15);
}

/// The abstract state of one memoizing pass: the cursor, the recorded
/// boundary-gear values with their chunk lengths, the gear value and
/// recording flag carried from the previous pull, and a shelved
/// follow-up chunk length, if any.
pub struct GearState {
    pub pos: int,
    pub records: Map<u64, usize>,
    pub last_hash: u64,
    pub record_flag: bool,
    pub shelved: Option<usize>,
}

/// State invariant: the cursor is inside the buffer, every recorded
/// length is a boundary-search result, and a shelved chunk fits
/// strictly inside the remaining buffer.
pub open spec fn gear_wf(buf: Seq<u8>, st: GearState) -> bool {
    &&& 0 <= st.pos <= buf.len()
    &&& buf.len() + MAX_CHUNK_SIZE <= usize::MAX
    &&& (forall|k: u64|
        st.records.contains_key(k) ==> MIN_CHUNK_SIZE <= #[trigger] st.records[k]
            <= MAX_CHUNK_SIZE)
    &&& (st.shelved matches Some(l) ==> MIN_CHUNK_SIZE <= l <= MAX_CHUNK_SIZE && st.pos + l
        < buf.len())
}

/// One pull: a shelved chunk is emitted as recorded; an exhausted
/// buffer yields nothing; a tail shorter than the minimum size is the
/// final chunk; otherwise the boundary search cuts, the previous gear
/// value may be recorded, and a match of the new gear value against the
/// records shelves a follow-up chunk if it fits.
pub open spec fn gear_step(buf: Seq<u8>, st: GearState) -> (Option<Chunk>, GearState) {
    if st.shelved matches Some(l) {
        (
            Some(Chunk { pos: st.pos as usize, len: st.shelved->Some_0 }),
            GearState { pos: st.pos + st.shelved->Some_0, shelved: None, ..st },
        )
    } else if st.pos == buf.len() {
        (None, st)
    } else if buf.len() - st.pos < MIN_CHUNK_SIZE {
        (
            Some(Chunk { pos: st.pos as usize, len: (buf.len() - st.pos) as usize }),
            GearState { pos: buf.len() as int, ..st },
        )
    } else {
        let cut = gear_cut(buf.subrange(st.pos, buf.len() as int));
        let g = cut.0;
        let l = cut.1 as usize;
        let m1 = if st.record_flag {
            st.records.insert(st.last_hash, l)
        } else {
            st.records
        };
        let newpos = st.pos + l;
        if m1.contains_key(g) {
            let found = m1[g];
            (
                Some(Chunk { pos: st.pos as usize, len: l }),
                GearState {
                    pos: newpos,
                    records: m1,
                    last_hash: g,
                    record_flag: false,
                    shelved: if newpos + found < buf.len() {
                        Some(found)
                    } else {
                        None
                    },
                },
            )
        } else {
            (
                Some(Chunk { pos: st.pos as usize, len: l }),
                GearState {
                    pos: newpos,
                    records: m1,
                    last_hash: g,
                    record_flag: true,
                    shelved: None,
                },
            )
        }
    }
}

/// One pull advances the cursor by the emitted chunk and preserves the
/// state invariant; the chunk obeys the size bounds.
pub proof fn lemma_gear_step(buf: Seq<u8>, st: GearState)
    requires
        gear_wf(buf, st),
        st.pos < buf.len(),
    ensures
        ({
            let (c, st2) = gear_step(buf, st);
            &&& c matches Some(ch)
            &&& (c matches Some(ch) ==> {
                &&& ch.pos == st.pos
                &&& 1 <= ch.len <= MAX_CHUNK_SIZE
                &&& st2.pos == st.pos + ch.len
                &&& gear_wf(buf, st2)
                &&& (st.pos + ch.len < buf.len() ==> ch.len >= MIN_CHUNK_SIZE)
            })
        }),
{
    if st.shelved matches Some(l) {
    } else if buf.len() - st.pos < MIN_CHUNK_SIZE {
    } else {
        let tail = buf.subrange(st.pos, buf.len() as int);
        lemma_gear_cut_bounds(tail);
        let cut = gear_cut(tail);
        let l = cut.1 as usize;
        let m1 = if st.record_flag {
            st.records.insert(st.last_hash, l)
        } else {
            st.records
        };
        assert forall|k: u64| m1.contains_key(k) implies MIN_CHUNK_SIZE <= #[trigger] m1[k]
            <= MAX_CHUNK_SIZE by {
            if st.record_flag && k == st.last_hash {
            } else {
                assert(st.records.contains_key(k) && m1[k] == st.records[k]);
            }
        }
    }
}

/// The whole pass from a given state: the chunks emitted until the
/// buffer is exhausted.
pub open spec fn gear_run(buf: Seq<u8>, st: GearState) -> Seq<Chunk>
    decreases buf.len() - st.pos
    when gear_wf(buf, st)
    via gear_run_decreases
{
    if st.pos >= buf.len() {
        Seq::empty()
    } else {
        let (c, st2) = gear_step(buf, st);
        match c {
            Some(ch) => seq![ch] + gear_run(buf, st2),
            None => Seq::empty(),
        }
    }
}

#[via_fn]
proof fn gear_run_decreases(buf: Seq<u8>, st: GearState) {
    if gear_wf(buf, st) && st.pos < buf.len() {
        lemma_gear_step(buf, st);
    }
}

/// The fresh state of a new pass.
pub open spec fn gear_fresh() -> GearState {
    GearState {
        pos: 0,
        records: Map::empty(),
        last_hash: 0u64,
        record_flag: false,
        shelved: None,
    }
}

/// Partition property: a pass from state `st` covers exactly
/// `[st.pos, buf.len())`.
pub proof fn lemma_gear_run_partition(buf: Seq<u8>, st: GearState)
    requires
        gear_wf(buf, st),
    ensures
        covers_range(gear_run(buf, st), st.pos, buf.len() as int),
    decreases buf.len() - st.pos,
{
    if st.pos >= buf.len() {
    } else {
        let (c, st2) = gear_step(buf, st);
        lemma_gear_step(buf, st);
        let ch = c->Some_0;
        lemma_gear_run_partition(buf, st2);
        crate::lemma_covers_range_cons(ch, gear_run(buf, st2), st.pos, buf.len() as int);
    }
}

/// Bounds property: no chunk is empty or longer than the maximum size,
/// and every chunk except possibly the final one reaches the minimum.
pub proof fn lemma_gear_run_len_bounds(buf: Seq<u8>, st: GearState)
    requires
        gear_wf(buf, st),
    ensures
        forall|i: int|
            0 <= i < gear_run(buf, st).len() ==> 1 <= (#[trigger] gear_run(buf, st)[i]).len
                <= MAX_CHUNK_SIZE,
        forall|i: int|
            0 <= i < gear_run(buf, st).len() - 1 ==> (#[trigger] gear_run(buf, st)[i]).len
                >= MIN_CHUNK_SIZE,
    decreases buf.len() - st.pos,
{
    if st.pos >= buf.len() {
    } else {
        let (c, st2) = gear_step(buf, st);
        lemma_gear_step(buf, st);
        let ch = c->Some_0;
        lemma_gear_run_len_bounds(buf, st2);
        let cs = gear_run(buf, st);
        let rest = gear_run(buf, st2);
        assert(forall|i: int| 0 <= i < rest.len() ==> cs[i + 1] == rest[i]);
        assert(rest.len() == 0 ==> cs.len() == 1);
        assert forall|i: int| 0 <= i < cs.len() implies 1 <= (#[trigger] cs[i]).len
            <= MAX_CHUNK_SIZE by {
            if i > 0 {
                assert(cs[i] == rest[i - 1]);
            }
        }
        assert forall|i: int| 0 <= i < cs.len() - 1 implies (#[trigger] cs[i]).len
            >= MIN_CHUNK_SIZE by {
            if i > 0 {
                assert(cs[i] == rest[i - 1]);
            } else {
                assert(rest.len() > 0);
                assert(covers_range(rest, st2.pos, buf.len() as int)) by {
                    lemma_gear_run_partition(buf, st2);
                }
                assert(st2.pos < buf.len());
            }
        }
    }
}

/// Degenerate inputs: an empty buffer yields no chunks; a non-empty
/// buffer shorter than the minimum size yields exactly one chunk.
pub proof fn lemma_gear_degenerate(buf: Seq<u8>)
    requires
        buf.len() < MIN_CHUNK_SIZE,
    ensures
        buf.len() == 0 ==> gear_run(buf, gear_fresh()) == Seq::<Chunk>::empty(),
        buf.len() > 0 ==> gear_run(buf, gear_fresh()) == seq![
            Chunk { pos: 0, len: buf.len() as usize },
        ],
{
    if buf.len() > 0 {
        let (c, st2) = gear_step(buf, gear_fresh());
        assert(st2.pos == buf.len());
        assert(gear_run(buf, st2) =~= Seq::<Chunk>::empty());
        assert(gear_run(buf, gear_fresh()) =~= seq![Chunk { pos: 0, len: buf.len() as usize }]);
    }
}

/// Determinism: equal buffers give equal chunk sequences from fresh
/// passes.
pub proof fn lemma_gear_deterministic(buf1: Seq<u8>, buf2: Seq<u8>)
    requires
        buf1 == buf2,
    ensures
        gear_run(buf1, gear_fresh()) == gear_run(buf2, gear_fresh()),
{
}

/// A single memoizing forward pass over one borrowed buffer.
pub struct Chunker<'a> {
    buf: &'a [u8],
    records: HashMap<u64, usize>,
    last_hash: u64,
    record_last_hash: bool,
    pos: usize,
    shelved: Option<usize>,
}

impl<'a> Chunker<'a> {
    /// The buffer this pass walks.
    pub closed spec fn buf_spec(self) -> Seq<u8> {
        self.buf@
    }

    /// The abstract state of the pass.
    pub closed spec fn state_spec(self) -> GearState {
        GearState {
            pos: self.pos as int,
            records: self.records@,
            last_hash: self.last_hash,
            record_flag: self.record_last_hash,
            shelved: self.shelved,
        }
    }

    /// The exec state satisfies the abstract invariant.
    pub closed spec fn wf(self) -> bool {
        gear_wf(self.buf@, self.state_spec())
    }

    /// Historically tuned default sizes for this variant.
    pub fn default_sizes() -> (s: SizeParams)
        ensures
            s == (SizeParams {
                min: MIN_CHUNK_SIZE,
                avg: AVG_CHUNK_SIZE,
                max: MAX_CHUNK_SIZE,
            }),
            s.wf(),
    {
        SizeParams { min: MIN_CHUNK_SIZE, avg: AVG_CHUNK_SIZE, max: MAX_CHUNK_SIZE }
    }

    /// Borrows the buffer for one pass with an empty record map. The
    /// headroom requirement keeps cursor arithmetic from overflowing.
    pub fn new(buf: &'a [u8]) -> (c: Chunker<'a>)
        requires
            buf@.len() + MAX_CHUNK_SIZE <= usize::MAX,
        ensures
            c.wf(),
            c.buf_spec() == buf@,
            c.state_spec() == gear_fresh(),
    {
        let c = Chunker {
            buf,
            pos: 0,
            records: HashMap::new(),
            last_hash: 0,
            record_last_hash: false,
            shelved: None,
        };
        proof {
            assert(c.records@ =~= Map::<u64, usize>::empty());
            assert(c.state_spec() =~= gear_fresh());
        }
        c
    }

    /// Records the previous pull's gear value if asked to, then looks
    /// the new boundary's gear value up: a recorded length that fits in
    /// the remaining buffer is returned for shelving.
    fn use_record_map(&mut self, hash: u64, length: usize) -> (r: Option<usize>)
        requires
            old(self).wf(),
            MIN_CHUNK_SIZE <= length <= MAX_CHUNK_SIZE,
        ensures
            final(self).buf_spec() == old(self).buf_spec(),
            final(self).state_spec().pos == old(self).state_spec().pos,
            final(self).state_spec().shelved == old(self).state_spec().shelved,
            ({
                let st = old(self).state_spec();
                let m1 = if st.record_flag {
                    st.records.insert(st.last_hash, length)
                } else {
                    st.records
                };
                &&& final(self).state_spec().records == m1
                &&& final(self).state_spec().last_hash == hash
                &&& (m1.contains_key(hash) ==> {
                    &&& final(self).state_spec().record_flag == false
                    &&& r == (if old(self).pos_spec() + m1[hash] < old(self).buf_spec().len() {
                        Some(m1[hash])
                    } else {
                        None::<usize>
                    })
                })
                &&& (!m1.contains_key(hash) ==> final(self).state_spec().record_flag == true && r
                    is None)
            }),
    {
        if self.record_last_hash {
            self.records.insert(self.last_hash, length);
        }
        proof {
            let st = old(self).state_spec();
            assert forall|k: u64| self.records@.contains_key(k) implies MIN_CHUNK_SIZE
                <= #[trigger] self.records@[k] <= MAX_CHUNK_SIZE by {
                if st.record_flag && k == st.last_hash {
                } else {
                    assert(st.records.contains_key(k) && self.records@[k] == st.records[k]);
                }
            }
        }

        let mut result: Option<usize> = None;
        match self.records.get(&hash) {
            Some(found) => {
                let found_length: usize = *found;
                proof {
                    assert(self.records@.contains_key(hash));
                    assert(found_length <= MAX_CHUNK_SIZE);
                }
                self.record_last_hash = false;
                if self.pos + found_length < self.buf.len() {
                    result = Some(found_length);
                }
            },
            None => {
                self.record_last_hash = true;
            },
        }

        self.last_hash = hash;
        result
    }

    /// Cursor position (spec view of the private field).
    pub closed spec fn pos_spec(self) -> int {
        self.pos as int
    }

    /// The boundary search over the remaining buffer, exactly as the
    /// spec-level `gear_cut`; a tail shorter than the minimum size
    /// yields nothing.
    fn find_border(&self, buf: &[u8]) -> (r: Option<(u64, usize)>)
        ensures
            buf@.len() < MIN_CHUNK_SIZE ==> r is None,
            buf@.len() >= MIN_CHUNK_SIZE ==> r == Some(
                (gear_cut(buf@).0, gear_cut(buf@).1 as usize),
            ),
    {
        if buf.len() < MIN_CHUNK_SIZE {
            return None;
        }
        proof {
            lemma_gear_cut_bounds(buf@);
        }

        let remaining: usize = if MAX_CHUNK_SIZE < buf.len() {
            MAX_CHUNK_SIZE
        } else {
            buf.len()
        };
        let center: usize = if AVG_CHUNK_SIZE < buf.len() {
            AVG_CHUNK_SIZE
        } else {
            buf.len()
        };

        let mut breakpoint: usize = remaining;
        let mut breakpoint_flag: bool = false;

        let mut fingerprint: u64 = 0;
        let mut pos: usize = MIN_CHUNK_SIZE / 2;

        let mut breakpoint_gear: u64 = 0;
        let mut gear: u64;

        let mut index: usize = 1;
        while index < 16
            invariant
                1 <= index <= 16,
                buf@.len() >= MIN_CHUNK_SIZE,
                pos == MIN_CHUNK_SIZE / 2 + index - 1,
                fingerprint == init_fp(buf@, index as int),
            decreases 16 - index,
        {
            fingerprint = fingerprint.wrapping_add(
                gear_lookup(buf[MIN_CHUNK_SIZE - index]) << (index as u64),
            );
            pos = pos + 1;
            index = index + 1;
        }

        let ghost target: (u64, int) = gear_cut(buf@);
        assert(target == gear_scan_s(
            buf@,
            center as int,
            remaining as int,
            fingerprint,
            pos as int,
        ));

        while pos < center / 2
            invariant
                buf@.len() >= MIN_CHUNK_SIZE,
                pos >= MIN_CHUNK_SIZE / 2 + 15,
                center <= remaining <= buf@.len(),
                target == gear_scan_s(
                    buf@,
                    center as int,
                    remaining as int,
                    fingerprint,
                    pos as int,
                ),
            decreases center / 2 - pos,
        {
            let a: usize = pos * 2;
            gear = gear_ls_lookup(buf[a]);
            fingerprint = (fingerprint << 2u64).wrapping_add(gear);
            if fingerprint & MASK_S_LS == 0 {
                return Some((gear, a));
            }
            gear = gear_lookup(buf[a + 1]);
            fingerprint = fingerprint.wrapping_add(gear);
            if fingerprint & MASK_S == 0 {
                return Some((gear, a + 1));
            }
            pos = pos + 1;
        }

        proof {
            assert(target == gear_scan_l(
                buf@,
                remaining as int,
                fingerprint,
                pos as int,
                remaining as int,
                0u64,
                false,
            ));
        }

        while pos < remaining / 2
            invariant
                buf@.len() >= MIN_CHUNK_SIZE,
                pos >= MIN_CHUNK_SIZE / 2 + 15,
                remaining <= buf@.len(),
                breakpoint <= remaining,
                target == gear_scan_l(
                    buf@,
                    remaining as int,
                    fingerprint,
                    pos as int,
                    breakpoint as int,
                    breakpoint_gear,
                    breakpoint_flag,
                ),
            decreases remaining / 2 - pos,
        {
            let a: usize = pos * 2;
            gear = gear_ls_lookup(buf[a]);
            fingerprint = (fingerprint << 2u64).wrapping_add(gear);
            if fingerprint & MASK_L_LS == 0 {
                return Some((gear, a));
            }
            if !breakpoint_flag && fingerprint & MASK_B_LS == 0 {
                breakpoint_flag = true;
                breakpoint = a;
                breakpoint_gear = gear;
            }

            gear = gear_lookup(buf[a + 1]);
            fingerprint = fingerprint.wrapping_add(gear);
            if fingerprint & MASK_L == 0 {
                return Some((gear, a + 1));
            }
            if !breakpoint_flag && fingerprint & MASK_B == 0 {
                breakpoint_flag = true;
                breakpoint = a + 1;
                breakpoint_gear = gear;
            }
            pos = pos + 1;
        }

        if pos == remaining / 2 {
            return Some((breakpoint_gear, breakpoint));
        }

        Some((breakpoint_gear, breakpoint))
    }

    /// Pulls the next chunk, or nothing once the buffer is exhausted.
    /// The result and the new state are pinned to the spec-level step.
    pub fn next_chunk(&mut self) -> (r: Option<Chunk>)
        requires
            old(self).wf(),
        ensures
            final(self).wf(),
            final(self).buf_spec() == old(self).buf_spec(),
            r == gear_step(old(self).buf_spec(), old(self).state_spec()).0,
            final(self).state_spec() == gear_step(old(self).buf_spec(), old(self).state_spec()).1,
    {
        let ghost st0: GearState = self.state_spec();
        let ghost buf: Seq<u8> = self.buf@;

        if let Some(length) = self.shelved {
            self.shelved = None;

            let chunk = Chunk::new(self.pos, length);

            self.pos = self.pos + length;

            proof {
                assert(self.state_spec() =~= gear_step(buf, st0).1);
            }
            return Some(chunk);
        }

        let buf_ref: &[u8] = self.buf;
        let tail: &[u8] = slice_subrange(buf_ref, self.pos, buf_ref.len());
        match self.find_border(tail) {
            Some((hash, length)) => {
                proof {
                    lemma_gear_cut_bounds(tail@);
                }
                let chunk = Chunk::new(self.pos, length);

                self.pos = self.pos + length;

                if let Some(length2) = self.use_record_map(hash, length) {
                    self.shelved = Some(length2);
                }

                proof {
                    assert(self.state_spec() =~= gear_step(buf, st0).1);
                }
                Some(chunk)
            },
            None => {
                if self.pos < self.buf.len() {
                    let len: usize = self.buf.len() - self.pos;
                    let chunk = Chunk::new(self.pos, len);
                    self.pos = self.buf.len();
                    proof {
                        assert(self.state_spec() =~= gear_step(buf, st0).1);
                    }
                    Some(chunk)
                } else {
                    proof {
                        assert(self.state_spec() =~= gear_step(buf, st0).1);
                    }
                    None
                }
            },
        }
    }

    /// Drives the pass to exhaustion. The collected chunks are exactly
    /// the spec-level run, hence a partition of the buffer.
    pub fn chunk_all(&mut self) -> (chunks: Vec<Chunk>)
        requires
            old(self).wf(),
            old(self).state_spec() == gear_fresh(),
        ensures
            chunks@ == gear_run(old(self).buf_spec(), gear_fresh()),
            crate::is_partition(chunks@, old(self).buf_spec().len() as int),
    {
        let ghost buf: Seq<u8> = self.buf_spec();
        let mut chunks: Vec<Chunk> = Vec::new();
        while self.pos < self.buf.len()
            invariant
                self.wf(),
                self.buf_spec() == buf,
                gear_run(buf, gear_fresh()) == chunks@ + gear_run(buf, self.state_spec()),
            decreases buf.len() - self.state_spec().pos,
        {
            let ghost st: GearState = self.state_spec();
            match self.next_chunk() {
                Some(c) => {
                    proof {
                        lemma_gear_step(buf, st);
                        assert(gear_run(buf, st) == seq![c] + gear_run(buf, self.state_spec()));
                        assert(chunks@.push(c) + gear_run(buf, self.state_spec()) =~= chunks@ + (
                        seq![c] + gear_run(buf, self.state_spec())));
                    }
                    chunks.push(c);
                },
                None => {
                    proof {
                        assert(false);
                    }
                },
            }
        }
        proof {
            assert(gear_run(buf, self.state_spec()) =~= Seq::<Chunk>::empty());
            assert(chunks@ + Seq::<Chunk>::empty() =~= chunks@);
            lemma_gear_run_partition(buf, gear_fresh());
        }
        chunks
    }
}

} // verus!
