//! The journal: NAND pages presented as a double-ended queue of user pages,
//! each with a fixed-size block of metadata, grouped into checkpoints.
use vstd::prelude::*;
use vstd::arithmetic::power2::pow2;
use crate::bytes::{get32, put32, read_u32_at, write_u32_at, lemma_get_put32};
use crate::nand::{DharaBlock, DharaNand, DharaPage, same_pages, page_holds};
use crate::order::{page_distance, cyc, lemma_distance_cyc, lemma_rebase, lemma_shr_mono, lemma_block_bounds, lemma_in_block, lemma_block_of, lemma_before_boundary, lemma_four_pages, lemma_aligned_start, lemma_group_in_block, lemma_next_group};
use crate::pagemath::{
    low_mask, lemma_align_eq, lemma_mask_basics, lemma_low_mask_pow2, lemma_zero_user, lemma_shl_fits,
    lemma_next_upage, lemma_geometry, lemma_split_shift, lemma_div_diff, lemma_div_add_multiple,
    lemma_shl_aligned, lemma_mask_mod, lemma_block_start,
    lemma_page_block, lemma_group_page, lemma_following_group, lemma_shl_zero, lemma_same_group_start, lemma_next_in_group, lemma_group_last_page, lemma_head_step, lemma_midpoint,
    lemma_group_start, lemma_group_offset, lemma_and_le, lemma_not_block_start,
};
use crate::DharaError;

verus! {

/// Number of bytes used by the journal checkpoint header.
pub const DHARA_HEADER_SIZE: usize = 16;
/// Position of the epoch byte, after the 3-byte magic number.
pub const DHARA_HEADER_EPOCH_IDX: usize = 3;
/// Position of the 4-byte tail.
pub const DHARA_HEADER_TAIL_IDX: usize = 4;
/// Position of the 4-byte count of bad blocks before the current head.
pub const DHARA_HEADER_BBC_IDX: usize = 8;
/// Position of the 4-byte estimate of the total number of bad blocks.
pub const DHARA_HEADER_BBL_IDX: usize = 12;

/// Size of the global metadata ("cookie") kept for the layer above. It is
/// persistent once the journal reaches a checkpoint, and is restored on
/// startup.
pub const DHARA_COOKIE_SIZE: usize = 4;

/// Size of the metadata which accompanies each written page. This is
/// independent of the underlying page/OOB size.
pub const DHARA_META_SIZE: usize = 132;

/// When a block fails, or garbage is encountered, we try again on the next
/// block/checkpoint, up to this many times.
pub const DHARA_MAX_RETRIES: u8 = 8;

/// A page number which represents "no such page". It is never a valid
/// user page.
pub const DHARA_PAGE_NONE: DharaPage = 0xffffffff;

/// State flags.
pub const DHARA_JOURNAL_F_DIRTY: u8 = 0x01;
pub const DHARA_JOURNAL_F_BAD_META: u8 = 0x02;
pub const DHARA_JOURNAL_F_RECOVERY: u8 = 0x04;
pub const DHARA_JOURNAL_F_ENUM_DONE: u8 = 0x08;

// ------------------------------------------------------------------------
// Geometry

/// The chip geometry the journal can work with: a page holds a checkpoint
/// header and at least one block of metadata, the page buffer is exactly one
/// page, and page numbers (with room to spare) fit in 32 bits.
pub open spec fn geometry_valid<T: DharaNand>(nand: &T, n: usize) -> bool {
    &&& 8 <= nand.log2_page_size() <= 30
    &&& n == (1usize << (nand.log2_page_size() as usize))
    &&& 1 <= nand.log2_ppb() <= 31
    &&& 1 <= nand.num_blocks()
    &&& nand.num_blocks() <= (0x8000_0000u32 >> (nand.log2_ppb() as u32))
}

/// Number of pages on the chip.
pub open spec fn total_pages<T: DharaNand>(nand: &T) -> u32 {
    nand.num_blocks() << (nand.log2_ppb() as u32)
}

/// A user page: a page of the chip that is not the last (checkpoint) page
/// of its checkpoint group of `2^c` pages.
pub open spec fn is_user_page(p: u32, c: u8, t: u32) -> bool {
    p < t && (p & low_mask(c as u32)) != low_mask(c as u32)
}

/// The user page that follows `page`: the next page, skipping a checkpoint
/// page, and wrapping to page 0 at the end of the chip.
pub open spec fn next_upage_spec(page: u32, c: u8, t: u32) -> u32 {
    if page >= t {
        0
    } else {
        let q: u32 = if ((page + 2) as u32) & low_mask(c as u32) == 0 {
            (page + 2) as u32
        } else {
            (page + 1) as u32
        };
        if q >= t {
            0
        } else {
            q
        }
    }
}

// ------------------------------------------------------------------------
// Page geometry helpers independent of the journal

/// Is this page aligned to `n` bits?
pub fn is_aligned(p: DharaPage, n: u8) -> (r: bool)
    requires
        n < 32,
    ensures
        r == (p & low_mask(n as u32) == 0),
{
    proof {
        lemma_mask_basics(n as u32);
    }
    p & ((1u32 << n) - 1) == 0
}

/// Are these two pages in the same aligned group of `2^n` pages?
pub fn align_eq(a: DharaPage, b: DharaPage, n: u8) -> (r: bool)
    requires
        n < 32,
    ensures
        r == (a >> (n as u32) == b >> (n as u32)),
{
    proof {
        lemma_align_eq(a, b, n as u32);
    }
    (a ^ b) >> (n as u32) == 0
}

/// `a - b` if `a >= b`, otherwise `a`.
pub fn wrap(a: DharaPage, b: DharaPage) -> (r: DharaPage)
    ensures
        r == (if a >= b {
            a - b
        } else {
            a as int
        }),
{
    if a >= b {
        a - b
    } else {
        a
    }
}

/// The checkpoint period `r` chosen for a page of `2^log2_psize` bytes and
/// at most `2^max` pages per group: the largest `r` in `1..=max` such that
/// `2^r - 1` blocks of metadata fit on a page together with the journal
/// header and cookie, or 1 if there is no such `r`.
pub open spec fn is_chosen_ppc(r: u8, log2_psize: u8, max: u8) -> bool {
    let max_meta = pow2(log2_psize as nat) - DHARA_HEADER_SIZE - DHARA_COOKIE_SIZE;
    &&& 1 <= r
    &&& (r <= max || r == 1)
    &&& (r == 1 || DHARA_META_SIZE * (pow2(r as nat) - 1) <= max_meta)
    &&& (r >= max || DHARA_META_SIZE * (pow2((r + 1) as nat) - 1) > max_meta)
}

/// Calculate a checkpoint period: the largest value of ppc such that
/// (2**ppc - 1) metadata blocks can fit on a page with one journal header.
pub fn choose_ppc(log2_psize: u8, max: u8) -> (r: u8)
    requires
        5 <= log2_psize,
        (log2_psize as u32) < usize::BITS,
    ensures
        is_chosen_ppc(r, log2_psize, max),
{
    proof {
        vstd::bits::lemma_usize_pow2_no_overflow(log2_psize as nat);
        vstd::bits::lemma_usize_shl_is_mul(1, log2_psize as usize);
        vstd::arithmetic::power2::lemma2_to64();
        if log2_psize > 5 {
            vstd::arithmetic::power2::lemma_pow2_strictly_increases(5, log2_psize as nat);
        }
    }
    let max_meta: usize = (1usize << log2_psize) - DHARA_HEADER_SIZE - DHARA_COOKIE_SIZE;
    let mut total_meta: usize = DHARA_META_SIZE;
    let mut ppc: u8 = 1;

    while ppc < max
        invariant_except_break
            total_meta == DHARA_META_SIZE * (pow2(ppc as nat) - 1),
            ppc == 1 || total_meta <= max_meta,
        invariant
            1 <= ppc,
            ppc <= max || ppc == 1,
            max_meta == pow2(log2_psize as nat) - 20,
        ensures
            1 <= ppc,
            ppc <= max || ppc == 1,
            ppc == 1 || DHARA_META_SIZE * (pow2(ppc as nat) - 1) <= max_meta,
            ppc >= max || DHARA_META_SIZE * (pow2((ppc + 1) as nat) - 1) > max_meta,
        decreases max - ppc,
    {
        proof {
            vstd::arithmetic::power2::lemma_pow2_unfold((ppc + 1) as nat);
            vstd::arithmetic::power2::lemma_pow2_pos(ppc as nat);
        }
        // A total that no longer fits in a usize certainly exceeds max_meta.
        let next_total = match total_meta.checked_mul(2) {
            Some(d) => d.checked_add(DHARA_META_SIZE),
            None => None,
        };
        match next_total {
            None => {
                break;
            },
            Some(t) => {
                total_meta = t;
            },
        }
        if total_meta > max_meta {
            break;
        }
        ppc = ppc + 1;
    }
    ppc
}


/// What setting and clearing each flag bit does to the others.
pub proof fn lemma_flags(f: u8)
    by (bit_vector)
    ensures
        (0u8 & !(DHARA_JOURNAL_F_BAD_META | DHARA_JOURNAL_F_RECOVERY | DHARA_JOURNAL_F_ENUM_DONE)) == 0,
        (0u8 & DHARA_JOURNAL_F_DIRTY) == 0,
        (f & (DHARA_JOURNAL_F_DIRTY | DHARA_JOURNAL_F_RECOVERY) == 0) == (f & DHARA_JOURNAL_F_DIRTY == 0 && f
            & DHARA_JOURNAL_F_RECOVERY == 0),
        (0u8 & DHARA_JOURNAL_F_BAD_META) == 0,
        (0u8 & DHARA_JOURNAL_F_RECOVERY) == 0,
        (0u8 & DHARA_JOURNAL_F_ENUM_DONE) == 0,
        (f | DHARA_JOURNAL_F_DIRTY) & DHARA_JOURNAL_F_DIRTY != 0,
        (f | DHARA_JOURNAL_F_DIRTY) & DHARA_JOURNAL_F_BAD_META == f & DHARA_JOURNAL_F_BAD_META,
        (f | DHARA_JOURNAL_F_DIRTY) & DHARA_JOURNAL_F_RECOVERY == f & DHARA_JOURNAL_F_RECOVERY,
        (f | DHARA_JOURNAL_F_DIRTY) & DHARA_JOURNAL_F_ENUM_DONE == f & DHARA_JOURNAL_F_ENUM_DONE,
        (f | DHARA_JOURNAL_F_BAD_META) & DHARA_JOURNAL_F_DIRTY == f & DHARA_JOURNAL_F_DIRTY,
        (f | DHARA_JOURNAL_F_BAD_META) & DHARA_JOURNAL_F_BAD_META != 0,
        (f | DHARA_JOURNAL_F_BAD_META) & DHARA_JOURNAL_F_RECOVERY == f & DHARA_JOURNAL_F_RECOVERY,
        (f | DHARA_JOURNAL_F_BAD_META) & DHARA_JOURNAL_F_ENUM_DONE == f & DHARA_JOURNAL_F_ENUM_DONE,
        (f | DHARA_JOURNAL_F_RECOVERY) & DHARA_JOURNAL_F_DIRTY == f & DHARA_JOURNAL_F_DIRTY,
        (f | DHARA_JOURNAL_F_RECOVERY) & DHARA_JOURNAL_F_BAD_META == f & DHARA_JOURNAL_F_BAD_META,
        (f | DHARA_JOURNAL_F_RECOVERY) & DHARA_JOURNAL_F_RECOVERY != 0,
        (f | DHARA_JOURNAL_F_RECOVERY) & DHARA_JOURNAL_F_ENUM_DONE == f & DHARA_JOURNAL_F_ENUM_DONE,
        (f | DHARA_JOURNAL_F_ENUM_DONE) & DHARA_JOURNAL_F_DIRTY == f & DHARA_JOURNAL_F_DIRTY,
        (f | DHARA_JOURNAL_F_ENUM_DONE) & DHARA_JOURNAL_F_BAD_META == f & DHARA_JOURNAL_F_BAD_META,
        (f | DHARA_JOURNAL_F_ENUM_DONE) & DHARA_JOURNAL_F_RECOVERY == f & DHARA_JOURNAL_F_RECOVERY,
        (f | DHARA_JOURNAL_F_ENUM_DONE) & DHARA_JOURNAL_F_ENUM_DONE != 0,
        (f & !DHARA_JOURNAL_F_DIRTY) & DHARA_JOURNAL_F_DIRTY == 0,
        (f & !DHARA_JOURNAL_F_DIRTY) & DHARA_JOURNAL_F_BAD_META == f & DHARA_JOURNAL_F_BAD_META,
        (f & !DHARA_JOURNAL_F_DIRTY) & DHARA_JOURNAL_F_RECOVERY == f & DHARA_JOURNAL_F_RECOVERY,
        (f & !DHARA_JOURNAL_F_DIRTY) & DHARA_JOURNAL_F_ENUM_DONE == f & DHARA_JOURNAL_F_ENUM_DONE,
        (f & !DHARA_JOURNAL_F_ENUM_DONE) & DHARA_JOURNAL_F_DIRTY == f & DHARA_JOURNAL_F_DIRTY,
        (f & !DHARA_JOURNAL_F_ENUM_DONE) & DHARA_JOURNAL_F_BAD_META == f & DHARA_JOURNAL_F_BAD_META,
        (f & !DHARA_JOURNAL_F_ENUM_DONE) & DHARA_JOURNAL_F_RECOVERY == f & DHARA_JOURNAL_F_RECOVERY,
        (f & !DHARA_JOURNAL_F_ENUM_DONE) & DHARA_JOURNAL_F_ENUM_DONE == 0,
        (f & !(DHARA_JOURNAL_F_BAD_META | DHARA_JOURNAL_F_RECOVERY | DHARA_JOURNAL_F_ENUM_DONE))
            & DHARA_JOURNAL_F_DIRTY == f & DHARA_JOURNAL_F_DIRTY,
        (f & !(DHARA_JOURNAL_F_BAD_META | DHARA_JOURNAL_F_RECOVERY | DHARA_JOURNAL_F_ENUM_DONE))
            & DHARA_JOURNAL_F_BAD_META == 0,
        (f & !(DHARA_JOURNAL_F_BAD_META | DHARA_JOURNAL_F_RECOVERY | DHARA_JOURNAL_F_ENUM_DONE))
            & DHARA_JOURNAL_F_RECOVERY == 0,
        (f & !(DHARA_JOURNAL_F_BAD_META | DHARA_JOURNAL_F_RECOVERY | DHARA_JOURNAL_F_ENUM_DONE))
            & DHARA_JOURNAL_F_ENUM_DONE == 0,
{
}

/// The chosen checkpoint period is at least one page pair, at most a
/// block, and its metadata fits in a page.
proof fn lemma_ppc_fits(ppc: u8, psize: u8, max: u8, n: usize)
    requires
        8 <= psize <= 30,
        n == (1usize << (psize as usize)),
        1 <= max <= 31,
        is_chosen_ppc(ppc, psize, max),
    ensures
        1 <= ppc <= max,
        DHARA_HEADER_SIZE + DHARA_COOKIE_SIZE + low_mask(ppc as u32) * DHARA_META_SIZE <= n,
{
    lemma_low_mask_pow2(ppc as u32);
    vstd::bits::lemma_usize_pow2_no_overflow(psize as nat);
    vstd::bits::lemma_usize_shl_is_mul(1, psize as usize);
    vstd::arithmetic::power2::lemma2_to64();
    if psize > 8 {
        vstd::arithmetic::power2::lemma_pow2_strictly_increases(8, psize as nat);
    }
}

/// Sets the bytes `from..to` of `buf` to 0xff.
pub fn fill_ff(buf: &mut [u8], from: usize, to: usize)
    requires
        from <= to <= old(buf)@.len(),
    ensures
        final(buf)@.len() == old(buf)@.len(),
        forall|k: int|
            0 <= k < old(buf)@.len() ==> #[trigger] final(buf)@[k] == (if from <= k < to {
                0xffu8
            } else {
                old(buf)@[k]
            }),
{
    let mut i: usize = from;
    while i < to
        invariant
            from <= i <= to,
            to <= buf@.len(),
            buf@.len() == old(buf)@.len(),
            forall|k: int|
                0 <= k < old(buf)@.len() ==> #[trigger] buf@[k] == (if from <= k < i {
                    0xffu8
                } else {
                    old(buf)@[k]
                }),
        decreases to - i,
    {
        buf[i] = 0xff;
        i = i + 1;
    }
}

/// Copies `len` bytes from `src` at `src_off` into `dst` at `dst_off`.
pub fn copy_into(dst: &mut [u8], dst_off: usize, src: &[u8], src_off: usize, len: usize)
    requires
        dst_off + len <= old(dst)@.len(),
        src_off + len <= src@.len(),
    ensures
        final(dst)@.len() == old(dst)@.len(),
        forall|k: int|
            0 <= k < old(dst)@.len() ==> #[trigger] final(dst)@[k] == (if dst_off <= k < dst_off + len {
                src@[k - dst_off + src_off]
            } else {
                old(dst)@[k]
            }),
{
    let dst_len = dst.len();
    let src_len = src.len();
    let mut i: usize = 0;
    while i < len
        invariant
            i <= len,
            dst_off + len <= dst_len,
            src_off + len <= src_len,
            dst_len == dst@.len(),
            dst_off + len <= dst@.len(),
            src_off + len <= src@.len(),
            dst@.len() == old(dst)@.len(),
            forall|k: int|
                0 <= k < old(dst)@.len() ==> #[trigger] dst@[k] == (if dst_off <= k < dst_off + i {
                    src@[k - dst_off + src_off]
                } else {
                    old(dst)@[k]
                }),
        decreases len - i,
    {
        dst[dst_off + i] = src[src_off + i];
        i = i + 1;
    }
}

// ------------------------------------------------------------------------
// The journal

/// The state of a journal, as its operations see it: the pointers into the
/// chip, the flags and counters, and the contents of the page buffer.
#[verifier::ext_equal]
pub struct JournalView {
    pub log2_ppc: u8,
    pub epoch: u8,
    pub flags: u8,
    pub bb_current: u32,
    pub bb_last: u32,
    pub tail_sync: u32,
    pub tail: u32,
    pub head: u32,
    pub root: u32,
    pub recover_next: u32,
    pub recover_root: u32,
    pub recover_meta: u32,
    pub buf: Seq<u8>,
}

impl JournalView {
    pub open spec fn is_dirty(self) -> bool {
        self.flags & DHARA_JOURNAL_F_DIRTY != 0
    }

    pub open spec fn has_bad_meta(self) -> bool {
        self.flags & DHARA_JOURNAL_F_BAD_META != 0
    }

    pub open spec fn is_in_recovery(self) -> bool {
        self.flags & DHARA_JOURNAL_F_RECOVERY != 0
    }

    pub open spec fn is_enum_done(self) -> bool {
        self.flags & DHARA_JOURNAL_F_ENUM_DONE != 0
    }

    /// The cookie stored in the page buffer.
    pub open spec fn cookie(self) -> int {
        get32(self.buf, DHARA_HEADER_SIZE as int)
    }

    /// Offset in the page buffer of the metadata of user page `which` of a
    /// checkpoint group.
    pub open spec fn user_offset(which: int) -> int {
        DHARA_HEADER_SIZE + DHARA_COOKIE_SIZE + which * DHARA_META_SIZE
    }
}

/// The state of an empty journal with nothing recovered and a blank page
/// buffer of `n` bytes.
pub open spec fn reset_view(log2_ppc: u8, num_blocks: u32, n: usize) -> JournalView {
    JournalView {
        log2_ppc,
        epoch: 0,
        flags: 0,
        bb_current: 0,
        bb_last: num_blocks / 64,
        tail_sync: 0,
        tail: 0,
        head: 0,
        root: DHARA_PAGE_NONE,
        recover_next: DHARA_PAGE_NONE,
        recover_root: DHARA_PAGE_NONE,
        recover_meta: DHARA_PAGE_NONE,
        buf: Seq::new(n as nat, |i: int| 0xffu8),
    }
}

/// What every journal state satisfies on a chip of valid geometry: the
/// checkpoint period fits the page and the block, the page buffer is one
/// page, the head, tail and synchronized tail are user pages, and the root
/// (and the root being recovered) is a user page or none.
pub open spec fn journal_valid<T: DharaNand>(v: JournalView, nand: &T, n: usize) -> bool {
    let c = v.log2_ppc;
    let t = total_pages(nand);
    &&& geometry_valid(nand, n)
    &&& 1 <= c <= nand.log2_ppb()
    &&& DHARA_HEADER_SIZE + DHARA_COOKIE_SIZE + low_mask(c as u32) * DHARA_META_SIZE <= n
    &&& DHARA_HEADER_SIZE + DHARA_COOKIE_SIZE + DHARA_META_SIZE <= n
    &&& v.buf.len() == n
    &&& is_user_page(v.head, c, t)
    &&& is_user_page(v.tail, c, t)
    &&& is_user_page(v.tail_sync, c, t)
    &&& (v.root == DHARA_PAGE_NONE || is_user_page(v.root, c, t))
    &&& (v.recover_root == DHARA_PAGE_NONE || is_user_page(v.recover_root, c, t))
}

/// The block after `blk`, wrapping to block 0 at the end of the chip.
pub open spec fn next_block_spec(blk: u32, num_blocks: u32) -> u32 {
    if blk + 1 >= num_blocks {
        0
    } else {
        (blk + 1) as u32
    }
}

/// The state after the head has wrapped around the chip: the bad-block
/// count of the finished pass becomes the estimate for the chip, the count
/// restarts, and the epoch advances (wrapping at 256).
pub open spec fn rolled(v: JournalView) -> JournalView {
    JournalView {
        bb_last: v.bb_current,
        bb_current: 0,
        epoch: if v.epoch == 255 {
            0
        } else {
            (v.epoch + 1) as u8
        },
        ..v
    }
}

/// Upper bound on the number of user pages storable: the good blocks
/// (all blocks but one, less the smaller of the two bad-block counts), times
/// the checkpoints per block, times the user pages per checkpoint. Zero when
/// the bad-block count leaves no good block.
pub open spec fn capacity_spec(num_blocks: u32, log2_ppb: u8, c: u8, bb_last: u32, bb_current: u32) -> int {
    let max_bad: int = if bb_last < bb_current {
        bb_last as int
    } else {
        bb_current as int
    };
    if max_bad + 1 <= num_blocks {
        (num_blocks - max_bad - 1) * pow2((log2_ppb - c) as nat) * (pow2(c as nat) - 1)
    } else {
        0
    }
}

/// Upper bound on the number of user pages between the synchronized tail
/// `ts` and the head `h`, going forward around a chip of `t` pages: the raw
/// pages, less the checkpoint boundaries `2^c` passed.
pub open spec fn size_spec(h: u32, ts: u32, c: u8, t: u32) -> int {
    let p = pow2(c as nat) as int;
    if h < ts {
        (h + t - ts) - ((h as int) / p + (t as int) / p - (ts as int) / p)
    } else {
        (h - ts) - ((h as int) / p - (ts as int) / p)
    }
}

/// `a - b` if `a >= b`, otherwise `a`.
pub open spec fn wrap_spec(a: int, b: int) -> int {
    if a >= b {
        a - b
    } else {
        a
    }
}

/// The page buffer with its user metadata area (everything after the
/// header and cookie) blanked to 0xff.
pub open spec fn clear_user_buf(buf: Seq<u8>) -> Seq<u8> {
    Seq::new(
        buf.len(),
        |k: int|
            if DHARA_HEADER_SIZE + DHARA_COOKIE_SIZE <= k {
                0xffu8
            } else {
                buf[k]
            },
    )
}

/// The state after removing the oldest user page of a non-empty journal:
/// the tail moves to the next user page; if the journal is neither dirty
/// nor recovering, that data was always obsolete and the synchronized tail
/// follows; a root that the tail has passed is forgotten.
pub open spec fn dequeued(v: JournalView, t: u32) -> JournalView {
    let nt = next_upage_spec(v.tail, v.log2_ppc, t);
    let raw_size = wrap_spec(v.head + t - nt, t as int);
    JournalView {
        tail: nt,
        tail_sync: if !v.is_dirty() && !v.is_in_recovery() {
            nt
        } else {
            v.tail_sync
        },
        root: if v.root != DHARA_PAGE_NONE && wrap_spec(v.head + t - v.root, t as int) > raw_size {
            DHARA_PAGE_NONE
        } else {
            v.root
        },
        ..v
    }
}

/// The block at which a tail at the start of block `b` comes to rest: the
/// first block, going forward from `b` for at most `tries` blocks, that is
/// the head's block `hb` or is not marked bad; none if there is no such
/// block within `tries`.
pub open spec fn tail_stop<T: DharaNand>(nand: &T, b: u32, hb: u32, nb: u32, tries: nat) -> Option<u32>
    decreases tries,
{
    if tries == 0 {
        None
    } else if b == hb || !nand.marked_bad(b) {
        Some(b)
    } else {
        tail_stop(nand, next_block_spec(b, nb), hb, nb, (tries - 1) as nat)
    }
}

/// Both chips have the same geometry.
pub open spec fn same_geometry<T: DharaNand>(a: &T, b: &T) -> bool {
    &&& a.log2_page_size() == b.log2_page_size()
    &&& a.log2_ppb() == b.log2_ppb()
    &&& a.num_blocks() == b.num_blocks()
}

// ------------------------------------------------------------------------
// Queue order

/// The order the journal keeps between its pointers, stated with wrapping
/// page subtraction: the head never lies behind the synchronized tail in the
/// same block, and going forward from the synchronized tail one meets the
/// tail no later than the head.
pub open spec fn pointers_ordered(v: JournalView, log2_ppb: u8) -> bool {
    let s = log2_ppb as u32;
    &&& (v.head >> s == v.tail_sync >> s ==> v.head >= v.tail_sync)
    &&& page_distance(v.tail, v.tail_sync) <= page_distance(v.head, v.tail_sync)
}

/// The root, and while recovering the root being recovered, lie in the
/// queue: at or after the tail and before the head.
pub open spec fn roots_ordered(v: JournalView) -> bool {
    &&& (v.root != DHARA_PAGE_NONE ==> page_distance(v.root, v.tail) < page_distance(v.head, v.tail))
    &&& (v.is_in_recovery() && v.recover_root != DHARA_PAGE_NONE ==> page_distance(v.recover_root, v.tail)
        < page_distance(v.head, v.tail))
}

/// The journal's pointers are in queue order.
pub open spec fn queue_ordered(v: JournalView, log2_ppb: u8) -> bool {
    pointers_ordered(v, log2_ppb) && roots_ordered(v)
}

/// Moving the tail of `v` forward to page `p` passes none of its roots:
/// the root (unless the tail reaches the head) and, while recovering, the
/// root being recovered lie at or after `p`.
pub open spec fn roots_not_passed(v: JournalView, p: u32) -> bool {
    &&& (v.root == DHARA_PAGE_NONE || p == v.head || page_distance(p, v.tail) <= page_distance(v.root, v.tail))
    &&& (v.is_in_recovery() && v.recover_root != DHARA_PAGE_NONE ==> page_distance(p, v.tail) <= page_distance(
        v.recover_root,
        v.tail,
    ))
}

/// Writing at the head of `v` would move it onto the block of the
/// synchronized tail, from another block: on a chip of `t` pages in blocks of
/// `2^s` pages, the journal refuses to write.
pub open spec fn head_blocked(v: JournalView, s: u32, t: u32) -> bool {
    let n = next_upage_spec(v.head, v.log2_ppc, t);
    n >> s == v.tail_sync >> s && n >> s != v.head >> s
}

/// The queue order with every position measured forward from the
/// synchronized tail around a chip of `t` pages with blocks of `2^s` pages.
spec fn ordered_from(v: JournalView, s: u32, t: u32) -> bool {
    let ts = v.tail_sync;
    &&& (v.head >> s == ts >> s ==> v.head >= ts)
    &&& cyc(v.tail, ts, t) <= cyc(v.head, ts, t)
    &&& (v.root != DHARA_PAGE_NONE ==> cyc(v.tail, ts, t) <= cyc(v.root, ts, t) < cyc(v.head, ts, t))
    &&& (v.is_in_recovery() && v.recover_root != DHARA_PAGE_NONE ==> cyc(v.tail, ts, t) <= cyc(
        v.recover_root,
        ts,
        t,
    ) < cyc(v.head, ts, t))
}

/// Facts shared by the order lemmas: the chip of `nb` blocks of `2^s`
/// pages, and the block of page `p`.
proof fn lemma_chip_block(p: u32, nb: u32, s: u32)
    requires
        1 <= s < 32,
        1 <= nb <= (0x8000_0000u32 >> s),
        p < (nb << s),
    ensures
        (nb << s) <= 0x8000_0000u32,
        p >> s < nb,
        (p >> s) < (0x8000_0000u32 >> s),
        ((p >> s) << s) <= p,
        p < ((p >> s) << s) + (1u32 << s),
        ((((p >> s) + 1) as u32) << s) == ((p >> s) << s) + (1u32 << s),
        (0u32 << s) == 0,
        (0u32 >> s) == 0,
        ((nb - 1) as u32) << s == (nb << s) - (1u32 << s),
{
    lemma_shl_fits(nb, nb, s);
    lemma_page_block(p, nb, s);
    lemma_block_of(p, s);
    lemma_block_bounds(p >> s, s);
    lemma_block_bounds(0, s);
    lemma_block_bounds((nb - 1) as u32, s);
}

/// Jumping from page `h` to the start of the next block, when that block
/// is not the block of `ts`, moves forward in the order that starts at `ts`.
proof fn lemma_skip_forward(h: u32, ts: u32, s: u32, nb: u32)
    requires
        1 <= s < 32,
        1 <= nb <= (0x8000_0000u32 >> s),
        h < (nb << s),
        ts < (nb << s),
        h >> s == ts >> s ==> h >= ts,
        ts >> s != next_block_spec(h >> s, nb),
    ensures
        cyc(h, ts, nb << s) < cyc(next_block_spec(h >> s, nb) << s, ts, nb << s),
{
    lemma_chip_block(h, nb, s);
    lemma_chip_block(ts, nb, s);
    let b = h >> s;
    if b + 1 < nb {
        let h2 = ((b + 1) as u32) << s;
        lemma_block_bounds((b + 1) as u32, s);
        if h < ts && ts < h2 {
            lemma_in_block(ts, b, s);
        }
    } else {
        if ts > h {
            lemma_shr_mono(h, ts, s);
        }
    }
}

/// The user page after the first page of a block other than the block of
/// `ts` lies in the same block, after it.
proof fn lemma_block_start_next(b: u32, ts: u32, c: u8, s: u32, nb: u32)
    requires
        1 <= c <= s,
        2 <= s < 32,
        b < nb <= (0x8000_0000u32 >> s),
    ensures
        next_upage_spec(b << s, c, nb << s) >> s == b,
        next_upage_spec(b << s, c, nb << s) > b << s,
{
    lemma_block_bounds(b, s);
    lemma_shl_fits((b + 1) as u32, nb, s);
    lemma_shl_fits(b, nb, s);
    lemma_four_pages(s);
    let n = next_upage_spec(b << s, c, nb << s);
    lemma_in_block(n, b, s);
}

/// When the user page after `h` is in the block of `ts` only if it is in
/// the block of `h`, then it comes after `h`, on a chip of at least two
/// blocks of at least four pages.
proof fn lemma_next_after(h: u32, ts: u32, c: u8, s: u32, nb: u32)
    requires
        1 <= c <= s,
        2 <= s < 32,
        2 <= nb <= (0x8000_0000u32 >> s),
        h < (nb << s),
        ts < (nb << s),
        next_upage_spec(h, c, nb << s) >> s == ts >> s ==> next_upage_spec(h, c, nb << s) >> s == h >> s,
    ensures
        next_upage_spec(h, c, nb << s) >> s == ts >> s ==> (next_upage_spec(h, c, nb << s) >> s == h >> s
            && next_upage_spec(h, c, nb << s) > h),
{
    let t = nb << s;
    let n = next_upage_spec(h, c, t);
    lemma_chip_block(h, nb, s);
    if n == 0 {
        lemma_four_pages(s);
        lemma_block_bounds((nb - 1) as u32, s);
        lemma_shr_mono(((nb - 1) as u32) << s, h, s);
    }
}

/// Moving a prepared head to the next user page moves it forward in the
/// order that starts at the synchronized tail, and keeps the queue order,
/// also when the page the head leaves becomes the root.
proof fn lemma_advance(v: JournalView, s: u32, nb: u32)
    requires
        1 <= v.log2_ppc <= s,
        2 <= s < 32,
        2 <= nb <= (0x8000_0000u32 >> s),
        is_user_page(v.head, v.log2_ppc, nb << s),
        is_user_page(v.tail, v.log2_ppc, nb << s),
        is_user_page(v.tail_sync, v.log2_ppc, nb << s),
        v.root == DHARA_PAGE_NONE || is_user_page(v.root, v.log2_ppc, nb << s),
        v.recover_root == DHARA_PAGE_NONE || is_user_page(v.recover_root, v.log2_ppc, nb << s),
        ordered_from(v, s, nb << s),
        ({
            let n = next_upage_spec(v.head, v.log2_ppc, nb << s);
            n >> s == v.tail_sync >> s ==> (n >> s == v.head >> s && n > v.head)
        }),
    ensures
        cyc(v.head, v.tail_sync, nb << s) < cyc(next_upage_spec(v.head, v.log2_ppc, nb << s), v.tail_sync, nb << s),
        ordered_from(JournalView { head: next_upage_spec(v.head, v.log2_ppc, nb << s), ..v }, s, nb << s),
        ordered_from(
            JournalView { head: next_upage_spec(v.head, v.log2_ppc, nb << s), root: v.head, ..v },
            s,
            nb << s,
        ),
{
    let t = nb << s;
    let h = v.head;
    let ts = v.tail_sync;
    let c = v.log2_ppc as u32;
    lemma_chip_block(h, nb, s);
    lemma_mask_basics(c);
    if ((h + 2) as u32) & low_mask(c) == 0 {
        lemma_before_boundary(h, c);
    }
    if ts == 0 {
        lemma_chip_block(ts, nb, s);
    }
}

/// Moving the synchronized tail up to the tail keeps the queue order.
proof fn lemma_sync_tail(v: JournalView, s: u32, t: u32)
    requires
        v.head < t,
        v.tail < t,
        v.tail_sync < t,
        v.root == DHARA_PAGE_NONE || v.root < t,
        v.recover_root == DHARA_PAGE_NONE || v.recover_root < t,
        ordered_from(v, s, t),
    ensures
        ordered_from(JournalView { tail_sync: v.tail, ..v }, s, t),
{
    let h = v.head;
    let tl = v.tail;
    let ts = v.tail_sync;
    if h >> s == tl >> s && h < tl && h < ts && ts <= tl {
        lemma_shr_mono(h, ts, s);
        lemma_shr_mono(ts, tl, s);
    }
    if v.root != DHARA_PAGE_NONE {
        lemma_rebase(v.root, tl, ts, t);
    }
    if v.is_in_recovery() && v.recover_root != DHARA_PAGE_NONE {
        lemma_rebase(v.recover_root, tl, ts, t);
    }
    lemma_rebase(h, tl, ts, t);
}

/// The user page after `p` is the first user page met going forward from
/// `p`.
proof fn lemma_next_least(p: u32, x: u32, c: u8, t: u32)
    requires
        1 <= c < 32,
        t <= 0x8000_0000u32,
        t & low_mask(c as u32) == 0,
        p < t,
        is_user_page(x, c, t),
        x != p,
    ensures
        cyc(next_upage_spec(p, c, t), p, t) <= cyc(x, p, t),
{
    lemma_mask_basics(c as u32);
    lemma_next_upage(p, c as u32, t);
    if ((p + 2) as u32) & low_mask(c as u32) == 0 {
        lemma_before_boundary(p, c as u32);
    }
}

/// Removing the oldest page of a non-empty journal keeps the queue order,
/// unless the journal is recovering the very page removed.
proof fn lemma_dequeue_order(v: JournalView, s: u32, nb: u32)
    requires
        1 <= v.log2_ppc <= s,
        2 <= s < 32,
        2 <= nb <= (0x8000_0000u32 >> s),
        is_user_page(v.head, v.log2_ppc, nb << s),
        is_user_page(v.tail, v.log2_ppc, nb << s),
        is_user_page(v.tail_sync, v.log2_ppc, nb << s),
        v.root == DHARA_PAGE_NONE || is_user_page(v.root, v.log2_ppc, nb << s),
        v.recover_root == DHARA_PAGE_NONE || is_user_page(v.recover_root, v.log2_ppc, nb << s),
        ordered_from(v, s, nb << s),
        v.head != v.tail,
        !(v.is_in_recovery() && v.recover_root == v.tail),
    ensures
        ordered_from(dequeued(v, nb << s), s, nb << s),
{
    let t = nb << s;
    let c = v.log2_ppc;
    let nt = next_upage_spec(v.tail, c, t);
    lemma_chip_block(v.head, nb, s);
    lemma_shl_aligned(nb, s, c as u32);
    lemma_mask_basics(c as u32);
    lemma_next_upage(v.tail, c as u32, t);
    lemma_zero_user(c as u32);
    lemma_next_least(v.tail, v.head, c, t);
    lemma_rebase(v.head, v.tail, v.tail_sync, t);
    if v.is_in_recovery() && v.recover_root != DHARA_PAGE_NONE {
        lemma_next_least(v.tail, v.recover_root, c, t);
        lemma_rebase(v.recover_root, v.tail, v.tail_sync, t);
    }
    let d = dequeued(v, t);
    let v1 = JournalView { tail_sync: v.tail_sync, ..d };
    assert(ordered_from(v1, s, t));
    if !v.is_dirty() && !v.is_in_recovery() {
        lemma_sync_tail(v1, s, t);
        assert(d == JournalView { tail_sync: v1.tail, ..v1 });
    }
}

/// Walking from the first page of a block other than the head's to the
/// first page of the next block moves forward, and not past the head, in the
/// order that starts at `ts`.
proof fn lemma_block_walk(b: u32, h: u32, ts: u32, s: u32, nb: u32)
    requires
        1 <= s < 32,
        1 <= nb <= (0x8000_0000u32 >> s),
        h < (nb << s),
        ts < (nb << s),
        h >> s == ts >> s ==> h >= ts,
        b < nb,
        b != h >> s,
        cyc(b << s, ts, nb << s) <= cyc(h, ts, nb << s),
    ensures
        cyc(b << s, ts, nb << s) < cyc(next_block_spec(b, nb) << s, ts, nb << s),
        cyc(next_block_spec(b, nb) << s, ts, nb << s) <= cyc(h, ts, nb << s),
{
    let bs = b << s;
    lemma_block_bounds(b, s);
    lemma_chip_block(h, nb, s);
    lemma_chip_block(ts, nb, s);
    lemma_shl_fits(b, nb, s);
    if bs <= h && h < bs + (1u32 << s) {
        lemma_in_block(h, b, s);
    }
    if bs <= ts && ts < bs + (1u32 << s) {
        lemma_in_block(ts, b, s);
    }
    if b + 1 < nb {
        lemma_shl_fits((b + 1) as u32, nb, s);
    }
}

/// The tail moving forward to a page `p` no further than the head keeps
/// the order of the pointers, and keeps the roots in the queue unless it
/// passes them.
proof fn lemma_tail_forward(v: JournalView, w: JournalView, p: u32, s8: u8, nb: u32)
    requires
        2 <= s8 < 32,
        2 <= nb <= (0x8000_0000u32 >> (s8 as u32)),
        v.head < (nb << (s8 as u32)),
        v.tail < (nb << (s8 as u32)),
        v.tail_sync < (nb << (s8 as u32)),
        p < (nb << (s8 as u32)),
        v.root == DHARA_PAGE_NONE || v.root < (nb << (s8 as u32)),
        v.recover_root == DHARA_PAGE_NONE || v.recover_root < (nb << (s8 as u32)),
        ordered_from(v, s8 as u32, nb << (s8 as u32)),
        cyc(v.tail, v.tail_sync, nb << (s8 as u32)) <= cyc(p, v.tail_sync, nb << (s8 as u32)),
        cyc(p, v.tail_sync, nb << (s8 as u32)) <= cyc(v.head, v.tail_sync, nb << (s8 as u32)),
        v.head != v.tail,
        w == (JournalView {
            tail: p,
            root: if p == v.head {
                DHARA_PAGE_NONE
            } else {
                v.root
            },
            ..v
        }),
    ensures
        page_distance(p, v.tail) <= page_distance(v.head, v.tail),
        pointers_ordered(w, s8),
        roots_not_passed(v, p) ==> ordered_from(w, s8 as u32, nb << (s8 as u32)),
{
    let s = s8 as u32;
    let t = nb << s;
    lemma_chip_block(v.head, nb, s);
    lemma_rebase(p, v.tail, v.tail_sync, t);
    lemma_rebase(v.head, v.tail, v.tail_sync, t);
    lemma_distance_cyc(p, v.head, v.tail, t);
    lemma_distance_cyc(p, v.head, v.tail_sync, t);
    if v.root != DHARA_PAGE_NONE {
        lemma_rebase(v.root, v.tail, v.tail_sync, t);
        lemma_distance_cyc(p, v.root, v.tail, t);
    }
    if v.is_in_recovery() && v.recover_root != DHARA_PAGE_NONE {
        lemma_rebase(v.recover_root, v.tail, v.tail_sync, t);
        lemma_distance_cyc(p, v.recover_root, v.tail, t);
    }
}

/// The journal layer presents the NAND pages as a double-ended queue.
/// Pages, with associated metadata, may be pushed onto the end of the queue,
/// and pages may be popped from the end. Block erase and metadata storage are
/// handled automatically. Bad blocks are handled by relocating data to the
/// next available non-bad page in the sequence.
///
/// It's up to the user to ensure that the queue doesn't grow beyond the
/// capacity of the NAND chip, but helper functions are provided to assist
/// with this. If the head meets the tail, the journal will refuse to enqueue
/// more pages.
pub struct DharaJournal<const N: usize, T: DharaNand> {
    /// A NAND driver implementation.
    pub nand: T,
    /// The buffer where the metadata of the current checkpoint group is
    /// kept until it is written.
    pub page_buf: [u8; N],
    /// User data is grouped into checkpoints of 2**log2_ppc contiguous
    /// aligned pages. The last page of each checkpoint contains the journal
    /// header and the metadata for the other pages in the period.
    pub log2_ppc: u8,
    /// Epoch counter, incremented whenever the journal head passes the end
    /// of the chip and wraps around.
    pub epoch: u8,
    /// General purpose flags.
    pub flags: u8,
    /// Bad-block counters. bb_last is our best estimate of the number of bad
    /// blocks in the chip as a whole. bb_current is the number of bad blocks
    /// in all blocks before the current head.
    pub bb_current: DharaBlock,
    pub bb_last: DharaBlock,
    /// Log head and tail. The tail pointer points to the last user page in
    /// the log, and the head pointer points to the next free raw page.
    pub tail_sync: DharaPage,
    pub tail: DharaPage,
    pub head: DharaPage,
    /// The last written user page in the journal.
    pub root: DharaPage,
    /// Recovery mode: recover_root points to the last valid user page in
    /// the block requiring recovery. recover_next points to the next user
    /// page needing recovery. If we had buffered metadata before recovery
    /// started, it will have been dumped to a free page, indicated by
    /// recover_meta.
    pub recover_next: DharaPage,
    pub recover_root: DharaPage,
    pub recover_meta: DharaPage,
}

impl<const N: usize, T: DharaNand> View for DharaJournal<N, T> {
    type V = JournalView;

    open spec fn view(&self) -> JournalView {
        JournalView {
            log2_ppc: self.log2_ppc,
            epoch: self.epoch,
            flags: self.flags,
            bb_current: self.bb_current,
            bb_last: self.bb_last,
            tail_sync: self.tail_sync,
            tail: self.tail,
            head: self.head,
            root: self.root,
            recover_next: self.recover_next,
            recover_root: self.recover_root,
            recover_meta: self.recover_meta,
            buf: self.page_buf@,
        }
    }
}

impl<const N: usize, T: DharaNand> DharaJournal<N, T> {
    /// The journal's state is valid for its chip.
    pub open spec fn wf(&self) -> bool {
        journal_valid(self@, &self.nand, N)
    }

    /// Number of pages on the chip.
    pub open spec fn chip_pages(&self) -> u32 {
        total_pages(&self.nand)
    }

    /// Initialize a journal. You must supply a NAND chip driver, and a
    /// single page buffer. This page buffer will be used exclusively by the
    /// journal. No NAND operations are performed at this point.
    pub fn new(nand: T, page_buf: [u8; N]) -> (j: Self)
        requires
            geometry_valid(&nand, N),
        ensures
            j.wf(),
            j.nand == nand,
            is_chosen_ppc(j@.log2_ppc, nand.log2_page_size(), nand.log2_ppb()),
            j@ == reset_view(j@.log2_ppc, nand.num_blocks(), N),
            nand.num_blocks() >= 2 && nand.log2_ppb() >= 2 ==> j.in_queue_order(),
    {
        let psize = nand.get_log2_page_size();
        let max = nand.get_log2_ppb();
        let ppc = choose_ppc(psize, max);
        let mut j = DharaJournal::<N, T> {
            nand: nand,
            page_buf: page_buf,
            log2_ppc: ppc,
            epoch: 0,
            flags: 0,
            bb_current: 0,
            bb_last: 0,
            tail_sync: 0,
            tail: 0,
            head: 0,
            root: DHARA_PAGE_NONE,
            recover_next: 0,
            recover_root: 0,
            recover_meta: 0,
        };
        proof {
            lemma_ppc_fits(ppc, psize, max, N);
        }
        j.reset_journal();
        j
    }

    fn reset_journal(&mut self)
        requires
            geometry_valid(&old(self).nand, N),
            1 <= old(self).log2_ppc <= old(self).nand.log2_ppb(),
            DHARA_HEADER_SIZE + DHARA_COOKIE_SIZE + low_mask(old(self).log2_ppc as u32) * DHARA_META_SIZE <= N,
        ensures
            final(self).wf(),
            final(self).nand == old(self).nand,
            final(self)@ == reset_view(old(self)@.log2_ppc, old(self).nand.num_blocks(), N),
    {
        self.epoch = 0;
        self.bb_last = self.nand.get_num_blocks() >> 6;
        self.bb_current = 0;
        self.flags = 0;
        self.head = 0;
        self.tail = 0;
        self.tail_sync = 0;
        self.root = DHARA_PAGE_NONE;
        self.clear_recovery();
        fill_ff(&mut self.page_buf, 0, N);
        proof {
            lemma_zero_user(self.log2_ppc as u32);
            lemma_mask_basics(self.log2_ppc as u32);
            lemma_shl_fits(self.nand.num_blocks(), self.nand.num_blocks(), self.nand.log2_ppb() as u32);
            vstd::bits::lemma_u32_shr_is_div(self.nand.num_blocks(), 6);
            vstd::arithmetic::power2::lemma2_to64();
            assert(self.page_buf@ =~= Seq::new(N as nat, |i: int| 0xffu8));
            lemma_flags(0);
        }
    }
}


impl<const N: usize, T: DharaNand> DharaJournal<N, T> {
    fn clear_recovery(&mut self)
        ensures
            final(self).nand == old(self).nand,
            final(self)@ == (JournalView {
                recover_next: DHARA_PAGE_NONE,
                recover_root: DHARA_PAGE_NONE,
                recover_meta: DHARA_PAGE_NONE,
                flags: old(self)@.flags & !(DHARA_JOURNAL_F_BAD_META | DHARA_JOURNAL_F_RECOVERY
                    | DHARA_JOURNAL_F_ENUM_DONE),
                ..old(self)@
            }),
            old(self).ordered() ==> final(self).ordered(),
    {
        self.recover_next = DHARA_PAGE_NONE;
        self.recover_root = DHARA_PAGE_NONE;
        self.recover_meta = DHARA_PAGE_NONE;
        self.flags = self.flags & !(DHARA_JOURNAL_F_BAD_META | DHARA_JOURNAL_F_RECOVERY
            | DHARA_JOURNAL_F_ENUM_DONE);
    }
}


impl<const N: usize, T: DharaNand> DharaJournal<N, T> {
    // ------------------------------------------------------------------
    // Metapage binary format helpers

    /// Does the page buffer contain a valid checkpoint page?
    pub fn hdr_has_magic(&self) -> (r: bool)
        requires
            self.wf(),
        ensures
            r == (self@.buf[0] == 0x44u8 && self@.buf[1] == 0x68u8 && self@.buf[2] == 0x61u8),
    {
        (self.page_buf[0] == 0x44u8) && (self.page_buf[1] == 0x68u8) && (self.page_buf[2] == 0x61u8)
    }

    /// Insert the magic characters "Dha" into the buffer.
    pub fn hdr_put_magic(&mut self)
        requires
            old(self).wf(),
        ensures
            final(self).wf(),
            final(self).nand == old(self).nand,
            final(self)@ == (JournalView {
                buf: old(self)@.buf.update(0, 0x44u8).update(1, 0x68u8).update(2, 0x61u8),
                ..old(self)@
            }),
    {
        self.page_buf[0] = 0x44u8;
        self.page_buf[1] = 0x68u8;
        self.page_buf[2] = 0x61u8;
    }

    /// What epoch is this page?
    pub fn hdr_get_epoch(&self) -> (r: u8)
        requires
            self.wf(),
        ensures
            r == self@.buf[DHARA_HEADER_EPOCH_IDX as int],
    {
        self.page_buf[DHARA_HEADER_EPOCH_IDX]
    }

    /// Set the epoch.
    pub fn hdr_set_epoch(&mut self, e: u8)
        requires
            old(self).wf(),
        ensures
            final(self).wf(),
            final(self).nand == old(self).nand,
            final(self)@ == (JournalView { buf: old(self)@.buf.update(DHARA_HEADER_EPOCH_IDX as int, e), ..old(self)@ }),
    {
        self.page_buf[DHARA_HEADER_EPOCH_IDX] = e;
    }

    /// Get the tail value in the page buffer.
    pub fn hdr_get_tail(&self) -> (r: DharaPage)
        requires
            self.wf(),
        ensures
            r == get32(self@.buf, DHARA_HEADER_TAIL_IDX as int),
    {
        read_u32_at(&self.page_buf, DHARA_HEADER_TAIL_IDX)
    }

    /// Set the tail value in the page buffer.
    pub fn hdr_set_tail(&mut self, tail: DharaPage)
        requires
            old(self).wf(),
        ensures
            final(self).wf(),
            final(self).nand == old(self).nand,
            final(self)@ == (JournalView { buf: put32(old(self)@.buf, DHARA_HEADER_TAIL_IDX as int, tail), ..old(self)@ }),
            get32(final(self)@.buf, DHARA_HEADER_TAIL_IDX as int) == tail,
    {
        write_u32_at(&mut self.page_buf, DHARA_HEADER_TAIL_IDX, tail);
        proof {
            lemma_get_put32(old(self)@.buf, DHARA_HEADER_TAIL_IDX as int, tail);
        }
    }

    /// Get the count of bad blocks before the head kept in the page buffer.
    pub fn hdr_get_bb_current(&self) -> (r: DharaBlock)
        requires
            self.wf(),
        ensures
            r == get32(self@.buf, DHARA_HEADER_BBC_IDX as int),
    {
        read_u32_at(&self.page_buf, DHARA_HEADER_BBC_IDX)
    }

    /// Set the count of bad blocks before the head in the page buffer.
    pub fn hdr_set_bb_current(&mut self, bbc: DharaBlock)
        requires
            old(self).wf(),
        ensures
            final(self).wf(),
            final(self).nand == old(self).nand,
            final(self)@ == (JournalView { buf: put32(old(self)@.buf, DHARA_HEADER_BBC_IDX as int, bbc), ..old(self)@ }),
            get32(final(self)@.buf, DHARA_HEADER_BBC_IDX as int) == bbc,
    {
        write_u32_at(&mut self.page_buf, DHARA_HEADER_BBC_IDX, bbc);
        proof {
            lemma_get_put32(old(self)@.buf, DHARA_HEADER_BBC_IDX as int, bbc);
        }
    }

    /// Get the estimate of the chip's bad blocks kept in the page buffer.
    pub fn hdr_get_bb_last(&self) -> (r: DharaBlock)
        requires
            self.wf(),
        ensures
            r == get32(self@.buf, DHARA_HEADER_BBL_IDX as int),
    {
        read_u32_at(&self.page_buf, DHARA_HEADER_BBL_IDX)
    }

    /// Set the estimate of the chip's bad blocks in the page buffer.
    pub fn hdr_set_bb_last(&mut self, bbl: DharaBlock)
        requires
            old(self).wf(),
        ensures
            final(self).wf(),
            final(self).nand == old(self).nand,
            final(self)@ == (JournalView { buf: put32(old(self)@.buf, DHARA_HEADER_BBL_IDX as int, bbl), ..old(self)@ }),
            get32(final(self)@.buf, DHARA_HEADER_BBL_IDX as int) == bbl,
    {
        write_u32_at(&mut self.page_buf, DHARA_HEADER_BBL_IDX, bbl);
        proof {
            lemma_get_put32(old(self)@.buf, DHARA_HEADER_BBL_IDX as int, bbl);
        }
    }

    /// Blank (0xff) the user metadata area of the page buffer: everything
    /// after the header and cookie, up to `2^log2_page_size` bytes.
    pub fn hdr_clear_user(&mut self, log2_page_size: usize)
        requires
            old(self).wf(),
            log2_page_size < usize::BITS,
            DHARA_HEADER_SIZE + DHARA_COOKIE_SIZE <= (1usize << log2_page_size) <= N,
        ensures
            final(self).wf(),
            final(self).nand == old(self).nand,
            final(self)@ == (JournalView {
                buf: Seq::new(N as nat, |k: int| if DHARA_HEADER_SIZE + DHARA_COOKIE_SIZE <= k < (1usize << log2_page_size) {
                    0xffu8
                } else {
                    old(self)@.buf[k]
                }),
                ..old(self)@
            }),
    {
        let start = DHARA_HEADER_SIZE + DHARA_COOKIE_SIZE;
        let end: usize = 1usize << log2_page_size;
        fill_ff(&mut self.page_buf, start, end);
        proof {
            assert(self.page_buf@ =~= Seq::new(N as nat, |k: int| if DHARA_HEADER_SIZE + DHARA_COOKIE_SIZE <= k < (1usize << log2_page_size) {
                    0xffu8
                } else {
                    old(self)@.buf[k]
                }));
        }
    }

    /// Offset in the page buffer of the metadata of user page `which` of a
    /// checkpoint group.
    pub fn hdr_user_offset(&self, which: u32) -> (r: usize)
        requires
            JournalView::user_offset(which as int) <= usize::MAX,
        ensures
            r == JournalView::user_offset(which as int),
    {
        DHARA_HEADER_SIZE + DHARA_COOKIE_SIZE + (which as usize) * DHARA_META_SIZE
    }

    // ------------------------------------------------------------------
    // Page geometry helpers on the journal

    /// What is the successor of this block?
    pub fn next_block(&self, blk: DharaBlock) -> (r: DharaBlock)
        requires
            blk < u32::MAX,
        ensures
            r == next_block_spec(blk, self.nand.num_blocks()),
    {
        let mut block = blk + 1;
        if block >= self.nand.get_num_blocks() {
            block = 0;
        }
        block
    }

    /// The user page after `page`, skipping checkpoint pages and wrapping
    /// at the end of the chip.
    pub fn next_upage(&self, page: DharaPage) -> (r: DharaPage)
        requires
            self.wf(),
        ensures
            r == next_upage_spec(page, self@.log2_ppc, self.chip_pages()),
            is_user_page(r, self@.log2_ppc, self.chip_pages()),
    {
        let total: DharaPage = self.nand.get_num_blocks() << (self.nand.get_log2_ppb() as u32);
        proof {
            lemma_shl_aligned(self.nand.num_blocks(), self.nand.log2_ppb() as u32, self.log2_ppc as u32);
            lemma_shl_fits(self.nand.num_blocks(), self.nand.num_blocks(), self.nand.log2_ppb() as u32);
            lemma_zero_user(self.log2_ppc as u32);
        }
        // Pages beyond the chip lead back to its start.
        if page >= total {
            return 0;
        }
        proof {
            lemma_mask_basics(self.log2_ppc as u32);
            lemma_next_upage(page, self.log2_ppc as u32, total);
        }
        let mut p = page + 1;
        if is_aligned(p + 1, self.log2_ppc) {
            p = p + 1;
        }
        if p >= total {
            p = 0;
        }
        p
    }

    /// Advance the epoch and the bad-block statistics after the head passes
    /// the end of the chip.
    fn roll_stats(&mut self)
        requires
            old(self).wf(),
        ensures
            final(self).wf(),
            final(self).nand == old(self).nand,
            final(self)@ == rolled(old(self)@),
    {
        self.bb_last = self.bb_current;
        self.bb_current = 0;
        self.epoch = if self.epoch == 255 {
            0
        } else {
            self.epoch + 1
        };
    }
}


impl<const N: usize, T: DharaNand> DharaJournal<N, T> {
    /// Obtain an upper bound on the number of user pages storable in the
    /// journal.
    pub fn journal_capacity(&self) -> (r: DharaPage)
        requires
            self.wf(),
        ensures
            r == capacity_spec(
                self.nand.num_blocks(),
                self.nand.log2_ppb(),
                self@.log2_ppc,
                self@.bb_last,
                self@.bb_current,
            ),
            r < 0x8000_0000u32,
    {
        let max_bad: DharaBlock = if self.bb_last < self.bb_current {
            self.bb_last
        } else {
            self.bb_current
        };
        let nb = self.nand.get_num_blocks();
        // A bad-block count that leaves no good block gives no capacity.
        let good_blocks: DharaBlock = if max_bad < nb {
            nb - max_bad - 1
        } else {
            0
        };
        let log2_cpb: u8 = self.nand.get_log2_ppb() - self.log2_ppc;
        proof {
            lemma_geometry(nb, self.nand.log2_ppb() as u32);
            lemma_split_shift(good_blocks, nb, log2_cpb as u32, self.log2_ppc as u32);
            vstd::arithmetic::power2::lemma_pow2_pos(self.log2_ppc as nat);
        }
        let good_cps: DharaPage = good_blocks << (log2_cpb as u32);
        proof {
            let gc = good_cps as int;
            let p = pow2(self.log2_ppc as nat) as int;
            assert(gc * p - gc == gc * (p - 1)) by (nonlinear_arith);
            assert(gc <= gc * p) by (nonlinear_arith) requires p >= 1, gc >= 0;
        }
        // Good checkpoints * (checkpoint period - 1)
        let r = (good_cps << (self.log2_ppc as u32)) - good_cps;
        assert(good_cps == good_blocks * pow2(log2_cpb as nat));
        assert(r == good_cps * (pow2(self.log2_ppc as nat) - 1));
        proof {
            let pa = pow2(log2_cpb as nat) as int;
            let pc = pow2(self.log2_ppc as nat) as int;
            assert(r == good_blocks * pa * (pc - 1)) by (nonlinear_arith)
                requires
                    good_cps == good_blocks * pa,
                    r == good_cps * (pc - 1),
            ;
            if good_blocks == 0 {
                assert(good_blocks * pa * (pc - 1) == 0) by (nonlinear_arith)
                    requires
                        good_blocks == 0,
                ;
            }
            assert(good_cps * (pc - 1) < 0x8000_0000) by (nonlinear_arith)
                requires
                    good_cps >= 0,
                    good_cps * pc <= 0x8000_0000,
                    pc >= 1,
            ;
        }
        r
    }

    /// Obtain an upper bound on the number of user pages consumed by the
    /// journal.
    pub fn journal_size(&self) -> (r: DharaPage)
        requires
            self.wf(),
        ensures
            r == size_spec(self@.head, self@.tail_sync, self@.log2_ppc, self.chip_pages()),
    {
        // Find the number of raw pages, and the number of checkpoints between
        // the head and tail. The difference between the two is the number of
        // user pages (upper limit).
        let c = self.log2_ppc as u32;
        let ghost p = pow2(c as nat) as int;
        proof {
            lemma_low_mask_pow2(c);
            vstd::bits::lemma_u32_shr_is_div(self.head, c);
            vstd::bits::lemma_u32_shr_is_div(self.tail_sync, c);
            vstd::arithmetic::power2::lemma_pow2_pos(c as nat);
            lemma_shl_fits(self.nand.num_blocks(), self.nand.num_blocks(), self.nand.log2_ppb() as u32);
            lemma_shl_aligned(self.nand.num_blocks(), self.nand.log2_ppb() as u32, c);
            vstd::bits::lemma_u32_shr_is_div(self.chip_pages(), c);
            lemma_mask_mod(self.chip_pages(), c);
        }
        let mut num_pages = self.head;
        let mut num_cps = self.head >> c;

        if self.head < self.tail_sync {
            let total_pages: DharaPage = self.nand.get_num_blocks() << (self.nand.get_log2_ppb() as u32);
            proof {
                lemma_div_add_multiple(self.head as int, total_pages as int, p);
                lemma_div_diff(self.head + total_pages, self.tail_sync as int, p);
                vstd::arithmetic::div_mod::lemma_div_is_ordered(self.head as int, total_pages as int, p);
            }
            num_pages = num_pages + total_pages;
            num_cps = num_cps + (total_pages >> c);
        } else {
            proof {
                lemma_div_diff(self.head as int, self.tail_sync as int, p);
            }
        }

        num_pages = num_pages - self.tail_sync;
        num_cps = num_cps - (self.tail_sync >> c);

        num_pages - num_cps
    }

    /// Get the "cookie" data, a global metadata location for the map layer.
    pub fn get_cookie(&self) -> (r: u32)
        requires
            self.wf(),
        ensures
            r == self@.cookie(),
    {
        read_u32_at(&self.page_buf, DHARA_HEADER_SIZE)
    }

    /// Set the "cookie" data, a global metadata location for the map layer.
    pub fn set_cookie(&mut self, value: u32)
        requires
            old(self).wf(),
        ensures
            final(self).wf(),
            final(self).nand == old(self).nand,
            final(self)@ == (JournalView { buf: put32(old(self)@.buf, DHARA_HEADER_SIZE as int, value), ..old(self)@ }),
            final(self)@.cookie() == value,
    {
        write_u32_at(&mut self.page_buf, DHARA_HEADER_SIZE, value);
        proof {
            lemma_get_put32(old(self)@.buf, DHARA_HEADER_SIZE as int, value);
        }
    }

    /// Obtain the location of the last written user page in the journal.
    pub fn journal_root(&self) -> (r: DharaPage)
        ensures
            r == self@.root,
    {
        self.root
    }

    /// Mark the journal dirty.
    pub fn journal_mark_dirty(&mut self)
        requires
            old(self).wf(),
        ensures
            final(self).wf(),
            final(self).nand == old(self).nand,
            final(self)@ == (JournalView { flags: old(self)@.flags | DHARA_JOURNAL_F_DIRTY, ..old(self)@ }),
            final(self)@.is_dirty(),
            final(self)@.is_in_recovery() == old(self)@.is_in_recovery(),
            old(self).in_queue_order() ==> final(self).in_queue_order(),
    {
        self.flags = self.flags | DHARA_JOURNAL_F_DIRTY;
        proof {
            lemma_flags(old(self).flags);
        }
    }

    /// Is the journal checkpointed? If true, then all pages enqueued are now
    /// persistent.
    pub fn journal_is_clean(&self) -> (r: bool)
        ensures
            r == !self@.is_dirty(),
    {
        self.flags & DHARA_JOURNAL_F_DIRTY == 0
    }

    /// True if the journal is in recovery.
    pub fn journal_in_recovery(&self) -> (r: bool)
        ensures
            r == self@.is_in_recovery(),
    {
        self.flags & DHARA_JOURNAL_F_RECOVERY != 0
    }

    /// Get the checkpoint period (base-2 logarithm of the pages per
    /// checkpoint group).
    pub fn get_log2_ppc(&self) -> (r: u8)
        ensures
            r == self@.log2_ppc,
    {
        self.log2_ppc
    }

    /// Get the head: the next free raw page.
    pub fn get_head(&self) -> (r: u32)
        ensures
            r == self@.head,
    {
        self.head
    }

    /// Get the tail: the last user page in the log.
    pub fn get_tail(&self) -> (r: u32)
        ensures
            r == self@.tail,
    {
        self.tail
    }

    /// Get the tail as of the last checkpoint.
    pub fn get_tail_sync(&self) -> (r: u32)
        ensures
            r == self@.tail_sync,
    {
        self.tail_sync
    }

    /// Get the number of bad blocks before the current head.
    pub fn get_bb_current(&self) -> (r: u32)
        ensures
            r == self@.bb_current,
    {
        self.bb_current
    }

    /// Get the estimate of the number of bad blocks on the chip.
    pub fn get_bb_last(&self) -> (r: u32)
        ensures
            r == self@.bb_last,
    {
        self.bb_last
    }

    /// Get the root: the last written user page.
    pub fn get_root(&self) -> (r: u32)
        ensures
            r == self@.root,
    {
        self.root
    }

    /// Get the base-2 logarithm of the number of pages per erase block.
    pub fn get_log2_ppb(&self) -> (r: u8)
        ensures
            r == self.nand.log2_ppb(),
    {
        self.nand.get_log2_ppb()
    }

    /// Get the number of erase blocks on the chip.
    pub fn get_num_blocks(&self) -> (r: u32)
        ensures
            r == self.nand.num_blocks(),
    {
        self.nand.get_num_blocks()
    }

    /// Set the synchronized tail to the user page `v`.
    pub fn set_tail_sync(&mut self, v: u32)
        requires
            old(self).wf(),
            is_user_page(v, old(self)@.log2_ppc, old(self).chip_pages()),
        ensures
            final(self).wf(),
            final(self).nand == old(self).nand,
            final(self)@ == (JournalView { tail_sync: v, ..old(self)@ }),
            old(self).in_queue_order() && v == old(self)@.tail ==> final(self).in_queue_order(),
    {
        proof {
            self.lemma_order_equiv();
            if self.ordered() {
                self.lemma_chip();
                lemma_sync_tail(self@, self.nand.log2_ppb() as u32, self.chip_pages());
            }
        }
        self.tail_sync = v;
        proof {
            self.lemma_order_equiv();
        }
    }
}


impl<const N: usize, T: DharaNand> DharaJournal<N, T> {
    /// A page number known to be the first page of block `blk`, and so a
    /// user page.
    proof fn lemma_block_first_page(&self, blk: u32)
        requires
            self.wf(),
            blk < self.nand.num_blocks(),
        ensures
            is_user_page(blk << (self.nand.log2_ppb() as u32), self@.log2_ppc, self.chip_pages()),
            (blk << (self.nand.log2_ppb() as u32)) & low_mask(self.nand.log2_ppb() as u32) == 0,
            (blk << (self.nand.log2_ppb() as u32)) >> (self.nand.log2_ppb() as u32) == blk,
    {
        lemma_block_start(blk, self.nand.num_blocks(), self.nand.log2_ppb() as u32, self.log2_ppc as u32);
        lemma_mask_basics(self.log2_ppc as u32);
    }

    /// A valid journal's page buffer is exactly one page of at most 2^30
    /// bytes.
    pub proof fn lemma_chip_pub(&self)
        requires
            self.wf(),
        ensures
            N == (1usize << (self.nand.log2_page_size() as usize)),
            N <= 0x4000_0000,
            (self.nand.log2_page_size() as u32) < usize::BITS,
    {
        self.lemma_chip();
    }

    /// Facts every valid journal offers about its chip.
    proof fn lemma_chip(&self)
        requires
            self.wf(),
        ensures
            self.chip_pages() <= 0x8000_0000u32,
            self.chip_pages() >= 1,
            self.chip_pages() & low_mask(self@.log2_ppc as u32) == 0,
            self.chip_pages() & low_mask(self.nand.log2_ppb() as u32) == 0,
            self.head >> (self.nand.log2_ppb() as u32) < self.nand.num_blocks(),
            self.tail >> (self.nand.log2_ppb() as u32) < self.nand.num_blocks(),
            self.tail_sync >> (self.nand.log2_ppb() as u32) < self.nand.num_blocks(),
            N == (1usize << (self.nand.log2_page_size() as usize)),
            N <= 0x4000_0000,
    {
        let ps = self.nand.log2_page_size() as usize;
        vstd::bits::lemma_usize_pow2_no_overflow(ps as nat);
        vstd::bits::lemma_usize_shl_is_mul(1, ps);
        vstd::arithmetic::power2::lemma2_to64();
        if ps < 30 {
            vstd::arithmetic::power2::lemma_pow2_strictly_increases(ps as nat, 30);
        }
        let nb = self.nand.num_blocks();
        let s = self.nand.log2_ppb() as u32;
        lemma_shl_fits(nb, nb, s);
        lemma_shl_aligned(nb, s, self.log2_ppc as u32);
        lemma_shl_aligned(nb, s, s);
        lemma_page_block(self.head, nb, s);
        lemma_page_block(self.tail, nb, s);
        lemma_page_block(self.tail_sync, nb, s);
    }

    /// The journal's pointers are in queue order, on a chip of at least two
    /// blocks of at least four pages.
    pub open spec fn in_queue_order(&self) -> bool {
        &&& self.nand.num_blocks() >= 2
        &&& self.nand.log2_ppb() >= 2
        &&& queue_ordered(self@, self.nand.log2_ppb())
    }

    /// The journal refuses to write: the head would move onto the block of
    /// the synchronized tail.
    pub open spec fn is_blocked(&self) -> bool {
        head_blocked(self@, self.nand.log2_ppb() as u32, self.chip_pages())
    }

    /// The head is not the first page of a block, so writing there needs no
    /// erase.
    pub open spec fn head_mid_block(&self) -> bool {
        self@.head & low_mask(self.nand.log2_ppb() as u32) != 0
    }

    /// The queue order, measured from the synchronized tail.
    spec fn ordered(&self) -> bool {
        &&& self.nand.num_blocks() >= 2
        &&& self.nand.log2_ppb() >= 2
        &&& ordered_from(self@, self.nand.log2_ppb() as u32, self.chip_pages())
    }

    /// Writing at the head and moving it to the next user page keeps the
    /// head out of the block of the synchronized tail behind it.
    spec fn head_prepared(&self) -> bool {
        let s = self.nand.log2_ppb() as u32;
        let n = next_upage_spec(self.head, self.log2_ppc, self.chip_pages());
        n >> s == self.tail_sync >> s ==> (n >> s == self.head >> s && n > self.head)
    }

    proof fn lemma_order_equiv(&self)
        requires
            self.wf(),
        ensures
            self.in_queue_order() == self.ordered(),
    {
        self.lemma_chip();
        let t = self.chip_pages();
        let ts = self.tail_sync;
        lemma_distance_cyc(self.tail, self.head, ts, t);
        if self.root != DHARA_PAGE_NONE {
            lemma_distance_cyc(self.root, self.head, self.tail, t);
        }
        if self.recover_root != DHARA_PAGE_NONE {
            lemma_distance_cyc(self.recover_root, self.head, self.tail, t);
        }
    }

    /// Remove all pages from the journal. This doesn't take permanent effect
    /// until the next checkpoint.
    pub fn journal_clear(&mut self)
        requires
            old(self).wf(),
        ensures
            final(self).wf(),
            final(self).nand == old(self).nand,
            final(self)@ == (JournalView {
                tail: old(self)@.head,
                root: DHARA_PAGE_NONE,
                flags: old(self)@.flags | DHARA_JOURNAL_F_DIRTY,
                buf: clear_user_buf(old(self)@.buf),
                ..old(self)@
            }),
            old(self).in_queue_order() && !(old(self)@.is_in_recovery() && old(self)@.recover_root
                != DHARA_PAGE_NONE) ==> final(self).in_queue_order(),
    {
        self.tail = self.head;
        self.root = DHARA_PAGE_NONE;
        self.flags = self.flags | DHARA_JOURNAL_F_DIRTY;
        proof {
            lemma_flags(old(self)@.flags);
            self.lemma_chip();
        }
        self.hdr_clear_user(self.nand.get_log2_page_size() as usize);
        proof {
            assert(self.page_buf@ =~= clear_user_buf(old(self)@.buf));
        }
    }

    /// Remove the last page from the journal. This doesn't take permanent
    /// effect until the next checkpoint.
    pub fn journal_dequeue(&mut self)
        requires
            old(self).wf(),
        ensures
            final(self).wf(),
            final(self).nand == old(self).nand,
            final(self)@ == (if old(self)@.head == old(self)@.tail {
                old(self)@
            } else {
                dequeued(old(self)@, old(self).chip_pages())
            }),
            old(self).in_queue_order() && !(old(self)@.is_in_recovery() && old(self)@.recover_root == old(
                self,
            )@.tail) ==> final(self).in_queue_order(),
    {
        proof {
            self.lemma_order_equiv();
        }
        if self.head == self.tail {
            return;
        }
        self.tail = self.next_upage(self.tail);

        // If the journal is clean at the time of dequeue, then this data was
        // always obsolete, and can be reused immediately.
        if (self.flags & (DHARA_JOURNAL_F_DIRTY | DHARA_JOURNAL_F_RECOVERY)) == 0 {
            self.tail_sync = self.tail;
        }
        proof {
            lemma_flags(self.flags);
            self.lemma_chip();
        }
        let chip_size: DharaPage = self.nand.get_num_blocks() << (self.nand.get_log2_ppb() as u32);
        let raw_size: DharaPage = wrap(self.head + chip_size - self.tail, chip_size);

        // A root that has been dequeued is forgotten.
        if self.root != DHARA_PAGE_NONE {
            let root_offset: DharaPage = wrap(self.head + chip_size - self.root, chip_size);
            if root_offset > raw_size {
                self.root = DHARA_PAGE_NONE;
            }
        }
        proof {
            self.lemma_order_equiv();
            if old(self).ordered() && !(old(self)@.is_in_recovery() && old(self)@.recover_root == old(self)@.tail) {
                lemma_dequeue_order(old(self)@, self.nand.log2_ppb() as u32, self.nand.num_blocks());
            }
        }
    }

    /// If an operation returns `Recover`, you must begin the recovery
    /// procedure: call this to obtain the next page to be recovered (if any).
    /// If there are no pages remaining to be recovered, `DHARA_PAGE_NONE` is
    /// returned. Then proceed to the next checkpoint; once the journal is
    /// clean, recovery finishes automatically.
    pub fn journal_next_recoverable(&mut self) -> (r: DharaPage)
        requires
            old(self).wf(),
        ensures
            final(self).wf(),
            final(self).nand == old(self).nand,
            !old(self)@.is_in_recovery() || old(self)@.is_enum_done() ==> r == DHARA_PAGE_NONE
                && final(self)@ == old(self)@,
            old(self)@.is_in_recovery() && !old(self)@.is_enum_done() ==> r == old(self)@.recover_next
                && final(self)@ == (if old(self)@.recover_next == old(self)@.recover_root {
                JournalView { flags: old(self)@.flags | DHARA_JOURNAL_F_ENUM_DONE, ..old(self)@ }
            } else {
                JournalView {
                    recover_next: next_upage_spec(old(self)@.recover_next, old(self)@.log2_ppc, old(self).chip_pages()),
                    ..old(self)@
                }
            }),
            old(self).in_queue_order() ==> final(self).in_queue_order(),
    {
        let n = self.recover_next;
        proof {
            lemma_flags(self.flags);
        }

        if !self.journal_in_recovery() {
            return DHARA_PAGE_NONE;
        }
        if (self.flags & DHARA_JOURNAL_F_ENUM_DONE) != 0 {
            return DHARA_PAGE_NONE;
        }
        if self.recover_next == self.recover_root {
            self.flags = self.flags | DHARA_JOURNAL_F_ENUM_DONE;
        } else {
            self.recover_next = self.next_upage(self.recover_next);
        }
        n
    }

    /// Advance the head to the start of the next block, unless that would
    /// roll it onto the block of the synchronized tail.
    fn skip_block(&mut self) -> (r: Result<u8, DharaError>)
        requires
            old(self).wf(),
        ensures
            final(self).wf(),
            final(self).nand == old(self).nand,
            ({
                let s = old(self).nand.log2_ppb() as u32;
                let next = next_block_spec(old(self)@.head >> s, old(self).nand.num_blocks());
                let new_head = next << s;
                if old(self)@.tail_sync >> s == next {
                    r == Err::<u8, DharaError>(DharaError::JournalFull) && final(self)@ == old(self)@
                } else {
                    &&& r == Ok::<u8, DharaError>(0)
                    &&& final(self)@ == (if new_head == 0 {
                        rolled(JournalView { head: new_head, ..old(self)@ })
                    } else {
                        JournalView { head: new_head, ..old(self)@ }
                    })
                }
            }),
            old(self).ordered() ==> final(self).ordered(),
    {
        proof {
            self.lemma_chip();
        }
        let ppb = self.nand.get_log2_ppb() as u32;
        let next = self.next_block(self.head >> ppb);

        // We can't roll onto the same block as the tail.
        if self.tail_sync >> ppb == next {
            return Err(DharaError::JournalFull);
        }
        proof {
            self.lemma_block_first_page(next);
            if self.ordered() {
                lemma_skip_forward(self.head, self.tail_sync, ppb, self.nand.num_blocks());
            }
        }
        self.head = next << ppb;
        if self.head == 0 {
            self.roll_stats();
        }
        Ok(0)
    }
}


impl<const N: usize, T: DharaNand> DharaJournal<N, T> {
    /// Advance the tail to the next non-bad block and return the page that's
    /// ready to read. If no page is ready, return `DHARA_PAGE_NONE`.
    pub fn journal_peek(&mut self) -> (r: DharaPage)
        requires
            old(self).wf(),
        ensures
            final(self).wf(),
            same_geometry(&final(self).nand, &old(self).nand),
            old(self)@.head == old(self)@.tail ==> r == DHARA_PAGE_NONE && final(self)@ == old(self)@
                && final(self).nand == old(self).nand,
            old(self)@.head != old(self)@.tail ==> {
                &&& r == final(self)@.tail
                &&& final(self)@ == (JournalView {
                    tail: final(self)@.tail,
                    root: final(self)@.root,
                    ..old(self)@
                })
                &&& final(self)@.tail == old(self)@.tail || final(self)@.tail & low_mask(
                    old(self).nand.log2_ppb() as u32,
                ) == 0
                &&& final(self)@.root == (if final(self)@.tail != old(self)@.tail && final(self)@.tail == old(self)@.head {
                    DHARA_PAGE_NONE
                } else {
                    old(self)@.root
                })
            },
            old(self).in_queue_order() ==> page_distance(final(self)@.tail, old(self)@.tail) <= page_distance(
                old(self)@.head,
                old(self)@.tail,
            ),
            old(self).in_queue_order() ==> pointers_ordered(final(self)@, final(self).nand.log2_ppb()),
            old(self).in_queue_order() && roots_not_passed(old(self)@, final(self)@.tail)
                ==> final(self).in_queue_order(),
            old(self)@.head != old(self)@.tail && old(self)@.tail & low_mask(old(self).nand.log2_ppb() as u32) != 0
                ==> r == old(self)@.tail && final(self)@ == old(self)@ && final(self).nand == old(self).nand,
            ({
                let s = old(self).nand.log2_ppb() as u32;
                old(self)@.head != old(self)@.tail && old(self)@.tail & low_mask(s) == 0 ==> match tail_stop(
                    &old(self).nand,
                    old(self)@.tail >> s,
                    old(self)@.head >> s,
                    old(self).nand.num_blocks(),
                    DHARA_MAX_RETRIES as nat,
                ) {
                    Some(b) => final(self)@.tail == b << s,
                    None => final(self)@.tail == old(self)@.tail,
                }
            }),
            same_pages(&final(self).nand, &old(self).nand),
    {
        proof {
            self.lemma_order_equiv();
        }
        if self.head == self.tail {
            return DHARA_PAGE_NONE;
        }
        proof {
            self.lemma_chip();
        }
        let ppb = self.nand.get_log2_ppb();
        let ghost s = ppb as u32;
        let ghost nb = self.nand.num_blocks();
        let ghost t = self.chip_pages();
        let ghost ts = self.tail_sync;
        if is_aligned(self.tail, ppb) {
            let mut block: DharaBlock = self.tail >> (ppb as u32);
            proof {
                lemma_aligned_start(self.tail, s);
            }
            let mut i: u8 = 0;
            while i < DHARA_MAX_RETRIES
                invariant
                    self.wf(),
                    same_geometry(&self.nand, &old(self).nand),
                    self@ == old(self)@,
                    ppb == self.nand.log2_ppb(),
                    s == ppb as u32,
                    nb == self.nand.num_blocks(),
                    t == self.chip_pages(),
                    ts == self.tail_sync,
                    block < self.nand.num_blocks(),
                    old(self)@.head != old(self)@.tail,
                    old(self)@.tail & low_mask(s) == 0,
                    i <= DHARA_MAX_RETRIES,
                    same_pages(&self.nand, &old(self).nand),
                    forall|b: DharaBlock| #[trigger] self.nand.marked_bad(b) == old(self).nand.marked_bad(b),
                    tail_stop(&old(self).nand, old(self)@.tail >> s, old(self)@.head >> s, nb, DHARA_MAX_RETRIES as nat)
                        == tail_stop(&old(self).nand, block, old(self)@.head >> s, nb, (DHARA_MAX_RETRIES - i) as nat),
                    old(self).ordered() ==> cyc(old(self)@.tail, ts, t) <= cyc(block << s, ts, t) <= cyc(
                        old(self)@.head,
                        ts,
                        t,
                    ),
                decreases DHARA_MAX_RETRIES - i,
            {
                if (block == (self.head >> (ppb as u32))) || !self.nand.is_bad(block) {
                    proof {
                        self.lemma_block_first_page(block);
                    }
                    self.tail = block << (ppb as u32);
                    if self.tail == self.head {
                        self.root = DHARA_PAGE_NONE;
                    }
                    proof {
                        self.lemma_order_equiv();
                        if old(self).ordered() {
                            lemma_tail_forward(old(self)@, self@, self.tail, ppb, nb);
                        }
                    }
                    return self.tail;
                }
                proof {
                    if old(self).ordered() {
                        lemma_block_walk(block, self.head, ts, s, nb);
                    }
                }
                block = self.next_block(block);
                i = i + 1;
            }
        }
        proof {
            if old(self).ordered() {
                lemma_tail_forward(old(self)@, self@, self.tail, ppb, nb);
            }
        }
        self.tail
    }

    /// Read the metadata associated with a page. This assumes that the page
    /// provided is a valid data page. The actual page data is read via the
    /// normal NAND interface.
    ///
    /// Metadata of a page in the group being filled comes from the page
    /// buffer; for the checkpoint page of that group there is none, and
    /// `DharaError::CorruptMap` is returned.
    pub fn journal_read_meta(&mut self, page: DharaPage, buf: &mut [u8]) -> (r: Result<(), DharaError>)
        requires
            old(self).wf(),
            old(buf)@.len() >= DHARA_META_SIZE,
        ensures
            final(self).wf(),
            final(self)@ == old(self)@,
            same_geometry(&final(self).nand, &old(self).nand),
            same_pages(&final(self).nand, &old(self).nand),
            final(buf)@.len() == old(buf)@.len(),
            page >> (old(self)@.log2_ppc as u32) == old(self)@.head >> (old(self)@.log2_ppc as u32) ==> match buffered_read(
                old(self)@,
                page,
                N,
            ) {
                Some(m) => {
                    &&& r == Ok::<(), DharaError>(())
                    &&& final(buf)@ == m + old(buf)@.subrange(DHARA_META_SIZE as int, old(buf)@.len() as int)
                    &&& final(self).nand == old(self).nand
                },
                None => r == Err::<(), DharaError>(DharaError::CorruptMap) && final(buf)@ == old(buf)@
                    && final(self).nand == old(self).nand,
            },
            ({
                let c = old(self)@.log2_ppc as u32;
                let v = old(self)@;
                let src = if v.recover_meta != DHARA_PAGE_NONE && page >> c == v.recover_root >> c {
                    v.recover_meta
                } else {
                    page | low_mask(c)
                };
                let off = JournalView::user_offset((page & low_mask(c)) as int);
                page >> c != v.head >> c && r is Ok ==> forall|i: int|
                    0 <= i < DHARA_META_SIZE ==> #[trigger] final(buf)@[i] == old(self).nand.page_byte(
                        src,
                        (off + i) as usize,
                    )
            }),
            match meta_at(old(self)@, &old(self).nand, page, N) {
                Some(m) => r is Ok ==> final(buf)@.subrange(0, DHARA_META_SIZE as int) == m,
                None => r == Err::<(), DharaError>(DharaError::CorruptMap),
            },
            r != Err::<(), DharaError>(DharaError::NotFound),
    {
        proof {
            lemma_mask_basics(self.log2_ppc as u32);
            self.lemma_chip();
        }
        // Offset of metadata within the metadata page
        let ppc_mask: DharaPage = (1u32 << (self.log2_ppc as u32)) - 1;
        proof {
            lemma_and_le(page, ppc_mask);
        }
        let offset = self.hdr_user_offset(page & ppc_mask);

        // Special case: buffered metadata
        if align_eq(page, self.head, self.log2_ppc) {
            if offset + DHARA_META_SIZE > N {
                return Err(DharaError::CorruptMap);
            }
            copy_into(buf, 0, &self.page_buf, offset, DHARA_META_SIZE);
            proof {
                assert(buf@ =~= old(self)@.buf.subrange(offset as int, offset + DHARA_META_SIZE) + old(buf)@.subrange(
                        DHARA_META_SIZE as int,
                        old(buf)@.len() as int,
                    ));
            }
            return Ok(());
        }
        // Special case: incomplete metadata dumped at start of recovery
        if (self.recover_meta != DHARA_PAGE_NONE) && align_eq(page, self.recover_root, self.log2_ppc) {
            return self.nand.read(self.recover_meta, offset, DHARA_META_SIZE, buf);
        }
        // General case: fetch from metadata page for checkpoint group
        self.nand.read(page | ppc_mask, offset, DHARA_META_SIZE, buf)
    }
}


/// Every page of the checkpoint group of `2^c` pages that starts at page
/// `first` is erased: each of its bytes reads 0xff.
pub open spec fn group_erased<T: DharaNand>(n: &T, first: int, c: u8) -> bool {
    forall|p: DharaPage, k: usize|
        first <= p < first + (1u32 << (c as u32)) && k < (1usize << (n.log2_page_size() as usize))
            ==> #[trigger] n.page_byte(p, k) == 0xffu8
}

/// A group erased on one chip is erased on a chip that stores the same
/// bytes.
proof fn lemma_erased_same_pages<T: DharaNand>(a: &T, b: &T, first: int, c: u8)
    requires
        group_erased(a, first, c),
        same_pages(a, b),
        a.log2_page_size() == b.log2_page_size(),
    ensures
        group_erased(b, first, c),
{
    assert forall|p: DharaPage, k: usize|
        first <= p < first + (1u32 << (c as u32)) && k < (1usize << (b.log2_page_size() as usize))
        implies #[trigger] b.page_byte(p, k) == 0xffu8 by {
        assert(a.page_byte(p, k) == 0xffu8);
    }
}

/// Every page from `head` to the end of its checkpoint group of `2^c`
/// pages is erased: each of its bytes reads 0xff.
pub open spec fn erased_to_group_end<T: DharaNand>(n: &T, head: u32, c: u8) -> bool {
    forall|p: DharaPage, k: usize|
        head <= p < (head & !low_mask(c as u32)) + (1u32 << (c as u32)) && k < (1usize << (n.log2_page_size() as usize))
            ==> #[trigger] n.page_byte(p, k) == 0xffu8
}

/// A run of erased pages on one chip is erased on a chip that stores the
/// same bytes.
proof fn lemma_erased_to_end_same_pages<T: DharaNand>(a: &T, b: &T, head: u32, c: u8)
    requires
        erased_to_group_end(a, head, c),
        same_pages(a, b),
        a.log2_page_size() == b.log2_page_size(),
    ensures
        erased_to_group_end(b, head, c),
{
    assert forall|p: DharaPage, k: usize|
        head <= p < (head & !low_mask(c as u32)) + (1u32 << (c as u32)) && k < (1usize << (b.log2_page_size() as usize))
        implies #[trigger] b.page_byte(p, k) == 0xffu8 by {
        assert(a.page_byte(p, k) == 0xffu8);
    }
}

/// The first page of checkpoint group `k` of block `block`, on a chip of
/// `2^ppb` pages per block and checkpoint groups of `2^c` pages.
pub open spec fn group_first_page(block: u32, k: u32, ppb: u32, c: u32) -> int {
    (block << ppb) + (k << c)
}

/// The last page of checkpoint group `k` of block `block`: the group's
/// checkpoint page.
pub open spec fn group_last_page(block: u32, k: u32, ppb: u32, c: u32) -> int {
    (block << ppb) + (((k + 1) as u32) << c) - 1
}

/// Page `page` of the chip holds a checkpoint header of epoch `epoch`.
pub open spec fn chip_checkpoint<T: DharaNand>(n: &T, page: u32, epoch: u8) -> bool {
    &&& n.page_byte(page, 0usize) == 0x44u8
    &&& n.page_byte(page, 1usize) == 0x68u8
    &&& n.page_byte(page, 2usize) == 0x61u8
    &&& n.page_byte(page, DHARA_HEADER_EPOCH_IDX) == epoch
}

/// The root's metadata can be read back: the root lies in the checkpoint
/// group being filled, whose metadata is in the page buffer; or it is the
/// last user page of its group, and the group's checkpoint page on the chip
/// holds the page buffer.
pub open spec fn root_meta_kept<T: DharaNand>(v: JournalView, nand: &T) -> bool {
    let c = v.log2_ppc as u32;
    ||| v.root >> c == v.head >> c
    ||| ((v.root + 2) as u32) & low_mask(c) == 0 && page_holds(nand, (v.root + 1) as u32, v.buf)
}

/// The page buffer holds a checkpoint header of epoch `epoch`.
pub open spec fn has_checkpoint(buf: Seq<u8>, epoch: u8) -> bool {
    &&& buf[0] == 0x44u8
    &&& buf[1] == 0x68u8
    &&& buf[2] == 0x61u8
    &&& buf[DHARA_HEADER_EPOCH_IDX as int] == epoch
}

impl<const N: usize, T: DharaNand> DharaJournal<N, T> {
    /// Is `p` a user page of this journal's chip?
    fn is_user(&self, p: DharaPage) -> (r: bool)
        requires
            self.wf(),
        ensures
            r == is_user_page(p, self@.log2_ppc, self.chip_pages()),
    {
        proof {
            lemma_mask_basics(self.log2_ppc as u32);
        }
        let total: DharaPage = self.nand.get_num_blocks() << (self.nand.get_log2_ppb() as u32);
        let mask: DharaPage = (1u32 << (self.log2_ppc as u32)) - 1;
        p < total && (p & mask) != mask
    }

    /// Find the first checkpoint-containing block at or after `block`,
    /// trying at most `DHARA_MAX_RETRIES` blocks. If a block contains any
    /// checkpoints at all, then it must contain one in the first checkpoint
    /// location -- otherwise, we would have considered the block eraseable.
    /// The page buffer is left holding the last page read.
    fn find_checkblock(&mut self, block: DharaBlock) -> (r: Result<DharaBlock, DharaError>)
        requires
            old(self).wf(),
        ensures
            final(self).wf(),
            same_geometry(&final(self).nand, &old(self).nand),
            final(self)@ == (JournalView { buf: final(self)@.buf, ..old(self)@ }),
            match r {
                Ok(b) => block <= b < old(self).nand.num_blocks() && final(self)@.buf[0] == 0x44u8
                    && final(self)@.buf[1] == 0x68u8 && final(self)@.buf[2] == 0x61u8,
                Err(e) => e == DharaError::TooBad,
            },
            same_pages(&final(self).nand, &old(self).nand),
            r matches Ok(b) ==> page_holds(
                &old(self).nand,
                (b << (old(self).nand.log2_ppb() as u32)) | low_mask(old(self)@.log2_ppc as u32),
                final(self)@.buf,
            ),
    {
        let mut i: u8 = 0;
        let mut blk = block;
        let ppb = self.nand.get_log2_ppb() as u32;
        let psize = self.nand.get_log2_page_size() as usize;
        proof {
            self.lemma_chip();
            lemma_mask_basics(self.log2_ppc as u32);
        }

        while blk < self.nand.get_num_blocks() && i < DHARA_MAX_RETRIES
            invariant
                self.wf(),
                same_geometry(&self.nand, &old(self).nand),
                self@ == (JournalView { buf: self@.buf, ..old(self)@ }),
                block <= blk,
                ppb == self.nand.log2_ppb(),
                psize == self.nand.log2_page_size(),
                N == (1usize << psize),
                same_pages(&self.nand, &old(self).nand),
            decreases DHARA_MAX_RETRIES - i,
        {
            proof {
                lemma_mask_basics(self.log2_ppc as u32);
            }
            let p: DharaPage = (blk << ppb) | ((1u32 << (self.log2_ppc as u32)) - 1);
            if !self.nand.is_bad(blk) {
                let ghost before = self.nand;
                let res = self.nand.read(p, 0, 1usize << psize, &mut self.page_buf);
                proof {
                    if res is Ok {
                        assert(page_holds(&before, p, self.page_buf@));
                        assert(page_holds(&old(self).nand, p, self.page_buf@));
                    }
                }
                match res {
                    Err(_e) => {},
                    Ok(_) => {
                        if self.hdr_has_magic() {
                            return Ok(blk);
                        }
                    },
                }
            }
            blk = blk + 1;
            i = i + 1;
        }
        Err(DharaError::TooBad)
    }

    /// Binary search for the last checkpoint-containing block of the current
    /// epoch, starting at `first`. The page buffer is left holding the last
    /// page read. A record of what the search found comes with the result.
    fn find_last_checkblock(&mut self, first: DharaBlock) -> (r: (DharaBlock, Ghost<(Set<u32>, Set<u32>)>))
        requires
            old(self).wf(),
            first < old(self).nand.num_blocks(),
        ensures
            final(self).wf(),
            same_geometry(&final(self).nand, &old(self).nand),
            final(self)@ == (JournalView { buf: final(self)@.buf, ..old(self)@ }),
            same_pages(&final(self).nand, &old(self).nand),
            first <= r.0 < old(self).nand.num_blocks(),
            ({
                // The blocks found to hold a checkpoint of this epoch, and
                // the blocks from which a scan found none.
                let (good, none_from) = r.1@;
                let nb = old(self).nand.num_blocks();
                &&& forall|b: u32| #[trigger] good.contains(b) ==> first <= b < nb && chip_checkpoint(
                    &old(self).nand,
                    (b << (old(self).nand.log2_ppb() as u32)) | low_mask(old(self)@.log2_ppc as u32),
                    old(self)@.epoch,
                )
                &&& {
                    // The block found holds a checkpoint of this epoch and
                    // none follows it; or none was found from `first`; or
                    // a block of this epoch lies past a scan that found
                    // none, so the epoch's blocks are not in one run.
                    ||| good.contains(r.0) && (r.0 + 1 >= nb || none_from.contains((r.0 + 1) as u32))
                    ||| r.0 == first && none_from.contains(first)
                    ||| r.0 == first && exists|x: u32, b: u32|
                        #[trigger] none_from.contains(x) && #[trigger] good.contains(b) && x <= b
                }
            }),
    {
        let mut low = first;
        let mut high = self.nand.get_num_blocks() - 1;
        let ghost mut good: Set<u32> = Set::empty();
        let ghost mut none_from: Set<u32> = Set::empty();
        let ghost ppb = self.nand.log2_ppb() as u32;
        let ghost c = self@.log2_ppc as u32;
        proof {
            self.lemma_chip();
            lemma_shl_fits(self.nand.num_blocks(), self.nand.num_blocks(), self.nand.log2_ppb() as u32);
        }

        while low <= high
            invariant
                self.wf(),
                same_geometry(&self.nand, &old(self).nand),
                self@ == (JournalView { buf: self@.buf, ..old(self)@ }),
                same_pages(&self.nand, &old(self).nand),
                ppb == old(self).nand.log2_ppb() as u32,
                c == old(self)@.log2_ppc as u32,
                first <= low,
                low <= self.nand.num_blocks(),
                high < self.nand.num_blocks(),
                high + 1 >= first,
                self.nand.num_blocks() <= 0x8000_0000u32,
                low > first ==> good.contains(low) && low < self.nand.num_blocks(),
                high + 1 < self.nand.num_blocks() ==> none_from.contains((high + 1) as u32),
                forall|b: u32| #[trigger] good.contains(b) ==> first <= b < self.nand.num_blocks() && chip_checkpoint(
                    &old(self).nand,
                    (b << ppb) | low_mask(c),
                    old(self)@.epoch,
                ),
            decreases (self.nand.num_blocks() - low) + (high + 1),
        {
            proof {
                lemma_midpoint(low, high);
            }
            let mid = (low + high) >> 1;

            // This loads data into the page buffer in the process.
            let found = self.find_checkblock(mid);
            let different_epochs = self.hdr_get_epoch() != self.epoch;

            match found {
                Ok(found) if !different_epochs => {
                    proof {
                        good = good.insert(found);
                    }
                    if found + 1 >= self.nand.get_num_blocks() {
                        return (found, Ghost((good, none_from)));
                    }
                    let nf = self.find_checkblock(found + 1);
                    if self.hdr_get_epoch() != self.epoch {
                        proof {
                            none_from = none_from.insert((found + 1) as u32);
                        }
                        return (found, Ghost((good, none_from)));
                    }
                    match nf {
                        Err(_) => {
                            proof {
                                none_from = none_from.insert((found + 1) as u32);
                            }
                            return (found, Ghost((good, none_from)));
                        },
                        Ok(nf) => {
                            proof {
                                good = good.insert(nf);
                            }
                            assert(nf > low);
                            low = nf;
                        },
                    }
                },
                _ => {
                    proof {
                        none_from = none_from.insert(mid);
                    }
                    if mid == 0 {
                        return (first, Ghost((good, none_from)));
                    } else {
                        high = mid - 1;
                    }
                },
            }
        }
        proof {
            if low > first {
                assert(none_from.contains((high + 1) as u32) && good.contains(low));
            }
        }
        (first, Ghost((good, none_from)))
    }

    /// Test whether a checkpoint group is in a state fit for reprogramming:
    /// every page of the group starting at `first_user` is free.
    fn cp_free(&mut self, first_user: DharaPage) -> (r: bool)
        requires
            old(self).wf(),
            first_user <= 0x8000_0000u32,
        ensures
            final(self).wf(),
            same_geometry(&final(self).nand, &old(self).nand),
            final(self)@ == old(self)@,
            same_pages(&final(self).nand, &old(self).nand),
            r ==> group_erased(&old(self).nand, first_user as int, old(self)@.log2_ppc),
    {
        proof {
            lemma_mask_basics(self.log2_ppc as u32);
        }
        let count: u32 = 1u32 << (self.log2_ppc as u32);
        let mut i: u32 = 0;
        while i < count
            invariant
                self.wf(),
                same_geometry(&self.nand, &old(self).nand),
                self@ == old(self)@,
                same_pages(&self.nand, &old(self).nand),
                first_user <= 0x8000_0000u32,
                count <= 0x8000_0000u32,
                count == (1u32 << (self@.log2_ppc as u32)),
                i <= count,
                forall|p: DharaPage, k: usize|
                    first_user <= p < first_user + i && k < (1usize << (old(self).nand.log2_page_size() as usize))
                        ==> #[trigger] old(self).nand.page_byte(p, k) == 0xffu8,
            decreases count - i,
        {
            let ghost before = self.nand;
            if !self.nand.is_free(first_user + i) {
                return false;
            }
            proof {
                assert forall|p: DharaPage, k: usize|
                    first_user <= p < first_user + i + 1 && k < (1usize << (old(self).nand.log2_page_size() as usize))
                    implies #[trigger] old(self).nand.page_byte(p, k) == 0xffu8 by {
                    if p == first_user + i {
                        assert(before.page_byte(p, k) == 0xffu8);
                    }
                }
            }
            i = i + 1;
        }
        true
    }

    /// Find the last checkpoint group in an erase block. If a checkpoint
    /// group is completely unprogrammed, everything following it will be
    /// completely unprogrammed also; therefore, binary search checkpoint
    /// groups until we find the last programmed one. Returns the first page
    /// of that group, with a record of what the search found.
    fn find_last_group(&mut self, block: DharaBlock) -> (r: (DharaPage, Ghost<(u32, Set<u32>, Set<u32>)>))
        requires
            old(self).wf(),
            block < old(self).nand.num_blocks(),
        ensures
            final(self).wf(),
            same_geometry(&final(self).nand, &old(self).nand),
            final(self)@ == old(self)@,
            same_pages(&final(self).nand, &old(self).nand),
            r.0 < final(self).chip_pages(),
            r.0 & low_mask(final(self)@.log2_ppc as u32) == 0,
            r.0 >> (final(self).nand.log2_ppb() as u32) == block,
            ({
                // The group found; the groups whose pages were all
                // reported free; those with a page reported not free.
                let (k, free, busy) = r.1@;
                let ppb = old(self).nand.log2_ppb() as u32;
                let c = old(self)@.log2_ppc as u32;
                let n = 1u32 << ((ppb - c) as u32);
                &&& k < n
                &&& r.0 == group_first_page(block, k, ppb, c)
                &&& forall|j: u32| #[trigger] free.contains(j) ==> j < n
                    && group_erased(&old(self).nand, group_first_page(block, j, ppb, c), old(self)@.log2_ppc)
                &&& {
                    // Either the group found is in use and the next one,
                    // if the block has one, is erased; or the first group
                    // is erased (nothing in the block is programmed); or
                    // the chip answered both ways for some group.
                    ||| busy.contains(k) && (k + 1 == n || free.contains((k + 1) as u32))
                    ||| k == 0 && free.contains(0u32)
                    ||| k == 0 && exists|j: u32| #[trigger] free.contains(j) && busy.contains(j)
                }
            }),
    {
        let ppb = self.nand.get_log2_ppb() as u32;
        let c = self.log2_ppc as u32;
        proof {
            lemma_mask_basics((ppb - c) as u32);
            lemma_mask_basics(c);
            self.lemma_block_first_page(block);
            lemma_block_start(block, self.nand.num_blocks(), ppb, c);
        }
        let num_groups: u32 = 1u32 << (ppb - c);
        let mut low: u32 = 0;
        let mut high: u32 = num_groups - 1;
        let ghost mut free: Set<u32> = Set::empty();
        let ghost mut busy: Set<u32> = Set::empty();

        while low <= high
            invariant
                self.wf(),
                same_geometry(&self.nand, &old(self).nand),
                self@ == old(self)@,
                same_pages(&self.nand, &old(self).nand),
                ppb == self.nand.log2_ppb(),
                c == self@.log2_ppc,
                block < self.nand.num_blocks(),
                num_groups == (1u32 << ((ppb - c) as u32)),
                high < num_groups,
                num_groups >= 1,
                num_groups <= 0x8000_0000u32,
                low <= high + 1,
                low > 0 ==> low < num_groups && busy.contains(low) && busy.contains((low - 1) as u32),
                high + 1 < num_groups ==> free.contains((high + 1) as u32),
                forall|j: u32| #[trigger] free.contains(j) ==> j < num_groups
                    && group_erased(&old(self).nand, group_first_page(block, j, ppb, c), old(self)@.log2_ppc),
            decreases high + 1 - low,
        {
            proof {
                lemma_midpoint(low, high);
                lemma_group_page(((low + high) as u32) >> 1, block, self.nand.num_blocks(), ppb, c);
                self.lemma_chip();
            }
            let mid = (low + high) >> 1;
            let page: DharaPage = (mid << c) | (block << ppb);
            proof {
                if mid + 1 < num_groups {
                    lemma_following_group(mid, ppb, c);
                }
            }
            let ghost before = self.nand;
            if self.cp_free(page) {
                proof {
                    lemma_erased_same_pages(&before, &old(self).nand, page as int, c as u8);
                    free = free.insert(mid);
                }
                // An unprogrammed first group means no group of the block
                // is programmed.
                if mid == 0 {
                    proof {
                        self.lemma_block_first_page(block);
                        lemma_block_start(block, self.nand.num_blocks(), ppb, c);
                        lemma_shl_zero(c);
                    }
                    return (block << ppb, Ghost((0u32, free, busy)));
                }
                high = mid - 1;
            } else {
                proof {
                    busy = busy.insert(mid);
                }
                if ((mid + 1) >= num_groups) {
                    return (page, Ghost((mid, free, busy)));
                }
                let ghost before = self.nand;
                if self.cp_free(page + (1u32 << c)) {
                    proof {
                        lemma_erased_same_pages(&before, &old(self).nand, (page + (1u32 << c)) as int, c as u8);
                        free = free.insert((mid + 1) as u32);
                    }
                    return (page, Ghost((mid, free, busy)));
                }
                proof {
                    busy = busy.insert((mid + 1) as u32);
                }
                low = mid + 1;
            }
        }
        proof {
            assert(free.contains(low) && busy.contains(low));
            self.lemma_chip();
            self.lemma_block_first_page(block);
            lemma_block_start(block, self.nand.num_blocks(), ppb, c);
            lemma_shl_zero(c);
        }
        (block << ppb, Ghost((0u32, free, busy)))
    }

    /// Find the last good checkpoint at or before the group starting at
    /// `start`, and set the root to the last user page before it. The page
    /// buffer is left holding that checkpoint. A record of the group taken
    /// and of the groups whose checkpoint could not be read comes with the
    /// result.
    fn find_root(&mut self, start: DharaPage) -> (r: (Result<(), DharaError>, Ghost<(u32, Set<u32>)>))
        requires
            old(self).wf(),
            start < old(self).chip_pages(),
        ensures
            final(self).wf(),
            same_geometry(&final(self).nand, &old(self).nand),
            match r.0 {
                Ok(_) => final(self)@ == (JournalView {
                    buf: final(self)@.buf,
                    root: final(self)@.root,
                    ..old(self)@
                }) && final(self)@.root != DHARA_PAGE_NONE && has_checkpoint(final(self)@.buf, old(self)@.epoch)
                    && page_holds(&final(self).nand, (final(self)@.root + 1) as u32, final(self)@.buf),
                Err(e) => e == DharaError::TooBad && final(self)@ == (JournalView {
                    buf: final(self)@.buf,
                    ..old(self)@
                }),
            },
            same_pages(&final(self).nand, &old(self).nand),
            ({
                // The group whose checkpoint was taken, and the groups whose
                // checkpoint page could not be read.
                let (k, unread) = r.1@;
                let ppb = old(self).nand.log2_ppb() as u32;
                let c = old(self)@.log2_ppc as u32;
                let block = start >> ppb;
                let sg = (start & low_mask(ppb)) >> c;
                &&& r.0 is Ok ==> {
                    &&& k <= sg
                    &&& final(self)@.root + 1 == group_last_page(block, k, ppb, c)
                    &&& chip_checkpoint(&old(self).nand, (final(self)@.root + 1) as u32, old(self)@.epoch)
                }
                // No later group up to the start group holds a checkpoint of
                // this epoch that could be read; on failure, no group does.
                &&& forall|g: u32|
                    (if r.0 is Ok { k < g } else { true }) && g <= sg ==> #[trigger] unread.contains(g)
                        || !chip_checkpoint(&old(self).nand, group_last_page(block, g, ppb, c) as u32, old(self)@.epoch)
            }),
    {
        let ppb = self.nand.get_log2_ppb() as u32;
        let c = self.log2_ppc as u32;
        let psize = self.nand.get_log2_page_size() as usize;
        proof {
            self.lemma_chip();
            lemma_mask_basics(ppb);
        }
        let block: DharaBlock = start >> ppb;
        let mut i: u32 = (start & ((1u32 << ppb) - 1)) >> c;
        let ghost sg: u32 = i;
        let ghost mut unread: Set<u32> = Set::empty();

        loop
            invariant
                self.wf(),
                same_geometry(&self.nand, &old(self).nand),
                self@ == (JournalView { buf: self@.buf, ..old(self)@ }),
                same_pages(&self.nand, &old(self).nand),
                ppb == self.nand.log2_ppb(),
                c == self@.log2_ppc,
                psize == self.nand.log2_page_size(),
                N == (1usize << psize),
                block == start >> ppb,
                start < self.chip_pages(),
                sg == (start & low_mask(ppb)) >> c,
                i <= sg,
                forall|g: u32|
                    i < g && g <= sg ==> #[trigger] unread.contains(g)
                        || !chip_checkpoint(&old(self).nand, group_last_page(block, g, ppb, c) as u32, old(self)@.epoch),
            ensures
                self.wf(),
                same_geometry(&self.nand, &old(self).nand),
                self@ == (JournalView { buf: self@.buf, ..old(self)@ }),
                same_pages(&self.nand, &old(self).nand),
                forall|g: u32|
                    g <= sg ==> #[trigger] unread.contains(g)
                        || !chip_checkpoint(&old(self).nand, group_last_page(block, g, ppb, c) as u32, old(self)@.epoch),
            decreases i,
        {
            proof {
                lemma_group_last_page(start, i, self.nand.num_blocks(), ppb, c);
            }
            let page: DharaPage = (block << ppb) + (((i + 1) as u32) << c) - 1;
            // Read a page into the buffer, which is also used by subsequent
            // functions.
            let result = self.nand.read(page, 0, 1usize << psize, &mut self.page_buf);
            if result.is_ok() && self.hdr_has_magic() && (self.hdr_get_epoch() == self.epoch) {
                self.root = page - 1;
                return (Ok(()), Ghost((i, unread)));
            }
            proof {
                if result is Err {
                    unread = unread.insert(i);
                }
                assert(unread.contains(i) || !chip_checkpoint(&old(self).nand, page, old(self)@.epoch));
            }
            if i == 0 {
                break;
            } else {
                i = i - 1;
            }
        }
        (Err(DharaError::TooBad), Ghost((0u32, unread)))
    }
}


impl<const N: usize, T: DharaNand> DharaJournal<N, T> {
    /// Starting from the last good checkpoint, find either:
    ///   (a) the next free user page in the same block, or
    ///   (b) the first page of the next block.
    /// The block we end up on might be bad, but that's OK -- we'll skip it
    /// when we go to prepare the next write. If the head lands on the tail's
    /// block, the tail moves on to the next block.
    fn find_head(&mut self, start: DharaPage)
        requires
            old(self).wf(),
        ensures
            final(self).wf(),
            same_geometry(&final(self).nand, &old(self).nand),
            final(self)@ == (JournalView {
                head: final(self)@.head,
                tail: final(self)@.tail,
                epoch: final(self)@.epoch,
                bb_current: final(self)@.bb_current,
                bb_last: final(self)@.bb_last,
                ..old(self)@
            }),
            ({
                let s = old(self).nand.log2_ppb() as u32;
                let nb = old(self).nand.num_blocks();
                let b0 = next_upage_spec(start, old(self)@.log2_ppc, old(self).chip_pages()) >> s;
                &&& final(self)@.head >> s == b0 && erased_to_group_end(&old(self).nand, final(self)@.head, old(self)@.log2_ppc)
                    || final(self)@.head == next_block_spec(b0, nb) << s
                &&& final(self)@.tail == old(self)@.tail || {
                    &&& final(self)@.head & low_mask(s) == 0
                    &&& final(self)@.head >> s == old(self)@.tail >> s
                    &&& final(self)@.tail == next_block_spec(old(self)@.tail >> s, nb) << s
                }
            }),
            same_pages(&final(self).nand, &old(self).nand),
    {
        let ppb = self.nand.get_log2_ppb() as u32;
        let c = self.log2_ppc as u32;
        proof {
            lemma_mask_basics(c);
            lemma_mask_basics(ppb);
        }
        self.head = self.next_upage(start);
        let ghost b0 = self.head >> ppb;
        if self.head == 0 {
            self.roll_stats();
        }

        loop
            invariant_except_break
                self.head >> ppb == b0,
                self@.tail == old(self)@.tail,
            invariant
                self.wf(),
                same_geometry(&self.nand, &old(self).nand),
                same_pages(&self.nand, &old(self).nand),
                self@ == (JournalView {
                    head: self@.head,
                    tail: self@.tail,
                    epoch: self@.epoch,
                    bb_current: self@.bb_current,
                    bb_last: self@.bb_last,
                    ..old(self)@
                }),
                ppb == self.nand.log2_ppb(),
                c == self@.log2_ppc,
                b0 == next_upage_spec(start, old(self)@.log2_ppc, old(self).chip_pages()) >> ppb,
            ensures
                self.head >> ppb == b0 && erased_to_group_end(&old(self).nand, self.head, old(self)@.log2_ppc)
                    || self.head == next_block_spec(b0, self.nand.num_blocks()) << ppb,
                self@.tail == old(self)@.tail || {
                    &&& self.head & low_mask(ppb) == 0
                    &&& self.head >> ppb == old(self)@.tail >> ppb
                    &&& self@.tail == next_block_spec(old(self)@.tail >> ppb, self.nand.num_blocks()) << ppb
                },
            decreases low_mask(ppb) - (self.head & low_mask(ppb)),
        {
            proof {
                self.lemma_chip();
                lemma_mask_basics(c);
                lemma_group_start(self.head, c, self.chip_pages());
                lemma_head_step(self.head, ppb, c, self.chip_pages());
                lemma_and_le(self.head, low_mask(ppb));
            }
            // How many free pages trail this checkpoint group?
            let ppc: u32 = 1u32 << c;
            let mut n: u32 = 0;
            let first: DharaPage = self.head & !((ppc - 1) as DharaPage);

            let ghost before = self@;
            while n < ppc
                invariant
                    self.wf(),
                    same_geometry(&self.nand, &old(self).nand),
                    same_pages(&self.nand, &old(self).nand),
                    self@ == before,
                    n <= ppc,
                    first + ppc <= self.chip_pages(),
                    forall|p: DharaPage, k: usize|
                        first + ppc - n <= p < first + ppc && k < (1usize << (old(self).nand.log2_page_size() as usize))
                            ==> #[trigger] old(self).nand.page_byte(p, k) == 0xffu8,
                decreases ppc - n,
            {
                let ghost chip = self.nand;
                if !self.nand.is_free(first + ppc - n - 1) {
                    break;
                }
                proof {
                    assert forall|p: DharaPage, k: usize|
                        first + ppc - n - 1 <= p < first + ppc && k < (1usize << (old(self).nand.log2_page_size() as usize))
                        implies #[trigger] old(self).nand.page_byte(p, k) == 0xffu8 by {
                        if p == first + ppc - n - 1 {
                            assert(chip.page_byte(p, k) == 0xffu8);
                        }
                    }
                }
                n = n + 1;
            }

            // If we have some, then we've found our next free user page.
            if n > 1 {
                proof {
                    lemma_group_offset(first, (ppc - n) as u32, c);
                    lemma_group_in_block(self.head, (ppc - n) as u32, c, ppb);
                    lemma_same_group_start((first + ppc - n) as u32, first, c);
                }
                self.head = first + ppc - n;
                break;
            }
            // Skip to the next checkpoint group.
            proof {
                lemma_next_group(self.head, c, ppb);
                lemma_chip_block(self.head, self.nand.num_blocks(), ppb);
                lemma_block_bounds(b0, ppb);
                lemma_shl_fits(self.nand.num_blocks(), self.nand.num_blocks(), ppb);
                if b0 + 1 < self.nand.num_blocks() {
                    lemma_shl_fits((b0 + 1) as u32, self.nand.num_blocks(), ppb);
                }
            }
            self.head = first + ppc;
            if self.head >= (self.nand.get_num_blocks() << ppb) {
                proof {
                    lemma_zero_user(c);
                    lemma_and_le(0, low_mask(ppb));
                }
                self.head = 0;
                self.roll_stats();
            }
            // If we hit the end of the block, we're done.
            if is_aligned(self.head, self.nand.get_log2_ppb()) {
                // Make sure we don't chase over the tail.
                if align_eq(self.head, self.tail, self.nand.get_log2_ppb()) {
                    proof {
                        self.lemma_chip();
                    }
                    let nb = self.next_block(self.tail >> ppb);
                    proof {
                        self.lemma_block_first_page(nb);
                    }
                    self.tail = nb << ppb;
                }
                break;
            }
            proof {
                lemma_and_le(self.head, low_mask(ppb));
            }
        }
    }

    /// Start up the journal -- search the NAND for the journal head, or
    /// initialize a blank journal if one isn't found. Returns `Ok(())` on
    /// success or `Err(DharaError::TooBad)` if no usable checkpoint is found,
    /// in which case the journal is reset to an empty state. A checkpoint
    /// whose recorded tail is not a user page of the chip is not usable.
    ///
    /// This operation is O(log N), where N is the number of pages in the
    /// NAND chip. All other operations are O(1).
    pub fn journal_resume(&mut self) -> (r: Result<(), DharaError>)
        requires
            old(self).wf(),
        ensures
            final(self).wf(),
            same_geometry(&final(self).nand, &old(self).nand),
            final(self)@.log2_ppc == old(self)@.log2_ppc,
            match r {
                Ok(_) => {
                    &&& final(self)@.flags == 0
                    &&& final(self)@.tail_sync == final(self)@.tail
                    &&& final(self)@.root != DHARA_PAGE_NONE
                    &&& final(self)@.recover_next == DHARA_PAGE_NONE
                    &&& final(self)@.recover_root == DHARA_PAGE_NONE
                    &&& final(self)@.recover_meta == DHARA_PAGE_NONE
                    &&& final(self)@.buf[0] == 0x44u8
                    &&& final(self)@.buf[1] == 0x68u8
                    &&& final(self)@.buf[2] == 0x61u8
                    &&& forall|k: int|
                        DHARA_HEADER_SIZE + DHARA_COOKIE_SIZE <= k < N ==> #[trigger] final(self)@.buf[k] == 0xffu8
                    &&& forall|k: int|
                        0 <= k < DHARA_HEADER_SIZE + DHARA_COOKIE_SIZE ==> #[trigger] final(self)@.buf[k]
                            == final(self).nand.page_byte((final(self)@.root + 1) as u32, k as usize)
                    // The head is at the start of a block, or it and the
                    // rest of its checkpoint group are erased.
                    &&& final(self)@.head & low_mask(old(self).nand.log2_ppb() as u32) != 0 ==> erased_to_group_end(
                        &final(self).nand,
                        final(self)@.head,
                        final(self)@.log2_ppc,
                    )
                    &&& ({
                        let s = old(self).nand.log2_ppb() as u32;
                        let t0 = get32(final(self)@.buf, DHARA_HEADER_TAIL_IDX as int);
                        ||| final(self)@.tail == t0
                        ||| {
                            &&& final(self)@.head & low_mask(s) == 0
                            &&& final(self)@.head >> s == (t0 as u32) >> s
                            &&& final(self)@.tail == next_block_spec((t0 as u32) >> s, old(self).nand.num_blocks()) << s
                        }
                    })
                },
                Err(e) => e == DharaError::TooBad && final(self)@ == reset_view(
                    old(self)@.log2_ppc,
                    old(self).nand.num_blocks(),
                    N,
                ),
            },
    {
        let res = self.find_checkblock(0);
        match res {
            Err(e) => {
                self.reset_journal();
                Err(e)
            },
            Ok(first) => {
                // Find the last checkpoint-containing block in this epoch.
                self.epoch = self.hdr_get_epoch();
                let (last, _) = self.find_last_checkblock(first);
                // Find the last programmed checkpoint group in the block.
                let (last_group, _) = self.find_last_group(last);
                // Perform a linear scan to find the last good checkpoint (and
                // therefore the root).
                let (found, _) = self.find_root(last_group);
                if let Err(e) = found {
                    self.reset_journal();
                    return Err(e);
                }
                // Restore settings from the checkpoint.
                let tail = self.hdr_get_tail();
                if !self.is_user(tail) {
                    self.reset_journal();
                    return Err(DharaError::TooBad);
                }
                self.tail = tail;
                self.bb_current = self.hdr_get_bb_current();
                self.bb_last = self.hdr_get_bb_last();
                proof {
                    self.lemma_chip();
                }
                let ghost hdr = self.page_buf@;
                self.hdr_clear_user(self.nand.get_log2_page_size() as usize);
                proof {
                    assert(self.page_buf@[4] == hdr[4] && self.page_buf@[5] == hdr[5] && self.page_buf@[6] == hdr[6]
                        && self.page_buf@[7] == hdr[7]);
                }

                // Perform another linear scan to find the next free user page.
                let ghost chip = self.nand;
                self.find_head(last_group);
                proof {
                    if self.head & low_mask(self.nand.log2_ppb() as u32) != 0 {
                        lemma_shl_aligned(
                            next_block_spec(
                                next_upage_spec(last_group, self@.log2_ppc, self.chip_pages()) >> (self.nand.log2_ppb() as u32),
                                self.nand.num_blocks(),
                            ),
                            self.nand.log2_ppb() as u32,
                            self.nand.log2_ppb() as u32,
                        );
                        lemma_erased_to_end_same_pages(&chip, &self.nand, self.head, self.log2_ppc);
                    }
                }

                self.flags = 0;
                self.tail_sync = self.tail;

                self.clear_recovery();
                proof {
                    lemma_flags(0);
                }
                Ok(())
            },
        }
    }
}


/// The metadata bytes pushed for a page: those given, or blank (0xff) when
/// there are none.
pub open spec fn meta_bytes(meta: Option<&[u8]>) -> Seq<u8> {
    match meta {
        Some(m) => m@,
        None => Seq::new(DHARA_META_SIZE as nat, |i: int| 0xffu8),
    }
}

/// The metadata kept in the page buffer for `page`'s slot of its checkpoint
/// group.
pub open spec fn buffered_meta(v: JournalView, page: u32) -> Seq<u8> {
    let off = JournalView::user_offset((page & low_mask(v.log2_ppc as u32)) as int);
    v.buf.subrange(off, off + DHARA_META_SIZE)
}

/// What reading the metadata of `page` from the page buffer gives: the
/// page's slot, or nothing when the slot (that of a checkpoint page) does
/// not fit in a buffer of `n` bytes.
pub open spec fn buffered_read(v: JournalView, page: u32, n: usize) -> Option<Seq<u8>> {
    let off = JournalView::user_offset((page & low_mask(v.log2_ppc as u32)) as int);
    if off + DHARA_META_SIZE <= n {
        Some(v.buf.subrange(off, off + DHARA_META_SIZE))
    } else {
        None
    }
}

/// The metadata of a user page in the group being filled is read back from
/// the page buffer: after a successful enqueue, the root's metadata is the
/// metadata pushed (see `journal_enqueue`), and while the root stays in the
/// head's checkpoint group, `journal_read_meta` of the root returns exactly
/// that metadata.
pub proof fn law_buffered_meta_read_back<T: DharaNand>(v: JournalView, nand: &T, n: usize, page: u32)
    requires
        journal_valid(v, nand, n),
        is_user_page(page, v.log2_ppc, total_pages(nand)),
    ensures
        buffered_read(v, page, n) == Some(buffered_meta(v, page)),
{
    lemma_and_le(page, low_mask(v.log2_ppc as u32));
}

/// Metadata reads back from a written checkpoint. When the user page `page`
/// is the last of its checkpoint group and the page after it, the group's
/// checkpoint page, holds the page buffer `v.buf` (as after an enqueue that
/// completed the group), reading `page`'s metadata slot from the checkpoint
/// page, as `journal_read_meta` does for pages outside the group being
/// filled, gives the metadata buffered for `page`.
pub proof fn law_meta_read_back_after_checkpoint<T: DharaNand>(v: JournalView, nand: &T, page: u32, read: Seq<u8>)
    requires
        1 <= v.log2_ppc < 32,
        page < 0x8000_0000u32,
        ((page + 2) as u32) & low_mask(v.log2_ppc as u32) == 0,
        page_holds(nand, (page + 1) as u32, v.buf),
        JournalView::user_offset((page & low_mask(v.log2_ppc as u32)) as int) + DHARA_META_SIZE <= v.buf.len(),
        read.len() >= DHARA_META_SIZE,
        forall|i: int|
            0 <= i < DHARA_META_SIZE ==> #[trigger] read[i] == nand.page_byte(
                page | low_mask(v.log2_ppc as u32),
                (JournalView::user_offset((page & low_mask(v.log2_ppc as u32)) as int) + i) as usize,
            ),
    ensures
        read.subrange(0, DHARA_META_SIZE as int) == buffered_meta(v, page),
{
    let c = v.log2_ppc as u32;
    assert(page | low_mask(c) == (page + 1) as u32) by (bit_vector)
        requires
            1 <= c < 32,
            page < 0x8000_0000u32,
            ((page + 2) as u32) & low_mask(c) == 0,
    ;
    let off = JournalView::user_offset((page & low_mask(c)) as int);
    assert forall|i: int| 0 <= i < DHARA_META_SIZE implies read[i] == v.buf[off + i] by {
        assert(v.buf[off + i] == nand.page_byte((page + 1) as u32, (off + i) as usize));
    }
    assert(read.subrange(0, DHARA_META_SIZE as int) =~= buffered_meta(v, page));
}

/// The metadata of `page` as `journal_read_meta` finds it: from the page
/// buffer for a page of the group being filled (none when its slot does not
/// fit a buffer of `n` bytes), from the dumped metadata for a page of the
/// group being recovered, and otherwise from the checkpoint page of the
/// page's group on the chip.
pub open spec fn meta_at<T: DharaNand>(v: JournalView, nand: &T, page: u32, n: usize) -> Option<Seq<u8>> {
    let c = v.log2_ppc as u32;
    let off = JournalView::user_offset((page & low_mask(c)) as int);
    if page >> c == v.head >> c {
        buffered_read(v, page, n)
    } else {
        let src = if v.recover_meta != DHARA_PAGE_NONE && page >> c == v.recover_root >> c {
            v.recover_meta
        } else {
            page | low_mask(c)
        };
        Some(Seq::new(DHARA_META_SIZE as nat, |i: int| nand.page_byte(src, (off + i) as usize)))
    }
}

/// Chips that hold the same bytes give the same metadata.
pub proof fn lemma_meta_at_pages<T: DharaNand>(v: JournalView, a: &T, b: &T, page: u32, n: usize)
    requires
        same_pages(a, b),
    ensures
        meta_at(v, a, page, n) == meta_at(v, b, page, n),
{
    let c = v.log2_ppc as u32;
    if !(page >> c == v.head >> c) {
        let off = JournalView::user_offset((page & low_mask(c)) as int);
        let src = if v.recover_meta != DHARA_PAGE_NONE && page >> c == v.recover_root >> c {
            v.recover_meta
        } else {
            page | low_mask(c)
        };
        assert(Seq::new(DHARA_META_SIZE as nat, |i: int| a.page_byte(src, (off + i) as usize)) =~= Seq::new(
            DHARA_META_SIZE as nat,
            |i: int| b.page_byte(src, (off + i) as usize),
        ));
    }
}

/// Fields that bad-block handling and head movement may change: the head,
/// flags, bad-block counters and epoch. Everything else is as before.
pub open spec fn only_head_moved(new: JournalView, old: JournalView) -> bool {
    new == JournalView {
        head: new.head,
        flags: new.flags,
        bb_current: new.bb_current,
        bb_last: new.bb_last,
        epoch: new.epoch,
        ..old
    }
}

impl<const N: usize, T: DharaNand> DharaJournal<N, T> {
    /// Count one more bad block before the head.
    fn count_bad_block(&mut self)
        requires
            old(self).wf(),
        ensures
            final(self).wf(),
            final(self).nand == old(self).nand,
            final(self)@ == (JournalView { bb_current: old(self)@.bb_current.wrapping_add(1), ..old(self)@ }),
    {
        self.bb_current = self.bb_current.wrapping_add(1);
    }

    /// Make sure the head pointer is on a ready-to-program page: refuse if
    /// writing would roll the head onto the block of the synchronized tail,
    /// and at the start of a block, skip bad blocks and erase the first good
    /// one.
    fn prepare_head(&mut self) -> (r: Result<(), DharaError>)
        requires
            old(self).wf(),
        ensures
            final(self).wf(),
            same_geometry(&final(self).nand, &old(self).nand),
            only_head_moved(final(self)@, old(self)@),
            final(self)@.is_in_recovery() == old(self)@.is_in_recovery(),
            final(self)@.is_enum_done() == old(self)@.is_enum_done(),
            final(self)@.has_bad_meta() == old(self)@.has_bad_meta(),
            r is Ok ==> final(self)@.is_dirty(),
            r is Ok && old(self)@.head & low_mask(old(self).nand.log2_ppb() as u32) != 0 ==> final(self)@.head
                == old(self)@.head,
            old(self).ordered() ==> final(self).ordered(),
            r is Ok && old(self).ordered() ==> final(self).head_prepared(),
            old(self).is_blocked() ==> r == Err::<(), DharaError>(DharaError::JournalFull) && final(self)@ == old(
                self,
            )@ && final(self).nand == old(self).nand,
            !old(self).is_blocked() && old(self).head_mid_block() ==> r == Ok::<(), DharaError>(()) && final(self).nand
                == old(self).nand && final(self)@ == (JournalView {
                flags: old(self)@.flags | DHARA_JOURNAL_F_DIRTY,
                ..old(self)@
            }),
            r is Err ==> r == Err::<(), DharaError>(DharaError::JournalFull) || r == Err::<(), DharaError>(
                DharaError::TooBad,
            ) || r == Err::<(), DharaError>(DharaError::BadBlock),
    {
        let ppb = self.nand.get_log2_ppb();
        let next = self.next_upage(self.head);
        let ghost s = ppb as u32;
        let ghost nb = self.nand.num_blocks();

        // We can't write if doing so would cause the head pointer to roll
        // onto the same block as the last-synched tail.
        if align_eq(next, self.tail_sync, ppb) && !align_eq(next, self.head, ppb) {
            return Err(DharaError::JournalFull);
        }

        self.flags = self.flags | DHARA_JOURNAL_F_DIRTY;
        proof {
            lemma_flags(old(self).flags);
            if old(self).ordered() {
                self.lemma_chip();
                lemma_next_after(self.head, self.tail_sync, self.log2_ppc, s, nb);
            }
        }
        if !is_aligned(self.head, ppb) {
            return Ok(());
        }

        let mut i: u8 = 0;
        while i < DHARA_MAX_RETRIES
            invariant
                self.wf(),
                same_geometry(&self.nand, &old(self).nand),
                only_head_moved(self@, old(self)@),
                self@.is_dirty(),
                self@.is_in_recovery() == old(self)@.is_in_recovery(),
                self@.is_enum_done() == old(self)@.is_enum_done(),
                self@.has_bad_meta() == old(self)@.has_bad_meta(),
                !old(self).is_blocked(),
                !old(self).head_mid_block(),
                ppb == self.nand.log2_ppb(),
                s == ppb as u32,
                nb == self.nand.num_blocks(),
                old(self)@.head & low_mask(ppb as u32) == 0,
                old(self).ordered() ==> self.ordered(),
                old(self).ordered() && self@.head == old(self)@.head ==> self.head_prepared(),
                old(self).ordered() && self@.head != old(self)@.head ==> {
                    &&& self.head >> s != self.tail_sync >> s
                    &&& self.head == (self.head >> s) << s
                    &&& self.head >> s < nb
                },
            decreases DHARA_MAX_RETRIES - i,
        {
            proof {
                self.lemma_chip();
            }
            let block: DharaBlock = self.head >> (ppb as u32);
            if !self.nand.is_bad(block) {
                proof {
                    if old(self).ordered() && self@.head != old(self)@.head {
                        lemma_block_start_next(block, self.tail_sync, self.log2_ppc, s, nb);
                    }
                }
                return self.nand.erase(block);
            }
            self.count_bad_block();
            let ghost before = self@;
            let skipped = self.skip_block();
            proof {
                lemma_flags(before.flags);
                if skipped is Ok {
                    let next_b = next_block_spec(before.head >> s, nb);
                    lemma_block_bounds(next_b, s);
                    if old(self).ordered() {
                        lemma_block_start_next(next_b, self.tail_sync, self.log2_ppc, s, nb);
                    }
                }
            }
            if let Err(e) = skipped {
                return Err(e);
            }
            i = i + 1;
        }
        Err(DharaError::TooBad)
    }

    /// Begin recovery again after another failure: mark the failed head
    /// block bad (or note that it holds the dumped metadata), and restart
    /// the enumeration of pages to recover from the start of the block being
    /// recovered.
    fn restart_recovery(&mut self, old_head: DharaPage)
        requires
            old(self).wf(),
        ensures
            final(self).wf(),
            same_geometry(&final(self).nand, &old(self).nand),
            ({
                let s = old(self).nand.log2_ppb() as u32;
                let v = old(self)@;
                final(self)@ == JournalView {
                    flags: final(self)@.flags,
                    recover_next: v.recover_root & !low_mask(s),
                    root: v.recover_root,
                    ..v
                }
            }),
            !final(self)@.is_enum_done(),
            final(self)@.is_dirty() == old(self)@.is_dirty(),
            final(self)@.is_in_recovery() == old(self)@.is_in_recovery(),
            old(self).ordered() && old(self)@.is_in_recovery() ==> final(self).ordered(),
    {
        let ppb = self.nand.get_log2_ppb();
        proof {
            lemma_mask_basics(ppb as u32);
            lemma_flags(self.flags);
        }
        // Mark the current head bad immediately, unless we're also using it
        // to hold our dumped metadata (it will then be marked bad at the end
        // of recovery).
        if self.recover_meta == DHARA_PAGE_NONE || !align_eq(self.recover_meta, old_head, ppb) {
            self.nand.mark_bad(old_head >> (ppb as u32));
        } else {
            self.flags = self.flags | DHARA_JOURNAL_F_BAD_META;
        }
        proof {
            lemma_flags(self.flags);
        }
        // Start recovery again. Reset the source enumeration to the start of
        // the first failed block, and reset the destination enumeration to
        // the newly found good block.
        self.flags = self.flags & !DHARA_JOURNAL_F_ENUM_DONE;
        self.recover_next = self.recover_root & !((1u32 << (ppb as u32)) - 1);
        self.root = self.recover_root;
    }
}


/// The page buffer with `bytes` (of the metadata size) placed at `off`.
pub open spec fn with_meta(buf: Seq<u8>, off: int, bytes: Seq<u8>) -> Seq<u8> {
    Seq::new(
        buf.len(),
        |k: int|
            if off <= k < off + DHARA_META_SIZE {
                bytes[k - off]
            } else {
                buf[k]
            },
    )
}

impl<const N: usize, T: DharaNand> DharaJournal<N, T> {
    /// We've just begun recovery on a new erasable block, but we have
    /// buffered metadata from the failed block: write it to a free page and
    /// remember where it went.
    fn dump_meta(&mut self) -> (r: Result<(), DharaError>)
        requires
            old(self).wf(),
        ensures
            final(self).wf(),
            same_geometry(&final(self).nand, &old(self).nand),
            final(self)@ == (JournalView {
                head: final(self)@.head,
                flags: final(self)@.flags,
                bb_current: final(self)@.bb_current,
                bb_last: final(self)@.bb_last,
                epoch: final(self)@.epoch,
                recover_meta: final(self)@.recover_meta,
                buf: final(self)@.buf,
                ..old(self)@
            }),
            final(self)@.is_in_recovery() == old(self)@.is_in_recovery(),
            final(self)@.is_enum_done() == old(self)@.is_enum_done(),
            final(self)@.has_bad_meta() == old(self)@.has_bad_meta(),
            old(self).ordered() ==> final(self).ordered(),
            old(self).is_blocked() ==> r == Err::<(), DharaError>(DharaError::JournalFull) && final(self)@ == old(
                self,
            )@ && final(self).nand == old(self).nand,
            r is Ok ==> final(self)@.buf == clear_user_buf(old(self)@.buf) && is_user_page(
                final(self)@.recover_meta,
                old(self)@.log2_ppc,
                old(self).chip_pages(),
            ),
            r is Ok ==> page_holds(&final(self).nand, final(self)@.recover_meta, old(self)@.buf),
            r is Err ==> r == Err::<(), DharaError>(DharaError::JournalFull) || r == Err::<(), DharaError>(
                DharaError::TooBad,
            ),
            final(self)@.cookie() == old(self)@.cookie(),
    {
        let mut i: u8 = 0;
        let psize = self.nand.get_log2_page_size() as usize;
        let ppb = self.nand.get_log2_ppb() as u32;
        while i < DHARA_MAX_RETRIES
            invariant
                self.wf(),
                same_geometry(&self.nand, &old(self).nand),
                self@ == (JournalView {
                    head: self@.head,
                    flags: self@.flags,
                    bb_current: self@.bb_current,
                    bb_last: self@.bb_last,
                    epoch: self@.epoch,
                    recover_meta: self@.recover_meta,
                    buf: self@.buf,
                    ..old(self)@
                }),
                self@.is_in_recovery() == old(self)@.is_in_recovery(),
                self@.is_enum_done() == old(self)@.is_enum_done(),
                self@.has_bad_meta() == old(self)@.has_bad_meta(),
                psize == self.nand.log2_page_size(),
                ppb == self.nand.log2_ppb(),
                old(self).ordered() ==> self.ordered(),
                self@.buf == old(self)@.buf,
                i == 0 ==> self@ == old(self)@ && self.nand == old(self).nand,
                !old(self)@.is_in_recovery() ==> !self@.is_in_recovery(),
                i > 0 ==> !old(self).is_blocked(),
            decreases DHARA_MAX_RETRIES - i,
        {
            let mut my_err = self.prepare_head();
            if my_err.is_ok() {
                my_err = self.nand.prog(self.head, &self.page_buf);
                if my_err.is_ok() {
                    let ghost before = self@;
                    proof {
                        if old(self).ordered() {
                            lemma_advance(before, ppb, self.nand.num_blocks());
                        }
                    }
                    self.recover_meta = self.head;
                    self.head = self.next_upage(self.head);
                    if self.head == 0 {
                        self.roll_stats();
                    }
                    proof {
                        self.lemma_chip();
                    }
                    self.hdr_clear_user(psize);
                    proof {
                        assert(self.page_buf@ =~= clear_user_buf(old(self)@.buf));
                    }
                    return Ok(());
                }
            }
            // Report fatal errors.
            match my_err {
                Err(DharaError::BadBlock) => {},
                _ => {
                    return my_err;
                },
            }
            self.count_bad_block();
            proof {
                self.lemma_chip();
            }
            self.nand.mark_bad(self.head >> ppb);
            let ghost before = self@;
            let skipped = self.skip_block();
            proof {
                lemma_flags(before.flags);
            }
            if let Err(e) = skipped {
                return Err(e);
            }
            i = i + 1;
        }
        Err(DharaError::TooBad)
    }

    /// Handle a failed write. Only a bad block can be recovered from: the
    /// head moves to the next block and, unless the failure was at the start
    /// of a block, recovery of the failed block begins (or restarts) and
    /// `DharaError::Recover` is returned.
    fn recover_from(&mut self, write_err: DharaError) -> (r: Result<(), DharaError>)
        requires
            old(self).wf(),
        ensures
            final(self).wf(),
            same_geometry(&final(self).nand, &old(self).nand),
            final(self)@.log2_ppc == old(self)@.log2_ppc,
            final(self)@.tail == old(self)@.tail,
            final(self)@.tail_sync == old(self)@.tail_sync,
            write_err != DharaError::BadBlock ==> r == Err::<(), DharaError>(write_err) && final(self)@
                == old(self)@ && final(self).nand == old(self).nand,
            r is Ok ==> write_err == DharaError::BadBlock && old(self)@.head & low_mask(
                old(self).nand.log2_ppb() as u32,
            ) == 0,
            old(self).ordered() ==> final(self).ordered(),
            write_err == DharaError::BadBlock ==> r != Err::<(), DharaError>(DharaError::BadBlock) && (r
                == Err::<(), DharaError>(DharaError::Recover) ==> final(self)@.is_in_recovery()),
            (write_err == DharaError::BadBlock || write_err == DharaError::JournalFull || write_err
                == DharaError::TooBad) && r is Err ==> r == Err::<(), DharaError>(DharaError::JournalFull) || r == Err::<(), DharaError>(
                DharaError::TooBad,
            ) || r == Err::<(), DharaError>(DharaError::Recover),
            final(self)@.cookie() == old(self)@.cookie(),
            r == Err::<(), DharaError>(DharaError::Recover) && write_err == DharaError::BadBlock ==> ({
                let s = old(self).nand.log2_ppb() as u32;
                if old(self)@.is_in_recovery() {
                    &&& final(self)@.root == old(self)@.recover_root
                    &&& final(self)@.recover_next == old(self)@.recover_root & !low_mask(s)
                    &&& !final(self)@.is_enum_done()
                } else {
                    &&& final(self)@.recover_root == old(self)@.root
                    &&& final(self)@.recover_next == old(self)@.root & !low_mask(s)
                    &&& final(self)@.root == old(self)@.root
                }
            }),
            r is Ok ==> final(self)@.is_in_recovery() == old(self)@.is_in_recovery(),
            r is Ok ==> final(self)@.root == old(self)@.root && final(self)@.head & low_mask(
                old(self).nand.log2_ppb() as u32,
            ) == 0 && same_pages(&final(self).nand, &old(self).nand),
            r == Err::<(), DharaError>(DharaError::Recover) && write_err == DharaError::BadBlock && !old(
                self,
            )@.is_in_recovery() ==> final(self)@.recover_next
                == final(self)@.recover_root & !low_mask(final(self).nand.log2_ppb() as u32),
    {
        let old_head: DharaPage = self.head;
        let ppb = self.nand.get_log2_ppb();

        match write_err {
            DharaError::BadBlock => {},
            _ => {
                return Err(write_err);
            },
        }

        // Advance to the next free page.
        self.count_bad_block();
        self.skip_block()?;

        // Are we already in the middle of a recovery?
        if self.journal_in_recovery() {
            self.restart_recovery(old_head);
            return Err(DharaError::Recover);
        }

        // Were we block aligned? No recovery required!
        if is_aligned(old_head, ppb) {
            proof {
                lemma_page_block(old_head, self.nand.num_blocks(), ppb as u32);
                lemma_shl_aligned(next_block_spec(old_head >> (ppb as u32), self.nand.num_blocks()), ppb as u32, ppb as u32);
                self.lemma_chip();
            }
            self.nand.mark_bad(old_head >> (ppb as u32));
            return Ok(());
        }

        proof {
            lemma_mask_basics(ppb as u32);
        }
        self.recover_root = self.root;
        self.recover_next = self.recover_root & !((1u32 << (ppb as u32)) - 1);

        // Are we holding buffered metadata? Dump it first.
        if !is_aligned(old_head, self.log2_ppc) {
            self.dump_meta()?;
        }

        proof {
            lemma_flags(self.flags);
        }
        self.flags = self.flags | DHARA_JOURNAL_F_RECOVERY;
        Err(DharaError::Recover)
    }

    /// We just recovered the last page: mark the recovered block bad (and
    /// the block holding the dumped metadata, if that went bad too), and
    /// leave recovery.
    fn finish_recovery(&mut self)
        requires
            old(self).wf(),
        ensures
            final(self).wf(),
            same_geometry(&final(self).nand, &old(self).nand),
            final(self)@ == (JournalView {
                recover_next: DHARA_PAGE_NONE,
                recover_root: DHARA_PAGE_NONE,
                recover_meta: DHARA_PAGE_NONE,
                flags: old(self)@.flags & !(DHARA_JOURNAL_F_BAD_META | DHARA_JOURNAL_F_RECOVERY
                    | DHARA_JOURNAL_F_ENUM_DONE),
                ..old(self)@
            }),
            old(self).ordered() ==> final(self).ordered(),
            same_pages(&final(self).nand, &old(self).nand),
    {
        let ppb = self.nand.get_log2_ppb() as u32;
        self.nand.mark_bad(self.recover_root >> ppb);

        // If we had to dump metadata, and the page on which we did this
        // also went bad, mark it bad too.
        if (self.flags & DHARA_JOURNAL_F_BAD_META) != 0 {
            self.nand.mark_bad(self.recover_meta >> ppb);
        }
        self.clear_recovery();
    }

    /// Adds the metadata of the user page just written at the head to the
    /// page buffer (blank metadata for `None`). When that completes a
    /// checkpoint group, the buffer is written out as the group's checkpoint
    /// page.
    #[verifier::spinoff_prover]
    #[verifier::rlimit(60)]
    fn push_meta(&mut self, meta: Option<&[u8]>) -> (r: Result<(), DharaError>)
        requires
            old(self).wf(),
            meta matches Some(m) ==> m@.len() == DHARA_META_SIZE,
        ensures
            final(self).wf(),
            same_geometry(&final(self).nand, &old(self).nand),
            final(self)@.log2_ppc == old(self)@.log2_ppc,
            final(self)@.tail == old(self)@.tail,
            r is Ok ==> (final(self)@.root == old(self)@.head && buffered_meta(final(self)@, final(self)@.root)
                == meta_bytes(meta)) || old(self)@.log2_ppc == 1,
            ({
                let c = old(self)@.log2_ppc as u32;
                let h = old(self)@.head;
                let off = JournalView::user_offset((h & low_mask(c)) as int);
                ((h + 2) as u32) & low_mask(c) != 0 ==> {
                    &&& r == Ok::<(), DharaError>(())
                    &&& final(self).nand == old(self).nand
                    &&& final(self)@ == JournalView {
                        root: h,
                        head: (h + 1) as u32,
                        buf: with_meta(old(self)@.buf, off, meta_bytes(meta)),
                        ..old(self)@
                    }
                }
            }),
            old(self).ordered() && old(self).head_prepared() ==> final(self).ordered(),
            r is Ok && old(self)@.log2_ppc != 1 ==> final(self)@.root == old(self)@.head && forall|i: usize|
                #[trigger] final(self).nand.page_byte(old(self)@.head, i) == old(self).nand.page_byte(
                    old(self)@.head,
                    i,
                ),
            ({
                let c = old(self)@.log2_ppc as u32;
                let h = old(self)@.head;
                ((h + 2) as u32) & low_mask(c) == 0 && r is Ok && old(self)@.log2_ppc != 1 ==> {
                    &&& final(self)@.root == h
                    &&& final(self)@.head == next_upage_spec(h, old(self)@.log2_ppc, old(self).chip_pages())
                    &&& !final(self)@.is_dirty()
                    &&& has_checkpoint(final(self)@.buf, old(self)@.epoch)
                    &&& get32(final(self)@.buf, DHARA_HEADER_TAIL_IDX as int) == old(self)@.tail
                    &&& get32(final(self)@.buf, DHARA_HEADER_BBC_IDX as int) == old(self)@.bb_current
                    &&& get32(final(self)@.buf, DHARA_HEADER_BBL_IDX as int) == old(self)@.bb_last
                    &&& !final(self)@.is_in_recovery() ==> final(self)@.tail_sync == final(self)@.tail
                    &&& page_holds(&final(self).nand, (h + 1) as u32, final(self)@.buf)
                }
            }),
            r != Err::<(), DharaError>(DharaError::BadBlock),
            r == Err::<(), DharaError>(DharaError::Recover) ==> final(self)@.is_in_recovery(),
            r is Err ==> r == Err::<(), DharaError>(DharaError::JournalFull) || r == Err::<(), DharaError>(
                DharaError::TooBad,
            ) || r == Err::<(), DharaError>(DharaError::Recover),
            final(self)@.cookie() == old(self)@.cookie(),
            r is Ok ==> ({
                let c = old(self)@.log2_ppc as u32;
                let h = old(self)@.head;
                ||| {
                    &&& final(self)@.root == h
                    &&& buffered_meta(final(self)@, h) == meta_bytes(meta)
                    &&& forall|p: DharaPage, i: usize|
                        p != ((h + 1) as u32) ==> #[trigger] final(self).nand.page_byte(p, i) == old(self).nand.page_byte(
                            p,
                            i,
                        )
                    &&& ((h + 2) as u32) & low_mask(c) != 0 ==> final(self)@.is_dirty() == old(self)@.is_dirty()
                    &&& ((h + 2) as u32) & low_mask(c) == 0 ==> !final(self)@.is_dirty()
                }
                ||| {
                    &&& old(self)@.log2_ppc == 1
                    &&& final(self)@.root == old(self)@.root
                    &&& final(self)@.head & low_mask(old(self).nand.log2_ppb() as u32) == 0
                }
            }),
            r == Err::<(), DharaError>(DharaError::Recover) && !old(self)@.is_in_recovery() ==> final(self)@.recover_next
                == final(self)@.recover_root & !low_mask(final(self).nand.log2_ppb() as u32),
    {
        let old_head = self.head;
        let c = self.log2_ppc as u32;
        proof {
            if old(self).ordered() && old(self).head_prepared() {
                lemma_advance(old(self)@, self.nand.log2_ppb() as u32, self.nand.num_blocks());
            }
        }
        proof {
            lemma_mask_basics(c);
            self.lemma_chip();
            lemma_and_le(self.head, low_mask(c));
            lemma_next_upage(self.head, c, self.chip_pages());
        }
        let which: u32 = self.head & ((1u32 << c) - 1);
        let offset: usize = self.hdr_user_offset(which);
        let ghost off = offset as int;

        // We have just written a user page. Add the metadata to the buffer.
        match meta {
            Some(m) => {
                copy_into(&mut self.page_buf, offset, m, 0, DHARA_META_SIZE);
            },
            None => {
                fill_ff(&mut self.page_buf, offset, offset + DHARA_META_SIZE);
            },
        }
        proof {
            assert(self.page_buf@ =~= with_meta(old(self)@.buf, off, meta_bytes(meta)));
            assert(buffered_meta(self@, old_head) =~= meta_bytes(meta));
        }

        // Unless we've filled the buffer, don't do any I/O.
        if !is_aligned(self.head + 2, self.log2_ppc) {
            self.root = self.head;
            self.head = self.head + 1;
            return Ok(());
        }
        let ghost filled = self.page_buf@;

        // We don't need to check for immediate recover, because that'll
        // never happen -- we're not block-aligned.
        self.hdr_put_magic();
        self.hdr_set_epoch(self.epoch);
        self.hdr_set_tail(self.tail);
        self.hdr_set_bb_current(self.bb_current);
        self.hdr_set_bb_last(self.bb_last);
        proof {
            assert(buffered_meta(self@, old_head) =~= buffered_meta(JournalView { buf: filled, ..self@ }, old_head));
        }

        if let Err(e) = self.nand.prog(self.head + 1, &self.page_buf) {
            let res = self.recover_from(e);
            proof {
                if res is Ok && c >= 2 {
                    lemma_not_block_start(old_head, self.nand.log2_ppb() as u32, c);
                }
            }
            return res;
        }

        proof {
            lemma_flags(self.flags);
        }
        self.flags = self.flags & !DHARA_JOURNAL_F_DIRTY;
        self.root = old_head;
        self.head = self.next_upage(self.head);

        if self.head == 0 {
            self.roll_stats();
        }
        proof {
            lemma_flags(self.flags);
        }
        if self.flags & DHARA_JOURNAL_F_ENUM_DONE != 0 {
            self.finish_recovery();
        }
        if self.flags & DHARA_JOURNAL_F_RECOVERY == 0 {
            proof {
                if old(self).ordered() && old(self).head_prepared() {
                    self.lemma_chip();
                    lemma_sync_tail(self@, self.nand.log2_ppb() as u32, self.chip_pages());
                }
            }
            self.tail_sync = self.tail;
        }
        Ok(())
    }
}


impl<const N: usize, T: DharaNand> DharaJournal<N, T> {
    /// Append a page to the journal. Both raw page data and metadata may be
    /// specified (`None` data writes no page; `None` metadata records blank
    /// metadata). The push operation is not persistent until a checkpoint is
    /// reached.
    ///
    /// This operation may fail with `DharaError::Recover`. If this occurs,
    /// the upper layer must complete the assisted recovery procedure and then
    /// try again. This operation may be used as part of a recovery; if
    /// further errors occur during recovery, `Recover` is returned, and the
    /// procedure must be restarted.
    pub fn journal_enqueue(&mut self, data: Option<&[u8]>, meta: Option<&[u8]>) -> (r: Result<(), DharaError>)
        requires
            old(self).wf(),
            meta matches Some(m) ==> m@.len() == DHARA_META_SIZE,
        ensures
            final(self).wf(),
            same_geometry(&final(self).nand, &old(self).nand),
            final(self)@.log2_ppc == old(self)@.log2_ppc,
            final(self)@.tail == old(self)@.tail,
            r is Ok ==> ({
                let c = final(self)@.log2_ppc as u32;
                ||| {
                    &&& final(self)@.root != DHARA_PAGE_NONE
                    &&& buffered_meta(final(self)@, final(self)@.root) == meta_bytes(meta)
                    &&& (data matches Some(d) ==> page_holds(&final(self).nand, final(self)@.root, d@))
                    &&& (final(self)@.is_dirty() <==> ((final(self)@.root + 2) as u32) & low_mask(c) != 0)
                }
                ||| final(self)@.log2_ppc == 1 && final(self)@.head & low_mask(final(self).nand.log2_ppb() as u32) == 0
            }),
            old(self).in_queue_order() ==> final(self).in_queue_order(),
            old(self).is_blocked() ==> r == Err::<(), DharaError>(DharaError::JournalFull) && final(self)@ == old(
                self,
            )@ && final(self).nand == old(self).nand,
            ({
                let c = old(self)@.log2_ppc as u32;
                let h = old(self)@.head;
                data is None && !old(self).is_blocked() && old(self).head_mid_block() && ((h + 2) as u32) & low_mask(c)
                    != 0 ==> {
                    &&& r == Ok::<(), DharaError>(())
                    &&& final(self).nand == old(self).nand
                    &&& final(self)@ == JournalView {
                        flags: old(self)@.flags | DHARA_JOURNAL_F_DIRTY,
                        root: h,
                        head: (h + 1) as u32,
                        buf: with_meta(
                            old(self)@.buf,
                            JournalView::user_offset((h & low_mask(c)) as int),
                            meta_bytes(meta),
                        ),
                        ..old(self)@
                    }
                }
            }),
            r != Err::<(), DharaError>(DharaError::BadBlock),
            r == Err::<(), DharaError>(DharaError::Recover) ==> final(self)@.is_in_recovery(),
            r is Ok && final(self)@.log2_ppc != 1 && !final(self)@.is_dirty() ==> page_holds(
                &final(self).nand,
                (final(self)@.root + 1) as u32,
                final(self)@.buf,
            ),
            r is Ok && final(self)@.log2_ppc != 1 ==> root_meta_kept(final(self)@, &final(self).nand),
            r is Err ==> r == Err::<(), DharaError>(DharaError::JournalFull) || r == Err::<(), DharaError>(
                DharaError::TooBad,
            ) || r == Err::<(), DharaError>(DharaError::Recover),
            final(self)@.cookie() == old(self)@.cookie(),
            r == Err::<(), DharaError>(DharaError::Recover) && !old(self)@.is_in_recovery() ==> final(self)@.recover_next
                == final(self)@.recover_root & !low_mask(final(self).nand.log2_ppb() as u32),
    {
        proof {
            self.lemma_order_equiv();
        }
        let ghost quick = data is None && !old(self).is_blocked() && old(self).head_mid_block() && ((old(self)@.head
            + 2) as u32) & low_mask(old(self)@.log2_ppc as u32) != 0;
        let mut i: u8 = 0;
        while i < DHARA_MAX_RETRIES
            invariant
                self.wf(),
                same_geometry(&self.nand, &old(self).nand),
                self@.log2_ppc == old(self)@.log2_ppc,
                self@.tail == old(self)@.tail,
                meta matches Some(m) ==> m@.len() == DHARA_META_SIZE,
                old(self).in_queue_order() ==> self.ordered(),
                self@.cookie() == old(self)@.cookie(),
                i == 0 ==> self@ == old(self)@ && self.nand == old(self).nand,
                !old(self)@.is_in_recovery() ==> !self@.is_in_recovery(),
                i > 0 ==> !old(self).is_blocked() && !quick,
                quick == (data is None && !old(self).is_blocked() && old(self).head_mid_block() && ((old(self)@.head
                    + 2) as u32) & low_mask(old(self)@.log2_ppc as u32) != 0),
            decreases DHARA_MAX_RETRIES - i,
        {
            // Only try to program if head preparation succeeds.
            match self.prepare_head() {
                Ok(_) => {
                    match data {
                        Some(data) => {
                            match self.nand.prog(self.head, data) {
                                Ok(_) => {
                                    let ghost h = self.head;
                                    proof {
                                        self.lemma_chip();
                                        lemma_mask_basics(self.log2_ppc as u32);
                                        lemma_next_in_group(h, self.log2_ppc as u32);
                                    }
                                    let pushed = self.push_meta(meta);
                                    proof {
                                        self.lemma_order_equiv();
                                    }
                                    return pushed;
                                },
                                Err(e) => {
                                    let recovered = self.recover_from(e);
                                    proof {
                                        self.lemma_order_equiv();
                                    }
                                    recovered?;
                                },
                            }
                        },
                        None => {
                            // Push the metadata even if there is no data.
                            let ghost h = self.head;
                            proof {
                                self.lemma_chip();
                                lemma_mask_basics(self.log2_ppc as u32);
                                lemma_next_in_group(h, self.log2_ppc as u32);
                            }
                            let pushed = self.push_meta(meta);
                            proof {
                                self.lemma_order_equiv();
                            }
                            return pushed;
                        },
                    }
                },
                Err(e) => {
                    let recovered = self.recover_from(e);
                    proof {
                        self.lemma_order_equiv();
                    }
                    recovered?;
                },
            }
            i = i + 1;
        }
        proof {
            self.lemma_order_equiv();
        }
        Err(DharaError::TooBad)
    }

    /// Copy an existing page to the front of the journal. New metadata must
    /// be specified. This operation is not persistent until a checkpoint is
    /// reached.
    ///
    /// This operation may fail with `DharaError::Recover`. If this occurs,
    /// the upper layer must complete the assisted recovery procedure and then
    /// try again.
    pub fn journal_copy(&mut self, page: DharaPage, meta: Option<&[u8]>) -> (r: Result<(), DharaError>)
        requires
            old(self).wf(),
            meta matches Some(m) ==> m@.len() == DHARA_META_SIZE,
        ensures
            final(self).wf(),
            same_geometry(&final(self).nand, &old(self).nand),
            final(self)@.log2_ppc == old(self)@.log2_ppc,
            final(self)@.tail == old(self)@.tail,
            r is Ok ==> ({
                let c = final(self)@.log2_ppc as u32;
                ||| {
                    &&& final(self)@.root != DHARA_PAGE_NONE
                    &&& buffered_meta(final(self)@, final(self)@.root) == meta_bytes(meta)
                    &&& (is_user_page(page, c as u8, final(self).chip_pages()) ==> forall|i: usize|
                        (i < N) ==> #[trigger] final(self).nand.page_byte(final(self)@.root, i)
                            == final(self).nand.page_byte(page, i))
                    &&& (final(self)@.is_dirty() <==> ((final(self)@.root + 2) as u32) & low_mask(c) != 0)
                }
                ||| final(self)@.log2_ppc == 1 && final(self)@.head & low_mask(final(self).nand.log2_ppb() as u32) == 0
            }),
            old(self).in_queue_order() ==> final(self).in_queue_order(),
            old(self).is_blocked() ==> r == Err::<(), DharaError>(DharaError::JournalFull) && final(self)@ == old(
                self,
            )@ && final(self).nand == old(self).nand,
            final(self)@.cookie() == old(self)@.cookie(),
            r is Ok && final(self)@.log2_ppc != 1 ==> root_meta_kept(final(self)@, &final(self).nand),
    {
        proof {
            self.lemma_order_equiv();
        }
        let mut i: u8 = 0;
        while i < DHARA_MAX_RETRIES
            invariant
                self.wf(),
                same_geometry(&self.nand, &old(self).nand),
                self@.log2_ppc == old(self)@.log2_ppc,
                self@.tail == old(self)@.tail,
                meta matches Some(m) ==> m@.len() == DHARA_META_SIZE,
                old(self).in_queue_order() ==> self.ordered(),
                self@.cookie() == old(self)@.cookie(),
                i == 0 ==> self@ == old(self)@ && self.nand == old(self).nand,
                !old(self)@.is_in_recovery() ==> !self@.is_in_recovery(),
                i > 0 ==> !old(self).is_blocked(),
            decreases DHARA_MAX_RETRIES - i,
        {
            let mut my_err = self.prepare_head();
            if my_err.is_ok() {
                let ghost h = self.head;
                my_err = self.nand.copy(page, self.head);
                if my_err.is_ok() {
                    proof {
                        self.lemma_chip();
                        lemma_mask_basics(self.log2_ppc as u32);
                        if ((h + 2) as u32) & low_mask(self.log2_ppc as u32) == 0 {
                            lemma_before_boundary(h, self.log2_ppc as u32);
                        }
                    }
                    let ghost before = self.nand;
                    proof {
                        lemma_next_in_group(h, self.log2_ppc as u32);
                    }
                    let pushed = self.push_meta(meta);
                    proof {
                        if pushed is Ok && is_user_page(page, self.log2_ppc, self.chip_pages()) {
                            assert(page != ((h + 1) as u32) || ((h + 2) as u32) & low_mask(self.log2_ppc as u32) != 0);
                        }
                    }
                    proof {
                        self.lemma_order_equiv();
                    }
                    return pushed;
                }
            }
            // my_err is an error here: try to recover, then either exit with
            // an error or go around the loop again.
            match my_err {
                Err(e) => {
                    let recovered = self.recover_from(e);
                    proof {
                        self.lemma_order_equiv();
                    }
                    recovered?;
                },
                Ok(_) => {},
            }
            i = i + 1;
        }
        proof {
            self.lemma_order_equiv();
        }
        Err(DharaError::TooBad)
    }
}

} // verus!
