//! The cyclic order of pages on the chip: the journal's pointers chase each
//! other around the chip, so "before" and "after" are measured going forward
//! from a base page, wrapping at the end of the chip.
use vstd::prelude::*;

verus! {

/// `a.wrapping_sub(b)` on 32-bit page numbers, as an integer: how far `a`
/// lies ahead of `b` going forward through all 32-bit values.
pub open spec fn page_distance(a: u32, b: u32) -> int {
    if a >= b {
        a - b
    } else {
        a - b + 0x1_0000_0000
    }
}

/// How far page `x` lies ahead of page `base` going forward around a chip
/// of `t` pages.
pub open spec fn cyc(x: u32, base: u32, t: u32) -> int {
    if x >= base {
        x - base
    } else {
        x - base + t
    }
}

/// On a chip of at most `2^31` pages, comparing wrapping distances from a
/// common base compares positions in the chip's cyclic order.
pub proof fn lemma_distance_cyc(x: u32, y: u32, b: u32, t: u32)
    requires
        x < t,
        y < t,
        b < t,
        t <= 0x8000_0000u32,
    ensures
        (page_distance(x, b) <= page_distance(y, b)) == (cyc(x, b, t) <= cyc(y, b, t)),
        (page_distance(x, b) < page_distance(y, b)) == (cyc(x, b, t) < cyc(y, b, t)),
{
}

/// Moving the base forward from `b` to `a` shifts every position at or
/// after `a` down by the position of `a`.
pub proof fn lemma_rebase(x: u32, a: u32, b: u32, t: u32)
    requires
        x < t,
        a < t,
        b < t,
        cyc(a, b, t) <= cyc(x, b, t),
    ensures
        cyc(x, a, t) == cyc(x, b, t) - cyc(a, b, t),
{
}

/// Block numbers never decrease as page numbers grow.
pub proof fn lemma_shr_mono(x: u32, y: u32, s: u32)
    by (bit_vector)
    requires
        x <= y,
    ensures
        x >> s <= y >> s,
{
}

/// Block `b` starts at `b << s`, and block `b + 1` starts `2^s` pages
/// later.
pub proof fn lemma_block_bounds(b: u32, s: u32)
    by (bit_vector)
    requires
        s < 32,
        b < (0x8000_0000u32 >> s),
    ensures
        (b << s) + (1u32 << s) <= 0x8000_0000u32,
        (((b + 1) as u32) << s) == (b << s) + (1u32 << s),
        (b << s) >> s == b,
{
}

/// A page from the start of block `b` up to the start of the next block
/// lies in block `b`.
pub proof fn lemma_in_block(x: u32, b: u32, s: u32)
    by (bit_vector)
    requires
        s < 32,
        b < (0x8000_0000u32 >> s),
        (b << s) <= x,
        x < (b << s) + (1u32 << s),
    ensures
        x >> s == b,
{
}

/// A page whose block number is `b` is no smaller than the first page of
/// block `b`, and lies before the first page of block `b + 1`.
pub proof fn lemma_block_of(x: u32, s: u32)
    by (bit_vector)
    requires
        s < 32,
        x < 0x8000_0000u32,
    ensures
        (x >> s) < (0x8000_0000u32 >> s),
        ((x >> s) << s) <= x,
        x < ((x >> s) << s) + (1u32 << s),
{
}

/// The page just before a checkpoint boundary is the group's checkpoint
/// page.
pub proof fn lemma_before_boundary(p: u32, c: u32)
    by (bit_vector)
    requires
        1 <= c < 32,
        p < 0x8000_0000u32,
        ((p + 2) as u32) & (((1u32 << c) - 1) as u32) == 0,
    ensures
        ((p + 1) as u32) & (((1u32 << c) - 1) as u32) == (((1u32 << c) - 1) as u32),
{
}

/// Blocks of at least four pages.
pub proof fn lemma_four_pages(s: u32)
    by (bit_vector)
    requires
        2 <= s < 32,
    ensures
        (1u32 << s) >= 4,
{
}

/// A page aligned to a block is the first page of its block.
pub proof fn lemma_aligned_start(x: u32, s: u32)
    by (bit_vector)
    requires
        s < 32,
        x & (((1u32 << s) - 1) as u32) == 0,
    ensures
        (x >> s) << s == x,
{
}

/// Pages of a checkpoint group lie in the block of any page of the group.
pub proof fn lemma_group_in_block(p: u32, k: u32, c: u32, s: u32)
    by (bit_vector)
    requires
        1 <= c <= s < 32,
        p < 0x8000_0000u32,
        k < (1u32 << c),
    ensures
        (((p & !(((1u32 << c) - 1) as u32)) + k) as u32) >> s == p >> s,
{
}

/// The start of the checkpoint group after the one holding `p` is either
/// in the same block as `p`, or the first page of the next block.
pub proof fn lemma_next_group(p: u32, c: u32, s: u32)
    by (bit_vector)
    requires
        1 <= c <= s < 32,
        p < 0x8000_0000u32,
    ensures
        (((p & !(((1u32 << c) - 1) as u32)) + (1u32 << c)) as u32) & (((1u32 << s) - 1) as u32) != 0 ==> (((p
            & !(((1u32 << c) - 1) as u32)) + (1u32 << c)) as u32) >> s == p >> s,
        (((p & !(((1u32 << c) - 1) as u32)) + (1u32 << c)) as u32) & (((1u32 << s) - 1) as u32) == 0 ==> (((p
            & !(((1u32 << c) - 1) as u32)) + (1u32 << c)) as u32) == (((p >> s) + 1) as u32) << s,
{
}

} // verus!
