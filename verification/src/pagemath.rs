//! Facts about the bit-level page arithmetic used by the journal: masks,
//! shifts and alignment of page numbers within checkpoint groups and erase
//! blocks.
use vstd::prelude::*;

verus! {

/// The mask selecting the low `n` bits of a 32-bit value.
pub open spec fn low_mask(n: u32) -> u32 {
    ((1u32 << n) - 1) as u32
}

/// Shifting a block count left stays in range and can be undone.
pub proof fn lemma_shl_fits(x: u32, y: u32, s: u32)
    by (bit_vector)
    requires
        s < 32,
        x <= y,
        y <= (0x8000_0000u32 >> s),
    ensures
        (x << s) <= (y << s),
        x <= (x << s),
        (y << s) <= 0x8000_0000u32,
        (x << s) >> s == x,
        (x << s) & low_mask(s) == 0,
{
}

/// A value shifted left by `a` has its low `b <= a` bits clear.
pub proof fn lemma_shl_aligned(x: u32, a: u32, b: u32)
    by (bit_vector)
    requires
        b <= a < 32,
    ensures
        (x << a) & low_mask(b) == 0,
{
}

/// The mask for `n` bits is `2^n - 1`, and `2^n` fits.
pub proof fn lemma_mask_basics(n: u32)
    by (bit_vector)
    requires
        n < 32,
    ensures
        (1u32 << n) >= 1,
        (1u32 << n) <= 0x8000_0000u32,
        low_mask(n) < (1u32 << n),
        low_mask(n) + 1 == (1u32 << n),
        n >= 1 ==> (1u32 << n) >= 2,
{
}

/// The next user page after `page` (skipping the last page of a
/// checkpoint group) stays inside an aligned chip of `t` pages.
pub proof fn lemma_next_upage(page: u32, c: u32, t: u32)
    by (bit_vector)
    requires
        1 <= c < 32,
        t <= 0x8000_0000u32,
        t & low_mask(c) == 0,
        page < t,
    ensures
        page + 1 <= t,
        page & low_mask(c) != low_mask(c) ==> page + 1 < t,
        (((page + 2) as u32) & low_mask(c) == 0) ==> page + 2 <= t,
        (((page + 2) as u32) & low_mask(c) == 0) ==> (((page + 2) as u32) & low_mask(c)) != low_mask(c),
        (((page + 2) as u32) & low_mask(c) != 0) ==> (((page + 1) as u32) & low_mask(c)) != low_mask(c),
{
}

/// Zero is a user page of any group size of at least two pages.
pub proof fn lemma_zero_user(c: u32)
    by (bit_vector)
    requires
        1 <= c < 32,
    ensures
        (0u32 & low_mask(c)) != low_mask(c),
{
}

/// Two pages lie in the same aligned group of `2^n` pages exactly when
/// their xor has no bit at or above position `n`.
pub proof fn lemma_align_eq(a: u32, b: u32, n: u32)
    by (bit_vector)
    requires
        n < 32,
    ensures
        ((a ^ b) >> n == 0) == (a >> n == b >> n),
{
}

/// Clearing the low bits of an aligned-group member gives the group start.
pub proof fn lemma_group_start(p: u32, c: u32, t: u32)
    by (bit_vector)
    requires
        1 <= c < 32,
        t <= 0x8000_0000u32,
        t & low_mask(c) == 0,
        p < t,
    ensures
        (p & !low_mask(c)) & low_mask(c) == 0,
        (p & !low_mask(c)) <= p,
        (p & !low_mask(c)) + (1u32 << c) <= t,
        (p & !low_mask(c)) >> c == p >> c,
{
}

/// The page after a user page lies in the same checkpoint group.
pub proof fn lemma_next_in_group(h: u32, c: u32)
    by (bit_vector)
    requires
        1 <= c < 32,
        h < 0x8000_0000u32,
        h & low_mask(c) != low_mask(c),
    ensures
        ((h + 1) as u32) >> c == h >> c,
{
}

/// A page in the group starting at `first` has `first` as its group start.
pub proof fn lemma_same_group_start(p: u32, first: u32, c: u32)
    by (bit_vector)
    requires
        1 <= c < 32,
        first & low_mask(c) == 0,
        p >> c == first >> c,
    ensures
        p & !low_mask(c) == first,
{
}

/// A page at offset `k` from a group start has `k` as its low bits.
pub proof fn lemma_group_offset(first: u32, k: u32, c: u32)
    by (bit_vector)
    requires
        1 <= c < 32,
        first <= 0x8000_0000u32,
        first & low_mask(c) == 0,
        k <= low_mask(c),
    ensures
        ((first + k) as u32) & low_mask(c) == k,
        ((first + k) as u32) >> c == first >> c,
{
}

} // verus!

verus! {

/// The low mask of `n` bits is `2^n - 1`, and `1 << n` is `2^n`.
pub proof fn lemma_low_mask_pow2(n: u32)
    requires
        n < 32,
    ensures
        (1u32 << n) == vstd::arithmetic::power2::pow2(n as nat),
        low_mask(n) == vstd::arithmetic::power2::pow2(n as nat) - 1,
{
    vstd::bits::lemma_u32_pow2_no_overflow(n as nat);
    vstd::bits::lemma_u32_shl_is_mul(1, n);
    lemma_mask_basics(n);
}

} // verus!

verus! {

/// A chip of `nb` blocks of `2^s` pages has at most `2^31` pages, and the
/// shifted count is the product.
pub proof fn lemma_geometry(nb: u32, s: u32)
    requires
        s < 32,
        nb <= (0x8000_0000u32 >> s),
    ensures
        nb * vstd::arithmetic::power2::pow2(s as nat) <= 0x8000_0000,
        (nb << s) == nb * vstd::arithmetic::power2::pow2(s as nat),
{
    let p = vstd::arithmetic::power2::pow2(s as nat);
    vstd::bits::lemma_u32_shr_is_div(0x8000_0000u32, s);
    vstd::arithmetic::power2::lemma_pow2_pos(s as nat);
    vstd::arithmetic::div_mod::lemma_fundamental_div_mod(0x8000_0000int, p as int);
    assert(nb * p <= 0x8000_0000) by (nonlinear_arith)
        requires
            nb <= 0x8000_0000int / (p as int),
            p > 0,
            0x8000_0000int == p * (0x8000_0000int / (p as int)) + 0x8000_0000int % (p as int),
            0x8000_0000int % (p as int) >= 0,
    ;
    vstd::bits::lemma_u32_shl_is_mul(nb, s);
}

/// Splitting a shift: shifting by `a` then `b` is shifting by `a + b`, and
/// the bounds carry over to any smaller count.
pub proof fn lemma_split_shift(x: u32, y: u32, a: u32, b: u32)
    requires
        a + b < 32,
        x <= y,
        y * vstd::arithmetic::power2::pow2((a + b) as nat) <= 0x8000_0000,
    ensures
        x * vstd::arithmetic::power2::pow2(a as nat) <= 0x8000_0000,
        (x << a) == x * vstd::arithmetic::power2::pow2(a as nat),
        (x << a) * vstd::arithmetic::power2::pow2(b as nat) <= 0x8000_0000,
        ((x << a) << b) == (x << a) * vstd::arithmetic::power2::pow2(b as nat),
        (x << a) * vstd::arithmetic::power2::pow2(b as nat) == x * vstd::arithmetic::power2::pow2(a as nat) * vstd::arithmetic::power2::pow2(b as nat),
{
    let pa = vstd::arithmetic::power2::pow2(a as nat);
    let pb = vstd::arithmetic::power2::pow2(b as nat);
    let pab = vstd::arithmetic::power2::pow2((a + b) as nat);
    vstd::arithmetic::power2::lemma_pow2_adds(a as nat, b as nat);
    vstd::arithmetic::power2::lemma_pow2_pos(a as nat);
    vstd::arithmetic::power2::lemma_pow2_pos(b as nat);
    assert(x * pa * pb <= 0x8000_0000 && x * pa <= 0x8000_0000) by (nonlinear_arith)
        requires
            x <= y,
            y * pab <= 0x8000_0000,
            pab == pa * pb,
            pa >= 1,
            pb >= 1,
    ;
    vstd::bits::lemma_u32_shl_is_mul(x, a);
    let xa = x << a;
    assert(xa * pb == x * pa * pb) by (nonlinear_arith)
        requires
            xa == x * pa,
    ;
    vstd::bits::lemma_u32_shl_is_mul(xa, b);
}

/// The number of multiples of `p` passed going from `b` up to `a` is at
/// most the distance travelled.
pub proof fn lemma_div_diff(a: int, b: int, p: int)
    requires
        0 <= b <= a,
        p >= 1,
    ensures
        b / p <= a / p,
        a / p - b / p <= a - b,
{
    vstd::arithmetic::div_mod::lemma_div_is_ordered(b, a, p);
    vstd::arithmetic::div_mod::lemma_fundamental_div_mod(a, p);
    vstd::arithmetic::div_mod::lemma_fundamental_div_mod(b, p);
    let qa = a / p;
    let qb = b / p;
    let ra = a % p;
    let rb = b % p;
    assert(qa - qb <= a - b) by (nonlinear_arith)
        requires
            a == p * qa + ra,
            b == p * qb + rb,
            0 <= ra < p,
            0 <= rb < p,
            qb <= qa,
            b <= a,
            p >= 1,
    {
        if qa > qb {
            assert(p * qa - p * qb >= qa - qb + (p - 1)) by (nonlinear_arith)
                requires qa > qb, p >= 1;
        }
    }
}

/// Adding a multiple of `p` adds its quotient.
pub proof fn lemma_div_add_multiple(h: int, t: int, p: int)
    requires
        0 <= h,
        0 <= t,
        p >= 1,
        t % p == 0,
    ensures
        (h + t) / p == h / p + t / p,
{
    vstd::arithmetic::div_mod::lemma_fundamental_div_mod(t, p);
    let k = t / p;
    assert(t == k * p) by (nonlinear_arith)
        requires
            t == p * k + t % p,
            t % p == 0,
    ;
    vstd::arithmetic::div_mod::lemma_hoist_over_denominator(h, k, p as nat);
}


/// A value whose low `c` bits are clear is a multiple of `2^c`.
pub proof fn lemma_mask_mod(x: u32, c: u32)
    requires
        c < 32,
    ensures
        (x & low_mask(c) == 0) == (x as int % vstd::arithmetic::power2::pow2(c as nat) as int == 0),
{
    lemma_mask_is_mod(x, c);
    lemma_low_mask_pow2(c);
}

proof fn lemma_mask_is_mod(x: u32, c: u32)
    requires
        c < 32,
    ensures
        x & low_mask(c) == x % (vstd::arithmetic::power2::pow2(c as nat) as u32),
{
    lemma_low_mask_pow2(c);
    vstd::bits::lemma_u32_low_bits_mask_is_mod(x, c as nat);
}


/// The first page of a block is on the chip and starts a checkpoint group.
pub proof fn lemma_block_start(blk: u32, nb: u32, s: u32, c: u32)
    by (bit_vector)
    requires
        c <= s < 32,
        blk < nb,
        nb <= (0x8000_0000u32 >> s),
    ensures
        (blk << s) < (nb << s),
        (blk << s) & low_mask(c) == 0,
        (blk << s) & low_mask(s) == 0,
        (blk << s) >> s == blk,
{
}


/// A page on a chip of `nb` blocks of `2^s` pages lies in one of its blocks.
pub proof fn lemma_page_block(p: u32, nb: u32, s: u32)
    by (bit_vector)
    requires
        s < 32,
        nb <= (0x8000_0000u32 >> s),
        p < (nb << s),
    ensures
        p >> s < nb,
{
}


/// The first page of checkpoint group `mid` of block `block`.
pub proof fn lemma_group_page(mid: u32, block: u32, nb: u32, s: u32, c: u32)
    by (bit_vector)
    requires
        1 <= c <= s < 32,
        nb <= (0x8000_0000u32 >> s),
        block < nb,
        mid < (1u32 << ((s - c) as u32)),
    ensures
        ((mid << c) | (block << s)) == (block << s) + (mid << c),
        ((mid << c) | (block << s)) < (nb << s),
        ((mid << c) | (block << s)) & low_mask(c) == 0,
        ((mid << c) | (block << s)) >> s == block,
        ((mid << c) | (block << s)) + (1u32 << c) <= (nb << s),
{
}

/// Group 0 starts at offset 0.
pub proof fn lemma_shl_zero(c: u32)
    by (bit_vector)
    ensures
        (0u32 << c) == 0,
{
}

/// The first page of the checkpoint group after group `mid` lies one group
/// further on.
pub proof fn lemma_following_group(mid: u32, s: u32, c: u32)
    by (bit_vector)
    requires
        1 <= c <= s < 32,
        mid + 1 < (1u32 << ((s - c) as u32)),
    ensures
        (((mid + 1) as u32) << c) == (mid << c) + (1u32 << c),
        (mid << c) + (1u32 << c) < 0x1_0000_0000,
{
}

/// The last page of checkpoint group `i` of the block holding `start`,
/// for any group up to the one holding `start`.
pub proof fn lemma_group_last_page(start: u32, i: u32, nb: u32, s: u32, c: u32)
    by (bit_vector)
    requires
        1 <= c <= s < 32,
        nb <= (0x8000_0000u32 >> s),
        start < (nb << s),
        i <= ((start & low_mask(s)) >> c),
    ensures
        i < 0x8000_0000u32,
        ((start >> s) << s) + (((i + 1) as u32) << c) <= (nb << s),
        ((start >> s) << s) + (((i + 1) as u32) << c) >= 2,
        ((((start >> s) << s) + (((i + 1) as u32) << c) - 1) as u32) & low_mask(c) == low_mask(c),
        ((((start >> s) << s) + (((i + 1) as u32) << c) - 2) as u32) & low_mask(c) != low_mask(c),
{
}

/// One step of the head to the start of the next checkpoint group.
pub proof fn lemma_head_step(head: u32, s: u32, c: u32, t: u32)
    by (bit_vector)
    requires
        1 <= c <= s < 32,
        t <= 0x8000_0000u32,
        t & low_mask(s) == 0,
        head < t,
    ensures
        ((head & !low_mask(c)) + (1u32 << c)) <= t,
        (((head & !low_mask(c)) + (1u32 << c)) as u32) & low_mask(c) == 0,
        ((((head & !low_mask(c)) + (1u32 << c)) as u32) & low_mask(s) != 0) ==> (((
        (head & !low_mask(c)) + (1u32 << c)) as u32) & low_mask(s)) > (head & low_mask(s)),
{
}

/// The midpoint of two block numbers lies between them.
pub proof fn lemma_midpoint(low: u32, high: u32)
    by (bit_vector)
    requires
        low <= high < 0x8000_0000u32,
    ensures
        low <= ((low + high) as u32) >> 1 <= high,
{
}


/// Masking never gives more than the mask.
pub proof fn lemma_and_le(x: u32, m: u32)
    by (bit_vector)
    ensures
        x & m <= m,
        0u32 & m == 0,
{
}


/// In checkpoint groups of four or more pages, the page two before a group
/// boundary never starts a block.
pub proof fn lemma_not_block_start(h: u32, s: u32, c: u32)
    by (bit_vector)
    requires
        2 <= c <= s < 32,
        h < 0x8000_0000u32,
        h & low_mask(s) == 0,
    ensures
        ((h + 2) as u32) & low_mask(c) != 0,
{
}

} // verus!
