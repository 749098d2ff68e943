//! A NAND flash translation layer: a journal of pages with metadata on a
//! NAND chip, and on top of it a map from logical sectors to pages kept as a
//! radix tree threaded through the journal's metadata.
pub mod bytes;
pub mod journal;
pub mod nand;
pub mod order;
pub mod pagemath;

use vstd::prelude::*;
use crate::bytes::{get32, put32, read_u32_at, write_u32_at};
use crate::journal::{
    DharaJournal, JournalView, DHARA_MAX_RETRIES, DHARA_META_SIZE, DHARA_PAGE_NONE,
    geometry_valid, reset_view, clear_user_buf, fill_ff, buffered_meta, buffered_read, law_buffered_meta_read_back,
    dequeued, with_meta, meta_bytes, DHARA_HEADER_SIZE, meta_at, lemma_meta_at_pages, journal_valid, is_user_page,
    next_upage_spec, tail_stop, root_meta_kept, law_meta_read_back_after_checkpoint,
};
use crate::nand::{DharaNand, DharaPage, same_pages, page_holds};

verus! {

/// A logical sector: the map indexes the journal's pages by sector.
pub type DharaSector = u32;

/// This sector value is reserved.
pub const DHARA_SECTOR_NONE: DharaSector = 0xffffffff;

/// Depth of the radix tree: one level per bit of a sector number.
pub const DHARA_RADIX_DEPTH: usize = 32;

/// Errors reported by the journal and the map.
#[derive(Debug, Clone, Copy, PartialEq, Eq, Structural)]
pub enum DharaError {
    BadBlock,
    ECC,
    TooBad,
    Recover,
    JournalFull,
    NotFound,
    MapFull,
    CorruptMap,
    Max,
}

// ------------------------------------------------------------------------
// Page metadata: a sector id followed by one alt-pointer per tree level.

/// The sector id recorded in a block of metadata.
pub open spec fn meta_id(meta: Seq<u8>) -> int {
    get32(meta, 0)
}

/// The alt-pointer at tree level `level` in a block of metadata.
pub open spec fn meta_alt(meta: Seq<u8>, level: int) -> int {
    get32(meta, 4 + 4 * level)
}

/// Get the sector id from a block of metadata.
pub fn meta_get_id(meta: &[u8]) -> (r: DharaSector)
    requires
        meta@.len() >= 4,
    ensures
        r == meta_id(meta@),
{
    read_u32_at(meta, 0)
}

/// Set the sector id in a block of metadata.
pub fn meta_set_id(meta: &mut [u8], value: DharaSector)
    requires
        old(meta)@.len() >= 4,
    ensures
        final(meta)@ == put32(old(meta)@, 0, value),
        meta_id(final(meta)@) == value,
        old(meta)@.len() >= DHARA_META_SIZE ==> forall|i: int|
            0 <= i < DHARA_RADIX_DEPTH ==> #[trigger] meta_alt(final(meta)@, i) == meta_alt(old(meta)@, i),
{
    proof {
        crate::bytes::lemma_get_put32(old(meta)@, 0, value);
        if old(meta)@.len() >= DHARA_META_SIZE {
            lemma_set_id(old(meta)@, value);
        }
    }
    write_u32_at(meta, 0, value);
}

/// Get an alt-pointer. `level` is the depth of the pointer in the tree.
pub fn meta_get_alt(meta: &[u8], level: usize) -> (r: DharaPage)
    requires
        meta@.len() >= 8 + 4 * level,
    ensures
        r == meta_alt(meta@, level as int),
{
    let len = meta.len();
    assert(8 + 4 * level <= len);
    let idx = 4 + level * 4;
    read_u32_at(meta, idx)
}

/// Set an alt-pointer. `level` is the depth of the pointer in the tree.
pub fn meta_set_alt(meta: &mut [u8], level: usize, alt: DharaPage)
    requires
        old(meta)@.len() >= 8 + 4 * level,
    ensures
        final(meta)@ == put32(old(meta)@, 4 + 4 * level, alt),
        meta_alt(final(meta)@, level as int) == alt,
        meta_id(final(meta)@) == meta_id(old(meta)@),
        forall|i: int|
            0 <= i < DHARA_RADIX_DEPTH && i != level && 8 + 4 * i <= old(meta)@.len() ==> #[trigger] meta_alt(
                final(meta)@,
                i,
            ) == meta_alt(old(meta)@, i),
{
    proof {
        lemma_set_alt(old(meta)@, level as int, alt);
    }
    let len = meta.len();
    assert(8 + 4 * level <= len);
    let idx = 4 + level * 4;
    write_u32_at(meta, idx, alt);
}

/// The bit of a sector number examined at tree level `depth`, most
/// significant first.
pub fn d_bit(depth: usize) -> (r: DharaSector)
    requires
        depth < DHARA_RADIX_DEPTH,
    ensures
        r == (1u32 << ((31 - depth) as u32)),
{
    let temp: DharaSector = 1;
    temp << ((DHARA_RADIX_DEPTH - depth - 1) as u32)
}

/// The path to sector `target` leaves that of sector `id` at tree level
/// `depth`: the two differ in the bit examined there.
pub open spec fn path_diverges(target: u32, id: u32, depth: int) -> bool {
    (target ^ id) & (1u32 << ((31 - depth) as u32)) != 0
}

/// One step of tracing the path to `target` at tree level `depth`, on page
/// `p` whose metadata is `meta`. Where the paths diverge, `p` itself is the
/// alt-pointer recorded at `depth` in `new_meta` and the trace moves on to
/// `meta`'s alt-pointer for `depth` (`Some` of it); otherwise `meta`'s own
/// alt-pointer for `depth` is copied and the trace stays on `p` (`None`).
pub fn trace_step(target: DharaSector, meta: &[u8], p: DharaPage, depth: usize, new_meta: &mut [u8]) -> (r: Option<
    DharaPage,
>)
    requires
        depth < DHARA_RADIX_DEPTH,
        meta@.len() >= DHARA_META_SIZE,
        old(new_meta)@.len() >= DHARA_META_SIZE,
    ensures
        ({
            let id = meta_id(meta@) as u32;
            if path_diverges(target, id, depth as int) {
                &&& r == Some(meta_alt(meta@, depth as int) as u32)
                &&& final(new_meta)@ == put32(old(new_meta)@, 4 + 4 * depth, p)
            } else {
                &&& r is None
                &&& final(new_meta)@ == put32(old(new_meta)@, 4 + 4 * depth, meta_alt(meta@, depth as int) as u32)
            }
        }),
        meta_id(final(new_meta)@) == meta_id(old(new_meta)@),
        meta_alt(final(new_meta)@, depth as int) == if path_diverges(target, meta_id(meta@) as u32, depth as int) {
            p as int
        } else {
            meta_alt(meta@, depth as int)
        },
{
    let id = meta_get_id(meta);
    if (target ^ id) & d_bit(depth) != 0 {
        proof {
            lemma_set_alt(new_meta@, depth as int, p);
        }
        meta_set_alt(new_meta, depth, p);
        Some(meta_get_alt(meta, depth))
    } else {
        let value = meta_get_alt(meta, depth);
        proof {
            lemma_set_alt(new_meta@, depth as int, value);
        }
        meta_set_alt(new_meta, depth, value);
        None
    }
}

/// Where the lookup of sector `target` ends, walking the radix tree from
/// page `p` (whose metadata is `meta`) at tree level `depth`: at each level
/// where `target` leaves the path of the current page's sector, the walk
/// moves to that page's alt-pointer; it ends at the page reached after the
/// last level, or finds the sector unmapped where a page names no sector or
/// an alt-pointer is empty. Metadata is read as `meta_at` finds it.
pub open spec fn trace_from<T: DharaNand>(
    v: JournalView,
    nand: &T,
    target: u32,
    p: u32,
    meta: Seq<u8>,
    depth: nat,
    n: usize,
) -> Result<DharaPage, DharaError>
    decreases DHARA_RADIX_DEPTH - depth,
{
    if depth >= DHARA_RADIX_DEPTH {
        Ok(p)
    } else if meta_id(meta) == DHARA_SECTOR_NONE {
        Err(DharaError::NotFound)
    } else if path_diverges(target, meta_id(meta) as u32, depth as int) {
        let q = meta_alt(meta, depth as int) as u32;
        if q == DHARA_PAGE_NONE {
            Err(DharaError::NotFound)
        } else {
            match meta_at(v, nand, q, n) {
                Some(m) => trace_from(v, nand, target, q, m, depth + 1, n),
                None => Err(DharaError::CorruptMap),
            }
        }
    } else {
        trace_from(v, nand, target, p, meta, depth + 1, n)
    }
}

/// The lookup of sector `target` in the radix tree whose root is the
/// journal's root: the page holding the sector, or `NotFound` when it is
/// unmapped (`CorruptMap` when metadata cannot be found).
pub open spec fn trace_spec<T: DharaNand>(v: JournalView, nand: &T, target: u32, n: usize) -> Result<
    DharaPage,
    DharaError,
> {
    if v.root == DHARA_PAGE_NONE {
        Err(DharaError::NotFound)
    } else {
        match meta_at(v, nand, v.root, n) {
            Some(m) => trace_from(v, nand, target, v.root, m, 0, n),
            None => Err(DharaError::CorruptMap),
        }
    }
}

/// Complete a path that ends at `depth` with empty alt-pointers, and report
/// that the sector was not found.
pub fn trace_not_found(new_meta: &mut [u8], depth: usize) -> (r: Result<DharaPage, DharaError>)
    requires
        depth <= DHARA_RADIX_DEPTH,
        old(new_meta)@.len() >= DHARA_META_SIZE,
    ensures
        r == Err::<DharaPage, DharaError>(DharaError::NotFound),
        final(new_meta)@.len() == old(new_meta)@.len(),
        meta_id(final(new_meta)@) == meta_id(old(new_meta)@),
        forall|i: int| 0 <= i < depth ==> #[trigger] meta_alt(final(new_meta)@, i) == meta_alt(old(new_meta)@, i),
        forall|i: int| depth <= i < DHARA_RADIX_DEPTH ==> #[trigger] meta_alt(final(new_meta)@, i) == DHARA_PAGE_NONE,
{
    let mut d = depth;
    while d < DHARA_RADIX_DEPTH
        invariant
            depth <= d <= DHARA_RADIX_DEPTH,
            new_meta@.len() == old(new_meta)@.len(),
            old(new_meta)@.len() >= DHARA_META_SIZE,
            meta_id(new_meta@) == meta_id(old(new_meta)@),
            forall|i: int| 0 <= i < depth ==> #[trigger] meta_alt(new_meta@, i) == meta_alt(old(new_meta)@, i),
            forall|i: int| depth <= i < d ==> #[trigger] meta_alt(new_meta@, i) == DHARA_PAGE_NONE,
        decreases DHARA_RADIX_DEPTH - d,
    {
        let ghost before = new_meta@;
        meta_set_alt(new_meta, d, DHARA_SECTOR_NONE);
        proof {
            crate::bytes::lemma_get_put32(before, 4 + 4 * d, DHARA_SECTOR_NONE);
            assert forall|i: int| 0 <= i < DHARA_RADIX_DEPTH && i != d implies #[trigger] meta_alt(new_meta@, i)
                == meta_alt(before, i) by {
                assert(new_meta@[4 + 4 * i] == before[4 + 4 * i]);
                assert(new_meta@[4 + 4 * i + 1] == before[4 + 4 * i + 1]);
                assert(new_meta@[4 + 4 * i + 2] == before[4 + 4 * i + 2]);
                assert(new_meta@[4 + 4 * i + 3] == before[4 + 4 * i + 3]);
            }
            assert(new_meta@[0] == before[0]);
            assert(new_meta@[1] == before[1]);
            assert(new_meta@[2] == before[2]);
            assert(new_meta@[3] == before[3]);
        }
        d = d + 1;
    }
    Err(DharaError::NotFound)
}


/// Writing an alt-pointer changes that pointer only.
pub proof fn lemma_set_alt(m: Seq<u8>, level: int, v: u32)
    requires
        0 <= level,
        m.len() >= 8 + 4 * level,
    ensures
        put32(m, 4 + 4 * level, v).len() == m.len(),
        meta_alt(put32(m, 4 + 4 * level, v), level) == v,
        meta_id(put32(m, 4 + 4 * level, v)) == meta_id(m),
        forall|i: int|
            0 <= i < DHARA_RADIX_DEPTH && i != level && 8 + 4 * i <= m.len() ==> #[trigger] meta_alt(
                put32(m, 4 + 4 * level, v),
                i,
            ) == meta_alt(m, i),
{
    let n = put32(m, 4 + 4 * level, v);
    crate::bytes::lemma_get_put32(m, 4 + 4 * level, v);
    assert forall|i: int| 0 <= i < DHARA_RADIX_DEPTH && i != level && 8 + 4 * i <= m.len() implies #[trigger] meta_alt(
        n,
        i,
    ) == meta_alt(m, i) by {
        assert(n[4 + 4 * i] == m[4 + 4 * i]);
        assert(n[4 + 4 * i + 1] == m[4 + 4 * i + 1]);
        assert(n[4 + 4 * i + 2] == m[4 + 4 * i + 2]);
        assert(n[4 + 4 * i + 3] == m[4 + 4 * i + 3]);
    }
    assert(n[0] == m[0]);
    assert(n[1] == m[1]);
    assert(n[2] == m[2]);
    assert(n[3] == m[3]);
}

/// Writing the sector id changes the id only.
pub proof fn lemma_set_id(m: Seq<u8>, v: u32)
    requires
        m.len() >= DHARA_META_SIZE,
    ensures
        put32(m, 0, v).len() == m.len(),
        meta_id(put32(m, 0, v)) == v,
        forall|i: int| 0 <= i < DHARA_RADIX_DEPTH ==> #[trigger] meta_alt(put32(m, 0, v), i) == meta_alt(m, i),
{
    let n = put32(m, 0, v);
    crate::bytes::lemma_get_put32(m, 0, v);
    assert forall|i: int| 0 <= i < DHARA_RADIX_DEPTH implies #[trigger] meta_alt(n, i) == meta_alt(m, i) by {
        assert(n[4 + 4 * i] == m[4 + 4 * i]);
        assert(n[4 + 4 * i + 1] == m[4 + 4 * i + 1]);
        assert(n[4 + 4 * i + 2] == m[4 + 4 * i + 2]);
        assert(n[4 + 4 * i + 3] == m[4 + 4 * i + 3]);
    }
}

/// The safety margin of `DHARA_MAX_RETRIES` blocks, as a 32-bit shift,
/// never exceeds half the 32-bit range.
proof fn lemma_margin(ppb: u32)
    by (bit_vector)
    requires
        ppb < 32,
    ensures
        (8u32 << ppb) <= 0x8000_0000u32,
{
}

// ------------------------------------------------------------------------
// The map

/// The state of a map: the number of allocated sectors, the garbage
/// collection ratio, the journal's state and the chip's geometry.
pub struct MapView {
    pub count: u32,
    pub gc_ratio: u8,
    pub journal: JournalView,
    pub log2_page_size: u8,
    pub log2_ppb: u8,
    pub num_blocks: u32,
}

/// The number of sectors a map can hold: the journal's capacity less a
/// reserve of one in `gc_ratio + 1` pages for garbage collection and a
/// safety margin of `DHARA_MAX_RETRIES` blocks (computed as a 32-bit shift),
/// or zero if those exceed it.
pub open spec fn map_capacity_spec(journal_capacity: u32, gc_ratio: u8, log2_ppb: u8) -> u32 {
    let reserve = journal_capacity / ((gc_ratio + 1) as u32);
    let safety_margin = (DHARA_MAX_RETRIES as u32) << (log2_ppb as u32);
    if journal_capacity >= reserve + safety_margin {
        (journal_capacity - reserve - safety_margin) as u32
    } else {
        0
    }
}

/// Generics: `N` is the number of bytes on a NAND flash page.
pub struct DharaMap<const N: usize, T: DharaNand> {
    /// The journal that holds the map's pages.
    pub journal: DharaJournal<N, T>,
    gc_ratio: u8,
    count: DharaSector,
}

/// Upper bound on the rounds of garbage collection and recovery a single
/// map operation performs before giving up with `DharaError::TooBad`.
const DHARA_MAX_ROUNDS: u64 = 0xffff_ffff_ffff_ffff;

impl<const N: usize, T: DharaNand> View for DharaMap<N, T> {
    type V = MapView;

    closed spec fn view(&self) -> MapView {
        MapView {
            count: self.count,
            gc_ratio: self.gc_ratio,
            journal: self.journal@,
            log2_page_size: self.journal.nand.log2_page_size(),
            log2_ppb: self.journal.nand.log2_ppb(),
            num_blocks: self.journal.nand.num_blocks(),
        }
    }
}

impl<const N: usize, T: DharaNand> DharaMap<N, T> {
    /// The map's journal is valid and its garbage collection ratio is at
    /// least one.
    pub closed spec fn wf(&self) -> bool {
        &&& self.journal.wf()
        &&& self.gc_ratio >= 1
    }

    /// The map's NAND chip.
    pub closed spec fn chip(&self) -> T {
        self.journal.nand
    }

    /// The journal holds fewer user pages than the map's capacity, so no
    /// garbage is collected before a write or a deletion.
    pub open spec fn gc_idle(&self) -> bool {
        crate::journal::size_spec(
            self@.journal.head,
            self@.journal.tail_sync,
            self@.journal.log2_ppc,
            self@.num_blocks << (self@.log2_ppb as u32),
        ) < self.capacity()
    }

    /// The map's capacity, as `get_capacity` computes it.
    pub closed spec fn capacity(&self) -> u32 {
        map_capacity_spec(
            crate::journal::capacity_spec(
                self.journal.nand.num_blocks(),
                self.journal.nand.log2_ppb(),
                self.journal@.log2_ppc,
                self.journal@.bb_last,
                self.journal@.bb_current,
            ) as u32,
            self.gc_ratio,
            self.journal.nand.log2_ppb(),
        )
    }

    /// Initialize a map. You need to supply
    ///
    /// nand: a NAND driver that implements the DharaNand trait. Its page
    ///     size must match the constant generic N.
    ///
    /// page_buf: a buffer of size N that the journal uses to hold page
    ///     metadata. The buffer will be owned by the map and its journal.
    ///
    /// gc_ratio: the ratio of garbage collection operations to real writes
    ///     when automatic collection is active (0 is taken as 1). Smaller
    ///     values lead to faster and more predictable IO, at the expense of
    ///     capacity. Always initialize the same chip with the same ratio.
    ///
    /// The map is empty until `resume` recovers the chip's stored state.
    pub fn new(nand: T, page_buf: [u8; N], gc_ratio: u8) -> (m: Self)
        requires
            geometry_valid(&nand, N),
        ensures
            m.wf(),
            m@.count == 0,
            m@.gc_ratio == (if gc_ratio == 0 {
                1
            } else {
                gc_ratio
            }),
            m@.journal == reset_view(m@.journal.log2_ppc, nand.num_blocks(), N),
            crate::journal::is_chosen_ppc(m@.journal.log2_ppc, nand.log2_page_size(), nand.log2_ppb()),
            m.chip() == nand,
    {
        let mut ratio: u8 = gc_ratio;
        if ratio == 0 {
            ratio = 1;
        }
        let journal = DharaJournal::<N, T>::new(nand, page_buf);
        DharaMap { journal: journal, gc_ratio: ratio, count: 0 }
    }

    /// Recover stored state, if possible. If there is no valid stored state
    /// on the chip, an error is returned, and an empty map is initialized.
    pub fn resume(&mut self) -> (r: Result<(), DharaError>)
        requires
            old(self).wf(),
        ensures
            final(self).wf(),
            final(self)@.gc_ratio == old(self)@.gc_ratio,
            final(self)@.log2_ppb == old(self)@.log2_ppb,
            final(self)@.num_blocks == old(self)@.num_blocks,
            match r {
                Ok(_) => final(self)@.count == final(self)@.journal.cookie(),
                Err(e) => e == DharaError::TooBad && final(self)@.count == 0 && final(self)@.journal == reset_view(
                    old(self)@.journal.log2_ppc,
                    old(self)@.num_blocks,
                    N,
                ),
            },
    {
        match self.journal.journal_resume() {
            Err(e) => {
                self.count = 0;
                Err(e)
            },
            Ok(_) => {
                self.count = self.journal.get_cookie();
                Ok(())
            },
        }
    }

    /// Clear the map (delete all sectors).
    pub fn clear(&mut self)
        requires
            old(self).wf(),
        ensures
            final(self).wf(),
            final(self)@.count == 0,
            final(self)@.journal == (if old(self)@.count != 0 {
                JournalView {
                    tail: old(self)@.journal.head,
                    root: DHARA_PAGE_NONE,
                    flags: old(self)@.journal.flags | crate::journal::DHARA_JOURNAL_F_DIRTY,
                    buf: clear_user_buf(old(self)@.journal.buf),
                    ..old(self)@.journal
                }
            } else {
                old(self)@.journal
            }),
            final(self)@ == (MapView { count: 0, journal: final(self)@.journal, ..old(self)@ }),
    {
        if self.count != 0 {
            self.count = 0;
            self.journal.journal_clear();
        }
    }

    /// Obtain the maximum capacity of the map. This might be zero if the
    /// amounts reserved for garbage collection and a safety margin exceed
    /// the journal's capacity.
    pub fn get_capacity(&self) -> (r: DharaSector)
        requires
            self.wf(),
        ensures
            r == self.capacity(),
            r == map_capacity_spec(
                crate::journal::capacity_spec(
                    self@.num_blocks,
                    self@.log2_ppb,
                    self@.journal.log2_ppc,
                    self@.journal.bb_last,
                    self@.journal.bb_current,
                ) as u32,
                self@.gc_ratio,
                self@.log2_ppb,
            ),
    {
        let cap = self.journal.journal_capacity();
        let reserve = cap / (self.gc_ratio as u32 + 1);
        let ppb = self.journal.nand.get_log2_ppb() as u32;
        let safety_margin = (DHARA_MAX_RETRIES as u32) << ppb;
        proof {
            lemma_margin(ppb);
        }
        cap.saturating_sub(reserve + safety_margin)
    }

    /// Obtain the current number of allocated sectors.
    pub fn get_size(&self) -> (r: DharaSector)
        ensures
            r == self@.count,
    {
        self.count
    }
}


/// The journal's newest page, its root, is a user page whose metadata, as
/// kept in the page buffer, names sector `s`.
pub open spec fn root_names(j: JournalView, s: DharaSector) -> bool {
    j.root != DHARA_PAGE_NONE && meta_id(buffered_meta(j, j.root)) == s
}

/// The root lies in the checkpoint group being filled, so its metadata is
/// read from the page buffer.
pub open spec fn root_buffered(j: JournalView) -> bool {
    j.root >> (j.log2_ppc as u32) == j.head >> (j.log2_ppc as u32)
}

/// The root's metadata is not taken from a copy made when recovery
/// started.
pub open spec fn root_meta_not_recovered(j: JournalView) -> bool {
    j.recover_meta == DHARA_PAGE_NONE || j.root >> (j.log2_ppc as u32) != j.recover_root >> (j.log2_ppc as u32)
}

/// The lookup of sector `s` in journal `j` on chip `nand` ends at the
/// journal's root, wherever the root's metadata can be read back: when `s`
/// is a sector and the root's metadata is in the page buffer or, with
/// checkpoint groups of more than two pages, was written with its group's
/// checkpoint and is not taken from elsewhere by recovery.
pub open spec fn lookup_finds_root<T: DharaNand>(j: JournalView, nand: &T, s: DharaSector, n: usize) -> bool {
    s != DHARA_SECTOR_NONE && (root_buffered(j) || j.log2_ppc != 1 && root_meta_not_recovered(j)) ==> trace_spec(
        j,
        nand,
        s,
        n,
    ) == Ok::<DharaPage, DharaError>(j.root)
}

/// What a successful read of sector `s` leaves in a buffer that held
/// `before` and now holds `after`: the first `n` bytes of the page the
/// lookup of `s` ends at, or, for an unmapped sector, a blank buffer (all
/// 0xff). A lookup that fails otherwise never gives a successful read.
pub open spec fn read_outcome<T: DharaNand>(
    j: JournalView,
    nand: &T,
    s: DharaSector,
    n: usize,
    before: Seq<u8>,
    after: Seq<u8>,
) -> bool {
    match trace_spec(j, nand, s, n) {
        Ok(p) => before.len() >= n ==> forall|i: int| 0 <= i < n ==> #[trigger] after[i] == nand.page_byte(p, i as usize),
        Err(e) => e == DharaError::NotFound && after == Seq::new(before.len(), |i: int| 0xffu8),
    }
}

/// A read gives back what was written: in the state a successful `write`
/// of `data` to sector `s` leaves (the root names `s`, holds `data`, and
/// its metadata can be read back), a successful read of `s` into a buffer
/// of at least a page returns `data` in its first bytes.
pub proof fn law_read_back_write<T: DharaNand>(
    j: JournalView,
    nand: &T,
    s: DharaSector,
    n: usize,
    data: Seq<u8>,
    before: Seq<u8>,
    after: Seq<u8>,
)
    requires
        root_names(j, s),
        page_holds(nand, j.root, data),
        lookup_finds_root(j, nand, s, n),
        s != DHARA_SECTOR_NONE,
        root_buffered(j) || j.log2_ppc != 1 && root_meta_not_recovered(j),
        data.len() <= n,
        before.len() >= n,
        after.len() == before.len(),
        read_outcome(j, nand, s, n, before, after),
    ensures
        after.subrange(0, data.len() as int) == data,
{
    assert(trace_spec(j, nand, s, n) == Ok::<DharaPage, DharaError>(j.root));
    assert forall|i: int| 0 <= i < data.len() implies #[trigger] after[i] == data[i] by {
        assert(after[i] == nand.page_byte(j.root, i as usize));
        assert(data[i] == nand.page_byte(j.root, i as usize));
    }
    assert(after.subrange(0, data.len() as int) =~= data);
}

/// A lookup finds the newest page first: when the journal's root names
/// sector `s`, and its metadata is still in the page buffer or was written
/// with its group's checkpoint (and recovery does not supply it from
/// elsewhere), the lookup of `s` ends at the root.
pub proof fn law_lookup_finds_root<T: DharaNand>(j: JournalView, nand: &T, s: DharaSector, n: usize)
    requires
        journal_valid(j, nand, n),
        root_names(j, s),
        root_buffered(j) || root_meta_kept(j, nand) && root_meta_not_recovered(j),
        s != DHARA_SECTOR_NONE,
    ensures
        trace_spec(j, nand, s, n) == Ok::<DharaPage, DharaError>(j.root),
{
    if root_buffered(j) {
        law_buffered_meta_read_back(j, nand, n, j.root);
        lemma_trace_stays(j, nand, s, j.root, buffered_meta(j, j.root), 0, n);
    } else {
        let c = j.log2_ppc as u32;
        let off = JournalView::user_offset((j.root & crate::pagemath::low_mask(c)) as int);
        let read = Seq::new(
            DHARA_META_SIZE as nat,
            |i: int| nand.page_byte(j.root | crate::pagemath::low_mask(c), (off + i) as usize),
        );
        crate::pagemath::lemma_and_le(j.root, crate::pagemath::low_mask(c));
        crate::pagemath::lemma_shl_fits(nand.num_blocks(), nand.num_blocks(), nand.log2_ppb() as u32);
        assert((j.root & crate::pagemath::low_mask(c)) + 1 <= crate::pagemath::low_mask(c));
        assert(((j.root & crate::pagemath::low_mask(c)) + 1) * DHARA_META_SIZE <= crate::pagemath::low_mask(c)
            * DHARA_META_SIZE) by (nonlinear_arith)
            requires
                (j.root & crate::pagemath::low_mask(c)) + 1 <= crate::pagemath::low_mask(c),
        ;
        law_meta_read_back_after_checkpoint(j, nand, j.root, read);
        assert(read.subrange(0, DHARA_META_SIZE as int) =~= read);
        assert(meta_at(j, nand, j.root, n) == Some(read));
        lemma_trace_stays(j, nand, s, j.root, read, 0, n);
    }
}

/// A walk from a page of sector `s` never leaves it on the way to `s`.
proof fn lemma_trace_stays<T: DharaNand>(
    j: JournalView,
    nand: &T,
    s: DharaSector,
    p: DharaPage,
    m: Seq<u8>,
    depth: nat,
    n: usize,
)
    requires
        meta_id(m) == s,
        s != DHARA_SECTOR_NONE,
        depth <= DHARA_RADIX_DEPTH,
    ensures
        trace_from(j, nand, s, p, m, depth, n) == Ok::<DharaPage, DharaError>(p),
    decreases DHARA_RADIX_DEPTH - depth,
{
    if depth < DHARA_RADIX_DEPTH {
        let d: u32 = (31 - depth) as u32;
        assert((s ^ s) & (1u32 << d) == 0) by (bit_vector);
        assert(!path_diverges(s, meta_id(m) as u32, depth as int));
        lemma_trace_stays(j, nand, s, p, m, depth + 1, n);
    }
}

/// The journal's tail is garbage that garbage collection drops without
/// reading the chip: the journal is not empty, the tail is not the first
/// page of a block and lies in the checkpoint group being filled, and its
/// buffered metadata names no sector, or the journal has no root to find a
/// sector from.
pub open spec fn garbage_at_tail(m: MapView) -> bool {
    let j = m.journal;
    let c = j.log2_ppc as u32;
    &&& j.head != j.tail
    &&& j.tail & crate::pagemath::low_mask(m.log2_ppb as u32) != 0
    &&& j.tail >> c == j.head >> c
    &&& (meta_id(buffered_meta(j, j.tail)) == DHARA_SECTOR_NONE || j.root == DHARA_PAGE_NONE)
}

/// The journal's tail has been dequeued from `a` to `b`, on a chip of `t`
/// pages in blocks of `2^s` pages: the journal is now empty, or the tail has
/// moved to the user page after the old tail (after the start of a block
/// when the old tail started a block, which may have been skipped as bad).
pub open spec fn tail_dequeued(a: JournalView, b: JournalView, s: u32, t: u32) -> bool {
    ||| b.head == b.tail
    ||| a.tail & crate::pagemath::low_mask(s) != 0 && b.tail == next_upage_spec(a.tail, a.log2_ppc, t)
    ||| a.tail & crate::pagemath::low_mask(s) == 0 && exists|x: u32|
        x < t && x & crate::pagemath::low_mask(s) == 0 && b.tail == #[trigger] next_upage_spec(x, a.log2_ppc, t)
}

/// One step of garbage collection from map state `a` to `b`: with no sector
/// mapped, or an empty journal, nothing changes; otherwise the journal's
/// tail is dequeued. The map's bookkeeping is kept.
pub open spec fn gc_step(a: MapView, b: MapView) -> bool {
    &&& same_map(b, a)
    &&& (a.count == 0 || a.journal.head == a.journal.tail ==> b == a)
    &&& (a.count != 0 && a.journal.head != a.journal.tail ==> tail_dequeued(
        a.journal,
        b.journal,
        a.log2_ppb as u32,
        a.num_blocks << (a.log2_ppb as u32),
    ))
}

/// A garbage collection step makes progress: on a map with a sector mapped
/// and a journal that is not empty, on a chip whose blocks have at least
/// four pages, a step moves the journal's tail, unless it empties the
/// journal.
pub proof fn law_gc_step_moves_tail(a: MapView, b: MapView)
    requires
        gc_step(a, b),
        a.count != 0,
        a.journal.head != a.journal.tail,
        2 <= a.log2_ppb < 32,
        1 <= a.journal.log2_ppc <= a.log2_ppb,
        a.num_blocks <= (0x8000_0000u32 >> (a.log2_ppb as u32)),
        a.journal.tail < a.num_blocks << (a.log2_ppb as u32),
    ensures
        b.journal.tail != a.journal.tail || b.journal.head == b.journal.tail,
{
    let s = a.log2_ppb as u32;
    let c = a.journal.log2_ppc as u32;
    let t = a.num_blocks << s;
    let y = a.journal.tail;
    crate::pagemath::lemma_shl_fits(a.num_blocks, a.num_blocks, s);
    crate::pagemath::lemma_shl_aligned(a.num_blocks, s, s);
    if b.journal.head != b.journal.tail {
        if y & crate::pagemath::low_mask(s) != 0 {
            lemma_next_upage_moves(y, c, s, t);
        } else {
            let x = choose|x: u32|
                x < t && x & crate::pagemath::low_mask(s) == 0 && b.journal.tail == #[trigger] next_upage_spec(
                    x,
                    a.journal.log2_ppc,
                    t,
                );
            lemma_next_upage_leaves_start(x, c, s, t);
        }
    }
}

/// The user page after a page that does not start a block is another page.
proof fn lemma_next_upage_moves(y: u32, c: u32, s: u32, t: u32)
    requires
        1 <= c <= s < 32,
        t <= 0x8000_0000u32,
        t & crate::pagemath::low_mask(s) == 0,
        y < t,
        y & crate::pagemath::low_mask(s) != 0,
    ensures
        next_upage_spec(y, c as u8, t) != y,
{
    assert(y != 0) by (bit_vector)
        requires
            y & crate::pagemath::low_mask(s) != 0,
    ;
}

/// On a chip with blocks of four or more pages, the user page after the
/// start of a block does not start a block.
proof fn lemma_next_upage_leaves_start(x: u32, c: u32, s: u32, t: u32)
    requires
        1 <= c <= s < 32,
        2 <= s,
        t <= 0x8000_0000u32,
        t & crate::pagemath::low_mask(s) == 0,
        x < t,
        x & crate::pagemath::low_mask(s) == 0,
    ensures
        next_upage_spec(x, c as u8, t) & crate::pagemath::low_mask(s) != 0,
{
    assert(((x + 1) as u32) & crate::pagemath::low_mask(s) != 0 && ((x + 2) as u32) & crate::pagemath::low_mask(s)
        != 0 && x + 2 < t) by (bit_vector)
        requires
            2 <= s < 32,
            t <= 0x8000_0000u32,
            t & crate::pagemath::low_mask(s) == 0,
            x < t,
            x & crate::pagemath::low_mask(s) == 0,
    ;
}

/// The map's bookkeeping and geometry are as before; only the journal may
/// have changed.
pub open spec fn same_map(new: MapView, old: MapView) -> bool {
    new == MapView { journal: new.journal, ..old }
}

impl<const N: usize, T: DharaNand> DharaMap<N, T> {
    /// Once the root names sector `s` and its metadata is kept, a lookup
    /// of `s` finds the root.
    proof fn lemma_lookup_newest(&self, s: DharaSector)
        requires
            self.wf(),
            root_names(self@.journal, s),
            self@.journal.log2_ppc != 1 ==> root_meta_kept(self@.journal, &self.chip()),
        ensures
            lookup_finds_root(self@.journal, &self.chip(), s, N),
    {
        if s != DHARA_SECTOR_NONE && (root_buffered(self@.journal) || self@.journal.log2_ppc != 1
            && root_meta_not_recovered(self@.journal)) {
            law_lookup_finds_root(self@.journal, &self.chip(), s, N);
        }
    }

    // Trace the path from the root to the given sector, emitting alt-pointers
    // in the given metadata buffer. This also returns the physical page
    // containing the given sector, if it exists.
    //
    // If the page can't be found, a suitable path will be constructed
    // (containing PAGE_NONE alt-pointers), and NotFound will be returned.
    fn trace_path(&mut self, target: DharaSector, new_meta: &mut [u8]) -> (r: Result<DharaPage, DharaError>)
        requires
            old(self).wf(),
            old(new_meta)@.len() >= DHARA_META_SIZE,
        ensures
            final(self).wf(),
            final(self)@ == old(self)@,
            same_pages(&final(self).chip(), &old(self).chip()),
            final(new_meta)@.len() == old(new_meta)@.len(),
            meta_id(final(new_meta)@) == target,
            r matches Ok(p) ==> p != DHARA_PAGE_NONE,
            root_names(old(self)@.journal, target) && root_buffered(old(self)@.journal) && target
                != DHARA_SECTOR_NONE ==> r == Ok::<DharaPage, DharaError>(old(self)@.journal.root),
            old(self)@.journal.root == DHARA_PAGE_NONE ==> r == Err::<DharaPage, DharaError>(DharaError::NotFound)
                && final(self).chip() == old(self).chip(),
            r is Ok ==> r == trace_spec(old(self)@.journal, &old(self).chip(), target, N),
            r == Err::<DharaPage, DharaError>(DharaError::NotFound) ==> trace_spec(
                old(self)@.journal,
                &old(self).chip(),
                target,
                N,
            ) == Err::<DharaPage, DharaError>(DharaError::NotFound),
    {
        let mut meta: [u8; DHARA_META_SIZE] = [0u8; DHARA_META_SIZE];
        let mut depth: usize = 0;
        let mut p = self.journal.get_root();
        let ghost newest = root_names(old(self)@.journal, target) && root_buffered(old(self)@.journal) && target
            != DHARA_SECTOR_NONE;

        proof {
            lemma_set_id(new_meta@, target);
        }
        meta_set_id(new_meta, target);

        if p == DHARA_PAGE_NONE {
            return trace_not_found(new_meta, depth);
        }
        proof {
            if newest {
                law_buffered_meta_read_back(self.journal@, &self.journal.nand, N, p);
            }
        }
        self.journal.journal_read_meta(p, &mut meta)?;
        proof {
            if newest {
                assert(meta@ =~= buffered_meta(old(self)@.journal, p));
            }
            lemma_meta_at_pages(old(self)@.journal, &self.journal.nand, &old(self).chip(), p, N);
            assert(meta@ =~= meta@.subrange(0, DHARA_META_SIZE as int));
        }

        while depth < DHARA_RADIX_DEPTH
            invariant
                self.wf(),
                self@ == old(self)@,
                same_pages(&self.chip(), &old(self).chip()),
                depth <= DHARA_RADIX_DEPTH,
                new_meta@.len() == old(new_meta)@.len(),
                new_meta@.len() >= DHARA_META_SIZE,
                meta_id(new_meta@) == target,
                meta@.len() == DHARA_META_SIZE,
                p != DHARA_PAGE_NONE,
                newest == (root_names(old(self)@.journal, target) && root_buffered(old(self)@.journal) && target
                    != DHARA_SECTOR_NONE),
                newest ==> p == old(self)@.journal.root && meta_id(meta@) == target,
                old(self)@.journal.root != DHARA_PAGE_NONE,
                trace_spec(old(self)@.journal, &old(self).chip(), target, N) == trace_from(
                    old(self)@.journal,
                    &old(self).chip(),
                    target,
                    p,
                    meta@,
                    depth as nat,
                    N,
                ),
            decreases DHARA_RADIX_DEPTH - depth,
        {
            let id = meta_get_id(&meta);

            if id == DHARA_SECTOR_NONE {
                return trace_not_found(new_meta, depth);
            }
            proof {
                if newest {
                    assert(!path_diverges(target, id, depth as int)) by (bit_vector)
                        requires
                            id == target,
                    ;
                }
            }
            let ghost p0 = p;
            let ghost m0 = meta@;
            let ghost chip0 = old(self).chip();
            let ghost v0 = old(self)@.journal;
            match trace_step(target, &meta, p, depth, new_meta) {
                Some(q) => {
                    p = q;
                    if p == DHARA_PAGE_NONE {
                        depth = depth + 1;
                        return trace_not_found(new_meta, depth);
                    }
                    self.journal.journal_read_meta(p, &mut meta)?;
                    proof {
                        lemma_meta_at_pages(old(self)@.journal, &self.journal.nand, &old(self).chip(), p, N);
                        assert(meta@ =~= meta@.subrange(0, DHARA_META_SIZE as int));
                        assert(meta_at(v0, &chip0, p, N) == Some(meta@));
                        assert(trace_from(v0, &chip0, target, p0, m0, depth as nat, N) == trace_from(
                            v0,
                            &chip0,
                            target,
                            p,
                            meta@,
                            (depth + 1) as nat,
                            N,
                        ));
                    }
                },
                None => {},
            }
            depth = depth + 1;
        }
        Ok(p)
    }

    /// Find the physical page which holds the current data for this sector.
    /// If the sector does not exist, the error is `DharaError::NotFound`.
    pub fn find(&mut self, target: DharaSector) -> (r: Result<DharaPage, DharaError>)
        requires
            old(self).wf(),
        ensures
            final(self).wf(),
            final(self)@ == old(self)@,
            same_pages(&final(self).chip(), &old(self).chip()),
            r matches Ok(p) ==> p != DHARA_PAGE_NONE,
            root_names(old(self)@.journal, target) && root_buffered(old(self)@.journal) && target
                != DHARA_SECTOR_NONE ==> r == Ok::<DharaPage, DharaError>(old(self)@.journal.root),
            old(self)@.journal.root == DHARA_PAGE_NONE ==> r == Err::<DharaPage, DharaError>(DharaError::NotFound)
                && final(self).chip() == old(self).chip(),
            r is Ok ==> r == trace_spec(old(self)@.journal, &old(self).chip(), target, N),
            r == Err::<DharaPage, DharaError>(DharaError::NotFound) ==> trace_spec(
                old(self)@.journal,
                &old(self).chip(),
                target,
                N,
            ) == Err::<DharaPage, DharaError>(DharaError::NotFound),
    {
        let mut unused: [u8; DHARA_META_SIZE] = [0u8; DHARA_META_SIZE];
        self.trace_path(target, &mut unused)
    }

    /// Finish a read given the outcome of looking the sector up: an unmapped
    /// sector reads as a blank page (all 0xff); a mapped one is read from its
    /// page; any other error is passed on.
    pub fn read_found(&mut self, found: Result<DharaPage, DharaError>, data: &mut [u8]) -> (r: Result<(), DharaError>)
        requires
            old(self).wf(),
        ensures
            final(self).wf(),
            final(self)@ == old(self)@,
            final(data)@.len() == old(data)@.len(),
            found == Err::<DharaPage, DharaError>(DharaError::NotFound) ==> r == Ok::<(), DharaError>(())
                && final(data)@ == Seq::new(old(data)@.len(), |i: int| 0xffu8),
            found matches Err(e) ==> (e != DharaError::NotFound ==> r == Err::<(), DharaError>(e) && final(data)@
                == old(data)@),
            same_pages(&final(self).chip(), &old(self).chip()),
            found matches Ok(p) ==> (r is Ok && old(data)@.len() >= N ==> forall|i: int|
                0 <= i < N ==> #[trigger] final(data)@[i] == old(self).chip().page_byte(p, i as usize)),
    {
        match found {
            Err(DharaError::NotFound) => {
                let len = data.len();
                fill_ff(data, 0, len);
                proof {
                    assert(data@ =~= Seq::new(old(data)@.len(), |i: int| 0xffu8));
                }
                Ok(())
            },
            Err(e) => Err(e),
            Ok(page) => {
                let psize = self.journal.nand.get_log2_page_size() as usize;
                proof {
                    self.journal.lemma_chip_pub();
                }
                self.journal.nand.read(page, 0, 1usize << psize, data)
            },
        }
    }

    /// Read from the given logical sector. If the sector is unmapped, a
    /// blank page (0xff) is returned.
    pub fn read(&mut self, sector: DharaSector, data: &mut [u8]) -> (r: Result<(), DharaError>)
        requires
            old(self).wf(),
        ensures
            final(self).wf(),
            final(self)@ == old(self)@,
            final(data)@.len() == old(data)@.len(),
            old(self)@.journal.root == DHARA_PAGE_NONE ==> r == Ok::<(), DharaError>(()) && final(data)@ == Seq::new(
                old(data)@.len(),
                |i: int| 0xffu8,
            ),
            root_names(old(self)@.journal, sector) && root_buffered(old(self)@.journal) && sector != DHARA_SECTOR_NONE
                && r is Ok && old(data)@.len() >= N ==> forall|i: int|
                0 <= i < N ==> #[trigger] final(data)@[i] == old(self).chip().page_byte(old(self)@.journal.root, i as usize),
            r is Ok ==> read_outcome(old(self)@.journal, &old(self).chip(), sector, N, old(data)@, final(data)@),
    {
        let found = self.find(sector);
        self.read_found(found, data)
    }
}


impl<const N: usize, T: DharaNand> DharaMap<N, T> {
    // Check the given page. If it's garbage, do nothing. Otherwise, rewrite
    // it at the front of the map. Return raw errors from the journal (do not
    // perform recovery).
    fn raw_gc(&mut self, src: DharaPage) -> (r: Result<(), DharaError>)
        requires
            old(self).wf(),
        ensures
            final(self).wf(),
            same_map(final(self)@, old(self)@),
            final(self)@.journal.tail == old(self)@.journal.tail,
            final(self)@.journal.log2_ppc == old(self)@.journal.log2_ppc,
            ({
                let j = old(self)@.journal;
                let c = j.log2_ppc as u32;
                src >> c == j.head >> c ==> match buffered_read(j, src, N) {
                    None => r == Err::<(), DharaError>(DharaError::CorruptMap) && final(self)@ == old(self)@,
                    Some(m) => (meta_id(m) == DHARA_SECTOR_NONE || j.root == DHARA_PAGE_NONE) ==> r == Ok::<
                        (),
                        DharaError,
                    >(()) && final(self)@ == old(self)@,
                }
            }),
    {
        let mut meta: [u8; DHARA_META_SIZE] = [0u8; DHARA_META_SIZE];

        self.journal.journal_read_meta(src, &mut meta)?;

        // Is the page just filler/garbage?
        let target = meta_get_id(&meta);
        if target == DHARA_SECTOR_NONE {
            return Ok(());
        }
        // Find out where the sector once represented by this page currently
        // resides (if anywhere).
        match self.trace_path(target, &mut meta) {
            Err(DharaError::NotFound) => Ok(()),
            Err(e) => Err(e),
            Ok(current_page) => {
                // Is this page still the most current representative? If not,
                // do nothing.
                if current_page != src {
                    return Ok(());
                }
                // Rewrite it at the front of the journal with updated metadata.
                self.journal.set_cookie(self.count);
                self.journal.journal_copy(src, Some(meta.as_slice()))?;
                Ok(())
            },
        }
    }

    // Write a filler page: a copy of the root with its metadata, or a blank
    // page if the journal is empty.
    fn pad_queue(&mut self) -> (r: Result<(), DharaError>)
        requires
            old(self).wf(),
        ensures
            final(self).wf(),
            same_map(final(self)@, old(self)@),
            final(self)@.journal.tail == old(self)@.journal.tail,
            final(self)@.journal.log2_ppc == old(self)@.journal.log2_ppc,
            old(self)@.journal.root == DHARA_PAGE_NONE && old(self).journal.is_blocked() ==> r == Err::<(), DharaError>(
                DharaError::JournalFull,
            ),
            ({
                let j = old(self)@.journal;
                let c = j.log2_ppc as u32;
                j.root == DHARA_PAGE_NONE && !old(self).journal.is_blocked() && old(self).journal.head_mid_block() && ((
                j.head + 2) as u32) & crate::pagemath::low_mask(c) != 0 ==> {
                    &&& r == Ok::<(), DharaError>(())
                    &&& final(self)@.journal == JournalView {
                        flags: j.flags | crate::journal::DHARA_JOURNAL_F_DIRTY,
                        root: j.head,
                        head: (j.head + 1) as u32,
                        buf: with_meta(
                            put32(j.buf, DHARA_HEADER_SIZE as int, old(self)@.count),
                            JournalView::user_offset((j.head & crate::pagemath::low_mask(c)) as int),
                            meta_bytes(None),
                        ),
                        ..j
                    }
                }
            }),
    {
        let p = self.journal.get_root();
        let mut root_meta: [u8; DHARA_META_SIZE] = [0u8; DHARA_META_SIZE];

        self.journal.set_cookie(self.count);

        if p == DHARA_PAGE_NONE {
            return self.journal.journal_enqueue(None, None);
        }
        self.journal.journal_read_meta(p, &mut root_meta)?;
        self.journal.journal_copy(p, Some(root_meta.as_slice()))
    }

    // Attempt to recover the journal after `cause`. Only `Recover` starts a
    // recovery; other errors are returned as they are.
    fn try_recover(&mut self, cause: DharaError) -> (r: Result<(), DharaError>)
        requires
            old(self).wf(),
        ensures
            final(self).wf(),
            same_map(final(self)@, old(self)@),
            final(self)@.journal.tail == old(self)@.journal.tail,
            final(self)@.journal.log2_ppc == old(self)@.journal.log2_ppc,
            cause != DharaError::Recover ==> r == Err::<(), DharaError>(cause) && final(self)@ == old(self)@
                && final(self).chip() == old(self).chip(),
            r is Ok ==> !final(self)@.journal.is_in_recovery(),
            cause == DharaError::Recover ==> r != Err::<(), DharaError>(DharaError::Recover),
    {
        match cause {
            DharaError::Recover => {},
            _ => {
                return Err(cause);
            },
        }
        let mut restart_count: u8 = 0;
        let mut rounds: u64 = 0;

        while self.journal.journal_in_recovery()
            invariant
                self.wf(),
                same_map(self@, old(self)@),
                self@.journal.tail == old(self)@.journal.tail,
                self@.journal.log2_ppc == old(self)@.journal.log2_ppc,
                cause == DharaError::Recover,
            decreases DHARA_MAX_ROUNDS - rounds,
        {
            if rounds == DHARA_MAX_ROUNDS {
                return Err(DharaError::TooBad);
            }
            rounds = rounds + 1;
            let p = self.journal.journal_next_recoverable();
            let ret = if p == DHARA_PAGE_NONE {
                self.pad_queue()
            } else {
                self.raw_gc(p)
            };
            match ret {
                Ok(_) => {},
                Err(DharaError::Recover) => {
                    if restart_count >= DHARA_MAX_RETRIES {
                        return Err(DharaError::TooBad);
                    }
                    restart_count = restart_count + 1;
                },
                Err(e) => {
                    return Err(e);
                },
            }
        }
        Ok(())
    }

    /// Perform one garbage collection step. You can do this whenever you
    /// like, but it's not necessary -- garbage collection happens
    /// automatically and is interleaved with other operations.
    pub fn gc(&mut self) -> (r: Result<(), DharaError>)
        requires
            old(self).wf(),
        ensures
            final(self).wf(),
            same_map(final(self)@, old(self)@),
            old(self)@.count == 0 ==> r == Ok::<(), DharaError>(()) && final(self)@ == old(self)@ && final(self).chip()
                == old(self).chip(),
            old(self)@.count != 0 && old(self)@.journal.head == old(self)@.journal.tail ==> r == Ok::<(), DharaError>(())
                && final(self)@ == old(self)@,
            old(self)@.count != 0 && garbage_at_tail(old(self)@) ==> r == Ok::<(), DharaError>(()) && final(self)@ == (MapView {
                journal: dequeued(old(self)@.journal, old(self)@.num_blocks << (old(self)@.log2_ppb as u32)),
                ..old(self)@
            }),
            r is Ok ==> gc_step(old(self)@, final(self)@),
    {
        if self.count == 0 {
            return Ok(());
        }
        let ghost s = self@.log2_ppb as u32;
        let ghost t = self@.num_blocks << s;
        let ghost mask = crate::pagemath::low_mask(s);
        let mut rounds: u64 = 0;
        loop
            invariant_except_break
                rounds > 0 ==> !(old(self)@.journal.head == old(self)@.journal.tail) && !garbage_at_tail(old(self)@),
                old(self)@.journal.tail & crate::pagemath::low_mask(old(self)@.log2_ppb as u32) != 0
                    ==> self@.journal.tail == old(self)@.journal.tail,
                old(self)@.journal.tail & crate::pagemath::low_mask(old(self)@.log2_ppb as u32) == 0
                    ==> self@.journal.tail & crate::pagemath::low_mask(old(self)@.log2_ppb as u32) == 0,
            invariant
                self.wf(),
                same_map(self@, old(self)@),
                old(self)@.count != 0,
                rounds == 0 ==> self@ == old(self)@,
                s == self@.log2_ppb as u32,
                t == self@.num_blocks << s,
                mask == crate::pagemath::low_mask(s),
                self@.journal.log2_ppc == old(self)@.journal.log2_ppc,
            ensures
                old(self)@.journal.head != old(self)@.journal.tail ==> tail_dequeued(old(self)@.journal, self@.journal, s, t),
                old(self)@.journal.head == old(self)@.journal.tail ==> self@ == old(self)@,
                garbage_at_tail(old(self)@) ==> self@ == (MapView {
                    journal: dequeued(old(self)@.journal, old(self)@.num_blocks << (old(self)@.log2_ppb as u32)),
                    ..old(self)@
                }),
            decreases DHARA_MAX_ROUNDS - rounds,
        {
            if rounds == DHARA_MAX_ROUNDS {
                return Err(DharaError::TooBad);
            }
            rounds = rounds + 1;
            let ghost v0 = self@.journal;
            let ghost n0 = self.journal.nand;
            let tail = self.journal.journal_peek();
            proof {
                if v0.head != v0.tail && v0.tail & mask == 0 {
                    match tail_stop(&n0, v0.tail >> s, v0.head >> s, n0.num_blocks(), DHARA_MAX_RETRIES as nat) {
                        Some(b) => {
                            crate::pagemath::lemma_shl_aligned(b, s, s);
                        },
                        None => {},
                    }
                }
            }
            if tail == DHARA_PAGE_NONE {
                break;
            }
            proof {
                if rounds == 1 && garbage_at_tail(old(self)@) {
                    law_buffered_meta_read_back(self.journal@, &self.journal.nand, N, tail);
                }
            }
            match self.raw_gc(tail) {
                Ok(_) => {
                    let ghost before = self@.journal;
                    self.journal.journal_dequeue();
                    proof {
                        if before.head != before.tail {
                            assert(self@.journal.tail == next_upage_spec(before.tail, before.log2_ppc, t));
                        }
                    }
                    break;
                },
                Err(e) => {
                    self.try_recover(e)?;
                },
            }
        }
        Ok(())
    }

    // Collect garbage when the journal has reached the map's capacity: one
    // step per unit of the garbage collection ratio.
    fn auto_gc(&mut self) -> (r: (Result<(), DharaError>, Ghost<Seq<MapView>>))
        requires
            old(self).wf(),
        ensures
            final(self).wf(),
            same_map(final(self)@, old(self)@),
            old(self).gc_idle() ==> r.0 == Ok::<(), DharaError>(()) && final(self)@ == old(self)@ && final(self).chip()
                == old(self).chip(),
            // Past the capacity, the map goes through one garbage collection
            // step per unit of its ratio.
            r.0 is Ok && !old(self).gc_idle() ==> {
                let steps = r.1@;
                &&& steps.len() == old(self)@.gc_ratio + 1
                &&& steps[0] == old(self)@
                &&& steps.last() == final(self)@
                &&& forall|i: int| 0 <= i < old(self)@.gc_ratio ==> #[trigger] gc_step(steps[i], steps[i + 1])
            },
    {
        let ghost mut steps: Seq<MapView> = seq![self@];
        if self.journal.journal_size() < self.get_capacity() {
            return (Ok(()), Ghost(steps));
        }
        let mut i: u8 = 0;
        while i < self.gc_ratio
            invariant
                self.wf(),
                same_map(self@, old(self)@),
                !old(self).gc_idle(),
                i <= self.gc_ratio,
                steps.len() == i + 1,
                steps[0] == old(self)@,
                steps.last() == self@,
                forall|k: int| 0 <= k < i ==> #[trigger] gc_step(steps[k], steps[k + 1]),
            decreases self.gc_ratio - i,
        {
            let res = self.gc();
            if let Err(e) = res {
                return (Err(e), Ghost(steps));
            }
            proof {
                steps = steps.push(self@);
            }
            i = i + 1;
        }
        (Ok(()), Ghost(steps))
    }

    /// Account for a write to a sector given the outcome of looking it up:
    /// a sector that was not mapped takes one more unit of capacity, and is
    /// refused with `DharaError::MapFull` when the map is at capacity; any
    /// other lookup error is passed on.
    pub fn claim_sector(&mut self, found: Result<DharaPage, DharaError>) -> (r: Result<(), DharaError>)
        requires
            old(self).wf(),
        ensures
            final(self).wf(),
            final(self)@.journal == old(self)@.journal,
            found is Ok ==> r is Ok && final(self)@ == old(self)@,
            found == Err::<DharaPage, DharaError>(DharaError::NotFound) ==> if old(self)@.count >= old(self).capacity() {
                r == Err::<(), DharaError>(DharaError::MapFull) && final(self)@ == old(self)@
            } else {
                r is Ok && final(self)@ == (MapView { count: (old(self)@.count + 1) as u32, ..old(self)@ })
            },
            found matches Err(e) ==> (e != DharaError::NotFound ==> r == Err::<(), DharaError>(e) && final(self)@
                == old(self)@),
    {
        match found {
            Ok(_) => Ok(()),
            Err(DharaError::NotFound) => {
                if self.count >= self.get_capacity() {
                    return Err(DharaError::MapFull);
                }
                self.count = self.count + 1;
                Ok(())
            },
            Err(e) => Err(e),
        }
    }

    // Prepare to write a sector: collect garbage if needed, trace the
    // sector's path into `meta`, account for a newly mapped sector, and
    // record the sector count in the journal's cookie.
    fn prepare_write(&mut self, dst: DharaSector, meta: &mut [u8]) -> (r: Result<(), DharaError>)
        requires
            old(self).wf(),
            old(meta)@.len() >= DHARA_META_SIZE,
        ensures
            final(self).wf(),
            final(self)@ == (MapView { count: final(self)@.count, journal: final(self)@.journal, ..old(self)@ }),
            final(meta)@.len() == old(meta)@.len(),
            r is Err ==> final(self)@.count == old(self)@.count,
            r is Ok ==> final(self)@.count == old(self)@.count || final(self)@.count == old(self)@.count + 1,
            r is Ok ==> final(self)@.journal.cookie() == final(self)@.count && meta_id(final(meta)@) == dst,
            old(self)@.journal.root == DHARA_PAGE_NONE && old(self).gc_idle() ==> if old(self)@.count >= old(
                self,
            ).capacity() {
                r == Err::<(), DharaError>(DharaError::MapFull) && final(self)@ == old(self)@
            } else {
                &&& r == Ok::<(), DharaError>(())
                &&& final(self)@ == MapView {
                    count: (old(self)@.count + 1) as u32,
                    journal: JournalView {
                        buf: put32(old(self)@.journal.buf, DHARA_HEADER_SIZE as int, (old(self)@.count + 1) as u32),
                        ..old(self)@.journal
                    },
                    ..old(self)@
                }
            },
            r is Ok && old(self).gc_idle() && final(self)@.count == old(self)@.count ==> trace_spec(
                old(self)@.journal,
                &old(self).chip(),
                dst,
                N,
            ) is Ok,
            r is Ok && old(self).gc_idle() && trace_spec(old(self)@.journal, &old(self).chip(), dst, N) == Err::<
                DharaPage,
                DharaError,
            >(DharaError::NotFound) ==> final(self)@.count == old(self)@.count + 1,
    {
        self.auto_gc().0?;
        let found = self.trace_path(dst, meta);
        self.claim_sector(found)?;
        self.journal.set_cookie(self.count);
        Ok(())
    }

    /// Write data to a logical sector.
    pub fn write(&mut self, dst: DharaSector, data: &[u8]) -> (r: Result<(), DharaError>)
        requires
            old(self).wf(),
        ensures
            final(self).wf(),
            final(self)@ == (MapView { count: final(self)@.count, journal: final(self)@.journal, ..old(self)@ }),
            r is Err ==> final(self)@.count == old(self)@.count,
            old(self)@.journal.root == DHARA_PAGE_NONE && old(self).gc_idle() && old(self)@.count >= old(self).capacity() ==> r == Err::<
                (),
                DharaError,
            >(DharaError::MapFull) && final(self)@ == old(self)@,
            r is Ok ==> final(self)@.count == old(self)@.count || final(self)@.count == old(self)@.count + 1,
            r is Ok ==> (root_names(final(self)@.journal, dst) && page_holds(
                &final(self).chip(),
                final(self)@.journal.root,
                data@,
            ) && lookup_finds_root(final(self)@.journal, &final(self).chip(), dst, N)) || (final(self)@.journal.log2_ppc == 1 && final(self)@.journal.head & crate::pagemath::low_mask(
                final(self)@.log2_ppb as u32,
            ) == 0),
    {
        let mut meta: [u8; DHARA_META_SIZE] = [0u8; DHARA_META_SIZE];
        let mut rounds: u64 = 0;

        loop
            invariant
                self.wf(),
                self@ == (MapView { journal: self@.journal, ..old(self)@ }),
                meta@.len() == DHARA_META_SIZE,
                rounds == 0 ==> self@ == old(self)@,
                rounds > 0 ==> !(old(self)@.journal.root == DHARA_PAGE_NONE && old(self).gc_idle() && old(self)@.count >= old(self).capacity()),
            decreases DHARA_MAX_ROUNDS - rounds,
        {
            if rounds == DHARA_MAX_ROUNDS {
                return Err(DharaError::TooBad);
            }
            rounds = rounds + 1;
            let old_count = self.count;

            self.prepare_write(dst, &mut meta)?;

            match self.journal.journal_enqueue(Some(data), Some(meta.as_slice())) {
                Ok(_) => {
                    proof {
                        if root_names(self@.journal, dst) {
                            self.lemma_lookup_newest(dst);
                        }
                    }
                    return Ok(());
                },
                Err(e) => {
                    self.count = old_count;
                    self.try_recover(e)?;
                },
            }
        }
    }

    /// Copy any flash page to a logical sector.
    pub fn copy_page(&mut self, src_page: DharaPage, dst_sector: DharaSector) -> (r: Result<(), DharaError>)
        requires
            old(self).wf(),
        ensures
            final(self).wf(),
            final(self)@ == (MapView { count: final(self)@.count, journal: final(self)@.journal, ..old(self)@ }),
            r is Err ==> final(self)@.count == old(self)@.count,
            old(self)@.journal.root == DHARA_PAGE_NONE && old(self).gc_idle() && old(self)@.count >= old(self).capacity() ==> r == Err::<
                (),
                DharaError,
            >(DharaError::MapFull) && final(self)@ == old(self)@,
            r is Ok ==> final(self)@.count == old(self)@.count || final(self)@.count == old(self)@.count + 1,
            r is Ok ==> (root_names(final(self)@.journal, dst_sector) && lookup_finds_root(
                final(self)@.journal,
                &final(self).chip(),
                dst_sector,
                N,
            ) && (is_user_page(
                src_page,
                final(self)@.journal.log2_ppc,
                final(self)@.num_blocks << (final(self)@.log2_ppb as u32),
            ) ==> forall|i: usize|
                i < N ==> #[trigger] final(self).chip().page_byte(final(self)@.journal.root, i)
                    == final(self).chip().page_byte(src_page, i))) || (final(self)@.journal.log2_ppc == 1
                && final(self)@.journal.head & crate::pagemath::low_mask(final(self)@.log2_ppb as u32) == 0),
    {
        let mut meta: [u8; DHARA_META_SIZE] = [0u8; DHARA_META_SIZE];
        let mut rounds: u64 = 0;

        loop
            invariant
                self.wf(),
                self@ == (MapView { journal: self@.journal, ..old(self)@ }),
                meta@.len() == DHARA_META_SIZE,
                rounds == 0 ==> self@ == old(self)@,
                rounds > 0 ==> !(old(self)@.journal.root == DHARA_PAGE_NONE && old(self).gc_idle() && old(self)@.count >= old(self).capacity()),
            decreases DHARA_MAX_ROUNDS - rounds,
        {
            if rounds == DHARA_MAX_ROUNDS {
                return Err(DharaError::TooBad);
            }
            rounds = rounds + 1;
            let old_count = self.count;

            self.prepare_write(dst_sector, &mut meta)?;

            match self.journal.journal_copy(src_page, Some(meta.as_slice())) {
                Ok(_) => {
                    proof {
                        if root_names(self@.journal, dst_sector) {
                            self.lemma_lookup_newest(dst_sector);
                        }
                    }
                    return Ok(());
                },
                Err(e) => {
                    self.count = old_count;
                    self.try_recover(e)?;
                },
            }
        }
    }
}


/// The level of the closest cousin on the traced path `meta` of a sector:
/// the deepest level with an alt-pointer, or none when the path has no
/// alt-pointer at any level (the sector is the only one mapped).
pub fn closest_cousin(meta: &[u8]) -> (r: Option<usize>)
    requires
        meta@.len() >= DHARA_META_SIZE,
    ensures
        match r {
            Some(l) => {
                &&& l < DHARA_RADIX_DEPTH
                &&& meta_alt(meta@, l as int) != DHARA_PAGE_NONE
                &&& forall|k: int| l < k < DHARA_RADIX_DEPTH ==> #[trigger] meta_alt(meta@, k) == DHARA_PAGE_NONE
            },
            None => forall|k: int| 0 <= k < DHARA_RADIX_DEPTH ==> #[trigger] meta_alt(meta@, k) == DHARA_PAGE_NONE,
        },
{
    let mut level: usize = DHARA_RADIX_DEPTH;
    while level > 0
        invariant
            level <= DHARA_RADIX_DEPTH,
            meta@.len() >= DHARA_META_SIZE,
            forall|k: int| level <= k < DHARA_RADIX_DEPTH ==> #[trigger] meta_alt(meta@, k) == DHARA_PAGE_NONE,
        decreases level,
    {
        level = level - 1;
        if meta_get_alt(meta, level) != DHARA_PAGE_NONE {
            return Some(level);
        }
    }
    None
}

/// Rewrite the path `meta` of a deleted sector into the path of its cousin
/// at `level`, whose metadata is `alt_meta`: the cousin's id, no
/// alt-pointer at `level` (which pointed to the cousin itself), the
/// cousin's own alt-pointers below `level`, and the shared ones above it.
fn rewrite_cousin_meta(meta: &mut [u8], alt_meta: &[u8], level: usize)
    requires
        level < DHARA_RADIX_DEPTH,
        old(meta)@.len() >= DHARA_META_SIZE,
        alt_meta@.len() >= DHARA_META_SIZE,
    ensures
        final(meta)@.len() == old(meta)@.len(),
        meta_id(final(meta)@) == meta_id(alt_meta@),
        meta_alt(final(meta)@, level as int) == DHARA_PAGE_NONE,
        forall|i: int| 0 <= i < level ==> #[trigger] meta_alt(final(meta)@, i) == meta_alt(old(meta)@, i),
        forall|i: int| level < i < DHARA_RADIX_DEPTH ==> #[trigger] meta_alt(final(meta)@, i) == meta_alt(alt_meta@, i),
{
    let id = meta_get_id(alt_meta);
    proof {
        lemma_set_id(meta@, id);
    }
    meta_set_id(meta, id);
    proof {
        lemma_set_alt(meta@, level as int, DHARA_PAGE_NONE);
    }
    meta_set_alt(meta, level, DHARA_PAGE_NONE);
    let mut i = level + 1;
    while i < DHARA_RADIX_DEPTH
        invariant
            level < i <= DHARA_RADIX_DEPTH,
            meta@.len() == old(meta)@.len(),
            old(meta)@.len() >= DHARA_META_SIZE,
            alt_meta@.len() >= DHARA_META_SIZE,
            meta_id(meta@) == meta_id(alt_meta@),
            meta_alt(meta@, level as int) == DHARA_PAGE_NONE,
            forall|k: int| 0 <= k < level ==> #[trigger] meta_alt(meta@, k) == meta_alt(old(meta)@, k),
            forall|k: int| level < k < i ==> #[trigger] meta_alt(meta@, k) == meta_alt(alt_meta@, k),
        decreases DHARA_RADIX_DEPTH - i,
    {
        let v = meta_get_alt(alt_meta, i);
        proof {
            lemma_set_alt(meta@, i as int, v);
        }
        meta_set_alt(meta, i, v);
        i = i + 1;
    }
}

impl<const N: usize, T: DharaNand> DharaMap<N, T> {
    // Delete a sector: rewrite its closest cousin (a subtree of at least the
    // requested order) with a path that doesn't point to the sector's node.
    // Deleting the last sector clears the map.
    fn try_delete(&mut self, sector: DharaSector) -> (r: Result<(), DharaError>)
        requires
            old(self).wf(),
        ensures
            final(self).wf(),
            final(self)@ == (MapView { count: final(self)@.count, journal: final(self)@.journal, ..old(self)@ }),
            r is Err ==> final(self)@.count == old(self)@.count,
            r is Ok ==> final(self)@.count == old(self)@.count || final(self)@.count == 0 || final(self)@.count
                == old(self)@.count - 1,
            old(self)@.journal.root == DHARA_PAGE_NONE ==> r == Ok::<(), DharaError>(()) && final(self)@ == old(
                self,
            )@ && final(self).chip() == old(self).chip(),
    {
        let mut meta: [u8; DHARA_META_SIZE] = [0u8; DHARA_META_SIZE];
        let mut alt_meta: [u8; DHARA_META_SIZE] = [0u8; DHARA_META_SIZE];

        match self.trace_path(sector, &mut meta) {
            Err(DharaError::NotFound) => Ok(()),
            Err(e) => Err(e),
            Ok(_) => {
                // Select any of the closest cousins of this node which are
                // subtrees of at least the requested order.
                let level = match closest_cousin(&meta) {
                    Some(level) => level,
                    None => {
                        // Special case: deletion of last sector.
                        self.count = 0;
                        self.journal.journal_clear();
                        return Ok(());
                    },
                };
                let alt_page = meta_get_alt(&meta, level);
                // Rewrite the cousin with an up-to-date path which doesn't
                // point to the deleted node.
                self.journal.journal_read_meta(alt_page, &mut alt_meta)?;
                rewrite_cousin_meta(&mut meta, &alt_meta, level);

                // A sector found in an empty map can only come from a
                // corrupt chip; the count stays at zero.
                let new_count = if self.count > 0 {
                    self.count - 1
                } else {
                    0
                };
                self.journal.set_cookie(new_count);
                self.journal.journal_copy(alt_page, Some(meta.as_slice()))?;
                self.count = new_count;
                Ok(())
            },
        }
    }

    /// Delete a logical sector. You don't necessarily need to do this, but
    /// it's a useful hint if you no longer require the sector's data to be
    /// kept.
    pub fn trim(&mut self, sector: DharaSector) -> (r: Result<(), DharaError>)
        requires
            old(self).wf(),
        ensures
            final(self).wf(),
            final(self)@ == (MapView { count: final(self)@.count, journal: final(self)@.journal, ..old(self)@ }),
            r is Err ==> final(self)@.count == old(self)@.count,
            r is Ok ==> final(self)@.count == old(self)@.count || final(self)@.count == 0 || final(self)@.count
                == old(self)@.count - 1,
            old(self)@.journal.root == DHARA_PAGE_NONE && old(self).gc_idle() ==> r == Ok::<(), DharaError>(()) && final(self)@ == old(self)@
                && final(self).chip() == old(self).chip(),
    {
        let mut rounds: u64 = 0;
        loop
            invariant
                self.wf(),
                self@ == (MapView { journal: self@.journal, ..old(self)@ }),
                rounds == 0 ==> self@ == old(self)@ && self.chip() == old(self).chip(),
                rounds > 0 ==> !(old(self)@.journal.root == DHARA_PAGE_NONE && old(self).gc_idle()),
            decreases DHARA_MAX_ROUNDS - rounds,
        {
            if rounds == DHARA_MAX_ROUNDS {
                return Err(DharaError::TooBad);
            }
            rounds = rounds + 1;
            self.auto_gc().0?;
            match self.try_delete(sector) {
                Ok(_) => {
                    return Ok(());
                },
                Err(e) => {
                    self.try_recover(e)?;
                },
            }
        }
    }

    /// Copy one sector to another. If the source sector is unmapped, the
    /// destination sector is trimmed.
    pub fn copy_sector(&mut self, src: DharaSector, dst: DharaSector) -> (r: Result<(), DharaError>)
        requires
            old(self).wf(),
        ensures
            final(self).wf(),
            final(self)@ == (MapView { count: final(self)@.count, journal: final(self)@.journal, ..old(self)@ }),
            r is Err ==> final(self)@.count == old(self)@.count,
            old(self)@.journal.root == DHARA_PAGE_NONE && old(self).gc_idle() ==> r == Ok::<(), DharaError>(()) && final(self)@ == old(self)@
                && final(self).chip() == old(self).chip(),
            // A mapped source: the destination now names the newest page,
            // a copy of the source's page, which a lookup of the
            // destination finds.
            r is Ok ==> match trace_spec(old(self)@.journal, &old(self).chip(), src, N) {
                Ok(p) => {
                    ||| {
                        &&& root_names(final(self)@.journal, dst)
                        &&& (is_user_page(p, final(self)@.journal.log2_ppc, final(self)@.num_blocks << (final(self)@.log2_ppb as u32))
                            ==> forall|i: usize|
                            i < N ==> #[trigger] final(self).chip().page_byte(final(self)@.journal.root, i)
                                == final(self).chip().page_byte(p, i))
                        &&& lookup_finds_root(final(self)@.journal, &final(self).chip(), dst, N)
                    }
                    ||| final(self)@.journal.log2_ppc == 1 && final(self)@.journal.head
                        & crate::pagemath::low_mask(final(self)@.log2_ppb as u32) == 0
                },
                // A source whose lookup fails for another reason than being
                // unmapped is never copied.
                Err(e) => e == DharaError::NotFound,
            },
    {
        match self.find(src) {
            Err(DharaError::NotFound) => self.trim(dst),
            Err(e) => Err(e),
            Ok(page) => self.copy_page(page, dst),
        }
    }

    /// Synchronize the map. Once this returns successfully, all changes to
    /// date are persistent and durable. Conversely, there is no guarantee
    /// that unsynchronized changes will be persistent.
    pub fn sync(&mut self) -> (r: Result<(), DharaError>)
        requires
            old(self).wf(),
        ensures
            final(self).wf(),
            same_map(final(self)@, old(self)@),
            r is Ok ==> !final(self)@.journal.is_dirty(),
            !old(self)@.journal.is_dirty() ==> r == Ok::<(), DharaError>(()) && final(self)@ == old(self)@
                && final(self).chip() == old(self).chip(),
    {
        let mut rounds: u64 = 0;
        while !self.journal.journal_is_clean()
            invariant
                self.wf(),
                same_map(self@, old(self)@),
                old(self)@.journal.is_dirty() || (self@ == old(self)@ && self.chip() == old(self).chip()),
            decreases DHARA_MAX_ROUNDS - rounds,
        {
            if rounds == DHARA_MAX_ROUNDS {
                return Err(DharaError::TooBad);
            }
            rounds = rounds + 1;
            let p = self.journal.journal_peek();
            let ret: Result<(), DharaError>;

            if p == DHARA_PAGE_NONE {
                ret = self.pad_queue();
            } else {
                ret = self.raw_gc(p);
                if ret.is_ok() {
                    self.journal.journal_dequeue();
                }
            }
            match ret {
                Ok(_) => {},
                Err(e) => {
                    self.try_recover(e)?;
                },
            }
        }
        Ok(())
    }
}

} // verus!
