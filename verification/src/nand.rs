//! The interface to a NAND flash chip that the journal is built on.
use vstd::prelude::*;
use crate::DharaError;

verus! {

/// Each page in a NAND device is indexed, starting at 0. There must be a
/// power-of-two number of pages in an erase block, so a page number is the
/// concatenation (in binary) of a block number and the number of a page
/// within that block.
pub type DharaPage = u32;

/// Blocks are also indexed, starting at 0.
pub type DharaBlock = u32;

/// Each NAND chip is represented by a structure that implements this trait.
///
/// The chip's geometry (page size, pages per block, number of blocks) is
/// fixed: every operation leaves it as it was. The chip is modelled by the
/// bytes stored in its pages (`page_byte`) and the set of blocks marked bad
/// (`marked_bad`): reads and queries change neither; marking a block bad
/// changes no other block's mark; erasing, programming or copying changes
/// only the pages written, and on success leaves in them what was written.
/// Whether an operation succeeds is the chip's own affair.
pub trait DharaNand {
    /// Byte `i` of page `page`, as stored on the chip.
    spec fn page_byte(&self, page: DharaPage, i: usize) -> u8;

    /// Is block `blk` marked bad?
    spec fn marked_bad(&self, blk: DharaBlock) -> bool;

    /// Base-2 logarithm of the page size in bytes.
    spec fn log2_page_size(&self) -> u8;

    /// Base-2 logarithm of the number of pages in an erase block.
    spec fn log2_ppb(&self) -> u8;

    /// Total number of erase blocks.
    spec fn num_blocks(&self) -> u32;

    /// Get the base-2 logarithm of the page size. If your device supports
    /// partial programming, you may want to subdivide the actual pages into
    /// separate ECC-correctable regions and present those as pages.
    fn get_log2_page_size(&self) -> (r: u8)
        ensures
            r == self.log2_page_size(),
    ;

    /// Get the base-2 logarithm of the number of pages within an erase block.
    fn get_log2_ppb(&self) -> (r: u8)
        ensures
            r == self.log2_ppb(),
    ;

    /// Get the total number of erase blocks.
    fn get_num_blocks(&self) -> (r: u32)
        ensures
            r == self.num_blocks(),
    ;

    /// Is the given block bad?
    fn is_bad(&mut self, blk: DharaBlock) -> (r: bool)
        ensures
            final(self).log2_page_size() == old(self).log2_page_size(),
            final(self).log2_ppb() == old(self).log2_ppb(),
            final(self).num_blocks() == old(self).num_blocks(),
            r == old(self).marked_bad(blk),
            forall|p: DharaPage, i: usize| #[trigger] final(self).page_byte(p, i) == old(self).page_byte(p, i),
            forall|b: DharaBlock| #[trigger] final(self).marked_bad(b) == old(self).marked_bad(b),
    ;

    /// Mark the given block as bad (or attempt to: whether the mark takes
    /// effect is not promised). No return value is required, because there's
    /// nothing that can be done in response.
    fn mark_bad(&mut self, blk: DharaBlock)
        ensures
            final(self).log2_page_size() == old(self).log2_page_size(),
            final(self).log2_ppb() == old(self).log2_ppb(),
            final(self).num_blocks() == old(self).num_blocks(),
            forall|b: DharaBlock| b != blk ==> #[trigger] final(self).marked_bad(b) == old(self).marked_bad(b),
            forall|p: DharaPage, i: usize| #[trigger] final(self).page_byte(p, i) == old(self).page_byte(p, i),
    ;

    /// Erase the given block. If the erase operation fails, return
    /// `Err(DharaError::BadBlock)`; no other error is returned.
    fn erase(&mut self, blk: DharaBlock) -> (r: Result<(), DharaError>)
        ensures
            final(self).log2_page_size() == old(self).log2_page_size(),
            final(self).log2_ppb() == old(self).log2_ppb(),
            final(self).num_blocks() == old(self).num_blocks(),
            forall|b: DharaBlock| #[trigger] final(self).marked_bad(b) == old(self).marked_bad(b),
            forall|p: DharaPage, i: usize|
                p >> (old(self).log2_ppb() as u32) != blk ==> #[trigger] final(self).page_byte(p, i) == old(
                    self,
                ).page_byte(p, i),
            r is Ok ==> forall|p: DharaPage, i: usize|
                p >> (old(self).log2_ppb() as u32) == blk ==> #[trigger] final(self).page_byte(p, i) == 0xffu8,
            r is Err ==> r == Err::<(), DharaError>(DharaError::BadBlock),
    ;

    /// Program the given page. If the operation fails, return
    /// `Err(DharaError::BadBlock)`; no other error is returned. Pages are programmed sequentially within
    /// a block, and are not reprogrammed.
    fn prog(&mut self, page: DharaPage, data: &[u8]) -> (r: Result<(), DharaError>)
        ensures
            final(self).log2_page_size() == old(self).log2_page_size(),
            final(self).log2_ppb() == old(self).log2_ppb(),
            final(self).num_blocks() == old(self).num_blocks(),
            forall|b: DharaBlock| #[trigger] final(self).marked_bad(b) == old(self).marked_bad(b),
            forall|p: DharaPage, i: usize| p != page ==> #[trigger] final(self).page_byte(p, i) == old(self).page_byte(p, i),
            r is Ok ==> forall|i: int| 0 <= i < data@.len() ==> #[trigger] data@[i] == final(self).page_byte(page, i as usize),
            r is Err ==> r == Err::<(), DharaError>(DharaError::BadBlock),
    ;

    /// Check that the given page is erased: a page reported free reads as
    /// all 0xff.
    fn is_free(&mut self, page: DharaPage) -> (r: bool)
        ensures
            final(self).log2_page_size() == old(self).log2_page_size(),
            final(self).log2_ppb() == old(self).log2_ppb(),
            final(self).num_blocks() == old(self).num_blocks(),
            forall|p: DharaPage, i: usize| #[trigger] final(self).page_byte(p, i) == old(self).page_byte(p, i),
            forall|b: DharaBlock| #[trigger] final(self).marked_bad(b) == old(self).marked_bad(b),
            r ==> forall|i: usize|
                i < (1usize << (old(self).log2_page_size() as usize)) ==> #[trigger] old(self).page_byte(page, i)
                    == 0xffu8,
    ;

    /// Read a portion of a page into `data`. ECC must be handled by the NAND
    /// implementation; an uncorrectable ECC error returns
    /// `Err(DharaError::ECC)`. A failed read reports an error of the chip,
    /// never `Err(DharaError::NotFound)`, which stands for an unmapped
    /// sector. The length of `data` is not changed.
    fn read(&mut self, page: DharaPage, offset: usize, length: usize, data: &mut [u8]) -> (r: Result<(), DharaError>)
        ensures
            final(self).log2_page_size() == old(self).log2_page_size(),
            final(self).log2_ppb() == old(self).log2_ppb(),
            final(self).num_blocks() == old(self).num_blocks(),
            forall|p: DharaPage, i: usize| #[trigger] final(self).page_byte(p, i) == old(self).page_byte(p, i),
            forall|b: DharaBlock| #[trigger] final(self).marked_bad(b) == old(self).marked_bad(b),
            r is Ok && old(data)@.len() >= length ==> forall|i: int|
                0 <= i < length ==> #[trigger] final(data)@[i] == old(self).page_byte(page, (offset + i) as usize),
            final(data)@.len() == old(data)@.len(),
            r != Err::<(), DharaError>(DharaError::NotFound),
    ;

    /// Read a page from one location and reprogram it in another location.
    /// This might be done using the chip's internal buffers, but it must use
    /// ECC.
    fn copy(&mut self, src: DharaPage, dst: DharaPage) -> (r: Result<(), DharaError>)
        ensures
            final(self).log2_page_size() == old(self).log2_page_size(),
            final(self).log2_ppb() == old(self).log2_ppb(),
            final(self).num_blocks() == old(self).num_blocks(),
            forall|b: DharaBlock| #[trigger] final(self).marked_bad(b) == old(self).marked_bad(b),
            forall|p: DharaPage, i: usize| p != dst ==> #[trigger] final(self).page_byte(p, i) == old(self).page_byte(p, i),
            r is Ok ==> forall|i: usize|
                i < (1usize << (old(self).log2_page_size() as usize)) ==> #[trigger] final(self).page_byte(dst, i)
                    == old(self).page_byte(src, i),
    ;
}

/// The two chips store the same bytes in every page.
pub open spec fn same_pages<T: DharaNand + ?Sized>(a: &T, b: &T) -> bool {
    forall|p: DharaPage, i: usize| #[trigger] a.page_byte(p, i) == b.page_byte(p, i)
}

/// The two chips mark the same blocks bad.
pub open spec fn same_marks<T: DharaNand + ?Sized>(a: &T, b: &T) -> bool {
    forall|blk: DharaBlock| #[trigger] a.marked_bad(blk) == b.marked_bad(blk)
}

/// The two chips store the same bytes in every page but `page`.
pub open spec fn only_page_changed<T: DharaNand + ?Sized>(a: &T, b: &T, page: DharaPage) -> bool {
    forall|p: DharaPage, i: usize| p != page ==> #[trigger] a.page_byte(p, i) == b.page_byte(p, i)
}

/// Page `page` of the chip starts with the bytes `data`.
pub open spec fn page_holds<T: DharaNand + ?Sized>(n: &T, page: DharaPage, data: Seq<u8>) -> bool {
    forall|i: int| 0 <= i < data.len() ==> #[trigger] data[i] == n.page_byte(page, i as usize)
}

} // verus!
