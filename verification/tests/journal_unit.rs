use dhara_rs::journal::{align_eq, choose_ppc, is_aligned, wrap, DharaJournal, DHARA_META_SIZE};
use dhara_rs::nand::{DharaBlock, DharaNand, DharaPage};
use dhara_rs::DharaError;

/// A simulated 64 kiB chip with no bad blocks: 16 blocks of 8 pages of 512
/// bytes, holding 0x55 until programmed.
struct SimpleNand {
    pages: Vec<u8>,
    bad: Vec<bool>,
}

impl SimpleNand {
    fn new() -> Self {
        SimpleNand { pages: vec![0x55u8; 16 * 8 * 512], bad: vec![false; 16] }
    }
}

impl DharaNand for SimpleNand {
    fn page_byte(&self, page: u32, i: usize) -> u8 {
        let idx = (page as usize) * 512 + i;
        if i < 512 && idx < self.pages.len() { self.pages[idx] } else { 0x55 }
    }
    fn marked_bad(&self, blk: u32) -> bool {(blk as usize) < 16 && self.bad[blk as usize]}
    fn log2_page_size(&self) -> u8 {9}
    fn log2_ppb(&self) -> u8 {3}
    fn num_blocks(&self) -> u32 {16}
    fn get_log2_page_size(&self) -> u8 {9} // 512 bytes/page, enough for 3 metadata blocks
    fn get_log2_ppb(&self) -> u8 {3} // 8 pages per erase block
    fn get_num_blocks(&self) -> u32 {16} // 16 erase blocks, or 128 pages total
    fn is_bad(&mut self, blk: DharaBlock) -> bool {self.bad[blk as usize]}
    fn is_free(&mut self, page: DharaPage) -> bool {
        let start = (page as usize) * 512;
        self.pages[start..start + 512].iter().all(|&b| b == 0xff)
    }
    fn mark_bad(&mut self, blk: DharaBlock) -> () {self.bad[blk as usize] = true;}
    fn read(&mut self, page: u32, offset: usize, length: usize, data: &mut[u8]) -> Result<(), DharaError> {
        let start = (page as usize) * 512 + offset;
        data[..length].copy_from_slice(&self.pages[start..start + length]);
        Ok(())
    }
    fn erase(&mut self, blk: DharaBlock) -> Result<(),DharaError> {
        let start = (blk as usize) * 8 * 512;
        self.pages[start..start + 8 * 512].fill(0xff);
        Ok(())
    }
    fn copy(&mut self, src: DharaPage, dst: DharaPage) -> Result<(),DharaError> {
        let s = (src as usize) * 512;
        let d = (dst as usize) * 512;
        let page: Vec<u8> = self.pages[s..s + 512].to_vec();
        self.pages[d..d + 512].copy_from_slice(&page);
        Ok(())
    }
    fn prog(&mut self, page: DharaPage, data: &[u8]) -> Result<(),DharaError> {
        let start = (page as usize) * 512;
        let n = data.len().min(512);
        self.pages[start..start + n].copy_from_slice(&data[..n]);
        Ok(())
    }
}

fn make_journal() -> DharaJournal::<512, SimpleNand> {
    let nand: SimpleNand = SimpleNand::new();
    let buf: [u8; 512] = [0u8; 512]; // We start it with 0, but it gets changed to 0xFF when initialized.
    DharaJournal::<512, SimpleNand>::new(nand, buf)
}

#[test]
fn test_header() -> () {
    // A bunch of trivial tests to make sure header get/set work correctly.
    let mut j = make_journal();

    // Magic values
    assert!(!j.hdr_has_magic());
    j.hdr_put_magic();
    assert!(j.hdr_has_magic());

    // Epoch
    assert_eq!(j.hdr_get_epoch(), 0xFF); // Whole buffer set to 0xFF by reset_journal().
    j.hdr_set_epoch(1);
    assert_eq!(j.hdr_get_epoch(), 1u8);

    // Tail
    assert_eq!(j.hdr_get_tail(), 0xFFFFFFFF);
    j.hdr_set_tail(0x0056AB1F);
    assert_eq!(j.hdr_get_tail(), 0x0056AB1F);

    // bb_current
    assert_eq!(j.hdr_get_bb_current(), 0xFFFFFFFF);
    j.hdr_set_bb_current(0x3578AF41);
    assert_eq!(j.hdr_get_bb_current(), 0x3578AF41);

    // bb_last
    assert_eq!(j.hdr_get_bb_last(), 0xFFFFFFFF);
    j.hdr_set_bb_last(0xAA558920);
    assert_eq!(j.hdr_get_bb_last(), 0xAA558920);

    // hdr_usr_offset
    assert_eq!(j.hdr_user_offset(2), 16+4+2*132);
}

#[test]
fn page_geometry() -> () {
    // Tests unrelated to a journal.
    assert!(is_aligned(128, 6));
    assert!(!is_aligned(129, 6));
    assert!(align_eq(17, 18, 2)); // Same group of 2^2 = 4 pages.
    assert!(!align_eq(27, 18, 2));// Not in the same 4 pages.
    assert_eq!(wrap(7, 3), 4);
    assert_eq!(wrap(3, 7), 3);
    assert_eq!(choose_ppc(11, 6), 4); // Values for stationary logger.
    assert_eq!(choose_ppc(9, 3), 2); // Values for SimpleNand.

    // Tests of geometry methods.
    let j = make_journal();
    assert_eq!(j.next_block(0), 1);
    assert_eq!(j.next_block(15), 0); // 15 blocks.
    assert_eq!(j.log2_ppc, 2);
    assert_eq!(j.next_upage(0), 1);
    assert_eq!(j.next_upage(14), 16); // 15 user pages, then journal, so next is #16.
}

#[test]
fn it_works() {
}

#[test]
fn choose_ppc_values() {
    // A 256-byte page holds one block of metadata beside the header.
    assert_eq!(choose_ppc(8, 5), 1);
    // 15 blocks of metadata fit in 4096 - 20 bytes, 31 do not.
    assert_eq!(choose_ppc(12, 10), 4);
    // The group size is capped by the block size.
    assert_eq!(choose_ppc(12, 2), 2);
    // With no room to choose, the period is one.
    assert_eq!(choose_ppc(9, 0), 1);
}

#[test]
fn fresh_journal_state() {
    let j = make_journal();
    assert_eq!(j.get_head(), 0);
    assert_eq!(j.get_tail(), 0);
    assert_eq!(j.get_tail_sync(), 0);
    assert_eq!(j.journal_root(), 0xffffffff);
    assert_eq!(j.get_root(), 0xffffffff);
    assert_eq!(j.get_bb_current(), 0);
    assert_eq!(j.get_bb_last(), 0); // 16 >> 6
    assert!(j.journal_is_clean());
    assert!(!j.journal_in_recovery());
    assert_eq!(j.get_log2_ppb(), 3);
    assert_eq!(j.get_num_blocks(), 16);
    // A blank buffer holds the cookie 0xffffffff.
    assert_eq!(j.get_cookie(), 0xffffffff);
}

#[test]
fn journal_capacity_and_size() {
    let j = make_journal();
    // 15 good blocks, 2 checkpoints per block, 3 user pages per checkpoint.
    assert_eq!(j.journal_capacity(), 90);
    assert_eq!(j.journal_size(), 0);
}

#[test]
fn cookie_round_trip() {
    let mut j = make_journal();
    j.set_cookie(0xdeadbeef);
    assert_eq!(j.get_cookie(), 0xdeadbeef);
    j.set_cookie(7);
    assert_eq!(j.get_cookie(), 7);
    // The header is untouched.
    assert_eq!(j.hdr_get_bb_last(), 0xffffffff);
}

#[test]
fn clear_and_dirty() {
    let mut j = make_journal();
    j.journal_clear();
    assert_eq!(j.journal_root(), 0xffffffff);
    assert_eq!(j.get_tail(), j.get_head());
    assert!(!j.journal_is_clean());
    let mut k = make_journal();
    k.journal_mark_dirty();
    assert!(!k.journal_is_clean());
}

#[test]
fn empty_journal_queue_ops() {
    let mut j = make_journal();
    assert_eq!(j.journal_peek(), 0xffffffff);
    j.journal_dequeue();
    assert_eq!(j.get_tail(), 0);
    assert_eq!(j.get_head(), 0);
    assert_eq!(j.journal_next_recoverable(), 0xffffffff);
}

#[test]
fn enqueue_then_read_back_buffered_meta() {
    let mut j = make_journal();
    let data = [0xa5u8; 512];
    let mut meta = [0u8; 132];
    for i in 0..132 {
        meta[i] = i as u8;
    }
    j.journal_enqueue(Some(&data), Some(&meta)).expect("enqueue");
    assert_eq!(j.journal_root(), 0);
    assert_eq!(j.get_head(), 1);
    assert_eq!(j.journal_size(), 1);
    let mut back = [0u8; 132];
    j.journal_read_meta(j.journal_root(), &mut back).expect("read meta");
    assert_eq!(back, meta);

    // Blank metadata for a page enqueued without any.
    j.journal_enqueue(Some(&data), None).expect("enqueue");
    assert_eq!(j.journal_root(), 1);
    j.journal_read_meta(1, &mut back).expect("read meta");
    assert_eq!(back, [0xffu8; 132]);

    // The checkpoint page of the group being filled has no metadata slot.
    assert_eq!(j.journal_read_meta(3, &mut back), Err(DharaError::CorruptMap));
}

#[test]
fn enqueue_completes_checkpoint() {
    let mut j = make_journal();
    let data = [0u8; 512];
    let meta = [0u8; 132];
    for _ in 0..3 {
        j.journal_enqueue(Some(&data), Some(&meta)).expect("enqueue");
    }
    // Three user pages fill the group of four; the fourth holds the
    // checkpoint, so the head moves to the next group.
    assert_eq!(j.journal_root(), 2);
    assert_eq!(j.get_head(), 4);
    assert!(j.journal_is_clean());
    assert_eq!(j.get_tail_sync(), 0);
    assert!(j.hdr_has_magic());
    assert_eq!(j.journal_size(), 3);
}

#[test]
fn dequeue_advances_tail() {
    let mut j = make_journal();
    let data = [0u8; 512];
    let meta = [0u8; 132];
    for _ in 0..3 {
        j.journal_enqueue(Some(&data), Some(&meta)).expect("enqueue");
    }
    assert_eq!(j.journal_peek(), 0);
    j.journal_dequeue();
    assert_eq!(j.get_tail(), 1);
    // The journal is clean, so the space is reusable at once.
    assert_eq!(j.get_tail_sync(), 1);
    j.journal_dequeue();
    j.journal_dequeue();
    // Past the checkpoint page, on to the next group; the root is gone.
    assert_eq!(j.get_tail(), 4);
    assert_eq!(j.journal_root(), 0xffffffff);
}

#[test]
fn resume_blank_chip_fails() {
    let mut j = make_journal();
    let data = [0u8; 512];
    j.journal_enqueue(Some(&data), None).expect("enqueue");
    // The chip reads back 0x55 everywhere: no checkpoint is found.
    assert_eq!(j.journal_resume(), Err(DharaError::TooBad));
    assert_eq!(j.get_head(), 0);
    assert_eq!(j.journal_root(), 0xffffffff);
    assert!(j.journal_is_clean());
}

#[test]
fn next_upage_wraps() {
    let j = make_journal();
    // Last user page of the chip wraps to page 0.
    assert_eq!(j.next_upage(126), 0);
    // Pages past the end lead to page 0.
    assert_eq!(j.next_upage(200), 0);
    // A checkpoint page is followed by the next group's first page.
    assert_eq!(j.next_upage(3), 4);
}

/// A blank chip of any geometry, on which every program fails (only its
/// geometry is used).
struct BlankNand {
    log2_page_size: u8,
    log2_ppb: u8,
    num_blocks: u32,
}

impl DharaNand for BlankNand {
    fn page_byte(&self, _page: u32, _i: usize) -> u8 {0xff}
    fn marked_bad(&self, _blk: u32) -> bool {false}
    fn log2_page_size(&self) -> u8 {self.log2_page_size}
    fn log2_ppb(&self) -> u8 {self.log2_ppb}
    fn num_blocks(&self) -> u32 {self.num_blocks}
    fn get_log2_page_size(&self) -> u8 {self.log2_page_size}
    fn get_log2_ppb(&self) -> u8 {self.log2_ppb}
    fn get_num_blocks(&self) -> u32 {self.num_blocks}
    fn is_bad(&mut self, _blk: DharaBlock) -> bool {false}
    fn is_free(&mut self, _page: DharaPage) -> bool {true}
    fn mark_bad(&mut self, _blk: DharaBlock) -> () {()}
    fn read(&mut self, _page: u32, _offset: usize, _length: usize, data: &mut[u8]) -> Result<(), DharaError> {
        data.fill(0xff);
        Ok(())
    }
    fn erase(&mut self, _blk: DharaBlock) -> Result<(),DharaError> {Ok(())}
    fn copy(&mut self, _src: DharaPage, _dst: DharaPage) -> Result<(),DharaError> {Ok(())}
    fn prog(&mut self, _page: DharaPage, _data: &[u8]) -> Result<(),DharaError> {Err(DharaError::BadBlock)}
}

#[test]
fn create_journal() {
    // 2 kiB pages, 4 pages per block, 6 blocks. The checkpoint period is
    // chosen by the journal: the largest that fits a page and a block.
    let nand = BlankNand { log2_page_size: 11, log2_ppb: 2, num_blocks: 6 };
    let j: DharaJournal<2048, BlankNand> = DharaJournal::new(nand, [0u8; 2048]);
    assert_eq!(j.get_log2_ppc(), 2);
    assert_eq!(j.get_log2_ppb(), 2);
    assert_eq!(j.get_num_blocks(), 6);
    assert_eq!(j.journal_capacity(), (6 - 1) * 3);
}

#[test]
fn enqueue_blank_page_mid_block() {
    let mut j = make_journal();
    // The first enqueue erases the first block; the next one is mid-block
    // and only buffers its (blank) metadata.
    j.journal_enqueue(None, None).expect("enqueue");
    let head = j.get_head();
    assert_eq!(head, 1);
    j.journal_enqueue(None, None).expect("enqueue");
    assert_eq!(j.get_root(), head);
    assert_eq!(j.get_head(), head + 1);
}

#[test]
fn peek_skips_bad_blocks() {
    let mut j = make_journal();
    for _ in 0..14 {
        j.journal_enqueue(None, None).expect("enqueue");
    }
    assert_eq!(j.get_tail(), 0);
    // The tail's block and the next are marked bad: the tail comes to rest
    // at the start of the first good block.
    j.nand.mark_bad(0);
    j.nand.mark_bad(1);
    assert_eq!(j.journal_peek(), 16);
    assert_eq!(j.get_tail(), 16);
}

#[test]
fn metadata_read_back_after_checkpoint() {
    let mut j = make_journal();
    let data = [0x42u8; 512];
    let mut meta = [0u8; DHARA_META_SIZE];
    for k in 0..3u8 {
        meta.fill(k + 1);
        j.journal_enqueue(Some(&data), Some(&meta)).expect("enqueue");
    }
    // The third user page completed the checkpoint group: the journal is
    // clean and the metadata comes back from the chip.
    assert!(j.journal_is_clean());
    let root = j.journal_root();
    assert_eq!(root, 2);
    assert_eq!(j.get_head(), 4);
    let mut buf = [0u8; DHARA_META_SIZE];
    j.journal_read_meta(root, &mut buf).expect("read meta");
    assert_eq!(buf, meta);
    let mut page = [0u8; 512];
    j.nand.read(root, 0, 512, &mut page).expect("read");
    assert_eq!(page, data);
}

#[test]
fn cookie_kept_and_restored_from_checkpoint() {
    let mut j = make_journal();
    j.set_cookie(0x1234_5678);
    let data = [0x42u8; 512];
    let meta = [7u8; DHARA_META_SIZE];
    for _ in 0..3 {
        j.journal_enqueue(Some(&data), Some(&meta)).expect("enqueue");
    }
    assert_eq!(j.get_cookie(), 0x1234_5678);
    assert!(j.journal_is_clean());
    let (root, tail) = (j.journal_root(), j.get_tail());
    // Forget everything but the chip, and resume from its checkpoint.
    j.journal_clear();
    j.set_cookie(0);
    assert_eq!(j.journal_resume(), Ok(()));
    assert_eq!(j.journal_root(), root);
    assert_eq!(j.get_tail(), tail);
    assert_eq!(j.get_cookie(), 0x1234_5678);
    assert!(j.journal_is_clean());
}
