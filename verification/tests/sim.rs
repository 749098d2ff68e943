// Tests against a simulated NAND chip with bad blocks, failing blocks and
// blocks that fail after a number of operations ("timebombs").
use dhara_rs::bytes::{dhara_r32, dhara_w32};
use dhara_rs::journal::{DharaJournal, DHARA_MAX_RETRIES, DHARA_META_SIZE, DHARA_PAGE_NONE};
use dhara_rs::nand::{DharaBlock, DharaNand, DharaPage};
use dhara_rs::{meta_get_alt, meta_get_id, DharaError, DharaMap, DharaSector};
use rand::rngs::SmallRng;
use rand::{Rng, RngCore, SeedableRng};

// ------------------------------------------------------------------------
// Pseudo-random data and choices.

pub fn seq_gen(seed: u64, buf: &mut [u8]) -> () {
    let mut rng = SmallRng::seed_from_u64(seed);
    rng.fill_bytes(buf);
}

pub fn seq_assert(seed: u64, buf: &[u8]) -> () {
    let mut rng = SmallRng::seed_from_u64(seed);
    let mut expected = vec![0u8; buf.len()];
    rng.fill_bytes(&mut expected[..]);
    for (&element, expect) in buf.iter().zip(expected) {
        assert_eq!(element, expect, "seq_assert: mismatch in sequences.");
    }
}

// ------------------------------------------------------------------------
// The simulated chip.

pub const LOG2_PAGE_SIZE: u8 = 9;
pub const LOG2_PAGES_PER_BLOCK: u8 = 3;
const LOG2_BLOCK_SIZE: u8 = LOG2_PAGE_SIZE + LOG2_PAGES_PER_BLOCK;
pub const NUM_BLOCKS: usize = 113;

pub const PAGE_SIZE: usize = 1 << LOG2_PAGE_SIZE; // 512 bytes, enough for 3 user metadata.
const PAGES_PER_BLOCK: usize = 1 << LOG2_PAGES_PER_BLOCK; // 8 pages/block
const BLOCK_SIZE: usize = 1 << LOG2_BLOCK_SIZE; // 4096 bytes
const MEM_SIZE: usize = NUM_BLOCKS * BLOCK_SIZE; // 4096 * 113 = 462_848 bytes

const BLOCK_BAD_MARK: u8 = 0x01;
const BLOCK_FAILED: u8 = 0x02;
const BLOCK_BOTH: u8 = BLOCK_FAILED | BLOCK_BAD_MARK;

#[derive(Default)]
struct SimStats {
    frozen: bool,
    is_bad: usize,
    mark_bad: usize,
    erase: usize,
    erase_fail: usize,
    is_erased: usize,
    prog: usize,
    prog_fail: usize,
    read: usize,
    read_bytes: usize,
}

#[derive(Clone, Copy)]
struct BlockStatus {
    flags: u8,
    // Index of the next unprogrammed page. 0 means a fully erased block,
    // and PAGES_PER_BLOCK is a fully programmed block.
    next_page: usize,
    // Timebomb counter: if non-zero, this is the number of operations until
    // permanent failure.
    timebomb: usize,
}

pub struct SimNand {
    pages: Vec<u8>,
    blocks: [BlockStatus; NUM_BLOCKS],
    stats: SimStats,
    rng: SmallRng,
}

impl SimNand {
    pub fn new(seed: u64) -> Self {
        let block = BlockStatus { flags: 0, next_page: PAGES_PER_BLOCK, timebomb: 0 };
        SimNand {
            pages: vec![0u8; MEM_SIZE],
            blocks: [block; NUM_BLOCKS],
            stats: Default::default(),
            rng: SmallRng::seed_from_u64(seed),
        }
    }

    pub fn sim_reset(&mut self) -> () {
        self.stats = Default::default();
        self.pages.fill(0x55);
        for block in self.blocks.iter_mut() {
            block.flags = 0;
            block.next_page = PAGES_PER_BLOCK;
            block.timebomb = 0;
        }
    }

    fn timebomb_tick(&mut self, blkno: usize) -> () {
        if self.blocks[blkno].timebomb != 0 {
            self.blocks[blkno].timebomb -= 1;
            if self.blocks[blkno].timebomb == 0 {
                self.blocks[blkno].flags |= BLOCK_FAILED;
            }
        }
    }

    fn rep_status(&self, blkno: usize) -> char {
        match self.blocks[blkno].flags {
            BLOCK_FAILED => 'b',
            BLOCK_BAD_MARK => '?',
            BLOCK_BOTH => 'B',
            _ => if self.blocks[blkno].next_page != 0 { ':' } else { '.' },
        }
    }

    pub fn sim_set_failed(&mut self, blkno: usize) -> () {
        self.blocks[blkno].flags |= BLOCK_FAILED;
    }

    pub fn sim_set_timebomb(&mut self, blkno: usize, ttl: usize) -> () {
        self.blocks[blkno].timebomb = ttl;
    }

    pub fn sim_inject_bad(&mut self, count: usize) -> () {
        for _i in 0..count {
            let blkno: usize = self.rng.gen::<usize>() % NUM_BLOCKS;
            self.blocks[blkno].flags |= BLOCK_BOTH;
        }
    }

    pub fn sim_inject_failed(&mut self, count: usize) -> () {
        for _i in 0..count {
            let blkno: usize = self.rng.gen::<usize>() % NUM_BLOCKS;
            self.sim_set_failed(blkno);
        }
    }

    pub fn sim_inject_timebombs(&mut self, count: usize, max_ttl: usize) -> () {
        for _i in 0..count {
            let blkno: usize = self.rng.gen::<usize>() % NUM_BLOCKS;
            let ttl: usize = self.rng.gen::<usize>() % max_ttl + 1;
            self.sim_set_timebomb(blkno, ttl);
        }
    }

    pub fn sim_dump(&self) -> () {
        println!("NAND operation counts:");
        println!("    is_bad:         {}", self.stats.is_bad);
        println!("    mark_bad        {}", self.stats.mark_bad);
        println!("    erase:          {}", self.stats.erase);
        println!("    erase failures: {}", self.stats.erase_fail);
        println!("    is_erased:      {}", self.stats.is_erased);
        println!("    prog:           {}", self.stats.prog);
        println!("    prog failures:  {}", self.stats.prog_fail);
        println!("    read:           {}", self.stats.read);
        println!("    read (bytes):   {}", self.stats.read_bytes);
        println!("");
        println!("Block status:");
        let mut i: usize = 0;
        while i < NUM_BLOCKS {
            let mut j: usize = NUM_BLOCKS - i;
            if j > 64 {
                j = 64;
            }
            let mut line = String::from("    ");
            for k in 0..j {
                line.push(self.rep_status(i + k));
            }
            println!("{}", line);
            i += j;
        }
    }

    pub fn freeze(&mut self) -> () {
        self.stats.frozen = true;
    }

    pub fn thaw(&mut self) -> () {
        self.stats.frozen = false;
    }
}

impl DharaNand for SimNand {
    fn page_byte(&self, page: u32, i: usize) -> u8 {
        let idx = ((page as usize) << LOG2_PAGE_SIZE) + i;
        if i < PAGE_SIZE && idx < MEM_SIZE { self.pages[idx] } else { 0 }
    }
    fn marked_bad(&self, blk: u32) -> bool {
        (blk as usize) < NUM_BLOCKS && self.blocks[blk as usize].flags & BLOCK_BAD_MARK != 0
    }
    fn log2_page_size(&self) -> u8 {LOG2_PAGE_SIZE}
    fn log2_ppb(&self) -> u8 {LOG2_PAGES_PER_BLOCK}
    fn num_blocks(&self) -> u32 {NUM_BLOCKS as u32}

    fn get_log2_page_size(&self) -> u8 {LOG2_PAGE_SIZE}
    fn get_log2_ppb(&self) -> u8 {LOG2_PAGES_PER_BLOCK}
    fn get_num_blocks(&self) -> u32 {NUM_BLOCKS as u32}

    fn is_bad(&mut self, blk: DharaBlock) -> bool {
        let block = blk as usize;
        assert!(block < NUM_BLOCKS, "sim: is_bad called on invalid block {blk}");
        if !self.stats.frozen {
            self.stats.is_bad += 1;
        }
        self.blocks[block].flags & BLOCK_BAD_MARK != 0
    }

    fn mark_bad(&mut self, blk: DharaBlock) -> () {
        let block = blk as usize;
        assert!(block < NUM_BLOCKS, "sim: mark_bad called on invalid block {blk}");
        if !self.stats.frozen {
            self.stats.mark_bad += 1;
        }
        self.blocks[block].flags |= BLOCK_BAD_MARK;
    }

    fn is_free(&mut self, page: DharaPage) -> bool {
        let blk: usize = (page >> LOG2_PAGES_PER_BLOCK) as usize;
        let pageno: u32 = page & ((1 << LOG2_PAGES_PER_BLOCK) - 1);
        assert!(blk < NUM_BLOCKS, "sim: is_free called on invalid block {blk}");
        if !self.stats.frozen {
            self.stats.is_erased += 1;
        }
        // A page is free if nothing was programmed there since the last
        // erase, and that erase succeeded (a failed erase leaves garbage).
        let start: usize = (page as usize) << LOG2_PAGE_SIZE;
        self.blocks[blk].next_page <= pageno as usize
            && self.pages[start..start + PAGE_SIZE].iter().all(|&b| b == 0xff)
    }

    fn erase(&mut self, blk: DharaBlock) -> Result<(), DharaError> {
        let block = blk as usize;
        assert!(block < NUM_BLOCKS, "sim: erase called on invalid block {blk}");
        assert!(self.blocks[block].flags & BLOCK_BAD_MARK == 0,
            "sim: erase called on block which is marked bad: {block}");
        if !self.stats.frozen {
            self.stats.erase += 1;
        }
        // Remove the PAGES_PER_BLOCK indication of full.
        self.blocks[block].next_page = 0;
        self.timebomb_tick(block);
        let blk_idx: usize = block << LOG2_BLOCK_SIZE;
        if self.blocks[block].flags & BLOCK_FAILED != 0 {
            if !self.stats.frozen {
                self.stats.erase_fail += 1;
            }
            seq_gen((blk * 57 + 29) as u64, &mut self.pages[blk_idx..(blk_idx + BLOCK_SIZE)]);
            return Err(DharaError::BadBlock);
        }
        self.pages[blk_idx..(blk_idx + BLOCK_SIZE)].fill(0xFF);
        Ok(())
    }

    fn read(&mut self, page: u32, offset: usize, length: usize, data: &mut [u8]) -> Result<(), DharaError> {
        let blkno: usize = (page >> LOG2_PAGES_PER_BLOCK) as usize;
        let page_idx: usize = (page as usize) << LOG2_PAGE_SIZE;
        assert!(blkno < NUM_BLOCKS, "sim: read called on invalid block {blkno}");
        let too_long = (offset > PAGE_SIZE) || (length > PAGE_SIZE) || ((offset + length) > PAGE_SIZE);
        assert!(!too_long, "sim: read called on invalid range: offset = {offset}, length = {length}");
        if !self.stats.frozen {
            self.stats.read += 1;
            self.stats.read_bytes += length;
        }
        let start: usize = page_idx + offset;
        let end: usize = start + length;
        data.copy_from_slice(&self.pages[start..end]);
        Ok(())
    }

    fn copy(&mut self, src: DharaPage, dst: DharaPage) -> Result<(), DharaError> {
        let mut buf: [u8; PAGE_SIZE] = [0; PAGE_SIZE];
        self.read(src, 0, PAGE_SIZE, &mut buf)?;
        self.prog(dst, &buf)?;
        Ok(())
    }

    fn prog(&mut self, page: DharaPage, data: &[u8]) -> Result<(), DharaError> {
        let blkno: usize = (page >> LOG2_PAGES_PER_BLOCK) as usize;
        let pageno: usize = (page as usize) & ((1 << LOG2_PAGES_PER_BLOCK) - 1);
        let page_idx: usize = (page as usize) << LOG2_PAGE_SIZE;
        assert!(blkno < NUM_BLOCKS, "sim: prog called on invalid block {blkno}");
        assert!(self.blocks[blkno].flags & BLOCK_BAD_MARK == 0,
            "sim: prog called on block which is marked bad: {blkno}");
        assert!(pageno >= self.blocks[blkno].next_page,
            "sim: prog out-of-order page programming. Block {blkno}, page {pageno} (expected {})",
            self.blocks[blkno].next_page);
        if !self.stats.frozen {
            self.stats.prog += 1;
        }
        self.blocks[blkno].next_page = pageno + 1;
        self.timebomb_tick(blkno);
        if self.blocks[blkno].flags & BLOCK_FAILED != 0 {
            if !self.stats.frozen {
                self.stats.prog_fail += 1;
            }
            seq_gen((page * 57 + 29) as u64, &mut self.pages[page_idx..(page_idx + PAGE_SIZE)]);
            return Err(DharaError::BadBlock);
        }
        self.pages[page_idx..page_idx + PAGE_SIZE].copy_from_slice(data);
        Ok(())
    }
}

// ------------------------------------------------------------------------
// Journal test utilities.

/// To specify how many pages to enqueue.
pub enum Pages {
    All,
    Count(usize),
}

pub type SimJournal = DharaJournal<512, SimNand>;

fn check_upage(j: &SimJournal, page: DharaPage) -> () {
    let mask: DharaPage = (1 << j.get_log2_ppc()) - 1;
    assert!((!page) & mask != 0);
    assert!(page < (j.get_num_blocks() << j.get_log2_ppb()));
}

pub fn jt_check(j: &SimJournal) -> () {
    // Head and tail pointers always point to a valid user-page index (never
    // a meta-page, and never out-of-bounds).
    check_upage(j, j.get_head());
    check_upage(j, j.get_tail());
    check_upage(j, j.get_tail_sync());

    // The head never advances forward onto the same block as the tail.
    if (j.get_head() ^ j.get_tail_sync()) >> j.get_log2_ppb() == 0 {
        assert!(j.get_head() >= j.get_tail_sync());
    }

    // The current tail is always between the head and the synchronized
    // tail (unsigned wrapping subtractions).
    assert!(j.get_head().wrapping_sub(j.get_tail_sync()) >= j.get_tail().wrapping_sub(j.get_tail_sync()));

    // The root always points to a valid user page in a non-empty journal.
    if j.get_root() != DHARA_PAGE_NONE {
        let raw_size = j.get_head().wrapping_sub(j.get_tail());
        let root_offset = j.get_root().wrapping_sub(j.get_tail());
        check_upage(j, j.get_root());
        assert!(root_offset < raw_size);
    }
}

fn recover(j: &mut SimJournal) -> () {
    let mut retry_count: usize = 0;
    println!("    recover: start");
    while j.journal_in_recovery() {
        let page = j.journal_next_recoverable();
        jt_check(j);
        let res = if page == DHARA_PAGE_NONE {
            j.journal_enqueue(None, None)
        } else {
            let mut meta = [0u8; DHARA_META_SIZE];
            j.journal_read_meta(page, &mut meta).expect("read_meta");
            j.journal_copy(page, Some(&meta))
        };
        jt_check(j);
        match res {
            Err(DharaError::Recover) => {
                println!("    recover: restart");
                retry_count += 1;
                if retry_count >= (DHARA_MAX_RETRIES as usize) {
                    panic!("recover with too many bad");
                }
                continue;
            },
            Err(e) => panic!("copy {:?}", e),
            Ok(_) => (),
        }
    }
    jt_check(j);
    println!("    recover: complete");
}

fn enqueue(j: &mut SimJournal, id: u32) -> Result<u8, DharaError> {
    let mut r: [u8; PAGE_SIZE] = [0u8; PAGE_SIZE];
    let mut meta: [u8; DHARA_META_SIZE] = [0u8; DHARA_META_SIZE];
    seq_gen(id as u64, &mut r);
    dhara_w32(&mut meta[0..4], id);
    for _i in 0..DHARA_MAX_RETRIES {
        jt_check(j);
        match j.journal_enqueue(Some(&r), Some(&meta)) {
            Ok(_) => {
                return Ok(0);
            },
            Err(DharaError::Recover) => recover(j),
            Err(e) => {
                return Err(e);
            },
        }
    }
    Err(DharaError::TooBad)
}

/// count: Count(number of pages to enqueue). All => all pages in the NAND.
pub fn jt_enqueue_sequence(j: &mut SimJournal, start: usize, count: Pages) -> usize {
    let count: usize = match count {
        Pages::All => (j.get_num_blocks() << j.get_log2_ppb()) as usize,
        Pages::Count(count) => count,
    };
    for i in 0..count {
        let mut meta: [u8; DHARA_META_SIZE] = [0u8; DHARA_META_SIZE];
        match enqueue(j, (start + i) as u32) {
            Ok(_) => (),
            Err(DharaError::JournalFull) => {
                return i;
            },
            Err(e) => {
                panic!("enqueue {:?} i = {}", e, i);
            },
        }
        assert!(j.journal_size() >= i as u32);
        let root = j.journal_root();
        j.journal_read_meta(root, &mut meta).expect("read meta");
        assert_eq!(dhara_r32(&meta[0..4]), (start + i) as u32);
    }
    count
}

pub fn jt_dequeue_sequence(j: &mut SimJournal, next: usize, count: usize) -> () {
    let mut count = count;
    let mut next = next;
    let max_garbage: usize = 1 << j.get_log2_ppc();
    let mut garbage_count: usize = 0;
    while count > 0 {
        let mut meta: [u8; DHARA_META_SIZE] = [0u8; DHARA_META_SIZE];
        let tail = j.journal_peek();
        assert_ne!(tail, DHARA_PAGE_NONE);
        jt_check(j);
        j.journal_read_meta(tail, &mut meta).expect("read meta");
        jt_check(j);
        j.journal_dequeue();
        let id = dhara_r32(&meta[0..4]);
        if id == DHARA_PAGE_NONE {
            garbage_count += 1;
            assert!(garbage_count < max_garbage);
        } else {
            let mut r: [u8; PAGE_SIZE] = [0; PAGE_SIZE];
            assert_eq!(id as usize, next);
            garbage_count = 0;
            next += 1;
            count -= 1;
            j.nand.read(tail, 0, PAGE_SIZE, &mut r).expect("nand_read");
            seq_assert(id as u64, &r);
        }
        if count == 1 {
            println!("head={}, tail={}, root={}", j.get_head(), j.get_tail(), j.get_root());
        }
        jt_check(j);
    }
}

// ------------------------------------------------------------------------
// Journal fill test.

fn fill(seed: u64) -> () {
    let mut nand: SimNand = SimNand::new(seed);
    nand.sim_reset();
    nand.sim_inject_bad(10);
    nand.sim_inject_failed(10);

    let buf: [u8; 512] = [0u8; 512];

    println!("Journal init");
    let mut journal = SimJournal::new(nand, buf);
    println!("    capacity: {}", journal.journal_capacity());
    println!("");

    for rep in 0..5 {
        println!("Rep: {}", rep);
        println!("    enqueue until error...");
        let count = jt_enqueue_sequence(&mut journal, 0, Pages::All);
        println!("    enqueue count: {}", count);
        println!("    size:          {}", journal.journal_size());
        println!("    dequeue...");
        jt_dequeue_sequence(&mut journal, 0, count);
        println!("    size:          {}", journal.journal_size());
        // Only way to recover space here...
        journal.set_tail_sync(journal.get_tail());
    }
    println!("");
}

#[test]
fn main_jfill() -> () {
    for i in 0..100 {
        println!("-------------------------------------------------------");
        fill(i);
    }
}

// ------------------------------------------------------------------------
// Journal enqueue/dequeue and suspend/resume test.

fn suspend_resume(j: &mut SimJournal) -> () {
    let old_root = j.journal_root();
    let old_tail = j.get_tail();
    let old_head = j.get_head();

    j.journal_clear();
    assert_eq!(j.journal_root(), DHARA_PAGE_NONE);

    j.journal_resume().expect("resume");
    assert_eq!(old_root, j.journal_root());
    assert_eq!(old_tail, j.get_tail());
    assert_eq!(old_head, j.get_head());
}

fn dump_info(j: &SimJournal) -> () {
    println!("     log2_ppc  = {}", j.get_log2_ppc());
    println!("     size      = {}", j.journal_size());
    println!("     capacity  = {}", j.journal_capacity());
    println!("     bb_current= {}", j.get_bb_current());
    println!("     bb_last   = {}", j.get_bb_last());
}

#[test]
fn main_journal() -> () {
    let mut nand: SimNand = SimNand::new(1);
    nand.sim_reset();
    nand.sim_inject_bad(20);

    let buf: [u8; 512] = [0u8; 512];

    let mut journal = SimJournal::new(nand, buf);
    let _ = journal.journal_resume(); // Ignore the result, even if an error.
    dump_info(&journal);

    println!("Enqueue/dequeue, 100 pages x 20");
    for _rep in 0..20 {
        let count = jt_enqueue_sequence(&mut journal, 0, Pages::Count(100));
        assert!(count == 100);
        let before = journal.journal_size();
        jt_dequeue_sequence(&mut journal, 0, count);
        println!("    size    = {} -> {}", before, journal.journal_size());
    }

    println!("Journal stats:");
    dump_info(&journal);
    println!("");

    println!("Enqueue/dequeue, ~100 pages x 20 (resume)");
    for rep in 0u32..20u32 {
        journal.set_cookie(rep);
        let mut count = jt_enqueue_sequence(&mut journal, 0, Pages::Count(100));
        assert_eq!(count, 100);

        while !journal.journal_is_clean() {
            let c = jt_enqueue_sequence(&mut journal, count, Pages::Count(1));
            count += 1;
            assert_eq!(c, 1);
        }

        let before = journal.journal_size();
        suspend_resume(&mut journal);
        jt_dequeue_sequence(&mut journal, 0, count);
        println!("    size    = {} -> {}", before, journal.journal_size());
        assert_eq!(journal.get_cookie(), rep);
    }
    println!("");

    println!("Journal stats:");
    dump_info(&journal);
    println!("");

    journal.nand.sim_dump();
}

// ------------------------------------------------------------------------
// Recovery scenarios.

fn run(name: &str, scen: fn(&mut SimNand) -> ()) -> () {
    let mut nand: SimNand = SimNand::new(7);
    nand.sim_reset();

    scen(&mut nand);

    let buf: [u8; 512] = [0u8; 512];
    let mut journal = SimJournal::new(nand, buf);

    // All tests are tuned for this value.
    assert_eq!(journal.get_log2_ppc(), 2);

    println!("========================================");
    println!("{}", name);
    println!("========================================");
    journal.nand.sim_dump();

    jt_enqueue_sequence(&mut journal, 0, Pages::Count(30));
    jt_dequeue_sequence(&mut journal, 0, 30);

    journal.nand.sim_dump();
}

fn scen_control(_n: &mut SimNand) -> () {}

fn scen_instant_fail(n: &mut SimNand) -> () {
    n.sim_set_failed(0);
}

fn scen_after_check(n: &mut SimNand) -> () {
    n.sim_set_timebomb(0, 6);
}

fn scen_mid_check(n: &mut SimNand) -> () {
    n.sim_set_timebomb(0, 3);
}

fn scen_meta_check(n: &mut SimNand) -> () {
    n.sim_set_timebomb(0, 5);
}

fn scen_after_cascade(n: &mut SimNand) -> () {
    n.sim_set_timebomb(0, 6);
    n.sim_set_timebomb(1, 3);
    n.sim_set_timebomb(2, 3);
}

fn scen_mid_cascade(n: &mut SimNand) -> () {
    n.sim_set_timebomb(0, 3);
    n.sim_set_timebomb(1, 3);
}

fn scen_meta_fail(n: &mut SimNand) -> () {
    n.sim_set_timebomb(0, 3);
    n.sim_set_failed(1);
}

fn scen_bad_day(n: &mut SimNand) -> () {
    n.sim_set_timebomb(0, 7);
    for i in 1..5 {
        n.sim_set_timebomb(i, 3);
    }
}

#[test]
fn main_recovery() -> () {
    run("Control", scen_control);
    run("Instant fail", scen_instant_fail);

    run("Fail after checkpoint", scen_after_check);
    run("Fail mid-checkpoint", scen_mid_check);
    run("Fail on meta", scen_meta_check);

    run("Cascade fail after checkpoint", scen_after_cascade);
    run("Cascade fail mid-checkpoint", scen_mid_cascade);

    run("Metadata dump failure", scen_meta_fail);

    run("Bad day", scen_bad_day);
}

// ------------------------------------------------------------------------
// Map test.

pub type SimMap = DharaMap<512, SimNand>;

const NUM_SECTORS: usize = 200;
const GC_RATIO: u8 = 4;

struct SectorList {
    list: [DharaSector; NUM_SECTORS],
}

impl SectorList {
    pub fn new() -> Self {
        SectorList { list: [0; NUM_SECTORS] }
    }

    pub fn shuffle(&mut self, seed: u64) -> () {
        let mut rng = SmallRng::seed_from_u64(seed);
        for i in 0..NUM_SECTORS {
            self.list[i] = i as DharaSector;
        }
        for i in (1..NUM_SECTORS).rev() {
            let j = rng.gen::<usize>() % i;
            let tmp = self.list[i];
            self.list[i] = self.list[j];
            self.list[j] = tmp;
        }
    }

    pub fn get(&self, idx: usize) -> DharaSector {
        self.list[idx]
    }
}

fn check_recurse(m: &mut SimMap, parent: DharaPage, page: DharaPage, id_expect: DharaSector, depth: usize) -> usize {
    let mut meta: [u8; DHARA_META_SIZE] = [0u8; DHARA_META_SIZE];
    let h_offset: DharaPage = m.journal.get_head().wrapping_sub(m.journal.get_tail());
    let p_offset: DharaPage = parent.wrapping_sub(m.journal.get_tail());
    let offset: DharaPage = page.wrapping_sub(m.journal.get_tail());

    let mut count: usize = 1;

    if page == DHARA_PAGE_NONE {
        return 0;
    }

    // Make sure this is a valid journal user page, and one which is older
    // than the page pointing to it.
    assert!(offset < p_offset);
    assert!(offset < h_offset);
    assert!((!page) & ((1 << m.journal.get_log2_ppc()) - 1) != 0);

    // Fetch metadata.
    m.journal.journal_read_meta(page, &mut meta).expect("mt_check");

    // Check the first <depth> bits of the ID field.
    let id = meta_get_id(&meta);
    if depth != 0 {
        assert!((id ^ id_expect) >> (32 - depth) == 0);
    }

    // Check all alt pointers.
    for i in depth..32 {
        let child: DharaPage = meta_get_alt(&meta, i);
        count += check_recurse(m, page, child, id ^ (1 << (31 - i)), i + 1);
    }
    count
}

fn mt_check(m: &mut SimMap) -> () {
    m.journal.nand.freeze();
    let head = m.journal.get_head();
    let root = m.journal.get_root();
    let _count = check_recurse(m, head, root, 0, 0);
    m.journal.nand.thaw();
}

fn mt_write(m: &mut SimMap, s: DharaSector, seed: u64) -> () {
    let mut buf: [u8; PAGE_SIZE] = [0; PAGE_SIZE];
    seq_gen(seed, &mut buf);
    m.write(s, &buf).expect("map_write");
}

fn mt_assert(m: &mut SimMap, s: DharaSector, seed: u64) -> () {
    let mut buf: [u8; PAGE_SIZE] = [0; PAGE_SIZE];
    m.read(s, &mut buf).expect("map_read");
    seq_assert(seed, &buf);
}

fn mt_trim(m: &mut SimMap, s: DharaSector) -> () {
    m.trim(s).expect("map_trim");
}

fn mt_assert_blank(m: &mut SimMap, s: DharaSector) -> () {
    match m.find(s) {
        Ok(loc) => {
            assert!(false, "find found a value {} when it should not have", loc);
        },
        Err(e) => {
            assert_eq!(e, DharaError::NotFound);
        },
    }
}

fn mt_test(seed: u64) -> () {
    let mut sector_list = SectorList::new();

    let mut nand: SimNand = SimNand::new(seed);
    nand.sim_reset();
    nand.sim_inject_bad(10);
    nand.sim_inject_timebombs(30, 20);

    let buf: [u8; 512] = [0u8; 512];

    println!("Map init");
    let mut map = SimMap::new(nand, buf, GC_RATIO);
    let _ = map.resume();
    println!("  capacity: {}", map.get_capacity());
    println!("  sector count: {}", NUM_SECTORS);
    println!();

    println!("Sync...");
    let _ = map.sync();
    println!("Resume...");
    let _ = map.resume();

    println!("Writing sectors...");
    sector_list.shuffle(0);
    for i in 0..NUM_SECTORS {
        let s = sector_list.get(i);
        mt_write(&mut map, s, s as u64);
        mt_check(&mut map);
    }

    println!("Sync...");
    let _ = map.sync();
    println!("Resume...");
    let _ = map.resume();
    println!("  capacity: {}", map.get_capacity());
    println!("  use count: {}", map.get_size());
    println!();

    println!("Read back...");
    sector_list.shuffle(1);
    for i in 0..NUM_SECTORS {
        let s = sector_list.get(i);
        mt_assert(&mut map, s, s as u64);
    }

    println!("Rewrite/trim half...");
    sector_list.shuffle(2);
    for i in (0..NUM_SECTORS).step_by(2) {
        let s0 = sector_list.get(i);
        let s1 = sector_list.get(i + 1);

        mt_write(&mut map, s0, !s0 as u64);
        mt_check(&mut map);
        mt_trim(&mut map, s1);
        mt_check(&mut map);
    }

    println!("Sync...");
    let _ = map.sync();
    println!("Resume...");
    let _ = map.resume();
    println!("  capacity: {}", map.get_capacity());
    println!("  use count: {}", map.get_size());
    println!();

    println!("Read back...");
    for i in (0..NUM_SECTORS).step_by(2) {
        let s0 = sector_list.get(i);
        let s1 = sector_list.get(i + 1);

        mt_assert(&mut map, s0, !s0 as u64);
        mt_assert_blank(&mut map, s1);
    }
    println!("");
}

#[test]
fn main_map() -> () {
    for i in 0..1000 {
        // Each iteration injects different bad blocks and timebombs.
        mt_test(i);
    }
}

// ------------------------------------------------------------------------
// Further map checks.

fn fresh_map(seed: u64) -> SimMap {
    let mut nand: SimNand = SimNand::new(seed);
    nand.sim_reset();
    let buf: [u8; 512] = [0u8; 512];
    SimMap::new(nand, buf, GC_RATIO)
}

#[test]
fn map_capacity_value() {
    let map = fresh_map(3);
    // Journal: 112 good blocks x 2 checkpoints x 3 user pages = 672.
    assert_eq!(map.journal.journal_capacity(), 672);
    // Less 672 / 5 = 134 reserved for collection and 8 blocks of 8 pages.
    assert_eq!(map.get_capacity(), 474);
    assert_eq!(map.get_size(), 0);
}

#[test]
fn map_resume_blank_chip() {
    let mut map = fresh_map(4);
    assert_eq!(map.resume(), Err(DharaError::TooBad));
    assert_eq!(map.get_size(), 0);
}

#[test]
fn map_write_read_trim() {
    let mut map = fresh_map(5);
    let _ = map.resume();
    let mut data = [0u8; PAGE_SIZE];
    seq_gen(42, &mut data);
    map.write(5, &data).expect("write");
    assert_eq!(map.get_size(), 1);
    // Rewriting the same sector takes no more room.
    map.write(5, &data).expect("write");
    assert_eq!(map.get_size(), 1);
    let mut back = [0u8; PAGE_SIZE];
    map.read(5, &mut back).expect("read");
    assert_eq!(back[..], data[..]);

    // An unmapped sector reads as blank.
    map.read(6, &mut back).expect("read");
    assert_eq!(back[..], [0xffu8; PAGE_SIZE][..]);
    assert_eq!(map.find(6), Err(DharaError::NotFound));

    map.write(6, &data).expect("write");
    assert_eq!(map.get_size(), 2);
    map.trim(5).expect("trim");
    assert_eq!(map.get_size(), 1);
    assert_eq!(map.find(5), Err(DharaError::NotFound));
    // Trimming an unmapped sector changes nothing.
    map.trim(5).expect("trim");
    assert_eq!(map.get_size(), 1);
    // Deleting the last sector empties the map.
    map.trim(6).expect("trim");
    assert_eq!(map.get_size(), 0);
    assert_eq!(map.find(6), Err(DharaError::NotFound));
}

#[test]
fn map_copy_sector_and_page() {
    let mut map = fresh_map(6);
    let _ = map.resume();
    let mut data = [0u8; PAGE_SIZE];
    seq_gen(9, &mut data);
    map.write(1, &data).expect("write");
    map.copy_sector(1, 2).expect("copy sector");
    assert_eq!(map.get_size(), 2);
    let mut back = [0u8; PAGE_SIZE];
    map.read(2, &mut back).expect("read");
    assert_eq!(back[..], data[..]);
    // Copying an unmapped sector trims the destination.
    map.copy_sector(3, 2).expect("copy sector");
    assert_eq!(map.get_size(), 1);
    assert_eq!(map.find(2), Err(DharaError::NotFound));
    // Copying a page maps the destination to the same data.
    let page = map.find(1).expect("find");
    map.copy_page(page, 7).expect("copy page");
    map.read(7, &mut back).expect("read");
    assert_eq!(back[..], data[..]);
    assert_eq!(map.get_size(), 2);
}

#[test]
fn map_clear_sync_resume() {
    let mut map = fresh_map(8);
    let _ = map.resume();
    let data = [0x3cu8; PAGE_SIZE];
    for s in 0..10u32 {
        map.write(s, &data).expect("write");
    }
    assert_eq!(map.get_size(), 10);
    map.sync().expect("sync");
    assert!(map.journal.journal_is_clean());
    // The count survives a resume through the cookie.
    map.resume().expect("resume");
    assert_eq!(map.get_size(), 10);
    let mut back = [0u8; PAGE_SIZE];
    map.read(9, &mut back).expect("read");
    assert_eq!(back[..], data[..]);

    map.clear();
    assert_eq!(map.get_size(), 0);
    assert_eq!(map.find(3), Err(DharaError::NotFound));
    // Collecting garbage in an empty map does nothing.
    map.gc().expect("gc");
    assert_eq!(map.get_size(), 0);
}

#[test]
fn map_full() {
    let mut map = fresh_map(10);
    let _ = map.resume();
    let data = [0u8; PAGE_SIZE];
    let cap = map.get_capacity();
    for s in 0..cap {
        map.write(s, &data).expect("write");
    }
    assert_eq!(map.get_size(), cap);
    // One more sector does not fit, and nothing changes.
    assert_eq!(map.write(cap, &data), Err(DharaError::MapFull));
    assert_eq!(map.get_size(), cap);
    // Rewriting an existing sector still works.
    map.write(0, &data).expect("rewrite");
    assert_eq!(map.get_size(), cap);
}

#[test]
fn map_lookup_outcomes() {
    let mut map = fresh_map(11);
    let mut buf = [7u8; 16];
    assert_eq!(map.read_found(Err(DharaError::NotFound), &mut buf), Ok(()));
    assert_eq!(buf, [0xffu8; 16]);
    let mut buf2 = [7u8; 16];
    assert_eq!(map.read_found(Err(DharaError::ECC), &mut buf2), Err(DharaError::ECC));
    assert_eq!(buf2, [7u8; 16]);

    assert_eq!(map.claim_sector(Err(DharaError::NotFound)), Ok(()));
    assert_eq!(map.get_size(), 1);
    assert_eq!(map.claim_sector(Ok(12)), Ok(()));
    assert_eq!(map.get_size(), 1);
    assert_eq!(map.claim_sector(Err(DharaError::BadBlock)), Err(DharaError::BadBlock));
    assert_eq!(map.get_size(), 1);
}

#[test]
fn journal_full() {
    let mut nand: SimNand = SimNand::new(12);
    nand.sim_reset();
    let buf: [u8; 512] = [0u8; 512];
    let mut journal = SimJournal::new(nand, buf);
    let count = jt_enqueue_sequence(&mut journal, 0, Pages::All);
    // 113 blocks of 6 user pages; the head may not roll onto the tail's
    // block, so the last user page before it stays free, and the next
    // enqueue is refused.
    assert_eq!(count, 113 * 6 - 1);
    let data = [0u8; PAGE_SIZE];
    assert_eq!(journal.journal_enqueue(Some(&data), None), Err(DharaError::JournalFull));
}

#[test]
fn queue_order_across_operations() {
    let mut nand: SimNand = SimNand::new(21);
    nand.sim_reset();
    // A few blocks start out bad, so that the head and the tail have to
    // skip them.
    nand.mark_bad(3);
    nand.mark_bad(4);
    nand.mark_bad(50);
    let buf: [u8; 512] = [0u8; 512];
    let mut journal = SimJournal::new(nand, buf);
    jt_check(&journal);
    let mut next = 0usize;
    let mut written = 0usize;
    // Several passes around the chip: fill part of it, drain most of it.
    for _round in 0..6 {
        let n = jt_enqueue_sequence(&mut journal, written, Pages::Count(250));
        assert_eq!(n, 250);
        written += n;
        jt_check(&journal);
        jt_dequeue_sequence(&mut journal, next, 200);
        next += 200;
        jt_check(&journal);
    }
    // Clearing leaves an empty, ordered queue.
    journal.journal_clear();
    jt_check(&journal);
    assert_eq!(journal.get_tail(), journal.get_head());
    assert_eq!(journal.get_root(), DHARA_PAGE_NONE);
    assert_eq!(journal.journal_peek(), DHARA_PAGE_NONE);
    let n = jt_enqueue_sequence(&mut journal, written, Pages::Count(20));
    assert_eq!(n, 20);
    jt_check(&journal);
    // Synchronizing the tail with itself keeps the order.
    let tail = journal.get_tail();
    journal.set_tail_sync(tail);
    jt_check(&journal);
}

#[test]
fn find_after_write_is_root() {
    let mut m = fresh_map(31);
    let data = [0x5au8; PAGE_SIZE];
    // The first write's metadata stays in the page buffer: the lookup finds
    // the page just written.
    m.write(7, &data).expect("write");
    let root = m.journal.journal_root();
    assert_ne!(root, DHARA_PAGE_NONE);
    assert_eq!(m.find(7), Ok(root));
    m.write(9, &data).expect("write");
    let root = m.journal.journal_root();
    assert_eq!(m.find(9), Ok(root));
    // The earlier sector is still found, through the radix tree.
    let found = m.find(7).expect("find");
    let mut buf = [0u8; PAGE_SIZE];
    m.journal.nand.read(found, 0, PAGE_SIZE, &mut buf).expect("read");
    assert_eq!(buf, data);
}

#[test]
fn cleared_map_reads_blank() {
    let mut m = fresh_map(32);
    let mut buf = [0u8; PAGE_SIZE];
    // A new map: every sector reads blank, and none is found.
    assert_eq!(m.find(3), Err(DharaError::NotFound));
    m.read(3, &mut buf).expect("read");
    assert!(buf.iter().all(|&b| b == 0xff));
    let data = [0x33u8; PAGE_SIZE];
    m.write(3, &data).expect("write");
    m.write(4, &data).expect("write");
    m.read(3, &mut buf).expect("read");
    assert_eq!(buf, data);
    // Cleared: the sectors read blank again.
    m.clear();
    assert_eq!(m.get_size(), 0);
    assert_eq!(m.journal.journal_root(), DHARA_PAGE_NONE);
    assert_eq!(m.find(3), Err(DharaError::NotFound));
    buf = [0u8; PAGE_SIZE];
    m.read(4, &mut buf).expect("read");
    assert!(buf.iter().all(|&b| b == 0xff));
}

#[test]
fn empty_map_operations() {
    let mut m = fresh_map(33);
    // A fresh map is clean: syncing it has nothing to do.
    assert_eq!(m.sync(), Ok(()));
    // With no root, deleting or copying from an unmapped sector succeeds
    // and leaves the map as it was.
    let head = m.journal.get_head();
    assert_eq!(m.trim(5), Ok(()));
    assert_eq!(m.copy_sector(1, 2), Ok(()));
    assert_eq!(m.get_size(), 0);
    assert_eq!(m.journal.get_head(), head);
    assert_eq!(m.journal.journal_root(), DHARA_PAGE_NONE);
}

#[test]
fn trim_keeps_cousin_at_top_level() {
    let mut m = fresh_map(34);
    let data = [0x11u8; PAGE_SIZE];
    // Sectors 0 and 0x8000_0000 part at the top level of the tree.
    m.write(0, &data).expect("write");
    m.write(0x8000_0000, &data).expect("write");
    assert_eq!(m.get_size(), 2);
    m.trim(0).expect("trim");
    assert_eq!(m.get_size(), 1);
    assert_eq!(m.find(0), Err(DharaError::NotFound));
    assert!(m.find(0x8000_0000).is_ok());
    m.trim(0x8000_0000).expect("trim");
    assert_eq!(m.get_size(), 0);
}
