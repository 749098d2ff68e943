# dhara_rs

A flash translation layer for raw NAND chips, verified with Verus.

The chip is reached through the `DharaNand` trait, which the user
implements for a driver. On top of it:

- `journal` presents the chip's pages as a double-ended queue of user
  pages, each carrying a fixed block of metadata. Metadata is gathered in a
  page buffer and written out as the last page of each checkpoint group;
  bad blocks are skipped, and a failed write starts an assisted recovery of
  the block it hit.
- the map (`DharaMap`, in `lib.rs`) maps logical sectors to journal pages
  through a radix tree threaded through the pages' metadata, with garbage
  collection of obsolete pages.

Supporting modules: `bytes` (little-endian encoding), `pagemath` (masks,
shifts and alignment of page numbers) and `order` (the cyclic order of pages
around the chip).

Every function carries a contract that Verus checks. The `DharaNand` trait
models the chip by the bytes stored in its pages and the blocks marked bad,
and says what each chip operation does to them; the contracts above it are
stated over that model. Among the properties proved:

- the page arithmetic and header encoding round-trip exactly;
- the journal's state stays valid for its chip through every operation, and
  its pointers keep their queue order (the head never lies behind the
  synchronized tail within a block, the tail stays between the synchronized
  tail and the head, the root stays inside the queue) on chips of at least
  two blocks of at least four pages;
- an enqueue programs its data at the new root and buffers its metadata; a
  completed checkpoint group leaves the journal clean, with a full header on
  the checkpoint page, from which the metadata reads back
  (`law_meta_read_back_after_checkpoint`); the cookie survives;
- a failed write starts recovery at the first page of the failed block and
  enumerates up to the old root;
- a lookup (`find`, `read`) is the walk of the radix tree over the chip's
  metadata (`trace_spec`), and a read returns the page found or a blank page;
  a sector just written is found at the root and read back while its
  metadata is buffered;
- the map's sector count and capacity follow their rules.

What is not proved is the radix tree as a whole: that the walk finds every
mapped sector after later writes, garbage collection and recovery, that the
sector count equals the number of mapped sectors, and that `sync` followed by
`resume` restores the map. The tests in `tests/` exercise these on a
simulated chip.
