use classalloc::allocator::AllocError;
use classalloc::allocator::Reallocator;
use classalloc::allocator::Single_Allocator;
use classalloc::kernel_mem::Memory;

const BASE: usize = 1 << 20;

/// A deterministic memory source: hands out disjoint page-aligned spans
/// from a growing cursor and records every call.
struct FakeSource {
    next: usize,
    calls: usize,
    lengths: Vec<usize>,
    released: Vec<(usize, usize)>,
}

impl FakeSource {
    fn new() -> FakeSource {
        FakeSource { next: BASE, calls: 0, lengths: Vec::new(), released: Vec::new() }
    }
}

impl Memory for FakeSource {
    fn get_mem(&mut self, length: usize) -> Option<usize> {
        self.calls += 1;
        self.lengths.push(length);
        let a = self.next;
        self.next += length + 4096;
        Some(a)
    }

    fn return_mem(&mut self, address: usize, length: usize) {
        self.released.push((address, length));
    }

    fn page_size(&mut self) -> usize {
        4096
    }
}

/// A source whose mappings always fail.
struct FailSource;

impl Memory for FailSource {
    fn get_mem(&mut self, _length: usize) -> Option<usize> {
        None
    }

    fn return_mem(&mut self, _address: usize, _length: usize) {}

    fn page_size(&mut self) -> usize {
        4096
    }
}

/// A source that hands the same span out every time.
struct OverlapSource {
    calls: usize,
}

impl Memory for OverlapSource {
    fn get_mem(&mut self, _length: usize) -> Option<usize> {
        self.calls += 1;
        Some(BASE)
    }

    fn return_mem(&mut self, _address: usize, _length: usize) {}

    fn page_size(&mut self) -> usize {
        4096
    }
}

// A 16384-byte span has 16336 usable bytes after the chunk header; the
// carve packs as many whole blocks as fit.
const CARVED_16: usize = 16336 / (40 + 16); // 291
const CARVED_64: usize = 16336 / (40 + 64); // 157
const CARVED_256: usize = 16336 / (40 + 256); // 55

#[test]
fn aligned_and_large_enough_for_all_supported_layouts() {
    let mut src = FakeSource::new();
    let mut e = Single_Allocator::new();
    let layouts =
        [(1, 1), (8, 4), (16, 8), (20, 2), (20, 64), (100, 16), (512, 8), (1000, 8), (40, 128)];
    for (size, align) in layouts {
        let (addr, usable) = e.allocate(size, align, &mut src).unwrap();
        assert_eq!(addr % align, 0, "address for {size}/{align} not aligned");
        assert!(usable >= size, "usable {usable} below requested {size}");
    }
}

#[test]
fn first_allocation_builds_one_chunk_sized_for_290_blocks() {
    let mut src = FakeSource::new();
    let mut e = Single_Allocator::new();
    let (first, _) = e.allocate(16, 8, &mut src).unwrap();
    assert_eq!(src.calls, 1);
    // the region is sized for 290 16-byte blocks, rounded to whole pages
    assert_eq!(src.lengths, vec![16384]);
    assert_eq!(first % 8, 0);
    // nine more allocations are served from the same chunk
    for _ in 0..9 {
        e.allocate(16, 8, &mut src).unwrap();
    }
    assert_eq!(src.calls, 1);
    assert_eq!(e.chunks.len(), 1);
    assert_eq!(e.free_count(16), CARVED_16 - 10);
}

#[test]
fn exact_minimum_block_lands_in_the_smallest_class() {
    let mut src = FakeSource::new();
    let mut e = Single_Allocator::new();
    let (_, usable) = e.allocate(16, 8, &mut src).unwrap();
    assert_eq!(usable, 16);
    assert_eq!(e.free_count(16), CARVED_16 - 1);
    assert_eq!(e.free_count(32), 0);
}

#[test]
fn over_aligned_request_rounds_up_with_headroom() {
    let mut src = FakeSource::new();
    let mut e = Single_Allocator::new();
    // 20 bytes at alignment 64: 24 padded bytes plus 64 of headroom = 88,
    // routed to the 256-byte class
    let (addr, usable) = e.allocate(20, 64, &mut src).unwrap();
    assert_eq!(addr % 64, 0);
    assert!(usable >= 20);
    assert_eq!(e.free_count(256), CARVED_256 - 1);
    assert_eq!(e.free_count(16), 0);
    assert_eq!(e.free_count(32), 0);
    assert_eq!(e.free_count(64), 0);
}

#[test]
fn indirect_header_resolves_an_over_aligned_pointer() {
    let mut src = FakeSource::new();
    let mut e = Single_Allocator::new();
    let (addr, usable) = e.allocate(20, 64, &mut src).unwrap();
    let id = e.from_allocated_pointer(addr, 64).expect("live pointer must resolve");
    let block = &e.blocks[id];
    // the owning chunk is live
    assert!(block.data.memory_chunk < e.chunks.len());
    assert!(!block.data.is_free);
    // the recorded size accounts for the padding consumed in front of
    // the returned address
    let padding = addr - (block.addr + 40);
    assert_eq!(usable, block.data.size - padding);
    assert!(block.data.size >= 20 + padding);
}

#[test]
fn round_trip_returns_the_block_to_its_class_list() {
    let mut src = FakeSource::new();
    let mut e = Single_Allocator::new();
    let (a1, _) = e.allocate(16, 8, &mut src).unwrap();
    assert_eq!(e.free_count(16), CARVED_16 - 1);
    e.deallocate(a1, 16, 8);
    assert_eq!(e.free_count(16), CARVED_16);
    // the freed block rejoins the class list at the tail; walking the
    // whole class reuses it without any further mapping call
    let mut reused = false;
    for _ in 0..CARVED_16 {
        let (a, _) = e.allocate(16, 8, &mut src).unwrap();
        if a == a1 {
            reused = true;
        }
    }
    assert!(reused, "freed block was never handed out again");
    assert_eq!(src.calls, 1);
}

#[test]
fn routing_ignores_allocator_history() {
    let mut src = FakeSource::new();
    let mut e = Single_Allocator::new();
    // a 20-byte payload routes to the 32-byte class on a fresh engine
    e.allocate(20, 8, &mut src).unwrap();
    let carved_32 = e.free_count(32) + 1;
    // and still does after unrelated allocations of other classes
    e.allocate(100, 8, &mut src).unwrap();
    e.allocate(600, 8, &mut src).unwrap();
    e.allocate(20, 64, &mut src).unwrap();
    e.allocate(20, 8, &mut src).unwrap();
    assert_eq!(e.free_count(32), carved_32 - 2);
}

#[test]
fn reallocate_moves_to_a_new_block_and_frees_the_old() {
    let mut src = FakeSource::new();
    let mut e = Single_Allocator::new();
    let mut mem = vec![0u8; 1 << 22];
    let (a1, _) = e.allocate(16, 8, &mut src).unwrap();
    for i in 0..16 {
        mem[a1 - BASE + i] = (i as u8) + 1;
    }
    let req = Reallocator::new(a1, 40, 8, 16, 8);
    assert_eq!(req.size(), 16);
    let (a2, usable, copy) = e.reallocate(&req, &mut src).unwrap();
    assert_ne!(a2, a1);
    assert!(usable >= 40);
    assert_eq!(copy, 16);
    for i in 0..copy {
        mem[a2 - BASE + i] = mem[a1 - BASE + i];
    }
    for i in 0..16 {
        assert_eq!(mem[a2 - BASE + i], (i as u8) + 1);
    }
    // the 40-byte payload moved into the 64-byte class
    assert_eq!(e.free_count(64), CARVED_64 - 1);
    // and the old 16-byte block reappears in its free list
    assert_eq!(e.free_count(16), CARVED_16);
    let old_id = e.from_allocated_pointer(a1, 8).expect("old header still resolves");
    assert!(e.blocks[old_id].data.is_free);
}

#[test]
fn oversized_request_fails_fast_and_touches_nothing() {
    let mut src = FakeSource::new();
    let mut e = Single_Allocator::new();
    assert_eq!(e.allocate(2000, 8, &mut src), Err(AllocError::UnsupportedSize));
    // no chunk was constructed, no free list was touched
    assert_eq!(src.calls, 0);
    assert_eq!(e.chunks.len(), 0);
    for cs in [16, 32, 64, 256, 512, 1024] {
        assert_eq!(e.free_count(cs), 0);
    }
    // a request whose minimum block size overflows the largest class
    // fails the same way, even though the payload alone would fit
    assert_eq!(e.allocate(1000, 64, &mut src), Err(AllocError::UnsupportedSize));
    assert_eq!(src.calls, 0);
}

#[test]
fn failed_mapping_surfaces_as_exhaustion() {
    let mut fail = FailSource;
    let mut e = Single_Allocator::new();
    assert_eq!(e.allocate(16, 8, &mut fail), Err(AllocError::ExhaustedSource));
    assert_eq!(e.chunks.len(), 0);
    assert_eq!(e.free_count(16), 0);
}

#[test]
fn overlapping_span_is_rejected_and_returned() {
    let mut src = OverlapSource { calls: 0 };
    let mut e = Single_Allocator::new();
    // the first span is accepted
    e.allocate(16, 8, &mut src).unwrap();
    assert_eq!(e.chunks.len(), 1);
    // the second maps to the same addresses: the engine refuses to build
    // a chunk on it rather than corrupt the first
    assert_eq!(e.allocate(1024, 8, &mut src), Err(AllocError::ExhaustedSource));
    assert_eq!(e.chunks.len(), 1);
    assert_eq!(src.calls, 2);
}

#[test]
fn misaligned_span_is_rejected() {
    struct OddSource;
    impl Memory for OddSource {
        fn get_mem(&mut self, _length: usize) -> Option<usize> {
            Some(BASE + 3)
        }

        fn return_mem(&mut self, _address: usize, _length: usize) {}

        fn page_size(&mut self) -> usize {
            4096
        }
    }
    let mut src = OddSource;
    let mut e = Single_Allocator::new();
    assert_eq!(e.allocate(16, 8, &mut src), Err(AllocError::ExhaustedSource));
    assert_eq!(e.chunks.len(), 0);
}

#[test]
fn drained_class_builds_a_second_chunk() {
    let mut src = FakeSource::new();
    let mut e = Single_Allocator::new();
    for _ in 0..CARVED_16 {
        e.allocate(16, 8, &mut src).unwrap();
    }
    assert_eq!(src.calls, 1);
    assert_eq!(e.free_count(16), 0);
    // one more request drains into a fresh chunk of the same class
    e.allocate(16, 8, &mut src).unwrap();
    assert_eq!(src.calls, 2);
    assert_eq!(e.chunks.len(), 2);
    assert_eq!(e.free_count(16), CARVED_16 - 1);
}

#[test]
fn freeing_an_over_aligned_pointer_clears_its_indirect_slot() {
    let mut src = FakeSource::new();
    let mut e = Single_Allocator::new();
    let (addr, _) = e.allocate(20, 64, &mut src).unwrap();
    assert!(e.from_aligned_address(addr).is_some());
    e.deallocate(addr, 20, 64);
    assert_eq!(e.free_count(256), CARVED_256);
    // the indirect slot is gone with the allocation
    assert!(e.from_aligned_address(addr).is_none());
}

#[test]
fn every_class_carves_its_own_geometry() {
    let mut src = FakeSource::new();
    let mut e = Single_Allocator::new();
    let classes = [16usize, 32, 64, 256, 512, 1024];
    for cs in classes {
        e.allocate(cs, 8, &mut src).unwrap();
    }
    assert_eq!(e.chunks.len(), 6);
    for cs in classes {
        let carved = 16336 / (40 + cs);
        assert_eq!(e.free_count(cs), carved - 1, "class {cs}");
    }
}
