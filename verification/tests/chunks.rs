use classalloc::chunks::region_len_1024;
use classalloc::chunks::region_len_16;
use classalloc::chunks::region_len_256;
use classalloc::chunks::region_len_32;
use classalloc::chunks::region_len_512;
use classalloc::chunks::region_len_64;
use classalloc::chunks::MemoryChunk;
use classalloc::chunks::REGION_HEADER_SIZE;
use classalloc::list::Node;

#[test]
fn region_lengths_round_to_whole_pages() {
    // chunk header + fixed block count * (block header + class payload),
    // rounded up to 4096-byte pages
    assert_eq!(region_len_16(4096), 16384); // 48 + 290 * 56 = 16288
    assert_eq!(region_len_32(4096), 16384); // 48 + 226 * 72 = 16320
    assert_eq!(region_len_64(4096), 16384); // 48 + 157 * 104 = 16376
    assert_eq!(region_len_256(4096), 16384); // 48 + 55 * 296 = 16328
    assert_eq!(region_len_512(4096), 16384); // 48 + 28 * 552 = 15504
    assert_eq!(region_len_1024(4096), 16384); // 48 + 14 * 1064 = 14944
}

#[test]
fn region_lengths_follow_the_page_size() {
    assert_eq!(region_len_16(16384), 16384);
    assert_eq!(region_len_512(8192), 16384);
    assert_eq!(region_len_16(1), 16288);
}

#[test]
fn chunk_header_reports_span_and_first_block() {
    let ch = Node {
        addr: 1 << 20,
        data: MemoryChunk { size: 16336, block_size: 16, first_block: 3, n_blocks: 291 },
    };
    assert_eq!(ch.first(), 3);
    assert_eq!(ch.size(), 16336);
    assert_eq!(ch.total_size(), REGION_HEADER_SIZE + 16336);
}
