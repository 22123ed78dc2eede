use classalloc::alignment::header_ptr_of;
use classalloc::alignment::minimum_block_size_for;
use classalloc::alignment::minimum_block_size_no_padding;
use classalloc::alignment::next_aligned;
use classalloc::alignment::padding_needed_for;
use classalloc::alignment::padding_required;

#[test]
fn padding_to_pointer_width() {
    assert_eq!(padding_needed_for(0, 8), 0);
    assert_eq!(padding_needed_for(16, 8), 0);
    assert_eq!(padding_needed_for(20, 8), 4);
    assert_eq!(padding_needed_for(1001, 8), 7);
    assert_eq!(padding_needed_for(5, 64), 59);
}

#[test]
fn minimum_block_size_pads_and_floors() {
    // the exact minimum for the smallest class
    assert_eq!(minimum_block_size_for(16, 8), 16);
    // tiny requests are floored at the minimum block size
    assert_eq!(minimum_block_size_for(1, 1), 16);
    assert_eq!(minimum_block_size_for(8, 8), 16);
    // padded to a multiple of the pointer width
    assert_eq!(minimum_block_size_for(20, 8), 24);
    assert_eq!(minimum_block_size_for(1001, 8), 1008);
    // an over-aligned request reserves a full extra alignment
    assert_eq!(minimum_block_size_for(20, 64), 88);
    assert_eq!(minimum_block_size_for(16, 128), 144);
}

#[test]
fn minimum_block_size_without_alignment_padding() {
    assert_eq!(minimum_block_size_no_padding(10), 16);
    assert_eq!(minimum_block_size_no_padding(16), 16);
    assert_eq!(minimum_block_size_no_padding(20), 24);
    assert_eq!(minimum_block_size_no_padding(64), 64);
}

#[test]
fn next_aligned_steps_to_a_multiple() {
    // 1000 = 15 * 64 + 40: 24 bytes of padding reach 1024
    assert_eq!(next_aligned(1000, 64), (1024, 24));
    // an already aligned address still pays a full alignment of padding
    // when the alignment exceeds the pointer width: the slot before the
    // returned address must stay free for the indirect header pointer
    assert_eq!(next_aligned(1024, 64), (1088, 64));
    // at pointer-width alignment an aligned address is returned as is
    assert_eq!(next_aligned(1000, 8), (1000, 0));
    assert_eq!(next_aligned(1001, 8), (1008, 7));
    assert_eq!(padding_required(1000, 64), 24);
    assert_eq!(padding_required(1024, 64), 64);
}

#[test]
fn header_slot_precedes_address() {
    assert_eq!(header_ptr_of(1024), 1016);
    assert_eq!(header_ptr_of(8), 0);
}
