use classalloc::datablock::Block;
use classalloc::datablock::BLOCKHEADER;
use classalloc::list::FreeList;
use classalloc::list::Header;
use classalloc::list::LinkedList;
use classalloc::list::Node;

#[test]
fn push_appends_at_the_tail() {
    let mut l: LinkedList<u32> = LinkedList::new();
    assert_eq!(l.len(), 0);
    let i0 = l.push(7, 1000);
    let i1 = l.push(9, 2000);
    assert_eq!((i0, i1), (0, 1));
    assert_eq!(l.len(), 2);
    assert_eq!(l.get(0).data, 7);
    assert_eq!(l.get(0).addr, 1000);
    assert_eq!(l.get(1).data, 9);
}

#[test]
fn remove_shifts_later_nodes_forward() {
    let mut l: LinkedList<u32> = LinkedList::new();
    l.push(1, 10);
    l.push(2, 20);
    l.push(3, 30);
    let gone = l.remove(1);
    assert_eq!(gone.data, 2);
    assert_eq!(l.len(), 2);
    assert_eq!(l.get(0).data, 1);
    assert_eq!(l.get(1).data, 3);
}

#[test]
fn iterator_walks_head_to_tail() {
    let mut l: LinkedList<u32> = LinkedList::new();
    l.push(5, 10);
    l.push(6, 20);
    let mut it = l.iter();
    let mut seen: Vec<u32> = Vec::new();
    while let Some(i) = it.next_index() {
        seen.push(l.get(i).data);
    }
    assert_eq!(seen, vec![5, 6]);
}

#[test]
fn header_precedes_payload() {
    assert_eq!(Header::<Block>::from_ptr(1000), 1000 - BLOCKHEADER);
}

fn arena_of(n: usize) -> Vec<Node<Block>> {
    let mut blocks: Vec<Node<Block>> = Vec::new();
    let mut addr: usize = 4096;
    for _ in 0..n {
        blocks.push(Node {
            addr,
            data: Block { memory_chunk: 0, size: 16, is_free: false },
        });
        addr += BLOCKHEADER + 16;
    }
    blocks
}

#[test]
fn free_list_append_marks_free_and_remove_marks_used() {
    let mut blocks = arena_of(2);
    let mut fl: FreeList = LinkedList::new();
    fl.append_block(&mut blocks, 0);
    fl.append_block(&mut blocks, 1);
    assert!(blocks[0].data.is_free);
    assert!(blocks[1].data.is_free);
    assert_eq!(fl.len(), 2);
    // the free node stands at the block's payload address
    assert_eq!(fl.get(0).addr, blocks[0].addr + BLOCKHEADER);
    assert_eq!(Header::<Block>::from_free_node(fl.get(0)), 0);
    let id = fl.remove_block(&mut blocks, 0);
    assert_eq!(id, 0);
    assert!(!blocks[0].data.is_free);
    assert!(blocks[1].data.is_free);
    assert_eq!(fl.iter_blocks().len, 1);
}
