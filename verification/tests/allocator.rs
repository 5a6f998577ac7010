//! Behavioural tests of the free-list allocator: first-fit order, alignment,
//! the sliver-rejection policy, exhaustion, and reuse after free.

use kernel_dev::allocator::align_up;
use kernel_dev::allocator::linked_list::{LinkedListAllocator, ListNode, NODE_ALIGN, NODE_SIZE};

const HEAP_START: usize = 4096;
const HEAP_SIZE: usize = 4096;

fn fresh_heap() -> LinkedListAllocator {
    let mut a = LinkedListAllocator::new();
    a.init(HEAP_START, HEAP_SIZE);
    a
}

#[test]
fn node_constants_fit_each_other() {
    assert_eq!(NODE_SIZE, 16);
    assert_eq!(NODE_ALIGN, 8);
    assert_eq!(NODE_SIZE % NODE_ALIGN, 0);
}

#[test]
fn list_node_addresses() {
    let n = ListNode::new(4096, 32);
    assert_eq!(n.start_addr(), 4096);
    assert_eq!(n.end_addr(), 4128);
    assert_eq!(n.addr, 4096);
    assert_eq!(n.size, 32);
}

#[test]
fn align_up_values() {
    assert_eq!(align_up(5, 8), 8);
    assert_eq!(align_up(16, 8), 16);
    assert_eq!(align_up(0, 4), 0);
    assert_eq!(align_up(17, 1), 17);
    assert_eq!(align_up(100, 8), 104);
}

#[test]
fn size_align_values() {
    assert_eq!(LinkedListAllocator::size_align(100, 8), (104, 8));
    assert_eq!(LinkedListAllocator::size_align(1, 1), (16, 8));
    assert_eq!(LinkedListAllocator::size_align(0, 1), (16, 8));
    assert_eq!(LinkedListAllocator::size_align(10, 64), (64, 64));
    assert_eq!(LinkedListAllocator::size_align(16, 16), (16, 16));
    assert_eq!(LinkedListAllocator::size_align(100, 4), (104, 8));
}

#[test]
fn alloc_from_region_fit_and_policy() {
    let n = ListNode::new(4096, 32);
    // exact use of the whole region
    assert_eq!(LinkedListAllocator::alloc_from_region(&n, 32, 8), Ok(4096));
    // a 16-byte tail remains: acceptable
    assert_eq!(LinkedListAllocator::alloc_from_region(&n, 16, 8), Ok(4096));
    // an 8-byte tail would remain: rejected, never a sliver
    assert_eq!(LinkedListAllocator::alloc_from_region(&n, 24, 8), Err(()));
    // too big outright
    assert_eq!(LinkedListAllocator::alloc_from_region(&n, 33, 8), Err(()));
}

#[test]
fn alloc_from_region_aligns_inside_region() {
    let n = ListNode::new(4104, 128);
    assert_eq!(LinkedListAllocator::alloc_from_region(&n, 16, 64), Ok(4160));
}

#[test]
fn empty_allocator_serves_nothing() {
    let mut a = LinkedListAllocator::new();
    assert_eq!(a.allocate(1, 1), None);
}

#[test]
fn whole_heap_is_usable() {
    let mut a = fresh_heap();
    assert_eq!(a.allocate(HEAP_SIZE, 8), Some(HEAP_START));
    assert_eq!(a.allocate(1, 1), None);
}

#[test]
fn scenario_first_fit_reuse() {
    // heap of 4096 bytes; two disjoint allocations; freeing the first makes
    // its region the head of the list, so a smaller request reuses it
    let mut a = fresh_heap();
    let first = a.allocate(100, 8).expect("first allocation");
    assert_eq!(first, HEAP_START);
    assert_eq!(first % 8, 0);
    let second = a.allocate(100, 8).expect("second allocation");
    assert_eq!(second, HEAP_START + 104);
    // disjoint: [4096, 4200) and [4200, 4304)
    assert!(first + 104 <= second);
    a.deallocate(first, 100, 8);
    let third = a.allocate(50, 8).expect("third allocation");
    assert_eq!(third, first);
}

#[test]
fn requested_alignment_is_honoured() {
    let mut a = LinkedListAllocator::new();
    // a heap start that is header-aligned but not 64-byte-aligned
    a.init(4104, 4096);
    let p = a.allocate(10, 64).expect("aligned allocation");
    assert_eq!(p % 64, 0);
    assert_eq!(p, 4160);
}

#[test]
fn exhaustion_fails_and_leaves_the_list_alone() {
    let mut a = fresh_heap();
    // larger than the whole heap: fails synchronously
    assert_eq!(a.allocate(2 * HEAP_SIZE, 8), None);
    // and the free list is untouched: the next allocation starts at the head
    assert_eq!(a.allocate(100, 8), Some(HEAP_START));
}

#[test]
fn undersized_tail_is_rejected() {
    // one region of exactly header + request + 1 byte: the request would
    // leave a 1-byte sliver, so it must not be served from this region
    let mut a = LinkedListAllocator::new();
    a.init(HEAP_START, 105);
    assert_eq!(a.allocate(100, 8), None);
}

#[test]
fn undersized_tail_is_skipped_for_a_later_region() {
    let mut a = LinkedListAllocator::new();
    a.init(8192, 4096);
    // put a 105-byte region at the head: large enough for the request, but
    // its tail would be a sliver
    a.add_free_region(HEAP_START, 105);
    let p = a.allocate(100, 8).expect("allocation from the larger region");
    assert_eq!(p, 8192);
}

#[test]
fn free_memory_is_conserved_without_coalescing() {
    let mut a = fresh_heap();
    let p = a.allocate(100, 8).expect("allocation");
    a.deallocate(p, 100, 8);
    // the freed region and the leftover tail are separate nodes now, but no
    // byte was lost: both can be handed out again, back to back
    assert_eq!(a.allocate(104, 8), Some(HEAP_START));
    assert_eq!(a.allocate(HEAP_SIZE - 104, 8), Some(HEAP_START + 104));
    assert_eq!(a.allocate(16, 8), None);
}

#[test]
fn same_request_reuses_the_freed_block() {
    let mut a = fresh_heap();
    let p = a.allocate(100, 8).expect("allocation");
    a.deallocate(p, 100, 8);
    assert_eq!(a.allocate(100, 8), Some(p));
}

#[test]
fn adjacent_freed_regions_do_not_merge() {
    let mut a = fresh_heap();
    let first = a.allocate(16, 8).expect("first allocation");
    let second = a.allocate(16, 8).expect("second allocation");
    assert_eq!(first, HEAP_START);
    assert_eq!(second, HEAP_START + 16);
    a.deallocate(first, 16, 8);
    a.deallocate(second, 16, 8);
    // [4096, 4128) is free and contiguous now, but it is tracked as two
    // 16-byte nodes: a 32-byte request must fall through to the big region
    let p = a.allocate(32, 8).expect("allocation from the untouched tail");
    assert_eq!(p, HEAP_START + 32);
}

#[test]
fn find_region_detaches_the_node() {
    let mut a = fresh_heap();
    let (node, start) = a.find_region(104, 8).expect("one region fits");
    assert_eq!(node.addr, HEAP_START);
    assert_eq!(node.size, HEAP_SIZE);
    assert_eq!(start, HEAP_START);
    // the list is empty now: find_region removed the node and nothing re-adds
    assert_eq!(a.find_region(16, 8), None);
}
