use onixlib::allocator::fixed_size_block::{list_index, FixedSizeBlockAllocator};
use onixlib::allocator::layout::Layout;
use onixlib::allocator::linked_list::LinkedListAllocator;

/// Where the simulated heaps start: far from address 0 and aligned to 1 MiB.
const HEAP_BASE: usize = 0x10_0000;

/// A heap of `size` bytes at `HEAP_BASE`, with its bytes, so that what is
/// written to an allocation can be checked when it is given back.
struct Memory {
    bytes: Vec<u8>,
}

impl Memory {
    fn new(size: usize) -> Self {
        Memory { bytes: vec![0x11; size] }
    }

    fn fill(&mut self, ptr: usize, len: usize, byte: u8) {
        for i in 0..len {
            self.bytes[ptr - HEAP_BASE + i] = byte;
        }
    }

    fn check(&self, ptr: usize, len: usize, byte: u8) {
        for i in 0..len {
            assert_eq!(self.bytes[ptr - HEAP_BASE + i], byte);
        }
    }
}

struct TestLinkedList {
    allocator: LinkedListAllocator,
    memory: Memory,
}

impl TestLinkedList {
    fn allocate(&mut self, layout: Layout) -> Option<usize> {
        let ptr = self.allocator.allocate(layout)?;
        self.memory.fill(ptr, layout.size(), 0x33);
        Some(ptr)
    }

    fn deallocate(&mut self, ptr: usize, layout: Layout) {
        self.memory.check(ptr, layout.size(), 0x33);
        self.memory.fill(ptr, layout.size(), 0x55);
        self.allocator.deallocate(ptr, layout);
    }
}

fn with_linked_list<F: FnOnce(&mut TestLinkedList)>(size: usize, test_fn: F) {
    let mut allocator = LinkedListAllocator::new();
    allocator.add_heap(HEAP_BASE, size);
    let mut t = TestLinkedList { allocator, memory: Memory::new(size) };
    test_fn(&mut t);
}

struct TestFixed {
    allocator: FixedSizeBlockAllocator,
    memory: Memory,
}

impl TestFixed {
    fn allocate(&mut self, layout: Layout) -> Option<usize> {
        let ptr = self.allocator.allocate(layout)?;
        self.memory.fill(ptr, layout.size(), 0x33);
        Some(ptr)
    }

    fn deallocate(&mut self, ptr: usize, layout: Layout) {
        self.memory.check(ptr, layout.size(), 0x33);
        self.memory.fill(ptr, layout.size(), 0x55);
        self.allocator.deallocate(ptr, layout);
    }
}

fn with_fixed<F: FnOnce(&mut TestFixed)>(size: usize, test_fn: F) {
    let mut allocator = FixedSizeBlockAllocator::new();
    allocator.add_heap(HEAP_BASE, size);
    let mut t = TestFixed { allocator, memory: Memory::new(size) };
    test_fn(&mut t);
}

fn layout(size: usize, align: usize) -> Layout {
    Layout::from_size_align(size, align).unwrap()
}

const BLOCK_SIZES: [usize; 9] = [8, 16, 32, 64, 128, 256, 512, 1024, 2048];

#[test]
fn test_list_index() {
    assert_eq!(list_index(&Layout::from_size_align(1, 1).unwrap()), Some(0));
    assert_eq!(list_index(&Layout::from_size_align(8, 1).unwrap()), Some(0));
    assert_eq!(list_index(&Layout::from_size_align(16, 1).unwrap()), Some(1));
    assert_eq!(list_index(&Layout::from_size_align(32, 1).unwrap()), Some(2));
    assert_eq!(list_index(&Layout::from_size_align(64, 1).unwrap()), Some(3));
    assert_eq!(list_index(&Layout::from_size_align(128, 1).unwrap()), Some(4));
    assert_eq!(list_index(&Layout::from_size_align(256, 1).unwrap()), Some(5));
    assert_eq!(list_index(&Layout::from_size_align(512, 1).unwrap()), Some(6));
    assert_eq!(list_index(&Layout::from_size_align(1024, 1).unwrap()), Some(7));
    assert_eq!(list_index(&Layout::from_size_align(2048, 1).unwrap()), Some(8));
    assert_eq!(list_index(&Layout::from_size_align(4096, 1).unwrap()), None);
    assert_eq!(list_index(&Layout::from_size_align(8192, 1).unwrap()), None);
}

#[test]
fn fixed_size_block_test_basic_allocation() {
    with_fixed(8192, |allocator| {
        let layout = layout(64, 1);
        let ptr = allocator.allocate(layout).unwrap();
        assert!(ptr != 0);
        allocator.deallocate(ptr, layout);
    });
}

#[test]
fn fixed_size_block_test_multiple_allocations() {
    with_fixed(8192, |allocator| {
        let layout = layout(64, 1);
        let ptr1 = allocator.allocate(layout).unwrap();
        let ptr2 = allocator.allocate(layout).unwrap();
        let ptr3 = allocator.allocate(layout).unwrap();
        assert!(ptr1 != 0 && ptr2 != 0 && ptr3 != 0);
        assert_ne!(ptr1, ptr2);
        assert_ne!(ptr2, ptr3);
        assert_ne!(ptr1, ptr3);
        allocator.deallocate(ptr1, layout);
        allocator.deallocate(ptr2, layout);
        allocator.deallocate(ptr3, layout);
    });
}

#[test]
fn test_different_block_sizes() {
    with_fixed(4096 * 1024, |allocator| {
        let mut ptrs = Vec::new();
        for &size in &BLOCK_SIZES {
            let layout = layout(size, 1);
            let ptr = allocator.allocate(layout).unwrap();
            assert!(ptr != 0);
            ptrs.push((ptr, layout));
        }
        for (ptr, layout) in ptrs {
            allocator.deallocate(ptr, layout);
        }
    });
}

#[test]
fn test_fallback_allocator() {
    with_fixed(16384, |allocator| {
        let layout = layout(4096, 1);
        let ptr = allocator.allocate(layout).unwrap();
        assert!(ptr != 0);
        allocator.deallocate(ptr, layout);
    });
}

#[test]
fn test_arena_allocation() {
    with_fixed(16384, |allocator| {
        let layout = layout(64, 1);
        let mut ptrs = Vec::new();
        for _ in 0..100 {
            if let Some(ptr) = allocator.allocate(layout) {
                ptrs.push(ptr);
            } else {
                break;
            }
        }
        assert!(!ptrs.is_empty());
        for ptr in ptrs {
            allocator.deallocate(ptr, layout);
        }
    });
}

#[test]
fn fixed_size_block_test_alignment() {
    with_fixed(8192, |allocator| {
        let layout = layout(64, 64);
        let ptr = allocator.allocate(layout).unwrap();
        assert!(ptr != 0);
        assert_eq!(ptr % 64, 0);
        allocator.deallocate(ptr, layout);
    });
}

#[test]
fn fixed_size_block_test_large_alignment() {
    with_fixed(8192, |allocator| {
        let layout = layout(256, 256);
        let ptr = allocator.allocate(layout).unwrap();
        assert!(ptr != 0);
        assert_eq!(ptr % 256, 0);
        allocator.deallocate(ptr, layout);
    });
}

#[test]
fn test_mixed_allocation_patterns() {
    with_fixed(4096 * 1024, |allocator| {
        let layout1 = layout(32, 1);
        let layout2 = layout(128, 1);
        let layout3 = layout(512, 1);
        let layout4 = layout(4096, 1);
        let ptr1 = allocator.allocate(layout1).unwrap();
        let ptr2 = allocator.allocate(layout2).unwrap();
        let ptr3 = allocator.allocate(layout3).unwrap();
        let ptr4 = allocator.allocate(layout4).unwrap();
        assert!(ptr1 != 0 && ptr2 != 0 && ptr3 != 0 && ptr4 != 0);
        allocator.deallocate(ptr1, layout1);
        allocator.deallocate(ptr2, layout2);
        allocator.deallocate(ptr3, layout3);
        allocator.deallocate(ptr4, layout4);
    });
}

#[test]
fn test_fragmentation_handling() {
    with_fixed(16384, |allocator| {
        let layout = layout(128, 1);
        let mut ptrs = Vec::new();
        for _ in 0..10 {
            if let Some(ptr) = allocator.allocate(layout) {
                ptrs.push(ptr);
            } else {
                break;
            }
        }
        for (i, ptr) in ptrs.iter().enumerate() {
            if i % 2 == 0 {
                allocator.deallocate(*ptr, layout);
            }
        }
        let new_ptr = allocator.allocate(layout).unwrap();
        assert!(new_ptr != 0);
        allocator.deallocate(new_ptr, layout);
        for (i, ptr) in ptrs.iter().enumerate() {
            if i % 2 != 0 {
                allocator.deallocate(*ptr, layout);
            }
        }
    });
}

#[test]
fn fixed_size_block_test_reallocation_after_full_deallocation() {
    with_fixed(8192, |allocator| {
        let layout = layout(64, 1);
        let mut ptrs = Vec::new();
        for _ in 0..100 {
            if let Some(ptr) = allocator.allocate(layout) {
                ptrs.push(ptr);
            } else {
                break;
            }
        }
        assert!(!ptrs.is_empty());
        for ptr in ptrs {
            allocator.deallocate(ptr, layout);
        }
        let ptr = allocator.allocate(layout).unwrap();
        assert!(ptr != 0);
        allocator.deallocate(ptr, layout);
    });
}

#[test]
fn fixed_size_block_test_out_of_memory() {
    with_fixed(1024, |allocator| {
        let layout = layout(8192, 1);
        let ptr = allocator.allocate(layout);
        assert!(ptr.is_none());
    });
}

#[test]
fn test_default_constructor() {
    let allocator = FixedSizeBlockAllocator::default();
    assert_eq!(allocator.list_heads_len(), BLOCK_SIZES.len());
}

#[test]
fn test_empty_allocator() {
    let mut allocator = FixedSizeBlockAllocator::new();
    let layout = layout(64, 1);
    let ptr = allocator.allocate(layout);
    assert!(ptr.is_none());
}

#[test]
fn test_small_heap_handling() {
    with_fixed(128, |allocator| {
        let layout = layout(64, 1);
        let ptr = allocator.allocate(layout);
        if let Some(ptr) = ptr {
            allocator.deallocate(ptr, layout);
        }
    });
}

#[test]
fn test_boundary_sizes() {
    with_fixed(16384, |allocator| {
        let layouts = [layout(7, 1), layout(15, 1), layout(2047, 1), layout(2049, 1)];
        let mut ptrs = Vec::new();
        for layout in layouts {
            if let Some(ptr) = allocator.allocate(layout) {
                ptrs.push((ptr, layout));
            }
        }
        for (ptr, layout) in ptrs {
            allocator.deallocate(ptr, layout);
        }
    });
}

#[test]
fn linked_list_test_basic_allocation() {
    with_linked_list(1024, |allocator| {
        let layout = layout(64, 1);
        let ptr = allocator.allocate(layout).unwrap();
        assert!(ptr != 0);
        allocator.deallocate(ptr, layout);
    });
}

#[test]
fn linked_list_test_multiple_allocations() {
    with_linked_list(1024, |allocator| {
        let layout = layout(64, 1);
        let ptr1 = allocator.allocate(layout).unwrap();
        let ptr2 = allocator.allocate(layout).unwrap();
        let ptr3 = allocator.allocate(layout).unwrap();
        assert!(ptr1 != 0 && ptr2 != 0 && ptr3 != 0);
        assert_ne!(ptr1, ptr2);
        assert_ne!(ptr2, ptr3);
        assert_ne!(ptr1, ptr3);
        allocator.deallocate(ptr1, layout);
        allocator.deallocate(ptr2, layout);
        allocator.deallocate(ptr3, layout);
    });
}

#[test]
fn linked_list_test_alignment() {
    with_linked_list(1024, |allocator| {
        let layout = layout(64, 64);
        let ptr = allocator.allocate(layout).unwrap();
        assert!(ptr != 0);
        assert_eq!(ptr % 64, 0);
        allocator.deallocate(ptr, layout);
    });
}

#[test]
fn linked_list_test_large_alignment() {
    with_linked_list(2048, |allocator| {
        let layout = layout(32, 256);
        let ptr = allocator.allocate(layout).unwrap();
        assert!(ptr != 0);
        assert_eq!(ptr % 256, 0);
        allocator.deallocate(ptr, layout);
    });
}

#[test]
fn test_fragmentation_and_coalescing() {
    with_linked_list(256, |allocator| {
        let layout = layout(64, 1);
        let ptr1 = allocator.allocate(layout).unwrap();
        let ptr2 = allocator.allocate(layout).unwrap();
        let ptr3 = allocator.allocate(layout).unwrap();
        let ptr4 = allocator.allocate(layout).unwrap();
        assert!(allocator.allocate(layout).is_none());
        assert!(ptr1 < ptr2 && ptr2 < ptr3 && ptr3 < ptr4);
        allocator.deallocate(ptr2, layout);
        allocator.deallocate(ptr1, layout);
        let large_layout = Layout::from_size_align(128, 1).unwrap();
        let large_ptr = allocator.allocate(large_layout).unwrap();
        assert!(large_ptr != 0);
        allocator.deallocate(large_ptr, large_layout);
        allocator.deallocate(ptr3, layout);
    });
}

#[test]
fn test_fragmentation_and_allocation_failure() {
    with_linked_list(256, |allocator| {
        let layout = layout(64, 1);
        let ptr1 = allocator.allocate(layout).unwrap();
        let ptr2 = allocator.allocate(layout).unwrap();
        let ptr3 = allocator.allocate(layout).unwrap();
        let ptr4 = allocator.allocate(layout).unwrap();
        assert!(allocator.allocate(layout).is_none());
        allocator.deallocate(ptr2, layout);
        allocator.deallocate(ptr4, layout);
        let large_layout = Layout::from_size_align(128, 1).unwrap();
        assert!(allocator.allocate(large_layout).is_none());
        allocator.deallocate(ptr1, layout);
        allocator.deallocate(ptr3, layout);
    });
}

#[test]
fn test_allocate_entire_heap() {
    with_linked_list(1024, |allocator| {
        let layout = layout(1024, 1);
        let ptr = allocator.allocate(layout).unwrap();
        assert!(ptr != 0);
        assert!(allocator.allocate(layout).is_none());
        allocator.deallocate(ptr, layout);
        let ptr = allocator.allocate(layout).unwrap();
        assert!(ptr != 0);
    });
}

#[test]
fn linked_list_test_out_of_memory() {
    with_linked_list(128, |allocator| {
        let layout = layout(256, 1);
        let ptr = allocator.allocate(layout);
        assert!(ptr.is_none());
    });
}

#[test]
fn test_small_heap() {
    with_linked_list(32, |allocator| {
        let layout = layout(16, 1);
        let ptr = allocator.allocate(layout).unwrap();
        assert!(ptr != 0);
        allocator.deallocate(ptr, layout);
    });
}

#[test]
fn test_allocate_from_insufficient_heap() {
    with_linked_list(8, |allocator| {
        let layout = layout(16, 1);
        let ptr = allocator.allocate(layout);
        assert!(ptr.is_none());
    });
}

#[test]
fn linked_list_test_reallocation_after_full_deallocation() {
    with_linked_list(1024, |allocator| {
        let layout = layout(64, 1);
        let mut ptrs = Vec::new();
        while let Some(ptr) = allocator.allocate(layout) {
            ptrs.push(ptr);
        }
        assert!(!ptrs.is_empty());
        for ptr in ptrs {
            allocator.deallocate(ptr, layout);
        }
        let ptr = allocator.allocate(layout).unwrap();
        assert!(ptr != 0);
        allocator.deallocate(ptr, layout);
    });
}

#[test]
fn test_different_sized_allocations() {
    with_linked_list(1024, |allocator| {
        let layout1 = layout(32, 1);
        let layout2 = layout(64, 1);
        let layout3 = layout(128, 1);
        let ptr1 = allocator.allocate(layout1).unwrap();
        let ptr2 = allocator.allocate(layout2).unwrap();
        let ptr3 = allocator.allocate(layout3).unwrap();
        assert!(ptr1 != 0 && ptr2 != 0 && ptr3 != 0);
        allocator.deallocate(ptr1, layout1);
        allocator.deallocate(ptr2, layout2);
        allocator.deallocate(ptr3, layout3);
    });
}

// The first-fit rule on concrete addresses: requests are carved from the
// lowest free block, in address order.
#[test]
fn linked_list_first_fit_addresses() {
    let mut allocator = LinkedListAllocator::new();
    allocator.add_heap(HEAP_BASE, 256);
    let l = layout(64, 1);
    assert_eq!(allocator.allocate(l), Some(HEAP_BASE));
    assert_eq!(allocator.allocate(l), Some(HEAP_BASE + 64));
    allocator.deallocate(HEAP_BASE, l);
    assert_eq!(allocator.allocate(l), Some(HEAP_BASE));
}

// Sizes and alignments are rounded up to 16 bytes.
#[test]
fn linked_list_rounds_requests_up() {
    let mut allocator = LinkedListAllocator::new();
    allocator.add_heap(HEAP_BASE, 64);
    let l = layout(1, 1);
    assert_eq!(allocator.allocate(l), Some(HEAP_BASE));
    assert_eq!(allocator.allocate(l), Some(HEAP_BASE + 16));
    assert_eq!(allocator.allocate(l), Some(HEAP_BASE + 32));
    assert_eq!(allocator.allocate(l), Some(HEAP_BASE + 48));
    assert_eq!(allocator.allocate(l), None);
}

// A heap that starts off the 16-byte grid loses its first bytes.
#[test]
fn linked_list_unaligned_heap_start() {
    let mut allocator = LinkedListAllocator::new();
    allocator.add_heap(HEAP_BASE + 8, 40);
    assert_eq!(allocator.allocate(layout(16, 1)), Some(HEAP_BASE + 16));
    assert_eq!(allocator.allocate(layout(16, 1)), Some(HEAP_BASE + 32));
    assert_eq!(allocator.allocate(layout(16, 1)), None);
}

#[test]
fn layout_rejects_bad_alignment() {
    assert!(Layout::from_size_align(8, 3).is_err());
    assert!(Layout::from_size_align(8, 0).is_err());
    let l = Layout::from_size_align(24, 8).unwrap();
    assert_eq!(l.size(), 24);
    assert_eq!(l.align(), 8);
}

// A block list serves a small request from an arena carved out of the
// fallback heap, and takes the block back for the next request.
#[test]
fn fixed_size_block_reuses_freed_block() {
    let mut allocator = FixedSizeBlockAllocator::new();
    allocator.add_heap(HEAP_BASE, 8192);
    let l = layout(64, 1);
    let a = allocator.allocate(l).unwrap();
    let b = allocator.allocate(l).unwrap();
    assert_ne!(a, b);
    allocator.deallocate(a, l);
    assert_eq!(allocator.allocate(l), Some(a));
}

// The bytes that alignment skips at the start of a free block stay free.
#[test]
fn linked_list_keeps_alignment_padding_free() {
    let mut allocator = LinkedListAllocator::new();
    allocator.add_heap(HEAP_BASE + 16, 64);
    let aligned = layout(16, 32);
    assert_eq!(allocator.allocate(aligned), Some(HEAP_BASE + 32));
    let small = layout(16, 16);
    assert_eq!(allocator.allocate(small), Some(HEAP_BASE + 16));
    assert_eq!(allocator.allocate(small), Some(HEAP_BASE + 48));
    assert_eq!(allocator.allocate(small), Some(HEAP_BASE + 64));
    assert_eq!(allocator.allocate(small), None);
}
