use lib::compiler::allocator::{Allocation, ExecutableMemoryAllocator, ExecutablePage};

/// Places `size` bytes, mapping a new page at `next_address` when the
/// allocator asks for one.
fn place(allocator: &mut ExecutableMemoryAllocator, size: usize, next_address: usize) -> usize {
    match allocator.allocate(size) {
        Allocation::Placed(address) => address,
        Allocation::NeedsPage(page_size) => {
            let page = ExecutablePage::new(next_address, page_size).unwrap();
            allocator.add_page(page, size)
        }
    }
}

#[test]
fn test_allocate_page1() {
    let mut page = ExecutablePage::new(0x10000, 4096).unwrap();
    let allocate1 = page.try_allocate(100);
    assert!(allocate1.is_some());

    let allocate2 = page.try_allocate(100);
    assert!(allocate2.is_some());
    assert_ne!(allocate1, allocate2);

    let allocate3 = page.try_allocate(5000);
    assert!(allocate3.is_none());
}

#[test]
fn test_allocate_manager1() {
    let mut allocator = ExecutableMemoryAllocator::new();
    assert_ne!(0, place(&mut allocator, 100, 0x10000));
    assert_ne!(0, place(&mut allocator, 5100, 0x20000));
    assert_eq!(2, allocator.num_pages());
}

#[test]
fn null_mapping_gives_no_page() {
    assert!(ExecutablePage::new(0, 4096).is_none());
}

#[test]
fn page_hands_out_consecutive_pieces() {
    let mut page = ExecutablePage::new(0x10000, 4096).unwrap();
    assert_eq!(Some(0x10000), page.try_allocate(100));
    assert_eq!(Some(0x10064), page.try_allocate(200));
    assert_eq!(None, page.try_allocate(3797));
    assert_eq!(Some(0x1012c), page.try_allocate(3796));
    assert_eq!(None, page.try_allocate(1));
    assert_eq!(Some(0x11000), page.try_allocate(0));
}

#[test]
fn new_pages_are_whole_pages() {
    let mut allocator = ExecutableMemoryAllocator::new();
    assert_eq!(Allocation::NeedsPage(4096), allocator.allocate(1));
    assert_eq!(Allocation::NeedsPage(4096), allocator.allocate(4096));
    assert_eq!(Allocation::NeedsPage(8192), allocator.allocate(4097));
    assert_eq!(Allocation::NeedsPage(8192), allocator.allocate(5100));
    assert_eq!(Allocation::NeedsPage(0), allocator.allocate(0));
    assert_eq!(0, allocator.num_pages());
}

#[test]
fn first_page_with_room_is_used() {
    let mut allocator = ExecutableMemoryAllocator::new();
    assert_eq!(0x10000, place(&mut allocator, 4000, 0x10000));
    assert_eq!(0x20000, place(&mut allocator, 200, 0x20000));
    assert_eq!(2, allocator.num_pages());
    assert_eq!(Allocation::Placed(0x10fa0), allocator.allocate(96));
    assert_eq!(Allocation::Placed(0x200c8), allocator.allocate(1));
    assert_eq!(Allocation::Placed(0x200c9), allocator.allocate(10));
    assert_eq!(2, allocator.num_pages());
}
