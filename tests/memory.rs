use rvos::mem::{align_up, AllocError, Page, PageAllocator, PageBits, PAGE_SIZE};

fn heap(pages: u64) -> PageAllocator {
    PageAllocator::init(0x8000_0000, pages * PAGE_SIZE)
}

#[test]
fn align_up_rounds_to_boundary() {
    assert_eq!(align_up(0, 4096), 0);
    assert_eq!(align_up(1, 4096), 4096);
    assert_eq!(align_up(4096, 4096), 4096);
    assert_eq!(align_up(0x8000_0010, 4096), 0x8000_1000);
    assert_eq!(align_up(5, 8), 8);
}

#[test]
fn page_bits_values() {
    assert_eq!(PageBits::Empty.as_u8(), 0);
    assert_eq!(PageBits::Taken.as_u8(), 1);
    assert_eq!(PageBits::Last.as_u8(), 2);
}

#[test]
fn page_flags_set_and_clear() {
    let mut p = Page::new();
    assert!(p.is_free());
    assert!(!p.is_last());
    p.set_flag(PageBits::Taken);
    assert!(p.is_taken());
    assert!(!p.is_free());
    p.set_flag(PageBits::Last);
    assert!(p.is_last());
    p.clear_flag(PageBits::Last);
    assert!(!p.is_last());
    assert!(p.is_taken());
    p.clear();
    assert!(p.is_free());
}

#[test]
fn init_lays_free_descriptors_and_aligned_start() {
    let a = heap(16);
    assert_eq!(a.page_count(), 16);
    assert_eq!(a.alloc_start(), 0x8000_1000);
    for i in 0..16 {
        assert!(a.page(i).is_free());
    }
}

#[test]
fn alloc_marks_run_taken_with_last_at_end() {
    let mut a = heap(16);
    let p = a.alloc_pages(3).unwrap();
    assert_eq!(p, a.alloc_start());
    for i in 0..3 {
        assert!(a.page(i).is_taken());
        assert_eq!(a.page(i).is_last(), i == 2);
    }
    assert!(a.page(3).is_free());
}

#[test]
fn two_allocations_do_not_share_pages() {
    let mut a = heap(16);
    let p = a.alloc_pages(3).unwrap();
    let q = a.alloc_pages(2).unwrap();
    assert_eq!(q, p + 3 * PAGE_SIZE);
    assert!(a.page(2).is_last());
    assert!(a.page(4).is_last());
}

#[test]
fn alloc_fails_when_no_run_is_long_enough() {
    let mut a = heap(4);
    assert_eq!(a.alloc_pages(5), Err(AllocError::OutOfMemory));
    a.alloc_pages(4).unwrap();
    assert_eq!(a.alloc_pages(1), Err(AllocError::OutOfMemory));
}

#[test]
fn alloc_of_whole_heap_succeeds() {
    let mut a = heap(4);
    let p = a.alloc_pages(4).unwrap();
    assert_eq!(p, a.alloc_start());
    assert!(a.page(3).is_last());
}

#[test]
fn dealloc_clears_exactly_the_run() {
    let mut a = heap(16);
    let p = a.alloc_pages(3).unwrap();
    let q = a.alloc_pages(2).unwrap();
    assert!(a.dealloc(p));
    for i in 0..3 {
        assert!(a.page(i).is_free());
    }
    assert!(a.page(3).is_taken());
    assert!(a.page(4).is_last());
    assert!(a.dealloc(q));
    assert!(a.page(3).is_free());
}

#[test]
fn dealloc_refuses_free_or_inner_pages() {
    let mut a = heap(16);
    let p = a.alloc_pages(3).unwrap();
    assert!(!a.dealloc(p + PAGE_SIZE));
    assert!(!a.dealloc(p + 5 * PAGE_SIZE));
    assert!(!a.dealloc(0));
    assert!(a.dealloc(p));
    assert!(!a.dealloc(p));
}

#[test]
fn freed_run_is_reused_first_fit() {
    let mut a = heap(16);
    let p = a.alloc_pages(2).unwrap();
    let _q = a.alloc_pages(2).unwrap();
    assert!(a.dealloc(p));
    assert_eq!(a.alloc_pages(1).unwrap(), p);
}

#[test]
fn zalloc_zeroes_reused_memory() {
    let mut a = heap(8);
    let p = a.alloc_pages(2).unwrap();
    assert!(a.write_byte(p + 10, 0xAB));
    assert!(a.write_byte(p + PAGE_SIZE + 7, 0xCD));
    assert_eq!(a.read_byte(p + 10), Some(0xAB));
    assert!(a.dealloc(p));
    let z = a.zalloc(2).unwrap();
    assert_eq!(z, p);
    assert_eq!(a.read_byte(p + 10), Some(0));
    assert_eq!(a.read_byte(p + PAGE_SIZE + 7), Some(0));
}

#[test]
fn byte_access_outside_memory_is_refused() {
    let mut a = heap(2);
    let end = a.alloc_start() + 2 * PAGE_SIZE;
    assert_eq!(a.read_byte(end), None);
    assert!(!a.write_byte(end, 1));
    assert_eq!(a.read_byte(end - 1), Some(0));
}
