use paging::addr::{Frame, Page};
use paging::allocator::{FrameAllocator, TinyAllocator};
use paging::entry::{Entry, HUGE_PAGE, PRESENT, WRITABLE};
use paging::memory::PhysicalMemory;
use paging::paging::{ActivePageTable, MapToError, UnmapError};
use paging::table::{Level4, Table, P4};
use paging::temporary_page::{InactivePageTable, TemporaryPage};

/// Hands out the listed frames in order.
struct ListAllocator {
    frames: Vec<Frame>,
    next: usize,
}

impl ListAllocator {
    fn new(numbers: &[u64]) -> ListAllocator {
        ListAllocator { frames: numbers.iter().map(|&n| Frame { number: n }).collect(), next: 0 }
    }
}

impl FrameAllocator for ListAllocator {
    fn inv(&self) -> bool {
        true
    }

    fn has_room(&self) -> bool {
        true
    }

    fn allocate_frame(&mut self) -> Option<Frame> {
        if self.next < self.frames.len() {
            self.next += 1;
            Some(self.frames[self.next - 1])
        } else {
            None
        }
    }

    fn deallocate_frame(&mut self, frame: Frame) {
        self.frames.push(frame);
    }
}

fn active() -> ActivePageTable {
    ActivePageTable::new(Frame { number: 100 }, PhysicalMemory::new())
}

fn page_at(address: u64) -> Page {
    Page::containing_address(address).unwrap()
}

#[test]
fn map_then_translate_and_leaf_word() {
    let mut table = active();
    let mut alloc = ListAllocator::new(&[200, 201, 202]);
    let page = page_at(0x400000);
    let frame = Frame::containing_address(0x1000);
    assert_eq!(table.map_to(page, frame, WRITABLE, &mut alloc), Ok(()));
    assert_eq!(table.translate_page(page), Some(Frame { number: 1 }));
    assert_eq!(table.leaf_entry(page), Some(Entry(0x1000 | PRESENT | WRITABLE)));
    assert_eq!(table.leaf_entry(page).unwrap().0, 0x1003);
    assert_eq!(table.translate(0x400123), Some(0x1123));
}

#[test]
fn mapping_persists_while_other_page_changes() {
    let mut table = active();
    let mut alloc = ListAllocator::new(&[200, 201, 202]);
    let a = page_at(0x400000);
    let b = page_at(0x401000);
    assert_eq!(table.map_to(a, Frame { number: 7 }, WRITABLE, &mut alloc), Ok(()));
    assert_eq!(table.map_to(b, Frame { number: 8 }, 0, &mut alloc), Ok(()));
    assert_eq!(alloc.next, 3);
    assert_eq!(table.unmap(b), Ok(Frame { number: 8 }));
    assert_eq!(table.translate_page(a), Some(Frame { number: 7 }));
}

#[test]
fn unmap_then_translate_is_none_and_second_unmap_fails() {
    let mut table = active();
    let mut alloc = ListAllocator::new(&[200, 201, 202]);
    let page = page_at(0x400000);
    assert_eq!(table.map_to(page, Frame { number: 9 }, WRITABLE, &mut alloc), Ok(()));
    assert_eq!(table.unmap(page), Ok(Frame { number: 9 }));
    assert_eq!(table.translate_page(page), None);
    assert_eq!(table.unmap(page), Err(UnmapError::PageNotMapped));
}

#[test]
fn unmap_of_never_mapped_page() {
    let mut table = active();
    assert_eq!(table.unmap(page_at(0x400000)), Err(UnmapError::PageNotMapped));
}

#[test]
fn zero_then_create_gives_unused_child() {
    let mut mem = PhysicalMemory::new();
    let t: Table<Level4> = Table::new(Frame { number: 5 }, P4);
    t.set_index(&mut mem, 3, Entry(0xdead_b000 | PRESENT));
    t.zero(&mut mem);
    assert_eq!(t.index(&mem, 3), Entry(0));
    let mut alloc = ListAllocator::new(&[6]);
    let child = t.next_table_create(&mut mem, 3, &mut alloc).unwrap();
    assert_eq!(child.frame, Frame { number: 6 });
    let again = t.next_table(&mem, 3).unwrap();
    assert_eq!(again.frame, Frame { number: 6 });
    for i in 0..512 {
        assert!(again.index(&mem, i).is_unused());
    }
    assert_eq!(t.index(&mem, 3), Entry(0x6000 | PRESENT | WRITABLE));
}

#[test]
fn next_table_address_is_recursive_arithmetic() {
    let mut mem = PhysicalMemory::new();
    let t: Table<Level4> = Table::new(Frame { number: 5 }, P4);
    assert_eq!(t.next_table_address(&mem, 5), None);
    t.set_index(&mut mem, 5, Entry(0x7000 | PRESENT | WRITABLE));
    assert_eq!(t.next_table_address(&mem, 5), Some(0xffff_ffff_ffe0_5000));
    let child = t.next_table(&mem, 5).unwrap();
    assert_eq!(child.address, (P4 << 9) | (5 << 12));
    assert_eq!(child.frame, Frame { number: 7 });
    t.set_index(&mut mem, 6, Entry(0x8000 | PRESENT | HUGE_PAGE));
    assert!(t.next_table(&mem, 6).is_none());
    assert!(t.next_table_mut(&mut mem, 6).is_none());
}

#[test]
fn create_twice_takes_one_frame() {
    let mut mem = PhysicalMemory::new();
    let t: Table<Level4> = Table::new(Frame { number: 5 }, P4);
    let mut alloc = ListAllocator::new(&[6, 7]);
    let first = t.next_table_create(&mut mem, 9, &mut alloc).unwrap();
    let second = t.next_table_create(&mut mem, 9, &mut alloc).unwrap();
    assert_eq!(first.frame, second.frame);
    assert_eq!(first.address, second.address);
    assert_eq!(alloc.next, 1);
}

#[test]
fn create_without_frames_fails() {
    let mut mem = PhysicalMemory::new();
    let t: Table<Level4> = Table::new(Frame { number: 5 }, P4);
    let mut alloc = ListAllocator::new(&[]);
    assert!(t.next_table_create(&mut mem, 9, &mut alloc).is_none());
    assert!(t.index(&mem, 9).is_unused());
}

#[test]
fn temporary_page_map_twice_fails() {
    let mut table = active();
    let mut outer = ListAllocator::new(&[300, 301, 302]);
    let mut temp = TemporaryPage::new(page_at(0xdead_a000), &mut outer);
    assert_eq!(temp.map(Frame { number: 50 }, &mut table), Ok(0xdead_a000));
    assert_eq!(temp.map(Frame { number: 51 }, &mut table), Err(MapToError::PageAlreadyMapped));
    assert_eq!(table.translate_page(page_at(0xdead_a000)), Some(Frame { number: 50 }));
    assert_eq!(temp.unmap(&mut table), Ok(Frame { number: 50 }));
    assert_eq!(temp.map(Frame { number: 51 }, &mut table), Ok(0xdead_a000));
}

#[test]
fn temporary_page_table_frame() {
    let mut table = active();
    let mut outer = ListAllocator::new(&[300, 301, 302]);
    let mut temp = TemporaryPage::new(page_at(0xdead_a000), &mut outer);
    let t = temp.map_table_frame(Frame { number: 60 }, &mut table).unwrap();
    assert_eq!(t.frame, Frame { number: 60 });
    assert_eq!(t.address, 0xdead_a000);
}

#[test]
fn tiny_allocator_capacity() {
    let mut outer = ListAllocator::new(&[1, 2, 3, 4]);
    let mut tiny = TinyAllocator::new(&mut outer);
    assert_eq!(outer.next, 3);
    assert_eq!(tiny.allocate_frame(), Some(Frame { number: 1 }));
    assert_eq!(tiny.allocate_frame(), Some(Frame { number: 2 }));
    assert_eq!(tiny.allocate_frame(), Some(Frame { number: 3 }));
    assert_eq!(tiny.allocate_frame(), None);
    tiny.deallocate_frame(Frame { number: 9 });
    tiny.deallocate_frame(Frame { number: 8 });
    tiny.deallocate_frame(Frame { number: 7 });
    assert_eq!(tiny.allocate_frame(), Some(Frame { number: 9 }));
    assert_eq!(tiny.allocate_frame(), Some(Frame { number: 8 }));
    assert_eq!(tiny.allocate_frame(), Some(Frame { number: 7 }));
    assert_eq!(tiny.allocate_frame(), None);
}

#[test]
fn map_to_error_variants() {
    let mut table = active();
    let mut empty = ListAllocator::new(&[]);
    let page = page_at(0x400000);
    assert_eq!(table.map_to(page, Frame { number: 1 }, 0, &mut empty), Err(MapToError::FrameAllocationFailed));
    let mut alloc = ListAllocator::new(&[200, 201, 202]);
    assert_eq!(table.map_to(page, Frame { number: 1 }, 0, &mut alloc), Ok(()));
    assert_eq!(table.map_to(page, Frame { number: 2 }, 0, &mut alloc), Err(MapToError::PageAlreadyMapped));
    let p3 = table.p4_table().next_table(&table.memory, 0).unwrap();
    p3.set_index(&mut table.memory, 1, Entry(0x4000_0000 | PRESENT | HUGE_PAGE));
    let huge = page_at(0x4000_0000 + 0x5000);
    assert_eq!(table.map_to(huge, Frame { number: 2 }, 0, &mut alloc), Err(MapToError::ParentEntryHugePage));
    assert_eq!(table.unmap(huge), Err(UnmapError::ParentEntryHugePage));
    let mut reuse = ListAllocator::new(&[400, 401, 100]);
    let far = page_at(0x80_0000_0000);
    assert_eq!(table.map_to(far, Frame { number: 3 }, 0, &mut reuse), Err(MapToError::TableFrameReused));
}

#[test]
fn translate_huge_pages() {
    let mut table = active();
    let mut alloc = ListAllocator::new(&[200, 201, 202]);
    assert_eq!(table.map_to(page_at(0x400000), Frame { number: 1 }, 0, &mut alloc), Ok(()));
    let p3 = table.p4_table().next_table(&table.memory, 0).unwrap();
    p3.set_index(&mut table.memory, 1, Entry(0x4000_0000 | PRESENT | HUGE_PAGE));
    assert_eq!(table.translate_page(page_at(0x4000_0000 + 0x20_5000)), Some(Frame { number: 0x40000 + 512 + 5 }));
    let p2 = p3.next_table(&table.memory, 0).unwrap();
    p2.set_index(&mut table.memory, 4, Entry(0x20_0000 | PRESENT | HUGE_PAGE));
    assert_eq!(table.translate_page(page_at(0x80_3000)), Some(Frame { number: 0x200 + 3 }));
    assert_eq!(table.translate(0x80_3042), Some(0x20_3042));
}

#[test]
fn identity_and_allocated_maps() {
    let mut table = active();
    let mut alloc = ListAllocator::new(&[200, 201, 202, 203]);
    assert_eq!(table.identity_map(Frame { number: 0xb8 }, WRITABLE, &mut alloc), Ok(()));
    assert_eq!(table.translate(0xb8000), Some(0xb8000));
    assert_eq!(table.map(page_at(0xb9000), 0, &mut alloc), Ok(()));
    assert_eq!(table.translate_page(page_at(0xb9000)), Some(Frame { number: 203 }));
}

#[test]
fn recursive_slot_maps_top_table() {
    let table = active();
    let p4 = table.p4_table();
    assert_eq!(p4.index(&table.memory, 511), Entry(100 * 4096 | PRESENT | WRITABLE));
    let again = p4.next_table(&table.memory, 511).unwrap();
    assert_eq!(again.frame, Frame { number: 100 });
    assert_eq!(again.address, P4);
}

#[test]
fn entry_fields() {
    let mut e = Entry(0);
    assert!(e.is_unused());
    assert_eq!(e.pointed_frame(), None);
    e.set(Frame { number: 0x12345 }, PRESENT | WRITABLE | 0xf000);
    assert_eq!(e.0, 0x1234_5003);
    assert_eq!(e.flags(), 0x3);
    assert!(e.is_present());
    assert!(!e.is_huge());
    assert_eq!(e.pointed_frame(), Some(Frame { number: 0x12345 }));
    e.set_unused();
    assert_eq!(e.0, 0);
}

#[test]
fn page_addresses_and_indices() {
    assert!(Page::containing_address(0x0000_8000_0000_0000).is_none());
    assert!(Page::containing_address(0xffff_7fff_ffff_ffff).is_none());
    let high = page_at(0xffff_8000_0000_0000);
    assert_eq!(high.start_address(), 0xffff_8000_0000_0000);
    assert_eq!(high.p4_index(), 256);
    let p = page_at(0x0000_7fff_ffff_f123);
    assert_eq!(p.number, 0x7_ffff_ffff);
    assert_eq!((p.p4_index(), p.p3_index(), p.p2_index(), p.p1_index()), (255, 511, 511, 511));
    let q = page_at(0x40_2345_6000);
    assert_eq!((q.p4_index(), q.p3_index(), q.p2_index(), q.p1_index()), (0, 256, 282, 86));
    assert_eq!(Frame::containing_address(0x1fff), Frame { number: 1 });
    assert_eq!(Frame { number: 3 }.start_address(), 0x3000);
}

#[test]
fn inactive_table_maps_itself() {
    let mut table = active();
    let mut outer = ListAllocator::new(&[300, 301, 302]);
    let mut temp = TemporaryPage::new(page_at(0xdead_a000), &mut outer);
    let inactive = InactivePageTable::new(Frame { number: 70 }, &mut table, &mut temp).unwrap();
    assert_eq!(inactive.p4_frame, Frame { number: 70 });
    let t: Table<Level4> = Table::new(Frame { number: 70 }, P4);
    assert_eq!(t.index(&table.memory, 511), Entry(0x46000 | PRESENT | WRITABLE));
    for i in 0..511 {
        assert!(t.index(&table.memory, i).is_unused());
    }
    assert_eq!(table.translate_page(page_at(0xdead_a000)), None);
}

#[test]
fn tiny_allocator_from_frames_keeps_order() {
    let mut tiny = TinyAllocator::from_frames(None, Some(Frame { number: 4 }), Some(Frame { number: 5 }));
    assert_eq!(tiny.allocate_frame(), Some(Frame { number: 4 }));
    tiny.deallocate_frame(Frame { number: 6 });
    assert_eq!(tiny.allocate_frame(), Some(Frame { number: 6 }));
    assert_eq!(tiny.allocate_frame(), Some(Frame { number: 5 }));
    assert_eq!(tiny.allocate_frame(), None);
}

#[test]
fn temporary_page_map_unmap_cycle_keeps_store() {
    let mut table = active();
    let mut alloc = ListAllocator::new(&[200, 201, 202]);
    let page = page_at(0x400000);
    assert_eq!(table.map_to(page_at(0x401000), Frame { number: 1 }, 0, &mut alloc), Ok(()));
    let mut outer = ListAllocator::new(&[300, 301, 302]);
    let mut temp = TemporaryPage::new(page, &mut outer);
    assert_eq!(temp.map(Frame { number: 0x1 }, &mut table), Ok(0x400000));
    assert_eq!(table.leaf_entry(page), Some(Entry(0x1000 | PRESENT | WRITABLE)));
    assert_eq!(temp.unmap(&mut table), Ok(Frame { number: 1 }));
    assert_eq!(temp.map(Frame { number: 0x2 }, &mut table), Ok(0x400000));
    assert_eq!(table.translate_page(page_at(0x401000)), Some(Frame { number: 1 }));
    assert_eq!(temp.allocator.allocate_frame(), Some(Frame { number: 300 }));
}

#[test]
fn temporary_page_builds_missing_tables_from_its_store() {
    let mut table = active();
    let store = TinyAllocator::from_frames(
        Some(Frame { number: 200 }),
        Some(Frame { number: 201 }),
        Some(Frame { number: 202 }),
    );
    let page = page_at(0x400000);
    let mut temp = TemporaryPage::from_store(page, store);
    assert_eq!(temp.map(Frame::containing_address(0x1000), &mut table), Ok(0x400000));
    assert_eq!(table.translate_page(page), Some(Frame { number: 1 }));
    assert_eq!(table.leaf_entry(page), Some(Entry(0x1003)));
    assert_eq!(temp.allocator.allocate_frame(), None);
    let p3 = table.p4_table().next_table(&table.memory, 0).unwrap();
    assert_eq!(p3.frame, Frame { number: 200 });
}

#[test]
fn temporary_page_with_short_store_fails() {
    let mut table = active();
    let store = TinyAllocator::from_frames(None, Some(Frame { number: 201 }), None);
    let mut temp = TemporaryPage::from_store(page_at(0x400000), store);
    assert_eq!(temp.map(Frame { number: 1 }, &mut table), Err(MapToError::FrameAllocationFailed));
}
