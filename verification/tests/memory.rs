use std::cell::RefCell;
use ftl_kernel::error::ErrorCode;
use ftl_kernel::uaddr::UAddr;
use ftl_kernel::vmarea::PageChunksIter;
use ftl_kernel::vmarea::VmArea;
use ftl_kernel::vmobject::check_page_range;
use ftl_kernel::vmobject::page_count;
use ftl_kernel::vmspace::check_page_attrs;
use ftl_kernel::vmobject::VmObject;
use ftl_kernel::vmspace::PageAttrs;
use ftl_kernel::vmspace::VmSpace;
use ftl_kernel::vmspace::PAGE_ATTR_READ;
use ftl_kernel::vmspace::PAGE_ATTR_WRITE;

const END: usize = 0x1000_0000;

fn rw() -> PageAttrs {
    PageAttrs::from_raw(PAGE_ATTR_READ | PAGE_ATTR_WRITE)
}

#[test]
fn uaddr_alignment_and_checked_add() {
    let a = UAddr::new(0x2000);
    assert_eq!(a.as_usize(), 0x2000);
    assert!(a.is_aligned_to(4096));
    assert!(!UAddr::new(0x2001).is_aligned_to(4096));
    assert_eq!(a.add(0x10), Some(UAddr::new(0x2010)));
    assert_eq!(UAddr::new(usize::MAX).add(1), None);
}

#[test]
fn page_attrs_contains() {
    let all = PageAttrs::from_raw(7);
    assert!(all.contains(rw()));
    assert!(!rw().contains(all));
    assert_eq!(rw().as_raw(), 3);
}

#[test]
fn vmspace_keeps_mappings_sorted_and_resolves_faults() {
    let mut vm: VmSpace<&str> = VmSpace::new(END);
    assert_eq!(vm.map("b", 0x2000, UAddr::new(0x10_0000), rw()), Ok(()));
    assert_eq!(vm.map("a", 0x1000, UAddr::new(0x4000), PageAttrs::from_raw(PAGE_ATTR_READ)), Ok(()));
    assert_eq!(vm.len(), 2);
    assert_eq!(*vm.object(0), "a");
    assert_eq!(*vm.object(1), "b");
    let fault = vm.handle_page_fault(UAddr::new(0x10_1234)).unwrap();
    assert_eq!(fault.mapping, 1);
    assert_eq!(fault.page_index, 1);
    assert_eq!(fault.uaddr, UAddr::new(0x10_1000));
    assert_eq!(fault.attrs, rw());
    let fault = vm.handle_page_fault(UAddr::new(0x4fff)).unwrap();
    assert_eq!((fault.mapping, fault.page_index), (0, 0));
    assert!(matches!(vm.handle_page_fault(UAddr::new(0x5000)), Err(ErrorCode::OutOfBounds)));
    assert!(matches!(vm.handle_page_fault(UAddr::new(0x10_2000)), Err(ErrorCode::OutOfBounds)));
}

#[test]
fn vmspace_map_errors() {
    let mut vm: VmSpace<u32> = VmSpace::new(END);
    assert_eq!(vm.map(1, 0x1000, UAddr::new(0x4000), PageAttrs::from_raw(8)), Err(ErrorCode::InvalidArg));
    assert_eq!(vm.map(1, 0x1000, UAddr::new(0x4001), rw()), Err(ErrorCode::InvalidArg));
    assert_eq!(vm.map(1, 0x2000, UAddr::new(usize::MAX - 0xfff), rw()), Err(ErrorCode::OutOfBounds));
    assert_eq!(vm.map(1, 0x2000, UAddr::new(END - 0x1000), rw()), Err(ErrorCode::NotAllowed));
    assert_eq!(vm.map(1, 0x2000, UAddr::new(0x4000), rw()), Ok(()));
    assert_eq!(vm.map(2, 0x1000, UAddr::new(0x5000), rw()), Err(ErrorCode::AlreadyMapped));
    assert_eq!(vm.map(2, 0x2000, UAddr::new(0x3000), rw()), Err(ErrorCode::AlreadyMapped));
    assert_eq!(vm.map(2, 0x1000, UAddr::new(0x3000), rw()), Ok(()));
    assert_eq!(vm.map(3, 0x1000, UAddr::new(END - 0x1000), rw()), Ok(()));
    assert_eq!(vm.len(), 3);
}

#[test]
fn page_chunks_split_at_page_boundaries() {
    let mut it = PageChunksIter::new(4000, 5000);
    let c = it.next().unwrap();
    assert_eq!((c.page_index, c.page_offset, c.len, c.buf_offset), (0, 4000, 96, 0));
    let c = it.next().unwrap();
    assert_eq!((c.page_index, c.page_offset, c.len, c.buf_offset), (1, 0, 4096, 96));
    let c = it.next().unwrap();
    assert_eq!((c.page_index, c.page_offset, c.len, c.buf_offset), (2, 0, 808, 4192));
    assert!(it.next().is_none());
    assert!(PageChunksIter::new(0, 0).next().is_none());
}

#[test]
fn vmarea_create_fill_and_chunks() {
    assert!(matches!(VmArea::create_any(0), Err(ErrorCode::InvalidArg)));
    assert!(matches!(VmArea::create_any(4097), Err(ErrorCode::InvalidArg)));
    let mut area = VmArea::create_any(3 * 4096).unwrap();
    assert_eq!(area.len(), 3 * 4096);
    assert_eq!(area.fill(4096, || Some(0x8000_0000)), Ok(0x8000_0000));
    // A page is allocated once.
    assert_eq!(area.fill(4096, || Some(0x9000_0000)), Ok(0x8000_0000));
    assert_eq!(area.fill_page(2, || None), Err(ErrorCode::OutOfMemory));
    assert_eq!(area.fill_page(2, || Some(0xa000_0000)), Ok(0xa000_0000));
    assert_eq!(area.fill(100, || Some(1)), Err(ErrorCode::InvalidArg));
    assert_eq!(area.fill(3 * 4096, || Some(1)), Err(ErrorCode::OutOfBounds));
    assert!(area.chunks(3 * 4096 - 10, 11).is_err());
    assert!(area.chunks(usize::MAX, 2).is_err());
    let mut it = area.chunks(4090, 10).unwrap();
    let c = it.next().unwrap();
    assert_eq!((c.page_index, c.page_offset, c.len), (0, 4090, 6));
    let c = it.next().unwrap();
    assert_eq!((c.page_index, c.page_offset, c.len), (1, 0, 4));
}

#[test]
fn vmobject_pages_are_filled_on_demand() {
    assert!(matches!(VmObject::new_anonymous(0), Err(ErrorCode::InvalidArg)));
    assert!(matches!(VmObject::new_anonymous(100), Err(ErrorCode::InvalidArg)));
    let mut vmo = VmObject::new_anonymous(2 * 4096).unwrap();
    assert_eq!(vmo.len(), 8192);
    assert_eq!(vmo.ensure_page(2, || Some(1)), Err(ErrorCode::OutOfBounds));
    assert_eq!(vmo.ensure_page(1, || None), Err(ErrorCode::OutOfMemory));
    assert_eq!(vmo.ensure_page(1, || Some(0x5000)), Ok(0x5000));
    assert_eq!(vmo.ensure_page(1, || Some(0x6000)), Ok(0x5000));
    assert!(matches!(vmo.chunks(8000, 200), Err(ErrorCode::OutOfBounds)));
    let mut it = vmo.chunks(8000, 192).unwrap();
    let c = it.next().unwrap();
    assert_eq!((c.page_index, c.page_offset, c.len, c.buf_offset), (1, 3904, 192, 0));
    assert!(it.next().is_none());
}

#[test]
fn vmspace_clone_has_the_same_mappings() {
    let mut vm: VmSpace<String> = VmSpace::new(END);
    vm.map("a".to_string(), 0x1000, UAddr::new(0x8000), rw()).unwrap();
    vm.map("b".to_string(), 0x3000, UAddr::new(0x2000), PageAttrs::from_raw(PAGE_ATTR_READ)).unwrap();
    let copy = vm.clone().unwrap();
    assert_eq!(copy.len(), 2);
    assert_eq!(copy.object(0), "b");
    assert_eq!(copy.object(1), "a");
    let fault = copy.handle_page_fault(UAddr::new(0x4123)).unwrap();
    assert_eq!((fault.mapping, fault.page_index), (0, 2));
    assert_eq!(fault.attrs, PageAttrs::from_raw(PAGE_ATTR_READ));
    assert!(copy.handle_page_fault(UAddr::new(0x9000)).is_err());
}

#[test]
fn page_slices_stay_within_a_page() {
    assert_eq!(check_page_range(0, 4096), Ok(()));
    assert_eq!(check_page_range(4000, 96), Ok(()));
    assert_eq!(check_page_range(4000, 97), Err(ErrorCode::OutOfBounds));
    assert_eq!(check_page_range(usize::MAX, 2), Err(ErrorCode::OutOfBounds));
}

#[test]
fn vmspace_resolves_a_fault_by_mapping_the_objects_page() {
    let mut vm: VmSpace<&str> = VmSpace::new(END);
    vm.map("b", 0x2000, UAddr::new(0x10_0000), rw()).unwrap();
    let asked: RefCell<Vec<(String, usize)>> = RefCell::new(Vec::new());
    let mapped: RefCell<Vec<(UAddr, usize, PageAttrs)>> = RefCell::new(Vec::new());
    let r = vm.resolve_page_fault(
        UAddr::new(0x10_1234),
        |v: &&str, index: usize| {
            asked.borrow_mut().push((v.to_string(), index));
            Ok(0x8000)
        },
        |u: UAddr, p: usize, a: PageAttrs| {
            mapped.borrow_mut().push((u, p, a));
            Ok(())
        },
    );
    assert_eq!(r, Ok(()));
    assert_eq!(*asked.borrow(), vec![("b".to_string(), 1)]);
    assert_eq!(*mapped.borrow(), vec![(UAddr::new(0x10_1000), 0x8000, rw())]);
    // A failing step is reported; nothing mapped is reported as such.
    let r = vm.resolve_page_fault(UAddr::new(0x10_0000), |_: &&str, _: usize| Err(ErrorCode::OutOfMemory), |_: UAddr, _: usize, _: PageAttrs| Ok(()));
    assert_eq!(r, Err(ErrorCode::OutOfMemory));
    let r = vm.resolve_page_fault(UAddr::new(0x9000), |_: &&str, _: usize| Ok(1), |_: UAddr, _: usize, _: PageAttrs| Ok(()));
    assert_eq!(r, Err(ErrorCode::OutOfBounds));
}

#[test]
fn vmobject_read_write_walks_pages_and_fills_them() {
    let mut vmo = VmObject::new_anonymous(3 * 4096).unwrap();
    assert_eq!(vmo.ensure_page(1, || Some(0xb000)), Ok(0xb000));
    let next = RefCell::new(0xa000usize);
    let alloc = || {
        let p = *next.borrow();
        *next.borrow_mut() += 0x1000;
        Some(p)
    };
    let pieces = vmo.read_write(4000, 5000, alloc).unwrap();
    let got: Vec<(usize, usize, usize, usize, usize)> = pieces
        .iter()
        .map(|p| (p.chunk.page_index, p.chunk.page_offset, p.chunk.len, p.chunk.buf_offset, p.paddr))
        .collect();
    assert_eq!(got, vec![(0, 4000, 96, 0, 0xa000), (1, 0, 4096, 96, 0xb000), (2, 0, 808, 4192, 0xb000)]);
    // Pages given once are kept.
    let again = vmo.read_write(0, 3 * 4096, || None).unwrap();
    assert_eq!(again.iter().map(|p| p.paddr).collect::<Vec<usize>>(), vec![0xa000, 0xb000, 0xb000]);
    assert!(vmo.read_write(0, 0, || None).unwrap().is_empty());
    assert!(matches!(vmo.read_write(1, 3 * 4096, || None), Err(ErrorCode::OutOfBounds)));
    let mut fresh = VmObject::new_anonymous(4096).unwrap();
    assert!(matches!(fresh.read_write(0, 1, || None), Err(ErrorCode::OutOfMemory)));
}

#[test]
fn page_slots_and_page_attrs() {
    assert_eq!(page_count(3 * 4096), 3);
    assert_eq!(page_count(0), 0);
    assert_eq!(check_page_attrs(PageAttrs::from_raw(7)), Ok(()));
    assert_eq!(check_page_attrs(rw()), Ok(()));
    assert_eq!(check_page_attrs(PageAttrs::from_raw(8)), Err(ErrorCode::InvalidPageAttrs));
    assert_eq!(check_page_attrs(PageAttrs::from_raw(0)), Ok(()));
}
