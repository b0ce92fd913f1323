use ftl_kernel::error::ErrorCode;
use ftl_kernel::process::inject_handle;
use ftl_kernel::process::HandleId;
use ftl_kernel::process::HandleTable;
use ftl_kernel::process::NUM_HANDLES_MAX;

#[test]
fn handle_ids_start_at_one_and_increase() {
    let mut table: HandleTable<&str> = HandleTable::new();
    let a = table.reserve::<1>().unwrap().insert("a");
    let (b, c) = table.reserve::<2>().unwrap().insert2("b", "c");
    assert_eq!((a.as_usize(), b.as_usize(), c.as_usize()), (1, 2, 3));
    assert_eq!(table.len(), 3);
    assert_eq!(table.get_any(b), Some("b"));
    assert_eq!(table.get_any(HandleId::from_raw(4)), None);
}

#[test]
fn removed_ids_are_not_reused() {
    let mut table: HandleTable<u32> = HandleTable::new();
    let a = table.reserve::<1>().unwrap().insert(10);
    assert_eq!(table.remove(a), Ok(10));
    assert_eq!(table.remove(a), Err(ErrorCode::HandleNotFound));
    assert_eq!(table.get_any(a), None);
    let b = table.reserve::<1>().unwrap().insert(20);
    assert_eq!(b.as_usize(), 2);
    assert_eq!(table.len(), 1);
}

#[test]
fn clear_hands_back_handles_in_id_order() {
    let mut table: HandleTable<char> = HandleTable::new();
    for ch in ['x', 'y', 'z', 'w'] {
        table.reserve::<1>().unwrap().insert(ch);
    }
    table.remove(HandleId::from_raw(2)).unwrap();
    assert_eq!(table.clear(), vec!['x', 'z', 'w']);
    assert_eq!(table.len(), 0);
    // Ids go on from where they were.
    assert_eq!(table.reserve::<1>().unwrap().insert('v').as_usize(), 5);
}

#[test]
fn reserve_refuses_more_than_the_limit() {
    let mut table: HandleTable<usize> = HandleTable::new();
    for i in 0..NUM_HANDLES_MAX - 1 {
        table.reserve::<1>().unwrap().insert(i);
    }
    assert!(matches!(table.reserve::<2>(), Err(ErrorCode::TooManyHandles)));
    table.reserve::<1>().unwrap().insert(0);
    assert_eq!(table.len(), NUM_HANDLES_MAX);
    assert!(matches!(table.reserve::<1>(), Err(ErrorCode::TooManyHandles)));
}

#[test]
fn get_downcasts_or_reports_why_not() {
    let mut table: HandleTable<Result<u8, &str>> = HandleTable::new();
    let num = table.reserve::<1>().unwrap().insert(Ok(7));
    let text = table.reserve::<1>().unwrap().insert(Err("x"));
    let as_num = |h: &Result<u8, &str>| h.ok();
    assert_eq!(table.get(num, as_num), Ok(7));
    assert_eq!(table.get(text, as_num), Err(ErrorCode::InvalidHandle));
    assert_eq!(table.get(HandleId::from_raw(9), as_num), Err(ErrorCode::HandleNotFound));
}

#[test]
fn inject_handle_moves_the_handle_to_the_target() {
    let mut current: HandleTable<u8> = HandleTable::new();
    let mut target: HandleTable<u8> = HandleTable::new();
    let id = current.reserve::<1>().unwrap().insert(42);
    target.reserve::<1>().unwrap().insert(1);
    assert_eq!(inject_handle(&mut current, &mut target, true, id), Err(ErrorCode::InvalidArg));
    assert_eq!(current.len(), 1);
    let moved = inject_handle(&mut current, &mut target, false, id).unwrap();
    assert_eq!(moved.as_usize(), 2);
    assert_eq!(current.len(), 0);
    assert_eq!(target.remove(moved), Ok(42));
    assert_eq!(inject_handle(&mut current, &mut target, false, id), Err(ErrorCode::HandleNotFound));
}

#[test]
fn inject_handle_into_a_full_table_drops_it() {
    let mut current: HandleTable<usize> = HandleTable::new();
    let mut target: HandleTable<usize> = HandleTable::new();
    for i in 0..NUM_HANDLES_MAX {
        target.reserve::<1>().unwrap().insert(i);
    }
    let id = current.reserve::<1>().unwrap().insert(5);
    assert_eq!(inject_handle(&mut current, &mut target, false, id), Err(ErrorCode::TooManyHandles));
    assert_eq!(current.len(), 0);
    assert_eq!(target.len(), NUM_HANDLES_MAX);
}
