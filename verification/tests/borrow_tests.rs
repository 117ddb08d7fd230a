use primitives::cell::Cell;
use primitives::refcell::{RefCell, RefState};

#[test]
fn cell_get_returns_what_new_stored() {
    let cell = Cell::new(42);
    assert_eq!(cell.get(), 42);
    assert_eq!(cell.get(), 42);
}

#[test]
fn cell_get_after_set_returns_last_value() {
    let mut cell = Cell::new('a');
    cell.set('b');
    assert_eq!(cell.get(), 'b');
    cell.set('c');
    cell.set('d');
    assert_eq!(cell.get(), 'd');
    assert_eq!(cell.get(), 'd');
}

#[test]
fn cell_set_works_for_values_that_are_not_copy() {
    let mut cell = Cell::new(String::from("old"));
    cell.set(String::from("new"));
    let mut probe = Cell::new(0usize);
    probe.set(7);
    assert_eq!(probe.get(), 7);
}

#[test]
fn new_cell_is_unshared() {
    let cell = RefCell::new(5);
    assert_eq!(cell.state(), RefState::Unshared);
}

#[test]
fn write_then_read_sees_written_value() {
    let mut cell = RefCell::new(10);
    let mut writer = cell.borrow_mut().expect("no guard is out");
    assert_eq!(cell.state(), RefState::Exclusive);
    *writer.deref_mut(&mut cell) = 20;
    assert!(cell.borrow().is_none());
    assert_eq!(cell.state(), RefState::Exclusive);
    writer.release(&mut cell);
    assert_eq!(cell.state(), RefState::Unshared);
    let reader = cell.borrow().expect("the write guard is released");
    assert_eq!(*reader.deref(&cell), 20);
    reader.release(&mut cell);
}

#[test]
fn readers_block_writer_until_last_release() {
    let mut cell = RefCell::new("x");
    let first = cell.borrow().expect("no writer");
    let second = cell.borrow().expect("no writer");
    assert_eq!(cell.state(), RefState::Shared(2));
    assert_eq!(*first.deref(&cell), "x");
    assert_eq!(*second.deref(&cell), "x");
    assert!(cell.borrow_mut().is_none());
    assert_eq!(cell.state(), RefState::Shared(2));
    first.release(&mut cell);
    assert_eq!(cell.state(), RefState::Shared(1));
    assert!(cell.borrow_mut().is_none());
    second.release(&mut cell);
    assert_eq!(cell.state(), RefState::Unshared);
    assert!(cell.borrow_mut().is_some());
}

#[test]
fn write_access_can_be_taken_again_after_release() {
    let mut cell = RefCell::new(0);
    let writer = cell.borrow_mut().expect("no guard is out");
    writer.release(&mut cell);
    assert_eq!(cell.state(), RefState::Unshared);
    let again = cell.borrow_mut().expect("the first write guard is released");
    assert_eq!(*again.deref(&cell), 0);
    again.release(&mut cell);
    assert_eq!(cell.state(), RefState::Unshared);
}

#[test]
fn second_writer_is_denied() {
    let mut cell = RefCell::new(1u8);
    let writer = cell.borrow_mut().expect("no guard is out");
    assert!(cell.borrow_mut().is_none());
    assert!(cell.borrow().is_none());
    assert_eq!(cell.state(), RefState::Exclusive);
    writer.release(&mut cell);
    assert!(cell.borrow().is_some());
}

#[test]
fn each_granted_read_adds_one_reader() {
    let mut cell = RefCell::new(3u32);
    let mut guards = Vec::new();
    for expected in 1..=5usize {
        guards.push(cell.borrow().expect("no writer"));
        assert_eq!(cell.state(), RefState::Shared(expected));
    }
    for expected in (1..5usize).rev() {
        guards.pop().expect("a guard is left").release(&mut cell);
        assert_eq!(cell.state(), RefState::Shared(expected));
    }
    guards.pop().expect("a guard is left").release(&mut cell);
    assert_eq!(cell.state(), RefState::Unshared);
}

#[test]
fn releasing_writer_allows_reader_and_writer() {
    let mut cell = RefCell::new(String::from("v"));
    let writer = cell.borrow_mut().expect("no guard is out");
    writer.release(&mut cell);
    let reader = cell.borrow().expect("unshared");
    reader.release(&mut cell);
    let mut writer = cell.borrow_mut().expect("unshared");
    writer.deref_mut(&mut cell).push('w');
    assert_eq!(writer.deref(&cell).as_str(), "vw");
    writer.release(&mut cell);
}
