use eonix::cells::{
    exclusive_outcome, shared_outcome, AtomicRefCell, BorrowFlag, BorrowOutcome, Error, HIGH,
    MAX_BORROWS_ATTEMPTS,
};

#[test]
fn test_shared_borrow() {
    let mut ref_cell = AtomicRefCell::new(0i32);

    let ref_1 = ref_cell.try_borrow();
    assert!(ref_1.is_ok());

    let ref_2 = ref_cell.try_borrow();
    assert!(ref_2.is_ok());

    let ref_3 = ref_cell.try_borrow();
    assert!(ref_3.is_ok());
}

#[test]
fn test_exclusive_borrow() {
    let mut ref_cell = AtomicRefCell::new(0i32);

    let ref_1 = ref_cell.try_borrow_mut();
    assert!(ref_1.is_ok());
    ref_cell.release_mut(ref_1.unwrap());

    let ref_2 = ref_cell.try_borrow_mut();
    assert!(ref_2.is_ok());
    ref_cell.release_mut(ref_2.unwrap());

    let ref_3 = ref_cell.try_borrow_mut();
    assert!(ref_3.is_ok());
    ref_cell.release_mut(ref_3.unwrap());
}

#[test]
fn test_mixed() {
    let mut ref_cell = AtomicRefCell::new(0i32);

    let ref_1 = ref_cell.try_borrow_mut();
    assert!(ref_1.is_ok());

    let ref_2 = ref_cell.try_borrow();
    assert!(ref_2.is_err());

    let ref_3 = ref_cell.try_borrow_mut();
    assert!(ref_3.is_err());
}

#[test]
#[should_panic]
fn test_panic_rw() {
    let mut ref_cell = AtomicRefCell::new(0i32);

    let _ref_1 = ref_cell.try_borrow();
    let _ref_3 = ref_cell.try_borrow_mut().unwrap();
}

#[test]
#[should_panic]
fn test_panic_wr() {
    let mut ref_cell = AtomicRefCell::new(0i32);

    let _ref_3 = ref_cell.try_borrow_mut();
    let _ref_1 = ref_cell.try_borrow().unwrap();
}

#[test]
fn test_borrow_word_counts() {
    let mut cell = AtomicRefCell::new(7u8);
    assert_eq!(cell.borrow, 0);
    let a = cell.borrow();
    let b = cell.try_borrow().unwrap();
    assert_eq!(cell.borrow, 2);
    assert_eq!(cell.try_borrow_mut().unwrap_err(), Error("Already shared borrowed!"));
    assert_eq!(cell.borrow, 2);
    cell.release(a);
    cell.release(b);
    assert_eq!(cell.borrow, 0);
    let m = cell.borrow_mut();
    assert_eq!(cell.borrow, HIGH);
    assert_eq!(cell.try_borrow().unwrap_err(), Error("Already mutably borrowed!"));
    assert_eq!(cell.try_borrow_mut().unwrap_err(), Error("Already mutably borrowed!"));
    assert_eq!(cell.borrow, HIGH);
    cell.release_mut(m);
    assert_eq!(cell.borrow, 0);
    *cell.get_mut() = 9;
    assert_eq!(cell.data, 9);
    assert_eq!(Error("x").message(), "x");
}

#[test]
fn test_outcomes() {
    assert_eq!(HIGH, 1usize << (usize::BITS - 1));
    assert_eq!(MAX_BORROWS_ATTEMPTS, HIGH + (HIGH >> 1));
    assert_eq!(shared_outcome(1), BorrowOutcome::Granted);
    assert_eq!(shared_outcome(HIGH - 1), BorrowOutcome::Granted);
    assert_eq!(shared_outcome(HIGH), BorrowOutcome::TooManyShared);
    assert_eq!(shared_outcome(HIGH + 1), BorrowOutcome::MutablyBorrowed);
    assert_eq!(shared_outcome(MAX_BORROWS_ATTEMPTS - 1), BorrowOutcome::MutablyBorrowed);
    assert_eq!(shared_outcome(MAX_BORROWS_ATTEMPTS), BorrowOutcome::Abort);
    assert_eq!(shared_outcome(usize::MAX), BorrowOutcome::Abort);
    assert_eq!(exclusive_outcome(0), BorrowOutcome::Granted);
    assert_eq!(exclusive_outcome(1), BorrowOutcome::SharedBorrowed);
    assert_eq!(exclusive_outcome(HIGH - 1), BorrowOutcome::SharedBorrowed);
    assert_eq!(exclusive_outcome(HIGH), BorrowOutcome::MutablyBorrowed);
    assert_eq!(BorrowOutcome::MutablyBorrowed.error(), Some(Error("Already mutably borrowed!")));
    assert_eq!(BorrowOutcome::SharedBorrowed.error(), Some(Error("Already shared borrowed!")));
    assert_eq!(BorrowOutcome::Granted.error(), None);
}

#[test]
fn test_borrow_flag() {
    let flag = BorrowFlag::new();
    assert_eq!(flag.acquire_shared(), BorrowOutcome::Granted);
    assert_eq!(flag.acquire_shared(), BorrowOutcome::Granted);
    assert_eq!(flag.acquire_exclusive(), BorrowOutcome::SharedBorrowed);
    flag.release_shared();
    flag.release_shared();
    assert_eq!(flag.acquire_exclusive(), BorrowOutcome::Granted);
    assert_eq!(flag.acquire_exclusive(), BorrowOutcome::MutablyBorrowed);
    // a refused attempt leaves no trace
    assert_eq!(flag.acquire_shared(), BorrowOutcome::MutablyBorrowed);
    assert_eq!(flag.acquire_shared(), BorrowOutcome::MutablyBorrowed);
    flag.release_exclusive();
    assert_eq!(flag.acquire_shared(), BorrowOutcome::Granted);
}
