//! The borrow cell: one word that tracks either one exclusive borrow or a
//! number of shared borrows of a value.
//!
//! The high bit of the word means "exclusively borrowed"; the bits below it
//! count the shared borrows.

use std::sync::atomic::{AtomicUsize, Ordering};
use vstd::prelude::*;

verus! {

/// The word of a cell that is exclusively borrowed: the high bit alone.
pub const HIGH: usize = usize::MAX / 2 + 1;

/// The word from which on a cell that is exclusively borrowed gives up:
/// attempts to borrow it shared must not add up to another high bit.
pub const MAX_BORROWS_ATTEMPTS: usize = HIGH + HIGH / 2;

/// Why a borrow was refused.
#[derive(Debug, Clone, Copy, PartialEq, Eq)]
pub struct Error(pub &'static str);

impl Error {
    /// What the error says.
    pub fn message(&self) -> (r: &'static str)
        ensures
            r == self.0,
    {
        self.0
    }
}

/// The error of a cell that is exclusively borrowed.
pub open spec fn error_mutable_borrowed() -> Error {
    Error("Already mutably borrowed!")
}

/// The error of a cell that is borrowed shared.
pub open spec fn error_shared_borrowed() -> Error {
    Error("Already shared borrowed!")
}

/// What became of an attempt to borrow.
#[derive(Debug, Clone, Copy, PartialEq, Eq, Structural)]
pub enum BorrowOutcome {
    /// The borrow is registered.
    Granted,
    /// The cell is exclusively borrowed; the attempt left no trace.
    MutablyBorrowed,
    /// The cell is borrowed shared; the attempt left no trace.
    SharedBorrowed,
    /// One shared borrow more than the word can count; the attempt left no
    /// trace. The caller has to panic.
    TooManyShared,
    /// Attempts on a cell that is exclusively borrowed have piled up next
    /// to the point where they would hide the exclusive borrow. The caller
    /// has to abort the process.
    Abort,
}

impl BorrowOutcome {
    /// The error that stands for a refusal; none for the other outcomes.
    pub fn error(&self) -> (r: Option<Error>)
        ensures
            r == match *self {
                BorrowOutcome::MutablyBorrowed => Some(error_mutable_borrowed()),
                BorrowOutcome::SharedBorrowed => Some(error_shared_borrowed()),
                _ => None,
            },
    {
        match self {
            BorrowOutcome::MutablyBorrowed => Some(Error("Already mutably borrowed!")),
            BorrowOutcome::SharedBorrowed => Some(Error("Already shared borrowed!")),
            _ => None,
        }
    }
}

/// What an attempt to borrow shared has come to, by the word `new` that it
/// left behind when it added one.
pub open spec fn shared_outcome_spec(new: usize) -> BorrowOutcome {
    if new < HIGH {
        BorrowOutcome::Granted
    } else if new == HIGH {
        BorrowOutcome::TooManyShared
    } else if new >= MAX_BORROWS_ATTEMPTS {
        BorrowOutcome::Abort
    } else {
        BorrowOutcome::MutablyBorrowed
    }
}

/// What an attempt to borrow exclusively has come to, by the word `old`
/// that it found.
pub open spec fn exclusive_outcome_spec(old: usize) -> BorrowOutcome {
    if old == 0 {
        BorrowOutcome::Granted
    } else if old >= HIGH {
        BorrowOutcome::MutablyBorrowed
    } else {
        BorrowOutcome::SharedBorrowed
    }
}

/// Classifies an attempt to borrow shared.
pub fn shared_outcome(new: usize) -> (r: BorrowOutcome)
    ensures
        r == shared_outcome_spec(new),
{
    if new < HIGH {
        BorrowOutcome::Granted
    } else if new == HIGH {
        BorrowOutcome::TooManyShared
    } else if new >= MAX_BORROWS_ATTEMPTS {
        BorrowOutcome::Abort
    } else {
        BorrowOutcome::MutablyBorrowed
    }
}

/// Classifies an attempt to borrow exclusively.
pub fn exclusive_outcome(old: usize) -> (r: BorrowOutcome)
    ensures
        r == exclusive_outcome_spec(old),
{
    if old == 0 {
        BorrowOutcome::Granted
    } else if old >= HIGH {
        BorrowOutcome::MutablyBorrowed
    } else {
        BorrowOutcome::SharedBorrowed
    }
}

/// The word of a cell that threads share. Other threads change the word at
/// any time, so nothing is known of what an operation finds; each operation
/// classifies what it found and undoes an attempt that was not granted.
pub struct BorrowFlag {
    borrow: AtomicUsize,
}

impl BorrowFlag {
    /// The word of a cell that is not borrowed.
    pub fn new() -> Self {
        Self { borrow: AtomicUsize::new(0) }
    }

    /// Tries to register a shared borrow. Unless the outcome is `Granted` or
    /// `Abort`, the word is set back by one.
    pub fn acquire_shared(&self) -> (r: BorrowOutcome)
        ensures
            r != BorrowOutcome::SharedBorrowed,
    {
        // reserve the borrow
        let new = self.borrow.fetch_add(1, Ordering::Acquire).wrapping_add(1);
        let outcome = shared_outcome(new);
        match outcome {
            BorrowOutcome::Granted => {},
            BorrowOutcome::Abort => {},
            _ => {
                let _ = self.borrow.fetch_sub(1, Ordering::Release);
            },
        }
        outcome
    }

    /// Tries to register the exclusive borrow: the word goes from zero to
    /// `HIGH`, or stays as it is.
    pub fn acquire_exclusive(&self) -> (r: BorrowOutcome)
        ensures
            r == BorrowOutcome::Granted || r == BorrowOutcome::MutablyBorrowed || r
                == BorrowOutcome::SharedBorrowed,
    {
        let old = match self.borrow.compare_exchange(0, HIGH, Ordering::Acquire, Ordering::Relaxed) {
            Ok(x) => x,
            Err(x) => x,
        };
        exclusive_outcome(old)
    }

    /// Gives a shared borrow back.
    pub fn release_shared(&self) {
        let _ = self.borrow.fetch_sub(1, Ordering::Release);
    }

    /// Gives the exclusive borrow back.
    pub fn release_exclusive(&self) {
        self.borrow.store(0, Ordering::Release);
    }
}

/// Stands for one shared borrow of a cell.
#[derive(Debug)]
pub struct RefGuard {
    _registered: (),
}

/// Stands for the exclusive borrow of a cell.
#[derive(Debug)]
pub struct MutGuard {
    _registered: (),
}

/// A value with its borrow word, in the hands of one owner: the owner
/// registers borrows and gives them back, and the cell keeps count.
/// `shared` and `exclusive` are the numbers of guards that are out.
pub struct AtomicRefCell<T> {
    pub data: T,
    pub borrow: usize,
    pub shared: Ghost<nat>,
    pub exclusive: Ghost<nat>,
}

impl<T> AtomicRefCell<T> {
    /// The word says which guards are out: it is `HIGH` for the one
    /// exclusive guard, and else the number of shared guards.
    pub open spec fn wf(&self) -> bool {
        ||| self.exclusive@ == 0 && self.borrow == self.shared@ && self.shared@ < HIGH
        ||| self.exclusive@ == 1 && self.shared@ == 0 && self.borrow == HIGH
    }

    /// A cell that is not borrowed.
    #[inline]
    pub fn new(value: T) -> (r: Self)
        ensures
            r.wf(),
            r.data == value,
            r.shared@ == 0,
            r.exclusive@ == 0,
    {
        Self { data: value, borrow: 0, shared: Ghost(0), exclusive: Ghost(0) }
    }

    /// Access to the value for whoever has the cell to itself.
    #[inline]
    pub fn get_mut(&mut self) -> (r: &mut T)
        ensures
            *r == old(self).data,
            final(self).data == *final(r),
            final(self).borrow == old(self).borrow,
            final(self).shared == old(self).shared,
            final(self).exclusive == old(self).exclusive,
    {
        &mut self.data
    }

    /// Registers a shared borrow. Refused if the exclusive guard is out. One
    /// shared borrow more than the word can count is not accepted.
    #[inline]
    pub fn try_borrow(&mut self) -> (r: Result<RefGuard, Error>)
        requires
            old(self).wf(),
            old(self).shared@ + 1 < HIGH,
        ensures
            final(self).wf(),
            final(self).data == old(self).data,
            final(self).exclusive == old(self).exclusive,
            r is Ok == (old(self).exclusive@ == 0),
            r is Ok ==> final(self).shared@ == old(self).shared@ + 1,
            r matches Err(e) ==> e == error_mutable_borrowed() && final(self).shared == old(
                self,
            ).shared && final(self).borrow == old(self).borrow,
    {
        // reserve the borrow
        let new = self.borrow + 1;
        match shared_outcome(new) {
            BorrowOutcome::Granted => {
                self.borrow = new;
                proof {
                    self.shared = Ghost((self.shared@ + 1) as nat);
                }
                Ok(RefGuard { _registered: () })
            },
            _ => Err(Error("Already mutably borrowed!")),
        }
    }

    /// Registers the exclusive borrow. Refused if any guard is out.
    #[inline]
    pub fn try_borrow_mut(&mut self) -> (r: Result<MutGuard, Error>)
        requires
            old(self).wf(),
        ensures
            final(self).wf(),
            final(self).data == old(self).data,
            final(self).shared == old(self).shared,
            r is Ok == (old(self).exclusive@ == 0 && old(self).shared@ == 0),
            r is Ok ==> final(self).exclusive@ == 1,
            r matches Err(e) ==> final(self).exclusive == old(self).exclusive && final(self).borrow
                == old(self).borrow && e == (if old(self).exclusive@ == 1 {
                error_mutable_borrowed()
            } else {
                error_shared_borrowed()
            }),
    {
        match exclusive_outcome(self.borrow) {
            BorrowOutcome::Granted => {
                self.borrow = HIGH;
                proof {
                    self.exclusive = Ghost(1);
                }
                Ok(MutGuard { _registered: () })
            },
            BorrowOutcome::MutablyBorrowed => Err(Error("Already mutably borrowed!")),
            _ => Err(Error("Already shared borrowed!")),
        }
    }

    /// Registers a shared borrow of a cell whose exclusive guard is not
    /// out.
    #[inline]
    pub fn borrow(&mut self) -> (r: RefGuard)
        requires
            old(self).wf(),
            old(self).exclusive@ == 0,
            old(self).shared@ + 1 < HIGH,
        ensures
            final(self).wf(),
            final(self).data == old(self).data,
            final(self).exclusive == old(self).exclusive,
            final(self).shared@ == old(self).shared@ + 1,
    {
        self.borrow = self.borrow + 1;
        proof {
            self.shared = Ghost((self.shared@ + 1) as nat);
        }
        RefGuard { _registered: () }
    }

    /// Registers the exclusive borrow of a cell of which no guard is out.
    #[inline]
    pub fn borrow_mut(&mut self) -> (r: MutGuard)
        requires
            old(self).wf(),
            old(self).exclusive@ == 0,
            old(self).shared@ == 0,
        ensures
            final(self).wf(),
            final(self).data == old(self).data,
            final(self).shared@ == 0,
            final(self).exclusive@ == 1,
    {
        self.borrow = HIGH;
        proof {
            self.exclusive = Ghost(1);
        }
        MutGuard { _registered: () }
    }

    /// Gives a shared borrow back.
    #[inline]
    pub fn release(&mut self, guard: RefGuard)
        requires
            old(self).wf(),
            old(self).shared@ > 0,
        ensures
            final(self).wf(),
            final(self).data == old(self).data,
            final(self).exclusive == old(self).exclusive,
            final(self).shared@ == old(self).shared@ - 1,
    {
        self.borrow = self.borrow - 1;
        proof {
            self.shared = Ghost((self.shared@ - 1) as nat);
        }
    }

    /// Gives the exclusive borrow back.
    #[inline]
    pub fn release_mut(&mut self, guard: MutGuard)
        requires
            old(self).wf(),
            old(self).exclusive@ == 1,
        ensures
            final(self).wf(),
            final(self).data == old(self).data,
            final(self).shared@ == 0,
            final(self).exclusive@ == 0,
    {
        self.borrow = 0;
        proof {
            self.exclusive = Ghost(0);
        }
    }
}

/// Borrow-cell exclusion: of a well-formed cell either one exclusive guard
/// is out and no shared guard, or no exclusive guard and any number of
/// shared guards.
pub proof fn lemma_exclusion<T>(cell: AtomicRefCell<T>)
    requires
        cell.wf(),
    ensures
        cell.exclusive@ <= 1,
        cell.exclusive@ == 1 ==> cell.shared@ == 0,
        cell.exclusive@ == 1 <==> cell.borrow >= HIGH,
{
}

} // verus!
