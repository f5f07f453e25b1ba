//! Queues between threads: unbounded `crossbeam_channel` channels.
//!
//! Every handle to a channel can send or receive at any time, so nothing is
//! claimed of what a receiver finds.

use crossbeam_channel::{Receiver, Sender};
use vstd::prelude::*;

verus! {

/// The sending half of a `crossbeam_channel` channel.
#[verifier::external_type_specification]
#[verifier::external_body]
#[verifier::reject_recursive_types(T)]
pub struct ExSender<T>(Sender<T>);

/// The receiving half of a `crossbeam_channel` channel.
#[verifier::external_type_specification]
#[verifier::external_body]
#[verifier::reject_recursive_types(T)]
pub struct ExReceiver<T>(Receiver<T>);

/// `Sender::clone` hands out another sending half of the same channel: the
/// clone holds the same pointer to the channel as `sender` does, so the two
/// are equal.
pub assume_specification<T>[ <Sender<T> as Clone>::clone ](sender: &Sender<T>) -> (r: Sender<T>)
    ensures
        r == *sender,
;

/// `Receiver::clone` hands out another receiving half of the same channel:
/// the clone holds the same pointer to the channel as `receiver` does, so
/// the two are equal.
pub assume_specification<T>[ <Receiver<T> as Clone>::clone ](receiver: &Receiver<T>) -> (r:
    Receiver<T>)
    ensures
        r == *receiver,
;

/// Makes a channel without a bound: `crossbeam_channel::unbounded`. Nothing
/// is claimed of the two halves.
#[verifier::external_body]
pub(crate) fn unbounded<T>() -> (r: (Sender<T>, Receiver<T>)) {
    crossbeam_channel::unbounded()
}

/// Takes a message off the channel, if one is there: `Receiver::try_recv`,
/// which does not block. Nothing is claimed of the result.
#[verifier::external_body]
pub(crate) fn try_receive<T>(receiver: &Receiver<T>) -> (r: Option<T>) {
    receiver.try_recv().ok()
}

/// Puts a message on the channel: `Sender::send`, which does not block on a
/// channel without a bound. A message for a channel that nobody can receive
/// from is dropped.
#[verifier::external_body]
pub(crate) fn send<T>(sender: &Sender<T>, message: T) {
    let _ = sender.send(message);
}

/// The number of messages that are in the channel: `Receiver::len`. Nothing
/// is claimed of it: the number may have changed when the call returns.
#[verifier::external_body]
pub(crate) fn queued<T>(receiver: &Receiver<T>) -> (r: usize) {
    receiver.len()
}

/// Takes off the channel the messages that are in it when the call is made,
/// in the order in which they were sent. Messages that arrive meanwhile stay
/// for the next call.
pub fn drain<T>(receiver: &Receiver<T>) -> (r: Vec<T>) {
    let mut out: Vec<T> = Vec::new();
    let count = queued(receiver);
    let mut i: usize = 0;
    while i < count
        invariant
            i <= count,
        decreases count - i,
    {
        match try_receive(receiver) {
            Some(message) => {
                out.push(message);
            },
            None => {
                return out;
            },
        }
        i += 1;
    }
    out
}

} // verus!
