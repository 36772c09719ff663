//! A single-threaded channel: any number of cloned senders feed one
//! receiver through a shared queue, with a shared closed flag.
//!
//! The queue and the flag live behind shared reference-counted cells, so
//! their contents change through `&self` and lie outside what contracts can
//! track; each cell operation stands behind a trusted item, and the
//! decisions around them are verified. The queue order and the closed-flag
//! protocol are exercised by tests.

use std::cell::RefCell;
use std::collections::VecDeque;
use std::rc::Rc;
use vstd::prelude::*;

verus! {

#[verifier::external_type_specification]
#[verifier::external_body]
#[verifier::reject_recursive_types(T)]
pub struct ExRefCell<T: ?Sized>(RefCell<T>);

#[verifier::external_type_specification]
#[verifier::external_body]
#[verifier::reject_recursive_types(T)]
pub struct ExCell<T: ?Sized>(core::cell::Cell<T>);

/// Relies on RefCell::new: wraps a value in a shared mutable cell.
#[verifier::external_body]
fn refcell_new<T>(value: T) -> RefCell<T> {
    RefCell::new(value)
}

/// Relies on Cell::new: wraps a value in a shared mutable cell.
#[verifier::external_body]
fn cell_new(value: bool) -> core::cell::Cell<bool> {
    core::cell::Cell::new(value)
}

/// Relies on Cell::get: reads the flag; the value depends on what was last
/// stored through any handle, so nothing is promised of it.
#[verifier::external_body]
fn cell_get(cell: &core::cell::Cell<bool>) -> bool {
    cell.get()
}

/// Relies on Cell::set: stores the flag for every handle to see; it does
/// not unwind.
#[verifier::external_body]
fn cell_set(cell: &core::cell::Cell<bool>, value: bool)
    opens_invariants none
    no_unwind
{
    cell.set(value)
}

/// Relies on RefCell::borrow_mut and VecDeque::push_back: appends to the
/// shared queue.
#[verifier::external_body]
fn queue_push_back<T>(queue: &RefCell<VecDeque<T>>, value: T) {
    queue.borrow_mut().push_back(value)
}

/// Relies on RefCell::borrow_mut and VecDeque::pop_front: takes the oldest
/// queued value, if any.
#[verifier::external_body]
fn queue_pop_front<T>(queue: &RefCell<VecDeque<T>>) -> Option<T> {
    queue.borrow_mut().pop_front()
}

/// Relies on RefCell::borrow and VecDeque::is_empty: whether the shared
/// queue holds nothing at this moment.
#[verifier::external_body]
fn queue_is_empty<T>(queue: &RefCell<VecDeque<T>>) -> bool {
    queue.borrow().is_empty()
}

/// Relies on Rc::strong_count: how many handles share the allocation right
/// now.
#[verifier::external_body]
fn rc_strong_count<T>(rc: &Rc<T>) -> usize {
    Rc::strong_count(rc)
}

/// Relies on Rc::ptr_eq: whether two handles share one allocation.
#[verifier::external_body]
fn rc_ptr_eq<T>(a: &Rc<T>, b: &Rc<T>) -> bool {
    Rc::ptr_eq(a, b)
}

/// Sending on a closed channel fails and hands the value back.
#[derive(Debug)]
pub struct SendError<T> {
    pub value: T,
}

/// The sending half; clones share one channel.
#[verifier::reject_recursive_types(T)]
pub struct Sender<T> {
    buffer: Rc<RefCell<VecDeque<T>>>,
    channel_closed: Rc<core::cell::Cell<bool>>,
}

impl<T> Sender<T> {
    /// Queues a value for the receiver. On a channel whose receiver has
    /// closed it, nothing is queued and the value comes back in the error.
    pub fn send(&self, value: T) -> (r: Result<(), SendError<T>>)
        ensures
            r matches Err(e) ==> e.value == value,
    {
        if self.is_closed() {
            return Err(SendError { value });
        }
        queue_push_back(&self.buffer, value);
        Ok(())
    }

    /// Whether the receiver has closed the channel.
    pub fn is_closed(&self) -> bool {
        cell_get(&self.channel_closed)
    }

    /// Whether both senders feed the same receiver.
    pub fn same_channel(&self, other: &Self) -> bool {
        rc_ptr_eq(&self.buffer, &other.buffer)
    }
}

impl<T> Clone for Sender<T> {
    /// Another handle on the same channel.
    fn clone(&self) -> (r: Self)
        ensures
            r == *self,
    {
        Sender { buffer: self.buffer.clone(), channel_closed: self.channel_closed.clone() }
    }
}

/// Receiving fails on an empty channel, and permanently on a closed one.
#[derive(Debug)]
pub enum ReceiveError {
    Empty,
    Closed,
}

/// The receiving half.
#[verifier::reject_recursive_types(T)]
pub struct Receiver<T> {
    buffer: Rc<RefCell<VecDeque<T>>>,
    channel_closed: Rc<core::cell::Cell<bool>>,
}

impl<T> Receiver<T> {
    /// Whether the channel was closed and holds nothing more to take.
    fn check_closed(&self) -> bool {
        cell_get(&self.channel_closed) && queue_is_empty(&self.buffer)
    }

    /// Whether every sender is gone: only this receiver's handle is left.
    fn check_no_senders(&self) -> bool {
        rc_strong_count(&self.buffer) == 1
    }

    /// Takes the oldest queued value. A drained closed channel, or one with
    /// no sender left, reports `Closed`; an empty open one reports `Empty`.
    pub fn recv(&mut self) -> (r: Result<T, ReceiveError>)
        ensures
            r matches Err(e) ==> (e is Empty || e is Closed),
    {
        if self.check_closed() || self.check_no_senders() {
            return Err(ReceiveError::Closed);
        }
        match queue_pop_front(&self.buffer) {
            Some(value) => Ok(value),
            None => Err(ReceiveError::Empty),
        }
    }

    /// Closes the channel: later sends fail, and the queue can still be
    /// drained.
    pub fn close(&mut self)
        opens_invariants none
        no_unwind
    {
        cell_set(&self.channel_closed, true);
    }
}

impl<T> Drop for Receiver<T> {
    /// A receiver that goes away closes the channel behind it.
    fn drop(&mut self)
        opens_invariants none
        no_unwind
    {
        self.close();
    }
}

/// A fresh channel: one sender handle and the receiver it feeds.
pub fn channel<T>() -> (Sender<T>, Receiver<T>) {
    let queue: VecDeque<T> = VecDeque::new();
    let buffer = Rc::new(refcell_new(queue));
    let closed = Rc::new(cell_new(false));
    (
        Sender { buffer: buffer.clone(), channel_closed: closed.clone() },
        Receiver { buffer, channel_closed: closed },
    )
}

} // verus!
