//! A mailbox for one thread: a sender and a receiver sharing one queue.
//! Values come out in the order they went in.
//!
//! Both ends hold the queue, and any clone of either end may use it, so what
//! `take` answers depends on every `push` made through any handle; the
//! contracts here state no more than that.

use std::rc::Rc;
use vstd::prelude::*;
use vstd::cell::invcell::InvCell;
use vstd::predicate::Predicate;

verus! {

/// Any list of values may be queued.
pub struct Unconstrained;

impl<T> Predicate<Vec<T>> for Unconstrained {
    open spec fn predicate(&self, v: Vec<T>) -> bool {
        true
    }
}

/// Relies on `Rc::clone`: a second handle to the same allocation.
#[verifier::external_body]
fn share<T>(rc: &Rc<T>) -> (r: Rc<T>)
    ensures
        r == *rc,
{
    Rc::clone(rc)
}

/// The end that queues values.
pub struct Sender<T> {
    inner: Rc<InvCell<Vec<T>, Unconstrained>>,
}

/// The end that takes values out.
pub struct Receiver<T> {
    inner: Rc<InvCell<Vec<T>, Unconstrained>>,
}

/// Takes values out of a receiver until it is empty.
pub struct Iter<'a, T> {
    receiver: &'a Receiver<T>,
}

/// The two ends share one queue.
pub closed spec fn connected<T>(sender: Sender<T>, receiver: Receiver<T>) -> bool {
    sender.inner == receiver.inner
}

/// A new mailbox, empty.
pub fn post<T>() -> (r: (Sender<T>, Receiver<T>))
    ensures
        connected(r.0, r.1),
{
    let inner = Rc::new(InvCell::new(Vec::new(), Ghost(Unconstrained)));
    let sender = Sender { inner: share(&inner) };
    (sender, Receiver { inner })
}

impl<T> Sender<T> {
    /// Queues `value` behind everything queued so far.
    pub fn push(&self, value: T) {
        let mut queue = self.inner.replace(Vec::new());
        queue.push(value);
        self.inner.set(queue);
    }
}

impl<T> Receiver<T> {
    /// The value queued longest ago, if any.
    pub fn take(&self) -> Option<T> {
        let mut queue = self.inner.replace(Vec::new());
        let first = if queue.len() > 0 {
            Some(queue.remove(0))
        } else {
            None
        };
        self.inner.set(queue);
        first
    }

    /// Drains the queue, one value at a time.
    pub fn iter(&self) -> (r: Iter<'_, T>)
        ensures
            r.source() == *self,
    {
        Iter { receiver: self }
    }
}

impl<'a, T> Iter<'a, T> {
    /// The receiver this iterator drains.
    pub closed spec fn source(&self) -> Receiver<T> {
        *self.receiver
    }

    /// The next value, or `None` once the queue is empty.
    pub fn next(&mut self) -> Option<T> {
        self.receiver.take()
    }
}

} // verus!
