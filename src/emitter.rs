//! The emitter channel between the tracing layer and the driver: bounded,
//! lossy, and never blocking the sender. When the buffer is full the oldest
//! undelivered item is dropped and counted; the receiver learns the count
//! before it is handed the next item.
use std::collections::VecDeque;

use vstd::prelude::*;

verus! {

/// What the receiving side observes.
#[derive(Debug)]
pub enum Received<T> {
    Item(T),
    /// This many items were dropped since the last receive.
    Lagged(u64),
    /// Nothing is buffered, and the sender is still there.
    Empty,
    /// Nothing is buffered, and the sender is gone.
    Closed,
}

/// An emitter's abstract state.
pub struct EmitterModel<T> {
    pub capacity: nat,
    pub items: Seq<T>,
    pub lagged: nat,
    pub sender_open: bool,
    pub receiver_open: bool,
}

pub open spec fn sat_inc(n: nat) -> nat {
    if n < u64::MAX {
        n + 1
    } else {
        n
    }
}

/// The state after one send: the item is appended, and if the buffer was
/// full its oldest item is dropped and counted. Without a receiver nothing
/// changes.
pub open spec fn send_step<T>(m: EmitterModel<T>, item: T) -> EmitterModel<T> {
    if !m.receiver_open {
        m
    } else if m.items.len() < m.capacity {
        EmitterModel { items: m.items.push(item), ..m }
    } else {
        EmitterModel { items: m.items.drop_first().push(item), lagged: sat_inc(m.lagged), ..m }
    }
}

/// The state after a sequence of sends.
pub open spec fn send_all<T>(m: EmitterModel<T>, items: Seq<T>) -> EmitterModel<T>
    decreases items.len(),
{
    if items.len() == 0 {
        m
    } else {
        send_step(send_all(m, items.drop_last()), items.last())
    }
}

pub open spec fn overfill(n: nat, capacity: nat) -> nat {
    if n > capacity {
        (n - capacity) as nat
    } else {
        0
    }
}

/// A lossy single-producer, single-consumer queue of bounded capacity.
pub struct Emitter<T> {
    capacity: usize,
    items: VecDeque<T>,
    lagged: u64,
    sender_open: bool,
    receiver_open: bool,
}

impl<T> View for Emitter<T> {
    type V = EmitterModel<T>;

    closed spec fn view(&self) -> EmitterModel<T> {
        EmitterModel {
            capacity: self.capacity as nat,
            items: self.items@,
            lagged: self.lagged as nat,
            sender_open: self.sender_open,
            receiver_open: self.receiver_open,
        }
    }
}

impl<T> Emitter<T> {
    /// The buffer holds at most `capacity` items, and `capacity` is
    /// positive.
    pub open spec fn wf(&self) -> bool {
        self@.capacity > 0 && self@.items.len() <= self@.capacity
    }

    /// An empty channel that buffers up to `capacity` items.
    pub fn new(capacity: usize) -> (r: Emitter<T>)
        requires
            capacity > 0,
        ensures
            r.wf(),
            r@ == (EmitterModel::<T> {
                capacity: capacity as nat,
                items: Seq::empty(),
                lagged: 0,
                sender_open: true,
                receiver_open: true,
            }),
    {
        Emitter {
            capacity,
            items: VecDeque::new(),
            lagged: 0,
            sender_open: true,
            receiver_open: true,
        }
    }

    /// Sends without waiting. With a receiver, returns the number of
    /// receivers; without one, hands the item back.
    pub fn send(&mut self, item: T) -> (r: Result<usize, T>)
        requires
            old(self).wf(),
        ensures
            final(self).wf(),
            final(self)@ == send_step(old(self)@, item),
            r matches Ok(n) ==> n == 1 && old(self)@.receiver_open,
            r matches Err(x) ==> x == item && !old(self)@.receiver_open,
    {
        if !self.receiver_open {
            return Err(item);
        }
        if self.items.len() >= self.capacity {
            let _ = self.items.pop_front();
            if self.lagged < u64::MAX {
                self.lagged = self.lagged + 1;
            }
        }
        self.items.push_back(item);
        Ok(1)
    }

    /// Takes the next outcome for the receiver: first the count of dropped
    /// items, if any, then the oldest buffered item.
    pub fn recv(&mut self) -> (r: Received<T>)
        requires
            old(self).wf(),
        ensures
            final(self).wf(),
            old(self)@.lagged > 0 ==> r == Received::<T>::Lagged(old(self)@.lagged as u64)
                && final(self)@ == (EmitterModel { lagged: 0, ..old(self)@ }),
            old(self)@.lagged == 0 && old(self)@.items.len() > 0 ==> r == Received::Item(
                old(self)@.items[0],
            ) && final(self)@ == (EmitterModel { items: old(self)@.items.drop_first(), ..old(self)@ }),
            old(self)@.lagged == 0 && old(self)@.items.len() == 0 ==> final(self)@ == old(self)@
                && (if old(self)@.sender_open {
                r is Empty
            } else {
                r is Closed
            }),
    {
        if self.lagged > 0 {
            let n = self.lagged;
            self.lagged = 0;
            return Received::Lagged(n);
        }
        match self.items.pop_front() {
            Some(item) => Received::Item(item),
            None => if self.sender_open {
                Received::Empty
            } else {
                Received::Closed
            },
        }
    }

    /// The number of buffered items.
    pub fn len(&self) -> (r: usize)
        ensures
            r == self@.items.len(),
    {
        self.items.len()
    }

    pub fn is_empty(&self) -> (r: bool)
        ensures
            r == (self@.items.len() == 0),
    {
        self.items.len() == 0
    }

    /// Whether the receiving side is gone.
    pub fn is_closed(&self) -> (r: bool)
        ensures
            r == !self@.receiver_open,
    {
        !self.receiver_open
    }

    /// The sending side is gone: once the buffer drains the receiver sees
    /// `Closed`.
    pub fn close_sender(&mut self)
        ensures
            final(self)@ == (EmitterModel { sender_open: false, ..old(self)@ }),
    {
        self.sender_open = false;
    }

    /// The receiving side is gone: later sends fail.
    pub fn close_receiver(&mut self)
        ensures
            final(self)@ == (EmitterModel { receiver_open: false, ..old(self)@ }),
    {
        self.receiver_open = false;
    }
}

/// Sending `n` items into an open, empty channel of capacity `b` counts
/// exactly `max(0, n - b)` of them as dropped, and keeps the newest
/// `min(n, b)`, in the order they were sent.
pub proof fn lemma_overfill_counts_lag<T>(m: EmitterModel<T>, items: Seq<T>)
    requires
        m.capacity > 0,
        m.items.len() == 0,
        m.lagged == 0,
        m.receiver_open,
        items.len() <= u64::MAX,
    ensures
        send_all(m, items).lagged == overfill(items.len(), m.capacity),
        send_all(m, items).items == items.skip(overfill(items.len(), m.capacity) as int),
        send_all(m, items).capacity == m.capacity,
        send_all(m, items).receiver_open,
    decreases items.len(),
{
    if items.len() > 0 {
        let prev = items.drop_last();
        lemma_overfill_counts_lag(m, prev);
        let k = overfill(prev.len(), m.capacity);
        assert(prev.skip(k as int).push(items.last()) =~= items.skip(k as int));
        if prev.len() >= m.capacity {
            assert(items.skip(k as int).drop_first() =~= items.skip(k + 1 as int));
        }
    }
}

} // verus!
