//! The fixed-capacity FIFO that connects one producing handler to one
//! consuming handler.
//!
//! The storage is a `heapless` single-producer single-consumer ring of 17
//! slots, one of which it always keeps free. Verus cannot look into it, so
//! what it holds is named by [`ring_items`], and the few functions below that
//! call into it state over that name what the ring does. These statements are
//! taken on trust; everything else in this crate is proved from them.

use vstd::prelude::*;

verus! {

/// Number of units a [`CircularQueue`] holds when full.
pub const CAPACITY: usize = 16;

/// `heapless::spsc::Queue`, a ring of `N` slots. It is carried as a value
/// that only the functions below look into.
#[verifier::external_type_specification]
#[verifier::external_body]
#[verifier::reject_recursive_types(T)]
pub struct ExQueue<T, const N: usize>(heapless::spsc::Queue<T, N>);

/// The units held by a ring, oldest first.
pub uninterp spec fn ring_items(ring: heapless::spsc::Queue<u16, 17>) -> Seq<u16>;

/// What a queue holds after an attempt to add `unit` at its back: a full
/// queue stays as it is.
pub open spec fn after_enqueue(items: Seq<u16>, unit: u16) -> Seq<u16> {
    if items.len() < CAPACITY {
        items.push(unit)
    } else {
        items
    }
}

/// What an attempt to add `unit` reports: a full queue hands the unit back.
pub open spec fn enqueue_report(items: Seq<u16>, unit: u16) -> Result<(), u16> {
    if items.len() < CAPACITY {
        Ok(())
    } else {
        Err(unit)
    }
}

/// What a queue holds after it was offered what a receive path had for it:
/// one unit, or nothing.
pub open spec fn after_offer(items: Seq<u16>, offered: Option<u16>) -> Seq<u16> {
    match offered {
        Some(unit) => after_enqueue(items, unit),
        None => items,
    }
}

/// What a queue holds after an attempt to take its oldest unit: an empty
/// queue stays as it is.
pub open spec fn after_dequeue(items: Seq<u16>) -> Seq<u16> {
    if items.len() > 0 {
        items.drop_first()
    } else {
        items
    }
}

/// The oldest unit of a queue, if it holds any.
pub open spec fn front(items: Seq<u16>) -> Option<u16> {
    if items.len() > 0 {
        Some(items[0])
    } else {
        None
    }
}

/// `Default::default` of `heapless::spsc::Queue`: the new ring holds nothing.
#[verifier::external_body]
fn ring_new() -> (ring: heapless::spsc::Queue<u16, 17>)
    ensures
        ring_items(ring) == Seq::<u16>::empty(),
{
    heapless::spsc::Queue::default()
}

/// `heapless::spsc::Queue::enqueue`. A ring of 17 slots keeps one of them
/// free: while it holds fewer than 16 units it puts the new one behind them
/// and returns `Ok`; once it holds 16 it returns the unit in `Err` and
/// changes nothing. It does not panic.
#[verifier::external_body]
fn ring_enqueue(ring: &mut heapless::spsc::Queue<u16, 17>, unit: u16) -> (r: Result<(), u16>)
    ensures
        ring_items(*final(ring)) == after_enqueue(ring_items(*old(ring)), unit),
        r == enqueue_report(ring_items(*old(ring)), unit),
    no_unwind
{
    ring.enqueue(unit)
}

/// `heapless::spsc::Queue::dequeue`. A ring that holds something gives up its
/// oldest unit and keeps the others in order; an empty ring returns `None`
/// and changes nothing. It does not panic.
#[verifier::external_body]
fn ring_dequeue(ring: &mut heapless::spsc::Queue<u16, 17>) -> (r: Option<u16>)
    ensures
        ring_items(*final(ring)) == after_dequeue(ring_items(*old(ring))),
        r == front(ring_items(*old(ring))),
    no_unwind
{
    ring.dequeue()
}

/// `heapless::spsc::Queue::is_empty`: whether the ring holds no unit.
#[verifier::external_body]
fn ring_is_empty(ring: &heapless::spsc::Queue<u16, 17>) -> (b: bool)
    ensures
        b == (ring_items(*ring).len() == 0),
{
    ring.is_empty()
}

/// `heapless::spsc::Queue::len`: the number of units the ring holds.
#[verifier::external_body]
fn ring_len(ring: &heapless::spsc::Queue<u16, 17>) -> (n: usize)
    ensures
        n == ring_items(*ring).len(),
{
    ring.len()
}

/// `heapless::spsc::Queue::iter`, which walks the ring from its front to its
/// back: the units come out oldest first, and the ring keeps them.
#[verifier::external_body]
fn ring_to_vec(ring: &heapless::spsc::Queue<u16, 17>) -> (units: Vec<u16>)
    ensures
        units@ == ring_items(*ring),
{
    ring.iter().copied().collect()
}

/// A FIFO of at most [`CAPACITY`] units, written by one handler and read by
/// one other. Its view is the sequence of units it holds, oldest first.
pub struct CircularQueue {
    ring: heapless::spsc::Queue<u16, 17>,
}

impl View for CircularQueue {
    type V = Seq<u16>;

    closed spec fn view(&self) -> Seq<u16> {
        ring_items(self.ring)
    }
}

impl CircularQueue {
    #[verifier::type_invariant]
    spec fn within_capacity(&self) -> bool {
        ring_items(self.ring).len() <= CAPACITY
    }

    /// An empty queue.
    pub fn new() -> (queue: CircularQueue)
        ensures
            queue@ == Seq::<u16>::empty(),
    {
        CircularQueue { ring: ring_new() }
    }

    /// Puts `unit` behind the units already queued. A full queue is left
    /// untouched and the unit comes back in `Err`: it is dropped, nothing is
    /// overwritten.
    pub fn enqueue(&mut self, unit: u16) -> (report: Result<(), u16>)
        ensures
            final(self)@ == after_enqueue(old(self)@, unit),
            report == enqueue_report(old(self)@, unit),
            old(self)@.len() == CAPACITY ==> final(self)@ == old(self)@ && report == Err::<(), u16>(
                unit,
            ),
            final(self)@.len() <= CAPACITY,
    {
        proof {
            use_type_invariant(&*self);
        }
        ring_enqueue(&mut self.ring, unit)
    }

    /// Takes the oldest unit. An empty queue is left untouched and reports
    /// `None`.
    pub fn dequeue(&mut self) -> (unit: Option<u16>)
        ensures
            final(self)@ == after_dequeue(old(self)@),
            unit == front(old(self)@),
            old(self)@.len() == 0 ==> final(self)@ == old(self)@ && unit is None,
            final(self)@.len() <= CAPACITY,
    {
        proof {
            use_type_invariant(&*self);
        }
        ring_dequeue(&mut self.ring)
    }

    /// Whether nothing is queued.
    pub fn is_empty(&self) -> (empty: bool)
        ensures
            empty == (self@.len() == 0),
    {
        ring_is_empty(&self.ring)
    }

    /// The number of units queued, never more than [`CAPACITY`].
    pub fn len(&self) -> (n: usize)
        ensures
            n == self@.len(),
            n <= CAPACITY,
    {
        proof {
            use_type_invariant(self);
        }
        ring_len(&self.ring)
    }

    /// The units queued, oldest first. The queue keeps them.
    pub fn to_vec(&self) -> (units: Vec<u16>)
        ensures
            units@ == self@,
            units@.len() <= CAPACITY,
    {
        proof {
            use_type_invariant(self);
        }
        ring_to_vec(&self.ring)
    }
}

/// One call on a queue.
pub enum QueueOp {
    /// A call of `enqueue` with this unit.
    Enqueue(u16),
    /// A call of `dequeue`.
    Dequeue,
}

/// Where a run of calls has brought a queue that started empty.
#[verifier::ext_equal]
pub struct History {
    /// The units the queue holds, oldest first.
    pub items: Seq<u16>,
    /// The units that `enqueue` took, in the order of the calls.
    pub accepted: Seq<u16>,
    /// The units that `dequeue` gave out, in the order of the calls.
    pub served: Seq<u16>,
}

/// The history of a queue that started empty and saw the calls `ops`.
pub open spec fn history(ops: Seq<QueueOp>) -> History
    decreases ops.len(),
{
    if ops.len() == 0 {
        History { items: Seq::empty(), accepted: Seq::empty(), served: Seq::empty() }
    } else {
        let before = history(ops.drop_last());
        match ops.last() {
            QueueOp::Enqueue(unit) => History {
                items: after_enqueue(before.items, unit),
                accepted: if enqueue_report(before.items, unit) is Ok {
                    before.accepted.push(unit)
                } else {
                    before.accepted
                },
                served: before.served,
            },
            QueueOp::Dequeue => History {
                items: after_dequeue(before.items),
                accepted: before.accepted,
                served: match front(before.items) {
                    Some(unit) => before.served.push(unit),
                    None => before.served,
                },
            },
        }
    }
}

/// Whatever calls a queue sees, it never holds more than [`CAPACITY`] units,
/// and the units come out in the order in which they were taken in: what was
/// given out, followed by what is still queued, is what was accepted.
pub proof fn lemma_bounded_fifo(ops: Seq<QueueOp>)
    ensures
        history(ops).items.len() <= CAPACITY,
        history(ops).served + history(ops).items == history(ops).accepted,
    decreases ops.len(),
{
    if ops.len() > 0 {
        lemma_bounded_fifo(ops.drop_last());
        let now = history(ops);
        assert(now.served + now.items =~= now.accepted);
    }
}

} // verus!
