//! The queues and cells that collector threads share. They come from `crossbeam` and
//! `atomic_refcell`; what is stated of them here is taken on trust.
//!
//! A function that takes a `SegQueue`, an `ArrayQueue` or a cell by exclusive reference has it to
//! itself, so what it holds is determined by the calls made on it. That is not so of the queue of a
//! worker: its elements are shared with the handles made from it, through which other threads can
//! take some at any time. Of such a queue nothing is said about what it holds; only about what its
//! owner entered, and what it gave its owner.

use atomic_refcell::AtomicRefCell;
use crossbeam::deque;
use crossbeam::queue::{ArrayQueue, SegQueue};
use vstd::prelude::*;

verus! {

/// The unbounded queue of `crossbeam`.
#[verifier::external_type_specification]
#[verifier::external_body]
#[verifier::reject_recursive_types(T)]
pub struct ExSegQueue<T>(crossbeam::queue::SegQueue<T>);

/// The bounded queue of `crossbeam`.
#[verifier::external_type_specification]
#[verifier::external_body]
#[verifier::reject_recursive_types(T)]
pub struct ExArrayQueue<T>(crossbeam::queue::ArrayQueue<T>);

/// The owner's end of a work-stealing queue of `crossbeam`.
#[verifier::external_type_specification]
#[verifier::external_body]
#[verifier::reject_recursive_types(T)]
pub struct ExWorker<T>(crossbeam::deque::Worker<T>);

/// The thieves' end of a work-stealing queue of `crossbeam`.
#[verifier::external_type_specification]
#[verifier::external_body]
#[verifier::reject_recursive_types(T)]
pub struct ExStealer<T>(crossbeam::deque::Stealer<T>);

/// The thread-safe cell of `atomic_refcell`.
#[verifier::external_type_specification]
#[verifier::external_body]
#[verifier::reject_recursive_types(T)]
pub struct ExAtomicRefCell<T: ?Sized>(atomic_refcell::AtomicRefCell<T>);

/// The batches that a queue of batches holds, the oldest first.
pub uninterp spec fn batches(q: SegQueue<Vec<usize>>) -> Seq<Seq<usize>>;

/// The packets that a bounded queue holds, the oldest first.
pub uninterp spec fn designated(q: ArrayQueue<u64>) -> Seq<u64>;

/// How many packets a bounded queue can hold.
pub uninterp spec fn designated_capacity(q: ArrayQueue<u64>) -> nat;

/// The packets that were entered into the queue of a worker, in that order. Those that were taken
/// out since, by the owner or by a thief, are among them.
pub uninterp spec fn entered(q: deque::Worker<u64>) -> Seq<u64>;

/// What the queue of a worker gave when its owner asked, in that order: a packet, or nothing. What
/// thieves took is not among it.
pub uninterp spec fn given(q: deque::Worker<u64>) -> Seq<Option<u64>>;

/// Whether a handle takes from the queue of a worker.
pub uninterp spec fn steals_from(s: deque::Stealer<u64>, q: deque::Worker<u64>) -> bool;

/// What a cell holds.
pub uninterp spec fn held(c: AtomicRefCell<Vec<usize>>) -> Seq<usize>;

/// Calls `SegQueue::new`, which makes an empty queue.
#[verifier::external_body]
pub(crate) fn new_batches() -> (q: SegQueue<Vec<usize>>)
    ensures
        batches(q) == Seq::<Seq<usize>>::empty(),
{
    SegQueue::new()
}

/// Calls `SegQueue::push`, which adds an element at the end.
#[verifier::external_body]
pub(crate) fn push_batch(q: &mut SegQueue<Vec<usize>>, batch: Vec<usize>)
    ensures
        batches(*final(q)) == batches(*old(q)).push(batch@),
{
    q.push(batch)
}

/// Calls `SegQueue::pop`, which takes the oldest element, and returns `None` if the queue is
/// empty.
#[verifier::external_body]
pub(crate) fn pop_batch(q: &mut SegQueue<Vec<usize>>) -> (r: Option<Vec<usize>>)
    ensures
        batches(*old(q)).len() == 0 ==> r is None && batches(*final(q)) == batches(*old(q)),
        batches(*old(q)).len() > 0 ==> r is Some && r->0@ == batches(*old(q))[0] && batches(
            *final(q),
        ) == batches(*old(q)).skip(1),
{
    q.pop()
}

/// Calls `ArrayQueue::new`, which makes an empty queue that can hold `capacity` elements. It
/// panics if that is none; the queues of workers are small.
#[verifier::external_body]
pub(crate) fn new_designated(capacity: usize) -> (q: ArrayQueue<u64>)
    requires
        0 < capacity <= 65536,
    ensures
        designated(q) == Seq::<u64>::empty(),
        designated_capacity(q) == capacity,
{
    ArrayQueue::new(capacity)
}

/// Calls `ArrayQueue::pop`, which takes the oldest element, and returns `None` if the queue is
/// empty.
#[verifier::external_body]
pub(crate) fn pop_designated(q: &mut ArrayQueue<u64>) -> (r: Option<u64>)
    ensures
        designated_capacity(*final(q)) == designated_capacity(*old(q)),
        designated(*old(q)).len() == 0 ==> r is None && designated(*final(q)) == designated(
            *old(q),
        ),
        designated(*old(q)).len() > 0 ==> r == Some(designated(*old(q))[0]) && designated(*final(q))
            == designated(*old(q)).skip(1),
{
    q.pop()
}

/// Calls `ArrayQueue::is_empty`, which says whether the queue holds nothing.
#[verifier::external_body]
pub(crate) fn no_designated(q: &mut ArrayQueue<u64>) -> (r: bool)
    ensures
        r == (designated(*old(q)).len() == 0),
        *final(q) == *old(q),
{
    q.is_empty()
}

/// Calls `deque::Worker::new_fifo`, which makes a queue into which nothing was entered, and which
/// gave nothing.
#[verifier::external_body]
pub(crate) fn new_local() -> (q: deque::Worker<u64>)
    ensures
        entered(q) == Seq::<u64>::empty(),
        given(q) == Seq::<Option<u64>>::empty(),
{
    deque::Worker::new_fifo()
}

/// Calls `deque::Worker::stealer`, which makes a handle through which other threads can take
/// elements of this queue.
#[verifier::external_body]
pub(crate) fn stealer_of(q: &deque::Worker<u64>) -> (s: deque::Stealer<u64>)
    ensures
        steals_from(s, *q),
{
    q.stealer()
}

/// Calls `deque::Worker::push`, which enters an element. It gives nothing, and does not change which
/// handles take from the queue. How long the queue is afterwards is left unsaid: a thief may already have taken the
/// element.
#[verifier::external_body]
pub(crate) fn push_local(q: &mut deque::Worker<u64>, packet: u64)
    ensures
        entered(*final(q)) == entered(*old(q)).push(packet),
        given(*final(q)) == given(*old(q)),
        forall|s: deque::Stealer<u64>| #[trigger]
            steals_from(s, *final(q)) == steals_from(s, *old(q)),
{
    q.push(packet)
}

/// Calls `deque::Worker::pop`, which takes an element, or returns `None`: that is what the queue gave
/// this time. What it takes was entered; it enters nothing, and does not change which handles take
/// from the queue. Which element it takes, and whether any, is left unsaid: that depends on what
/// thieves take meanwhile.
#[verifier::external_body]
pub(crate) fn pop_local(q: &mut deque::Worker<u64>) -> (r: Option<u64>)
    ensures
        r matches Some(packet) ==> entered(*old(q)).contains(packet),
        entered(*final(q)) == entered(*old(q)),
        given(*final(q)) == given(*old(q)).push(r),
        forall|s: deque::Stealer<u64>| #[trigger]
            steals_from(s, *final(q)) == steals_from(s, *old(q)),
{
    q.pop()
}

/// Calls `AtomicRefCell::new`, which makes a cell that holds the value.
#[verifier::external_body]
pub(crate) fn new_cell(value: Vec<usize>) -> (c: AtomicRefCell<Vec<usize>>)
    ensures
        held(c) == value@,
{
    AtomicRefCell::new(value)
}

/// Calls `AtomicRefCell::get_mut`, which gives out the value of the cell; what the cell holds
/// afterwards is what its borrower leaves. It checks that nobody else has borrowed the value;
/// nobody can have where the cell is never borrowed in another way.
#[verifier::external_body]
pub(crate) fn cell_mut(c: &mut AtomicRefCell<Vec<usize>>) -> (r: &mut Vec<usize>)
    ensures
        r@ == held(*old(c)),
        held(*final(c)) == final(r)@,
{
    c.get_mut()
}

} // verus!
