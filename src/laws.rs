//! What holds of the queue over whole sequences of pushes and pops, stated
//! over the same transitions that `SPSCQueue::push` and `SPSCQueue::pop`
//! are specified by.
use vstd::prelude::*;
use crate::queue::{accepts_push, after_pop, after_push, front};

verus! {

/// One call on the queue: a push of a value, or a pop.
pub enum QueueOp<T> {
    Push(T),
    Pop,
}

/// The contents after running `ops` on a queue of `capacity` slots that
/// held `contents`.
pub open spec fn contents_after<T>(contents: Seq<T>, capacity: int, ops: Seq<QueueOp<T>>) -> Seq<T>
    decreases ops.len(),
{
    if ops.len() == 0 {
        contents
    } else {
        let prev = contents_after(contents, capacity, ops.drop_last());
        match ops.last() {
            QueueOp::Push(v) => after_push(prev, capacity, v),
            QueueOp::Pop => after_pop(prev),
        }
    }
}

/// The values whose push was accepted while running `ops`, in order.
pub open spec fn accepted_pushes<T>(contents: Seq<T>, capacity: int, ops: Seq<QueueOp<T>>) -> Seq<T>
    decreases ops.len(),
{
    if ops.len() == 0 {
        Seq::empty()
    } else {
        let prev = contents_after(contents, capacity, ops.drop_last());
        let acc = accepted_pushes(contents, capacity, ops.drop_last());
        match ops.last() {
            QueueOp::Push(v) => if accepts_push(prev, capacity) {
                acc.push(v)
            } else {
                acc
            },
            QueueOp::Pop => acc,
        }
    }
}

/// The values handed out by the pops while running `ops`, in order.
pub open spec fn popped_values<T>(contents: Seq<T>, capacity: int, ops: Seq<QueueOp<T>>) -> Seq<T>
    decreases ops.len(),
{
    if ops.len() == 0 {
        Seq::empty()
    } else {
        let prev = contents_after(contents, capacity, ops.drop_last());
        let out = popped_values(contents, capacity, ops.drop_last());
        match ops.last() {
            QueueOp::Push(_) => out,
            QueueOp::Pop => match front(prev) {
                Some(v) => out.push(v),
                None => out,
            },
        }
    }
}

/// Capacity bound: whatever calls are made, a queue that starts within its
/// bound never holds more than `capacity - 1` elements.
pub proof fn lemma_capacity_bound<T>(contents: Seq<T>, capacity: int, ops: Seq<QueueOp<T>>)
    requires
        contents.len() < capacity,
    ensures
        contents_after(contents, capacity, ops).len() < capacity,
    decreases ops.len(),
{
    if ops.len() > 0 {
        lemma_capacity_bound(contents, capacity, ops.drop_last());
    }
}

/// FIFO order: for any interleaving of pushes and pops, the elements held
/// at the start followed by the accepted pushes are exactly the popped
/// values followed by what is still held: nothing is reordered, duplicated
/// or lost.
pub proof fn lemma_fifo<T>(contents: Seq<T>, capacity: int, ops: Seq<QueueOp<T>>)
    ensures
        contents + accepted_pushes(contents, capacity, ops) == popped_values(contents, capacity, ops)
            + contents_after(contents, capacity, ops),
    decreases ops.len(),
{
    if ops.len() > 0 {
        let rest = ops.drop_last();
        lemma_fifo(contents, capacity, rest);
        let prev = contents_after(contents, capacity, rest);
        let acc = accepted_pushes(contents, capacity, rest);
        let out = popped_values(contents, capacity, rest);
        match ops.last() {
            QueueOp::Push(v) => {
                if accepts_push(prev, capacity) {
                    assert(contents + acc.push(v) =~= (out + prev).push(v));
                    assert(out + prev.push(v) =~= (out + prev).push(v));
                }
            },
            QueueOp::Pop => {
                if prev.len() > 0 {
                    assert(out.push(prev[0]) + prev.drop_first() =~= out + prev);
                }
            },
        }
    }
}

/// The calls that push each of `vs` in order.
pub open spec fn push_ops<T>(vs: Seq<T>) -> Seq<QueueOp<T>> {
    Seq::new(vs.len(), |i: int| QueueOp::Push(vs[i]))
}

/// Pushing `vs` onto an empty queue with room for all of them accepts
/// every one and leaves exactly `vs` held.
pub proof fn lemma_fill<T>(capacity: int, vs: Seq<T>)
    requires
        vs.len() < capacity,
    ensures
        contents_after(Seq::empty(), capacity, push_ops(vs)) == vs,
        accepted_pushes(Seq::empty(), capacity, push_ops(vs)) == vs,
    decreases vs.len(),
{
    if vs.len() > 0 {
        let init = vs.drop_last();
        lemma_fill(capacity, init);
        assert(push_ops(vs).drop_last() =~= push_ops(init));
        assert(init.push(vs.last()) =~= vs);
    } else {
        assert(push_ops(vs) =~= Seq::<QueueOp<T>>::empty());
        assert(vs =~= Seq::<T>::empty());
    }
}

/// Full/empty disambiguation: a fresh queue of `capacity` slots hands out
/// nothing; `capacity - 1` pushes are all accepted and the next one is
/// refused; after one pop a push is accepted again.
pub proof fn lemma_full_empty<T>(capacity: int, vs: Seq<T>)
    requires
        capacity >= 2,
        vs.len() == capacity - 1,
    ensures
        front(Seq::<T>::empty()) is None,
        accepted_pushes(Seq::empty(), capacity, push_ops(vs)) == vs,
        contents_after(Seq::empty(), capacity, push_ops(vs)) == vs,
        !accepts_push(vs, capacity),
        accepts_push(after_pop(vs), capacity),
{
    lemma_fill(capacity, vs);
}

/// `n` pops in a row.
pub open spec fn pop_ops<T>(n: nat) -> Seq<QueueOp<T>> {
    Seq::new(n, |i: int| QueueOp::Pop)
}

/// After pushing `vs` and then popping `k` times, the first `k` are gone.
proof fn lemma_fill_then_pop<T>(capacity: int, vs: Seq<T>, k: nat)
    requires
        vs.len() < capacity,
        k <= vs.len(),
    ensures
        contents_after(Seq::empty(), capacity, push_ops(vs) + pop_ops(k)) == vs.subrange(
            k as int,
            vs.len() as int,
        ),
        accepted_pushes(Seq::empty(), capacity, push_ops(vs) + pop_ops(k)) == vs,
    decreases k,
{
    if k == 0 {
        lemma_fill(capacity, vs);
        assert(push_ops(vs) + pop_ops::<T>(0) =~= push_ops(vs));
        assert(vs.subrange(0, vs.len() as int) =~= vs);
    } else {
        lemma_fill_then_pop(capacity, vs, (k - 1) as nat);
        let ops = push_ops(vs) + pop_ops::<T>(k);
        assert(ops.drop_last() =~= push_ops(vs) + pop_ops::<T>((k - 1) as nat));
        assert(ops.last() == QueueOp::<T>::Pop);
        assert(vs.subrange(k - 1, vs.len() as int).drop_first() =~= vs.subrange(
            k as int,
            vs.len() as int,
        ));
    }
}

/// FIFO order, producer then consumer: pushing `vs` in order onto an empty
/// queue with room for all of them, then popping as many times, hands out
/// exactly `vs` in the same order and leaves the queue empty.
pub proof fn lemma_fifo_drain<T>(capacity: int, vs: Seq<T>)
    requires
        vs.len() < capacity,
    ensures
        accepted_pushes(Seq::empty(), capacity, push_ops(vs)) == vs,
        popped_values(Seq::empty(), capacity, push_ops(vs) + pop_ops(vs.len())) == vs,
        contents_after(Seq::empty(), capacity, push_ops(vs) + pop_ops(vs.len())).len() == 0,
{
    let ops = push_ops(vs) + pop_ops::<T>(vs.len());
    lemma_fill(capacity, vs);
    lemma_fill_then_pop(capacity, vs, vs.len());
    lemma_fifo(Seq::<T>::empty(), capacity, ops);
    assert(Seq::<T>::empty() + vs =~= vs);
    let out = popped_values(Seq::<T>::empty(), capacity, ops);
    assert(out + Seq::<T>::empty() =~= out);
}

} // verus!
