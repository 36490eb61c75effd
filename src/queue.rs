//! A bounded FIFO queue kept in a ring of slots: one producer pushes at the
//! write cursor, one consumer pops at the read cursor, and one slot always
//! stays free so that a full ring is told apart from an empty one.
use vstd::prelude::*;
use crate::ring::{
    advance_read, advance_write, lemma_cursor_states, live_count, next_slot, offset_of, slot_at,
    valid_cursors,
};

verus! {

/// Whether a push onto `contents` in a ring of `capacity` slots is accepted.
pub open spec fn accepts_push<T>(contents: Seq<T>, capacity: int) -> bool {
    contents.len() + 1 < capacity
}

/// The contents after pushing `v`: appended when accepted, else unchanged.
pub open spec fn after_push<T>(contents: Seq<T>, capacity: int, v: T) -> Seq<T> {
    if accepts_push(contents, capacity) {
        contents.push(v)
    } else {
        contents
    }
}

/// What a pop hands out: the oldest element, if any.
pub open spec fn front<T>(contents: Seq<T>) -> Option<T> {
    if contents.len() == 0 {
        None
    } else {
        Some(contents[0])
    }
}

/// The contents after a pop: the oldest element removed, if any.
pub open spec fn after_pop<T>(contents: Seq<T>) -> Seq<T> {
    if contents.len() == 0 {
        contents
    } else {
        contents.drop_first()
    }
}

pub struct SPSCQueue<T> {
    buffer: Vec<Option<T>>,
    capacity: usize,
    write_idx: usize,
    read_idx: usize,
}

impl<T> View for SPSCQueue<T> {
    type V = Seq<T>;

    /// The live elements, oldest first.
    closed spec fn view(&self) -> Seq<T> {
        Seq::new(
            live_count(self.read_idx as int, self.write_idx as int, self.capacity as int) as nat,
            |k: int|
                self.buffer@[slot_at(self.read_idx as int, k, self.capacity as int)]->Some_0,
        )
    }
}

impl<T> SPSCQueue<T> {
    /// The number of slots, fixed at construction.
    pub closed spec fn cap(&self) -> int {
        self.capacity as int
    }

    /// The read cursor: the slot of the oldest element.
    pub closed spec fn read_index(&self) -> int {
        self.read_idx as int
    }

    /// The write cursor: the slot the next accepted push fills.
    pub closed spec fn write_index(&self) -> int {
        self.write_idx as int
    }

    /// The slots of the ring, each empty or holding one value.
    pub closed spec fn slots(&self) -> Seq<Option<T>> {
        self.buffer@
    }

    /// The cursors lie in the ring, and a slot holds a value exactly when it
    /// lies in the circular range `[read, write)`.
    pub closed spec fn wf(&self) -> bool {
        &&& valid_cursors(self.read_idx as int, self.write_idx as int, self.capacity as int)
        &&& self.buffer@.len() == self.capacity
        &&& forall|j: int|
            0 <= j < self.capacity ==> (#[trigger] self.buffer@[j] is Some <==> offset_of(
                self.read_idx as int,
                j,
                self.capacity as int,
            ) < live_count(self.read_idx as int, self.write_idx as int, self.capacity as int))
    }

    /// Never more than `capacity - 1` elements are live.
    pub proof fn lemma_live_bound(&self)
        requires
            self.wf(),
        ensures
            self@.len() <= self.cap() - 1,
    {
        lemma_cursor_states(self.read_idx as int, self.write_idx as int, self.capacity as int);
    }

    /// How the contents sit in the ring: the cursors lie in it, the live
    /// elements are the circular range `[read_index, write_index)` oldest
    /// first, and every slot outside that range is empty.
    pub proof fn lemma_layout(&self)
        requires
            self.wf(),
        ensures
            valid_cursors(self.read_index(), self.write_index(), self.cap()),
            self.slots().len() == self.cap(),
            self@.len() == live_count(self.read_index(), self.write_index(), self.cap()),
            forall|k: int|
                0 <= k < self@.len() ==> self.slots()[slot_at(self.read_index(), k, self.cap())]
                    == Some(#[trigger] self@[k]),
            forall|j: int|
                0 <= j < self.cap() ==> (#[trigger] self.slots()[j] is None <==> offset_of(
                    self.read_index(),
                    j,
                    self.cap(),
                ) >= self@.len()),
    {
        lemma_cursor_states(self.read_idx as int, self.write_idx as int, self.capacity as int);
        assert forall|k: int| 0 <= k < self@.len() implies self.slots()[slot_at(
            self.read_index(),
            k,
            self.cap(),
        )] == Some(#[trigger] self@[k]) by {
            let j = slot_at(self.read_index(), k, self.cap());
            assert(offset_of(self.read_index(), j, self.cap()) == k);
            assert(self.buffer@[j] is Some);
        }
    }

    /// An empty queue of `capacity` slots, which holds up to `capacity - 1`
    /// elements.
    pub fn new(capacity: usize) -> (q: Self)
        requires
            capacity >= 2,
        ensures
            q.wf(),
            q.cap() == capacity,
            q@ == Seq::<T>::empty(),
            q.read_index() == 0,
            q.write_index() == 0,
            q.slots() == Seq::new(capacity as nat, |j: int| None::<T>),
    {
        let mut buffer: Vec<Option<T>> = Vec::with_capacity(capacity);
        let mut i: usize = 0;
        while i < capacity
            invariant
                i <= capacity,
                buffer@.len() == i,
                forall|j: int| 0 <= j < i ==> #[trigger] buffer@[j] is None,
            decreases capacity - i,
        {
            buffer.push(None);
            i = i + 1;
        }
        let q = SPSCQueue { buffer, capacity, write_idx: 0, read_idx: 0 };
        assert(q@ =~= Seq::<T>::empty());
        assert(q.slots() =~= Seq::new(capacity as nat, |j: int| None::<T>));
        q
    }

    /// Appends `item` unless the queue is full. An accepted push stores
    /// `item` in the slot at the write cursor and moves that cursor one slot
    /// on; a refused one changes nothing and hands `item` back in `Err`.
    pub fn push(&mut self, item: T) -> (r: Result<(), T>)
        requires
            old(self).wf(),
        ensures
            final(self).wf(),
            final(self).cap() == old(self).cap(),
            r is Ok <==> accepts_push(old(self)@, old(self).cap()),
            r is Err ==> r->Err_0 == item,
            final(self)@ == after_push(old(self)@, old(self).cap(), item),
            final(self).read_index() == old(self).read_index(),
            final(self).write_index() == if r is Ok {
                next_slot(old(self).write_index(), old(self).cap())
            } else {
                old(self).write_index()
            },
            final(self).slots() == if r is Ok {
                old(self).slots().update(old(self).write_index(), Some(item))
            } else {
                old(self).slots()
            },
    {
        let write = self.write_idx;
        let read = self.read_idx;
        let cap = self.capacity;
        proof {
            lemma_cursor_states(read as int, write as int, cap as int);
        }
        match advance_write(read, write, cap) {
            None => Err(item),
            Some(next) => {
                let ghost before = self@;
                self.buffer[write] = Some(item);
                self.write_idx = next;
                proof {
                    let n = live_count(read as int, write as int, cap as int);
                    assert forall|j: int| 0 <= j < cap implies (#[trigger] self.buffer@[j] is Some
                        <==> offset_of(read as int, j, cap as int) < live_count(
                        read as int,
                        next as int,
                        cap as int,
                    )) by {
                        if j != write {
                            assert(offset_of(read as int, j, cap as int) != n);
                        }
                    }
                    assert forall|k: int| 0 <= k < n implies slot_at(read as int, k, cap as int)
                        != write by {
                        assert(offset_of(read as int, slot_at(read as int, k, cap as int), cap as int) == k);
                    }
                    assert(self@ =~= before.push(item));
                }
                Ok(())
            },
        }
    }

    /// Removes and returns the oldest element, emptying the slot at the read
    /// cursor and moving that cursor one slot on; `None` when the queue is
    /// empty, and then nothing changes.
    pub fn pop(&mut self) -> (r: Option<T>)
        requires
            old(self).wf(),
        ensures
            final(self).wf(),
            final(self).cap() == old(self).cap(),
            r == front(old(self)@),
            final(self)@ == after_pop(old(self)@),
            final(self).write_index() == old(self).write_index(),
            final(self).read_index() == if r is Some {
                next_slot(old(self).read_index(), old(self).cap())
            } else {
                old(self).read_index()
            },
            final(self).slots() == if r is Some {
                old(self).slots().update(old(self).read_index(), None)
            } else {
                old(self).slots()
            },
    {
        let write = self.write_idx;
        let read = self.read_idx;
        let cap = self.capacity;
        proof {
            lemma_cursor_states(read as int, write as int, cap as int);
        }
        match advance_read(read, write, cap) {
            None => None,
            Some(next) => {
                let ghost before = self@;
                assert(slot_at(read as int, 0, cap as int) == read);
                let value = self.buffer[read].take();
                self.read_idx = next;
                proof {
                    let n = live_count(read as int, write as int, cap as int);
                    assert forall|j: int| 0 <= j < cap implies (#[trigger] self.buffer@[j] is Some
                        <==> offset_of(next as int, j, cap as int) < live_count(
                        next as int,
                        write as int,
                        cap as int,
                    )) by {
                        if j != read {
                            assert(offset_of(next as int, j, cap as int) == offset_of(
                                read as int,
                                j,
                                cap as int,
                            ) - 1);
                        }
                    }
                    assert forall|k: int| 0 <= k < n - 1 implies slot_at(next as int, k, cap as int)
                        == slot_at(read as int, k + 1, cap as int) by {}
                    assert(self@ =~= before.drop_first());
                }
                value
            },
        }
    }
}

} // verus!
