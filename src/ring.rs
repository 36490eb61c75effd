//! Cursor arithmetic of a ring of `capacity` slots in which the live slots
//! are the circular range `[read, write)` and one slot always stays free.
use vstd::prelude::*;

verus! {

/// Both cursors lie in a ring of at least two slots.
pub open spec fn valid_cursors(read: int, write: int, capacity: int) -> bool {
    &&& 2 <= capacity
    &&& 0 <= read < capacity
    &&& 0 <= write < capacity
}

/// The slot that follows `index`, wrapping to 0 at the end of the ring.
pub open spec fn next_slot(index: int, capacity: int) -> int {
    if index + 1 == capacity {
        0
    } else {
        index + 1
    }
}

/// How many slots the circular range `[read, write)` holds.
pub open spec fn live_count(read: int, write: int, capacity: int) -> int {
    if read <= write {
        write - read
    } else {
        write + capacity - read
    }
}

/// The slot `k` steps after `read` (for `0 <= k < capacity`).
pub open spec fn slot_at(read: int, k: int, capacity: int) -> int {
    if read + k < capacity {
        read + k
    } else {
        read + k - capacity
    }
}

/// How many steps after `read` the slot `slot` lies.
pub open spec fn offset_of(read: int, slot: int, capacity: int) -> int {
    if read <= slot {
        slot - read
    } else {
        slot + capacity - read
    }
}

/// The range is empty exactly when the cursors meet, and full (all slots
/// but the reserved one live) exactly when the slot after `write` is `read`.
pub proof fn lemma_cursor_states(read: int, write: int, capacity: int)
    requires
        valid_cursors(read, write, capacity),
    ensures
        0 <= live_count(read, write, capacity) < capacity,
        live_count(read, write, capacity) == 0 <==> read == write,
        live_count(read, write, capacity) == capacity - 1 <==> next_slot(write, capacity) == read,
        slot_at(read, live_count(read, write, capacity), capacity) == write,
{
}

/// The slot after `index`, that is `(index + 1) % capacity`.
pub fn next_index(index: usize, capacity: usize) -> (r: usize)
    requires
        index < capacity,
    ensures
        r == next_slot(index as int, capacity as int),
        r == (index as int + 1) % (capacity as int),
        r < capacity,
{
    proof {
        if index + 1 == capacity {
            vstd::arithmetic::div_mod::lemma_mod_self_0(capacity as int);
        } else {
            vstd::arithmetic::div_mod::lemma_small_mod((index + 1) as nat, capacity as nat);
        }
    }
    if index + 1 == capacity {
        0
    } else {
        index + 1
    }
}

/// The producer's decision: `None` when the ring is full, else the new
/// write cursor once the slot at `write` has been filled.
pub fn advance_write(read: usize, write: usize, capacity: usize) -> (r: Option<usize>)
    requires
        valid_cursors(read as int, write as int, capacity as int),
    ensures
        r is None <==> live_count(read as int, write as int, capacity as int) == capacity - 1,
        r is Some ==> r->0 == next_slot(write as int, capacity as int),
        r is Some ==> live_count(read as int, r->0 as int, capacity as int) == live_count(
            read as int,
            write as int,
            capacity as int,
        ) + 1,
{
    proof {
        lemma_cursor_states(read as int, write as int, capacity as int);
    }
    let next = next_index(write, capacity);
    if next == read {
        None
    } else {
        Some(next)
    }
}

/// The consumer's decision: `None` when the ring is empty, else the new
/// read cursor once the slot at `read` has been emptied.
pub fn advance_read(read: usize, write: usize, capacity: usize) -> (r: Option<usize>)
    requires
        valid_cursors(read as int, write as int, capacity as int),
    ensures
        r is None <==> live_count(read as int, write as int, capacity as int) == 0,
        r is Some ==> r->0 == next_slot(read as int, capacity as int),
        r is Some ==> live_count(r->0 as int, write as int, capacity as int) == live_count(
            read as int,
            write as int,
            capacity as int,
        ) - 1,
{
    proof {
        lemma_cursor_states(read as int, write as int, capacity as int);
    }
    if read == write {
        None
    } else {
        Some(next_index(read, capacity))
    }
}

} // verus!
