//! The mathematical model of a table: a sequence of slots, each a sequence of elements,
//! and what the operations make of it.

use crate::element::Element;
use vstd::arithmetic::power2::is_pow2;
use vstd::prelude::*;

verus! {

/// The number of slots of a new table, and the smallest that a table ever has.
pub const INITIAL_CAPACITY: usize = 16;

/// The views of the elements of `s`, in the same order.
pub open spec fn keys<T: View>(s: Seq<T>) -> Seq<T::V> {
    s.map_values(|e: T| e@)
}

/// The slot that a table of `capacity` slots keeps an element with hash `digest` in.
pub open spec fn slot_of(digest: u64, capacity: nat) -> int {
    (digest as int) % (capacity as int)
}

/// The slot that a table of `capacity` slots keeps the elements with view `v` in.
pub open spec fn home<T: Element>(v: T::V, capacity: nat) -> int {
    slot_of(T::spec_digest(v), capacity)
}

/// A table has a power of two as its number of slots, and at least 16 of them.
pub open spec fn valid_capacity(capacity: nat) -> bool {
    capacity >= INITIAL_CAPACITY && is_pow2(capacity as int)
}

/// Whether a table that holds `len` elements in `capacity` slots has to grow before it
/// takes one more: with that element it would be more than three quarters full.
pub open spec fn load_exceeded(len: nat, capacity: nat) -> bool {
    (len + 1) * 4 > capacity * 3
}

/// What a vector of slots holds, as sequences.
pub open spec fn contents<T>(buckets: Seq<Vec<T>>) -> Seq<Seq<T>> {
    Seq::new(buckets.len(), |i: int| buckets[i]@)
}

/// The elements from place `pos` of slot `slot` on, in traversal order.
pub open spec fn rest_of<T>(slots: Seq<Seq<T>>, slot: int, pos: int) -> Seq<T> {
    if 0 <= slot < slots.len() {
        slots[slot].skip(pos) + slots.skip(slot + 1).flatten()
    } else {
        Seq::empty()
    }
}

/// The set that the slots stand for: the views of all their elements.
pub open spec fn members<T: View>(slots: Seq<Seq<T>>) -> Set<T::V> {
    keys(slots.flatten()).to_set()
}

/// The number of elements in all slots together.
pub open spec fn count<T>(slots: Seq<Seq<T>>) -> nat {
    slots.flatten().len()
}

/// Every element lies in the slot that its hash selects, and no slot holds two elements
/// with the same view. So no two elements of the whole table have the same view.
pub open spec fn well_placed<T: Element>(slots: Seq<Seq<T>>) -> bool {
    &&& forall|i: int, j: int|
        0 <= i < slots.len() && 0 <= j < slots[i].len() ==> home::<T>(
            #[trigger] slots[i][j]@,
            slots.len(),
        ) == i
    &&& forall|i: int| 0 <= i < slots.len() ==> #[trigger] keys(slots[i]).no_duplicates()
}

/// What holds of the slots of every table between two operations.
pub open spec fn well_formed<T: Element>(slots: Seq<Seq<T>>) -> bool {
    &&& valid_capacity(slots.len())
    &&& well_placed(slots)
    &&& count(slots) * 4 <= slots.len() * 3
}

/// `capacity` slots without an element.
pub open spec fn empty_slots<T>(capacity: nat) -> Seq<Seq<T>> {
    Seq::new(capacity, |n: int| Seq::<T>::empty())
}

/// The slots with `value` added at the end of its home slot.
pub open spec fn appended<T: Element>(slots: Seq<Seq<T>>, value: T) -> Seq<Seq<T>> {
    let h = home::<T>(value@, slots.len());
    slots.update(h, slots[h].push(value))
}

/// The test that picks the elements whose home among `capacity` slots is slot `n`.
pub open spec fn in_slot<T: Element>(n: int, capacity: nat) -> spec_fn(T) -> bool {
    |e: T| home::<T>(e@, capacity) == n
}

/// The elements dealt out to `capacity` slots, each to its home, those of one slot in
/// the order in which they stand in `elements`.
pub open spec fn spread<T: Element>(elements: Seq<T>, capacity: nat) -> Seq<Seq<T>> {
    Seq::new(capacity, |n: int| elements.filter(in_slot::<T>(n, capacity)))
}

/// The table rebuilt with `capacity` slots: its elements, taken in traversal order, are
/// dealt out to the new slots.
pub open spec fn rehashed<T: Element>(slots: Seq<Seq<T>>, capacity: nat) -> Seq<Seq<T>> {
    spread(slots.flatten(), capacity)
}

/// The slots after `value` was inserted. A value whose view the table holds already
/// changes nothing. Otherwise the table first doubles its slots if it has to grow, and
/// then takes the value at the end of its home slot.
pub open spec fn with_element<T: Element>(slots: Seq<Seq<T>>, value: T) -> Seq<Seq<T>> {
    if members(slots).contains(value@) {
        slots
    } else if load_exceeded(count(slots), slots.len()) {
        appended(rehashed(slots, 2 * slots.len()), value)
    } else {
        appended(slots, value)
    }
}

/// The slots after the element with view `v` was removed: the elements behind it in its
/// slot move up by one place. Without such an element nothing changes.
pub open spec fn without<T: Element>(slots: Seq<Seq<T>>, v: T::V) -> Seq<Seq<T>> {
    let h = home::<T>(v, slots.len());
    if members(slots).contains(v) {
        slots.update(h, slots[h].remove(keys(slots[h]).index_of(v)))
    } else {
        slots
    }
}

/// The slots after the elements of `items` were inserted one after the other.
pub open spec fn with_all<T: Element>(slots: Seq<Seq<T>>, items: Seq<T>) -> Seq<Seq<T>>
    decreases items.len(),
{
    if items.len() == 0 {
        slots
    } else {
        with_element(with_all(slots, items.drop_last()), items.last())
    }
}

/// The slots of the table that is made of the elements of `items`: it starts empty
/// with 16 slots and takes them one after the other.
pub open spec fn built<T: Element>(items: Seq<T>) -> Seq<Seq<T>> {
    with_all(empty_slots::<T>(INITIAL_CAPACITY as nat), items)
}

/// Whether a table is no larger than insertions alone make it: it has 16 slots, or it
/// is more than three eighths full.
pub open spec fn grown_by_need<T>(slots: Seq<Seq<T>>) -> bool {
    slots.len() == INITIAL_CAPACITY || slots.len() * 3 < count(slots) * 8
}

} // verus!
