//! What holds of the table whatever it holds, stated over its model.

use crate::element::Element;
use crate::lemmas::lemma_distinct;
use crate::lemmas::lemma_empty_slots;
use crate::lemmas::lemma_member;
use crate::lemmas::lemma_rehashed;
use crate::lemmas::lemma_same_keys;
use crate::lemmas::lemma_with_element;
use crate::lemmas::lemma_without;
use crate::model::count;
use crate::model::empty_slots;
use crate::model::keys;
use crate::model::load_exceeded;
use crate::model::members;
use crate::model::rehashed;
use crate::model::valid_capacity;
use crate::model::well_formed;
use crate::model::with_all;
use crate::model::with_element;
use crate::model::without;
use vstd::prelude::*;

verus! {

/// A table that has taken a sequence of elements holds their views and those it held
/// before, and counts each view once, however often it came.
pub proof fn law_set_semantics<T: Element>(slots: Seq<Seq<T>>, items: Seq<T>)
    requires
        well_formed(slots),
    ensures
        well_formed(with_all(slots, items)),
        members(with_all(slots, items)) == members(slots).union(keys(items).to_set()),
        count(with_all(slots, items)) == members(slots).union(keys(items).to_set()).len(),
    decreases items.len(),
{
    if items.len() == 0 {
        assert(keys(items).to_set() =~= Set::<T::V>::empty());
        assert(members(slots).union(keys(items).to_set()) =~= members(slots));
    } else {
        let shorter = items.drop_last();
        law_set_semantics(slots, shorter);
        lemma_with_element(with_all(slots, shorter), items.last());
        assert(keys(items) =~= keys(shorter).push(items.last()@));
        keys(shorter).lemma_push_to_set_commute(items.last()@);
        assert(members(with_all(slots, items)) =~= members(slots).union(keys(items).to_set()));
    }
    lemma_distinct(with_all(slots, items));
}

/// After an insertion the table holds the inserted element, and of all others what it
/// held before. A table holds only what was inserted: an empty one holds nothing.
pub proof fn law_insert_then_contains<T: Element>(slots: Seq<Seq<T>>, value: T, capacity: nat)
    requires
        well_formed(slots),
    ensures
        members(with_element(slots, value)).contains(value@),
        forall|v: T::V|
            v != value@ ==> (members(with_element(slots, value)).contains(v) <==> members(
                slots,
            ).contains(v)),
        forall|v: T::V| !members(empty_slots::<T>(capacity)).contains(v),
{
    lemma_with_element(slots, value);
    lemma_empty_slots::<T>(capacity);
}

/// The second of two insertions of equal elements changes nothing. If the element was
/// new, the first has made the table larger by one element.
pub proof fn law_insert_twice<T: Element>(slots: Seq<Seq<T>>, first: T, second: T)
    requires
        well_formed(slots),
        first@ == second@,
    ensures
        with_element(with_element(slots, first), second) == with_element(slots, first),
        !members(slots).contains(first@) ==> count(with_element(slots, first)) == count(slots)
            + 1,
{
    lemma_with_element(slots, first);
}

/// Removing an element that the table holds leaves one element less and a table that
/// does not hold it. Removing one that it does not hold changes nothing. The number of
/// slots stays in both cases.
pub proof fn law_remove<T: Element>(slots: Seq<Seq<T>>, v: T::V)
    requires
        well_formed(slots),
    ensures
        well_formed(without(slots, v)),
        !members(without(slots, v)).contains(v),
        members(without(slots, v)) == members(slots).remove(v),
        members(slots).contains(v) ==> count(without(slots, v)) == count(slots) - 1,
        !members(slots).contains(v) ==> without(slots, v) == slots,
        without(slots, v).len() == slots.len(),
{
    if members(slots).contains(v) {
        lemma_without(slots, v);
        lemma_member(slots, v);
    } else {
        assert(members(slots).remove(v) =~= members(slots));
    }
}

/// A cleared table is well formed and holds nothing.
pub proof fn law_clear<T: Element>(capacity: nat)
    requires
        valid_capacity(capacity),
    ensures
        well_formed(empty_slots::<T>(capacity)),
        members(empty_slots::<T>(capacity)) == Set::<T::V>::empty(),
        count(empty_slots::<T>(capacity)) == 0,
        empty_slots::<T>(capacity).len() == capacity,
{
    lemma_empty_slots::<T>(capacity);
}

/// The number of slots never goes down. It stays at a removal, and at an insertion it
/// doubles if the element is new and the table would be more than three quarters full
/// with it, and stays otherwise.
pub proof fn law_growth<T: Element>(slots: Seq<Seq<T>>, value: T, v: T::V)
    requires
        well_formed(slots),
    ensures
        without(slots, v).len() == slots.len(),
        with_element(slots, value).len() == if !members(slots).contains(value@) && load_exceeded(
            count(slots),
            slots.len(),
        ) {
            2 * slots.len()
        } else {
            slots.len()
        },
        count(with_element(slots, value)) * 4 <= with_element(slots, value).len() * 3,
{
    lemma_with_element(slots, value);
}

/// A table rebuilt with more slots holds what it held, each element in the slot that
/// its hash selects among the new ones.
pub proof fn law_resize_keeps_members<T: Element>(slots: Seq<Seq<T>>)
    requires
        well_formed(slots),
    ensures
        well_formed(rehashed(slots, 2 * slots.len())),
        members(rehashed(slots, 2 * slots.len())) == members(slots),
        count(rehashed(slots, 2 * slots.len())) == count(slots),
{
    lemma_rehashed(slots, 2 * slots.len());
    crate::lemmas::lemma_capacity(slots.len());
}

/// The traversal of a table meets every member of its set, and none twice: there are
/// as many elements as the set has members.
pub proof fn law_traversal<T: Element>(slots: Seq<Seq<T>>)
    requires
        well_formed(slots),
    ensures
        keys(slots.flatten()).no_duplicates(),
        keys(slots.flatten()).to_set() == members(slots),
        members(slots).finite(),
        slots.flatten().len() == members(slots).len(),
{
    lemma_distinct(slots);
}

/// A copy of a table holds what the table holds. An element that is then inserted into
/// the copy is in the copy, and the table holds what it held.
pub proof fn law_copy_is_independent<T: Element>(
    slots: Seq<Seq<T>>,
    copy: Seq<Seq<T>>,
    value: T,
)
    requires
        well_formed(slots),
        copy.len() == slots.len(),
        forall|i: int| 0 <= i < slots.len() ==> #[trigger] keys(slots[i]) == keys(copy[i]),
    ensures
        well_formed(copy),
        members(copy) == members(slots),
        members(with_element(copy, value)) == members(slots).insert(value@),
        !members(slots).contains(value@) ==> members(with_element(copy, value)) != members(
            slots,
        ),
{
    lemma_same_keys(slots, copy);
    lemma_with_element(copy, value);
}

} // verus!
