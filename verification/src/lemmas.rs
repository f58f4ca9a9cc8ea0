//! Proofs about the model that the operations of the table rest on.

use crate::element::Element;
use crate::model::appended;
use crate::model::count;
use crate::model::empty_slots;
use crate::model::grown_by_need;
use crate::model::home;
use crate::model::in_slot;
use crate::model::keys;
use crate::model::load_exceeded;
use crate::model::members;
use crate::model::rehashed;
use crate::model::rest_of;
use crate::model::spread;
use crate::model::valid_capacity;
use crate::model::well_formed;
use crate::model::well_placed;
use crate::model::with_element;
use crate::model::INITIAL_CAPACITY;
use crate::model::without;
use vstd::arithmetic::power2::is_pow2;
use vstd::prelude::*;
use vstd::seq_lib::lemma_no_dup_in_concat;

verus! {

/// An element lies in the concatenation of all slots exactly if it lies in one of them.
pub proof fn lemma_flatten_contains<A>(slots: Seq<Seq<A>>, x: A)
    ensures
        slots.flatten().contains(x) <==> exists|i: int|
            0 <= i < slots.len() && #[trigger] slots[i].contains(x),
    decreases slots.len(),
{
    if slots.len() == 0 {
        assert(slots.flatten() =~= Seq::<A>::empty());
    } else {
        let first = slots.first();
        let rest = slots.drop_first();
        let tail = rest.flatten();
        lemma_flatten_contains(rest, x);
        assert(slots.flatten() == first + tail);
        if slots.flatten().contains(x) {
            let k = choose|k: int| 0 <= k < slots.flatten().len() && slots.flatten()[k] == x;
            if k < first.len() {
                assert(first[k] == x);
                assert(slots[0].contains(x));
            } else {
                assert(tail[k - first.len()] == x);
                assert(tail.contains(x));
                let i = choose|i: int| 0 <= i < rest.len() && #[trigger] rest[i].contains(x);
                assert(rest[i] == slots[i + 1]);
                assert(slots[i + 1].contains(x));
            }
        }
        if exists|i: int| 0 <= i < slots.len() && #[trigger] slots[i].contains(x) {
            let i = choose|i: int| 0 <= i < slots.len() && #[trigger] slots[i].contains(x);
            if i == 0 {
                let j = choose|j: int| 0 <= j < first.len() && first[j] == x;
                assert((first + tail)[j] == x);
            } else {
                assert(rest[i - 1] == slots[i]);
                assert(rest[i - 1].contains(x));
                let k = choose|k: int| 0 <= k < tail.len() && tail[k] == x;
                assert((first + tail)[first.len() + k] == x);
            }
        }
    }
}

/// A view occurs among all elements exactly if it occurs in one of the slots.
pub proof fn lemma_keys_of_flatten<T: View>(slots: Seq<Seq<T>>, v: T::V)
    ensures
        members(slots).contains(v) <==> exists|i: int|
            0 <= i < slots.len() && #[trigger] keys(slots[i]).contains(v),
{
    let flat = slots.flatten();
    if keys(flat).to_set().contains(v) {
        let k = choose|k: int| 0 <= k < keys(flat).len() && keys(flat)[k] == v;
        lemma_flatten_contains(slots, flat[k]);
        let i = choose|i: int| 0 <= i < slots.len() && #[trigger] slots[i].contains(flat[k]);
        let j = choose|j: int| 0 <= j < slots[i].len() && slots[i][j] == flat[k];
        assert(keys(slots[i])[j] == v);
        assert(keys(slots[i]).contains(v));
    }
    if exists|i: int| 0 <= i < slots.len() && #[trigger] keys(slots[i]).contains(v) {
        let i = choose|i: int| 0 <= i < slots.len() && #[trigger] keys(slots[i]).contains(v);
        let j = choose|j: int| 0 <= j < keys(slots[i]).len() && keys(slots[i])[j] == v;
        assert(slots[i].contains(slots[i][j]));
        lemma_flatten_contains(slots, slots[i][j]);
        let k = choose|k: int| 0 <= k < flat.len() && flat[k] == slots[i][j];
        assert(keys(flat)[k] == v);
        assert(keys(flat).contains(v));
    }
}

/// In a well-placed table a view occurs exactly if it occurs in its home slot.
pub proof fn lemma_member<T: Element>(slots: Seq<Seq<T>>, v: T::V)
    requires
        well_placed(slots),
        slots.len() > 0,
    ensures
        0 <= home::<T>(v, slots.len()) < slots.len(),
        members(slots).contains(v) <==> keys(slots[home::<T>(v, slots.len())]).contains(v),
{
    lemma_keys_of_flatten(slots, v);
    if members(slots).contains(v) {
        let i = choose|i: int| 0 <= i < slots.len() && #[trigger] keys(slots[i]).contains(v);
        let j = choose|j: int| 0 <= j < keys(slots[i]).len() && keys(slots[i])[j] == v;
        assert(slots[i][j]@ == v);
    }
}

/// Slots that are all empty hold no element.
pub proof fn lemma_flatten_all_empty<A>(slots: Seq<Seq<A>>)
    requires
        forall|i: int| 0 <= i < slots.len() ==> (#[trigger] slots[i]).len() == 0,
    ensures
        slots.flatten() == Seq::<A>::empty(),
    decreases slots.len(),
{
    if slots.len() > 0 {
        let rest = slots.drop_first();
        assert forall|i: int| 0 <= i < rest.len() implies (#[trigger] rest[i]).len() == 0 by {
            assert(rest[i] == slots[i + 1]);
        }
        lemma_flatten_all_empty(rest);
        assert(slots.flatten() =~= Seq::<A>::empty());
    }
}

/// Empty slots are well placed and stand for the empty set.
pub proof fn lemma_empty_slots<T: Element>(capacity: nat)
    ensures
        well_placed(empty_slots::<T>(capacity)),
        members(empty_slots::<T>(capacity)) == Set::<T::V>::empty(),
        count(empty_slots::<T>(capacity)) == 0,
{
    let slots = empty_slots::<T>(capacity);
    lemma_flatten_all_empty(slots);
    assert(keys(slots.flatten()) =~= Seq::<T::V>::empty());
    assert(members(slots) =~= Set::<T::V>::empty());
    assert forall|i: int| 0 <= i < slots.len() implies #[trigger] keys(slots[i]).no_duplicates() by {
        assert(keys(slots[i]) =~= Seq::<T::V>::empty());
    }
}

/// Replacing one slot changes the number of elements by the difference in length.
pub proof fn lemma_flatten_update_len<A>(slots: Seq<Seq<A>>, i: int, slot: Seq<A>)
    requires
        0 <= i < slots.len(),
    ensures
        slots.update(i, slot).flatten().len() == slots.flatten().len() - slots[i].len()
            + slot.len(),
    decreases slots.len(),
{
    let changed = slots.update(i, slot);
    if i == 0 {
        assert(changed.drop_first() =~= slots.drop_first());
    } else {
        lemma_flatten_update_len(slots.drop_first(), i - 1, slot);
        assert(changed.drop_first() =~= slots.drop_first().update(i - 1, slot));
    }
}

/// Twice a valid capacity is a valid capacity, and each is a multiple of four.
pub proof fn lemma_capacity(capacity: nat)
    requires
        valid_capacity(capacity),
    ensures
        capacity % 4 == 0,
        valid_capacity(2 * capacity),
{
    reveal_with_fuel(is_pow2, 3);
}

/// A new element at the end of its home slot: the table stays well placed, the element
/// joins the set, and there is one element more.
pub proof fn lemma_appended<T: Element>(slots: Seq<Seq<T>>, value: T)
    requires
        well_placed(slots),
        slots.len() > 0,
        !members(slots).contains(value@),
    ensures
        well_placed(appended(slots, value)),
        members(appended(slots, value)) == members(slots).insert(value@),
        count(appended(slots, value)) == count(slots) + 1,
{
    let h = home::<T>(value@, slots.len());
    let after = appended(slots, value);
    lemma_member(slots, value@);
    lemma_flatten_update_len(slots, h, slots[h].push(value));
    assert(keys(after[h]) =~= keys(slots[h]).push(value@));
    assert forall|i: int| 0 <= i < after.len() implies #[trigger] keys(after[i]).no_duplicates() by {
        if i != h {
            assert(after[i] == slots[i]);
        } else {
            let old_keys = keys(slots[h]);
            let new_keys = old_keys.push(value@);
            assert(old_keys.no_duplicates());
            assert forall|a: int, b: int|
                0 <= a < new_keys.len() && 0 <= b < new_keys.len() && a != b implies new_keys[a]
                != new_keys[b] by {
                if a < old_keys.len() {
                    assert(old_keys.contains(old_keys[a]));
                }
                if b < old_keys.len() {
                    assert(old_keys.contains(old_keys[b]));
                }
            }
        }
    }
    assert forall|i: int, j: int| 0 <= i < after.len() && 0 <= j < after[i].len() implies home::<
        T,
    >(#[trigger] after[i][j]@, after.len()) == i by {
        if i == h && j == slots[h].len() {
        } else {
            assert(after[i][j] == slots[i][j]);
        }
    }
    assert forall|v: T::V| members(after).contains(v) <==> members(slots).insert(
        value@,
    ).contains(v) by {
        lemma_keys_of_flatten(after, v);
        lemma_keys_of_flatten(slots, v);
        if members(after).contains(v) {
            let i = choose|i: int| 0 <= i < after.len() && #[trigger] keys(after[i]).contains(v);
            if i != h {
                assert(after[i] == slots[i]);
                assert(keys(slots[i]).contains(v));
            } else if v != value@ {
                let j = choose|j: int| 0 <= j < keys(after[h]).len() && keys(after[h])[j] == v;
                assert(keys(slots[h])[j] == v);
                assert(keys(slots[h]).contains(v));
            }
        }
        if members(slots).contains(v) {
            let i = choose|i: int| 0 <= i < slots.len() && #[trigger] keys(slots[i]).contains(v);
            let j = choose|j: int| 0 <= j < keys(slots[i]).len() && keys(slots[i])[j] == v;
            assert(keys(after[i])[j] == v);
            assert(keys(after[i]).contains(v));
        }
        if v == value@ {
            assert(keys(after[h])[slots[h].len() as int] == v);
            assert(keys(after[h]).contains(v));
        }
    }
    assert(members(after) =~= members(slots).insert(value@));
}

/// An element taken out of its home slot: the table stays well placed, the element
/// leaves the set, and there is one element less.
pub proof fn lemma_without<T: Element>(slots: Seq<Seq<T>>, v: T::V)
    requires
        well_placed(slots),
        slots.len() > 0,
        members(slots).contains(v),
    ensures
        well_placed(without(slots, v)),
        members(without(slots, v)) == members(slots).remove(v),
        count(without(slots, v)) == count(slots) - 1,
{
    let h = home::<T>(v, slots.len());
    lemma_member(slots, v);
    let p = keys(slots[h]).index_of(v);
    assert(0 <= p < slots[h].len() && slots[h][p]@ == v);
    let after = without(slots, v);
    lemma_flatten_update_len(slots, h, slots[h].remove(p));
    assert(keys(after[h]) =~= keys(slots[h]).remove(p));
    assert(keys(slots[h]).no_duplicates());
    assert forall|i: int| 0 <= i < after.len() implies #[trigger] keys(after[i]).no_duplicates() by {
        if i != h {
            assert(after[i] == slots[i]);
        } else {
            let old_keys = keys(slots[h]);
            let new_keys = old_keys.remove(p);
            assert forall|a: int, b: int|
                0 <= a < new_keys.len() && 0 <= b < new_keys.len() && a != b implies new_keys[a]
                != new_keys[b] by {
                let a0 = if a < p { a } else { a + 1 };
                let b0 = if b < p { b } else { b + 1 };
                assert(new_keys[a] == old_keys[a0]);
                assert(new_keys[b] == old_keys[b0]);
            }
        }
    }
    assert forall|i: int, j: int| 0 <= i < after.len() && 0 <= j < after[i].len() implies home::<
        T,
    >(#[trigger] after[i][j]@, after.len()) == i by {
        if i == h {
            let j0 = if j < p { j } else { j + 1 };
            assert(after[i][j] == slots[i][j0]);
        } else {
            assert(after[i][j] == slots[i][j]);
        }
    }
    assert forall|w: T::V| members(after).contains(w) <==> members(slots).remove(v).contains(
        w,
    ) by {
        lemma_keys_of_flatten(after, w);
        lemma_keys_of_flatten(slots, w);
        if members(after).contains(w) {
            let i = choose|i: int| 0 <= i < after.len() && #[trigger] keys(after[i]).contains(w);
            let j = choose|j: int| 0 <= j < keys(after[i]).len() && keys(after[i])[j] == w;
            if i != h {
                assert(after[i] == slots[i]);
                assert(slots[i][j]@ == w);
                assert(w != v);
            } else {
                let j0 = if j < p { j } else { j + 1 };
                assert(keys(slots[h])[j0] == w);
                assert(keys(slots[h]).contains(w));
                assert(w != v);
            }
        }
        if members(slots).contains(w) && w != v {
            let i = choose|i: int| 0 <= i < slots.len() && #[trigger] keys(slots[i]).contains(w);
            let j = choose|j: int| 0 <= j < keys(slots[i]).len() && keys(slots[i])[j] == w;
            if i != h {
                assert(after[i] == slots[i]);
                assert(keys(after[i]).contains(w));
            } else {
                let j1 = if j < p { j } else { j - 1 };
                assert(keys(after[h])[j1] == w);
                assert(keys(after[h]).contains(w));
            }
        }
    }
    assert(members(after) =~= members(slots).remove(v));
}

/// Slots that are free of duplicates, and no two of which share a view, hold no view
/// twice.
proof fn lemma_flatten_distinct<T: View>(slots: Seq<Seq<T>>)
    requires
        forall|i: int| 0 <= i < slots.len() ==> #[trigger] keys(slots[i]).no_duplicates(),
        forall|a: int, b: int, c: int, d: int|
            0 <= a < c < slots.len() && 0 <= b < slots[a].len() && 0 <= d < slots[c].len()
                ==> (#[trigger] slots[a][b])@ != (#[trigger] slots[c][d])@,
    ensures
        keys(slots.flatten()).no_duplicates(),
    decreases slots.len(),
{
    if slots.len() == 0 {
        assert(keys(slots.flatten()) =~= Seq::<T::V>::empty());
    } else {
        let first = slots.first();
        let rest = slots.drop_first();
        let tail = rest.flatten();
        assert forall|i: int| 0 <= i < rest.len() implies #[trigger] keys(
            rest[i],
        ).no_duplicates() by {
            assert(rest[i] == slots[i + 1]);
        }
        assert forall|a: int, b: int, c: int, d: int|
            0 <= a < c < rest.len() && 0 <= b < rest[a].len() && 0 <= d < rest[c].len() implies (
        #[trigger] rest[a][b])@ != (#[trigger] rest[c][d])@ by {
            assert(rest[a][b] == slots[a + 1][b]);
            assert(rest[c][d] == slots[c + 1][d]);
        }
        lemma_flatten_distinct(rest);
        assert(keys(slots[0]).no_duplicates());
        assert(keys(first + tail) =~= keys(first) + keys(tail));
        assert forall|i: int, j: int|
            0 <= i < keys(first).len() && 0 <= j < keys(tail).len() implies keys(first)[i] != keys(
            tail,
        )[j] by {
            assert(tail.contains(tail[j]));
            lemma_flatten_contains(rest, tail[j]);
            let c = choose|c: int| 0 <= c < rest.len() && #[trigger] rest[c].contains(tail[j]);
            let d = choose|d: int| 0 <= d < rest[c].len() && rest[c][d] == tail[j];
            assert(slots[c + 1][d] == tail[j]);
            assert(slots[0][i]@ != slots[c + 1][d]@);
        }
        lemma_no_dup_in_concat(keys(first), keys(tail));
    }
}

/// In a well-placed table no two elements have the same view, so the table holds as
/// many elements as its set has members.
pub proof fn lemma_distinct<T: Element>(slots: Seq<Seq<T>>)
    requires
        well_placed(slots),
    ensures
        keys(slots.flatten()).no_duplicates(),
        members(slots).finite(),
        members(slots).len() == count(slots),
{
    lemma_flatten_distinct(slots);
    keys(slots.flatten()).unique_seq_to_set();
}

/// Dealing out one element more appends it to its home slot.
pub proof fn lemma_spread_push<T: Element>(elements: Seq<T>, e: T, capacity: nat)
    requires
        capacity > 0,
    ensures
        spread(elements.push(e), capacity) == appended(spread(elements, capacity), e),
{
    let before = spread(elements, capacity);
    let after = spread(elements.push(e), capacity);
    let h = home::<T>(e@, capacity);
    assert forall|n: int| 0 <= n < capacity implies after[n] == #[trigger] appended(before, e)[n] by {
        elements.lemma_filter_push(e, in_slot::<T>(n, capacity));
    }
    assert(after =~= appended(before, e));
}

/// Elements with distinct views, dealt out to slots, make a well-placed table of
/// those elements.
pub proof fn lemma_spread<T: Element>(elements: Seq<T>, capacity: nat)
    requires
        keys(elements).no_duplicates(),
        capacity > 0,
    ensures
        well_placed(spread(elements, capacity)),
        members(spread(elements, capacity)) == keys(elements).to_set(),
        count(spread(elements, capacity)) == elements.len(),
    decreases elements.len(),
{
    if elements.len() == 0 {
        assert forall|n: int| 0 <= n < capacity implies #[trigger] spread(elements, capacity)[n]
            == Seq::<T>::empty() by {
            reveal(Seq::filter);
            assert(elements.filter(in_slot::<T>(n, capacity)) =~= Seq::<T>::empty());
        }
        assert(spread(elements, capacity) =~= empty_slots::<T>(capacity));
        lemma_empty_slots::<T>(capacity);
        assert(keys(elements).to_set() =~= Set::<T::V>::empty());
    } else {
        let shorter = elements.drop_last();
        let e = elements.last();
        assert(elements =~= shorter.push(e));
        assert(keys(shorter) =~= keys(elements).drop_last());
        assert(keys(shorter).no_duplicates());
        lemma_spread(shorter, capacity);
        lemma_spread_push(shorter, e, capacity);
        assert(!keys(shorter).contains(e@)) by {
            if keys(shorter).contains(e@) {
                let k = choose|k: int| 0 <= k < keys(shorter).len() && keys(shorter)[k] == e@;
                assert(keys(elements)[k] == keys(elements)[elements.len() - 1]);
            }
        }
        lemma_appended(spread(shorter, capacity), e);
        assert(keys(elements) =~= keys(shorter).push(e@));
        keys(shorter).lemma_push_to_set_commute(e@);
    }
}

/// Rebuilding a well-placed table with another number of slots keeps it well placed and
/// keeps its elements.
pub proof fn lemma_rehashed<T: Element>(slots: Seq<Seq<T>>, capacity: nat)
    requires
        well_placed(slots),
        capacity > 0,
    ensures
        well_placed(rehashed(slots, capacity)),
        members(rehashed(slots, capacity)) == members(slots),
        count(rehashed(slots, capacity)) == count(slots),
{
    lemma_distinct(slots);
    lemma_spread(slots.flatten(), capacity);
}

/// A traversal that starts at the first slot meets all elements.
pub proof fn lemma_rest_of_start<T>(slots: Seq<Seq<T>>)
    ensures
        rest_of(slots, 0, 0) == slots.flatten(),
{
    if slots.len() > 0 {
        assert(slots[0].skip(0) =~= slots.first());
        assert(slots.skip(1) =~= slots.drop_first());
    } else {
        assert(slots.flatten() =~= Seq::<T>::empty());
    }
}

/// At the end of a slot the traversal goes on at the start of the next one.
pub proof fn lemma_rest_of_next_slot<T>(slots: Seq<Seq<T>>, slot: int)
    requires
        0 <= slot < slots.len(),
    ensures
        rest_of(slots, slot, slots[slot].len() as int) == rest_of(slots, slot + 1, 0),
{
    let behind = slots.skip(slot + 1);
    assert(slots[slot].skip(slots[slot].len() as int) =~= Seq::<T>::empty());
    if slot + 1 < slots.len() {
        assert(behind.first() == slots[slot + 1]);
        assert(behind.drop_first() =~= slots.skip(slot + 2));
        assert(slots[slot + 1].skip(0) =~= slots[slot + 1]);
        assert(rest_of(slots, slot, slots[slot].len() as int) =~= rest_of(slots, slot + 1, 0));
    } else {
        assert(behind.flatten() =~= Seq::<T>::empty());
        assert(rest_of(slots, slot, slots[slot].len() as int) =~= rest_of(slots, slot + 1, 0));
    }
}

/// Inside a slot the traversal meets the element at its place and goes on behind it.
pub proof fn lemma_rest_of_step<T>(slots: Seq<Seq<T>>, slot: int, pos: int)
    requires
        0 <= slot < slots.len(),
        0 <= pos < slots[slot].len(),
    ensures
        rest_of(slots, slot, pos).len() > 0,
        rest_of(slots, slot, pos)[0] == slots[slot][pos],
        rest_of(slots, slot, pos + 1) == rest_of(slots, slot, pos).drop_first(),
{
    assert(rest_of(slots, slot, pos + 1) =~= rest_of(slots, slot, pos).drop_first());
}

/// Slots with the same views at the same places are well placed together, stand for
/// the same set and hold the same number of elements.
pub proof fn lemma_same_keys<T: Element>(a: Seq<Seq<T>>, b: Seq<Seq<T>>)
    requires
        a.len() == b.len(),
        forall|i: int| 0 <= i < a.len() ==> #[trigger] keys(a[i]) == keys(b[i]),
    ensures
        well_placed(a) ==> well_placed(b),
        members(a) == members(b),
        count(a) == count(b),
{
    lemma_same_count(a, b);
    assert forall|v: T::V| members(a).contains(v) <==> members(b).contains(v) by {
        lemma_keys_of_flatten(a, v);
        lemma_keys_of_flatten(b, v);
        if members(a).contains(v) {
            let i = choose|i: int| 0 <= i < a.len() && #[trigger] keys(a[i]).contains(v);
            assert(keys(b[i]).contains(v));
        }
        if members(b).contains(v) {
            let i = choose|i: int| 0 <= i < b.len() && #[trigger] keys(b[i]).contains(v);
            assert(keys(a[i]) == keys(b[i]));
            assert(keys(a[i]).contains(v));
        }
    }
    assert(members(a) =~= members(b));
    if well_placed(a) {
        assert forall|i: int, j: int| 0 <= i < b.len() && 0 <= j < b[i].len() implies home::<T>(
            #[trigger] b[i][j]@,
            b.len(),
        ) == i by {
            assert(keys(a[i]) == keys(b[i]));
            assert(keys(a[i])[j] == keys(b[i])[j]);
            assert(a[i][j]@ == b[i][j]@);
        }
        assert forall|i: int| 0 <= i < b.len() implies #[trigger] keys(b[i]).no_duplicates() by {
            assert(keys(a[i]) == keys(b[i]));
        }
    }
}

/// Slots of the same lengths hold the same number of elements.
proof fn lemma_same_count<T: View>(a: Seq<Seq<T>>, b: Seq<Seq<T>>)
    requires
        a.len() == b.len(),
        forall|i: int| 0 <= i < a.len() ==> #[trigger] keys(a[i]) == keys(b[i]),
    ensures
        count(a) == count(b),
    decreases a.len(),
{
    if a.len() > 0 {
        assert forall|i: int| 0 <= i < a.drop_first().len() implies #[trigger] keys(
            a.drop_first()[i],
        ) == keys(b.drop_first()[i]) by {
            assert(keys(a[i + 1]) == keys(b[i + 1]));
        }
        lemma_same_count(a.drop_first(), b.drop_first());
        assert(keys(a[0]) == keys(b[0]));
        assert(keys(a[0]).len() == a[0].len());
        assert(keys(b[0]).len() == b[0].len());
    }
}

/// A well-formed table is well formed after an insertion, holds the new element
/// beside the old ones, and has doubled its slots exactly if it had to grow.
pub proof fn lemma_with_element<T: Element>(slots: Seq<Seq<T>>, value: T)
    requires
        well_formed(slots),
    ensures
        well_formed(with_element(slots, value)),
        members(with_element(slots, value)) == members(slots).insert(value@),
        count(with_element(slots, value)) == count(slots) + if members(slots).contains(value@) {
            0nat
        } else {
            1nat
        },
        with_element(slots, value).len() == if !members(slots).contains(value@) && load_exceeded(
            count(slots),
            slots.len(),
        ) {
            2 * slots.len()
        } else {
            slots.len()
        },
{
    lemma_capacity(slots.len());
    if members(slots).contains(value@) {
        assert(members(slots).insert(value@) =~= members(slots));
    } else if load_exceeded(count(slots), slots.len()) {
        lemma_rehashed(slots, 2 * slots.len());
        lemma_appended(rehashed(slots, 2 * slots.len()), value);
    } else {
        lemma_appended(slots, value);
    }
}

/// An insertion leaves a table no larger than insertions alone make it.
pub proof fn lemma_grown_by_need<T: Element>(slots: Seq<Seq<T>>, value: T)
    requires
        well_formed(slots),
        grown_by_need(slots),
    ensures
        grown_by_need(with_element(slots, value)),
{
    lemma_with_element(slots, value);
}

} // verus!
