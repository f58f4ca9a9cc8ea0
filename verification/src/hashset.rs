//! The table itself.

use crate::element::Element;
use crate::element::ExactClone;
use crate::element::Probe;
use crate::iter::Iter;
use crate::lemmas::lemma_appended;
use crate::lemmas::lemma_capacity;
use crate::lemmas::lemma_distinct;
use crate::lemmas::lemma_empty_slots;
use crate::lemmas::lemma_member;
use crate::lemmas::lemma_rehashed;
use crate::lemmas::lemma_same_keys;
use crate::lemmas::lemma_grown_by_need;
use crate::lemmas::lemma_spread_push;
use crate::lemmas::lemma_without;
use crate::model::appended;
use crate::model::built;
use crate::model::contents;
use crate::model::count;
use crate::model::empty_slots;
use crate::model::grown_by_need;
use crate::model::home;
use crate::model::keys;
use crate::model::load_exceeded;
use crate::model::members;
use crate::model::rehashed;
use crate::model::spread;
use crate::model::well_formed;
use crate::model::with_element;
use crate::model::without;
use crate::model::INITIAL_CAPACITY;
use vstd::arithmetic::power2::is_pow2;
use vstd::prelude::*;

verus! {

/// A set of elements, kept in slots that their hashes select.
pub struct HashSet<T> {
    buckets: Vec<Vec<T>>,
    size: usize,
}

/// Makes `size` empty slots.
fn create_buckets<T>(size: usize) -> (buckets: Vec<Vec<T>>)
    ensures
        buckets@.len() == size,
        forall|i: int| 0 <= i < size ==> (#[trigger] buckets@[i])@.len() == 0,
{
    let mut buckets: Vec<Vec<T>> = Vec::new();
    let mut made: usize = 0;
    while made < size
        invariant
            made <= size,
            buckets@.len() == made,
            forall|i: int| 0 <= i < made ==> (#[trigger] buckets@[i])@.len() == 0,
        decreases size - made,
    {
        buckets.push(Vec::new());
        made = made + 1;
    }
    buckets
}

/// The place of the element of `bucket` that equals `value`, if there is one.
fn find<T: Element, Q: Probe<T> + ?Sized>(bucket: &Vec<T>, value: &Q) -> (place: Option<usize>)
    ensures
        match place {
            Some(j) => j < bucket@.len() && bucket@[j as int]@ == value@,
            None => !keys(bucket@).contains(value@),
        },
{
    let mut j: usize = 0;
    while j < bucket.len()
        invariant
            j <= bucket@.len(),
            forall|k: int| 0 <= k < j ==> (#[trigger] bucket@[k])@ != value@,
        decreases bucket@.len() - j,
    {
        if value.matches(&bucket[j]) {
            return Some(j);
        }
        j = j + 1;
    }
    None
}

impl<T: Element> View for HashSet<T> {
    type V = Set<T::V>;

    /// The set of the views of the elements that the table holds.
    open spec fn view(&self) -> Set<T::V> {
        members(self.slots())
    }
}

impl<T: Element> HashSet<T> {
    /// The slots of the table, each with its elements in the order in which they came.
    pub closed spec fn slots(&self) -> Seq<Seq<T>> {
        contents(self.buckets@)
    }

    /// The number of elements that the table counts.
    pub closed spec fn spec_len(&self) -> nat {
        self.size as nat
    }

    /// The number of slots.
    pub open spec fn spec_capacity(&self) -> nat {
        self.slots().len()
    }

    /// All elements in traversal order: slot by slot, and within a slot in the order
    /// in which they came.
    pub open spec fn order(&self) -> Seq<T> {
        self.slots().flatten()
    }

    /// What holds of every table between two operations: the slots are well formed, and
    /// the table counts the elements that they hold.
    pub open spec fn wf(&self) -> bool {
        &&& well_formed(self.slots())
        &&& self.spec_len() == count(self.slots())
    }

    /// Whether the table doubles its slots when `value` is inserted: the value is new,
    /// and with it the table would be more than three quarters full.
    pub open spec fn grows_for(&self, value: T) -> bool {
        !self@.contains(value@) && load_exceeded(self.spec_len(), self.spec_capacity())
    }

    /// An empty table of 16 slots.
    pub fn new() -> (set: Self)
        ensures
            set.wf(),
            set.slots() == empty_slots::<T>(INITIAL_CAPACITY as nat),
            set@ == Set::<T::V>::empty(),
            set.spec_len() == 0,
            set.spec_capacity() == INITIAL_CAPACITY,
    {
        let set = Self { buckets: create_buckets::<T>(INITIAL_CAPACITY), size: 0 };
        proof {
            assert(set.slots() =~~= empty_slots::<T>(INITIAL_CAPACITY as nat));
            lemma_empty_slots::<T>(INITIAL_CAPACITY as nat);
            reveal_with_fuel(is_pow2, 6);
        }
        set
    }

    /// The slot that `value` belongs in.
    fn hash<Q: Probe<T> + ?Sized>(&self, value: &Q) -> (index: usize)
        requires
            self.spec_capacity() > 0,
        ensures
            index == home::<T>(value@, self.spec_capacity()),
            index < self.spec_capacity(),
    {
        let digest = value.probe_digest();
        let capacity = self.buckets.len() as u64;
        (digest % capacity) as usize
    }

    /// Whether the set holds an element equal to `value`.
    pub fn contains<Q: Probe<T> + ?Sized>(&self, value: &Q) -> (found: bool)
        requires
            self.wf(),
        ensures
            found == self@.contains(value@),
    {
        let index = self.hash(value);
        proof {
            lemma_member(self.slots(), value@);
        }
        let place = find(&self.buckets[index], value);
        proof {
            if let Some(j) = place {
                assert(keys(self.slots()[index as int])[j as int] == value@);
            }
        }
        place.is_some()
    }

    /// Doubles the number of slots and deals the elements out to them, in traversal
    /// order.
    fn resize(&mut self)
        requires
            old(self).wf(),
            old(self).spec_capacity() * 2 <= usize::MAX,
        ensures
            final(self).slots() == rehashed(old(self).slots(), 2 * old(self).spec_capacity()),
            final(self).wf(),
            final(self)@ == old(self)@,
            final(self).spec_len() == old(self).spec_len(),
            final(self).spec_capacity() == 2 * old(self).spec_capacity(),
    {
        let ghost before = self.slots();
        let new_capacity = self.buckets.len() * 2;
        let mut new_buckets = create_buckets::<T>(new_capacity);
        let mut old_buckets: Vec<Vec<T>> = Vec::new();
        core::mem::swap(&mut self.buckets, &mut old_buckets);
        let ghost rows = old_buckets@;
        let ghost moved = Seq::<T>::empty();
        proof {
            assert(before =~= contents(rows));
            assert(before.take(0) =~= Seq::<Seq<T>>::empty());
            assert(before.take(0).flatten() =~= Seq::<T>::empty());
            assert forall|n: int| 0 <= n < new_capacity implies #[trigger] spread(
                moved,
                new_capacity as nat,
            )[n] == Seq::<T>::empty() by {
                reveal(Seq::filter);
            }
            assert(contents(new_buckets@) =~~= spread(moved, new_capacity as nat));
        }
        for bucket in outer: old_buckets
            invariant
                new_capacity > 0,
                new_buckets@.len() == new_capacity,
                outer.seq() == rows,
                before == contents(rows),
                contents(new_buckets@) == spread(moved, new_capacity as nat),
                moved == before.take(outer.index()).flatten(),
        {
            let ghost i = outer.index();
            let ghost row = bucket@;
            assert(row == before[i]);
            proof {
                assert(row.take(0) =~= Seq::<T>::empty());
                assert(moved + row.take(0) =~= moved);
            }
            for value in inner: bucket
                invariant
                    new_capacity > 0,
                    new_buckets@.len() == new_capacity,
                    inner.seq() == row,
                    contents(new_buckets@) == spread(moved, new_capacity as nat),
                    moved == before.take(i).flatten() + row.take(inner.index()),
            {
                let ghost j = inner.index();
                let ghost slots_before = contents(new_buckets@);
                let index = (value.digest() % (new_capacity as u64)) as usize;
                new_buckets[index].push(value);
                proof {
                    lemma_spread_push(moved, value, new_capacity as nat);
                    assert(contents(new_buckets@) =~= appended(slots_before, value));
                    assert(row.take(j + 1) =~= row.take(j).push(value));
                    assert(before.take(i).flatten() + row.take(j + 1) =~= moved.push(value));
                    moved = moved.push(value);
                }
            }
            proof {
                assert(row.take(row.len() as int) =~= row);
                assert(before.take(i + 1) =~= before.take(i).push(row));
                before.take(i).lemma_flatten_push(row);
            }
        }
        self.buckets = new_buckets;
        proof {
            assert(before.take(before.len() as int) =~= before);
            lemma_rehashed(before, new_capacity as nat);
            lemma_capacity(before.len());
        }
    }

    /// Adds `value` to the set, unless the set holds an element equal to it already.
    /// Says whether the value was added.
    pub fn insert(&mut self, value: T) -> (added: bool)
        requires
            old(self).wf(),
            old(self).grows_for(value) ==> old(self).spec_capacity() * 2 <= usize::MAX,
        ensures
            final(self).wf(),
            added == !old(self)@.contains(value@),
            final(self).slots() == with_element(old(self).slots(), value),
            final(self)@ == old(self)@.insert(value@),
            final(self).spec_len() == old(self).spec_len() + if added { 1nat } else { 0nat },
            final(self).spec_capacity() == if old(self).grows_for(value) {
                2 * old(self).spec_capacity()
            } else {
                old(self).spec_capacity()
            },
    {
        let index = self.hash(&value);
        proof {
            lemma_member(self.slots(), value@);
        }
        let place = find(&self.buckets[index], &value);
        if place.is_some() {
            proof {
                assert(keys(self.slots()[index as int])[place.unwrap() as int] == value@);
                assert(old(self)@.insert(value@) =~= old(self)@);
            }
            return false;
        }
        proof {
            lemma_capacity(self.spec_capacity());
        }
        if must_grow(self.size, self.buckets.len()) {
            self.resize();
        }
        let index = self.hash(&value);
        let ghost slots_before = self.slots();
        self.buckets[index].push(value);
        self.size = self.size + 1;
        proof {
            assert(self.slots() =~= appended(slots_before, value));
            lemma_appended(slots_before, value);
        }
        true
    }

    /// Takes the element equal to `value` out of the set, if there is one. Says whether
    /// there was one. The number of slots stays.
    pub fn remove<Q: Probe<T> + ?Sized>(&mut self, value: &Q) -> (removed: bool)
        requires
            old(self).wf(),
        ensures
            final(self).wf(),
            removed == old(self)@.contains(value@),
            final(self).slots() == without(old(self).slots(), value@),
            final(self)@ == old(self)@.remove(value@),
            final(self).spec_len() == old(self).spec_len() - if removed { 1nat } else { 0nat },
            final(self).spec_capacity() == old(self).spec_capacity(),
    {
        let index = self.hash(value);
        proof {
            lemma_member(self.slots(), value@);
        }
        let ghost slots_before = self.slots();
        match find(&self.buckets[index], value) {
            Some(pos) => {
                proof {
                    let slot_keys = keys(slots_before[index as int]);
                    assert(slot_keys[pos as int] == value@);
                    assert(slot_keys.no_duplicates());
                    assert(slot_keys.index_of(value@) == pos);
                    lemma_without(slots_before, value@);
                    lemma_distinct(slots_before);
                }
                self.buckets[index].remove(pos);
                self.size = self.size - 1;
                proof {
                    assert(self.slots() =~= without(slots_before, value@));
                }
                true
            },
            None => {
                proof {
                    assert(old(self)@.remove(value@) =~= old(self)@);
                }
                false
            },
        }
    }

    /// Takes every element out of the set. The number of slots stays.
    pub fn clear(&mut self)
        requires
            old(self).wf(),
        ensures
            final(self).wf(),
            final(self).slots() == empty_slots::<T>(old(self).spec_capacity()),
            final(self)@ == Set::<T::V>::empty(),
            final(self).spec_len() == 0,
            final(self).spec_capacity() == old(self).spec_capacity(),
    {
        let capacity = self.buckets.len();
        let mut i: usize = 0;
        while i < capacity
            invariant
                i <= capacity,
                self.buckets@.len() == capacity,
                forall|k: int| 0 <= k < i ==> (#[trigger] self.buckets@[k])@.len() == 0,
            decreases capacity - i,
        {
            self.buckets[i].clear();
            i = i + 1;
        }
        self.size = 0;
        proof {
            assert(self.slots() =~~= empty_slots::<T>(capacity as nat));
            lemma_empty_slots::<T>(capacity as nat);
        }
    }

    /// The number of elements: as many as the set has members.
    pub fn len(&self) -> (n: usize)
        ensures
            n == self.spec_len(),
            self.wf() ==> n == self@.len(),
    {
        proof {
            if self.wf() {
                lemma_distinct(self.slots());
            }
        }
        self.size
    }

    /// Whether the set holds no element.
    pub fn is_empty(&self) -> (empty: bool)
        ensures
            empty == (self.spec_len() == 0),
            self.wf() ==> empty == (self@ == Set::<T::V>::empty()),
    {
        proof {
            if self.wf() {
                lemma_distinct(self.slots());
                if self@.len() == 0 {
                    self@.lemma_len0_is_empty();
                    assert(self@ =~= Set::<T::V>::empty());
                }
            }
        }
        self.size == 0
    }

    /// The number of slots.
    pub fn capacity(&self) -> (n: usize)
        ensures
            n == self.spec_capacity(),
    {
        self.buckets.len()
    }

    /// A traversal of the set. It yields every element once: slot by slot, and within
    /// a slot in the order in which the elements came.
    pub fn iter(&self) -> (it: Iter<'_, T>)
        ensures
            it.rest() == self.order(),
            self.wf() ==> keys(self.order()).no_duplicates(),
            self.wf() ==> keys(self.order()).to_set() == self@,
            self.wf() ==> self.order().len() == self.spec_len(),
    {
        proof {
            if self.wf() {
                lemma_distinct(self.slots());
            }
        }
        Iter::start(&self.buckets)
    }

    /// The set of the elements of `items`: they are inserted one after the other, so
    /// that of elements that are equal the first one stays. A table that has taken `n`
    /// elements has fewer than three times `n` slots, or 16; the bound on the length
    /// keeps twice that number within `usize`.
    pub fn from_iter(items: Vec<T>) -> (set: Self)
        requires
            items@.len() <= usize::MAX / 6,
        ensures
            set.wf(),
            set.slots() == built(items@),
            set@ == keys(items@).to_set(),
            set.spec_len() == keys(items@).to_set().len(),
    {
        let mut set = Self::new();
        let ghost all = items@;
        proof {
            assert(all.take(0) =~= Seq::<T>::empty());
            assert(keys(all.take(0)) =~= Seq::<T::V>::empty());
            assert(keys(all.take(0)).to_set() =~= Set::<T::V>::empty());
        }
        for item in it: items
            invariant
                it.seq() == all,
                all.len() <= usize::MAX / 6,
                set.wf(),
                set.slots() == built(all.take(it.index())),
                set@ == keys(all.take(it.index())).to_set(),
                set.spec_len() <= it.index(),
                grown_by_need(set.slots()),
        {
            let ghost i = it.index();
            proof {
                lemma_grown_by_need(set.slots(), item);
                assert(all.take(i + 1).drop_last() =~= all.take(i));
                assert(all.take(i + 1).last() == item);
                assert(keys(all.take(i + 1)) =~= keys(all.take(i)).push(item@));
                keys(all.take(i)).lemma_push_to_set_commute(item@);
            }
            set.insert(item);
        }
        proof {
            assert(all.take(all.len() as int) =~= all);
            lemma_distinct(set.slots());
        }
        set
    }
}

impl<T: Element> Default for HashSet<T> {
    /// An empty table of 16 slots.
    fn default() -> (set: Self)
        ensures
            set.wf(),
            set.slots() == empty_slots::<T>(INITIAL_CAPACITY as nat),
            set@ == Set::<T::V>::empty(),
            set.spec_len() == 0,
            set.spec_capacity() == INITIAL_CAPACITY,
    {
        Self::new()
    }
}

impl<T: ExactClone> Clone for HashSet<T> {
    /// A table of its own with clones of the elements, each at the place of the
    /// element that it was cloned from.
    fn clone(&self) -> (copy: Self)
        ensures
            copy.spec_capacity() == self.spec_capacity(),
            copy.spec_len() == self.spec_len(),
            forall|i: int|
                0 <= i < self.spec_capacity() ==> #[trigger] keys(copy.slots()[i]) == keys(
                    self.slots()[i],
                ),
            forall|i: int, j: int|
                0 <= i < self.spec_capacity() && 0 <= j < self.slots()[i].len() ==> cloned(
                    self.slots()[i][j],
                    #[trigger] copy.slots()[i][j],
                ),
            copy@ == self@,
            self.wf() ==> copy.wf(),
    {
        let mut buckets: Vec<Vec<T>> = Vec::new();
        let mut i: usize = 0;
        while i < self.buckets.len()
            invariant
                i <= self.buckets@.len(),
                buckets@.len() == i,
                forall|k: int|
                    0 <= k < i ==> #[trigger] keys(buckets@[k]@) == keys(self.buckets@[k]@),
                forall|k: int, l: int|
                    0 <= k < i && 0 <= l < self.buckets@[k]@.len() ==> cloned(
                        self.buckets@[k]@[l],
                        #[trigger] buckets@[k]@[l],
                    ),
            decreases self.buckets@.len() - i,
        {
            let source = &self.buckets[i];
            let mut bucket: Vec<T> = Vec::new();
            let mut j: usize = 0;
            while j < source.len()
                invariant
                    j <= source@.len(),
                    bucket@.len() == j,
                    forall|k: int| 0 <= k < j ==> (#[trigger] bucket@[k])@ == source@[k]@,
                    forall|k: int| 0 <= k < j ==> cloned(source@[k], #[trigger] bucket@[k]),
                decreases source@.len() - j,
            {
                let copy = source[j].clone();
                proof {
                    T::clone_keeps_view(source@[j as int], copy);
                }
                bucket.push(copy);
                j = j + 1;
            }
            proof {
                assert(keys(bucket@) =~= keys(source@));
            }
            buckets.push(bucket);
            i = i + 1;
        }
        let copy = HashSet { buckets, size: self.size };
        proof {
            lemma_same_keys(self.slots(), copy.slots());
        }
        copy
    }
}

/// Whether a table of `size` elements in `capacity` slots is to grow before the next
/// element comes in.
fn must_grow(size: usize, capacity: usize) -> (grow: bool)
    requires
        capacity % 4 == 0,
    ensures
        grow == load_exceeded(size as nat, capacity as nat),
{
    size >= capacity / 4 * 3
}

} // verus!
