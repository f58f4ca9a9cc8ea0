//! The traversal of a table, slot by slot.

use crate::lemmas::lemma_rest_of_next_slot;
use crate::lemmas::lemma_rest_of_start;
use crate::lemmas::lemma_rest_of_step;
use crate::model::contents;
use crate::model::rest_of;
use vstd::prelude::*;
use vstd::std_specs::iter::IteratorSpecImpl;

verus! {

/// A cursor into the slots of a table that it borrows: the slot it stands in, and the
/// place inside that slot.
pub struct Iter<'a, T> {
    pub(crate) buckets: &'a Vec<Vec<T>>,
    pub(crate) slot: usize,
    pub(crate) pos: usize,
}

/// The elements of `s`, each behind a reference.
pub open spec fn borrowed<'a, T>(s: Seq<T>) -> Seq<&'a T> {
    s.map_values(|e: T| &e)
}

impl<'a, T> Iter<'a, T> {
    #[verifier::type_invariant]
    closed spec fn inv(self) -> bool {
        &&& self.slot <= self.buckets@.len()
        &&& self.slot < self.buckets@.len() ==> self.pos <= self.buckets@[self.slot as int]@.len()
    }

    /// The elements that the cursor has still to yield, in the order in which it will.
    pub closed spec fn rest(&self) -> Seq<T> {
        rest_of(contents(self.buckets@), self.slot as int, self.pos as int)
    }

    /// A cursor at the start of the first slot.
    pub(crate) fn start(buckets: &'a Vec<Vec<T>>) -> (it: Self)
        ensures
            it.rest() == contents(buckets@).flatten(),
    {
        proof {
            lemma_rest_of_start(contents(buckets@));
        }
        Iter { buckets, slot: 0, pos: 0 }
    }
}

impl<'a, T> Iterator for Iter<'a, T> {
    type Item = &'a T;

    /// Yields the next element of the traversal, or `None` once all slots are done.
    fn next(&mut self) -> (ret: Option<&'a T>) {
        proof {
            use_type_invariant(&*self);
        }
        let buckets = self.buckets;
        let mut slot = self.slot;
        let mut pos = self.pos;
        let ghost slots = contents(buckets@);
        while slot < buckets.len() && pos >= buckets[slot].len()
            invariant
                slots == contents(buckets@),
                slot <= buckets@.len(),
                slot < buckets@.len() ==> pos <= buckets@[slot as int]@.len(),
                rest_of(slots, slot as int, pos as int) == old(self).rest(),
            decreases buckets@.len() - slot,
        {
            proof {
                lemma_rest_of_next_slot(slots, slot as int);
            }
            slot = slot + 1;
            pos = 0;
        }
        if slot < buckets.len() {
            proof {
                lemma_rest_of_step(slots, slot as int, pos as int);
            }
            let item = &buckets[slot][pos];
            *self = Iter { buckets, slot, pos: pos + 1 };
            proof {
                assert(borrowed::<T>(self.rest()) =~= borrowed::<T>(old(self).rest()).drop_first());
            }
            Some(item)
        } else {
            *self = Iter { buckets, slot, pos };
            None
        }
    }
}

impl<'a, T> IteratorSpecImpl for Iter<'a, T> {
    open spec fn obeys_prophetic_iter_laws(&self) -> bool {
        true
    }

    open spec fn remaining(&self) -> Seq<&'a T> {
        borrowed(self.rest())
    }

    open spec fn will_return_none(&self) -> bool {
        true
    }

    open spec fn decrease(&self) -> Option<nat> {
        Some(self.rest().len())
    }

    open spec fn initial_value_relation(&self, init: &Self) -> bool {
        self.rest() == init.rest()
    }

    open spec fn peek(&self, index: int) -> Option<&'a T> {
        if 0 <= index < self.rest().len() {
            Some(&self.rest()[index])
        } else {
            None
        }
    }
}

} // verus!
