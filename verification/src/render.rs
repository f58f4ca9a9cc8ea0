//! The textual form of a table, for diagnostics.

use crate::element::Element;
use crate::hashset::HashSet;
use crate::iter::borrowed;
use core::fmt::Debug;
use core::fmt::Formatter;
use vstd::prelude::*;

verus! {

/// `core::fmt::Formatter`, the sink that `Debug::fmt` writes to. It is only handed on:
/// nothing is known of what it holds.
#[verifier::external_type_specification]
#[verifier::external_body]
pub struct ExFormatter<'a>(Formatter<'a>);

/// `core::fmt::Error`, the error of a failed write. It is only handed on.
#[verifier::external_type_specification]
#[verifier::external_body]
pub struct ExFmtError(core::fmt::Error);

/// Writes `items` to `f` in the form of a set, by `Formatter::debug_set`, its `entries`
/// and `finish`. Nothing is claimed of what is written: it is made by the elements'
/// own `Debug`.
#[verifier::external_body]
fn write_set<T: Debug>(items: &Vec<&T>, f: &mut Formatter<'_>) -> (done: core::fmt::Result) {
    f.debug_set().entries(items.iter()).finish()
}

/// References to all elements of `set`, in traversal order.
fn elements<T: Element>(set: &HashSet<T>) -> (items: Vec<&T>)
    ensures
        items@ == borrowed::<T>(set.order()),
{
    let mut items: Vec<&T> = Vec::new();
    let ghost all = borrowed::<T>(set.order());
    for item in it: set.iter()
        invariant
            it.seq() == all,
            items@ == all.take(it.index()),
    {
        proof {
            assert(all.take(it.index() + 1) =~= all.take(it.index()).push(item));
        }
        items.push(item);
    }
    proof {
        assert(all.take(all.len() as int) =~= all);
    }
    items
}

impl<T: Element + Debug> Debug for HashSet<T> {
    /// Writes the elements as a set, in traversal order.
    fn fmt(&self, f: &mut Formatter<'_>) -> (done: core::fmt::Result) {
        let items = elements(self);
        write_set(&items, f)
    }
}

} // verus!
