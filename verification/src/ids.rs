//! The ordered set of identities that a signal keeps, held in an
//! `indexmap::IndexSet`, and what this crate takes as given of it.

use indexmap::IndexSet;
use vstd::prelude::*;

verus! {

#[verifier::external_type_specification]
#[verifier::external_body]
#[verifier::reject_recursive_types(T)]
#[verifier::reject_recursive_types(S)]
pub struct ExIndexSet<T, S>(IndexSet<T, S>);

/// The items of an `IndexSet<usize>`, in the set's order (the order of
/// insertion, with removed items taken out).
pub uninterp spec fn items(set: IndexSet<usize>) -> Seq<usize>;

/// `IndexSet::new`: a set with no items.
#[verifier::external_body]
pub(crate) fn empty_set() -> (set: IndexSet<usize>)
    ensures
        items(set) == Seq::<usize>::empty(),
{
    IndexSet::new()
}

/// `IndexSet::len`: the number of items.
#[verifier::external_body]
pub(crate) fn set_len(set: &IndexSet<usize>) -> (n: usize)
    ensures
        n == items(*set).len(),
{
    set.len()
}

/// `IndexSet::is_empty`: whether there is no item.
#[verifier::external_body]
pub(crate) fn set_is_empty(set: &IndexSet<usize>) -> (empty: bool)
    ensures
        empty == (items(*set).len() == 0),
{
    set.is_empty()
}

/// `IndexSet::contains`: whether an item equal to `id` is in the set.
#[verifier::external_body]
pub(crate) fn set_contains(set: &IndexSet<usize>, id: usize) -> (found: bool)
    ensures
        found == items(*set).contains(id),
{
    set.contains(&id)
}

/// `IndexSet::insert`: when no item equals `id`, appends it at the end and
/// returns `true`; otherwise returns `false` and leaves the set, and its
/// order, as it was.
#[verifier::external_body]
pub(crate) fn set_insert(set: &mut IndexSet<usize>, id: usize) -> (added: bool)
    ensures
        added == !items(*old(set)).contains(id),
        added ==> items(*final(set)) == items(*old(set)).push(id),
        !added ==> items(*final(set)) == items(*old(set)),
{
    set.insert(id)
}

/// `IndexSet::shift_remove_full`, keeping the index: when an item equals
/// `id`, removes it, shifts the items after it down by one (keeping their
/// order) and returns its former index; otherwise returns `None` and leaves
/// the set as it was.
#[verifier::external_body]
pub(crate) fn set_shift_remove(set: &mut IndexSet<usize>, id: usize) -> (index: Option<usize>)
    ensures
        match index {
            Some(i) => {
                &&& i < items(*old(set)).len()
                &&& items(*old(set))[i as int] == id
                &&& items(*final(set)) == items(*old(set)).remove(i as int)
            },
            None => {
                &&& !items(*old(set)).contains(id)
                &&& items(*final(set)) == items(*old(set))
            },
        },
{
    set.shift_remove_full(&id).map(|(i, _)| i)
}

} // verus!
