//! The signal: callables connected at most once each, in connection order.

use indexmap::IndexSet;
use vstd::prelude::*;

use crate::callable::Callable;
use crate::ids::{empty_set, items, set_contains, set_insert, set_is_empty, set_len, set_shift_remove};
use crate::laws::{
    after_connect, after_disconnect, lemma_disconnect_absent, lemma_filter_keeps_all,
    lemma_remove_is_disconnect, lemma_remove_is_filter,
};

verus! {

/// The error of connecting a callable that is already connected.
#[derive(Debug, Clone, Copy, PartialEq, Eq, Structural)]
pub struct AlreadyConnected;

impl AlreadyConnected {
    /// The text that describes this error.
    pub fn message(&self) -> (text: String)
        ensures
            text@ == "callable already connected"@,
    {
        "callable already connected".to_owned()
    }
}

/// A set of callables, each connected at most once, kept in the order in
/// which they were connected.
///
/// The identities are held in an `IndexSet`, and the callables themselves,
/// in the same order, in a `Vec`.
#[verifier::reject_recursive_types(T)]
pub struct Signal<T> {
    ids: IndexSet<usize>,
    callables: Vec<Callable<T>>,
}

/// Holds of every callable whose identity is not `id`.
pub open spec fn other_callable_than<T>(id: usize) -> spec_fn(Callable<T>) -> bool {
    |c: Callable<T>| c@ != id
}

impl<T> View for Signal<T> {
    type V = Seq<usize>;

    /// The identities of the connected callables, in connection order.
    closed spec fn view(&self) -> Seq<usize> {
        items(self.ids)
    }
}

impl<T> Signal<T> {
    /// No identity occurs twice, and `callables` holds, in the same order,
    /// the callables whose identities are in `ids`.
    #[verifier::type_invariant]
    closed spec fn well_formed(self) -> bool {
        &&& items(self.ids).no_duplicates()
        &&& self.callables@.len() == items(self.ids).len()
        &&& forall|i: int|
            0 <= i < self.callables@.len() ==> #[trigger] self.callables@[i]@ == items(self.ids)[i]
    }

    /// The connected callables themselves, in connection order: the ones
    /// that were passed to `connect`.
    pub closed spec fn connected(&self) -> Seq<Callable<T>> {
        self.callables@
    }

    /// A signal with nothing connected.
    pub fn new() -> (signal: Self)
        ensures
            signal@ == Seq::<usize>::empty(),
            signal.connected() == Seq::<Callable<T>>::empty(),
    {
        Signal { ids: empty_set(), callables: Vec::new() }
    }

    /// Connects `callable` after all the callables already connected, unless
    /// it (or a clone of it) is connected already: then the signal is left
    /// as it was and the result is `Err(AlreadyConnected)`.
    pub fn connect(&mut self, callable: Callable<T>) -> (result: Result<(), AlreadyConnected>)
        ensures
            result == (if old(self)@.contains(callable@) {
                Err(AlreadyConnected)
            } else {
                Ok(())
            }),
            final(self)@ == after_connect(old(self)@, callable@),
            final(self).connected() == (if old(self)@.contains(callable@) {
                old(self).connected()
            } else {
                old(self).connected().push(callable)
            }),
            final(self)@.no_duplicates(),
    {
        proof {
            use_type_invariant(&*self);
        }
        if self.is_connected(&callable) {
            return Err(AlreadyConnected);
        }
        // The invariant ties the two fields together and cannot be broken in
        // place: move them out, update both, and put them back.
        let mut taken = Signal::new();
        std::mem::swap(self, &mut taken);
        proof {
            use_type_invariant(&taken);
        }
        let Signal { mut ids, mut callables } = taken;
        let id = callable.identity();
        let added = set_insert(&mut ids, id);
        callables.push(callable);
        proof {
            assert forall|i: int, j: int|
                0 <= i < items(ids).len() && 0 <= j < items(ids).len() && i != j
                implies items(ids)[i] != items(ids)[j] by {
                if i == items(ids).len() - 1 || j == items(ids).len() - 1 {
                    assert(old(self)@.len() == items(ids).len() - 1);
                }
            }
        }
        *self = Signal { ids, callables };
        Ok(())
    }

    /// The number of connected callables.
    pub fn len(&self) -> (n: usize)
        ensures
            n == self@.len(),
    {
        set_len(&self.ids)
    }

    /// Whether nothing is connected.
    pub fn is_empty(&self) -> (empty: bool)
        ensures
            empty == (self@.len() == 0),
    {
        set_is_empty(&self.ids)
    }

    /// Whether `callable` (or a clone of it) is connected.
    pub fn is_connected(&self, callable: &Callable<T>) -> (connected: bool)
        ensures
            connected == self@.contains(callable@),
    {
        set_contains(&self.ids, callable.identity())
    }

    /// The connected callables, in the order in which they were connected:
    /// the order in which they are to be called.
    pub fn callables(&self) -> (list: &[Callable<T>])
        ensures
            list@ == self.connected(),
            list@.len() == self@.len(),
            forall|i: int| 0 <= i < list@.len() ==> #[trigger] list@[i]@ == self@[i],
            self@.no_duplicates(),
    {
        proof {
            use_type_invariant(self);
        }
        self.callables.as_slice()
    }

    /// Disconnects `callable` (or any clone of it), keeping the others in
    /// their order. The result says whether it was connected.
    pub fn disconnect(&mut self, callable: &Callable<T>) -> (was_connected: bool)
        ensures
            was_connected == old(self)@.contains(callable@),
            final(self)@ == after_disconnect(old(self)@, callable@),
            final(self).connected() == old(self).connected().filter(other_callable_than(callable@)),
            final(self)@.no_duplicates(),
    {
        let mut taken = Signal::new();
        std::mem::swap(self, &mut taken);
        proof {
            use_type_invariant(&taken);
        }
        let ghost before = taken@;
        let Signal { mut ids, mut callables } = taken;
        match set_shift_remove(&mut ids, callable.identity()) {
            Some(index) => {
                let ghost kept = callables@;
                callables.remove(index);
                proof {
                    lemma_remove_is_disconnect(before, index as int);
                    assert forall|j: int| 0 <= j < kept.len() && j != index implies
                        other_callable_than::<T>(callable@)(#[trigger] kept[j]) by {
                        assert(kept[j]@ == before[j]);
                    }
                    lemma_remove_is_filter(kept, index as int, other_callable_than::<T>(callable@));
                    assert forall|i: int|
                        0 <= i < callables@.len() implies #[trigger] callables@[i]@ == items(ids)[i] by {
                        if i >= index {
                            assert(kept[i + 1]@ == before[i + 1]);
                        } else {
                            assert(kept[i]@ == before[i]);
                        }
                    }
                    assert forall|i: int, j: int|
                        0 <= i < items(ids).len() && 0 <= j < items(ids).len() && i != j
                        implies items(ids)[i] != items(ids)[j] by {
                        let oi = if i < index { i } else { i + 1 };
                        let oj = if j < index { j } else { j + 1 };
                        assert(items(ids)[i] == before[oi]);
                        assert(items(ids)[j] == before[oj]);
                    }
                }
                *self = Signal { ids, callables };
                true
            },
            None => {
                proof {
                    lemma_disconnect_absent(before, callable@);
                    assert forall|j: int| 0 <= j < callables@.len() implies
                        other_callable_than::<T>(callable@)(#[trigger] callables@[j]) by {
                        if callables@[j]@ == callable@ {
                            assert(before[j] == callable@);
                        }
                    }
                    lemma_filter_keeps_all(callables@, other_callable_than::<T>(callable@));
                }
                *self = Signal { ids, callables };
                false
            },
        }
    }
}

impl<T> Default for Signal<T> {
    /// The same as [`Signal::new`]: nothing connected.
    fn default() -> (signal: Self)
        ensures
            signal@ == Seq::<usize>::empty(),
            signal.connected() == Seq::<Callable<T>>::empty(),
    {
        Self::new()
    }
}

} // verus!
