use std::sync::Arc;
use std::sync::Mutex;
use vstd::prelude::*;

verus! {

/// The shared, lockable callback behind a [`Callable`]: any closure that
/// takes a `&T`, behind one allocation that all clones of the callable
/// share. No contract describes what is inside it.
#[verifier::external_body]
#[verifier::reject_recursive_types(T)]
pub struct Consumer<T> {
    pub shared: Arc<Mutex<dyn FnMut(&T) + Send>>,
}

/// Wraps `f` in a fresh allocation, `Arc::new(Mutex::new(f))`, and returns
/// it with its address (`Arc::as_ptr`, as an integer).
///
/// Claimed: the address is not 0 (an `Arc` never points at null), and it
/// differs from the identity of every callable in `live`. Each of those is
/// the address of an allocation that its callable keeps alive while it is
/// borrowed here (the identity is taken from this very address and is
/// copied only together with the handle, by `clone`), and a fresh
/// allocation never shares an address with a live one. For the same
/// reason the new handle is not the handle of any callable in `live`: it
/// points at another allocation. Which address it is depends on the
/// allocator, and is not stated.
#[verifier::external_body]
fn share_apart<T, F>(f: F, live: &[Callable<T>]) -> (shared: (Consumer<T>, usize))
    where F: FnMut(&T) + 'static + Send,
    ensures
        shared.1 != 0,
        forall|i: int| 0 <= i < live@.len() ==> #[trigger] live@[i]@ != shared.1,
        forall|i: int| 0 <= i < live@.len() ==> #[trigger] live@[i].callback() != shared.0,
{
    let consumer = Consumer { shared: Arc::new(Mutex::new(f)) };
    let address = Arc::as_ptr(&consumer.shared).addr();
    (consumer, address)
}

/// `Arc::clone`: a second handle on the same allocation. The handle is a
/// copy of the same pointer, so the result is the same value as `consumer`.
#[verifier::external_body]
fn share_again<T>(consumer: &Consumer<T>) -> (again: Consumer<T>)
    ensures
        again == *consumer,
{
    Consumer { shared: Arc::clone(&consumer.shared) }
}

/// A callback that can be connected to a [`crate::Signal`].
///
/// Two callables are the same connection exactly when one is a clone of
/// the other: they share one allocation, whose address is `identity`.
#[verifier::reject_recursive_types(T)]
pub struct Callable<T> {
    consumer: Consumer<T>,
    identity: usize,
}

impl<T> View for Callable<T> {
    type V = usize;

    /// The identity of the callable: the address of its shared allocation.
    closed spec fn view(&self) -> usize {
        self.identity
    }
}

impl<T> Callable<T> {
    /// Wraps `f` as a new callable, with an identity of its own: the
    /// address of a fresh allocation, never 0. Which address it is, the
    /// allocator chooses; [`Callable::new_apart`] states that it differs
    /// from those of given live callables.
    pub fn new<F>(f: F) -> (callable: Self)
        where F: FnMut(&T) + 'static + Send,
        ensures
            callable@ != 0,
    {
        let none: Vec<Callable<T>> = Vec::new();
        Self::new_apart(f, none.as_slice())
    }

    /// Wraps `f` as a new callable, as [`Callable::new`] does, and states
    /// that it is apart from every callable in `live`: its identity differs
    /// from theirs, so it is a new connection, and its callback is a new
    /// one, not the callback that any of them runs.
    pub fn new_apart<F>(f: F, live: &[Callable<T>]) -> (callable: Self)
        where F: FnMut(&T) + 'static + Send,
        ensures
            callable@ != 0,
            forall|i: int| 0 <= i < live@.len() ==> #[trigger] live@[i]@ != callable@,
            forall|i: int| 0 <= i < live@.len() ==> #[trigger] live@[i].callback() != callable.callback(),
    {
        let (consumer, identity) = share_apart(f, live);
        Callable { consumer, identity }
    }

    /// The identity of this callable (see [`View`]).
    pub fn identity(&self) -> (id: usize)
        ensures
            id == self@,
    {
        self.identity
    }

    /// The shared callback that this callable runs.
    pub closed spec fn callback(&self) -> Consumer<T> {
        self.consumer
    }

    /// The shared callback, for the code that runs it: this callable's own.
    pub fn consumer(&self) -> (consumer: &Consumer<T>)
        ensures
            *consumer == self.callback(),
    {
        &self.consumer
    }
}

impl<T> Clone for Callable<T> {
    /// A second handle on the same callback: the same connection.
    fn clone(&self) -> (c: Self)
        ensures
            c@ == self@,
            c.callback() == self.callback(),
    {
        Callable { consumer: share_again(&self.consumer), identity: self.identity }
    }
}

impl<T> PartialEq for Callable<T> {
    fn eq(&self, other: &Self) -> (same: bool) {
        self.identity == other.identity
    }
}

impl<T> vstd::std_specs::cmp::PartialEqSpecImpl for Callable<T> {
    open spec fn obeys_eq_spec() -> bool {
        true
    }

    open spec fn eq_spec(&self, other: &Self) -> bool {
        self@ == other@
    }
}

impl<T> Eq for Callable<T> {}

} // verus!
