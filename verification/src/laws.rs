//! What connecting and disconnecting do to the sequence of connected
//! identities, and the laws that hold of them.

use vstd::prelude::*;

use crate::callable::Callable;

verus! {

/// The connected identities after connecting `id`: unchanged when `id` is
/// already there, else `id` appended after all the others.
pub open spec fn after_connect(ids: Seq<usize>, id: usize) -> Seq<usize> {
    if ids.contains(id) {
        ids
    } else {
        ids.push(id)
    }
}

/// The connected identities after disconnecting `id`: every other identity,
/// in the same order.
pub open spec fn after_disconnect(ids: Seq<usize>, id: usize) -> Seq<usize> {
    ids.filter(other_than(id))
}

/// Holds of every identity but `id`.
pub open spec fn other_than(id: usize) -> spec_fn(usize) -> bool {
    |x: usize| x != id
}

/// Filtering by a predicate that every item meets keeps the sequence.
pub(crate) proof fn lemma_filter_keeps_all<A>(s: Seq<A>, pred: spec_fn(A) -> bool)
    requires
        forall|i: int| 0 <= i < s.len() ==> pred(#[trigger] s[i]),
    ensures
        s.filter(pred) == s,
    decreases s.len(),
{
    reveal(Seq::filter);
    if s.len() > 0 {
        lemma_filter_keeps_all(s.drop_last(), pred);
        assert(s.drop_last().push(s.last()) =~= s);
    }
}

/// Where the item at `i` is the only one that fails `pred`, removing it is
/// filtering by `pred`.
pub(crate) proof fn lemma_remove_is_filter<A>(s: Seq<A>, i: int, pred: spec_fn(A) -> bool)
    requires
        0 <= i < s.len(),
        !pred(s[i]),
        forall|j: int| 0 <= j < s.len() && j != i ==> pred(#[trigger] s[j]),
    ensures
        s.remove(i) == s.filter(pred),
{
    let item = s[i];
    let front = s.subrange(0, i);
    let back = s.subrange(i + 1, s.len() as int);
    assert(s =~= front + seq![item] + back);
    Seq::filter_distributes_over_add(front + seq![item], back, pred);
    Seq::filter_distributes_over_add(front, seq![item], pred);
    assert forall|k: int| 0 <= k < front.len() implies pred(#[trigger] front[k]) by {
        assert(front[k] == s[k]);
    }
    assert forall|k: int| 0 <= k < back.len() implies pred(#[trigger] back[k]) by {
        assert(back[k] == s[k + i + 1]);
    }
    lemma_filter_keeps_all(front, pred);
    lemma_filter_keeps_all(back, pred);
    Seq::<A>::empty().lemma_filter_push(item, pred);
    lemma_filter_keeps_all(Seq::<A>::empty(), pred);
    assert(Seq::<A>::empty().push(item) =~= seq![item]);
    assert(s.remove(i) =~= front + back);
}

/// Removing the one occurrence of `id` is filtering `id` out.
pub(crate) proof fn lemma_remove_is_disconnect(s: Seq<usize>, i: int)
    requires
        s.no_duplicates(),
        0 <= i < s.len(),
    ensures
        s.remove(i) == after_disconnect(s, s[i]),
{
    lemma_remove_is_filter(s, i, other_than(s[i]));
}

/// Filtering out an identity that does not occur keeps the sequence.
pub(crate) proof fn lemma_disconnect_absent(s: Seq<usize>, id: usize)
    requires
        !s.contains(id),
    ensures
        after_disconnect(s, id) == s,
{
    assert forall|i: int| 0 <= i < s.len() implies other_than(id)(#[trigger] s[i]) by {
        if s[i] == id {
            assert(s.contains(id));
        }
    }
    lemma_filter_keeps_all(s, other_than(id));
}

/// The connected identities after connecting each of `ids` in turn,
/// starting from `start`.
pub open spec fn after_connecting_each(start: Seq<usize>, ids: Seq<usize>) -> Seq<usize>
    decreases ids.len(),
{
    if ids.len() == 0 {
        start
    } else {
        after_connect(after_connecting_each(start, ids.drop_last()), ids.last())
    }
}

/// An index at which `id` occurs in `s`.
proof fn witness_index(s: Seq<usize>, id: usize) -> (i: int)
    requires
        s.contains(id),
    ensures
        0 <= i < s.len(),
        s[i] == id,
{
    choose|i: int| 0 <= i < s.len() && s[i] == id
}

/// Removing one item keeps a sequence free of duplicates.
proof fn lemma_remove_no_duplicates(s: Seq<usize>, i: int)
    requires
        s.no_duplicates(),
        0 <= i < s.len(),
    ensures
        s.remove(i).no_duplicates(),
        !s.remove(i).contains(s[i]),
{
    let r = s.remove(i);
    assert forall|a: int, b: int| 0 <= a < r.len() && 0 <= b < r.len() && a != b implies r[a] != r[b] by {
        let oa = if a < i { a } else { a + 1 };
        let ob = if b < i { b } else { b + 1 };
        assert(r[a] == s[oa]);
        assert(r[b] == s[ob]);
    }
    if r.contains(s[i]) {
        let k = choose|k: int| 0 <= k < r.len() && r[k] == s[i];
        let ok = if k < i { k } else { k + 1 };
        assert(r[k] == s[ok]);
    }
}

/// Connecting a callable that is not connected, then disconnecting it,
/// gives back the signal as it was.
pub proof fn law_disconnect_undoes_connect(ids: Seq<usize>, id: usize)
    requires
        ids.no_duplicates(),
        !ids.contains(id),
    ensures
        after_disconnect(after_connect(ids, id), id) == ids,
{
    let pushed = ids.push(id);
    assert forall|a: int, b: int|
        0 <= a < pushed.len() && 0 <= b < pushed.len() && a != b implies pushed[a] != pushed[b] by {
        if a == ids.len() {
            assert(ids[b] == pushed[b]);
        } else if b == ids.len() {
            assert(ids[a] == pushed[a]);
        }
    }
    lemma_remove_is_disconnect(pushed, ids.len() as int);
    assert(pushed.remove(ids.len() as int) =~= ids);
}

/// Connecting the same callable (or a clone of it) twice does what
/// connecting it once does.
pub proof fn law_connect_twice(ids: Seq<usize>, id: usize)
    ensures
        after_connect(after_connect(ids, id), id) == after_connect(ids, id),
{
    if !ids.contains(id) {
        assert(ids.push(id)[ids.len() as int] == id);
    }
}

/// Disconnecting the same callable twice does what disconnecting it once
/// does.
pub proof fn law_disconnect_twice(ids: Seq<usize>, id: usize)
    ensures
        after_disconnect(after_disconnect(ids, id), id) == after_disconnect(ids, id),
{
    broadcast use vstd::seq_lib::group_filter_ensures;
    let once = after_disconnect(ids, id);
    if once.contains(id) {
        let k = choose|k: int| 0 <= k < once.len() && once[k] == id;
        assert(other_than(id)(once[k]));
    }
    lemma_disconnect_absent(once, id);
}

/// After connecting `id`, exactly `id` and the callables connected before
/// are connected; after disconnecting `id`, exactly those connected before
/// but `id`.
pub proof fn law_connected_after(ids: Seq<usize>, id: usize, other: usize)
    ensures
        after_connect(ids, id).contains(other) <==> (ids.contains(other) || other == id),
        after_disconnect(ids, id).contains(other) <==> (ids.contains(other) && other != id),
{
    broadcast use vstd::seq_lib::group_filter_ensures;
    if !ids.contains(id) {
        let pushed = ids.push(id);
        assert(pushed[ids.len() as int] == id);
        if ids.contains(other) {
            let k = choose|k: int| 0 <= k < ids.len() && ids[k] == other;
            assert(pushed[k] == other);
        }
        if pushed.contains(other) && other != id {
            let k = choose|k: int| 0 <= k < pushed.len() && pushed[k] == other;
            assert(ids[k] == other);
        }
    }
    let out = after_disconnect(ids, id);
    if out.contains(other) {
        ids.lemma_filter_contains_rev(other_than(id), other);
        let k = choose|k: int| 0 <= k < out.len() && out[k] == other;
        assert(other_than(id)(out[k]));
    }
    if ids.contains(other) && other != id {
        let k = choose|k: int| 0 <= k < ids.len() && ids[k] == other;
        assert(other_than(id)(ids[k]));
    }
}

/// Connecting adds one callable unless it is already connected;
/// disconnecting takes one away when it is connected.
pub proof fn law_lengths(ids: Seq<usize>, id: usize)
    requires
        ids.no_duplicates(),
    ensures
        after_connect(ids, id).len() == if ids.contains(id) { ids.len() } else { ids.len() + 1 },
        after_disconnect(ids, id).len() == if ids.contains(id) { ids.len() - 1 } else { ids.len() as int },
{
    if ids.contains(id) {
        let i = witness_index(ids, id);
        lemma_remove_is_disconnect(ids, i);
    } else {
        lemma_disconnect_absent(ids, id);
    }
}

/// Neither connecting nor disconnecting ever makes a callable connected
/// twice.
pub proof fn law_no_duplicates_kept(ids: Seq<usize>, id: usize)
    requires
        ids.no_duplicates(),
    ensures
        after_connect(ids, id).no_duplicates(),
        after_disconnect(ids, id).no_duplicates(),
{
    if ids.contains(id) {
        let i = witness_index(ids, id);
        lemma_remove_is_disconnect(ids, i);
        lemma_remove_no_duplicates(ids, i);
    } else {
        lemma_disconnect_absent(ids, id);
        let pushed = ids.push(id);
        assert forall|a: int, b: int|
            0 <= a < pushed.len() && 0 <= b < pushed.len() && a != b implies pushed[a] != pushed[b] by {
            if a == ids.len() {
                assert(ids[b] == pushed[b]);
            } else if b == ids.len() {
                assert(ids[a] == pushed[a]);
            }
        }
    }
}

/// Connecting distinct callables one after another, starting from nothing
/// connected, connects them all, in that order: the order in which they
/// are to be called.
pub proof fn law_connection_order(ids: Seq<usize>)
    requires
        ids.no_duplicates(),
    ensures
        after_connecting_each(Seq::<usize>::empty(), ids) == ids,
    decreases ids.len(),
{
    if ids.len() > 0 {
        let front = ids.drop_last();
        assert(front.no_duplicates());
        law_connection_order(front);
        if front.contains(ids.last()) {
            let k = choose|k: int| 0 <= k < front.len() && front[k] == ids.last();
            assert(ids[k] == ids[ids.len() - 1]);
        }
        assert(front.push(ids.last()) =~= ids);
    }
}

/// A call that may change what is connected: `Signal::connect` or
/// `Signal::disconnect` of the callable with this identity.
pub enum Change {
    Connect(usize),
    Disconnect(usize),
}

/// The connected identities after one change.
pub open spec fn after_change(ids: Seq<usize>, change: Change) -> Seq<usize> {
    match change {
        Change::Connect(id) => after_connect(ids, id),
        Change::Disconnect(id) => after_disconnect(ids, id),
    }
}

/// The connected identities after each change in turn, starting from
/// `start`.
pub open spec fn after_changes(start: Seq<usize>, changes: Seq<Change>) -> Seq<usize>
    decreases changes.len(),
{
    if changes.len() == 0 {
        start
    } else {
        after_change(after_changes(start, changes.drop_last()), changes.last())
    }
}

/// How many of the changes are connects that return `Ok`: those of a
/// callable not connected at the time.
pub open spec fn successful_connects(start: Seq<usize>, changes: Seq<Change>) -> nat
    decreases changes.len(),
{
    if changes.len() == 0 {
        0
    } else {
        let before = after_changes(start, changes.drop_last());
        successful_connects(start, changes.drop_last()) + match changes.last() {
            Change::Connect(id) => if before.contains(id) { 0nat } else { 1nat },
            Change::Disconnect(_) => 0nat,
        }
    }
}

/// How many of the changes are disconnects that return `true`: those of a
/// callable connected at the time.
pub open spec fn successful_disconnects(start: Seq<usize>, changes: Seq<Change>) -> nat
    decreases changes.len(),
{
    if changes.len() == 0 {
        0
    } else {
        let before = after_changes(start, changes.drop_last());
        successful_disconnects(start, changes.drop_last()) + match changes.last() {
            Change::Connect(_) => 0nat,
            Change::Disconnect(id) => if before.contains(id) { 1nat } else { 0nat },
        }
    }
}

/// Over any run of connects and disconnects, the number of connected
/// callables is the number there were at the start, plus the connects that
/// returned `Ok`, minus the disconnects that returned `true`; and no
/// callable is ever connected twice. Starting from a new signal, the
/// number is the successful connects minus the successful disconnects.
pub proof fn law_length_counts(start: Seq<usize>, changes: Seq<Change>)
    requires
        start.no_duplicates(),
    ensures
        after_changes(start, changes).no_duplicates(),
        after_changes(start, changes).len() == start.len() + successful_connects(start, changes)
            - successful_disconnects(start, changes),
    decreases changes.len(),
{
    if changes.len() > 0 {
        let rest = changes.drop_last();
        law_length_counts(start, rest);
        let before = after_changes(start, rest);
        match changes.last() {
            Change::Connect(id) => {
                law_lengths(before, id);
                law_no_duplicates_kept(before, id);
            },
            Change::Disconnect(id) => {
                law_lengths(before, id);
                law_no_duplicates_kept(before, id);
            },
        }
    }
}

/// A callable made apart from a signal's callables (what
/// `Callable::new_apart` gives when handed `Signal::callables()`) is a new
/// connection: it is not connected, and connecting it appends it after all
/// the others, one more than before.
pub proof fn law_apart_is_a_new_connection<T>(
    connected: Seq<Callable<T>>,
    ids: Seq<usize>,
    callable: Callable<T>,
)
    requires
        connected.len() == ids.len(),
        forall|i: int| 0 <= i < connected.len() ==> #[trigger] connected[i]@ == ids[i],
        forall|i: int| 0 <= i < connected.len() ==> #[trigger] connected[i]@ != callable@,
    ensures
        !ids.contains(callable@),
        after_connect(ids, callable@) == ids.push(callable@),
        after_connect(ids, callable@).len() == ids.len() + 1,
{
    if ids.contains(callable@) {
        let k = choose|k: int| 0 <= k < ids.len() && ids[k] == callable@;
        assert(connected[k]@ == ids[k]);
    }
}

/// Once a callable made apart from a signal's callables is connected after
/// them, its callback stands in the signal exactly once, in the last place:
/// running the signal runs it once, after the others, and runs none of
/// the others' callbacks in its stead.
pub proof fn law_apart_runs_its_own_callback<T>(connected: Seq<Callable<T>>, callable: Callable<T>)
    requires
        forall|i: int| 0 <= i < connected.len() ==> #[trigger] connected[i].callback() != callable.callback(),
    ensures
        forall|j: int| 0 <= j < connected.len() + 1 ==>
            (#[trigger] connected.push(callable)[j].callback() == callable.callback() <==> j == connected.len()),
{
    assert forall|j: int| 0 <= j < connected.len() + 1 implies
        (#[trigger] connected.push(callable)[j].callback() == callable.callback() <==> j == connected.len()) by {
        if j < connected.len() {
            assert(connected.push(callable)[j] == connected[j]);
        }
    }
}

} // verus!
