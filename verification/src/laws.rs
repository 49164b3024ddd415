//! What holds of the buffer over whole runs of operations, proved of the
//! model that the operations' contracts are stated in.

use crate::model::{after_reads, chosen, drained, evicts, front, newest, rest, written_all};
use vstd::prelude::*;

verus! {

/// Trimming to the newest items after one more arrival gives the same as
/// trimming before it and again after it.
proof fn lemma_newest_after_push<T>(items: Seq<T>, capacity: nat, item: T)
    ensures
        newest(newest(items, capacity).push(item), capacity) == newest(
            items.push(item),
            capacity,
        ),
{
    assert(newest(newest(items, capacity).push(item), capacity) =~= newest(
        items.push(item),
        capacity,
    ));
}

/// A buffer that was within its limit holds, after any run of writes, the
/// newest items of what it held followed by what arrived: as many as its
/// limit allows, in the order of arrival.
pub proof fn lemma_writes_keep_newest<T>(items: Seq<T>, capacity: nat, arrivals: Seq<T>)
    requires
        items.len() <= capacity,
    ensures
        written_all(items, capacity, arrivals) == newest(items + arrivals, capacity),
    decreases arrivals.len(),
{
    if arrivals.len() == 0 {
        assert(items + arrivals =~= items);
    } else {
        let earlier = arrivals.drop_last();
        lemma_writes_keep_newest(items, capacity, earlier);
        lemma_newest_after_push(items + earlier, capacity, arrivals.last());
        assert((items + earlier).push(arrivals.last()) =~= items + arrivals);
    }
}

/// No run of writes takes a buffer over its limit.
pub proof fn lemma_writes_within_capacity<T>(items: Seq<T>, capacity: nat, arrivals: Seq<T>)
    requires
        items.len() <= capacity,
    ensures
        written_all(items, capacity, arrivals).len() <= capacity,
{
    lemma_writes_keep_newest(items, capacity, arrivals);
}

/// Reading until nothing is returned gives every held item, oldest first.
pub proof fn lemma_drain_returns_all<T>(items: Seq<T>)
    ensures
        drained(items) == items,
    decreases items.len(),
{
    if items.len() > 0 {
        lemma_drain_returns_all(rest(items));
        assert(seq![items[0]] + items.drop_first() =~= items);
    } else {
        assert(items =~= Seq::<T>::empty());
    }
}

/// Where more items were written to a new buffer than its limit, a full
/// drain returns the last ones written, as many as the limit, in the order
/// in which they were written.
pub proof fn lemma_eviction_order<T>(capacity: nat, arrivals: Seq<T>)
    requires
        arrivals.len() > capacity,
    ensures
        drained(written_all(Seq::<T>::empty(), capacity, arrivals)) == arrivals.skip(
            arrivals.len() - capacity,
        ),
{
    lemma_writes_keep_newest(Seq::<T>::empty(), capacity, arrivals);
    assert(Seq::<T>::empty() + arrivals =~= arrivals);
    lemma_drain_returns_all(written_all(Seq::<T>::empty(), capacity, arrivals));
}

/// Of the writes to a new buffer, counted from one, exactly those after the
/// first `capacity` evict.
pub proof fn lemma_eviction_flag<T>(capacity: nat, arrivals: Seq<T>, turn: int)
    requires
        1 <= turn <= arrivals.len(),
    ensures
        evicts(written_all(Seq::<T>::empty(), capacity, arrivals.take(turn - 1)), capacity) <==> turn
            > capacity,
{
    let earlier = arrivals.take(turn - 1);
    lemma_writes_keep_newest(Seq::<T>::empty(), capacity, earlier);
    assert(Seq::<T>::empty() + earlier =~= earlier);
}

/// Where no more items were written to a new buffer than its limit, a full
/// drain returns them all in the order in which they were written.
pub proof fn lemma_fifo_order<T>(capacity: nat, arrivals: Seq<T>)
    requires
        arrivals.len() <= capacity,
    ensures
        drained(written_all(Seq::<T>::empty(), capacity, arrivals)) == arrivals,
{
    lemma_writes_keep_newest(Seq::<T>::empty(), capacity, arrivals);
    assert(Seq::<T>::empty() + arrivals =~= arrivals);
    lemma_drain_returns_all(arrivals);
}

/// After as many reads as there were items, or more, the buffer is empty,
/// and a further read returns nothing and leaves it empty. With no read at
/// all this is the case of a buffer that never held anything.
pub proof fn lemma_empty_read<T>(items: Seq<T>, reads: nat)
    requires
        reads >= items.len(),
    ensures
        after_reads(items, reads).len() == 0,
        front(after_reads(items, reads)) is None,
        rest(after_reads(items, reads)).len() == 0,
    decreases reads,
{
    if reads > 0 {
        lemma_empty_read(rest(items), (reads - 1) as nat);
    }
}

/// Where each decision is what `accepts` says of its item, the items
/// chosen are those that `accepts` filters, and the others are those that
/// its negation filters.
pub proof fn lemma_chosen_is_filter<T>(
    items: Seq<T>,
    decisions: Seq<bool>,
    accepts: spec_fn(T) -> bool,
)
    requires
        decisions.len() == items.len(),
        forall|i: int| 0 <= i < items.len() ==> #[trigger] decisions[i] == accepts(items[i]),
    ensures
        chosen(items, decisions, true) == items.filter(accepts),
        chosen(items, decisions, false) == items.filter(|item: T| !accepts(item)),
    decreases items.len(),
{
    reveal(Seq::filter);
    if items.len() > 0 {
        lemma_chosen_is_filter(items.drop_last(), decisions.drop_last(), accepts);
    }
}

} // verus!
