//! The mathematical model of the buffer: what each operation does to the
//! sequence of held items, oldest first.

use vstd::prelude::*;

verus! {

/// The last `count` of `items`, or all of them where there are fewer.
pub open spec fn newest<T>(items: Seq<T>, count: nat) -> Seq<T> {
    if items.len() <= count {
        items
    } else {
        items.skip(items.len() - count)
    }
}

/// Whether a write to a buffer of limit `capacity` that holds `items`
/// discards an item.
pub open spec fn evicts<T>(items: Seq<T>, capacity: nat) -> bool {
    items.len() >= capacity
}

/// What a buffer of limit `capacity` holds after `item` is written to it
/// while it held `items`: the item is appended, and the oldest item leaves
/// if that is one too many.
///
/// With a limit of zero the item that leaves is the one just written.
pub open spec fn written<T>(items: Seq<T>, capacity: nat, item: T) -> Seq<T> {
    newest(items.push(item), capacity)
}

/// What the buffer holds after each of `arrivals` is written in turn.
pub open spec fn written_all<T>(items: Seq<T>, capacity: nat, arrivals: Seq<T>) -> Seq<T>
    decreases arrivals.len(),
{
    if arrivals.len() == 0 {
        items
    } else {
        written(written_all(items, capacity, arrivals.drop_last()), capacity, arrivals.last())
    }
}

/// What a read returns: the oldest item, or nothing from an empty buffer.
pub open spec fn front<T>(items: Seq<T>) -> Option<T> {
    if items.len() > 0 {
        Some(items[0])
    } else {
        None
    }
}

/// What the buffer holds after a read.
pub open spec fn rest<T>(items: Seq<T>) -> Seq<T> {
    if items.len() > 0 {
        items.drop_first()
    } else {
        items
    }
}

/// What the buffer holds after `count` reads.
pub open spec fn after_reads<T>(items: Seq<T>, count: nat) -> Seq<T>
    decreases count,
{
    if count == 0 {
        items
    } else {
        after_reads(rest(items), (count - 1) as nat)
    }
}

/// The items that successive reads return until one returns nothing.
pub open spec fn drained<T>(items: Seq<T>) -> Seq<T>
    decreases items.len(),
{
    match front(items) {
        Some(item) => seq![item] + drained(rest(items)),
        None => Seq::empty(),
    }
}

/// Whether `decisions` holds, for each of `items` in turn, an answer that
/// `predicate` may give for it.
pub open spec fn answers<T, F: FnMut(&T) -> bool>(
    predicate: F,
    items: Seq<T>,
    decisions: Seq<bool>,
) -> bool {
    &&& decisions.len() == items.len()
    &&& forall|i: int|
        0 <= i < items.len() ==> call_ensures(predicate, (&items[i],), #[trigger] decisions[i])
}

/// The items whose decision is `wanted`, in the order in which they stand
/// in `items`.
pub open spec fn chosen<T>(items: Seq<T>, decisions: Seq<bool>, wanted: bool) -> Seq<T>
    decreases items.len(),
{
    if items.len() == 0 {
        Seq::empty()
    } else {
        let earlier = chosen(items.drop_last(), decisions.drop_last(), wanted);
        if decisions.last() == wanted {
            earlier.push(items.last())
        } else {
            earlier
        }
    }
}

} // verus!
