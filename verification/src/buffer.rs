//! The bounded buffer and its operations.

use crate::model::{answers, chosen, evicts, front, rest, written};
use std::collections::VecDeque;
use vstd::prelude::*;

verus! {

/// A first-in, first-out buffer that holds at most a fixed number of items.
///
/// The buffer is modelled by the sequence of the items it holds, oldest
/// first (`self@`), and by its limit (`self.capacity()`), which is set when
/// the buffer is made and never changes. No buffer ever holds more items
/// than its limit.
///
/// A limit of zero is accepted. Such a buffer stays empty: every write
/// evicts at once, and the item that leaves is the one being written.
#[derive(Debug)]
pub struct CommandBuffer<T> where T: Sync + Send {
    events: VecDeque<T>,
    capacity: usize,
}

impl<T> View for CommandBuffer<T> where T: Sync + Send {
    type V = Seq<T>;

    closed spec fn view(&self) -> Seq<T> {
        self.events@
    }
}

impl<T> CommandBuffer<T> where T: Sync + Send {
    /// Holds of every buffer at all times: it has no more items than its
    /// limit.
    #[verifier::type_invariant]
    spec fn within_capacity(&self) -> bool {
        self.events@.len() <= self.capacity
    }

    /// The largest number of items that the buffer holds at a time.
    pub closed spec fn capacity(&self) -> nat {
        self.capacity as nat
    }

    /// Makes an empty buffer that holds up to `capacity` items, with room
    /// for that many reserved. With a `capacity` of zero the buffer stays
    /// empty whatever is written.
    pub fn new(capacity: usize) -> (buffer: Self)
        ensures
            buffer@ == Seq::<T>::empty(),
            buffer.capacity() == capacity,
            buffer@.len() <= buffer.capacity(),
    {
        Self { events: VecDeque::with_capacity(capacity), capacity }
    }

    /// Appends `event`. Where the buffer was full, its oldest item is
    /// discarded to make room, and the result is `true`.
    pub fn write_command(&mut self, event: T) -> (evicted: bool)
        ensures
            final(self)@ == written(old(self)@, old(self).capacity(), event),
            evicted == evicts(old(self)@, old(self).capacity()),
            evicted == (old(self)@.len() == old(self).capacity()),
            final(self)@.len() == vstd::math::min(
                old(self)@.len() as int + 1,
                old(self).capacity() as int,
            ),
            final(self)@.len() <= final(self).capacity(),
            final(self).capacity() == old(self).capacity(),
    {
        proof {
            use_type_invariant(&*self);
        }
        let mut events = VecDeque::new();
        std::mem::swap(&mut events, &mut self.events);
        let capped = if events.len() >= self.capacity {
            events.pop_front();
            true
        } else {
            false
        };
        if self.capacity > 0 {
            events.push_back(event);
        }
        assert(events@ =~= written(old(self)@, old(self).capacity(), event));
        self.events = events;
        capped
    }

    /// Removes the oldest item and returns it, or returns `None` where the
    /// buffer is empty, which then stays empty.
    pub fn read_command(&mut self) -> (event: Option<T>)
        ensures
            event == front(old(self)@),
            final(self)@ == rest(old(self)@),
            old(self)@.len() == 0 ==> event is None && final(self)@.len() == 0,
            old(self)@.len() > 0 ==> final(self)@.len() == old(self)@.len() - 1,
            final(self)@.len() <= final(self).capacity(),
            final(self).capacity() == old(self).capacity(),
    {
        proof {
            use_type_invariant(&*self);
        }
        let mut events = VecDeque::new();
        std::mem::swap(&mut events, &mut self.events);
        let event = events.pop_front();
        assert(events@ =~= rest(old(self)@));
        self.events = events;
        event
    }

    /// Discards every item. The limit stays.
    pub fn clear(&mut self)
        ensures
            final(self)@ == Seq::<T>::empty(),
            front(final(self)@) is None,
            final(self)@.len() <= final(self).capacity(),
            final(self).capacity() == old(self).capacity(),
    {
        let mut events = VecDeque::new();
        std::mem::swap(&mut events, &mut self.events);
        events.clear();
        self.events = events;
    }

    /// The number of items held.
    pub fn len(&self) -> (count: usize)
        ensures
            count == self@.len(),
            count <= self.capacity(),
    {
        proof {
            use_type_invariant(self);
        }
        self.events.len()
    }

    /// Whether `predicate` accepts at least one of the items held. The items
    /// are asked oldest first, up to the first that is accepted. The buffer
    /// is only looked at: it holds the same items afterwards.
    pub fn has<F>(&self, predicate: F) -> (found: bool) where F: FnMut(&T) -> bool
        requires
            forall|i: int|
                0 <= i < self@.len() ==> call_requires(predicate, (&#[trigger] self@[i],)),
        ensures
            found ==> exists|i: int|
                0 <= i < self@.len() && call_ensures(predicate, (&#[trigger] self@[i],), true),
            !found ==> forall|i: int|
                0 <= i < self@.len() ==> call_ensures(predicate, (&#[trigger] self@[i],), false),
    {
        let mut ask = predicate;
        let mut i: usize = 0;
        while i < self.events.len()
            invariant
                ask == predicate,
                forall|j: int|
                    0 <= j < self@.len() ==> call_requires(predicate, (&#[trigger] self@[j],)),
                forall|j: int|
                    0 <= j < i ==> call_ensures(predicate, (&#[trigger] self@[j],), false),
            decreases self.events.len() - i,
        {
            assert(self.events@[i as int] == self@[i as int]);
            if ask(&self.events[i]) {
                assert(call_ensures(predicate, (&self@[i as int],), true));
                return true;
            }
            i += 1;
        }
        false
    }

    /// Whether the buffer holds no item.
    pub fn is_empty(&self) -> (empty: bool)
        ensures
            empty == (self@.len() == 0),
    {
        self.events.len() == 0
    }

    /// Takes out the items that `predicate` accepts and returns them; the
    /// others stay. Each item is asked once, oldest first, and both groups
    /// keep the order of arrival.
    pub fn retain<F>(&mut self, predicate: F) -> (popped: Vec<T>) where F: FnMut(&T) -> bool
        requires
            forall|i: int|
                0 <= i < old(self)@.len() ==> call_requires(
                    predicate,
                    (&#[trigger] old(self)@[i],),
                ),
        ensures
            exists|decisions: Seq<bool>|
                #[trigger] answers(predicate, old(self)@, decisions)
                    && popped@ == chosen(old(self)@, decisions, true)
                    && final(self)@ == chosen(old(self)@, decisions, false),
            popped@.len() + final(self)@.len() == old(self)@.len(),
            final(self)@.len() <= final(self).capacity(),
            final(self).capacity() == old(self).capacity(),
    {
        proof {
            use_type_invariant(&*self);
        }
        let ghost before = self@;
        let ghost mut decisions: Seq<bool> = Seq::empty();
        let mut events = VecDeque::new();
        std::mem::swap(&mut events, &mut self.events);
        let mut ask = predicate;
        let mut popped: Vec<T> = Vec::new();
        let mut i: usize = 0;
        while i < events.len()
            invariant
                ask == predicate,
                forall|j: int|
                    0 <= j < before.len() ==> call_requires(predicate, (&#[trigger] before[j],)),
                decisions.len() == i + popped@.len(),
                answers(predicate, before.take(decisions.len() as int), decisions),
                popped@ == chosen(before.take(decisions.len() as int), decisions, true),
                events@.take(i as int) == chosen(
                    before.take(decisions.len() as int),
                    decisions,
                    false,
                ),
                i <= events@.len(),
                events@.len() - i == before.len() - decisions.len(),
                forall|j: int|
                    i <= j < events@.len() ==> #[trigger] events@[j] == before[j - i
                        + decisions.len()],
            decreases events.len() - i,
        {
            let ghost seen = decisions.len() as int;
            let ghost earlier = decisions;
            let ghost kept = events@.take(i as int);
            let matched = ask(&events[i]);
            proof {
                decisions = decisions.push(matched);
                assert(before.take(seen + 1).drop_last() =~= before.take(seen));
                assert(decisions.drop_last() =~= earlier);
            }
            if matched {
                if let Some(event) = events.remove(i) {
                    popped.push(event);
                }
                assert(events@.take(i as int) =~= kept);
            } else {
                i += 1;
                assert(events@.take(i as int) =~= kept.push(before[seen]));
            }
        }
        assert(before.take(decisions.len() as int) =~= before);
        assert(events@.take(i as int) =~= events@);
        self.events = events;
        popped
    }
}

} // verus!
