//! A single-slot handoff from a producer to a consumer: a new value
//! replaces one that was not taken yet, so the producer never waits and
//! the consumer always finds the freshest value.

use vstd::prelude::*;

verus! {

/// The slot: empty, or holding the value that was published last.
pub struct LatestSlot<T> {
    pending: Option<T>,
}

impl<T> View for LatestSlot<T> {
    type V = Option<T>;

    closed spec fn view(&self) -> Option<T> {
        self.pending
    }
}

impl<T> LatestSlot<T> {
    /// An empty slot.
    pub fn new() -> (slot: Self)
        ensures
            slot@ is None,
    {
        LatestSlot { pending: None }
    }

    /// Puts `value` into the slot.  Gives back the value that it replaces,
    /// if one was waiting: that one is never delivered.
    pub fn publish(&mut self, value: T) -> (dropped: Option<T>)
        ensures
            final(self)@ == apply(old(self)@, SlotEvent::Publish(value)),
            final(self)@ == Some(value),
            dropped == old(self)@,
    {
        let mut slot = Some(value);
        std::mem::swap(&mut self.pending, &mut slot);
        slot
    }

    /// Takes the waiting value out of the slot, if there is one.
    pub fn take(&mut self) -> (value: Option<T>)
        ensures
            value == old(self)@,
            final(self)@ == apply(old(self)@, SlotEvent::<T>::Take),
            final(self)@ is None,
    {
        let mut slot = None;
        std::mem::swap(&mut self.pending, &mut slot);
        slot
    }

    /// Whether a value is waiting.
    pub fn is_pending(&self) -> (b: bool)
        ensures
            b == (self@ is Some),
    {
        self.pending.is_some()
    }
}

/// What happens to a slot: the producer publishes a value, or the consumer
/// takes what is there.
pub enum SlotEvent<T> {
    Publish(T),
    Take,
}

/// What the slot holds after `event`, if it held `pending` before.
pub open spec fn apply<T>(pending: Option<T>, event: SlotEvent<T>) -> Option<T> {
    match event {
        SlotEvent::Publish(value) => Some(value),
        SlotEvent::Take => None,
    }
}

/// What an empty slot holds after `events`.
pub open spec fn holds<T>(events: Seq<SlotEvent<T>>) -> Option<T>
    decreases events.len(),
{
    if events.len() == 0 {
        None
    } else {
        apply(holds(events.drop_last()), events.last())
    }
}

/// The values that `events` publish, in their order.
pub open spec fn published<T>(events: Seq<SlotEvent<T>>) -> Seq<T>
    decreases events.len(),
{
    if events.len() == 0 {
        Seq::<T>::empty()
    } else {
        match events.last() {
            SlotEvent::Publish(value) => published(events.drop_last()).push(value),
            SlotEvent::Take => published(events.drop_last()),
        }
    }
}

/// The position, among the published values, of the one that waits in the
/// slot after `events`.
pub open spec fn waiting<T>(events: Seq<SlotEvent<T>>) -> Option<int>
    decreases events.len(),
{
    if events.len() == 0 {
        None
    } else {
        match events.last() {
            SlotEvent::Publish(_) => Some(published(events).len() - 1),
            SlotEvent::Take => None,
        }
    }
}

/// The positions, among the published values, of those that the consumer
/// received during `events`, in the order in which it received them.
pub open spec fn delivered<T>(events: Seq<SlotEvent<T>>) -> Seq<int>
    decreases events.len(),
{
    if events.len() == 0 {
        Seq::<int>::empty()
    } else {
        match (events.last(), waiting(events.drop_last())) {
            (SlotEvent::Take, Some(position)) => delivered(events.drop_last()).push(position),
            _ => delivered(events.drop_last()),
        }
    }
}

/// Whatever the producer and the consumer do, the consumer receives
/// published values in the order of their publication, none of them twice;
/// a value that is waiting is the last one published and newer than all
/// that were delivered.
pub proof fn lemma_latest_wins<T>(events: Seq<SlotEvent<T>>)
    ensures
        forall|i: int|
            0 <= i < delivered(events).len() ==> 0 <= #[trigger] delivered(events)[i] < published(
                events,
            ).len(),
        forall|i: int, j: int|
            0 <= i < j < delivered(events).len() ==> delivered(events)[i] < delivered(events)[j],
        waiting(events) matches Some(position) ==> {
            &&& position == published(events).len() - 1
            &&& forall|i: int|
                0 <= i < delivered(events).len() ==> #[trigger] delivered(events)[i] < position
        },
        holds(events) == match waiting(events) {
            Some(position) => Some(published(events)[position]),
            None => None,
        },
    decreases events.len(),
{
    if events.len() > 0 {
        let before = events.drop_last();
        lemma_latest_wins(before);
        match events.last() {
            SlotEvent::Publish(value) => {
                assert(published(events) == published(before).push(value));
                assert(delivered(events) == delivered(before));
            },
            SlotEvent::Take => {
                assert(published(events) == published(before));
                match waiting(before) {
                    Some(position) => {
                        assert(before.len() > 0);
                        assert(published(before).len() > 0);
                        assert(delivered(events) == delivered(before).push(position));
                    },
                    None => {
                        assert(delivered(events) == delivered(before));
                    },
                }
            },
        }
    }
}

/// After a burst of publications that the consumer did not keep up with,
/// the next take delivers the last value of the burst.
pub proof fn lemma_burst_delivers_last<T>(events: Seq<SlotEvent<T>>, value: T)
    ensures
        waiting(events.push(SlotEvent::Publish(value))) == Some(
            published(events.push(SlotEvent::Publish(value))).len() - 1,
        ),
        published(events.push(SlotEvent::Publish(value))).last() == value,
        delivered(events.push(SlotEvent::Publish(value)).push(SlotEvent::Take)).last()
            == published(events.push(SlotEvent::Publish(value))).len() - 1,
{
    let burst = events.push(SlotEvent::Publish(value));
    assert(burst.drop_last() == events);
    let taken = burst.push(SlotEvent::Take);
    assert(taken.drop_last() == burst);
}

} // verus!
