//! Events and the queues that hold them.

use crate::controller::information::QuInformationData;
use vstd::prelude::*;

verus! {

/// An event of the bus: a kind and the information sent with it. An event is
/// never changed once it is made; every listener it is delivered to reads the
/// same payload.
///
/// # Attributes
/// * m_event_type: the type of the event
/// * m_event_arg: the information sent through the event
pub struct QuEvent<EventType> {
    pub m_event_type: EventType,
    pub m_event_arg: Box<dyn QuInformationData>,
}

/// An ordered queue of events, first in, first out. Whoever holds a queue can
/// only add to its end: the bus alone makes queues and empties them.
pub struct EventQueue<EventType> {
    m_event_list: Vec<QuEvent<EventType>>,
}

impl<EventType> View for EventQueue<EventType> {
    type V = Seq<QuEvent<EventType>>;

    /// The events of the queue, oldest first.
    closed spec fn view(&self) -> Seq<QuEvent<EventType>> {
        self.m_event_list@
    }
}

impl<EventType> EventQueue<EventType> {
    /// An empty queue.
    pub(crate) fn new() -> (queue: Self)
        ensures
            queue@ == Seq::<QuEvent<EventType>>::empty(),
    {
        EventQueue { m_event_list: Vec::new() }
    }

    /// The number of events that wait in the queue.
    pub fn len(&self) -> (count: usize)
        ensures
            count == self@.len(),
    {
        self.m_event_list.len()
    }

    /// Moves every event of `events` to the end of the queue, in order.
    pub(crate) fn extend(&mut self, events: &mut Vec<QuEvent<EventType>>)
        ensures
            final(self)@ == old(self)@ + old(events)@,
            final(events)@ == Seq::<QuEvent<EventType>>::empty(),
    {
        self.m_event_list.append(events);
    }

    /// Moves every event of the queue to the end of `target`, in order, and
    /// leaves the queue empty.
    pub(crate) fn drain_into(&mut self, target: &mut Vec<QuEvent<EventType>>)
        ensures
            final(target)@ == old(target)@ + old(self)@,
            final(self)@ == Seq::<QuEvent<EventType>>::empty(),
    {
        target.append(&mut self.m_event_list);
    }
}

/// Pushes an event at the end of the temporary queue, where it waits for the
/// batch that is running to end. This is the only way to publish an event
/// from inside a listener.
///
/// # Parameter
/// event: The event to push inside the temporary queue.
pub fn push_event_in_tmp_queue<EventType>(
    event: QuEvent<EventType>,
    tmp_event_queue: &mut EventQueue<EventType>,
)
    ensures
        final(tmp_event_queue)@ == old(tmp_event_queue)@.push(event),
{
    tmp_event_queue.m_event_list.push(event);
}

} // verus!
