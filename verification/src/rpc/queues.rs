//! The queues of a connection's handler, kept in `SmallVec`s of the `smallvec` crate.

use super::handler::{HandlerEvent, HandlerId};
use super::protocol::OutboundRequest;
use smallvec::SmallVec;
use vstd::prelude::*;

verus! {

/// The events that a handler has yet to report.
#[verifier::external_body]
pub struct EventQueue {
    inner: SmallVec<[HandlerEvent<HandlerId>; 4]>,
}

/// The events in a queue, the oldest first.
pub uninterp spec fn queued_events(queue: EventQueue) -> Seq<HandlerEvent<HandlerId>>;

/// Calls `SmallVec::new`, which makes an empty queue.
#[verifier::external_body]
pub(crate) fn events_new() -> (queue: EventQueue)
    ensures
        queued_events(queue) == Seq::<HandlerEvent<HandlerId>>::empty(),
{
    EventQueue { inner: SmallVec::new() }
}

/// Calls `SmallVec::is_empty`, which tells whether nothing is queued.
#[verifier::external_body]
pub(crate) fn events_is_empty(queue: &EventQueue) -> (empty: bool)
    ensures
        empty == (queued_events(*queue).len() == 0),
{
    queue.inner.is_empty()
}

/// Calls `SmallVec::push`, which appends an event.
#[verifier::external_body]
pub(crate) fn events_push(queue: &mut EventQueue, event: HandlerEvent<HandlerId>)
    ensures
        queued_events(*final(queue)) == queued_events(*old(queue)).push(event),
{
    queue.inner.push(event)
}

/// Calls `SmallVec::remove`, which takes out the event at `index` and closes the
/// gap. It panics where there is none.
#[verifier::external_body]
pub(crate) fn events_remove(queue: &mut EventQueue, index: usize) -> (event: HandlerEvent<
    HandlerId,
>)
    requires
        index < queued_events(*old(queue)).len(),
    ensures
        event == queued_events(*old(queue))[index as int],
        queued_events(*final(queue)) == queued_events(*old(queue)).remove(index as int),
{
    queue.inner.remove(index)
}

/// The requests that a handler has yet to open a substream for.
#[verifier::external_body]
pub struct DialQueue {
    inner: SmallVec<[(HandlerId, OutboundRequest); 4]>,
}

/// The requests in a queue, the oldest first.
pub uninterp spec fn queued_dials(queue: DialQueue) -> Seq<(HandlerId, OutboundRequest)>;

/// Calls `SmallVec::new`, which makes an empty queue.
#[verifier::external_body]
pub(crate) fn dials_new() -> (queue: DialQueue)
    ensures
        queued_dials(queue) == Seq::<(HandlerId, OutboundRequest)>::empty(),
{
    DialQueue { inner: SmallVec::new() }
}

/// Calls `SmallVec::is_empty`, which tells whether nothing is queued.
#[verifier::external_body]
pub(crate) fn dials_is_empty(queue: &DialQueue) -> (empty: bool)
    ensures
        empty == (queued_dials(*queue).len() == 0),
{
    queue.inner.is_empty()
}

/// Calls `SmallVec::push`, which appends a request.
#[verifier::external_body]
pub(crate) fn dials_push(queue: &mut DialQueue, dial: (HandlerId, OutboundRequest))
    ensures
        queued_dials(*final(queue)) == queued_dials(*old(queue)).push(dial),
{
    queue.inner.push(dial)
}

/// Calls `SmallVec::pop`, which takes out the newest request, if there is any.
#[verifier::external_body]
pub(crate) fn dials_pop(queue: &mut DialQueue) -> (dial: Option<(HandlerId, OutboundRequest)>)
    ensures
        match dial {
            Some(newest) => {
                &&& queued_dials(*old(queue)).len() > 0
                &&& newest == queued_dials(*old(queue)).last()
                &&& queued_dials(*final(queue)) == queued_dials(*old(queue)).drop_last()
            },
            None => {
                &&& queued_dials(*old(queue)).len() == 0
                &&& queued_dials(*final(queue)) == queued_dials(*old(queue))
            },
        },
{
    queue.inner.pop()
}

/// Calls `SmallVec::remove`, which takes out the request at `index` and closes the
/// gap. It panics where there is none.
#[verifier::external_body]
pub(crate) fn dials_remove(queue: &mut DialQueue, index: usize) -> (dial: (
    HandlerId,
    OutboundRequest,
))
    requires
        index < queued_dials(*old(queue)).len(),
    ensures
        dial == queued_dials(*old(queue))[index as int],
        queued_dials(*final(queue)) == queued_dials(*old(queue)).remove(index as int),
{
    queue.inner.remove(index)
}

} // verus!
