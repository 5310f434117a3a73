//! What holds of a connection's handler, whatever happens to it.

use super::handler::{
    chunks_left, enumerates, failure, more_expected, CloseProgress, DialUpgradeError, HandlerEvent,
    HandlerId, HandlerOutput, HandlerView, NextView, OutboundInfo, OutboundSubstreamState,
    ResponseProgress, SendProgress, SubstreamId, TimerChange, TimerTick,
};
use super::methods::RPCCodedResponse;
use super::protocol::{
    inbound_protocol, outbound_expected, outbound_protocol, InboundRequest, OutboundRequest,
};
use super::RPCReceived;
use vstd::prelude::*;

verus! {

// What a law says of two states

/// Whether a substream is the same in two states: there or not, and if it is, in the same
/// condition.
pub open spec fn same_inbound(a: HandlerView, b: HandlerView, id: usize) -> bool {
    &&& a.inbound.dom().contains(id) == b.inbound.dom().contains(id)
    &&& a.inbound.dom().contains(id) ==> a.inbound[id] == b.inbound[id]
}

/// Whether a substream is the same in two states: there or not, and if it is, in the same
/// condition.
pub open spec fn same_outbound(a: HandlerView, b: HandlerView, id: usize) -> bool {
    &&& a.outbound.dom().contains(id) == b.outbound.dom().contains(id)
    &&& a.outbound.dom().contains(id) ==> a.outbound[id] == b.outbound[id]
}

/// Whether two states differ in the inbound substreams and the events at most.
pub open spec fn inbound_and_events_only(a: HandlerView, b: HandlerView) -> bool {
    &&& a.dials == b.dials
    &&& a.negotiated == b.negotiated
    &&& a.max_negotiated == b.max_negotiated
    &&& a.outbound == b.outbound
    &&& a.next_inbound == b.next_inbound
    &&& a.next_outbound == b.next_outbound
    &&& a.state == b.state
    &&& a.io_retries == b.io_retries
}

/// Whether two states differ in the outbound substreams and the events at most.
pub open spec fn outbound_and_events_only(a: HandlerView, b: HandlerView) -> bool {
    &&& a.dials == b.dials
    &&& a.negotiated == b.negotiated
    &&& a.max_negotiated == b.max_negotiated
    &&& a.inbound == b.inbound
    &&& a.next_inbound == b.next_inbound
    &&& a.next_outbound == b.next_outbound
    &&& a.state == b.state
    &&& a.io_retries == b.io_retries
}

/// Whether just one event came up from one state to another, behind those that were there.
pub open spec fn one_more_event(
    a: HandlerView,
    b: HandlerView,
    event: HandlerEvent<HandlerId>,
) -> bool {
    &&& b.events.len() == a.events.len() + 1
    &&& forall|i: int| 0 <= i < a.events.len() ==> #[trigger] b.events[i] == a.events[i]
    &&& b.events[a.events.len() as int] == event
}

// Turns

/// A queue that enumerates a table holds each of its substreams, and no others, at one place
/// each.
pub proof fn law_enumeration_holds_each_once(queue: Seq<usize>, table: Set<usize>, id: usize)
    requires
        enumerates(queue, table),
    ensures
        table.contains(id) <==> (exists|i: int| 0 <= i < queue.len() && queue[i] == id),
        forall|i: int, j: int|
            0 <= i < queue.len() && 0 <= j < queue.len() && i != j ==> queue[i] != queue[j],
{
    if table.contains(id) {
        assert(queue.to_set().contains(id));
        let i = queue.index_of(id);
        assert(queue[i] == id);
    }
    if exists|i: int| 0 <= i < queue.len() && queue[i] == id {
        assert(queue.contains(id));
        assert(queue.to_set().contains(id));
    }
}

/// After the timers, every inbound substream gets its turn, and after those every outbound one.
pub proof fn law_every_substream_gets_a_turn(handler: HandlerView, order: Seq<usize>)
    ensures
        handler.outbound_timer_answered(TimerTick::Idle, order) == (
            handler,
            (None::<TimerChange>, (NextView::VisitInbound { queue: order })),
        ),
        handler.inbound_visited(Seq::empty(), order) == (
            handler,
            (None::<TimerChange>, (NextView::VisitOutbound { queue: order })),
        ),
{
}

/// What is left of a queue once its last substream has had its turn: all the others, in their
/// places.
pub open spec fn turn_over(queue: Seq<usize>, left: Seq<usize>) -> bool {
    &&& left.len() == queue.len() - 1
    &&& forall|i: int| 0 <= i < left.len() ==> #[trigger] left[i] == queue[i]
}

/// Whether a poll goes on with the inbound substreams: with the last one of a queue, or with
/// exactly the others.
pub open spec fn inbound_turn(queue: Seq<usize>, next: NextView) -> bool {
    match next {
        NextView::StartSend { queue: same, .. } => same == queue,
        NextView::PollSend { queue: same } => same == queue,
        NextView::CloseInbound { queue: same } => same == queue,
        NextView::VisitInbound { queue: left } => turn_over(queue, left),
        _ => false,
    }
}

/// A poll never leaves an inbound substream out: whatever came of the one whose turn it is, the
/// poll goes on with it or with exactly the others. One that has nothing new stays as it is.
pub proof fn law_inbound_substreams_take_turns(
    handler: HandlerView,
    queue: Seq<usize>,
    order: Seq<usize>,
    send: SendProgress,
    close: CloseProgress,
)
    requires
        queue.len() > 0,
    ensures
        inbound_turn(queue, handler.inbound_visited(queue, order).1.1),
        inbound_turn(queue, handler.send_answered(queue, send).1.1),
        inbound_turn(queue, handler.inbound_close_answered(queue, close).1.1),
        send is Pending ==> {
            &&& handler.send_answered(queue, send).0 == handler
            &&& handler.send_answered(queue, send).1.0 is None
            &&& handler.send_answered(queue, send).1.1 matches NextView::VisitInbound { queue: left }
            &&& turn_over(queue, left)
        },
        close is Pending ==> {
            &&& handler.inbound_close_answered(queue, close).0 == handler
            &&& handler.inbound_close_answered(queue, close).1.0 is None
            &&& handler.inbound_close_answered(queue, close).1.1 matches NextView::VisitInbound {
                queue: left,
            }
            &&& turn_over(queue, left)
        },
{
}

/// Whether a poll goes on with the outbound substreams: with the last one of a queue, or with
/// exactly the others.
pub open spec fn outbound_turn(queue: Seq<usize>, next: NextView) -> bool {
    match next {
        NextView::NextResponse { queue: same } => same == queue,
        NextView::CloseOutbound { queue: same } => same == queue,
        NextView::VisitOutbound { queue: left } => turn_over(queue, left),
        _ => false,
    }
}

/// A poll never leaves an outbound substream out: unless there is something to report, it goes
/// on with the one whose turn it is or with exactly the others. One that has nothing new stays
/// as it is.
pub proof fn law_outbound_substreams_take_turns(
    handler: HandlerView,
    queue: Seq<usize>,
    response: ResponseProgress,
    closed: bool,
)
    requires
        queue.len() > 0,
    ensures
        outbound_turn(queue, handler.outbound_visited(queue).1.1),
        outbound_turn(queue, handler.outbound_close_answered(queue, closed).1.1),
        response is Pending ==> {
            &&& handler.response_answered(queue, response).0 == handler
            &&& handler.response_answered(queue, response).1.0 is None
            &&& handler.response_answered(queue, response).1.1 matches NextView::VisitOutbound {
                queue: left,
            }
            &&& turn_over(queue, left)
        },
        !(response is Pending) ==> handler.response_answered(queue, response).1.1 matches
            NextView::Ready(HandlerOutput::Event(_)),
        !closed ==> handler.outbound_close_answered(queue, closed).0 == handler,
{
}

/// Whether one step of a poll over the outbound substreams leads to another.
pub open spec fn outbound_leads_to(
    a: (HandlerView, NextView),
    b: (HandlerView, NextView),
) -> bool {
    match a.1 {
        NextView::VisitOutbound { queue } => {
            let after = a.0.outbound_visited(queue);
            b == (after.0, after.1.1)
        },
        NextView::NextResponse { queue } => exists|progress: ResponseProgress|
            {
                let after = #[trigger] a.0.response_answered(queue, progress);
                b == (after.0, after.1.1)
            },
        NextView::CloseOutbound { queue } => exists|closed: bool|
            {
                let after = #[trigger] a.0.outbound_close_answered(queue, closed);
                b == (after.0, after.1.1)
            },
        _ => false,
    }
}

/// Whether some steps of a poll over the outbound substreams lead from each to the next.
pub open spec fn outbound_run(run: Seq<(HandlerView, NextView)>) -> bool {
    forall|k: int|
        #![trigger run[k]]
        0 <= k < run.len() - 1 ==> outbound_leads_to(run[k], run[k + 1])
}

/// Whether a substream was asked for a response in the course of some steps.
pub open spec fn asked(run: Seq<(HandlerView, NextView)>, id: usize) -> bool {
    exists|k: int|
        #![trigger run[k]]
        0 <= k < run.len() && (run[k].1 matches NextView::NextResponse { queue } && queue.len() > 0
            && queue.last() == id)
}

/// The queue that a step over the outbound substreams is about.
pub open spec fn outbound_queue(next: NextView) -> Seq<usize> {
    match next {
        NextView::VisitOutbound { queue } => queue,
        NextView::NextResponse { queue } => queue,
        NextView::CloseOutbound { queue } => queue,
        _ => Seq::empty(),
    }
}

/// Where a poll over the outbound substreams ends without a report, it has asked every
/// substream of its queue that awaits a response.
proof fn lemma_all_are_asked(run: Seq<(HandlerView, NextView)>, id: usize)
    requires
        outbound_run(run),
        run.len() > 0,
        !(run[0].0.state is Deactivated),
        outbound_queue(run[0].1).no_duplicates(),
        outbound_queue(run[0].1).contains(id),
        run[0].0.outbound.dom().contains(id),
        run[0].0.outbound[id].state is RequestPendingResponse,
        run[0].1 matches NextView::CloseOutbound { queue } ==> queue.last() != id,
        !(run.last().1 matches NextView::Ready(HandlerOutput::Event(_))),
        run.last().1 is Ready,
    ensures
        asked(run, id),
    decreases run.len(),
{
    let (handler, next) = run[0];
    let queue = outbound_queue(next);
    let place = queue.index_of(id);
    assert(queue.len() > 0);
    if next is NextResponse && queue.last() == id {
        assert(run[0].1 matches NextView::NextResponse { queue } && queue.last() == id);
    } else {
        assert(run.len() > 1);
        let rest = run.skip(1);
        assert(outbound_leads_to(run[0], run[1]));
        assert(rest[0] == run[1]);
        assert(rest.last() == run.last());
        assert forall|k: int| #![trigger rest[k]] 0 <= k < rest.len() - 1 implies outbound_leads_to(
            rest[k],
            rest[k + 1],
        ) by {
            assert(outbound_leads_to(run[k + 1], run[k + 2]));
        }
        let left = queue.drop_last();
        if queue.last() != id {
            assert(left[place] == id);
            assert(left.contains(id));
        }
        if next is NextResponse {
            let progress = choose|progress: ResponseProgress|
                {
                    let after = #[trigger] handler.response_answered(queue, progress);
                    run[1] == (after.0, after.1.1)
                };
            if !(progress is Pending) {
                assert(run[1].1 matches NextView::Ready(HandlerOutput::Event(_)));
                if run.len() > 2 {
                    assert(outbound_leads_to(run[1], run[2]));
                }
                assert(false);
            }
        }
        lemma_all_are_asked(rest, id);
        let k = choose|k: int|
            #![trigger rest[k]]
            0 <= k < rest.len() && (rest[k].1 matches NextView::NextResponse { queue }
                && queue.len() > 0 && queue.last() == id);
        assert(run[k + 1] == rest[k]);
    }
}

/// A poll that comes to nothing, or to a new substream, has asked every outbound substream that
/// awaits a response whether it has arrived.
pub proof fn law_every_awaited_response_is_asked_for(
    run: Seq<(HandlerView, NextView)>,
    order: Seq<usize>,
    id: usize,
)
    requires
        outbound_run(run),
        run.len() > 0,
        run[0].1 == (NextView::VisitOutbound { queue: order }),
        enumerates(order, run[0].0.outbound.dom()),
        !(run[0].0.state is Deactivated),
        run[0].0.outbound.dom().contains(id),
        run[0].0.outbound[id].state is RequestPendingResponse,
        ({
            ||| run.last().1 matches NextView::Ready(HandlerOutput::Pending)
            ||| run.last().1 matches NextView::Ready(HandlerOutput::OutboundSubstreamRequest { .. })
        }),
    ensures
        asked(run, id),
{
    assert(order.to_set().contains(id));
    lemma_all_are_asked(run, id);
}

/// Whether one step of a poll over the inbound substreams leads to another. The outbound
/// substreams' turn may come in any order.
pub open spec fn inbound_leads_to(a: (HandlerView, NextView), b: (HandlerView, NextView)) -> bool {
    match a.1 {
        NextView::VisitInbound { queue } => exists|order: Seq<usize>|
            {
                let after = #[trigger] a.0.inbound_visited(queue, order);
                b == (after.0, after.1.1)
            },
        NextView::StartSend { queue, .. } | NextView::PollSend { queue } => exists|
            progress: SendProgress,
        |
            {
                let after = #[trigger] a.0.send_answered(queue, progress);
                b == (after.0, after.1.1)
            },
        NextView::CloseInbound { queue } => exists|progress: CloseProgress|
            {
                let after = #[trigger] a.0.inbound_close_answered(queue, progress);
                b == (after.0, after.1.1)
            },
        _ => false,
    }
}

/// Whether some steps of a poll over the inbound substreams lead from each to the next.
pub open spec fn inbound_run(run: Seq<(HandlerView, NextView)>) -> bool {
    forall|k: int|
        #![trigger run[k]]
        0 <= k < run.len() - 1 ==> inbound_leads_to(run[k], run[k + 1])
}

/// Whether sending a response over a substream was started in the course of some steps.
pub open spec fn started(
    run: Seq<(HandlerView, NextView)>,
    id: usize,
    response: RPCCodedResponse,
) -> bool {
    exists|k: int|
        #![trigger run[k]]
        0 <= k < run.len() && (run[k].1 matches NextView::StartSend { queue, message, .. }
            && queue.len() > 0 && queue.last() == id && message == response)
}

/// The queue that a step over the inbound substreams is about.
pub open spec fn inbound_queue(next: NextView) -> Seq<usize> {
    match next {
        NextView::VisitInbound { queue } => queue,
        NextView::StartSend { queue, .. } => queue,
        NextView::PollSend { queue } => queue,
        NextView::CloseInbound { queue } => queue,
        _ => Seq::empty(),
    }
}

/// Where a poll has gone over its inbound substreams, it has started to send what waited on
/// an idle one of them.
proof fn lemma_waiting_are_started(run: Seq<(HandlerView, NextView)>, id: usize)
    requires
        inbound_run(run),
        run.len() > 0,
        !(run[0].0.state is Deactivated),
        inbound_queue(run[0].1).no_duplicates(),
        inbound_queue(run[0].1).contains(id),
        run[0].1 is VisitInbound || inbound_queue(run[0].1).last() != id,
        run[0].0.inbound.dom().contains(id),
        run[0].0.inbound[id].state is Idle,
        run[0].0.inbound[id].pending_items.len() > 0,
        run.last().1 is VisitOutbound,
    ensures
        started(run, id, run[0].0.inbound[id].pending_items[0]),
    decreases run.len(),
{
    let (handler, next) = run[0];
    let queue = inbound_queue(next);
    let place = queue.index_of(id);
    let response = handler.inbound[id].pending_items[0];
    assert(queue.len() > 0);
    assert(run.len() > 1);
    assert(inbound_leads_to(run[0], run[1]));
    if queue.last() == id {
        assert(run[1].1 matches NextView::StartSend { queue, message, .. } && queue.len() > 0
            && queue.last() == id && message == response);
    } else {
        let rest = run.skip(1);
        assert(rest[0] == run[1]);
        assert(rest.last() == run.last());
        assert forall|k: int| #![trigger rest[k]] 0 <= k < rest.len() - 1 implies inbound_leads_to(
            rest[k],
            rest[k + 1],
        ) by {
            assert(inbound_leads_to(run[k + 1], run[k + 2]));
        }
        let left = queue.drop_last();
        assert(left[place] == id);
        assert(left.contains(id));
        lemma_waiting_are_started(rest, id);
        let k = choose|k: int|
            #![trigger rest[k]]
            0 <= k < rest.len() && (rest[k].1 matches NextView::StartSend { queue, message, .. }
                && queue.len() > 0 && queue.last() == id && message == response);
        assert(run[k + 1] == rest[k]);
    }
}

/// A poll that gets as far as the outbound substreams has started to send the oldest response
/// that waits on each inbound substream with none on its way.
pub proof fn law_every_waiting_response_is_sent(
    run: Seq<(HandlerView, NextView)>,
    order: Seq<usize>,
    id: usize,
)
    requires
        inbound_run(run),
        run.len() > 0,
        run[0].1 == (NextView::VisitInbound { queue: order }),
        enumerates(order, run[0].0.inbound.dom()),
        !(run[0].0.state is Deactivated),
        run[0].0.inbound.dom().contains(id),
        run[0].0.inbound[id].state is Idle,
        run[0].0.inbound[id].pending_items.len() > 0,
        run.last().1 is VisitOutbound,
    ensures
        started(run, id, run[0].0.inbound[id].pending_items[0]),
{
    assert(order.to_set().contains(id));
    lemma_waiting_are_started(run, id);
}

// Requests of this node

/// Whether two states differ in the requests without a substream, and the events, at most.
pub open spec fn dials_and_events_only(a: HandlerView, b: HandlerView) -> bool {
    &&& a.negotiated == b.negotiated
    &&& a.max_negotiated == b.max_negotiated
    &&& a.inbound == b.inbound
    &&& a.outbound == b.outbound
    &&& a.next_inbound == b.next_inbound
    &&& a.next_outbound == b.next_outbound
    &&& a.state == b.state
    &&& a.io_retries == b.io_retries
}

/// A request that an active handler is given waits behind all others; any other handler
/// reports that it failed. Nothing else changes.
pub proof fn law_request_waits_or_fails(handler: HandlerView, id: HandlerId, req: OutboundRequest)
    ensures
        ({
            let after = handler.request_sent(id, req);
            &&& dials_and_events_only(handler, after)
            &&& handler.state is Active ==> {
                &&& after.events == handler.events
                &&& after.dials.len() == handler.dials.len() + 1
                &&& after.dials.last() == (id, req)
                &&& forall|i: int|
                    0 <= i < handler.dials.len() ==> #[trigger] after.dials[i] == handler.dials[i]
            }
            &&& !(handler.state is Active) ==> {
                &&& after.dials == handler.dials
                &&& one_more_event(handler, after, failure("handler error"))
            }
        }),
{
}

/// Requests get their substreams in the order in which they were sent: one that is sent later
/// changes nothing in which request gets its substream now.
pub proof fn law_requests_are_dialed_in_order(
    handler: HandlerView,
    id: HandlerId,
    req: OutboundRequest,
)
    requires
        handler.dials.len() > 0,
        handler.negotiated < handler.max_negotiated,
    ensures
        handler.poll_ended().1 == handler.request_sent(id, req).poll_ended().1,
        handler.poll_ended().0.request_sent(id, req) == handler.request_sent(
            id,
            req,
        ).poll_ended().0,
{
    assert(handler.dials.push((id, req)).drop_first() =~= handler.dials.drop_first().push(
        (id, req),
    ));
}

/// A poll ends with a substream for the request that has waited longest, and counts it,
/// whenever a request waits and the limit has not been reached. Otherwise nothing changes,
/// and the connection is closed if and only if the handler is shutting down with no request,
/// substream or event left.
pub proof fn law_poll_ends(handler: HandlerView)
    ensures
        ({
            let (after, output) = handler.poll_ended();
            &&& output is OutboundSubstreamRequest <==> handler.dials.len() > 0
                && handler.negotiated < handler.max_negotiated
            &&& output matches HandlerOutput::OutboundSubstreamRequest { protocol, id } ==> {
                &&& handler.dials[0] == (id, protocol.req)
                &&& after.negotiated == handler.negotiated + 1
                &&& after.dials.len() == handler.dials.len() - 1
                &&& forall|i: int|
                    0 <= i < after.dials.len() ==> #[trigger] after.dials[i] == handler.dials[i + 1]
                &&& after.events == handler.events
                &&& after.max_negotiated == handler.max_negotiated
                &&& after.inbound == handler.inbound
                &&& after.outbound == handler.outbound
                &&& after.next_inbound == handler.next_inbound
                &&& after.next_outbound == handler.next_outbound
                &&& after.state == handler.state
                &&& after.io_retries == handler.io_retries
            }
            &&& !(output is OutboundSubstreamRequest) ==> after == handler
            &&& output is Close <==> {
                &&& handler.state is ShuttingDown
                &&& handler.dials.len() == 0
                &&& handler.events.len() == 0
                &&& handler.negotiated == 0
                &&& forall|id: usize| !(#[trigger] handler.inbound.dom().contains(id))
                &&& forall|id: usize| !(#[trigger] handler.outbound.dom().contains(id))
            }
            &&& !(output is Event)
        }),
{
    if forall|id: usize| !(#[trigger] handler.inbound.dom().contains(id)) {
        assert(handler.inbound.dom() =~= Set::empty());
    }
    if forall|id: usize| !(#[trigger] handler.outbound.dom().contains(id)) {
        assert(handler.outbound.dom() =~= Set::empty());
    }
}

/// A handler has something left to be done as long as a request, a substream or an event is.
pub proof fn law_drained_means_nothing_left(handler: HandlerView)
    ensures
        handler.drained() <==> {
            &&& handler.dials.len() == 0
            &&& handler.events.len() == 0
            &&& handler.negotiated == 0
            &&& forall|id: usize| !(#[trigger] handler.inbound.dom().contains(id))
            &&& forall|id: usize| !(#[trigger] handler.outbound.dom().contains(id))
        },
{
    if forall|id: usize| !(#[trigger] handler.inbound.dom().contains(id)) {
        assert(handler.inbound.dom() =~= Set::empty());
    }
    if forall|id: usize| !(#[trigger] handler.outbound.dom().contains(id)) {
        assert(handler.outbound.dom() =~= Set::empty());
    }
}

/// When an active handler is told to shut down, each request that waits for a substream is
/// reported to have failed, behind the events that were there, and only a goodbye is left to
/// be sent, if one was asked for. Substreams are left alone. To be told so again changes
/// nothing.
pub proof fn law_shutdown_fails_what_waits(
    handler: HandlerView,
    goodbye: Option<HandlerId>,
    again: Option<HandlerId>,
)
    ensures
        ({
            let after = handler.shut_down(goodbye);
            &&& !(handler.state is Active) ==> after == handler
            &&& handler.state is Active ==> {
                &&& after.state is ShuttingDown
                &&& after.events.len() == handler.events.len() + handler.dials.len()
                &&& forall|i: int|
                    0 <= i < handler.events.len() ==> #[trigger] after.events[i]
                        == handler.events[i]
                &&& forall|i: int|
                    handler.events.len() <= i < after.events.len() ==> #[trigger] after.events[i]
                        == failure("handler error")
                &&& goodbye is None ==> after.dials.len() == 0
                &&& goodbye matches Some(id) ==> {
                    &&& after.dials.len() == 1
                    &&& after.dials[0].0 == id
                    &&& after.dials[0].1 == OutboundRequest::Goodbye(1)
                }
                &&& after.negotiated == handler.negotiated
                &&& after.max_negotiated == handler.max_negotiated
                &&& after.inbound == handler.inbound
                &&& after.outbound == handler.outbound
                &&& after.next_inbound == handler.next_inbound
                &&& after.next_outbound == handler.next_outbound
                &&& after.io_retries == handler.io_retries
            }
            &&& after.shut_down(again) == after
        }),
{
}

/// A negotiated substream is no longer counted. Unless its request is a goodbye it is kept
/// under a number that no other substream has, awaiting the response to that request. A
/// deactivated handler reports that it is.
pub proof fn law_negotiated_substream_is_kept(
    handler: HandlerView,
    id: HandlerId,
    request: OutboundRequest,
)
    requires
        handler.wf(),
        handler.negotiated > 0,
        handler.next_outbound < usize::MAX,
    ensures
        ({
            let (after, kept) = handler.outbound_negotiated(id, request);
            &&& after.negotiated == handler.negotiated - 1
            &&& kept is None <==> request is Goodbye
            &&& kept is None ==> {
                &&& after.outbound == handler.outbound
                &&& after.next_outbound == handler.next_outbound
            }
            &&& kept matches Some(number) ==> {
                &&& !handler.outbound.dom().contains(number.0)
                &&& after.outbound.dom().contains(number.0)
                &&& after.outbound[number.0].state
                    == (OutboundSubstreamState::RequestPendingResponse { request })
                &&& after.outbound[number.0].req_id == id
                &&& after.outbound[number.0].proto == outbound_protocol(request)
                &&& after.outbound[number.0].remaining_chunks is None
                &&& after.next_outbound == handler.next_outbound + 1
                &&& forall|other: usize|
                    other != number.0 ==> #[trigger] same_outbound(handler, after, other)
            }
            &&& handler.state is Deactivated ==> one_more_event(
                handler,
                after,
                failure("HandlerState::Deactivated"),
            )
            &&& !(handler.state is Deactivated) ==> after.events == handler.events
            &&& after.dials == handler.dials
            &&& after.max_negotiated == handler.max_negotiated
            &&& after.inbound == handler.inbound
            &&& after.next_inbound == handler.next_inbound
            &&& after.state == handler.state
            &&& after.io_retries == handler.io_retries
        }),
{
    assert(!handler.outbound.dom().contains(handler.next_outbound));
}

/// A request whose substream cannot be negotiated is given up at once, unless sending it was
/// what failed. It then is no longer counted, its failure is reported, and failures are
/// counted anew. Substreams are left alone in any case.
pub proof fn law_failed_negotiation_is_reported(
    handler: HandlerView,
    id: HandlerId,
    req: OutboundRequest,
    error: DialUpgradeError,
)
    requires
        handler.wf(),
        handler.negotiated > 0,
    ensures
        ({
            let after = handler.dial_failed(id, req, error);
            &&& !(error is Apply) || handler.io_retries == 2 ==> {
                &&& after.negotiated == handler.negotiated - 1
                &&& after.io_retries == 0
                &&& after.dials == handler.dials
                &&& one_more_event(handler, after, failure("Dial upgrade error"))
            }
            &&& error is Apply && handler.io_retries < 2 ==> {
                &&& after.negotiated == handler.negotiated
                &&& after.io_retries == handler.io_retries + 1
                &&& handler.state is Active ==> {
                    &&& after.dials.len() == handler.dials.len() + 1
                    &&& after.dials.last() == (id, req)
                    &&& after.events == handler.events
                }
                &&& !(handler.state is Active) ==> {
                    &&& after.dials == handler.dials
                    &&& one_more_event(handler, after, failure("handler error"))
                }
            }
            &&& handler.tries_again(error) <==> after.negotiated == handler.negotiated
            &&& after.max_negotiated == handler.max_negotiated
            &&& after.inbound == handler.inbound
            &&& after.outbound == handler.outbound
            &&& after.next_inbound == handler.next_inbound
            &&& after.next_outbound == handler.next_outbound
            &&& after.state == handler.state
        }),
{
}

// Requests of the peer

/// A request of the peer is taken by an active handler only, and then reported under a number
/// that no other request has. One that is owed a response is kept under that number, with
/// nothing sent yet and a timer running. A goodbye is owed none and shuts the handler down.
pub proof fn law_peers_request_is_kept(handler: HandlerView, req: InboundRequest, now: u64)
    requires
        handler.wf(),
        handler.next_inbound < usize::MAX,
    ensures
        ({
            let (after, kept) = handler.inbound_negotiated(req, now);
            &&& handler.takes(req) <==> handler.state is Active && (req is Goodbye
                || handler.inbound.dom().len() < 32)
            &&& !(handler.state is Active) ==> after == handler && kept is None
            &&& kept is Some <==> handler.takes(req) && !(req is Goodbye)
            &&& handler.takes(req) ==> {
                &&& after.next_inbound == handler.next_inbound + 1
                &&& after.events.last() == Ok::<RPCReceived<HandlerId>, &'static str>(
                    RPCReceived::Request(SubstreamId(handler.next_inbound), req),
                )
            }
            &&& !handler.takes(req) ==> after.next_inbound == handler.next_inbound
            &&& kept is None ==> after.inbound == handler.inbound
            &&& kept matches Some(number) ==> {
                &&& number.0 == handler.next_inbound
                &&& !handler.inbound.dom().contains(number.0)
                &&& after.inbound.dom().contains(number.0)
                &&& after.inbound[number.0].state is Idle
                &&& after.inbound[number.0].pending_items.len() == 0
                &&& after.inbound[number.0].protocol == inbound_protocol(req)
                &&& after.inbound[number.0].remaining_chunks == 1
                &&& after.inbound[number.0].request_start_time == now
                &&& after.inbound[number.0].timed
                &&& forall|other: usize|
                    other != number.0 ==> #[trigger] same_inbound(handler, after, other)
                &&& after.events.len() == handler.events.len() + 1
                &&& after.dials == handler.dials
                &&& after.state == handler.state
            }
            &&& handler.state is Active && kept is None ==> {
                &&& after.state is ShuttingDown
                &&& after.dials.len() == 0
                &&& after.events.len() == handler.events.len() + handler.dials.len() + 1
            }
            &&& forall|i: int|
                0 <= i < handler.events.len() ==> #[trigger] after.events[i] == handler.events[i]
            &&& after.negotiated == handler.negotiated
            &&& after.max_negotiated == handler.max_negotiated
            &&& after.outbound == handler.outbound
            &&& after.next_outbound == handler.next_outbound
            &&& after.io_retries == handler.io_retries
        }),
{
    assert(!handler.inbound.dom().contains(handler.next_inbound));
}

/// A response waits on the substream that its request came by, behind those that wait there
/// already, and on no other. None waits on a substream that is gone, nor once the handler is
/// deactivated. That it is a failure is reported as long as the substream is there.
pub proof fn law_response_waits_on_its_substream(
    handler: HandlerView,
    id: SubstreamId,
    response: RPCCodedResponse,
)
    ensures
        ({
            let after = handler.response_sent(id, response);
            &&& inbound_and_events_only(handler, after)
            &&& forall|other: usize|
                other != id.0 ==> #[trigger] same_inbound(handler, after, other)
            &&& !handler.inbound.dom().contains(id.0) ==> after == handler
            &&& handler.inbound.dom().contains(id.0) ==> {
                let before = handler.inbound[id.0];
                let entry = after.inbound[id.0];
                &&& after.inbound.dom().contains(id.0)
                &&& entry.state == before.state
                &&& entry.protocol == before.protocol
                &&& entry.remaining_chunks == before.remaining_chunks
                &&& entry.request_start_time == before.request_start_time
                &&& entry.timed == before.timed
                &&& handler.state is Deactivated ==> entry.pending_items == before.pending_items
                &&& !(handler.state is Deactivated) ==> {
                    &&& entry.pending_items.len() == before.pending_items.len() + 1
                    &&& entry.pending_items.last() == response
                    &&& forall|i: int|
                        0 <= i < before.pending_items.len() ==> #[trigger] entry.pending_items[i]
                            == before.pending_items[i]
                }
                &&& response is Error ==> one_more_event(handler, after, failure("handler error"))
                &&& response is Success ==> after.events == handler.events
            }
        }),
{
}

// Timers

/// A poll reports the oldest event first, and then does nothing else. With no event it looks
/// at the timers, at the one for shutting down only while that goes on.
pub proof fn law_poll_starts(handler: HandlerView)
    ensures
        ({
            let (after, (timer, next)) = handler.poll_started();
            &&& timer is None
            &&& dials_and_events_only(handler, after)
            &&& after.dials == handler.dials
            &&& handler.events.len() > 0 ==> {
                &&& next == NextView::Ready(HandlerOutput::Event(handler.events[0]))
                &&& after.events.len() == handler.events.len() - 1
                &&& forall|i: int|
                    0 <= i < after.events.len() ==> #[trigger] after.events[i]
                        == handler.events[i + 1]
            }
            &&& handler.events.len() == 0 ==> {
                &&& after.events == handler.events
                &&& next is ShutdownTimer <==> handler.state is ShuttingDown
                &&& next is InboundTimers <==> !(handler.state is ShuttingDown)
            }
        }),
{
}

/// A handler is deactivated, and closes the connection, when the time to shut down has run
/// out and no sooner.
pub proof fn law_time_to_shut_down(handler: HandlerView, elapsed: bool)
    ensures
        ({
            let (after, (timer, next)) = handler.shutdown_timer_answered(elapsed);
            &&& timer is None
            &&& dials_and_events_only(
                handler,
                HandlerView { state: handler.state, ..after },
            )
            &&& after.dials == handler.dials
            &&& after.events == handler.events
            &&& elapsed ==> after.state is Deactivated && (next matches NextView::Ready(output)
                && output is Close)
            &&& !elapsed ==> after.state == handler.state && next is InboundTimers
        }),
{
}

/// When the time for a response has run out, that is reported once, and the substream is kept,
/// without a timer, with what waits on it. If the last that waits there would not end it, a
/// failure that does waits behind it. Then the other timers are looked at. A timer of no
/// substream changes nothing.
pub proof fn law_inbound_timeout(handler: HandlerView, tick: TimerTick)
    ensures
        ({
            let (after, (timer, next)) = handler.inbound_timer_answered(tick);
            &&& timer is None
            &&& inbound_and_events_only(handler, after)
            &&& tick is Idle ==> after == handler && next is OutboundTimers
            &&& tick is Failed ==> after == handler && (next matches NextView::Ready(output)
                && output is Close)
            &&& tick matches TimerTick::Expired(id) ==> {
                &&& next is InboundTimers
                &&& forall|other: usize|
                    other != id.0 ==> #[trigger] same_inbound(handler, after, other)
                &&& !handler.inbound.dom().contains(id.0) ==> after == handler
                &&& handler.inbound.dom().contains(id.0) ==> {
                    let before = handler.inbound[id.0];
                    let entry = after.inbound[id.0];
                    &&& one_more_event(handler, after, failure("Stream Timeout"))
                    &&& after.inbound.dom().contains(id.0)
                    &&& !entry.timed
                    &&& entry.state == before.state
                    &&& entry.protocol == before.protocol
                    &&& entry.remaining_chunks == before.remaining_chunks
                    &&& entry.request_start_time == before.request_start_time
                    &&& forall|i: int|
                        0 <= i < before.pending_items.len() ==> #[trigger] entry.pending_items[i]
                            == before.pending_items[i]
                    &&& before.pending_items.len() > 0 ==> entry.pending_items.last() is Error
                    &&& before.pending_items.len() == 0 || before.pending_items.last() is Error
                        ==> entry.pending_items.len() == before.pending_items.len()
                    &&& entry.pending_items.len() <= before.pending_items.len() + 1
                }
            }
        }),
{
}

/// When the time for a response of the peer has run out, its substream is gone, every other
/// is kept, and the poll ends with a report of that. A timer of no substream changes nothing.
pub proof fn law_outbound_timeout(handler: HandlerView, tick: TimerTick, order: Seq<usize>)
    ensures
        ({
            let (after, (timer, next)) = handler.outbound_timer_answered(tick, order);
            &&& timer is None
            &&& outbound_and_events_only(handler, after)
            &&& after.events == handler.events
            &&& tick is Idle ==> after == handler && next == (NextView::VisitInbound {
                queue: order,
            })
            &&& tick is Failed ==> after == handler && (next matches NextView::Ready(output)
                && output is Close)
            &&& tick matches TimerTick::Expired(id) ==> {
                &&& !after.outbound.dom().contains(id.0)
                &&& forall|other: usize|
                    other != id.0 ==> #[trigger] same_outbound(handler, after, other)
                &&& handler.outbound.dom().contains(id.0) ==> next == NextView::Ready(
                    HandlerOutput::Event(failure("Stream Timeout")),
                )
                &&& !handler.outbound.dom().contains(id.0) ==> after == handler
                    && next is OutboundTimers
            }
        }),
{
}

// Inbound substreams

/// What becomes of an inbound substream on its turn: one with a response on its way is seen to;
/// any other is closed once the handler is deactivated, and before that sends the oldest of what
/// waits on it, if anything does. Events and all other substreams stay.
pub proof fn law_inbound_turn(handler: HandlerView, queue: Seq<usize>, order: Seq<usize>)
    requires
        queue.len() > 0,
        handler.inbound.dom().contains(queue.last()),
    ensures
        ({
            let (after, (timer, next)) = handler.inbound_visited(queue, order);
            let before = handler.inbound[queue.last()];
            let entry = after.inbound[queue.last()];
            &&& timer is None
            &&& inbound_and_events_only(handler, after)
            &&& after.events == handler.events
            &&& forall|other: usize|
                other != queue.last() ==> #[trigger] same_inbound(handler, after, other)
            &&& after.inbound.dom().contains(queue.last())
            &&& next is PollSend <==> before.state is Busy
            &&& next is CloseInbound <==> before.state is Idle && handler.state is Deactivated
            &&& next is VisitInbound <==> before.state is Idle && !(handler.state is Deactivated)
                && before.pending_items.len() == 0
            &&& !(next is StartSend) ==> after == handler
            &&& next is StartSend <==> before.state is Idle && !(handler.state is Deactivated)
                && before.pending_items.len() > 0
            &&& next matches NextView::StartSend { message, last_chunk, .. } ==> {
                &&& message == before.pending_items[0]
                &&& last_chunk == (before.remaining_chunks <= 1)
                &&& entry.state is Busy
                &&& taken_first(before.pending_items, entry.pending_items)
                &&& entry.protocol == before.protocol
                &&& entry.remaining_chunks == before.remaining_chunks
                &&& entry.request_start_time == before.request_start_time
                &&& entry.timed == before.timed
            }
        }),
{
}

/// Whether the first of some responses was taken, and the others stay in their order.
pub open spec fn taken_first(before: Seq<RPCCodedResponse>, after: Seq<RPCCodedResponse>) -> bool {
    &&& after.len() == before.len() - 1
    &&& forall|i: int| 0 <= i < after.len() ==> #[trigger] after[i] == before[i + 1]
}

/// What comes of sending a response. Once it is sent, one fewer is owed and the substream's
/// timer runs anew; the next that waits is sent, unless the handler is deactivated, and
/// without one the substream is idle. A substream that was closed behind its response, or
/// that failed, is gone with its timer, and only the failure is reported. Every other
/// substream stays as it is.
pub proof fn law_sending(handler: HandlerView, queue: Seq<usize>, progress: SendProgress)
    requires
        queue.len() > 0,
        handler.inbound.dom().contains(queue.last()),
    ensures
        ({
            let (after, (timer, next)) = handler.send_answered(queue, progress);
            let id = SubstreamId(queue.last());
            let before = handler.inbound[id.0];
            let entry = after.inbound[id.0];
            &&& inbound_and_events_only(handler, after)
            &&& forall|other: usize|
                other != id.0 ==> #[trigger] same_inbound(handler, after, other)
            &&& progress is Pending ==> after == handler && timer is None && next is VisitInbound
            &&& progress is Failed ==> one_more_event(handler, after, failure("Response error"))
            &&& !(progress is Failed) ==> after.events == handler.events
            &&& progress is Failed || progress == (SendProgress::Sent { closed: true }) ==> {
                &&& !after.inbound.dom().contains(id.0)
                &&& next is VisitInbound
                &&& before.timed ==> timer == Some(TimerChange::RemoveInbound(id))
                &&& !before.timed ==> timer is None
            }
            &&& progress == (SendProgress::Sent { closed: false }) ==> {
                &&& after.inbound.dom().contains(id.0)
                &&& before.timed ==> timer == Some(TimerChange::ResetInbound(id))
                &&& !before.timed ==> timer is None
                &&& before.remaining_chunks > 0 ==> entry.remaining_chunks
                    == before.remaining_chunks - 1
                &&& before.remaining_chunks == 0 ==> entry.remaining_chunks == 0
                &&& entry.protocol == before.protocol
                &&& entry.request_start_time == before.request_start_time
                &&& entry.timed == before.timed
                &&& next is StartSend <==> !(handler.state is Deactivated)
                    && before.pending_items.len() > 0
                &&& next is VisitInbound || next is StartSend
                &&& next is VisitInbound ==> {
                    &&& entry.state is Idle
                    &&& entry.pending_items == before.pending_items
                }
                &&& next matches NextView::StartSend { message, last_chunk, .. } ==> {
                    &&& message == before.pending_items[0]
                    &&& last_chunk == (entry.remaining_chunks <= 1)
                    &&& entry.state is Busy
                    &&& taken_first(before.pending_items, entry.pending_items)
                }
            }
        }),
{
}

/// What comes of closing an inbound substream. Once it is closed it is gone with its timer.
/// That closing it went wrong is reported, and behind that, if responses wait on it and the
/// last of them would not have ended it, that the request was cancelled. Every other
/// substream stays as it is.
pub proof fn law_closing_inbound(handler: HandlerView, queue: Seq<usize>, progress: CloseProgress)
    requires
        queue.len() > 0,
        handler.inbound.dom().contains(queue.last()),
    ensures
        ({
            let (after, (timer, next)) = handler.inbound_close_answered(queue, progress);
            let id = SubstreamId(queue.last());
            let before = handler.inbound[id.0];
            let cancelled = before.pending_items.len() > 0 && before.pending_items.last()
                is Success;
            &&& inbound_and_events_only(handler, after)
            &&& next is VisitInbound
            &&& forall|other: usize|
                other != id.0 ==> #[trigger] same_inbound(handler, after, other)
            &&& forall|i: int|
                0 <= i < handler.events.len() ==> #[trigger] after.events[i] == handler.events[i]
            &&& progress is Pending ==> after == handler && timer is None
            &&& progress matches CloseProgress::Closed(result) ==> {
                &&& !after.inbound.dom().contains(id.0)
                &&& before.timed ==> timer == Some(TimerChange::RemoveInbound(id))
                &&& !before.timed ==> timer is None
                &&& after.events.len() == handler.events.len() + (if result is Err {
                    1int
                } else {
                    0
                }) + (if cancelled {
                    1int
                } else {
                    0
                })
                &&& result is Err ==> after.events[handler.events.len() as int] == failure(
                    "Error shutting down the substream",
                )
                &&& cancelled ==> after.events.last() == failure("Cancel Request")
            }
        }),
{
}

// Outbound substreams

/// What becomes of an outbound substream on its turn: one that is closing is closed further,
/// any other is asked for its response. Once the handler is deactivated it is set to be closed
/// instead, and that is reported. All other substreams stay.
pub proof fn law_outbound_turn(handler: HandlerView, queue: Seq<usize>)
    requires
        queue.len() > 0,
        handler.outbound.dom().contains(queue.last()),
    ensures
        ({
            let (after, (timer, next)) = handler.outbound_visited(queue);
            let before = handler.outbound[queue.last()];
            let entry = after.outbound[queue.last()];
            &&& timer is None
            &&& outbound_and_events_only(handler, after)
            &&& forall|other: usize|
                other != queue.last() ==> #[trigger] same_outbound(handler, after, other)
            &&& after.outbound.dom().contains(queue.last())
            &&& next is CloseOutbound <==> before.state is Closing
            &&& next is VisitOutbound <==> !(before.state is Closing) && handler.state
                is Deactivated
            &&& next is NextResponse <==> !(before.state is Closing) && !(handler.state
                is Deactivated)
            &&& !(next is VisitOutbound) ==> after == handler
            &&& next is VisitOutbound ==> {
                &&& one_more_event(handler, after, failure("Handler deactivated"))
                &&& entry.state is Closing
                &&& entry.proto == before.proto
                &&& entry.remaining_chunks == before.remaining_chunks
                &&& entry.req_id == before.req_id
            }
        }),
{
}

/// What comes of waiting for a response. One that arrives is reported for the request of its
/// own substream, which is then set to be closed: a request of this domain gets one response.
/// A substream that the peer has closed, or that failed, is gone with its timer, and that is
/// reported. Every other substream stays as it is, and nothing else is left to be reported.
pub proof fn law_waiting_for_a_response(
    handler: HandlerView,
    queue: Seq<usize>,
    progress: ResponseProgress,
)
    requires
        queue.len() > 0,
        handler.outbound.dom().contains(queue.last()),
    ensures
        ({
            let (after, (timer, next)) = handler.response_answered(queue, progress);
            let id = SubstreamId(queue.last());
            let before = handler.outbound[id.0];
            let entry = after.outbound[id.0];
            &&& outbound_and_events_only(handler, after)
            &&& after.events == handler.events
            &&& forall|other: usize|
                other != id.0 ==> #[trigger] same_outbound(handler, after, other)
            &&& progress is Pending ==> after == handler && timer is None && next is VisitOutbound
            &&& progress matches ResponseProgress::Response(response) ==> {
                &&& after.outbound.dom().contains(id.0)
                &&& entry.state is Closing
                &&& entry.proto == before.proto
                &&& entry.remaining_chunks == before.remaining_chunks
                &&& entry.req_id == before.req_id
                &&& timer is None
                &&& response is Error ==> next == NextView::Ready(
                    HandlerOutput::Event(failure("RPC Error")),
                )
                &&& response matches RPCCodedResponse::Success(resp) ==> next == NextView::Ready(
                    HandlerOutput::Event(Ok(RPCReceived::Response(before.req_id, resp))),
                )
            }
            &&& progress is Ended || progress is Failed ==> {
                &&& !after.outbound.dom().contains(id.0)
                &&& timer == Some(TimerChange::RemoveOutbound(id))
            }
            &&& progress is Ended ==> next == NextView::Ready(
                HandlerOutput::Event(failure("Incomplete response")),
            )
            &&& progress is Failed ==> next == NextView::Ready(
                HandlerOutput::Event(failure("Stream dropped")),
            )
        }),
{
}

/// An outbound substream that has been closed is gone with its timer; one that has not stays.
/// Every other substream stays as it is, and nothing is reported.
pub proof fn law_closing_outbound(handler: HandlerView, queue: Seq<usize>, closed: bool)
    requires
        queue.len() > 0,
        handler.outbound.dom().contains(queue.last()),
    ensures
        ({
            let (after, (timer, next)) = handler.outbound_close_answered(queue, closed);
            let id = SubstreamId(queue.last());
            &&& outbound_and_events_only(handler, after)
            &&& after.events == handler.events
            &&& next is VisitOutbound
            &&& forall|other: usize|
                other != id.0 ==> #[trigger] same_outbound(handler, after, other)
            &&& closed ==> !after.outbound.dom().contains(id.0) && timer == Some(
                TimerChange::RemoveOutbound(id),
            )
            &&& !closed ==> after == handler && timer is None
        }),
{
}

/// A response is expected behind another one only where the request is owed more than one, the
/// count of those that are left says so, and this one is no failure. Each response that
/// arrives lowers the count by one.
pub proof fn law_responses_are_counted(info: OutboundInfo, response: RPCCodedResponse)
    ensures
        info.remaining_chunks matches Some(count) ==> (count > 0 ==> chunks_left(info) == count
            - 1),
        !(info.remaining_chunks matches Some(count) && count > 0) ==> chunks_left(info) == 0,
        more_expected(info, response) ==> response is Success && (info.remaining_chunks matches Some(
            count,
        ) && count > 1),
        info.state matches OutboundSubstreamState::RequestPendingResponse { request } ==> (
        more_expected(info, response) ==> outbound_expected(request) > 1),
{
}

// A new handler

/// A new handler is active and has nothing to do.
pub proof fn law_new_handler_has_nothing_to_do()
    ensures
        HandlerView::fresh().wf(),
        HandlerView::fresh().state is Active,
        HandlerView::fresh().events.len() == 0,
        HandlerView::fresh().dials.len() == 0,
        HandlerView::fresh().negotiated == 0,
        HandlerView::fresh().max_negotiated == 8,
        HandlerView::fresh().io_retries == 0,
        forall|id: usize|
            !(#[trigger] HandlerView::fresh().inbound.dom().contains(id))
                && !HandlerView::fresh().outbound.dom().contains(id),
        HandlerView::fresh().next_inbound == 0,
        HandlerView::fresh().next_outbound == 0,
{
}

/// What every handler keeps to: no more than 32 substreams of the peer and eight negotiations at
/// once, fewer than three failures in a row, and numbers that no later substream gets.
pub proof fn law_handler_keeps_its_limits(handler: HandlerView, id: usize)
    requires
        handler.wf(),
    ensures
        handler.inbound.dom().finite(),
        handler.outbound.dom().finite(),
        handler.inbound.dom().len() <= 32,
        handler.negotiated <= 8,
        handler.max_negotiated == 8,
        handler.io_retries < 3,
        handler.inbound.dom().contains(id) ==> id < handler.next_inbound,
        handler.outbound.dom().contains(id) ==> id < handler.next_outbound && !(
        handler.outbound[id].state is Poisoned),
{
}

/// A handler never becomes active again once it was told to shut down, stays deactivated once it
/// is, and never hands out a number twice. Its limit stays.
pub proof fn law_handler_never_goes_back(handler: HandlerView, later: HandlerView)
    requires
        handler.evolves_to(later),
    ensures
        later.state is Active ==> handler.state is Active,
        handler.state is Deactivated ==> later.state is Deactivated,
        later.next_inbound >= handler.next_inbound,
        later.next_outbound >= handler.next_outbound,
        later.max_negotiated == handler.max_negotiated,
{
}

/// A step that is about a substream is about one that is there and in the state that the step is
/// for: a response is on its way where sending goes on, none is where the substream is closed, a
/// response is awaited where one is asked for, and what is closed is set to be.
pub proof fn law_steps_are_about_their_substreams(handler: HandlerView, next: NextView, i: int)
    requires
        handler.awaits(next),
    ensures
        0 <= i < inbound_queue(next).len() ==> handler.inbound.dom().contains(
            inbound_queue(next)[i],
        ),
        0 <= i < outbound_queue(next).len() ==> handler.outbound.dom().contains(
            outbound_queue(next)[i],
        ),
        inbound_queue(next).no_duplicates(),
        outbound_queue(next).no_duplicates(),
        next is StartSend || next is PollSend ==> inbound_queue(next).len() > 0
            && handler.inbound[inbound_queue(next).last()].state is Busy,
        next is CloseInbound ==> inbound_queue(next).len() > 0
            && handler.inbound[inbound_queue(next).last()].state is Idle && handler.state
            is Deactivated,
        next is NextResponse ==> outbound_queue(next).len() > 0
            && handler.outbound[outbound_queue(next).last()].state is RequestPendingResponse && !(
        handler.state is Deactivated),
        next is CloseOutbound ==> outbound_queue(next).len() > 0
            && handler.outbound[outbound_queue(next).last()].state is Closing,
        next is ShutdownTimer ==> handler.state is ShuttingDown,
{
}

} // verus!
