use consensus_p2p::rpc::handler::{
    message_sent, substream_closed, CloseProgress, DialUpgradeError, HandlerOutput, KeepAlive,
    PollNext, PollStep, RPCHandler, ResponseProgress, SendProgress, SendStep, SubstreamId,
    TimerChange, TimerTick,
};
use consensus_p2p::rpc::methods::{Ping, RPCCodedResponse, RPCResponse, StatusMessage};
use consensus_p2p::rpc::protocol::{InboundRequest, OutboundRequest, RPCError, RPCProtocol};
use consensus_p2p::rpc::{RPCReceived, RPCSend, RequestId};

const ID: RequestId<u64> = RequestId::Application(7);

const PING: OutboundRequest = OutboundRequest::Ping(Ping { data: 1 });

fn handler() -> RPCHandler {
    RPCHandler::new(RPCProtocol {})
}

fn pong(data: u64) -> RPCCodedResponse {
    RPCCodedResponse::Success(RPCResponse::Pong(Ping { data }))
}

/// The event that a poll reports at once.
fn event(handler: &mut RPCHandler) -> Result<RPCReceived<RequestId<u64>>, &'static str> {
    match handler.poll().next {
        PollNext::Ready(HandlerOutput::Event(event)) => event,
        other => panic!("no event but {:?}", other),
    }
}

fn failure(handler: &mut RPCHandler) -> &'static str {
    event(handler).unwrap_err()
}

/// Polls past the timers, none of which has run out, to the first inbound substream.
fn visit(handler: &mut RPCHandler) -> PollStep {
    let mut step = handler.poll();
    loop {
        step = match step.next {
            PollNext::ShutdownTimer => handler.shutdown_timer_polled(false),
            PollNext::InboundTimers => handler.inbound_timer_polled(TimerTick::Idle),
            PollNext::OutboundTimers => handler.outbound_timer_polled(TimerTick::Idle),
            PollNext::VisitInbound { queue } => handler.visit_inbound(queue),
            PollNext::VisitOutbound { queue } => handler.visit_outbound(queue),
            next => {
                return PollStep {
                    timer: step.timer,
                    next,
                }
            }
        };
    }
}

/// What a poll comes to when no substream has anything new.
fn output(handler: &mut RPCHandler) -> HandlerOutput {
    let mut step = visit(handler);
    loop {
        step = match step.next {
            PollNext::Ready(output) => return output,
            PollNext::VisitInbound { queue } => handler.visit_inbound(queue),
            PollNext::PollSend { queue } => handler.send_polled(queue, SendProgress::Pending),
            PollNext::CloseInbound { queue } => {
                handler.inbound_close_polled(queue, CloseProgress::Pending)
            }
            PollNext::VisitOutbound { queue } => handler.visit_outbound(queue),
            PollNext::NextResponse { queue } => {
                handler.response_polled(queue, ResponseProgress::Pending)
            }
            PollNext::CloseOutbound { queue } => handler.outbound_close_polled(queue, false),
            other => panic!("unexpected {:?}", other),
        };
    }
}

/// Gives the handler a request that it dials for and gets a substream for.
fn open_outbound(handler: &mut RPCHandler) -> SubstreamId {
    handler.inject_event(RPCSend::Request(ID, PING));
    match output(handler) {
        HandlerOutput::OutboundSubstreamRequest { protocol, id } => {
            assert_eq!(id, ID);
            handler
                .inject_fully_negotiated_outbound(id, protocol.req)
                .unwrap()
        }
        other => panic!("unexpected {:?}", other),
    }
}

fn shut_down(handler: &mut RPCHandler) {
    handler.shutdown(None);
    while let HandlerOutput::Event(_) = output(handler) {}
}

fn deactivate(handler: &mut RPCHandler) {
    shut_down(handler);
    match handler.poll().next {
        PollNext::ShutdownTimer => {}
        other => panic!("unexpected {:?}", other),
    }
    assert!(matches!(
        handler.shutdown_timer_polled(true).next,
        PollNext::Ready(HandlerOutput::Close(RPCError::Error))
    ));
}

#[test]
fn a_new_handler_is_idle() {
    let mut handler = handler();
    assert_eq!(handler.listen_protocol(), RPCProtocol {});
    assert_eq!(handler.connection_keep_alive(), KeepAlive::Yes);
    assert!(!handler.is_shutting_down());
    assert!(matches!(output(&mut handler), HandlerOutput::Pending));
}

#[test]
fn a_request_is_answered_and_its_substream_closed() {
    let mut handler = handler();
    let id = handler
        .inject_fully_negotiated_inbound(InboundRequest::MetaData, 5)
        .unwrap();
    assert_eq!(id, SubstreamId(0));
    match event(&mut handler) {
        Ok(RPCReceived::Request(from, request)) => {
            assert_eq!(from, id);
            assert_eq!(request, InboundRequest::MetaData);
        }
        other => panic!("unexpected {:?}", other),
    }
    assert!(matches!(output(&mut handler), HandlerOutput::Pending));
    handler.inject_event(RPCSend::Response(id, pong(3)));
    let queue = match visit(&mut handler).next {
        PollNext::StartSend {
            queue,
            message,
            last_chunk,
        } => {
            assert_eq!(message, pong(3));
            assert!(last_chunk);
            queue
        }
        other => panic!("unexpected {:?}", other),
    };
    let step = handler.send_polled(queue, SendProgress::Sent { closed: true });
    assert_eq!(step.timer, Some(TimerChange::RemoveInbound(id)));
    assert!(matches!(step.next, PollNext::VisitInbound { queue } if queue.is_empty()));
    handler.inject_event(RPCSend::Response(id, pong(4)));
    assert!(matches!(output(&mut handler), HandlerOutput::Pending));
}

#[test]
fn responses_go_out_in_order() {
    let mut handler = handler();
    let id = handler
        .inject_fully_negotiated_inbound(InboundRequest::MetaData, 0)
        .unwrap();
    event(&mut handler).unwrap();
    handler.send_response(id, pong(1));
    handler.send_response(id, pong(2));
    let queue = match visit(&mut handler).next {
        PollNext::StartSend { queue, message, .. } => {
            assert_eq!(message, pong(1));
            queue
        }
        other => panic!("unexpected {:?}", other),
    };
    let step = handler.send_polled(queue, SendProgress::Sent { closed: false });
    assert_eq!(step.timer, Some(TimerChange::ResetInbound(id)));
    let queue = match step.next {
        PollNext::StartSend {
            queue,
            message,
            last_chunk,
        } => {
            assert_eq!(message, pong(2));
            assert!(last_chunk);
            queue
        }
        other => panic!("unexpected {:?}", other),
    };
    let step = handler.send_polled(queue, SendProgress::Pending);
    assert_eq!(step.timer, None);
    let queue = match visit(&mut handler).next {
        PollNext::PollSend { queue } => queue,
        other => panic!("unexpected {:?}", other),
    };
    let step = handler.send_polled(queue, SendProgress::Sent { closed: false });
    assert!(matches!(step.next, PollNext::VisitInbound { queue } if queue.is_empty()));
}

#[test]
fn failing_to_send_ends_the_substream() {
    let mut handler = handler();
    let id = handler
        .inject_fully_negotiated_inbound(InboundRequest::MetaData, 0)
        .unwrap();
    event(&mut handler).unwrap();
    handler.send_response(id, pong(1));
    let queue = match visit(&mut handler).next {
        PollNext::StartSend { queue, .. } => queue,
        other => panic!("unexpected {:?}", other),
    };
    let step = handler.send_polled(queue, SendProgress::Failed(RPCError::Error));
    assert_eq!(step.timer, Some(TimerChange::RemoveInbound(id)));
    assert_eq!(failure(&mut handler), "Response error");
    assert!(matches!(output(&mut handler), HandlerOutput::Pending));
}

#[test]
fn a_failure_is_reported_and_sent() {
    let mut handler = handler();
    let id = handler
        .inject_fully_negotiated_inbound(InboundRequest::MetaData, 0)
        .unwrap();
    event(&mut handler).unwrap();
    handler.send_response(id, RPCCodedResponse::Error);
    assert_eq!(failure(&mut handler), "handler error");
    match visit(&mut handler).next {
        PollNext::StartSend { message, .. } => assert_eq!(message, RPCCodedResponse::Error),
        other => panic!("unexpected {:?}", other),
    }
}

#[test]
fn a_response_that_takes_too_long_is_ended_by_a_failure() {
    let mut handler = handler();
    let id = handler
        .inject_fully_negotiated_inbound(InboundRequest::MetaData, 0)
        .unwrap();
    event(&mut handler).unwrap();
    handler.send_response(id, pong(1));
    assert!(matches!(handler.poll().next, PollNext::InboundTimers));
    let step = handler.inbound_timer_polled(TimerTick::Expired(id));
    assert!(matches!(step.next, PollNext::InboundTimers));
    assert_eq!(failure(&mut handler), "Stream Timeout");
    let queue = match visit(&mut handler).next {
        PollNext::StartSend { queue, message, .. } => {
            assert_eq!(message, pong(1));
            queue
        }
        other => panic!("unexpected {:?}", other),
    };
    let step = handler.send_polled(queue, SendProgress::Sent { closed: false });
    assert_eq!(step.timer, None);
    match step.next {
        PollNext::StartSend { message, .. } => assert_eq!(message, RPCCodedResponse::Error),
        other => panic!("unexpected {:?}", other),
    }
}

#[test]
fn a_timer_of_no_substream_is_passed_over() {
    let mut handler = handler();
    let stranger = TimerTick::Expired(SubstreamId(9));
    assert!(matches!(
        handler.inbound_timer_polled(stranger).next,
        PollNext::InboundTimers
    ));
    assert!(matches!(
        handler.outbound_timer_polled(stranger).next,
        PollNext::OutboundTimers
    ));
    assert!(matches!(output(&mut handler), HandlerOutput::Pending));
}

#[test]
fn failing_timers_close_the_connection() {
    let mut handler = handler();
    assert!(matches!(
        handler.inbound_timer_polled(TimerTick::Failed).next,
        PollNext::Ready(HandlerOutput::Close(RPCError::Error))
    ));
    assert!(matches!(
        handler.outbound_timer_polled(TimerTick::Failed).next,
        PollNext::Ready(HandlerOutput::Close(RPCError::Error))
    ));
}

#[test]
fn too_many_substreams_are_refused() {
    let mut handler = handler();
    for i in 0..32 {
        assert_eq!(
            handler.inject_fully_negotiated_inbound(InboundRequest::MetaData, 0),
            Some(SubstreamId(i))
        );
    }
    assert_eq!(
        handler.inject_fully_negotiated_inbound(InboundRequest::MetaData, 0),
        None
    );
    assert!(handler.is_shutting_down());
    for _ in 0..32 {
        assert!(event(&mut handler).is_ok());
    }
    assert_eq!(failure(&mut handler), "HandlerRejected");
    assert_eq!(
        handler.inject_fully_negotiated_inbound(InboundRequest::MetaData, 0),
        None
    );
}

#[test]
fn a_goodbye_shuts_the_handler_down() {
    let mut handler = handler();
    handler.send_request(ID, PING);
    assert_eq!(
        handler.inject_fully_negotiated_inbound(InboundRequest::Goodbye(3), 0),
        None
    );
    assert!(handler.is_shutting_down());
    assert_eq!(failure(&mut handler), "handler error");
    match event(&mut handler) {
        Ok(RPCReceived::Request(SubstreamId(0), InboundRequest::Goodbye(3))) => {}
        other => panic!("unexpected {:?}", other),
    }
    assert_eq!(handler.connection_keep_alive(), KeepAlive::No);
    assert!(matches!(
        output(&mut handler),
        HandlerOutput::Close(RPCError::Error)
    ));
}

#[test]
fn shutting_down_sends_a_parting_request() {
    let mut handler = handler();
    handler.send_request(ID, PING);
    handler.send_request(ID, PING);
    handler.shutdown(Some(RequestId::Internal));
    handler.shutdown(Some(ID));
    assert_eq!(failure(&mut handler), "handler error");
    assert_eq!(failure(&mut handler), "handler error");
    match output(&mut handler) {
        HandlerOutput::OutboundSubstreamRequest { protocol, id } => {
            assert_eq!(id, RequestId::Internal);
            assert_eq!(protocol.req, OutboundRequest::Goodbye(1));
        }
        other => panic!("unexpected {:?}", other),
    }
    assert_eq!(handler.connection_keep_alive(), KeepAlive::Yes);
    assert_eq!(
        handler.inject_fully_negotiated_outbound(
            RequestId::Internal,
            OutboundRequest::Goodbye(1)
        ),
        None
    );
    assert_eq!(handler.connection_keep_alive(), KeepAlive::No);
}

#[test]
fn requests_to_a_handler_that_shuts_down_fail() {
    let mut handler = handler();
    shut_down(&mut handler);
    handler.send_request(ID, PING);
    assert_eq!(failure(&mut handler), "handler error");
}

#[test]
fn a_response_is_reported_for_its_request() {
    let mut handler = handler();
    let substream = open_outbound(&mut handler);
    assert_eq!(substream, SubstreamId(0));
    let queue = match visit(&mut handler).next {
        PollNext::NextResponse { queue } => queue,
        other => panic!("unexpected {:?}", other),
    };
    assert_eq!(queue, vec![0]);
    let step = handler.response_polled(queue, ResponseProgress::Response(pong(8)));
    assert_eq!(step.timer, None);
    match step.next {
        PollNext::Ready(HandlerOutput::Event(Ok(RPCReceived::Response(id, response)))) => {
            assert_eq!(id, ID);
            assert_eq!(response, RPCResponse::Pong(Ping { data: 8 }));
        }
        other => panic!("unexpected {:?}", other),
    }
    let queue = match visit(&mut handler).next {
        PollNext::CloseOutbound { queue } => queue,
        other => panic!("unexpected {:?}", other),
    };
    let step = handler.outbound_close_polled(queue, true);
    assert_eq!(step.timer, Some(TimerChange::RemoveOutbound(substream)));
    assert!(matches!(output(&mut handler), HandlerOutput::Pending));
}

#[test]
fn what_can_become_of_an_outbound_substream() {
    let cases = vec![
        (ResponseProgress::Response(RPCCodedResponse::Error), "RPC Error"),
        (ResponseProgress::Ended, "Incomplete response"),
        (ResponseProgress::Failed(RPCError::Error), "Stream dropped"),
    ];
    for (progress, reason) in cases {
        let mut handler = handler();
        open_outbound(&mut handler);
        let queue = match visit(&mut handler).next {
            PollNext::NextResponse { queue } => queue,
            other => panic!("unexpected {:?}", other),
        };
        match handler.response_polled(queue, progress).next {
            PollNext::Ready(HandlerOutput::Event(Err(e))) => assert_eq!(e, reason),
            other => panic!("unexpected {:?}", other),
        }
    }
}

#[test]
fn a_peer_that_takes_too_long_is_dropped() {
    let mut handler = handler();
    let substream = open_outbound(&mut handler);
    match handler
        .outbound_timer_polled(TimerTick::Expired(substream))
        .next
    {
        PollNext::Ready(HandlerOutput::Event(Err(e))) => assert_eq!(e, "Stream Timeout"),
        other => panic!("unexpected {:?}", other),
    }
    assert!(matches!(output(&mut handler), HandlerOutput::Pending));
}

#[test]
fn no_more_than_eight_substreams_are_negotiated_at_once() {
    let mut handler = handler();
    for _ in 0..9 {
        handler.send_request(ID, PING);
    }
    for _ in 0..8 {
        assert!(matches!(
            output(&mut handler),
            HandlerOutput::OutboundSubstreamRequest { .. }
        ));
    }
    assert!(matches!(output(&mut handler), HandlerOutput::Pending));
    handler.inject_fully_negotiated_outbound(ID, PING);
    assert!(matches!(
        output(&mut handler),
        HandlerOutput::OutboundSubstreamRequest { .. }
    ));
}

#[test]
fn dialing_is_tried_again_twice() {
    let mut handler = handler();
    let error = DialUpgradeError::Apply(RPCError::Error);
    for _ in 0..2 {
        handler.inject_dial_upgrade_error(ID, PING, error);
        assert!(matches!(
            output(&mut handler),
            HandlerOutput::OutboundSubstreamRequest { .. }
        ));
    }
    handler.inject_dial_upgrade_error(ID, PING, error);
    assert_eq!(failure(&mut handler), "Dial upgrade error");
    assert!(matches!(output(&mut handler), HandlerOutput::Pending));
}

#[test]
fn other_failures_to_dial_are_not_tried_again() {
    let errors = vec![
        DialUpgradeError::Select,
        DialUpgradeError::Timeout,
        DialUpgradeError::Timer,
    ];
    for error in errors {
        let mut handler = handler();
        handler.send_request(ID, PING);
        output(&mut handler);
        handler.inject_dial_upgrade_error(ID, PING, error);
        assert_eq!(failure(&mut handler), "Dial upgrade error");
    }
}

#[test]
fn a_deactivated_handler_closes_its_substreams() {
    let mut handler = handler();
    let id = handler
        .inject_fully_negotiated_inbound(InboundRequest::MetaData, 0)
        .unwrap();
    open_outbound_after_event(&mut handler);
    handler.send_response(id, pong(1));
    deactivate_with_substreams(&mut handler);
    assert_eq!(handler.connection_keep_alive(), KeepAlive::No);
    let queue = match visit(&mut handler).next {
        PollNext::CloseInbound { queue } => queue,
        other => panic!("unexpected {:?}", other),
    };
    let step = handler.inbound_close_polled(queue, CloseProgress::Closed(Err(RPCError::Error)));
    assert_eq!(step.timer, Some(TimerChange::RemoveInbound(id)));
    let queue = match step.next {
        PollNext::VisitInbound { queue } => queue,
        other => panic!("unexpected {:?}", other),
    };
    let queue = match handler.visit_inbound(queue).next {
        PollNext::VisitOutbound { queue } => queue,
        other => panic!("unexpected {:?}", other),
    };
    assert_eq!(queue, vec![0]);
    let queue = match handler.visit_outbound(queue).next {
        PollNext::VisitOutbound { queue } => queue,
        other => panic!("unexpected {:?}", other),
    };
    assert!(matches!(
        handler.visit_outbound(queue).next,
        PollNext::Ready(HandlerOutput::Pending)
    ));
    assert_eq!(failure(&mut handler), "Error shutting down the substream");
    assert_eq!(failure(&mut handler), "Cancel Request");
    assert_eq!(failure(&mut handler), "Handler deactivated");
    assert!(matches!(
        visit(&mut handler).next,
        PollNext::CloseOutbound { .. }
    ));
}

fn open_outbound_after_event(handler: &mut RPCHandler) {
    event(handler).unwrap();
    open_outbound(handler);
}

/// Deactivates a handler whose inbound substream has not begun to send.
fn deactivate_with_substreams(handler: &mut RPCHandler) {
    handler.shutdown(None);
    assert!(matches!(handler.poll().next, PollNext::ShutdownTimer));
    assert!(matches!(
        handler.shutdown_timer_polled(true).next,
        PollNext::Ready(HandlerOutput::Close(RPCError::Error))
    ));
}

#[test]
fn a_deactivated_handler_sends_nothing() {
    let mut handler = handler();
    let id = handler
        .inject_fully_negotiated_inbound(InboundRequest::MetaData, 0)
        .unwrap();
    event(&mut handler).unwrap();
    handler.send_request(ID, PING);
    output(&mut handler);
    deactivate(&mut handler);
    handler.send_response(id, RPCCodedResponse::Error);
    assert_eq!(failure(&mut handler), "handler error");
    handler.send_request(ID, PING);
    assert_eq!(failure(&mut handler), "handler error");
    assert_eq!(
        handler.inject_fully_negotiated_outbound(ID, PING),
        Some(SubstreamId(0))
    );
    assert_eq!(failure(&mut handler), "HandlerState::Deactivated");
    handler.shutdown(Some(ID));
    assert!(!handler.is_shutting_down());
    let queue = match visit(&mut handler).next {
        PollNext::CloseInbound { queue } => queue,
        other => panic!("unexpected {:?}", other),
    };
    let step = handler.inbound_close_polled(queue, CloseProgress::Closed(Ok(())));
    assert_eq!(step.timer, Some(TimerChange::RemoveInbound(id)));
    assert!(matches!(handler.poll().next, PollNext::InboundTimers));
}

#[test]
fn substreams_are_closed_behind_the_last_response() {
    let failed = Err(RPCError::Error);
    assert_eq!(message_sent(false, true, Ok(())), SendStep::Close);
    assert_eq!(message_sent(true, false, Ok(())), SendStep::Close);
    assert_eq!(message_sent(false, false, failed), SendStep::Close);
    assert_eq!(
        message_sent(false, false, Ok(())),
        SendStep::Done(Ok(false))
    );
    assert_eq!(substream_closed(Ok(()), Ok(())), Ok(true));
    assert_eq!(substream_closed(Ok(()), failed), Err(RPCError::Error));
    assert_eq!(substream_closed(failed, Ok(())), Err(RPCError::Error));
}

#[test]
fn requests_keep_their_order() {
    let mut handler = handler();
    let status = OutboundRequest::Status(StatusMessage {
        fork_digest: [0; 4],
        finalized_root: [0; 32],
        finalized_epoch: 0,
        head_root: [0; 32],
        head_slot: 0,
    });
    handler.send_request(ID, PING);
    handler.send_request(RequestId::Internal, status);
    for expected in [PING, status] {
        match output(&mut handler) {
            HandlerOutput::OutboundSubstreamRequest { protocol, .. } => {
                assert_eq!(protocol.req, expected)
            }
            other => panic!("unexpected {:?}", other),
        }
    }
}

#[test]
fn a_handler_tells_its_numbers() {
    let mut handler = handler();
    assert_eq!(handler.next_inbound_id(), SubstreamId(0));
    assert_eq!(handler.next_outbound_id(), SubstreamId(0));
    assert_eq!(handler.dial_negotiated(), 0);
    handler.send_request(ID, PING);
    output(&mut handler);
    assert_eq!(handler.dial_negotiated(), 1);
    assert_eq!(
        handler.inject_fully_negotiated_outbound(ID, PING),
        Some(SubstreamId(0))
    );
    assert_eq!(handler.dial_negotiated(), 0);
    assert_eq!(handler.next_outbound_id(), SubstreamId(1));
    handler.inject_fully_negotiated_inbound(InboundRequest::Ping(Ping { data: 1 }), 0);
    assert_eq!(handler.next_inbound_id(), SubstreamId(1));
}

#[test]
fn a_handler_tells_whether_it_tries_again() {
    let mut handler = handler();
    let error = DialUpgradeError::Apply(RPCError::Error);
    assert!(!handler.retries_after(&DialUpgradeError::Timeout));
    for _ in 0..2 {
        assert!(handler.retries_after(&error));
        handler.inject_dial_upgrade_error(ID, PING, error);
        output(&mut handler);
    }
    assert!(!handler.retries_after(&error));
}

#[test]
fn a_handler_tells_which_requests_it_takes() {
    let ping = InboundRequest::Ping(Ping { data: 1 });
    let goodbye = InboundRequest::Goodbye(1);
    let mut handler = handler();
    for _ in 0..32 {
        assert!(handler.takes(&ping));
        handler.inject_fully_negotiated_inbound(ping, 0);
    }
    assert!(!handler.takes(&ping));
    assert!(handler.takes(&goodbye));
    handler.shutdown(None);
    assert!(!handler.takes(&goodbye));
}
