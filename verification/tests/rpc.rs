use consensus_p2p::rpc::handler::SubstreamId;
use consensus_p2p::rpc::methods::{Ping, RPCCodedResponse, RPCResponse, StatusMessage};
use consensus_p2p::rpc::protocol::{InboundRequest, OutboundRequest};
use consensus_p2p::rpc::{
    NotifyHandler, RPCAction, RPCReceived, RPCSend, Request, RequestId, Response, RPC,
};

fn status() -> StatusMessage {
    StatusMessage {
        fork_digest: [1; 4],
        finalized_root: [0; 32],
        finalized_epoch: 0,
        head_root: [0; 32],
        head_slot: 9,
    }
}

#[test]
fn actions_come_out_in_order() {
    let mut rpc: RPC<RequestId<u64>> = RPC::new();
    assert!(rpc.poll().is_none());
    rpc.send_response(3, (4, SubstreamId(5)), RPCCodedResponse::Error);
    rpc._send_request(6, RequestId::Internal, OutboundRequest::MetaData);
    rpc.inject_event(
        8,
        9,
        Ok(RPCReceived::Request(
            SubstreamId(1),
            InboundRequest::Ping(Ping { data: 2 }),
        )),
    );
    match rpc.poll() {
        Some(RPCAction::NotifyHandler {
            peer_id: 3,
            handler: NotifyHandler::One(4),
            event: RPCSend::Response(SubstreamId(5), RPCCodedResponse::Error),
        }) => {}
        other => panic!("unexpected {:?}", other),
    }
    match rpc.poll() {
        Some(RPCAction::NotifyHandler {
            peer_id: 6,
            handler: NotifyHandler::Any,
            event: RPCSend::Request(RequestId::Internal, OutboundRequest::MetaData),
        }) => {}
        other => panic!("unexpected {:?}", other),
    }
    match rpc.poll() {
        Some(RPCAction::GenerateEvent(message)) => {
            assert_eq!(message.peer_id, 8);
            assert_eq!(message.conn_id, 9);
            assert!(message.event.is_ok());
        }
        other => panic!("unexpected {:?}", other),
    }
    assert!(rpc.poll().is_none());
}

#[test]
fn new_handlers_are_active() {
    let rpc: RPC<RequestId<u64>> = RPC::new();
    assert!(!rpc.new_handler().is_shutting_down());
}

#[test]
fn requests_and_responses_of_the_application() {
    assert_eq!(
        OutboundRequest::from(Request::Status(status())),
        OutboundRequest::Status(status())
    );
    assert_eq!(
        RPCCodedResponse::from(Response::Status(status())),
        RPCCodedResponse::Success(RPCResponse::Status(status()))
    );
}
