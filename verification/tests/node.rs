use consensus_p2p::discovery::DiscoveredPeers;
use consensus_p2p::node::{
    answer, on_peers_discovered, on_rpc_message, RedialTracker, GOSSIP_TOPIC, RUN_TIME,
    TARGET_NUM_PEERS,
};
use consensus_p2p::peer_manager::{ManagerStep, PeerManager, PeerManagerEvent};
use consensus_p2p::rpc::handler::SubstreamId;
use consensus_p2p::rpc::methods::{
    EnrAttestationBitfield, EnrSyncCommitteeBitfield, MetaData, Ping, RPCCodedResponse,
    RPCResponse, StatusMessage,
};
use consensus_p2p::rpc::protocol::InboundRequest;
use consensus_p2p::rpc::{NotifyHandler, RPCAction, RPCMessage, RPCReceived, RPCSend, RequestId, RPC};
use std::collections::HashMap;

const SECOND: u64 = 1_000_000_000;

#[test]
fn requests_are_answered() {
    let status = StatusMessage {
        fork_digest: [1; 4],
        finalized_root: [2; 32],
        finalized_epoch: 3,
        head_root: [4; 32],
        head_slot: 5,
    };
    assert_eq!(
        answer(InboundRequest::Status(status)),
        RPCCodedResponse::Success(RPCResponse::Status(status))
    );
    assert_eq!(
        answer(InboundRequest::Ping(Ping { data: 77 })),
        RPCCodedResponse::Success(RPCResponse::Pong(Ping { data: 0 }))
    );
    assert_eq!(
        answer(InboundRequest::MetaData),
        RPCCodedResponse::Success(RPCResponse::MetaData(MetaData {
            seq_number: 0,
            attnets: EnrAttestationBitfield::default(),
            syncnets: EnrSyncCommitteeBitfield::default(),
        }))
    );
    assert_eq!(answer(InboundRequest::Goodbye(1)), RPCCodedResponse::Error);
}

#[test]
fn answers_go_back_the_way_the_request_came() {
    let mut rpc: RPC<RequestId<u64>> = RPC::new();
    let message = RPCMessage {
        peer_id: 4,
        conn_id: 5,
        event: Ok(RPCReceived::Request(
            SubstreamId(6),
            InboundRequest::Ping(Ping { data: 1 }),
        )),
    };
    on_rpc_message(&mut rpc, message);
    match rpc.poll() {
        Some(RPCAction::NotifyHandler {
            peer_id: 4,
            handler: NotifyHandler::One(5),
            event: RPCSend::Response(SubstreamId(6), response),
        }) => assert_eq!(
            response,
            RPCCodedResponse::Success(RPCResponse::Pong(Ping { data: 0 }))
        ),
        other => panic!("unexpected {:?}", other),
    }
    on_rpc_message(
        &mut rpc,
        RPCMessage {
            peer_id: 4,
            conn_id: 5,
            event: Err("handler error"),
        },
    );
    assert!(rpc.poll().is_none());
}

#[test]
fn found_peers_are_dialed() {
    let mut manager = PeerManager::new(TARGET_NUM_PEERS);
    let discovered = DiscoveredPeers {
        peers: HashMap::from([(1, None), (2, None)]),
    };
    on_peers_discovered(&mut manager, &discovered);
    assert!(matches!(manager.poll(), ManagerStep::Heartbeat));
    match manager.heartbeat_polled(true) {
        Some(PeerManagerEvent::DialPeers(mut peers)) => {
            peers.sort();
            assert_eq!(peers, vec![1, 2]);
        }
        other => panic!("unexpected {:?}", other),
    }
    assert!(matches!(
        manager.poll(),
        ManagerStep::Ready(PeerManagerEvent::DiscoverPeers(14))
    ));
}

#[test]
fn peers_are_dialed_again_after_a_connection_that_lasted() {
    let mut tracker = RedialTracker::new();
    assert!(!tracker.on_connection_closed(1, 10 * SECOND));
    tracker.on_connection_established(1, 10 * SECOND);
    assert!(!tracker.on_connection_closed(1, 12 * SECOND));
    assert!(!tracker.on_outgoing_connection_error(Some(1)));
    assert!(tracker.on_connection_closed(1, 12 * SECOND + 1));
    assert!(tracker.on_outgoing_connection_error(Some(1)));
    assert!(!tracker.on_outgoing_connection_error(Some(2)));
    assert!(!tracker.on_outgoing_connection_error(None));
    tracker.on_connection_established(1, 20 * SECOND);
    assert!(tracker.on_connection_closed(1, 20 * SECOND));
}

#[test]
fn constants_of_the_node() {
    assert_eq!(TARGET_NUM_PEERS, 16);
    assert_eq!(RUN_TIME, 60);
    assert_eq!(GOSSIP_TOPIC, "/eth2/4a26c58b/beacon_block/ssz_snappy");
}
