//! What the node does with what its network reports.

use crate::collections::{lists, map_keys};
use crate::discovery::DiscoveredPeers;
use crate::peer::PeerId;
use crate::peer_manager::PeerManager;
use crate::rpc::methods::{
    MetaData, MetaDataView, Ping, RPCCodedResponse, RPCResponse, ResponseView,
};
use crate::rpc::protocol::InboundRequest;
use crate::rpc::{NotifyHandler, RPCAction, RPCMessage, RPCReceived, RPCSend, ReqId, RPC};
use std::collections::{HashMap, HashSet};
use vstd::prelude::*;

verus! {

broadcast use vstd::std_specs::hash::group_hash_axioms;

/// How many peers the node aims at.
pub const TARGET_NUM_PEERS: u32 = 16;

/// How many seconds the node runs.
pub const RUN_TIME: u64 = 60;

/// The topic that the node listens to.
pub const GOSSIP_TOPIC: &'static str = "/eth2/4a26c58b/beacon_block/ssz_snappy";

/// How long a peer must have been connected to be dialed again, in nanoseconds: two seconds.
pub const MIN_CONNECTION_DURATION_FOR_RETRY: u64 = 2_000_000_000;

// Answers

/// What the node answers a request: the peer's own status, a ping of zero, metadata of a node
/// that has joined no subnet, or, for a goodbye, a failure.
pub open spec fn answer_to(request: InboundRequest) -> Option<ResponseView> {
    match request {
        InboundRequest::Status(status) => Some(ResponseView::Status(status)),
        InboundRequest::Ping(_) => Some(ResponseView::Pong(Ping { data: 0 })),
        InboundRequest::MetaData => Some(
            ResponseView::MetaData(
                MetaDataView {
                    seq_number: 0,
                    attnets: Seq::new(8, |i: int| 0u8),
                    syncnets: seq![0u8],
                },
            ),
        ),
        InboundRequest::Goodbye(_) => None,
    }
}

/// Whether a response is the answer to a request.
pub open spec fn answers(response: RPCCodedResponse, request: InboundRequest) -> bool {
    match (response, answer_to(request)) {
        (RPCCodedResponse::Success(success), Some(answer)) => success@ == answer,
        (RPCCodedResponse::Error, None) => true,
        _ => false,
    }
}

/// What the node answers a request.
pub fn answer(request: InboundRequest) -> (response: RPCCodedResponse)
    ensures
        answers(response, request),
{
    match request {
        InboundRequest::Status(status) => RPCCodedResponse::Success(RPCResponse::Status(status)),
        InboundRequest::Ping(_) => RPCCodedResponse::Success(RPCResponse::Pong(Ping { data: 0 })),
        InboundRequest::MetaData => RPCCodedResponse::Success(
            RPCResponse::MetaData(MetaData::of_no_subnet()),
        ),
        InboundRequest::Goodbye(_) => RPCCodedResponse::Error,
    }
}

/// Answers a message of the request/response domain: a request, by the substream that it came
/// by. What went wrong is only reported. Responses are not expected, as the node sends no
/// requests.
pub fn on_rpc_message<Id: ReqId>(rpc: &mut RPC<Id>, message: RPCMessage<Id>)
    requires
        !(message.event matches Ok(RPCReceived::Response(_, _))),
    ensures
        match message.event {
            Ok(RPCReceived::Request(substream, request)) => {
                &&& final(rpc)@.len() == old(rpc)@.len() + 1
                &&& final(rpc)@.drop_last() == old(rpc)@
                &&& final(rpc)@.last() matches RPCAction::NotifyHandler { peer_id, handler, event }
                &&& peer_id == message.peer_id
                &&& handler == NotifyHandler::One(message.conn_id)
                &&& event matches RPCSend::Response(id, response)
                &&& id == substream
                &&& answers(response, request)
            },
            _ => final(rpc)@ == old(rpc)@,
        },
{
    match message.event {
        Ok(received) => match received {
            RPCReceived::Request(substream, inbound_req) => {
                rpc.send_response(
                    message.peer_id,
                    (message.conn_id, substream),
                    answer(inbound_req),
                );
                assert(rpc@.drop_last() =~= old(rpc)@);
            },
            RPCReceived::Response(_, _) => {},
        },
        Err(_) => {},
    }
}

/// Hands the peers that were found to the manager.
pub fn on_peers_discovered(manager: &mut PeerManager, discovered: &DiscoveredPeers)
    requires
        old(manager)@.wf(),
    ensures
        final(manager)@.wf(),
        exists|peer_ids: Seq<PeerId>| #[trigger]
            lists(peer_ids, discovered.peers@.dom()) && final(manager)@ == old(
                manager,
            )@.peers_added(peer_ids),
{
    let peer_ids: Vec<PeerId> = map_keys(&discovered.peers);
    let ghost listed = peer_ids@;
    manager.add_peers(peer_ids);
    assert(lists(listed, discovered.peers@.dom()));
}

// Dialing again

/// Which peers are dialed again as soon as their connection is gone.
pub struct RedialTracker {
    peer_connection_times: HashMap<PeerId, u64>,
    redialable_peers: HashSet<PeerId>,
}

/// What a tracker holds.
#[verifier::ext_equal]
pub struct RedialView {
    /// When each peer was connected last.
    pub times: Map<PeerId, u64>,
    /// The peers that are dialed again.
    pub redialable: Set<PeerId>,
}

impl View for RedialTracker {
    type V = RedialView;

    closed spec fn view(&self) -> RedialView {
        RedialView { times: self.peer_connection_times@, redialable: self.redialable_peers@ }
    }
}

impl RedialView {
    /// Whether a peer has been connected for long enough to be dialed again.
    pub open spec fn lasted(self, peer_id: PeerId, now: u64) -> bool {
        &&& self.times.dom().contains(peer_id)
        &&& now - self.times[peer_id] > MIN_CONNECTION_DURATION_FOR_RETRY
    }

    /// The tracker once the connection to a peer is gone.
    pub open spec fn closed(self, peer_id: PeerId, now: u64) -> RedialView {
        if self.lasted(peer_id, now) {
            RedialView { redialable: self.redialable.insert(peer_id), ..self }
        } else {
            self
        }
    }
}

impl RedialTracker {
    /// A tracker that knows no peer.
    pub fn new() -> (tracker: Self)
        ensures
            tracker@.times == Map::<PeerId, u64>::empty(),
            tracker@.redialable == Set::<PeerId>::empty(),
    {
        RedialTracker { peer_connection_times: HashMap::new(), redialable_peers: HashSet::new() }
    }

    /// Notes when a peer was connected.
    pub fn on_connection_established(&mut self, peer_id: PeerId, now: u64)
        ensures
            final(self)@ == (RedialView {
                times: old(self)@.times.insert(peer_id, now),
                ..old(self)@
            }),
    {
        self.peer_connection_times.insert(peer_id, now);
    }

    /// Notes that the connection to a peer is gone, and tells whether to dial it again: if one
    /// of its connections has lasted long enough.
    pub fn on_connection_closed(&mut self, peer_id: PeerId, now: u64) -> (redial: bool)
        ensures
            final(self)@ == old(self)@.closed(peer_id, now),
            redial == final(self)@.redialable.contains(peer_id),
    {
        if let Some(last_connection_time) = self.peer_connection_times.get(&peer_id) {
            if now > *last_connection_time && now - *last_connection_time
                > MIN_CONNECTION_DURATION_FOR_RETRY {
                self.redialable_peers.insert(peer_id);
            }
        }
        self.redialable_peers.contains(&peer_id)
    }

    /// Whether to dial a peer again that could not be connected, if it is known which.
    pub fn on_outgoing_connection_error(&self, peer_id: Option<PeerId>) -> (redial: bool)
        ensures
            redial == (peer_id matches Some(peer) && self@.redialable.contains(peer)),
    {
        match peer_id {
            Some(peer_id) => self.redialable_peers.contains(&peer_id),
            None => false,
        }
    }
}

/// A peer that is dialed again stays one, and becomes one by a connection that lasted.
pub proof fn law_redialable_peers_stay(tracker: RedialView, peer_id: PeerId, other: PeerId, now: u64)
    ensures
        tracker.redialable.subset_of(tracker.closed(peer_id, now).redialable),
        tracker.closed(peer_id, now).redialable.contains(other)
            ==> tracker.redialable.contains(other) || (other == peer_id && tracker.lasted(
            peer_id,
            now,
        )),
{
}

/// What a request is answered with: a status with the same status, a ping with a ping of zero, a
/// metadata request with a sequence number of zero and no bit set, a goodbye with a failure.
pub proof fn law_answers(request: InboundRequest, response: RPCCodedResponse)
    requires
        answers(response, request),
    ensures
        request is Goodbye <==> response is Error,
        request matches InboundRequest::Status(status) ==> response == RPCCodedResponse::Success(
            RPCResponse::Status(status),
        ),
        request is Ping ==> (response matches RPCCodedResponse::Success(RPCResponse::Pong(ping))
            && ping.data == 0),
        request is MetaData ==> (response matches RPCCodedResponse::Success(
            RPCResponse::MetaData(metadata),
        ) && {
            &&& metadata@.seq_number == 0
            &&& metadata@.attnets.len() == 8
            &&& forall|i: int| 0 <= i < 8 ==> #[trigger] metadata@.attnets[i] == 0
            &&& metadata@.syncnets.len() == 1
            &&& metadata@.syncnets[0] == 0
        }),
{
}

/// A peer is dialed again from when a connection to it is gone that had lasted for more than two
/// seconds. Nothing changes for other peers, nor when peers were connected.
pub proof fn law_two_seconds_make_redialable(
    tracker: RedialView,
    peer_id: PeerId,
    other: PeerId,
    now: u64,
)
    requires
        other != peer_id,
    ensures
        ({
            let after = tracker.closed(peer_id, now);
            &&& after.times == tracker.times
            &&& after.redialable.contains(other) <==> tracker.redialable.contains(other)
            &&& after.redialable.contains(peer_id) <==> tracker.redialable.contains(peer_id) || (
            tracker.times.dom().contains(peer_id) && now > tracker.times[peer_id] + 2_000_000_000)
        }),
{
}

} // verus!
