//! The request/response domain.

pub mod codec;
pub mod fields;
pub mod handler;
pub mod laws;
pub mod methods;
pub mod protocol;
pub mod queues;
pub mod substreams;

use self::handler::{HandlerEvent, HandlerView, RPCHandler, SubstreamId};
use self::methods::{RPCCodedResponse, RPCResponse, StatusMessage};
use self::protocol::{InboundRequest, OutboundRequest, RPCProtocol};
use crate::peer::{ConnectionId, PeerId};
use vstd::prelude::*;

verus! {

/// What a request can be told apart by.
pub trait ReqId: Send + 'static + std::fmt::Debug + Copy + Clone {}

impl<T> ReqId for T where T: Send + 'static + std::fmt::Debug + Copy + Clone {}

/// What a connection's handler is told to send.
#[derive(Debug, Clone)]
pub enum RPCSend<Id> {
    Request(Id, OutboundRequest),
    Response(SubstreamId, RPCCodedResponse),
}

/// What a connection's handler has received.
#[derive(Debug, Clone)]
pub enum RPCReceived<Id> {
    Request(SubstreamId, InboundRequest),
    Response(Id, RPCResponse),
}

/// The identifier of a request: the application's own, or none for one that the
/// network layer sends on its own account.
#[derive(Debug, Clone, Copy, PartialEq, Eq, Structural)]
pub enum RequestId<AppReqId> {
    Application(AppReqId),
    Internal,
}

/// What the handler of a connection has reported.
#[derive(Debug)]
pub struct RPCMessage<Id> {
    pub peer_id: PeerId,
    pub conn_id: ConnectionId,
    pub event: HandlerEvent<Id>,
}

/// Which of the connections to a peer something is for.
#[derive(Debug, Clone, Copy, PartialEq, Eq, Structural)]
pub enum NotifyHandler {
    One(ConnectionId),
    Any,
}

/// What the domain asks of the network.
#[derive(Debug)]
pub enum RPCAction<Id> {
    /// Hand something to a connection's handler.
    NotifyHandler { peer_id: PeerId, handler: NotifyHandler, event: RPCSend<Id> },
    /// Report a message.
    GenerateEvent(RPCMessage<Id>),
}

/// The domain over all connections: a queue of what it asks of the network.
pub struct RPC<Id: ReqId> {
    events: Vec<RPCAction<Id>>,
}

impl<Id: ReqId> View for RPC<Id> {
    type V = Seq<RPCAction<Id>>;

    closed spec fn view(&self) -> Seq<RPCAction<Id>> {
        self.events@
    }
}

impl<Id: ReqId> RPC<Id> {
    /// The domain before anything has happened.
    pub fn new() -> (rpc: Self)
        ensures
            rpc@ == Seq::<RPCAction<Id>>::empty(),
    {
        RPC { events: Vec::new() }
    }

    /// Asks the handler of a connection to send a response.
    pub fn send_response(
        &mut self,
        peer_id: PeerId,
        id: (ConnectionId, SubstreamId),
        event: RPCCodedResponse,
    )
        ensures
            final(self)@ == old(self)@.push(
                (RPCAction::NotifyHandler {
                    peer_id,
                    handler: NotifyHandler::One(id.0),
                    event: RPCSend::Response(id.1, event),
                }),
            ),
    {
        self.events.push(
            RPCAction::NotifyHandler {
                peer_id,
                handler: NotifyHandler::One(id.0),
                event: RPCSend::Response(id.1, event),
            },
        );
    }

    /// Asks the handler of some connection to a peer to send a request.
    pub fn _send_request(&mut self, peer_id: PeerId, request_id: Id, event: OutboundRequest)
        ensures
            final(self)@ == old(self)@.push(
                (RPCAction::NotifyHandler {
                    peer_id,
                    handler: NotifyHandler::Any,
                    event: RPCSend::Request(request_id, event),
                }),
            ),
    {
        self.events.push(
            RPCAction::NotifyHandler {
                peer_id,
                handler: NotifyHandler::Any,
                event: RPCSend::Request(request_id, event),
            },
        );
    }

    /// The handler of a connection that has just been made.
    pub fn new_handler(&self) -> (handler: RPCHandler)
        ensures
            handler@.wf(),
            handler@ == HandlerView::fresh(),
    {
        RPCHandler::new(RPCProtocol {  })
    }

    /// Takes what the handler of a connection has reported.
    pub fn inject_event(&mut self, peer_id: PeerId, conn_id: ConnectionId, event: HandlerEvent<Id>)
        ensures
            final(self)@ == old(self)@.push(
                RPCAction::GenerateEvent((RPCMessage { peer_id, conn_id, event })),
            ),
    {
        self.events.push(RPCAction::GenerateEvent(RPCMessage { peer_id, conn_id, event }));
    }

    /// The oldest thing that is asked of the network, if there is any.
    pub fn poll(&mut self) -> (action: Option<RPCAction<Id>>)
        ensures
            match action {
                Some(oldest) => {
                    &&& old(self)@.len() > 0
                    &&& oldest == old(self)@[0]
                    &&& final(self)@ == old(self)@.drop_first()
                },
                None => old(self)@.len() == 0 && final(self)@ == old(self)@,
            },
    {
        if self.events.len() > 0 {
            let oldest = self.events.remove(0);
            assert(self@ =~= old(self)@.drop_first());
            return Some(oldest);
        }
        None
    }
}

// API

/// A request that the application sends.
#[derive(Debug, Clone, Copy, PartialEq)]
pub enum Request {
    Status(StatusMessage),
}

impl From<Request> for OutboundRequest {
    fn from(req: Request) -> (outbound: OutboundRequest) {
        match req {
            Request::Status(s) => OutboundRequest::Status(s),
        }
    }
}

impl vstd::std_specs::convert::FromSpecImpl<Request> for OutboundRequest {
    open spec fn obeys_from_spec() -> bool {
        true
    }

    open spec fn from_spec(req: Request) -> OutboundRequest {
        match req {
            Request::Status(s) => OutboundRequest::Status(s),
        }
    }
}

/// A response that the application gives.
#[derive(Debug, Clone, Copy, PartialEq)]
pub enum Response {
    Status(StatusMessage),
}

impl From<Response> for RPCCodedResponse {
    fn from(resp: Response) -> (coded: RPCCodedResponse) {
        match resp {
            Response::Status(s) => RPCCodedResponse::Success(RPCResponse::Status(s)),
        }
    }
}

impl vstd::std_specs::convert::FromSpecImpl<Response> for RPCCodedResponse {
    open spec fn obeys_from_spec() -> bool {
        true
    }

    open spec fn from_spec(resp: Response) -> RPCCodedResponse {
        match resp {
            Response::Status(s) => RPCCodedResponse::Success(RPCResponse::Status(s)),
        }
    }
}

} // verus!
