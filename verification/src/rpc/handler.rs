//! What a connection does with its substreams.
//!
//! The handler decides; the streams, the timers and the sending itself are the
//! program's. A poll is a dialogue: each step of it tells the program what to try
//! next, and is answered with what came of it.

use super::methods::RPCCodedResponse;
use super::protocol::{
    inbound_expected, inbound_protocol, outbound_expected, outbound_protocol, InboundRequest,
    OutboundRequest, OutboundRequestContainer, Protocol, RPCError, RPCProtocol,
};
use super::queues::{
    dials_is_empty, dials_new, dials_pop, dials_push, dials_remove, events_is_empty, events_new,
    events_push, events_remove, queued_dials, queued_events, DialQueue, EventQueue,
};
use super::substreams::{table_get, table_insert, table_keys, table_len, table_remove};
use super::{RPCReceived, RPCSend, RequestId};
use fnv::FnvHashMap;
use std::collections::VecDeque;
use vstd::prelude::*;

verus! {

/// How many seconds a handler may take to shut down.
pub const SHUTDOWN_TIMEOUT_SECS: u8 = 15;

/// The most substreams that a peer may have open at once.
pub const MAX_INBOUND_SUBSTREAMS: usize = 32;

/// How many seconds a response may take.
pub const RESPONSE_TIMEOUT: u64 = 10;

/// How many failures in a row it takes to give up on opening a substream.
pub const IO_ERROR_RETRIES: u8 = 3;

/// The most substreams that may be negotiated at once.
pub const MAX_DIAL_NEGOTIATED: u32 = 8;

/// The identifier of a request to a handler.
pub type HandlerId = RequestId<u64>;

/// What a handler reports: something received, or what went wrong.
pub type HandlerEvent<Id> = Result<RPCReceived<Id>, &'static str>;

/// The number of a substream of a connection.
#[derive(Debug, Clone, Copy, Hash, Eq, PartialEq, Structural)]
pub struct SubstreamId(pub usize);

// Inbound

/// Whether a response is on its way over an inbound substream.
#[derive(Debug, Clone, Copy, PartialEq, Eq, Structural)]
pub enum InboundState {
    Idle,
    Busy,
}

/// What is known of an inbound substream.
pub struct InboundInfo {
    pub state: InboundState,
    pub pending_items: VecDeque<RPCCodedResponse>,
    pub protocol: Protocol,
    pub remaining_chunks: u64,
    pub request_start_time: u64,
    pub timed: bool,
}

/// What is known of an inbound substream, with its responses as a sequence.
pub struct InboundView {
    pub state: InboundState,
    pub pending_items: Seq<RPCCodedResponse>,
    pub protocol: Protocol,
    pub remaining_chunks: u64,
    pub request_start_time: u64,
    pub timed: bool,
}

impl View for InboundInfo {
    type V = InboundView;

    open spec fn view(&self) -> InboundView {
        InboundView {
            state: self.state,
            pending_items: self.pending_items@,
            protocol: self.protocol,
            remaining_chunks: self.remaining_chunks,
            request_start_time: self.request_start_time,
            timed: self.timed,
        }
    }
}

// Outbound

/// What an outbound substream is for.
#[derive(Debug, Clone, Copy, PartialEq)]
pub enum OutboundSubstreamState {
    RequestPendingResponse { request: OutboundRequest },
    Closing,
    Poisoned,
}

/// What is known of an outbound substream.
#[derive(Debug, Clone, Copy)]
pub struct OutboundInfo {
    pub state: OutboundSubstreamState,
    pub proto: Protocol,
    pub remaining_chunks: Option<u64>,
    pub req_id: HandlerId,
}

/// Where a handler stands in its life.
#[derive(Debug, Clone, Copy, PartialEq, Eq, Structural)]
pub enum HandlerState {
    Active,
    ShuttingDown,
    Deactivated,
}

/// Whether the connection is still needed.
#[derive(Debug, Clone, Copy, PartialEq, Eq, Structural)]
pub enum KeepAlive {
    Yes,
    No,
}

/// The handler of a connection.
pub struct RPCHandler {
    listen_protocol: RPCProtocol,
    events_out: EventQueue,
    dial_queue: DialQueue,
    dial_negotiated: u32,
    inbound_substreams: FnvHashMap<usize, InboundInfo>,
    outbound_substreams: FnvHashMap<usize, OutboundInfo>,
    current_inbound_substream_id: SubstreamId,
    current_outbound_substream_id: SubstreamId,
    max_dial_negotiated: u32,
    state: HandlerState,
    outbound_io_error_retries: u8,
}

/// What a handler holds.
#[verifier::ext_equal]
pub struct HandlerView {
    /// The events that are yet to be reported, the oldest first.
    pub events: Seq<HandlerEvent<HandlerId>>,
    /// The requests that are yet to get a substream, the oldest first.
    pub dials: Seq<(HandlerId, OutboundRequest)>,
    /// How many substreams are being negotiated.
    pub negotiated: nat,
    /// How many substreams may be negotiated at once.
    pub max_negotiated: nat,
    /// The substreams that the peer has opened.
    pub inbound: Map<usize, InboundView>,
    /// The substreams that this node has opened.
    pub outbound: Map<usize, OutboundInfo>,
    /// The number of the next inbound request.
    pub next_inbound: usize,
    /// The number of the next outbound substream.
    pub next_outbound: usize,
    /// Where the handler stands in its life.
    pub state: HandlerState,
    /// How many failures to open a substream there were in a row.
    pub io_retries: nat,
}

/// The event of something that went wrong.
pub open spec fn failure(reason: &'static str) -> HandlerEvent<HandlerId> {
    Err(reason)
}

impl HandlerView {
    /// A handler to which nothing has happened yet.
    pub open spec fn fresh() -> HandlerView {
        HandlerView {
            events: Seq::empty(),
            dials: Seq::empty(),
            negotiated: 0,
            max_negotiated: MAX_DIAL_NEGOTIATED as nat,
            inbound: Map::empty(),
            outbound: Map::empty(),
            next_inbound: 0,
            next_outbound: 0,
            state: HandlerState::Active,
            io_retries: 0,
        }
    }

    /// What every handler keeps to.
    pub open spec fn wf(self) -> bool {
        &&& self.inbound.dom().finite()
        &&& self.inbound.dom().len() <= MAX_INBOUND_SUBSTREAMS
        &&& forall|id: usize| #[trigger] self.inbound.dom().contains(id) ==> id < self.next_inbound
        &&& self.outbound.dom().finite()
        &&& forall|id: usize| #[trigger]
            self.outbound.dom().contains(id) ==> {
                &&& id < self.next_outbound
                &&& !(self.outbound[id].state is Poisoned)
            }
        &&& self.negotiated <= self.max_negotiated
        &&& self.max_negotiated == MAX_DIAL_NEGOTIATED
        &&& self.io_retries < IO_ERROR_RETRIES
    }

    /// Whether a handler can come to be like another one: it never goes back in its
    /// life, never hands out a number twice, and keeps its limit.
    pub open spec fn evolves_to(self, later: HandlerView) -> bool {
        &&& self.state is ShuttingDown ==> !(later.state is Active)
        &&& self.state is Deactivated ==> later.state is Deactivated
        &&& self.next_inbound <= later.next_inbound
        &&& self.next_outbound <= later.next_outbound
        &&& self.max_negotiated == later.max_negotiated
    }

    /// Whether nothing is left to be done.
    pub open spec fn drained(self) -> bool {
        &&& self.dials.len() == 0
        &&& self.outbound.dom() == Set::<usize>::empty()
        &&& self.inbound.dom() == Set::<usize>::empty()
        &&& self.events.len() == 0
        &&& self.negotiated == 0
    }

    /// The handler with one more event to report.
    pub open spec fn with_event(self, event: HandlerEvent<HandlerId>) -> HandlerView {
        HandlerView { events: self.events.push(event), ..self }
    }

    /// The handler once it has been told to shut down: requests without a substream
    /// fail, and if there is a parting request it takes their place. Only an active
    /// handler can be told so.
    pub open spec fn shut_down(self, goodbye_reason: Option<HandlerId>) -> HandlerView {
        if self.state is Active {
            HandlerView {
                events: self.events + Seq::new(
                    self.dials.len(),
                    |i: int| failure("handler error"),
                ),
                dials: match goodbye_reason {
                    Some(id) => seq![(id, OutboundRequest::Goodbye(1))],
                    None => Seq::empty(),
                },
                state: HandlerState::ShuttingDown,
                ..self
            }
        } else {
            self
        }
    }

    /// The handler once it has been given a request: it waits for a substream, or
    /// fails if the handler is no longer active.
    pub open spec fn request_sent(self, id: HandlerId, req: OutboundRequest) -> HandlerView {
        if self.state is Active {
            HandlerView { dials: self.dials.push((id, req)), ..self }
        } else {
            self.with_event(failure("handler error"))
        }
    }

    /// The handler once it has been given a response: it waits for its turn on the
    /// substream, if that is still there. A failure is reported, too; once the
    /// handler is deactivated nothing is sent.
    pub open spec fn response_sent(
        self,
        inbound_id: SubstreamId,
        response: RPCCodedResponse,
    ) -> HandlerView {
        if !self.inbound.dom().contains(inbound_id.0) {
            self
        } else {
            let reported = if response is Error {
                self.with_event(failure("handler error"))
            } else {
                self
            };
            if self.state is Deactivated {
                reported
            } else {
                let info = self.inbound[inbound_id.0];
                HandlerView {
                    inbound: self.inbound.insert(
                        inbound_id.0,
                        InboundView { pending_items: info.pending_items.push(response), ..info },
                    ),
                    ..reported
                }
            }
        }
    }
}

impl HandlerView {
    /// Whether a request that the peer sends is taken, and so gets a number.
    pub open spec fn takes(self, req: InboundRequest) -> bool {
        &&& self.state is Active
        &&& inbound_expected(req) > 0 ==> self.inbound.dom().len() < MAX_INBOUND_SUBSTREAMS
    }

    /// The handler once the peer has sent a request, and whether its substream was
    /// registered to be answered. A request that is owed a response is refused, and
    /// the handler shut down, where the peer has too many substreams open; a goodbye
    /// shuts the handler down.
    pub open spec fn inbound_negotiated(self, req: InboundRequest, now: u64) -> (
        HandlerView,
        Option<SubstreamId>,
    ) {
        if !(self.state is Active) {
            (self, None)
        } else if inbound_expected(req) > 0 && self.inbound.dom().len()
            >= MAX_INBOUND_SUBSTREAMS {
            (self.with_event(failure("HandlerRejected")).shut_down(None), None)
        } else {
            let id = SubstreamId(self.next_inbound);
            let registered = if inbound_expected(req) > 0 {
                HandlerView {
                    inbound: self.inbound.insert(
                        self.next_inbound,
                        InboundView {
                            state: InboundState::Idle,
                            pending_items: Seq::empty(),
                            protocol: inbound_protocol(req),
                            remaining_chunks: inbound_expected(req),
                            request_start_time: now,
                            timed: true,
                        },
                    ),
                    ..self
                }
            } else {
                self
            };
            let settled = if req is Goodbye {
                registered.shut_down(None)
            } else {
                registered
            };
            (
                HandlerView {
                    next_inbound: (self.next_inbound + 1) as usize,
                    ..settled.with_event(Ok(RPCReceived::Request(id, req)))
                },
                if inbound_expected(req) > 0 {
                    Some(id)
                } else {
                    None
                },
            )
        }
    }

    /// The handler once a substream for a request has been negotiated, and whether it
    /// was registered to be read from.
    pub open spec fn outbound_negotiated(self, id: HandlerId, request: OutboundRequest) -> (
        HandlerView,
        Option<SubstreamId>,
    ) {
        let counted = HandlerView { negotiated: (self.negotiated - 1) as nat, ..self };
        let reported = if self.state is Deactivated {
            counted.with_event(failure("HandlerState::Deactivated"))
        } else {
            counted
        };
        if outbound_expected(request) > 0 {
            (
                HandlerView {
                    outbound: self.outbound.insert(
                        self.next_outbound,
                        OutboundInfo {
                            state: OutboundSubstreamState::RequestPendingResponse { request },
                            proto: outbound_protocol(request),
                            remaining_chunks: if outbound_expected(request) > 1 {
                                Some(outbound_expected(request))
                            } else {
                                None
                            },
                            req_id: id,
                        },
                    ),
                    next_outbound: (self.next_outbound + 1) as usize,
                    ..reported
                },
                Some(SubstreamId(self.next_outbound)),
            )
        } else {
            (reported, None)
        }
    }

    /// Whether a request is tried again after this failure.
    pub open spec fn tries_again(self, error: DialUpgradeError) -> bool {
        error is Apply && self.io_retries + 1 < IO_ERROR_RETRIES
    }

    /// The handler once negotiating a substream for a request has failed. An error of
    /// the domain itself is tried again, up to a limit.
    pub open spec fn dial_failed(
        self,
        id: HandlerId,
        req: OutboundRequest,
        error: DialUpgradeError,
    ) -> HandlerView {
        if self.tries_again(error) {
            HandlerView { io_retries: self.io_retries + 1, ..self }.request_sent(id, req)
        } else {
            HandlerView {
                negotiated: (self.negotiated - 1) as nat,
                io_retries: 0,
                ..self
            }.with_event(failure("Dial upgrade error"))
        }
    }
}

/// Why a substream could not be negotiated.
#[derive(Debug, Clone, Copy, PartialEq)]
pub enum DialUpgradeError {
    /// The request could not be sent.
    Apply(RPCError),
    /// The peer does not know the protocol, or negotiating it failed.
    Select,
    /// Negotiating took too long.
    Timeout,
    /// A timer failed.
    Timer,
}

impl View for RPCHandler {
    type V = HandlerView;

    closed spec fn view(&self) -> HandlerView {
        HandlerView {
            events: queued_events(self.events_out),
            dials: queued_dials(self.dial_queue),
            negotiated: self.dial_negotiated as nat,
            max_negotiated: self.max_dial_negotiated as nat,
            inbound: self.inbound_substreams@.map_values(|info: InboundInfo| info@),
            outbound: self.outbound_substreams@,
            next_inbound: self.current_inbound_substream_id.0,
            next_outbound: self.current_outbound_substream_id.0,
            state: self.state,
            io_retries: self.outbound_io_error_retries as nat,
        }
    }
}

impl RPCHandler {
    /// A handler of a connection that has just been made.
    pub fn new(listen_protocol: RPCProtocol) -> (handler: Self)
        ensures
            handler@.wf(),
            handler@ == HandlerView::fresh(),
    {
        let handler = Self {
            listen_protocol,
            events_out: events_new(),
            dial_queue: dials_new(),
            dial_negotiated: 0,
            inbound_substreams: FnvHashMap::default(),
            outbound_substreams: FnvHashMap::default(),
            current_inbound_substream_id: SubstreamId(0),
            current_outbound_substream_id: SubstreamId(0),
            max_dial_negotiated: MAX_DIAL_NEGOTIATED,
            state: HandlerState::Active,
            outbound_io_error_retries: 0,
        };
        assert(handler@.inbound =~= Map::<usize, InboundView>::empty());
        assert(handler@.inbound.dom() =~= Set::<usize>::empty());
        assert(handler@.outbound.dom() =~= Set::<usize>::empty());
        handler
    }

    /// Shuts the handler down, if it is active.
    pub fn shutdown(&mut self, goodbye_reason: Option<HandlerId>)
        requires
            old(self)@.wf(),
        ensures
            final(self)@.wf(),
            old(self)@.evolves_to(final(self)@),
            final(self)@ == old(self)@.shut_down(goodbye_reason),
    {
        if matches!(self.state, HandlerState::Active) {
            let ghost mut failed: nat = 0;
            loop
                invariant
                    self@ == (HandlerView {
                        events: old(self)@.events + Seq::new(
                            failed,
                            |i: int| failure("handler error"),
                        ),
                        dials: self@.dials,
                        ..old(self)@
                    }),
                    self@.dials.len() + failed == old(self)@.dials.len(),
                ensures
                    self@.dials.len() == 0,
                decreases self@.dials.len(),
            {
                match dials_pop(&mut self.dial_queue) {
                    Some(_) => {
                        events_push(&mut self.events_out, Err("handler error"));
                        proof {
                            failed = failed + 1;
                            assert(self@.events =~= old(self)@.events + Seq::new(
                                failed,
                                |i: int| failure("handler error"),
                            ));
                        }
                    },
                    None => {
                        break;
                    },
                }
            }
            if let Some(id) = goodbye_reason {
                dials_push(&mut self.dial_queue, (id, OutboundRequest::Goodbye(1)));
            }
            self.state = HandlerState::ShuttingDown;
            assert(self@ =~= old(self)@.shut_down(goodbye_reason));
        }
    }

    /// Queues a request, or reports its failure if the handler is no longer active.
    pub fn send_request(&mut self, id: HandlerId, req: OutboundRequest)
        requires
            old(self)@.wf(),
        ensures
            final(self)@.wf(),
            old(self)@.evolves_to(final(self)@),
            final(self)@ == old(self)@.request_sent(id, req),
    {
        match self.state {
            HandlerState::Active => {
                dials_push(&mut self.dial_queue, (id, req));
            },
            _ => {
                events_push(&mut self.events_out, Err("handler error"));
            },
        }
    }

    /// Queues a response on the substream that its request came by.
    pub fn send_response(&mut self, inbound_id: SubstreamId, response: RPCCodedResponse)
        requires
            old(self)@.wf(),
        ensures
            final(self)@.wf(),
            old(self)@.evolves_to(final(self)@),
            final(self)@ == old(self)@.response_sent(inbound_id, response),
    {
        if table_get(&self.inbound_substreams, inbound_id.0).is_none() {
            return;
        }
        if let RPCCodedResponse::Error = response {
            events_push(&mut self.events_out, Err("handler error"));
        }
        if matches!(self.state, HandlerState::Deactivated) {
            return;
        }
        let ghost before = self.inbound_substreams@;
        if let Some(mut info) = table_remove(&mut self.inbound_substreams, inbound_id.0) {
            info.pending_items.push_back(response);
            table_insert(&mut self.inbound_substreams, inbound_id.0, info);
            proof {
                lemma_entry_replaced(before, inbound_id.0, info);
                assert(self@ =~= old(self)@.response_sent(inbound_id, response));
            }
        }
    }
}

impl RPCHandler {
    /// The protocols that the handler listens for.
    pub fn listen_protocol(&self) -> (protocol: RPCProtocol)
        ensures
            protocol == (RPCProtocol {  }),
    {
        self.listen_protocol
    }

    /// Whether the handler has been told to shut down and is not yet deactivated. From
    /// when that becomes so on, the time to shut down runs.
    pub fn is_shutting_down(&self) -> (shutting_down: bool)
        ensures
            shutting_down == (self@.state is ShuttingDown),
    {
        matches!(self.state, HandlerState::ShuttingDown)
    }

    /// How many substreams are being negotiated.
    pub fn dial_negotiated(&self) -> (count: u32)
        ensures
            count as nat == self@.negotiated,
    {
        self.dial_negotiated
    }

    /// The number of the next inbound request.
    pub fn next_inbound_id(&self) -> (id: SubstreamId)
        ensures
            id.0 == self@.next_inbound,
    {
        self.current_inbound_substream_id
    }

    /// The number of the next outbound substream.
    pub fn next_outbound_id(&self) -> (id: SubstreamId)
        ensures
            id.0 == self@.next_outbound,
    {
        self.current_outbound_substream_id
    }

    /// Whether a request that the peer sends is taken, and so gets a number.
    pub fn takes(&self, req: &InboundRequest) -> (takes: bool)
        ensures
            takes == self@.takes(*req),
    {
        proof {
            lemma_view_dom(self.inbound_substreams@);
        }
        matches!(self.state, HandlerState::Active) && (req.expected_responses() == 0 || table_len(
            &self.inbound_substreams,
        ) < MAX_INBOUND_SUBSTREAMS)
    }

    /// Whether a request is tried again after a failure to negotiate its substream.
    pub fn retries_after(&self, error: &DialUpgradeError) -> (again: bool)
        ensures
            again == self@.tries_again(*error),
    {
        matches!(error, DialUpgradeError::Apply(_)) && (self.outbound_io_error_retries as u32) + 1
            < IO_ERROR_RETRIES as u32
    }

    /// Whether the handler still needs the connection: not once it is deactivated,
    /// nor when it is shutting down and nothing is left to be done.
    pub fn connection_keep_alive(&self) -> (keep: KeepAlive)
        ensures
            keep == (match self@.state {
                HandlerState::Active => KeepAlive::Yes,
                HandlerState::ShuttingDown => if self@.drained() {
                    KeepAlive::No
                } else {
                    KeepAlive::Yes
                },
                HandlerState::Deactivated => KeepAlive::No,
            }),
    {
        let should_shutdown = match self.state {
            HandlerState::ShuttingDown => self.is_drained(),
            HandlerState::Deactivated => true,
            HandlerState::Active => false,
        };
        if should_shutdown {
            KeepAlive::No
        } else {
            KeepAlive::Yes
        }
    }

    /// Whether nothing is left to be done.
    fn is_drained(&self) -> (drained: bool)
        ensures
            drained == self@.drained(),
    {
        proof {
            lemma_view_dom(self.inbound_substreams@);
            lemma_empty_map(self.inbound_substreams@);
            lemma_empty_map(self.outbound_substreams@);
        }
        dials_is_empty(&self.dial_queue) && self.outbound_substreams.is_empty()
            && self.inbound_substreams.is_empty() && events_is_empty(&self.events_out)
            && self.dial_negotiated == 0
    }

    /// Takes a request that the peer has sent. Where this returns a number, the
    /// substream is to be kept under it, with a timer for its response.
    pub fn inject_fully_negotiated_inbound(
        &mut self,
        req: InboundRequest,
        now: u64,
    ) -> (registered: Option<SubstreamId>)
        requires
            old(self)@.wf(),
            old(self)@.takes(req) ==> old(self)@.next_inbound < usize::MAX,
        ensures
            final(self)@.wf(),
            old(self)@.evolves_to(final(self)@),
            (final(self)@, registered) == old(self)@.inbound_negotiated(req, now),
    {
        if !matches!(self.state, HandlerState::Active) {
            return None;
        }
        let ghost before = self.inbound_substreams@;
        proof {
            lemma_view_dom(before);
        }
        let expected_responses: u64 = req.expected_responses();
        let mut registered: Option<SubstreamId> = None;
        if expected_responses > 0 {
            if table_len(&self.inbound_substreams) < MAX_INBOUND_SUBSTREAMS {
                let capacity: usize = if expected_responses < 128 {
                    expected_responses as usize
                } else {
                    128
                };
                let info = InboundInfo {
                    state: InboundState::Idle,
                    pending_items: VecDeque::with_capacity(capacity),
                    protocol: req.protocol(),
                    remaining_chunks: expected_responses,
                    request_start_time: now,
                    timed: true,
                };
                table_insert(
                    &mut self.inbound_substreams,
                    self.current_inbound_substream_id.0,
                    info,
                );
                registered = Some(self.current_inbound_substream_id);
                proof {
                    lemma_entry_replaced(before, self.current_inbound_substream_id.0, info);
                }
            } else {
                events_push(&mut self.events_out, Err("HandlerRejected"));
                self.shutdown(None);
                return None;
            }
        }
        assert(!old(self)@.inbound.dom().contains(old(self)@.next_inbound));
        self.current_inbound_substream_id = SubstreamId(self.current_inbound_substream_id.0 + 1);
        if let InboundRequest::Goodbye(_) = req {
            self.shutdown(None);
        }
        events_push(
            &mut self.events_out,
            Ok(
                RPCReceived::Request(
                    SubstreamId(self.current_inbound_substream_id.0 - 1),
                    req,
                ),
            ),
        );
        assert(self@ =~= old(self)@.inbound_negotiated(req, now).0);
        registered
    }

    /// Takes a substream that has been negotiated for a request. Where this returns a
    /// number, the substream is to be kept under it, with a timer for the response.
    pub fn inject_fully_negotiated_outbound(
        &mut self,
        id: HandlerId,
        request: OutboundRequest,
    ) -> (registered: Option<SubstreamId>)
        requires
            old(self)@.wf(),
            old(self)@.negotiated > 0,
            outbound_expected(request) > 0 ==> old(self)@.next_outbound < usize::MAX,
        ensures
            final(self)@.wf(),
            old(self)@.evolves_to(final(self)@),
            (final(self)@, registered) == old(self)@.outbound_negotiated(id, request),
    {
        self.dial_negotiated -= 1;
        let proto = request.protocol();
        if matches!(self.state, HandlerState::Deactivated) {
            events_push(&mut self.events_out, Err("HandlerState::Deactivated"));
        }
        let expected_responses: u64 = request.expected_responses();
        if expected_responses > 0 {
            let remaining_chunks: Option<u64> = if expected_responses > 1 {
                Some(expected_responses)
            } else {
                None
            };
            let key: usize = self.current_outbound_substream_id.0;
            table_insert(
                &mut self.outbound_substreams,
                key,
                OutboundInfo {
                    state: OutboundSubstreamState::RequestPendingResponse { request },
                    proto,
                    remaining_chunks,
                    req_id: id,
                },
            );
            self.current_outbound_substream_id = SubstreamId(key + 1);
            assert(self@ =~= old(self)@.outbound_negotiated(id, request).0);
            return Some(SubstreamId(key));
        }
        None
    }

    /// Takes what is to be sent over the connection.
    pub fn inject_event(&mut self, rpc_event: RPCSend<HandlerId>)
        requires
            old(self)@.wf(),
        ensures
            final(self)@.wf(),
            old(self)@.evolves_to(final(self)@),
            final(self)@ == (match rpc_event {
                RPCSend::Request(id, req) => old(self)@.request_sent(id, req),
                RPCSend::Response(inbound_id, response) => old(self)@.response_sent(
                    inbound_id,
                    response,
                ),
            }),
    {
        match rpc_event {
            RPCSend::Request(id, req) => self.send_request(id, req),
            RPCSend::Response(inbound_id, response) => self.send_response(inbound_id, response),
        }
    }

    /// Takes the failure to negotiate a substream for a request.
    pub fn inject_dial_upgrade_error(
        &mut self,
        id: HandlerId,
        req: OutboundRequest,
        error: DialUpgradeError,
    )
        requires
            old(self)@.wf(),
            old(self)@.negotiated > 0 || old(self)@.tries_again(error),
        ensures
            final(self)@.wf(),
            old(self)@.evolves_to(final(self)@),
            final(self)@ == old(self)@.dial_failed(id, req, error),
    {
        if let DialUpgradeError::Apply(RPCError::Error) = error {
            self.outbound_io_error_retries += 1;
            if self.outbound_io_error_retries < IO_ERROR_RETRIES {
                self.send_request(id, req);
                return;
            }
        }
        self.dial_negotiated -= 1;
        self.outbound_io_error_retries = 0;
        events_push(&mut self.events_out, Err("Dial upgrade error"));
    }
}

// Polling

/// What became of a timer.
#[derive(Debug, Clone, Copy, PartialEq)]
pub enum TimerTick {
    /// The timer of this substream ran out.
    Expired(SubstreamId),
    /// The timers failed.
    Failed,
    /// No timer ran out.
    Idle,
}

/// What became of sending a response.
#[derive(Debug, Clone, Copy, PartialEq)]
pub enum SendProgress {
    Pending,
    Sent { closed: bool },
    Failed(RPCError),
}

/// What became of closing an inbound substream.
#[derive(Debug, Clone, Copy, PartialEq)]
pub enum CloseProgress {
    Pending,
    Closed(Result<(), RPCError>),
}

/// What became of waiting for a response.
#[derive(Debug)]
pub enum ResponseProgress {
    Pending,
    Response(RPCCodedResponse),
    Ended,
    Failed(RPCError),
}

/// What a poll comes to.
#[derive(Debug)]
pub enum HandlerOutput {
    /// Report an event.
    Event(HandlerEvent<HandlerId>),
    /// Close the connection.
    Close(RPCError),
    /// Open a substream for a request.
    OutboundSubstreamRequest { protocol: OutboundRequestContainer, id: HandlerId },
    /// There is nothing to do for now.
    Pending,
}

/// What is to be done to a substream's timer before a poll goes on.
#[derive(Debug, Clone, Copy, PartialEq)]
pub enum TimerChange {
    ResetInbound(SubstreamId),
    RemoveInbound(SubstreamId),
    ResetOutbound(SubstreamId),
    RemoveOutbound(SubstreamId),
}

/// How a poll goes on. Where there is a queue of substreams, it is about the last.
#[derive(Debug)]
pub enum PollNext {
    /// The poll has ended.
    Ready(HandlerOutput),
    /// See whether the time to shut down has run out, and call `shutdown_timer_polled`.
    ShutdownTimer,
    /// See whether an inbound timer has run out, and call `inbound_timer_polled`.
    InboundTimers,
    /// See whether an outbound timer has run out, and call `outbound_timer_polled`.
    OutboundTimers,
    /// Call `visit_inbound`.
    VisitInbound { queue: Vec<usize> },
    /// Start to send a response, see how that goes, and call `send_polled`.
    StartSend { queue: Vec<usize>, message: RPCCodedResponse, last_chunk: bool },
    /// See how sending a response goes, and call `send_polled`.
    PollSend { queue: Vec<usize> },
    /// Try to close the substream, and call `inbound_close_polled`.
    CloseInbound { queue: Vec<usize> },
    /// Call `visit_outbound`.
    VisitOutbound { queue: Vec<usize> },
    /// See whether a response has arrived, and call `response_polled`.
    NextResponse { queue: Vec<usize> },
    /// Try to close the substream, and call `outbound_close_polled`.
    CloseOutbound { queue: Vec<usize> },
}

/// A step of a poll.
#[derive(Debug)]
pub struct PollStep {
    pub timer: Option<TimerChange>,
    pub next: PollNext,
}

/// How a poll goes on, with its queues as sequences.
pub enum NextView {
    Ready(HandlerOutput),
    ShutdownTimer,
    InboundTimers,
    OutboundTimers,
    VisitInbound { queue: Seq<usize> },
    StartSend { queue: Seq<usize>, message: RPCCodedResponse, last_chunk: bool },
    PollSend { queue: Seq<usize> },
    CloseInbound { queue: Seq<usize> },
    VisitOutbound { queue: Seq<usize> },
    NextResponse { queue: Seq<usize> },
    CloseOutbound { queue: Seq<usize> },
}

impl View for PollNext {
    type V = NextView;

    open spec fn view(&self) -> NextView {
        match *self {
            PollNext::Ready(output) => NextView::Ready(output),
            PollNext::ShutdownTimer => NextView::ShutdownTimer,
            PollNext::InboundTimers => NextView::InboundTimers,
            PollNext::OutboundTimers => NextView::OutboundTimers,
            PollNext::VisitInbound { queue } => NextView::VisitInbound { queue: queue@ },
            PollNext::StartSend { queue, message, last_chunk } => NextView::StartSend {
                queue: queue@,
                message,
                last_chunk,
            },
            PollNext::PollSend { queue } => NextView::PollSend { queue: queue@ },
            PollNext::CloseInbound { queue } => NextView::CloseInbound { queue: queue@ },
            PollNext::VisitOutbound { queue } => NextView::VisitOutbound { queue: queue@ },
            PollNext::NextResponse { queue } => NextView::NextResponse { queue: queue@ },
            PollNext::CloseOutbound { queue } => NextView::CloseOutbound { queue: queue@ },
        }
    }
}

/// Whether a queue holds only substreams of a table, and none twice.
pub open spec fn visits(queue: Seq<usize>, table: Set<usize>) -> bool {
    &&& queue.no_duplicates()
    &&& forall|i: int| 0 <= i < queue.len() ==> table.contains(#[trigger] queue[i])
}

/// Whether a queue holds each substream of a table once.
pub open spec fn enumerates(queue: Seq<usize>, table: Set<usize>) -> bool {
    &&& queue.no_duplicates()
    &&& queue.to_set() == table
}

/// Whether the last response that waits on a substream is not the failure that
/// would end it.
pub open spec fn ends_in_success(pending_items: Seq<RPCCodedResponse>) -> bool {
    pending_items.len() > 0 && pending_items.last() is Success
}

/// A step of a poll that leaves the timers alone.
pub open spec fn step_to(next: NextView) -> (Option<TimerChange>, NextView) {
    (None, next)
}

impl HandlerView {
    /// Whether the handler is in the state that a step speaks of.
    pub open spec fn awaits(self, next: NextView) -> bool {
        match next {
            NextView::Ready(_) => true,
            NextView::ShutdownTimer => self.state is ShuttingDown,
            NextView::InboundTimers | NextView::OutboundTimers => true,
            NextView::VisitInbound { queue } => visits(queue, self.inbound.dom()),
            NextView::StartSend { queue, .. } | NextView::PollSend { queue } => {
                &&& visits(queue, self.inbound.dom())
                &&& queue.len() > 0
                &&& self.inbound[queue.last()].state is Busy
            },
            NextView::CloseInbound { queue } => {
                &&& visits(queue, self.inbound.dom())
                &&& queue.len() > 0
                &&& self.inbound[queue.last()].state is Idle
                &&& self.state is Deactivated
            },
            NextView::VisitOutbound { queue } => visits(queue, self.outbound.dom()),
            NextView::NextResponse { queue } => {
                &&& visits(queue, self.outbound.dom())
                &&& queue.len() > 0
                &&& self.outbound[queue.last()].state is RequestPendingResponse
                &&& !(self.state is Deactivated)
            },
            NextView::CloseOutbound { queue } => {
                &&& visits(queue, self.outbound.dom())
                &&& queue.len() > 0
                &&& self.outbound[queue.last()].state is Closing
            },
        }
    }

    /// A poll starts by reporting the oldest event. Only when there is none are the
    /// timers looked at.
    pub open spec fn poll_started(self) -> (HandlerView, (Option<TimerChange>, NextView)) {
        if self.events.len() > 0 {
            (
                HandlerView { events: self.events.drop_first(), ..self },
                step_to(NextView::Ready(HandlerOutput::Event(self.events[0]))),
            )
        } else if self.state is ShuttingDown {
            (self, step_to(NextView::ShutdownTimer))
        } else {
            (self, step_to(NextView::InboundTimers))
        }
    }

    /// When the time to shut down has run out, the handler is deactivated and the
    /// connection closed.
    pub open spec fn shutdown_timer_answered(self, elapsed: bool) -> (
        HandlerView,
        (Option<TimerChange>, NextView),
    ) {
        if elapsed {
            (
                HandlerView { state: HandlerState::Deactivated, ..self },
                step_to(NextView::Ready(HandlerOutput::Close(RPCError::Error))),
            )
        } else {
            (self, step_to(NextView::InboundTimers))
        }
    }

    /// When the time for a response has run out, that is reported, and the responses
    /// that wait on the substream are ended by a failure.
    pub open spec fn inbound_timer_answered(self, tick: TimerTick) -> (
        HandlerView,
        (Option<TimerChange>, NextView),
    ) {
        match tick {
            TimerTick::Expired(id) => {
                let handler = if self.inbound.dom().contains(id.0) {
                    let info = self.inbound[id.0];
                    HandlerView {
                        inbound: self.inbound.insert(
                            id.0,
                            InboundView {
                                timed: false,
                                pending_items: if ends_in_success(info.pending_items) {
                                    info.pending_items.push(RPCCodedResponse::Error)
                                } else {
                                    info.pending_items
                                },
                                ..info
                            },
                        ),
                        ..self
                    }.with_event(failure("Stream Timeout"))
                } else {
                    self
                };
                (handler, step_to(NextView::InboundTimers))
            },
            TimerTick::Failed => (
                self,
                step_to(NextView::Ready(HandlerOutput::Close(RPCError::Error))),
            ),
            TimerTick::Idle => (self, step_to(NextView::OutboundTimers)),
        }
    }
}

impl RPCHandler {
    /// Starts a poll.
    pub fn poll(&mut self) -> (step: PollStep)
        requires
            old(self)@.wf(),
        ensures
            final(self)@.wf(),
            old(self)@.evolves_to(final(self)@),
            final(self)@.awaits(step.next@),
            (final(self)@, (step.timer, step.next@)) == old(self)@.poll_started(),
    {
        if !events_is_empty(&self.events_out) {
            let event = events_remove(&mut self.events_out, 0);
            assert(self@.events =~= old(self)@.events.drop_first());
            return PollStep { timer: None, next: PollNext::Ready(HandlerOutput::Event(event)) };
        }
        match self.state {
            HandlerState::ShuttingDown => PollStep { timer: None, next: PollNext::ShutdownTimer },
            _ => PollStep { timer: None, next: PollNext::InboundTimers },
        }
    }

    /// Goes on once it is known whether the time to shut down has run out.
    pub fn shutdown_timer_polled(&mut self, elapsed: bool) -> (step: PollStep)
        requires
            old(self)@.wf(),
            old(self)@.awaits(NextView::ShutdownTimer),
        ensures
            final(self)@.wf(),
            old(self)@.evolves_to(final(self)@),
            final(self)@.awaits(step.next@),
            (final(self)@, (step.timer, step.next@)) == old(self)@.shutdown_timer_answered(elapsed),
    {
        if elapsed {
            self.state = HandlerState::Deactivated;
            return PollStep {
                timer: None,
                next: PollNext::Ready(HandlerOutput::Close(RPCError::Error)),
            };
        }
        PollStep { timer: None, next: PollNext::InboundTimers }
    }

    /// Goes on once it is known what became of the inbound timers.
    pub fn inbound_timer_polled(&mut self, tick: TimerTick) -> (step: PollStep)
        requires
            old(self)@.wf(),
        ensures
            final(self)@.wf(),
            old(self)@.evolves_to(final(self)@),
            final(self)@.awaits(step.next@),
            (final(self)@, (step.timer, step.next@)) == old(self)@.inbound_timer_answered(tick),
    {
        match tick {
            TimerTick::Expired(id) => {
                let ghost before = self.inbound_substreams@;
                proof {
                    lemma_view_dom(before);
                }
                if let Some(mut info) = table_remove(&mut self.inbound_substreams, id.0) {
                    info.timed = false;
                    events_push(&mut self.events_out, Err("Stream Timeout"));
                    let waiting: usize = info.pending_items.len();
                    if waiting > 0 && !info.pending_items[waiting - 1].close_after() {
                        info.pending_items.push_back(RPCCodedResponse::Error);
                    }
                    table_insert(&mut self.inbound_substreams, id.0, info);
                    proof {
                        lemma_entry_replaced(before, id.0, info);
                        assert(self@ =~= old(self)@.inbound_timer_answered(tick).0);
                    }
                } else {
                    assert(before.remove(id.0) =~= before);
                }
                PollStep { timer: None, next: PollNext::InboundTimers }
            },
            TimerTick::Failed => PollStep {
                timer: None,
                next: PollNext::Ready(HandlerOutput::Close(RPCError::Error)),
            },
            TimerTick::Idle => PollStep { timer: None, next: PollNext::OutboundTimers },
        }
    }
}

impl HandlerView {
    /// When the time for a response from the peer has run out, its substream is
    /// dropped and that is reported. A timer of no substream is passed over.
    pub open spec fn outbound_timer_answered(self, tick: TimerTick, order: Seq<usize>) -> (
        HandlerView,
        (Option<TimerChange>, NextView),
    ) {
        match tick {
            TimerTick::Expired(id) => if self.outbound.dom().contains(id.0) {
                (
                    HandlerView { outbound: self.outbound.remove(id.0), ..self },
                    step_to(NextView::Ready(HandlerOutput::Event(failure("Stream Timeout")))),
                )
            } else {
                (self, step_to(NextView::OutboundTimers))
            },
            TimerTick::Failed => (
                self,
                step_to(NextView::Ready(HandlerOutput::Close(RPCError::Error))),
            ),
            TimerTick::Idle => (self, step_to(NextView::VisitInbound { queue: order })),
        }
    }

    /// An inbound substream on its turn: a response that is on its way is seen to, one
    /// that waits is sent, and a deactivated handler closes the substream. When none
    /// is left, it is the outbound substreams' turn.
    pub open spec fn inbound_visited(self, queue: Seq<usize>, order: Seq<usize>) -> (
        HandlerView,
        (Option<TimerChange>, NextView),
    ) {
        if queue.len() == 0 {
            (self, step_to(NextView::VisitOutbound { queue: order }))
        } else {
            let info = self.inbound[queue.last()];
            if info.state is Busy {
                (self, step_to(NextView::PollSend { queue }))
            } else if self.state is Deactivated {
                (self, step_to(NextView::CloseInbound { queue }))
            } else if info.pending_items.len() == 0 {
                (self, step_to(NextView::VisitInbound { queue: queue.drop_last() }))
            } else {
                let (handler, next) = self.response_started(queue, info);
                (handler, step_to(next))
            }
        }
    }

    /// The first response that waits on a substream is on its way.
    pub open spec fn response_started(self, queue: Seq<usize>, info: InboundView) -> (
        HandlerView,
        NextView,
    ) {
        (
            HandlerView {
                inbound: self.inbound.insert(
                    queue.last(),
                    InboundView {
                        state: InboundState::Busy,
                        pending_items: info.pending_items.drop_first(),
                        ..info
                    },
                ),
                ..self
            },
            NextView::StartSend {
                queue,
                message: info.pending_items[0],
                last_chunk: info.remaining_chunks <= 1,
            },
        )
    }

    /// An inbound substream is done with, and its timer with it.
    pub open spec fn inbound_dropped(self, queue: Seq<usize>) -> (
        HandlerView,
        (Option<TimerChange>, NextView),
    ) {
        (
            HandlerView { inbound: self.inbound.remove(queue.last()), ..self },
            (
                if self.inbound[queue.last()].timed {
                    Some(TimerChange::RemoveInbound(SubstreamId(queue.last())))
                } else {
                    None
                },
                NextView::VisitInbound { queue: queue.drop_last() },
            ),
        )
    }

    /// When a response has been sent, the next one that waits is. When the substream
    /// was closed behind it, or sending it failed, the substream is done with.
    pub open spec fn send_answered(self, queue: Seq<usize>, progress: SendProgress) -> (
        HandlerView,
        (Option<TimerChange>, NextView),
    ) {
        let id = queue.last();
        let info = self.inbound[id];
        match progress {
            SendProgress::Pending => (
                self,
                step_to(NextView::VisitInbound { queue: queue.drop_last() }),
            ),
            SendProgress::Sent { closed: false } => {
                let sent = InboundView {
                    remaining_chunks: if info.remaining_chunks > 0 {
                        (info.remaining_chunks - 1) as u64
                    } else {
                        0
                    },
                    ..info
                };
                let timer = if info.timed {
                    Some(TimerChange::ResetInbound(SubstreamId(id)))
                } else {
                    None
                };
                if !(self.state is Deactivated) && info.pending_items.len() > 0 {
                    let (handler, next) = self.response_started(queue, sent);
                    (handler, (timer, next))
                } else {
                    (
                        HandlerView {
                            inbound: self.inbound.insert(
                                id,
                                InboundView { state: InboundState::Idle, ..sent },
                            ),
                            ..self
                        },
                        (timer, NextView::VisitInbound { queue: queue.drop_last() }),
                    )
                }
            },
            SendProgress::Sent { closed: true } => self.inbound_dropped(queue),
            SendProgress::Failed(_) => {
                let (handler, step) = self.inbound_dropped(queue);
                (handler.with_event(failure("Response error")), step)
            },
        }
    }

    /// When an inbound substream has been closed, it is done with. What went wrong with
    /// that, and a request that was not answered, are reported.
    pub open spec fn inbound_close_answered(self, queue: Seq<usize>, progress: CloseProgress) -> (
        HandlerView,
        (Option<TimerChange>, NextView),
    ) {
        match progress {
            CloseProgress::Pending => (
                self,
                step_to(NextView::VisitInbound { queue: queue.drop_last() }),
            ),
            CloseProgress::Closed(result) => {
                let (handler, step) = self.inbound_dropped(queue);
                let closed = if result is Err {
                    handler.with_event(failure("Error shutting down the substream"))
                } else {
                    handler
                };
                (
                    if ends_in_success(self.inbound[queue.last()].pending_items) {
                        closed.with_event(failure("Cancel Request"))
                    } else {
                        closed
                    },
                    step,
                )
            },
        }
    }
}

impl RPCHandler {
    /// Goes on once it is known what became of the outbound timers.
    pub fn outbound_timer_polled(&mut self, tick: TimerTick) -> (step: PollStep)
        requires
            old(self)@.wf(),
        ensures
            final(self)@.wf(),
            old(self)@.evolves_to(final(self)@),
            final(self)@.awaits(step.next@),
            exists|order: Seq<usize>| #[trigger]
                enumerates(order, old(self)@.inbound.dom()) && (
                final(self)@,
                (step.timer, step.next@),
                ) == old(self)@.outbound_timer_answered(tick, order),
    {
        let order: Vec<usize> = table_keys(&self.inbound_substreams);
        proof {
            lemma_view_dom(self.inbound_substreams@);
            assert(enumerates(order@, self@.inbound.dom()));
            lemma_enumeration_visits(order@, self@.inbound.dom());
        }
        match tick {
            TimerTick::Expired(id) => {
                if let Some(_) = table_remove(&mut self.outbound_substreams, id.0) {
                    PollStep {
                        timer: None,
                        next: PollNext::Ready(HandlerOutput::Event(Err("Stream Timeout"))),
                    }
                } else {
                    assert(self.outbound_substreams@ =~= old(self).outbound_substreams@);
                    PollStep { timer: None, next: PollNext::OutboundTimers }
                }
            },
            TimerTick::Failed => PollStep {
                timer: None,
                next: PollNext::Ready(HandlerOutput::Close(RPCError::Error)),
            },
            TimerTick::Idle => PollStep {
                timer: None,
                next: PollNext::VisitInbound { queue: order },
            },
        }
    }

    /// Sees to the last substream of a queue, or turns to the outbound substreams when
    /// the queue is empty.
    pub fn visit_inbound(&mut self, queue: Vec<usize>) -> (step: PollStep)
        requires
            old(self)@.wf(),
            old(self)@.awaits((NextView::VisitInbound { queue: queue@ })),
        ensures
            final(self)@.wf(),
            old(self)@.evolves_to(final(self)@),
            final(self)@.awaits(step.next@),
            exists|order: Seq<usize>| #[trigger]
                enumerates(order, old(self)@.outbound.dom()) && (
                final(self)@,
                (step.timer, step.next@),
                ) == old(self)@.inbound_visited(queue@, order),
    {
        let order: Vec<usize> = table_keys(&self.outbound_substreams);
        proof {
            assert(enumerates(order@, self@.outbound.dom()));
            lemma_enumeration_visits(order@, self@.outbound.dom());
            lemma_view_dom(self.inbound_substreams@);
        }
        if queue.len() == 0 {
            return PollStep { timer: None, next: PollNext::VisitOutbound { queue: order } };
        }
        let mut queue = queue;
        let ghost visited = queue@;
        let ghost before = self.inbound_substreams@;
        let id: usize = queue[queue.len() - 1];
        let mut info = table_remove(&mut self.inbound_substreams, id).unwrap();
        let deactivated = matches!(self.state, HandlerState::Deactivated);
        let next = match info.state {
            InboundState::Busy => PollNext::PollSend { queue },
            InboundState::Idle => if deactivated {
                PollNext::CloseInbound { queue }
            } else {
                match info.pending_items.pop_front() {
                    Some(message) => {
                        info.state = InboundState::Busy;
                        PollNext::StartSend {
                            queue,
                            message,
                            last_chunk: info.remaining_chunks <= 1,
                        }
                    },
                    None => {
                        queue.pop();
                        PollNext::VisitInbound { queue }
                    },
                }
            },
        };
        table_insert(&mut self.inbound_substreams, id, info);
        proof {
            lemma_entry_replaced(before, id, info);
            assert(self@ =~= old(self)@.inbound_visited(visited, order@).0);
        }
        PollStep { timer: None, next }
    }
}

impl RPCHandler {
    /// Goes on once it is known how sending a response goes.
    pub fn send_polled(&mut self, queue: Vec<usize>, progress: SendProgress) -> (step: PollStep)
        requires
            old(self)@.wf(),
            old(self)@.awaits((NextView::PollSend { queue: queue@ })),
        ensures
            final(self)@.wf(),
            old(self)@.evolves_to(final(self)@),
            final(self)@.awaits(step.next@),
            (final(self)@, (step.timer, step.next@)) == old(self)@.send_answered(queue@, progress),
    {
        let mut queue = queue;
        let ghost visited = queue@;
        let ghost before = self.inbound_substreams@;
        proof {
            lemma_view_dom(before);
        }
        let id: usize = queue[queue.len() - 1];
        let mut info = table_remove(&mut self.inbound_substreams, id).unwrap();
        let deactivated = matches!(self.state, HandlerState::Deactivated);
        let timed = info.timed;
        match progress {
            SendProgress::Pending => {
                queue.pop();
                table_insert(&mut self.inbound_substreams, id, info);
                proof {
                    lemma_entry_replaced(before, id, info);
                    assert(self@ =~= old(self)@);
                }
                PollStep { timer: None, next: PollNext::VisitInbound { queue } }
            },
            SendProgress::Sent { closed: false } => {
                info.remaining_chunks = info.remaining_chunks.saturating_sub(1);
                let timer = if timed {
                    Some(TimerChange::ResetInbound(SubstreamId(id)))
                } else {
                    None
                };
                let message = if deactivated {
                    None
                } else {
                    info.pending_items.pop_front()
                };
                let next = match message {
                    Some(message) => {
                        info.state = InboundState::Busy;
                        PollNext::StartSend {
                            queue,
                            message,
                            last_chunk: info.remaining_chunks <= 1,
                        }
                    },
                    None => {
                        info.state = InboundState::Idle;
                        queue.pop();
                        PollNext::VisitInbound { queue }
                    },
                };
                table_insert(&mut self.inbound_substreams, id, info);
                proof {
                    lemma_entry_replaced(before, id, info);
                    assert(self@ =~= old(self)@.send_answered(visited, progress).0);
                }
                PollStep { timer, next }
            },
            SendProgress::Sent { closed: true } => {
                queue.pop();
                proof {
                    lemma_entry_replaced(before, id, info);
                    lemma_rest_is_visited(visited, old(self)@.inbound.dom());
                    assert(self@ =~= old(self)@.send_answered(visited, progress).0);
                }
                PollStep {
                    timer: inbound_timer_removed(timed, id),
                    next: PollNext::VisitInbound { queue },
                }
            },
            SendProgress::Failed(_) => {
                queue.pop();
                events_push(&mut self.events_out, Err("Response error"));
                proof {
                    lemma_entry_replaced(before, id, info);
                    lemma_rest_is_visited(visited, old(self)@.inbound.dom());
                    assert(self@ =~= old(self)@.send_answered(visited, progress).0);
                }
                PollStep {
                    timer: inbound_timer_removed(timed, id),
                    next: PollNext::VisitInbound { queue },
                }
            },
        }
    }

    /// Goes on once it is known how closing an inbound substream goes.
    pub fn inbound_close_polled(&mut self, queue: Vec<usize>, progress: CloseProgress) -> (step:
        PollStep)
        requires
            old(self)@.wf(),
            old(self)@.awaits((NextView::CloseInbound { queue: queue@ })),
        ensures
            final(self)@.wf(),
            old(self)@.evolves_to(final(self)@),
            final(self)@.awaits(step.next@),
            (final(self)@, (step.timer, step.next@)) == old(self)@.inbound_close_answered(
                queue@,
                progress,
            ),
    {
        let mut queue = queue;
        let ghost visited = queue@;
        let ghost before = self.inbound_substreams@;
        proof {
            lemma_view_dom(before);
            lemma_rest_is_visited(visited, self@.inbound.dom());
        }
        let id: usize = queue[queue.len() - 1];
        queue.pop();
        match progress {
            CloseProgress::Pending => PollStep {
                timer: None,
                next: PollNext::VisitInbound { queue },
            },
            CloseProgress::Closed(result) => {
                let info = table_remove(&mut self.inbound_substreams, id).unwrap();
                if let Err(_) = result {
                    events_push(&mut self.events_out, Err("Error shutting down the substream"));
                }
                let waiting: usize = info.pending_items.len();
                if waiting > 0 && !info.pending_items[waiting - 1].close_after() {
                    events_push(&mut self.events_out, Err("Cancel Request"));
                }
                proof {
                    lemma_entry_replaced(before, id, info);
                    assert(self@ =~= old(self)@.inbound_close_answered(visited, progress).0);
                }
                PollStep {
                    timer: inbound_timer_removed(info.timed, id),
                    next: PollNext::VisitInbound { queue },
                }
            },
        }
    }
}

impl HandlerView {
    /// An outbound substream on its turn: a response is waited for, unless the handler
    /// is deactivated, and a substream that is done with is closed. When none is left,
    /// the poll comes to its end.
    pub open spec fn outbound_visited(self, queue: Seq<usize>) -> (
        HandlerView,
        (Option<TimerChange>, NextView),
    ) {
        if queue.len() == 0 {
            let (handler, output) = self.poll_ended();
            (handler, step_to(NextView::Ready(output)))
        } else {
            let id = queue.last();
            let info = self.outbound[id];
            if info.state is Closing {
                (self, step_to(NextView::CloseOutbound { queue }))
            } else if self.state is Deactivated {
                (
                    HandlerView {
                        outbound: self.outbound.insert(
                            id,
                            OutboundInfo { state: OutboundSubstreamState::Closing, ..info },
                        ),
                        ..self
                    }.with_event(failure("Handler deactivated")),
                    step_to(NextView::VisitOutbound { queue: queue.drop_last() }),
                )
            } else {
                (self, step_to(NextView::NextResponse { queue }))
            }
        }
    }

    /// At the end of a poll the oldest request gets its substream, if not too many are
    /// being negotiated. A handler that is shutting down closes the connection once
    /// nothing is left to be done.
    pub open spec fn poll_ended(self) -> (HandlerView, HandlerOutput) {
        if self.dials.len() > 0 && self.negotiated < self.max_negotiated {
            (
                HandlerView {
                    negotiated: self.negotiated + 1,
                    dials: self.dials.drop_first(),
                    ..self
                },
                HandlerOutput::OutboundSubstreamRequest {
                    protocol: OutboundRequestContainer { req: self.dials[0].1 },
                    id: self.dials[0].0,
                },
            )
        } else if self.state is ShuttingDown && self.drained() {
            (self, HandlerOutput::Close(RPCError::Error))
        } else {
            (self, HandlerOutput::Pending)
        }
    }

    /// An outbound substream is done with, and its timer with it.
    pub open spec fn outbound_dropped(self, queue: Seq<usize>) -> HandlerView {
        HandlerView { outbound: self.outbound.remove(queue.last()), ..self }
    }

    /// When a response has arrived, it is reported, and the substream closed unless
    /// more of them are expected. When the peer has closed the substream, or it
    /// failed, it is done with and that is reported.
    pub open spec fn response_answered(self, queue: Seq<usize>, progress: ResponseProgress) -> (
        HandlerView,
        (Option<TimerChange>, NextView),
    ) {
        let id = queue.last();
        let info = self.outbound[id];
        let removal = Some(TimerChange::RemoveOutbound(SubstreamId(id)));
        match progress {
            ResponseProgress::Pending => (
                self,
                step_to(NextView::VisitOutbound { queue: queue.drop_last() }),
            ),
            ResponseProgress::Response(response) => {
                let more = more_expected(info, response);
                (
                    HandlerView {
                        outbound: self.outbound.insert(
                            id,
                            if more {
                                OutboundInfo {
                                    remaining_chunks: Some(chunks_left(info)),
                                    ..info
                                }
                            } else {
                                OutboundInfo { state: OutboundSubstreamState::Closing, ..info }
                            },
                        ),
                        ..self
                    },
                    (
                        if more {
                            Some(TimerChange::ResetOutbound(SubstreamId(id)))
                        } else {
                            None
                        },
                        NextView::Ready(
                            HandlerOutput::Event(
                                match response {
                                    RPCCodedResponse::Success(resp) => Ok(
                                        RPCReceived::Response(info.req_id, resp),
                                    ),
                                    RPCCodedResponse::Error => failure("RPC Error"),
                                },
                            ),
                        ),
                    ),
                )
            },
            ResponseProgress::Ended => (
                self.outbound_dropped(queue),
                (removal, NextView::Ready(HandlerOutput::Event(failure("Incomplete response")))),
            ),
            ResponseProgress::Failed(_) => (
                self.outbound_dropped(queue),
                (removal, NextView::Ready(HandlerOutput::Event(failure("Stream dropped")))),
            ),
        }
    }

    /// When an outbound substream has been closed, it is done with.
    pub open spec fn outbound_close_answered(self, queue: Seq<usize>, closed: bool) -> (
        HandlerView,
        (Option<TimerChange>, NextView),
    ) {
        let next = NextView::VisitOutbound { queue: queue.drop_last() };
        if closed {
            (
                self.outbound_dropped(queue),
                (Some(TimerChange::RemoveOutbound(SubstreamId(queue.last()))), next),
            )
        } else {
            (self, step_to(next))
        }
    }
}

/// How many responses an outbound substream awaits once one has arrived.
pub open spec fn chunks_left(info: OutboundInfo) -> u64 {
    match info.remaining_chunks {
        Some(count) => if count > 0 {
            (count - 1) as u64
        } else {
            0
        },
        None => 0,
    }
}

/// Whether more responses are expected behind this one.
pub open spec fn more_expected(info: OutboundInfo, response: RPCCodedResponse) -> bool {
    match info.state {
        OutboundSubstreamState::RequestPendingResponse { request } => {
            &&& outbound_expected(request) > 1
            &&& response is Success
            &&& chunks_left(info) > 0
        },
        _ => false,
    }
}

impl RPCHandler {
    /// Sees to the last substream of a queue, or ends the poll when the queue is empty.
    pub fn visit_outbound(&mut self, queue: Vec<usize>) -> (step: PollStep)
        requires
            old(self)@.wf(),
            old(self)@.awaits((NextView::VisitOutbound { queue: queue@ })),
        ensures
            final(self)@.wf(),
            old(self)@.evolves_to(final(self)@),
            final(self)@.awaits(step.next@),
            (final(self)@, (step.timer, step.next@)) == old(self)@.outbound_visited(queue@),
    {
        if queue.len() == 0 {
            let output = self.end_poll();
            return PollStep { timer: None, next: PollNext::Ready(output) };
        }
        let mut queue = queue;
        let id: usize = queue[queue.len() - 1];
        let mut info: OutboundInfo = *table_get(&self.outbound_substreams, id).unwrap();
        let deactivated = matches!(self.state, HandlerState::Deactivated);
        match info.state {
            OutboundSubstreamState::RequestPendingResponse { request: _ } => if deactivated {
                info.state = OutboundSubstreamState::Closing;
                table_insert(&mut self.outbound_substreams, id, info);
                events_push(&mut self.events_out, Err("Handler deactivated"));
                queue.pop();
                assert(self@.outbound.dom() =~= old(self)@.outbound.dom());
                PollStep { timer: None, next: PollNext::VisitOutbound { queue } }
            } else {
                PollStep { timer: None, next: PollNext::NextResponse { queue } }
            },
            _ => PollStep { timer: None, next: PollNext::CloseOutbound { queue } },
        }
    }

    /// Ends a poll.
    fn end_poll(&mut self) -> (output: HandlerOutput)
        requires
            old(self)@.wf(),
        ensures
            final(self)@.wf(),
            old(self)@.evolves_to(final(self)@),
            (final(self)@, output) == old(self)@.poll_ended(),
    {
        if !dials_is_empty(&self.dial_queue) && self.dial_negotiated < self.max_dial_negotiated {
            self.dial_negotiated += 1;
            let (id, req) = dials_remove(&mut self.dial_queue, 0);
            assert(self@.dials =~= old(self)@.dials.drop_first());
            return HandlerOutput::OutboundSubstreamRequest {
                protocol: OutboundRequestContainer { req },
                id,
            };
        }
        if let HandlerState::ShuttingDown = self.state {
            if self.is_drained() {
                return HandlerOutput::Close(RPCError::Error);
            }
        }
        HandlerOutput::Pending
    }

    /// Goes on once it is known whether a response has arrived.
    pub fn response_polled(&mut self, queue: Vec<usize>, progress: ResponseProgress) -> (step:
        PollStep)
        requires
            old(self)@.wf(),
            old(self)@.awaits((NextView::NextResponse { queue: queue@ })),
        ensures
            final(self)@.wf(),
            old(self)@.evolves_to(final(self)@),
            final(self)@.awaits(step.next@),
            (final(self)@, (step.timer, step.next@)) == old(self)@.response_answered(
                queue@,
                progress,
            ),
    {
        let mut queue = queue;
        let id: usize = queue[queue.len() - 1];
        let mut info: OutboundInfo = *table_get(&self.outbound_substreams, id).unwrap();
        match progress {
            ResponseProgress::Pending => {
                queue.pop();
                PollStep { timer: None, next: PollNext::VisitOutbound { queue } }
            },
            ResponseProgress::Response(response) => {
                let expected_responses: u64 = match info.state {
                    OutboundSubstreamState::RequestPendingResponse { request } => {
                        request.expected_responses()
                    },
                    _ => 0,
                };
                let remaining_chunks: u64 = match info.remaining_chunks {
                    Some(count) => count.saturating_sub(1),
                    None => 0,
                };
                let mut timer: Option<TimerChange> = None;
                if expected_responses > 1 && !response.close_after() && remaining_chunks > 0 {
                    info.remaining_chunks = Some(remaining_chunks);
                    timer = Some(TimerChange::ResetOutbound(SubstreamId(id)));
                } else {
                    info.state = OutboundSubstreamState::Closing;
                }
                table_insert(&mut self.outbound_substreams, id, info);
                assert(self@.outbound.dom() =~= old(self)@.outbound.dom());
                let received = match response {
                    RPCCodedResponse::Success(resp) => Ok(RPCReceived::Response(info.req_id, resp)),
                    RPCCodedResponse::Error => Err("RPC Error"),
                };
                PollStep { timer, next: PollNext::Ready(HandlerOutput::Event(received)) }
            },
            ResponseProgress::Ended => {
                table_remove(&mut self.outbound_substreams, id);
                PollStep {
                    timer: Some(TimerChange::RemoveOutbound(SubstreamId(id))),
                    next: PollNext::Ready(HandlerOutput::Event(Err("Incomplete response"))),
                }
            },
            ResponseProgress::Failed(_) => {
                table_remove(&mut self.outbound_substreams, id);
                PollStep {
                    timer: Some(TimerChange::RemoveOutbound(SubstreamId(id))),
                    next: PollNext::Ready(HandlerOutput::Event(Err("Stream dropped"))),
                }
            },
        }
    }

    /// Goes on once it is known whether an outbound substream has been closed.
    pub fn outbound_close_polled(&mut self, queue: Vec<usize>, closed: bool) -> (step: PollStep)
        requires
            old(self)@.wf(),
            old(self)@.awaits((NextView::CloseOutbound { queue: queue@ })),
        ensures
            final(self)@.wf(),
            old(self)@.evolves_to(final(self)@),
            final(self)@.awaits(step.next@),
            (final(self)@, (step.timer, step.next@)) == old(self)@.outbound_close_answered(
                queue@,
                closed,
            ),
    {
        let mut queue = queue;
        proof {
            lemma_rest_is_visited(queue@, self@.outbound.dom());
        }
        let id: usize = queue[queue.len() - 1];
        queue.pop();
        if closed {
            table_remove(&mut self.outbound_substreams, id);
            return PollStep {
                timer: Some(TimerChange::RemoveOutbound(SubstreamId(id))),
                next: PollNext::VisitOutbound { queue },
            };
        }
        PollStep { timer: None, next: PollNext::VisitOutbound { queue } }
    }
}

// Sending

/// What is to be done after a response was sent, or sending it failed.
#[derive(Debug, Clone, Copy, PartialEq)]
pub enum SendStep {
    /// Close the substream, and call `substream_closed`.
    Close,
    /// Sending the response has come to this: whether the substream was closed.
    Done(Result<bool, RPCError>),
}

/// Whether the substream is closed behind a response: behind the last one, behind a
/// failure, and when sending failed.
pub fn message_sent(is_error: bool, last_chunk: bool, send_result: Result<(), RPCError>) -> (step:
    SendStep)
    ensures
        step == (if last_chunk || is_error || send_result is Err {
            SendStep::Close
        } else {
            SendStep::Done(Ok(false))
        }),
{
    if last_chunk || is_error || send_result.is_err() {
        return SendStep::Close;
    }
    SendStep::Done(Ok(false))
}

/// What sending a response comes to once the substream has been closed behind it.
pub fn substream_closed(
    send_result: Result<(), RPCError>,
    close_result: Result<(), RPCError>,
) -> (result: Result<bool, RPCError>)
    ensures
        result == (match (send_result, close_result) {
            (Err(e), _) => Err::<bool, RPCError>(e),
            (Ok(_), Err(e)) => Err::<bool, RPCError>(e),
            (Ok(_), Ok(_)) => Ok::<bool, RPCError>(true),
        }),
{
    match send_result {
        Err(e) => Err(e),
        Ok(()) => match close_result {
            Err(e) => Err(e),
            Ok(()) => Ok(true),
        },
    }
}

// Laws

/// What a handler can come to be like in two steps, it can come to be like.
pub proof fn law_evolution_is_transitive(a: HandlerView, b: HandlerView, c: HandlerView)
    requires
        a.evolves_to(b),
        b.evolves_to(c),
    ensures
        a.evolves_to(c),
{
}

/// Events are reported in the order in which they came up: one that comes up later
/// changes nothing in what is reported now.
pub proof fn law_events_are_reported_in_order(
    handler: HandlerView,
    event: HandlerEvent<HandlerId>,
)
    requires
        handler.events.len() > 0,
    ensures
        handler.poll_started().1 == handler.with_event(event).poll_started().1,
        handler.poll_started().0.with_event(event) == handler.with_event(event).poll_started().0,
{
    assert(handler.events.push(event).drop_first() =~= handler.events.drop_first().push(event));
}

/// A peer that has as many substreams open as it may is refused, and the handler is
/// shut down.
pub proof fn law_too_many_substreams_are_refused(
    handler: HandlerView,
    req: InboundRequest,
    now: u64,
)
    requires
        handler.wf(),
        handler.state is Active,
        handler.inbound.dom().len() == MAX_INBOUND_SUBSTREAMS,
        !(req is Goodbye),
    ensures
        handler.inbound_negotiated(req, now).1 is None,
        handler.inbound_negotiated(req, now).0.state is ShuttingDown,
        handler.inbound_negotiated(req, now).0.inbound == handler.inbound,
        handler.inbound_negotiated(req, now).0.events[handler.events.len() as int] == failure(
            "HandlerRejected",
        ),
{
}

/// A request that is owed a response is answered with the response that is given for
/// it. That is the last one, so that the substream is closed and done with.
pub proof fn law_request_is_answered_once(
    handler: HandlerView,
    req: InboundRequest,
    now: u64,
    response: RPCCodedResponse,
    queue: Seq<usize>,
    order: Seq<usize>,
)
    requires
        handler.wf(),
        handler.state is Active,
        handler.inbound.dom().len() < MAX_INBOUND_SUBSTREAMS,
        handler.next_inbound < usize::MAX,
        !(req is Goodbye),
        queue.len() > 0,
        queue.last() == handler.next_inbound,
    ensures
        ({
            let id = SubstreamId(handler.next_inbound);
            let received = handler.inbound_negotiated(req, now);
            let answered = received.0.response_sent(id, response);
            let started = answered.inbound_visited(queue, order);
            let done = started.0.send_answered(queue, (SendProgress::Sent { closed: true }));
            &&& received.1 == Some(id)
            &&& received.0.events.last() == Ok::<RPCReceived<HandlerId>, &'static str>(
                RPCReceived::Request(id, req),
            )
            &&& started.1.1 == (NextView::StartSend {
                queue,
                message: response,
                last_chunk: true,
            })
            &&& done.0.inbound == handler.inbound
            &&& done.1.0 == Some(TimerChange::RemoveInbound(id))
        }),
{
    let id = SubstreamId(handler.next_inbound);
    let received = handler.inbound_negotiated(req, now).0;
    let answered = received.response_sent(id, response);
    let started = answered.inbound_visited(queue, order).0;
    let done = started.send_answered(queue, (SendProgress::Sent { closed: true })).0;
    assert(!handler.inbound.dom().contains(handler.next_inbound));
    assert(done.inbound =~= handler.inbound);
}

/// Responses go out on a substream in the order in which they were given.
pub proof fn law_responses_are_sent_in_order(
    handler: HandlerView,
    id: SubstreamId,
    response: RPCCodedResponse,
    queue: Seq<usize>,
    order: Seq<usize>,
)
    requires
        handler.wf(),
        !(handler.state is Deactivated),
        handler.inbound.dom().contains(id.0),
        handler.inbound[id.0].state is Idle,
        handler.inbound[id.0].pending_items.len() > 0,
        queue.len() > 0,
        queue.last() == id.0,
    ensures
        handler.inbound_visited(queue, order).1 == handler.response_sent(
            id,
            response,
        ).inbound_visited(queue, order).1,
        handler.inbound_visited(queue, order).0.response_sent(id, response)
            == handler.response_sent(id, response).inbound_visited(queue, order).0,
{
    let pending = handler.inbound[id.0].pending_items;
    assert(pending.push(response).drop_first() =~= pending.drop_first().push(response));
    assert(handler.inbound_visited(queue, order).0.response_sent(id, response).inbound
        =~= handler.response_sent(id, response).inbound_visited(queue, order).0.inbound);
}

/// A request that is sent gets a substream, and the response that arrives on it is
/// reported for that request.
pub proof fn law_response_is_reported_for_its_request(
    handler: HandlerView,
    id: HandlerId,
    req: OutboundRequest,
    response: RPCCodedResponse,
    queue: Seq<usize>,
)
    requires
        handler.wf(),
        handler.state is Active,
        handler.dials.len() == 0,
        handler.negotiated < handler.max_negotiated,
        handler.next_outbound < usize::MAX,
        !(req is Goodbye),
        queue.len() > 0,
        queue.last() == handler.next_outbound,
    ensures
        ({
            let dialed = handler.request_sent(id, req).poll_ended();
            let negotiated = dialed.0.outbound_negotiated(id, req);
            let answered = negotiated.0.response_answered(
                queue,
                ResponseProgress::Response(response),
            );
            let closed = answered.0.outbound_close_answered(queue, true);
            &&& dialed.1 == (HandlerOutput::OutboundSubstreamRequest {
                protocol: OutboundRequestContainer { req },
                id,
            })
            &&& negotiated.1 == Some(SubstreamId(handler.next_outbound))
            &&& negotiated.0.negotiated == handler.negotiated
            &&& answered.1.1 == NextView::Ready(
                HandlerOutput::Event(
                    match response {
                        RPCCodedResponse::Success(resp) => Ok(RPCReceived::Response(id, resp)),
                        RPCCodedResponse::Error => failure("RPC Error"),
                    },
                ),
            )
            &&& closed.0.outbound == handler.outbound
        }),
{
    let dialed = handler.request_sent(id, req).poll_ended();
    let negotiated = dialed.0.outbound_negotiated(id, req);
    let answered = negotiated.0.response_answered(queue, ResponseProgress::Response(response));
    let closed = answered.0.outbound_close_answered(queue, true);
    assert(handler.dials.push((id, req)).drop_first() =~= Seq::<(
        HandlerId,
        OutboundRequest,
    )>::empty());
    assert(!handler.outbound.dom().contains(handler.next_outbound));
    assert(closed.0.outbound =~= handler.outbound);
}

/// A request whose substream keeps failing to be negotiated is tried again until the
/// limit of failures in a row is reached. Then it fails, and counting starts anew.
pub proof fn law_dialing_gives_up(
    handler: HandlerView,
    id: HandlerId,
    req: OutboundRequest,
    error: RPCError,
)
    requires
        handler.wf(),
        handler.state is Active,
        handler.negotiated > 0,
    ensures
        ({
            let failed = handler.dial_failed(id, req, DialUpgradeError::Apply(error));
            if handler.io_retries < IO_ERROR_RETRIES - 1 {
                &&& failed.io_retries == handler.io_retries + 1
                &&& failed.dials == handler.dials.push((id, req))
                &&& failed.events == handler.events
            } else {
                &&& failed.io_retries == 0
                &&& failed.dials == handler.dials
                &&& failed.events == handler.events.push(failure("Dial upgrade error"))
                &&& failed.negotiated == handler.negotiated - 1
            }
        }),
{
}

/// A poll of a handler to which nothing has happened looks at every timer, visits no
/// substream, and finds nothing to do.
pub proof fn law_fresh_handler_is_idle(inbound_order: Seq<usize>, outbound_order: Seq<usize>)
    requires
        enumerates(inbound_order, HandlerView::fresh().inbound.dom()),
        enumerates(outbound_order, HandlerView::fresh().outbound.dom()),
    ensures
        ({
            let fresh = HandlerView::fresh();
            &&& fresh.poll_started() == (fresh, step_to(NextView::InboundTimers))
            &&& fresh.inbound_timer_answered(TimerTick::Idle) == (
                fresh,
                step_to(NextView::OutboundTimers),
            )
            &&& fresh.outbound_timer_answered(TimerTick::Idle, inbound_order) == (
                fresh,
                step_to((NextView::VisitInbound { queue: Seq::empty() })),
            )
            &&& fresh.inbound_visited(Seq::empty(), outbound_order) == (
                fresh,
                step_to((NextView::VisitOutbound { queue: Seq::empty() })),
            )
            &&& fresh.outbound_visited(Seq::empty()) == (
                fresh,
                step_to(NextView::Ready(HandlerOutput::Pending)),
            )
        }),
{
    lemma_empty_enumeration(inbound_order);
    lemma_empty_enumeration(outbound_order);
}

/// Nothing is enumerated of an empty table.
proof fn lemma_empty_enumeration(order: Seq<usize>)
    requires
        order.to_set() == Map::<usize, int>::empty().dom(),
    ensures
        order == Seq::<usize>::empty(),
{
    if order.len() > 0 {
        assert(order.to_set().contains(order[0]));
    }
    assert(order =~= Seq::empty());
}

impl HandlerView {
    /// How many responses wait on the last substream of a queue.
    pub open spec fn waiting(self, queue: Seq<usize>) -> nat {
        if queue.len() > 0 {
            self.inbound[queue.last()].pending_items.len()
        } else {
            0
        }
    }

    /// How far a poll is from its end: by what it is about, how many substreams it has yet
    /// to visit, and what is to be done with the one that it visits.
    pub open spec fn distance(self, next: NextView) -> (nat, nat, nat) {
        match next {
            NextView::Ready(_) => (0, 0, 0),
            NextView::VisitOutbound { queue } => (1, queue.len(), 1),
            NextView::NextResponse { queue } | NextView::CloseOutbound { queue } => (
                1,
                queue.len(),
                0,
            ),
            NextView::VisitInbound { queue } => (2, queue.len(), self.waiting(queue) + 1),
            NextView::StartSend { queue, .. } | NextView::PollSend { queue }
            | NextView::CloseInbound { queue } => (2, queue.len(), self.waiting(queue)),
            NextView::OutboundTimers => (3, 0, 0),
            NextView::InboundTimers => (4, 0, 0),
            NextView::ShutdownTimer => (5, 0, 0),
        }
    }

    /// Whether a step of a poll, as `(handler, (timer, next))`, is closer to its end than the
    /// step that this handler took before it.
    pub open spec fn closer(
        self,
        next: NextView,
        step: (HandlerView, (Option<TimerChange>, NextView)),
    ) -> bool {
        let from = self.distance(next);
        let to = step.0.distance(step.1.1);
        ||| to.0 < from.0
        ||| to.0 == from.0 && to.1 < from.1
        ||| to.0 == from.0 && to.1 == from.1 && to.2 < from.2
    }
}

/// A poll comes to an end: every step of it leads closer to that, but for those that take
/// note of a timer that ran out.
pub proof fn law_poll_comes_to_an_end(
    handler: HandlerView,
    queue: Seq<usize>,
    order: Seq<usize>,
    elapsed: bool,
    tick: TimerTick,
    send: SendProgress,
    close: CloseProgress,
    response: ResponseProgress,
    closed: bool,
)
    requires
        !(tick is Expired),
    ensures
        handler.closer(NextView::ShutdownTimer, handler.shutdown_timer_answered(elapsed)),
        handler.closer(NextView::InboundTimers, handler.inbound_timer_answered(tick)),
        handler.closer(NextView::OutboundTimers, handler.outbound_timer_answered(tick, order)),
        handler.closer(
            (NextView::VisitInbound { queue }),
            handler.inbound_visited(queue, order),
        ),
        handler.closer(
            (NextView::VisitOutbound { queue }),
            handler.outbound_visited(queue),
        ),
        queue.len() > 0 ==> {
            &&& handler.closer(
                (NextView::PollSend { queue }),
                handler.send_answered(queue, send),
            )
            &&& handler.closer(
                (NextView::CloseInbound { queue }),
                handler.inbound_close_answered(queue, close),
            )
            &&& handler.closer(
                (NextView::NextResponse { queue }),
                handler.response_answered(queue, response),
            )
            &&& handler.closer(
                (NextView::CloseOutbound { queue }),
                handler.outbound_close_answered(queue, closed),
            )
        },
{
}

/// A handler with nothing left to be done that is told to shut down closes the connection
/// at the end of its next poll.
pub proof fn law_idle_handler_closes_on_shutdown(handler: HandlerView)
    requires
        handler.state is Active,
        handler.drained(),
    ensures
        handler.shut_down(None).drained(),
        handler.shut_down(None).poll_ended().1 == HandlerOutput::Close(RPCError::Error),
{
    assert(handler.shut_down(None).events =~= Seq::empty());
}

/// The timer of an inbound substream that is done with is removed, if it has one.
fn inbound_timer_removed(timed: bool, id: usize) -> (timer: Option<TimerChange>)
    ensures
        timer == (if timed {
            Some(TimerChange::RemoveInbound(SubstreamId(id)))
        } else {
            None
        }),
{
    if timed {
        Some(TimerChange::RemoveInbound(SubstreamId(id)))
    } else {
        None
    }
}

/// When the last substream of a queue is done with, the others are still in the table.
proof fn lemma_rest_is_visited(queue: Seq<usize>, table: Set<usize>)
    requires
        queue.len() > 0,
        visits(queue, table),
    ensures
        visits(queue.drop_last(), table),
        visits(queue.drop_last(), table.remove(queue.last())),
{
}

/// A queue that holds each substream of a table once holds no others, and none twice.
proof fn lemma_enumeration_visits(queue: Seq<usize>, table: Set<usize>)
    requires
        enumerates(queue, table),
    ensures
        visits(queue, table),
{
    assert forall|i: int| 0 <= i < queue.len() implies table.contains(#[trigger] queue[i]) by {
        assert(queue.to_set().contains(queue[i]));
    }
}

/// A substream is in the view of the table if it is in the table.
proof fn lemma_view_dom(table: Map<usize, InboundInfo>)
    ensures
        table.map_values(|info: InboundInfo| info@).dom() == table.dom(),
{
    assert(table.map_values(|info: InboundInfo| info@).dom() =~= table.dom());
}

/// A map is empty if its domain is.
proof fn lemma_empty_map<V>(map: Map<usize, V>)
    ensures
        map.is_empty() == (map.dom() == Set::<usize>::empty()),
{
    if map.is_empty() {
        assert(map.dom() =~= Set::<usize>::empty());
    }
}

/// What setting the entry of an inbound substream does to the view of the table.
proof fn lemma_entry_replaced(table: Map<usize, InboundInfo>, id: usize, info: InboundInfo)
    ensures
        table.remove(id).insert(id, info).map_values(|info: InboundInfo| info@) == table.map_values(
            |info: InboundInfo| info@,
        ).insert(id, info@),
        table.insert(id, info).map_values(|info: InboundInfo| info@) == table.map_values(
            |info: InboundInfo| info@,
        ).insert(id, info@),
        table.remove(id).map_values(|info: InboundInfo| info@) == table.map_values(
            |info: InboundInfo| info@,
        ).remove(id),
        table.map_values(|info: InboundInfo| info@).dom() == table.dom(),
{
    let view = |info: InboundInfo| info@;
    assert(table.remove(id).insert(id, info).map_values(view) =~= table.map_values(view).insert(
        id,
        info@,
    ));
    assert(table.insert(id, info).map_values(view) =~= table.map_values(view).insert(id, info@));
    assert(table.remove(id).map_values(view) =~= table.map_values(view).remove(id));
    assert(table.map_values(view).dom() =~= table.dom());
}

} // verus!
