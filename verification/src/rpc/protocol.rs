//! The protocols of the request/response domain, their requests and limits.

use super::methods::{
    law_metadata_layout, law_ping_layout, law_status_layout, metadata_bytes, metadata_valid,
    ping_bytes, status_bytes, MetaData, MetaDataView, Ping, StatusMessage, METADATA_LEN, PING_LEN,
    STATUS_LEN,
};
use vstd::prelude::*;
use vstd::utf8::encode_utf8;

verus! {

/// The most bytes that a message may hold once it is decompressed.
pub const MAX_RPC_SIZE_POST_MERGE: usize = 10 * 1_048_576;

/// What every protocol's name starts with.
pub const PROTOCOL_PREFIX: &'static str = "/eth2/beacon_chain/req";

/// The encoding of the messages, as protocol names give it.
pub const ENCODING: &'static str = "ssz_snappy";

/// How many seconds the first byte of a request may take.
pub const TTFB_TIMEOUT: u64 = 5;

/// How many seconds a whole request may take.
pub const REQUEST_TIMEOUT: u64 = 15;

/// The error of a timer that ran out, from the `tokio` crate.
#[verifier::external_type_specification]
#[verifier::external_body]
pub struct ExElapsed(tokio::time::error::Elapsed);

/// The protocols of the domain.
#[derive(Debug, Clone, Copy, PartialEq, Eq, Structural)]
pub enum Protocol {
    Status,
    Goodbye,
    BlocksByRange,
    BlocksByRoot,
    Ping,
    MetaData,
    LightClientBootstrap,
}

/// The part of a protocol's name that tells it from the others.
pub open spec fn protocol_text(protocol: Protocol) -> Seq<char> {
    match protocol {
        Protocol::Status => "status"@,
        Protocol::Goodbye => "goodbye"@,
        Protocol::BlocksByRange => "beacon_blocks_by_range"@,
        Protocol::BlocksByRoot => "beacon_blocks_by_root"@,
        Protocol::Ping => "ping"@,
        Protocol::MetaData => "metadata"@,
        Protocol::LightClientBootstrap => "light_client_bootstrap"@,
    }
}

impl Protocol {
    /// The part of the protocol's name that tells it from the others.
    pub fn as_str(&self) -> (text: &'static str)
        ensures
            text@ == protocol_text(*self),
    {
        match self {
            Protocol::Status => "status",
            Protocol::Goodbye => "goodbye",
            Protocol::BlocksByRange => "beacon_blocks_by_range",
            Protocol::BlocksByRoot => "beacon_blocks_by_root",
            Protocol::Ping => "ping",
            Protocol::MetaData => "metadata",
            Protocol::LightClientBootstrap => "light_client_bootstrap",
        }
    }
}

/// The versions of a protocol.
#[derive(Debug, Clone, Copy, PartialEq, Eq, Structural)]
pub enum Version {
    V1,
    V2,
}

/// A version as it stands in a protocol's name.
pub open spec fn version_text(version: Version) -> Seq<char> {
    match version {
        Version::V1 => "1"@,
        Version::V2 => "2"@,
    }
}

impl Version {
    /// The version as it stands in a protocol's name.
    pub fn as_str(&self) -> (text: &'static str)
        ensures
            text@ == version_text(*self),
    {
        match self {
            Version::V1 => "1",
            Version::V2 => "2",
        }
    }
}

/// A protocol in one of its versions, with its name.
#[derive(Clone, Debug)]
pub struct ProtocolId {
    pub message_name: Protocol,
    pub version: Version,
    pub protocol_id: String,
}

/// The name of a protocol in one of its versions: prefix, protocol, version and
/// encoding with slashes between them.
pub open spec fn protocol_id_text(message_name: Protocol, version: Version) -> Seq<char> {
    PROTOCOL_PREFIX@ + "/"@ + protocol_text(message_name) + "/"@ + version_text(version) + "/"@
        + ENCODING@
}

/// How long the request of a protocol may be, as the shortest and longest length.
pub open spec fn request_limits(message_name: Protocol) -> RpcLimits {
    match message_name {
        Protocol::Status => RpcLimits { min: STATUS_LEN, max: STATUS_LEN },
        Protocol::Ping => RpcLimits { min: PING_LEN, max: PING_LEN },
        _ => RpcLimits { min: 0, max: 0 },
    }
}

/// How long the response of a protocol may be, as the shortest and longest length.
pub open spec fn response_limits(message_name: Protocol) -> RpcLimits {
    match message_name {
        Protocol::Status => RpcLimits { min: STATUS_LEN, max: STATUS_LEN },
        Protocol::Ping => RpcLimits { min: PING_LEN, max: PING_LEN },
        Protocol::MetaData => RpcLimits { min: METADATA_LEN, max: METADATA_LEN },
        _ => RpcLimits { min: 0, max: 0 },
    }
}

impl ProtocolId {
    /// The name that the protocol is negotiated by.
    pub open spec fn text(&self) -> Seq<char> {
        self.protocol_id@
    }

    /// Whether this is the given protocol in the given version under its own name.
    pub open spec fn denotes(&self, message_name: Protocol, version: Version) -> bool {
        &&& self.message_name == message_name
        &&& self.version == version
        &&& self.text() == protocol_id_text(message_name, version)
    }

    /// How long a request may be.
    pub fn rpc_request_limits(&self) -> (limits: RpcLimits)
        ensures
            limits == request_limits(self.message_name),
    {
        match self.message_name {
            Protocol::Status => RpcLimits::new(
                StatusMessage::ssz_fixed_len(),
                StatusMessage::ssz_fixed_len(),
            ),
            Protocol::Ping => RpcLimits::new(Ping::ssz_fixed_len(), Ping::ssz_fixed_len()),
            _ => RpcLimits::new(0, 0),
        }
    }

    /// How long a response may be.
    pub fn rpc_response_limits(&self) -> (limits: RpcLimits)
        ensures
            limits == response_limits(self.message_name),
    {
        match self.message_name {
            Protocol::Status => RpcLimits::new(
                StatusMessage::ssz_fixed_len(),
                StatusMessage::ssz_fixed_len(),
            ),
            Protocol::Ping => RpcLimits::new(Ping::ssz_fixed_len(), Ping::ssz_fixed_len()),
            Protocol::MetaData => RpcLimits::new(
                MetaData::ssz_fixed_len(),
                MetaData::ssz_fixed_len(),
            ),
            _ => RpcLimits::new(0, 0),
        }
    }

    /// Whether responses carry the fork digest before their payload.
    pub fn has_context_bytes(&self) -> (has: bool)
        ensures
            has == (self.message_name is BlocksByRange || self.message_name is BlocksByRoot),
    {
        match self.message_name {
            Protocol::BlocksByRange | Protocol::BlocksByRoot => true,
            _ => false,
        }
    }

    /// A protocol in one of its versions.
    pub fn new(message_name: Protocol, version: Version) -> (id: Self)
        ensures
            id.denotes(message_name, version),
    {
        let mut protocol_id: String = PROTOCOL_PREFIX.to_owned();
        protocol_id.append("/");
        protocol_id.append(message_name.as_str());
        protocol_id.append("/");
        protocol_id.append(version.as_str());
        protocol_id.append("/");
        protocol_id.append(ENCODING);
        ProtocolId { message_name, version, protocol_id }
    }

    /// The bytes of the name that the protocol is negotiated by.
    pub fn protocol_name(&self) -> (bytes: &[u8])
        ensures
            bytes@ == encode_utf8(self.text()),
    {
        self.protocol_id.as_str().as_bytes()
    }
}

/// Bounds on the length of a message.
#[derive(Debug, PartialEq, Structural)]
pub struct RpcLimits {
    pub min: usize,
    pub max: usize,
}

/// Whether a length lies outside of the bounds, or above the overall maximum.
pub open spec fn out_of_bounds(limits: RpcLimits, length: int, max_rpc_size: int) -> bool {
    length < limits.min || length > limits.max || length > max_rpc_size
}

impl RpcLimits {
    /// The bounds of the given shortest and longest length.
    pub fn new(min: usize, max: usize) -> (limits: Self)
        ensures
            limits == (RpcLimits { min, max }),
    {
        Self { min, max }
    }

    /// Whether a length lies outside of the bounds, or above the overall maximum.
    pub fn is_out_of_bounds(&self, length: usize, max_rpc_size: usize) -> (outside: bool)
        ensures
            outside == out_of_bounds(*self, length as int, max_rpc_size as int),
    {
        let upper: usize = if self.max < max_rpc_size {
            self.max
        } else {
            max_rpc_size
        };
        length > upper || length < self.min
    }
}

/// The listening side of the domain.
#[derive(Debug, Clone, Copy, PartialEq)]
pub struct RPCProtocol {}

/// The protocols that the node listens for, in the order of its preference.
pub open spec fn listened_protocols() -> Seq<(Protocol, Version)> {
    seq![
        (Protocol::Status, Version::V1),
        (Protocol::Goodbye, Version::V1),
        (Protocol::Ping, Version::V1),
        (Protocol::MetaData, Version::V2),
    ]
}

/// What is to be done with a substream that a peer has opened.
pub enum InboundUpgradeStep {
    /// The protocol has an empty request: it has arrived already.
    Done(InboundRequest),
    /// Read the first request. Its first byte may take `first_byte_secs`, the
    /// whole of it `request_secs` seconds.
    ReadRequest { first_byte_secs: u64, request_secs: u64 },
}

/// What came of reading the first request.
pub enum FirstRead {
    /// The time for a request ran out.
    TimedOut,
    /// A request was read.
    Request(InboundRequest),
    /// What was read is no request.
    Failed(RPCError),
    /// The peer closed the substream before a request.
    Closed,
}

impl RPCProtocol {
    /// The protocols that the node listens for.
    pub fn protocol_info(&self) -> (protocols: Vec<ProtocolId>)
        ensures
            protocols@.len() == listened_protocols().len(),
            forall|i: int|
                0 <= i < protocols@.len() ==> (#[trigger] protocols@[i]).denotes(
                    listened_protocols()[i].0,
                    listened_protocols()[i].1,
                ),
    {
        vec![
            ProtocolId::new(Protocol::Status, Version::V1),
            ProtocolId::new(Protocol::Goodbye, Version::V1),
            ProtocolId::new(Protocol::Ping, Version::V1),
            ProtocolId::new(Protocol::MetaData, Version::V2),
        ]
    }

    /// What is to be done with a substream that a peer has opened for `protocol`.
    pub fn upgrade_inbound(&self, protocol: &ProtocolId) -> (step: InboundUpgradeStep)
        ensures
            step == (if protocol.message_name is MetaData {
                InboundUpgradeStep::Done(InboundRequest::MetaData)
            } else {
                InboundUpgradeStep::ReadRequest {
                    first_byte_secs: TTFB_TIMEOUT,
                    request_secs: REQUEST_TIMEOUT,
                }
            }),
    {
        match protocol.message_name {
            Protocol::MetaData => InboundUpgradeStep::Done(InboundRequest::MetaData),
            _ => InboundUpgradeStep::ReadRequest {
                first_byte_secs: TTFB_TIMEOUT,
                request_secs: REQUEST_TIMEOUT,
            },
        }
    }

    /// The request that a substream was opened for, once reading it has ended.
    pub fn finish_upgrade_inbound(&self, read: FirstRead) -> (result: Result<
        InboundRequest,
        RPCError,
    >)
        ensures
            result == (match read {
                FirstRead::Request(request) => Ok(request),
                FirstRead::Failed(e) => Err(e),
                FirstRead::TimedOut => Err(RPCError::Error),
                FirstRead::Closed => Err(RPCError::Error),
            }),
    {
        match read {
            FirstRead::TimedOut => Err(RPCError::Error),
            FirstRead::Request(request) => Ok(request),
            FirstRead::Failed(e) => Err(e),
            FirstRead::Closed => Err(RPCError::Error),
        }
    }
}

/// A request that a peer has sent.
#[derive(Debug, Clone, Copy, PartialEq)]
pub enum InboundRequest {
    Status(StatusMessage),
    Goodbye(u64),
    Ping(Ping),
    MetaData,
}

/// The protocol that an inbound request belongs to.
pub open spec fn inbound_protocol(request: InboundRequest) -> Protocol {
    match request {
        InboundRequest::Status(_) => Protocol::Status,
        InboundRequest::Goodbye(_) => Protocol::Goodbye,
        InboundRequest::Ping(_) => Protocol::Ping,
        InboundRequest::MetaData => Protocol::MetaData,
    }
}

/// How many responses an inbound request is owed: one, but none for a goodbye.
pub open spec fn inbound_expected(request: InboundRequest) -> u64 {
    if request is Goodbye {
        0
    } else {
        1
    }
}

impl InboundRequest {
    /// How many responses the request is owed.
    pub fn expected_responses(&self) -> (count: u64)
        ensures
            count == inbound_expected(*self),
    {
        match self {
            InboundRequest::Status(_) => 1,
            InboundRequest::Goodbye(_) => 0,
            InboundRequest::Ping(_) => 1,
            InboundRequest::MetaData => 1,
        }
    }

    /// The protocol that the request belongs to.
    pub fn protocol(&self) -> (protocol: Protocol)
        ensures
            protocol == inbound_protocol(*self),
    {
        match self {
            InboundRequest::Status(_) => Protocol::Status,
            InboundRequest::Goodbye(_) => Protocol::Goodbye,
            InboundRequest::Ping(_) => Protocol::Ping,
            InboundRequest::MetaData => Protocol::MetaData,
        }
    }
}

/// A request on its way to be dialed.
#[derive(Debug, Clone, Copy)]
pub struct OutboundRequestContainer {
    pub req: OutboundRequest,
}

impl OutboundRequestContainer {
    /// The protocols that the request can be sent by.
    pub fn protocol_info(&self) -> (protocols: Vec<ProtocolId>)
        ensures
            protocols@.len() == 1,
            protocols@[0].denotes(outbound_protocol(self.req), outbound_version(self.req)),
    {
        self.req.supported_protocols()
    }
}

/// A request that this node sends.
#[derive(Debug, Clone, Copy, PartialEq)]
pub enum OutboundRequest {
    Status(StatusMessage),
    Goodbye(u64),
    Ping(Ping),
    MetaData,
}

/// The protocol that an outbound request belongs to.
pub open spec fn outbound_protocol(request: OutboundRequest) -> Protocol {
    match request {
        OutboundRequest::Status(_) => Protocol::Status,
        OutboundRequest::Goodbye(_) => Protocol::Goodbye,
        OutboundRequest::Ping(_) => Protocol::Ping,
        OutboundRequest::MetaData => Protocol::MetaData,
    }
}

/// The version of its protocol that an outbound request is sent by.
pub open spec fn outbound_version(request: OutboundRequest) -> Version {
    if request is MetaData {
        Version::V2
    } else {
        Version::V1
    }
}

/// How many responses an outbound request awaits: one, but none for a goodbye.
pub open spec fn outbound_expected(request: OutboundRequest) -> u64 {
    if request is Goodbye {
        0
    } else {
        1
    }
}

impl OutboundRequest {
    /// The protocols that the request can be sent by.
    pub fn supported_protocols(&self) -> (protocols: Vec<ProtocolId>)
        ensures
            protocols@.len() == 1,
            protocols@[0].denotes(outbound_protocol(*self), outbound_version(*self)),
    {
        match self {
            OutboundRequest::Status(_) => vec![ProtocolId::new(Protocol::Status, Version::V1)],
            OutboundRequest::Goodbye(_) => vec![ProtocolId::new(Protocol::Goodbye, Version::V1)],
            OutboundRequest::Ping(_) => vec![ProtocolId::new(Protocol::Ping, Version::V1)],
            OutboundRequest::MetaData => vec![ProtocolId::new(Protocol::MetaData, Version::V2)],
        }
    }

    /// How many responses the request awaits.
    pub fn expected_responses(&self) -> (count: u64)
        ensures
            count == outbound_expected(*self),
    {
        match self {
            OutboundRequest::Status(_) => 1,
            OutboundRequest::Goodbye(_) => 0,
            OutboundRequest::Ping(_) => 1,
            OutboundRequest::MetaData => 1,
        }
    }

    /// The protocol that the request belongs to.
    pub fn protocol(&self) -> (protocol: Protocol)
        ensures
            protocol == outbound_protocol(*self),
    {
        match self {
            OutboundRequest::Status(_) => Protocol::Status,
            OutboundRequest::Goodbye(_) => Protocol::Goodbye,
            OutboundRequest::Ping(_) => Protocol::Ping,
            OutboundRequest::MetaData => Protocol::MetaData,
        }
    }
}

/// Every protocol that this node sends a request by is one that it listens for.
pub proof fn law_outbound_protocols_are_listened_for(request: OutboundRequest)
    ensures
        listened_protocols().contains((outbound_protocol(request), outbound_version(request))),
{
    let listened = listened_protocols();
    assert(listened[0] == (Protocol::Status, Version::V1));
    assert(listened[1] == (Protocol::Goodbye, Version::V1));
    assert(listened[2] == (Protocol::Ping, Version::V1));
    assert(listened[3] == (Protocol::MetaData, Version::V2));
}

/// Different protocols, and different versions of one, go by different names.
pub proof fn law_protocol_names_differ(
    protocol_a: Protocol,
    version_a: Version,
    protocol_b: Protocol,
    version_b: Version,
)
    requires
        protocol_id_text(protocol_a, version_a) == protocol_id_text(protocol_b, version_b),
    ensures
        protocol_a == protocol_b,
        version_a == version_b,
{
    let a = protocol_id_text(protocol_a, version_a);
    let b = protocol_id_text(protocol_b, version_b);
    let start = PROTOCOL_PREFIX@.len() + 1;
    reveal_strlit("/");
    reveal_strlit("1");
    reveal_strlit("2");
    reveal_strlit("status");
    reveal_strlit("goodbye");
    reveal_strlit("beacon_blocks_by_range");
    reveal_strlit("beacon_blocks_by_root");
    reveal_strlit("ping");
    reveal_strlit("metadata");
    reveal_strlit("light_client_bootstrap");
    assert(version_text(version_a).len() == 1 && version_text(version_b).len() == 1);
    assert(a.len() == start + protocol_text(protocol_a).len() + 3 + ENCODING@.len());
    assert(b.len() == start + protocol_text(protocol_b).len() + 3 + ENCODING@.len());
    assert(a[start as int] == protocol_text(protocol_a)[0]);
    assert(b[start as int] == protocol_text(protocol_b)[0]);
    let version = start + protocol_text(protocol_a).len() + 1;
    assert(a[version as int] == version_text(version_a)[0]);
    assert(b[version as int] == version_text(version_b)[0]);
}

/// The name of a protocol is made up of four parts with slashes between them: what all names
/// start with, the protocol, its version and the encoding.
pub proof fn law_protocol_name_parts(protocol: Protocol, version: Version)
    ensures
        ({
            let text = protocol_id_text(protocol, version);
            let name = protocol_text(protocol).len() as int;
            &&& text.len() == 36 + name
            &&& text.subrange(0, 22) == "/eth2/beacon_chain/req"@
            &&& text[22] == '/'
            &&& text.subrange(23, 23 + name) == protocol_text(protocol)
            &&& text[23 + name] == '/'
            &&& text[24 + name] == (if version is V1 {
                '1'
            } else {
                '2'
            })
            &&& text[25 + name] == '/'
            &&& text.subrange(26 + name, 36 + name) == "ssz_snappy"@
        }),
{
    reveal_strlit("/eth2/beacon_chain/req");
    reveal_strlit("ssz_snappy");
    reveal_strlit("/");
    reveal_strlit("1");
    reveal_strlit("2");
    let text = protocol_id_text(protocol, version);
    let name = protocol_text(protocol).len() as int;
    assert(text.subrange(0, 22) =~= "/eth2/beacon_chain/req"@);
    assert(text.subrange(23, 23 + name) =~= protocol_text(protocol));
    assert(text.subrange(26 + name, 36 + name) =~= "ssz_snappy"@);
}

/// A request is owed one response, but a goodbye none, whoever sends it.
pub proof fn law_only_a_goodbye_is_owed_nothing(inbound: InboundRequest, outbound: OutboundRequest)
    ensures
        inbound is Goodbye <==> inbound_expected(inbound) == 0,
        inbound_expected(inbound) <= 1,
        outbound is Goodbye <==> outbound_expected(outbound) == 0,
        outbound_expected(outbound) <= 1,
{
}

/// Each kind of request has the protocol that is named for it, whoever sends it.
pub proof fn law_requests_have_their_protocols(inbound: InboundRequest, outbound: OutboundRequest)
    ensures
        inbound is Status <==> inbound_protocol(inbound) is Status,
        inbound is Goodbye <==> inbound_protocol(inbound) is Goodbye,
        inbound is Ping <==> inbound_protocol(inbound) is Ping,
        inbound is MetaData <==> inbound_protocol(inbound) is MetaData,
        outbound is Status <==> outbound_protocol(outbound) is Status,
        outbound is Goodbye <==> outbound_protocol(outbound) is Goodbye,
        outbound is Ping <==> outbound_protocol(outbound) is Ping,
        outbound is MetaData <==> outbound_protocol(outbound) is MetaData,
{
}

/// The node listens for four protocols and no others: metadata in its second version, the others
/// in their first. None is listed twice.
pub proof fn law_what_is_listened_for(protocol: Protocol, version: Version)
    ensures
        listened_protocols().len() == 4,
        listened_protocols().no_duplicates(),
        listened_protocols().contains((protocol, version)) <==> match protocol {
            Protocol::Status | Protocol::Goodbye | Protocol::Ping => version is V1,
            Protocol::MetaData => version is V2,
            _ => false,
        },
{
    let listened = listened_protocols();
    assert(listened[0] == (Protocol::Status, Version::V1));
    assert(listened[1] == (Protocol::Goodbye, Version::V1));
    assert(listened[2] == (Protocol::Ping, Version::V1));
    assert(listened[3] == (Protocol::MetaData, Version::V2));
}

/// A length is within bounds if it is neither below the shortest, nor above the longest, nor above
/// the overall maximum.
pub proof fn law_bounds(limits: RpcLimits, length: int, max_rpc_size: int)
    ensures
        !out_of_bounds(limits, length, max_rpc_size) <==> limits.min <= length <= limits.max
            && length <= max_rpc_size,
{
}

/// A response may be as long as its encoding is and no longer or shorter. Where there is no such
/// response it has to be empty.
pub proof fn law_response_limits_fit(
    protocol: Protocol,
    length: int,
    status: StatusMessage,
    ping: Ping,
    metadata: MetaDataView,
)
    requires
        metadata_valid(metadata),
    ensures
        !out_of_bounds(
            response_limits(protocol),
            length,
            MAX_RPC_SIZE_POST_MERGE as int,
        ) <==> length == match protocol {
            Protocol::Status => status_bytes(status).len() as int,
            Protocol::Ping => ping_bytes(ping).len() as int,
            Protocol::MetaData => metadata_bytes(metadata).len() as int,
            _ => 0,
        },
{
    law_status_layout(status);
    law_ping_layout(ping);
    law_metadata_layout(metadata);
}

/// A request may be as long as its encoding is and no longer or shorter. A request without a
/// payload has to be empty.
pub proof fn law_request_limits_fit(
    protocol: Protocol,
    length: int,
    status: StatusMessage,
    ping: Ping,
)
    ensures
        !out_of_bounds(
            request_limits(protocol),
            length,
            MAX_RPC_SIZE_POST_MERGE as int,
        ) <==> length == match protocol {
            Protocol::Status => status_bytes(status).len() as int,
            Protocol::Ping => ping_bytes(ping).len() as int,
            _ => 0,
        },
{
    law_status_layout(status);
    law_ping_layout(ping);
}

/// The error of the domain.
#[derive(Debug, Clone, Copy, PartialEq, Eq, Structural)]
pub enum RPCError {
    Error,
}

impl RPCError {
    /// The error in words.
    pub fn as_str(&self) -> (text: &'static str)
        ensures
            text@ == "RPC Error"@,
    {
        match self {
            RPCError::Error => "RPC Error",
        }
    }
}

impl From<std::io::Error> for RPCError {
    fn from(_err: std::io::Error) -> (error: RPCError) {
        RPCError::Error
    }
}

impl vstd::std_specs::convert::FromSpecImpl<std::io::Error> for RPCError {
    open spec fn obeys_from_spec() -> bool {
        true
    }

    open spec fn from_spec(_err: std::io::Error) -> RPCError {
        RPCError::Error
    }
}

impl From<tokio::time::error::Elapsed> for RPCError {
    fn from(_err: tokio::time::error::Elapsed) -> (error: RPCError) {
        RPCError::Error
    }
}

impl vstd::std_specs::convert::FromSpecImpl<tokio::time::error::Elapsed> for RPCError {
    open spec fn obeys_from_spec() -> bool {
        true
    }

    open spec fn from_spec(_err: tokio::time::error::Elapsed) -> RPCError {
        RPCError::Error
    }
}

/// What stands for a protocol in a version stands for no other one, and goes by its name.
pub proof fn law_what_an_identifier_denotes(
    id: ProtocolId,
    message_name: Protocol,
    version: Version,
)
    ensures
        id.denotes(message_name, version) <==> {
            &&& id.message_name == message_name
            &&& id.version == version
            &&& id.protocol_id@ == protocol_id_text(message_name, version)
        },
{
}

} // verus!
