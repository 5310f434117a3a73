//! Messages in SSZ, compressed as a Snappy frame stream behind their length.

use crate::buffer::{buffer_bytes, buffer_clone, buffer_extend, buffer_split_to, buffered};
use crate::rpc::methods::{
    error_bytes, law_metadata_bytes_injective, law_ping_bytes_injective,
    law_status_bytes_injective, metadata_bytes, metadata_decodable, metadata_valid, ping_bytes,
    status_bytes, ErrorType, MetaData, Ping, RPCCodedResponse, RPCResponse, ResponseView,
    StatusMessage, MAX_ERROR_LEN, METADATA_LEN, PING_LEN, STATUS_LEN,
};
use crate::rpc::protocol::{
    out_of_bounds, response_limits, InboundRequest, OutboundRequest, Protocol, ProtocolId,
    RPCError, RpcLimits, MAX_RPC_SIZE_POST_MERGE,
};
use crate::snappy::{
    frame_decode, frame_encode, frame_read, max_compressed, reads_back, snappy_frame,
    MAX_BLOCK_SIZE,
};
use crate::varint::{
    law_uvi_read_of_uvi_bytes, uvi_bytes, uvi_codec, uvi_decode, uvi_encode, uvi_read, UviRead,
};
use crate::wire::{le_bytes, lemma_le_bytes_len, lemma_number_at, number_at, ssz_encode_u64};
use libp2p::bytes::BytesMut;
use unsigned_varint::codec::Uvi;
use vstd::prelude::*;

verus! {

// Lengths

/// What the length that stands before a message comes to.
pub enum LengthRead {
    /// There are not enough bytes yet.
    Incomplete,
    /// The bytes are no length.
    Invalid,
    /// The length, and the bytes behind it.
    Known { length: usize, rest: Seq<u8> },
}

/// The length of the next message: one that was read before, or else the one at
/// the start of the buffer.
pub open spec fn read_length(pending: Option<usize>, buffer: Seq<u8>) -> LengthRead {
    match pending {
        Some(length) => LengthRead::Known { length, rest: buffer },
        None => match uvi_read(buffer) {
            UviRead::Incomplete => LengthRead::Incomplete,
            UviRead::TooLong => LengthRead::Invalid,
            UviRead::Number { value, used } => LengthRead::Known {
                length: value as usize,
                rest: buffer.skip(used as int),
            },
        },
    }
}

/// Reads the length of the next message, unless it has been read before, and
/// remembers it.
pub fn handle_length(
    uvi_codec: &mut Uvi<usize>,
    len: &mut Option<usize>,
    bytes: &mut BytesMut,
) -> (result: Result<Option<usize>, RPCError>)
    ensures
        match read_length(*old(len), buffered(*old(bytes))) {
            LengthRead::Incomplete => {
                &&& result == Ok::<Option<usize>, RPCError>(None)
                &&& *final(len) == *old(len)
                &&& buffered(*final(bytes)) == buffered(*old(bytes))
            },
            LengthRead::Invalid => {
                &&& result == Err::<Option<usize>, RPCError>(RPCError::Error)
                &&& *final(len) == *old(len)
                &&& buffered(*final(bytes)) == buffered(*old(bytes))
            },
            LengthRead::Known { length, rest } => {
                &&& result == Ok::<Option<usize>, RPCError>(Some(length))
                &&& *final(len) == Some(length)
                &&& buffered(*final(bytes)) == rest
            },
        },
{
    match *len {
        Some(length) => Ok(Some(length)),
        None => match uvi_decode(uvi_codec, bytes) {
            Err(e) => Err(RPCError::from(e)),
            Ok(Some(length)) => {
                *len = Some(length);
                Ok(Some(length))
            },
            Ok(None) => Ok(None),
        },
    }
}

// Frames

/// What the next message in a buffer comes to.
pub enum FrameStep {
    /// There are not enough bytes to tell how long the message is.
    Incomplete,
    /// The bytes are no length.
    Invalid,
    /// A message of this length is not accepted, or is not what stands in `rest`.
    Rejected { length: usize, rest: Seq<u8> },
    /// The message, decompressed, and the bytes behind it.
    Payload { data: Seq<u8>, rest: Seq<u8> },
}

/// The next message in a buffer, where `pending` is its length if that has been
/// read before.
pub open spec fn next_frame(
    limits: RpcLimits,
    pending: Option<usize>,
    buffer: Seq<u8>,
) -> FrameStep {
    match read_length(pending, buffer) {
        LengthRead::Incomplete => FrameStep::Incomplete,
        LengthRead::Invalid => FrameStep::Invalid,
        LengthRead::Known { length, rest } => {
            if out_of_bounds(limits, length as int, MAX_RPC_SIZE_POST_MERGE as int) {
                FrameStep::Rejected { length, rest }
            } else {
                match frame_read(rest, max_compressed(length as nat), length as nat) {
                    None => FrameStep::Rejected { length, rest },
                    Some((data, used)) => FrameStep::Payload {
                        data,
                        rest: rest.skip(used as int),
                    },
                }
            }
        },
    }
}

/// Whether the next message in a buffer, if it is complete, has the length that was announced.
pub open spec fn has_announced_length(
    pending: Option<usize>,
    buffer: Seq<u8>,
    step: FrameStep,
) -> bool {
    step matches FrameStep::Payload { data, .. } ==> {
        &&& read_length(pending, buffer) matches LengthRead::Known { length, .. }
        &&& data.len() == length
    }
}

/// The length that is remembered after a step: that of a rejected message.
pub open spec fn pending_after(step: FrameStep, pending: Option<usize>) -> Option<usize> {
    match step {
        FrameStep::Incomplete | FrameStep::Invalid => pending,
        FrameStep::Rejected { length, .. } => Some(length),
        FrameStep::Payload { .. } => None,
    }
}

/// The bytes that are left in the buffer after a step.
pub open spec fn buffer_after(step: FrameStep, buffer: Seq<u8>) -> Seq<u8> {
    match step {
        FrameStep::Incomplete | FrameStep::Invalid => buffer,
        FrameStep::Rejected { rest, .. } => rest,
        FrameStep::Payload { rest, .. } => rest,
    }
}

/// The bytes of a message on the wire: the length of the payload and its frame stream.
pub open spec fn framed(payload: Seq<u8>) -> Seq<u8> {
    uvi_bytes(payload.len()) + snappy_frame(payload)
}

/// Whether a message is read back as it was written, by a reader that accepts its
/// length and whatever follows it.
pub open spec fn frame_readable(payload: Seq<u8>) -> bool {
    forall|limits: RpcLimits, rest: Seq<u8>|
        !out_of_bounds(limits, payload.len() as int, MAX_RPC_SIZE_POST_MERGE as int)
            ==> #[trigger] next_frame(limits, None, framed(payload) + rest)
            == (FrameStep::Payload { data: payload, rest })
}

/// A payload whose frame stream is read back makes a message that is.
proof fn lemma_frame_readable(payload: Seq<u8>)
    requires
        payload.len() <= MAX_BLOCK_SIZE,
        snappy_frame(payload).len() <= 18 + payload.len(),
        reads_back(snappy_frame(payload), payload),
    ensures
        frame_readable(payload),
{
    let frame = snappy_frame(payload);
    let head = uvi_bytes(payload.len());
    assert forall|limits: RpcLimits, rest: Seq<u8>|
        !out_of_bounds(
            limits,
            payload.len() as int,
            MAX_RPC_SIZE_POST_MERGE as int,
        ) implies #[trigger] next_frame(limits, None, framed(payload) + rest) == (
    FrameStep::Payload { data: payload, rest }) by {
        let buffer = framed(payload) + rest;
        assert(buffer =~= head + (frame + rest));
        law_uvi_read_of_uvi_bytes(payload.len() as usize, frame + rest);
        assert(buffer.skip(head.len() as int) =~= frame + rest);
        assert(frame_read(frame + rest, max_compressed(payload.len()), payload.len()) == Some(
            (payload, frame.len()),
        ));
        assert((frame + rest).skip(frame.len() as int) =~= rest);
    }
}

/// Appends a payload to the buffer as a message.
fn write_frame(inner: &mut Uvi<usize>, payload: &[u8], dst: &mut BytesMut) -> (result: Result<
    (),
    RPCError,
>)
    requires
        payload@.len() <= MAX_BLOCK_SIZE,
    ensures
        result == Ok::<(), RPCError>(()),
        buffered(*final(dst)) == buffered(*old(dst)) + framed(payload@),
        frame_readable(payload@),
{
    if payload.len() > MAX_RPC_SIZE_POST_MERGE {
        return Err(RPCError::Error);
    }
    match uvi_encode(inner, payload.len(), dst) {
        Ok(()) => {},
        Err(e) => return Err(RPCError::from(e)),
    }
    match frame_encode(payload) {
        Ok(frame) => {
            buffer_extend(dst, frame.as_slice());
            proof {
                lemma_frame_readable(payload@);
                assert(buffered(*dst) =~= buffered(*old(dst)) + framed(payload@));
            }
            Ok(())
        },
        Err(e) => Err(RPCError::from(e)),
    }
}

/// Takes the next message out of the buffer and decompresses it.
fn read_frame(
    inner: &mut Uvi<usize>,
    len: &mut Option<usize>,
    limits: &RpcLimits,
    src: &mut BytesMut,
) -> (result: Result<Option<Vec<u8>>, RPCError>)
    ensures
        ({
            let step = next_frame(*limits, *old(len), buffered(*old(src)));
            &&& *final(len) == pending_after(step, *old(len))
            &&& buffered(*final(src)) == buffer_after(step, buffered(*old(src)))
            &&& has_announced_length(*old(len), buffered(*old(src)), step)
            &&& match step {
                FrameStep::Incomplete => result == Ok::<Option<Vec<u8>>, RPCError>(None),
                FrameStep::Invalid | FrameStep::Rejected { .. } => result
                    == Err::<Option<Vec<u8>>, RPCError>(RPCError::Error),
                FrameStep::Payload { data, .. } => {
                    &&& result matches Ok(Some(payload)) && payload@ == data
                    &&& !out_of_bounds(
                        *limits,
                        data.len() as int,
                        MAX_RPC_SIZE_POST_MERGE as int,
                    )
                },
            }
        }),
{
    let length: usize = match handle_length(inner, len, src) {
        Ok(Some(length)) => length,
        Ok(None) => return Ok(None),
        Err(e) => return Err(e),
    };
    if limits.is_out_of_bounds(length, MAX_RPC_SIZE_POST_MERGE) {
        return Err(RPCError::Error);
    }
    let max_compressed_len: u64 = snap::raw::max_compress_len(length) as u64;
    match frame_decode(buffer_bytes(src), max_compressed_len, length) {
        Ok((payload, used)) => {
            *len = None;
            let _read_bytes = buffer_split_to(src, used as usize);
            Ok(Some(payload))
        },
        Err(_) => Err(RPCError::Error),
    }
}

// Responses

/// The protocol that a response belongs to.
pub open spec fn response_protocol(response: ResponseView) -> Protocol {
    match response {
        ResponseView::Status(_) => Protocol::Status,
        ResponseView::Pong(_) => Protocol::Ping,
        ResponseView::MetaData(_) => Protocol::MetaData,
    }
}

/// The encoding of a response.
pub open spec fn response_payload(response: ResponseView) -> Seq<u8> {
    match response {
        ResponseView::Status(message) => status_bytes(message),
        ResponseView::Pong(ping) => ping_bytes(ping),
        ResponseView::MetaData(metadata) => metadata_bytes(metadata),
    }
}

/// Whether the bitfields of a response are in order.
pub open spec fn response_valid(response: ResponseView) -> bool {
    response matches ResponseView::MetaData(metadata) ==> metadata_valid(metadata)
}

/// The encoding of a response, which is empty for a failure.
pub open spec fn coded_payload(item: RPCCodedResponse) -> Seq<u8> {
    match item {
        RPCCodedResponse::Success(response) => response_payload(response@),
        RPCCodedResponse::Error => Seq::empty(),
    }
}

/// Whether some bytes encode a response of the given protocol, or the protocol
/// has no responses that could be read.
pub open spec fn response_decodable(protocol: Protocol, bytes: Seq<u8>) -> bool {
    match protocol {
        Protocol::Status => bytes.len() == STATUS_LEN,
        Protocol::Ping => bytes.len() == PING_LEN,
        Protocol::MetaData => metadata_decodable(bytes),
        _ => true,
    }
}

/// The encoding of a response can be read, is as long as its protocol allows, and
/// belongs to no other response of the same protocol.
pub proof fn law_response_payload(a: ResponseView, b: ResponseView)
    requires
        response_valid(a),
        response_valid(b),
    ensures
        response_decodable(response_protocol(a), response_payload(a)),
        !out_of_bounds(
            response_limits(response_protocol(a)),
            response_payload(a).len() as int,
            MAX_RPC_SIZE_POST_MERGE as int,
        ),
        response_protocol(a) == response_protocol(b) && response_payload(a) == response_payload(b)
            ==> a == b,
{
    match a {
        ResponseView::Status(x) => {
            law_status_bytes_injective(x, x);
            if let ResponseView::Status(y) = b {
                law_status_bytes_injective(x, y);
            }
        },
        ResponseView::Pong(x) => {
            law_ping_bytes_injective(x, x);
            if let ResponseView::Pong(y) = b {
                law_ping_bytes_injective(x, y);
            }
        },
        ResponseView::MetaData(x) => {
            law_metadata_bytes_injective(x, x);
            if let ResponseView::MetaData(y) = b {
                law_metadata_bytes_injective(x, y);
            }
        },
    }
}

/// Reads the response that a payload holds.
pub fn handle_response(protocol: Protocol, decoded_buffer: &[u8]) -> (result: Result<
    Option<RPCResponse>,
    RPCError,
>)
    requires
        response_decodable(protocol, decoded_buffer@),
    ensures
        match protocol {
            Protocol::Status | Protocol::Ping | Protocol::MetaData => {
                &&& result matches Ok(Some(response))
                &&& response_valid(response@)
                &&& response_protocol(response@) == protocol
                &&& response_payload(response@) == decoded_buffer@
            },
            _ => result == Err::<Option<RPCResponse>, RPCError>(RPCError::Error),
        },
{
    match protocol {
        Protocol::Status => match StatusMessage::from_ssz_bytes(decoded_buffer) {
            Ok(message) => Ok(Some(RPCResponse::Status(message))),
            Err(_) => Err(RPCError::Error),
        },
        Protocol::Ping => match Ping::from_ssz_bytes(decoded_buffer) {
            Ok(ping) => Ok(Some(RPCResponse::Pong(ping))),
            Err(_) => Err(RPCError::Error),
        },
        Protocol::MetaData => match MetaData::from_ssz_bytes(decoded_buffer) {
            Ok(metadata) => Ok(Some(RPCResponse::MetaData(metadata))),
            Err(_) => Err(RPCError::Error),
        },
        _ => Err(RPCError::Error),
    }
}

// The listening side

/// The codec of substreams that peers open: it reads requests and writes responses.
pub struct SSZSnappyInboundCodec {
    protocol: ProtocolId,
    inner: Uvi<usize>,
    len: Option<usize>,
}

/// Reads the request that a payload holds. Only an empty metadata request is known.
pub fn handle_request(protocol: Protocol, decoded_buffer: &[u8]) -> (result: Result<
    Option<InboundRequest>,
    RPCError,
>)
    ensures
        result == (if protocol is MetaData && decoded_buffer@.len() == 0 {
            Ok::<Option<InboundRequest>, RPCError>(Some(InboundRequest::MetaData))
        } else {
            Err::<Option<InboundRequest>, RPCError>(RPCError::Error)
        }),
{
    if protocol == Protocol::MetaData {
        if decoded_buffer.len() > 0 {
            Err(RPCError::Error)
        } else {
            Ok(Some(InboundRequest::MetaData))
        }
    } else {
        Err(RPCError::Error)
    }
}

impl SSZSnappyInboundCodec {
    /// The protocol that the substream was opened for.
    pub closed spec fn message_name(&self) -> Protocol {
        self.protocol.message_name
    }

    /// The length of the message that is being read, once it is known.
    pub closed spec fn pending(&self) -> Option<usize> {
        self.len
    }

    /// A codec that has not read anything yet.
    pub fn new(protocol: ProtocolId) -> (codec: Self)
        ensures
            codec.message_name() == protocol.message_name,
            codec.pending() is None,
    {
        Self { protocol, inner: uvi_codec(), len: None }
    }

    /// Appends a response to the buffer. A reader that accepts its length reads
    /// back the payload that was written.
    pub fn encode(&mut self, item: RPCCodedResponse, dst: &mut BytesMut) -> (result: Result<
        (),
        RPCError,
    >)
        ensures
            result == Ok::<(), RPCError>(()),
            buffered(*final(dst)) == buffered(*old(dst)) + framed(coded_payload(item)),
            frame_readable(coded_payload(item)),
            item matches RPCCodedResponse::Success(response) ==> response_valid(response@),
            final(self).message_name() == old(self).message_name(),
            final(self).pending() == old(self).pending(),
    {
        let bytes: Vec<u8> = match &item {
            RPCCodedResponse::Success(response) => match response {
                RPCResponse::Status(message) => message.as_ssz_bytes(),
                RPCResponse::Pong(ping) => ping.as_ssz_bytes(),
                RPCResponse::MetaData(metadata) => metadata.as_ssz_bytes(),
            },
            RPCCodedResponse::Error => Vec::new(),
        };
        write_frame(&mut self.inner, bytes.as_slice(), dst)
    }

    /// Reads a request from the buffer. A metadata request has no bytes and is
    /// there at once; of any other protocol no request is known, so that whatever
    /// message arrives is an error.
    pub fn decode(&mut self, src: &mut BytesMut) -> (result: Result<
        Option<InboundRequest>,
        RPCError,
    >)
        ensures
            final(self).message_name() == old(self).message_name(),
            if old(self).message_name() is MetaData {
                &&& result == Ok::<Option<InboundRequest>, RPCError>(
                    Some(InboundRequest::MetaData),
                )
                &&& final(self).pending() == old(self).pending()
                &&& buffered(*final(src)) == buffered(*old(src))
            } else {
                let step = next_frame(
                    response_limits(old(self).message_name()),
                    old(self).pending(),
                    buffered(*old(src)),
                );
                &&& final(self).pending() == pending_after(step, old(self).pending())
                &&& buffered(*final(src)) == buffer_after(step, buffered(*old(src)))
                &&& result == (if step is Incomplete {
                    Ok::<Option<InboundRequest>, RPCError>(None)
                } else {
                    Err::<Option<InboundRequest>, RPCError>(RPCError::Error)
                })
            },
    {
        if self.protocol.message_name == Protocol::MetaData {
            return Ok(Some(InboundRequest::MetaData));
        }
        let ssz_limits = self.protocol.rpc_response_limits();
        match read_frame(&mut self.inner, &mut self.len, &ssz_limits, src) {
            Ok(Some(payload)) => handle_request(self.protocol.message_name, payload.as_slice()),
            Ok(None) => Ok(None),
            Err(e) => Err(e),
        }
    }
}

// The dialing side

/// The codec of substreams that this node opens: it writes requests and reads
/// responses.
pub struct SSZSnappyOutboundCodec {
    protocol: ProtocolId,
    inner: Uvi<usize>,
    len: Option<usize>,
}

/// The encoding of a request; a metadata request has none.
pub open spec fn request_payload(item: OutboundRequest) -> Option<Seq<u8>> {
    match item {
        OutboundRequest::Status(message) => Some(status_bytes(message)),
        OutboundRequest::Goodbye(reason) => Some(le_bytes(reason as nat, 8)),
        OutboundRequest::Ping(ping) => Some(ping_bytes(ping)),
        OutboundRequest::MetaData => None,
    }
}

/// Whether the next message in a buffer, if it is complete, is a response that
/// can be read.
pub open spec fn readable(protocol: Protocol, step: FrameStep) -> bool {
    step matches FrameStep::Payload { data, .. } ==> response_decodable(protocol, data)
}

/// How long an error message may be before it is decoded.
pub open spec fn error_limits() -> RpcLimits {
    RpcLimits { min: 0, max: MAX_RPC_SIZE_POST_MERGE }
}

impl SSZSnappyOutboundCodec {
    /// The protocol that the substream was opened for.
    pub closed spec fn message_name(&self) -> Protocol {
        self.protocol.message_name
    }

    /// The length of the message that is being read, once it is known.
    pub closed spec fn pending(&self) -> Option<usize> {
        self.len
    }

    /// The next response in a buffer.
    pub open spec fn next_response(&self, buffer: Seq<u8>) -> FrameStep {
        next_frame(response_limits(self.message_name()), self.pending(), buffer)
    }

    /// A codec that has not read anything yet.
    pub fn new(protocol: ProtocolId) -> (codec: Self)
        ensures
            codec.message_name() == protocol.message_name,
            codec.pending() is None,
    {
        Self { protocol, inner: uvi_codec(), len: None }
    }

    /// Appends a request to the buffer. A reader that accepts its length reads
    /// back the payload that was written.
    pub fn encode(&mut self, item: OutboundRequest, dst: &mut BytesMut) -> (result: Result<
        (),
        RPCError,
    >)
        ensures
            result == Ok::<(), RPCError>(()),
            match request_payload(item) {
                Some(payload) => {
                    &&& buffered(*final(dst)) == buffered(*old(dst)) + framed(payload)
                    &&& frame_readable(payload)
                },
                None => buffered(*final(dst)) == buffered(*old(dst)),
            },
            final(self).message_name() == old(self).message_name(),
            final(self).pending() == old(self).pending(),
    {
        let bytes: Vec<u8> = match item {
            OutboundRequest::Status(message) => message.as_ssz_bytes(),
            OutboundRequest::Goodbye(reason) => {
                proof {
                    lemma_le_bytes_len(reason as nat, 8);
                }
                ssz_encode_u64(reason)
            },
            OutboundRequest::Ping(ping) => ping.as_ssz_bytes(),
            OutboundRequest::MetaData => return Ok(()),
        };
        write_frame(&mut self.inner, bytes.as_slice(), dst)
    }

    /// Reads a response from the buffer. The next message there must be one that
    /// can be read; `try_decode` makes sure of that.
    pub fn decode(&mut self, src: &mut BytesMut) -> (result: Result<Option<RPCResponse>, RPCError>)
        requires
            readable(
                old(self).message_name(),
                old(self).next_response(buffered(*old(src))),
            ),
        ensures
            response_decoded(
                old(self).message_name(),
                old(self).next_response(buffered(*old(src))),
                result,
            ),
            final(self).message_name() == old(self).message_name(),
            final(self).pending() == pending_after(
                old(self).next_response(buffered(*old(src))),
                old(self).pending(),
            ),
            buffered(*final(src)) == buffer_after(
                old(self).next_response(buffered(*old(src))),
                buffered(*old(src)),
            ),
            has_announced_length(
                old(self).pending(),
                buffered(*old(src)),
                old(self).next_response(buffered(*old(src))),
            ),
    {
        let ssz_limits = self.protocol.rpc_response_limits();
        match read_frame(&mut self.inner, &mut self.len, &ssz_limits, src) {
            Ok(Some(payload)) => handle_response(self.protocol.message_name, payload.as_slice()),
            Ok(None) => Ok(None),
            Err(e) => Err(e),
        }
    }

    /// Whether the next message in the buffer, if it is complete, is a response
    /// that can be read.
    fn can_decode(&self, src: &BytesMut) -> (can: bool)
        ensures
            can == readable(self.message_name(), self.next_response(buffered(*src))),
    {
        let mut inner: Uvi<usize> = uvi_codec();
        let mut len: Option<usize> = self.len;
        let mut copy = buffer_clone(src);
        let ssz_limits = self.protocol.rpc_response_limits();
        match read_frame(&mut inner, &mut len, &ssz_limits, &mut copy) {
            Ok(Some(payload)) => match self.protocol.message_name {
                Protocol::Status => payload.len() == STATUS_LEN,
                Protocol::Ping => payload.len() == PING_LEN,
                Protocol::MetaData => payload.len() == METADATA_LEN && payload[16] < 16,
                _ => true,
            },
            Ok(None) => true,
            Err(_) => true,
        }
    }

    /// Reads a response from the buffer, or returns `None` and leaves everything
    /// as it is where the next message is complete but is no response.
    pub fn try_decode(&mut self, src: &mut BytesMut) -> (result: Option<
        Result<Option<RPCResponse>, RPCError>,
    >)
        ensures
            final(self).message_name() == old(self).message_name(),
            match result {
                Some(decoded) => {
                    let step = old(self).next_response(buffered(*old(src)));
                    &&& readable(old(self).message_name(), step)
                    &&& response_decoded(old(self).message_name(), step, decoded)
                    &&& final(self).pending() == pending_after(step, old(self).pending())
                    &&& buffered(*final(src)) == buffer_after(step, buffered(*old(src)))
                    &&& has_announced_length(old(self).pending(), buffered(*old(src)), step)
                },
                None => {
                    &&& !readable(
                        old(self).message_name(),
                        old(self).next_response(buffered(*old(src))),
                    )
                    &&& final(self).pending() == old(self).pending()
                    &&& buffered(*final(src)) == buffered(*old(src))
                },
            },
    {
        if self.can_decode(src) {
            Some(self.decode(src))
        } else {
            None
        }
    }

    /// Reads an error message from the buffer.
    pub fn decode_error(&mut self, src: &mut BytesMut) -> (result: Result<
        Option<ErrorType>,
        RPCError,
    >)
        ensures
            ({
                let step = next_frame(error_limits(), old(self).pending(), buffered(*old(src)));
                &&& final(self).message_name() == old(self).message_name()
                &&& final(self).pending() == pending_after(step, old(self).pending())
                &&& buffered(*final(src)) == buffer_after(step, buffered(*old(src)))
                &&& has_announced_length(old(self).pending(), buffered(*old(src)), step)
                &&& match step {
                    FrameStep::Incomplete => result matches Ok(None),
                    FrameStep::Invalid | FrameStep::Rejected { .. } => result matches Err(
                        RPCError::Error,
                    ),
                    FrameStep::Payload { data, .. } => if data.len() <= MAX_ERROR_LEN {
                        result matches Ok(Some(error)) && error_bytes(error) == data
                    } else {
                        result matches Err(RPCError::Error)
                    },
                }
            }),
    {
        let limits = RpcLimits::new(0, MAX_RPC_SIZE_POST_MERGE);
        match read_frame(&mut self.inner, &mut self.len, &limits, src) {
            Ok(Some(payload)) => match ErrorType::from_ssz_bytes(payload.as_slice()) {
                Some(error) => Ok(Some(error)),
                None => Err(RPCError::Error),
            },
            Ok(None) => Ok(None),
            Err(e) => Err(e),
        }
    }
}

/// What reading a response returns for the next message in the buffer.
pub open spec fn response_decoded(
    protocol: Protocol,
    step: FrameStep,
    result: Result<Option<RPCResponse>, RPCError>,
) -> bool {
    match step {
        FrameStep::Incomplete => result matches Ok(None),
        FrameStep::Invalid | FrameStep::Rejected { .. } => result matches Err(RPCError::Error),
        FrameStep::Payload { data, .. } => match protocol {
            Protocol::Status | Protocol::Ping | Protocol::MetaData => {
                &&& result matches Ok(Some(response))
                &&& response_valid(response@)
                &&& response_protocol(response@) == protocol
                &&& response_payload(response@) == data
            },
            _ => result matches Err(RPCError::Error),
        },
    }
}

/// A response that the listening side wrote is the one that the dialing side reads
/// first, whatever bytes follow it.
pub proof fn law_response_is_read_back(
    written: RPCResponse,
    rest: Seq<u8>,
    result: Result<Option<RPCResponse>, RPCError>,
)
    requires
        response_valid(written@),
        frame_readable(response_payload(written@)),
        response_decoded(
            response_protocol(written@),
            next_frame(
                response_limits(response_protocol(written@)),
                None,
                framed(response_payload(written@)) + rest,
            ),
            result,
        ),
    ensures
        result matches Ok(Some(read)) && read@ == written@,
        readable(
            response_protocol(written@),
            next_frame(
                response_limits(response_protocol(written@)),
                None,
                framed(response_payload(written@)) + rest,
            ),
        ),
        buffer_after(
            next_frame(
                response_limits(response_protocol(written@)),
                None,
                framed(response_payload(written@)) + rest,
            ),
            framed(response_payload(written@)) + rest,
        ) == rest,
{
    law_response_payload(written@, written@);
    let step = next_frame(
        response_limits(response_protocol(written@)),
        None,
        framed(response_payload(written@)) + rest,
    );
    assert(step == (FrameStep::Payload { data: response_payload(written@), rest }));
    if let Ok(Some(read)) = result {
        law_response_payload(written@, read@);
    }
}

/// The length of a message is read once: it is taken from the front of the buffer, and from then
/// on the buffer starts behind it. To read the length first and the message later, from the same
/// bytes, comes to the same as to read both at once.
pub proof fn law_length_stands_before_the_message(
    limits: RpcLimits,
    length: usize,
    buffer: Seq<u8>,
)
    ensures
        read_length(None, uvi_bytes(length as nat) + buffer) == (LengthRead::Known {
            length,
            rest: buffer,
        }),
        read_length(Some(length), buffer) == (LengthRead::Known { length, rest: buffer }),
        next_frame(limits, None, uvi_bytes(length as nat) + buffer) == next_frame(
            limits,
            Some(length),
            buffer,
        ),
{
    law_uvi_read_of_uvi_bytes(length, buffer);
    assert((uvi_bytes(length as nat) + buffer).skip(uvi_bytes(length as nat).len() as int)
        =~= buffer);
}

/// A message is rejected for its length alone, whatever its bytes are, if that is below the
/// shortest or above the longest that is accepted. Only the length is taken from the buffer, and
/// it is remembered.
pub proof fn law_length_out_of_bounds_is_rejected(
    limits: RpcLimits,
    length: usize,
    buffer: Seq<u8>,
)
    requires
        length < limits.min || length > limits.max || length > 10 * 1_048_576,
    ensures
        ({
            let whole = uvi_bytes(length as nat) + buffer;
            let step = next_frame(limits, None, whole);
            &&& step is Rejected
            &&& pending_after(step, None) == Some(length)
            &&& buffer_after(step, whole) == buffer
            &&& next_frame(limits, Some(length), buffer) is Rejected
        }),
{
    law_length_stands_before_the_message(limits, length, buffer);
}

/// What reading leaves behind. Without a whole length nothing changes. A message that was rejected
/// is rejected again when the same bytes are read once more, and nothing changes any further. A
/// message that was read leaves no length behind, and it was of an accepted length.
pub proof fn law_what_reading_leaves_behind(
    limits: RpcLimits,
    pending: Option<usize>,
    buffer: Seq<u8>,
)
    ensures
        ({
            let step = next_frame(limits, pending, buffer);
            let kept = pending_after(step, pending);
            let left = buffer_after(step, buffer);
            &&& step is Incomplete || step is Invalid ==> kept == pending && left == buffer
                && pending is None
            &&& step is Rejected ==> {
                &&& kept is Some
                &&& next_frame(limits, kept, left) == step
                &&& pending_after(next_frame(limits, kept, left), kept) == kept
                &&& buffer_after(next_frame(limits, kept, left), left) == left
            }
            &&& step is Payload ==> {
                &&& kept is None
                &&& read_length(pending, buffer) matches LengthRead::Known { length, .. }
                &&& limits.min <= length <= limits.max
                &&& length <= 10 * 1_048_576
            }
        }),
{
}

/// What a message whose length is known comes to: it is read by the decompression of as many bytes
/// as the length announces, from no more bytes than their compression can take. What is left is
/// what the decompression did not use.
pub proof fn law_frame_is_decompressed(limits: RpcLimits, length: usize, buffer: Seq<u8>)
    requires
        limits.min <= length <= limits.max,
        length <= 10 * 1_048_576,
    ensures
        ({
            let read = frame_read(buffer, max_compressed(length as nat), length as nat);
            let step = next_frame(limits, Some(length), buffer);
            &&& read is None ==> step is Rejected && buffer_after(step, buffer) == buffer
            &&& read matches Some((data, used)) ==> {
                &&& step matches FrameStep::Payload { data: payload, .. } && payload == data
                &&& used <= buffer.len() ==> {
                    &&& buffer_after(step, buffer).len() == buffer.len() - used
                    &&& forall|i: int|
                        0 <= i < buffer.len() - used ==> #[trigger] buffer_after(step, buffer)[i]
                            == buffer[i + used]
                }
            }
        }),
{
}

/// A message on the wire is the length of its payload, and behind that the payload's frame stream.
pub proof fn law_message_layout(payload: Seq<u8>)
    requires
        payload.len() <= usize::MAX,
    ensures
        uvi_read(framed(payload)) matches UviRead::Number { value, used } && {
            &&& value == payload.len()
            &&& framed(payload).len() == used + snappy_frame(payload).len()
            &&& forall|i: int|
                0 <= i < snappy_frame(payload).len() ==> framed(payload)[used + i]
                    == #[trigger] snappy_frame(payload)[i]
        },
{
    law_uvi_read_of_uvi_bytes(payload.len() as usize, snappy_frame(payload));
}

/// A request is encoded as the response of the same kind is. A goodbye is the number of its
/// reason, least significant byte first, and a metadata request has no encoding.
pub proof fn law_request_encodings(message: StatusMessage, ping: Ping, reason: u64)
    ensures
        request_payload(OutboundRequest::Status(message)) == Some(
            response_payload(ResponseView::Status(message)),
        ),
        request_payload(OutboundRequest::Ping(ping)) == Some(
            response_payload(ResponseView::Pong(ping)),
        ),
        request_payload(OutboundRequest::Goodbye(reason)) matches Some(payload) && payload.len()
            == 8 && number_at(payload, 0, reason),
        request_payload(OutboundRequest::MetaData) is None,
{
    let payload = le_bytes(reason as nat, 8);
    lemma_le_bytes_len(reason as nat, 8);
    assert(payload.subrange(0, 8) =~= payload);
    lemma_number_at(payload, 0, reason);
}

/// Each response is encoded as what it says, and a failure as nothing.
pub proof fn law_response_encodings(
    message: StatusMessage,
    ping: Ping,
    metadata: MetaData,
    response: RPCResponse,
)
    ensures
        response_payload(RPCResponse::Status(message)@) == status_bytes(message),
        response_payload(RPCResponse::Pong(ping)@) == ping_bytes(ping),
        response_payload(RPCResponse::MetaData(metadata)@) == metadata_bytes(metadata@),
        coded_payload(RPCCodedResponse::Success(response)) == response_payload(response@),
        coded_payload(RPCCodedResponse::Error).len() == 0,
{
}

/// Each response belongs to the protocol of its request.
pub proof fn law_responses_have_their_protocols(response: RPCResponse)
    ensures
        response is Status <==> response_protocol(response@) is Status,
        response is Pong <==> response_protocol(response@) is Ping,
        response is MetaData <==> response_protocol(response@) is MetaData,
{
}

/// What reading comes to: nothing yet for a message without a whole length, an error for one that is
/// invalid or rejected and for one of a protocol without responses, and otherwise the response of
/// the protocol that has the payload as its encoding.
pub proof fn law_what_is_read(
    protocol: Protocol,
    step: FrameStep,
    result: Result<Option<RPCResponse>, RPCError>,
)
    requires
        response_decoded(protocol, step, result),
    ensures
        result matches Ok(None) <==> step is Incomplete,
        step is Invalid || step is Rejected ==> result is Err,
        result matches Ok(Some(response)) ==> {
            &&& step matches FrameStep::Payload { data, .. } && response_payload(response@) == data
            &&& protocol is Status ==> response is Status
            &&& protocol is Ping ==> response is Pong
            &&& protocol is MetaData ==> response is MetaData
            &&& protocol is Status || protocol is Ping || protocol is MetaData
            &&& response matches RPCResponse::MetaData(metadata) ==> metadata_valid(metadata@)
        },
        step is Payload && (protocol is Status || protocol is Ping || protocol is MetaData)
            ==> result matches Ok(Some(_)),
{
}

/// Bytes of another length than a response of the protocol has are none.
pub proof fn law_lengths_of_responses(protocol: Protocol, bytes: Seq<u8>, step: FrameStep)
    ensures
        protocol is Status ==> (response_decodable(protocol, bytes) <==> bytes.len() == 84),
        protocol is Ping ==> (response_decodable(protocol, bytes) <==> bytes.len() == 8),
        protocol is MetaData ==> (response_decodable(protocol, bytes) <==> bytes.len() == 17
            && bytes[16] < 16),
        !(protocol is Status || protocol is Ping || protocol is MetaData) ==> response_decodable(
            protocol,
            bytes,
        ),
        !(step is Payload) ==> readable(protocol, step),
        step matches FrameStep::Payload { data, .. } ==> (readable(protocol, step)
            <==> response_decodable(protocol, data)),
{
}

/// An error message is read whatever its length is, up to the overall maximum.
pub proof fn law_error_limits(length: int)
    ensures
        !out_of_bounds(error_limits(), length, MAX_RPC_SIZE_POST_MERGE as int) <==> 0 <= length
            <= 10 * 1_048_576,
{
}

/// A message that is complete has the length that was announced for it, whether that was read
/// before or stands in the buffer.
pub proof fn law_announced_length(length: usize, buffer: Seq<u8>, data: Seq<u8>, rest: Seq<u8>)
    ensures
        has_announced_length(Some(length), buffer, (FrameStep::Payload { data, rest }))
            <==> data.len() == length,
        has_announced_length(
            None,
            uvi_bytes(length as nat) + buffer,
            (FrameStep::Payload { data, rest }),
        ) <==> data.len() == length,
{
    law_uvi_read_of_uvi_bytes(length, buffer);
}

} // verus!
