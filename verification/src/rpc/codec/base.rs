//! Messages with the code before them that tells whether a response succeeded.

use super::ssz_snappy::{
    buffer_after, coded_payload, error_limits, frame_readable, framed, has_announced_length,
    law_response_payload, next_frame, pending_after, readable, request_payload, response_decoded,
    response_payload, response_protocol, response_valid, FrameStep, SSZSnappyInboundCodec, SSZSnappyOutboundCodec,
};
use crate::buffer::{buffer_bytes, buffer_extend, buffer_split_to, buffered};
use crate::rpc::methods::{code_means_success, response_code, RPCCodedResponse, MAX_ERROR_LEN};
use crate::rpc::protocol::{response_limits, InboundRequest, OutboundRequest, Protocol, RPCError};
use libp2p::bytes::BytesMut;
use vstd::prelude::*;

verus! {

/// The codec of substreams that peers open, with the code before each response.
pub struct BaseInboundCodec {
    inner: SSZSnappyInboundCodec,
}

impl BaseInboundCodec {
    /// The codec of the messages themselves.
    pub closed spec fn messages(&self) -> SSZSnappyInboundCodec {
        self.inner
    }

    /// Puts the code before the responses of a codec.
    pub fn new(codec: SSZSnappyInboundCodec) -> (base: Self)
        ensures
            base.messages() == codec,
    {
        BaseInboundCodec { inner: codec }
    }

    /// Appends a response and its code to the buffer.
    pub fn encode(&mut self, item: RPCCodedResponse, dst: &mut BytesMut) -> (result: Result<
        (),
        RPCError,
    >)
        ensures
            result == Ok::<(), RPCError>(()),
            buffered(*final(dst)) == buffered(*old(dst)) + seq![response_code(item)] + framed(
                coded_payload(item),
            ),
            frame_readable(coded_payload(item)),
            item matches RPCCodedResponse::Success(response) ==> response_valid(response@),
            final(self).messages().message_name() == old(self).messages().message_name(),
            final(self).messages().pending() == old(self).messages().pending(),
    {
        if let Some(code) = item.as_u8() {
            let mut head: Vec<u8> = Vec::new();
            head.push(code);
            buffer_extend(dst, head.as_slice());
            assert(head@ =~= seq![code]);
        }
        self.inner.encode(item, dst)
    }

    /// Reads a request from the buffer.
    pub fn decode(&mut self, src: &mut BytesMut) -> (result: Result<
        Option<InboundRequest>,
        RPCError,
    >)
        ensures
            final(self).messages().message_name() == old(self).messages().message_name(),
            if old(self).messages().message_name() is MetaData {
                &&& result == Ok::<Option<InboundRequest>, RPCError>(
                    Some(InboundRequest::MetaData),
                )
                &&& final(self).messages().pending() == old(self).messages().pending()
                &&& buffered(*final(src)) == buffered(*old(src))
            } else {
                let step = next_frame(
                    response_limits(old(self).messages().message_name()),
                    old(self).messages().pending(),
                    buffered(*old(src)),
                );
                &&& final(self).messages().pending() == pending_after(
                    step,
                    old(self).messages().pending(),
                )
                &&& buffered(*final(src)) == buffer_after(step, buffered(*old(src)))
                &&& result == (if step is Incomplete {
                    Ok::<Option<InboundRequest>, RPCError>(None)
                } else {
                    Err::<Option<InboundRequest>, RPCError>(RPCError::Error)
                })
            },
    {
        self.inner.decode(src)
    }
}

/// The codec of substreams that this node opens, with the code before each response.
pub struct BaseOutboundCodec {
    inner: SSZSnappyOutboundCodec,
    current_response_code: Option<u8>,
}

/// What the code before the next response is, and the bytes behind it. A code that was read
/// before stands for itself.
pub open spec fn read_code(current: Option<u8>, buffer: Seq<u8>) -> (u8, Seq<u8>) {
    match current {
        Some(code) => (code, buffer),
        None => (buffer[0], buffer.skip(1)),
    }
}

/// What reading a response and its code returns for the next message behind the code.
pub open spec fn coded_response_decoded(
    protocol: Protocol,
    code: u8,
    step: FrameStep,
    result: Result<Option<RPCCodedResponse>, RPCError>,
) -> bool {
    if code_means_success(code) {
        match result {
            Ok(Some(RPCCodedResponse::Success(response))) => response_decoded(
                protocol,
                step,
                Ok(Some(response)),
            ),
            Ok(Some(RPCCodedResponse::Error)) => false,
            Ok(None) => response_decoded(protocol, step, Ok(None)),
            Err(e) => response_decoded(protocol, step, Err(e)),
        }
    } else {
        match step {
            FrameStep::Incomplete => result matches Ok(None),
            FrameStep::Invalid | FrameStep::Rejected { .. } => result matches Err(RPCError::Error),
            FrameStep::Payload { data, .. } => if data.len() <= MAX_ERROR_LEN {
                result matches Ok(Some(RPCCodedResponse::Error))
            } else {
                result matches Err(RPCError::Error)
            },
        }
    }
}

impl BaseOutboundCodec {
    /// The protocol that the substream was opened for.
    pub closed spec fn message_name(&self) -> Protocol {
        self.inner.message_name()
    }

    /// The length of the message that is being read, once it is known.
    pub closed spec fn pending(&self) -> Option<usize> {
        self.inner.pending()
    }

    /// The code of the response that is being read, once it is known.
    pub closed spec fn current_code(&self) -> Option<u8> {
        self.current_response_code
    }

    /// The next message behind the code, in a buffer that holds enough bytes.
    pub open spec fn next_message(&self, buffer: Seq<u8>) -> FrameStep {
        let (code, rest) = read_code(self.current_code(), buffer);
        if code_means_success(code) {
            next_frame(response_limits(self.message_name()), self.pending(), rest)
        } else {
            next_frame(error_limits(), self.pending(), rest)
        }
    }

    /// Expects the code before the responses of a codec.
    pub fn new(codec: SSZSnappyOutboundCodec) -> (base: Self)
        ensures
            base.message_name() == codec.message_name(),
            base.pending() == codec.pending(),
            base.current_code() is None,
    {
        BaseOutboundCodec { inner: codec, current_response_code: None }
    }

    /// Appends a request to the buffer. Requests have no code.
    pub fn encode(&mut self, item: OutboundRequest, dst: &mut BytesMut) -> (result: Result<
        (),
        RPCError,
    >)
        ensures
            result == Ok::<(), RPCError>(()),
            match request_payload(item) {
                Some(payload) => {
                    &&& buffered(*final(dst)) == buffered(*old(dst)) + framed(payload)
                    &&& frame_readable(payload)
                },
                None => buffered(*final(dst)) == buffered(*old(dst)),
            },
            final(self).message_name() == old(self).message_name(),
            final(self).pending() == old(self).pending(),
            final(self).current_code() == old(self).current_code(),
    {
        self.inner.encode(item, dst)
    }

    /// Reads a response and its code from the buffer. Nothing is read while there is no more
    /// than a code. Where what follows the code of a success is complete but is no response,
    /// this returns `None`, and only the code has been read.
    pub fn decode(&mut self, src: &mut BytesMut) -> (result: Option<
        Result<Option<RPCCodedResponse>, RPCError>,
    >)
        ensures
            final(self).message_name() == old(self).message_name(),
            if buffered(*old(src)).len() <= 1 {
                &&& result matches Some(Ok(None))
                &&& final(self).pending() == old(self).pending()
                &&& final(self).current_code() == old(self).current_code()
                &&& buffered(*final(src)) == buffered(*old(src))
            } else {
                let (code, rest) = read_code(old(self).current_code(), buffered(*old(src)));
                let step = old(self).next_message(buffered(*old(src)));
                match result {
                    Some(decoded) => {
                        &&& code_means_success(code) ==> readable(old(self).message_name(), step)
                        &&& coded_response_decoded(old(self).message_name(), code, step, decoded)
                        &&& final(self).pending() == pending_after(step, old(self).pending())
                        &&& final(self).current_code() == (if decoded matches Ok(Some(_)) {
                            None
                        } else {
                            Some(code)
                        })
                        &&& buffered(*final(src)) == buffer_after(step, rest)
                        &&& has_announced_length(old(self).pending(), rest, step)
                    },
                    None => {
                        &&& code_means_success(code)
                        &&& !readable(old(self).message_name(), step)
                        &&& final(self).pending() == old(self).pending()
                        &&& final(self).current_code() == Some(code)
                        &&& buffered(*final(src)) == rest
                    },
                }
            },
    {
        if buffer_bytes(src).len() <= 1 {
            return Some(Ok(None));
        }
        let response_code: u8 = match self.current_response_code {
            Some(code) => code,
            None => {
                let code: u8 = buffer_bytes(src)[0];
                let _read_bytes = buffer_split_to(src, 1);
                code
            },
        };
        self.current_response_code = Some(response_code);
        if RPCCodedResponse::is_response(response_code) {
            match self.inner.try_decode(src) {
                Some(Ok(Some(response))) => {
                    self.current_response_code = None;
                    Some(Ok(Some(RPCCodedResponse::Success(response))))
                },
                Some(Ok(None)) => Some(Ok(None)),
                Some(Err(e)) => Some(Err(e)),
                None => None,
            }
        } else {
            match self.inner.decode_error(src) {
                Ok(Some(_)) => {
                    self.current_response_code = None;
                    Some(Ok(Some(RPCCodedResponse::Error)))
                },
                Ok(None) => Some(Ok(None)),
                Err(e) => Some(Err(e)),
            }
        }
    }
}

/// What the listening side writes as a response, be it a success or a failure, is what the
/// dialing side reads first, whatever bytes follow it.
pub proof fn law_coded_response_is_read_back(
    protocol: Protocol,
    written: RPCCodedResponse,
    rest: Seq<u8>,
    result: Result<Option<RPCCodedResponse>, RPCError>,
)
    requires
        frame_readable(coded_payload(written)),
        written matches RPCCodedResponse::Success(response) ==> {
            &&& response_valid(response@)
            &&& response_protocol(response@) == protocol
        },
        ({
            let (code, behind) = read_code(
                None,
                seq![response_code(written)] + framed(coded_payload(written)) + rest,
            );
            let limits = if code_means_success(code) {
                response_limits(protocol)
            } else {
                error_limits()
            };
            coded_response_decoded(protocol, code, next_frame(limits, None, behind), result)
        }),
    ensures
        match written {
            RPCCodedResponse::Success(response) => {
                result matches Ok(Some(RPCCodedResponse::Success(read))) && read@ == response@
            },
            RPCCodedResponse::Error => result matches Ok(Some(RPCCodedResponse::Error)),
        },
        ({
            let (code, behind) = read_code(
                None,
                seq![response_code(written)] + framed(coded_payload(written)) + rest,
            );
            let limits = if code_means_success(code) {
                response_limits(protocol)
            } else {
                error_limits()
            };
            buffer_after(next_frame(limits, None, behind), behind) == rest
        }),
{
    let payload = coded_payload(written);
    let buffer = seq![response_code(written)] + framed(payload) + rest;
    let (code, behind) = read_code(None, buffer);
    assert(code == response_code(written));
    assert(behind =~= framed(payload) + rest);
    match written {
        RPCCodedResponse::Success(response) => {
            law_response_payload(response@, response@);
            assert(next_frame(response_limits(protocol), None, framed(payload) + rest) == (
            FrameStep::Payload { data: payload, rest }));
            if let Ok(Some(RPCCodedResponse::Success(read))) = result {
                law_response_payload(response@, read@);
            }
        },
        RPCCodedResponse::Error => {
            assert(next_frame(error_limits(), None, framed(payload) + rest) == (
            FrameStep::Payload { data: payload, rest }));
        },
    }
}

/// The code before a response is its first byte, and is read once: from then on the buffer starts
/// behind it.
pub proof fn law_code_stands_before_the_response(code: u8, buffer: Seq<u8>)
    ensures
        read_code(None, seq![code] + buffer) == (code, buffer),
        read_code(Some(code), buffer) == (code, buffer),
{
    assert((seq![code] + buffer).skip(1) =~= buffer);
}

/// What is read behind a code: a success only behind a zero, a failure only behind any other code,
/// and nothing as long as the message has no whole length. A failure is read whatever it says, up
/// to 256 bytes.
pub proof fn law_code_decides_what_is_read(
    protocol: Protocol,
    code: u8,
    step: FrameStep,
    result: Result<Option<RPCCodedResponse>, RPCError>,
)
    requires
        coded_response_decoded(protocol, code, step, result),
    ensures
        result matches Ok(Some(RPCCodedResponse::Success(_))) ==> code == 0,
        result matches Ok(Some(RPCCodedResponse::Error)) ==> code != 0,
        result matches Ok(None) <==> step is Incomplete,
        step is Invalid || step is Rejected ==> result is Err,
        step matches FrameStep::Payload { data, .. } ==> {
            &&& code != 0 && data.len() <= 256 ==> (result matches Ok(
                Some(RPCCodedResponse::Error),
            ))
            &&& code != 0 && data.len() > 256 ==> result is Err
            &&& result matches Ok(Some(RPCCodedResponse::Success(response))) ==> response_payload(
                response@,
            ) == data && response_protocol(response@) == protocol
        },
{
}

/// A response is read within the limits of its protocol, and a failure within its own.
pub proof fn law_code_decides_the_limits(codec: BaseOutboundCodec, code: u8, buffer: Seq<u8>)
    requires
        codec.current_code() is None,
    ensures
        code == 0 ==> codec.next_message(seq![code] + buffer) == next_frame(
            response_limits(codec.message_name()),
            codec.pending(),
            buffer,
        ),
        code != 0 ==> codec.next_message(seq![code] + buffer) == next_frame(
            error_limits(),
            codec.pending(),
            buffer,
        ),
{
    law_code_stands_before_the_response(code, buffer);
}

} // verus!
