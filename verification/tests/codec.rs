use consensus_p2p::rpc::codec::base::{BaseInboundCodec, BaseOutboundCodec};
use consensus_p2p::rpc::codec::ssz_snappy::{
    handle_length, handle_request, handle_response, SSZSnappyInboundCodec, SSZSnappyOutboundCodec,
};
use consensus_p2p::rpc::methods::{
    EnrAttestationBitfield, EnrSyncCommitteeBitfield, MetaData, Ping, RPCCodedResponse,
    RPCResponse, StatusMessage,
};
use consensus_p2p::rpc::protocol::{
    InboundRequest, OutboundRequest, Protocol, ProtocolId, RPCError, Version,
};
use libp2p::bytes::BytesMut;
use std::io::Write;
use unsigned_varint::codec::Uvi;

const PING: Ping = Ping {
    data: 0x8000_0000_0000_0007,
};

const FRAMED_PING: [u8; 27] = [
    8, 255, 6, 0, 0, 115, 78, 97, 80, 112, 89, 1, 12, 0, 0, 231, 211, 112, 188, 7, 0, 0, 0, 0, 0,
    0, 128,
];

fn status() -> StatusMessage {
    StatusMessage {
        fork_digest: [0x4a, 0x26, 0xc5, 0x8b],
        finalized_root: [1; 32],
        finalized_epoch: 7,
        head_root: [2; 32],
        head_slot: 300,
    }
}

fn metadata() -> MetaData {
    MetaData {
        seq_number: 12,
        attnets: EnrAttestationBitfield::default(),
        syncnets: EnrSyncCommitteeBitfield::default(),
    }
}

fn inbound(protocol: Protocol) -> SSZSnappyInboundCodec {
    SSZSnappyInboundCodec::new(ProtocolId::new(protocol, Version::V1))
}

fn outbound(protocol: Protocol) -> SSZSnappyOutboundCodec {
    SSZSnappyOutboundCodec::new(ProtocolId::new(protocol, Version::V1))
}

fn written(response: RPCCodedResponse) -> BytesMut {
    let mut buffer = BytesMut::new();
    assert_eq!(
        inbound(Protocol::Status).encode(response, &mut buffer),
        Ok(())
    );
    buffer
}

#[test]
fn ping_is_framed() {
    let buffer = written(RPCCodedResponse::Success(RPCResponse::Pong(PING)));
    assert_eq!(buffer.as_ref(), &FRAMED_PING[..]);
    let mut request = BytesMut::from(&[9][..]);
    assert_eq!(
        outbound(Protocol::Ping).encode(OutboundRequest::Ping(PING), &mut request),
        Ok(())
    );
    assert_eq!(request[0], 9);
    assert_eq!(&request[1..], &FRAMED_PING[..]);
}

#[test]
fn failure_has_an_empty_payload() {
    assert_eq!(written(RPCCodedResponse::Error).as_ref(), &[0][..]);
}

#[test]
fn responses_are_read_back() {
    let responses = vec![
        (Protocol::Status, RPCResponse::Status(status())),
        (Protocol::Ping, RPCResponse::Pong(PING)),
        (Protocol::MetaData, RPCResponse::MetaData(metadata())),
    ];
    for (protocol, response) in responses {
        let mut buffer = written(RPCCodedResponse::Success(response.clone()));
        buffer.extend_from_slice(&[1, 2, 3]);
        let read = outbound(protocol).try_decode(&mut buffer);
        assert_eq!(read, Some(Ok(Some(response))));
        assert_eq!(buffer.as_ref(), &[1, 2, 3][..]);
    }
}

#[test]
fn two_responses_are_read_one_after_another() {
    let mut buffer = written(RPCCodedResponse::Success(RPCResponse::Pong(PING)));
    buffer.extend_from_slice(&FRAMED_PING);
    let mut codec = outbound(Protocol::Ping);
    let expected = Some(Ok(Some(RPCResponse::Pong(PING))));
    assert_eq!(codec.try_decode(&mut buffer), expected);
    assert_eq!(codec.try_decode(&mut buffer), expected);
    assert!(buffer.is_empty());
    assert_eq!(codec.try_decode(&mut buffer), Some(Ok(None)));
}

#[test]
fn decoding_after_the_check() {
    let mut buffer = BytesMut::from(&FRAMED_PING[..]);
    assert_eq!(
        outbound(Protocol::Ping).decode(&mut buffer),
        Ok(Some(RPCResponse::Pong(PING)))
    );
}

#[test]
fn length_is_awaited() {
    let mut buffer = BytesMut::from(&[0x80][..]);
    let mut codec = outbound(Protocol::Ping);
    assert_eq!(codec.try_decode(&mut buffer), Some(Ok(None)));
    assert_eq!(buffer.as_ref(), &[0x80][..]);
}

#[test]
fn length_that_does_not_end_is_an_error() {
    let mut buffer = BytesMut::from(&[0xff; 10][..]);
    let mut codec = outbound(Protocol::Ping);
    assert_eq!(
        codec.try_decode(&mut buffer),
        Some(Err(RPCError::Error))
    );
    assert_eq!(buffer.len(), 10);
}

#[test]
fn length_out_of_bounds_is_an_error() {
    let mut buffer = BytesMut::from(&FRAMED_PING[..]);
    let mut codec = outbound(Protocol::Status);
    assert_eq!(
        codec.try_decode(&mut buffer),
        Some(Err(RPCError::Error))
    );
    assert_eq!(buffer.as_ref(), &FRAMED_PING[1..]);
}

#[test]
fn frame_that_is_cut_off_is_an_error_and_its_length_is_kept() {
    let mut buffer = BytesMut::from(&FRAMED_PING[..20]);
    let mut codec = outbound(Protocol::Ping);
    assert_eq!(
        codec.try_decode(&mut buffer),
        Some(Err(RPCError::Error))
    );
    buffer.extend_from_slice(&FRAMED_PING[20..]);
    assert_eq!(
        codec.try_decode(&mut buffer),
        Some(Ok(Some(RPCResponse::Pong(PING))))
    );
}

#[test]
fn metadata_that_cannot_be_read_is_left_alone() {
    let mut bytes = metadata().as_ssz_bytes();
    bytes[16] = 0xf0;
    let mut buffer = framed(&bytes);
    let before = buffer.clone();
    let mut codec = outbound(Protocol::MetaData);
    assert_eq!(codec.try_decode(&mut buffer), None);
    assert_eq!(buffer, before);
}

fn framed(payload: &[u8]) -> BytesMut {
    let mut writer = snap::write::FrameEncoder::new(Vec::new());
    writer.write_all(payload).unwrap();
    let mut bytes = vec![payload.len() as u8];
    bytes.extend(writer.into_inner().unwrap());
    BytesMut::from(&bytes[..])
}

#[test]
fn protocols_without_responses_are_errors() {
    let mut buffer = framed(&[]);
    let mut codec = outbound(Protocol::Goodbye);
    assert_eq!(
        codec.try_decode(&mut buffer),
        Some(Err(RPCError::Error))
    );
    assert!(buffer.is_empty());
    assert_eq!(
        handle_response(Protocol::BlocksByRoot, &[1, 2]),
        Err(RPCError::Error)
    );
}

#[test]
fn payloads_become_responses() {
    assert_eq!(
        handle_response(Protocol::Status, &status().as_ssz_bytes()),
        Ok(Some(RPCResponse::Status(status())))
    );
    assert_eq!(
        handle_response(Protocol::Ping, &PING.as_ssz_bytes()),
        Ok(Some(RPCResponse::Pong(PING)))
    );
    assert_eq!(
        handle_response(Protocol::MetaData, &metadata().as_ssz_bytes()),
        Ok(Some(RPCResponse::MetaData(metadata())))
    );
}

#[test]
fn metadata_requests_are_there_at_once() {
    let mut buffer = BytesMut::from(&[1, 2][..]);
    let mut codec = inbound(Protocol::MetaData);
    assert_eq!(
        codec.decode(&mut buffer),
        Ok(Some(InboundRequest::MetaData))
    );
    assert_eq!(buffer.len(), 2);
    assert_eq!(
        handle_request(Protocol::MetaData, &[]),
        Ok(Some(InboundRequest::MetaData))
    );
    assert_eq!(
        handle_request(Protocol::MetaData, &[0]),
        Err(RPCError::Error)
    );
}

#[test]
fn other_requests_are_errors_once_they_are_complete() {
    let mut codec = inbound(Protocol::Ping);
    let mut buffer = BytesMut::new();
    assert_eq!(codec.decode(&mut buffer), Ok(None));
    buffer.extend_from_slice(&FRAMED_PING);
    assert_eq!(codec.decode(&mut buffer), Err(RPCError::Error));
    assert!(buffer.is_empty());
    assert_eq!(handle_request(Protocol::Ping, &[0; 8]), Err(RPCError::Error));
}

#[test]
fn requests_are_written() {
    let mut buffer = BytesMut::new();
    let mut codec = outbound(Protocol::MetaData);
    assert_eq!(codec.encode(OutboundRequest::MetaData, &mut buffer), Ok(()));
    assert!(buffer.is_empty());
    assert_eq!(
        codec.encode(OutboundRequest::Goodbye(PING.data), &mut buffer),
        Ok(())
    );
    assert_eq!(buffer.as_ref(), &FRAMED_PING[..]);
    buffer.clear();
    assert_eq!(
        codec.encode(OutboundRequest::Status(status()), &mut buffer),
        Ok(())
    );
    assert_eq!(
        outbound(Protocol::Status).try_decode(&mut buffer),
        Some(Ok(Some(RPCResponse::Status(status()))))
    );
}

#[test]
fn error_messages_are_read() {
    let mut codec = outbound(Protocol::Status);
    let mut buffer = framed(b"busy");
    let error = codec.decode_error(&mut buffer).unwrap().unwrap();
    assert_eq!(error.0.to_vec(), b"busy".to_vec());
    assert!(buffer.is_empty());
    assert!(codec.decode_error(&mut buffer).unwrap().is_none());
}

#[test]
fn error_messages_that_are_too_long_are_errors() {
    let payload = [5; 300];
    let mut buffer = BytesMut::from(&[0xac, 0x02][..]);
    buffer.extend_from_slice(&framed(&payload)[1..]);
    let mut codec = outbound(Protocol::Status);
    assert_eq!(
        codec.decode_error(&mut buffer).unwrap_err(),
        RPCError::Error
    );
    assert!(buffer.is_empty());
    let mut huge = BytesMut::from(&[0x81, 0x80, 0x80, 0x05][..]);
    assert_eq!(codec.decode_error(&mut huge).unwrap_err(), RPCError::Error);
}

#[test]
fn lengths_are_read_once() {
    let mut uvi = Uvi::default();
    let mut len = None;
    let mut buffer = BytesMut::from(&[0xac, 0x02, 7][..]);
    assert_eq!(
        handle_length(&mut uvi, &mut len, &mut buffer),
        Ok(Some(300))
    );
    assert_eq!(len, Some(300));
    assert_eq!(buffer.as_ref(), &[7][..]);
    assert_eq!(
        handle_length(&mut uvi, &mut len, &mut buffer),
        Ok(Some(300))
    );
    assert_eq!(buffer.as_ref(), &[7][..]);
}

#[test]
fn codes_stand_before_responses() {
    let mut base = BaseInboundCodec::new(inbound(Protocol::Ping));
    let mut buffer = BytesMut::new();
    let response = RPCCodedResponse::Success(RPCResponse::Pong(PING));
    assert_eq!(base.encode(response.clone(), &mut buffer), Ok(()));
    assert_eq!(buffer[0], 0);
    assert_eq!(&buffer[1..], &FRAMED_PING[..]);
    assert_eq!(base.encode(RPCCodedResponse::Error, &mut buffer), Ok(()));
    assert_eq!(&buffer[28..], &[4, 0][..]);

    let mut reader = BaseOutboundCodec::new(outbound(Protocol::Ping));
    assert_eq!(reader.decode(&mut buffer), Some(Ok(Some(response))));
    assert_eq!(
        reader.decode(&mut buffer),
        Some(Ok(Some(RPCCodedResponse::Error)))
    );
    assert!(buffer.is_empty());
    assert_eq!(reader.decode(&mut buffer), Some(Ok(None)));
}

#[test]
fn code_is_read_once() {
    let mut reader = BaseOutboundCodec::new(outbound(Protocol::Ping));
    let mut buffer = BytesMut::from(&[0][..]);
    assert_eq!(reader.decode(&mut buffer), Some(Ok(None)));
    assert_eq!(buffer.len(), 1);
    buffer.extend_from_slice(&[0x80]);
    assert_eq!(reader.decode(&mut buffer), Some(Ok(None)));
    assert_eq!(buffer.as_ref(), &[0x80][..]);
    buffer.clear();
    buffer.extend_from_slice(&FRAMED_PING);
    assert_eq!(
        reader.decode(&mut buffer),
        Some(Ok(Some(RPCCodedResponse::Success(RPCResponse::Pong(PING)))))
    );
}

#[test]
fn base_codecs_pass_requests_through() {
    let mut buffer = BytesMut::new();
    let mut writer = BaseOutboundCodec::new(outbound(Protocol::Ping));
    assert_eq!(
        writer.encode(OutboundRequest::Ping(PING), &mut buffer),
        Ok(())
    );
    assert_eq!(buffer.as_ref(), &FRAMED_PING[..]);
    let mut reader = BaseInboundCodec::new(inbound(Protocol::MetaData));
    assert_eq!(
        reader.decode(&mut buffer),
        Ok(Some(InboundRequest::MetaData))
    );
}
