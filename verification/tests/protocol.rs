use consensus_p2p::rpc::methods::{Ping, StatusMessage};
use consensus_p2p::rpc::protocol::{
    FirstRead, InboundRequest, InboundUpgradeStep, OutboundRequest, OutboundRequestContainer,
    Protocol, ProtocolId, RPCError, RPCProtocol, RpcLimits, Version, MAX_RPC_SIZE_POST_MERGE,
};

fn status() -> StatusMessage {
    StatusMessage {
        fork_digest: [0; 4],
        finalized_root: [0; 32],
        finalized_epoch: 0,
        head_root: [0; 32],
        head_slot: 0,
    }
}

fn names(protocols: Vec<ProtocolId>) -> Vec<String> {
    protocols
        .iter()
        .map(|protocol| String::from_utf8(protocol.protocol_name().to_vec()).unwrap())
        .collect()
}

#[test]
fn protocols_listened_for() {
    assert_eq!(
        names(RPCProtocol {}.protocol_info()),
        vec![
            "/eth2/beacon_chain/req/status/1/ssz_snappy",
            "/eth2/beacon_chain/req/goodbye/1/ssz_snappy",
            "/eth2/beacon_chain/req/ping/1/ssz_snappy",
            "/eth2/beacon_chain/req/metadata/2/ssz_snappy",
        ]
    );
}

#[test]
fn every_protocol_has_its_name() {
    let texts: Vec<&str> = vec![
        Protocol::Status,
        Protocol::Goodbye,
        Protocol::BlocksByRange,
        Protocol::BlocksByRoot,
        Protocol::Ping,
        Protocol::MetaData,
        Protocol::LightClientBootstrap,
    ]
    .iter()
    .map(|protocol| protocol.as_str())
    .collect();
    assert_eq!(
        texts,
        vec![
            "status",
            "goodbye",
            "beacon_blocks_by_range",
            "beacon_blocks_by_root",
            "ping",
            "metadata",
            "light_client_bootstrap",
        ]
    );
    assert_eq!(Version::V1.as_str(), "1");
    assert_eq!(Version::V2.as_str(), "2");
}

#[test]
fn requests_are_sent_by_protocols_that_are_listened_for() {
    let listened = names(RPCProtocol {}.protocol_info());
    let requests = vec![
        OutboundRequest::Status(status()),
        OutboundRequest::Goodbye(1),
        OutboundRequest::Ping(Ping { data: 0 }),
        OutboundRequest::MetaData,
    ];
    for req in requests {
        let supported = names(req.supported_protocols());
        assert_eq!(supported.len(), 1);
        assert!(listened.contains(&supported[0]));
        assert_eq!(
            names(OutboundRequestContainer { req }.protocol_info()),
            supported
        );
    }
}

#[test]
fn limits_of_requests() {
    let limits = |protocol| ProtocolId::new(protocol, Version::V1).rpc_request_limits();
    assert_eq!(limits(Protocol::Status), RpcLimits::new(84, 84));
    assert_eq!(limits(Protocol::Ping), RpcLimits::new(8, 8));
    assert_eq!(limits(Protocol::MetaData), RpcLimits::new(0, 0));
    assert_eq!(limits(Protocol::Goodbye), RpcLimits::new(0, 0));
}

#[test]
fn limits_of_responses() {
    let limits = |protocol| ProtocolId::new(protocol, Version::V2).rpc_response_limits();
    assert_eq!(limits(Protocol::Status), RpcLimits::new(84, 84));
    assert_eq!(limits(Protocol::Ping), RpcLimits::new(8, 8));
    assert_eq!(limits(Protocol::MetaData), RpcLimits::new(17, 17));
    assert_eq!(limits(Protocol::BlocksByRange), RpcLimits::new(0, 0));
}

#[test]
fn lengths_out_of_bounds() {
    let limits = RpcLimits::new(4, 10);
    assert!(limits.is_out_of_bounds(3, 100));
    assert!(!limits.is_out_of_bounds(4, 100));
    assert!(!limits.is_out_of_bounds(10, 100));
    assert!(limits.is_out_of_bounds(11, 100));
    assert!(limits.is_out_of_bounds(9, 8));
    assert!(!limits.is_out_of_bounds(8, 8));
    assert_eq!(MAX_RPC_SIZE_POST_MERGE, 10_485_760);
}

#[test]
fn only_blocks_have_context_bytes() {
    let has = |protocol| ProtocolId::new(protocol, Version::V1).has_context_bytes();
    assert!(has(Protocol::BlocksByRange));
    assert!(has(Protocol::BlocksByRoot));
    assert!(!has(Protocol::Status));
    assert!(!has(Protocol::MetaData));
}

#[test]
fn requests_know_their_protocol_and_responses() {
    assert_eq!(InboundRequest::Status(status()).expected_responses(), 1);
    assert_eq!(InboundRequest::Goodbye(2).expected_responses(), 0);
    assert_eq!(InboundRequest::Ping(Ping { data: 1 }).expected_responses(), 1);
    assert_eq!(InboundRequest::MetaData.expected_responses(), 1);
    assert_eq!(InboundRequest::MetaData.protocol(), Protocol::MetaData);
    assert_eq!(InboundRequest::Goodbye(2).protocol(), Protocol::Goodbye);
    assert_eq!(OutboundRequest::Goodbye(2).expected_responses(), 0);
    assert_eq!(OutboundRequest::MetaData.expected_responses(), 1);
    assert_eq!(OutboundRequest::Status(status()).protocol(), Protocol::Status);
    assert_eq!(
        OutboundRequest::Ping(Ping { data: 1 }).protocol(),
        Protocol::Ping
    );
}

#[test]
fn metadata_requests_are_not_read() {
    let metadata = ProtocolId::new(Protocol::MetaData, Version::V2);
    assert!(matches!(
        RPCProtocol {}.upgrade_inbound(&metadata),
        InboundUpgradeStep::Done(InboundRequest::MetaData)
    ));
    let ping = ProtocolId::new(Protocol::Ping, Version::V1);
    assert!(matches!(
        RPCProtocol {}.upgrade_inbound(&ping),
        InboundUpgradeStep::ReadRequest {
            first_byte_secs: 5,
            request_secs: 15
        }
    ));
}

#[test]
fn what_became_of_the_first_request() {
    let protocol = RPCProtocol {};
    let request = InboundRequest::Ping(Ping { data: 4 });
    assert_eq!(
        protocol.finish_upgrade_inbound(FirstRead::Request(request)),
        Ok(request)
    );
    assert_eq!(
        protocol.finish_upgrade_inbound(FirstRead::TimedOut),
        Err(RPCError::Error)
    );
    assert_eq!(
        protocol.finish_upgrade_inbound(FirstRead::Closed),
        Err(RPCError::Error)
    );
    assert_eq!(
        protocol.finish_upgrade_inbound(FirstRead::Failed(RPCError::Error)),
        Err(RPCError::Error)
    );
}

#[test]
fn errors_become_those_of_the_domain() {
    let io_error = std::io::Error::new(std::io::ErrorKind::Other, "gone");
    assert_eq!(RPCError::from(io_error), RPCError::Error);
    assert_eq!(RPCError::Error.as_str(), "RPC Error");
}
