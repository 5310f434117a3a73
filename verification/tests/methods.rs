use consensus_p2p::rpc::methods::{
    EnrAttestationBitfield, EnrSyncCommitteeBitfield, ErrorType, MetaData, Ping,
    RPCCodedResponse, RPCResponse, StatusMessage,
};
use consensus_p2p::wire::SszError;

fn status() -> StatusMessage {
    StatusMessage {
        fork_digest: [0x4a, 0x26, 0xc5, 0x8b],
        finalized_root: [3; 32],
        finalized_epoch: 258,
        head_root: [9; 32],
        head_slot: u64::MAX,
    }
}

#[test]
fn status_is_its_fields_one_after_another() {
    let bytes = status().as_ssz_bytes();
    let mut expected = vec![0x4a, 0x26, 0xc5, 0x8b];
    expected.extend([3; 32]);
    expected.extend([2, 1, 0, 0, 0, 0, 0, 0]);
    expected.extend([9; 32]);
    expected.extend([255; 8]);
    assert_eq!(bytes, expected);
    assert_eq!(bytes.len(), StatusMessage::ssz_fixed_len());
    assert_eq!(StatusMessage::from_ssz_bytes(&bytes), Ok(status()));
}

#[test]
fn status_of_another_length_is_refused() {
    assert_eq!(
        StatusMessage::from_ssz_bytes(&[0; 83]),
        Err(SszError::InvalidByteLength {
            len: 83,
            expected: 84
        })
    );
}

#[test]
fn ping_is_eight_bytes_little_endian() {
    let ping = Ping { data: 0x0102 };
    assert_eq!(ping.as_ssz_bytes(), vec![2, 1, 0, 0, 0, 0, 0, 0]);
    assert_eq!(
        Ping::from_ssz_bytes(&[2, 1, 0, 0, 0, 0, 0, 0]),
        Ok(Ping { data: 258 })
    );
    assert_eq!(Ping::ssz_fixed_len(), 8);
    assert_eq!(
        Ping::from_ssz_bytes(&[]),
        Err(SszError::InvalidByteLength {
            len: 0,
            expected: 8
        })
    );
}

#[test]
fn metadata_is_read_back() {
    let mut bytes = vec![5, 0, 0, 0, 0, 0, 0, 0];
    bytes.extend([0xff, 0, 0x81, 0, 0, 0, 0, 1]);
    bytes.push(0b1010);
    let metadata = MetaData::from_ssz_bytes(&bytes).unwrap();
    assert_eq!(metadata.seq_number, 5);
    assert_eq!(metadata.as_ssz_bytes(), bytes);
    assert_eq!(metadata.clone().as_ssz_bytes(), bytes);
    assert_eq!(metadata.clone(), metadata);
    assert_eq!(MetaData::ssz_fixed_len(), 17);
}

#[test]
fn metadata_with_bits_beyond_its_subnets_is_refused() {
    let mut bytes = vec![0; 17];
    bytes[16] = 15;
    assert!(MetaData::from_ssz_bytes(&bytes).is_ok());
    bytes[16] = 16;
    assert_eq!(
        MetaData::from_ssz_bytes(&bytes).unwrap_err(),
        SszError::ExcessBits
    );
    assert_eq!(
        MetaData::from_ssz_bytes(&[0; 16]).unwrap_err(),
        SszError::InvalidByteLength {
            len: 16,
            expected: 17
        }
    );
}

#[test]
fn default_bitfields_are_clear() {
    let metadata = MetaData {
        seq_number: 1,
        attnets: EnrAttestationBitfield::default(),
        syncnets: EnrSyncCommitteeBitfield::default(),
    };
    let mut expected = vec![1];
    expected.extend([0; 16]);
    assert_eq!(metadata.as_ssz_bytes(), expected);
}

#[test]
fn error_messages_are_bounded() {
    let error = ErrorType::from_ssz_bytes(b"too slow").unwrap();
    assert_eq!(error.0.to_vec(), b"too slow".to_vec());
    assert_eq!(
        ErrorType::from_ssz_bytes(&[]).unwrap().0.to_vec(),
        Vec::<u8>::new()
    );
    assert_eq!(
        ErrorType::from_ssz_bytes(&[1; 256]).unwrap().0.to_vec(),
        vec![1; 256]
    );
    assert!(ErrorType::from_ssz_bytes(&[1; 257]).is_none());
}

#[test]
fn codes_tell_success_from_failure() {
    let success = RPCCodedResponse::Success(RPCResponse::Pong(Ping { data: 3 }));
    assert_eq!(success.as_u8(), Some(0));
    assert_eq!(RPCCodedResponse::Error.as_u8(), Some(4));
    assert!(RPCCodedResponse::is_response(0));
    assert!(!RPCCodedResponse::is_response(4));
    assert!(!RPCCodedResponse::is_response(1));
    assert!(!success.close_after());
    assert!(RPCCodedResponse::Error.close_after());
}
