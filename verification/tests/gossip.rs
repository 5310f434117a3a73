use consensus_p2p::config::GOSSIP_MAX_SIZE_BELLATRIX;
use consensus_p2p::gossip::{
    gossip_message_id, prefix, truncate_digest, GossipsubMessage, RawGossipsubMessage,
    SnappyTransform, TransformError, MESSAGE_DOMAIN_VALID_SNAPPY,
};

fn raw(data: Vec<u8>) -> RawGossipsubMessage {
    RawGossipsubMessage {
        source: Some(vec![1, 2]),
        data,
        sequence_number: Some(5),
        topic: String::from("topic"),
    }
}

fn message(topic: &str, data: &[u8]) -> GossipsubMessage {
    GossipsubMessage {
        source: None,
        data: data.to_vec(),
        sequence_number: None,
        topic: String::from(topic),
    }
}

#[test]
fn messages_are_decompressed_to_what_they_were() {
    let transform = SnappyTransform::new();
    let mut data = vec![7; 1000];
    data.extend(b"a block".iter());
    for data in [data, Vec::new(), vec![1]] {
        let compressed = transform.outbound_transform("topic", data.clone()).unwrap();
        assert_ne!(compressed, data);
        let message = transform.inbound_transform(raw(compressed)).unwrap();
        assert_eq!(message.data, data);
        assert_eq!(message.source, Some(vec![1, 2]));
        assert_eq!(message.sequence_number, Some(5));
        assert_eq!(message.topic, "topic");
    }
}

#[test]
fn empty_data_is_compressed_to_its_length() {
    let transform = SnappyTransform::new();
    assert_eq!(
        transform.outbound_transform("topic", Vec::new()).unwrap(),
        vec![0]
    );
}

#[test]
fn messages_that_claim_to_be_too_large_are_refused() {
    let transform = SnappyTransform::new();
    let error = transform
        .inbound_transform(raw(vec![0x81, 0x80, 0x80, 0x05, 0]))
        .unwrap_err();
    assert!(matches!(error, TransformError::DecodedTooLarge));
    assert_eq!(error.as_str(), "ssz_snappy decoded data > GOSSIP_MAX_SIZE");
    let error = transform
        .inbound_transform(raw(vec![0x80, 0x80, 0x80, 0x05, 0]))
        .unwrap_err();
    assert!(matches!(error, TransformError::Snappy(_)));
    assert_eq!(error.as_str(), "snappy error");
}

#[test]
fn data_that_is_too_large_is_not_sent() {
    let transform = SnappyTransform::new();
    let error = transform
        .outbound_transform("topic", vec![0; GOSSIP_MAX_SIZE_BELLATRIX + 1])
        .unwrap_err();
    assert!(matches!(error, TransformError::EncodedTooLarge));
    assert_eq!(error.as_str(), "ssz_snappy Encoded data > GOSSIP_MAX_SIZE");
    assert!(transform
        .outbound_transform("topic", vec![0; GOSSIP_MAX_SIZE_BELLATRIX])
        .is_ok());
}

#[test]
fn bytes_that_are_no_snappy_block_are_refused() {
    let transform = SnappyTransform::new();
    for data in [
        vec![],
        vec![0x80],
        vec![0x80, 0x80, 0x80, 0x80, 0x80, 0x01],
        vec![0xff, 0xff, 0xff, 0xff, 0x1f],
        vec![5, 0],
    ] {
        assert!(matches!(
            transform.inbound_transform(raw(data)),
            Err(TransformError::Snappy(_))
        ));
    }
}

#[test]
fn identifiers_are_computed_from_topic_and_data() {
    let message = message("t", b"hello");
    let mut preimage = vec![1, 0, 0, 0];
    preimage.extend(1usize.to_le_bytes());
    preimage.extend(b"thello".iter());
    assert_eq!(prefix(MESSAGE_DOMAIN_VALID_SNAPPY, &message), preimage);
    assert_eq!(
        gossip_message_id(&message),
        vec![
            85, 62, 129, 8, 97, 173, 159, 43, 59, 222, 98, 141, 136, 250, 37, 242, 111, 1, 211, 41
        ]
    );
}

#[test]
fn identifiers_tell_topic_from_data() {
    let a = message("ab", b"c");
    let b = message("a", b"bc");
    assert_ne!(
        prefix(MESSAGE_DOMAIN_VALID_SNAPPY, &a),
        prefix(MESSAGE_DOMAIN_VALID_SNAPPY, &b)
    );
    assert_ne!(gossip_message_id(&a), gossip_message_id(&b));
}

#[test]
fn digests_are_cut_off() {
    let mut digest = [0; 32];
    for (i, byte) in digest.iter_mut().enumerate() {
        *byte = i as u8;
    }
    assert_eq!(truncate_digest(&digest), (0..20).collect::<Vec<u8>>());
}

#[test]
fn data_takes_the_place_of_the_raw_data() {
    let message = raw(vec![1]).with_data(vec![2, 3]);
    assert_eq!(message.data, vec![2, 3]);
    assert_eq!(message.topic, "topic");
}
