//! Gossip messages: how they are compressed and told apart.

use crate::config::GOSSIP_MAX_SIZE_BELLATRIX;
use crate::snappy::{
    compress, decompress, decompressed_len, max_compressed, snappy_compress, snappy_decompress,
};
use crate::wire::{
    append_bytes, copy_range, digit, law_le_bytes_are_digits, law_le_value_of_le_bytes, le_bytes,
    lemma_le_bytes_len,
};
use sha2::{Digest, Sha256};
use vstd::arithmetic::power::pow;
use vstd::prelude::*;
use vstd::utf8::encode_utf8;

verus! {

/// What the identifier of a message that was compressed in order is computed for.
pub const MESSAGE_DOMAIN_VALID_SNAPPY: [u8; 4] = [1, 0, 0, 0];

/// How many bytes the identifier of a message has.
pub const MESSAGE_ID_LEN: usize = 20;

/// A message as it comes from the network.
#[derive(Debug, Clone)]
pub struct RawGossipsubMessage {
    pub source: Option<Vec<u8>>,
    pub data: Vec<u8>,
    pub sequence_number: Option<u64>,
    pub topic: String,
}

/// A message as the application sees it.
#[derive(Debug, Clone)]
pub struct GossipsubMessage {
    pub source: Option<Vec<u8>>,
    pub data: Vec<u8>,
    pub sequence_number: Option<u64>,
    pub topic: String,
}

impl RawGossipsubMessage {
    /// The message with its data decompressed.
    pub fn with_data(self, data: Vec<u8>) -> (message: GossipsubMessage)
        ensures
            message == (GossipsubMessage {
                source: self.source,
                data,
                sequence_number: self.sequence_number,
                topic: self.topic,
            }),
    {
        GossipsubMessage {
            source: self.source,
            data,
            sequence_number: self.sequence_number,
            topic: self.topic,
        }
    }
}

/// Why a message is not passed on.
#[derive(Debug)]
pub enum TransformError {
    /// It would be too large once it is decompressed.
    DecodedTooLarge,
    /// It is too large to be compressed.
    EncodedTooLarge,
    /// It could not be compressed or decompressed.
    Snappy(snap::Error),
}

impl TransformError {
    /// The error in words, where they are this library's.
    pub fn as_str(&self) -> (text: &'static str)
        ensures
            text@ == (match *self {
                TransformError::DecodedTooLarge => "ssz_snappy decoded data > GOSSIP_MAX_SIZE"@,
                TransformError::EncodedTooLarge => "ssz_snappy Encoded data > GOSSIP_MAX_SIZE"@,
                TransformError::Snappy(_) => "snappy error"@,
            }),
    {
        match self {
            TransformError::DecodedTooLarge => "ssz_snappy decoded data > GOSSIP_MAX_SIZE",
            TransformError::EncodedTooLarge => "ssz_snappy Encoded data > GOSSIP_MAX_SIZE",
            TransformError::Snappy(_) => "snappy error",
        }
    }
}

/// Compresses messages on their way out, and decompresses them on their way in.
pub struct SnappyTransform {
    max_size_per_message: usize,
}

/// What becomes of the data of a message on its way in.
pub enum InboundData {
    /// The data, decompressed.
    Data(Seq<u8>),
    /// It would be too large.
    TooLarge,
    /// It is no Snappy block.
    Invalid,
}

/// What becomes of the data of a message on its way in. It is refused by the length that it
/// claims to have before it is decompressed.
pub open spec fn inbound_data(data: Seq<u8>, max_size: nat) -> InboundData {
    match decompressed_len(data) {
        None => InboundData::Invalid,
        Some(len) => if len > max_size {
            InboundData::TooLarge
        } else {
            match snappy_decompress(data) {
                None => InboundData::Invalid,
                Some(bytes) => InboundData::Data(bytes),
            }
        },
    }
}

impl SnappyTransform {
    /// The most bytes that a message may hold.
    pub closed spec fn max_size(&self) -> nat {
        self.max_size_per_message as nat
    }

    /// The transformation of the main network.
    pub fn new() -> (transform: Self)
        ensures
            transform.max_size() == GOSSIP_MAX_SIZE_BELLATRIX,
    {
        SnappyTransform { max_size_per_message: GOSSIP_MAX_SIZE_BELLATRIX }
    }

    /// Decompresses a message. One without data is refused.
    pub fn inbound_transform(&self, raw_message: RawGossipsubMessage) -> (result: Result<
        GossipsubMessage,
        TransformError,
    >)
        ensures
            match inbound_data(raw_message.data@, self.max_size()) {
                InboundData::Data(bytes) => {
                    &&& result matches Ok(message)
                    &&& message.data@ == bytes
                    &&& message.source == raw_message.source
                    &&& message.sequence_number == raw_message.sequence_number
                    &&& message.topic == raw_message.topic
                },
                InboundData::TooLarge => result matches Err(TransformError::DecodedTooLarge),
                InboundData::Invalid => result matches Err(TransformError::Snappy(_)),
            },
            raw_message.data@.len() == 0 ==> result is Err,
    {
        let len: usize = match snap::raw::decompress_len(raw_message.data.as_slice()) {
            Ok(len) => len,
            Err(e) => return Err(TransformError::Snappy(e)),
        };
        if len > self.max_size_per_message {
            return Err(TransformError::DecodedTooLarge);
        }
        match decompress(raw_message.data.as_slice()) {
            Ok(data) => Ok(raw_message.with_data(data)),
            Err(e) => Err(TransformError::Snappy(e)),
        }
    }

    /// Compresses the data of a message. On its way in, it is decompressed to what it was.
    pub fn outbound_transform(&self, _topic: &str, data: Vec<u8>) -> (result: Result<
        Vec<u8>,
        TransformError,
    >)
        ensures
            match result {
                Ok(bytes) => {
                    &&& data@.len() <= self.max_size()
                    &&& max_compressed(data@.len()) > 0
                    &&& bytes@ == snappy_compress(data@)
                    &&& inbound_data(bytes@, self.max_size()) == InboundData::Data(data@)
                },
                Err(TransformError::EncodedTooLarge) => data@.len() > self.max_size(),
                Err(TransformError::Snappy(_)) => {
                    &&& data@.len() <= self.max_size()
                    &&& max_compressed(data@.len()) == 0
                },
                Err(TransformError::DecodedTooLarge) => false,
            },
    {
        if data.len() > self.max_size_per_message {
            return Err(TransformError::EncodedTooLarge);
        }
        match compress(data.as_slice()) {
            Ok(bytes) => Ok(bytes),
            Err(e) => Err(TransformError::Snappy(e)),
        }
    }
}

/// Every message that is not too large can be compressed.
pub proof fn law_gossip_can_be_compressed(len: nat)
    requires
        len <= GOSSIP_MAX_SIZE_BELLATRIX,
    ensures
        max_compressed(len) > 0,
{
}

// Identifiers

/// How many bytes a `usize` has.
pub open spec fn usize_width() -> nat {
    (usize::BITS / 8) as nat
}

/// Calls `usize::to_le_bytes` of the standard library, which gives the bytes of a number,
/// least significant first.
#[verifier::external_body]
fn usize_le_bytes(value: usize) -> (bytes: Vec<u8>)
    ensures
        bytes@ == le_bytes(value as nat, usize_width()),
{
    value.to_le_bytes().to_vec()
}

/// The SHA-256 digest of some bytes, as the `sha2` crate computes it.
pub uninterp spec fn sha256_of(bytes: Seq<u8>) -> Seq<u8>;

/// Calls `sha2::Sha256::digest`.
#[verifier::external_body]
fn sha256(bytes: &[u8]) -> (digest: [u8; 32])
    ensures
        digest@ == sha256_of(bytes@),
{
    Sha256::digest(bytes).into()
}

/// What the identifier of a message is computed from: a domain, the length of the topic, the
/// topic, and the data.
pub open spec fn message_preimage(domain: Seq<u8>, topic: Seq<u8>, data: Seq<u8>) -> Seq<u8> {
    domain + le_bytes(topic.len(), usize_width()) + topic + data
}

/// What the identifier of a message is computed from.
pub fn prefix(domain: [u8; 4], message: &GossipsubMessage) -> (bytes: Vec<u8>)
    ensures
        bytes@ == message_preimage(domain@, encode_utf8(message.topic@), message.data@),
{
    let topic_bytes: &[u8] = message.topic.as_str().as_bytes();
    let topic_len_bytes: Vec<u8> = usize_le_bytes(topic_bytes.len());
    let mut bytes: Vec<u8> = Vec::new();
    append_bytes(&mut bytes, domain.as_slice());
    append_bytes(&mut bytes, topic_len_bytes.as_slice());
    append_bytes(&mut bytes, topic_bytes);
    append_bytes(&mut bytes, message.data.as_slice());
    assert(bytes@ =~= message_preimage(domain@, encode_utf8(message.topic@), message.data@));
    bytes
}

/// The first 20 bytes of a digest.
pub fn truncate_digest(digest: &[u8; 32]) -> (id: Vec<u8>)
    ensures
        id@ == digest@.take(MESSAGE_ID_LEN as int),
{
    let id: Vec<u8> = copy_range(digest.as_slice(), 0, MESSAGE_ID_LEN);
    assert(id@ =~= digest@.take(MESSAGE_ID_LEN as int));
    id
}

/// The identifier of a message.
pub fn gossip_message_id(message: &GossipsubMessage) -> (id: Vec<u8>)
    ensures
        id@ == sha256_of(
            message_preimage(
                MESSAGE_DOMAIN_VALID_SNAPPY@,
                encode_utf8(message.topic@),
                message.data@,
            ),
        ).take(MESSAGE_ID_LEN as int),
{
    let bytes: Vec<u8> = prefix(MESSAGE_DOMAIN_VALID_SNAPPY, message);
    truncate_digest(&sha256(bytes.as_slice()))
}

/// Messages of different topics or data have different preimages.
pub proof fn law_preimages_differ(
    domain: Seq<u8>,
    topic_a: Seq<u8>,
    data_a: Seq<u8>,
    topic_b: Seq<u8>,
    data_b: Seq<u8>,
)
    requires
        topic_a.len() <= usize::MAX,
        topic_b.len() <= usize::MAX,
        message_preimage(domain, topic_a, data_a) == message_preimage(domain, topic_b, data_b),
    ensures
        topic_a == topic_b,
        data_a == data_b,
{
    let a = message_preimage(domain, topic_a, data_a);
    let b = message_preimage(domain, topic_b, data_b);
    let width = usize_width();
    let start = domain.len() as int;
    let head = start + width;
    lemma_le_bytes_len(topic_a.len(), width);
    lemma_le_bytes_len(topic_b.len(), width);
    assert(usize::MAX < pow(256, width)) by {
        reveal_with_fuel(pow, 9);
    }
    law_le_value_of_le_bytes(topic_a.len(), width);
    law_le_value_of_le_bytes(topic_b.len(), width);
    assert(a.subrange(start, head) =~= le_bytes(topic_a.len(), width));
    assert(b.subrange(start, head) =~= le_bytes(topic_b.len(), width));
    let end = head + topic_a.len();
    assert(a.subrange(head, end) =~= topic_a);
    assert(b.subrange(head, end) =~= topic_b);
    assert(a.skip(end) =~= data_a);
    assert(b.skip(end) =~= data_b);
}

/// Where each byte stands that the identifier of a message is computed from: first the domain, then
/// the length of the topic with its least significant byte first, then the topic, then the data.
pub proof fn law_preimage_layout(domain: Seq<u8>, topic: Seq<u8>, data: Seq<u8>)
    ensures
        ({
            let bytes = message_preimage(domain, topic, data);
            let head = domain.len() + usize_width();
            &&& bytes.len() == head + topic.len() + data.len()
            &&& forall|i: int| 0 <= i < domain.len() ==> #[trigger] bytes[i] == domain[i]
            &&& forall|i: nat|
                i < usize_width() ==> bytes[domain.len() + i as int] == #[trigger] digit(
                    topic.len(),
                    i,
                )
            &&& forall|i: int| 0 <= i < topic.len() ==> bytes[head + i] == #[trigger] topic[i]
            &&& forall|i: int|
                0 <= i < data.len() ==> bytes[head + topic.len() + i] == #[trigger] data[i]
        }),
{
    let bytes = message_preimage(domain, topic, data);
    lemma_le_bytes_len(topic.len(), usize_width());
    assert forall|i: nat| i < usize_width() implies bytes[domain.len() + i as int]
        == #[trigger] digit(topic.len(), i) by {
        law_le_bytes_are_digits(topic.len(), usize_width(), i);
    }
}

/// What becomes of data on its way in. What claims to be longer than the maximum is too large,
/// whatever it holds; what claims to be as long as the maximum or shorter is passed on just as it
/// is decompressed. With a larger maximum nothing else is made of what was passed on.
pub proof fn law_claimed_length_decides(data: Seq<u8>, max_size: nat, larger: nat)
    requires
        max_size <= larger,
    ensures
        decompressed_len(data) is None ==> inbound_data(data, max_size) is Invalid,
        decompressed_len(data) matches Some(len) ==> {
            &&& inbound_data(data, max_size) is TooLarge <==> len > max_size
            &&& len <= max_size && snappy_decompress(data) is None ==> inbound_data(data, max_size)
                is Invalid
            &&& len <= max_size && snappy_decompress(data) is Some ==> inbound_data(data, max_size)
                == InboundData::Data(snappy_decompress(data)->0)
        },
        inbound_data(data, max_size) is Data ==> inbound_data(data, larger) == inbound_data(
            data,
            max_size,
        ),
{
}

} // verus!
