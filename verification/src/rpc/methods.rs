//! The messages of the request/response domain and their SSZ encodings.

use super::fields::{
    bytes_of_4_bits, bytes_of_64_bits, decode_4_bits, decode_64_bits, encode_4_bits,
    encode_64_bits, list_decode, listed_bytes, no_bits_of_4, no_bits_of_64,
};
use crate::chain::Hash256;
use crate::wire::{
    append_bytes, copy_array_32, copy_array_4, copy_range, decode_u64_at, law_le_bytes_of_le_value,
    law_le_value_of_le_bytes, le_bytes, le_value, lemma_array_equal, lemma_le_bytes_len,
    lemma_le_value_fits, lemma_number_at, lemma_u64_fits, number_at, ssz_decode_u64,
    ssz_encode_u64, SszError,
};
use ssz_types::{
    typenum::{U256, U4, U64},
    BitVector, VariableList,
};
use vstd::arithmetic::power::pow;
use vstd::prelude::*;

verus! {

/// The length of an encoded [`StatusMessage`].
pub const STATUS_LEN: usize = 84;

/// The length of an encoded [`Ping`].
pub const PING_LEN: usize = 8;

/// The length of an encoded [`MetaData`].
pub const METADATA_LEN: usize = 17;

/// The most bytes that an error message may hold.
pub const MAX_ERROR_LEN: usize = 256;

/// The most bytes that an error message may hold, as a type.
pub type MaxErrorLen = U256;

/// An error message.
#[derive(Debug, Clone)]
pub struct ErrorType(pub VariableList<u8, MaxErrorLen>);

/// The bytes of an error message.
pub open spec fn error_bytes(error: ErrorType) -> Seq<u8> {
    listed_bytes(error.0)
}

impl ErrorType {
    /// Reads an error message. It is accepted if it is not too long.
    pub fn from_ssz_bytes(bytes: &[u8]) -> (result: Option<Self>)
        ensures
            match result {
                Some(error) => bytes@.len() <= MAX_ERROR_LEN && error_bytes(error) == bytes@,
                None => bytes@.len() > MAX_ERROR_LEN,
            },
    {
        match list_decode(bytes) {
            Ok(list) => Some(ErrorType(list)),
            Err(_) => None,
        }
    }
}

/// How many attestation subnets there are, as a type.
pub type SubnetBitfieldLength = U64;

/// How many sync committee subnets there are, as a type.
pub type SyncCommitteeSubnetCount = U4;

/// Which of the attestation subnets a node has joined.
pub type EnrAttestationBitfield = BitVector<SubnetBitfieldLength>;

/// Which of the sync committee subnets a node has joined.
pub type EnrSyncCommitteeBitfield = BitVector<SyncCommitteeSubnetCount>;

// Messages

/// What a node tells of its chain when it greets another one.
#[derive(Clone, Copy, Debug, PartialEq)]
pub struct StatusMessage {
    pub fork_digest: [u8; 4],
    pub finalized_root: Hash256,
    pub finalized_epoch: u64,
    pub head_root: Hash256,
    pub head_slot: u64,
}

/// The encoding of a status message: its fields one after another.
pub open spec fn status_bytes(message: StatusMessage) -> Seq<u8> {
    message.fork_digest@ + message.finalized_root@ + le_bytes(message.finalized_epoch as nat, 8)
        + message.head_root@ + le_bytes(message.head_slot as nat, 8)
}

/// An encoded status message has 84 bytes, and no two messages share them.
pub proof fn law_status_bytes_injective(a: StatusMessage, b: StatusMessage)
    ensures
        status_bytes(a).len() == STATUS_LEN,
        status_bytes(a) == status_bytes(b) ==> a == b,
{
    lemma_status_fields(a);
    lemma_status_fields(b);
    if status_bytes(a) == status_bytes(b) {
        lemma_array_equal(a.fork_digest, b.fork_digest);
        lemma_array_equal(a.finalized_root, b.finalized_root);
        lemma_array_equal(a.head_root, b.head_root);
    }
}

/// Where the fields of a status message stand in its encoding.
proof fn lemma_status_fields(message: StatusMessage)
    ensures
        status_bytes(message).len() == STATUS_LEN,
        status_bytes(message).subrange(0, 4) == message.fork_digest@,
        status_bytes(message).subrange(4, 36) == message.finalized_root@,
        le_value(status_bytes(message).subrange(36, 44)) == message.finalized_epoch,
        status_bytes(message).subrange(44, 76) == message.head_root@,
        le_value(status_bytes(message).subrange(76, 84)) == message.head_slot,
{
    let bytes = status_bytes(message);
    lemma_le_bytes_len(message.finalized_epoch as nat, 8);
    lemma_le_bytes_len(message.head_slot as nat, 8);
    lemma_u64_fits(message.finalized_epoch);
    lemma_u64_fits(message.head_slot);
    law_le_value_of_le_bytes(message.finalized_epoch as nat, 8);
    law_le_value_of_le_bytes(message.head_slot as nat, 8);
    assert(bytes.subrange(0, 4) =~= message.fork_digest@);
    assert(bytes.subrange(4, 36) =~= message.finalized_root@);
    assert(bytes.subrange(36, 44) =~= le_bytes(message.finalized_epoch as nat, 8));
    assert(bytes.subrange(44, 76) =~= message.head_root@);
    assert(bytes.subrange(76, 84) =~= le_bytes(message.head_slot as nat, 8));
}

/// Where each byte of a status message stands in its encoding. Bytes 0 to 3 are the fork digest,
/// 4 to 35 the finalized root, 36 to 43 the finalized epoch, 44 to 75 the root of the head and
/// 76 to 83 its slot. Roots and digest are in order, numbers with the least significant byte
/// first.
pub proof fn law_status_layout(message: StatusMessage)
    ensures
        status_bytes(message).len() == 84,
        forall|i: int|
            0 <= i < 4 ==> #[trigger] status_bytes(message)[i] == message.fork_digest@[i],
        forall|i: int|
            0 <= i < 32 ==> status_bytes(message)[4 + i] == #[trigger] message.finalized_root@[i],
        number_at(status_bytes(message), 36, message.finalized_epoch),
        forall|i: int|
            0 <= i < 32 ==> status_bytes(message)[44 + i] == #[trigger] message.head_root@[i],
        number_at(status_bytes(message), 76, message.head_slot),
{
    let bytes = status_bytes(message);
    lemma_le_bytes_len(message.finalized_epoch as nat, 8);
    lemma_le_bytes_len(message.head_slot as nat, 8);
    assert(bytes.subrange(36, 44) =~= le_bytes(message.finalized_epoch as nat, 8));
    assert(bytes.subrange(76, 84) =~= le_bytes(message.head_slot as nat, 8));
    lemma_number_at(bytes, 36, message.finalized_epoch);
    lemma_number_at(bytes, 76, message.head_slot);
}

impl StatusMessage {
    /// The length of every encoded status message.
    pub fn ssz_fixed_len() -> (len: usize)
        ensures
            len == STATUS_LEN,
    {
        STATUS_LEN
    }

    /// Encodes the message.
    pub fn as_ssz_bytes(&self) -> (bytes: Vec<u8>)
        ensures
            bytes@ == status_bytes(*self),
            bytes@.len() == STATUS_LEN,
    {
        let mut bytes: Vec<u8> = Vec::new();
        append_bytes(&mut bytes, self.fork_digest.as_slice());
        append_bytes(&mut bytes, self.finalized_root.as_slice());
        append_bytes(&mut bytes, ssz_encode_u64(self.finalized_epoch).as_slice());
        append_bytes(&mut bytes, self.head_root.as_slice());
        append_bytes(&mut bytes, ssz_encode_u64(self.head_slot).as_slice());
        proof {
            lemma_status_fields(*self);
            assert(bytes@ =~= status_bytes(*self));
        }
        bytes
    }

    /// Reads a message. Any bytes of the right length denote one.
    pub fn from_ssz_bytes(bytes: &[u8]) -> (result: Result<Self, SszError>)
        ensures
            match result {
                Ok(message) => bytes@ == status_bytes(message),
                Err(e) => {
                    &&& bytes@.len() != STATUS_LEN
                    &&& e == (SszError::InvalidByteLength {
                        len: bytes.len(),
                        expected: STATUS_LEN,
                    })
                },
            },
    {
        if bytes.len() != STATUS_LEN {
            return Err(SszError::InvalidByteLength { len: bytes.len(), expected: STATUS_LEN });
        }
        let finalized_epoch: u64 = decode_u64_at(bytes, 36);
        let head_slot: u64 = decode_u64_at(bytes, 76);
        let message = StatusMessage {
            fork_digest: copy_array_4(bytes, 0),
            finalized_root: copy_array_32(bytes, 4),
            finalized_epoch,
            head_root: copy_array_32(bytes, 44),
            head_slot,
        };
        assert(status_bytes(message) =~= bytes@);
        Ok(message)
    }
}

/// A ping, or the answer to one.
#[derive(Clone, Copy, Debug, PartialEq)]
pub struct Ping {
    pub data: u64,
}

/// The encoding of a ping: its number.
pub open spec fn ping_bytes(ping: Ping) -> Seq<u8> {
    le_bytes(ping.data as nat, 8)
}

/// An encoded ping has eight bytes, and no two pings share them.
pub proof fn law_ping_bytes_injective(a: Ping, b: Ping)
    ensures
        ping_bytes(a).len() == PING_LEN,
        ping_bytes(a) == ping_bytes(b) ==> a == b,
{
    lemma_le_bytes_len(a.data as nat, 8);
    lemma_u64_fits(a.data);
    lemma_u64_fits(b.data);
    law_le_value_of_le_bytes(a.data as nat, 8);
    law_le_value_of_le_bytes(b.data as nat, 8);
}

/// Where each byte of a ping stands: its number with the least significant byte first.
pub proof fn law_ping_layout(ping: Ping)
    ensures
        ping_bytes(ping).len() == 8,
        number_at(ping_bytes(ping), 0, ping.data),
{
    let bytes = ping_bytes(ping);
    lemma_le_bytes_len(ping.data as nat, 8);
    assert(bytes.subrange(0, 8) =~= bytes);
    lemma_number_at(bytes, 0, ping.data);
}

impl Ping {
    /// The length of every encoded ping.
    pub fn ssz_fixed_len() -> (len: usize)
        ensures
            len == PING_LEN,
    {
        PING_LEN
    }

    /// Encodes the ping.
    pub fn as_ssz_bytes(&self) -> (bytes: Vec<u8>)
        ensures
            bytes@ == ping_bytes(*self),
            bytes@.len() == PING_LEN,
    {
        proof {
            lemma_le_bytes_len(self.data as nat, 8);
        }
        ssz_encode_u64(self.data)
    }

    /// Reads a ping. Any eight bytes denote one.
    pub fn from_ssz_bytes(bytes: &[u8]) -> (result: Result<Self, SszError>)
        ensures
            match result {
                Ok(ping) => bytes@ == ping_bytes(ping),
                Err(e) => {
                    &&& bytes@.len() != PING_LEN
                    &&& e == (SszError::InvalidByteLength { len: bytes.len(), expected: PING_LEN })
                },
            },
    {
        match ssz_decode_u64(bytes) {
            Ok(data) => {
                proof {
                    law_le_bytes_of_le_value(bytes@);
                }
                Ok(Ping { data })
            },
            Err(_) => Err(
                SszError::InvalidByteLength { len: bytes.len(), expected: PING_LEN },
            ),
        }
    }
}

/// The subnets that a node has joined, and how often that has changed.
#[derive(Clone, Debug, PartialEq)]
pub struct MetaData {
    pub seq_number: u64,
    pub attnets: EnrAttestationBitfield,
    pub syncnets: EnrSyncCommitteeBitfield,
}

/// What a [`MetaData`] says, with its bitfields as bytes.
pub struct MetaDataView {
    pub seq_number: u64,
    pub attnets: Seq<u8>,
    pub syncnets: Seq<u8>,
}

impl View for MetaData {
    type V = MetaDataView;

    open spec fn view(&self) -> MetaDataView {
        MetaDataView {
            seq_number: self.seq_number,
            attnets: bytes_of_64_bits(self.attnets),
            syncnets: bytes_of_4_bits(self.syncnets),
        }
    }
}

/// The bitfields have their lengths, and no bit of the shorter one is out of range.
pub open spec fn metadata_valid(metadata: MetaDataView) -> bool {
    &&& metadata.attnets.len() == 8
    &&& metadata.syncnets.len() == 1
    &&& metadata.syncnets[0] < 16
}

/// The encoding of metadata: its fields one after another.
pub open spec fn metadata_bytes(metadata: MetaDataView) -> Seq<u8> {
    le_bytes(metadata.seq_number as nat, 8) + metadata.attnets + metadata.syncnets
}

/// Whether some bytes encode metadata: there are 17, and the upper half of the
/// last one is clear.
pub open spec fn metadata_decodable(bytes: Seq<u8>) -> bool {
    bytes.len() == METADATA_LEN && bytes[16] < 16
}

/// Encoded metadata can be read, and says what was encoded.
pub proof fn law_metadata_bytes_injective(a: MetaDataView, b: MetaDataView)
    requires
        metadata_valid(a),
        metadata_valid(b),
    ensures
        metadata_decodable(metadata_bytes(a)),
        metadata_bytes(a) == metadata_bytes(b) ==> a == b,
{
    lemma_le_bytes_len(a.seq_number as nat, 8);
    lemma_le_bytes_len(b.seq_number as nat, 8);
    if metadata_bytes(a) == metadata_bytes(b) {
        lemma_u64_fits(a.seq_number);
        lemma_u64_fits(b.seq_number);
        law_le_value_of_le_bytes(a.seq_number as nat, 8);
        law_le_value_of_le_bytes(b.seq_number as nat, 8);
        assert(metadata_bytes(a).subrange(0, 8) =~= le_bytes(a.seq_number as nat, 8));
        assert(metadata_bytes(b).subrange(0, 8) =~= le_bytes(b.seq_number as nat, 8));
        assert(metadata_bytes(a).subrange(8, 16) =~= a.attnets);
        assert(metadata_bytes(b).subrange(8, 16) =~= b.attnets);
        assert(metadata_bytes(a).subrange(16, 17) =~= a.syncnets);
        assert(metadata_bytes(b).subrange(16, 17) =~= b.syncnets);
    }
}

/// Where each byte of metadata stands in its encoding. Bytes 0 to 7 are the sequence number,
/// least significant first, bytes 8 to 15 those of the attestation bitfield in their order, and
/// byte 16 that of the sync committee bitfield.
pub proof fn law_metadata_layout(metadata: MetaDataView)
    requires
        metadata_valid(metadata),
    ensures
        metadata_bytes(metadata).len() == 17,
        number_at(metadata_bytes(metadata), 0, metadata.seq_number),
        forall|i: int|
            0 <= i < 8 ==> metadata_bytes(metadata)[8 + i] == #[trigger] metadata.attnets[i],
        metadata_bytes(metadata)[16] == metadata.syncnets[0],
{
    let bytes = metadata_bytes(metadata);
    lemma_le_bytes_len(metadata.seq_number as nat, 8);
    assert(bytes.subrange(0, 8) =~= le_bytes(metadata.seq_number as nat, 8));
    lemma_number_at(bytes, 0, metadata.seq_number);
}

/// What metadata says in its bitfields stands in its encoding as the bytes of the bitfields
/// themselves, in their order.
pub proof fn law_bitfields_are_encoded_in_order(metadata: MetaData)
    requires
        metadata_valid(metadata@),
    ensures
        metadata@.seq_number == metadata.seq_number,
        bytes_of_64_bits(metadata.attnets).len() == 8,
        bytes_of_4_bits(metadata.syncnets).len() == 1,
        forall|i: int|
            0 <= i < 8 ==> metadata_bytes(metadata@)[8 + i] == #[trigger] bytes_of_64_bits(
                metadata.attnets,
            )[i],
        metadata_bytes(metadata@)[16] == bytes_of_4_bits(metadata.syncnets)[0],
{
    law_metadata_layout(metadata@);
}

/// Bytes can be read as metadata if and only if they are the encoding of some.
pub proof fn law_what_is_decodable_is_an_encoding(bytes: Seq<u8>)
    ensures
        metadata_decodable(bytes) <==> exists|metadata: MetaDataView|
            metadata_valid(metadata) && #[trigger] metadata_bytes(metadata) == bytes,
{
    if metadata_decodable(bytes) {
        let number = bytes.subrange(0, 8);
        lemma_le_value_fits(number);
        assert(pow(256, 8) == u64::MAX + 1) by {
            reveal_with_fuel(pow, 9);
        }
        law_le_bytes_of_le_value(number);
        let metadata = MetaDataView {
            seq_number: le_value(number) as u64,
            attnets: bytes.subrange(8, 16),
            syncnets: bytes.subrange(16, 17),
        };
        assert(metadata_valid(metadata));
        assert(metadata_bytes(metadata) =~= bytes);
    }
    if exists|metadata: MetaDataView|
        metadata_valid(metadata) && #[trigger] metadata_bytes(metadata) == bytes {
        let metadata = choose|metadata: MetaDataView|
            metadata_valid(metadata) && #[trigger] metadata_bytes(metadata) == bytes;
        law_metadata_layout(metadata);
    }
}

impl MetaData {
    /// The metadata of a node that has joined no subnet.
    pub fn of_no_subnet() -> (metadata: Self)
        ensures
            metadata@ == (MetaDataView {
                seq_number: 0,
                attnets: Seq::new(8, |i: int| 0u8),
                syncnets: seq![0u8],
            }),
    {
        MetaData { seq_number: 0, attnets: no_bits_of_64(), syncnets: no_bits_of_4() }
    }

    /// The length of all encoded metadata.
    pub fn ssz_fixed_len() -> (len: usize)
        ensures
            len == METADATA_LEN,
    {
        METADATA_LEN
    }

    /// Encodes the metadata.
    pub fn as_ssz_bytes(&self) -> (bytes: Vec<u8>)
        ensures
            bytes@ == metadata_bytes(self@),
            metadata_valid(self@),
            metadata_decodable(bytes@),
    {
        let mut bytes: Vec<u8> = ssz_encode_u64(self.seq_number);
        append_bytes(&mut bytes, encode_64_bits(&self.attnets).as_slice());
        append_bytes(&mut bytes, encode_4_bits(&self.syncnets).as_slice());
        proof {
            law_metadata_bytes_injective(self@, self@);
        }
        bytes
    }

    /// Reads metadata.
    pub fn from_ssz_bytes(bytes: &[u8]) -> (result: Result<Self, SszError>)
        ensures
            match result {
                Ok(metadata) => {
                    &&& metadata_decodable(bytes@)
                    &&& metadata_valid(metadata@)
                    &&& bytes@ == metadata_bytes(metadata@)
                },
                Err(SszError::InvalidByteLength { len, expected }) => {
                    &&& bytes@.len() != METADATA_LEN
                    &&& len == bytes@.len()
                    &&& expected == METADATA_LEN
                },
                Err(SszError::ExcessBits) => {
                    &&& bytes@.len() == METADATA_LEN
                    &&& bytes@[16] >= 16
                },
            },
    {
        if bytes.len() != METADATA_LEN {
            return Err(SszError::InvalidByteLength { len: bytes.len(), expected: METADATA_LEN });
        }
        let seq_number: u64 = decode_u64_at(bytes, 0);
        let attnets_bytes = copy_range(bytes, 8, 16);
        let syncnets_bytes = copy_range(bytes, 16, 17);
        let attnets = match decode_64_bits(attnets_bytes.as_slice()) {
            Ok(attnets) => attnets,
            Err(_) => no_bits_of_64(),
        };
        match decode_4_bits(syncnets_bytes.as_slice()) {
            Ok(syncnets) => {
                let metadata = MetaData { seq_number, attnets, syncnets };
                assert(metadata_bytes(metadata@) =~= bytes@);
                Ok(metadata)
            },
            Err(_) => Err(SszError::ExcessBits),
        }
    }
}

// Responses

/// A response of one chunk, or the failure that stands in its place.
#[derive(Debug, Clone, PartialEq)]
pub enum RPCCodedResponse {
    Success(RPCResponse),
    Error,
}

/// The responses that a node can give.
#[derive(Debug, Clone, PartialEq)]
pub enum RPCResponse {
    Status(StatusMessage),
    Pong(Ping),
    MetaData(MetaData),
}

/// What a response says.
pub enum ResponseView {
    Status(StatusMessage),
    Pong(Ping),
    MetaData(MetaDataView),
}

impl View for RPCResponse {
    type V = ResponseView;

    open spec fn view(&self) -> ResponseView {
        match *self {
            RPCResponse::Status(message) => ResponseView::Status(message),
            RPCResponse::Pong(ping) => ResponseView::Pong(ping),
            RPCResponse::MetaData(metadata) => ResponseView::MetaData(metadata@),
        }
    }
}

/// The code that stands before a response on the wire.
pub open spec fn response_code(response: RPCCodedResponse) -> u8 {
    match response {
        RPCCodedResponse::Success(_) => 0,
        RPCCodedResponse::Error => 4,
    }
}

/// Whether a code announces a response that succeeded.
pub open spec fn code_means_success(response_code: u8) -> bool {
    response_code == 0
}

/// The code of a response tells whether it succeeded.
pub proof fn law_code_tells_success(response: RPCCodedResponse)
    ensures
        code_means_success(response_code(response)) == (response is Success),
{
}

/// A response that succeeded is announced by a zero, and a failure by a four.
pub proof fn law_codes(response: RPCCodedResponse, code: u8)
    ensures
        response is Success ==> response_code(response) == 0,
        response is Error ==> response_code(response) == 4,
        code != 0 ==> !code_means_success(code),
        code == 0 ==> code_means_success(code),
{
}

impl RPCCodedResponse {
    /// The code that stands before the response on the wire.
    pub fn as_u8(&self) -> (code: Option<u8>)
        ensures
            code == Some(response_code(*self)),
    {
        match self {
            RPCCodedResponse::Success(_) => Some(0),
            RPCCodedResponse::Error => Some(4),
        }
    }

    /// Whether a code announces a response that succeeded.
    pub fn is_response(response_code: u8) -> (success: bool)
        ensures
            success == code_means_success(response_code),
    {
        matches!(response_code, 0)
    }

    /// Whether the substream is closed behind the response.
    pub fn close_after(&self) -> (close: bool)
        ensures
            close == (*self is Error),
    {
        !matches!(self, RPCCodedResponse::Success(_))
    }
}

} // verus!
