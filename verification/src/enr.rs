//! Node records and the keys that they are signed with.

use crate::chain::{fork_id_bytes, local_fork_bytes, ForkId, FORK_ID_LEN};
use crate::wire::{append_bytes, copy_array_32, le_value, lemma_array_equal};
use discv5::enr::{
    ed25519_dalek, k256::ecdsa::SigningKey, CombinedPublicKey, EnrBuilder, EnrPublicKey,
};
use libp2p::identity::{ed25519, secp256k1, PublicKey};
use vstd::prelude::*;

verus! {

/// The field of a record that holds the fork that its node is on.
pub const ETH2_ENR_KEY: &'static str = "eth2";

/// The scheme that records are signed by.
pub const ENR_ID: &'static str = "v4";

/// The port that the node listens on.
pub const LISTEN_PORT: u16 = 9000;

/// The error of making a node record, from the `enr` crate.
#[verifier::external_type_specification]
#[verifier::external_body]
pub struct ExEnrError(discv5::enr::EnrError);

// Keys

/// A secret key that node records can be signed with.
#[derive(Debug, Clone, Copy, PartialEq)]
pub enum CombinedKey {
    Secp256k1([u8; 32]),
    Ed25519([u8; 32]),
}

/// The number of points of the secp256k1 curve.
pub open spec fn secp256k1_order() -> nat {
    0xFFFF_FFFF_FFFF_FFFF_FFFF_FFFF_FFFF_FFFE_BAAE_DCE6_AF48_A03B_BFD2_5E8C_D036_4141nat
}

/// Whether some bytes, most significant first, are a secret key of the secp256k1 curve: a
/// number from one up to its order, without the latter.
pub open spec fn is_secp256k1_secret(bytes: Seq<u8>) -> bool {
    bytes.len() == 32 && 0 < le_value(bytes.reverse()) < secp256k1_order()
}

/// Whether a key can be signed with.
pub open spec fn key_valid(key: CombinedKey) -> bool {
    match key {
        CombinedKey::Secp256k1(secret) => is_secp256k1_secret(secret@),
        CombinedKey::Ed25519(_) => true,
    }
}

/// Calls `k256::ecdsa::SigningKey::from_bytes`, which accepts the secret keys of the
/// secp256k1 curve, and `to_bytes` on the key, which gives the same bytes back.
#[verifier::external_body]
pub(crate) fn signing_key(secret: &[u8; 32]) -> (key: Option<[u8; 32]>)
    ensures
        match key {
            Some(bytes) => is_secp256k1_secret(secret@) && bytes@ == secret@,
            None => !is_secp256k1_secret(secret@),
        },
{
    match SigningKey::from_bytes(secret) {
        Ok(key) => Some(key.to_bytes().into()),
        Err(_) => None,
    }
}

// Building

/// What a node record holds.
#[verifier::ext_equal]
pub struct RecordView {
    /// Whether the public key is one of the Ed25519 curve.
    pub ed25519: bool,
    /// The public key, as it is encoded.
    pub public_key: Seq<u8>,
    pub seq: u64,
    pub ip4: Option<[u8; 4]>,
    pub udp4: Option<u16>,
    pub tcp4: Option<u16>,
    /// What the record holds in the field for the fork that its node is on.
    pub eth2: Option<Seq<u8>>,
}

/// What `Enr::from_str` of the `enr` crate reads from a text, if that is a record. The field
/// for the fork is the one that is named here.
pub uninterp spec fn record_in(text: Seq<char>, fork_field: Seq<char>) -> Option<RecordView>;

/// The record in a text, if there is one.
pub open spec fn record_of(text: Seq<char>) -> Option<RecordView> {
    record_in(text, ETH2_ENR_KEY@)
}

/// Whether a character stands for six bits of which the upper two are set, in the alphabet
/// that records are written in.
pub open spec fn has_upper_bits(c: char) -> bool {
    'w' <= c <= 'z' || '0' <= c <= '9' || c == '-' || c == '_'
}

/// Where the bytes of a record start in a text: behind the prefix, if it has one.
pub open spec fn record_start(text: Seq<char>) -> int {
    if text.len() >= 4 && text.take(4) == seq!['e', 'n', 'r', ':'] {
        4
    } else {
        0
    }
}

/// Whether the bytes in a text start like those of a list, which every record is.
pub open spec fn starts_list(text: Seq<char>) -> bool {
    &&& record_start(text) < text.len()
    &&& has_upper_bits(text[record_start(text)])
}

/// The public key that goes with a secret one, as `EnrKey::public` of the `enr` crate gives
/// it for keys of the Ed25519 curve, and for those of the other one.
pub uninterp spec fn public_key_of(ed25519: bool, secret: Seq<u8>) -> Seq<u8>;

/// The bytes of a secret key.
pub open spec fn secret_of(key: CombinedKey) -> Seq<u8> {
    match key {
        CombinedKey::Secp256k1(secret) => secret@,
        CombinedKey::Ed25519(secret) => secret@,
    }
}

/// Makes a record with `enr::EnrBuilder`, signs it and writes it out as text. Where that
/// succeeds, reading the text gives the first record of its node, with the public key of the
/// node and the address, ports and field that were given. A signature with a key of the
/// secp256k1 curve is drawn at random: it is not said here when that succeeds, nor which of
/// the texts of the same record it gives. Signing with a key of the other curve always
/// succeeds.
#[verifier::external_body]
fn enr_build(
    key: &CombinedKey,
    id: &str,
    ip4: [u8; 4],
    udp4: u16,
    tcp4: u16,
    fork_field: &str,
    fork: &[u8],
) -> (result: Result<String, discv5::enr::EnrError>)
    requires
        key_valid(*key),
        id@ == ENR_ID@,
        fork_field@ == ETH2_ENR_KEY@,
        fork@.len() == FORK_ID_LEN,
    ensures
        match result {
            Ok(text) => {
                &&& starts_list(text@)
                &&& record_in(text@, fork_field@) == Some(
                    (RecordView {
                        ed25519: *key is Ed25519,
                        public_key: public_key_of(*key is Ed25519, secret_of(*key)),
                        seq: 1,
                        ip4: Some(ip4),
                        udp4: Some(udp4),
                        tcp4: Some(tcp4),
                        eth2: Some(fork@),
                    }),
                )
            },
            Err(_) => *key is Secp256k1,
        },
{
    let key: discv5::enr::CombinedKey = match key {
        CombinedKey::Secp256k1(s) => SigningKey::from_bytes(s).expect("valid secret").into(),
        CombinedKey::Ed25519(s) => ed25519_dalek::SecretKey::from_bytes(s).expect("32").into(),
    };
    let mut builder = EnrBuilder::new(id);
    builder.ip4(ip4.into()).udp4(udp4).tcp4(tcp4).add_value(fork_field, fork);
    Ok(builder.build(&key)?.to_base64())
}

/// Whether an address is that of any host.
pub open spec fn is_any_address(ip4: Option<[u8; 4]>) -> bool {
    ip4 matches Some(ip4) && ip4@ == seq![0u8, 0u8, 0u8, 0u8]
}

/// Whether a text is a record of this node for a key: the first one, with the public key, any
/// address, the port that it listens on, and the fork that it is on.
pub open spec fn announces(text: Seq<char>, key: CombinedKey) -> bool {
    &&& starts_list(text)
    &&& record_of(text) matches Some(record)
    &&& record.ed25519 == (key is Ed25519)
    &&& record.public_key == public_key_of(key is Ed25519, secret_of(key))
    &&& record.seq == 1
    &&& is_any_address(record.ip4)
    &&& record.udp4 == Some(LISTEN_PORT)
    &&& record.tcp4 == Some(LISTEN_PORT)
    &&& record.eth2 == Some(local_fork_bytes())
}

/// Makes the record of this node, as text: its public key, any address, the port that it
/// listens on, and the fork that it is on.
pub fn build_enr(combined_key: &CombinedKey) -> (result: Result<String, discv5::enr::EnrError>)
    requires
        key_valid(*combined_key),
    ensures
        match result {
            Ok(text) => announces(text@, *combined_key),
            Err(_) => *combined_key is Secp256k1,
        },
{
    let eth2: Vec<u8> = ForkId::new().as_ssz_bytes();
    enr_build(
        combined_key,
        ENR_ID,
        [0, 0, 0, 0],
        LISTEN_PORT,
        LISTEN_PORT,
        ETH2_ENR_KEY,
        eth2.as_slice(),
    )
}

// Identities

/// The public key of a node.
#[derive(Debug, Clone, Copy, PartialEq)]
pub enum NodePublicKey {
    /// A point of the secp256k1 curve: its first coordinate, and whether the second is odd.
    Secp256k1 { odd: bool, x: [u8; 32] },
    /// A point of the Ed25519 curve, as it is encoded.
    Ed25519([u8; 32]),
}

/// The encoding of a point of the secp256k1 curve: a byte that tells whether its second
/// coordinate is odd, and the first coordinate.
pub open spec fn compressed_point(odd: bool, x: Seq<u8>) -> Seq<u8> {
    seq![if odd { 3u8 } else { 2u8 }] + x
}

/// The network identity of a key of the secp256k1 curve: the key itself behind the multihash
/// and protobuf headers that fit its 33 bytes.
pub open spec fn secp256k1_identity(point: Seq<u8>) -> Seq<u8> {
    seq![0u8, 37u8, 8u8, 2u8, 18u8, 33u8] + point
}

/// The network identity of a key of the Ed25519 curve: the key itself behind the multihash and
/// protobuf headers that fit its 32 bytes.
pub open spec fn ed25519_identity(point: Seq<u8>) -> Seq<u8> {
    seq![0u8, 36u8, 8u8, 1u8, 18u8, 32u8] + point
}

/// The prime of the field that the secp256k1 curve is over.
pub open spec fn secp256k1_prime() -> nat {
    0xFFFF_FFFF_FFFF_FFFF_FFFF_FFFF_FFFF_FFFF_FFFF_FFFF_FFFF_FFFF_FFFF_FFFE_FFFF_FC2Fnat
}

/// Whether two coordinates are those of a point of the secp256k1 curve.
pub open spec fn on_secp256k1(x: nat, y: nat) -> bool {
    (y * y) % secp256k1_prime() == (x * x * x + 7) % secp256k1_prime()
}

/// Whether some bytes are the encoding of a point of the secp256k1 curve: a byte that is 2 or 3,
/// and the first coordinate of such a point, most significant byte first.
pub open spec fn is_secp256k1_point(bytes: Seq<u8>) -> bool {
    &&& bytes.len() == 33
    &&& bytes[0] == 2 || bytes[0] == 3
    &&& le_value(bytes.skip(1).reverse()) < secp256k1_prime()
    &&& exists|y: nat| #[trigger] on_secp256k1(le_value(bytes.skip(1).reverse()), y)
}

/// Whether some bytes are the encoding of a point of the Ed25519 curve, as
/// `ed25519::PublicKey::try_from_bytes` has it.
pub uninterp spec fn is_ed25519_point(bytes: Seq<u8>) -> bool;

/// Calls `secp256k1::PublicKey::try_from_bytes` of the `libp2p-identity` crate, which accepts
/// the points of the curve, and
/// `PeerId::from_public_key` on the key, which puts the headers before it.
#[verifier::external_body]
fn secp256k1_peer_id(point: &[u8]) -> (id: Option<Vec<u8>>)
    requires
        point@.len() == 33,
        point@[0] == 2 || point@[0] == 3,
    ensures
        match id {
            Some(bytes) => {
                &&& is_secp256k1_point(point@)
                &&& bytes@ == secp256k1_identity(point@)
            },
            None => !is_secp256k1_point(point@),
        },
{
    match secp256k1::PublicKey::try_from_bytes(point) {
        Ok(key) => Some(libp2p::PeerId::from_public_key(&PublicKey::from(key)).to_bytes()),
        Err(_) => None,
    }
}

/// Calls `ed25519::PublicKey::try_from_bytes` of the `libp2p-identity` crate, and
/// `PeerId::from_public_key` on the key, which puts the headers before it.
#[verifier::external_body]
fn ed25519_peer_id(point: &[u8; 32]) -> (id: Option<Vec<u8>>)
    ensures
        match id {
            Some(bytes) => {
                &&& is_ed25519_point(point@)
                &&& bytes@ == ed25519_identity(point@)
            },
            None => !is_ed25519_point(point@),
        },
{
    match ed25519::PublicKey::try_from_bytes(point) {
        Ok(key) => Some(libp2p::PeerId::from_public_key(&PublicKey::from(key)).to_bytes()),
        Err(_) => None,
    }
}

/// What is read from the record of a node.
#[derive(Debug, Clone)]
pub struct NodeRecord {
    pub public_key: NodePublicKey,
    pub seq: u64,
    pub ip4: Option<[u8; 4]>,
    pub udp4: Option<u16>,
    pub tcp4: Option<u16>,
    /// What the record holds under [`ETH2_ENR_KEY`].
    pub eth2: Option<Vec<u8>>,
}

/// The encoding of a public key.
pub open spec fn key_bytes(key: NodePublicKey) -> Seq<u8> {
    match key {
        NodePublicKey::Secp256k1 { odd, x } => compressed_point(odd, x@),
        NodePublicKey::Ed25519(bytes) => bytes@,
    }
}

impl View for NodeRecord {
    type V = RecordView;

    open spec fn view(&self) -> RecordView {
        RecordView {
            ed25519: self.public_key is Ed25519,
            public_key: key_bytes(self.public_key),
            seq: self.seq,
            ip4: self.ip4,
            udp4: self.udp4,
            tcp4: self.tcp4,
            eth2: match self.eth2 {
                Some(bytes) => Some(bytes@),
                None => None,
            },
        }
    }
}

/// What is read from a text, with the public key as it is encoded.
struct EncodedRecord {
    ed25519: bool,
    public_key: Vec<u8>,
    seq: u64,
    ip4: Option<[u8; 4]>,
    udp4: Option<u16>,
    tcp4: Option<u16>,
    eth2: Option<Vec<u8>>,
}

impl EncodedRecord {
    /// What the record holds.
    spec fn holds(&self) -> RecordView {
        RecordView {
            ed25519: self.ed25519,
            public_key: self.public_key@,
            seq: self.seq,
            ip4: self.ip4,
            udp4: self.udp4,
            tcp4: self.tcp4,
            eth2: match self.eth2 {
                Some(bytes) => Some(bytes@),
                None => None,
            },
        }
    }
}

/// Calls `Enr::from_str` of the `enr` crate, and takes from the record what it holds. The
/// public key is encoded in 32 bytes if it is one of the Ed25519 curve. Otherwise it is a point
/// of the other curve. Bytes that do not start like a list are logged, and writing them to a log
/// can panic.
#[verifier::external_body]
fn enr_parse(text: &str, fork_field: &str) -> (record: Option<EncodedRecord>)
    requires
        starts_list(text@),
    ensures
        match record {
            Some(record) => {
                &&& record_in(text@, fork_field@) == Some(record.holds())
                &&& record.ed25519 ==> record.public_key@.len() == 32
                &&& !record.ed25519 ==> is_secp256k1_point(record.public_key@)
            },
            None => record_in(text@, fork_field@) is None,
        },
{
    let enr: discv5::Enr = text.parse().ok()?;
    let public_key = enr.public_key();
    Some(EncodedRecord {
        ed25519: matches!(public_key, CombinedPublicKey::Ed25519(_)),
        public_key: public_key.encode(),
        seq: enr.seq(),
        ip4: enr.ip4().map(|ip| ip.octets()),
        udp4: enr.udp4(),
        tcp4: enr.tcp4(),
        eth2: enr.get(fork_field).map(|field| field.to_vec()),
    })
}

/// Whether a record is the one in a text. That of a key of the secp256k1 curve has an identity.
pub open spec fn is_record_in(text: Seq<char>, record: NodeRecord) -> bool {
    &&& record_of(text) == Some(record@)
    &&& record.public_key is Secp256k1 ==> peer_id_bytes(record.public_key) is Some
}

/// Whether the bytes in a text start like those of a list.
fn is_list_start(text: &str) -> (is: bool)
    ensures
        is == starts_list(text@),
{
    let len: usize = text.unicode_len();
    let prefixed = len >= 4 && text.get_char(0) == 'e' && text.get_char(1) == 'n' && text.get_char(
        2,
    ) == 'r' && text.get_char(3) == ':';
    assert(prefixed == (len >= 4 && text@.take(4) == seq!['e', 'n', 'r', ':'])) by {
        if prefixed {
            assert(text@.take(4) =~= seq!['e', 'n', 'r', ':']);
        } else if len >= 4 && text@.take(4) == seq!['e', 'n', 'r', ':'] {
            assert(text@[0] == text@.take(4)[0] && text@[1] == text@.take(4)[1]);
            assert(text@[2] == text@.take(4)[2] && text@[3] == text@.take(4)[3]);
        }
    }
    let start: usize = if prefixed {
        4
    } else {
        0
    };
    if start >= len {
        return false;
    }
    let first: char = text.get_char(start);
    'w' <= first && first <= 'z' || '0' <= first && first <= '9' || first == '-' || first == '_'
}

/// Reads the record in a text, if there is one.
pub fn read_record(text: &str) -> (record: Option<NodeRecord>)
    ensures
        match record {
            Some(record) => starts_list(text@) && is_record_in(text@, record),
            None => !starts_list(text@) || record_of(text@) is None,
        },
{
    if !is_list_start(text) {
        return None;
    }
    let record = match enr_parse(text, ETH2_ENR_KEY) {
        Some(record) => record,
        None => return None,
    };
    let key: &[u8] = record.public_key.as_slice();
    let public_key = if record.ed25519 {
        NodePublicKey::Ed25519(copy_array_32(key, 0))
    } else {
        NodePublicKey::Secp256k1 { odd: key[0] == 3, x: copy_array_32(key, 1) }
    };
    assert(key_bytes(public_key) =~= record.public_key@);
    Some(
        NodeRecord {
            public_key,
            seq: record.seq,
            ip4: record.ip4,
            udp4: record.udp4,
            tcp4: record.tcp4,
            eth2: record.eth2,
        },
    )
}

/// The bytes of the network identity that goes with a public key, if the key is one.
pub open spec fn peer_id_bytes(key: NodePublicKey) -> Option<Seq<u8>> {
    match key {
        NodePublicKey::Secp256k1 { odd, x } => if is_secp256k1_point(compressed_point(odd, x@)) {
            Some(secp256k1_identity(compressed_point(odd, x@)))
        } else {
            None
        },
        NodePublicKey::Ed25519(bytes) => if is_ed25519_point(bytes@) {
            Some(ed25519_identity(bytes@))
        } else {
            None
        },
    }
}

/// The public key that goes with a secret one of the secp256k1 curve, as `Keypair::public` of
/// the `libp2p-identity` crate gives it.
pub uninterp spec fn keypair_public_key(secret: Seq<u8>) -> Seq<u8>;

/// Calls `secp256k1::SecretKey::try_from_bytes` of the `libp2p-identity` crate, and
/// `PeerId::from_public_key` on the public key of the key pair. That is the same public key as
/// the `enr` crate gives for the secret: the point that it stands for, compressed.
#[verifier::external_body]
pub(crate) fn secp256k1_keypair_id(secret: &[u8; 32]) -> (id: Vec<u8>)
    requires
        is_secp256k1_secret(secret@),
    ensures
        id@ == secp256k1_identity(keypair_public_key(secret@)),
        id@ == secp256k1_identity(public_key_of(false, secret@)),
{
    let key = secp256k1::SecretKey::try_from_bytes(*secret).expect("valid secret");
    let public_key = PublicKey::from(secp256k1::Keypair::from(key).public().clone());
    libp2p::PeerId::from_public_key(&public_key).to_bytes()
}

/// The record of a node that was made with the secret of its key pair, once it is read, has the
/// network identity of that key pair.
pub proof fn law_record_maps_back_to_its_key_pair(
    text: Seq<char>,
    secret: [u8; 32],
    record: NodeRecord,
)
    requires
        announces(text, CombinedKey::Secp256k1(secret)),
        is_record_in(text, record),
    ensures
        peer_id_bytes(record.public_key) == Some(
            secp256k1_identity(public_key_of(false, secret@)),
        ),
{
}

/// Records with the same public key have the same identity, whatever else they hold.
pub proof fn law_identity_is_that_of_the_key(a: NodeRecord, b: NodeRecord)
    requires
        a.public_key == b.public_key,
    ensures
        a.peer_id_spec() == b.peer_id_spec(),
{
}

/// Keys have different identities.
pub proof fn law_identities_differ(a: NodePublicKey, b: NodePublicKey)
    requires
        peer_id_bytes(a) is Some,
        peer_id_bytes(a) == peer_id_bytes(b),
    ensures
        a == b,
{
    let id = peer_id_bytes(a)->0;
    lemma_identity_layout(a);
    lemma_identity_layout(b);
    match (a, b) {
        (
            NodePublicKey::Secp256k1 { odd: odd_a, x: x_a },
            NodePublicKey::Secp256k1 { odd: odd_b, x: x_b },
        ) => {
            assert(x_a@ == id.subrange(7, 39) && x_b@ == id.subrange(7, 39));
            lemma_array_equal(x_a, x_b);
        },
        (NodePublicKey::Ed25519(x_a), NodePublicKey::Ed25519(x_b)) => {
            assert(x_a@ == id.subrange(6, 38) && x_b@ == id.subrange(6, 38));
            lemma_array_equal(x_a, x_b);
        },
        _ => {
            assert(false);
        },
    }
}

/// Where a key stands in its identity.
proof fn lemma_identity_layout(key: NodePublicKey)
    requires
        peer_id_bytes(key) is Some,
    ensures
        ({
            let id = peer_id_bytes(key)->0;
            match key {
                NodePublicKey::Secp256k1 { odd, x } => {
                    &&& id[1] == 37
                    &&& id[6] == (if odd {
                        3u8
                    } else {
                        2u8
                    })
                    &&& id.subrange(7, 39) == x@
                },
                NodePublicKey::Ed25519(bytes) => {
                    &&& id[1] == 36
                    &&& id.subrange(6, 38) == bytes@
                },
            }
        }),
{
    let id = peer_id_bytes(key)->0;
    match key {
        NodePublicKey::Secp256k1 { odd, x } => {
            assert(id.subrange(7, 39) =~= x@);
        },
        NodePublicKey::Ed25519(bytes) => {
            assert(id.subrange(6, 38) =~= bytes@);
        },
    }
}

/// Something with a network identity.
pub trait EnrAsPeerId {
    /// The bytes of the network identity.
    spec fn peer_id_spec(&self) -> Option<Seq<u8>>;

    /// Computes the bytes of the network identity, if the public key is one.
    fn as_peer_id(&self) -> (id: Option<Vec<u8>>)
        ensures
            match id {
                Some(bytes) => self.peer_id_spec() == Some(bytes@),
                None => self.peer_id_spec() is None,
            },
    ;
}

impl EnrAsPeerId for NodeRecord {
    open spec fn peer_id_spec(&self) -> Option<Seq<u8>> {
        peer_id_bytes(self.public_key)
    }

    fn as_peer_id(&self) -> (id: Option<Vec<u8>>) {
        match self.public_key {
            NodePublicKey::Secp256k1 { odd, x } => {
                let mut point: Vec<u8> = Vec::new();
                point.push(if odd {
                    3
                } else {
                    2
                });
                append_bytes(&mut point, x.as_slice());
                assert(point@ =~= compressed_point(odd, x@));
                secp256k1_peer_id(point.as_slice())
            },
            NodePublicKey::Ed25519(bytes) => ed25519_peer_id(&bytes),
        }
    }
}

/// Something that tells which fork it is on.
pub trait EnrForkId {
    /// What the fork is read from.
    spec fn eth2_field(&self) -> Option<Seq<u8>>;

    /// Reads the fork. There is none where the field is missing or has another length.
    fn fork_id(&self) -> (fork_id: Option<ForkId>)
        ensures
            match fork_id {
                Some(fork) => self.eth2_field() == Some(fork_id_bytes(fork)),
                None => self.eth2_field() matches Some(bytes) ==> bytes.len() != FORK_ID_LEN,
            },
    ;
}

impl EnrForkId for NodeRecord {
    open spec fn eth2_field(&self) -> Option<Seq<u8>> {
        self@.eth2
    }

    fn fork_id(&self) -> (fork_id: Option<ForkId>) {
        match &self.eth2 {
            Some(bytes) => match ForkId::from_ssz_bytes(bytes.as_slice()) {
                Ok(fork_id) => Some(fork_id),
                Err(_) => None,
            },
            None => None,
        }
    }
}

/// The network identity of a key is the key behind six bytes that tell its kind and length. That of
/// the secp256k1 curve is a byte that is three if the second coordinate is odd and two otherwise,
/// and the first coordinate in its order; that of the other curve is as it is encoded.
pub proof fn law_identity_layout(key: NodePublicKey)
    ensures
        peer_id_bytes(key) matches Some(id) ==> match key {
            NodePublicKey::Secp256k1 { odd, x } => {
                &&& id.len() == 39
                &&& id[0] == 0 && id[1] == 37 && id[2] == 8 && id[3] == 2 && id[4] == 18 && id[5]
                    == 33
                &&& odd ==> id[6] == 3
                &&& !odd ==> id[6] == 2
                &&& forall|i: int| 0 <= i < 32 ==> id[7 + i] == #[trigger] x@[i]
            },
            NodePublicKey::Ed25519(bytes) => {
                &&& id.len() == 38
                &&& id[0] == 0 && id[1] == 36 && id[2] == 8 && id[3] == 1 && id[4] == 18 && id[5]
                    == 32
                &&& forall|i: int| 0 <= i < 32 ==> id[6 + i] == #[trigger] bytes@[i]
            },
        },
        peer_id_bytes(key) is Some <==> match key {
            NodePublicKey::Secp256k1 { .. } => is_secp256k1_point(key_bytes(key)),
            NodePublicKey::Ed25519(bytes) => is_ed25519_point(bytes@),
        },
{
}

/// What is read from a record of this node: it is the first one, with any address, port 9000 for
/// both transports, and the fork that the node is on. The key is of the kind that the record was
/// made with.
pub proof fn law_what_this_node_announces(text: Seq<char>, key: CombinedKey, record: NodeRecord)
    requires
        announces(text, key),
        is_record_in(text, record),
    ensures
        starts_list(text),
        record.seq == 1,
        record.ip4 is Some,
        forall|i: int| 0 <= i < 4 ==> #[trigger] record.ip4->0@[i] == 0,
        record.udp4 == Some(9000u16),
        record.tcp4 == Some(9000u16),
        record.eth2_field() == Some(local_fork_bytes()),
        record.public_key is Ed25519 <==> key is Ed25519,
        key_bytes(record.public_key) == public_key_of(key is Ed25519, secret_of(key)),
{
    assert(record_of(text) == Some(record@));
    assert forall|i: int| 0 <= i < 4 implies #[trigger] record.ip4->0@[i] == 0 by {
        assert(record.ip4->0@[i] == seq![0u8, 0u8, 0u8, 0u8][i]);
    }
}

/// The number that a character stands for in the alphabet that records are written in, if it is in
/// that: capital letters, small letters, digits, hyphen and underscore.
pub open spec fn alphabet_value(c: char) -> Option<int> {
    if 'A' <= c <= 'Z' {
        Some(c as int - 'A' as int)
    } else if 'a' <= c <= 'z' {
        Some(c as int - 'a' as int + 26)
    } else if '0' <= c <= '9' {
        Some(c as int - '0' as int + 52)
    } else if c == '-' {
        Some(62)
    } else if c == '_' {
        Some(63)
    } else {
        None
    }
}

/// A text starts like a list if its first character, behind the prefix if there is one, stands for
/// a number whose two upper bits of six are set. The prefix makes no difference.
pub proof fn law_start_of_a_list(text: Seq<char>, c: char)
    ensures
        has_upper_bits(c) <==> (alphabet_value(c) matches Some(value) && value >= 48),
        starts_list(seq!['e', 'n', 'r', ':'] + text) <==> text.len() > 0 && has_upper_bits(text[0]),
        text.len() > 0 && text[0] != 'e' ==> (starts_list(text) <==> has_upper_bits(text[0])),
        text.len() == 0 ==> !starts_list(text),
{
    let whole = seq!['e', 'n', 'r', ':'] + text;
    assert(whole.take(4) =~= seq!['e', 'n', 'r', ':']);
    if text.len() >= 4 {
        assert(text.take(4)[0] == text[0]);
    }
}

/// A record holds what was read from it.
pub proof fn law_record_holds_what_was_read(record: NodeRecord)
    ensures
        record@.ed25519 <==> record.public_key is Ed25519,
        record@.seq == record.seq,
        record@.ip4 == record.ip4,
        record@.udp4 == record.udp4,
        record@.tcp4 == record.tcp4,
        record.eth2 is None <==> record.eth2_field() is None,
        record.eth2 matches Some(bytes) ==> record.eth2_field() == Some(bytes@),
        record.public_key matches NodePublicKey::Ed25519(bytes) ==> record@.public_key == bytes@,
        record.public_key matches NodePublicKey::Secp256k1 { odd, x } ==> {
            &&& record@.public_key.len() == 33
            &&& record@.public_key[0] == 2 + (if odd {
                1int
            } else {
                0
            })
            &&& forall|i: int| 0 <= i < 32 ==> record@.public_key[1 + i] == #[trigger] x@[i]
        },
{
}

} // verus!
