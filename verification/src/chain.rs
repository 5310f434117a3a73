//! What tells the chain of one network, at one fork, from others.

use crate::config::{BELLATRIX_FORK_VERSION, GENESIS_VALIDATORS_ROOT};
use crate::wire::{
    append_bytes, copy_array_32, copy_array_4, decode_u64_at, digit, law_le_bytes_are_digits,
    law_le_value_of_le_bytes, le_bytes, lemma_array_equal, lemma_le_bytes_len, lemma_number_at,
    lemma_u64_fits, number_at, ssz_encode_u64, SszError,
};
use tree_hash::{MerkleHasher, TreeHash};
use vstd::prelude::*;

verus! {

/// A Merkle root.
pub type Hash256 = [u8; 32];

/// The length of an encoded [`ForkId`].
pub const FORK_ID_LEN: usize = 16;

/// The length of an encoded [`SigningData`].
pub const SIGNING_DATA_LEN: usize = 64;

/// The length of an encoded [`ForkData`].
pub const FORK_DATA_LEN: usize = 36;

/// The root of a tree of leaves of 32 bytes each, as `tree_hash::MerkleHasher` computes it.
pub uninterp spec fn leaves_root(leaves: Seq<u8>) -> Seq<u8>;

/// The root of a tree of two leaves.
pub open spec fn pair_root(left: Seq<u8>, right: Seq<u8>) -> Seq<u8> {
    leaves_root(left + right)
}

/// Some bytes, filled up with zeros to a leaf of 32.
pub open spec fn padded(bytes: Seq<u8>) -> Seq<u8> {
    bytes + Seq::new((32 - bytes.len()) as nat, |i: int| 0u8)
}

/// Writes leaves into a `tree_hash::MerkleHasher` for as many and finishes it. That fails only
/// where there are more leaves than it was made for.
#[verifier::external_body]
fn merkle_leaves(leaves: &[u8], count: usize) -> (root: Hash256)
    requires
        count > 0,
        leaves@.len() == 32 * count,
    ensures
        root@ == leaves_root(leaves@),
{
    let mut hasher = MerkleHasher::with_leaves(count);
    hasher.write(leaves).expect("no more leaves than announced");
    hasher.finish().expect("no more leaves than announced").to_fixed_bytes()
}

/// Computes the root of a tree of two leaves.
fn merkle_pair(left: &Hash256, right: &Hash256) -> (root: Hash256)
    ensures
        root@ == pair_root(left@, right@),
{
    let mut leaves: Vec<u8> = Vec::new();
    append_bytes(&mut leaves, left.as_slice());
    append_bytes(&mut leaves, right.as_slice());
    assert(leaves@ =~= left@ + right@);
    merkle_leaves(leaves.as_slice(), 2)
}

/// Calls `tree_hash::TreeHash::tree_hash_root` on four bytes, which fills them up with zeros.
#[verifier::external_body]
fn version_root(version: &[u8; 4]) -> (root: Hash256)
    ensures
        root@ == padded(version@),
{
    version.tree_hash_root().to_fixed_bytes()
}

/// Calls `tree_hash::TreeHash::tree_hash_root` on a `u64`, which takes its eight bytes, least
/// significant first, and fills them up with zeros.
#[verifier::external_body]
fn number_root(number: u64) -> (root: Hash256)
    ensures
        root@ == padded(le_bytes(number as nat, 8)),
{
    number.tree_hash_root().to_fixed_bytes()
}

/// The fork that a node is on, and the one that it expects next.
#[derive(Debug, Clone, Copy, PartialEq, Default)]
pub struct ForkId {
    pub fork_digest: [u8; 4],
    pub next_fork_version: [u8; 4],
    pub next_fork_epoch: u64,
}

/// The encoding of a fork identifier: its fields one after another.
pub open spec fn fork_id_bytes(fork_id: ForkId) -> Seq<u8> {
    fork_id.fork_digest@ + fork_id.next_fork_version@ + le_bytes(
        fork_id.next_fork_epoch as nat,
        8,
    )
}

/// An encoded fork identifier has 16 bytes, and no two identifiers share them.
pub proof fn law_fork_id_bytes_injective(a: ForkId, b: ForkId)
    ensures
        fork_id_bytes(a).len() == FORK_ID_LEN,
        fork_id_bytes(a) == fork_id_bytes(b) ==> a == b,
{
    lemma_le_bytes_len(a.next_fork_epoch as nat, 8);
    lemma_le_bytes_len(b.next_fork_epoch as nat, 8);
    if fork_id_bytes(a) == fork_id_bytes(b) {
        assert(fork_id_bytes(a).subrange(0, 4) =~= a.fork_digest@);
        assert(fork_id_bytes(b).subrange(0, 4) =~= b.fork_digest@);
        assert(fork_id_bytes(a).subrange(4, 8) =~= a.next_fork_version@);
        assert(fork_id_bytes(b).subrange(4, 8) =~= b.next_fork_version@);
        assert(fork_id_bytes(a).subrange(8, 16) =~= le_bytes(a.next_fork_epoch as nat, 8));
        assert(fork_id_bytes(b).subrange(8, 16) =~= le_bytes(b.next_fork_epoch as nat, 8));
        lemma_array_equal(a.fork_digest, b.fork_digest);
        lemma_array_equal(a.next_fork_version, b.next_fork_version);
        lemma_u64_fits(a.next_fork_epoch);
        lemma_u64_fits(b.next_fork_epoch);
        law_le_value_of_le_bytes(a.next_fork_epoch as nat, 8);
        law_le_value_of_le_bytes(b.next_fork_epoch as nat, 8);
    }
}

/// The encoding of the identifier of the Bellatrix fork of the main network, with no fork
/// ahead.
pub open spec fn local_fork_bytes() -> Seq<u8> {
    fork_data_root(BELLATRIX_FORK_VERSION, GENESIS_VALIDATORS_ROOT).take(4)
        + BELLATRIX_FORK_VERSION@ + le_bytes(u64::MAX as nat, 8)
}

impl ForkId {
    /// The identifier of the Bellatrix fork of the main network, with no fork ahead.
    pub fn new() -> (fork_id: Self)
        ensures
            fork_id_bytes(fork_id) == local_fork_bytes(),
            fork_id.fork_digest@ == fork_data_root(
                BELLATRIX_FORK_VERSION,
                GENESIS_VALIDATORS_ROOT,
            ).take(4),
            fork_id.next_fork_version == BELLATRIX_FORK_VERSION,
            fork_id.next_fork_epoch == u64::MAX,
    {
        Self {
            fork_digest: compute_fork_digest(BELLATRIX_FORK_VERSION, GENESIS_VALIDATORS_ROOT),
            next_fork_version: BELLATRIX_FORK_VERSION,
            next_fork_epoch: u64::MAX,
        }
    }

    /// Encodes the identifier.
    pub fn as_ssz_bytes(&self) -> (bytes: Vec<u8>)
        ensures
            bytes@ == fork_id_bytes(*self),
            bytes@.len() == FORK_ID_LEN,
    {
        let mut bytes: Vec<u8> = Vec::new();
        append_bytes(&mut bytes, self.fork_digest.as_slice());
        append_bytes(&mut bytes, self.next_fork_version.as_slice());
        append_bytes(&mut bytes, ssz_encode_u64(self.next_fork_epoch).as_slice());
        proof {
            law_fork_id_bytes_injective(*self, *self);
            assert(bytes@ =~= fork_id_bytes(*self));
        }
        bytes
    }

    /// Reads an identifier. Any bytes of the right length denote one.
    pub fn from_ssz_bytes(bytes: &[u8]) -> (result: Result<Self, SszError>)
        ensures
            match result {
                Ok(fork_id) => bytes@ == fork_id_bytes(fork_id),
                Err(e) => {
                    &&& bytes@.len() != FORK_ID_LEN
                    &&& e == (SszError::InvalidByteLength {
                        len: bytes.len(),
                        expected: FORK_ID_LEN,
                    })
                },
            },
    {
        if bytes.len() != FORK_ID_LEN {
            return Err(SszError::InvalidByteLength { len: bytes.len(), expected: FORK_ID_LEN });
        }
        let next_fork_epoch: u64 = decode_u64_at(bytes, 8);
        let fork_id = ForkId {
            fork_digest: copy_array_4(bytes, 0),
            next_fork_version: copy_array_4(bytes, 4),
            next_fork_epoch,
        };
        assert(fork_id_bytes(fork_id) =~= bytes@);
        Ok(fork_id)
    }
}

/// Something with a Merkle root.
pub trait MerkleRoot {
    /// The Merkle root.
    spec fn root(&self) -> Seq<u8>;

    /// Computes the Merkle root.
    fn tree_hash_root(&self) -> (root: Hash256)
        ensures
            root@ == self.root(),
    ;
}

impl MerkleRoot for ForkId {
    open spec fn root(&self) -> Seq<u8> {
        leaves_root(
            padded(self.fork_digest@) + padded(self.next_fork_version@) + padded(
                le_bytes(self.next_fork_epoch as nat, 8),
            ),
        )
    }

    fn tree_hash_root(&self) -> (root: Hash256) {
        let mut leaves: Vec<u8> = Vec::new();
        append_bytes(&mut leaves, version_root(&self.fork_digest).as_slice());
        append_bytes(&mut leaves, version_root(&self.next_fork_version).as_slice());
        append_bytes(&mut leaves, number_root(self.next_fork_epoch).as_slice());
        let root = merkle_leaves(leaves.as_slice(), 3);
        assert(leaves@ =~= padded(self.fork_digest@) + padded(self.next_fork_version@) + padded(
            le_bytes(self.next_fork_epoch as nat, 8),
        ));
        root
    }
}

/// What is signed: an object, for a domain.
#[derive(Debug, Clone, Copy, PartialEq)]
pub struct SigningData {
    pub object_root: Hash256,
    pub domain: Hash256,
}

/// The encoding of what is signed: its fields one after another.
pub open spec fn signing_data_bytes(data: SigningData) -> Seq<u8> {
    data.object_root@ + data.domain@
}

/// Encoded signing data has 64 bytes, and no two share them.
pub proof fn law_signing_data_bytes_injective(a: SigningData, b: SigningData)
    ensures
        signing_data_bytes(a).len() == SIGNING_DATA_LEN,
        signing_data_bytes(a) == signing_data_bytes(b) ==> a == b,
{
    if signing_data_bytes(a) == signing_data_bytes(b) {
        assert(signing_data_bytes(a).subrange(0, 32) =~= a.object_root@);
        assert(signing_data_bytes(b).subrange(0, 32) =~= b.object_root@);
        assert(signing_data_bytes(a).subrange(32, 64) =~= a.domain@);
        assert(signing_data_bytes(b).subrange(32, 64) =~= b.domain@);
        lemma_array_equal(a.object_root, b.object_root);
        lemma_array_equal(a.domain, b.domain);
    }
}

impl SigningData {
    /// Encodes the data.
    pub fn as_ssz_bytes(&self) -> (bytes: Vec<u8>)
        ensures
            bytes@ == signing_data_bytes(*self),
            bytes@.len() == SIGNING_DATA_LEN,
    {
        let mut bytes: Vec<u8> = Vec::new();
        append_bytes(&mut bytes, self.object_root.as_slice());
        append_bytes(&mut bytes, self.domain.as_slice());
        assert(bytes@ =~= signing_data_bytes(*self));
        bytes
    }

    /// Reads the data. Any bytes of the right length denote some.
    pub fn from_ssz_bytes(bytes: &[u8]) -> (result: Result<Self, SszError>)
        ensures
            match result {
                Ok(data) => bytes@ == signing_data_bytes(data),
                Err(e) => {
                    &&& bytes@.len() != SIGNING_DATA_LEN
                    &&& e == (SszError::InvalidByteLength {
                        len: bytes.len(),
                        expected: SIGNING_DATA_LEN,
                    })
                },
            },
    {
        if bytes.len() != SIGNING_DATA_LEN {
            return Err(
                SszError::InvalidByteLength { len: bytes.len(), expected: SIGNING_DATA_LEN },
            );
        }
        let data = SigningData {
            object_root: copy_array_32(bytes, 0),
            domain: copy_array_32(bytes, 32),
        };
        assert(signing_data_bytes(data) =~= bytes@);
        Ok(data)
    }
}

impl MerkleRoot for SigningData {
    open spec fn root(&self) -> Seq<u8> {
        pair_root(self.object_root@, self.domain@)
    }

    fn tree_hash_root(&self) -> (root: Hash256) {
        let root = merkle_pair(&self.object_root, &self.domain);
        assert(self.root() == pair_root(self.object_root@, self.domain@));
        root
    }
}

/// Something that can be signed.
pub trait SignedRoot: MerkleRoot {
    /// The root that is signed for a domain.
    fn signing_root(&self, domain: Hash256) -> (root: Hash256)
        ensures
            root@ == pair_root(self.root(), domain@),
    {
        SigningData { object_root: self.tree_hash_root(), domain }.tree_hash_root()
    }
}

/// A fork of a network.
#[derive(Debug, Clone, Copy, PartialEq, Default)]
pub struct ForkData {
    pub current_version: [u8; 4],
    pub genesis_validators_root: Hash256,
}

/// The encoding of a fork: its fields one after another.
pub open spec fn fork_data_bytes(data: ForkData) -> Seq<u8> {
    data.current_version@ + data.genesis_validators_root@
}

/// An encoded fork has 36 bytes, and no two forks share them.
pub proof fn law_fork_data_bytes_injective(a: ForkData, b: ForkData)
    ensures
        fork_data_bytes(a).len() == FORK_DATA_LEN,
        fork_data_bytes(a) == fork_data_bytes(b) ==> a == b,
{
    if fork_data_bytes(a) == fork_data_bytes(b) {
        assert(fork_data_bytes(a).subrange(0, 4) =~= a.current_version@);
        assert(fork_data_bytes(b).subrange(0, 4) =~= b.current_version@);
        assert(fork_data_bytes(a).subrange(4, 36) =~= a.genesis_validators_root@);
        assert(fork_data_bytes(b).subrange(4, 36) =~= b.genesis_validators_root@);
        lemma_array_equal(a.current_version, b.current_version);
        lemma_array_equal(a.genesis_validators_root, b.genesis_validators_root);
    }
}

impl ForkData {
    /// Encodes the fork.
    pub fn as_ssz_bytes(&self) -> (bytes: Vec<u8>)
        ensures
            bytes@ == fork_data_bytes(*self),
            bytes@.len() == FORK_DATA_LEN,
    {
        let mut bytes: Vec<u8> = Vec::new();
        append_bytes(&mut bytes, self.current_version.as_slice());
        append_bytes(&mut bytes, self.genesis_validators_root.as_slice());
        assert(bytes@ =~= fork_data_bytes(*self));
        bytes
    }

    /// Reads a fork. Any bytes of the right length denote one.
    pub fn from_ssz_bytes(bytes: &[u8]) -> (result: Result<Self, SszError>)
        ensures
            match result {
                Ok(data) => bytes@ == fork_data_bytes(data),
                Err(e) => {
                    &&& bytes@.len() != FORK_DATA_LEN
                    &&& e == (SszError::InvalidByteLength {
                        len: bytes.len(),
                        expected: FORK_DATA_LEN,
                    })
                },
            },
    {
        if bytes.len() != FORK_DATA_LEN {
            return Err(SszError::InvalidByteLength { len: bytes.len(), expected: FORK_DATA_LEN });
        }
        let data = ForkData {
            current_version: copy_array_4(bytes, 0),
            genesis_validators_root: copy_array_32(bytes, 4),
        };
        assert(fork_data_bytes(data) =~= bytes@);
        Ok(data)
    }
}

/// The root of a fork: that of its version, filled up with zeros, and of the validators that
/// the network started with.
pub open spec fn fork_data_root(
    current_version: [u8; 4],
    genesis_validators_root: Hash256,
) -> Seq<u8> {
    pair_root(padded(current_version@), genesis_validators_root@)
}

impl MerkleRoot for ForkData {
    open spec fn root(&self) -> Seq<u8> {
        fork_data_root(self.current_version, self.genesis_validators_root)
    }

    fn tree_hash_root(&self) -> (root: Hash256) {
        merkle_pair(&version_root(&self.current_version), &self.genesis_validators_root)
    }
}

impl SignedRoot for ForkData {

}

/// The first four bytes of a root.
pub fn digest_of(root: Hash256) -> (digest: [u8; 4])
    ensures
        digest@ == root@.take(4),
{
    let digest: [u8; 4] = [root[0], root[1], root[2], root[3]];
    assert(digest@ =~= root@.take(4));
    digest
}

/// The digest of a fork: the first four bytes of its root.
pub fn compute_fork_digest(
    current_version: [u8; 4],
    genesis_validators_root: Hash256,
) -> (digest: [u8; 4])
    ensures
        digest@ == fork_data_root(current_version, genesis_validators_root).take(4),
{
    digest_of(compute_fork_data_root(current_version, genesis_validators_root))
}

/// The root of a fork.
pub fn compute_fork_data_root(
    current_version: [u8; 4],
    genesis_validators_root: Hash256,
) -> (root: Hash256)
    ensures
        root@ == fork_data_root(current_version, genesis_validators_root),
{
    ForkData { current_version, genesis_validators_root }.tree_hash_root()
}

// Laws

/// Where each byte of a fork identifier stands in its encoding: bytes 0 to 3 are the digest,
/// 4 to 7 the next version, and 8 to 15 the next epoch, least significant first.
pub proof fn law_fork_id_layout(fork_id: ForkId)
    ensures
        fork_id_bytes(fork_id).len() == 16,
        forall|i: int|
            0 <= i < 4 ==> #[trigger] fork_id_bytes(fork_id)[i] == fork_id.fork_digest@[i],
        forall|i: int|
            0 <= i < 4 ==> fork_id_bytes(fork_id)[4 + i]
                == #[trigger] fork_id.next_fork_version@[i],
        number_at(fork_id_bytes(fork_id), 8, fork_id.next_fork_epoch),
{
    let bytes = fork_id_bytes(fork_id);
    lemma_le_bytes_len(fork_id.next_fork_epoch as nat, 8);
    assert(bytes.subrange(8, 16) =~= le_bytes(fork_id.next_fork_epoch as nat, 8));
    lemma_number_at(bytes, 8, fork_id.next_fork_epoch);
}

/// Where each byte of signing data stands in its encoding: first the root of the object, then
/// the domain.
pub proof fn law_signing_data_layout(data: SigningData)
    ensures
        signing_data_bytes(data).len() == 64,
        forall|i: int|
            0 <= i < 32 ==> #[trigger] signing_data_bytes(data)[i] == data.object_root@[i],
        forall|i: int|
            0 <= i < 32 ==> signing_data_bytes(data)[32 + i] == #[trigger] data.domain@[i],
{
}

/// Where each byte of a fork stands in its encoding: first its version, then the root of the
/// validators.
pub proof fn law_fork_data_layout(data: ForkData)
    ensures
        fork_data_bytes(data).len() == 36,
        forall|i: int|
            0 <= i < 4 ==> #[trigger] fork_data_bytes(data)[i] == data.current_version@[i],
        forall|i: int|
            0 <= i < 32 ==> fork_data_bytes(data)[4 + i]
                == #[trigger] data.genesis_validators_root@[i],
{
}

/// A leaf starts with the bytes that it is made of, and the rest of its 32 bytes are zero.
pub proof fn law_leaf_is_filled_up(bytes: Seq<u8>)
    requires
        bytes.len() <= 32,
    ensures
        padded(bytes).len() == 32,
        forall|i: int| 0 <= i < bytes.len() ==> #[trigger] padded(bytes)[i] == bytes[i],
        forall|i: int| bytes.len() <= i < 32 ==> #[trigger] padded(bytes)[i] == 0,
{
}

/// The root of a fork is that of two leaves: the first starts with the version and is zero
/// behind it, the second is the root of the validators.
pub proof fn law_fork_root_is_of_two_leaves(data: ForkData, leaves: Seq<u8>)
    requires
        leaves.len() == 64,
        forall|i: int| 0 <= i < 4 ==> #[trigger] leaves[i] == data.current_version@[i],
        forall|i: int| 4 <= i < 32 ==> #[trigger] leaves[i] == 0,
        forall|i: int|
            0 <= i < 32 ==> leaves[32 + i] == #[trigger] data.genesis_validators_root@[i],
    ensures
        data.root() == leaves_root(leaves),
        fork_data_root(data.current_version, data.genesis_validators_root) == leaves_root(leaves),
{
    assert(padded(data.current_version@) + data.genesis_validators_root@ =~= leaves);
}

/// The root that is signed is that of two leaves: the root of the object, and the domain.
pub proof fn law_signing_root_is_of_two_leaves(data: SigningData, leaves: Seq<u8>)
    requires
        leaves.len() == 64,
        forall|i: int| 0 <= i < 32 ==> #[trigger] leaves[i] == data.object_root@[i],
        forall|i: int| 0 <= i < 32 ==> leaves[32 + i] == #[trigger] data.domain@[i],
    ensures
        data.root() == leaves_root(leaves),
        pair_root(data.object_root@, data.domain@) == leaves_root(leaves),
{
    assert(data.object_root@ + data.domain@ =~= leaves);
}

/// The root of a fork identifier is that of three leaves: each starts with one of its fields, in
/// their order, and is zero behind it.
pub proof fn law_fork_id_root_is_of_three_leaves(fork_id: ForkId, leaves: Seq<u8>)
    requires
        leaves.len() == 96,
        forall|i: int| 0 <= i < 4 ==> #[trigger] leaves[i] == fork_id.fork_digest@[i],
        forall|i: int| 4 <= i < 32 ==> #[trigger] leaves[i] == 0,
        forall|i: int|
            0 <= i < 4 ==> leaves[32 + i] == #[trigger] fork_id.next_fork_version@[i],
        forall|i: int| 36 <= i < 64 ==> #[trigger] leaves[i] == 0,
        number_at(leaves, 64, fork_id.next_fork_epoch),
        forall|i: int| 72 <= i < 96 ==> #[trigger] leaves[i] == 0,
    ensures
        fork_id.root() == leaves_root(leaves),
{
    let number = le_bytes(fork_id.next_fork_epoch as nat, 8);
    lemma_le_bytes_len(fork_id.next_fork_epoch as nat, 8);
    assert forall|i: int| 0 <= i < 8 implies leaves[64 + i] == number[i] by {
        law_le_bytes_are_digits(fork_id.next_fork_epoch as nat, 8, i as nat);
        assert(leaves[64 + (i as nat) as int] == digit(
            fork_id.next_fork_epoch as nat,
            i as nat,
        ));
    }
    let made = padded(fork_id.fork_digest@) + padded(fork_id.next_fork_version@) + padded(number);
    assert forall|i: int| 0 <= i < 96 implies made[i] == leaves[i] by {
        if 32 <= i < 36 {
            assert(leaves[32 + (i - 32)] == fork_id.next_fork_version@[i - 32]);
        }
        if 64 <= i < 72 {
            assert(leaves[64 + (i - 64)] == number[i - 64]);
        }
    }
    assert(made =~= leaves);
}

/// What this node announces is 16 bytes: the first four of the root of its fork, the version of
/// that fork, and the last epoch that there is.
pub proof fn law_local_fork_layout()
    ensures
        ({
            let root = fork_data_root(BELLATRIX_FORK_VERSION, GENESIS_VALIDATORS_ROOT);
            root.len() == 32 ==> {
                &&& local_fork_bytes().len() == 16
                &&& forall|i: int| 0 <= i < 4 ==> #[trigger] local_fork_bytes()[i] == root[i]
                &&& forall|i: int|
                    0 <= i < 4 ==> local_fork_bytes()[4 + i]
                        == #[trigger] BELLATRIX_FORK_VERSION@[i]
                &&& number_at(local_fork_bytes(), 8, u64::MAX)
            }
        }),
{
    let bytes = local_fork_bytes();
    lemma_le_bytes_len(u64::MAX as nat, 8);
    if fork_data_root(BELLATRIX_FORK_VERSION, GENESIS_VALIDATORS_ROOT).len() == 32 {
        assert(bytes.subrange(8, 16) =~= le_bytes(u64::MAX as nat, 8));
        lemma_number_at(bytes, 8, u64::MAX);
    }
}

} // verus!
