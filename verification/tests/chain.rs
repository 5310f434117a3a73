use consensus_p2p::chain::{
    compute_fork_data_root, compute_fork_digest, digest_of, ForkData, ForkId, MerkleRoot,
    SignedRoot, SigningData,
};
use consensus_p2p::config::{
    BELLATRIX_FORK_VERSION, DUPLICATE_CACHE_TIME, GENESIS_VALIDATORS_ROOT,
    GOSSIP_MAX_SIZE_BELLATRIX,
};
use consensus_p2p::wire::SszError;

const BELLATRIX_ROOT: [u8; 32] = [
    74, 38, 197, 139, 8, 173, 216, 8, 155, 117, 202, 165, 64, 132, 136, 129, 168, 212, 240, 175,
    11, 232, 52, 23, 168, 92, 15, 69, 140, 166, 124, 209,
];

#[test]
fn bellatrix_fork_digest_is_the_one_of_the_main_network() {
    assert_eq!(
        compute_fork_digest(BELLATRIX_FORK_VERSION, GENESIS_VALIDATORS_ROOT),
        [0x4a, 0x26, 0xc5, 0x8b]
    );
    assert_eq!(
        compute_fork_data_root(BELLATRIX_FORK_VERSION, GENESIS_VALIDATORS_ROOT),
        BELLATRIX_ROOT
    );
    assert_eq!(digest_of(BELLATRIX_ROOT), [0x4a, 0x26, 0xc5, 0x8b]);
}

#[test]
fn new_fork_id_expects_no_fork() {
    let fork_id = ForkId::new();
    assert_eq!(fork_id.fork_digest, [0x4a, 0x26, 0xc5, 0x8b]);
    assert_eq!(fork_id.next_fork_version, [2, 0, 0, 0]);
    assert_eq!(fork_id.next_fork_epoch, u64::MAX);
}

#[test]
fn fork_id_is_read_back() {
    let fork_id = ForkId {
        fork_digest: [1, 2, 3, 4],
        next_fork_version: [5, 6, 7, 8],
        next_fork_epoch: 0x0a09,
    };
    let bytes = fork_id.as_ssz_bytes();
    assert_eq!(
        bytes,
        vec![1, 2, 3, 4, 5, 6, 7, 8, 9, 10, 0, 0, 0, 0, 0, 0]
    );
    assert_eq!(ForkId::from_ssz_bytes(&bytes), Ok(fork_id));
}

#[test]
fn fork_id_of_another_length_is_refused() {
    assert_eq!(
        ForkId::from_ssz_bytes(&[0; 15]),
        Err(SszError::InvalidByteLength {
            len: 15,
            expected: 16
        })
    );
    assert_eq!(
        ForkId::from_ssz_bytes(&[0; 17]),
        Err(SszError::InvalidByteLength {
            len: 17,
            expected: 16
        })
    );
}

#[test]
fn fork_data_is_signed_for_a_domain() {
    let fork_data = ForkData {
        current_version: BELLATRIX_FORK_VERSION,
        genesis_validators_root: GENESIS_VALIDATORS_ROOT,
    };
    assert_eq!(fork_data.tree_hash_root(), BELLATRIX_ROOT);
    let expected = [
        35, 28, 51, 145, 160, 39, 44, 209, 157, 170, 182, 132, 87, 142, 248, 230, 53, 42, 32, 189,
        253, 127, 198, 54, 24, 99, 71, 88, 18, 96, 60, 157,
    ];
    assert_eq!(fork_data.signing_root([7; 32]), expected);
    let signing_data = SigningData {
        object_root: BELLATRIX_ROOT,
        domain: [7; 32],
    };
    assert_eq!(signing_data.tree_hash_root(), expected);
}

#[test]
fn fork_id_has_a_root() {
    let fork_id = ForkId {
        fork_digest: [1, 2, 3, 4],
        next_fork_version: [5, 6, 7, 8],
        next_fork_epoch: 0x0a09,
    };
    let expected = [
        4, 66, 166, 184, 241, 192, 124, 253, 158, 119, 141, 113, 245, 255, 159, 177, 117, 160,
        143, 18, 77, 35, 184, 27, 121, 153, 218, 8, 204, 179, 246, 231,
    ];
    assert_eq!(fork_id.tree_hash_root(), expected);
}

#[test]
fn signing_data_is_read_back() {
    let data = SigningData {
        object_root: [1; 32],
        domain: [2; 32],
    };
    let bytes = data.as_ssz_bytes();
    assert_eq!(bytes.len(), 64);
    assert_eq!((bytes[31], bytes[32]), (1, 2));
    assert_eq!(SigningData::from_ssz_bytes(&bytes), Ok(data));
    assert_eq!(
        SigningData::from_ssz_bytes(&[0; 63]),
        Err(SszError::InvalidByteLength {
            len: 63,
            expected: 64
        })
    );
}

#[test]
fn fork_data_is_read_back() {
    let data = ForkData {
        current_version: [1, 2, 3, 4],
        genesis_validators_root: [5; 32],
    };
    let bytes = data.as_ssz_bytes();
    assert_eq!(bytes.len(), 36);
    assert_eq!(&bytes[..5], &[1, 2, 3, 4, 5]);
    assert_eq!(ForkData::from_ssz_bytes(&bytes), Ok(data));
    assert_eq!(
        ForkData::from_ssz_bytes(&[0; 37]),
        Err(SszError::InvalidByteLength {
            len: 37,
            expected: 36
        })
    );
}

#[test]
fn constants_of_the_network() {
    assert_eq!(GOSSIP_MAX_SIZE_BELLATRIX, 10_485_760);
    assert_eq!(DUPLICATE_CACHE_TIME, 397);
}
