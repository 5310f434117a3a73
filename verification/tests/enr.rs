use consensus_p2p::chain::ForkId;
use consensus_p2p::config::BOOTNODE;
use consensus_p2p::discovery::{key_from_libp2p, local_peer_id, Keypair};
use consensus_p2p::enr::{
    build_enr, read_record, CombinedKey, EnrAsPeerId, EnrForkId, NodePublicKey, NodeRecord,
    ETH2_ENR_KEY,
};
use std::str::FromStr;

const GENERATOR_X: [u8; 32] = [
    0x79, 0xbe, 0x66, 0x7e, 0xf9, 0xdc, 0xbb, 0xac, 0x55, 0xa0, 0x62, 0x95, 0xce, 0x87, 0x0b, 0x07,
    0x02, 0x9b, 0xfc, 0xdb, 0x2d, 0xce, 0x28, 0xd9, 0x59, 0xf2, 0x81, 0x5b, 0x16, 0xf8, 0x17, 0x98,
];

fn record(public_key: NodePublicKey) -> NodeRecord {
    NodeRecord {
        public_key,
        seq: 1,
        ip4: None,
        udp4: None,
        tcp4: None,
        eth2: None,
    }
}

fn secret(last: u8) -> [u8; 32] {
    let mut secret = [0; 32];
    secret[31] = last;
    secret
}

#[test]
fn keys_of_the_right_curve_are_taken_over() {
    assert_eq!(
        key_from_libp2p(&Keypair::Secp256k1(secret(1))),
        Ok(CombinedKey::Secp256k1(secret(1)))
    );
    assert_eq!(key_from_libp2p(&Keypair::Other), Err("pair not supported"));
}

#[test]
fn records_tell_of_the_node() {
    for key in [CombinedKey::Secp256k1(secret(5)), CombinedKey::Ed25519([6; 32])] {
        let text = build_enr(&key).unwrap();
        assert!(text.starts_with("enr:"));
        let node = read_record(&text).unwrap();
        assert_eq!(node.seq, 1);
        assert_eq!(node.ip4, Some([0, 0, 0, 0]));
        assert_eq!(node.udp4, Some(9000));
        assert_eq!(node.tcp4, Some(9000));
        assert_eq!(node.fork_id(), Some(ForkId::new()));
        assert!(node.as_peer_id().is_some());
    }
}

#[test]
fn records_have_the_public_key_of_the_node() {
    let text = build_enr(&CombinedKey::Secp256k1(secret(1))).unwrap();
    assert_eq!(
        read_record(&text).unwrap().public_key,
        NodePublicKey::Secp256k1 {
            odd: false,
            x: GENERATOR_X
        }
    );
    let enr = discv5::Enr::from_str(&text).unwrap();
    assert_eq!(enr.get(ETH2_ENR_KEY), Some(&ForkId::new().as_ssz_bytes()[..]));
    assert_eq!(
        enr.get(ETH2_ENR_KEY).unwrap(),
        &[0x4a, 0x26, 0xc5, 0x8b, 2, 0, 0, 0, 255, 255, 255, 255, 255, 255, 255, 255]
    );
}

#[test]
fn records_map_back_to_their_key_pairs() {
    for last in [1, 2, 77] {
        let pair = Keypair::Secp256k1(secret(last));
        let text = build_enr(&key_from_libp2p(&pair).unwrap()).unwrap();
        let id = read_record(&text).unwrap().as_peer_id().unwrap();
        assert_eq!(local_peer_id(&pair), Some(id));
    }
    let pair = libp2p::identity::Keypair::generate_secp256k1();
    let secret = pair.clone().try_into_secp256k1().unwrap().secret().to_bytes();
    assert_eq!(
        local_peer_id(&Keypair::Secp256k1(secret)),
        Some(libp2p::PeerId::from(pair.public()).to_bytes())
    );
    assert_eq!(local_peer_id(&Keypair::Other), None);
}

#[test]
fn texts_that_are_no_record_are_refused() {
    assert!(read_record("").is_none());
    assert!(read_record("enr:").is_none());
    assert!(read_record("enr:AAAA").is_none());
    assert!(read_record("enr:gwE").is_none());
    assert!(read_record("gwE").is_none());
    assert!(read_record("enr:w").is_none());
    assert!(read_record("enr:wA").is_none());
    assert!(read_record("enr:-IS4").is_none());
    let mut text = build_enr(&CombinedKey::Ed25519([6; 32])).unwrap();
    text.pop();
    assert!(read_record(&text).is_none());
}

#[test]
fn the_bootnode_is_read() {
    let node = read_record(BOOTNODE).unwrap();
    assert!(BOOTNODE.starts_with("enr:"));
    assert_eq!(
        read_record(&BOOTNODE[4..]).unwrap().public_key,
        node.public_key
    );
    assert_eq!(node.ip4, Some([18, 216, 248, 220]));
    assert_eq!(node.udp4, Some(9000));
    assert_eq!(node.tcp4, None);
    assert!(node.fork_id().is_some());
}

#[test]
fn identity_of_a_secp256k1_key() {
    for (odd, tag) in [(false, 2), (true, 3)] {
        let id = record(NodePublicKey::Secp256k1 {
            odd,
            x: GENERATOR_X,
        })
        .as_peer_id()
        .unwrap();
        let mut expected = vec![0, 37, 8, 2, 18, 33, tag];
        expected.extend(GENERATOR_X);
        assert_eq!(id, expected);
        assert!(libp2p::PeerId::from_bytes(&id).is_ok());
    }
}

#[test]
fn identity_of_an_ed25519_key() {
    let mut point = [0x66; 32];
    point[0] = 0x58;
    let id = record(NodePublicKey::Ed25519(point)).as_peer_id().unwrap();
    let mut expected = vec![0, 36, 8, 1, 18, 32];
    expected.extend(point);
    assert_eq!(id, expected);
    assert!(libp2p::PeerId::from_bytes(&id).is_ok());
}

#[test]
fn bytes_that_are_no_key_have_no_identity() {
    assert_eq!(
        record(NodePublicKey::Secp256k1 {
            odd: false,
            x: [0xff; 32]
        })
        .as_peer_id(),
        None
    );
    let mut point = [0; 32];
    point[0] = 2;
    assert_eq!(record(NodePublicKey::Ed25519(point)).as_peer_id(), None);
}

#[test]
fn forks_are_read_from_records() {
    let mut node = record(NodePublicKey::Ed25519([0; 32]));
    assert_eq!(node.fork_id(), None);
    node.eth2 = Some(ForkId::new().as_ssz_bytes());
    assert_eq!(node.fork_id(), Some(ForkId::new()));
    node.eth2 = Some(vec![0; 15]);
    assert_eq!(node.fork_id(), None);
    assert_eq!(ETH2_ENR_KEY, "eth2");
}

#[test]
fn coordinates_that_are_on_the_curve_are_keys() {
    for last in 0..10 {
        let key = NodePublicKey::Secp256k1 {
            odd: true,
            x: secret(last),
        };
        let on_curve = [1, 2, 3, 4, 6, 8].contains(&last);
        assert_eq!(record(key).as_peer_id().is_some(), on_curve);
    }
}
