use consensus_p2p::chain::ForkId;
use consensus_p2p::discovery::{
    is_wanted, Discovery, DiscoveryStep, QueryProgress, QueryStep,
};
use consensus_p2p::enr::{EnrAsPeerId, NodePublicKey, NodeRecord};
use consensus_p2p::peer::PeerTable;
use libp2p::Multiaddr;

const GENERATOR_X: [u8; 32] = [
    0x79, 0xbe, 0x66, 0x7e, 0xf9, 0xdc, 0xbb, 0xac, 0x55, 0xa0, 0x62, 0x95, 0xce, 0x87, 0x0b, 0x07,
    0x02, 0x9b, 0xfc, 0xdb, 0x2d, 0xce, 0x28, 0xd9, 0x59, 0xf2, 0x81, 0x5b, 0x16, 0xf8, 0x17, 0x98,
];

const FIRST: NodePublicKey = NodePublicKey::Secp256k1 {
    odd: false,
    x: GENERATOR_X,
};

const SECOND: NodePublicKey = NodePublicKey::Secp256k1 {
    odd: true,
    x: GENERATOR_X,
};

const NO_POINT: NodePublicKey = NodePublicKey::Secp256k1 {
    odd: false,
    x: [0xff; 32],
};

fn third() -> NodePublicKey {
    let mut point = [0x66; 32];
    point[0] = 0x58;
    NodePublicKey::Ed25519(point)
}

fn record_of(key: NodePublicKey, ip4: Option<[u8; 4]>, tcp4: Option<u16>) -> NodeRecord {
    NodeRecord {
        public_key: key,
        seq: 1,
        ip4,
        udp4: None,
        tcp4,
        eth2: None,
    }
}

fn record(ip4: Option<[u8; 4]>, tcp4: Option<u16>) -> NodeRecord {
    NodeRecord {
        public_key: FIRST,
        seq: 1,
        ip4,
        udp4: None,
        tcp4,
        eth2: Some(ForkId::new().as_ssz_bytes()),
    }
}

#[test]
fn peers_are_looked_for_on_every_hundredth_poll() {
    let mut discovery = Discovery::new();
    let mut queries = Vec::new();
    for poll in 1..=250 {
        match discovery.poll() {
            DiscoveryStep::FindPeers => queries.push(poll),
            step => assert_eq!(step, DiscoveryStep::PollQueries),
        }
    }
    assert_eq!(queries, vec![1, 101, 201]);
}

#[test]
fn addresses_of_found_peers_are_kept() {
    let mut discovery = Discovery::new();
    let mut table = PeerTable::new();
    assert_eq!(table.number(vec![9]), 0);
    let records = vec![
        record_of(FIRST, Some([10, 0, 0, 7]), Some(9000)),
        record_of(SECOND, Some([10, 0, 0, 8]), None),
        record_of(third(), None, Some(9000)),
    ];
    let found = match discovery.peers_polled(&mut table, QueryProgress::Found(records)) {
        Some(QueryStep::Discovered(found)) => found,
        other => panic!("unexpected {:?}", other),
    };
    let mut peers: Vec<u64> = found.peers.keys().copied().collect();
    peers.sort();
    assert_eq!(peers, vec![1, 2, 3]);
    assert!(found.peers.values().all(|dialed| dialed.is_none()));

    let addresses = discovery.addresses_of_peer(1);
    assert_eq!(addresses, vec![vec![4, 10, 0, 0, 7, 6, 0x23, 0x28]]);
    assert_eq!(
        Multiaddr::try_from(addresses[0].clone()).unwrap(),
        "/ip4/10.0.0.7/tcp/9000".parse::<Multiaddr>().unwrap()
    );
    assert!(discovery.addresses_of_peer(2).is_empty());
    assert!(discovery.addresses_of_peer(3).is_empty());

    let later = vec![
        record_of(FIRST, Some([10, 0, 0, 9]), Some(1)),
        record_of(FIRST, None, None),
    ];
    discovery.peers_polled(&mut table, QueryProgress::Found(later));
    assert_eq!(
        discovery.addresses_of_peer(1),
        vec![vec![4, 10, 0, 0, 9, 6, 0, 1]]
    );
}

#[test]
fn peers_keep_their_numbers() {
    let mut table = PeerTable::new();
    let records = vec![
        record_of(FIRST, None, None),
        record_of(third(), None, None),
        record_of(FIRST, None, None),
    ];
    assert_eq!(table.identify(&records), Some(vec![0, 1, 0]));
    let id = records[1].as_peer_id().unwrap();
    assert_eq!(table.identity(1), Some(&id));
    assert_eq!(table.number(id), 1);
    assert_eq!(table.number(vec![7]), 2);
    assert_eq!(table.identity(2), Some(&vec![7]));
    assert_eq!(table.identity(3), None);
}

#[test]
fn nodes_without_an_identity_are_not_taken() {
    let mut discovery = Discovery::new();
    let mut table = PeerTable::new();
    let records = vec![
        record_of(FIRST, Some([10, 0, 0, 7]), Some(9000)),
        record_of(NO_POINT, Some([10, 0, 0, 8]), Some(9000)),
    ];
    assert!(discovery
        .peers_polled(&mut table, QueryProgress::Found(records))
        .is_none());
    assert_eq!(table.identity(0), None);
    assert!(discovery.addresses_of_peer(0).is_empty());
}

#[test]
fn queries_that_fail_are_passed_over() {
    let mut discovery = Discovery::new();
    let mut table = PeerTable::new();
    assert!(matches!(
        discovery.peers_polled(&mut table, QueryProgress::Failed),
        Some(QueryStep::Continue(DiscoveryStep::PollQueries))
    ));
}

#[test]
fn the_stream_of_events_is_awaited() {
    let mut discovery = Discovery::new();
    let mut table = PeerTable::new();
    discovery.event_stream_polled(None);
    assert!(matches!(
        discovery.peers_polled(&mut table, QueryProgress::Pending),
        Some(QueryStep::Continue(DiscoveryStep::AwaitEventStream))
    ));
    discovery.event_stream_polled(Some(true));
    assert!(matches!(
        discovery.peers_polled(&mut table, QueryProgress::Pending),
        Some(QueryStep::Continue(DiscoveryStep::DrainEvents))
    ));
    let mut discovery = Discovery::new();
    discovery.event_stream_polled(Some(false));
    assert!(matches!(
        discovery.peers_polled(&mut table, QueryProgress::Pending),
        Some(QueryStep::Continue(DiscoveryStep::Pending))
    ));
}

#[test]
fn peers_on_the_same_fork_are_wanted() {
    let digest = ForkId::new().fork_digest;
    assert!(is_wanted(&record(None, Some(9000)), digest));
    assert!(!is_wanted(&record(None, None), digest));
    assert!(!is_wanted(&record(None, Some(9000)), [0; 4]));
    let mut other = digest;
    other[3] += 1;
    assert!(!is_wanted(&record(None, Some(9000)), other));
    let mut unknown = record(None, Some(9000));
    unknown.eth2 = None;
    assert!(!is_wanted(&unknown, digest));
}

#[test]
fn polls_are_counted() {
    let mut discovery = Discovery::new();
    assert_eq!(discovery.poll_count(), 0);
    discovery.poll();
    discovery.poll();
    assert_eq!(discovery.poll_count(), 2);
}

#[test]
fn the_number_of_wanted_peers_is_noted() {
    let mut discovery = Discovery::new();
    assert_eq!(discovery.peers_to_discover(), 0);
    discovery.set_peers_to_discover(7);
    discovery.poll();
    assert_eq!(discovery.peers_to_discover(), 7);
}
