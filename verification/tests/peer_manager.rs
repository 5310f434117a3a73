use consensus_p2p::peer_manager::{
    ConnectionData, ConnectionStatus, ManagerStep, PeerData, PeerManager, PeerManagerEvent,
    SwarmEvent,
};

const SECOND: u64 = 1_000_000_000;

/// Connects a peer from one second to another.
fn connect(manager: &mut PeerManager, peer_id: u64, from: u64, until: u64) {
    manager.on_swarm_event(SwarmEvent::ConnectionEstablished { peer_id }, from * SECOND);
    manager.on_swarm_event(SwarmEvent::ConnectionClosed { peer_id }, until * SECOND);
}

fn dialed(event: Option<PeerManagerEvent>) -> Vec<u64> {
    match event {
        Some(PeerManagerEvent::DialPeers(peers)) => peers,
        other => panic!("unexpected {:?}", other),
    }
}

#[test]
fn nothing_is_known_of_a_new_peer() {
    let data = PeerData::new();
    assert!(data.connection_history.is_empty());
    assert_eq!(data.connection_status, ConnectionStatus::New);
    assert_eq!(data.average_connection_duration, None);
    assert_eq!(PeerManager::get_peer_score(&data), 0);
}

#[test]
fn missing_peers_are_discovered_once() {
    let mut manager = PeerManager::new(16);
    assert!(matches!(manager.poll(), ManagerStep::Heartbeat));
    assert!(manager.heartbeat_polled(false).is_none());
    assert!(matches!(manager.poll(), ManagerStep::Heartbeat));
    assert!(manager.heartbeat_polled(true).is_none());
    assert!(matches!(
        manager.poll(),
        ManagerStep::Ready(PeerManagerEvent::DiscoverPeers(16))
    ));
    assert!(matches!(manager.poll(), ManagerStep::Heartbeat));
    assert!(manager.heartbeat_polled(true).is_none());
    assert!(matches!(manager.poll(), ManagerStep::Heartbeat));
    manager.add_peers(vec![]);
    assert!(matches!(
        manager.poll(),
        ManagerStep::Ready(PeerManagerEvent::DiscoverPeers(16))
    ));
}

#[test]
fn new_peers_are_dialed_up_to_the_target() {
    let mut manager = PeerManager::new(3);
    manager.add_peers(vec![1, 2, 3, 4, 4]);
    let peers = dialed(manager.heartbeat_polled(true));
    assert_eq!(peers.len(), 3);
    assert!(peers.iter().all(|peer| (1..=4).contains(peer)));
    assert_eq!(manager.connected_and_dialing_peers().len(), 3);
    assert!(manager.heartbeat_polled(true).is_none());
    assert!(matches!(manager.poll(), ManagerStep::Heartbeat));
}

#[test]
fn what_cannot_be_dialed_is_to_be_discovered() {
    let mut manager = PeerManager::new(5);
    manager.add_peers(vec![1, 2]);
    let mut peers = dialed(manager.heartbeat_polled(true));
    peers.sort();
    assert_eq!(peers, vec![1, 2]);
    assert!(matches!(
        manager.poll(),
        ManagerStep::Ready(PeerManagerEvent::DiscoverPeers(3))
    ));
}

#[test]
fn connections_are_counted() {
    let mut manager = PeerManager::new(2);
    manager.add_peers(vec![1]);
    dialed(manager.heartbeat_polled(true));
    manager.on_connection_established(1, 0);
    assert!(manager.connected_and_dialing_peers().contains(&1));
    manager.on_connection_closed(1, SECOND);
    assert!(manager.connected_and_dialing_peers().is_empty());
    manager.on_dial_failure(None, 0);
    manager.on_dial_failure(Some(1), 2 * SECOND);
    manager.on_swarm_event(SwarmEvent::Other, 0);
    assert!(manager.connected_and_dialing_peers().is_empty());
}

#[test]
fn peers_that_stayed_long_are_dialed_again() {
    let mut manager = PeerManager::new(8);
    manager.add_peers(vec![1, 2, 3, 4]);
    connect(&mut manager, 1, 0, 9);
    connect(&mut manager, 2, 0, 6);
    connect(&mut manager, 3, 0, 4);
    manager.on_connection_established(4, 0);
    assert_eq!(manager.get_best_peers_for_redial(8), vec![1, 2]);
    assert_eq!(manager.get_best_peers_for_redial(1), vec![1]);
    assert_eq!(manager.get_best_peers_for_redial(0), Vec::<u64>::new());
}

#[test]
fn the_minimum_average_is_enough() {
    let mut manager = PeerManager::new(8);
    manager.add_peers(vec![1, 2]);
    connect(&mut manager, 1, 0, 5);
    manager.on_connection_established(2, 0);
    manager.on_connection_closed(2, 4_999_999_999);
    assert_eq!(manager.get_best_peers_for_redial(8), vec![1]);
}

#[test]
fn peers_to_dial_again_come_first() {
    let mut manager = PeerManager::new(2);
    manager.add_peers(vec![1, 2, 3]);
    let dialed_first = manager.get_new_peers_for_dialing(1);
    assert_eq!(dialed_first.len(), 1);
    let peer = dialed_first[0];
    connect(&mut manager, peer, 0, 20);
    let peers = manager.get_peers_to_dial(2);
    assert_eq!(peers.len(), 2);
    assert_eq!(peers[0], peer);
    assert_ne!(peers[1], peer);
}

#[test]
fn averages_are_running() {
    let mut data = PeerData::new();
    data.connection_status = ConnectionStatus::Disconnected;
    data.connection_history.push(ConnectionData {
        established_timestamp: Some(SECOND),
        failure_timestamp: None,
        disconnect_timestamp: Some(3 * SECOND + 999_999),
    });
    PeerManager::update_average_connection_duration(&mut data);
    assert_eq!(data.average_connection_duration, Some(2000));
    data.connection_status = ConnectionStatus::Failed;
    data.connection_history.push(ConnectionData {
        established_timestamp: None,
        failure_timestamp: Some(4 * SECOND),
        disconnect_timestamp: None,
    });
    PeerManager::update_average_connection_duration(&mut data);
    assert_eq!(data.average_connection_duration, Some(1000));
    data.connection_status = ConnectionStatus::Disconnected;
    data.connection_history.push(ConnectionData {
        established_timestamp: Some(5 * SECOND),
        failure_timestamp: None,
        disconnect_timestamp: Some(5 * SECOND + 300_000_000),
    });
    PeerManager::update_average_connection_duration(&mut data);
    assert_eq!(data.average_connection_duration, Some(766));
    assert_eq!(PeerManager::get_peer_score(&data), 766);
}

#[test]
fn durations_without_both_times_are_zero() {
    let mut data = PeerData::new();
    data.connection_status = ConnectionStatus::Disconnected;
    data.connection_history.push(ConnectionData {
        established_timestamp: None,
        failure_timestamp: None,
        disconnect_timestamp: Some(9 * SECOND),
    });
    PeerManager::update_average_connection_duration(&mut data);
    assert_eq!(data.average_connection_duration, Some(0));
    data.connection_history[0].established_timestamp = Some(10 * SECOND);
    data.average_connection_duration = None;
    PeerManager::update_average_connection_duration(&mut data);
    assert_eq!(data.average_connection_duration, Some(0));
}

#[test]
fn large_averages_do_not_overflow() {
    let mut data = PeerData::new();
    data.connection_status = ConnectionStatus::Failed;
    data.average_connection_duration = Some(u64::MAX);
    for _ in 0..4 {
        data.connection_history.push(ConnectionData {
            established_timestamp: None,
            failure_timestamp: Some(0),
            disconnect_timestamp: None,
        });
    }
    PeerManager::update_average_connection_duration(&mut data);
    assert_eq!(data.average_connection_duration, Some(u64::MAX / 4 * 3 + 2));
}

#[test]
fn failures_lower_the_average() {
    let mut manager = PeerManager::new(8);
    manager.add_peers(vec![1]);
    connect(&mut manager, 1, 0, 12);
    assert_eq!(manager.get_best_peers_for_redial(1), vec![1]);
    manager.on_swarm_event(SwarmEvent::DialFailure { peer: Some(1) }, 13 * SECOND);
    assert_eq!(manager.get_best_peers_for_redial(1), vec![1]);
    manager.on_swarm_event(SwarmEvent::DialFailure { peer: Some(1) }, 14 * SECOND);
    assert_eq!(manager.get_best_peers_for_redial(1), Vec::<u64>::new());
}

#[test]
fn the_manager_tells_what_it_can_be_told() {
    let mut manager = PeerManager::new(1);
    let established = SwarmEvent::ConnectionEstablished { peer_id: 3 };
    let closed = SwarmEvent::ConnectionClosed { peer_id: 3 };
    let failed = SwarmEvent::DialFailure { peer: Some(3) };
    assert!(!manager.expects(&established));
    assert!(!manager.expects(&closed));
    assert!(!manager.expects(&failed));
    assert!(manager.expects(&SwarmEvent::DialFailure { peer: None }));
    assert!(manager.expects(&SwarmEvent::Other));
    manager.add_peers(vec![3, 4]);
    assert!(manager.expects(&established));
    assert!(!manager.expects(&closed));
    assert!(manager.expects(&failed));
    manager.on_swarm_event(established, 0);
    assert!(manager.expects(&closed));
    assert!(!manager.has_too_many_peers());
    manager.on_swarm_event(SwarmEvent::ConnectionEstablished { peer_id: 4 }, 0);
    assert!(manager.has_too_many_peers());
}
