use consensus_p2p::report::{
    average_duration, connection_durations, endpoints_of_peer, report, ConnectionEvent,
    TimedConnectionEvent,
};

fn event(peer_id: u64, endpoint: &str, connected: bool, time: u64) -> TimedConnectionEvent {
    TimedConnectionEvent {
        peer_id,
        endpoint: String::from(endpoint),
        num_established: 1,
        event: if connected {
            ConnectionEvent::Connected
        } else {
            ConnectionEvent::Disconnected(Some(String::from("reset")))
        },
        time,
    }
}

fn events() -> Vec<TimedConnectionEvent> {
    vec![
        event(7, "a", true, 10),
        event(8, "b", true, 11),
        event(7, "a", false, 25),
        event(7, "a", false, 26),
        event(7, "c", true, 30),
        event(7, "c", false, 36),
    ]
}

#[test]
fn durations_of_connections() {
    assert_eq!(connection_durations(&events(), 7, 50), (vec![15, 6], false));
    assert_eq!(connection_durations(&events(), 8, 50), (vec![39], true));
    assert_eq!(connection_durations(&events(), 9, 50), (vec![], false));
    assert_eq!(connection_durations(&events(), 8, 5), (vec![0], true));
}

#[test]
fn a_second_connection_replaces_the_first() {
    let events = vec![
        event(1, "a", true, 0),
        event(1, "a", true, 10),
        event(1, "a", false, 15),
    ];
    assert_eq!(connection_durations(&events, 1, 20), (vec![5], false));
}

#[test]
fn averages_are_rounded_down() {
    assert_eq!(average_duration(&vec![15, 6]), 10);
    assert_eq!(average_duration(&vec![]), 0);
    assert_eq!(average_duration(&vec![u64::MAX, u64::MAX]), u64::MAX);
}

#[test]
fn endpoints_are_listed_once() {
    assert_eq!(endpoints_of_peer(&events(), 7), vec!["a", "c"]);
    assert_eq!(endpoints_of_peer(&events(), 8), vec!["b"]);
    assert!(endpoints_of_peer(&events(), 9).is_empty());
}

#[test]
fn every_peer_has_an_entry() {
    let reports = report(&events(), 50);
    assert_eq!(reports.len(), 2);
    assert_eq!(reports[0].peer_id, 7);
    assert_eq!(reports[0].durations, vec![15, 6]);
    assert_eq!(reports[0].average, 10);
    assert!(!reports[0].connected);
    assert_eq!(reports[0].endpoints, vec!["a", "c"]);
    assert_eq!(reports[1].peer_id, 8);
    assert_eq!(reports[1].durations, vec![39]);
    assert_eq!(reports[1].average, 39);
    assert!(reports[1].connected);
    assert!(report(&Vec::new(), 50).is_empty());
}
