//! Which peers to dial, and what is known of their connections.
//!
//! Times are nanoseconds since a moment of the program's choosing.

use crate::collections::{lemma_push_contains, lists, map_keys, set_elements};
use crate::peer::PeerId;
use std::collections::{HashMap, HashSet};
use vstd::prelude::*;

verus! {

broadcast use vstd::std_specs::hash::group_hash_axioms;

/// The average time of a connection, in milliseconds, from which on a peer is dialed again.
pub const MIN_AVERAGE_CONNECTION_DURATION: u64 = 5000;

/// How many seconds there are between two heartbeats.
pub const HEARTBEAT_INTERVAL: u64 = 1;

/// How many nanoseconds a millisecond has.
pub const NANOS_PER_MILLI: u64 = 1_000_000;

/// What the manager asks for.
#[derive(Debug)]
pub enum PeerManagerEvent {
    /// Discover more peers, this many.
    DiscoverPeers(u32),
    /// Dial these peers.
    DialPeers(Vec<PeerId>),
}

/// When a connection, or an attempt at one, came about and ended.
#[derive(Debug, Clone, Copy)]
pub struct ConnectionData {
    pub established_timestamp: Option<u64>,
    pub failure_timestamp: Option<u64>,
    pub disconnect_timestamp: Option<u64>,
}

/// How it stands with the connection to a peer.
#[derive(Debug, Clone, Copy, PartialEq, Eq, Structural)]
pub enum ConnectionStatus {
    New,
    Connecting,
    Connected,
    Disconnected,
    Failed,
}

/// What is known of the connections to a peer.
#[derive(Debug)]
pub struct PeerData {
    pub connection_history: Vec<ConnectionData>,
    pub connection_status: ConnectionStatus,
    pub average_connection_duration: Option<u64>,
}

/// What is known of the connections to a peer, with their history as a sequence.
#[verifier::ext_equal]
pub struct PeerDataView {
    pub history: Seq<ConnectionData>,
    pub status: ConnectionStatus,
    pub average: Option<u64>,
}

impl View for PeerData {
    type V = PeerDataView;

    open spec fn view(&self) -> PeerDataView {
        PeerDataView {
            history: self.connection_history@,
            status: self.connection_status,
            average: self.average_connection_duration,
        }
    }
}

impl PeerDataView {
    /// A peer that nothing is known of.
    pub open spec fn fresh() -> PeerDataView {
        PeerDataView { history: Seq::empty(), status: ConnectionStatus::New, average: None }
    }

    /// The peer once it is being dialed.
    pub open spec fn connecting(self) -> PeerDataView {
        PeerDataView {
            history: self.history.push(
                ConnectionData {
                    established_timestamp: None,
                    failure_timestamp: None,
                    disconnect_timestamp: None,
                },
            ),
            status: ConnectionStatus::Connecting,
            average: self.average,
        }
    }

    /// The peer once it is connected.
    pub open spec fn established(self, now: u64) -> PeerDataView {
        PeerDataView {
            history: self.history.push(
                ConnectionData {
                    established_timestamp: Some(now),
                    failure_timestamp: None,
                    disconnect_timestamp: None,
                },
            ),
            status: ConnectionStatus::Connected,
            average: self.average,
        }
    }

    /// The peer once dialing it has failed.
    pub open spec fn failed(self, now: u64) -> PeerDataView {
        PeerDataView {
            history: self.history.push(
                ConnectionData {
                    established_timestamp: None,
                    failure_timestamp: Some(now),
                    disconnect_timestamp: None,
                },
            ),
            status: ConnectionStatus::Failed,
            average: self.average,
        }.averaged()
    }

    /// The peer once its connection is closed.
    pub open spec fn closed(self, now: u64) -> PeerDataView {
        PeerDataView {
            history: self.history.update(
                self.history.len() - 1,
                ConnectionData { disconnect_timestamp: Some(now), ..self.history.last() },
            ),
            status: ConnectionStatus::Disconnected,
            average: self.average,
        }.averaged()
    }

    /// How long the last connection lasted, in milliseconds. An attempt that failed
    /// lasted no time, and neither did a connection whose times are not both known.
    pub open spec fn last_duration(self) -> int {
        if self.status is Disconnected {
            match (
                self.history.last().established_timestamp,
                self.history.last().disconnect_timestamp,
            ) {
                (Some(from), Some(until)) => if until > from {
                    (until - from) / (NANOS_PER_MILLI as int)
                } else {
                    0
                },
                _ => 0,
            }
        } else {
            0
        }
    }

    /// The peer once its last connection has gone into the average: as one of as many as
    /// there are entries in its history.
    pub open spec fn averaged(self) -> PeerDataView {
        PeerDataView {
            average: match self.average {
                Some(average) => Some(
                    ((average * (self.history.len() - 1) + self.last_duration())
                        / (self.history.len() as int)) as u64,
                ),
                None => Some(self.last_duration() as u64),
            },
            ..self
        }
    }

    /// What a peer is ranked by: the average time of its connections.
    pub open spec fn score(self) -> u64 {
        match self.average {
            Some(average) => average,
            None => 0,
        }
    }

    /// Whether the peer may be dialed again: its connections lasted long enough, and it
    /// has none now.
    pub open spec fn redialable(self) -> bool {
        &&& self.status is Failed || self.status is Disconnected
        &&& self.score() >= MIN_AVERAGE_CONNECTION_DURATION
    }
}

/// An average lies between what it is taken of.
proof fn lemma_average_bound(average: int, count: int, added: int, bound: int)
    requires
        0 <= average <= bound,
        0 <= added <= bound,
        count >= 1,
    ensures
        0 <= (average * (count - 1) + added) / count <= bound,
{
    let sum = average * (count - 1) + added;
    assert(0 <= sum <= bound * count) by (nonlinear_arith)
        requires
            0 <= average <= bound,
            0 <= added <= bound,
            count >= 1,
            sum == average * (count - 1) + added,
    ;
    assert(0 <= sum / count <= bound) by (nonlinear_arith)
        requires
            0 <= sum <= bound * count,
            count >= 1,
    ;
}

impl PeerData {
    /// What is known of a peer at first.
    pub fn new() -> (data: Self)
        ensures
            data@ == PeerDataView::fresh(),
    {
        Self {
            connection_history: Vec::new(),
            connection_status: ConnectionStatus::New,
            average_connection_duration: None,
        }
    }
}

/// The milliseconds from one time to another, or none if that is not later.
fn elapsed_millis(from: u64, until: u64) -> (millis: u64)
    ensures
        millis == (if until > from {
            (until - from) / (NANOS_PER_MILLI as int)
        } else {
            0
        }),
{
    if until > from {
        (until - from) / NANOS_PER_MILLI
    } else {
        0
    }
}

/// The average of `count` durations, where `average` is that of all but the last one.
fn running_average(average: u64, count: usize, added: u64) -> (result: u64)
    requires
        count >= 1,
    ensures
        result == (average * (count - 1) + added) / (count as int),
{
    proof {
        lemma_average_bound(average as int, count as int, added as int, u64::MAX as int);
        assert(average * (count - 1) + added <= u128::MAX) by (nonlinear_arith)
            requires
                average <= u64::MAX,
                1 <= count <= u64::MAX,
                added <= u64::MAX,
        ;
        assert(average * (count - 1) >= 0) by (nonlinear_arith)
            requires
                count >= 1,
        ;
    }
    let sum: u128 = average as u128 * (count - 1) as u128 + added as u128;
    (sum / count as u128) as u64
}

/// The peers that a node knows, and how it stands with them.
pub struct PeerManager {
    connected_peers: HashSet<PeerId>,
    dialing_peers: HashSet<PeerId>,
    new_peers: HashSet<PeerId>,
    peer_data: HashMap<PeerId, PeerData>,
    target_peer_number: u32,
    peers_to_discover: u32,
    waiting_for_peer_discovery: bool,
}

/// What a manager holds.
#[verifier::ext_equal]
pub struct ManagerView {
    /// The peers that are connected.
    pub connected: Set<PeerId>,
    /// The peers that are being dialed.
    pub dialing: Set<PeerId>,
    /// The peers that have not been dialed yet.
    pub new_peers: Set<PeerId>,
    /// What is known of each peer.
    pub data: Map<PeerId, PeerDataView>,
    /// How many peers are to be connected.
    pub target: u32,
    /// How many more peers are to be discovered.
    pub to_discover: u32,
    /// Whether peers are being discovered.
    pub waiting: bool,
}

impl View for PeerManager {
    type V = ManagerView;

    closed spec fn view(&self) -> ManagerView {
        ManagerView {
            connected: self.connected_peers@,
            dialing: self.dialing_peers@,
            new_peers: self.new_peers@,
            data: self.peer_data@.map_values(|data: PeerData| data@),
            target: self.target_peer_number,
            to_discover: self.peers_to_discover,
            waiting: self.waiting_for_peer_discovery,
        }
    }
}

impl ManagerView {
    /// What every manager keeps to: it knows only so many peers, and something of every one
    /// that it deals with.
    pub open spec fn wf(self) -> bool {
        &&& self.data.dom().finite()
        &&& self.connected.subset_of(self.data.dom())
        &&& self.dialing.subset_of(self.data.dom())
        &&& self.new_peers.subset_of(self.data.dom())
    }

    /// The manager with something else known of a peer.
    pub open spec fn with_data(self, peer_id: PeerId, data: PeerDataView) -> ManagerView {
        ManagerView { data: self.data.insert(peer_id, data), ..self }
    }

    /// The peers that are connected or being dialed.
    pub open spec fn engaged(self) -> Set<PeerId> {
        self.connected.union(self.dialing)
    }

    /// The manager once peers have been discovered: each is new, whatever was known of it.
    pub open spec fn peers_added(self, peer_ids: Seq<PeerId>) -> ManagerView {
        ManagerView {
            data: Map::new(
                |p: PeerId| self.data.dom().contains(p) || peer_ids.contains(p),
                |p: PeerId|
                    if peer_ids.contains(p) {
                        PeerDataView::fresh()
                    } else {
                        self.data[p]
                    },
            ),
            new_peers: self.new_peers.union(peer_ids.to_set()),
            waiting: false,
            ..self
        }
    }

    /// The manager once new peers are being dialed.
    pub open spec fn peers_connecting(self, peer_ids: Seq<PeerId>) -> ManagerView {
        ManagerView {
            data: Map::new(
                |p: PeerId| self.data.dom().contains(p),
                |p: PeerId|
                    if peer_ids.contains(p) {
                        self.data[p].connecting()
                    } else {
                        self.data[p]
                    },
            ),
            new_peers: self.new_peers.difference(peer_ids.to_set()),
            ..self
        }
    }

    /// The manager once a connection to a peer is there.
    pub open spec fn connection_established(self, peer_id: PeerId, now: u64) -> ManagerView {
        ManagerView {
            connected: self.connected.insert(peer_id),
            dialing: self.dialing.remove(peer_id),
            ..self.with_data(peer_id, self.data[peer_id].established(now))
        }
    }

    /// The manager once the connection to a peer is gone.
    pub open spec fn connection_closed(self, peer_id: PeerId, now: u64) -> ManagerView {
        ManagerView {
            connected: self.connected.remove(peer_id),
            ..self.with_data(peer_id, self.data[peer_id].closed(now))
        }
    }

    /// The manager once dialing a peer has failed.
    pub open spec fn dial_failed(self, peer_id: PeerId, now: u64) -> ManagerView {
        ManagerView {
            dialing: self.dialing.remove(peer_id),
            ..self.with_data(peer_id, self.data[peer_id].failed(now))
        }
    }
}

/// What changing the entry of a peer does to the view of the table.
proof fn lemma_data_view(table: Map<PeerId, PeerData>, peer_id: PeerId, data: PeerData)
    ensures
        table.map_values(|data: PeerData| data@).dom() == table.dom(),
        table.insert(peer_id, data).map_values(|data: PeerData| data@) == table.map_values(
            |data: PeerData| data@,
        ).insert(peer_id, data@),
        table.remove(peer_id).insert(peer_id, data).map_values(|data: PeerData| data@)
            == table.map_values(|data: PeerData| data@).insert(peer_id, data@),
{
    let view = |data: PeerData| data@;
    assert(table.map_values(view).dom() =~= table.dom());
    assert(table.insert(peer_id, data).map_values(view) =~= table.map_values(view).insert(
        peer_id,
        data@,
    ));
    assert(table.remove(peer_id).insert(peer_id, data).map_values(view) =~= table.map_values(
        view,
    ).insert(peer_id, data@));
}

impl PeerManager {
    /// A manager that knows no peer and aims at a number of them.
    pub fn new(target_peer_number: u32) -> (manager: Self)
        ensures
            manager@.wf(),
            manager@ == (ManagerView {
                connected: Set::empty(),
                dialing: Set::empty(),
                new_peers: Set::empty(),
                data: Map::empty(),
                target: target_peer_number,
                to_discover: 0,
                waiting: false,
            }),
    {
        let manager = Self {
            new_peers: HashSet::new(),
            connected_peers: HashSet::new(),
            dialing_peers: HashSet::new(),
            peer_data: HashMap::new(),
            peers_to_discover: 0,
            target_peer_number,
            waiting_for_peer_discovery: false,
        };
        assert(manager@.data =~= Map::<PeerId, PeerDataView>::empty());
        manager
    }

    /// Takes peers that have been discovered.
    pub fn add_peers(&mut self, peer_ids: Vec<PeerId>)
        requires
            old(self)@.wf(),
        ensures
            final(self)@.wf(),
            final(self)@ == old(self)@.peers_added(peer_ids@),
    {
        let mut i: usize = 0;
        proof {
            assert(self@ =~= ManagerView {
                waiting: self@.waiting,
                ..old(self)@.peers_added(peer_ids@.take(0))
            });
        }
        while i < peer_ids.len()
            invariant
                i <= peer_ids@.len(),
                self@ == (ManagerView {
                    waiting: old(self)@.waiting,
                    ..old(self)@.peers_added(peer_ids@.take(i as int))
                }),
            decreases peer_ids@.len() - i,
        {
            let peer_id: PeerId = peer_ids[i];
            let data = PeerData::new();
            let ghost before = self@;
            proof {
                lemma_data_view(self.peer_data@, peer_id, data);
            }
            self.peer_data.insert(peer_id, data);
            self.new_peers.insert(peer_id);
            proof {
                let done = peer_ids@.take(i as int);
                let more = peer_ids@.take(i + 1);
                assert(more =~= done.push(peer_id));
                lemma_push_contains(done, peer_id);
                assert(self@ =~= ManagerView {
                    waiting: old(self)@.waiting,
                    ..old(self)@.peers_added(more)
                });
            }
            i += 1;
        }
        self.waiting_for_peer_discovery = false;
        proof {
            assert(peer_ids@.take(peer_ids@.len() as int) =~= peer_ids@);
            vstd::seq_lib::seq_to_set_is_finite(peer_ids@);
            assert(self@.data.dom() =~= old(self)@.data.dom().union(peer_ids@.to_set()));
        }
    }

    /// Notes that a new peer is being dialed.
    fn peer_connecting(&mut self, peer_id: PeerId)
        requires
            old(self)@.data.dom().contains(peer_id),
        ensures
            final(self)@ == (ManagerView {
                new_peers: old(self)@.new_peers.remove(peer_id),
                ..old(self)@.with_data(peer_id, old(self)@.data[peer_id].connecting())
            }),
    {
        let ghost before = self.peer_data@;
        proof {
            lemma_data_view(before, peer_id, before[peer_id]);
        }
        let mut peer_data = self.peer_data.remove(&peer_id).unwrap();
        peer_data.connection_status = ConnectionStatus::Connecting;
        peer_data.connection_history.push(
            ConnectionData {
                established_timestamp: None,
                failure_timestamp: None,
                disconnect_timestamp: None,
            },
        );
        self.peer_data.insert(peer_id, peer_data);
        self.new_peers.remove(&peer_id);
        proof {
            lemma_data_view(before, peer_id, peer_data);
        }
    }

    /// Notes that a peer is connected.
    pub fn on_connection_established(&mut self, peer_id: PeerId, now: u64)
        requires
            old(self)@.wf(),
            old(self)@.data.dom().contains(peer_id),
        ensures
            final(self)@.wf(),
            final(self)@ == old(self)@.connection_established(peer_id, now),
    {
        let ghost before = self.peer_data@;
        proof {
            lemma_data_view(before, peer_id, before[peer_id]);
        }
        let mut peer_data = self.peer_data.remove(&peer_id).unwrap();
        peer_data.connection_status = ConnectionStatus::Connected;
        peer_data.connection_history.push(
            ConnectionData {
                established_timestamp: Some(now),
                failure_timestamp: None,
                disconnect_timestamp: None,
            },
        );
        self.peer_data.insert(peer_id, peer_data);
        self.connected_peers.insert(peer_id);
        self.dialing_peers.remove(&peer_id);
        proof {
            lemma_data_view(before, peer_id, peer_data);
        }
    }

    /// Notes that the connection to a peer is gone.
    pub fn on_connection_closed(&mut self, peer_id: PeerId, now: u64)
        requires
            old(self)@.wf(),
            old(self)@.data.dom().contains(peer_id),
            old(self)@.data[peer_id].history.len() > 0,
        ensures
            final(self)@.wf(),
            final(self)@ == old(self)@.connection_closed(peer_id, now),
    {
        let ghost before = self.peer_data@;
        proof {
            lemma_data_view(before, peer_id, before[peer_id]);
        }
        let mut peer_data = self.peer_data.remove(&peer_id).unwrap();
        peer_data.connection_status = ConnectionStatus::Disconnected;
        let last: usize = peer_data.connection_history.len() - 1;
        let mut connection_data: ConnectionData = peer_data.connection_history[last];
        connection_data.disconnect_timestamp = Some(now);
        peer_data.connection_history.set(last, connection_data);
        PeerManager::update_average_connection_duration(&mut peer_data);
        self.peer_data.insert(peer_id, peer_data);
        self.connected_peers.remove(&peer_id);
        proof {
            lemma_data_view(before, peer_id, peer_data);
        }
    }

    /// Notes that dialing a peer has failed, where it is known which.
    pub fn on_dial_failure(&mut self, peer_id: Option<PeerId>, now: u64)
        requires
            old(self)@.wf(),
            peer_id matches Some(p) ==> old(self)@.data.dom().contains(p),
        ensures
            final(self)@.wf(),
            final(self)@ == (match peer_id {
                Some(p) => old(self)@.dial_failed(p, now),
                None => old(self)@,
            }),
    {
        if let Some(peer_id) = peer_id {
            let ghost before = self.peer_data@;
            proof {
                lemma_data_view(before, peer_id, before[peer_id]);
            }
            let mut peer_data = self.peer_data.remove(&peer_id).unwrap();
            peer_data.connection_status = ConnectionStatus::Failed;
            peer_data.connection_history.push(
                ConnectionData {
                    established_timestamp: None,
                    failure_timestamp: Some(now),
                    disconnect_timestamp: None,
                },
            );
            PeerManager::update_average_connection_duration(&mut peer_data);
            self.peer_data.insert(peer_id, peer_data);
            self.dialing_peers.remove(&peer_id);
            proof {
                lemma_data_view(before, peer_id, peer_data);
            }
        }
    }

    /// Takes the last connection of a peer into the average.
    pub fn update_average_connection_duration(peer_data: &mut PeerData)
        requires
            old(peer_data)@.status is Failed || old(peer_data)@.status is Disconnected,
            old(peer_data)@.status is Disconnected || old(peer_data)@.average is Some ==> old(
                peer_data,
            )@.history.len() > 0,
        ensures
            final(peer_data)@ == old(peer_data)@.averaged(),
    {
        let num_connection_attempts: usize = peer_data.connection_history.len();
        let new_duration: u64 = match peer_data.connection_status {
            ConnectionStatus::Disconnected => {
                let connection_data: ConnectionData =
                    peer_data.connection_history[num_connection_attempts - 1];
                match (
                    connection_data.established_timestamp,
                    connection_data.disconnect_timestamp,
                ) {
                    (Some(established), Some(disconnected)) => elapsed_millis(
                        established,
                        disconnected,
                    ),
                    _ => 0,
                }
            },
            _ => 0,
        };
        peer_data.average_connection_duration = match peer_data.average_connection_duration {
            Some(old_average) => Some(
                running_average(old_average, num_connection_attempts, new_duration),
            ),
            None => Some(new_duration),
        };
    }
}

/// The smaller one of two numbers.
pub open spec fn at_most(limit: nat, count: nat) -> nat {
    if limit < count {
        limit
    } else {
        count
    }
}

impl ManagerView {
    /// The peers that may be dialed again.
    pub open spec fn redialable_peers(self) -> Set<PeerId> {
        self.data.dom().filter(|p: PeerId| self.data[p].redialable())
    }

    /// Whether `peers` are those to dial again, at most `count` of them: of the peers that
    /// may be dialed again the ones with the highest scores, the best one first.
    /// Among peers of the same score any may come first.
    pub open spec fn redials(self, count: nat, peers: Seq<PeerId>) -> bool {
        &&& peers.no_duplicates()
        &&& peers.len() == at_most(count, self.redialable_peers().len())
        &&& forall|i: int|
            0 <= i < peers.len() ==> self.redialable_peers().contains(#[trigger] peers[i])
        &&& forall|i: int, j: int|
            0 <= i < j < peers.len() ==> self.data[#[trigger] peers[i]].score()
                >= self.data[#[trigger] peers[j]].score()
        &&& forall|i: int, p: PeerId|
            #![trigger peers[i], self.redialable_peers().contains(p)]
            0 <= i < peers.len() && self.redialable_peers().contains(p) && !peers.contains(p)
                ==> self.data[peers[i]].score() >= self.data[p].score()
    }

    /// Whether `peers` are new ones to dial, at most `count` of them. Any may be taken.
    pub open spec fn new_dials(self, count: nat, peers: Seq<PeerId>) -> bool {
        &&& peers.no_duplicates()
        &&& peers.len() == at_most(count, self.new_peers.len())
        &&& forall|i: int| 0 <= i < peers.len() ==> self.new_peers.contains(#[trigger] peers[i])
    }

    /// Whether `peers` are those to dial when `missing` are wanted, and `later` what the
    /// manager is once they are being dialed: peers that may be dialed again come first,
    /// and new ones make up for what is missing.
    pub open spec fn dials(self, missing: nat, peers: Seq<PeerId>, later: ManagerView) -> bool {
        exists|again: Seq<PeerId>, fresh: Seq<PeerId>| #[trigger]
            self.dials_split(missing, again, fresh, peers, later)
    }

    /// Whether `peers` are made up of peers to dial again and of new ones.
    pub open spec fn dials_split(
        self,
        missing: nat,
        again: Seq<PeerId>,
        fresh: Seq<PeerId>,
        peers: Seq<PeerId>,
        later: ManagerView,
    ) -> bool {
        &&& self.redials(missing, again)
        &&& self.new_dials((missing - again.len()) as nat, fresh)
        &&& peers == again + fresh
        &&& later == (ManagerView {
            dialing: self.dialing.union(peers.to_set()),
            ..self.peers_connecting(fresh)
        })
    }
}

impl PeerManager {
    /// What a peer is ranked by.
    pub fn get_peer_score(peer_data: &PeerData) -> (score: u64)
        ensures
            score == peer_data@.score(),
    {
        if let Some(score) = peer_data.average_connection_duration {
            return score;
        }
        0
    }

    /// Whether a peer may be dialed again.
    fn is_redialable(peer_data: &PeerData) -> (redialable: bool)
        ensures
            redialable == peer_data@.redialable(),
    {
        let ended = match peer_data.connection_status {
            ConnectionStatus::Failed => true,
            ConnectionStatus::Disconnected => true,
            _ => false,
        };
        ended && PeerManager::get_peer_score(peer_data) >= MIN_AVERAGE_CONNECTION_DURATION
    }

    /// The best peers to dial again, at most `num_peers` of them.
    pub fn get_best_peers_for_redial(&self, num_peers: u32) -> (peers: Vec<PeerId>)
        ensures
            self@.data.dom().finite(),
            self@.redials(num_peers as nat, peers@),
    {
        let known: Vec<PeerId> = map_keys(&self.peer_data);
        let mut ranked: Vec<(PeerId, u64)> = Vec::new();
        let mut i: usize = 0;
        while i < known.len()
            invariant
                i <= known@.len(),
                lists(known@, self.peer_data@.dom()),
                ranking(self@, known@.take(i as int), ranked@),
            decreases known@.len() - i,
        {
            let peer_id: PeerId = known[i];
            proof {
                lemma_known_peer(self.peer_data@, known@, i as int);
            }
            let peer_data: &PeerData = self.peer_data.get(&peer_id).unwrap();
            if PeerManager::is_redialable(peer_data) {
                let score: u64 = PeerManager::get_peer_score(peer_data);
                let ghost before = ranked@;
                let position: usize = rank_of(&ranked, score);
                ranked.insert(position, (peer_id, score));
                proof {
                    lemma_ranking_grows(self@, known@, i as int, before, position as int, ranked@);
                }
            } else {
                proof {
                    lemma_ranking_skips(self@, known@, i as int, ranked@);
                }
            }
            i += 1;
        }
        let mut peers: Vec<PeerId> = Vec::new();
        let mut j: usize = 0;
        while j < ranked.len() && peers.len() < num_peers as usize
            invariant
                j <= ranked@.len(),
                j <= num_peers,
                peers@ == ranked_peers(ranked@).take(j as int),
            decreases ranked@.len() - j,
        {
            peers.push(ranked[j].0);
            j += 1;
            assert(peers@ =~= ranked_peers(ranked@).take(j as int));
        }
        proof {
            assert(known@.take(known@.len() as int) =~= known@);
            assert(self@.data.dom() =~= self.peer_data@.dom());
            lemma_best_of_ranking(self@, known@, ranked@, num_peers as nat, peers@);
        }
        peers
    }
}

impl PeerManager {
    /// New peers to dial, at most `missing_peers` of them.
    pub fn get_new_peers_for_dialing(&mut self, missing_peers: u32) -> (peers: Vec<PeerId>)
        requires
            old(self)@.wf(),
        ensures
            final(self)@.wf(),
            old(self)@.new_dials(missing_peers as nat, peers@),
            final(self)@ == old(self)@.peers_connecting(peers@),
    {
        let waiting: Vec<PeerId> = set_elements(&self.new_peers);
        let mut peers_to_dial: Vec<PeerId> = Vec::new();
        let mut i: usize = 0;
        assert(self@ =~= old(self)@.peers_connecting(peers_to_dial@));
        while i < waiting.len() && peers_to_dial.len() < missing_peers as usize
            invariant
                i <= waiting@.len(),
                i <= missing_peers,
                old(self)@.wf(),
                lists(waiting@, old(self)@.new_peers),
                peers_to_dial@ == waiting@.take(i as int),
                self@ == old(self)@.peers_connecting(waiting@.take(i as int)),
            decreases waiting@.len() - i,
        {
            let peer_id: PeerId = waiting[i];
            let ghost done = waiting@.take(i as int);
            proof {
                assert(waiting@.to_set().contains(peer_id));
                if done.contains(peer_id) {
                    let k = done.index_of(peer_id);
                    assert(waiting@[k] == waiting@[i as int]);
                }
            }
            peers_to_dial.push(peer_id);
            self.peer_connecting(peer_id);
            proof {
                let more = waiting@.take(i + 1);
                assert(more =~= done.push(peer_id));
                lemma_push_contains(done, peer_id);
                assert(self@ =~= old(self)@.peers_connecting(more));
            }
            i += 1;
        }
        proof {
            waiting@.unique_seq_to_set();
            assert forall|k: int| 0 <= k < peers_to_dial@.len() implies old(
                self,
            )@.new_peers.contains(#[trigger] peers_to_dial@[k]) by {
                assert(waiting@.to_set().contains(waiting@[k]));
            }
        }
        peers_to_dial
    }

    /// The peers to dial when `missing_peers` are wanted.
    pub fn get_peers_to_dial(&mut self, missing_peers: u32) -> (peers: Vec<PeerId>)
        requires
            old(self)@.wf(),
        ensures
            final(self)@.wf(),
            old(self)@.dials(missing_peers as nat, peers@, final(self)@),
            peers@.len() <= missing_peers,
    {
        let mut peers_to_dial: Vec<PeerId> = self.get_best_peers_for_redial(missing_peers);
        let ghost again = peers_to_dial@;
        let new_peers_to_dial: u32 = missing_peers - peers_to_dial.len() as u32;
        let mut new_peers: Vec<PeerId> = Vec::new();
        if new_peers_to_dial > 0 {
            new_peers = self.get_new_peers_for_dialing(new_peers_to_dial);
        } else {
            assert(self@ =~= old(self)@.peers_connecting(new_peers@));
        }
        let ghost fresh = new_peers@;
        let ghost connecting = self@;
        peers_to_dial.append(&mut new_peers);
        assert(peers_to_dial@ =~= again + fresh);
        let mut i: usize = 0;
        assert(self@ =~= ManagerView {
            dialing: connecting.dialing.union(peers_to_dial@.take(0).to_set()),
            ..connecting
        });
        while i < peers_to_dial.len()
            invariant
                i <= peers_to_dial@.len(),
                self@ == (ManagerView {
                    dialing: connecting.dialing.union(peers_to_dial@.take(i as int).to_set()),
                    ..connecting
                }),
            decreases peers_to_dial@.len() - i,
        {
            let peer: PeerId = peers_to_dial[i];
            self.dialing_peers.insert(peer);
            proof {
                let done = peers_to_dial@.take(i as int);
                let more = peers_to_dial@.take(i + 1);
                assert(more =~= done.push(peer));
                lemma_push_contains(done, peer);
                assert(self@ =~= ManagerView {
                    dialing: connecting.dialing.union(more.to_set()),
                    ..connecting
                });
            }
            i += 1;
        }
        proof {
            assert(peers_to_dial@.take(peers_to_dial@.len() as int) =~= peers_to_dial@);
            assert(old(self)@.dials_split(
                missing_peers as nat,
                again,
                fresh,
                peers_to_dial@,
                self@,
            ));
            assert forall|p: PeerId| peers_to_dial@.contains(p) implies self@.data.dom().contains(
                p,
            ) by {
                let k = peers_to_dial@.index_of(p);
                if k < again.len() {
                    assert(old(self)@.redialable_peers().contains(again[k]));
                } else {
                    assert(old(self)@.new_peers.contains(fresh[k - again.len()]));
                }
            }
        }
        peers_to_dial
    }

    /// The peers that are connected or being dialed.
    pub fn connected_and_dialing_peers(&self) -> (peers: HashSet<PeerId>)
        ensures
            peers@ == self@.engaged(),
            peers@.finite(),
    {
        let mut peers: HashSet<PeerId> = HashSet::new();
        extend(&mut peers, &self.connected_peers);
        extend(&mut peers, &self.dialing_peers);
        assert(peers@ =~= self@.engaged());
        peers
    }
}

/// How a poll of the manager goes on.
#[derive(Debug)]
pub enum ManagerStep {
    /// The poll has ended with this event.
    Ready(PeerManagerEvent),
    /// See whether the heart has beaten, and call `heartbeat_polled`.
    Heartbeat,
}

/// What the network tells the manager.
#[derive(Debug, Clone, Copy)]
pub enum SwarmEvent {
    ConnectionEstablished { peer_id: PeerId },
    ConnectionClosed { peer_id: PeerId },
    DialFailure { peer: Option<PeerId> },
    /// Anything else, which does not matter here.
    Other,
}

impl ManagerView {
    /// Whether peers are to be discovered now, and what the manager is once they are.
    pub open spec fn discovery_asked(self) -> (ManagerView, Option<u32>) {
        if !self.waiting && self.to_discover > 0 {
            (ManagerView { to_discover: 0, waiting: true, ..self }, Some(self.to_discover))
        } else {
            (self, None)
        }
    }

    /// How many peers there are too few.
    pub open spec fn missing(self) -> int {
        self.target - self.engaged().len()
    }

    /// Whether the manager can be `later` once its heart has beaten, with `peers` to dial:
    /// what cannot be dialed is to be discovered.
    pub open spec fn beats(self, peers: Seq<PeerId>, later: ManagerView) -> bool {
        if self.missing() > 0 {
            exists|dialing: ManagerView| #[trigger]
                self.dials(self.missing() as nat, peers, dialing) && later == (ManagerView {
                    to_discover: (self.missing() - peers.len()) as u32,
                    ..dialing
                })
        } else {
            peers.len() == 0 && later == self
        }
    }

    /// Whether the manager knows enough of a peer to be told of an event.
    pub open spec fn expects(self, event: SwarmEvent) -> bool {
        match event {
            SwarmEvent::ConnectionEstablished { peer_id } => self.data.dom().contains(peer_id),
            SwarmEvent::ConnectionClosed { peer_id } => {
                &&& self.data.dom().contains(peer_id)
                &&& self.data[peer_id].history.len() > 0
            },
            SwarmEvent::DialFailure { peer: Some(peer_id) } => self.data.dom().contains(
                peer_id,
            ),
            _ => true,
        }
    }

    /// The manager once it has been told of an event.
    pub open spec fn told(self, event: SwarmEvent, now: u64) -> ManagerView {
        match event {
            SwarmEvent::ConnectionEstablished { peer_id } => self.connection_established(
                peer_id,
                now,
            ),
            SwarmEvent::ConnectionClosed { peer_id } => self.connection_closed(peer_id, now),
            SwarmEvent::DialFailure { peer: Some(peer_id) } => self.dial_failed(peer_id, now),
            _ => self,
        }
    }
}

impl PeerManager {
    /// Asks for more peers to be discovered, if there are too few and that has not been
    /// asked for before. Otherwise it depends on the heartbeat.
    pub fn poll(&mut self) -> (step: ManagerStep)
        requires
            old(self)@.wf(),
        ensures
            final(self)@.wf(),
            final(self)@ == old(self)@.discovery_asked().0,
            match old(self)@.discovery_asked().1 {
                Some(count) => step == ManagerStep::Ready(PeerManagerEvent::DiscoverPeers(count)),
                None => step is Heartbeat,
            },
    {
        if !self.waiting_for_peer_discovery && self.peers_to_discover > 0 {
            let event = PeerManagerEvent::DiscoverPeers(self.peers_to_discover);
            self.peers_to_discover = 0;
            self.waiting_for_peer_discovery = true;
            return ManagerStep::Ready(event);
        }
        ManagerStep::Heartbeat
    }

    /// Picks peers to dial, if the heart has beaten and there are too few. There must not be
    /// too many of them.
    #[verifier::spinoff_prover]
    pub fn heartbeat_polled(&mut self, ready: bool) -> (event: Option<PeerManagerEvent>)
        requires
            old(self)@.wf(),
            ready ==> old(self)@.missing() >= 0,
        ensures
            final(self)@.wf(),
            !ready ==> event is None && final(self)@ == old(self)@,
            ready ==> match event {
                None => old(self)@.beats(Seq::empty(), final(self)@),
                Some(PeerManagerEvent::DialPeers(peers)) => {
                    &&& peers@.len() > 0
                    &&& old(self)@.beats(peers@, final(self)@)
                },
                Some(PeerManagerEvent::DiscoverPeers(_)) => false,
            },
            ready ==> final(self)@.missing() >= 0,
    {
        if !ready {
            return None;
        }
        let engaged = self.connected_and_dialing_peers();
        let missing_peers: u32 = self.target_peer_number - engaged.len() as u32;
        if missing_peers > 0 {
            let peers_to_dial: Vec<PeerId> = self.get_peers_to_dial(missing_peers);
            let ghost dialing = self@;
            self.peers_to_discover = missing_peers - peers_to_dial.len() as u32;
            proof {
                lemma_beats(old(self)@, peers_to_dial@, dialing, self@);
                lemma_dials_stay_within_target(
                    old(self)@,
                    missing_peers as nat,
                    peers_to_dial@,
                    dialing,
                );
            }
            if peers_to_dial.len() > 0 {
                return Some(PeerManagerEvent::DialPeers(peers_to_dial));
            }
            assert(peers_to_dial@ =~= Seq::empty());
            return None;
        }
        assert(old(self)@.beats(Seq::empty(), self@));
        None
    }

    /// Whether more peers are connected or being dialed than the manager aims at.
    pub fn has_too_many_peers(&self) -> (too_many: bool)
        ensures
            too_many == (self@.missing() < 0),
    {
        self.connected_and_dialing_peers().len() > self.target_peer_number as usize
    }

    /// Whether the manager knows enough of a peer to be told of an event.
    pub fn expects(&self, event: &SwarmEvent) -> (expected: bool)
        ensures
            expected == self@.expects(*event),
    {
        let (peer_id, closed): (PeerId, bool) = match *event {
            SwarmEvent::ConnectionEstablished { peer_id } => (peer_id, false),
            SwarmEvent::ConnectionClosed { peer_id } => (peer_id, true),
            SwarmEvent::DialFailure { peer: Some(peer_id) } => (peer_id, false),
            _ => return true,
        };
        assert(self@.data.dom() =~= self.peer_data@.dom());
        match self.peer_data.get(&peer_id) {
            Some(data) => !closed || data.connection_history.len() > 0,
            None => false,
        }
    }

    /// Takes what the network tells.
    pub fn on_swarm_event(&mut self, event: SwarmEvent, now: u64)
        requires
            old(self)@.wf(),
            old(self)@.expects(event),
        ensures
            final(self)@.wf(),
            final(self)@ == old(self)@.told(event, now),
    {
        match event {
            SwarmEvent::ConnectionEstablished { peer_id } => self.on_connection_established(
                peer_id,
                now,
            ),
            SwarmEvent::ConnectionClosed { peer_id } => self.on_connection_closed(peer_id, now),
            SwarmEvent::DialFailure { peer } => self.on_dial_failure(peer, now),
            SwarmEvent::Other => {},
        }
    }
}

/// What a beat of the heart comes to when peers are missing.
proof fn lemma_beats(
    manager: ManagerView,
    peers: Seq<PeerId>,
    dialing: ManagerView,
    later: ManagerView,
)
    requires
        manager.missing() > 0,
        manager.dials(manager.missing() as nat, peers, dialing),
        later == (ManagerView {
            to_discover: (manager.missing() - peers.len()) as u32,
            ..dialing
        }),
    ensures
        manager.beats(peers, later),
{
}

/// Dialing the peers that are picked does not lead beyond the target.
#[verifier::spinoff_prover]
proof fn lemma_dials_stay_within_target(
    manager: ManagerView,
    missing: nat,
    peers: Seq<PeerId>,
    later: ManagerView,
)
    requires
        manager.dials(missing, peers, later),
        manager.engaged().finite(),
        manager.engaged().len() + missing <= manager.target,
    ensures
        peers.len() <= missing,
        later.engaged().len() <= later.target,
{
    let (again, fresh) = choose|again: Seq<PeerId>, fresh: Seq<PeerId>| #[trigger]
        manager.dials_split(missing, again, fresh, peers, later);
    vstd::seq_lib::seq_to_set_is_finite(peers);
    assert(later.engaged() =~= manager.engaged().union(peers.to_set()));
    peers.lemma_cardinality_of_set();
    vstd::set_lib::lemma_len_union(manager.engaged(), peers.to_set());
}

// Laws

/// While peers are being discovered, no more are asked for. That ends when some are found.
pub proof fn law_discovery_is_asked_for_once(manager: ManagerView, found: Seq<PeerId>)
    requires
        manager.discovery_asked().1 is Some,
    ensures
        manager.discovery_asked().0.waiting,
        forall|later: ManagerView| #[trigger] later.waiting ==> later.discovery_asked().1 is None,
        !manager.discovery_asked().0.peers_added(found).waiting,
{
}

/// Peers that are found are new, and those that are dialed are no longer.
pub proof fn law_new_peers_are_dialed_once(
    manager: ManagerView,
    found: Seq<PeerId>,
    missing: nat,
    peers: Seq<PeerId>,
    later: ManagerView,
    peer_id: PeerId,
)
    requires
        manager.peers_added(found).dials(missing, peers, later),
        later.new_peers.contains(peer_id),
    ensures
        manager.new_peers.contains(peer_id) || found.contains(peer_id),
        peers.contains(peer_id) ==> manager.peers_added(found).redialable_peers().contains(peer_id),
{
    let added = manager.peers_added(found);
    let (again, fresh) = choose|again: Seq<PeerId>, fresh: Seq<PeerId>| #[trigger]
        added.dials_split(missing, again, fresh, peers, later);
    if peers.contains(peer_id) {
        let k = peers.index_of(peer_id);
        if k >= again.len() {
            assert(fresh[k - again.len()] == peer_id);
            assert(fresh.to_set().contains(peer_id));
        } else {
            assert(added.redialable_peers().contains(again[k]));
        }
    }
}

/// Where no more peers may be dialed again than are wanted, all of them are.
pub proof fn law_all_are_redialed_if_few(
    manager: ManagerView,
    count: nat,
    peers: Seq<PeerId>,
    peer_id: PeerId,
)
    requires
        manager.wf(),
        manager.redials(count, peers),
        manager.redialable_peers().len() <= count,
        manager.redialable_peers().contains(peer_id),
    ensures
        peers.contains(peer_id),
{
    let eligible = manager.redialable_peers();
    assert(eligible.subset_of(manager.data.dom()));
    vstd::set_lib::lemma_len_subset(eligible, manager.data.dom());
    vstd::seq_lib::seq_to_set_is_finite(peers);
    assert(peers.to_set().subset_of(eligible)) by {
        assert forall|p: PeerId| peers.to_set().contains(p) implies eligible.contains(p) by {
            assert(peers[peers.index_of(p)] == p);
        }
    }
    peers.unique_seq_to_set();
    vstd::set_lib::lemma_subset_equality(peers.to_set(), eligible);
    assert(peers.to_set().contains(peer_id));
}

/// A peer whose connections lasted on average for just as long as is asked for may be dialed
/// again, once it is disconnected.
pub proof fn law_the_minimum_is_enough(data: PeerDataView)
    requires
        data.status is Disconnected || data.status is Failed,
        data.average == Some(MIN_AVERAGE_CONNECTION_DURATION),
    ensures
        data.redialable(),
{
}

/// A peer that gets connected counts as connected and no longer as being dialed, and one
/// that gets disconnected does not count as connected.
pub proof fn law_connections_are_counted(manager: ManagerView, peer_id: PeerId, now: u64, end: u64)
    requires
        manager.wf(),
        manager.data.dom().contains(peer_id),
    ensures
        manager.connection_established(peer_id, now).connected.contains(peer_id),
        !manager.connection_established(peer_id, now).dialing.contains(peer_id),
        manager.connection_established(peer_id, now).connection_closed(peer_id, end).connected
            == manager.connected.remove(peer_id),
{
    assert(manager.connected.insert(peer_id).remove(peer_id) =~= manager.connected.remove(peer_id));
}

/// A peer whose first connection is over has the time that it lasted as its average.
pub proof fn law_first_connection_sets_the_average(data: PeerDataView, from: u64, until: u64)
    requires
        data.average is None,
        from <= until,
    ensures
        data.established(from).closed(until).average == Some(
            ((until - from) / (NANOS_PER_MILLI as int)) as u64,
        ),
        data.established(from).closed(until).status is Disconnected,
{
    let history = data.established(from).history;
    assert(history.update(history.len() - 1, history.last()).last() == history.last());
}

/// No average is longer than the longest connection: it stays below any bound that the
/// average before and the last connection keep to.
pub proof fn law_average_is_bounded(data: PeerDataView, bound: u64)
    requires
        data.history.len() > 0,
        data.average matches Some(average) ==> average <= bound,
        data.last_duration() <= bound,
    ensures
        data.averaged().average matches Some(average) && average <= bound,
{
    if let Some(average) = data.average {
        assert(data.last_duration() >= 0);
        lemma_average_bound(
            average as int,
            data.history.len() as int,
            data.last_duration(),
            bound as int,
        );
    }
}

/// A failure to connect never raises the average.
pub proof fn law_failure_never_raises_the_average(data: PeerDataView, now: u64)
    ensures
        data.failed(now).score() <= data.score(),
{
    if let Some(average) = data.average {
        let count = data.history.len() + 1;
        lemma_average_bound(average as int, count as int, 0, average as int);
    }
}

/// What is known of a peer is the same for two managers.
pub open spec fn same_data(a: ManagerView, b: ManagerView, peer_id: PeerId) -> bool {
    &&& a.data.dom().contains(peer_id) == b.data.dom().contains(peer_id)
    &&& a.data.dom().contains(peer_id) ==> a.data[peer_id] == b.data[peer_id]
}

/// Whether a history has grown by one connection at its end.
pub open spec fn one_more_connection(
    before: Seq<ConnectionData>,
    after: Seq<ConnectionData>,
) -> bool {
    &&& after.len() == before.len() + 1
    &&& forall|i: int| 0 <= i < before.len() ==> #[trigger] after[i] == before[i]
}

/// A peer is engaged if it is connected or being dialed. The target is missed by as many peers
/// as it is larger than the number of engaged ones.
pub proof fn law_engaged_peers(manager: ManagerView, peer_id: PeerId)
    ensures
        manager.engaged().contains(peer_id) <==> manager.connected.contains(peer_id)
            || manager.dialing.contains(peer_id),
        manager.missing() + manager.engaged().len() == manager.target,
{
}

/// When dialing a peer has failed it is not being dialed any longer. Every other peer that is
/// being dialed still is, and nothing changes for the connected and the new ones.
pub proof fn law_failed_dial_is_over(manager: ManagerView, peer_id: PeerId, now: u64)
    ensures
        ({
            let after = manager.dial_failed(peer_id, now);
            &&& !after.dialing.contains(peer_id)
            &&& forall|other: PeerId|
                other != peer_id ==> (#[trigger] after.dialing.contains(other)
                    <==> manager.dialing.contains(other))
            &&& after.dialing == manager.dialing.remove(peer_id)
            &&& after.connected == manager.connected
            &&& after.new_peers == manager.new_peers
            &&& after.target == manager.target
            &&& after.to_discover == manager.to_discover
            &&& after.waiting == manager.waiting
            &&& forall|other: PeerId|
                other != peer_id ==> #[trigger] same_data(manager, after, other)
        }),
{
}

/// The failure of a dial goes into the history of its peer, as one that led to no connection.
pub proof fn law_failed_dial_is_noted(manager: ManagerView, peer_id: PeerId, now: u64)
    requires
        manager.data.dom().contains(peer_id),
    ensures
        ({
            let before = manager.data[peer_id];
            let after = manager.dial_failed(peer_id, now).data[peer_id];
            &&& manager.dial_failed(peer_id, now).data.dom().contains(peer_id)
            &&& after.status is Failed
            &&& one_more_connection(before.history, after.history)
            &&& after.history.last().failure_timestamp == Some(now)
            &&& after.history.last().established_timestamp is None
            &&& after.history.last().disconnect_timestamp is None
        }),
{
}

/// A connection that comes about ends the dialing of its peer and counts it as connected. Nothing
/// changes for other peers.
pub proof fn law_connection_ends_dialing(manager: ManagerView, peer_id: PeerId, now: u64)
    ensures
        ({
            let after = manager.connection_established(peer_id, now);
            &&& after.connected.contains(peer_id)
            &&& !after.dialing.contains(peer_id)
            &&& forall|other: PeerId|
                other != peer_id ==> (#[trigger] after.connected.contains(other)
                    <==> manager.connected.contains(other))
            &&& forall|other: PeerId|
                other != peer_id ==> (#[trigger] after.dialing.contains(other)
                    <==> manager.dialing.contains(other))
            &&& after.new_peers == manager.new_peers
            &&& after.target == manager.target
            &&& after.to_discover == manager.to_discover
            &&& after.waiting == manager.waiting
            &&& forall|other: PeerId|
                other != peer_id ==> #[trigger] same_data(manager, after, other)
        }),
{
}

/// A connection that comes about goes into the history of its peer, and leaves the average alone.
pub proof fn law_connection_is_noted(manager: ManagerView, peer_id: PeerId, now: u64)
    requires
        manager.data.dom().contains(peer_id),
    ensures
        ({
            let before = manager.data[peer_id];
            let after = manager.connection_established(peer_id, now).data[peer_id];
            &&& manager.connection_established(peer_id, now).data.dom().contains(peer_id)
            &&& after.status is Connected
            &&& after.average == before.average
            &&& one_more_connection(before.history, after.history)
            &&& after.history.last().established_timestamp == Some(now)
            &&& after.history.last().failure_timestamp is None
            &&& after.history.last().disconnect_timestamp is None
        }),
{
}

/// A connection that is closed no longer counts. Nothing changes for other peers, nor for
/// those that are being dialed or new.
pub proof fn law_closed_connection_is_over(manager: ManagerView, peer_id: PeerId, now: u64)
    ensures
        ({
            let after = manager.connection_closed(peer_id, now);
            &&& !after.connected.contains(peer_id)
            &&& forall|other: PeerId|
                other != peer_id ==> (#[trigger] after.connected.contains(other)
                    <==> manager.connected.contains(other))
            &&& after.dialing == manager.dialing
            &&& after.new_peers == manager.new_peers
            &&& after.target == manager.target
            &&& after.to_discover == manager.to_discover
            &&& after.waiting == manager.waiting
            &&& forall|other: PeerId|
                other != peer_id ==> #[trigger] same_data(manager, after, other)
        }),
{
}

/// The end of a connection is noted with the connection, which is the last in the history of
/// its peer. What is known of earlier ones stays.
pub proof fn law_closed_connection_is_noted(manager: ManagerView, peer_id: PeerId, now: u64)
    requires
        manager.data.dom().contains(peer_id),
        manager.data[peer_id].history.len() > 0,
    ensures
        ({
            let before = manager.data[peer_id];
            let after = manager.connection_closed(peer_id, now).data[peer_id];
            &&& manager.connection_closed(peer_id, now).data.dom().contains(peer_id)
            &&& after.status is Disconnected
            &&& after.history.len() == before.history.len()
            &&& forall|i: int|
                0 <= i < before.history.len() - 1 ==> #[trigger] after.history[i]
                    == before.history[i]
            &&& after.history.last().disconnect_timestamp == Some(now)
            &&& after.history.last().established_timestamp
                == before.history.last().established_timestamp
            &&& after.history.last().failure_timestamp == before.history.last().failure_timestamp
        }),
{
}

/// The time that a connection lasted, in whole milliseconds: it lasted for at least that many,
/// and for less than one more. A peer that could not be dialed had no connection that lasted.
pub proof fn law_duration_is_in_milliseconds(data: PeerDataView, from: u64, until: u64)
    requires
        from <= until,
    ensures
        ({
            let closed = data.established(from).closed(until);
            &&& closed.last_duration() * 1_000_000 <= until - from
            &&& until - from < (closed.last_duration() + 1) * 1_000_000
        }),
        data.failed(until).last_duration() == 0,
        data.established(until).closed(from).last_duration() == 0,
{
    let history = data.established(from).history;
    assert(history.update(history.len() - 1, history.last()).last() == history.last());
}

/// The average is that of all connections in the history, in whole milliseconds: as many times as
/// there are connections, it makes up what the average before made up for all but the last of
/// them and the time that the last one lasted, but for less than one for each connection.
pub proof fn law_average_is_that_of_all(data: PeerDataView)
    requires
        data.history.len() > 0,
        data.last_duration() <= u64::MAX,
    ensures
        ({
            let count = data.history.len() as int;
            let after = data.averaged();
            &&& after.history == data.history
            &&& after.status == data.status
            &&& after.average is Some
            &&& data.average is None ==> after.average->0 == data.last_duration()
            &&& data.average matches Some(average) ==> {
                let sum = average * (count - 1) + data.last_duration();
                &&& after.average->0 * count <= sum
                &&& sum < (after.average->0 + 1) * count
            }
        }),
{
    let count = data.history.len() as int;
    assert(data.last_duration() >= 0);
    if let Some(average) = data.average {
        let sum = average * (count - 1) + data.last_duration();
        lemma_average_bound(average as int, count, data.last_duration(), u64::MAX as int);
        let quotient = sum / count;
        assert(quotient * count <= sum < (quotient + 1) * count) by (nonlinear_arith)
            requires
                count > 0,
                quotient == sum / count,
        ;
    }
}

/// What goes into the average when a connection is closed, or could not be made, is the peer's
/// history with that connection.
pub proof fn law_last_connection_goes_into_the_average(data: PeerDataView, now: u64)
    requires
        data.history.len() > 0,
        data.average is Some,
    ensures
        ({
            let closed = data.closed(now);
            let count = data.history.len() as int;
            let sum = data.average->0 * (count - 1) + closed.last_duration();
            &&& closed.average is Some
            &&& closed.average->0 * count <= sum
            &&& sum < (closed.average->0 + 1) * count
        }),
        ({
            let failed = data.failed(now);
            let count = data.history.len() as int;
            &&& failed.average is Some
            &&& failed.average->0 * (count + 1) <= data.average->0 * count
            &&& data.average->0 * count < (failed.average->0 + 1) * (count + 1)
        }),
{
    let closed = PeerDataView { average: data.average, ..data.closed(now) };
    assert(closed.averaged() =~= data.closed(now));
    assert(closed.last_duration() <= u64::MAX);
    law_average_is_that_of_all(closed);
    let failed = PeerDataView { average: data.average, ..data.failed(now) };
    assert(failed.averaged() =~= data.failed(now));
    law_average_is_that_of_all(failed);
}

/// A peer is dialed again only while it has no connection, and only if its connections lasted
/// for the minimum on average. A peer that was never connected is not.
pub proof fn law_redialing_takes_the_minimum(data: PeerDataView)
    ensures
        data.redialable() <==> {
            &&& data.status is Failed || data.status is Disconnected
            &&& data.average matches Some(average) && average >= 5000
        },
{
}

/// Peers that are found are known, are new, and nothing is held for or against them. Nothing
/// changes for other peers, and peers may be looked for again.
pub proof fn law_found_peers_are_new(manager: ManagerView, found: Seq<PeerId>, peer_id: PeerId)
    ensures
        ({
            let after = manager.peers_added(found);
            &&& found.contains(peer_id) ==> {
                &&& after.new_peers.contains(peer_id)
                &&& after.data.dom().contains(peer_id)
                &&& after.data[peer_id].status is New
                &&& after.data[peer_id].history.len() == 0
                &&& after.data[peer_id].average is None
            }
            &&& !found.contains(peer_id) ==> {
                &&& after.new_peers.contains(peer_id) <==> manager.new_peers.contains(peer_id)
                &&& same_data(manager, after, peer_id)
            }
            &&& after.connected == manager.connected
            &&& after.dialing == manager.dialing
            &&& after.target == manager.target
            &&& after.to_discover == manager.to_discover
            &&& !after.waiting
        }),
{
}

/// A new peer that is being dialed is new no longer, and a connection that has neither come about
/// nor failed is in its history. Nothing changes for other peers.
pub proof fn law_dialed_peers_are_connecting(
    manager: ManagerView,
    dialed: Seq<PeerId>,
    peer_id: PeerId,
)
    requires
        manager.data.dom().contains(peer_id),
    ensures
        ({
            let after = manager.peers_connecting(dialed);
            &&& after.data.dom().contains(peer_id)
            &&& dialed.contains(peer_id) ==> {
                &&& !after.new_peers.contains(peer_id)
                &&& after.data[peer_id].status is Connecting
                &&& after.data[peer_id].average == manager.data[peer_id].average
                &&& one_more_connection(manager.data[peer_id].history, after.data[peer_id].history)
                &&& after.data[peer_id].history.last().established_timestamp is None
                &&& after.data[peer_id].history.last().failure_timestamp is None
                &&& after.data[peer_id].history.last().disconnect_timestamp is None
            }
            &&& !dialed.contains(peer_id) ==> {
                &&& after.new_peers.contains(peer_id) <==> manager.new_peers.contains(peer_id)
                &&& same_data(manager, after, peer_id)
            }
            &&& after.connected == manager.connected
            &&& after.dialing == manager.dialing
            &&& after.target == manager.target
            &&& after.to_discover == manager.to_discover
            &&& after.waiting == manager.waiting
        }),
{
}

/// The peers that are dialed again are among those that may be, each once, the one with the
/// longest average first; none that is left out has a longer average. As many are dialed as
/// are wanted, unless there are too few, and then all are.
pub proof fn law_best_peers_are_dialed_again(
    manager: ManagerView,
    count: nat,
    peers: Seq<PeerId>,
    i: int,
    other: PeerId,
)
    requires
        manager.wf(),
        manager.redials(count, peers),
        manager.data.dom().contains(other),
    ensures
        peers.len() <= count,
        0 <= i < peers.len() ==> {
            &&& manager.data.dom().contains(peers[i])
            &&& manager.data[peers[i]].redialable()
            &&& forall|j: int|
                i < j < peers.len() ==> #[trigger] peers[j] != peers[i]
                    && manager.data[peers[j]].average->0 <= manager.data[peers[i]].average->0
            &&& manager.data[other].redialable() && !peers.contains(other)
                ==> manager.data[other].average->0 <= manager.data[peers[i]].average->0
        },
        peers.len() < count && manager.data[other].redialable() ==> peers.contains(other),
{
    if manager.data[other].redialable() {
        assert(manager.redialable_peers().contains(other));
    }
    assert forall|j: int| 0 <= j < peers.len() implies manager.data[#[trigger] peers[j]].average
        is Some by {
        assert(manager.redialable_peers().contains(peers[j]));
    }
    if peers.len() < count && manager.data[other].redialable() {
        law_all_are_redialed_if_few(manager, count, peers, other);
    }
}

/// New peers that are dialed are new, each once. As many are dialed as are wanted, unless there
/// are too few, and then all are.
pub proof fn law_new_peers_are_dialed(
    manager: ManagerView,
    count: nat,
    peers: Seq<PeerId>,
    i: int,
    other: PeerId,
)
    requires
        manager.wf(),
        manager.new_dials(count, peers),
        manager.new_peers.contains(other),
    ensures
        peers.len() <= count,
        0 <= i < peers.len() ==> manager.new_peers.contains(peers[i]),
        forall|j: int| 0 <= i < j < peers.len() ==> #[trigger] peers[j] != peers[i],
        peers.len() < count ==> peers.contains(other),
{
    vstd::set_lib::lemma_len_subset(manager.new_peers, manager.data.dom());
    if peers.len() < count {
        vstd::seq_lib::seq_to_set_is_finite(peers);
        peers.unique_seq_to_set();
        assert(peers.to_set().subset_of(manager.new_peers)) by {
            assert forall|p: PeerId| peers.to_set().contains(p) implies manager.new_peers.contains(
                p,
            ) by {
                assert(peers[peers.index_of(p)] == p);
            }
        }
        vstd::set_lib::lemma_subset_equality(peers.to_set(), manager.new_peers);
        assert(peers.to_set().contains(other));
    }
}

/// Every peer that is picked is being dialed from then on, so that it is engaged; those that
/// were being dialed before still are, and no others. Who is connected stays the same.
pub proof fn law_picked_peers_are_being_dialed(
    manager: ManagerView,
    missing: nat,
    peers: Seq<PeerId>,
    later: ManagerView,
    peer_id: PeerId,
)
    requires
        manager.dials(missing, peers, later),
    ensures
        peers.contains(peer_id) ==> later.dialing.contains(peer_id),
        peers.contains(peer_id) ==> later.engaged().contains(peer_id),
        later.dialing.contains(peer_id) <==> peers.contains(peer_id) || manager.dialing.contains(
            peer_id,
        ),
        later.connected == manager.connected,
        later.target == manager.target,
        later.to_discover == manager.to_discover,
        later.waiting == manager.waiting,
{
}

/// With no event in between, as many fewer peers are missing as were picked and not engaged
/// before.
pub proof fn law_picked_peers_are_missing_no_longer(
    manager: ManagerView,
    missing: nat,
    peers: Seq<PeerId>,
    later: ManagerView,
)
    requires
        manager.dials(missing, peers, later),
        manager.engaged().finite(),
    ensures
        later.missing() == manager.missing() - peers.to_set().difference(manager.engaged()).len(),
{
    vstd::seq_lib::seq_to_set_is_finite(peers);
    let added = peers.to_set().difference(manager.engaged());
    assert(added.subset_of(peers.to_set()));
    vstd::set_lib::lemma_len_subset(added, peers.to_set());
    assert forall|p: PeerId| later.engaged().contains(p) <==> manager.engaged().union(
        added,
    ).contains(p) by {
        law_picked_peers_are_being_dialed(manager, missing, peers, later, p);
    }
    assert(later.engaged() =~= manager.engaged().union(added));
    vstd::set_lib::lemma_set_disjoint_lens(manager.engaged(), added);
}

/// Only peers that may be dialed again, and new ones, are picked, and no more than are wanted.
/// A new one is picked only if all that may be dialed again are. Fewer than are wanted are
/// picked only if none is left to be.
pub proof fn law_peers_are_picked_by_what_is_known(
    manager: ManagerView,
    missing: nat,
    peers: Seq<PeerId>,
    later: ManagerView,
    peer_id: PeerId,
    other: PeerId,
)
    requires
        manager.wf(),
        manager.dials(missing, peers, later),
        manager.data.dom().contains(other),
    ensures
        peers.len() <= missing,
        peers.contains(peer_id) ==> {
            &&& manager.data.dom().contains(peer_id)
            &&& manager.data[peer_id].redialable() || manager.new_peers.contains(peer_id)
            &&& !manager.data[peer_id].redialable() && manager.data[other].redialable()
                ==> peers.contains(other)
        },
        peers.len() < missing && (manager.data[other].redialable() || manager.new_peers.contains(
            other,
        )) ==> peers.contains(other),
{
    let (again, fresh) = choose|again: Seq<PeerId>, fresh: Seq<PeerId>| #[trigger]
        manager.dials_split(missing, again, fresh, peers, later);
    let eligible = manager.redialable_peers();
    assert(eligible.subset_of(manager.data.dom()));
    vstd::set_lib::lemma_len_subset(eligible, manager.data.dom());
    vstd::set_lib::lemma_len_subset(manager.new_peers, manager.data.dom());
    if peers.contains(peer_id) {
        let k = peers.index_of(peer_id);
        if k < again.len() {
            assert(eligible.contains(again[k]));
        } else {
            assert(manager.new_peers.contains(fresh[k - again.len()]));
        }
    }
    if manager.data[other].redialable() && (peers.len() < missing || (peers.contains(peer_id)
        && !manager.data[peer_id].redialable())) {
        assert(eligible.contains(other));
        assert(fresh.len() > 0 || again.len() < missing);
        law_all_are_redialed_if_few(manager, missing, again, other);
        let i = again.index_of(other);
        assert(peers[i] == other);
    }
    if peers.len() < missing && manager.new_peers.contains(other) {
        law_new_peers_are_dialed(
            manager,
            (missing - again.len()) as nat,
            fresh,
            0,
            other,
        );
        let i = fresh.index_of(other);
        assert(peers[again.len() + i] == other);
    }
}

/// What is known of a peer changes by picking only if it is new: it is then connecting. What is
/// known of one that is dialed again stays, and of one that is not picked.
pub proof fn law_picking_changes_new_peers_only(
    manager: ManagerView,
    missing: nat,
    peers: Seq<PeerId>,
    later: ManagerView,
    peer_id: PeerId,
)
    requires
        manager.wf(),
        manager.dials(missing, peers, later),
        manager.data.dom().contains(peer_id),
    ensures
        later.data.dom().contains(peer_id),
        !peers.contains(peer_id) ==> {
            &&& same_data(manager, later, peer_id)
            &&& later.new_peers.contains(peer_id) <==> manager.new_peers.contains(peer_id)
        },
        !manager.new_peers.contains(peer_id) ==> {
            &&& same_data(manager, later, peer_id)
            &&& !later.new_peers.contains(peer_id)
        },
        peers.contains(peer_id) && !manager.data[peer_id].redialable() ==> {
            &&& later.data[peer_id].status is Connecting
            &&& !later.new_peers.contains(peer_id)
            &&& one_more_connection(manager.data[peer_id].history, later.data[peer_id].history)
        },
{
    let (again, fresh) = choose|again: Seq<PeerId>, fresh: Seq<PeerId>| #[trigger]
        manager.dials_split(missing, again, fresh, peers, later);
    if fresh.contains(peer_id) {
        let i = fresh.index_of(peer_id);
        assert(peers[again.len() + i] == peer_id);
        assert(manager.new_peers.contains(fresh[i]));
    }
    if peers.contains(peer_id) && !manager.data[peer_id].redialable() {
        let k = peers.index_of(peer_id);
        if k < again.len() {
            assert(manager.redialable_peers().contains(again[k]));
        }
        assert(fresh[k - again.len()] == peer_id);
    }
}

/// When the heart beats, what is missing is either dialed or to be discovered. Where none is
/// missing nothing changes.
pub proof fn law_missing_peers_are_dialed_or_discovered(
    manager: ManagerView,
    peers: Seq<PeerId>,
    later: ManagerView,
    peer_id: PeerId,
)
    requires
        manager.wf(),
        manager.beats(peers, later),
    ensures
        manager.missing() > 0 ==> {
            &&& peers.len() + later.to_discover == manager.missing()
            &&& peers.contains(peer_id) ==> later.dialing.contains(peer_id)
            &&& later.dialing.contains(peer_id) ==> peers.contains(peer_id)
                || manager.dialing.contains(peer_id)
            &&& manager.dialing.contains(peer_id) ==> later.dialing.contains(peer_id)
            &&& later.connected == manager.connected
            &&& later.waiting == manager.waiting
            &&& later.target == manager.target
        },
        manager.missing() <= 0 ==> peers.len() == 0 && later == manager,
{
    if manager.missing() > 0 {
        let dialing = choose|dialing: ManagerView| #[trigger]
            manager.dials(manager.missing() as nat, peers, dialing) && later == (ManagerView {
                to_discover: (manager.missing() - peers.len()) as u32,
                ..dialing
            });
        law_picked_peers_are_being_dialed(
            manager,
            manager.missing() as nat,
            peers,
            dialing,
            peer_id,
        );
        let (again, fresh) = choose|again: Seq<PeerId>, fresh: Seq<PeerId>| #[trigger]
            manager.dials_split(manager.missing() as nat, again, fresh, peers, dialing);
        assert(peers.len() <= manager.missing());
    }
}

/// Peers are asked for if some are to be discovered and that has not been asked for before; it
/// is that many, and then none are left to be discovered. Otherwise nothing changes.
pub proof fn law_discovery_asks_for_what_is_missing(manager: ManagerView)
    ensures
        ({
            let (after, asked) = manager.discovery_asked();
            &&& asked is Some <==> manager.to_discover > 0 && !manager.waiting
            &&& asked matches Some(count) ==> {
                &&& count == manager.to_discover
                &&& after.to_discover == 0
                &&& after.waiting
                &&& after.connected == manager.connected
                &&& after.dialing == manager.dialing
                &&& after.new_peers == manager.new_peers
                &&& after.data == manager.data
                &&& after.target == manager.target
            }
            &&& asked is None ==> after == manager
        }),
{
}

/// What the manager is told changes just what it is about.
pub proof fn law_told_events_count(
    manager: ManagerView,
    event: SwarmEvent,
    now: u64,
    peer_id: PeerId,
)
    requires
        manager.wf(),
        manager.expects(event),
    ensures
        ({
            let after = manager.told(event, now);
            &&& event is Other ==> after == manager
            &&& event == (SwarmEvent::DialFailure { peer: None }) ==> after == manager
            &&& event == (SwarmEvent::DialFailure { peer: Some(peer_id) }) ==> {
                &&& !after.dialing.contains(peer_id)
                &&& after.connected == manager.connected
                &&& after.data[peer_id].status is Failed
            }
            &&& event == (SwarmEvent::ConnectionEstablished { peer_id }) ==> {
                &&& after.connected.contains(peer_id)
                &&& !after.dialing.contains(peer_id)
                &&& after.data[peer_id].status is Connected
            }
            &&& event == (SwarmEvent::ConnectionClosed { peer_id }) ==> {
                &&& !after.connected.contains(peer_id)
                &&& after.dialing == manager.dialing
                &&& after.data[peer_id].status is Disconnected
            }
            &&& after.new_peers == manager.new_peers
            &&& after.target == manager.target
            &&& after.to_discover == manager.to_discover
            &&& after.waiting == manager.waiting
        }),
{
}

/// A manager can be told of an event about a peer that it knows, and of the end of a connection
/// if there was one. It can always be told of what is about no peer.
pub proof fn law_known_peers_are_expected(manager: ManagerView, peer_id: PeerId)
    ensures
        manager.expects((SwarmEvent::ConnectionEstablished { peer_id }))
            <==> manager.data.dom().contains(peer_id),
        manager.expects((SwarmEvent::DialFailure { peer: Some(peer_id) }))
            <==> manager.data.dom().contains(peer_id),
        manager.expects((SwarmEvent::ConnectionClosed { peer_id }))
            <==> manager.data.dom().contains(peer_id) && manager.data[peer_id].history.len() > 0,
        manager.expects((SwarmEvent::DialFailure { peer: None })),
        manager.expects(SwarmEvent::Other),
{
}

/// A connection that is not known to have come about lasted no time, even if it is closed.
pub proof fn law_unknown_connection_lasted_no_time(data: PeerDataView, now: u64)
    requires
        data.history.len() > 0,
        data.history.last().established_timestamp is None,
    ensures
        data.closed(now).last_duration() == 0,
        data.closed(now).score() <= data.score(),
{
    if let Some(average) = data.average {
        lemma_average_bound(average as int, data.history.len() as int, 0, average as int);
    }
}

/// Something is known of every peer that is connected, being dialed or new.
pub proof fn law_something_is_known_of_every_peer(manager: ManagerView, peer_id: PeerId)
    requires
        manager.wf(),
    ensures
        manager.data.dom().finite(),
        manager.connected.contains(peer_id) ==> manager.data.dom().contains(peer_id),
        manager.dialing.contains(peer_id) ==> manager.data.dom().contains(peer_id),
        manager.new_peers.contains(peer_id) ==> manager.data.dom().contains(peer_id),
{
}

/// Puts the elements of one set into another.
fn extend(target: &mut HashSet<PeerId>, source: &HashSet<PeerId>)
    ensures
        final(target)@ == old(target)@.union(source@),
        source@.finite(),
{
    let elements: Vec<PeerId> = set_elements(source);
    let mut i: usize = 0;
    assert(target@ =~= old(target)@.union(elements@.take(0).to_set()));
    while i < elements.len()
        invariant
            i <= elements@.len(),
            target@ == old(target)@.union(elements@.take(i as int).to_set()),
        decreases elements@.len() - i,
    {
        target.insert(elements[i]);
        proof {
            let done = elements@.take(i as int);
            let more = elements@.take(i + 1);
            assert(more =~= done.push(elements@[i as int]));
            lemma_push_contains(done, elements@[i as int]);
            assert(target@ =~= old(target)@.union(more.to_set()));
        }
        i += 1;
    }
    assert(elements@.take(elements@.len() as int) =~= elements@);
}

/// The peers of a ranking, without their scores.
spec fn ranked_peers(ranked: Seq<(PeerId, u64)>) -> Seq<PeerId> {
    Seq::new(ranked.len(), |i: int| ranked[i].0)
}

/// Whether a ranking holds only peers out of `seen` that may be dialed again, with their
/// scores.
spec fn ranks_only(manager: ManagerView, seen: Seq<PeerId>, ranked: Seq<(PeerId, u64)>) -> bool {
    forall|i: int| #![trigger ranked[i]]
        0 <= i < ranked.len() ==> {
            &&& seen.contains(ranked[i].0)
            &&& manager.redialable_peers().contains(ranked[i].0)
            &&& ranked[i].1 == manager.data[ranked[i].0].score()
        }
}

/// Whether the scores of a ranking fall.
spec fn scores_fall(ranked: Seq<(PeerId, u64)>) -> bool {
    forall|i: int, j: int| 0 <= i < j < ranked.len() ==> ranked[i].1 >= ranked[j].1
}

/// Whether a ranking holds all of the peers `seen` that may be dialed again.
spec fn ranks_all(manager: ManagerView, seen: Seq<PeerId>, ranked: Seq<(PeerId, u64)>) -> bool {
    forall|p: PeerId|
        seen.contains(p) && #[trigger] manager.redialable_peers().contains(p) ==> ranked_peers(
            ranked,
        ).contains(p)
}

/// Whether `ranked` ranks those of the peers `seen` that may be dialed again.
spec fn ranking(manager: ManagerView, seen: Seq<PeerId>, ranked: Seq<(PeerId, u64)>) -> bool {
    &&& ranked_peers(ranked).no_duplicates()
    &&& ranks_only(manager, seen, ranked)
    &&& scores_fall(ranked)
    &&& ranks_all(manager, seen, ranked)
}

/// A peer that is listed is known, and seen in the view as what it is.
proof fn lemma_known_peer(table: Map<PeerId, PeerData>, known: Seq<PeerId>, i: int)
    requires
        lists(known, table.dom()),
        0 <= i < known.len(),
    ensures
        table.dom().contains(known[i]),
        table.map_values(|data: PeerData| data@).dom().contains(known[i]),
        table.map_values(|data: PeerData| data@)[known[i]] == table[known[i]]@,
{
    assert(known.to_set().contains(known[i]));
}

/// Whether `after` is `before` with an entry put in at a position.
spec fn put_in(
    before: Seq<(PeerId, u64)>,
    position: int,
    added: (PeerId, u64),
    after: Seq<(PeerId, u64)>,
) -> bool {
    &&& 0 <= position <= before.len()
    &&& after.len() == before.len() + 1
    &&& after[position] == added
    &&& forall|k: int| #![trigger after[k]] 0 <= k < position ==> after[k] == before[k]
    &&& forall|k: int| #![trigger after[k]]
        position < k < after.len() ==> after[k] == before[k - 1]
}

/// Where an entry of `before` stands once another one is put in.
proof fn lemma_moved(
    before: Seq<(PeerId, u64)>,
    position: int,
    added: (PeerId, u64),
    after: Seq<(PeerId, u64)>,
    k: int,
)
    requires
        put_in(before, position, added, after),
        0 <= k < before.len(),
    ensures
        k < position ==> after[k] == before[k],
        k >= position ==> after[k + 1] == before[k],
{
}

/// The peers of a ranking stay different when one that is not among them is put in.
#[verifier::spinoff_prover]
proof fn lemma_put_in_distinct(
    before: Seq<(PeerId, u64)>,
    position: int,
    added: (PeerId, u64),
    after: Seq<(PeerId, u64)>,
)
    requires
        put_in(before, position, added, after),
        ranked_peers(before).no_duplicates(),
        forall|k: int| 0 <= k < before.len() ==> (#[trigger] before[k]).0 != added.0,
    ensures
        ranked_peers(after).no_duplicates(),
{
    let old_peers = ranked_peers(before);
    let peers = ranked_peers(after);
    assert forall|a: int, b: int|
        0 <= a < peers.len() && 0 <= b < peers.len() && a != b implies peers[a] != peers[b] by {
        let a0 = if a < position { a } else { a - 1 };
        let b0 = if b < position { b } else { b - 1 };
        assert(a != position ==> after[a] == before[a0]);
        assert(b != position ==> after[b] == before[b0]);
        if a != position && b != position {
            assert(old_peers[a0] != old_peers[b0]);
        }
    }
}

/// The scores of a ranking still fall when an entry is put into its place.
#[verifier::spinoff_prover]
proof fn lemma_put_in_falls(
    before: Seq<(PeerId, u64)>,
    position: int,
    added: (PeerId, u64),
    after: Seq<(PeerId, u64)>,
)
    requires
        put_in(before, position, added, after),
        scores_fall(before),
        forall|k: int| 0 <= k < position ==> (#[trigger] before[k]).1 >= added.1,
        forall|k: int| position <= k < before.len() ==> (#[trigger] before[k]).1 < added.1,
    ensures
        scores_fall(after),
{
    assert forall|a: int, b: int| 0 <= a < b < after.len() implies after[a].1 >= after[b].1 by {
        let a0 = if a < position { a } else { a - 1 };
        let b0 = if b < position { b } else { b - 1 };
        assert(a != position ==> after[a] == before[a0]);
        assert(b != position ==> after[b] == before[b0]);
    }
}

/// The next peer is seen, and all that were seen before.
proof fn lemma_seen_grows(known: Seq<PeerId>, i: int)
    requires
        known.no_duplicates(),
        0 <= i < known.len(),
    ensures
        !known.take(i).contains(known[i]),
        forall|p: PeerId| #[trigger]
            known.take(i + 1).contains(p) <==> known.take(i).contains(p) || p == known[i],
{
    let seen = known.take(i);
    assert(known.take(i + 1) =~= seen.push(known[i]));
    lemma_push_contains(seen, known[i]);
    if seen.contains(known[i]) {
        let k = seen.index_of(known[i]);
        assert(known[k] == known[i]);
    }
}

/// A ranking stays one when the next peer is put into its place.
#[verifier::spinoff_prover]
proof fn lemma_ranking_grows(
    manager: ManagerView,
    known: Seq<PeerId>,
    i: int,
    before: Seq<(PeerId, u64)>,
    position: int,
    after: Seq<(PeerId, u64)>,
)
    requires
        known.no_duplicates(),
        0 <= i < known.len(),
        ranking(manager, known.take(i), before),
        manager.redialable_peers().contains(known[i]),
        0 <= position <= before.len(),
        forall|k: int|
            0 <= k < position ==> (#[trigger] before[k]).1 >= manager.data[known[i]].score(),
        forall|k: int|
            position <= k < before.len() ==> (#[trigger] before[k]).1
                < manager.data[known[i]].score(),
        after == before.insert(position, (known[i], manager.data[known[i]].score())),
    ensures
        ranking(manager, known.take(i + 1), after),
{
    let added = (known[i], manager.data[known[i]].score());
    before.insert_ensures(position, added);
    assert(put_in(before, position, added, after));
    lemma_seen_grows(known, i);
    lemma_put_in_distinct(before, position, added, after);
    lemma_put_in_falls(before, position, added, after);
    lemma_put_in_ranks_only(manager, known, i, before, position, after);
    lemma_put_in_ranks_all(manager, known, i, before, position, after);
}

/// A ranking still holds only what it should when the next peer is put in.
#[verifier::spinoff_prover]
proof fn lemma_put_in_ranks_only(
    manager: ManagerView,
    known: Seq<PeerId>,
    i: int,
    before: Seq<(PeerId, u64)>,
    position: int,
    after: Seq<(PeerId, u64)>,
)
    requires
        known.no_duplicates(),
        0 <= i < known.len(),
        ranks_only(manager, known.take(i), before),
        manager.redialable_peers().contains(known[i]),
        put_in(before, position, (known[i], manager.data[known[i]].score()), after),
    ensures
        ranks_only(manager, known.take(i + 1), after),
{
    lemma_seen_grows(known, i);
    assert forall|k: int| #![trigger after[k]] 0 <= k < after.len() implies {
        &&& known.take(i + 1).contains(after[k].0)
        &&& manager.redialable_peers().contains(after[k].0)
        &&& after[k].1 == manager.data[after[k].0].score()
    } by {
        if k < position {
            assert(after[k] == before[k]);
        } else if k > position {
            assert(after[k] == before[k - 1]);
        }
    }
}

/// A ranking still holds all that it should when the next peer is put in.
#[verifier::spinoff_prover]
proof fn lemma_put_in_ranks_all(
    manager: ManagerView,
    known: Seq<PeerId>,
    i: int,
    before: Seq<(PeerId, u64)>,
    position: int,
    after: Seq<(PeerId, u64)>,
)
    requires
        known.no_duplicates(),
        0 <= i < known.len(),
        ranks_all(manager, known.take(i), before),
        put_in(before, position, (known[i], manager.data[known[i]].score()), after),
    ensures
        ranks_all(manager, known.take(i + 1), after),
{
    lemma_seen_grows(known, i);
    let added = (known[i], manager.data[known[i]].score());
    let old_peers = ranked_peers(before);
    let peers = ranked_peers(after);
    assert forall|p: PeerId|
        known.take(i + 1).contains(p) && #[trigger] manager.redialable_peers().contains(
            p,
        ) implies peers.contains(p) by {
        if p == known[i] {
            assert(peers[position] == p);
        } else {
            assert(old_peers.contains(p));
            let k = old_peers.index_of(p);
            lemma_moved(before, position, added, after, k);
            let moved = if k < position { k } else { k + 1 };
            assert(peers[moved] == p);
        }
    }
}

/// A ranking stays one when the next peer may not be dialed again.
#[verifier::spinoff_prover]
proof fn lemma_ranking_skips(
    manager: ManagerView,
    known: Seq<PeerId>,
    i: int,
    ranked: Seq<(PeerId, u64)>,
)
    requires
        known.no_duplicates(),
        0 <= i < known.len(),
        ranking(manager, known.take(i), ranked),
        !manager.redialable_peers().contains(known[i]),
    ensures
        ranking(manager, known.take(i + 1), ranked),
{
    lemma_seen_grows(known, i);
}

/// The first peers of a ranking of all are those to dial again.
#[verifier::spinoff_prover]
proof fn lemma_best_of_ranking(
    manager: ManagerView,
    known: Seq<PeerId>,
    ranked: Seq<(PeerId, u64)>,
    count: nat,
    peers: Seq<PeerId>,
)
    requires
        lists(known, manager.data.dom()),
        ranking(manager, known, ranked),
        peers == ranked_peers(ranked).take(at_most(count, ranked.len()) as int),
    ensures
        manager.redials(count, peers),
{
    let all = ranked_peers(ranked);
    assert(all.to_set() =~= manager.redialable_peers()) by {
        assert forall|p: PeerId| manager.redialable_peers().contains(p) implies all.contains(p) by {
            assert(known.to_set().contains(p));
        }
        assert forall|p: PeerId| all.contains(p) implies manager.redialable_peers().contains(p) by {
            let k = all.index_of(p);
            assert(manager.redialable_peers().contains(ranked[k].0));
        }
    }
    all.unique_seq_to_set();
    assert forall|i: int| 0 <= i < peers.len() implies manager.redialable_peers().contains(
        #[trigger] peers[i],
    ) by {
        assert(peers[i] == ranked[i].0);
    }
    assert forall|i: int, j: int| 0 <= i < j < peers.len() implies manager.data[#[trigger] peers[i]].score()
        >= manager.data[#[trigger] peers[j]].score() by {
        assert(peers[i] == ranked[i].0);
        assert(peers[j] == ranked[j].0);
    }
    assert forall|i: int, p: PeerId|
        #![trigger peers[i], manager.redialable_peers().contains(p)]
        0 <= i < peers.len() && manager.redialable_peers().contains(p) && !peers.contains(
            p,
        ) implies manager.data[peers[i]].score() >= manager.data[p].score() by {
        assert(all.to_set().contains(p));
        let k = all.index_of(p);
        assert(peers[i] == ranked[i].0);
        assert(ranked[k].0 == p);
        if k < peers.len() {
            assert(peers[k] == p);
        }
    }
}

/// Where a score belongs in a ranking: behind all that are not smaller.
fn rank_of(ranked: &Vec<(PeerId, u64)>, score: u64) -> (position: usize)
    requires
        forall|i: int, j: int| 0 <= i < j < ranked@.len() ==> ranked@[i].1 >= ranked@[j].1,
    ensures
        position <= ranked@.len(),
        forall|i: int| 0 <= i < position ==> (#[trigger] ranked@[i]).1 >= score,
        forall|i: int| position <= i < ranked@.len() ==> (#[trigger] ranked@[i]).1 < score,
{
    let mut position: usize = 0;
    while position < ranked.len() && ranked[position].1 >= score
        invariant
            position <= ranked@.len(),
            forall|i: int| 0 <= i < position ==> (#[trigger] ranked@[i]).1 >= score,
        decreases ranked@.len() - position,
    {
        position += 1;
    }
    position
}

} // verus!
