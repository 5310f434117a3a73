//! When to look for peers, and what is kept of those that are found.

use crate::chain::{
    fork_id_bytes, law_fork_id_bytes_injective, law_fork_id_layout, ForkId, FORK_ID_LEN,
};
use crate::collections::lemma_push_contains;
use crate::enr::{
    is_secp256k1_secret, keypair_public_key, public_key_of, secp256k1_identity,
    secp256k1_keypair_id, signing_key, CombinedKey, EnrForkId, NodeRecord,
};
use crate::peer::{all_identified, is_number_of, records_numbered, PeerId, PeerTable};
use crate::wire::copy_range;
use libp2p::{multiaddr::Protocol, Multiaddr};
use std::collections::HashMap;
use vstd::prelude::*;

verus! {

broadcast use vstd::std_specs::hash::group_hash_axioms;

/// Peers are looked for on the first of so many polls.
pub const POLLS_PER_QUERY: u64 = 100;

/// How many peers a query looks for.
pub const PEERS_PER_QUERY: usize = 16;

// Settings of the discovery service, times in seconds.

pub const DISCV5_REQUEST_TIMEOUT: u64 = 1;

pub const DISCV5_QUERY_PEER_TIMEOUT: u64 = 2;

pub const DISCV5_QUERY_TIMEOUT: u64 = 30;

pub const DISCV5_REQUEST_RETRIES: u8 = 1;

pub const DISCV5_ENR_PEER_UPDATE_MIN: usize = 10;

pub const DISCV5_QUERY_PARALLELISM: usize = 5;

pub const DISCV5_INCOMING_BUCKET_LIMIT: usize = 8;

pub const DISCV5_PING_INTERVAL: u64 = 300;

// Keys

/// A key pair of the network.
#[derive(Debug, Clone, Copy)]
pub enum Keypair {
    /// One of the secp256k1 curve, by its secret.
    Secp256k1([u8; 32]),
    /// One of another kind.
    Other,
}

/// The key that node records are signed with. It is that of the network, which must be of
/// the secp256k1 curve.
pub fn key_from_libp2p(key: &Keypair) -> (result: Result<CombinedKey, &'static str>)
    requires
        key matches Keypair::Secp256k1(secret) ==> is_secp256k1_secret(secret@),
    ensures
        match *key {
            Keypair::Secp256k1(secret) => {
                &&& result matches Ok(CombinedKey::Secp256k1(bytes))
                &&& bytes@ == secret@
            },
            Keypair::Other => result matches Err(reason) && reason@ == "pair not supported"@,
        },
{
    match key {
        Keypair::Secp256k1(secret) => {
            let bytes: [u8; 32] = signing_key(secret).unwrap();
            Ok(CombinedKey::Secp256k1(bytes))
        },
        Keypair::Other => Err("pair not supported"),
    }
}

/// The network identity of this node, by its key pair. Only that of the secp256k1 curve is
/// known.
pub fn local_peer_id(key: &Keypair) -> (id: Option<Vec<u8>>)
    requires
        key matches Keypair::Secp256k1(secret) ==> is_secp256k1_secret(secret@),
    ensures
        match *key {
            Keypair::Secp256k1(secret) => {
                &&& id matches Some(bytes)
                &&& bytes@ == secp256k1_identity(keypair_public_key(secret@))
                &&& bytes@ == secp256k1_identity(public_key_of(false, secret@))
            },
            Keypair::Other => id is None,
        },
{
    match key {
        Keypair::Secp256k1(secret) => Some(secp256k1_keypair_id(secret)),
        Keypair::Other => None,
    }
}

// Addresses

/// The bytes of the address of a TCP port of an IPv4 host.
pub open spec fn tcp_address(ip4: [u8; 4], tcp4: u16) -> Seq<u8> {
    seq![4u8] + ip4@ + seq![6u8, (tcp4 / 256) as u8, (tcp4 % 256) as u8]
}

/// Makes a `multiaddr::Multiaddr` of an IPv4 address and a TCP port, and takes its bytes:
/// the code of each protocol and its value, most significant byte first.
#[verifier::external_body]
fn multiaddr_bytes(ip4: [u8; 4], tcp4: u16) -> (bytes: Vec<u8>)
    ensures
        bytes@ == tcp_address(ip4, tcp4),
{
    let mut multiaddr = Multiaddr::empty();
    multiaddr.push(Protocol::Ip4(ip4.into()));
    multiaddr.push(Protocol::Tcp(tcp4));
    multiaddr.to_vec()
}

// State

/// Where the stream of the discovery service's events stands.
#[derive(Debug, Clone, Copy, PartialEq, Eq, Structural)]
pub enum EventStream {
    Present,
    InActive,
    Awaiting,
}

/// What is kept of peer discovery.
pub struct Discovery {
    event_stream: EventStream,
    multiaddr_map: HashMap<PeerId, Vec<u8>>,
    started: bool,
    poll_count: u64,
    peers_to_discover: usize,
}

/// What is kept of peer discovery, with addresses as sequences.
#[verifier::ext_equal]
pub struct DiscoveryView {
    /// Where the stream of events stands.
    pub event_stream: EventStream,
    /// The address of each peer that has one.
    pub addresses: Map<PeerId, Seq<u8>>,
    /// Whether peers have been looked for.
    pub started: bool,
    /// How many polls there were.
    pub poll_count: u64,
    /// How many more peers are wanted.
    pub to_discover: usize,
}

impl View for Discovery {
    type V = DiscoveryView;

    closed spec fn view(&self) -> DiscoveryView {
        DiscoveryView {
            event_stream: self.event_stream,
            addresses: self.multiaddr_map@.map_values(|address: Vec<u8>| address@),
            started: self.started,
            poll_count: self.poll_count,
            to_discover: self.peers_to_discover,
        }
    }
}

/// Peers that were found, none of which has been dialed yet.
#[derive(Debug, Clone)]
pub struct DiscoveredPeers {
    pub peers: HashMap<PeerId, Option<u64>>,
}

/// How a poll goes on.
#[derive(Debug, Clone, Copy, PartialEq, Eq, Structural)]
pub enum DiscoveryStep {
    /// Look for peers. The poll has ended with nothing to report.
    FindPeers,
    /// See what became of looking for peers, and call `peers_polled`.
    PollQueries,
    /// See whether the stream of events is there, and call `event_stream_polled`.
    AwaitEventStream,
    /// Take what events there are off the stream. The poll has ended.
    DrainEvents,
    /// The poll has ended with nothing to report.
    Pending,
}

/// What became of looking for peers.
#[derive(Debug)]
pub enum QueryProgress {
    /// No query has ended.
    Pending,
    /// A query failed.
    Failed,
    /// A query found peers with these records.
    Found(Vec<NodeRecord>),
}

/// What comes of looking for peers.
#[derive(Debug)]
pub enum QueryStep {
    /// Peers to report. The queries that are still under way are dropped.
    Discovered(DiscoveredPeers),
    /// How the poll goes on.
    Continue(DiscoveryStep),
}

/// How a poll goes on with the stream of events.
pub open spec fn stream_step(event_stream: EventStream) -> DiscoveryStep {
    match event_stream {
        EventStream::Awaiting => DiscoveryStep::AwaitEventStream,
        EventStream::Present => DiscoveryStep::DrainEvents,
        EventStream::InActive => DiscoveryStep::Pending,
    }
}

/// The address that a record gives, if it gives one.
pub open spec fn record_address(record: NodeRecord) -> Option<Seq<u8>> {
    match (record.ip4, record.tcp4) {
        (Some(ip4), Some(tcp4)) => Some(tcp_address(ip4, tcp4)),
        _ => None,
    }
}

/// The addresses that are known once the records of some peers have been read, one after
/// another.
pub open spec fn addresses_with(
    addresses: Map<PeerId, Seq<u8>>,
    peers: Seq<PeerId>,
    records: Seq<NodeRecord>,
) -> Map<PeerId, Seq<u8>>
    decreases records.len(),
{
    if records.len() == 0 {
        addresses
    } else {
        let before = addresses_with(addresses, peers.drop_last(), records.drop_last());
        match record_address(records.last()) {
            Some(address) => before.insert(peers.last(), address),
            None => before,
        }
    }
}

/// Whether some peers are those that some records are of, by the numbers in a table.
pub open spec fn peers_of_records(
    table: Seq<Seq<u8>>,
    peers: Seq<PeerId>,
    records: Seq<NodeRecord>,
) -> bool {
    &&& peers.len() == records.len()
    &&& forall|i: int|
        0 <= i < records.len() ==> is_number_of(table, peers[i], #[trigger] records[i])
}

/// Whether `found` are the peers of some records, and `later` is what is kept of them.
pub open spec fn peers_found(
    discovery: DiscoveryView,
    table: Seq<Seq<u8>>,
    records: Seq<NodeRecord>,
    later: DiscoveryView,
    found: Map<PeerId, Option<u64>>,
) -> bool {
    exists|peers: Seq<PeerId>| #[trigger]
        peers_of_records(table, peers, records) && found.dom() == peers.to_set() && later == (
        DiscoveryView {
            addresses: addresses_with(discovery.addresses, peers, records),
            ..discovery
        })
}

/// Whether a record is that of a peer to look for: one on the same fork that can be dialed.
pub open spec fn wanted(record: NodeRecord, fork_digest: Seq<u8>) -> bool {
    &&& record.eth2_field() matches Some(bytes) && bytes.len() == FORK_ID_LEN && bytes.take(4)
        == fork_digest
    &&& record.tcp4 is Some
}

/// Whether a record is that of a peer to look for.
pub fn is_wanted(record: &NodeRecord, fork_digest: [u8; 4]) -> (is: bool)
    ensures
        is == wanted(*record, fork_digest@),
{
    let same_fork = match record.fork_id() {
        Some(fork_id) => {
            proof {
                law_fork_id_bytes_injective(fork_id, fork_id);
                assert(fork_id_bytes(fork_id).take(4) =~= fork_id.fork_digest@);
            }
            same_digest(&fork_id.fork_digest, &fork_digest)
        },
        None => false,
    };
    same_fork && record.tcp4.is_some()
}

/// Whether two digests are the same.
fn same_digest(a: &[u8; 4], b: &[u8; 4]) -> (same: bool)
    ensures
        same == (a@ == b@),
{
    let same = a[0] == b[0] && a[1] == b[1] && a[2] == b[2] && a[3] == b[3];
    assert(same ==> a@ =~= b@);
    same
}

impl DiscoveryView {
    /// On the first of every hundred polls peers are looked for; on the others it depends on
    /// what became of that.
    pub open spec fn polled(self) -> (DiscoveryView, DiscoveryStep) {
        let counted = DiscoveryView { poll_count: (self.poll_count + 1) as u64, ..self };
        if (self.poll_count + 1) % (POLLS_PER_QUERY as int) == 1 {
            (DiscoveryView { started: true, ..counted }, DiscoveryStep::FindPeers)
        } else {
            (counted, DiscoveryStep::PollQueries)
        }
    }
}

impl Discovery {
    /// Discovery before the first poll.
    pub fn new() -> (discovery: Self)
        ensures
            discovery@ == (DiscoveryView {
                event_stream: EventStream::Awaiting,
                addresses: Map::empty(),
                started: false,
                poll_count: 0,
                to_discover: 0,
            }),
    {
        let discovery = Self {
            event_stream: EventStream::Awaiting,
            multiaddr_map: HashMap::new(),
            started: false,
            poll_count: 0,
            peers_to_discover: 0,
        };
        assert(discovery@.addresses =~= Map::<PeerId, Seq<u8>>::empty());
        discovery
    }

    /// How many polls there were.
    pub fn poll_count(&self) -> (count: u64)
        ensures
            count == self@.poll_count,
    {
        self.poll_count
    }

    /// Notes how many more peers are wanted. When they are looked for depends on the polls
    /// alone.
    pub fn set_peers_to_discover(&mut self, peers_to_discover: usize)
        ensures
            final(self)@ == (DiscoveryView { to_discover: peers_to_discover, ..old(self)@ }),
    {
        self.peers_to_discover = peers_to_discover;
    }

    /// How many more peers are wanted.
    pub fn peers_to_discover(&self) -> (count: usize)
        ensures
            count == self@.to_discover,
    {
        self.peers_to_discover
    }

    /// Starts a poll.
    pub fn poll(&mut self) -> (step: DiscoveryStep)
        requires
            old(self)@.poll_count < u64::MAX,
        ensures
            (final(self)@, step) == old(self)@.polled(),
    {
        self.poll_count += 1;
        if self.poll_count % POLLS_PER_QUERY == 1 {
            self.started = true;
            return DiscoveryStep::FindPeers;
        }
        DiscoveryStep::PollQueries
    }

    /// Goes on once it is known what became of looking for peers. Those that were found get
    /// their numbers from a table. Where a record is that of a node without an identity, this
    /// returns `None`, and everything stays as it is.
    pub fn peers_polled(&mut self, table: &mut PeerTable, progress: QueryProgress) -> (step: Option<
        QueryStep,
    >)
        requires
            old(table)@.no_duplicates(),
        ensures
            final(table)@.no_duplicates(),
            match progress {
                QueryProgress::Pending => {
                    &&& final(self)@ == old(self)@
                    &&& final(table)@ == old(table)@
                    &&& step == Some(QueryStep::Continue(stream_step(old(self)@.event_stream)))
                },
                QueryProgress::Failed => {
                    &&& final(self)@ == old(self)@
                    &&& final(table)@ == old(table)@
                    &&& step == Some(QueryStep::Continue(DiscoveryStep::PollQueries))
                },
                QueryProgress::Found(records) => if all_identified(records@) {
                    &&& final(table)@ == records_numbered(old(table)@, records@)
                    &&& step matches Some(QueryStep::Discovered(found))
                    &&& peers_found(
                        old(self)@,
                        final(table)@,
                        records@,
                        final(self)@,
                        found.peers@,
                    )
                    &&& forall|p: PeerId|
                        #[trigger] found.peers@.dom().contains(p) ==> found.peers@[p] is None
                } else {
                    &&& final(self)@ == old(self)@
                    &&& final(table)@ == old(table)@
                    &&& step is None
                },
            },
    {
        match progress {
            QueryProgress::Pending => Some(QueryStep::Continue(self.next_stream_step())),
            QueryProgress::Failed => Some(QueryStep::Continue(DiscoveryStep::PollQueries)),
            QueryProgress::Found(records) => match table.identify(&records) {
                Some(peers) => {
                    let found = self.get_peers(&peers, &records);
                    assert(peers_of_records(table@, peers@, records@));
                    Some(QueryStep::Discovered(found))
                },
                None => None,
            },
        }
    }

    /// How a poll goes on with the stream of events.
    fn next_stream_step(&self) -> (step: DiscoveryStep)
        ensures
            step == stream_step(self@.event_stream),
    {
        match self.event_stream {
            EventStream::Awaiting => DiscoveryStep::AwaitEventStream,
            EventStream::Present => DiscoveryStep::DrainEvents,
            EventStream::InActive => DiscoveryStep::Pending,
        }
    }

    /// Takes the peers that were found, and keeps the addresses that their records give.
    fn get_peers(&mut self, peer_ids: &Vec<PeerId>, records: &Vec<NodeRecord>) -> (found:
        DiscoveredPeers)
        requires
            peer_ids@.len() == records@.len(),
        ensures
            final(self)@ == (DiscoveryView {
                addresses: addresses_with(old(self)@.addresses, peer_ids@, records@),
                ..old(self)@
            }),
            found.peers@.dom() == peer_ids@.to_set(),
            forall|p: PeerId|
                #[trigger] found.peers@.dom().contains(p) ==> found.peers@[p] is None,
    {
        let mut peers: HashMap<PeerId, Option<u64>> = HashMap::new();
        let mut i: usize = 0;
        assert(peers@.dom() =~= peer_ids@.take(0).to_set());
        assert(self@ =~= (DiscoveryView {
            addresses: addresses_with(old(self)@.addresses, peer_ids@.take(0), records@.take(0)),
            ..old(self)@
        }));
        while i < records.len()
            invariant
                i <= records@.len(),
                peer_ids@.len() == records@.len(),
                self@ == (DiscoveryView {
                    addresses: addresses_with(
                        old(self)@.addresses,
                        peer_ids@.take(i as int),
                        records@.take(i as int),
                    ),
                    ..old(self)@
                }),
                peers@.dom() == peer_ids@.take(i as int).to_set(),
                forall|p: PeerId| #[trigger] peers@.dom().contains(p) ==> peers@[p] is None,
            decreases records@.len() - i,
        {
            let peer_id: PeerId = peer_ids[i];
            let record: &NodeRecord = &records[i];
            let ghost seen = peer_ids@.take(i as int);
            let ghost more = peer_ids@.take(i + 1);
            proof {
                assert(more =~= seen.push(peer_id));
                assert(more.drop_last() =~= seen);
                assert(records@.take(i + 1).drop_last() =~= records@.take(i as int));
                lemma_push_contains(seen, peer_id);
            }
            if let Some(ip4) = record.ip4 {
                if let Some(tcp4) = record.tcp4 {
                    let address: Vec<u8> = multiaddr_bytes(ip4, tcp4);
                    let ghost before = self.multiaddr_map@;
                    self.multiaddr_map.insert(peer_id, address);
                    proof {
                        let view = |address: Vec<u8>| address@;
                        assert(before.insert(peer_id, address).map_values(view)
                            =~= before.map_values(view).insert(peer_id, address@));
                    }
                }
            }
            peers.insert(peer_id, None);
            proof {
                assert(peers@.dom() =~= more.to_set());
                assert(self@ =~= (DiscoveryView {
                    addresses: addresses_with(
                        old(self)@.addresses,
                        more,
                        records@.take(i + 1),
                    ),
                    ..old(self)@
                }));
            }
            i += 1;
        }
        proof {
            assert(records@.take(records@.len() as int) =~= records@);
            assert(peer_ids@.take(peer_ids@.len() as int) =~= peer_ids@);
        }
        DiscoveredPeers { peers }
    }

    /// Notes whether the stream of events that was awaited is there.
    pub fn event_stream_polled(&mut self, ready: Option<bool>)
        requires
            old(self)@.event_stream is Awaiting,
        ensures
            final(self)@ == (DiscoveryView {
                event_stream: match ready {
                    None => EventStream::Awaiting,
                    Some(true) => EventStream::Present,
                    Some(false) => EventStream::InActive,
                },
                ..old(self)@
            }),
    {
        match ready {
            None => {},
            Some(true) => {
                self.event_stream = EventStream::Present;
            },
            Some(false) => {
                self.event_stream = EventStream::InActive;
            },
        }
    }

    /// The addresses of a peer: the one that is known, if there is one.
    pub fn addresses_of_peer(&self, peer_id: PeerId) -> (addresses: Vec<Vec<u8>>)
        ensures
            if self@.addresses.dom().contains(peer_id) {
                addresses@.len() == 1 && addresses@[0]@ == self@.addresses[peer_id]
            } else {
                addresses@.len() == 0
            },
    {
        let mut peer_address: Vec<Vec<u8>> = Vec::new();
        if let Some(address) = self.multiaddr_map.get(&peer_id) {
            peer_address.push(copy_range(address.as_slice(), 0, address.len()));
            assert(peer_address@[0]@ =~= address@);
        }
        peer_address
    }
}

// Laws

/// Peers are looked for on the first poll.
pub proof fn law_first_poll_looks_for_peers(discovery: DiscoveryView)
    requires
        discovery.poll_count == 0,
    ensures
        discovery.polled().1 is FindPeers,
        discovery.polled().0.started,
{
}

/// A peer whose record gives an address, and that no later record is for, can be dialed at
/// that address.
pub proof fn law_found_peers_have_their_address(
    addresses: Map<PeerId, Seq<u8>>,
    peers: Seq<PeerId>,
    records: Seq<NodeRecord>,
    i: int,
)
    requires
        peers.len() == records.len(),
        0 <= i < records.len(),
        record_address(records[i]) is Some,
        forall|j: int| i < j < peers.len() ==> #[trigger] peers[j] != peers[i],
    ensures
        addresses_with(addresses, peers, records).dom().contains(peers[i]),
        Some(addresses_with(addresses, peers, records)[peers[i]]) == record_address(records[i]),
    decreases records.len(),
{
    if i < records.len() - 1 {
        let rest = peers.drop_last();
        assert(rest[i] == peers[i]);
        assert(records.drop_last()[i] == records[i]);
        assert forall|j: int| i < j < rest.len() implies #[trigger] rest[j] != rest[i] by {
            assert(rest[j] == peers[j]);
        }
        law_found_peers_have_their_address(addresses, rest, records.drop_last(), i);
        assert(peers[peers.len() - 1] != peers[i]);
    }
}

/// Addresses that are known are kept: what is found can only replace them.
pub proof fn law_addresses_are_kept(
    addresses: Map<PeerId, Seq<u8>>,
    peers: Seq<PeerId>,
    records: Seq<NodeRecord>,
    peer_id: PeerId,
)
    requires
        addresses.dom().contains(peer_id),
    ensures
        addresses_with(addresses, peers, records).dom().contains(peer_id),
    decreases records.len(),
{
    if records.len() > 0 {
        law_addresses_are_kept(addresses, peers.drop_last(), records.drop_last(), peer_id);
    }
}

/// The addresses of peers that nothing was found of stay as they are.
pub proof fn law_other_addresses_stay(
    addresses: Map<PeerId, Seq<u8>>,
    peers: Seq<PeerId>,
    records: Seq<NodeRecord>,
    peer_id: PeerId,
)
    requires
        peers.len() == records.len(),
        !peers.contains(peer_id),
    ensures
        addresses_with(addresses, peers, records).dom().contains(peer_id)
            == addresses.dom().contains(peer_id),
        addresses_with(addresses, peers, records)[peer_id] == addresses[peer_id],
    decreases records.len(),
{
    if records.len() > 0 {
        let rest = peers.drop_last();
        assert(!rest.contains(peer_id)) by {
            if rest.contains(peer_id) {
                assert(peers[rest.index_of(peer_id)] == peer_id);
            }
        }
        assert(peers[peers.len() - 1] != peer_id);
        law_other_addresses_stay(addresses, rest, records.drop_last(), peer_id);
    }
}

/// Peers are looked for once in every hundred polls, from the first one on: polls that are a
/// hundred apart go on alike, and none of those in between looks for peers if these do.
pub proof fn law_one_poll_in_a_hundred_looks_for_peers(
    discovery: DiscoveryView,
    later: DiscoveryView,
)
    requires
        discovery.poll_count < later.poll_count < u64::MAX,
        later.poll_count <= discovery.poll_count + 100,
    ensures
        later.poll_count == discovery.poll_count + 100 ==> later.polled().1
            == discovery.polled().1,
        later.poll_count < discovery.poll_count + 100 && discovery.polled().1 is FindPeers
            ==> later.polled().1 is PollQueries,
        discovery.polled().1 is FindPeers <==> discovery.poll_count % 100 == 0,
        discovery.polled().1 is FindPeers || discovery.polled().1 is PollQueries,
{
}

/// A poll is counted, and that peers have been looked for is remembered. Nothing else changes.
pub proof fn law_polls_are_counted(discovery: DiscoveryView)
    requires
        discovery.poll_count < u64::MAX,
    ensures
        ({
            let (after, step) = discovery.polled();
            &&& after.poll_count == discovery.poll_count + 1
            &&& after.started == (discovery.started || step is FindPeers)
            &&& after.event_stream == discovery.event_stream
            &&& after.addresses == discovery.addresses
            &&& after.to_discover == discovery.to_discover
        }),
{
}

/// The stream of events is waited for until it is there, and read from then on, unless it is not
/// active.
pub proof fn law_stream_is_awaited_or_read(event_stream: EventStream)
    ensures
        event_stream is Awaiting <==> stream_step(event_stream) is AwaitEventStream,
        event_stream is Present <==> stream_step(event_stream) is DrainEvents,
        event_stream is InActive <==> stream_step(event_stream) is Pending,
{
}

/// A record gives an address if it has a host and a port. The address is the host behind a four,
/// and the port, most significant byte first, behind a six.
pub proof fn law_address_layout(record: NodeRecord)
    ensures
        record_address(record) is Some <==> record.ip4 is Some && record.tcp4 is Some,
        record_address(record) matches Some(address) ==> {
            &&& address.len() == 8
            &&& address[0] == 4
            &&& forall|i: int| 0 <= i < 4 ==> address[1 + i] == #[trigger] record.ip4->0@[i]
            &&& address[5] == 6
            &&& address[6] * 256 + address[7] == record.tcp4->0
        },
{
}

/// A peer is known by the last address that was found for it: records without one change nothing.
pub proof fn law_last_address_counts(
    addresses: Map<PeerId, Seq<u8>>,
    peers: Seq<PeerId>,
    records: Seq<NodeRecord>,
    i: int,
)
    requires
        peers.len() == records.len(),
        0 <= i < records.len(),
        record_address(records[i]) is Some,
        forall|j: int|
            i < j < peers.len() && #[trigger] peers[j] == peers[i] ==> record_address(records[j])
                is None,
    ensures
        addresses_with(addresses, peers, records).dom().contains(peers[i]),
        Some(addresses_with(addresses, peers, records)[peers[i]]) == record_address(records[i]),
    decreases records.len(),
{
    if i < records.len() - 1 {
        let rest = peers.drop_last();
        let before = records.drop_last();
        assert(rest[i] == peers[i]);
        assert(before[i] == records[i]);
        assert forall|j: int| i < j < rest.len() && #[trigger] rest[j] == rest[i] implies
            record_address(before[j]) is None by {
            assert(peers[j] == rest[j]);
        }
        law_last_address_counts(addresses, rest, before, i);
        assert(peers[peers.len() - 1] == peers.last());
    }
}

/// A peer that no record gives an address for keeps the one that it had, if it had one.
pub proof fn law_records_without_an_address_change_nothing(
    addresses: Map<PeerId, Seq<u8>>,
    peers: Seq<PeerId>,
    records: Seq<NodeRecord>,
    peer_id: PeerId,
)
    requires
        peers.len() == records.len(),
        forall|j: int|
            0 <= j < peers.len() && #[trigger] peers[j] == peer_id ==> record_address(records[j])
                is None,
    ensures
        addresses_with(addresses, peers, records).dom().contains(peer_id)
            <==> addresses.dom().contains(peer_id),
        addresses.dom().contains(peer_id) ==> addresses_with(addresses, peers, records)[peer_id]
            == addresses[peer_id],
    decreases records.len(),
{
    if records.len() > 0 {
        let rest = peers.drop_last();
        let before = records.drop_last();
        assert forall|j: int| 0 <= j < rest.len() && #[trigger] rest[j] == peer_id implies
            record_address(before[j]) is None by {
            assert(peers[j] == rest[j]);
        }
        law_records_without_an_address_change_nothing(addresses, rest, before, peer_id);
        assert(peers[peers.len() - 1] == peers.last());
    }
}

/// The peers that are found are those that the records are of, and no others. Nothing but
/// addresses changes by that.
pub proof fn law_found_peers_are_those_of_the_records(
    discovery: DiscoveryView,
    table: Seq<Seq<u8>>,
    records: Seq<NodeRecord>,
    later: DiscoveryView,
    found: Map<PeerId, Option<u64>>,
    peer_id: PeerId,
    i: int,
)
    requires
        peers_found(discovery, table, records, later, found),
    ensures
        found.dom().contains(peer_id) ==> exists|k: int|
            0 <= k < records.len() && is_number_of(table, peer_id, #[trigger] records[k]),
        0 <= i < records.len() ==> exists|p: PeerId|
            found.dom().contains(p) && #[trigger] is_number_of(table, p, records[i]),
        later.event_stream == discovery.event_stream,
        later.started == discovery.started,
        later.poll_count == discovery.poll_count,
        later.to_discover == discovery.to_discover,
{
    let peers = choose|peers: Seq<PeerId>| #[trigger]
        peers_of_records(table, peers, records) && found.dom() == peers.to_set() && later == (
        DiscoveryView {
            addresses: addresses_with(discovery.addresses, peers, records),
            ..discovery
        });
    if found.dom().contains(peer_id) {
        assert(peers.to_set().contains(peer_id));
        let k = peers.index_of(peer_id);
        assert(is_number_of(table, peer_id, records[k]));
    }
    if 0 <= i < records.len() {
        assert(is_number_of(table, peers[i], records[i]));
        assert(peers.to_set().contains(peers[i]));
    }
}

/// A record is that of a peer to look for if and only if it announces a fork identifier with the
/// same digest and a port to be dialed at. The next fork does not matter.
pub proof fn law_only_the_same_fork_is_wanted(
    record: NodeRecord,
    fork_id: ForkId,
    fork_digest: [u8; 4],
)
    ensures
        record.eth2_field() == Some(fork_id_bytes(fork_id)) ==> (wanted(record, fork_digest@) <==> (
        fork_id.fork_digest@ == fork_digest@ && record.tcp4 is Some)),
        record.eth2_field() is None ==> !wanted(record, fork_digest@),
        record.eth2_field() matches Some(bytes) ==> (bytes.len() != 16 ==> !wanted(
            record,
            fork_digest@,
        )),
{
    law_fork_id_layout(fork_id);
    assert(fork_id_bytes(fork_id).take(4) =~= fork_id.fork_digest@);
}

} // verus!
