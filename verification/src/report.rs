//! The account of connections that the node gives when it stops.

use crate::peer::PeerId;
use vstd::prelude::*;

verus! {

/// What happened to a connection.
#[derive(Debug, Clone)]
pub enum ConnectionEvent {
    Connected,
    /// It is gone, for this reason if one is known.
    Disconnected(Option<String>),
}

/// What happened to a connection, and when, in nanoseconds.
#[derive(Debug, Clone)]
pub struct TimedConnectionEvent {
    pub peer_id: PeerId,
    /// The endpoint of the connection.
    pub endpoint: String,
    /// How many connections there were to the same peer then.
    pub num_established: u32,
    pub event: ConnectionEvent,
    pub time: u64,
}

/// The account of a peer's connections.
#[derive(Debug)]
pub struct PeerReport {
    pub peer_id: PeerId,
    /// How long each connection lasted, in nanoseconds.
    pub durations: Vec<u64>,
    /// How long a connection lasted on average, in nanoseconds.
    pub average: u64,
    /// Whether the peer is connected.
    pub connected: bool,
    /// The endpoints of the connections.
    pub endpoints: Vec<String>,
}

/// The time from one moment to another, or none if that is not later.
pub open spec fn since(from: u64, until: u64) -> u64 {
    if until > from {
        (until - from) as u64
    } else {
        0
    }
}

/// When the connection to a peer began that the events end with, if they end with one, and how
/// long those before it lasted.
pub open spec fn connections(events: Seq<TimedConnectionEvent>, peer_id: PeerId) -> (
    Option<u64>,
    Seq<u64>,
)
    decreases events.len(),
{
    if events.len() == 0 {
        (None, Seq::empty())
    } else {
        let (connected, durations) = connections(events.drop_last(), peer_id);
        let event = events.last();
        if event.peer_id != peer_id {
            (connected, durations)
        } else {
            match event.event {
                ConnectionEvent::Connected => (Some(event.time), durations),
                ConnectionEvent::Disconnected(_) => (
                    None,
                    match connected {
                        Some(from) => durations.push(since(from, event.time)),
                        None => durations,
                    },
                ),
            }
        }
    }
}

/// How long each connection to a peer lasted, where one that is still there lasted until now.
pub open spec fn durations_until(
    events: Seq<TimedConnectionEvent>,
    peer_id: PeerId,
    now: u64,
) -> Seq<u64> {
    let (connected, durations) = connections(events, peer_id);
    match connected {
        Some(from) => durations.push(since(from, now)),
        None => durations,
    }
}

/// Whether a peer is connected after some events.
pub open spec fn is_connected(events: Seq<TimedConnectionEvent>, peer_id: PeerId) -> bool {
    connections(events, peer_id).0 is Some
}

/// The sum of some numbers.
pub open spec fn sum(numbers: Seq<u64>) -> nat
    decreases numbers.len(),
{
    if numbers.len() == 0 {
        0
    } else {
        sum(numbers.drop_last()) + numbers.last() as nat
    }
}

/// The average of some numbers, or zero if there are none.
pub open spec fn average(numbers: Seq<u64>) -> nat {
    if numbers.len() == 0 {
        0
    } else {
        sum(numbers) / numbers.len()
    }
}

/// Whether some events are about a peer.
pub open spec fn mentions(events: Seq<TimedConnectionEvent>, peer_id: PeerId) -> bool {
    exists|i: int| 0 <= i < events.len() && (#[trigger] events[i]).peer_id == peer_id
}

/// Whether some events are about an endpoint of a peer.
pub open spec fn mentions_endpoint(
    events: Seq<TimedConnectionEvent>,
    peer_id: PeerId,
    endpoint: Seq<char>,
) -> bool {
    exists|i: int|
        0 <= i < events.len() && (#[trigger] events[i]).peer_id == peer_id
            && events[i].endpoint@ == endpoint
}

/// The texts of some strings.
pub open spec fn texts(strings: Seq<String>) -> Seq<Seq<char>> {
    strings.map_values(|s: String| s@)
}

/// Whether `endpoints` are those of a peer in some events, each once.
pub open spec fn endpoints_listed(
    events: Seq<TimedConnectionEvent>,
    peer_id: PeerId,
    endpoints: Seq<String>,
) -> bool {
    &&& texts(endpoints).no_duplicates()
    &&& forall|e: Seq<char>| #[trigger]
        texts(endpoints).contains(e) <==> mentions_endpoint(events, peer_id, e)
}

/// Whether an entry is the account of its peer's connections.
pub open spec fn accounts_for(
    events: Seq<TimedConnectionEvent>,
    now: u64,
    report: PeerReport,
) -> bool {
    &&& report.durations@ == durations_until(events, report.peer_id, now)
    &&& report.average as nat == average(report.durations@)
    &&& report.connected == is_connected(events, report.peer_id)
    &&& endpoints_listed(events, report.peer_id, report.endpoints@)
}

/// The time from one moment to another, or none if that is not later.
fn elapsed(from: u64, until: u64) -> (nanos: u64)
    ensures
        nanos == since(from, until),
{
    if until > from {
        until - from
    } else {
        0
    }
}

/// How long each connection to a peer lasted, and whether it is connected.
pub fn connection_durations(events: &Vec<TimedConnectionEvent>, peer_id: PeerId, now: u64) -> (
result: (Vec<u64>, bool))
    ensures
        result.0@ == durations_until(events@, peer_id, now),
        result.1 == is_connected(events@, peer_id),
{
    let mut connected: Option<u64> = None;
    let mut durations: Vec<u64> = Vec::new();
    let mut i: usize = 0;
    while i < events.len()
        invariant
            i <= events@.len(),
            (connected, durations@) == connections(events@.take(i as int), peer_id),
        decreases events@.len() - i,
    {
        let event: &TimedConnectionEvent = &events[i];
        proof {
            assert(events@.take(i + 1).drop_last() =~= events@.take(i as int));
        }
        if event.peer_id == peer_id {
            match event.event {
                ConnectionEvent::Connected => {
                    connected = Some(event.time);
                },
                ConnectionEvent::Disconnected(_) => {
                    if let Some(from) = connected {
                        durations.push(elapsed(from, event.time));
                    }
                    connected = None;
                },
            }
        }
        i += 1;
    }
    assert(events@.take(events@.len() as int) =~= events@);
    match connected {
        Some(from) => {
            durations.push(elapsed(from, now));
            (durations, true)
        },
        None => (durations, false),
    }
}

/// A sum is at most as many times the largest number as there are numbers.
proof fn lemma_sum_bound(numbers: Seq<u64>)
    ensures
        sum(numbers) <= numbers.len() * u64::MAX,
    decreases numbers.len(),
{
    if numbers.len() > 0 {
        lemma_sum_bound(numbers.drop_last());
        assert((numbers.len() - 1) * u64::MAX + u64::MAX == numbers.len() * u64::MAX)
            by (nonlinear_arith);
    }
}

/// The average of some durations.
pub fn average_duration(durations: &Vec<u64>) -> (nanos: u64)
    ensures
        nanos as nat == average(durations@),
{
    if durations.len() == 0 {
        return 0;
    }
    let mut total: u128 = 0;
    let mut i: usize = 0;
    while i < durations.len()
        invariant
            i <= durations.len(),
            total as nat == sum(durations@.take(i as int)),
        decreases durations@.len() - i,
    {
        proof {
            assert(durations@.take(i + 1).drop_last() =~= durations@.take(i as int));
            lemma_sum_bound(durations@.take(i + 1));
            assert((i + 1) * u64::MAX <= u128::MAX) by (nonlinear_arith)
                requires
                    i + 1 <= u64::MAX,
            ;
        }
        total = total + durations[i] as u128;
        i += 1;
    }
    proof {
        assert(durations@.take(durations@.len() as int) =~= durations@);
        lemma_sum_bound(durations@);
        assert(total as nat / durations@.len() <= u64::MAX) by (nonlinear_arith)
            requires
                total as nat <= durations@.len() * u64::MAX,
                durations@.len() > 0,
        ;
    }
    (total / durations.len() as u128) as u64
}

/// Whether a text is among some strings.
fn contains_text(strings: &Vec<String>, text: &String) -> (contains: bool)
    ensures
        contains == texts(strings@).contains(text@),
{
    let mut i: usize = 0;
    while i < strings.len()
        invariant
            i <= strings@.len(),
            forall|j: int| 0 <= j < i ==> (#[trigger] strings@[j])@ != text@,
        decreases strings@.len() - i,
    {
        if strings[i] == *text {
            assert(texts(strings@)[i as int] == text@);
            return true;
        }
        i += 1;
    }
    proof {
        if texts(strings@).contains(text@) {
            let j = texts(strings@).index_of(text@);
            assert(strings@[j]@ == text@);
        }
    }
    false
}

/// The endpoints of a peer in some events, each once.
pub fn endpoints_of_peer(events: &Vec<TimedConnectionEvent>, peer_id: PeerId) -> (endpoints: Vec<
    String,
>)
    ensures
        endpoints_listed(events@, peer_id, endpoints@),
{
    let mut endpoints: Vec<String> = Vec::new();
    let mut i: usize = 0;
    while i < events.len()
        invariant
            i <= events@.len(),
            endpoints_listed(events@.take(i as int), peer_id, endpoints@),
        decreases events@.len() - i,
    {
        let event: &TimedConnectionEvent = &events[i];
        let ghost before = endpoints@;
        if event.peer_id == peer_id && !contains_text(&endpoints, &event.endpoint) {
            endpoints.push(event.endpoint.clone());
            assert(endpoints@.drop_last() =~= before);
        }
        proof {
            lemma_endpoint_listed(events@, i as int, peer_id, before, endpoints@);
        }
        i += 1;
    }
    assert(events@.take(events@.len() as int) =~= events@);
    endpoints
}

/// The account of the connections that some events are about: an entry for each peer.
pub fn report(events: &Vec<TimedConnectionEvent>, now: u64) -> (reports: Vec<PeerReport>)
    ensures
        forall|i: int|
            0 <= i < reports@.len() ==> accounts_for(events@, now, #[trigger] reports@[i]),
        forall|i: int, j: int|
            0 <= i < j < reports@.len() ==> (#[trigger] reports@[i]).peer_id != (
            #[trigger] reports@[j]).peer_id,
        forall|p: PeerId| #[trigger] mentions(events@, p) <==> has_entry(reports@, p),
{
    let mut reports: Vec<PeerReport> = Vec::new();
    let mut i: usize = 0;
    while i < events.len()
        invariant
            i <= events@.len(),
            forall|k: int|
                0 <= k < reports@.len() ==> accounts_for(events@, now, #[trigger] reports@[k]),
            forall|k: int, l: int|
                0 <= k < l < reports@.len() ==> (#[trigger] reports@[k]).peer_id != (
                #[trigger] reports@[l]).peer_id,
            forall|p: PeerId| #[trigger]
                mentions(events@.take(i as int), p) <==> has_entry(reports@, p),
        decreases events@.len() - i,
    {
        let peer_id: PeerId = events[i].peer_id;
        let ghost before = reports@;
        if !reported(&reports, peer_id) {
            let (durations, connected) = connection_durations(events, peer_id, now);
            reports.push(
                PeerReport {
                    peer_id,
                    average: average_duration(&durations),
                    durations,
                    connected,
                    endpoints: endpoints_of_peer(events, peer_id),
                },
            );
        }
        proof {
            let seen = events@.take(i as int);
            let more = events@.take(i + 1);
            assert forall|p: PeerId| #[trigger] mentions(more, p) <==> has_entry(reports@, p) by {
                lemma_mentions_next(events@, i as int, p);
                assert(mentions(seen, p) <==> has_entry(before, p));
                if has_entry(before, p) {
                    let k = choose|k: int|
                        0 <= k < before.len() && (#[trigger] before[k]).peer_id == p;
                    assert(reports@[k].peer_id == p);
                }
                if p == peer_id && !has_entry(before, p) {
                    assert(reports@[before.len() as int].peer_id == p);
                }
                if has_entry(reports@, p) {
                    let k = choose|k: int|
                        0 <= k < reports@.len() && (#[trigger] reports@[k]).peer_id == p;
                    if k < before.len() {
                        assert(before[k].peer_id == p);
                    }
                }
            }
        }
        i += 1;
    }
    assert(events@.take(events@.len() as int) =~= events@);
    reports
}

/// Whether there is an entry for a peer.
pub open spec fn has_entry(reports: Seq<PeerReport>, peer_id: PeerId) -> bool {
    exists|i: int| 0 <= i < reports.len() && (#[trigger] reports[i]).peer_id == peer_id
}

/// Whether there is an entry for a peer.
fn reported(reports: &Vec<PeerReport>, peer_id: PeerId) -> (found: bool)
    ensures
        found == has_entry(reports@, peer_id),
{
    let mut i: usize = 0;
    while i < reports.len()
        invariant
            i <= reports@.len(),
            forall|k: int| 0 <= k < i ==> (#[trigger] reports@[k]).peer_id != peer_id,
        decreases reports@.len() - i,
    {
        if reports[i].peer_id == peer_id {
            return true;
        }
        i += 1;
    }
    false
}

/// What the next event adds to the peers that come up.
proof fn lemma_mentions_next(events: Seq<TimedConnectionEvent>, i: int, peer_id: PeerId)
    requires
        0 <= i < events.len(),
    ensures
        mentions(events.take(i + 1), peer_id) <==> mentions(events.take(i), peer_id)
            || events[i].peer_id == peer_id,
{
    let seen = events.take(i);
    let more = events.take(i + 1);
    if mentions(seen, peer_id) {
        let k = choose|k: int| 0 <= k < seen.len() && (#[trigger] seen[k]).peer_id == peer_id;
        assert(more[k] == seen[k]);
    }
    if events[i].peer_id == peer_id {
        assert(more[i] == events[i]);
    }
    if mentions(more, peer_id) {
        let k = choose|k: int| 0 <= k < more.len() && (#[trigger] more[k]).peer_id == peer_id;
        if k < i {
            assert(seen[k] == more[k]);
        }
    }
}

/// Events about other peers change nothing in the account of a peer.
pub proof fn law_other_peers_do_not_matter(
    events: Seq<TimedConnectionEvent>,
    event: TimedConnectionEvent,
    peer_id: PeerId,
    now: u64,
)
    requires
        event.peer_id != peer_id,
    ensures
        durations_until(events.push(event), peer_id, now) == durations_until(events, peer_id, now),
        is_connected(events.push(event), peer_id) == is_connected(events, peer_id),
{
    assert(events.push(event).drop_last() =~= events);
}

/// A connection that comes and goes adds the time that it lasted, and leaves the peer
/// disconnected.
pub proof fn law_connection_adds_its_duration(
    events: Seq<TimedConnectionEvent>,
    begin: TimedConnectionEvent,
    end: TimedConnectionEvent,
    now: u64,
)
    requires
        begin.event is Connected,
        end.event is Disconnected,
        begin.peer_id == end.peer_id,
    ensures
        connections(events.push(begin).push(end), begin.peer_id) == (
            None::<u64>,
            connections(events, begin.peer_id).1.push(since(begin.time, end.time)),
        ),
        durations_until(events.push(begin).push(end), begin.peer_id, now) == connections(
            events,
            begin.peer_id,
        ).1.push(since(begin.time, end.time)),
{
    assert(events.push(begin).push(end).drop_last() =~= events.push(begin));
    assert(events.push(begin).drop_last() =~= events);
    reveal_with_fuel(connections, 3);
}

/// Endpoints stay listed when the next event is taken in.
proof fn lemma_endpoint_listed(
    events: Seq<TimedConnectionEvent>,
    i: int,
    peer_id: PeerId,
    before: Seq<String>,
    after: Seq<String>,
)
    requires
        0 <= i < events.len(),
        endpoints_listed(events.take(i), peer_id, before),
        if events[i].peer_id == peer_id && !texts(before).contains(events[i].endpoint@) {
            &&& after.len() == before.len() + 1
            &&& after.drop_last() == before
            &&& after.last()@ == events[i].endpoint@
        } else {
            after == before
        },
    ensures
        endpoints_listed(events.take(i + 1), peer_id, after),
{
    let seen = events.take(i);
    let more = events.take(i + 1);
    assert forall|e: Seq<char>| #[trigger]
        mentions_endpoint(more, peer_id, e) <==> mentions_endpoint(seen, peer_id, e) || (
        events[i].peer_id == peer_id && events[i].endpoint@ == e) by {
        if mentions_endpoint(seen, peer_id, e) {
            let k = choose|k: int|
                0 <= k < seen.len() && (#[trigger] seen[k]).peer_id == peer_id
                    && seen[k].endpoint@ == e;
            assert(more[k] == seen[k]);
        }
        if events[i].peer_id == peer_id && events[i].endpoint@ == e {
            assert(more[i] == events[i]);
        }
        if mentions_endpoint(more, peer_id, e) {
            let k = choose|k: int|
                0 <= k < more.len() && (#[trigger] more[k]).peer_id == peer_id
                    && more[k].endpoint@ == e;
            if k < i {
                assert(seen[k] == more[k]);
            }
        }
    }
    if after != before {
        let text = events[i].endpoint@;
        assert(texts(after) =~= texts(before).push(text));
        assert forall|e: Seq<char>| #[trigger]
            texts(after).contains(e) <==> texts(before).contains(e) || e == text by {
            if texts(before).contains(e) {
                let k = texts(before).index_of(e);
                assert(texts(after)[k] == e);
            }
            if e == text {
                assert(texts(after)[before.len() as int] == e);
            }
        }
    }
    assert forall|e: Seq<char>| #[trigger]
        texts(after).contains(e) <==> mentions_endpoint(more, peer_id, e) by {
        assert(texts(before).contains(e) <==> mentions_endpoint(seen, peer_id, e));
    }
}

/// A peer is connected if and only if the last event that is about it says so, and then since the
/// time of that event.
pub proof fn law_last_event_decides(
    events: Seq<TimedConnectionEvent>,
    peer_id: PeerId,
    i: int,
)
    requires
        0 <= i < events.len(),
        events[i].peer_id == peer_id,
        forall|j: int| i < j < events.len() ==> (#[trigger] events[j]).peer_id != peer_id,
    ensures
        is_connected(events, peer_id) <==> events[i].event is Connected,
        is_connected(events, peer_id) ==> connections(events, peer_id).0 == Some(events[i].time),
    decreases events.len(),
{
    if i < events.len() - 1 {
        let rest = events.drop_last();
        assert(rest[i] == events[i]);
        assert forall|j: int| i < j < rest.len() implies (#[trigger] rest[j]).peer_id
            != peer_id by {
            assert(rest[j] == events[j]);
        }
        law_last_event_decides(rest, peer_id, i);
        assert(events[events.len() - 1].peer_id != peer_id);
    }
}

/// A peer that no event is about is not connected, and had no connection.
pub proof fn law_unmentioned_peers_have_no_connections(
    events: Seq<TimedConnectionEvent>,
    peer_id: PeerId,
    now: u64,
)
    requires
        forall|i: int| 0 <= i < events.len() ==> (#[trigger] events[i]).peer_id != peer_id,
    ensures
        !is_connected(events, peer_id),
        durations_until(events, peer_id, now).len() == 0,
        connections(events, peer_id).1.len() == 0,
    decreases events.len(),
{
    if events.len() > 0 {
        let rest = events.drop_last();
        assert forall|j: int| 0 <= j < rest.len() implies (#[trigger] rest[j]).peer_id
            != peer_id by {
            assert(rest[j] == events[j]);
        }
        law_unmentioned_peers_have_no_connections(rest, peer_id, now);
        assert(events[events.len() - 1].peer_id != peer_id);
    }
}

/// What one more event does to the account of its peer. A connection that comes about makes no
/// connection of before longer, and one that is gone has lasted from when it came about. That a
/// connection is gone that never came about changes nothing.
pub proof fn law_one_more_event(
    events: Seq<TimedConnectionEvent>,
    event: TimedConnectionEvent,
)
    ensures
        ({
            let before = connections(events, event.peer_id);
            let after = connections(events.push(event), event.peer_id);
            &&& event.event is Connected ==> after.0 == Some(event.time) && after.1 == before.1
            &&& event.event is Disconnected ==> {
                &&& after.0 is None
                &&& before.0 is None ==> after.1 == before.1
                &&& before.0 matches Some(from) ==> {
                    &&& after.1.len() == before.1.len() + 1
                    &&& after.1.last() == (if event.time > from {
                        event.time - from
                    } else {
                        0
                    })
                    &&& forall|i: int|
                        0 <= i < before.1.len() ==> #[trigger] after.1[i] == before.1[i]
                }
            }
        }),
{
    assert(events.push(event).drop_last() =~= events);
}

/// A connection that is still there has lasted until now, and counts as the last one. The others
/// have lasted for as long as they did.
pub proof fn law_open_connection_lasts_until_now(
    events: Seq<TimedConnectionEvent>,
    peer_id: PeerId,
    now: u64,
)
    ensures
        ({
            let (connected, over) = connections(events, peer_id);
            let all = durations_until(events, peer_id, now);
            &&& forall|i: int| 0 <= i < over.len() ==> #[trigger] all[i] == over[i]
            &&& connected is None ==> all.len() == over.len()
            &&& connected matches Some(from) ==> {
                &&& all.len() == over.len() + 1
                &&& all.last() == (if now > from {
                    now - from
                } else {
                    0
                })
            }
        }),
{
}

/// The average of some numbers, as many times as there are numbers, is their sum but for less than
/// one for each of them. The sum of numbers that are put together is that of their sums.
pub proof fn law_average(numbers: Seq<u64>, more: Seq<u64>)
    ensures
        numbers.len() > 0 ==> {
            &&& average(numbers) * numbers.len() <= sum(numbers)
            &&& sum(numbers) < (average(numbers) + 1) * numbers.len()
        },
        numbers.len() == 0 ==> average(numbers) == 0,
        sum(numbers + more) == sum(numbers) + sum(more),
        numbers.len() == 1 ==> sum(numbers) == numbers[0],
    decreases more.len(),
{
    let count = numbers.len();
    if count > 0 {
        let total = sum(numbers);
        let quotient = total / count;
        assert(quotient * count <= total < (quotient + 1) * count) by (nonlinear_arith)
            requires
                count > 0,
                quotient == total / count,
        ;
    }
    if count == 1 {
        reveal_with_fuel(sum, 2);
    }
    if more.len() == 0 {
        assert(numbers + more =~= numbers);
    } else {
        assert((numbers + more).drop_last() =~= numbers + more.drop_last());
        law_average(numbers, more.drop_last());
    }
}

/// The entry of a peer lists each endpoint that an event about that peer names, once, and no
/// other.
pub proof fn law_endpoints_are_those_of_the_events(
    events: Seq<TimedConnectionEvent>,
    now: u64,
    report: PeerReport,
    i: int,
    k: int,
)
    requires
        accounts_for(events, now, report),
        0 <= i < events.len(),
    ensures
        events[i].peer_id == report.peer_id ==> exists|n: int|
            0 <= n < report.endpoints@.len() && (#[trigger] report.endpoints@[n])@
                == events[i].endpoint@,
        0 <= k < report.endpoints@.len() ==> {
            &&& exists|j: int|
                0 <= j < events.len() && (#[trigger] events[j]).peer_id == report.peer_id
                    && events[j].endpoint@ == report.endpoints@[k]@
            &&& forall|n: int|
                0 <= n < report.endpoints@.len() && n != k ==> (#[trigger] report.endpoints@[n])@
                    != report.endpoints@[k]@
        },
{
    let listed = texts(report.endpoints@);
    assert forall|n: int| 0 <= n < report.endpoints@.len() implies listed[n]
        == (#[trigger] report.endpoints@[n])@ by {}
    if events[i].peer_id == report.peer_id {
        assert(mentions_endpoint(events, report.peer_id, events[i].endpoint@));
        assert(listed.contains(events[i].endpoint@));
        let n = listed.index_of(events[i].endpoint@);
        assert(report.endpoints@[n]@ == events[i].endpoint@);
    }
    if 0 <= k < report.endpoints@.len() {
        assert(listed[k] == report.endpoints@[k]@);
        assert(listed.contains(report.endpoints@[k]@));
        assert forall|n: int| 0 <= n < report.endpoints@.len() && n != k implies (
        #[trigger] report.endpoints@[n])@ != report.endpoints@[k]@ by {
            assert(listed[n] == report.endpoints@[n]@);
        }
    }
}

/// The entry of a peer. It counts each connection that is over and one that is still there, gives
/// their average, and says that the peer is connected if the last event that is about it does.
pub proof fn law_entry_of_a_peer(
    events: Seq<TimedConnectionEvent>,
    now: u64,
    report: PeerReport,
    i: int,
)
    requires
        accounts_for(events, now, report),
        0 <= i < events.len(),
        events[i].peer_id == report.peer_id,
        forall|j: int| i < j < events.len() ==> (#[trigger] events[j]).peer_id != report.peer_id,
    ensures
        report.connected <==> events[i].event is Connected,
        report.connected ==> {
            &&& report.durations@.len() == connections(events, report.peer_id).1.len() + 1
            &&& report.durations@.last() == (if now > events[i].time {
                now - events[i].time
            } else {
                0
            })
        },
        !report.connected ==> report.durations@.len() == connections(
            events,
            report.peer_id,
        ).1.len(),
        forall|k: int|
            0 <= k < connections(events, report.peer_id).1.len() ==> #[trigger] report.durations@[k]
                == connections(events, report.peer_id).1[k],
        report.durations@.len() > 0 ==> {
            &&& report.average * report.durations@.len() <= sum(report.durations@)
            &&& sum(report.durations@) < (report.average + 1) * report.durations@.len()
        },
        report.durations@.len() == 0 ==> report.average == 0,
{
    law_last_event_decides(events, report.peer_id, i);
    law_open_connection_lasts_until_now(events, report.peer_id, now);
    law_average(report.durations@, Seq::empty());
}

/// Where the peers that events are about and those that have an entry are the same, the peer of
/// every event has an entry, and there is an event about the peer of every entry.
pub proof fn law_every_peer_has_an_entry(
    events: Seq<TimedConnectionEvent>,
    reports: Seq<PeerReport>,
    i: int,
    k: int,
)
    requires
        forall|p: PeerId| #[trigger] mentions(events, p) <==> has_entry(reports, p),
    ensures
        0 <= i < events.len() ==> exists|n: int|
            0 <= n < reports.len() && (#[trigger] reports[n]).peer_id == events[i].peer_id,
        0 <= k < reports.len() ==> exists|n: int|
            0 <= n < events.len() && (#[trigger] events[n]).peer_id == reports[k].peer_id,
{
    if 0 <= i < events.len() {
        assert(mentions(events, events[i].peer_id));
    }
    if 0 <= k < reports.len() {
        assert(has_entry(reports, reports[k].peer_id));
        assert(mentions(events, reports[k].peer_id));
    }
}

} // verus!
