//! Peers and connections, by number.

use crate::enr::{law_identities_differ, peer_id_bytes, EnrAsPeerId, NodeRecord};
use vstd::prelude::*;

verus! {

/// The number that stands for a peer.
pub type PeerId = u64;

/// The number that stands for a connection.
pub type ConnectionId = usize;

/// The peers that the node has come across. Each has a number: its place in the table.
pub struct PeerTable {
    identities: Vec<Vec<u8>>,
}

impl View for PeerTable {
    type V = Seq<Seq<u8>>;

    closed spec fn view(&self) -> Seq<Seq<u8>> {
        self.identities@.map_values(|identity: Vec<u8>| identity@)
    }
}

/// The table once a peer has a number. One that has a number keeps it.
pub open spec fn numbered(table: Seq<Seq<u8>>, identity: Seq<u8>) -> Seq<Seq<u8>> {
    if table.contains(identity) {
        table
    } else {
        table.push(identity)
    }
}

/// Whether every record is that of a node with an identity.
pub open spec fn all_identified(records: Seq<NodeRecord>) -> bool {
    forall|i: int|
        0 <= i < records.len() ==> peer_id_bytes((#[trigger] records[i]).public_key) is Some
}

/// The table once the nodes of some records have numbers.
pub open spec fn records_numbered(table: Seq<Seq<u8>>, records: Seq<NodeRecord>) -> Seq<Seq<u8>>
    decreases records.len(),
{
    if records.len() == 0 {
        table
    } else {
        numbered(
            records_numbered(table, records.drop_last()),
            peer_id_bytes(records.last().public_key)->0,
        )
    }
}

/// Whether a number is that of the node of a record.
pub open spec fn is_number_of(table: Seq<Seq<u8>>, number: PeerId, record: NodeRecord) -> bool {
    &&& number < table.len()
    &&& Some(table[number as int]) == peer_id_bytes(record.public_key)
}

/// Whether some bytes are the same as others.
fn same_bytes(a: &Vec<u8>, b: &Vec<u8>) -> (same: bool)
    ensures
        same == (a@ == b@),
{
    if a.len() != b.len() {
        return false;
    }
    let mut i: usize = 0;
    while i < a.len()
        invariant
            i <= a@.len(),
            a@.len() == b@.len(),
            forall|j: int| 0 <= j < i ==> a@[j] == b@[j],
        decreases a@.len() - i,
    {
        if a[i] != b[i] {
            return false;
        }
        i += 1;
    }
    assert(a@ =~= b@);
    true
}

impl PeerTable {
    /// A table without peers.
    pub fn new() -> (table: Self)
        ensures
            table@ == Seq::<Seq<u8>>::empty(),
    {
        let table = PeerTable { identities: Vec::new() };
        assert(table@ =~= Seq::<Seq<u8>>::empty());
        table
    }

    /// The number of a peer. One that has none yet gets the next one.
    pub fn number(&mut self, identity: Vec<u8>) -> (number: PeerId)
        requires
            old(self)@.no_duplicates(),
        ensures
            final(self)@.no_duplicates(),
            final(self)@ == numbered(old(self)@, identity@),
            number < final(self)@.len(),
            final(self)@[number as int] == identity@,
    {
        let mut i: usize = 0;
        while i < self.identities.len()
            invariant
                i <= self.identities@.len(),
                self@.no_duplicates(),
                self@ == old(self)@,
                forall|j: int| 0 <= j < i ==> self@[j] != identity@,
            decreases self.identities@.len() - i,
        {
            if same_bytes(&self.identities[i], &identity) {
                assert(self@[i as int] == identity@);
                return i as PeerId;
            }
            assert(self@[i as int] == self.identities@[i as int]@);
            i += 1;
        }
        let ghost bytes = identity@;
        self.identities.push(identity);
        assert(self@ =~= old(self)@.push(bytes));
        i as PeerId
    }

    /// The identity of the peer with a number, if there is one.
    pub fn identity(&self, number: PeerId) -> (identity: Option<&Vec<u8>>)
        ensures
            match identity {
                Some(bytes) => number < self@.len() && bytes@ == self@[number as int],
                None => number >= self@.len(),
            },
    {
        if number < self.identities.len() as u64 {
            Some(&self.identities[number as usize])
        } else {
            None
        }
    }

    /// The numbers of the nodes of some records. Where one of the nodes has no identity,
    /// there are none, and the table stays as it is.
    pub fn identify(&mut self, records: &Vec<NodeRecord>) -> (numbers: Option<Vec<PeerId>>)
        requires
            old(self)@.no_duplicates(),
        ensures
            final(self)@.no_duplicates(),
            match numbers {
                Some(numbers) => {
                    &&& all_identified(records@)
                    &&& final(self)@ == records_numbered(old(self)@, records@)
                    &&& numbers@.len() == records@.len()
                    &&& forall|i: int|
                        0 <= i < records@.len() ==> is_number_of(
                            final(self)@,
                            numbers@[i],
                            #[trigger] records@[i],
                        )
                },
                None => !all_identified(records@) && final(self)@ == old(self)@,
            },
    {
        let mut identities: Vec<Vec<u8>> = Vec::new();
        let mut i: usize = 0;
        while i < records.len()
            invariant
                i <= records@.len(),
                self@ == old(self)@,
                self@.no_duplicates(),
                identities@.len() == i,
                forall|j: int|
                    0 <= j < i ==> Some(identities@[j]@) == peer_id_bytes(
                        (#[trigger] records@[j]).public_key,
                    ),
            decreases records@.len() - i,
        {
            match records[i].as_peer_id() {
                Some(identity) => identities.push(identity),
                None => {
                    assert(peer_id_bytes(records@[i as int].public_key) is None);
                    return None;
                },
            }
            i += 1;
        }
        let mut numbers: Vec<PeerId> = Vec::new();
        let ghost all = identities@;
        while identities.len() > 0
            invariant
                self@.no_duplicates(),
                numbers@.len() <= records@.len(),
                all.len() == records@.len(),
                identities@ == all.skip(numbers@.len() as int),
                self@ == records_numbered(old(self)@, records@.take(numbers@.len() as int)),
                forall|j: int|
                    0 <= j < records@.len() ==> Some(all[j]@) == peer_id_bytes(
                        (#[trigger] records@[j]).public_key,
                    ),
                forall|j: int|
                    0 <= j < numbers@.len() ==> is_number_of(
                        self@,
                        numbers@[j],
                        #[trigger] records@[j],
                    ),
            decreases identities@.len(),
        {
            let identity = identities.remove(0);
            let ghost before = self@;
            numbers.push(self.number(identity));
            proof {
                let done = numbers@.len() as int;
                assert(records@.take(done).drop_last() =~= records@.take(done - 1));
                assert(identities@ =~= all.skip(done));
                assert forall|j: int| 0 <= j < done implies is_number_of(
                    self@,
                    numbers@[j],
                    #[trigger] records@[j],
                ) by {
                    if j < done - 1 {
                        assert(is_number_of(before, numbers@[j], records@[j]));
                    }
                }
            }
        }
        assert(records@.take(records@.len() as int) =~= records@);
        Some(numbers)
    }
}

/// A peer that has a number keeps it, whichever peers get numbers after it.
pub proof fn law_numbers_are_kept(table: Seq<Seq<u8>>, records: Seq<NodeRecord>)
    ensures
        table.is_prefix_of(records_numbered(table, records)),
    decreases records.len(),
{
    if records.len() > 0 {
        law_numbers_are_kept(table, records.drop_last());
        let before = records_numbered(table, records.drop_last());
        let after = records_numbered(table, records);
        assert(before =~= after.take(before.len() as int));
        assert(table =~= after.take(table.len() as int));
    }
}

/// Two records get the same number just when they are of the same node.
pub proof fn law_numbers_tell_nodes_apart(
    table: Seq<Seq<u8>>,
    a: NodeRecord,
    number_a: PeerId,
    b: NodeRecord,
    number_b: PeerId,
)
    requires
        table.no_duplicates(),
        is_number_of(table, number_a, a),
        is_number_of(table, number_b, b),
    ensures
        number_a == number_b <==> a.public_key == b.public_key,
{
    if number_a == number_b {
        law_identities_differ(a.public_key, b.public_key);
    }
}

/// A peer that is given a number is in the table from then on. All others keep theirs, and only
/// a peer that was not in the table makes it longer, by one.
pub proof fn law_number_is_given_once(table: Seq<Seq<u8>>, identity: Seq<u8>)
    requires
        table.no_duplicates(),
    ensures
        ({
            let after = numbered(table, identity);
            &&& after.contains(identity)
            &&& after.no_duplicates()
            &&& forall|i: int| 0 <= i < table.len() ==> #[trigger] after[i] == table[i]
            &&& table.contains(identity) ==> after.len() == table.len()
            &&& !table.contains(identity) ==> after.len() == table.len() + 1 && after.last()
                == identity
            &&& numbered(after, identity) == after
        }),
{
    let after = numbered(table, identity);
    if !table.contains(identity) {
        assert(after[table.len() as int] == identity);
    }
}

/// Once the nodes of some records have numbers, each of them has one, and the table holds no one
/// else but those that it held before.
pub proof fn law_each_node_gets_a_number(
    table: Seq<Seq<u8>>,
    records: Seq<NodeRecord>,
    i: int,
    n: int,
)
    requires
        table.no_duplicates(),
        all_identified(records),
        0 <= i < records.len(),
        0 <= n < records_numbered(table, records).len(),
    ensures
        ({
            let after = records_numbered(table, records);
            &&& after.no_duplicates()
            &&& exists|k: int|
                0 <= k < after.len() && Some(#[trigger] after[k]) == peer_id_bytes(
                    records[i].public_key,
                )
            &&& table.contains(after[n]) || exists|j: int|
                0 <= j < records.len() && peer_id_bytes((#[trigger] records[j]).public_key) == Some(
                    after[n],
                )
        }),
    decreases records.len(),
{
    let rest = records.drop_last();
    let before = records_numbered(table, rest);
    let after = records_numbered(table, records);
    let last = peer_id_bytes(records.last().public_key)->0;
    assert(peer_id_bytes(records[records.len() - 1].public_key) is Some);
    assert(all_identified(rest)) by {
        assert forall|j: int| 0 <= j < rest.len() implies peer_id_bytes(
            (#[trigger] rest[j]).public_key,
        ) is Some by {
            assert(rest[j] == records[j]);
        }
    }
    lemma_numbered_stays_unique(table, rest);
    law_number_is_given_once(before, last);
    if i == records.len() - 1 {
        let k = after.index_of(last);
        assert(Some(after[k]) == peer_id_bytes(records[i].public_key));
    } else {
        let first = if n < before.len() {
            n
        } else {
            0
        };
        if before.len() == 0 {
            lemma_numbered_is_not_empty(table, rest);
        }
        law_each_node_gets_a_number(table, rest, i, first);
        let k = choose|k: int|
            0 <= k < before.len() && Some(#[trigger] before[k]) == peer_id_bytes(
                rest[i].public_key,
            );
        assert(after[k] == before[k]);
        assert(rest[i] == records[i]);
    }
    if n < before.len() {
        assert(after[n] == before[n]);
        if rest.len() > 0 {
            law_each_node_gets_a_number(table, rest, 0, n);
            if !table.contains(after[n]) {
                let j = choose|j: int|
                    0 <= j < rest.len() && peer_id_bytes((#[trigger] rest[j]).public_key) == Some(
                        before[n],
                    );
                assert(records[j] == rest[j]);
            }
        }
    } else {
        assert(records[records.len() - 1] == records.last());
        assert(after[n] == last);
    }
}

/// Giving numbers keeps a table free of duplicates.
proof fn lemma_numbered_stays_unique(table: Seq<Seq<u8>>, records: Seq<NodeRecord>)
    requires
        table.no_duplicates(),
    ensures
        records_numbered(table, records).no_duplicates(),
    decreases records.len(),
{
    if records.len() > 0 {
        lemma_numbered_stays_unique(table, records.drop_last());
    }
}

/// A table in which a node was given a number is not empty.
proof fn lemma_numbered_is_not_empty(table: Seq<Seq<u8>>, records: Seq<NodeRecord>)
    requires
        records.len() > 0,
    ensures
        records_numbered(table, records).len() > 0,
{
}

} // verus!
