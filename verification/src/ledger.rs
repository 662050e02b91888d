//! The ledger: how many bytes were sent to each peer, and in all.
//!
//! There is one record for each peer that was ever credited. A record is made
//! by the first credit to its peer, only ever grows, and is never removed.

use crate::counts::{
    credit, credited, lemma_total_credit, lemma_total_remove, lemma_total_restrict_insert,
    lemma_total_restrict_le, total, Counts,
};
use crate::peer::{PeerAddress, PeerKey};
use std::collections::BTreeMap;
use vstd::prelude::*;
use vstd::std_specs::btree::spec_btree_map_iter;
use vstd::std_specs::iter::IteratorSpec;

verus! {

/// The record of one peer: the bytes sent to it so far.
#[derive(Debug, Clone, Copy)]
pub struct ClientResume {
    bytes_sent: u128,
}

impl View for ClientResume {
    type V = nat;

    closed spec fn view(&self) -> nat {
        self.bytes_sent as nat
    }
}

impl ClientResume {
    /// The bytes sent to the peer so far.
    pub fn bytes_sent(&self) -> (count: u128)
        ensures
            count == self@,
    {
        self.bytes_sent
    }
}

impl Default for ClientResume {
    /// The record of a peer to which nothing was sent yet.
    fn default() -> (record: Self)
        ensures
            record@ == 0,
    {
        ClientResume { bytes_sent: 0 }
    }
}

/// The counts that a table of records stands for.
spec fn counts_of(records: Map<PeerKey, ClientResume>) -> Counts {
    records.map_values(|record: ClientResume| record@)
}

proof fn lemma_counts_of_empty()
    ensures
        counts_of(Map::empty()) == Map::<PeerKey, nat>::empty(),
        total(counts_of(Map::empty())) == 0,
{
    assert(counts_of(Map::empty()) =~= Map::<PeerKey, nat>::empty());
}

proof fn lemma_counts_of_insert(
    records: Map<PeerKey, ClientResume>,
    key: PeerKey,
    record: ClientResume,
)
    ensures
        counts_of(records.insert(key, record)) == counts_of(records).insert(key, record@),
{
    assert(counts_of(records.insert(key, record)) =~= counts_of(records).insert(key, record@));
}

proof fn lemma_counts_of_dom(records: Map<PeerKey, ClientResume>)
    ensures
        counts_of(records).dom() == records.dom(),
{
    assert(counts_of(records).dom() =~= records.dom());
}

/// A point-in-time summary of a ledger.
#[derive(Debug, Clone, Copy, PartialEq, Eq, Structural)]
pub struct LedgerSnapshot {
    /// How many distinct peers have a record.
    pub peer_count: usize,
    /// The bytes sent to all of them together.
    pub total_bytes: u128,
}

/// The ledger of bytes sent, one record per peer.
///
/// The records are kept in the order of their keys, which are tuples of
/// integers. Beside them the ledger keeps the sum of all of them as it goes:
/// the sum always fits in a `u128`, so that a snapshot can always report it,
/// and whether one more credit fits is seen without a look at the records.
pub struct Resume {
    records: BTreeMap<PeerKey, ClientResume>,
    sum: u128,
}

impl View for Resume {
    type V = Counts;

    closed spec fn view(&self) -> Counts {
        counts_of(self.records@)
    }
}

impl Resume {
    #[verifier::type_invariant]
    spec fn sum_is_kept(&self) -> bool {
        self.sum == total(self@)
    }

    /// A ledger holds finitely many peers.
    pub proof fn lemma_finite(&self)
        ensures
            self@.dom().finite(),
    {
        lemma_counts_of_dom(self.records@);
    }

    /// The ledger in which no peer has a record.
    pub fn new() -> (ledger: Self)
        ensures
            ledger@ == Map::<PeerKey, nat>::empty(),
    {
        proof {
            lemma_counts_of_empty();
        }
        Resume { records: BTreeMap::new(), sum: 0 }
    }

    /// The record of the peer at `address`, if it was ever credited.
    pub fn get(&self, address: &PeerAddress) -> (record: Option<ClientResume>)
        ensures
            match record {
                Some(found) => self@.contains_key(address@) && found@ == self@[address@],
                None => !self@.contains_key(address@),
            },
    {
        let key = address.key();
        match self.records.get(&key) {
            Some(found) => Some(*found),
            None => None,
        }
    }

    /// How much more can be credited before the sum of the ledger leaves the
    /// range of a `u128`.
    pub fn headroom(&self) -> (room: u128)
        ensures
            room == u128::MAX - total(self@),
    {
        proof {
            use_type_invariant(self);
        }
        u128::MAX - self.sum
    }

    /// Adds `increment_amount` to the record of the peer at `address`; a peer
    /// without a record gets one that starts at zero. No other record changes,
    /// no record ever goes down, and no peer ever leaves the ledger.
    pub fn increment_address_by(&mut self, address: &PeerAddress, increment_amount: u128)
        requires
            total(old(self)@) + increment_amount <= u128::MAX,
        ensures
            final(self)@ == credit(old(self)@, address@, increment_amount as nat),
            forall|key: PeerKey| credited(final(self)@, key) >= credited(old(self)@, key),
            forall|key: PeerKey| old(self)@.contains_key(key) ==> final(self)@.contains_key(key),
            total(final(self)@) == total(old(self)@) + increment_amount,
    {
        let key = address.key();
        let current = match self.records.get(&key) {
            Some(found) => found.bytes_sent,
            None => 0,
        };
        proof {
            use_type_invariant(&*self);
            self.lemma_finite();
            if self@.contains_key(key) {
                lemma_total_remove(self@, key);
            }
            lemma_total_credit(self@, key, increment_amount as nat);
            lemma_counts_of_insert(
                self.records@,
                key,
                ClientResume { bytes_sent: (current + increment_amount) as u128 },
            );
        }
        // The ledger is taken apart while it changes, and put together again.
        let mut taken = Resume::new();
        std::mem::swap(self, &mut taken);
        let Resume { mut records, sum } = taken;
        records.insert(key, ClientResume { bytes_sent: current + increment_amount });
        *self = Resume { records, sum: sum + increment_amount };
    }

    /// Credits the peer as `increment_address_by` does where the sum of the
    /// ledger stays within a `u128`, and says so; leaves the ledger as it is
    /// where it would not.
    pub fn try_increment_address_by(&mut self, address: &PeerAddress, increment_amount: u128) -> (done:
        bool)
        ensures
            done == (total(old(self)@) + increment_amount <= u128::MAX),
            done ==> final(self)@ == credit(old(self)@, address@, increment_amount as nat),
            !done ==> final(self)@ == old(self)@,
            forall|key: PeerKey| credited(final(self)@, key) >= credited(old(self)@, key),
            forall|key: PeerKey| old(self)@.contains_key(key) ==> final(self)@.contains_key(key),
    {
        if increment_amount <= self.headroom() {
            self.increment_address_by(address, increment_amount);
            true
        } else {
            false
        }
    }

    /// The number of peers and the sum of their records, as of this instant.
    pub fn snapshot(&self) -> (taken: LedgerSnapshot)
        ensures
            taken.peer_count == self@.dom().len(),
            taken.total_bytes == total(self@),
    {
        proof {
            use_type_invariant(self);
            self.lemma_finite();
            lemma_counts_of_dom(self.records@);
            assert(self@.restrict(Set::empty()) =~= Map::<PeerKey, nat>::empty());
        }
        // The sum is taken from the records themselves, not from what is kept.
        let mut sum: u128 = 0;
        let ghost mut seen: Set<PeerKey> = Set::empty();
        for entry in iter: self.records.iter()
            invariant
                total(self@) <= u128::MAX,
                self@.dom().finite(),
                self@ == counts_of(self.records@),
                iter.seq() == spec_btree_map_iter(&self.records).remaining(),
                iter.seq().no_duplicates(),
                forall|key: PeerKey|
                    seen.contains(key) <==> exists|j: int|
                        0 <= j < iter.index() && *(#[trigger] iter.seq()[j]).0 == key,
                sum == total(self@.restrict(seen)),
        {
            let (key, record) = entry;
            proof {
                let at = iter.index();
                let pairs = iter.seq();
                assert(self.records@.contains_key(*pairs[at].0));
                assert(self.records@[*pairs[at].0] == *pairs[at].1);
                if seen.contains(*key) {
                    let j = choose|j: int| 0 <= j < at && *(#[trigger] pairs[j]).0 == *key;
                    assert(self.records@.contains_key(*pairs[j].0));
                    assert(self.records@[*pairs[j].0] == *pairs[j].1);
                    assert(pairs[j] == pairs[at]);
                }
                lemma_total_restrict_insert(self@, seen, *key);
                lemma_total_restrict_le(self@, seen.insert(*key));
                let ghost before = seen;
                seen = seen.insert(*key);
                assert forall|k: PeerKey| seen.contains(k) <==> exists|j: int|
                    0 <= j < at + 1 && *(#[trigger] pairs[j]).0 == k by {
                    if seen.contains(k) {
                        if k == *key {
                            assert(*pairs[at].0 == k);
                        } else {
                            let j = choose|j: int| 0 <= j < at && *(#[trigger] pairs[j]).0 == k;
                            assert(0 <= j < at + 1 && *pairs[j].0 == k);
                        }
                    }
                    if exists|j: int| 0 <= j < at + 1 && *(#[trigger] pairs[j]).0 == k {
                        let j = choose|j: int| 0 <= j < at + 1 && *(#[trigger] pairs[j]).0 == k;
                        if j < at {
                            assert(before.contains(k));
                        }
                    }
                }
            }
            sum = sum + record.bytes_sent;
        }
        proof {
            let pairs = spec_btree_map_iter(&self.records).remaining();
            assert forall|k: PeerKey| self@.dom().contains(k) implies seen.contains(k) by {
                assert(self.records@.contains_key(k));
                let pair = (&k, &self.records@[k]);
                assert(pairs.contains(pair));
                let j = choose|j: int| 0 <= j < pairs.len() && pairs[j] == pair;
                assert(*pairs[j].0 == k);
            }
            assert(self@.restrict(seen) =~= self@);
        }
        LedgerSnapshot { peer_count: self.records.len(), total_bytes: sum }
    }
}

impl Default for Resume {
    /// The ledger in which no peer has a record.
    fn default() -> (ledger: Self)
        ensures
            ledger@ == Map::<PeerKey, nat>::empty(),
    {
        Resume::new()
    }
}

} // verus!
