//! The model of the ledger: a finite map from the key of each peer to the
//! number of bytes sent to it, and what credits do to such a map.
//!
//! A peer enters the map with its first credit and never leaves it. Credits
//! only add: to one record, and by the same amount to the sum of all.

use crate::peer::PeerKey;
use vstd::prelude::*;
use vstd::seq_lib::{to_multiset_contains, to_multiset_len, to_multiset_remove};

verus! {

/// The byte count of every peer that was ever credited.
pub type Counts = Map<PeerKey, nat>;

/// The count recorded for `key`: zero for a peer that was never credited.
pub open spec fn credited(counts: Counts, key: PeerKey) -> nat {
    if counts.contains_key(key) {
        counts[key]
    } else {
        0
    }
}

/// The counts after `amount` more bytes are credited to `key`. A peer without
/// a record gets one that starts at zero.
pub open spec fn credit(counts: Counts, key: PeerKey, amount: nat) -> Counts {
    counts.insert(key, credited(counts, key) + amount)
}

/// The sum of all counts of a finite ledger.
pub open spec fn total(counts: Counts) -> nat
    decreases counts.dom().len(),
    when counts.dom().finite()
    via total_decreases
{
    if counts.dom().len() == 0 {
        0
    } else {
        let key = counts.dom().choose();
        counts[key] + total(counts.remove(key))
    }
}

#[via_fn]
proof fn total_decreases(counts: Counts) {
    if counts.dom().len() != 0 {
        let key = counts.dom().choose();
        assert(counts.dom().contains(key)) by {
            if counts.dom().is_empty() {
                assert(counts.dom().len() == 0);
            }
        }
        counts.lemma_remove_key_len(key);
    }
}

/// The sum does not depend on the peer that is taken out first.
pub proof fn lemma_total_remove(counts: Counts, key: PeerKey)
    requires
        counts.dom().finite(),
        counts.contains_key(key),
    ensures
        total(counts) == counts[key] + total(counts.remove(key)),
    decreases counts.dom().len(),
{
    counts.lemma_remove_key_len(key);
    let chosen = counts.dom().choose();
    if chosen != key {
        counts.lemma_remove_key_len(chosen);
        lemma_total_remove(counts.remove(chosen), key);
        lemma_total_remove(counts.remove(key), chosen);
        assert(counts.remove(chosen).remove(key) =~= counts.remove(key).remove(chosen));
    }
}

/// A credit raises the sum by exactly its amount, whoever receives it.
pub proof fn lemma_total_credit(counts: Counts, key: PeerKey, amount: nat)
    requires
        counts.dom().finite(),
    ensures
        total(credit(counts, key, amount)) == total(counts) + amount,
{
    let after = credit(counts, key, amount);
    lemma_total_remove(after, key);
    if counts.contains_key(key) {
        lemma_total_remove(counts, key);
        assert(after.remove(key) =~= counts.remove(key));
    } else {
        assert(after.remove(key) =~= counts);
    }
}

/// No record ever goes down, and no peer ever leaves the ledger.
pub proof fn lemma_credit_never_lowers(counts: Counts, key: PeerKey, amount: nat)
    ensures
        forall|other: PeerKey| credited(credit(counts, key, amount), other) >= credited(counts, other),
        counts.dom().subset_of(credit(counts, key, amount).dom()),
{
}

/// A credit to one peer changes the record of no other peer, nor makes one.
pub proof fn lemma_credit_leaves_others(counts: Counts, key: PeerKey, amount: nat, other: PeerKey)
    requires
        other != key,
    ensures
        credit(counts, key, amount).contains_key(other) == counts.contains_key(other),
        credited(credit(counts, key, amount), other) == credited(counts, other),
{
}

/// Two credits may arrive in either order: the ledger ends up the same.
pub proof fn lemma_credits_commute(counts: Counts, a: PeerKey, x: nat, b: PeerKey, y: nat)
    ensures
        credit(credit(counts, a, x), b, y) == credit(credit(counts, b, y), a, x),
{
    assert(credit(credit(counts, a, x), b, y) =~= credit(credit(counts, b, y), a, x));
}

/// Two credits to one peer are worth one credit of their sum.
pub proof fn lemma_credits_add_up(counts: Counts, key: PeerKey, x: nat, y: nat)
    ensures
        credit(credit(counts, key, x), key, y) == credit(counts, key, x + y),
{
    assert(credit(credit(counts, key, x), key, y) =~= credit(counts, key, x + y));
}

/// The counts after `times` credits of `amount` each to `key`.
pub open spec fn credit_times(counts: Counts, key: PeerKey, amount: nat, times: nat) -> Counts
    decreases times,
{
    if times == 0 {
        counts
    } else {
        credit(credit_times(counts, key, amount, (times - 1) as nat), key, amount)
    }
}

/// However many credits of one amount reach one peer, none is lost: its record
/// grows by the amount times their number, so from zero it ends at exactly
/// that product. No other record changes.
pub proof fn lemma_credit_times(counts: Counts, key: PeerKey, amount: nat, times: nat)
    ensures
        credited(credit_times(counts, key, amount, times), key) == credited(counts, key) + times
            * amount,
        !counts.contains_key(key) ==> credited(credit_times(counts, key, amount, times), key)
            == times * amount,
        forall|other: PeerKey|
            other != key ==> credited(credit_times(counts, key, amount, times), other) == credited(
                counts,
                other,
            ),
    decreases times,
{
    if times > 0 {
        lemma_credit_times(counts, key, amount, (times - 1) as nat);
        assert((times - 1) * amount + amount == times * amount) by (nonlinear_arith);
    } else {
        assert(0 * amount == 0) by (nonlinear_arith);
    }
}

/// The counts after each credit of `credits` was made, the first one first.
pub open spec fn credit_all(counts: Counts, credits: Seq<(PeerKey, nat)>) -> Counts
    decreases credits.len(),
{
    if credits.len() == 0 {
        counts
    } else {
        credit(credit_all(counts, credits.drop_last()), credits.last().0, credits.last().1)
    }
}

/// The peers that receive a credit of `credits`.
pub open spec fn credited_peers(credits: Seq<(PeerKey, nat)>) -> Set<PeerKey> {
    Set::new(|key: PeerKey| exists|i: int| 0 <= i < credits.len() && (#[trigger] credits[i]).0 == key)
}

/// The sum of the credits of `credits` that go to `key`.
pub open spec fn sum_credited_to(credits: Seq<(PeerKey, nat)>, key: PeerKey) -> nat
    decreases credits.len(),
{
    if credits.len() == 0 {
        0
    } else {
        sum_credited_to(credits.drop_last(), key) + share_of(credits.last(), key)
    }
}

/// The sum of all credits of `credits`.
pub open spec fn sum_credited(credits: Seq<(PeerKey, nat)>) -> nat
    decreases credits.len(),
{
    if credits.len() == 0 {
        0
    } else {
        sum_credited(credits.drop_last()) + credits.last().1
    }
}

/// After any credits, in any order and to any peers: the ledger holds the
/// peers it held and those that were credited, and no others; each record has
/// grown by exactly the sum of the credits to its peer; and the sum of the
/// ledger has grown by the sum of all credits.
pub proof fn lemma_credit_all(counts: Counts, credits: Seq<(PeerKey, nat)>)
    requires
        counts.dom().finite(),
    ensures
        credit_all(counts, credits).dom() == counts.dom().union(credited_peers(credits)),
        credit_all(counts, credits).dom().finite(),
        forall|key: PeerKey|
            credited(credit_all(counts, credits), key) == credited(counts, key) + sum_credited_to(
                credits,
                key,
            ),
        total(credit_all(counts, credits)) == total(counts) + sum_credited(credits),
    decreases credits.len(),
{
    if credits.len() == 0 {
        assert(credit_all(counts, credits).dom() =~= counts.dom().union(credited_peers(credits)));
    } else {
        let earlier = credits.drop_last();
        let last = credits.last();
        lemma_credit_all(counts, earlier);
        lemma_total_credit(credit_all(counts, earlier), last.0, last.1);
        assert forall|key: PeerKey|
            credited_peers(credits).contains(key) <==> (credited_peers(earlier).contains(key) || key
                == last.0) by {
            if credited_peers(earlier).contains(key) {
                let i = choose|i: int| 0 <= i < earlier.len() && (#[trigger] earlier[i]).0 == key;
                assert(credits[i].0 == key);
            }
            if key == last.0 {
                assert(credits[credits.len() - 1].0 == key);
            }
            if credited_peers(credits).contains(key) {
                let i = choose|i: int| 0 <= i < credits.len() && (#[trigger] credits[i]).0 == key;
                if i < earlier.len() {
                    assert(earlier[i].0 == key);
                }
            }
        }
        assert(credit_all(counts, credits).dom() =~= counts.dom().union(credited_peers(credits)));
        assert forall|key: PeerKey|
            credited(credit_all(counts, credits), key) == credited(counts, key) + sum_credited_to(
                credits,
                key,
            ) by {
            assert(credited(credit_all(counts, earlier), key) == credited(counts, key)
                + sum_credited_to(earlier, key));
        }
    }
}

/// The sum over the peers in `keys` grows by the count of a peer that joins them.
pub(crate) proof fn lemma_total_restrict_insert(counts: Counts, keys: Set<PeerKey>, key: PeerKey)
    requires
        counts.dom().finite(),
        counts.contains_key(key),
        !keys.contains(key),
    ensures
        total(counts.restrict(keys.insert(key))) == total(counts.restrict(keys)) + counts[key],
{
    let wider = counts.restrict(keys.insert(key));
    assert(wider.dom() =~= counts.dom().intersect(keys.insert(key)));
    lemma_total_remove(wider, key);
    assert(wider.remove(key) =~= counts.restrict(keys));
}

/// A part of a ledger never sums to more than the whole.
pub(crate) proof fn lemma_total_restrict_le(counts: Counts, keys: Set<PeerKey>)
    requires
        counts.dom().finite(),
    ensures
        total(counts.restrict(keys)) <= total(counts),
    decreases counts.dom().len(),
{
    if counts.dom().len() == 0 {
        assert(counts.restrict(keys) =~= counts);
    } else {
        let key = counts.dom().choose();
        counts.lemma_remove_key_len(key);
        lemma_total_restrict_le(counts.remove(key), keys);
        assert(counts.restrict(keys).dom() =~= counts.dom().intersect(keys));
        if keys.contains(key) {
            lemma_total_remove(counts.restrict(keys), key);
            assert(counts.restrict(keys).remove(key) =~= counts.remove(key).restrict(keys));
        } else {
            assert(counts.restrict(keys) =~= counts.remove(key).restrict(keys));
        }
    }
}

/// What one credit of `credits` adds to the record of `key`.
pub open spec fn share_of(credit: (PeerKey, nat), key: PeerKey) -> nat {
    if credit.0 == key {
        credit.1
    } else {
        0
    }
}

/// A credit taken out of a sequence takes its share out of every sum.
proof fn lemma_sum_without(credits: Seq<(PeerKey, nat)>, at: int, key: PeerKey)
    requires
        0 <= at < credits.len(),
    ensures
        sum_credited_to(credits, key) == sum_credited_to(credits.remove(at), key) + share_of(
            credits[at],
            key,
        ),
    decreases credits.len(),
{
    if at == credits.len() - 1 {
        assert(credits.remove(at) =~= credits.drop_last());
    } else {
        lemma_sum_without(credits.drop_last(), at, key);
        assert(credits.remove(at).drop_last() =~= credits.drop_last().remove(at));
        assert(credits.remove(at).last() == credits.last());
    }
}

/// The same credits in another order add up to the same for every peer.
proof fn lemma_sum_in_any_order(
    one: Seq<(PeerKey, nat)>,
    other: Seq<(PeerKey, nat)>,
    key: PeerKey,
)
    requires
        one.to_multiset() == other.to_multiset(),
    ensures
        sum_credited_to(one, key) == sum_credited_to(other, key),
    decreases one.len(),
{
    to_multiset_len(one);
    to_multiset_len(other);
    if one.len() > 0 {
        let last = one.last();
        to_multiset_contains(one, last);
        to_multiset_contains(other, last);
        assert(one.contains(last)) by {
            assert(one[one.len() - 1] == last);
        }
        let at = choose|at: int| 0 <= at < other.len() && other[at] == last;
        to_multiset_remove(one, one.len() - 1);
        to_multiset_remove(other, at);
        assert(one.remove(one.len() - 1) =~= one.drop_last());
        lemma_sum_in_any_order(one.drop_last(), other.remove(at), key);
        lemma_sum_without(other, at, key);
    }
}

/// The order in which credits are made is immaterial: the same credits, made
/// in any order, leave the same ledger. So credits that many connections make
/// at once, one at a time but in an order that nobody controls, are all
/// counted, each exactly once.
pub proof fn lemma_credits_in_any_order(
    counts: Counts,
    one: Seq<(PeerKey, nat)>,
    other: Seq<(PeerKey, nat)>,
)
    requires
        counts.dom().finite(),
        one.to_multiset() == other.to_multiset(),
    ensures
        credit_all(counts, one) == credit_all(counts, other),
{
    lemma_credit_all(counts, one);
    lemma_credit_all(counts, other);
    assert forall|key: PeerKey| credited_peers(one).contains(key) == credited_peers(
        other,
    ).contains(key) by {
        if credited_peers(one).contains(key) {
            let i = choose|i: int| 0 <= i < one.len() && (#[trigger] one[i]).0 == key;
            to_multiset_contains(one, one[i]);
            to_multiset_contains(other, one[i]);
            assert(one.contains(one[i]));
            let j = choose|j: int| 0 <= j < other.len() && other[j] == one[i];
            assert(other[j].0 == key);
        }
        if credited_peers(other).contains(key) {
            let i = choose|i: int| 0 <= i < other.len() && (#[trigger] other[i]).0 == key;
            to_multiset_contains(one, other[i]);
            to_multiset_contains(other, other[i]);
            assert(other.contains(other[i]));
            let j = choose|j: int| 0 <= j < one.len() && one[j] == other[i];
            assert(one[j].0 == key);
        }
    }
    assert(credited_peers(one) =~= credited_peers(other));
    let left = credit_all(counts, one);
    let right = credit_all(counts, other);
    assert forall|key: PeerKey| left.contains_key(key) implies left[key] == right[key] by {
        lemma_sum_in_any_order(one, other, key);
        assert(credited(left, key) == credited(right, key));
    }
    assert(left =~= right);
}

} // verus!
