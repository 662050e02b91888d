//! What a whole connection amounts to: the bytes that are written to it and
//! the credits that reach the ledger, for every way in which its writes can
//! end.
//!
//! A driver that does what its worker asks is told apart from another only by
//! the outcomes of its writes. So the life of a connection is a sequence of
//! outcomes, one for each write that was asked for: `true` for a write that
//! succeeded, `false` for one that failed.
//!
//! Only chunks are counted: the preamble is written to every connection and
//! credited to none. So a peer gets its record with the first chunk that is
//! written to it in full, and a connection that ends before that leaves the
//! ledger as it was.
//!
//! A write counts as a whole. What a connection may still carry of a write
//! that failed is neither on the wire, as it is understood here, nor in the
//! ledger; `handed_over` includes it.

use crate::counts::{credit, credited, lemma_credits_add_up, lemma_credits_commute, Counts};
use crate::peer::PeerKey;
use crate::source::zeros;
use crate::worker::{CloseReason, WorkerEvent, WorkerModel, WorkerPhase, WorkerState};
use vstd::prelude::*;

verus! {

impl WorkerModel {
    /// What one write puts on the wire: the payload where it succeeds,
    /// nothing where it fails.
    pub open spec fn written(self, ok: bool) -> Seq<u8> {
        if ok {
            self.payload()
        } else {
            Seq::empty()
        }
    }

    /// The credit that follows one write: the one that the worker asks for
    /// once the write of a chunk has succeeded, and none where the write
    /// fails, where it is the write of the preamble or where none was asked
    /// for.
    pub open spec fn credit_made(self, ok: bool) -> Option<nat> {
        if ok && self.phase is WriteChunk {
            Some(self.step(WorkerEvent::Written).credit_due())
        } else {
            None
        }
    }

    /// Whether the worker asks for a write.
    pub open spec fn payload_wanted(self) -> bool {
        self.phase is WritePreamble || self.phase is WriteChunk
    }

    /// The worker after one write and all that the driver does on its account
    /// before the next write: the credit and, where one is asked for, the
    /// pause. A worker that asks for no write stays as it is.
    pub open spec fn after_write(self, ok: bool) -> WorkerModel {
        if !self.payload_wanted() {
            self
        } else if !ok {
            self.step(WorkerEvent::WriteFailed)
        } else if self.phase is WritePreamble {
            self.step(WorkerEvent::Written)
        } else {
            let credited = self.step(WorkerEvent::Written).step(WorkerEvent::Credited);
            if credited.phase is Pause {
                credited.step(WorkerEvent::Paused)
            } else {
                credited
            }
        }
    }

    /// The worker after the writes that end as `outcomes` say.
    pub open spec fn run(self, outcomes: Seq<bool>) -> WorkerModel
        decreases outcomes.len(),
    {
        if outcomes.len() == 0 {
            self
        } else {
            self.run(outcomes.drop_last()).after_write(outcomes.last())
        }
    }

    /// All that is written in full while the writes end as `outcomes` say:
    /// the payloads of the writes that succeed, in their order.
    pub open spec fn wire(self, outcomes: Seq<bool>) -> Seq<u8>
        decreases outcomes.len(),
    {
        if outcomes.len() == 0 {
            Seq::empty()
        } else {
            self.wire(outcomes.drop_last()) + self.run(outcomes.drop_last()).written(
                outcomes.last(),
            )
        }
    }

    /// The ledger `counts` after the credits of the writes that end as
    /// `outcomes` say.
    pub open spec fn ledger(self, counts: Counts, outcomes: Seq<bool>) -> Counts
        decreases outcomes.len(),
    {
        if outcomes.len() == 0 {
            counts
        } else {
            let before = self.ledger(counts, outcomes.drop_last());
            match self.run(outcomes.drop_last()).credit_made(outcomes.last()) {
                Some(amount) => credit(before, self.peer, amount),
                None => before,
            }
        }
    }

    /// The bytes of the chunks that are written in full while the writes end
    /// as `outcomes` say: all that is written but the preamble.
    pub open spec fn filler_written(self, outcomes: Seq<bool>) -> nat {
        if outcomes.len() > 0 && outcomes[0] {
            (self.wire(outcomes).len() - self.preamble.len()) as nat
        } else {
            0
        }
    }

    /// Whether a chunk is written in full while the writes end as `outcomes`
    /// say: the preamble is, and the chunk after it.
    pub open spec fn streams(self, outcomes: Seq<bool>) -> bool {
        outcomes.len() > 1 && outcomes[0] && outcomes[1]
    }

    /// The ledger `counts` after one credit for all the chunks that are
    /// written in full while the writes end as `outcomes` say: none where no
    /// chunk is.
    pub open spec fn credited_in_all(self, counts: Counts, outcomes: Seq<bool>) -> Counts {
        if self.streams(outcomes) {
            credit(counts, self.peer, self.filler_written(outcomes))
        } else {
            counts
        }
    }

    /// All that was ever handed to the connection once the writes have ended
    /// as `outcomes` say: what is written in full, and the payload of the
    /// write that is asked for next, of which any part may reach the peer.
    pub open spec fn handed_over(self, outcomes: Seq<bool>) -> Seq<u8> {
        self.wire(outcomes) + self.run(outcomes).payload()
    }

    /// Whether no byte after the preamble differs from zero.
    pub open spec fn zero_after_preamble(self, wire: Seq<u8>) -> bool {
        forall|i: int| self.preamble.len() <= i < wire.len() ==> wire[i] == 0u8
    }
}

/// All that holds of a connection from its first write on, in one induction.
proof fn lemma_run(fresh: WorkerModel, counts: Counts, outcomes: Seq<bool>)
    requires
        fresh.phase is WritePreamble,
    ensures
        ({
            let last = fresh.run(outcomes);
            let wire = fresh.wire(outcomes);
            let ledger = fresh.ledger(counts, outcomes);
            &&& last.peer == fresh.peer
            &&& last.preamble == fresh.preamble
            &&& last.phase is WritePreamble || last.phase is WriteChunk || last.phase is Closed
            &&& last.phase is WritePreamble <==> outcomes.len() == 0
            &&& (forall|i: int| 0 <= i < outcomes.len() ==> outcomes[i]) ==> !(last.phase is Closed)
            &&& (forall|i: int| 0 <= i < outcomes.len() && !outcomes[i] ==> last.phase is Closed)
            &&& outcomes.len() == 0 ==> last == fresh
            &&& (outcomes.len() == 0 || !outcomes[0]) ==> wire == Seq::<u8>::empty()
            &&& last.source.chunk_size() == fresh.source.chunk_size()
            &&& last.phase is WriteChunk ==> last.source.current().len() == fresh.source.chunk_size()
            &&& outcomes.len() == 1 && outcomes[0] ==> wire == fresh.preamble
            &&& !fresh.streams(outcomes) ==> ledger == counts
            &&& fresh.streams(outcomes) ==> ledger.contains_key(fresh.peer)
            &&& outcomes.len() > 0 && !outcomes[0] ==> last.phase == (WorkerPhase::Closed {
                reason: CloseReason::PreambleFailed,
            })
            &&& outcomes.len() > 0 && outcomes[0] ==> {
                &&& fresh.preamble.is_prefix_of(wire)
                &&& last.phase is Closed ==> last.phase == (WorkerPhase::Closed {
                    reason: CloseReason::StreamFailed,
                })
            }
            &&& ledger == fresh.credited_in_all(counts, outcomes)
            &&& credited(ledger, fresh.peer) == credited(counts, fresh.peer) + fresh.filler_written(
                outcomes,
            )
            &&& forall|other: PeerKey|
                #![trigger ledger.contains_key(other)]
                #![trigger credited(ledger, other)]
                other != fresh.peer ==> ledger.contains_key(other) == counts.contains_key(other)
                    && credited(ledger, other) == credited(counts, other)
            &&& fresh.source is ZeroFill ==> last.source == fresh.source && fresh.zero_after_preamble(
                wire,
            )
        }),
    decreases outcomes.len(),
{
    if outcomes.len() > 0 {
        let earlier = outcomes.drop_last();
        lemma_run(fresh, counts, earlier);
        let before = fresh.run(earlier);
        let wire_before = fresh.wire(earlier);
        let wire = fresh.wire(outcomes);
        assert(earlier.len() > 0 ==> earlier[0] == outcomes[0]);
        assert(earlier.len() > 1 ==> earlier[1] == outcomes[1]);
        assert forall|i: int| 0 <= i < outcomes.len() && !outcomes[i] implies fresh.run(
            outcomes,
        ).phase is Closed by {
            if i < earlier.len() {
                assert(!earlier[i]);
            }
        }
        assert(wire == wire_before + before.written(outcomes.last()));
        if fresh.source is ZeroFill {
            assert(before.source.current() == zeros(before.source.chunk_size()));
        }
        if fresh.streams(earlier) && outcomes.last() {
            lemma_credits_add_up(
                counts,
                fresh.peer,
                fresh.filler_written(earlier),
                before.written(true).len(),
            );
        }
    }
}

/// Whatever happens to a connection, the first bytes that its peer receives
/// are the preamble, whole and unchanged, and no filler byte comes before it:
/// either nothing reaches the peer, because the very first write failed, or
/// what reaches it begins with the preamble.
pub proof fn lemma_preamble_comes_first(fresh: WorkerModel, outcomes: Seq<bool>)
    requires
        fresh.phase is WritePreamble,
    ensures
        outcomes.len() > 0 && outcomes[0] ==> fresh.preamble.is_prefix_of(fresh.wire(outcomes)),
        outcomes.len() == 0 || !outcomes[0] ==> fresh.wire(outcomes) == Seq::<u8>::empty(),
{
    lemma_run(fresh, Map::empty(), outcomes);
}

/// Whatever part of a write reaches the peer, the order holds: all that was
/// ever handed to a connection whose writes have succeeded so far begins with
/// the preamble, and with the zero-fill source all that follows the preamble
/// is zero.
pub proof fn lemma_handed_over_in_order(fresh: WorkerModel, outcomes: Seq<bool>)
    requires
        fresh.phase is WritePreamble,
        forall|i: int| 0 <= i < outcomes.len() ==> outcomes[i],
    ensures
        fresh.preamble.is_prefix_of(fresh.handed_over(outcomes)),
        fresh.source is ZeroFill ==> fresh.zero_after_preamble(fresh.handed_over(outcomes)),
{
    lemma_run(fresh, Map::empty(), outcomes);
    let last = fresh.run(outcomes);
    if fresh.source is ZeroFill {
        assert(last.source.current() == zeros(last.source.chunk_size()));
    }
}

/// The record of a peer grows by exactly the sum of the sizes of the chunks
/// that were written to its connection in full, and by nothing else: the
/// preamble is not counted. So the record and the preamble, where it was
/// written, make up all that was written.
pub proof fn lemma_ledger_counts_the_chunks(fresh: WorkerModel, counts: Counts, outcomes: Seq<bool>)
    requires
        fresh.phase is WritePreamble,
    ensures
        credited(fresh.ledger(counts, outcomes), fresh.peer) == credited(counts, fresh.peer)
            + fresh.filler_written(outcomes),
        credited(fresh.ledger(counts, outcomes), fresh.peer) + (if outcomes.len() > 0
            && outcomes[0] {
            fresh.preamble.len()
        } else {
            0
        }) == credited(counts, fresh.peer) + fresh.wire(outcomes).len(),
{
    lemma_run(fresh, counts, outcomes);
}

/// A connection to which no chunk is written in full leaves the ledger as it
/// was: it makes no record, whether its preamble was written or not.
pub proof fn lemma_no_chunk_no_record(fresh: WorkerModel, counts: Counts, outcomes: Seq<bool>)
    requires
        fresh.phase is WritePreamble,
        !fresh.streams(outcomes),
    ensures
        fresh.ledger(counts, outcomes) == counts,
        fresh.ledger(counts, seq![true, false]) == counts,
        fresh.ledger(counts, seq![false]) == counts,
{
    lemma_run(fresh, counts, outcomes);
    lemma_run(fresh, counts, seq![true, false]);
    lemma_run(fresh, counts, seq![false]);
}

/// The outcomes of a connection whose preamble and `chunks` chunks are
/// written in full.
pub open spec fn all_written(chunks: nat) -> Seq<bool> {
    Seq::new(chunks + 1, |i: int| true)
}

/// After the preamble and `chunks` chunks, each written in full, the peer has
/// been sent the preamble and `chunks` times the size of a chunk, and its
/// record has grown by exactly `chunks` times the size of a chunk. It has
/// none, if it had none, where `chunks` is zero. A write that fails after
/// them changes neither.
pub proof fn lemma_after_chunks(fresh: WorkerModel, counts: Counts, chunks: nat)
    requires
        fresh.phase is WritePreamble,
    ensures
        fresh.wire(all_written(chunks)).len() == fresh.preamble.len() + chunks
            * fresh.source.chunk_size(),
        credited(fresh.ledger(counts, all_written(chunks)), fresh.peer) == credited(
            counts,
            fresh.peer,
        ) + chunks * fresh.source.chunk_size(),
        chunks == 0 ==> fresh.ledger(counts, all_written(chunks)) == counts,
        chunks > 0 ==> fresh.ledger(counts, all_written(chunks)) == credit(
            counts,
            fresh.peer,
            chunks * fresh.source.chunk_size(),
        ),
        fresh.ledger(counts, all_written(chunks).push(false)) == fresh.ledger(
            counts,
            all_written(chunks),
        ),
        fresh.run(all_written(chunks).push(false)).state() == WorkerState::Closed,
    decreases chunks,
{
    let size = fresh.source.chunk_size();
    let outcomes = all_written(chunks);
    lemma_run(fresh, counts, outcomes);
    if chunks > 0 {
        let fewer = all_written((chunks - 1) as nat);
        assert(outcomes.drop_last() =~= fewer);
        lemma_after_chunks(fresh, counts, (chunks - 1) as nat);
        lemma_run(fresh, counts, fewer);
        assert(fresh.run(fewer).phase is WriteChunk);
        assert((chunks - 1) * size + size == chunks * size) by (nonlinear_arith);
    } else {
        assert(0 * size == 0) by (nonlinear_arith);
    }
    lemma_nothing_after_failure(fresh, counts, outcomes, Seq::empty());
    assert(outcomes.push(false) + Seq::<bool>::empty() =~= outcomes.push(false));
}

/// The credits of a connection, made one by one as its chunks are written,
/// leave the ledger as one credit for all its chunks would. A connection to
/// which no chunk is written leaves no trace in the ledger.
pub proof fn lemma_ledger_after_connection(fresh: WorkerModel, counts: Counts, outcomes: Seq<bool>)
    requires
        fresh.phase is WritePreamble,
    ensures
        fresh.ledger(counts, outcomes) == fresh.credited_in_all(counts, outcomes),
{
    lemma_run(fresh, counts, outcomes);
}

/// Two connections do not interfere. Whatever becomes of the one, and
/// whichever is served first, the ledger ends up the same, and the record of
/// the peer of the other is what it would be if the other were alone.
pub proof fn lemma_connections_do_not_interfere(
    one: WorkerModel,
    other: WorkerModel,
    counts: Counts,
    outcomes_of_one: Seq<bool>,
    outcomes_of_other: Seq<bool>,
)
    requires
        one.phase is WritePreamble,
        other.phase is WritePreamble,
        one.peer != other.peer,
    ensures
        other.ledger(one.ledger(counts, outcomes_of_one), outcomes_of_other) == one.ledger(
            other.ledger(counts, outcomes_of_other),
            outcomes_of_one,
        ),
        credited(
            other.ledger(one.ledger(counts, outcomes_of_one), outcomes_of_other),
            other.peer,
        ) == credited(other.ledger(counts, outcomes_of_other), other.peer),
{
    let after_one = one.ledger(counts, outcomes_of_one);
    let after_other = other.ledger(counts, outcomes_of_other);
    lemma_run(one, counts, outcomes_of_one);
    lemma_run(other, counts, outcomes_of_other);
    lemma_run(other, after_one, outcomes_of_other);
    lemma_run(one, after_other, outcomes_of_one);
    lemma_credits_commute(
        counts,
        one.peer,
        one.filler_written(outcomes_of_one),
        other.peer,
        other.filler_written(outcomes_of_other),
    );
}

/// Two connections from different peers, each with its preamble and some
/// chunks written in full before a write fails: each record grows by what
/// the chunks of its own connection give, whichever connection is served
/// first and whatever became of the other.
pub proof fn lemma_two_connections(
    one: WorkerModel,
    other: WorkerModel,
    counts: Counts,
    chunks_of_one: nat,
    chunks_of_other: nat,
)
    requires
        one.phase is WritePreamble,
        other.phase is WritePreamble,
        one.peer != other.peer,
    ensures
        ({
            let first = all_written(chunks_of_one).push(false);
            let second = all_written(chunks_of_other).push(false);
            let ledger = other.ledger(one.ledger(counts, first), second);
            &&& ledger == one.ledger(other.ledger(counts, second), first)
            &&& credited(ledger, one.peer) == credited(counts, one.peer) + chunks_of_one
                * one.source.chunk_size()
            &&& credited(ledger, other.peer) == credited(counts, other.peer) + chunks_of_other
                * other.source.chunk_size()
            &&& ledger.contains_key(one.peer) == (counts.contains_key(one.peer) || chunks_of_one > 0)
            &&& ledger.contains_key(other.peer) == (counts.contains_key(other.peer)
                || chunks_of_other > 0)
        }),
{
    let first = all_written(chunks_of_one).push(false);
    let second = all_written(chunks_of_other).push(false);
    let after_one = one.ledger(counts, first);
    lemma_after_chunks(one, counts, chunks_of_one);
    lemma_after_chunks(other, after_one, chunks_of_other);
    lemma_connections_do_not_interfere(one, other, counts, first, second);
    lemma_other_peers_untouched(other, after_one, second, one.peer);
    lemma_other_peers_untouched(one, counts, first, other.peer);
}

/// A connection changes the record of no peer but its own, whether its
/// writes succeed or fail: the byte count of another peer goes on as if the
/// connection were not there.
pub proof fn lemma_other_peers_untouched(
    fresh: WorkerModel,
    counts: Counts,
    outcomes: Seq<bool>,
    other: PeerKey,
)
    requires
        fresh.phase is WritePreamble,
        other != fresh.peer,
    ensures
        fresh.ledger(counts, outcomes).contains_key(other) == counts.contains_key(other),
        credited(fresh.ledger(counts, outcomes), other) == credited(counts, other),
{
    lemma_run(fresh, counts, outcomes);
}

/// With the zero-fill source, every byte that follows the preamble is zero.
pub proof fn lemma_zero_fill_sends_zeros(fresh: WorkerModel, outcomes: Seq<bool>)
    requires
        fresh.phase is WritePreamble,
        fresh.source is ZeroFill,
    ensures
        fresh.zero_after_preamble(fresh.wire(outcomes)),
{
    lemma_run(fresh, Map::empty(), outcomes);
}

/// A closed worker stays closed whatever it is told: it asks for nothing but
/// the close, nothing more reaches the peer and nothing more is credited.
pub proof fn lemma_closed_is_final(closed: WorkerModel, counts: Counts, outcomes: Seq<bool>)
    requires
        closed.state() == WorkerState::Closed,
    ensures
        forall|event: WorkerEvent| closed.step(event) == closed,
        closed.action() is Close,
        closed.run(outcomes) == closed,
        closed.wire(outcomes) == Seq::<u8>::empty(),
        closed.ledger(counts, outcomes) == counts,
    decreases outcomes.len(),
{
    if outcomes.len() > 0 {
        lemma_closed_is_final(closed, counts, outcomes.drop_last());
    }
}

/// The first write that fails closes the worker.
pub proof fn lemma_failure_closes(worker: WorkerModel)
    requires
        worker.payload_wanted(),
    ensures
        worker.after_write(false).state() == WorkerState::Closed,
        worker.written(false) == Seq::<u8>::empty(),
        worker.credit_made(false) is None,
{
}

/// A connection may be followed in two parts: what the second part adds is
/// what a worker adds that starts where the first part ended.
pub proof fn lemma_run_in_parts(
    worker: WorkerModel,
    counts: Counts,
    first: Seq<bool>,
    second: Seq<bool>,
)
    ensures
        worker.run(first + second) == worker.run(first).run(second),
        worker.wire(first + second) == worker.wire(first) + worker.run(first).wire(second),
        worker.run(first).peer == worker.peer,
        worker.ledger(counts, first + second) == worker.run(first).ledger(
            worker.ledger(counts, first),
            second,
        ),
    decreases second.len(),
{
    lemma_run_keeps_peer(worker, first);
    if second.len() == 0 {
        assert(first + second =~= first);
    } else {
        assert((first + second).drop_last() =~= first + second.drop_last());
        assert((first + second).last() == second.last());
        lemma_run_in_parts(worker, counts, first, second.drop_last());
        assert(worker.wire(first + second) =~= worker.wire(first) + worker.run(first).wire(second));
    }
}

/// A worker serves one peer for as long as it lives.
pub proof fn lemma_run_keeps_peer(worker: WorkerModel, outcomes: Seq<bool>)
    ensures
        worker.run(outcomes).peer == worker.peer,
        worker.run(outcomes).preamble == worker.preamble,
    decreases outcomes.len(),
{
    if outcomes.len() > 0 {
        lemma_run_keeps_peer(worker, outcomes.drop_last());
    }
}

/// Once a write has failed, the connection is over: the worker is closed,
/// and whatever the later outcomes are said to be, the peer has received and
/// the ledger has been credited what they had when the write failed.
pub proof fn lemma_nothing_after_failure(
    fresh: WorkerModel,
    counts: Counts,
    good: Seq<bool>,
    later: Seq<bool>,
)
    requires
        fresh.phase is WritePreamble,
    ensures
        fresh.run(good.push(false) + later).state() == WorkerState::Closed,
        fresh.wire(good.push(false) + later) == fresh.wire(good),
        fresh.ledger(counts, good.push(false) + later) == fresh.ledger(counts, good),
{
    let failed = good.push(false);
    assert(failed.drop_last() =~= good);
    lemma_run(fresh, counts, good);
    lemma_run(fresh, counts, failed);
    let closed = fresh.run(failed);
    assert(closed.phase is Closed) by {
        if fresh.run(good).payload_wanted() {
            lemma_failure_closes(fresh.run(good));
        }
    }
    lemma_closed_is_final(closed, fresh.ledger(counts, failed), later);
    lemma_run_in_parts(fresh, counts, failed, later);
    assert(fresh.wire(failed) =~= fresh.wire(good));
    assert(fresh.wire(failed + later) =~= fresh.wire(good));
}

} // verus!
