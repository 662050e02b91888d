//! The worker of one connection: what it does next, given what just happened.
//!
//! A worker never touches the connection or the ledger itself. It names one
//! action at a time; whoever drives it carries the action out and reports the
//! event that ended it. The preamble is written first, and is not counted;
//! then chunk after chunk is written, credited and, where the source asks for
//! it, followed by a pause, until a write fails. A failed write closes the
//! worker for good.

use crate::peer::{PeerAddress, PeerKey};
use crate::source::{ByteSource, SourceModel};
use vstd::prelude::*;

verus! {

/// Where a worker stands in the life of its connection.
#[derive(Clone, Copy, Debug, PartialEq, Eq, Structural)]
pub enum WorkerState {
    /// The preamble is not yet written.
    SendPreamble,
    /// The preamble is out, and chunks follow for as long as writes succeed.
    Stream,
    /// A write has failed: the worker has ended.
    Closed,
}

/// Which write it was that failed.
#[derive(Clone, Copy, Debug, PartialEq, Eq, Structural)]
pub enum CloseReason {
    /// The write of the preamble: the stream never began.
    PreambleFailed,
    /// The write of a chunk: the usual end of a stream.
    StreamFailed,
}

/// What the driver of a worker has to do next.
#[derive(Clone, Copy, Debug, PartialEq, Eq, Structural)]
pub enum WorkerAction {
    /// Write the whole payload of the worker to the connection.
    Write,
    /// Add `amount` to the ledger, for the peer of the worker.
    Credit { amount: u128 },
    /// Rest for `nanos` nanoseconds.
    Pause { nanos: u64 },
    /// Release the connection: nothing more will be asked.
    Close { reason: CloseReason },
}

/// How the action that the worker asked for has ended.
#[derive(Clone, Copy, Debug, PartialEq, Eq, Structural)]
pub enum WorkerEvent {
    /// The payload was written in full.
    Written,
    /// The write failed.
    WriteFailed,
    /// The ledger was credited.
    Credited,
    /// The pause is over.
    Paused,
}

/// The exact point at which a worker stands.
#[derive(Clone, Copy, Debug, PartialEq, Eq, Structural)]
pub enum WorkerPhase {
    /// The preamble is to be written.
    WritePreamble,
    /// A chunk is to be written.
    WriteChunk,
    /// A chunk is written and is to be credited.
    CreditChunk,
    /// A chunk is credited, and the stream is to rest before the next.
    Pause { nanos: u64 },
    /// A write has failed.
    Closed { reason: CloseReason },
}

/// What a worker is, to a contract.
pub struct WorkerModel {
    /// The key of the peer.
    pub peer: PeerKey,
    /// The preamble that every connection receives first.
    pub preamble: Seq<u8>,
    /// The source of the filler chunks.
    pub source: SourceModel,
    /// The point at which the worker stands.
    pub phase: WorkerPhase,
}

impl WorkerModel {
    /// The worker of a connection that was just accepted.
    pub open spec fn start(peer: PeerKey, preamble: Seq<u8>, source: SourceModel) -> WorkerModel {
        WorkerModel { peer, preamble, source, phase: WorkerPhase::WritePreamble }
    }

    /// Where the worker stands in the life of its connection.
    pub open spec fn state(self) -> WorkerState {
        match self.phase {
            WorkerPhase::WritePreamble => WorkerState::SendPreamble,
            WorkerPhase::Closed { .. } => WorkerState::Closed,
            _ => WorkerState::Stream,
        }
    }

    /// The bytes that the worker wants written now: none unless it asks for
    /// a write.
    pub open spec fn payload(self) -> Seq<u8> {
        match self.phase {
            WorkerPhase::WritePreamble => self.preamble,
            WorkerPhase::WriteChunk => self.source.current(),
            _ => Seq::empty(),
        }
    }

    /// The bytes that the worker wants credited now: the length of the chunk
    /// that was just written, and nothing unless it asks for a credit.
    pub open spec fn credit_due(self) -> nat {
        match self.phase {
            WorkerPhase::CreditChunk => self.source.current().len(),
            _ => 0,
        }
    }

    /// What the driver has to do next.
    pub open spec fn action(self) -> WorkerAction {
        match self.phase {
            WorkerPhase::WritePreamble | WorkerPhase::WriteChunk => WorkerAction::Write,
            WorkerPhase::CreditChunk => WorkerAction::Credit { amount: self.credit_due() as u128 },
            WorkerPhase::Pause { nanos } => WorkerAction::Pause { nanos },
            WorkerPhase::Closed { reason } => WorkerAction::Close { reason },
        }
    }

    /// The worker as it asks for the write of the next chunk of its source.
    pub open spec fn next_chunk(self) -> WorkerModel {
        WorkerModel { source: self.source.advanced(), phase: WorkerPhase::WriteChunk, ..self }
    }

    /// The worker after `event`. An event that does not answer the action
    /// that the worker asked for changes nothing.
    pub open spec fn step(self, event: WorkerEvent) -> WorkerModel {
        match (self.phase, event) {
            (WorkerPhase::WritePreamble, WorkerEvent::Written) => self.next_chunk(),
            (WorkerPhase::WritePreamble, WorkerEvent::WriteFailed) => WorkerModel {
                phase: WorkerPhase::Closed { reason: CloseReason::PreambleFailed },
                ..self
            },
            (WorkerPhase::WriteChunk, WorkerEvent::Written) => WorkerModel {
                phase: WorkerPhase::CreditChunk,
                ..self
            },
            (WorkerPhase::WriteChunk, WorkerEvent::WriteFailed) => WorkerModel {
                phase: WorkerPhase::Closed { reason: CloseReason::StreamFailed },
                ..self
            },
            (WorkerPhase::CreditChunk, WorkerEvent::Credited) => match self.source.pause() {
                Some(nanos) => WorkerModel { phase: WorkerPhase::Pause { nanos }, ..self },
                None => self.next_chunk(),
            },
            (WorkerPhase::Pause { .. }, WorkerEvent::Paused) => self.next_chunk(),
            _ => self,
        }
    }
}

/// The worker of one accepted connection.
pub struct ConnectionWorker<'a> {
    address: PeerAddress,
    preamble: &'a [u8],
    source: ByteSource<'a>,
    phase: WorkerPhase,
}

impl<'a> View for ConnectionWorker<'a> {
    type V = WorkerModel;

    closed spec fn view(&self) -> WorkerModel {
        WorkerModel {
            peer: self.address@,
            preamble: self.preamble@,
            source: self.source@,
            phase: self.phase,
        }
    }
}

impl<'a> ConnectionWorker<'a> {
    /// The worker of a connection from `address` that was just accepted. It
    /// asks for the write of `preamble`.
    pub fn new(address: PeerAddress, preamble: &'a [u8], source: ByteSource<'a>) -> (worker: Self)
        ensures
            worker@ == WorkerModel::start(address@, preamble@, source@),
    {
        ConnectionWorker { address, preamble, source, phase: WorkerPhase::WritePreamble }
    }

    /// The address of the peer.
    pub fn address(&self) -> (address: PeerAddress)
        ensures
            address@ == self@.peer,
    {
        self.address
    }

    /// Where the worker stands in the life of its connection.
    pub fn state(&self) -> (state: WorkerState)
        ensures
            state == self@.state(),
    {
        match self.phase {
            WorkerPhase::WritePreamble => WorkerState::SendPreamble,
            WorkerPhase::Closed { .. } => WorkerState::Closed,
            _ => WorkerState::Stream,
        }
    }

    /// The bytes to write, where the worker asks for a write.
    pub fn payload(&self) -> (bytes: Option<&[u8]>)
        ensures
            match bytes {
                Some(bytes) => self@.action() is Write && bytes@ == self@.payload(),
                None => !(self@.action() is Write),
            },
    {
        match self.phase {
            WorkerPhase::WritePreamble => Some(self.preamble),
            WorkerPhase::WriteChunk => Some(self.source.current()),
            _ => None,
        }
    }

    /// What the driver has to do next.
    pub fn action(&self) -> (action: WorkerAction)
        ensures
            action == self@.action(),
            action matches WorkerAction::Credit { amount } ==> amount == self@.credit_due(),
    {
        match self.phase {
            WorkerPhase::WritePreamble | WorkerPhase::WriteChunk => WorkerAction::Write,
            WorkerPhase::CreditChunk => WorkerAction::Credit {
                amount: self.source.current().len() as u128,
            },
            WorkerPhase::Pause { nanos } => WorkerAction::Pause { nanos },
            WorkerPhase::Closed { reason } => WorkerAction::Close { reason },
        }
    }

    /// Takes in the event that ended the last action, and says what to do
    /// next.
    pub fn step(&mut self, event: WorkerEvent) -> (next: WorkerAction)
        ensures
            final(self)@ == old(self)@.step(event),
            next == final(self)@.action(),
            next matches WorkerAction::Credit { amount } ==> amount == final(self)@.credit_due(),
    {
        match (self.phase, event) {
            (WorkerPhase::WritePreamble, WorkerEvent::WriteFailed) => {
                self.phase = WorkerPhase::Closed { reason: CloseReason::PreambleFailed };
            },
            (WorkerPhase::WriteChunk, WorkerEvent::Written) => {
                self.phase = WorkerPhase::CreditChunk;
            },
            (WorkerPhase::WriteChunk, WorkerEvent::WriteFailed) => {
                self.phase = WorkerPhase::Closed { reason: CloseReason::StreamFailed };
            },
            (WorkerPhase::CreditChunk, WorkerEvent::Credited) => {
                match self.source.pause() {
                    Some(nanos) => {
                        self.phase = WorkerPhase::Pause { nanos };
                    },
                    None => {
                        self.source.next();
                        self.phase = WorkerPhase::WriteChunk;
                    },
                }
            },
            (WorkerPhase::WritePreamble, WorkerEvent::Written)
            | (WorkerPhase::Pause { .. }, WorkerEvent::Paused) => {
                self.source.next();
                self.phase = WorkerPhase::WriteChunk;
            },
            _ => {},
        }
        self.action()
    }
}

} // verus!
