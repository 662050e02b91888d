use endless_stream::peer::PeerAddress;
use endless_stream::source::{ByteSource, ZeroChunk, ZERO_FILL_PAUSE_NANOS};
use endless_stream::worker::{
    CloseReason, ConnectionWorker, WorkerAction, WorkerEvent, WorkerState,
};

const PREAMBLE: &[u8] = b"HTTP/1.1 200 OK\r\n\r\n";

const EVENTS: [WorkerEvent; 4] =
    [WorkerEvent::Written, WorkerEvent::WriteFailed, WorkerEvent::Credited, WorkerEvent::Paused];

fn client() -> PeerAddress {
    PeerAddress::V4 { ip: 0x7f00_0001, port: 50_000 }
}

#[test]
fn a_fresh_worker_asks_for_the_preamble() {
    let zeros = ZeroChunk::new(1024);
    let worker = ConnectionWorker::new(client(), PREAMBLE, ByteSource::zero_fill(&zeros));
    assert_eq!(worker.state(), WorkerState::SendPreamble);
    assert_eq!(worker.action(), WorkerAction::Write);
    assert_eq!(worker.payload(), Some(PREAMBLE));
    assert_eq!(worker.address(), client());
}

#[test]
fn the_zero_fill_stream_writes_credits_and_pauses_in_turn() {
    let zeros = ZeroChunk::new(1024);
    let mut worker = ConnectionWorker::new(client(), PREAMBLE, ByteSource::zero_fill(&zeros));
    // The preamble is written and not credited: the first chunk comes next.
    assert_eq!(worker.step(WorkerEvent::Written), WorkerAction::Write);
    assert_eq!(worker.state(), WorkerState::Stream);
    for _ in 0..3 {
        assert_eq!(worker.payload(), Some(&[0u8; 1024][..]));
        assert_eq!(worker.step(WorkerEvent::Written), WorkerAction::Credit { amount: 1024 });
        assert_eq!(worker.payload(), None);
        assert_eq!(
            worker.step(WorkerEvent::Credited),
            WorkerAction::Pause { nanos: ZERO_FILL_PAUSE_NANOS }
        );
        assert_eq!(worker.payload(), None);
        assert_eq!(worker.step(WorkerEvent::Paused), WorkerAction::Write);
        assert_eq!(worker.state(), WorkerState::Stream);
    }
}

#[test]
fn the_random_fill_stream_never_pauses_and_never_repeats_itself() {
    let mut worker = ConnectionWorker::new(client(), PREAMBLE, ByteSource::random_fill(99, 256));
    assert_eq!(worker.step(WorkerEvent::Written), WorkerAction::Write);
    let first = worker.payload().unwrap().to_vec();
    assert_eq!(first.len(), 256);
    assert_eq!(worker.step(WorkerEvent::Written), WorkerAction::Credit { amount: 256 });
    assert_eq!(worker.step(WorkerEvent::Credited), WorkerAction::Write);
    let second = worker.payload().unwrap().to_vec();
    assert_eq!(second.len(), 256);
    assert_ne!(first, second);

    let mut reference = ByteSource::random_fill(99, 256);
    assert_eq!(reference.next(), &first[..]);
    assert_eq!(reference.next(), &second[..]);
}

#[test]
fn an_empty_preamble_is_written_like_any_other() {
    let zeros = ZeroChunk::new(8);
    let mut worker = ConnectionWorker::new(client(), &[], ByteSource::zero_fill(&zeros));
    assert_eq!(worker.payload(), Some(&[][..]));
    assert_eq!(worker.state(), WorkerState::SendPreamble);
    assert_eq!(worker.step(WorkerEvent::Written), WorkerAction::Write);
    assert_eq!(worker.state(), WorkerState::Stream);
    assert_eq!(worker.payload(), Some(&[0u8; 8][..]));
}

#[test]
fn a_failed_preamble_closes_the_worker_before_the_stream_begins() {
    let zeros = ZeroChunk::new(1024);
    let mut worker = ConnectionWorker::new(client(), PREAMBLE, ByteSource::zero_fill(&zeros));
    assert_eq!(
        worker.step(WorkerEvent::WriteFailed),
        WorkerAction::Close { reason: CloseReason::PreambleFailed }
    );
    assert_eq!(worker.state(), WorkerState::Closed);
    assert_eq!(worker.payload(), None);
}

#[test]
fn a_failed_chunk_closes_the_worker() {
    let zeros = ZeroChunk::new(1024);
    let mut worker = ConnectionWorker::new(client(), PREAMBLE, ByteSource::zero_fill(&zeros));
    worker.step(WorkerEvent::Written);
    assert_eq!(
        worker.step(WorkerEvent::WriteFailed),
        WorkerAction::Close { reason: CloseReason::StreamFailed }
    );
    assert_eq!(worker.state(), WorkerState::Closed);
    assert_eq!(worker.payload(), None);
}

#[test]
fn a_closed_worker_stays_closed_whatever_it_is_told() {
    let zeros = ZeroChunk::new(1024);
    for closed_early in [true, false] {
        let mut worker = ConnectionWorker::new(client(), PREAMBLE, ByteSource::zero_fill(&zeros));
        if !closed_early {
            worker.step(WorkerEvent::Written);
        }
        let close = worker.step(WorkerEvent::WriteFailed);
        assert!(matches!(close, WorkerAction::Close { .. }));
        for _ in 0..3 {
            for event in EVENTS {
                assert_eq!(worker.step(event), close);
                assert_eq!(worker.action(), close);
                assert_eq!(worker.state(), WorkerState::Closed);
                assert_eq!(worker.payload(), None);
            }
        }
    }
}

#[test]
fn an_event_that_answers_no_question_changes_nothing() {
    let zeros = ZeroChunk::new(4);
    let mut worker = ConnectionWorker::new(client(), PREAMBLE, ByteSource::zero_fill(&zeros));

    // A write is asked for: a credit or a pause cannot have ended.
    assert_eq!(worker.step(WorkerEvent::Credited), WorkerAction::Write);
    assert_eq!(worker.step(WorkerEvent::Paused), WorkerAction::Write);
    assert_eq!(worker.payload(), Some(PREAMBLE));
    assert_eq!(worker.state(), WorkerState::SendPreamble);

    // A credit is asked for: no write can have ended, nor a pause.
    assert_eq!(worker.step(WorkerEvent::Written), WorkerAction::Write);
    let credit = worker.step(WorkerEvent::Written);
    assert_eq!(credit, WorkerAction::Credit { amount: 4 });
    assert_eq!(worker.step(WorkerEvent::Written), credit);
    assert_eq!(worker.step(WorkerEvent::WriteFailed), credit);
    assert_eq!(worker.step(WorkerEvent::Paused), credit);
    assert_eq!(worker.state(), WorkerState::Stream);

    let pause = worker.step(WorkerEvent::Credited);
    assert_eq!(pause, WorkerAction::Pause { nanos: 100 });

    // A pause is asked for: no write can have ended, nor a credit.
    assert_eq!(worker.step(WorkerEvent::Written), pause);
    assert_eq!(worker.step(WorkerEvent::WriteFailed), pause);
    assert_eq!(worker.step(WorkerEvent::Credited), pause);
    assert_eq!(worker.state(), WorkerState::Stream);
    assert_eq!(worker.step(WorkerEvent::Paused), WorkerAction::Write);
}

#[test]
fn the_worker_keeps_the_address_of_its_peer() {
    let zeros = ZeroChunk::new(4);
    let address = PeerAddress::V6 { ip: 1, port: 2, flowinfo: 3, scope_id: 4 };
    let mut worker = ConnectionWorker::new(address, PREAMBLE, ByteSource::zero_fill(&zeros));
    for event in [
        WorkerEvent::Written,
        WorkerEvent::Written,
        WorkerEvent::Credited,
        WorkerEvent::Paused,
        WorkerEvent::WriteFailed,
    ] {
        worker.step(event);
        assert_eq!(worker.address(), address);
    }
}

#[test]
fn the_preamble_is_never_credited() {
    let zeros = ZeroChunk::new(1024);
    for preamble in [&b""[..], &b"x"[..], PREAMBLE] {
        let mut worker = ConnectionWorker::new(client(), preamble, ByteSource::zero_fill(&zeros));
        assert!(!matches!(worker.action(), WorkerAction::Credit { .. }));
        let next = worker.step(WorkerEvent::Written);
        assert_eq!(next, WorkerAction::Write);
        assert_eq!(worker.payload(), Some(&[0u8; 1024][..]));
        assert_eq!(worker.step(WorkerEvent::Written), WorkerAction::Credit { amount: 1024 });
    }
}
