use endless_stream::ledger::Resume;
use endless_stream::peer::PeerAddress;
use endless_stream::source::{ByteSource, ZeroChunk};
use endless_stream::worker::{
    CloseReason, ConnectionWorker, WorkerAction, WorkerEvent, WorkerState,
};

const PREAMBLE: &[u8] = b"HTTP/1.1 200 OK\r\nConnection: close\r\n\r\n";

/// A peer that takes in `room` bytes and then is gone: the write that would
/// exceed them fails, and so does every write after it.
struct Peer {
    room: usize,
    received: Vec<u8>,
    gone: bool,
}

impl Peer {
    fn reading(room: usize) -> Peer {
        Peer { room, received: Vec::new(), gone: false }
    }

    fn write_all(&mut self, bytes: &[u8]) -> bool {
        if self.gone || self.received.len() + bytes.len() > self.room {
            self.gone = true;
            return false;
        }
        self.received.extend_from_slice(bytes);
        true
    }
}

/// Does once what the worker asks for. Gives back the reason of the close
/// where the worker has closed.
fn carry_out(
    worker: &mut ConnectionWorker,
    peer: &mut Peer,
    ledger: &mut Resume,
    paused: &mut u64,
) -> Option<CloseReason> {
    let event = match worker.action() {
        WorkerAction::Write => {
            let payload = worker.payload().expect("a write has a payload");
            if peer.write_all(payload) {
                WorkerEvent::Written
            } else {
                WorkerEvent::WriteFailed
            }
        }
        WorkerAction::Credit { amount } => {
            assert!(ledger.try_increment_address_by(&worker.address(), amount));
            WorkerEvent::Credited
        }
        WorkerAction::Pause { nanos } => {
            *paused += nanos;
            WorkerEvent::Paused
        }
        WorkerAction::Close { reason } => return Some(reason),
    };
    worker.step(event);
    None
}

fn serve(worker: &mut ConnectionWorker, peer: &mut Peer, ledger: &mut Resume) -> (CloseReason, u64) {
    let mut paused = 0;
    loop {
        if let Some(reason) = carry_out(worker, peer, ledger, &mut paused) {
            return (reason, paused);
        }
    }
}

fn sent_to(ledger: &Resume, address: &PeerAddress) -> Option<u128> {
    ledger.get(address).map(|record| record.bytes_sent())
}

fn client(port: u16) -> PeerAddress {
    PeerAddress::V4 { ip: 0x7f00_0001, port }
}

#[test]
fn a_client_that_reads_the_preamble_and_four_chunks() {
    let zeros = ZeroChunk::new(1024);
    let mut ledger = Resume::new();
    let mut peer = Peer::reading(PREAMBLE.len() + 4096);
    let mut worker = ConnectionWorker::new(client(40_000), PREAMBLE, ByteSource::zero_fill(&zeros));

    let (reason, paused) = serve(&mut worker, &mut peer, &mut ledger);

    assert_eq!(reason, CloseReason::StreamFailed);
    assert_eq!(peer.received.len(), PREAMBLE.len() + 4096);
    assert_eq!(&peer.received[..PREAMBLE.len()], PREAMBLE);
    assert!(peer.received[PREAMBLE.len()..].iter().all(|byte| *byte == 0));
    assert_eq!(paused, 4 * 100);

    let taken = ledger.snapshot();
    assert!(sent_to(&ledger, &client(40_000)).unwrap() >= 4096);
    assert_eq!(sent_to(&ledger, &client(40_000)), Some(4096));
    assert_eq!(taken.peer_count, 1);
    assert_eq!(taken.total_bytes, 4096);
}

#[test]
fn the_ledger_counts_exactly_the_chunks_that_the_peer_received() {
    let zeros = ZeroChunk::new(100);
    for room in [0usize, 1, 37, 38, 39, 137, 138, 139, 1000, 5038] {
        let mut ledger = Resume::new();
        let mut peer = Peer::reading(room);
        let mut worker =
            ConnectionWorker::new(client(40_001), PREAMBLE, ByteSource::zero_fill(&zeros));
        serve(&mut worker, &mut peer, &mut ledger);
        let chunks = if room < PREAMBLE.len() { 0 } else { (room - PREAMBLE.len()) / 100 };
        let expected = if room < PREAMBLE.len() { 0 } else { PREAMBLE.len() + 100 * chunks };
        assert_eq!(peer.received.len(), expected);
        let counted = sent_to(&ledger, &client(40_001));
        assert_eq!(counted, if chunks == 0 { None } else { Some(100 * chunks as u128) });
        assert_eq!(ledger.snapshot().peer_count, if chunks == 0 { 0 } else { 1 });
    }
}

#[test]
fn a_peer_that_is_gone_at_once_receives_nothing_and_leaves_no_record() {
    let zeros = ZeroChunk::new(1024);
    let mut ledger = Resume::new();
    let mut peer = Peer::reading(PREAMBLE.len() - 1);
    let mut worker = ConnectionWorker::new(client(40_002), PREAMBLE, ByteSource::zero_fill(&zeros));

    let (reason, paused) = serve(&mut worker, &mut peer, &mut ledger);

    assert_eq!(reason, CloseReason::PreambleFailed);
    assert_eq!(paused, 0);
    assert!(peer.received.is_empty());
    assert_eq!(sent_to(&ledger, &client(40_002)), None);
    assert_eq!(ledger.snapshot().peer_count, 0);
}

#[test]
fn the_preamble_comes_before_any_filler_from_either_source() {
    let zeros = ZeroChunk::new(64);
    for random in [false, true] {
        let source =
            if random { ByteSource::random_fill(7, 64) } else { ByteSource::zero_fill(&zeros) };
        let mut ledger = Resume::new();
        let mut peer = Peer::reading(PREAMBLE.len() + 640);
        let mut worker = ConnectionWorker::new(client(40_003), PREAMBLE, source);
        let (_, paused) = serve(&mut worker, &mut peer, &mut ledger);
        assert_eq!(&peer.received[..PREAMBLE.len()], PREAMBLE);
        assert_eq!(peer.received.len(), PREAMBLE.len() + 640);
        assert_eq!(paused, if random { 0 } else { 1000 });
        assert_eq!(
            peer.received[PREAMBLE.len()..].iter().all(|byte| *byte == 0),
            !random
        );
    }
}

#[test]
fn nothing_is_credited_once_the_worker_has_closed() {
    let zeros = ZeroChunk::new(512);
    let mut ledger = Resume::new();
    let mut peer = Peer::reading(PREAMBLE.len() + 1024);
    let mut worker = ConnectionWorker::new(client(40_004), PREAMBLE, ByteSource::zero_fill(&zeros));
    serve(&mut worker, &mut peer, &mut ledger);
    let at_close = ledger.snapshot();
    let received_at_close = peer.received.clone();

    let mut paused = 0;
    for _ in 0..100 {
        let closed = carry_out(&mut worker, &mut peer, &mut ledger, &mut paused);
        assert_eq!(closed, Some(CloseReason::StreamFailed));
        for event in [
            WorkerEvent::Written,
            WorkerEvent::Credited,
            WorkerEvent::Paused,
            WorkerEvent::WriteFailed,
        ] {
            worker.step(event);
        }
    }

    assert_eq!(worker.state(), WorkerState::Closed);
    assert_eq!(ledger.snapshot(), at_close);
    assert_eq!(peer.received, received_at_close);
    assert_eq!(paused, 0);
}

#[test]
fn a_client_that_disconnects_does_not_disturb_another() {
    let zeros = ZeroChunk::new(1024);
    let mut ledger = Resume::new();
    let leaving = client(41_000);
    let staying = client(41_001);
    let mut short = Peer::reading(PREAMBLE.len() + 2048);
    let mut long = Peer::reading(usize::MAX);
    let mut first = ConnectionWorker::new(leaving, PREAMBLE, ByteSource::zero_fill(&zeros));
    let mut second = ConnectionWorker::new(staying, PREAMBLE, ByteSource::zero_fill(&zeros));
    let mut paused = 0;

    // Both are served in turn, one action each, until the first has closed.
    let mut closed = None;
    while closed.is_none() {
        closed = carry_out(&mut first, &mut short, &mut ledger, &mut paused);
        assert_eq!(carry_out(&mut second, &mut long, &mut ledger, &mut paused), None);
    }
    assert_eq!(closed, Some(CloseReason::StreamFailed));
    assert_eq!(first.state(), WorkerState::Closed);
    assert_eq!(second.state(), WorkerState::Stream);
    let left_with = sent_to(&ledger, &leaving).unwrap();
    assert_eq!(left_with, 2048);

    // The second goes on as before.
    let mut before = sent_to(&ledger, &staying).unwrap();
    for _ in 0..30 {
        assert_eq!(carry_out(&mut second, &mut long, &mut ledger, &mut paused), None);
        let now = sent_to(&ledger, &staying).unwrap();
        assert!(now >= before);
        before = now;
    }
    assert_eq!(second.state(), WorkerState::Stream);
    assert_eq!(sent_to(&ledger, &staying), Some((long.received.len() - PREAMBLE.len()) as u128));
    assert_eq!(long.received.len() % 1024, PREAMBLE.len());
    assert_eq!(sent_to(&ledger, &leaving), Some(left_with));
    assert_eq!(ledger.snapshot().peer_count, 2);
    assert_eq!(
        ledger.snapshot().total_bytes,
        left_with + (long.received.len() - PREAMBLE.len()) as u128
    );
}

#[test]
fn two_connections_from_one_address_share_one_record() {
    let zeros = ZeroChunk::new(10);
    let mut ledger = Resume::new();
    for _ in 0..2 {
        let mut peer = Peer::reading(PREAMBLE.len() + 30);
        let mut worker =
            ConnectionWorker::new(client(42_000), PREAMBLE, ByteSource::zero_fill(&zeros));
        serve(&mut worker, &mut peer, &mut ledger);
    }
    assert_eq!(sent_to(&ledger, &client(42_000)), Some(60));
    assert_eq!(ledger.snapshot().peer_count, 1);
}

#[test]
fn a_record_after_the_preamble_and_some_chunks_counts_the_chunks_alone() {
    let zeros = ZeroChunk::new(1024);
    for chunks in [0usize, 1, 2, 5, 40] {
        let mut ledger = Resume::new();
        ledger.increment_address_by(&client(43_000), 777);
        let mut peer = Peer::reading(PREAMBLE.len() + 1024 * chunks);
        let mut worker =
            ConnectionWorker::new(client(43_000), PREAMBLE, ByteSource::zero_fill(&zeros));
        let (reason, _) = serve(&mut worker, &mut peer, &mut ledger);
        assert_eq!(reason, CloseReason::StreamFailed);
        assert_eq!(sent_to(&ledger, &client(43_000)), Some(777 + 1024 * chunks as u128));
    }
}

#[test]
fn one_chunk_for_one_client_and_five_for_another() {
    let zeros = ZeroChunk::new(1024);
    let mut ledger = Resume::new();
    let mut one = Peer::reading(PREAMBLE.len() + 1024);
    let mut other = Peer::reading(PREAMBLE.len() + 5 * 1024);
    let mut first = ConnectionWorker::new(client(9001), PREAMBLE, ByteSource::zero_fill(&zeros));
    let mut second = ConnectionWorker::new(client(9002), PREAMBLE, ByteSource::zero_fill(&zeros));
    let mut paused = 0;

    // Both are served in turn, one action each, until both have closed.
    let mut closed = (None, None);
    while closed.0.is_none() || closed.1.is_none() {
        closed.0 = carry_out(&mut first, &mut one, &mut ledger, &mut paused);
        closed.1 = carry_out(&mut second, &mut other, &mut ledger, &mut paused);
    }

    assert_eq!(closed, (Some(CloseReason::StreamFailed), Some(CloseReason::StreamFailed)));
    assert_eq!(sent_to(&ledger, &client(9001)), Some(1024));
    assert_eq!(sent_to(&ledger, &client(9002)), Some(5120));
    assert_eq!(ledger.snapshot().peer_count, 2);
    assert_eq!(ledger.snapshot().total_bytes, 6144);
}

#[test]
fn a_client_that_takes_the_preamble_and_refuses_the_first_chunk_leaves_no_record() {
    let zeros = ZeroChunk::new(1024);
    for preamble in [&b""[..], &b"x"[..], PREAMBLE] {
        let mut ledger = Resume::new();
        let mut peer = Peer::reading(preamble.len());
        let mut worker =
            ConnectionWorker::new(client(9000), preamble, ByteSource::zero_fill(&zeros));
        let (reason, paused) = serve(&mut worker, &mut peer, &mut ledger);
        assert_eq!(reason, CloseReason::StreamFailed);
        assert_eq!(paused, 0);
        assert_eq!(peer.received, preamble);
        assert_eq!(sent_to(&ledger, &client(9000)), None);
        assert_eq!(ledger.snapshot().peer_count, 0);
        assert_eq!(ledger.snapshot().total_bytes, 0);
        assert_eq!(ledger.debug_line(), "clients_count: 0, bytes_total: 0 B");
    }
}
