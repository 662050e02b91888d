//! Bookkeeping and control logic of an endless byte stream endpoint.
//!
//! The endpoint answers every connection with a fixed preamble and then with
//! filler bytes without end, and keeps count of what it has sent to whom.
//! Here is what it decides and what it counts; the sockets, the tasks and the
//! clock are the business of whoever drives it.

pub mod counts;
pub mod ledger;
pub mod peer;
pub mod report;
pub mod session;
pub mod source;
pub mod worker;

pub use crate::ledger::{ClientResume, LedgerSnapshot, Resume};
pub use crate::peer::PeerAddress;
pub use crate::source::{ByteSource, ZeroChunk};
pub use crate::worker::ConnectionWorker;
