//! A UDP packet-rate benchmark: the packet codec, the time-bucketed stats
//! aggregator, and the decisions of the syscall and io_uring engines, with
//! their contracts.

pub mod csv;
pub mod engine;
pub mod errors;
pub mod net;
pub mod packetgen;
pub mod pkt;
pub mod settings;
pub mod stats;
pub mod uring;
