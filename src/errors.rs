use vstd::prelude::*;

verus! {

/// `std::io::Error`, carried unopened in the errors that report what the
/// operating system said.
#[verifier::external_type_specification]
#[verifier::external_body]
pub struct ExIoError(std::io::Error);

/// Errors reported by the benchmark engines and their helpers.
#[derive(Debug)]
pub enum AppError {
    /// A feature that is not supported (for instance an IPv6 endpoint).
    NotImplemented(&'static str),
    /// A failed system call: its name and the operating system's error.
    IOError(&'static str, std::io::Error),
    /// The address could not be resolved: the address and the cause.
    UnableToResolveNetAddr(String, String),
    /// The kernel refused a datagram as too large.
    PacketSizeTooLarge,
    /// The stats file could not be created or written.
    StatsFileError(std::io::Error),
    /// A kernel ring operation failed.
    IoUringError(std::io::Error),
    /// The submission queue was full: request kind, slot and queue capacity.
    IoUringFull(&'static str, usize, usize),
    /// A received buffer is too short to hold a packet header.
    MalformedPacket,
    /// A completion carried a tag that no outstanding request was given.
    UnknownCompletion(u64),
}

} // verus!
