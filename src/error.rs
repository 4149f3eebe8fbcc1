use vstd::prelude::*;

verus! {

/// Errors of the transport. Failures of the operating system are carried as
/// text; the ring's own conditions carry the values that caused them.
#[derive(Debug)]
pub enum Error {
    /// A socket or file-system call failed.
    Io { detail: String },
    /// A bad region header, an unsupported version, a misconfigured size or a
    /// duplicate registration.
    InvalidParameter { detail: String },
    /// Creating an anonymous mapping failed.
    MmapAnonymous { detail: String },
    /// Mapping a region failed.
    Mmap { detail: String },
    /// Back-pressure on publish: `expected` bytes are needed, `remaining` are free.
    NotEnoughSpace { remaining: u64, expected: u64 },
    /// A name for an operating-system object was not valid UTF-8.
    FromUtf8 { detail: String },
    /// Creating the anonymous memory object named `fd_name` failed.
    MemFd { fd_name: String, detail: String },
    /// A name for an operating-system object held a zero byte.
    NulZero { detail: String },
    /// The block header at this absolute offset fails its CRC.
    HeaderChecksum { offset: u64 },
    /// The payload of the block at this absolute offset fails its CRC.
    PayloadChecksum { offset: u64 },
    /// The block at this absolute offset has a length that does not fit the ring.
    Malformed { offset: u64 },
}

pub type Result<T> = core::result::Result<T, Error>;

} // verus!
