use vstd::prelude::*;

verus! {

/// Failure taxonomy for the protocol client.
///
/// Every protocol or transport failure is reported to the immediate caller
/// through one of these variants; nothing is retried internally.
#[derive(Debug)]
pub enum AdbError {
    /// A length or status field on the wire could not be parsed.
    ProtocolParseError { why: String },
    /// A socket-level failure, reported by the I/O layer.
    IoError { why: String },
    /// Fewer bytes were available than a frame declared.
    ShortRead { expected: usize, got: usize },
    /// A local path is not representable in the sync protocol's string form.
    FilePathErr { path: String },
    /// A request could not be framed before sending.
    WriteMsgErr { cause: String },
    /// The remote side signalled failure during a file transfer.
    FileTransferErr { filename: String, cause: String },
}

/// Failure raised when probing whether the daemon connection is usable.
#[derive(Debug)]
pub enum CheckError {
    AdbCheckError { raw_err: String, cause: String },
}

pub type CheckResult<T> = Result<T, CheckError>;

} // verus!
