use vstd::prelude::*;

verus! {

/// The broad category of an I/O failure.
#[derive(Debug, Clone, Copy, PartialEq, Eq, Structural)]
pub enum IoErrorKind {
    /// The input ended before the bytes that were asked for.
    UnexpectedEof,
    /// Any other I/O failure.
    Other,
}

/// An I/O failure: its category and its message.
#[derive(Debug, Clone)]
pub struct IoError {
    pub kind: IoErrorKind,
    pub message: String,
}

/// Errors that can occur when reading log files.
#[derive(Debug, Clone)]
pub enum ReadError {
    /// I/O error.
    Io(IoError),
    /// Invalid log file header: expected 'SSL_LOG_FILE', found `found`.
    InvalidHeader { found: String },
    /// Unsupported log file version.
    UnsupportedVersion { version: i32 },
    /// Invalid message length.
    InvalidLength { length: i32 },
    /// Unknown message ID.
    UnknownMessageId { id: i32 },
    /// Random access is not supported for compressed log files.
    NoRandomAccessForCompressed,
}

/// Errors that can occur when writing log files.
#[derive(Debug, Clone)]
pub enum WriteError {
    /// I/O error.
    Io(IoError),
}

/// The message of the error that a read reports when the input ends before
/// all the bytes it needs.
pub open spec fn short_read_message() -> Seq<char> {
    "failed to fill whole buffer"@
}

/// The message of the error that a read at a given offset reports when no
/// message header starts there.
pub open spec fn missing_header_message() -> Seq<char> {
    "unexpected end of file while reading message header"@
}

/// `e` is the error of a read that ran out of input.
pub open spec fn is_short_read(e: ReadError) -> bool {
    e matches ReadError::Io(io) && io.kind == IoErrorKind::UnexpectedEof && io.message@
        == short_read_message()
}

/// `e` is the error of a read at an offset where no message header starts.
pub open spec fn is_missing_header(e: ReadError) -> bool {
    e matches ReadError::Io(io) && io.kind == IoErrorKind::UnexpectedEof && io.message@
        == missing_header_message()
}

/// The message of the error that reading the index of a plain file without
/// a readable index reports.
pub open spec fn missing_index_message() -> Seq<char> {
    "log file has no readable index"@
}

/// `e` is the error of reading the index of a plain file without a readable
/// index.
pub open spec fn is_missing_index(e: ReadError) -> bool {
    e matches ReadError::Io(io) && io.kind == IoErrorKind::Other && io.message@
        == missing_index_message()
}

/// The error of reading the index of a plain file without a readable index.
pub(crate) fn missing_index_error() -> (e: ReadError)
    ensures
        is_missing_index(e),
{
    ReadError::Io(
        IoError { kind: IoErrorKind::Other, message: String::from_str("log file has no readable index") },
    )
}

/// The error of a read that ran out of input.
pub(crate) fn short_read_error() -> (e: ReadError)
    ensures
        is_short_read(e),
{
    ReadError::Io(
        IoError {
            kind: IoErrorKind::UnexpectedEof,
            message: String::from_str("failed to fill whole buffer"),
        },
    )
}

/// The error of a read at an offset where no message header starts.
pub(crate) fn missing_header_error() -> (e: ReadError)
    ensures
        is_missing_header(e),
{
    ReadError::Io(
        IoError {
            kind: IoErrorKind::UnexpectedEof,
            message: String::from_str("unexpected end of file while reading message header"),
        },
    )
}

} // verus!
