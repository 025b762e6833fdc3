//! Reading and writing RoboCup SSL log files, with the binary format, the
//! readers and writers, and the log viewer's state verified by Verus.
//!
//! The SSL log format is a binary format consisting of:
//! - a 16-byte header: `"SSL_LOG_FILE"` (12 bytes) and the version `1`
//!   (4 bytes, big-endian);
//! - a sequence of messages, each with a big-endian `i64` receiver timestamp
//!   in nanoseconds, a big-endian `i32` message id, a big-endian `i32`
//!   payload length and the raw protobuf payload;
//! - an optional index at the end of the file for random access.
//!
//! Gzip-compressed files are decompressed and compressed through flate2.

pub mod bytes;
pub mod error;
pub mod explore;
pub mod format;
pub mod gzip;
pub mod message;
pub mod reader;
pub mod viewer;
pub mod writer;

pub use error::{IoError, IoErrorKind, ReadError, WriteError};
pub use explore::{
    resolve_type_filter, DumpSelection, DumpStep, LogStats, MsgTypeFilter, OutputLimit,
    RefereeChanges,
};
pub use format::{file_header, indexed_marker, FILE_VERSION, HEADER_SIZE};
pub use message::{LogMessage, MessageId};
pub use reader::{find_message_at_index, LogMessageInfo, LogReader, ReadProgress};
pub use viewer::{
    default_type_counts, hex_dump_lines, increment_type_count, indexed_progress,
    scan_progress_due, App, DetailSource, LoadedEntries, LoadingState, LogEntryDetail,
    LogEntryMeta, MessageTypeSet, Tab,
};
pub use writer::LogWriter;
