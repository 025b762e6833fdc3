//! Reading SSL log files, plain or gzip-compressed, from their bytes.
use vstd::math::min;
use vstd::prelude::*;

use crate::bytes::{read_i32_be, read_i64_be, u64_from_be_bytes};
use crate::error::{
    is_missing_header, is_missing_index, is_short_read, missing_header_error, missing_index_error,
    short_read_error, IoError,
    IoErrorKind, ReadError,
};
use crate::format::{
    check_header, decode_consumed, messages_consumed, decode_head, decode_message, decode_messages, ends_with_marker, file_header,
    file_magic, index_entry_count, index_layout_ok, index_offsets, index_seek_back, index_start,
    indexed_marker, lemma_decode_message_consumes, lemma_encode_messages_split, lemma_log_roundtrip, lemma_read_in_turn, message_offset, log_bytes, encodable, reports, HeaderCheck, RecordFailure,
    RecordHead, RecordStep, FILE_VERSION, HEADER_SIZE,
};
use crate::gzip::{error_view, gunzip, gunzip_bytes};
use crate::message::{LogMessage, LogMessageView, MessageId};

verus! {

/// Lightweight metadata about a log message.
#[derive(Debug, Clone, Copy)]
pub struct LogMessageInfo {
    pub timestamp_ns: i64,
    pub message_id: MessageId,
    pub payload_len: usize,
}

/// Progress information for an in-flight read.
#[derive(Debug, Clone, Copy)]
pub struct ReadProgress {
    pub bytes_read: u64,
    pub total_bytes: u64,
}

/// The text that std's `String::from_utf8_lossy` makes of `bytes`.
pub uninterp spec fn utf8_lossy(bytes: Seq<u8>) -> Seq<char>;

/// Converts `bytes` to text with std's `String::from_utf8_lossy`, which
/// replaces invalid UTF-8 sequences; the contract names the result
/// `utf8_lossy(bytes)`.
#[verifier::external_body]
fn lossy_string(bytes: &[u8]) -> (s: String)
    ensures
        s@ == utf8_lossy(bytes@),
{
    String::from_utf8_lossy(bytes).into_owned()
}

/// The decompressed stream of a file with the bytes `raw`, and the kind and
/// the message of the decoding error that ended it, if one did. A plain file
/// is its own stream.
pub open spec fn stream_of(raw: Seq<u8>, compressed: bool) -> (
    Seq<u8>,
    Option<(IoErrorKind, Seq<char>)>,
) {
    if compressed {
        gunzip(raw)
    } else {
        (raw, None)
    }
}

/// `e` is the I/O error whose kind and message are `d`.
pub open spec fn is_damage(e: ReadError, d: (IoErrorKind, Seq<char>)) -> bool {
    e matches ReadError::Io(io) && io.kind == d.0 && io.message@ == d.1
}

/// A stream that ended with `damage` ends like a complete one at a message
/// boundary: it ended without an error, or with one that says that the
/// input ended early.
pub open spec fn ends_cleanly(damage: Option<(IoErrorKind, Seq<char>)>) -> bool {
    match damage {
        None => true,
        Some(d) => d.0 == IoErrorKind::UnexpectedEof,
    }
}

/// `e` is the error that a reader whose stream ended with `damage` reports
/// for `failure`: where the stream runs out inside a message, the decoding
/// error that ended it, if there is one.
pub open spec fn reports_in(
    e: ReadError,
    failure: RecordFailure,
    damage: Option<(IoErrorKind, Seq<char>)>,
) -> bool {
    match damage {
        Some(d) => if failure is Truncated {
            is_damage(e, d)
        } else {
            reports(e, failure)
        },
        None => reports(e, failure),
    }
}

/// `r` is what a reader whose stream ended with `damage` reports at the end
/// of the stream, between two messages: no message where the stream ended
/// cleanly, else the decoding error.
pub open spec fn reports_end<T>(
    r: Result<Option<T>, ReadError>,
    damage: Option<(IoErrorKind, Seq<char>)>,
) -> bool {
    if ends_cleanly(damage) {
        r matches Ok(None)
    } else {
        r matches Err(e) && is_damage(e, damage->Some_0)
    }
}

/// `e` is the error that a reader reports for the header check `c`.
pub open spec fn reports_header(e: ReadError, c: HeaderCheck) -> bool {
    match c {
        HeaderCheck::Valid => false,
        HeaderCheck::Truncated => is_short_read(e),
        HeaderCheck::BadMagic { found } => e matches ReadError::InvalidHeader { found: f } && f@
            == utf8_lossy(found),
        HeaderCheck::BadVersion { version } => e matches ReadError::UnsupportedVersion {
            version: v,
        } && v == version,
    }
}

/// `e` is the error that a reader whose stream ended with `damage` reports
/// for the header check `c`: where the stream runs out inside the header, the
/// decoding error that ended it, if there is one.
pub open spec fn reports_header_in(
    e: ReadError,
    c: HeaderCheck,
    damage: Option<(IoErrorKind, Seq<char>)>,
) -> bool {
    match damage {
        Some(d) => if c is Truncated {
            is_damage(e, d)
        } else {
            reports_header(e, c)
        },
        None => reports_header(e, c),
    }
}

/// Skipping a payload of `payload_len` bytes after the message header at the
/// cursor of `v` runs into the decoding error that ended the stream.
pub open spec fn skip_hits_damage(v: LogReaderView, payload_len: int) -> bool {
    v.damage is Some && v.data.len() < v.pos + 16 + payload_len
}

/// `info` holds the fields of the message header `h`.
pub open spec fn info_matches(info: LogMessageInfo, h: RecordHead) -> bool {
    h matches RecordHead::Head { timestamp_ns, message_id, payload_len } && info.timestamp_ns
        == timestamp_ns && info.message_id == message_id && info.payload_len == payload_len
}

/// What a log reader holds: the decompressed stream, the position of its
/// cursor in it, whether the file was compressed, the size of the file, and
/// the kind and the message of the decoding error that ended the stream, if
/// one did.
pub struct LogReaderView {
    pub data: Seq<u8>,
    pub pos: int,
    pub compressed: bool,
    pub total_bytes: u64,
    pub damage: Option<(IoErrorKind, Seq<char>)>,
}

impl LogReaderView {
    /// The bytes of the stream after the cursor.
    pub open spec fn remaining(self) -> Seq<u8> {
        self.data.skip(self.pos)
    }

    /// Where a seek to `offset` puts the cursor: the offset, or the end of
    /// the stream if the offset lies beyond it.
    pub open spec fn seek_target(self, offset: u64) -> int {
        if offset < self.data.len() {
            offset as int
        } else {
            self.data.len() as int
        }
    }

    /// The bytes of the stream after a seek to `offset`.
    pub open spec fn from_offset(self, offset: u64) -> Seq<u8> {
        self.data.skip(self.seek_target(offset))
    }

    /// The same reader, with its cursor at `pos`.
    pub open spec fn at(self, pos: int) -> LogReaderView {
        LogReaderView { pos, ..self }
    }
}

/// `r` and `after` are what reading the message at `offset` gives and leaves
/// of the reader `before`: an error for a compressed file, else the message
/// that starts at the offset, with the cursor after what was read.
pub open spec fn read_at_outcome(
    before: LogReaderView,
    offset: u64,
    r: Result<LogMessage, ReadError>,
    after: LogReaderView,
) -> bool {
    if before.compressed {
        r matches Err(ReadError::NoRandomAccessForCompressed) && after == before
    } else {
        &&& after == before.at(after.pos)
        &&& match decode_message(before.from_offset(offset)) {
            RecordStep::End => r matches Err(e) && is_missing_header(e) && after.pos
                == before.data.len(),
            RecordStep::Failed { failure, consumed } => r matches Err(e) && reports(e, failure)
                && after.pos == before.seek_target(offset) + consumed,
            RecordStep::Message { message, consumed } => r matches Ok(m) && m@ == message
                && after.pos == before.seek_target(offset) + consumed,
        }
    }
}

/// Reads SSL log files, both plain and gzip-compressed, from the bytes of the
/// file.
pub struct LogReader {
    data: Vec<u8>,
    pos: usize,
    compressed: bool,
    total_bytes: u64,
    damage: Option<IoError>,
}

impl View for LogReader {
    type V = LogReaderView;

    closed spec fn view(&self) -> LogReaderView {
        LogReaderView {
            data: self.data@,
            pos: self.pos as int,
            compressed: self.compressed,
            total_bytes: self.total_bytes,
            damage: error_view(self.damage),
        }
    }
}

/// Copies the eight bytes at `p`.
fn take8(data: &Vec<u8>, p: usize) -> (b: [u8; 8])
    requires
        p + 8 <= data.len(),
    ensures
        b@ == data@.subrange(p as int, p + 8),
{
    let b = [
        data[p],
        data[p + 1],
        data[p + 2],
        data[p + 3],
        data[p + 4],
        data[p + 5],
        data[p + 6],
        data[p + 7],
    ];
    assert(b@ =~= data@.subrange(p as int, p + 8));
    b
}

/// Copies the four bytes at `p`.
fn take4(data: &Vec<u8>, p: usize) -> (b: [u8; 4])
    requires
        p + 4 <= data.len(),
    ensures
        b@ == data@.subrange(p as int, p + 4),
{
    let b = [data[p], data[p + 1], data[p + 2], data[p + 3]];
    assert(b@ =~= data@.subrange(p as int, p + 4));
    b
}

/// Copies the bytes from `start` to `end`.
fn copy_range(data: &Vec<u8>, start: usize, end: usize) -> (v: Vec<u8>)
    requires
        start <= end <= data.len(),
    ensures
        v@ == data@.subrange(start as int, end as int),
{
    let mut v: Vec<u8> = Vec::with_capacity(end - start);
    let mut i = start;
    while i < end
        invariant
            start <= i <= end <= data.len(),
            v@ == data@.subrange(start as int, i as int),
        decreases end - i,
    {
        v.push(data[i]);
        i = i + 1;
        assert(v@ =~= data@.subrange(start as int, i as int));
    }
    v
}

/// Checks the file header at the start of `data`, a stream that ended with
/// `damage`.
fn verify_header(data: &Vec<u8>, damage: &Option<IoError>) -> (r: Result<(), ReadError>)
    ensures
        match check_header(data@) {
            HeaderCheck::Valid => r is Ok,
            c => r matches Err(e) && reports_header_in(e, c, error_view(*damage)),
        },
{
    if data.len() < 12 {
        return Err(cut_short_error(damage));
    }
    let magic = file_header();
    let mut i: usize = 0;
    while i < 12
        invariant
            12 <= data.len(),
            magic@ == file_magic(),
            i <= 12,
            forall|j: int| 0 <= j < i ==> data@[j] == magic@[j],
        decreases 12 - i,
    {
        if data[i] != magic[i] {
            assert(data@.subrange(0, 12)[i as int] != file_magic()[i as int]);
            let found = copy_range(data, 0, 12);
            return Err(ReadError::InvalidHeader { found: lossy_string(found.as_slice()) });
        }
        i = i + 1;
    }
    assert(data@.subrange(0, 12) =~= file_magic());
    if data.len() < 16 {
        return Err(cut_short_error(damage));
    }
    let version = read_i32_be(take4(data, 12));
    if version != FILE_VERSION {
        return Err(ReadError::UnsupportedVersion { version });
    }
    Ok(())
}

/// The error reported for the decoding error `d` that ended the stream.
fn damage_error(d: &IoError) -> (e: ReadError)
    ensures
        is_damage(e, (d.kind, d.message@)),
{
    ReadError::Io(IoError { kind: d.kind, message: d.message.clone() })
}

/// The error reported where the stream, which ended with `damage`, runs out
/// inside a message.
fn cut_short_error(damage: &Option<IoError>) -> (e: ReadError)
    ensures
        reports_in(e, RecordFailure::Truncated, error_view(*damage)),
{
    match damage {
        Some(d) => damage_error(d),
        None => short_read_error(),
    }
}

/// The result and the new cursor position of reading a message header at
/// `pos`, in a stream that ended with `damage`.
#[verifier::spinoff_prover]
fn read_message_info(data: &Vec<u8>, pos: usize, damage: &Option<IoError>) -> (res: (
    Result<Option<LogMessageInfo>, ReadError>,
    usize,
))
    requires
        pos <= data.len(),
    ensures
        pos <= res.1 <= data.len(),
        match decode_head(data@.skip(pos as int)) {
            RecordHead::End => reports_end(res.0, error_view(*damage)) && res.1 == data.len(),
            RecordHead::Failed { failure, consumed } => res.0 matches Err(e) && reports_in(
                e,
                failure,
                error_view(*damage),
            ) && res.1 == pos + consumed,
            h => res.0 matches Ok(Some(info)) && info_matches(info, h) && res.1 == pos + 16,
        },
{
    let ghost s = data@.skip(pos as int);
    let left = data.len() - pos;
    if left < 8 {
        match damage {
            Some(d) => match d.kind {
                IoErrorKind::UnexpectedEof => {
                    return (Ok(None), data.len());
                },
                IoErrorKind::Other => {
                    return (Err(damage_error(d)), data.len());
                },
            },
            None => {
                return (Ok(None), data.len());
            },
        }
    }
    let ts_bytes = take8(data, pos);
    assert(ts_bytes@ =~= s.subrange(0, 8));
    let timestamp_ns = read_i64_be(ts_bytes);
    if left < 12 {
        return (Err(cut_short_error(damage)), data.len());
    }
    let id_bytes = take4(data, pos + 8);
    assert(id_bytes@ =~= s.subrange(8, 12));
    let message_id_raw = read_i32_be(id_bytes);
    let message_id = match MessageId::from_i32(message_id_raw) {
        Some(id) => id,
        None => {
            return (Err(ReadError::UnknownMessageId { id: message_id_raw }), pos + 12);
        },
    };
    if left < 16 {
        return (Err(cut_short_error(damage)), data.len());
    }
    let len_bytes = take4(data, pos + 12);
    assert(len_bytes@ =~= s.subrange(12, 16));
    let length = read_i32_be(len_bytes);
    if length < 0 {
        return (Err(ReadError::InvalidLength { length }), pos + 16);
    }
    (Ok(Some(LogMessageInfo { timestamp_ns, message_id, payload_len: length as usize })), pos + 16)
}

impl LogReader {
    #[verifier::type_invariant]
    spec fn cursor_in_stream(&self) -> bool {
        &&& self.pos <= self.data.len()
        &&& !self.compressed ==> self.total_bytes == self.data.len()
        &&& !self.compressed ==> self.damage is None
    }

    /// Opens a log file from its bytes `raw`. A compressed file is
    /// decompressed first; where decoding fails part of the way, the bytes
    /// decoded before the failure are the stream, and each read that runs
    /// past them reports the failure (one that only says that the input ended
    /// early reads, between two messages, as the end of the log). The header
    /// is checked, and the cursor is placed after it.
    pub fn open(raw: Vec<u8>, compressed: bool) -> (r: Result<LogReader, ReadError>)
        ensures
            match r {
                Ok(reader) => {
                    &&& stream_of(raw@, compressed) == (reader@.data, reader@.damage)
                    &&& check_header(reader@.data) == HeaderCheck::Valid
                    &&& reader@.pos == HEADER_SIZE
                    &&& reader@.compressed == compressed
                    &&& reader@.total_bytes == raw@.len()
                },
                Err(e) => reports_header_in(
                    e,
                    check_header(stream_of(raw@, compressed).0),
                    stream_of(raw@, compressed).1,
                ),
            },
    {
        let total_bytes = raw.len() as u64;
        let (data, damage) = if compressed {
            gunzip_bytes(raw.as_slice())
        } else {
            (raw, None)
        };
        match verify_header(&data, &damage) {
            Ok(()) => {},
            Err(e) => {
                return Err(e);
            },
        }
        Ok(LogReader { data, pos: HEADER_SIZE, compressed, total_bytes, damage })
    }

    /// Whether the underlying file is gzip-compressed.
    pub fn is_compressed(&self) -> (b: bool)
        ensures
            b == self@.compressed,
    {
        self.compressed
    }

    /// Total input size in bytes.
    pub fn total_bytes(&self) -> (n: u64)
        ensures
            n == self@.total_bytes,
            !self@.compressed ==> n == self@.data.len(),
            self@.pos <= self@.data.len(),
    {
        proof {
            use_type_invariant(self);
        }
        self.total_bytes
    }

    /// Bytes consumed from the input: for a plain file, the position of the
    /// cursor; for a compressed file, the share of the file's bytes that
    /// matches the share of the decompressed stream before the cursor.
    ///
    /// The reader holds the whole file, so this is a position, not a count of
    /// bytes pulled from the file through a buffer: it counts no read-ahead,
    /// it never exceeds the file's size (a seek past the end leaves the
    /// cursor at the end), and for a compressed file it is an estimate, not
    /// the number of compressed bytes that decoding took.
    pub fn bytes_read(&self) -> (n: u64)
        ensures
            n <= self@.total_bytes,
            !self@.compressed ==> n == self@.pos,
            self@.compressed && self@.data.len() == 0 ==> n == 0,
            self@.compressed && self@.data.len() > 0 ==> n == self@.pos * self@.total_bytes
                / (self@.data.len() as int),
    {
        proof {
            use_type_invariant(self);
        }
        if !self.compressed {
            self.pos as u64
        } else if self.data.len() == 0 {
            0
        } else {
            let pos = self.pos as u128;
            let total = self.total_bytes as u128;
            let len = self.data.len() as u128;
            assert(pos * total <= len * total) by (nonlinear_arith)
                requires
                    pos <= len,
            ;
            assert(len * total <= u64::MAX * u64::MAX) by (nonlinear_arith)
                requires
                    len <= u64::MAX,
                    total <= u64::MAX,
            ;
            assert((pos * total) / (len as int) <= total) by (nonlinear_arith)
                requires
                    pos <= len,
                    len > 0,
            ;
            (pos * total / len) as u64
        }
    }

    /// Current read progress: `bytes_read` (a position, see
    /// [`bytes_read`](Self::bytes_read)) out of `total_bytes`.
    pub fn progress(&self) -> (p: ReadProgress)
        ensures
            p.bytes_read <= p.total_bytes,
            p.total_bytes == self@.total_bytes,
            !self@.compressed ==> p.bytes_read == self@.pos,
            self@.compressed && self@.data.len() == 0 ==> p.bytes_read == 0,
            self@.compressed && self@.data.len() > 0 ==> p.bytes_read == self@.pos
                * self@.total_bytes / (self@.data.len() as int),
    {
        ReadProgress { bytes_read: self.bytes_read(), total_bytes: self.total_bytes }
    }

    /// Checks whether the file has an index appended at the end.
    ///
    /// Returns `false` for compressed files (index not supported).
    pub fn is_indexed(&self) -> (b: bool)
        ensures
            b == (!self@.compressed && ends_with_marker(self@.data)),
    {
        if self.compressed {
            return false;
        }
        let len = self.data.len();
        if len < 7 {
            return false;
        }
        let marker = indexed_marker();
        let mut i: usize = 0;
        while i < 7
            invariant
                7 <= len == self.data.len(),
                marker@ == crate::format::indexed_marker_bytes(),
                i <= 7,
                forall|j: int| 0 <= j < i ==> self.data@[len - 7 + j] == marker@[j],
            decreases 7 - i,
        {
            if self.data[len - 7 + i] != marker[i] {
                assert(self.data@.subrange(len - 7, len as int)[i as int] != marker@[i as int]);
                return false;
            }
            i = i + 1;
        }
        assert(self.data@.subrange(len - 7, len as int) =~= marker@);
        true
    }

    /// Reads the payload of a message whose header `info` ended at `next`,
    /// and moves the cursor past it.
    fn read_payload(&mut self, next: usize, info: LogMessageInfo) -> (r: Result<LogMessage, ReadError>)
        requires
            next <= old(self)@.data.len(),
        ensures
            final(self)@ == old(self)@.at(final(self)@.pos),
            old(self)@.data.len() < next + info.payload_len ==> (r matches Err(e) && reports_in(
                e,
                RecordFailure::Truncated,
                old(self)@.damage,
            ) && final(self)@.pos == old(self)@.data.len()),
            next + info.payload_len <= old(self)@.data.len() ==> (r matches Ok(m) && m@ == (
            LogMessageView {
                timestamp_ns: info.timestamp_ns,
                message_id: info.message_id,
                payload: old(self)@.data.subrange(next as int, next + info.payload_len),
            }) && final(self)@.pos == next + info.payload_len),
    {
        proof {
            use_type_invariant(&*self);
        }
        let len = self.data.len();
        if info.payload_len > len - next {
            let e = cut_short_error(&self.damage);
            self.pos = len;
            return Err(e);
        }
        let payload = copy_range(&self.data, next, next + info.payload_len);
        self.pos = next + info.payload_len;
        Ok(LogMessage { timestamp_ns: info.timestamp_ns, message_id: info.message_id, payload })
    }

    /// Reads the next message from the log file.
    ///
    /// Returns `Ok(None)` when the end of the file is reached.
    pub fn next_message(&mut self) -> (r: Result<Option<LogMessage>, ReadError>)
        ensures
            final(self)@ == old(self)@.at(final(self)@.pos),
            match decode_message(old(self)@.remaining()) {
                RecordStep::End => reports_end(r, old(self)@.damage) && final(self)@.pos == old(
                    self,
                )@.data.len(),
                RecordStep::Failed { failure, consumed } => r matches Err(e) && reports_in(
                    e,
                    failure,
                    old(self)@.damage,
                ) && final(self)@.pos == old(self)@.pos + consumed,
                RecordStep::Message { message, consumed } => r matches Ok(Some(m)) && m@
                    == message && final(self)@.pos == old(self)@.pos + consumed,
            },
    {
        proof {
            use_type_invariant(&*self);
        }
        let ghost s = self.data@.skip(self.pos as int);
        let (info, next) = read_message_info(&self.data, self.pos, &self.damage);
        match info {
            Err(e) => {
                self.pos = next;
                Err(e)
            },
            Ok(None) => {
                self.pos = next;
                Ok(None)
            },
            Ok(Some(info)) => {
                if info.payload_len <= self.data.len() - next {
                    assert(s.subrange(16, 16 + info.payload_len as int) =~= self.data@.subrange(
                        next as int,
                        next + info.payload_len,
                    ));
                }
                match self.read_payload(next, info) {
                    Ok(m) => Ok(Some(m)),
                    Err(e) => Err(e),
                }
            },
        }
    }

    /// Reads lightweight metadata for the next message and skips its payload.
    /// A payload cut short by the end of the file is skipped as far as it
    /// goes; where a decoding error ended the stream there, it is reported.
    pub fn next_message_info(&mut self) -> (r: Result<Option<LogMessageInfo>, ReadError>)
        ensures
            final(self)@ == old(self)@.at(final(self)@.pos),
            match decode_head(old(self)@.remaining()) {
                RecordHead::End => reports_end(r, old(self)@.damage) && final(self)@.pos == old(
                    self,
                )@.data.len(),
                RecordHead::Failed { failure, consumed } => r matches Err(e) && reports_in(
                    e,
                    failure,
                    old(self)@.damage,
                ) && final(self)@.pos == old(self)@.pos + consumed,
                RecordHead::Head { payload_len, .. } => final(self)@.pos == min(
                    old(self)@.pos + 16 + payload_len,
                    old(self)@.data.len() as int,
                ) && if skip_hits_damage(old(self)@, payload_len) {
                    r matches Err(e) && is_damage(e, old(self)@.damage->Some_0)
                } else {
                    r matches Ok(Some(info)) && info_matches(
                        info,
                        decode_head(old(self)@.remaining()),
                    )
                },
            },
    {
        proof {
            use_type_invariant(&*self);
        }
        let (info, next) = read_message_info(&self.data, self.pos, &self.damage);
        match info {
            Err(e) => {
                self.pos = next;
                Err(e)
            },
            Ok(None) => {
                self.pos = next;
                Ok(None)
            },
            Ok(Some(info)) => match self.skip_payload(next, info.payload_len) {
                Ok(()) => Ok(Some(info)),
                Err(e) => Err(e),
            },
        }
    }

    /// Moves the cursor from `next` past a payload of `payload_len` bytes, or
    /// to the end of the stream if it comes first; in that case the decoding
    /// error that ended the stream, if there is one, is reported.
    fn skip_payload(&mut self, next: usize, payload_len: usize) -> (r: Result<(), ReadError>)
        requires
            next <= old(self)@.data.len(),
        ensures
            final(self)@ == old(self)@.at(min(next + payload_len, old(self)@.data.len() as int)),
            if old(self)@.damage is Some && old(self)@.data.len() < next + payload_len {
                r matches Err(e) && is_damage(e, old(self)@.damage->Some_0)
            } else {
                r is Ok
            },
    {
        proof {
            use_type_invariant(&*self);
        }
        let len = self.data.len();
        if payload_len > len - next {
            self.pos = len;
            match &self.damage {
                Some(d) => Err(damage_error(d)),
                None => Ok(()),
            }
        } else {
            self.pos = next + payload_len;
            Ok(())
        }
    }

    /// Reads a message at a specific byte offset in the file, and leaves the
    /// cursor after what it read.
    ///
    /// Only available for non-compressed files.
    pub fn read_message_at(&mut self, offset: u64) -> (r: Result<LogMessage, ReadError>)
        ensures
            read_at_outcome(old(self)@, offset, r, final(self)@),
    {
        proof {
            use_type_invariant(&*self);
        }
        if self.compressed {
            return Err(ReadError::NoRandomAccessForCompressed);
        }
        let start = self.seek(offset);
        let ghost s = self.data@.skip(start as int);
        let (info, next) = read_message_info(&self.data, start, &self.damage);
        match info {
            Err(e) => {
                self.pos = next;
                Err(e)
            },
            Ok(None) => {
                self.pos = next;
                Err(missing_header_error())
            },
            Ok(Some(info)) => {
                if info.payload_len <= self.data.len() - next {
                    assert(s.subrange(16, 16 + info.payload_len as int) =~= self.data@.subrange(
                        next as int,
                        next + info.payload_len,
                    ));
                }
                self.read_payload(next, info)
            },
        }
    }

    /// Where a seek to `offset` puts the cursor.
    fn seek(&self, offset: u64) -> (p: usize)
        ensures
            p == self@.seek_target(offset),
            p <= self@.data.len(),
    {
        if offset < self.data.len() as u64 {
            offset as usize
        } else {
            self.data.len()
        }
    }

    /// Reads timestamp, message type, and payload length at a given offset,
    /// and leaves the cursor after the message header.
    ///
    /// Only available for non-compressed files.
    pub fn read_info_at(&mut self, offset: u64) -> (r: Result<LogMessageInfo, ReadError>)
        ensures
            old(self)@.compressed ==> (r matches Err(ReadError::NoRandomAccessForCompressed)
                && final(self)@ == old(self)@),
            !old(self)@.compressed ==> final(self)@ == old(self)@.at(final(self)@.pos) && match decode_head(
                old(self)@.from_offset(offset),
            ) {
                RecordHead::End => r matches Err(e) && is_missing_header(e) && final(self)@.pos
                    == old(self)@.data.len(),
                RecordHead::Failed { failure, consumed } => r matches Err(e) && reports(e, failure)
                    && final(self)@.pos == old(self)@.seek_target(offset) + consumed,
                h => r matches Ok(info) && info_matches(info, h) && final(self)@.pos == old(
                    self,
                )@.seek_target(offset) + 16,
            },
    {
        proof {
            use_type_invariant(&*self);
        }
        if self.compressed {
            return Err(ReadError::NoRandomAccessForCompressed);
        }
        let start = self.seek(offset);
        let (info, next) = read_message_info(&self.data, start, &self.damage);
        self.pos = next;
        match info {
            Err(e) => Err(e),
            Ok(None) => Err(missing_header_error()),
            Ok(Some(info)) => Ok(info),
        }
    }

    /// Reads only the timestamp and message type at a given offset, without
    /// reading the payload.
    ///
    /// This is useful for quickly scanning through an indexed file.
    /// Only available for non-compressed files.
    pub fn read_header_at(&mut self, offset: u64) -> (r: Result<(i64, MessageId), ReadError>)
        ensures
            old(self)@.compressed ==> (r matches Err(ReadError::NoRandomAccessForCompressed)
                && final(self)@ == old(self)@),
            !old(self)@.compressed ==> final(self)@ == old(self)@.at(final(self)@.pos) && match decode_head(
                old(self)@.from_offset(offset),
            ) {
                RecordHead::End => r matches Err(e) && is_missing_header(e) && final(self)@.pos
                    == old(self)@.data.len(),
                RecordHead::Failed { failure, consumed } => r matches Err(e) && reports(e, failure)
                    && final(self)@.pos == old(self)@.seek_target(offset) + consumed,
                RecordHead::Head { timestamp_ns, message_id, .. } => r == Ok::<
                    (i64, MessageId),
                    ReadError,
                >((timestamp_ns, message_id)) && final(self)@.pos == old(self)@.seek_target(
                    offset,
                ) + 16,
            },
    {
        match self.read_info_at(offset) {
            Ok(info) => Ok((info.timestamp_ns, info.message_id)),
            Err(e) => Err(e),
        }
    }

    /// The trailer of the stream places the offsets of an index inside it.
    fn index_fits(&self) -> (b: bool)
        ensures
            b == index_layout_ok(self@.data),
    {
        let len = self.data.len();
        if len < 15 {
            return false;
        }
        let seek_back = u64_from_be_bytes(take8(&self.data, len - 15));
        if seek_back > len as u64 {
            return false;
        }
        let before_offsets = len - seek_back as usize;
        len >= 31 && before_offsets <= len - 31
    }

    /// Reads the index from the end of the file.
    ///
    /// The index contains byte offsets to each message, enabling random access.
    /// Only available for non-compressed, indexed files: a plain file that
    /// does not end with the index marker, or whose trailer does not place
    /// the offsets inside the file, gets an error.
    #[verifier::spinoff_prover]
    pub fn read_index(&self) -> (r: Result<Vec<u64>, ReadError>)
        ensures
            self@.compressed ==> r matches Err(ReadError::NoRandomAccessForCompressed),
            !self@.compressed ==> if ends_with_marker(self@.data) && index_layout_ok(self@.data) {
                r matches Ok(offsets) && offsets@ == index_offsets(self@.data)
            } else {
                r matches Err(e) && is_missing_index(e)
            },
    {
        if self.compressed {
            return Err(ReadError::NoRandomAccessForCompressed);
        }
        if !self.is_indexed() || !self.index_fits() {
            return Err(missing_index_error());
        }
        let len = self.data.len();
        let seek_back_offset = len - 15;
        let seek_back = u64_from_be_bytes(take8(&self.data, seek_back_offset));
        assert(seek_back == index_seek_back(self@.data));
        let offsets_start = len - seek_back as usize + 16;
        let offsets_end = seek_back_offset;
        let offsets_len = offsets_end - offsets_start;
        let num_offsets = offsets_len / 8;
        assert(num_offsets == index_entry_count(self@.data));
        let mut offsets: Vec<u64> = Vec::with_capacity(num_offsets);
        let mut i: usize = 0;
        while i < num_offsets
            invariant
                len == self.data.len(),
                offsets_start == index_start(self@.data),
                num_offsets == index_entry_count(self@.data),
                offsets_start + 8 * num_offsets <= offsets_end <= len,
                i <= num_offsets,
                offsets@ =~= index_offsets(self@.data).take(i as int),
            decreases num_offsets - i,
        {
            assert(offsets_start + 8 * i + 8 <= offsets_start + 8 * num_offsets);
            let start = offsets_start + 8 * i;
            offsets.push(u64_from_be_bytes(take8(&self.data, start)));
            i = i + 1;
            assert(offsets@ =~= index_offsets(self@.data).take(i as int));
        }
        assert(offsets@ =~= index_offsets(self@.data));
        Ok(offsets)
    }

    /// Skips the next message without allocating memory for its payload.
    ///
    /// Returns the total number of bytes skipped (header + payload), or
    /// `Ok(None)` at EOF. A payload cut short by the end of the file is
    /// skipped as far as it goes, and only the bytes skipped are counted;
    /// where a decoding error ended the stream there, it is reported.
    pub fn skip_message(&mut self) -> (r: Result<Option<usize>, ReadError>)
        ensures
            final(self)@ == old(self)@.at(final(self)@.pos),
            match decode_head(old(self)@.remaining()) {
                RecordHead::End => reports_end(r, old(self)@.damage) && final(self)@.pos == old(
                    self,
                )@.data.len(),
                RecordHead::Failed { failure, consumed } => r matches Err(e) && reports_in(
                    e,
                    failure,
                    old(self)@.damage,
                ) && final(self)@.pos == old(self)@.pos + consumed,
                RecordHead::Head { payload_len, .. } => final(self)@.pos == old(self)@.pos + min(
                    16 + payload_len,
                    old(self)@.data.len() - old(self)@.pos,
                ) && if skip_hits_damage(old(self)@, payload_len) {
                    r matches Err(e) && is_damage(e, old(self)@.damage->Some_0)
                } else {
                    r matches Ok(Some(n)) && n == min(
                        16 + payload_len,
                        old(self)@.data.len() - old(self)@.pos,
                    )
                },
            },
    {
        proof {
            use_type_invariant(&*self);
        }
        let start = self.pos;
        let (info, next) = read_message_info(&self.data, self.pos, &self.damage);
        match info {
            Err(e) => {
                self.pos = next;
                Err(e)
            },
            Ok(None) => {
                self.pos = next;
                Ok(None)
            },
            Ok(Some(info)) => match self.skip_payload(next, info.payload_len) {
                Ok(()) => Ok(Some(self.pos - start)),
                Err(e) => Err(e),
            },
        }
    }

    /// Collects all messages into a `Vec`.
    ///
    /// This reads the rest of the file into memory. For large files, prefer
    /// iterating with [`next_message`](Self::next_message).
    #[verifier::spinoff_prover]
    pub fn read_all(&mut self) -> (r: Result<Vec<LogMessage>, ReadError>)
        ensures
            final(self)@.data == old(self)@.data,
            final(self)@.compressed == old(self)@.compressed,
            final(self)@.total_bytes == old(self)@.total_bytes,
            match r {
                Ok(v) => decode_messages(old(self)@.remaining()) == (
                    v@.map_values(|m: LogMessage| m@),
                    Option::<RecordFailure>::None,
                ) && ends_cleanly(old(self)@.damage) && final(self)@.pos == old(self)@.data.len(),
                Err(e) => match decode_messages(old(self)@.remaining()).1 {
                    Some(f) => reports_in(e, f, old(self)@.damage),
                    None => !ends_cleanly(old(self)@.damage) && is_damage(
                        e,
                        old(self)@.damage->Some_0,
                    ),
                },
            },
            final(self)@.pos == old(self)@.pos + decode_consumed(old(self)@.remaining()),
    {
        proof {
            use_type_invariant(&*self);
        }
        let ghost start = self@;
        let mut messages: Vec<LogMessage> = Vec::new();
        loop
            invariant
                start == old(self)@,
                self@ == start.at(self@.pos),
                0 <= self@.pos <= self@.data.len(),
                decode_messages(start.remaining()).0 == messages@.map_values(|m: LogMessage| m@)
                    + decode_messages(self@.remaining()).0,
                decode_messages(start.remaining()).1 == decode_messages(self@.remaining()).1,
                start.pos + decode_consumed(start.remaining()) == self@.pos + decode_consumed(
                    self@.remaining(),
                ),
            decreases self@.data.len() - self@.pos,
        {
            proof {
                use_type_invariant(&*self);
            }
            let ghost before = self@;
            let ghost s = before.remaining();
            proof {
                lemma_decode_message_consumes(s);
            }
            match self.next_message() {
                Ok(Some(m)) => {
                    proof {
                        if let RecordStep::Message { message, consumed } = decode_message(s) {
                            assert(self@.remaining() =~= s.skip(consumed));
                            let old_msgs = messages@.map_values(|m: LogMessage| m@);
                            assert(old_msgs.push(m@) =~= messages@.push(m).map_values(
                                |m: LogMessage| m@,
                            ));
                            assert(seq![message] + decode_messages(s.skip(consumed)).0
                                == decode_messages(s).0);
                            assert(decode_consumed(s) == consumed + decode_consumed(
                                s.skip(consumed),
                            ));
                            assert(old_msgs + decode_messages(s).0 =~= old_msgs.push(m@)
                                + decode_messages(self@.remaining()).0);
                        }
                    }
                    messages.push(m);
                },
                Ok(None) => {
                    assert(messages@.map_values(|m: LogMessage| m@) + decode_messages(s).0
                        =~= messages@.map_values(|m: LogMessage| m@));
                    return Ok(messages);
                },
                Err(e) => {
                    return Err(e);
                },
            }
        }
    }
}

/// Looks for the `index`-th message from the cursor of `reader` onwards,
/// reading the messages in turn.
#[verifier::spinoff_prover]
pub fn find_message_at_index(reader: &mut LogReader, index: usize) -> (r: Result<
    Option<LogMessage>,
    ReadError,
>)
    ensures
        final(reader)@ == old(reader)@.at(final(reader)@.pos),
        ({
            let (ms, failure) = decode_messages(old(reader)@.remaining());
            if index < ms.len() {
                r matches Ok(Some(m)) && m@ == ms[index as int] && final(reader)@.pos == old(
                    reader,
                )@.pos + messages_consumed(old(reader)@.remaining(), (index + 1) as nat)
            } else {
                final(reader)@.pos == old(reader)@.pos + decode_consumed(old(reader)@.remaining())
                    && match failure {
                    None => reports_end(r, old(reader)@.damage),
                    Some(f) => r matches Err(e) && reports_in(e, f, old(reader)@.damage),
                }
            }
        }),
{
    proof {
        use_type_invariant(&*reader);
    }
    let ghost start = reader@;
    let mut current: usize = 0;
    loop
        invariant
            start == old(reader)@,
            reader@ == start.at(reader@.pos),
            0 <= reader@.pos <= reader@.data.len(),
            current <= index,
            start.pos + messages_consumed(start.remaining(), (index + 1) as nat) == reader@.pos
                + messages_consumed(reader@.remaining(), (index - current + 1) as nat),
            start.pos + decode_consumed(start.remaining()) == reader@.pos + decode_consumed(
                reader@.remaining(),
            ),
            decode_messages(start.remaining()).0.len() == current + decode_messages(
                reader@.remaining(),
            ).0.len(),
            decode_messages(start.remaining()).0.skip(current as int) == decode_messages(
                reader@.remaining(),
            ).0,
            decode_messages(start.remaining()).1 == decode_messages(reader@.remaining()).1,
        decreases reader@.data.len() - reader@.pos,
    {
        proof {
            use_type_invariant(&*reader);
        }
        let ghost before = reader@;
        let ghost s = before.remaining();
        proof {
            lemma_decode_message_consumes(s);
        }
        match reader.next_message() {
            Ok(Some(message)) => {
                proof {
                    if let RecordStep::Message { message: mv, consumed } = decode_message(s) {
                        assert(reader@.remaining() =~= s.skip(consumed));
                        let all = decode_messages(start.remaining()).0;
                        assert(decode_messages(s).0 == seq![mv] + decode_messages(
                            s.skip(consumed),
                        ).0);
                        assert(all[current as int] == decode_messages(s).0[0]);
                        assert(all.skip(current + 1) =~= decode_messages(s).0.skip(1));
                        assert(decode_messages(s).0.skip(1) =~= decode_messages(
                            reader@.remaining(),
                        ).0);
                        assert(messages_consumed(s, (index - current + 1) as nat) == consumed
                            + messages_consumed(s.skip(consumed), (index - current) as nat));
                        assert(messages_consumed(s.skip(consumed), 0) == 0);
                        assert(decode_consumed(s) == consumed + decode_consumed(
                            s.skip(consumed),
                        ));
                    }
                }
                if current == index {
                    return Ok(Some(message));
                }
                current = current + 1;
            },
            Ok(None) => {
                return Ok(None);
            },
            Err(e) => {
                return Err(e);
            },
        }
    }
}

/// A compressed file whose decompressed stream is a log written with
/// encodable messages opens with a valid header, and reading it gives back
/// exactly the messages written, in order, with no failure.
pub proof fn lemma_compressed_log_roundtrip(z: Seq<u8>, ms: Seq<LogMessageView>)
    requires
        forall|i: int| 0 <= i < ms.len() ==> encodable(#[trigger] ms[i]),
    ensures
        gunzip(z) == (log_bytes(ms), None::<(IoErrorKind, Seq<char>)>) ==> stream_of(z, true) == (
            log_bytes(ms),
            None::<(IoErrorKind, Seq<char>)>,
        ) && check_header(log_bytes(ms)) == HeaderCheck::Valid && decode_messages(
            log_bytes(ms).skip(HEADER_SIZE as int),
        ) == (ms, Option::<RecordFailure>::None),
{
    lemma_log_roundtrip(ms);
}

/// A seek to an offset inside the stream lands on that offset, and what the
/// reader then sees is the stream from there on.
pub proof fn lemma_seek_inside(v: LogReaderView, offset: u64)
    requires
        offset < v.data.len(),
    ensures
        v.seek_target(offset) == offset,
        v.from_offset(offset) == v.data.skip(offset as int),
        v.from_offset(offset).len() == v.data.len() - offset,
{
}

/// On a plain log written with the messages `ms`, reading at the offset where
/// the `k`-th message starts gives that message back, wherever the cursor
/// stood before, and leaves the cursor where the next message starts.
pub proof fn lemma_read_at_written(
    v: LogReaderView,
    ms: Seq<LogMessageView>,
    k: int,
    r: Result<LogMessage, ReadError>,
    after: LogReaderView,
)
    requires
        !v.compressed,
        v.data == log_bytes(ms),
        log_bytes(ms).len() <= u64::MAX,
        0 <= k < ms.len(),
        forall|i: int| 0 <= i < ms.len() ==> encodable(#[trigger] ms[i]),
        read_at_outcome(v, message_offset(ms, k) as u64, r, after),
    ensures
        r matches Ok(m) && m@ == ms[k],
        after.pos == message_offset(ms, k + 1),
{
    lemma_read_in_turn(ms, k);
    lemma_encode_messages_split(ms, k + 1);
    let off = message_offset(ms, k);
    assert(message_offset(ms, k + 1) <= log_bytes(ms).len());
    assert(off < v.data.len());
    assert(v.seek_target(off as u64) == off);
}

} // verus!
