//! The SSL log file format: what the bytes of a log file are, and what a
//! reader makes of them.
use vstd::prelude::*;

use crate::bytes::{
    i32_be_bytes, i32_from_be, i64_be_bytes, i64_from_be, lemma_i32_be_bytes_value,
    lemma_i32_from_be_value,
    lemma_i32_value_roundtrip, lemma_i64_be_bytes_value, lemma_u64_be_bytes_value,
    lemma_i64_value_roundtrip, lemma_u64_value_roundtrip, u64_be_bytes, u64_from_be,
};
use crate::error::{is_short_read, ReadError};
use crate::message::{LogMessageView, MessageId};

verus! {

/// File format version.
pub const FILE_VERSION: i32 = 1;

/// Header size in bytes (12 bytes magic + 4 bytes version).
pub const HEADER_SIZE: usize = 16;

/// The file header magic string `"SSL_LOG_FILE"`.
pub open spec fn file_magic() -> Seq<u8> {
    seq![83u8, 83, 76, 95, 76, 79, 71, 95, 70, 73, 76, 69]
}

/// The marker `"INDEXED"` at the end of indexed files.
pub open spec fn indexed_marker_bytes() -> Seq<u8> {
    seq![73u8, 78, 68, 69, 88, 69, 68]
}

/// File header magic string.
pub fn file_header() -> (h: [u8; 12])
    ensures
        h@ == file_magic(),
{
    let h: [u8; 12] = [83, 83, 76, 95, 76, 79, 71, 95, 70, 73, 76, 69];
    assert(h@ =~= file_magic());
    h
}

/// Marker at the end of indexed files.
pub fn indexed_marker() -> (m: [u8; 7])
    ensures
        m@ == indexed_marker_bytes(),
{
    let m: [u8; 7] = [73, 78, 68, 69, 88, 69, 68];
    assert(m@ =~= indexed_marker_bytes());
    m
}

/// The 16 bytes at the start of every log file: the magic string and the
/// version.
pub open spec fn header_bytes() -> Seq<u8> {
    file_magic() + i32_be_bytes(FILE_VERSION)
}

/// What a reader makes of the start of a log file.
pub enum HeaderCheck {
    /// The magic string and the supported version.
    Valid,
    /// The input ends inside the header.
    Truncated,
    /// The first 12 bytes are not the magic string.
    BadMagic { found: Seq<u8> },
    /// The version is not the supported one.
    BadVersion { version: i32 },
}

/// What a reader makes of the start `s` of a log file.
pub open spec fn check_header(s: Seq<u8>) -> HeaderCheck {
    if s.len() < 12 {
        HeaderCheck::Truncated
    } else if s.subrange(0, 12) != file_magic() {
        HeaderCheck::BadMagic { found: s.subrange(0, 12) }
    } else if s.len() < 16 {
        HeaderCheck::Truncated
    } else if i32_from_be(s.subrange(12, 16)) != FILE_VERSION {
        HeaderCheck::BadVersion { version: i32_from_be(s.subrange(12, 16)) }
    } else {
        HeaderCheck::Valid
    }
}

/// Why a message could not be read.
pub enum RecordFailure {
    /// The input ended inside the message.
    Truncated,
    /// The message id names no message type.
    UnknownId { id: i32 },
    /// The payload length is negative.
    NegativeLength { length: i32 },
}

/// `e` is the error that a reader reports for `failure`.
pub open spec fn reports(e: ReadError, failure: RecordFailure) -> bool {
    match failure {
        RecordFailure::Truncated => is_short_read(e),
        RecordFailure::UnknownId { id } => e matches ReadError::UnknownMessageId { id: x } && x
            == id,
        RecordFailure::NegativeLength { length } => e matches ReadError::InvalidLength {
            length: x,
        } && x == length,
    }
}

/// What a reader makes of the 16-byte header of the next message.
pub enum RecordHead {
    /// Fewer than eight bytes are left: the end of the log.
    End,
    /// The header cannot be read; the reader has taken `consumed` bytes.
    Failed { failure: RecordFailure, consumed: int },
    /// A complete header, 16 bytes long.
    Head { timestamp_ns: i64, message_id: MessageId, payload_len: int },
}

/// What a reader makes of the header of the next message, when the bytes
/// left in the stream are `s`.
pub open spec fn decode_head(s: Seq<u8>) -> RecordHead {
    if s.len() < 8 {
        RecordHead::End
    } else if s.len() < 12 {
        RecordHead::Failed { failure: RecordFailure::Truncated, consumed: s.len() as int }
    } else {
        let raw_id = i32_from_be(s.subrange(8, 12));
        match MessageId::from_code(raw_id) {
            None => RecordHead::Failed {
                failure: RecordFailure::UnknownId { id: raw_id },
                consumed: 12,
            },
            Some(message_id) => if s.len() < 16 {
                RecordHead::Failed { failure: RecordFailure::Truncated, consumed: s.len() as int }
            } else {
                let length = i32_from_be(s.subrange(12, 16));
                if length < 0 {
                    RecordHead::Failed {
                        failure: RecordFailure::NegativeLength { length },
                        consumed: 16,
                    }
                } else {
                    RecordHead::Head {
                        timestamp_ns: i64_from_be(s.subrange(0, 8)),
                        message_id,
                        payload_len: length as int,
                    }
                }
            },
        }
    }
}

/// What a reader makes of the next message, header and payload.
pub enum RecordStep {
    /// The end of the log.
    End,
    /// The message cannot be read; the reader has taken `consumed` bytes.
    Failed { failure: RecordFailure, consumed: int },
    /// A complete message, `consumed` bytes long.
    Message { message: LogMessageView, consumed: int },
}

/// What a reader makes of the next message, when the bytes left in the
/// stream are `s`.
pub open spec fn decode_message(s: Seq<u8>) -> RecordStep {
    match decode_head(s) {
        RecordHead::End => RecordStep::End,
        RecordHead::Failed { failure, consumed } => RecordStep::Failed { failure, consumed },
        RecordHead::Head { timestamp_ns, message_id, payload_len } => if s.len() < 16
            + payload_len {
            RecordStep::Failed { failure: RecordFailure::Truncated, consumed: s.len() as int }
        } else {
            RecordStep::Message {
                message: LogMessageView {
                    timestamp_ns,
                    message_id,
                    payload: s.subrange(16, 16 + payload_len),
                },
                consumed: 16 + payload_len,
            }
        },
    }
}

/// The messages a reader reads one after the other from the bytes `s`, and
/// the failure that stopped it, if one did.
pub open spec fn decode_messages(s: Seq<u8>) -> (Seq<LogMessageView>, Option<RecordFailure>)
    decreases s.len(),
{
    match decode_message(s) {
        RecordStep::End => (seq![], None),
        RecordStep::Failed { failure, consumed } => (seq![], Some(failure)),
        RecordStep::Message { message, consumed } => if 0 < consumed <= s.len() {
            let (rest, failure) = decode_messages(s.skip(consumed));
            (seq![message] + rest, failure)
        } else {
            (seq![], None)
        },
    }
}

/// How many bytes a reader takes from `s` when it reads messages one after
/// the other until the end or a failure.
pub open spec fn decode_consumed(s: Seq<u8>) -> int
    decreases s.len(),
{
    match decode_message(s) {
        RecordStep::End => s.len() as int,
        RecordStep::Failed { failure, consumed } => consumed,
        RecordStep::Message { message, consumed } => if 0 < consumed <= s.len() {
            consumed + decode_consumed(s.skip(consumed))
        } else {
            0
        },
    }
}

/// How many bytes a reader takes from `s` when it reads its first `k`
/// messages, all of which are complete.
pub open spec fn messages_consumed(s: Seq<u8>, k: nat) -> int
    decreases k,
{
    if k == 0 {
        0
    } else {
        match decode_message(s) {
            RecordStep::Message { message, consumed } => if 0 < consumed <= s.len() {
                consumed + messages_consumed(s.skip(consumed), (k - 1) as nat)
            } else {
                0
            },
            _ => 0,
        }
    }
}

/// The bytes of one message: its header and its payload. The length field
/// holds the payload's length truncated to an `i32`.
pub open spec fn encode_message(m: LogMessageView) -> Seq<u8> {
    i64_be_bytes(m.timestamp_ns) + i32_be_bytes(m.message_id.code()) + i32_be_bytes(
        m.payload.len() as i32,
    ) + m.payload
}

/// The bytes of the messages `ms`, one after the other.
pub open spec fn encode_messages(ms: Seq<LogMessageView>) -> Seq<u8>
    decreases ms.len(),
{
    if ms.len() == 0 {
        seq![]
    } else {
        encode_message(ms[0]) + encode_messages(ms.drop_first())
    }
}

/// The bytes of a log file that holds the messages `ms`.
pub open spec fn log_bytes(ms: Seq<LogMessageView>) -> Seq<u8> {
    header_bytes() + encode_messages(ms)
}

/// A message can be written and read back: its payload length fits in the
/// length field.
pub open spec fn encodable(m: LogMessageView) -> bool {
    m.payload.len() <= i32::MAX
}

/// The bytes of the `u64` values `o`, each big-endian, one after the other.
pub open spec fn u64s_be(o: Seq<u64>) -> Seq<u8>
    decreases o.len(),
{
    if o.len() == 0 {
        seq![]
    } else {
        u64s_be(o.drop_last()) + u64_be_bytes(o.last())
    }
}

/// The bytes of the index message for the message offsets `o`: a message
/// header (timestamp 0, id `Index2021`, the length of what follows), the
/// offsets, the total size of the index message, and the marker.
pub open spec fn encode_index(o: Seq<u64>) -> Seq<u8> {
    i64_be_bytes(0) + i32_be_bytes(MessageId::Index2021.code()) + i32_be_bytes(
        (8 * o.len() + 15) as i32,
    ) + u64s_be(o) + i64_be_bytes((8 * o.len() + 31) as i64) + indexed_marker_bytes()
}

/// The file `d` ends with the indexed marker.
pub open spec fn ends_with_marker(d: Seq<u8>) -> bool {
    d.len() >= 7 && d.subrange(d.len() - 7, d.len() as int) == indexed_marker_bytes()
}

/// The size of the index message, stored just before the marker of the file `d`.
pub open spec fn index_seek_back(d: Seq<u8>) -> u64 {
    u64_from_be(d.subrange(d.len() - 15, d.len() - 7))
}

/// Where the offsets of the index of the file `d` start.
pub open spec fn index_start(d: Seq<u8>) -> int {
    d.len() - index_seek_back(d) + 16
}

/// The trailer of the file `d` places its offsets inside the file: the file
/// holds the size and the marker, and the offsets start no later than the
/// size does.
pub open spec fn index_layout_ok(d: Seq<u8>) -> bool {
    &&& d.len() >= 15
    &&& index_seek_back(d) <= d.len()
    &&& index_start(d) <= d.len() - 15
}

/// How many whole offsets lie between the start of the offsets and the size
/// in the trailer of the file `d`.
pub open spec fn index_entry_count(d: Seq<u8>) -> int {
    (d.len() - 15 - index_start(d)) / 8
}

/// The offsets stored in the index of the file `d`.
pub open spec fn index_offsets(d: Seq<u8>) -> Seq<u64> {
    Seq::new(
        index_entry_count(d) as nat,
        |i: int| u64_from_be(d.subrange(index_start(d) + 8 * i, index_start(d) + 8 * i + 8)),
    )
}

/// A decoded message takes at least its 16 header bytes and no more than
/// what is left.
pub proof fn lemma_decode_message_consumes(s: Seq<u8>)
    ensures
        decode_message(s) matches RecordStep::Message { message, consumed } ==> 16 <= consumed
            <= s.len() && consumed == 16 + message.payload.len(),
        decode_message(s) matches RecordStep::Failed { consumed, .. } ==> 0 <= consumed
            <= s.len(),
{
}

/// Reading the bytes of an encodable message, followed by anything, gives the
/// message back and leaves exactly what followed.
pub proof fn lemma_decode_encoded_message(m: LogMessageView, rest: Seq<u8>)
    requires
        encodable(m),
    ensures
        decode_message(encode_message(m) + rest) == (RecordStep::Message {
            message: m,
            consumed: 16 + m.payload.len() as int,
        }),
        (encode_message(m) + rest).skip(16 + m.payload.len() as int) == rest,
{
    let len = m.payload.len() as int;
    let s = encode_message(m) + rest;
    lemma_i64_value_roundtrip(m.timestamp_ns);
    lemma_i32_value_roundtrip(m.message_id.code());
    lemma_i32_value_roundtrip(len as i32);
    assert(s.subrange(0, 8) =~= i64_be_bytes(m.timestamp_ns));
    assert(s.subrange(8, 12) =~= i32_be_bytes(m.message_id.code()));
    assert(s.subrange(12, 16) =~= i32_be_bytes(len as i32));
    assert(s.subrange(16, 16 + len) =~= m.payload);
    assert(s.skip(16 + len) =~= rest);
}

/// Reading the bytes of encodable messages gives the messages back, with no
/// failure.
#[verifier::spinoff_prover]
pub proof fn lemma_decode_encoded_messages(ms: Seq<LogMessageView>)
    requires
        forall|i: int| 0 <= i < ms.len() ==> encodable(#[trigger] ms[i]),
    ensures
        decode_messages(encode_messages(ms)) == (ms, Option::<RecordFailure>::None),
    decreases ms.len(),
{
    if ms.len() == 0 {
        assert(encode_messages(ms) =~= seq![]);
    } else {
        let m = ms[0];
        let tail = ms.drop_first();
        assert forall|i: int| 0 <= i < tail.len() implies encodable(#[trigger] tail[i]) by {
            assert(tail[i] == ms[i + 1]);
        }
        let rest = encode_messages(tail);
        let s = encode_messages(ms);
        assert(s == encode_message(m) + rest);
        lemma_decode_encoded_messages(tail);
        lemma_decode_encoded_message(m, rest);
        let c = 16 + m.payload.len() as int;
        assert(decode_message(s) == (RecordStep::Message { message: m, consumed: c }));
        assert(s.skip(c) == rest);
        assert(decode_messages(s) == (seq![m] + tail, Option::<RecordFailure>::None));
        assert(seq![m] + tail =~= ms);
    }
}

/// A log file written with encodable messages has a valid header, and
/// reading the messages after the header gives back exactly the messages
/// written, in order, with no failure.
pub proof fn lemma_log_roundtrip(ms: Seq<LogMessageView>)
    requires
        forall|i: int| 0 <= i < ms.len() ==> encodable(#[trigger] ms[i]),
    ensures
        check_header(log_bytes(ms)) == HeaderCheck::Valid,
        decode_messages(log_bytes(ms).skip(HEADER_SIZE as int)) == (
            ms,
            Option::<RecordFailure>::None,
        ),
{
    let d = log_bytes(ms);
    lemma_i32_value_roundtrip(FILE_VERSION);
    assert(d.subrange(0, 12) =~= file_magic());
    assert(d.subrange(12, 16) =~= i32_be_bytes(FILE_VERSION));
    assert(d.skip(16) =~= encode_messages(ms));
    lemma_decode_encoded_messages(ms);
}

/// The encoding of messages grows by the encoding of each message appended.
pub proof fn lemma_encode_messages_push(ms: Seq<LogMessageView>, m: LogMessageView)
    ensures
        encode_messages(ms.push(m)) == encode_messages(ms) + encode_message(m),
    decreases ms.len(),
{
    if ms.len() == 0 {
        assert(ms.push(m).drop_first() =~= seq![]);
        assert(encode_messages(ms.push(m).drop_first()) =~= seq![]);
        assert(encode_messages(ms.push(m)) =~= encode_messages(ms) + encode_message(m));
    } else {
        lemma_encode_messages_push(ms.drop_first(), m);
        assert(ms.push(m).drop_first() =~= ms.drop_first().push(m));
        assert(encode_messages(ms.push(m)) =~= encode_messages(ms) + encode_message(m));
    }
}

/// The offsets' bytes are eight per offset, and the `i`-th eight of them
/// are the bytes of the `i`-th offset.
pub proof fn lemma_u64s_be(o: Seq<u64>)
    ensures
        u64s_be(o).len() == 8 * o.len(),
        forall|i: int|
            0 <= i < o.len() ==> #[trigger] u64s_be(o).subrange(8 * i, 8 * i + 8) == u64_be_bytes(
                o[i],
            ),
    decreases o.len(),
{
    if o.len() > 0 {
        let init = o.drop_last();
        lemma_u64s_be(init);
        lemma_u64_value_roundtrip(o.last());
        assert forall|i: int| 0 <= i < o.len() implies #[trigger] u64s_be(o).subrange(
            8 * i,
            8 * i + 8,
        ) == u64_be_bytes(o[i]) by {
            if i < o.len() - 1 {
                assert(u64s_be(init).subrange(8 * i, 8 * i + 8) == u64_be_bytes(init[i]));
                assert(u64s_be(o).subrange(8 * i, 8 * i + 8) =~= u64s_be(init).subrange(
                    8 * i,
                    8 * i + 8,
                ));
            } else {
                assert(u64s_be(o).subrange(8 * i, 8 * i + 8) =~= u64_be_bytes(o.last()));
            }
        }
    }
}

/// A file that ends with an index written for the offsets `o` is marked as
/// indexed, its trailer places the offsets inside the file, and its index
/// gives back exactly `o`.
#[verifier::spinoff_prover]
pub proof fn lemma_index_roundtrip(d: Seq<u8>, o: Seq<u64>)
    requires
        8 * o.len() + 31 <= u64::MAX,
    ensures
        ends_with_marker(d + encode_index(o)),
        index_layout_ok(d + encode_index(o)),
        index_offsets(d + encode_index(o)) == o,
{
    let n = o.len();
    let f = d + encode_index(o);
    let total = (8 * n + 31) as i64;
    lemma_i64_value_roundtrip(0);
    lemma_i32_value_roundtrip(MessageId::Index2021.code());
    lemma_i32_value_roundtrip((8 * n + 15) as i32);
    lemma_i64_value_roundtrip(total);
    lemma_u64_value_roundtrip(total as u64);
    let x = (8 * n + 31) as u64;
    assert(x == 8 * n + 31);
    assert((x as i64) as u64 == x) by (bit_vector);
    assert(total == x as i64);
    assert(total as u64 == 8 * n + 31);
    lemma_u64s_be(o);
    let start = d.len() + 16;
    assert(f.len() == d.len() + 8 * n + 31);
    assert(f.subrange(f.len() - 7, f.len() as int) =~= indexed_marker_bytes());
    assert(f.subrange(f.len() - 15, f.len() - 7) =~= i64_be_bytes(total));
    assert(index_seek_back(f) == 8 * n + 31);
    assert(index_start(f) == start);
    assert(index_entry_count(f) == n);
    assert forall|i: int| 0 <= i < n implies #[trigger] index_offsets(f)[i] == o[i] by {
        assert(f.subrange(start + 8 * i, start + 8 * i + 8) =~= u64s_be(o).subrange(
            8 * i,
            8 * i + 8,
        ));
        lemma_u64_value_roundtrip(o[i]);
    }
    assert(index_offsets(f) =~= o);
}

/// Reading only the header of the next message agrees with reading the
/// whole message: where the message can be read whole, the header reader
/// reports its timestamp, type and payload length, and the message takes the
/// header and the payload; at the end of the log both see the end; where the
/// message fails, the header reader fails alike, or the header is whole and
/// it is the payload that the end of the input cuts short.
pub proof fn lemma_head_of_message(s: Seq<u8>)
    ensures
        decode_message(s) matches RecordStep::Message { message, consumed } ==> decode_head(s)
            == (RecordHead::Head {
            timestamp_ns: message.timestamp_ns,
            message_id: message.message_id,
            payload_len: message.payload.len() as int,
        }) && consumed == 16 + message.payload.len() && consumed <= s.len(),
        decode_message(s) is End <==> decode_head(s) is End,
        decode_message(s) matches RecordStep::Failed { failure, consumed } ==> decode_head(s) == (
        RecordHead::Failed { failure, consumed }) || (decode_head(s) matches RecordHead::Head {
            payload_len,
            ..
        } && s.len() < 16 + payload_len && failure is Truncated && consumed == s.len()),
{
}

/// Reading a written log one message after another, from the end of its
/// header: the `k`-th read finds the `k`-th message whole and leaves the
/// cursor where the next one starts; after the last message the reader is
/// at the end of the log.
pub proof fn lemma_read_in_turn(ms: Seq<LogMessageView>, k: int)
    requires
        0 <= k <= ms.len(),
        forall|i: int| 0 <= i < ms.len() ==> encodable(#[trigger] ms[i]),
    ensures
        message_offset(ms, 0) == HEADER_SIZE,
        k < ms.len() ==> decode_message(log_bytes(ms).skip(message_offset(ms, k))) == (
        RecordStep::Message { message: ms[k], consumed: 16 + ms[k].payload.len() as int })
            && message_offset(ms, k + 1) == message_offset(ms, k) + 16 + ms[k].payload.len(),
        k == ms.len() ==> message_offset(ms, k) == log_bytes(ms).len() && decode_message(
            log_bytes(ms).skip(message_offset(ms, k)),
        ) is End,
{
    assert(ms.take(0) =~= Seq::<LogMessageView>::empty());
    assert(encode_messages(ms.take(0)) =~= Seq::<u8>::empty());
    if k < ms.len() {
        lemma_random_access(ms, k);
        let t = ms.take(k + 1);
        lemma_encode_messages_split(t, k);
        assert(t.take(k) =~= ms.take(k));
        assert(t.skip(k) =~= seq![ms[k]]);
        assert(seq![ms[k]].drop_first() =~= Seq::<LogMessageView>::empty());
        assert(encode_messages(seq![ms[k]]) =~= encode_message(ms[k]));
        assert(encode_message(ms[k]).len() == 16 + ms[k].payload.len());
    } else {
        assert(ms.take(k) =~= ms);
        assert(log_bytes(ms).skip(message_offset(ms, k)) =~= Seq::<u8>::empty());
    }
}

/// The offset in a log file of the `k`-th of the messages `ms`: the header,
/// then the messages before it.
pub open spec fn message_offset(ms: Seq<LogMessageView>, k: int) -> int {
    HEADER_SIZE + encode_messages(ms.take(k)).len()
}

/// The bytes of messages are the bytes of the first `k` of them followed by
/// the bytes of the others.
pub proof fn lemma_encode_messages_split(ms: Seq<LogMessageView>, k: int)
    requires
        0 <= k <= ms.len(),
    ensures
        encode_messages(ms) == encode_messages(ms.take(k)) + encode_messages(ms.skip(k)),
    decreases k,
{
    if k == 0 {
        assert(ms.take(0) =~= Seq::<LogMessageView>::empty());
        assert(ms.skip(0) =~= ms);
        assert(encode_messages(ms.take(0)) =~= Seq::<u8>::empty());
        assert(encode_messages(ms) =~= encode_messages(ms.take(0)) + encode_messages(ms.skip(0)));
    } else {
        let tail = ms.drop_first();
        lemma_encode_messages_split(tail, k - 1);
        assert(ms.take(k).drop_first() =~= tail.take(k - 1));
        assert(ms.take(k)[0] == ms[0]);
        assert(ms.skip(k) =~= tail.skip(k - 1));
        assert(encode_messages(ms) =~= encode_messages(ms.take(k)) + encode_messages(ms.skip(k)));
    }
}

/// Reading the message at the offset of the `k`-th message of a log file
/// gives that message: random access reads what sequential reading reads.
#[verifier::spinoff_prover]
pub proof fn lemma_random_access(ms: Seq<LogMessageView>, k: int)
    requires
        0 <= k < ms.len(),
        forall|i: int| 0 <= i < ms.len() ==> encodable(#[trigger] ms[i]),
    ensures
        decode_message(log_bytes(ms).skip(message_offset(ms, k))) == (RecordStep::Message {
            message: ms[k],
            consumed: 16 + ms[k].payload.len() as int,
        }),
{
    lemma_encode_messages_split(ms, k);
    let rest = ms.skip(k);
    assert(rest[0] == ms[k]);
    assert(log_bytes(ms).skip(message_offset(ms, k)) =~= encode_messages(rest));
    assert(encode_messages(rest) == encode_message(rest[0]) + encode_messages(rest.drop_first()));
    lemma_decode_encoded_message(ms[k], encode_messages(rest.drop_first()));
}

/// The index is itself a message that a sequential reader reads: timestamp
/// 0, type `Index2021`, and as payload the offsets, the size of the index
/// message and the marker.
#[verifier::spinoff_prover]
pub proof fn lemma_index_is_message(o: Seq<u64>, rest: Seq<u8>)
    requires
        8 * o.len() + 15 <= i32::MAX,
    ensures
        decode_message(encode_index(o) + rest) == (RecordStep::Message {
            message: LogMessageView {
                timestamp_ns: 0,
                message_id: MessageId::Index2021,
                payload: u64s_be(o) + i64_be_bytes((8 * o.len() + 31) as i64)
                    + indexed_marker_bytes(),
            },
            consumed: 8 * o.len() as int + 31,
        }),
{
    let n = o.len();
    let s = encode_index(o) + rest;
    let payload = u64s_be(o) + i64_be_bytes((8 * n + 31) as i64) + indexed_marker_bytes();
    lemma_i64_value_roundtrip(0);
    lemma_i32_value_roundtrip(MessageId::Index2021.code());
    lemma_i32_value_roundtrip((8 * n + 15) as i32);
    lemma_i64_value_roundtrip((8 * n + 31) as i64);
    lemma_u64s_be(o);
    assert(s.subrange(0, 8) =~= i64_be_bytes(0));
    assert(s.subrange(8, 12) =~= i32_be_bytes(MessageId::Index2021.code()));
    assert(s.subrange(12, 16) =~= i32_be_bytes((8 * n + 15) as i32));
    assert(s.subrange(16, 16 + 8 * n as int + 15) =~= payload);
}

/// Messages appended to a log file, without a second header, read back
/// after the messages already in it: the file of `ms1` followed by the bytes
/// of `ms2` is the file of `ms1 + ms2`.
pub proof fn lemma_append_roundtrip(ms1: Seq<LogMessageView>, ms2: Seq<LogMessageView>)
    requires
        forall|i: int| 0 <= i < ms1.len() ==> encodable(#[trigger] ms1[i]),
        forall|i: int| 0 <= i < ms2.len() ==> encodable(#[trigger] ms2[i]),
    ensures
        log_bytes(ms1) + encode_messages(ms2) == log_bytes(ms1 + ms2),
        check_header(log_bytes(ms1) + encode_messages(ms2)) == HeaderCheck::Valid,
        decode_messages((log_bytes(ms1) + encode_messages(ms2)).skip(HEADER_SIZE as int)) == (
            ms1 + ms2,
            Option::<RecordFailure>::None,
        ),
{
    let ms = ms1 + ms2;
    lemma_encode_messages_split(ms, ms1.len() as int);
    assert(ms.take(ms1.len() as int) =~= ms1);
    assert(ms.skip(ms1.len() as int) =~= ms2);
    assert(log_bytes(ms1) + encode_messages(ms2) =~= log_bytes(ms));
    assert forall|i: int| 0 <= i < ms.len() implies encodable(#[trigger] ms[i]) by {
        if i < ms1.len() {
            assert(ms[i] == ms1[i]);
        } else {
            assert(ms[i] == ms2[i - ms1.len()]);
        }
    }
    lemma_log_roundtrip(ms);
}

/// The value of four bytes read most significant first.
pub open spec fn value_of_4(s: Seq<u8>) -> int {
    s[0] * 0x100_0000 + s[1] * 0x1_0000 + s[2] * 0x100 + s[3]
}

/// The value of eight bytes read most significant first.
pub open spec fn value_of_8(s: Seq<u8>) -> int {
    s[0] * 0x100_0000_0000_0000 + s[1] * 0x1_0000_0000_0000 + s[2] * 0x100_0000_0000 + s[3]
        * 0x1_0000_0000 + s[4] * 0x100_0000 + s[5] * 0x1_0000 + s[6] * 0x100 + s[7]
}

/// The bytes of a log file are laid out as the format says: the 16-byte
/// header is `"SSL_LOG_FILE"` and the version 1 in four big-endian bytes;
/// a message is its timestamp in eight big-endian bytes (two's complement),
/// the raw value of its type in four, the length of its payload in four, and
/// then the payload.
pub proof fn lemma_file_layout(m: LogMessageView)
    requires
        encodable(m),
    ensures
        header_bytes() == seq![83u8, 83, 76, 95, 76, 79, 71, 95, 70, 73, 76, 69, 0, 0, 0, 1],
        encode_message(m).len() == 16 + m.payload.len(),
        value_of_8(encode_message(m).subrange(0, 8)) == if m.timestamp_ns < 0 {
            m.timestamp_ns + 0x1_0000_0000_0000_0000int
        } else {
            m.timestamp_ns as int
        },
        value_of_4(encode_message(m).subrange(8, 12)) == m.message_id.code(),
        value_of_4(encode_message(m).subrange(12, 16)) == m.payload.len(),
        encode_message(m).subrange(16, 16 + m.payload.len() as int) == m.payload,
{
    let t = i64_be_bytes(m.timestamp_ns);
    let c = i32_be_bytes(m.message_id.code());
    let l = i32_be_bytes(m.payload.len() as i32);
    lemma_i64_be_bytes_value(m.timestamp_ns);
    lemma_i32_be_bytes_value(m.message_id.code());
    lemma_i32_be_bytes_value(m.payload.len() as i32);
    let e = encode_message(m);
    assert(e.subrange(0, 8) =~= t);
    assert(e.subrange(8, 12) =~= c);
    assert(e.subrange(12, 16) =~= l);
    assert(e.subrange(16, 16 + m.payload.len() as int) =~= m.payload);
    let one: u32 = 1;
    assert((one >> 24u32) as u8 == 0 && (one >> 16u32) as u8 == 0 && (one >> 8u32) as u8 == 0
        && one as u8 == 1) by (bit_vector)
        requires
            one == 1,
    ;
    assert(i32_be_bytes(FILE_VERSION) =~= seq![0u8, 0, 0, 1]);
    assert(header_bytes() =~= seq![83u8, 83, 76, 95, 76, 79, 71, 95, 70, 73, 76, 69, 0, 0, 0, 1]);
}

/// The index at the end of a file is laid out as the format says: a message
/// header (timestamp 0, the raw value 6 of `Index2021`, the length
/// `8 * n + 15`), the `n` offsets in eight big-endian bytes each, the size of
/// the whole index, `8 * n + 31`, in eight big-endian bytes, and the marker
/// `"INDEXED"`.
pub proof fn lemma_index_layout(o: Seq<u64>)
    requires
        8 * o.len() + 31 <= i32::MAX,
    ensures
        ({
            let e = encode_index(o);
            let n = o.len() as int;
            &&& e.len() == 8 * n + 31
            &&& value_of_8(e.subrange(0, 8)) == 0
            &&& value_of_4(e.subrange(8, 12)) == 6
            &&& value_of_4(e.subrange(12, 16)) == 8 * n + 15
            &&& forall|i: int|
                0 <= i < n ==> value_of_8(#[trigger] e.subrange(16 + 8 * i, 24 + 8 * i)) == o[i]
            &&& value_of_8(e.subrange(8 * n + 16, 8 * n + 24)) == 8 * n + 31
            &&& e.subrange(8 * n + 24, 8 * n + 31) == seq![73u8, 78, 68, 69, 88, 69, 68]
        }),
{
    let n = o.len() as int;
    let e = encode_index(o);
    lemma_u64s_be(o);
    lemma_i64_be_bytes_value(0);
    lemma_i32_be_bytes_value(MessageId::Index2021.code());
    lemma_i32_be_bytes_value((8 * n + 15) as i32);
    lemma_i64_be_bytes_value((8 * n + 31) as i64);
    assert(e.subrange(0, 8) =~= i64_be_bytes(0));
    assert(e.subrange(8, 12) =~= i32_be_bytes(MessageId::Index2021.code()));
    assert(e.subrange(12, 16) =~= i32_be_bytes((8 * n + 15) as i32));
    assert forall|i: int| 0 <= i < n implies value_of_8(
        #[trigger] e.subrange(16 + 8 * i, 24 + 8 * i),
    ) == o[i] by {
        assert(e.subrange(16 + 8 * i, 24 + 8 * i) =~= u64s_be(o).subrange(8 * i, 8 * i + 8));
        lemma_u64_be_bytes_value(o[i]);
    }
    assert(e.subrange(8 * n + 16, 8 * n + 24) =~= i64_be_bytes((8 * n + 31) as i64));
    assert(e.subrange(8 * n + 24, 8 * n + 31) =~= indexed_marker_bytes());
}

/// A stream passes the header check exactly when it starts with the 16
/// bytes `"SSL_LOG_FILE"` and the version 1 in four big-endian bytes.
pub proof fn lemma_header_check(s: Seq<u8>)
    ensures
        check_header(s) == HeaderCheck::Valid <==> (s.len() >= 16 && s.subrange(0, 16) == seq![
            83u8,
            83,
            76,
            95,
            76,
            79,
            71,
            95,
            70,
            73,
            76,
            69,
            0,
            0,
            0,
            1,
        ]),
{
    let h = seq![83u8, 83, 76, 95, 76, 79, 71, 95, 70, 73, 76, 69, 0, 0, 0, 1];
    if s.len() >= 16 {
        let v = s.subrange(12, 16);
        lemma_i32_from_be_value(v);
        if s.subrange(0, 16) == h {
            assert(s.subrange(0, 12) =~= file_magic());
            assert(v =~= seq![0u8, 0, 0, 1]);
            assert(i32_from_be(v) == 1);
        }
        if check_header(s) == HeaderCheck::Valid {
            assert(s.subrange(0, 12) == file_magic());
            assert(i32_from_be(v) == 1);
            assert(v[0] == 0 && v[1] == 0 && v[2] == 0 && v[3] == 1) by (nonlinear_arith)
                requires
                    v[0] * 0x100_0000 + v[1] * 0x1_0000 + v[2] * 0x100 + v[3] - (if v[0] >= 0x80 {
                        0x1_0000_0000int
                    } else {
                        0int
                    }) == 1,
                    0 <= v[0] < 256,
                    0 <= v[1] < 256,
                    0 <= v[2] < 256,
                    0 <= v[3] < 256,
            ;
            assert(s.subrange(0, 16) =~= h);
        }
    }
}

} // verus!
