use loguna::{
    file_header, indexed_marker, IoErrorKind, LogMessage, LogReader, LogWriter, MessageId,
    ReadError, FILE_VERSION, HEADER_SIZE,
};

fn msg(ts: i64, id: MessageId, payload: Vec<u8>) -> LogMessage {
    LogMessage { timestamp_ns: ts, message_id: id, payload }
}

fn log_of(messages: &[LogMessage]) -> Vec<u8> {
    let mut w = LogWriter::create(false);
    for m in messages {
        w.write_message(m).unwrap();
    }
    w.close().unwrap()
}

#[test]
fn message_id_raw_values_round_trip() {
    let all = [
        (MessageId::Blank, 0),
        (MessageId::Unknown, 1),
        (MessageId::Vision2010, 2),
        (MessageId::Referee2013, 3),
        (MessageId::Vision2014, 4),
        (MessageId::VisionTracker2020, 5),
        (MessageId::Index2021, 6),
    ];
    for (id, raw) in all {
        assert_eq!(id.as_i32(), raw);
        assert_eq!(MessageId::from_i32(raw), Some(id));
    }
    assert_eq!(MessageId::from_i32(7), None);
    assert_eq!(MessageId::from_i32(-1), None);
    assert_eq!(MessageId::VisionTracker2020.to_display_string(), "VisionTracker2020");
    assert_eq!(MessageId::Blank.to_display_string(), "Blank");
}

#[test]
fn header_and_message_bytes_are_big_endian() {
    let bytes = log_of(&[msg(0x0102030405060708, MessageId::Referee2013, vec![9, 8])]);
    assert_eq!(&bytes[..12], b"SSL_LOG_FILE");
    assert_eq!(&bytes[12..16], &[0, 0, 0, 1]);
    assert_eq!(&bytes[16..24], &[1, 2, 3, 4, 5, 6, 7, 8]);
    assert_eq!(&bytes[24..28], &[0, 0, 0, 3]);
    assert_eq!(&bytes[28..32], &[0, 0, 0, 2]);
    assert_eq!(&bytes[32..], &[9, 8]);
    assert_eq!(&file_header(), b"SSL_LOG_FILE");
    assert_eq!(&indexed_marker(), b"INDEXED");
    assert_eq!(FILE_VERSION, 1);
    assert_eq!(HEADER_SIZE, 16);
}

#[test]
fn negative_timestamp_is_written_as_twos_complement() {
    let bytes = log_of(&[msg(-2, MessageId::Blank, vec![])]);
    assert_eq!(&bytes[16..24], &[0xff, 0xff, 0xff, 0xff, 0xff, 0xff, 0xff, 0xfe]);
    let mut reader = LogReader::open(bytes, false).unwrap();
    let m = reader.next_message().unwrap().unwrap();
    assert_eq!(m.timestamp_ns, -2);
}

#[test]
fn written_messages_read_back_in_order() {
    let messages = vec![
        msg(1, MessageId::Vision2014, vec![1, 2, 3]),
        msg(2, MessageId::Referee2013, vec![]),
        msg(i64::MAX, MessageId::Index2021, vec![0; 300]),
        msg(i64::MIN, MessageId::Unknown, vec![7]),
    ];
    let bytes = log_of(&messages);
    let mut reader = LogReader::open(bytes, false).unwrap();
    let read = reader.read_all().unwrap();
    assert_eq!(read.len(), messages.len());
    for (a, b) in read.iter().zip(messages.iter()) {
        assert_eq!(a.timestamp_ns, b.timestamp_ns);
        assert_eq!(a.message_id, b.message_id);
        assert_eq!(a.payload, b.payload);
    }
    assert!(reader.next_message().unwrap().is_none());
}

#[test]
fn random_access_reads_the_message_at_its_offset() {
    let messages = vec![
        msg(10, MessageId::Vision2014, vec![1, 2, 3]),
        msg(20, MessageId::Referee2013, vec![4, 5]),
        msg(30, MessageId::VisionTracker2020, vec![6]),
    ];
    let mut reader = LogReader::open(log_of(&messages), false).unwrap();
    let third = reader.read_message_at(16 + 19 + 18).unwrap();
    assert_eq!(third.timestamp_ns, 30);
    assert_eq!(third.payload, vec![6]);
    let (ts, id) = reader.read_header_at(16 + 19).unwrap();
    assert_eq!((ts, id), (20, MessageId::Referee2013));
    // read_header_at leaves the cursor after the header, before the payload.
    assert_eq!(reader.bytes_read(), 16 + 19 + 16);
}

#[test]
fn skip_message_reports_header_and_payload_size() {
    let messages = vec![
        msg(10, MessageId::Vision2014, vec![1, 2, 3]),
        msg(20, MessageId::Referee2013, vec![]),
    ];
    let mut reader = LogReader::open(log_of(&messages), false).unwrap();
    assert_eq!(reader.skip_message().unwrap(), Some(19));
    assert_eq!(reader.skip_message().unwrap(), Some(16));
    assert_eq!(reader.skip_message().unwrap(), None);
}

#[test]
fn truncated_payload_is_an_unexpected_eof_for_next_message() {
    let mut bytes = log_of(&[msg(10, MessageId::Vision2014, vec![1, 2, 3])]);
    bytes.pop();
    let mut reader = LogReader::open(bytes.clone(), false).unwrap();
    match reader.next_message() {
        Err(ReadError::Io(e)) => {
            assert_eq!(e.kind, IoErrorKind::UnexpectedEof);
            assert_eq!(e.message, "failed to fill whole buffer");
        }
        other => panic!("unexpected result {:?}", other),
    }
    // Reading only the header skips what is left of the payload.
    let mut reader = LogReader::open(bytes, false).unwrap();
    let info = reader.next_message_info().unwrap().unwrap();
    assert_eq!(info.payload_len, 3);
    assert!(reader.next_message_info().unwrap().is_none());
}

#[test]
fn a_few_trailing_bytes_end_the_log() {
    let mut bytes = log_of(&[msg(10, MessageId::Vision2014, vec![1])]);
    bytes.extend_from_slice(&[1, 2, 3, 4, 5, 6, 7]);
    let mut reader = LogReader::open(bytes, false).unwrap();
    assert!(reader.next_message().unwrap().is_some());
    assert!(reader.next_message().unwrap().is_none());
}

#[test]
fn a_cut_message_header_is_an_unexpected_eof() {
    let mut bytes = log_of(&[]);
    bytes.extend_from_slice(&[0, 0, 0, 0, 0, 0, 0, 1, 0, 0]);
    let mut reader = LogReader::open(bytes, false).unwrap();
    assert!(matches!(reader.next_message(), Err(ReadError::Io(ref e)) if e.kind == IoErrorKind::UnexpectedEof));
}

#[test]
fn unknown_message_id_is_reported() {
    let mut bytes = log_of(&[]);
    bytes.extend_from_slice(&[0, 0, 0, 0, 0, 0, 0, 1]);
    bytes.extend_from_slice(&[0, 0, 0, 9]);
    bytes.extend_from_slice(&[0, 0, 0, 0]);
    let mut reader = LogReader::open(bytes, false).unwrap();
    assert!(matches!(reader.next_message(), Err(ReadError::UnknownMessageId { id: 9 })));
}

#[test]
fn negative_length_is_reported() {
    let mut bytes = log_of(&[]);
    bytes.extend_from_slice(&[0, 0, 0, 0, 0, 0, 0, 1]);
    bytes.extend_from_slice(&[0, 0, 0, 4]);
    bytes.extend_from_slice(&[0xff, 0xff, 0xff, 0xfb]);
    let mut reader = LogReader::open(bytes, false).unwrap();
    assert!(matches!(reader.next_message(), Err(ReadError::InvalidLength { length: -5 })));
}

#[test]
fn bad_header_is_reported() {
    let mut bytes = log_of(&[]);
    bytes[11] = b'X';
    match LogReader::open(bytes, false) {
        Err(ReadError::InvalidHeader { found }) => assert_eq!(found, "SSL_LOG_FILX"),
        _ => panic!("expected an invalid header"),
    }
    let mut bytes = log_of(&[]);
    bytes[15] = 2;
    assert!(matches!(
        LogReader::open(bytes, false),
        Err(ReadError::UnsupportedVersion { version: 2 })
    ));
    let bytes = b"SSL_LOG_FILE\0\0".to_vec();
    assert!(matches!(
        LogReader::open(bytes, false),
        Err(ReadError::Io(ref e)) if e.kind == IoErrorKind::UnexpectedEof
    ));
    assert!(matches!(LogReader::open(b"SSL".to_vec(), false), Err(ReadError::Io(_))));
}

#[test]
fn read_all_reports_the_failure_that_stops_it() {
    let mut bytes = log_of(&[msg(1, MessageId::Blank, vec![])]);
    bytes.extend_from_slice(&[0, 0, 0, 0, 0, 0, 0, 1, 0, 0, 0, 42, 0, 0, 0, 0]);
    let mut reader = LogReader::open(bytes, false).unwrap();
    assert!(matches!(reader.read_all(), Err(ReadError::UnknownMessageId { id: 42 })));
}

#[test]
fn reading_past_the_end_at_an_offset_reports_a_missing_header() {
    let mut reader = LogReader::open(log_of(&[msg(1, MessageId::Blank, vec![])]), false).unwrap();
    match reader.read_message_at(1000) {
        Err(ReadError::Io(e)) => {
            assert_eq!(e.kind, IoErrorKind::UnexpectedEof);
            assert_eq!(e.message, "unexpected end of file while reading message header");
        }
        _ => panic!("expected an error"),
    }
}

#[test]
fn index_written_after_messages_reads_back() {
    let mut w = LogWriter::create(false);
    w.write_message(&msg(1, MessageId::Vision2014, vec![1, 2])).unwrap();
    w.write_message(&msg(2, MessageId::Referee2013, vec![3])).unwrap();
    w.write_index(&[16, 34, u64::MAX]).unwrap();
    let bytes = w.close().unwrap();
    let index_start = 16 + 18 + 17;
    // The index message header: timestamp 0, id 6, length 3 * 8 + 15.
    assert_eq!(&bytes[index_start..index_start + 8], &[0; 8]);
    assert_eq!(&bytes[index_start + 8..index_start + 12], &[0, 0, 0, 6]);
    assert_eq!(&bytes[index_start + 12..index_start + 16], &[0, 0, 0, 39]);
    assert_eq!(&bytes[bytes.len() - 15..bytes.len() - 7], &[0, 0, 0, 0, 0, 0, 0, 55]);
    assert_eq!(&bytes[bytes.len() - 7..], b"INDEXED");

    let mut reader = LogReader::open(bytes, false).unwrap();
    assert!(reader.is_indexed());
    assert_eq!(reader.read_index().unwrap(), vec![16, 34, u64::MAX]);
    let first = reader.read_message_at(16).unwrap();
    assert_eq!(first.payload, vec![1, 2]);
    // A sequential reader sees the index as an Index2021 message.
    let all = reader.read_all().unwrap();
    assert_eq!(all.len(), 2);
    let index = reader.read_message_at(index_start as u64).unwrap();
    assert_eq!(index.message_id, MessageId::Index2021);
    assert_eq!(index.timestamp_ns, 0);
    assert_eq!(index.payload.len(), 39);
}

fn assert_no_index(r: Result<Vec<u64>, ReadError>) {
    match r {
        Err(ReadError::Io(e)) => {
            assert_eq!(e.kind, IoErrorKind::Other);
            assert_eq!(e.message, "log file has no readable index");
        }
        other => panic!("expected the missing index error, got {:?}", other),
    }
}

#[test]
fn a_file_without_index_is_not_indexed() {
    let reader = LogReader::open(log_of(&[msg(1, MessageId::Blank, vec![])]), false).unwrap();
    assert!(!reader.is_indexed());
    assert_no_index(reader.read_index());
    let mut bytes = log_of(&[]);
    bytes.extend_from_slice(b"INDEXED");
    let reader = LogReader::open(bytes, false).unwrap();
    assert!(reader.is_indexed());
    // The size in front of the marker is not a plausible size of an index.
    assert_no_index(reader.read_index());
}

#[test]
fn compressed_logs_round_trip_and_refuse_random_access() {
    let messages = vec![
        msg(5, MessageId::Vision2014, vec![1, 2, 3, 4]),
        msg(6, MessageId::VisionTracker2020, vec![5; 100]),
    ];
    let mut w = LogWriter::create(true);
    for m in &messages {
        w.write_message(m).unwrap();
    }
    let bytes = w.close().unwrap();
    assert_eq!(&bytes[..2], &[0x1f, 0x8b]);
    let total = bytes.len() as u64;
    let mut reader = LogReader::open(bytes, true).unwrap();
    assert!(reader.is_compressed());
    assert_eq!(reader.total_bytes(), total);
    // The decompressed stream holds 16 + (16 + 4) + (16 + 100) bytes; the
    // cursor after the header stands for the same share of the file.
    assert_eq!(reader.bytes_read(), 16 * total / 152);
    assert!(!reader.is_indexed());
    assert!(matches!(reader.read_message_at(16), Err(ReadError::NoRandomAccessForCompressed)));
    assert!(matches!(reader.read_info_at(16), Err(ReadError::NoRandomAccessForCompressed)));
    assert!(matches!(reader.read_index(), Err(ReadError::NoRandomAccessForCompressed)));
    let read = reader.read_all().unwrap();
    assert_eq!(read.len(), 2);
    assert_eq!(read[1].payload, vec![5; 100]);
    assert_eq!(reader.bytes_read(), total);
}

#[test]
fn corrupt_gzip_fails_to_open() {
    assert!(matches!(LogReader::open(vec![1, 2, 3, 4, 5], true), Err(ReadError::Io(_))));
}

#[test]
fn progress_follows_the_cursor_of_a_plain_file() {
    let bytes = log_of(&[msg(1, MessageId::Blank, vec![1, 2, 3, 4])]);
    let total = bytes.len() as u64;
    let mut reader = LogReader::open(bytes, false).unwrap();
    assert_eq!(reader.bytes_read(), 16);
    reader.next_message().unwrap();
    let p = reader.progress();
    assert_eq!(p.bytes_read, total);
    assert_eq!(p.total_bytes, total);
}

#[test]
fn appending_writes_no_header() {
    let mut w = LogWriter::append(false);
    w.write_message(&msg(1, MessageId::Blank, vec![])).unwrap();
    let bytes = w.close().unwrap();
    assert_eq!(bytes.len(), 16);
    let mut full = log_of(&[]);
    full.extend_from_slice(&bytes);
    let mut reader = LogReader::open(full, false).unwrap();
    assert_eq!(reader.read_all().unwrap().len(), 1);
}

#[test]
fn skip_message_counts_only_what_is_left_of_a_cut_payload() {
    let mut bytes = log_of(&[msg(10, MessageId::Vision2014, vec![1, 2, 3, 4, 5])]);
    bytes.truncate(bytes.len() - 3);
    let mut reader = LogReader::open(bytes, false).unwrap();
    assert_eq!(reader.skip_message().unwrap(), Some(18));
    assert_eq!(reader.skip_message().unwrap(), None);
}

#[test]
fn progress_never_exceeds_the_file_size() {
    let bytes = log_of(&[msg(1, MessageId::Blank, vec![1, 2])]);
    let total = bytes.len() as u64;
    let mut reader = LogReader::open(bytes, false).unwrap();
    assert!(reader.read_message_at(5000).is_err());
    let p = reader.progress();
    assert_eq!(p.bytes_read, total);
    assert_eq!(p.total_bytes, total);
}

fn gz_log_of(messages: &[LogMessage]) -> Vec<u8> {
    let mut w = LogWriter::create(true);
    for m in messages {
        w.write_message(m).unwrap();
    }
    w.close().unwrap()
}

fn three_messages() -> Vec<LogMessage> {
    vec![
        msg(10, MessageId::Blank, vec![1, 2, 3]),
        msg(20, MessageId::Referee2013, vec![9; 40]),
        msg(30, MessageId::Unknown, vec![]),
    ]
}

#[test]
fn a_compressed_file_cut_in_its_trailer_still_reads_every_message() {
    let mut bytes = gz_log_of(&three_messages());
    let len = bytes.len();
    bytes.truncate(len - 4);
    let mut reader = LogReader::open(bytes, true).unwrap();
    let all = reader.read_all().unwrap();
    assert_eq!(all.len(), 3);
    assert_eq!(all[1].payload, vec![9; 40]);
    assert_eq!(all[2].timestamp_ns, 30);
}

#[test]
fn a_compressed_file_with_a_bad_checksum_fails_after_its_messages() {
    let mut bytes = gz_log_of(&three_messages());
    let crc_at = bytes.len() - 8;
    bytes[crc_at] ^= 0xFF;
    let mut reader = LogReader::open(bytes, true).unwrap();
    for expected in three_messages() {
        let m = reader.next_message().unwrap().unwrap();
        assert_eq!(m.timestamp_ns, expected.timestamp_ns);
        assert_eq!(m.message_id, expected.message_id);
        assert_eq!(m.payload, expected.payload);
    }
    match reader.next_message() {
        Err(ReadError::Io(e)) => {
            assert_eq!(e.kind, IoErrorKind::Other);
            assert_eq!(e.message, "corrupt gzip stream does not have a matching checksum");
        }
        other => panic!("expected the decoding error, got {:?}", other),
    }
}

#[test]
fn a_compressed_file_cut_inside_its_header_reports_the_decoding_error() {
    let mut bytes = gz_log_of(&three_messages());
    bytes.truncate(11);
    match LogReader::open(bytes, true) {
        Err(ReadError::Io(e)) => {
            assert_eq!(e.kind, IoErrorKind::UnexpectedEof);
            assert_eq!(e.message, "incomplete deflate stream");
        }
        Err(other) => panic!("expected the decoding error, got {:?}", other),
        Ok(_) => panic!("a cut file opened"),
    }
}

#[test]
fn skipping_through_a_compressed_file_with_a_bad_checksum_ends_in_the_decoding_error() {
    let mut bytes = gz_log_of(&three_messages());
    let crc_at = bytes.len() - 8;
    bytes[crc_at] ^= 0xFF;
    let mut reader = LogReader::open(bytes, true).unwrap();
    assert_eq!(reader.skip_message().unwrap(), Some(19));
    assert_eq!(reader.skip_message().unwrap(), Some(56));
    assert_eq!(reader.skip_message().unwrap(), Some(16));
    assert!(matches!(reader.skip_message(), Err(ReadError::Io(_))));
}

#[test]
fn reading_in_turn_moves_from_one_message_to_the_next() {
    let messages = three_messages();
    let mut reader = LogReader::open(log_of(&messages), false).unwrap();
    let mut offset = 16u64;
    for expected in &messages {
        assert_eq!(reader.bytes_read(), offset);
        let m = reader.next_message().unwrap().unwrap();
        assert_eq!(m.payload, expected.payload);
        offset += 16 + expected.payload.len() as u64;
    }
    assert_eq!(reader.bytes_read(), offset);
    assert!(reader.next_message().unwrap().is_none());
    assert!(reader.next_message().unwrap().is_none());
}

#[test]
fn header_reads_agree_with_message_reads() {
    let messages = three_messages();
    let bytes = log_of(&messages);
    let mut a = LogReader::open(bytes.clone(), false).unwrap();
    let mut b = LogReader::open(bytes, false).unwrap();
    for _ in 0..3 {
        let info = a.next_message_info().unwrap().unwrap();
        let m = b.next_message().unwrap().unwrap();
        assert_eq!(info.timestamp_ns, m.timestamp_ns);
        assert_eq!(info.message_id, m.message_id);
        assert_eq!(info.payload_len, m.payload.len());
        assert_eq!(a.bytes_read(), b.bytes_read());
    }
    assert!(a.next_message_info().unwrap().is_none());
    assert!(b.next_message().unwrap().is_none());
}
