use loguna::{LogMessage, LogReader, LogWriter, MessageId, HEADER_SIZE};

fn write_sample_log() -> Vec<u8> {
    let mut writer = LogWriter::create(false);
    writer
        .write_message(&LogMessage {
            timestamp_ns: 100,
            message_id: MessageId::Vision2014,
            payload: vec![1, 2, 3],
        })
        .unwrap();
    writer
        .write_message(&LogMessage {
            timestamp_ns: 200,
            message_id: MessageId::Referee2013,
            payload: vec![4, 5],
        })
        .unwrap();
    writer.close().unwrap()
}

#[test]
fn next_message_info_skips_payload_without_allocating_messages() {
    let bytes = write_sample_log();

    let mut reader = LogReader::open(bytes, false).unwrap();
    let first = reader.next_message_info().unwrap().unwrap();
    let second = reader.next_message_info().unwrap().unwrap();

    assert_eq!(first.timestamp_ns, 100);
    assert_eq!(first.message_id, MessageId::Vision2014);
    assert_eq!(first.payload_len, 3);
    assert_eq!(second.timestamp_ns, 200);
    assert_eq!(second.message_id, MessageId::Referee2013);
    assert_eq!(second.payload_len, 2);
    assert!(reader.next_message_info().unwrap().is_none());
}

#[test]
fn read_info_at_reports_header_fields() {
    let bytes = write_sample_log();

    let mut reader = LogReader::open(bytes, false).unwrap();
    let first = reader.read_info_at(HEADER_SIZE as u64).unwrap();
    let second = reader.read_info_at(HEADER_SIZE as u64 + 16 + 3).unwrap();

    assert_eq!(first.timestamp_ns, 100);
    assert_eq!(first.message_id, MessageId::Vision2014);
    assert_eq!(first.payload_len, 3);
    assert_eq!(second.timestamp_ns, 200);
    assert_eq!(second.message_id, MessageId::Referee2013);
    assert_eq!(second.payload_len, 2);
}
