use loguna::{
    default_type_counts, hex_dump_lines, indexed_progress, scan_progress_due, find_message_at_index, increment_type_count, resolve_type_filter, App,
    DetailSource, DumpSelection, DumpStep, LoadedEntries, LogEntryDetail, LogMessage, LogReader,
    LogStats, LogWriter, MessageId, MessageTypeSet, MsgTypeFilter, OutputLimit, RefereeChanges,
    Tab,
};

fn msg(ts: i64, id: MessageId, len: usize) -> LogMessage {
    LogMessage { timestamp_ns: ts, message_id: id, payload: vec![0; len] }
}

fn sample() -> Vec<LogMessage> {
    vec![
        msg(1000, MessageId::Vision2014, 3),
        msg(2000, MessageId::Referee2013, 2),
        msg(3000, MessageId::Vision2014, 1),
        msg(4000, MessageId::VisionTracker2020, 0),
        msg(5000, MessageId::Vision2014, 5),
    ]
}

fn app_of(messages: &[LogMessage]) -> App {
    let mut load = LoadedEntries::new();
    for m in messages {
        let base = load.base_for(m.timestamp_ns);
        load.push(None, m, format!("{} {}", m.timestamp_ns - base, m.message_id.to_display_string()));
    }
    App::from_load("sample.log".to_string(), load, None)
}

#[test]
fn loading_sets_base_counts_and_filter() {
    let app = app_of(&sample());
    assert_eq!(app.total_messages, 5);
    assert_eq!(app.base_timestamp_ns, 1000);
    assert_eq!(app.filtered_indices, vec![0, 1, 2, 3, 4]);
    assert_eq!(app.selected, 0);
    assert_eq!(app.page_size, 20);
    assert_eq!(app.tab, Tab::Overview);
    assert!(!app.show_detail);
    assert_eq!(app.all_entries[2].summary, "2000 Vision2014");
    assert_eq!(app.all_entries[4].index, 4);
    assert_eq!(app.all_entries[4].info.payload_len, 5);
    assert_eq!(
        app.type_counts(),
        vec![
            (MessageId::Vision2014, 3),
            (MessageId::Referee2013, 1),
            (MessageId::VisionTracker2020, 1)
        ]
    );
}

#[test]
fn navigation_stays_inside_the_filtered_list() {
    let mut app = app_of(&sample());
    app.previous();
    assert_eq!(app.selected, 0);
    app.next();
    app.next();
    assert_eq!(app.selected, 2);
    app.last();
    assert_eq!(app.selected, 4);
    app.next();
    assert_eq!(app.selected, 4);
    app.page_up();
    assert_eq!(app.selected, 0);
    app.page_size = 3;
    app.page_down();
    assert_eq!(app.selected, 3);
    app.page_down();
    assert_eq!(app.selected, 4);
    app.first();
    assert_eq!(app.selected, 0);
    assert_eq!(app.selected_entry().unwrap().index, 0);
}

#[test]
fn toggling_a_type_filters_and_toggling_back_restores() {
    let mut app = app_of(&sample());
    app.last();
    app.toggle_message_filter(MessageId::Vision2014);
    assert!(!app.enabled_types.contains(MessageId::Vision2014));
    assert_eq!(app.filtered_indices, vec![1, 3]);
    assert_eq!(app.selected, 1);
    assert_eq!(app.selected_entry().unwrap().index, 3);
    app.toggle_message_filter(MessageId::Vision2014);
    assert_eq!(app.filtered_indices, vec![0, 1, 2, 3, 4]);
    assert_eq!(app.selected, 1);
}

#[test]
fn disabling_every_present_type_empties_the_list() {
    let mut app = app_of(&sample());
    app.toggle_message_filter(MessageId::Vision2014);
    app.toggle_message_filter(MessageId::Referee2013);
    app.toggle_message_filter(MessageId::VisionTracker2020);
    assert!(app.filtered_indices.is_empty());
    assert_eq!(app.selected, 0);
    assert!(app.selected_entry().is_none());
    app.next();
    app.last();
    app.page_down();
    assert_eq!(app.selected, 0);
    assert_eq!(app.detail_source(), DetailSource::Nothing);
}

#[test]
fn panels_and_tabs_toggle() {
    let mut app = app_of(&sample());
    app.toggle_detail();
    assert!(app.show_detail);
    app.toggle_detail();
    assert!(!app.show_detail);
    app.next_tab();
    assert_eq!(app.tab, Tab::Detail);
    app.prev_tab();
    assert_eq!(app.tab, Tab::Overview);
    app.toggle_filter_menu();
    assert!(app.show_filter_menu);
}

#[test]
fn detail_comes_from_the_cache_once_stored() {
    let messages = sample();
    let mut app = app_of(&messages);
    app.next();
    assert_eq!(app.detail_source(), DetailSource::Scan { index: 1 });
    app.store_detail(LogEntryDetail { index: 1, raw: messages[1].clone(), detail: "d".to_string() });
    assert_eq!(app.detail_source(), DetailSource::Cached);
    assert_eq!(app.detail_cache().unwrap().detail, "d");
    app.next();
    assert_eq!(app.detail_source(), DetailSource::Scan { index: 2 });
}

#[test]
fn indexed_entries_are_read_through_the_indexed_reader() {
    let messages = sample();
    let mut w = LogWriter::create(false);
    for m in &messages {
        w.write_message(m).unwrap();
    }
    w.write_index(&[16, 35, 53]).unwrap();
    let bytes = w.close().unwrap();
    let mut load = LoadedEntries::new();
    let mut reader = LogReader::open(bytes.clone(), false).unwrap();
    for offset in reader.read_index().unwrap() {
        let m = reader.read_message_at(offset).unwrap();
        load.push(Some(offset), &m, String::new());
    }
    let mut app = App::from_load("i.log".to_string(), load, Some(LogReader::open(bytes, false).unwrap()));
    assert!(app.has_indexed_reader());
    app.next();
    assert_eq!(app.detail_source(), DetailSource::Indexed { index: 1, offset: 35 });
    let m = app.read_indexed_message(35).unwrap();
    assert_eq!(m.timestamp_ns, 2000);
    assert_eq!(m.message_id, MessageId::Referee2013);
}

#[test]
fn scanning_finds_the_message_at_an_index() {
    let messages = sample();
    let mut w = LogWriter::create(false);
    for m in &messages {
        w.write_message(m).unwrap();
    }
    let bytes = w.close().unwrap();
    let mut reader = LogReader::open(bytes.clone(), false).unwrap();
    let m = find_message_at_index(&mut reader, 3).unwrap().unwrap();
    assert_eq!(m.timestamp_ns, 4000);
    // The cursor stands after the fourth message.
    let taken: usize = messages[..4].iter().map(|m| 16 + m.payload.len()).sum();
    assert_eq!(reader.bytes_read(), 16 + taken as u64);
    let mut reader = LogReader::open(bytes.clone(), false).unwrap();
    assert!(find_message_at_index(&mut reader, 5).unwrap().is_none());
    assert_eq!(reader.bytes_read(), bytes.len() as u64);
}

#[test]
fn type_counts_start_at_zero_and_count_up() {
    let mut counts = default_type_counts();
    assert_eq!(counts.len(), 7);
    assert!(counts.iter().all(|(_, c)| *c == 0));
    assert_eq!(counts[0].0, MessageId::Vision2014);
    assert_eq!(counts[6].0, MessageId::Index2021);
    increment_type_count(&mut counts, MessageId::Blank);
    increment_type_count(&mut counts, MessageId::Blank);
    assert_eq!(counts[4], (MessageId::Blank, 2));
}

#[test]
fn message_type_sets() {
    let mut s = MessageTypeSet::empty();
    assert!(!s.contains(MessageId::Unknown));
    s.insert(MessageId::Unknown);
    assert!(s.contains(MessageId::Unknown));
    assert!(!s.contains(MessageId::Blank));
    s.remove(MessageId::Unknown);
    assert!(!s.contains(MessageId::Unknown));
    assert!(MessageTypeSet::all().contains(MessageId::Index2021));
}

#[test]
fn type_filters_resolve_to_sorted_unique_types() {
    let all = resolve_type_filter(&[]);
    assert_eq!(
        all,
        vec![
            MessageId::Vision2014,
            MessageId::Referee2013,
            MessageId::VisionTracker2020,
            MessageId::Vision2010,
            MessageId::Blank,
            MessageId::Unknown,
            MessageId::Index2021
        ]
    );
    assert_eq!(resolve_type_filter(&[MsgTypeFilter::Vision, MsgTypeFilter::All]), all);
    assert_eq!(
        resolve_type_filter(&[MsgTypeFilter::Tracker, MsgTypeFilter::Vision, MsgTypeFilter::Tracker]),
        vec![MessageId::Vision2014, MessageId::VisionTracker2020]
    );
    assert_eq!(
        resolve_type_filter(&[MsgTypeFilter::Referee, MsgTypeFilter::Vision2010]),
        vec![MessageId::Vision2010, MessageId::Referee2013]
    );
}

#[test]
fn dumps_skip_the_offset_and_stop_at_the_limit() {
    let mut d = DumpSelection::new(2, Some(2));
    assert_eq!(d.step(false), DumpStep::Skip);
    assert_eq!(d.step(true), DumpStep::Skip);
    assert_eq!(d.step(true), DumpStep::Skip);
    assert_eq!(d.step(true), DumpStep::Emit { stop_after: false });
    assert_eq!(d.step(false), DumpStep::Skip);
    assert_eq!(d.step(true), DumpStep::Emit { stop_after: true });
    let mut unlimited = DumpSelection::new(0, None);
    assert_eq!(unlimited.step(true), DumpStep::Emit { stop_after: false });
    let mut limit = OutputLimit::new(Some(1));
    assert!(limit.record_emitted());
}

#[test]
fn referee_changes_are_detected() {
    let mut c = RefereeChanges::new();
    assert!(c.changed(1, 2));
    assert!(!c.changed(1, 2));
    assert!(c.changed(1, 3));
    assert!(c.changed(4, 3));
    assert!(!c.changed(4, 3));
}

#[test]
fn statistics_count_types_bytes_and_positive_timestamps() {
    let mut s = LogStats::new();
    s.observe(0, MessageId::Vision2014, 10);
    s.observe(100, MessageId::Referee2013, 5);
    s.observe(-5, MessageId::Vision2010, 1);
    s.observe(300, MessageId::Blank, 0);
    s.observe(400, MessageId::VisionTracker2020, 2);
    assert_eq!(s.total(), 5);
    assert_eq!((s.vision_count, s.vision2010_count, s.referee_count, s.tracker_count, s.other_count), (1, 1, 1, 1, 1));
    assert_eq!(s.first_ts, Some(100));
    assert_eq!(s.last_ts, 400);
    assert_eq!(s.total_bytes, 18);
    assert!(s.has_room_for(1));
}

#[test]
fn a_limit_of_zero_shows_nothing() {
    let mut d = DumpSelection::new(0, Some(0));
    assert_eq!(d.step(true), DumpStep::Skip);
    assert_eq!(d.step(true), DumpStep::Skip);
    assert_eq!(d.output.emitted, 0);
    let mut limit = OutputLimit::new(Some(0));
    assert!(!limit.allows_more());
    let mut one = DumpSelection::new(1, Some(1));
    assert_eq!(one.step(true), DumpStep::Skip);
    assert_eq!(one.step(true), DumpStep::Emit { stop_after: true });
    assert_eq!(one.step(true), DumpStep::Skip);
    limit.limit = None;
    assert!(limit.allows_more());
}

#[test]
fn loaded_counts_add_up_to_the_entries() {
    let app = app_of(&sample());
    let counts = app.type_counts();
    let total: usize = counts.iter().map(|(_, c)| *c).sum();
    assert_eq!(total, app.total_messages);
    for (id, c) in &counts {
        let n = app.all_entries.iter().filter(|e| e.info.message_id == *id).count();
        assert_eq!(*c, n);
    }
}

#[test]
fn loading_reports_progress_every_512_entries_and_at_the_end() {
    let p = indexed_progress(0, 3, 16, 10, 100).unwrap();
    assert_eq!((p.bytes_read, p.total_bytes), (42, 100));
    assert!(indexed_progress(1, 3, 42, 10, 100).is_none());
    let last = indexed_progress(2, 3, 90, 10, 100).unwrap();
    assert_eq!(last.bytes_read, 100);
    assert!(indexed_progress(512, 1000, 0, 0, 100).is_some());
    assert!(scan_progress_due(0));
    assert!(!scan_progress_due(511));
    assert!(scan_progress_due(1024));
}

#[test]
fn hex_dump_shows_sixteen_bytes_per_line() {
    let bytes: Vec<u8> = (0u8..20).chain([b'A', b'z', 0x7f, 0xff]).collect();
    let lines: Vec<String> = hex_dump_lines(&bytes)
        .into_iter()
        .map(|l| String::from_utf8(l).unwrap())
        .collect();
    assert_eq!(lines.len(), 2);
    let hex: Vec<String> = bytes[..16].iter().map(|b| format!("{b:02x}")).collect();
    assert_eq!(lines[0], format!("{:<48}  {}", hex.join(" "), "................"));
    assert_eq!(lines[1], format!("{:<48}  {}", "10 11 12 13 41 7a 7f ff", "....Az.."));
    assert_eq!(hex_dump_lines(&[]).len(), 0);
    assert_eq!(hex_dump_lines(&vec![0x41; 300]).len(), 16);
    assert_eq!(hex_dump_lines(&vec![0x41; 32]).len(), 2);
}
