//! The state of the log viewer: the loaded entries, the message type filter,
//! the selection and the panels, and the rules by which they change.
use vstd::prelude::*;

use crate::error::ReadError;
use crate::message::{LogMessage, MessageId};
use crate::reader::{read_at_outcome, LogMessageInfo, LogReader, LogReaderView, ReadProgress};

verus! {

/// A loaded log entry: its position, its header fields and its one-line
/// summary.
#[derive(Debug, Clone)]
pub struct LogEntryMeta {
    pub index: usize,
    pub offset: Option<u64>,
    pub info: LogMessageInfo,
    pub summary: String,
}

/// The full message behind a log entry, with its detailed description.
#[derive(Debug, Clone)]
pub struct LogEntryDetail {
    pub index: usize,
    pub raw: LogMessage,
    pub detail: String,
}

/// What the viewer reports while it loads a log file.
#[derive(Debug, Clone)]
pub struct LoadingState {
    pub filename: String,
    pub progress: ReadProgress,
    pub messages_loaded: usize,
    pub phase: String,
}

/// The tabs of the detail panel.
#[derive(Debug, Clone, Copy, PartialEq, Eq, Structural)]
pub enum Tab {
    Overview,
    Detail,
}

impl Tab {
    /// The tab that follows this one.
    pub open spec fn following(self) -> Tab {
        match self {
            Tab::Overview => Tab::Detail,
            Tab::Detail => Tab::Overview,
        }
    }
}

/// The message types in the order in which the viewer lists them.
pub open spec fn listed_types() -> Seq<MessageId> {
    seq![
        MessageId::Vision2014,
        MessageId::Referee2013,
        MessageId::VisionTracker2020,
        MessageId::Vision2010,
        MessageId::Blank,
        MessageId::Unknown,
        MessageId::Index2021,
    ]
}

/// A set of message types, one flag per type.
pub struct MessageTypeSet {
    blank: bool,
    unknown: bool,
    vision2010: bool,
    referee2013: bool,
    vision2014: bool,
    vision_tracker2020: bool,
    index2021: bool,
}

impl MessageTypeSet {
    /// The flag of `id`.
    pub closed spec fn flag(&self, id: MessageId) -> bool {
        match id {
            MessageId::Blank => self.blank,
            MessageId::Unknown => self.unknown,
            MessageId::Vision2010 => self.vision2010,
            MessageId::Referee2013 => self.referee2013,
            MessageId::Vision2014 => self.vision2014,
            MessageId::VisionTracker2020 => self.vision_tracker2020,
            MessageId::Index2021 => self.index2021,
        }
    }
}

impl View for MessageTypeSet {
    type V = Set<MessageId>;

    closed spec fn view(&self) -> Set<MessageId> {
        Set::new(|id: MessageId| self.flag(id))
    }
}

impl MessageTypeSet {
    /// The set with every type flagged as `on`.
    fn uniform(on: bool) -> (s: MessageTypeSet)
        ensures
            forall|id: MessageId| s@.contains(id) == on,
    {
        MessageTypeSet {
            blank: on,
            unknown: on,
            vision2010: on,
            referee2013: on,
            vision2014: on,
            vision_tracker2020: on,
            index2021: on,
        }
    }

    /// The set of no message type.
    pub fn empty() -> (s: MessageTypeSet)
        ensures
            s@ == Set::<MessageId>::empty(),
    {
        let s = Self::uniform(false);
        assert(s@ =~= Set::<MessageId>::empty());
        s
    }

    /// The set of all message types.
    pub fn all() -> (s: MessageTypeSet)
        ensures
            s@ == Set::<MessageId>::full(),
    {
        let s = Self::uniform(true);
        assert(s@ =~= Set::<MessageId>::full());
        s
    }

    /// Whether `id` is in the set.
    pub fn contains(&self, id: MessageId) -> (b: bool)
        ensures
            b == self@.contains(id),
    {
        match id {
            MessageId::Blank => self.blank,
            MessageId::Unknown => self.unknown,
            MessageId::Vision2010 => self.vision2010,
            MessageId::Referee2013 => self.referee2013,
            MessageId::Vision2014 => self.vision2014,
            MessageId::VisionTracker2020 => self.vision_tracker2020,
            MessageId::Index2021 => self.index2021,
        }
    }

    /// Sets the flag of `id` to `on`.
    fn set_flag(&mut self, id: MessageId, on: bool)
        ensures
            final(self).flag(id) == on,
            forall|other: MessageId| other != id ==> final(self).flag(other) == old(self).flag(other),
    {
        match id {
            MessageId::Blank => self.blank = on,
            MessageId::Unknown => self.unknown = on,
            MessageId::Vision2010 => self.vision2010 = on,
            MessageId::Referee2013 => self.referee2013 = on,
            MessageId::Vision2014 => self.vision2014 = on,
            MessageId::VisionTracker2020 => self.vision_tracker2020 = on,
            MessageId::Index2021 => self.index2021 = on,
        }
    }

    /// Adds `id` to the set.
    pub fn insert(&mut self, id: MessageId)
        ensures
            final(self)@ == old(self)@.insert(id),
    {
        self.set_flag(id, true);
        assert(self@ =~= old(self)@.insert(id));
    }

    /// Removes `id` from the set.
    pub fn remove(&mut self, id: MessageId)
        ensures
            final(self)@ == old(self)@.remove(id),
    {
        self.set_flag(id, false);
        assert(self@ =~= old(self)@.remove(id));
    }
}

/// The indices, in increasing order, of those of the first `n` entries whose
/// message type is in `enabled`.
pub open spec fn matching_indices(
    entries: Seq<LogEntryMeta>,
    enabled: Set<MessageId>,
    n: int,
) -> Seq<usize>
    decreases n,
{
    if n <= 0 {
        seq![]
    } else {
        let before = matching_indices(entries, enabled, n - 1);
        if enabled.contains(entries[n - 1].info.message_id) {
            before.push((n - 1) as usize)
        } else {
            before
        }
    }
}

/// The indices of the entries whose message type is in `enabled`.
pub open spec fn filtered_for(entries: Seq<LogEntryMeta>, enabled: Set<MessageId>) -> Seq<usize> {
    matching_indices(entries, enabled, entries.len() as int)
}

/// The message type set `s` with `t` toggled.
pub open spec fn toggled(s: Set<MessageId>, t: MessageId) -> Set<MessageId> {
    if s.contains(t) {
        s.remove(t)
    } else {
        s.insert(t)
    }
}

/// The counts of `counts` that are not zero, in their order.
pub open spec fn nonzero_counts(counts: Seq<(MessageId, usize)>) -> Seq<(MessageId, usize)>
    decreases counts.len(),
{
    if counts.len() == 0 {
        seq![]
    } else if counts.last().1 > 0 {
        nonzero_counts(counts.drop_last()).push(counts.last())
    } else {
        nonzero_counts(counts.drop_last())
    }
}

/// Counts start at zero for every message type, in the listed order.
pub open spec fn zero_counts() -> Seq<(MessageId, usize)> {
    listed_types().map_values(|id: MessageId| (id, 0usize))
}

/// `counts` lists every message type once, in the listed order.
pub open spec fn counts_cover_types(counts: Seq<(MessageId, usize)>) -> bool {
    &&& counts.len() == 7
    &&& forall|k: int| 0 <= k < 7 ==> (#[trigger] counts[k]).0 == listed_types()[k]
}

/// The position of `id` in the listed order.
pub open spec fn listed_position(id: MessageId) -> int {
    match id {
        MessageId::Vision2014 => 0,
        MessageId::Referee2013 => 1,
        MessageId::VisionTracker2020 => 2,
        MessageId::Vision2010 => 3,
        MessageId::Blank => 4,
        MessageId::Unknown => 5,
        MessageId::Index2021 => 6,
    }
}

/// Counts that start at zero for every message type, in the listed order.
pub fn default_type_counts() -> (v: Vec<(MessageId, usize)>)
    ensures
        v@ == zero_counts(),
{
    let v = vec![
        (MessageId::Vision2014, 0usize),
        (MessageId::Referee2013, 0usize),
        (MessageId::VisionTracker2020, 0usize),
        (MessageId::Vision2010, 0usize),
        (MessageId::Blank, 0usize),
        (MessageId::Unknown, 0usize),
        (MessageId::Index2021, 0usize),
    ];
    assert(v@ =~= zero_counts());
    v
}

/// Adds one to the count of `message_id`, the first pair that names it.
pub fn increment_type_count(type_counts: &mut Vec<(MessageId, usize)>, message_id: MessageId)
    requires
        exists|k: int| 0 <= k < old(type_counts)@.len() && (#[trigger] old(type_counts)@[k]).0 == message_id,
        forall|k: int| 0 <= k < old(type_counts)@.len() ==> (#[trigger] old(type_counts)@[k]).1 < usize::MAX,
    ensures
        exists|k: int|
            0 <= k < old(type_counts)@.len() && (#[trigger] old(type_counts)@[k]).0 == message_id
                && (forall|j: int| 0 <= j < k ==> (#[trigger] old(type_counts)@[j]).0 != message_id)
                && final(type_counts)@ == old(type_counts)@.update(
                k,
                (message_id, (old(type_counts)@[k].1 + 1) as usize),
            ),
{
    let mut i: usize = 0;
    while i < type_counts.len()
        invariant
            i <= type_counts.len(),
            type_counts@ == old(type_counts)@,
            forall|j: int| 0 <= j < i ==> (#[trigger] type_counts@[j]).0 != message_id,
            exists|k: int| 0 <= k < type_counts@.len() && (#[trigger] type_counts@[k]).0 == message_id,
            forall|k: int| 0 <= k < type_counts@.len() ==> (#[trigger] type_counts@[k]).1 < usize::MAX,
        decreases type_counts.len() - i,
    {
        let (id, count) = type_counts[i];
        if id == message_id {
            type_counts.set(i, (id, count + 1));
            return;
        }
        i = i + 1;
    }
    assert(false);
}

/// `filtered` lists exactly the entries of `entries` whose message type is
/// in `enabled`: each index names such an entry, the indices increase, and
/// every such entry is listed.
pub open spec fn lists_exactly_enabled(
    filtered: Seq<usize>,
    entries: Seq<LogEntryMeta>,
    enabled: Set<MessageId>,
) -> bool {
    &&& forall|k: int|
        0 <= k < filtered.len() ==> (#[trigger] filtered[k]) < entries.len() && enabled.contains(
            entries[filtered[k] as int].info.message_id,
        )
    &&& forall|k: int, l: int| 0 <= k < l < filtered.len() ==> filtered[k] < filtered[l]
    &&& forall|i: int|
        0 <= i < entries.len() && enabled.contains(#[trigger] entries[i].info.message_id)
            ==> filtered.contains(i as usize)
}

/// The matching indices among the first `n` entries are exactly the indices
/// below `n` of the entries whose type is enabled, in increasing order.
#[verifier::spinoff_prover]
pub proof fn lemma_matching_indices(entries: Seq<LogEntryMeta>, enabled: Set<MessageId>, n: int)
    requires
        0 <= n <= entries.len(),
        entries.len() <= usize::MAX,
    ensures
        lists_exactly_enabled(matching_indices(entries, enabled, n), entries.take(n), enabled),
        forall|k: int|
            0 <= k < matching_indices(entries, enabled, n).len() ==> (#[trigger] matching_indices(
                entries,
                enabled,
                n,
            )[k]) < n,
        matching_indices(entries, enabled, n).len() <= n,
    decreases n,
{
    let now = matching_indices(entries, enabled, n);
    let cur = entries.take(n);
    if n == 0 {
        assert(now.len() == 0);
    } else {
        lemma_matching_indices(entries, enabled, n - 1);
        let before = matching_indices(entries, enabled, n - 1);
        let prev = entries.take(n - 1);
        assert forall|i: int| 0 <= i < n - 1 implies #[trigger] prev[i] == cur[i] by {}
        assert forall|k: int| 0 <= k < before.len() implies now[k] == before[k] by {}
        assert forall|k: int| 0 <= k < now.len() implies (#[trigger] now[k]) < n && now[k]
            < cur.len() && enabled.contains(cur[now[k] as int].info.message_id) by {
            if k < before.len() {
                assert(now[k] == before[k]);
                assert(prev[before[k] as int] == cur[before[k] as int]);
            }
        }
        assert forall|k: int, l: int| 0 <= k < l < now.len() implies now[k] < now[l] by {
            if l < before.len() {
            } else {
                assert(now[l] == (n - 1) as usize);
                assert(before[k] < n - 1);
            }
        }
        assert forall|i: int|
            0 <= i < cur.len() && enabled.contains(#[trigger] cur[i].info.message_id)
                implies now.contains(i as usize) by {
            if i < n - 1 {
                assert(prev[i] == cur[i]);
                assert(before.contains(i as usize));
                let k = choose|k: int| 0 <= k < before.len() && before[k] == i as usize;
                assert(now[k] == i as usize);
            } else {
                assert(now[now.len() - 1] == i as usize);
            }
        }
    }
}

/// The entries and per-type counts gathered while a log file is loaded.
pub struct LoadedEntries {
    entries: Vec<LogEntryMeta>,
    type_counts: Vec<(MessageId, usize)>,
    base_timestamp_ns: i64,
}

/// What has been gathered while loading: the entries, the counts per message
/// type, and the timestamp of the first message.
pub struct LoadedEntriesView {
    pub entries: Seq<LogEntryMeta>,
    pub type_counts: Seq<(MessageId, usize)>,
    pub base_timestamp_ns: i64,
}

impl View for LoadedEntries {
    type V = LoadedEntriesView;

    closed spec fn view(&self) -> LoadedEntriesView {
        LoadedEntriesView {
            entries: self.entries@,
            type_counts: self.type_counts@,
            base_timestamp_ns: self.base_timestamp_ns,
        }
    }
}

/// The number of entries of `entries` with message type `id`.
pub open spec fn count_of(entries: Seq<LogEntryMeta>, id: MessageId) -> nat
    decreases entries.len(),
{
    if entries.len() == 0 {
        0
    } else {
        count_of(entries.drop_last(), id) + if entries.last().info.message_id == id {
            1nat
        } else {
            0nat
        }
    }
}

/// `counts` lists every message type once, in the listed order, each with
/// the number of entries of `entries` of that type.
pub open spec fn counts_tally(counts: Seq<(MessageId, usize)>, entries: Seq<LogEntryMeta>) -> bool {
    &&& counts_cover_types(counts)
    &&& forall|k: int| 0 <= k < 7 ==> (#[trigger] counts[k]).1 == count_of(entries, counts[k].0)
}

/// The numbers of entries of each listed message type.
pub open spec fn listed_count_sum(entries: Seq<LogEntryMeta>) -> nat {
    count_of(entries, MessageId::Vision2014) + count_of(entries, MessageId::Referee2013)
        + count_of(entries, MessageId::VisionTracker2020) + count_of(entries, MessageId::Vision2010)
        + count_of(entries, MessageId::Blank) + count_of(entries, MessageId::Unknown) + count_of(
        entries,
        MessageId::Index2021,
    )
}

/// Every entry has one of the listed message types, so the counts of all
/// the types add up to the number of entries.
pub proof fn lemma_counts_sum(entries: Seq<LogEntryMeta>)
    ensures
        listed_count_sum(entries) == entries.len(),
    decreases entries.len(),
{
    if entries.len() > 0 {
        lemma_counts_sum(entries.drop_last());
    }
}

/// Counts that tally the entries add up to the number of entries, and a
/// message type has a count only if some entry has that type.
pub proof fn lemma_tally_totals(counts: Seq<(MessageId, usize)>, entries: Seq<LogEntryMeta>)
    requires
        counts_tally(counts, entries),
    ensures
        counts[0].1 + counts[1].1 + counts[2].1 + counts[3].1 + counts[4].1 + counts[5].1
            + counts[6].1 == entries.len(),
{
    lemma_counts_sum(entries);
    assert(counts[0].0 == listed_types()[0]);
    assert(counts[1].0 == listed_types()[1]);
    assert(counts[2].0 == listed_types()[2]);
    assert(counts[3].0 == listed_types()[3]);
    assert(counts[4].0 == listed_types()[4]);
    assert(counts[5].0 == listed_types()[5]);
    assert(counts[6].0 == listed_types()[6]);
    assert(counts[0].1 == count_of(entries, counts[0].0));
    assert(counts[1].1 == count_of(entries, counts[1].0));
    assert(counts[2].1 == count_of(entries, counts[2].0));
    assert(counts[3].1 == count_of(entries, counts[3].0));
    assert(counts[4].1 == count_of(entries, counts[4].0));
    assert(counts[5].1 == count_of(entries, counts[5].0));
    assert(counts[6].1 == count_of(entries, counts[6].0));
}

impl LoadedEntries {
    /// The counts list every message type once, in the listed order, and
    /// each is the number of gathered entries of its type.
    pub open spec fn wf(&self) -> bool {
        &&& counts_tally(self@.type_counts, self@.entries)
        &&& forall|id: MessageId| count_of(self@.entries, id) <= self@.entries.len()
    }

    /// Nothing gathered yet.
    pub fn new() -> (l: LoadedEntries)
        ensures
            l.wf(),
            l@.entries.len() == 0,
            l@.type_counts == zero_counts(),
            l@.base_timestamp_ns == 0,
    {
        let l = LoadedEntries {
            entries: Vec::new(),
            type_counts: default_type_counts(),
            base_timestamp_ns: 0,
        };
        assert forall|k: int| 0 <= k < 7 implies (#[trigger] l.type_counts@[k]).1 == count_of(
            l.entries@,
            l.type_counts@[k].0,
        ) by {}
        l
    }

    /// The timestamp relative to which the summary of a message with
    /// timestamp `timestamp_ns` is shown: its own if it is the first message,
    /// else the first message's.
    pub fn base_for(&self, timestamp_ns: i64) -> (b: i64)
        ensures
            b == if self@.entries.len() == 0 {
                timestamp_ns
            } else {
                self@.base_timestamp_ns
            },
    {
        if self.entries.len() == 0 {
            timestamp_ns
        } else {
            self.base_timestamp_ns
        }
    }

    /// The number of entries gathered.
    pub fn len(&self) -> (n: usize)
        ensures
            n == self@.entries.len(),
    {
        self.entries.len()
    }

    /// Adds the entry for `message`, found at `offset` if the file is indexed,
    /// with its summary; the first message's timestamp becomes the base, and
    /// the count of the message's type goes up by one.
    #[verifier::spinoff_prover]
    pub fn push(&mut self, offset: Option<u64>, message: &LogMessage, summary: String)
        requires
            old(self).wf(),
            old(self)@.entries.len() < usize::MAX,
        ensures
            final(self).wf(),
            final(self)@.entries == old(self)@.entries.push(
                LogEntryMeta {
                    index: old(self)@.entries.len() as usize,
                    offset,
                    info: LogMessageInfo {
                        timestamp_ns: message.timestamp_ns,
                        message_id: message.message_id,
                        payload_len: message.payload@.len() as usize,
                    },
                    summary,
                },
            ),
            final(self)@.base_timestamp_ns == if old(self)@.entries.len() == 0 {
                message.timestamp_ns
            } else {
                old(self)@.base_timestamp_ns
            },
            final(self)@.type_counts == old(self)@.type_counts.update(
                listed_position(message.message_id),
                (
                    message.message_id,
                    (old(self)@.type_counts[listed_position(message.message_id)].1 + 1) as usize,
                ),
            ),
    {
        let index = self.entries.len();
        if index == 0 {
            self.base_timestamp_ns = message.timestamp_ns;
        }
        let info = LogMessageInfo {
            timestamp_ns: message.timestamp_ns,
            message_id: message.message_id,
            payload_len: message.payload.len(),
        };
        let entry = LogEntryMeta { index, offset, info, summary };
        let ghost old_entries = self.entries@;
        let ghost old_counts = self.type_counts@;
        let ghost k = listed_position(message.message_id);
        proof {
            assert(old_counts[k].0 == message.message_id);
            assert(old_counts[k].1 <= old_entries.len());
            assert forall|j: int| 0 <= j < old_counts.len() implies (#[trigger] old_counts[j]).1
                < usize::MAX by {
                assert(old_counts[j].1 <= old_entries.len());
            }
        }
        increment_type_count(&mut self.type_counts, message.message_id);
        self.entries.push(entry);
        proof {
            let new_entries = self.entries@;
            assert(new_entries.drop_last() =~= old_entries);
            assert forall|j: int| 0 <= j < k implies (#[trigger] old_counts[j]).0
                != message.message_id by {}
            assert(self.type_counts@ == old_counts.update(
                k,
                (message.message_id, (old_counts[k].1 + 1) as usize),
            ));
            assert forall|id: MessageId| count_of(new_entries, id) <= new_entries.len() by {
                assert(count_of(old_entries, id) <= old_entries.len());
            }
            assert forall|j: int| 0 <= j < 7 implies (#[trigger] self.type_counts@[j]).1
                == count_of(self.entries@, self.type_counts@[j].0) by {
                assert(old_counts[j].1 == count_of(old_entries, old_counts[j].0));
            }
        }
    }
}

/// Loading from an index reports its progress after every 512th entry and
/// after the last one: then it reports the bytes up to the end of the
/// message just read (at most the file's size), of the file's `total_bytes`.
pub fn indexed_progress(
    i: usize,
    total_offsets: usize,
    offset: u64,
    payload_len: usize,
    total_bytes: u64,
) -> (r: Option<ReadProgress>)
    requires
        i < total_offsets,
        offset + 16 + payload_len <= u64::MAX,
    ensures
        r is Some <==> (i % 512 == 0 || i + 1 == total_offsets),
        r matches Some(p) ==> p.total_bytes == total_bytes && p.bytes_read == vstd::math::min(
            offset + 16 + payload_len,
            total_bytes as int,
        ),
{
    if i % 512 == 0 || i + 1 == total_offsets {
        let end = offset + 16 + payload_len as u64;
        let bytes_read = if end < total_bytes {
            end
        } else {
            total_bytes
        };
        Some(ReadProgress { bytes_read, total_bytes })
    } else {
        None
    }
}

/// Loading by scanning the stream reports its progress after every 512th
/// message.
pub fn scan_progress_due(index: usize) -> (b: bool)
    ensures
        b == (index % 512 == 0),
{
    index % 512 == 0
}

/// Where the detail of the selected entry comes from.
#[derive(Debug, Clone, Copy, PartialEq, Eq, Structural)]
pub enum DetailSource {
    /// No entry is selected.
    Nothing,
    /// The cached detail belongs to the selected entry.
    Cached,
    /// The selected entry is read from the indexed file at `offset`.
    Indexed { index: usize, offset: u64 },
    /// The selected entry is the `index`-th message of the file.
    Scan { index: usize },
}

/// The viewer's state: the loaded entries, the message type filter, the
/// selection, the panels, and the cached detail of the selected entry.
pub struct App {
    pub all_entries: Vec<LogEntryMeta>,
    pub filtered_indices: Vec<usize>,
    pub selected: usize,
    pub show_detail: bool,
    pub tab: Tab,
    pub enabled_types: MessageTypeSet,
    pub show_filter_menu: bool,
    pub total_messages: usize,
    pub filename: String,
    pub base_timestamp_ns: i64,
    pub page_size: usize,
    pub type_counts: Vec<(MessageId, usize)>,
    pub indexed_reader: Option<LogReader>,
    pub detail_cache: Option<LogEntryDetail>,
}

impl App {
    /// The counts per message type, in the listed order.
    pub open spec fn counts(&self) -> Seq<(MessageId, usize)> {
        self.type_counts@
    }

    /// The reader of the indexed file, if the file is indexed.
    pub open spec fn indexed(&self) -> Option<LogReaderView> {
        match self.indexed_reader {
            Some(r) => Some(r@),
            None => None,
        }
    }

    /// The cached detail.
    pub open spec fn cached(&self) -> Option<LogEntryDetail> {
        self.detail_cache
    }

    /// The selection is inside the filtered list, or zero when the list is
    /// empty.
    pub open spec fn selection_valid(&self) -> bool {
        if self.filtered_indices@.len() == 0 {
            self.selected == 0
        } else {
            self.selected < self.filtered_indices@.len()
        }
    }

    /// `other` holds the same loaded data as `self`: entries, counts, file
    /// name, base timestamp, page size, indexed reader and cached detail.
    pub open spec fn same_data(&self, other: &App) -> bool {
        &&& other.all_entries@ == self.all_entries@
        &&& other.total_messages == self.total_messages
        &&& other.filename@ == self.filename@
        &&& other.base_timestamp_ns == self.base_timestamp_ns
        &&& other.page_size == self.page_size
        &&& other.type_counts@ == self.type_counts@
        &&& other.indexed() == self.indexed()
        &&& other.detail_cache == self.detail_cache
    }

    /// `other` shows the same panels and filter as `self`.
    pub open spec fn same_panels(&self, other: &App) -> bool {
        &&& other.show_detail == self.show_detail
        &&& other.tab == self.tab
        &&& other.show_filter_menu == self.show_filter_menu
        &&& other.enabled_types@ == self.enabled_types@
    }

    /// `other` differs from `self` at most in the selection.
    pub open spec fn same_but_selection(&self, other: &App) -> bool {
        &&& self.same_data(other)
        &&& self.same_panels(other)
        &&& other.filtered_indices@ == self.filtered_indices@
    }

    /// The selection that filtering keeps when the filtered list has `len`
    /// entries: the old one if it is still inside, else the last one.
    pub open spec fn kept_selection(selected: usize, len: int) -> usize {
        if selected >= len {
            if len == 0 {
                0
            } else {
                (len - 1) as usize
            }
        } else {
            selected
        }
    }

    /// Sets up the viewer for the gathered entries: every message type
    /// enabled, the first entry selected, the panels closed, 20 entries per
    /// page.
    pub fn from_load(filename: String, load: LoadedEntries, indexed_reader: Option<LogReader>) -> (app: App)
        requires
            load.wf(),
        ensures
            app.all_entries@ == load@.entries,
            app.counts() == load@.type_counts,
            counts_tally(app.counts(), app.all_entries@),
            app.base_timestamp_ns == load@.base_timestamp_ns,
            app.filename@ == filename@,
            app.total_messages == load@.entries.len(),
            app.enabled_types@ == Set::<MessageId>::full(),
            app.filtered_indices@ == filtered_for(load@.entries, Set::<MessageId>::full()),
            app.selected == 0,
            !app.show_detail,
            app.tab == Tab::Overview,
            !app.show_filter_menu,
            app.page_size == 20,
            app.indexed() == (match indexed_reader {
                Some(r) => Some(r@),
                None => None::<LogReaderView>,
            }),
            app.cached() is None,
            app.selection_valid(),
    {
        let total_messages = load.entries.len();
        let mut app = App {
            all_entries: load.entries,
            filtered_indices: Vec::new(),
            selected: 0,
            show_detail: false,
            tab: Tab::Overview,
            enabled_types: MessageTypeSet::all(),
            show_filter_menu: false,
            total_messages,
            filename,
            base_timestamp_ns: load.base_timestamp_ns,
            page_size: 20,
            type_counts: load.type_counts,
            indexed_reader,
            detail_cache: None,
        };
        app.update_filter();
        app
    }

    /// Recomputes the filtered list from the enabled message types, and
    /// keeps the selection inside it.
    pub fn update_filter(&mut self)
        ensures
            old(self).same_data(final(self)),
            old(self).same_panels(final(self)),
            final(self).filtered_indices@ == filtered_for(
                old(self).all_entries@,
                old(self).enabled_types@,
            ),
            lists_exactly_enabled(
                final(self).filtered_indices@,
                old(self).all_entries@,
                old(self).enabled_types@,
            ),
            final(self).selected == Self::kept_selection(
                old(self).selected,
                final(self).filtered_indices@.len() as int,
            ),
            final(self).selection_valid(),
    {
        let n = self.all_entries.len();
        let mut filtered: Vec<usize> = Vec::new();
        let mut i: usize = 0;
        while i < n
            invariant
                n == self.all_entries@.len(),
                i <= n,
                filtered@ == matching_indices(self.all_entries@, self.enabled_types@, i as int),
            decreases n - i,
        {
            if self.enabled_types.contains(self.all_entries[i].info.message_id) {
                filtered.push(i);
            }
            i = i + 1;
        }
        proof {
            lemma_matching_indices(self.all_entries@, self.enabled_types@, n as int);
            assert(self.all_entries@.take(n as int) =~= self.all_entries@);
        }
        self.filtered_indices = filtered;
        if self.selected >= self.filtered_indices.len() {
            self.selected = if self.filtered_indices.len() == 0 {
                0
            } else {
                self.filtered_indices.len() - 1
            };
        }
    }

    /// The selected entry, if the selection names one.
    pub fn selected_entry(&self) -> (r: Option<&LogEntryMeta>)
        ensures
            r == (if self.selected < self.filtered_indices@.len()
                && self.filtered_indices@[self.selected as int] < self.all_entries@.len() {
                Some(&self.all_entries@[self.filtered_indices@[self.selected as int] as int])
            } else {
                None::<&LogEntryMeta>
            }),
    {
        if self.selected < self.filtered_indices.len() {
            let i = self.filtered_indices[self.selected];
            if i < self.all_entries.len() {
                return Some(&self.all_entries[i]);
            }
        }
        None
    }

    /// Selects the next entry, stopping at the last one.
    pub fn next(&mut self)
        requires
            old(self).filtered_indices@.len() > 0 ==> old(self).selected < usize::MAX,
        ensures
            old(self).same_but_selection(final(self)),
            final(self).selected == if old(self).filtered_indices@.len() == 0 {
                old(self).selected as int
            } else {
                vstd::math::min(
                    old(self).selected + 1,
                    old(self).filtered_indices@.len() - 1,
                )
            },
            old(self).selection_valid() ==> final(self).selection_valid(),
    {
        if self.filtered_indices.len() > 0 {
            let candidate = self.selected + 1;
            let last = self.filtered_indices.len() - 1;
            self.selected = if candidate < last {
                candidate
            } else {
                last
            };
        }
    }

    /// Selects the previous entry, stopping at the first one.
    pub fn previous(&mut self)
        ensures
            old(self).same_but_selection(final(self)),
            final(self).selected == if old(self).selected == 0 {
                0
            } else {
                old(self).selected - 1
            },
            old(self).selection_valid() ==> final(self).selection_valid(),
    {
        self.selected = self.selected.saturating_sub(1);
    }

    /// Moves the selection a page down, stopping at the last entry.
    pub fn page_down(&mut self)
        requires
            old(self).filtered_indices@.len() > 0 ==> old(self).selected + old(self).page_size
                <= usize::MAX,
        ensures
            old(self).same_but_selection(final(self)),
            final(self).selected == if old(self).filtered_indices@.len() == 0 {
                old(self).selected as int
            } else {
                vstd::math::min(
                    old(self).selected + old(self).page_size,
                    old(self).filtered_indices@.len() - 1,
                )
            },
            old(self).selection_valid() ==> final(self).selection_valid(),
    {
        if self.filtered_indices.len() > 0 {
            let candidate = self.selected + self.page_size;
            let last = self.filtered_indices.len() - 1;
            self.selected = if candidate < last {
                candidate
            } else {
                last
            };
        }
    }

    /// Moves the selection a page up, stopping at the first entry.
    pub fn page_up(&mut self)
        ensures
            old(self).same_but_selection(final(self)),
            final(self).selected == if old(self).selected < old(self).page_size {
                0
            } else {
                old(self).selected - old(self).page_size
            },
            old(self).selection_valid() ==> final(self).selection_valid(),
    {
        self.selected = self.selected.saturating_sub(self.page_size);
    }

    /// Selects the first entry.
    pub fn first(&mut self)
        ensures
            old(self).same_but_selection(final(self)),
            final(self).selected == 0,
            old(self).selection_valid() ==> final(self).selection_valid(),
    {
        self.selected = 0;
    }

    /// Selects the last entry.
    pub fn last(&mut self)
        ensures
            old(self).same_but_selection(final(self)),
            final(self).selected == if old(self).filtered_indices@.len() == 0 {
                old(self).selected as int
            } else {
                old(self).filtered_indices@.len() - 1
            },
            old(self).selection_valid() ==> final(self).selection_valid(),
    {
        if self.filtered_indices.len() > 0 {
            self.selected = self.filtered_indices.len() - 1;
        }
    }

    /// Shows or hides the detail panel.
    pub fn toggle_detail(&mut self)
        ensures
            old(self).same_data(final(self)),
            final(self).show_detail == !old(self).show_detail,
            final(self).tab == old(self).tab,
            final(self).show_filter_menu == old(self).show_filter_menu,
            final(self).enabled_types@ == old(self).enabled_types@,
            final(self).filtered_indices@ == old(self).filtered_indices@,
            final(self).selected == old(self).selected,
    {
        self.show_detail = !self.show_detail;
    }

    /// Switches to the next tab of the detail panel.
    pub fn next_tab(&mut self)
        ensures
            old(self).same_data(final(self)),
            final(self).tab == old(self).tab.following(),
            final(self).show_detail == old(self).show_detail,
            final(self).show_filter_menu == old(self).show_filter_menu,
            final(self).enabled_types@ == old(self).enabled_types@,
            final(self).filtered_indices@ == old(self).filtered_indices@,
            final(self).selected == old(self).selected,
    {
        self.tab = match self.tab {
            Tab::Overview => Tab::Detail,
            Tab::Detail => Tab::Overview,
        };
    }

    /// Switches to the previous tab of the detail panel; with two tabs, the
    /// previous one is the next one.
    pub fn prev_tab(&mut self)
        ensures
            old(self).same_data(final(self)),
            final(self).tab == old(self).tab.following(),
            final(self).show_detail == old(self).show_detail,
            final(self).show_filter_menu == old(self).show_filter_menu,
            final(self).enabled_types@ == old(self).enabled_types@,
            final(self).filtered_indices@ == old(self).filtered_indices@,
            final(self).selected == old(self).selected,
    {
        self.next_tab();
    }

    /// Shows or hides the filter menu.
    pub fn toggle_filter_menu(&mut self)
        ensures
            old(self).same_data(final(self)),
            final(self).show_filter_menu == !old(self).show_filter_menu,
            final(self).show_detail == old(self).show_detail,
            final(self).tab == old(self).tab,
            final(self).enabled_types@ == old(self).enabled_types@,
            final(self).filtered_indices@ == old(self).filtered_indices@,
            final(self).selected == old(self).selected,
    {
        self.show_filter_menu = !self.show_filter_menu;
    }

    /// Enables `msg_type` if it is disabled and disables it if it is
    /// enabled, then recomputes the filtered list.
    pub fn toggle_message_filter(&mut self, msg_type: MessageId)
        ensures
            old(self).same_data(final(self)),
            final(self).show_detail == old(self).show_detail,
            final(self).tab == old(self).tab,
            final(self).show_filter_menu == old(self).show_filter_menu,
            final(self).enabled_types@ == toggled(old(self).enabled_types@, msg_type),
            final(self).filtered_indices@ == filtered_for(
                old(self).all_entries@,
                toggled(old(self).enabled_types@, msg_type),
            ),
            final(self).selected == Self::kept_selection(
                old(self).selected,
                final(self).filtered_indices@.len() as int,
            ),
            final(self).selection_valid(),
    {
        if self.enabled_types.contains(msg_type) {
            self.enabled_types.remove(msg_type);
        } else {
            self.enabled_types.insert(msg_type);
        }
        self.update_filter();
    }

    /// The counts of the message types that occur, in the listed order.
    pub fn type_counts(&self) -> (v: Vec<(MessageId, usize)>)
        ensures
            v@ == nonzero_counts(self.counts()),
    {
        let mut v: Vec<(MessageId, usize)> = Vec::new();
        let mut i: usize = 0;
        while i < self.type_counts.len()
            invariant
                i <= self.type_counts@.len(),
                v@ == nonzero_counts(self.type_counts@.take(i as int)),
            decreases self.type_counts@.len() - i,
        {
            let pair = self.type_counts[i];
            proof {
                assert(self.type_counts@.take(i + 1).drop_last() =~= self.type_counts@.take(
                    i as int,
                ));
            }
            if pair.1 > 0 {
                v.push(pair);
            }
            i = i + 1;
        }
        assert(self.type_counts@.take(i as int) =~= self.type_counts@);
        v
    }

    /// Whether the viewer holds a reader of the indexed file.
    pub fn has_indexed_reader(&self) -> (b: bool)
        ensures
            b == self.indexed() is Some,
    {
        self.indexed_reader.is_some()
    }

    /// Where the detail of the selected entry comes from. With no entry
    /// selected, the cached detail is dropped.
    pub fn detail_source(&mut self) -> (d: DetailSource)
        ensures
            match selected_entry_of(*old(self)) {
                None => d == DetailSource::Nothing && final(self).cached() is None,
                Some(entry) => final(self).cached() == old(self).cached() && if old(
                    self,
                ).cached() matches Some(c) && c.index == entry.index {
                    d == DetailSource::Cached
                } else {
                    match entry.offset {
                        Some(offset) => d == (DetailSource::Indexed {
                            index: entry.index,
                            offset,
                        }),
                        None => d == (DetailSource::Scan { index: entry.index }),
                    }
                },
            },
            final(self).all_entries@ == old(self).all_entries@,
            final(self).counts() == old(self).counts(),
            final(self).indexed() == old(self).indexed(),
            old(self).same_panels(final(self)),
            final(self).filtered_indices@ == old(self).filtered_indices@,
            final(self).selected == old(self).selected,
    {
        let entry = match self.selected_entry() {
            None => {
                self.detail_cache = None;
                return DetailSource::Nothing;
            },
            Some(e) => (e.index, e.offset),
        };
        let (index, offset) = entry;
        let cached = match &self.detail_cache {
            Some(c) => c.index == index,
            None => false,
        };
        if cached {
            return DetailSource::Cached;
        }
        match offset {
            Some(offset) => DetailSource::Indexed { index, offset },
            None => DetailSource::Scan { index },
        }
    }

    /// Reads the message at `offset` with the reader of the indexed file.
    pub fn read_indexed_message(&mut self, offset: u64) -> (r: Result<LogMessage, ReadError>)
        requires
            old(self).indexed() is Some,
        ensures
            final(self).indexed() matches Some(after) && read_at_outcome(
                old(self).indexed()->0,
                offset,
                r,
                after,
            ),
            final(self).all_entries@ == old(self).all_entries@,
            final(self).counts() == old(self).counts(),
            final(self).cached() == old(self).cached(),
            old(self).same_panels(final(self)),
            final(self).filtered_indices@ == old(self).filtered_indices@,
            final(self).selected == old(self).selected,
    {
        match &mut self.indexed_reader {
            Some(reader) => reader.read_message_at(offset),
            None => Err(ReadError::NoRandomAccessForCompressed),
        }
    }

    /// Keeps `detail` as the cached detail.
    pub fn store_detail(&mut self, detail: LogEntryDetail)
        ensures
            final(self).cached() == Some(detail),
            final(self).all_entries@ == old(self).all_entries@,
            final(self).counts() == old(self).counts(),
            final(self).indexed() == old(self).indexed(),
            old(self).same_panels(final(self)),
            final(self).filtered_indices@ == old(self).filtered_indices@,
            final(self).selected == old(self).selected,
    {
        self.detail_cache = Some(detail);
    }

    /// The cached detail.
    pub fn detail_cache(&self) -> (r: Option<&LogEntryDetail>)
        ensures
            r == (match self.cached() {
                Some(c) => Some(&c),
                None => None::<&LogEntryDetail>,
            }),
    {
        match &self.detail_cache {
            Some(c) => Some(c),
            None => None,
        }
    }
}

/// The entry that the selection of `app` names, if it names one.
pub open spec fn selected_entry_of(app: App) -> Option<LogEntryMeta> {
    if app.selected < app.filtered_indices@.len() && app.filtered_indices@[app.selected as int]
        < app.all_entries@.len() {
        Some(app.all_entries@[app.filtered_indices@[app.selected as int] as int])
    } else {
        None
    }
}

/// Moving on from the following tab comes back: with two tabs, switching
/// twice shows the tab shown before.
pub proof fn lemma_tab_cycle(t: Tab)
    ensures
        t.following().following() == t,
{
}

/// Toggling a message type twice restores the enabled set, and with it the
/// filtered list of any entries.
pub proof fn lemma_toggle_twice(entries: Seq<LogEntryMeta>, enabled: Set<MessageId>, t: MessageId)
    ensures
        toggled(toggled(enabled, t), t) == enabled,
        filtered_for(entries, toggled(toggled(enabled, t), t)) == filtered_for(entries, enabled),
{
    assert(toggled(toggled(enabled, t), t) =~= enabled);
}

/// The lowercase hexadecimal digit, as an ASCII byte, of the value `d`
/// below 16.
pub open spec fn hex_digit(d: u8) -> u8 {
    if d < 10 {
        (48 + d) as u8
    } else {
        (87 + d) as u8
    }
}

/// The two hexadecimal digits of the byte `b`.
pub open spec fn byte_hex(b: u8) -> Seq<u8> {
    seq![hex_digit(b / 16), hex_digit(b % 16)]
}

/// The hexadecimal digits of the bytes of `chunk`, separated by spaces.
pub open spec fn hex_field(chunk: Seq<u8>) -> Seq<u8>
    decreases chunk.len(),
{
    if chunk.len() == 0 {
        seq![]
    } else if chunk.len() == 1 {
        byte_hex(chunk[0])
    } else {
        hex_field(chunk.drop_last()) + seq![32u8] + byte_hex(chunk.last())
    }
}

/// How the byte `b` shows in the text column: itself if it is printable
/// ASCII, else `.`.
pub open spec fn shown_char(b: u8) -> u8 {
    if 0x20 <= b < 0x7f {
        b
    } else {
        46u8
    }
}

/// The text column of `chunk`.
pub open spec fn text_field(chunk: Seq<u8>) -> Seq<u8> {
    chunk.map_values(|b: u8| shown_char(b))
}

/// `s` followed by spaces up to the width `w`.
pub open spec fn padded(s: Seq<u8>, w: int) -> Seq<u8> {
    if s.len() < w {
        s + Seq::new((w - s.len()) as nat, |i: int| 32u8)
    } else {
        s
    }
}

/// The line of a hex dump for `chunk`: the hexadecimal field padded to 48
/// columns, two spaces, and the text column.
pub open spec fn dump_line(chunk: Seq<u8>) -> Seq<u8> {
    padded(hex_field(chunk), 48) + seq![32u8, 32u8] + text_field(chunk)
}

/// How many lines a hex dump of `len` bytes has: one per 16 bytes, the last
/// one possibly shorter, and no more than 16.
pub open spec fn dump_line_count(len: int) -> int {
    let lines = len / 16 + if len % 16 != 0 {
        1int
    } else {
        0int
    };
    if lines > 16 {
        16
    } else {
        lines
    }
}

/// The bytes that the `k`-th line of a hex dump of `bytes` shows.
pub open spec fn dump_chunk(bytes: Seq<u8>, k: int) -> Seq<u8> {
    bytes.subrange(16 * k, vstd::math::min(16 * k + 16, bytes.len() as int))
}

/// The hex field grows by a space and two digits with each further byte.
proof fn lemma_hex_field_len(chunk: Seq<u8>)
    ensures
        chunk.len() > 0 ==> hex_field(chunk).len() == 3 * chunk.len() - 1,
        chunk.len() == 0 ==> hex_field(chunk).len() == 0,
    decreases chunk.len(),
{
    if chunk.len() > 1 {
        lemma_hex_field_len(chunk.drop_last());
    }
}

/// A hex dump shows the first 256 bytes at most: its lines, at most 16,
/// cover the first `min(len, 256)` bytes, and each line shows at least one
/// of them.
pub proof fn lemma_dump_line_count(len: int)
    requires
        len >= 0,
    ensures
        0 <= dump_line_count(len) <= 16,
        16 * dump_line_count(len) >= vstd::math::min(len, 256),
        dump_line_count(len) > 0 ==> 16 * (dump_line_count(len) - 1) < len,
        len == 0 ==> dump_line_count(len) == 0,
{
    let q = len / 16;
    let r = len % 16;
    assert(len == 16 * q + r && 0 <= r < 16 && q >= 0) by (nonlinear_arith)
        requires
            len >= 0,
            q == len / 16,
            r == len % 16,
    ;
}

/// Where the digits of each byte stand in the hex field of `chunk`.
proof fn lemma_hex_field_at(chunk: Seq<u8>, j: int)
    requires
        0 <= j < chunk.len(),
    ensures
        hex_field(chunk).len() == 3 * chunk.len() - 1,
        hex_field(chunk)[3 * j] == hex_digit(chunk[j] / 16),
        hex_field(chunk)[3 * j + 1] == hex_digit(chunk[j] % 16),
        j < chunk.len() - 1 ==> hex_field(chunk)[3 * j + 2] == 32,
    decreases chunk.len(),
{
    lemma_hex_field_len(chunk);
    if chunk.len() > 1 {
        let front = chunk.drop_last();
        lemma_hex_field_len(front);
        if j < chunk.len() - 1 {
            lemma_hex_field_at(front, j);
            assert(front[j] == chunk[j]);
        }
    }
}

/// The layout of the `k`-th line of a hex dump of `bytes`, which shows the
/// `n` bytes from `16 * k` on: the `j`-th of them as two lower-case
/// hexadecimal digits in columns `3 * j` and `3 * j + 1`, with a space
/// between two bytes and spaces up to column 48, then two spaces, then in
/// column `50 + j` the byte itself where it is printable ASCII (0x20 to
/// 0x7e) and `.` where it is not.
pub proof fn lemma_dump_line_layout(bytes: Seq<u8>, k: int)
    requires
        0 <= k < dump_line_count(bytes.len() as int),
    ensures
        ({
            let n = vstd::math::min(16, bytes.len() - 16 * k);
            let chunk = dump_chunk(bytes, k);
            let line = dump_line(chunk);
            &&& 1 <= n <= 16
            &&& chunk == bytes.subrange(16 * k, 16 * k + n)
            &&& line.len() == 50 + n
            &&& forall|j: int|
                0 <= j < n ==> {
                    let b = #[trigger] chunk[j];
                    &&& line[3 * j] == if b / 16 < 10 {
                        0x30 + b / 16
                    } else {
                        0x61 + (b / 16 - 10)
                    }
                    &&& line[3 * j + 1] == if b % 16 < 10 {
                        0x30 + b % 16
                    } else {
                        0x61 + (b % 16 - 10)
                    }
                    &&& line[50 + j] == if 0x20 <= b < 0x7f {
                        b
                    } else {
                        0x2e
                    }
                }
            &&& forall|c: int|
                (3 * n - 1 <= c < 50 || (0 <= c < 3 * n - 1 && c % 3 == 2)) ==> #[trigger] line[c]
                    == 32
        }),
{
    let len = bytes.len() as int;
    assert(16 * k < len) by (nonlinear_arith)
        requires
            0 <= k,
            k < len / 16 + if len % 16 != 0 {
                1int
            } else {
                0int
            },
            len >= 0,
    ;
    let n = vstd::math::min(16, len - 16 * k);
    let chunk = dump_chunk(bytes, k);
    assert(chunk =~= bytes.subrange(16 * k, 16 * k + n));
    lemma_hex_field_len(chunk);
    let hex = hex_field(chunk);
    let line = dump_line(chunk);
    let pad = padded(hex, 48);
    assert(pad =~= hex + Seq::new((48 - hex.len()) as nat, |i: int| 32u8));
    assert(line =~= pad + seq![32u8, 32u8] + text_field(chunk));
    assert forall|j: int| 0 <= j < n implies {
        let b = #[trigger] chunk[j];
        &&& line[3 * j] == if b / 16 < 10 {
            0x30 + b / 16
        } else {
            0x61 + (b / 16 - 10)
        }
        &&& line[3 * j + 1] == if b % 16 < 10 {
            0x30 + b % 16
        } else {
            0x61 + (b % 16 - 10)
        }
        &&& line[50 + j] == if 0x20 <= b < 0x7f {
            b
        } else {
            0x2e
        }
    } by {
        lemma_hex_field_at(chunk, j);
        assert(line[50 + j] == text_field(chunk)[j]);
    }
    assert forall|c: int| (3 * n - 1 <= c < 50 || (0 <= c < 3 * n - 1 && c % 3 == 2)) implies #[trigger] line[c]
        == 32 by {
        if c < 3 * n - 1 {
            lemma_hex_field_at(chunk, c / 3);
        }
    }
}

/// The hexadecimal digit of `d`.
fn hex_digit_of(d: u8) -> (c: u8)
    requires
        d < 16,
    ensures
        c == hex_digit(d),
{
    if d < 10 {
        48 + d
    } else {
        87 + d
    }
}

/// The lines of the hex dump of `bytes` that the detail panel shows: one
/// line for each 16 bytes, at most 16 lines, each line the hexadecimal
/// field padded to 48 columns, two spaces, and the bytes as text, with `.`
/// for those that are not printable ASCII.
pub fn hex_dump_lines(bytes: &[u8]) -> (lines: Vec<Vec<u8>>)
    ensures
        lines@.len() == dump_line_count(bytes@.len() as int),
        forall|k: int|
            0 <= k < lines@.len() ==> (#[trigger] lines@[k])@ == dump_line(dump_chunk(bytes@, k)),
{
    let len = bytes.len();
    let full = len / 16;
    let count = if full >= 16 {
        16
    } else if len % 16 != 0 {
        full + 1
    } else {
        full
    };
    let mut lines: Vec<Vec<u8>> = Vec::new();
    let mut k: usize = 0;
    while k < count
        invariant
            len == bytes@.len(),
            count == dump_line_count(len as int),
            count <= 16,
            k <= count,
            lines@.len() == k,
            forall|j: int| 0 <= j < k ==> (#[trigger] lines@[j])@ == dump_line(dump_chunk(bytes@, j)),
        decreases count - k,
    {
        let start = 16 * k;
        let end = if start + 16 < len {
            start + 16
        } else {
            len
        };
        let ghost chunk = dump_chunk(bytes@, k as int);
        assert(start < end);
        let mut line: Vec<u8> = Vec::new();
        let mut i = start;
        while i < end
            invariant
                len == bytes@.len(),
                start < end <= len,
                end - start <= 16,
                chunk == bytes@.subrange(start as int, end as int),
                start <= i <= end,
                line@ == hex_field(chunk.take(i - start)),
            decreases end - i,
        {
            let b = bytes[i];
            if i > start {
                line.push(32);
            }
            line.push(hex_digit_of(b / 16));
            line.push(hex_digit_of(b % 16));
            proof {
                let t = chunk.take(i + 1 - start);
                assert(t.drop_last() =~= chunk.take(i - start));
                assert(t.last() == b);
                if i == start {
                    assert(chunk.take(0) =~= Seq::<u8>::empty());
                }
                assert(line@ =~= hex_field(t));
            }
            i = i + 1;
        }
        assert(chunk.take(end - start) =~= chunk);
        proof {
            lemma_hex_field_len(chunk);
        }
        let ghost hex = line@;
        while line.len() < 48
            invariant
                hex.len() <= 48,
                line@.len() <= 48,
                line@ == hex + Seq::new((line@.len() - hex.len()) as nat, |i: int| 32u8),
            decreases 48 - line.len(),
        {
            line.push(32);
            assert(line@ =~= hex + Seq::new((line@.len() - hex.len()) as nat, |i: int| 32u8));
        }
        assert(line@ =~= padded(hex, 48));
        line.push(32);
        line.push(32);
        let ghost head = line@;
        let mut i = start;
        while i < end
            invariant
                len == bytes@.len(),
                start < end <= len,
                chunk == bytes@.subrange(start as int, end as int),
                start <= i <= end,
                line@ == head + text_field(chunk.take(i - start)),
            decreases end - i,
        {
            let b = bytes[i];
            let c = if 0x20 <= b && b < 0x7f {
                b
            } else {
                46
            };
            line.push(c);
            i = i + 1;
            assert(line@ =~= head + text_field(chunk.take(i - start)));
        }
        assert(chunk.take(end - start) =~= chunk);
        assert(line@ =~= dump_line(chunk));
        lines.push(line);
        k = k + 1;
    }
    lines
}

} // verus!
