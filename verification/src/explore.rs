//! The decisions of the command-line explorer: which message types a dump
//! shows, which messages it skips and when it stops, which referee states
//! count as changes, and the statistics of a log.
use vstd::prelude::*;

use crate::message::MessageId;

verus! {

/// Message types that can be asked for on the command line.
#[derive(Debug, Clone, Copy, PartialEq, Eq, Structural)]
pub enum MsgTypeFilter {
    Vision,
    Referee,
    Tracker,
    Vision2010,
    All,
}

/// The message type that a filter other than `All` asks for.
pub open spec fn filter_target(t: MsgTypeFilter) -> MessageId {
    match t {
        MsgTypeFilter::Vision => MessageId::Vision2014,
        MsgTypeFilter::Referee => MessageId::Referee2013,
        MsgTypeFilter::Tracker => MessageId::VisionTracker2020,
        MsgTypeFilter::Vision2010 => MessageId::Vision2010,
        MsgTypeFilter::All => MessageId::Blank,
    }
}

/// Some filter of `types` asks for `id`.
pub open spec fn requested(types: Seq<MsgTypeFilter>, id: MessageId) -> bool {
    exists|k: int| 0 <= k < types.len() && types[k] != MsgTypeFilter::All && filter_target(
        #[trigger] types[k],
    ) == id
}

/// The message types in the order of their raw values.
pub open spec fn types_by_code() -> Seq<MessageId> {
    seq![
        MessageId::Blank,
        MessageId::Unknown,
        MessageId::Vision2010,
        MessageId::Referee2013,
        MessageId::Vision2014,
        MessageId::VisionTracker2020,
        MessageId::Index2021,
    ]
}

/// The message types of `ids` that `types` asks for, in their order.
pub open spec fn keep_requested(ids: Seq<MessageId>, types: Seq<MsgTypeFilter>) -> Seq<MessageId>
    decreases ids.len(),
{
    if ids.len() == 0 {
        seq![]
    } else if requested(types, ids.last()) {
        keep_requested(ids.drop_last(), types).push(ids.last())
    } else {
        keep_requested(ids.drop_last(), types)
    }
}

/// The message types that a dump shows for the filters `types`: every type,
/// in the viewer's listed order, when no filter or `All` is given; else the
/// types asked for, each once, in the order of their raw values.
pub open spec fn resolved_types(types: Seq<MsgTypeFilter>) -> Seq<MessageId> {
    if types.len() == 0 || types.contains(MsgTypeFilter::All) {
        crate::viewer::listed_types()
    } else {
        keep_requested(types_by_code(), types)
    }
}

/// Whether some filter of `types` asks for `id`.
fn is_requested(types: &[MsgTypeFilter], id: MessageId) -> (b: bool)
    ensures
        b == requested(types@, id),
{
    let mut i: usize = 0;
    while i < types.len()
        invariant
            i <= types.len(),
            forall|k: int|
                0 <= k < i ==> !(types@[k] != MsgTypeFilter::All && filter_target(
                    #[trigger] types@[k],
                ) == id),
        decreases types.len() - i,
    {
        let t = types[i];
        let target = match t {
            MsgTypeFilter::Vision => Some(MessageId::Vision2014),
            MsgTypeFilter::Referee => Some(MessageId::Referee2013),
            MsgTypeFilter::Tracker => Some(MessageId::VisionTracker2020),
            MsgTypeFilter::Vision2010 => Some(MessageId::Vision2010),
            MsgTypeFilter::All => None,
        };
        if let Some(target) = target {
            if target == id {
                return true;
            }
        }
        i = i + 1;
    }
    false
}

/// The message types that a dump shows for the filters `types`.
pub fn resolve_type_filter(types: &[MsgTypeFilter]) -> (ids: Vec<MessageId>)
    ensures
        ids@ == resolved_types(types@),
{
    let mut any_all = false;
    let mut i: usize = 0;
    while i < types.len()
        invariant
            i <= types.len(),
            any_all == (exists|k: int| 0 <= k < i && types@[k] == MsgTypeFilter::All),
        decreases types.len() - i,
    {
        if types[i] == MsgTypeFilter::All {
            any_all = true;
            assert(types@[i as int] == MsgTypeFilter::All);
        }
        i = i + 1;
    }
    assert(any_all == types@.contains(MsgTypeFilter::All));
    if types.len() == 0 || any_all {
        let ids = vec![
            MessageId::Vision2014,
            MessageId::Referee2013,
            MessageId::VisionTracker2020,
            MessageId::Vision2010,
            MessageId::Blank,
            MessageId::Unknown,
            MessageId::Index2021,
        ];
        assert(ids@ =~= crate::viewer::listed_types());
        return ids;
    }
    let candidates = vec![
        MessageId::Blank,
        MessageId::Unknown,
        MessageId::Vision2010,
        MessageId::Referee2013,
        MessageId::Vision2014,
        MessageId::VisionTracker2020,
        MessageId::Index2021,
    ];
    assert(candidates@ =~= types_by_code());
    let mut ids: Vec<MessageId> = Vec::new();
    let mut j: usize = 0;
    while j < candidates.len()
        invariant
            j <= candidates.len(),
            candidates@ == types_by_code(),
            ids@ == keep_requested(candidates@.take(j as int), types@),
        decreases candidates.len() - j,
    {
        let id = candidates[j];
        proof {
            assert(candidates@.take(j + 1).drop_last() =~= candidates@.take(j as int));
        }
        if is_requested(types, id) {
            ids.push(id);
        }
        j = j + 1;
    }
    assert(candidates@.take(j as int) =~= candidates@);
    ids
}

/// Keeping the requested types of a list ordered by raw value keeps exactly
/// the requested ones, in the same order.
proof fn lemma_keep_requested(ids: Seq<MessageId>, types: Seq<MsgTypeFilter>)
    requires
        forall|i: int, j: int| 0 <= i < j < ids.len() ==> ids[i].code() < ids[j].code(),
    ensures
        forall|id: MessageId|
            #[trigger] keep_requested(ids, types).contains(id) <==> (ids.contains(id) && requested(
                types,
                id,
            )),
        forall|i: int, j: int|
            0 <= i < j < keep_requested(ids, types).len() ==> keep_requested(ids, types)[i].code()
                < keep_requested(ids, types)[j].code(),
    decreases ids.len(),
{
    if ids.len() > 0 {
        let front = ids.drop_last();
        lemma_keep_requested(front, types);
        let kept = keep_requested(front, types);
        assert forall|id: MessageId| ids.contains(id) <==> (front.contains(id) || id == ids.last()) by {
            if ids.contains(id) {
                let i = choose|i: int| 0 <= i < ids.len() && ids[i] == id;
                if i < ids.len() - 1 {
                    assert(front[i] == id);
                }
            }
            if front.contains(id) {
                let i = choose|i: int| 0 <= i < front.len() && front[i] == id;
                assert(ids[i] == id);
            }
            if id == ids.last() {
                assert(ids[ids.len() - 1] == id);
            }
        }
        assert forall|x: MessageId| kept.contains(x) implies x.code() < ids.last().code() by {
            assert(front.contains(x));
            let i = choose|i: int| 0 <= i < front.len() && front[i] == x;
            assert(ids[i] == x);
        }
        if requested(types, ids.last()) {
            let all = kept.push(ids.last());
            assert forall|id: MessageId| all.contains(id) <==> (kept.contains(id) || id == ids.last()) by {
                if all.contains(id) {
                    let i = choose|i: int| 0 <= i < all.len() && all[i] == id;
                    if i < kept.len() {
                        assert(kept[i] == id);
                    }
                }
                if kept.contains(id) {
                    let i = choose|i: int| 0 <= i < kept.len() && kept[i] == id;
                    assert(all[i] == id);
                }
                if id == ids.last() {
                    assert(all[kept.len() as int] == id);
                }
            }
            assert forall|i: int, j: int| 0 <= i < j < all.len() implies all[i].code()
                < all[j].code() by {
                if j == kept.len() {
                    assert(kept.contains(all[i]));
                }
            }
        }
    }
}

/// The message types ordered by raw value, each once: every type is there.
proof fn lemma_types_by_code()
    ensures
        forall|i: int, j: int|
            0 <= i < j < types_by_code().len() ==> types_by_code()[i].code()
                < types_by_code()[j].code(),
        forall|id: MessageId| types_by_code().contains(id),
{
    let t = types_by_code();
    assert forall|i: int| 0 <= i < t.len() implies t[i].code() == i by {}
    assert forall|id: MessageId| t.contains(id) by {
        assert(t[id.code() as int] == id);
    }
}

/// The message types that a dump shows: with no filter, or with `All`
/// among them, every message type, each once; otherwise exactly the types
/// that some filter asks for, each once, in the order of their raw values.
pub proof fn lemma_resolved_types(types: Seq<MsgTypeFilter>)
    ensures
        types.len() == 0 || types.contains(MsgTypeFilter::All) ==> forall|id: MessageId|
            resolved_types(types).contains(id),
        types.len() > 0 && !types.contains(MsgTypeFilter::All) ==> forall|id: MessageId|
            resolved_types(types).contains(id) <==> requested(types, id),
        types.len() > 0 && !types.contains(MsgTypeFilter::All) ==> forall|i: int, j: int|
            0 <= i < j < resolved_types(types).len() ==> resolved_types(types)[i].code()
                < resolved_types(types)[j].code(),
        forall|i: int, j: int|
            0 <= i < j < resolved_types(types).len() ==> resolved_types(types)[i]
                != resolved_types(types)[j],
{
    lemma_types_by_code();
    if types.len() == 0 || types.contains(MsgTypeFilter::All) {
        let l = crate::viewer::listed_types();
        assert forall|id: MessageId| l.contains(id) by {
            match id {
                MessageId::Vision2014 => assert(l[0] == id),
                MessageId::Referee2013 => assert(l[1] == id),
                MessageId::VisionTracker2020 => assert(l[2] == id),
                MessageId::Vision2010 => assert(l[3] == id),
                MessageId::Blank => assert(l[4] == id),
                MessageId::Unknown => assert(l[5] == id),
                MessageId::Index2021 => assert(l[6] == id),
            }
        }
        assert forall|i: int, j: int| 0 <= i < j < l.len() implies l[i] != l[j] by {
            assert(l[i].code() != l[j].code());
        }
    } else {
        lemma_keep_requested(types_by_code(), types);
    }
}

/// Counts how many outputs have been made, and when the limit, if there is
/// one, is reached.
#[derive(Debug, Clone, Copy)]
pub struct OutputLimit {
    pub limit: Option<usize>,
    pub emitted: usize,
}

impl OutputLimit {
    /// Nothing output yet.
    pub fn new(limit: Option<usize>) -> (l: OutputLimit)
        ensures
            l.limit == limit,
            l.emitted == 0,
    {
        OutputLimit { limit, emitted: 0 }
    }

    /// Another output stays within the limit.
    pub open spec fn has_room(self) -> bool {
        !(self.limit matches Some(lim) && self.emitted >= lim)
    }

    /// Whether another output stays within the limit.
    pub fn allows_more(&self) -> (b: bool)
        ensures
            b == self.has_room(),
    {
        match self.limit {
            Some(lim) => self.emitted < lim,
            None => true,
        }
    }

    /// Records one output, which the limit allows; returns whether the limit
    /// is now reached and the output must stop.
    pub fn record_emitted(&mut self) -> (stop: bool)
        requires
            old(self).emitted < usize::MAX,
            old(self).has_room(),
        ensures
            final(self).limit == old(self).limit,
            final(self).emitted == old(self).emitted + 1,
            stop == (old(self).limit matches Some(lim) && (final(self).emitted >= lim)),
    {
        self.emitted = self.emitted + 1;
        match self.limit {
            Some(lim) => self.emitted >= lim,
            None => false,
        }
    }
}

/// An output limit that is not set always leaves room; a set one leaves room
/// exactly until that many outputs were made.
pub proof fn lemma_limit_room(o: OutputLimit)
    ensures
        o.limit is None ==> o.has_room(),
        o.limit matches Some(lim) ==> (o.has_room() <==> o.emitted < lim),
{
}

/// What a dump does with a message.
#[derive(Debug, Clone, Copy, PartialEq, Eq, Structural)]
pub enum DumpStep {
    /// Leave the message out.
    Skip,
    /// Show the message; `stop_after` says the limit is then reached.
    Emit { stop_after: bool },
}

/// The state of a dump: the number of leading matches to skip, the matches
/// so far, and the output limit.
#[derive(Debug, Clone, Copy)]
pub struct DumpSelection {
    pub offset: usize,
    pub matched: usize,
    pub output: OutputLimit,
}

impl DumpSelection {
    /// A dump that skips the first `offset` matching messages and shows at
    /// most `limit` messages.
    pub fn new(offset: usize, limit: Option<usize>) -> (d: DumpSelection)
        ensures
            d.offset == offset,
            d.matched == 0,
            d.output.limit == limit,
            d.output.emitted == 0,
    {
        DumpSelection { offset, matched: 0, output: OutputLimit::new(limit) }
    }

    /// Decides on the next message, given whether it passes the type and
    /// time filters: a message that does not pass is skipped; of those that
    /// pass, the first `offset` are skipped, and the others are shown as long
    /// as the limit allows, so that a limit of 0 shows nothing.
    pub fn step(&mut self, passes_filters: bool) -> (s: DumpStep)
        requires
            old(self).matched < usize::MAX,
            old(self).output.emitted < usize::MAX,
        ensures
            (*final(self), s) == dump_step(*old(self), passes_filters),
            final(self).offset == old(self).offset,
            final(self).output.limit == old(self).output.limit,
            !passes_filters ==> (s == DumpStep::Skip && *final(self) == *old(self)),
            passes_filters ==> final(self).matched == old(self).matched + 1,
            passes_filters && old(self).matched < old(self).offset ==> (s == DumpStep::Skip
                && final(self).output == old(self).output),
            passes_filters && old(self).matched >= old(self).offset && !old(self).output.has_room()
                ==> (s == DumpStep::Skip && final(self).output == old(self).output),
            passes_filters && old(self).matched >= old(self).offset && old(self).output.has_room()
                ==> (final(self).output.emitted == old(self).output.emitted + 1 && s == (
            DumpStep::Emit {
                stop_after: (old(self).output.limit matches Some(lim) && final(self).output.emitted
                    >= lim),
            })),
    {
        if !passes_filters {
            return DumpStep::Skip;
        }
        if self.matched < self.offset {
            self.matched = self.matched + 1;
            return DumpStep::Skip;
        }
        self.matched = self.matched + 1;
        if !self.output.allows_more() {
            return DumpStep::Skip;
        }
        let stop_after = self.output.record_emitted();
        DumpStep::Emit { stop_after }
    }
}

/// What a dump does with a message that passes the filters or not, and the
/// state it goes on with.
pub open spec fn dump_step(d: DumpSelection, passes: bool) -> (DumpSelection, DumpStep) {
    if !passes {
        (d, DumpStep::Skip)
    } else if d.matched < d.offset || !d.output.has_room() {
        (DumpSelection { matched: (d.matched + 1) as usize, ..d }, DumpStep::Skip)
    } else {
        let emitted = (d.output.emitted + 1) as usize;
        (
            DumpSelection {
                matched: (d.matched + 1) as usize,
                output: OutputLimit { emitted, ..d.output },
                ..d
            },
            DumpStep::Emit { stop_after: d.output.limit matches Some(lim) && emitted >= lim },
        )
    }
}

/// What a dump does with each of a run of messages, given for each whether
/// it passes the filters, up to the message after which the limit stops it.
pub open spec fn dump_run(d: DumpSelection, passes: Seq<bool>) -> Seq<DumpStep>
    decreases passes.len(),
{
    if passes.len() == 0 {
        seq![]
    } else {
        let (next, step) = dump_step(d, passes[0]);
        if step == (DumpStep::Emit { stop_after: true }) {
            seq![step]
        } else {
            seq![step] + dump_run(next, passes.drop_first())
        }
    }
}

/// The number of messages shown in `steps`.
pub open spec fn count_emits(steps: Seq<DumpStep>) -> nat
    decreases steps.len(),
{
    if steps.len() == 0 {
        0
    } else {
        (if steps[0] is Emit {
            1nat
        } else {
            0nat
        }) + count_emits(steps.drop_first())
    }
}

/// The number of messages of `passes` that pass the filters.
pub open spec fn count_passing(passes: Seq<bool>) -> nat
    decreases passes.len(),
{
    if passes.len() == 0 {
        0
    } else {
        (if passes[0] {
            1nat
        } else {
            0nat
        }) + count_passing(passes.drop_first())
    }
}

/// A dump with a limit shows no more messages than the limit allows: at most
/// `limit` in all, counting those already shown; with a limit of 0, none.
pub proof fn lemma_dump_respects_limit(d: DumpSelection, passes: Seq<bool>, lim: usize)
    requires
        d.output.limit == Some(lim),
        d.output.emitted <= lim,
        d.matched + passes.len() <= usize::MAX,
        d.output.emitted + passes.len() <= usize::MAX,
    ensures
        count_emits(dump_run(d, passes)) <= lim - d.output.emitted,
    decreases passes.len(),
{
    if passes.len() > 0 {
        let (next, step) = dump_step(d, passes[0]);
        let run = dump_run(d, passes);
        if step == (DumpStep::Emit { stop_after: true }) {
            assert(count_emits(seq![step].drop_first()) == 0) by {
                assert(seq![step].drop_first() =~= Seq::<DumpStep>::empty());
            }
        } else {
            let rest = dump_run(next, passes.drop_first());
            assert(run.drop_first() =~= rest);
            lemma_dump_respects_limit(next, passes.drop_first(), lim);
        }
    }
}

/// How many of the messages of `passes` that pass the filters come after
/// those that the dump `d` still skips for its offset.
pub open spec fn passing_after_offset(d: DumpSelection, passes: Seq<bool>) -> int {
    let skip: int = if d.matched < d.offset {
        d.offset - d.matched
    } else {
        0
    };
    if count_passing(passes) > skip {
        count_passing(passes) - skip
    } else {
        0
    }
}

/// How many messages a dump shows of a run: every passing message after the
/// offset when there is no limit, and as many of them as the limit leaves
/// room for when there is one.
pub proof fn lemma_dump_count(d: DumpSelection, passes: Seq<bool>)
    requires
        d.matched + passes.len() <= usize::MAX,
        d.output.emitted + passes.len() <= usize::MAX,
    ensures
        d.output.limit is None ==> count_emits(dump_run(d, passes)) == passing_after_offset(
            d,
            passes,
        ),
        d.output.limit matches Some(lim) ==> count_emits(dump_run(d, passes)) == vstd::math::min(
            passing_after_offset(d, passes),
            if lim > d.output.emitted {
                lim - d.output.emitted
            } else {
                0
            },
        ),
    decreases passes.len(),
{
    if passes.len() > 0 {
        let (next, step) = dump_step(d, passes[0]);
        let rest = passes.drop_first();
        let run = dump_run(d, passes);
        assert(count_passing(passes) == (if passes[0] {
            1nat
        } else {
            0nat
        }) + count_passing(rest));
        if step == (DumpStep::Emit { stop_after: true }) {
            assert(run =~= seq![step]);
            assert(run.drop_first() =~= Seq::<DumpStep>::empty());
            assert(count_emits(run.drop_first()) == 0);
            assert(count_emits(run) == 1 + count_emits(run.drop_first()));
        } else {
            assert(run.drop_first() =~= dump_run(next, rest));
            assert(count_emits(run) == (if step is Emit {
                1nat
            } else {
                0nat
            }) + count_emits(dump_run(next, rest)));
            lemma_dump_count(next, rest);
        }
    }
}

/// A dump shows only messages that pass the filters, and none of the first
/// `offset` of those: the `i`-th step, if it shows its message, comes after
/// more than `offset` passing messages, counting those matched before.
pub proof fn lemma_dump_skips_offset(d: DumpSelection, passes: Seq<bool>, i: int)
    requires
        0 <= i < dump_run(d, passes).len(),
        dump_run(d, passes)[i] is Emit,
        d.matched + passes.len() <= usize::MAX,
        d.output.emitted + passes.len() <= usize::MAX,
    ensures
        i < passes.len(),
        passes[i],
        d.matched + count_passing(passes.take(i + 1)) > d.offset,
    decreases passes.len(),
{
    let (next, step) = dump_step(d, passes[0]);
    let run = dump_run(d, passes);
    assert(passes.take(1).drop_first() =~= Seq::<bool>::empty());
    if i == 0 {
        assert(count_passing(passes.take(1)) == (if passes[0] {
            1nat
        } else {
            0nat
        }) + count_passing(passes.take(1).drop_first()));
    } else {
        assert(step != (DumpStep::Emit { stop_after: true }));
        let rest = passes.drop_first();
        assert(run.drop_first() =~= dump_run(next, rest));
        assert(run[i] == dump_run(next, rest)[i - 1]);
        lemma_dump_skips_offset(next, rest, i - 1);
        assert(passes.take(i + 1).drop_first() =~= rest.take(i));
        assert(passes.take(i + 1)[0] == passes[0]);
    }
}

/// The last referee state seen, to show only the states that change.
#[derive(Debug, Clone, Copy)]
pub struct RefereeChanges {
    pub prev_command: Option<i32>,
    pub prev_stage: Option<i32>,
}

impl RefereeChanges {
    /// No state seen yet.
    pub fn new() -> (c: RefereeChanges)
        ensures
            c.prev_command is None,
            c.prev_stage is None,
    {
        RefereeChanges { prev_command: None, prev_stage: None }
    }

    /// Whether the referee state (`command`, `stage`) differs from the last
    /// one seen; a changed state becomes the last one seen.
    pub fn changed(&mut self, command: i32, stage: i32) -> (b: bool)
        ensures
            b == (old(self).prev_command != Some(command) || old(self).prev_stage != Some(stage)),
            b ==> (final(self).prev_command == Some(command) && final(self).prev_stage == Some(
                stage,
            )),
            !b ==> *final(self) == *old(self),
    {
        let same_command = match self.prev_command {
            Some(c) => c == command,
            None => false,
        };
        let same_stage = match self.prev_stage {
            Some(s) => s == stage,
            None => false,
        };
        if same_command && same_stage {
            return false;
        }
        self.prev_command = Some(command);
        self.prev_stage = Some(stage);
        true
    }
}

/// Summary statistics of a log: messages per type, the first and last
/// positive timestamps, and the total payload size.
#[derive(Debug, Clone, Copy)]
pub struct LogStats {
    pub vision_count: u64,
    pub vision2010_count: u64,
    pub referee_count: u64,
    pub tracker_count: u64,
    pub other_count: u64,
    pub first_ts: Option<i64>,
    pub last_ts: i64,
    pub total_bytes: u64,
}

impl LogStats {
    /// The number of messages counted.
    pub open spec fn message_count(self) -> int {
        self.vision_count + self.vision2010_count + self.referee_count + self.tracker_count
            + self.other_count
    }

    /// Nothing counted yet.
    pub fn new() -> (s: LogStats)
        ensures
            s.message_count() == 0,
            s.vision_count == 0 && s.vision2010_count == 0 && s.referee_count == 0
                && s.tracker_count == 0 && s.other_count == 0,
            s.first_ts is None,
            s.last_ts == 0,
            s.total_bytes == 0,
    {
        LogStats {
            vision_count: 0,
            vision2010_count: 0,
            referee_count: 0,
            tracker_count: 0,
            other_count: 0,
            first_ts: None,
            last_ts: 0,
            total_bytes: 0,
        }
    }

    /// Another message of `payload_len` bytes can be counted without any
    /// count overflowing.
    pub fn has_room_for(&self, payload_len: usize) -> (b: bool)
        ensures
            b == (self.message_count() < u64::MAX && self.total_bytes + payload_len
                <= u64::MAX),
    {
        let counted = self.vision_count as u128 + self.vision2010_count as u128
            + self.referee_count as u128 + self.tracker_count as u128 + self.other_count as u128;
        counted < u64::MAX as u128 && self.total_bytes as u128 + payload_len as u128
            <= u64::MAX as u128
    }

    /// Counts a message: its type's count goes up by one, its payload size
    /// is added, and a positive timestamp becomes the last one, and the
    /// first one if there was none.
    pub fn observe(&mut self, timestamp_ns: i64, message_id: MessageId, payload_len: usize)
        requires
            old(self).message_count() < u64::MAX,
            old(self).total_bytes + payload_len <= u64::MAX,
        ensures
            final(self).message_count() == old(self).message_count() + 1,
            final(self).total_bytes == old(self).total_bytes + payload_len,
            final(self).first_ts == if old(self).first_ts is None && timestamp_ns > 0 {
                Some(timestamp_ns)
            } else {
                old(self).first_ts
            },
            final(self).last_ts == if timestamp_ns > 0 {
                timestamp_ns
            } else {
                old(self).last_ts
            },
            final(self).vision_count == old(self).vision_count + if message_id
                == MessageId::Vision2014 {
                1int
            } else {
                0int
            },
            final(self).vision2010_count == old(self).vision2010_count + if message_id
                == MessageId::Vision2010 {
                1int
            } else {
                0int
            },
            final(self).referee_count == old(self).referee_count + if message_id
                == MessageId::Referee2013 {
                1int
            } else {
                0int
            },
            final(self).tracker_count == old(self).tracker_count + if message_id
                == MessageId::VisionTracker2020 {
                1int
            } else {
                0int
            },
            final(self).other_count == old(self).other_count + if message_id
                == MessageId::Blank || message_id == MessageId::Unknown || message_id
                == MessageId::Index2021 {
                1int
            } else {
                0int
            },
    {
        if self.first_ts.is_none() && timestamp_ns > 0 {
            self.first_ts = Some(timestamp_ns);
        }
        if timestamp_ns > 0 {
            self.last_ts = timestamp_ns;
        }
        self.total_bytes = self.total_bytes + payload_len as u64;
        match message_id {
            MessageId::Vision2014 => self.vision_count = self.vision_count + 1,
            MessageId::Vision2010 => self.vision2010_count = self.vision2010_count + 1,
            MessageId::Referee2013 => self.referee_count = self.referee_count + 1,
            MessageId::VisionTracker2020 => self.tracker_count = self.tracker_count + 1,
            _ => self.other_count = self.other_count + 1,
        }
    }

    /// The number of messages counted.
    pub fn total(&self) -> (n: u64)
        requires
            self.message_count() <= u64::MAX,
        ensures
            n == self.message_count(),
    {
        self.vision_count + self.vision2010_count + self.referee_count + self.tracker_count
            + self.other_count
    }
}

} // verus!
