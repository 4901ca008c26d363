//! What holds of a whole fetch: laws over runs of the steps of `fetch`.

use vstd::prelude::*;
use vstd::relations::sorted_by;

use crate::fetch::{
    after_metadata, after_poll, after_watermarks, empty_page, find_topic, lemma_ascending,
    polling_begins, selected, topic_error, topic_views, watermarks_begin, FetchStep, PageView,
    PollEvent, PollStage, PollView, StepView, TopicInfo, TopicView, WatermarkStage, WatermarkView,
};
use crate::message::{shown, MessageFetchResult, RawMessage, ShownMessage};
use crate::partitions::{
    last_definite, law_last_definite_offset_counts, law_new_partition_appended,
    law_query_asks_each_partition_once, law_query_is_as_long_as_asked, lemma_with_entry_len,
    offset_rejected, offsets_by_partition, partition_entries, with_entry, PartitionEntry,
    PartitionOffset,
};
use crate::redact::sanitized;
use crate::request::{FetchRequest, RequestView};
use crate::text::{decimal, is_numeral, law_decimal_reads_back, numeral_value};

verus! {

// ---- partitions -------------------------------------------------------------

/// The partitions to fetch from ascend, and they are exactly the wanted ones of
/// the topic: each as often as the topic has it.
pub proof fn law_selected_partitions(partitions: Seq<i32>, wanted: Option<i32>, p: i32)
    ensures
        sorted_by(selected(partitions, wanted), |a: i32, b: i32| a <= b),
        selected(partitions, wanted).contains(p) <==> partitions.contains(p) && (
        wanted is None || wanted == Some(p)),
        wanted is None ==> selected(partitions, wanted).to_multiset() == partitions.to_multiset(),
        partitions.no_duplicates() ==> selected(partitions, wanted).no_duplicates(),
{
    let kept = match wanted {
        Some(w) => partitions.filter(|q: i32| q == w),
        None => partitions,
    };
    let chosen = selected(partitions, wanted);
    lemma_ascending(kept);
    chosen.to_multiset_ensures();
    kept.to_multiset_ensures();
    assert(kept.contains(p) <==> kept.to_multiset().count(p) > 0);
    assert(chosen.contains(p) <==> chosen.to_multiset().count(p) > 0);
    match wanted {
        Some(w) => {
            broadcast use vstd::seq_lib::group_filter_ensures;

            let keep = |q: i32| q == w;
            if kept.contains(p) {
                let i = choose|i: int| 0 <= i < kept.len() && kept[i] == p;
                assert(keep(kept[i]));
                partitions.lemma_filter_contains_rev(keep, p);
            }
            if partitions.contains(p) && p == w {
                let i = choose|i: int| 0 <= i < partitions.len() && partitions[i] == p;
                partitions.lemma_filter_contains(keep, i);
            }
            if partitions.no_duplicates() {
                lemma_filter_keeps_distinct(partitions, keep);
            }
        },
        None => {},
    }
    if partitions.no_duplicates() {
        kept.lemma_multiset_has_no_duplicates();
        chosen.lemma_multiset_has_no_duplicates_conv();
    }
}

proof fn lemma_filter_keeps_distinct(numbers: Seq<i32>, keep: spec_fn(i32) -> bool)
    requires
        numbers.no_duplicates(),
    ensures
        numbers.filter(keep).no_duplicates(),
    decreases numbers.len(),
{
    reveal(Seq::filter);
    if numbers.len() > 0 {
        let front = numbers.drop_last();
        let kept = front.filter(keep);
        lemma_filter_keeps_distinct(front, keep);
        if keep(numbers.last()) {
            assert forall|i: int| 0 <= i < kept.len() implies #[trigger] kept[i]
                != numbers.last() by {
                assert(kept.contains(kept[i]));
                front.lemma_filter_contains_rev(keep, kept[i]);
                let j = choose|j: int| 0 <= j < front.len() && front[j] == kept[i];
                assert(numbers[j] != numbers[numbers.len() - 1]);
            }
        }
    }
}

// ---- where to start ---------------------------------------------------------

/// Fetching starts within the offsets that a partition has, whatever offset or
/// time was asked for.
pub proof fn law_seek_is_within_offsets(stage: WatermarkView, low: i64, high: i64)
    requires
        low <= high,
    ensures
        low <= stage.seek(low, high) <= high,
{
}

/// An offset that is asked for is never passed over in silence: what is no
/// offset is refused, and otherwise fetching starts right there, or at the
/// nearest offset that the partition has.
pub proof fn law_asked_offset_is_heeded(
    request: RequestView,
    asked: Seq<char>,
    partitions: Seq<i32>,
    low: i64,
    high: i64,
)
    requires
        request.from_offset == Some(asked),
        low <= high,
    ensures
        !is_numeral(asked) || numeral_value(asked) > i64::MAX ==> watermarks_begin(
            request,
            partitions,
            None,
        ) == StepView::Failed("Invalid offset"@),
        is_numeral(asked) && numeral_value(asked) <= i64::MAX ==> (watermarks_begin(
            request,
            partitions,
            None,
        ) matches StepView::FetchWatermarks(stage) && {
            &&& low <= numeral_value(asked) <= high ==> stage.seek(low, high) == numeral_value(
                asked,
            )
            &&& numeral_value(asked) < low ==> stage.seek(low, high) == low
            &&& numeral_value(asked) > high ==> stage.seek(low, high) == high
        }),
{
}

/// The step after a sequence of replies with first and last offsets.
pub open spec fn watermark_run(step: StepView, marks: Seq<(i64, i64)>) -> StepView
    decreases marks.len(),
{
    if marks.len() == 0 {
        step
    } else {
        match watermark_run(step, marks.drop_last()) {
            StepView::FetchWatermarks(stage) => after_watermarks(
                stage,
                marks.last().0,
                marks.last().1,
            ),
            other => other,
        }
    }
}

/// Where to start in the `i`-th partition.
pub open spec fn planned_seek(stage: WatermarkView, i: int, marks: (i64, i64)) -> i64 {
    WatermarkView { next: i as nat, ..stage }.seek(marks.0, marks.1)
}

/// One entry for each partition, with the offset to start at.
pub open spec fn planned_entries(stage: WatermarkView, marks: Seq<(i64, i64)>) -> Seq<
    PartitionEntry,
> {
    Seq::new(
        marks.len(),
        |i: int|
            (
                stage.request.topic,
                stage.partitions[i],
                PartitionOffset::At(planned_seek(stage, i, marks[i])),
            ),
    )
}

/// How many messages the partitions have from there on.
pub open spec fn planned_total(stage: WatermarkView, marks: Seq<(i64, i64)>) -> int
    decreases marks.len(),
{
    if marks.len() == 0 {
        0
    } else {
        planned_total(stage, marks.drop_last()) + (marks.last().1 - planned_seek(
            stage,
            marks.len() - 1,
            marks.last(),
        ))
    }
}

proof fn lemma_watermark_prefix(stage: WatermarkView, marks: Seq<(i64, i64)>)
    requires
        stage.wf(),
        stage.next == 0,
        stage.total == 0,
        stage.partitions.no_duplicates(),
        marks.len() < stage.partitions.len(),
        forall|i: int|
            0 <= i < marks.len() ==> planned_seek(stage, i, #[trigger] marks[i]) >= 0,
    ensures
        watermark_run(StepView::FetchWatermarks(stage), marks) == StepView::FetchWatermarks(
            WatermarkView {
                next: marks.len(),
                entries: planned_entries(stage, marks),
                total: planned_total(stage, marks),
                ..stage
            },
        ),
    decreases marks.len(),
{
    if marks.len() == 0 {
        assert(planned_entries(stage, marks) =~= stage.entries);
    } else {
        let front = marks.drop_last();
        assert(forall|i: int| 0 <= i < front.len() ==> #[trigger] front[i] == marks[i]);
        lemma_watermark_prefix(stage, front);
        lemma_entries_grow(stage, marks);
        assert(marks[marks.len() - 1] == marks.last());
    }
}

/// The entry of one partition more goes behind the others.
proof fn lemma_entries_grow(stage: WatermarkView, marks: Seq<(i64, i64)>)
    requires
        stage.partitions.no_duplicates(),
        0 < marks.len() <= stage.partitions.len(),
    ensures
        with_entry(
            planned_entries(stage, marks.drop_last()),
            stage.request.topic,
            stage.partitions[marks.len() - 1],
            planned_seek(stage, marks.len() - 1, marks.last()),
        ) == planned_entries(stage, marks),
{
    let front = marks.drop_last();
    let before = planned_entries(stage, front);
    let k = marks.len() - 1;
    let partition = stage.partitions[k];
    assert forall|i: int| 0 <= i < before.len() implies !((#[trigger] before[i]).0
        == stage.request.topic && before[i].1 == partition) by {
        assert(stage.partitions[i] != stage.partitions[k]);
    }
    law_new_partition_appended(
        before,
        stage.request.topic,
        partition,
        planned_seek(stage, k, marks.last()),
    );
    assert(planned_entries(stage, marks) =~= before.push(
        (stage.request.topic, partition, PartitionOffset::At(planned_seek(stage, k, marks.last()))),
    ));
}

/// Once the first and last offset of every partition are known, each partition
/// is assigned once, in order, with the offset to start at, and the number of
/// messages to expect is what they have from there on, no more than fit on the
/// page; where they have none, the page is empty. (An offset below zero is
/// refused.)
pub proof fn law_every_partition_is_assigned(stage: WatermarkView, marks: Seq<(i64, i64)>)
    requires
        stage.wf(),
        stage.next == 0,
        stage.total == 0,
        stage.partitions.no_duplicates(),
        marks.len() == stage.partitions.len(),
        forall|i: int|
            0 <= i < marks.len() ==> planned_seek(stage, i, #[trigger] marks[i]) >= 0,
    ensures
        ({
            let total = planned_total(stage, marks);
            let end = watermark_run(StepView::FetchWatermarks(stage), marks);
            &&& total == 0 ==> end == StepView::Done(empty_page())
            &&& total != 0 ==> end == StepView::Assign {
                request: stage.request,
                cap: if total < stage.request.limit {
                    total as nat
                } else {
                    stage.request.limit
                },
                entries: planned_entries(stage, marks),
            }
        }),
{
    let front = marks.drop_last();
    assert(forall|i: int| 0 <= i < front.len() ==> #[trigger] front[i] == marks[i]);
    lemma_watermark_prefix(stage, front);
    lemma_entries_grow(stage, marks);
    assert(marks[marks.len() - 1] == marks.last());
}

// ---- the page ---------------------------------------------------------------

/// The step after a sequence of polls.
pub open spec fn poll_run(step: StepView, events: Seq<PollEvent>) -> StepView
    decreases events.len(),
{
    if events.len() == 0 {
        step
    } else {
        match poll_run(step, events.drop_last()) {
            StepView::Poll(stage) => after_poll(stage, events.last()),
            other => other,
        }
    }
}

/// Whether a page is in order: it is no longer than it may be, holds messages of
/// the wanted partition only, and has more behind it exactly if it is full; then
/// the next one starts right behind its last message.
pub open spec fn page_in_order(page: PageView, limit: nat, wanted: Option<i32>) -> bool {
    &&& page.messages.len() <= limit
    &&& wanted matches Some(p) ==> forall|i: int|
        0 <= i < page.messages.len() ==> (#[trigger] page.messages[i]).partition == p
    &&& page.has_more <==> page.messages.len() == limit
    &&& !page.has_more ==> page.next_offset is None && page.next_partition is None
    &&& page.has_more ==> page.next_partition == Some(page.messages.last().partition) && exists|
        o: i64,
    |
        page.messages.last().offset == #[trigger] decimal(o as int) && page.next_offset == Some(
            decimal(o + 1),
        )
}

/// One poll more keeps a stage what it is, or makes a page that is in order.
proof fn lemma_poll_in_order(stage: PollView, event: PollEvent)
    requires
        stage.wf(),
    ensures
        after_poll(stage, event) matches StepView::Poll(next) ==> {
            &&& next.wf()
            &&& next.limit == stage.limit
            &&& next.cap == stage.cap
            &&& next.partition == stage.partition
        },
        after_poll(stage, event) matches StepView::Release(page) ==> page_in_order(
            page,
            stage.limit,
            stage.partition,
        ),
        after_poll(stage, event) matches StepView::Failed(e) ==> exists|raw: Seq<char>|
            e == #[trigger] sanitized(raw),
        !(after_poll(stage, event) is Done),
{
    match event {
        PollEvent::Message(m) => {
            if stage.takes(m) {
                let more = stage.with_message(m);
                assert(more.messages.last() == shown(m));
                assert(more.messages.last().offset == decimal(m.offset as int));
                assert forall|i: int| 0 <= i < more.messages.len() implies (
                stage.partition matches Some(p) ==> (#[trigger] more.messages[i]).partition
                    == p) by {
                    if i < stage.messages.len() {
                        assert(more.messages[i] == stage.messages[i]);
                    }
                }
            }
        },
        _ => {},
    }
}

/// However a consumer is polled, the page that comes of it is in order.
pub proof fn law_page_in_order(stage: PollView, events: Seq<PollEvent>)
    requires
        stage.wf(),
    ensures
        poll_run(StepView::Poll(stage), events) matches StepView::Poll(next) ==> {
            &&& next.wf()
            &&& next.limit == stage.limit
            &&& next.cap == stage.cap
            &&& next.partition == stage.partition
        },
        poll_run(StepView::Poll(stage), events) matches StepView::Release(page) ==> page_in_order(
            page,
            stage.limit,
            stage.partition,
        ),
        !(poll_run(StepView::Poll(stage), events) is Done),
    decreases events.len(),
{
    if events.len() > 0 {
        let front = events.drop_last();
        law_page_in_order(stage, front);
        match poll_run(StepView::Poll(stage), front) {
            StepView::Poll(next) => lemma_poll_in_order(next, events.last()),
            _ => {},
        }
    }
}

/// The messages that count, in their order.
pub open spec fn counted(messages: Seq<RawMessage>, wanted: Option<i32>) -> Seq<ShownMessage>
    decreases messages.len(),
{
    if messages.len() == 0 {
        Seq::empty()
    } else {
        let earlier = counted(messages.drop_last(), wanted);
        if wanted is None || wanted == Some(messages.last().partition) {
            earlier.push(shown(messages.last()))
        } else {
            earlier
        }
    }
}

/// As long as messages come, the page gathers those that count, in their order
/// and none twice, until as many have come as are to be expected.
pub proof fn law_page_gathers_messages(stage: PollView, messages: Seq<RawMessage>)
    requires
        stage.wf(),
    ensures
        ({
            let events = messages.map_values(|m: RawMessage| PollEvent::Message(m));
            let end = poll_run(StepView::Poll(stage), events);
            let gathered = stage.messages + counted(messages, stage.partition);
            &&& gathered.len() < stage.cap ==> (end matches StepView::Poll(next) && next.messages
                == gathered && next.cap == stage.cap && next.partition == stage.partition)
            &&& gathered.len() >= stage.cap ==> (end matches StepView::Release(page)
                && page.messages == gathered.take(stage.cap as int))
        }),
    decreases messages.len(),
{
    let events = messages.map_values(|m: RawMessage| PollEvent::Message(m));
    let gathered = stage.messages + counted(messages, stage.partition);
    if messages.len() == 0 {
        assert(gathered =~= stage.messages);
    } else {
        let front = messages.drop_last();
        let before = stage.messages + counted(front, stage.partition);
        law_page_gathers_messages(stage, front);
        assert(events.drop_last() =~= front.map_values(|m: RawMessage| PollEvent::Message(m)));
        assert(events.last() == PollEvent::Message(messages.last()));
        if before.len() >= stage.cap {
            assert(gathered.take(stage.cap as int) =~= before.take(stage.cap as int));
        } else if stage.takes(messages.last()) {
            assert(gathered =~= before.push(shown(messages.last())));
            if gathered.len() >= stage.cap {
                assert(gathered.take(stage.cap as int) =~= gathered);
            }
        }
    }
}

/// A full page says where the next one starts: asked for with the offset that
/// the page gives, and without a time, fetching starts right behind its last
/// message, so that none is skipped and none comes twice.
pub proof fn law_next_page_starts_behind_this_one(
    full: PollView,
    last: i64,
    request: RequestView,
    partitions: Seq<i32>,
    low: i64,
    high: i64,
)
    requires
        full.messages.len() >= full.limit,
        full.last_offset == Some(last),
        0 <= last < i64::MAX,
        request.from_offset == full.page().next_offset,
        low <= last + 1 <= high,
    ensures
        watermarks_begin(request, partitions, None) matches StepView::FetchWatermarks(stage)
            && stage.seek(low, high) == last + 1,
{
    law_decimal_reads_back((last + 1) as nat);
}

// ---- the whole fetch --------------------------------------------------------

/// What came of a step.
pub enum Reply {
    /// The entries of a list with the offsets at a time.
    Offsets(Seq<PartitionEntry>),
    /// The first and last offset of a partition.
    Watermarks(i64, i64),
    /// The partitions are assigned.
    Assigned,
    /// A poll is over.
    Polled(PollEvent),
    /// The client reported an error.
    Failed(Seq<char>),
}

/// The step that follows a reply; a reply to another question changes nothing.
pub open spec fn next_step(step: StepView, reply: Reply) -> StepView {
    match (step, reply) {
        (
            StepView::ResolveTimestamps { request, partitions, query },
            Reply::Offsets(entries),
        ) => watermarks_begin(request, partitions, Some(offsets_by_partition(entries))),
        (StepView::FetchWatermarks(stage), Reply::Watermarks(low, high)) => after_watermarks(
            stage,
            low,
            high,
        ),
        (StepView::Assign { request, cap, entries }, Reply::Assigned) => polling_begins(
            request,
            cap,
        ),
        (StepView::Poll(stage), Reply::Polled(event)) => after_poll(stage, event),
        (StepView::ResolveTimestamps { request, partitions, query }, Reply::Failed(raw)) => {
            StepView::Failed(sanitized(raw))
        },
        (StepView::FetchWatermarks(stage), Reply::Failed(raw)) => StepView::Failed(sanitized(raw)),
        (StepView::Assign { request, cap, entries }, Reply::Failed(raw)) => StepView::Failed(
            sanitized(raw),
        ),
        _ => step,
    }
}

/// The step that a fetch has come to after the metadata of the topic and a
/// sequence of replies.
pub open spec fn fetch_run(
    request: RequestView,
    topics: Seq<TopicView>,
    replies: Seq<Reply>,
) -> StepView
    decreases replies.len(),
{
    if replies.len() == 0 {
        after_metadata(request, topics)
    } else {
        next_step(fetch_run(request, topics, replies.drop_last()), replies.last())
    }
}

/// Whether an error text may leave the process: a text of the client that has
/// been redacted, or one of the library's own, which name nothing but the topic
/// that was asked for.
pub open spec fn may_leave(text: Seq<char>, topic: Seq<char>) -> bool {
    ||| exists|raw: Seq<char>| text == #[trigger] sanitized(raw)
    ||| text == "Topic not found: "@ + topic
    ||| text == "Invalid offset"@
    ||| text == offset_rejected()
}

/// Whether a step belongs to a fetch: its stage is sound and still holds the
/// request, its page is in order, its error text may leave the process.
pub open spec fn step_in_order(step: StepView, request: RequestView) -> bool {
    &&& step.wf()
    &&& match step {
        StepView::Failed(e) => may_leave(e, request.topic),
        StepView::Done(page) => page == empty_page(),
        StepView::Release(page) => page_in_order(page, request.limit, request.partition),
        StepView::ResolveTimestamps { request: r, partitions, query } => r == request,
        StepView::FetchWatermarks(stage) => stage.request == request,
        StepView::Assign { request: r, cap, entries } => r == request,
        StepView::Poll(stage) => stage.limit == request.limit && stage.partition
            == request.partition,
    }
}

proof fn lemma_watermarks_in_order(stage: WatermarkView, low: i64, high: i64)
    requires
        stage.wf(),
        low <= high,
    ensures
        step_in_order(after_watermarks(stage, low, high), stage.request),
{
    law_seek_is_within_offsets(stage, low, high);
    lemma_with_entry_len(
        stage.entries,
        stage.request.topic,
        stage.awaited(),
        stage.seek(low, high),
    );
}

/// Whatever the replies, a fetch keeps in order throughout: every page that it
/// ends with is empty or in order, and every error text may leave the process.
pub proof fn law_fetch_in_order(
    request: RequestView,
    topics: Seq<TopicView>,
    replies: Seq<Reply>,
)
    requires
        request.wf(),
        request.fits(topics),
        forall|i: int|
            0 <= i < replies.len() ==> (#[trigger] replies[i] matches Reply::Watermarks(low, high)
                ==> low <= high),
    ensures
        step_in_order(fetch_run(request, topics, replies), request),
    decreases replies.len(),
{
    if replies.len() > 0 {
        let front = replies.drop_last();
        assert(forall|i: int| 0 <= i < front.len() ==> #[trigger] front[i] == replies[i]);
        law_fetch_in_order(request, topics, front);
        assert(replies[replies.len() - 1] == replies.last());
        match (fetch_run(request, topics, front), replies.last()) {
            (StepView::FetchWatermarks(stage), Reply::Watermarks(low, high)) => {
                lemma_watermarks_in_order(stage, low, high);
            },
            (StepView::Poll(stage), Reply::Polled(event)) => {
                lemma_poll_in_order(stage, event);
            },
            _ => {},
        }
    }
}

// ---- what the steps hold ----------------------------------------------------

/// The views of what a fetch starts from leave out no field and change none.
pub proof fn law_requests_and_topics_hold_their_fields(request: FetchRequest, topic: TopicInfo)
    ensures
        request@.topic == request.topic@,
        request@.partition == request.partition,
        request.from_offset is None <==> request@.from_offset is None,
        request.from_offset matches Some(t) ==> request@.from_offset == Some(t@),
        request@.from_timestamp == request.from_timestamp,
        request@.limit == request.limit,
        topic@.name == topic.name@,
        topic.error is None <==> topic@.error is None,
        topic.error matches Some(e) ==> topic@.error == Some(e@),
        topic@.partitions == topic.partitions@,
{
}

/// The views of stages and pages leave out no field and change none.
pub proof fn law_stages_hold_their_fields(
    watermarks: WatermarkStage,
    polling: PollStage,
    page: MessageFetchResult,
)
    ensures
        watermarks@.request == watermarks.request@,
        watermarks@.partitions == watermarks.partitions@,
        watermarks.seeks is None <==> watermarks@.seeks is None,
        watermarks.seeks matches Some(m) ==> watermarks@.seeks == Some(m@),
        watermarks@.from_offset == watermarks.from_offset,
        watermarks@.next == watermarks.next,
        watermarks@.entries == partition_entries(watermarks.assignment),
        watermarks@.total == watermarks.total,
        polling@.partition == polling.partition,
        polling@.limit == polling.limit,
        polling@.cap == polling.cap,
        polling@.messages.len() == polling.messages@.len(),
        forall|i: int|
            0 <= i < polling.messages@.len() ==> #[trigger] polling@.messages[i]
                == polling.messages@[i]@,
        polling@.last_offset == polling.last_offset,
        polling@.last_partition == polling.last_partition,
        page@.messages.len() == page.messages@.len(),
        forall|i: int|
            0 <= i < page.messages@.len() ==> #[trigger] page@.messages[i] == page.messages@[i]@,
        page@.has_more == page.has_more,
        page.next_offset is None <==> page@.next_offset is None,
        page.next_offset matches Some(t) ==> page@.next_offset == Some(t@),
        page@.next_partition == page.next_partition,
{
}

/// The view of a step says which step it is and leaves out nothing of it.
pub proof fn law_steps_hold_their_stages(step: FetchStep)
    ensures
        match step {
            FetchStep::Done(Ok(page)) => step@ == StepView::Done(page@),
            FetchStep::Done(Err(e)) => step@ == StepView::Failed(e@),
            FetchStep::Release(page) => step@ == StepView::Release(page@),
            FetchStep::ResolveTimestamps(stage, query) => step@ == (StepView::ResolveTimestamps {
                request: stage.request@,
                partitions: stage.partitions@,
                query: partition_entries(query),
            }),
            FetchStep::FetchWatermarks(stage) => step@ == StepView::FetchWatermarks(stage@),
            FetchStep::Assign(stage, list) => step@ == (StepView::Assign {
                request: stage.request@,
                cap: stage.cap as nat,
                entries: partition_entries(list),
            }),
            FetchStep::Poll(stage) => step@ == StepView::Poll(stage@),
        },
{
}

// ---- from the metadata on ---------------------------------------------------

/// Whether the `i`-th of the topics is the first one with a name.
pub open spec fn first_named(topics: Seq<TopicInfo>, name: Seq<char>, i: int) -> bool {
    &&& 0 <= i < topics.len()
    &&& topics[i].name@ == name
    &&& forall|j: int| 0 <= j < i ==> (#[trigger] topics[j]).name@ != name
}

proof fn lemma_first_named(topics: Seq<TopicInfo>, name: Seq<char>, i: int)
    requires
        first_named(topics, name, i),
    ensures
        find_topic(topic_views(topics), name) == Some(topics[i]@),
    decreases i,
{
    let rest = topics.drop_first();
    assert(topic_views(topics).drop_first() =~= topic_views(rest));
    assert(topic_views(topics).first() == topics[0]@);
    if i > 0 {
        assert(topics[0].name@ != name);
        assert forall|j: int| 0 <= j < i - 1 implies (#[trigger] rest[j]).name@ != name by {
            assert(rest[j] == topics[j + 1]);
        }
        assert(rest[i - 1] == topics[i]);
        lemma_first_named(rest, name, i - 1);
    }
}

/// A topic that the reply has an error for fails the fetch, whatever partitions
/// the reply lists for it, none included: it never looks like a topic that is
/// merely empty.
pub proof fn law_topic_with_an_error_fails(
    request: FetchRequest,
    topics: Seq<TopicInfo>,
    i: int,
    error: String,
)
    requires
        first_named(topics, request.topic@, i),
        topics[i].error == Some(error),
    ensures
        after_metadata(request@, topic_views(topics)) == StepView::Failed(
            sanitized("Topic error: "@ + error@),
        ),
        topic_error(topic_views(topics), request.topic@) == Some(
            sanitized("Topic error: "@ + error@),
        ),
{
    lemma_first_named(topics, request.topic@, i);
}

/// A topic that the reply does not have fails the fetch, and the failure names
/// the topic.
pub proof fn law_missing_topic_fails(request: FetchRequest, topics: Seq<TopicInfo>)
    requires
        forall|j: int| 0 <= j < topics.len() ==> (#[trigger] topics[j]).name@ != request.topic@,
    ensures
        after_metadata(request@, topic_views(topics)) == StepView::Failed(
            "Topic not found: "@ + request.topic@,
        ),
        topic_error(topic_views(topics), request.topic@) == Some(
            "Topic not found: "@ + request.topic@,
        ),
{
    lemma_not_named(topics, request.topic@);
}

proof fn lemma_not_named(topics: Seq<TopicInfo>, name: Seq<char>)
    requires
        forall|j: int| 0 <= j < topics.len() ==> (#[trigger] topics[j]).name@ != name,
    ensures
        find_topic(topic_views(topics), name) is None,
    decreases topics.len(),
{
    if topics.len() > 0 {
        let rest = topics.drop_first();
        assert(topic_views(topics).drop_first() =~= topic_views(rest));
        assert(topic_views(topics).first() == topics[0]@);
        assert forall|j: int| 0 <= j < rest.len() implies (#[trigger] rest[j]).name@ != name by {
            assert(rest[j] == topics[j + 1]);
        }
        lemma_not_named(rest, name);
    }
}

/// Whether `chosen` are the wanted ones of `all` in ascending order: each as
/// often as it is there, and no other.
pub open spec fn is_selection(chosen: Seq<i32>, all: Seq<i32>, wanted: Option<i32>) -> bool {
    &&& forall|i: int, j: int| 0 <= i < j < chosen.len() ==> chosen[i] <= chosen[j]
    &&& forall|p: i32|
        #![trigger chosen.to_multiset().count(p)]
        chosen.to_multiset().count(p) == (if wanted is None || wanted == Some(p) {
            all.to_multiset().count(p)
        } else {
            0
        })
}

proof fn lemma_filter_count(numbers: Seq<i32>, w: i32, p: i32)
    ensures
        numbers.filter(|q: i32| q == w).to_multiset().count(p) == (if p == w {
            numbers.to_multiset().count(p)
        } else {
            0
        }),
    decreases numbers.len(),
{
    reveal(Seq::filter);
    let keep = |q: i32| q == w;
    let kept = numbers.filter(keep);
    if numbers.len() > 0 {
        let front = numbers.drop_last();
        lemma_filter_count(front, w, p);
        front.to_multiset_ensures();
        front.filter(keep).to_multiset_ensures();
        assert(numbers =~= front.push(numbers.last()));
        if keep(numbers.last()) {
            assert(kept == front.filter(keep).push(numbers.last()));
        } else {
            assert(kept == front.filter(keep));
        }
    } else {
        assert(kept =~= numbers);
        numbers.to_multiset_ensures();
        assert(numbers.to_multiset().count(p) == 0);
    }
}

proof fn lemma_selected_is_selection(partitions: Seq<i32>, wanted: Option<i32>)
    ensures
        is_selection(selected(partitions, wanted), partitions, wanted),
{
    match wanted {
        Some(w) => {
            lemma_ascending(partitions.filter(|p: i32| p == w));
            assert forall|p: i32|
                #![trigger selected(partitions, wanted).to_multiset().count(p)]
                selected(partitions, wanted).to_multiset().count(p) == (if wanted == Some(p) {
                    partitions.to_multiset().count(p)
                } else {
                    0
                }) by {
                lemma_filter_count(partitions, w, p);
                assert(partitions.filter(|q: i32| q == w) =~= partitions.filter(
                    |p: i32| p == w,
                ));
            }
        },
        None => lemma_ascending(partitions),
    }
    let chosen = selected(partitions, wanted);
    assert forall|i: int, j: int| 0 <= i < j < chosen.len() implies chosen[i] <= chosen[j] by {
        let leq = |a: i32, b: i32| a <= b;
        assert(sorted_by(chosen, leq));
        assert(leq(chosen[i], chosen[j]));
    }
}

/// A topic without an error is fetched from: from the wanted ones of its
/// partitions, in ascending order. Without any of them the page is empty; with a
/// time after the epoch each of them is asked for its offset at that time; and
/// otherwise the first and last offset of the first of them are asked for.
pub proof fn law_sound_topic_is_fetched_from(
    request: FetchRequest,
    topics: Seq<TopicInfo>,
    i: int,
)
    requires
        first_named(topics, request.topic@, i),
        topics[i].error is None,
    ensures
        ({
            let all = topics[i].partitions@;
            let step = after_metadata(request@, topic_views(topics));
            let none = forall|p: i32|
                #![trigger all.contains(p)]
                all.contains(p) ==> request.partition is Some && request.partition != Some(p);
            let timed = request.from_timestamp matches Some(ts) && ts > 0;
            &&& none ==> (step matches StepView::Done(page) && page.messages.len() == 0
                && !page.has_more && page.next_offset is None && page.next_partition is None)
            &&& !none && timed ==> (step matches StepView::ResolveTimestamps {
                request: r,
                partitions,
                query,
            } && r == request@ && is_selection(partitions, all, request.partition)
                && query.len() == partitions.len() && (partitions.no_duplicates() ==> query
                == partitions.map_values(
                |p: i32| (request.topic@, p, PartitionOffset::At(request.from_timestamp->0)),
            )))
            &&& !none && !timed && request.from_offset is None ==> (
            step matches StepView::FetchWatermarks(stage) && stage.request == request@
                && is_selection(stage.partitions, all, request.partition) && stage.seeks is None
                && stage.from_offset is None && stage.next == 0 && stage.entries.len() == 0
                && stage.total == 0)
            &&& !none && !timed ==> exists|partitions: Seq<i32>|
                is_selection(partitions, all, request.partition) && step
                    == #[trigger] watermarks_begin(request@, partitions, None)
        }),
{
    let all = topics[i].partitions@;
    let chosen = selected(all, request.partition);
    lemma_first_named(topics, request.topic@, i);
    lemma_selected_is_selection(all, request.partition);
    chosen.to_multiset_ensures();
    all.to_multiset_ensures();
    if chosen.len() > 0 {
        let p = chosen[0];
        assert(chosen.contains(p));
        assert(chosen.to_multiset().count(p) > 0);
        assert(all.to_multiset().count(p) > 0);
        assert(all.contains(p));
    } else {
        assert forall|p: i32|
            #![trigger all.contains(p)]
            all.contains(p) implies request.partition is Some && request.partition != Some(p) by {
            assert(all.to_multiset().count(p) > 0);
            assert(!chosen.contains(p));
            assert(chosen.to_multiset().count(p) == 0);
        }
    }
    if request.from_timestamp matches Some(ts) && ts > 0 {
        let ts = request.from_timestamp->0;
        law_query_is_as_long_as_asked(request.topic@, chosen, ts);
        if chosen.no_duplicates() {
            law_query_asks_each_partition_once(request.topic@, chosen, ts);
        }
    }
}

// ---- where a stage starts ---------------------------------------------------

/// Where a time is given, fetching starts in every partition at the offset that
/// the partition has for that time, the offset 0 included, brought only within
/// the offsets that there are; a partition without one starts at the end.
pub proof fn law_time_is_heeded(stage: WatermarkStage, low: i64, high: i64)
    requires
        stage.next < stage.partitions@.len(),
        stage.seeks is Some,
        low <= high,
    ensures
        ({
            let partition = stage.partitions@[stage.next as int];
            let offsets = stage.seeks->0@;
            let start = stage@.seek(low, high);
            &&& offsets.contains_key(partition) && offsets[partition] >= 0 ==> {
                &&& low <= offsets[partition] <= high ==> start == offsets[partition]
                &&& offsets[partition] < low ==> start == low
                &&& offsets[partition] > high ==> start == high
            }
            &&& !offsets.contains_key(partition) || offsets[partition] < 0 ==> start == high
        }),
{
}

/// The answer for a time is heeded whatever it is: the last entry with a definite
/// offset for a partition says where fetching starts there, and a partition
/// without such an entry starts at the end.
pub proof fn law_answer_for_a_time_is_heeded(
    request: RequestView,
    partitions: Seq<i32>,
    entries: Seq<PartitionEntry>,
    k: nat,
    low: i64,
    high: i64,
)
    requires
        request.from_offset matches Some(t) ==> is_numeral(t) && numeral_value(t) <= i64::MAX,
        k < partitions.len(),
        low <= high,
    ensures
        watermarks_begin(request, partitions, Some(offsets_by_partition(entries))) matches
            StepView::FetchWatermarks(stage) && {
            let start = (WatermarkView { next: k, ..stage }).seek(low, high);
            &&& stage.request == request
            &&& stage.partitions == partitions
            &&& stage.next == 0
            &&& forall|i: int, offset: i64| #[trigger]
                last_definite(entries, partitions[k as int], i, offset) && low <= offset <= high
                    && offset >= 0 ==> start == offset
            &&& (forall|i: int|
                0 <= i < entries.len() && (#[trigger] entries[i]).1 == partitions[k as int]
                    ==> !(entries[i].2 is At)) ==> start == high
        },
{
    law_last_definite_offset_counts(entries, partitions[k as int]);
}

/// Where no time is given, fetching starts in every partition at the offset that
/// is given, brought only within the offsets that there are, or at the first
/// one.
pub proof fn law_offset_is_heeded(stage: WatermarkStage, low: i64, high: i64)
    requires
        stage.next < stage.partitions@.len(),
        stage.seeks is None,
        low <= high,
    ensures
        stage.from_offset is None ==> stage@.seek(low, high) == low,
        stage.from_offset matches Some(o) ==> {
            &&& low <= o <= high ==> stage@.seek(low, high) == o
            &&& o < low ==> stage@.seek(low, high) == low
            &&& o > high ==> stage@.seek(low, high) == high
        },
{
}

/// A start below zero fails the fetch, and nothing else about the offsets of a
/// partition does.
pub proof fn law_only_negative_starts_fail(stage: WatermarkView, low: i64, high: i64)
    ensures
        stage.seek(low, high) < 0 <==> after_watermarks(stage, low, high) is Failed,
        stage.seek(low, high) < 0 ==> after_watermarks(stage, low, high) == StepView::Failed(
            "Set partition offset error: InvalidArgument (Local: Invalid argument or configuration)"@,
        ),
{
}

/// One partition's offsets say no more than where to start in it: it joins the
/// assignment, its messages join the ones to expect, and everything else about
/// the fetch stays; after the last one, the partitions are assigned, unless
/// there is nothing to expect.
pub proof fn law_one_partition_more(stage: WatermarkView, low: i64, high: i64)
    requires
        stage.wf(),
        low <= high,
        stage.seek(low, high) >= 0,
    ensures
        ({
            let next = after_watermarks(stage, low, high);
            let start = stage.seek(low, high);
            let entries = with_entry(stage.entries, stage.request.topic, stage.awaited(), start);
            let total = stage.total + high - start;
            &&& stage.next + 1 < stage.partitions.len() ==> (
            next matches StepView::FetchWatermarks(after) && after.request == stage.request
                && after.partitions == stage.partitions && after.seeks == stage.seeks
                && after.from_offset == stage.from_offset && after.next == stage.next + 1
                && after.entries == entries && after.total == total)
            &&& stage.next + 1 == stage.partitions.len() && total > 0 ==> (
            next matches StepView::Assign { request, cap, entries: assigned } && request
                == stage.request && assigned == entries && cap <= total && cap
                <= stage.request.limit && (cap == total || cap == stage.request.limit))
            &&& stage.next + 1 == stage.partitions.len() && total == 0 ==> (
            next matches StepView::Done(page) && page.messages.len() == 0 && !page.has_more
                && page.next_offset is None && page.next_partition is None)
        }),
{
}

/// Polling starts with nothing on the page and with what was asked for.
pub proof fn law_polling_starts_empty(request: RequestView, cap: nat)
    ensures
        polling_begins(request, cap) matches StepView::Poll(stage) && stage.partition
            == request.partition && stage.limit == request.limit && stage.cap == cap
            && stage.messages.len() == 0 && stage.last_offset is None && stage.last_partition
            is None,
{
}

/// A poll that brings nothing ends the page with the messages that have come,
/// and one that fails drops the page and hands the error on redacted.
pub proof fn law_silence_keeps_the_page(stage: PollView, raw: String)
    ensures
        after_poll(stage, PollEvent::Idle) matches StepView::Release(page) && page.messages
            == stage.messages,
        after_poll(stage, PollEvent::DeadlinePassed) matches StepView::Release(page)
            && page.messages == stage.messages,
        after_poll(stage, PollEvent::Failed(raw)) == StepView::Failed(sanitized(raw@)),
{
}

/// A message of another partition than the wanted one changes nothing; any other
/// goes to the end of the page, and the page goes on until as many have come as
/// are to be expected.
pub proof fn law_one_message_more(stage: PollView, m: RawMessage)
    ensures
        ({
            let next = after_poll(stage, PollEvent::Message(m));
            let counts = stage.partition is None || stage.partition == Some(m.partition);
            &&& !counts ==> next == StepView::Poll(stage)
            &&& counts && stage.messages.len() + 1 < stage.cap ==> (
            next matches StepView::Poll(after) && after.messages == stage.messages.push(shown(m))
                && after.last_offset == Some(m.offset) && after.last_partition == Some(
                m.partition,
            ) && after.partition == stage.partition && after.limit == stage.limit && after.cap
                == stage.cap)
            &&& counts && stage.messages.len() + 1 >= stage.cap ==> (
            next matches StepView::Release(page) && page.messages == stage.messages.push(shown(m))
                && page.has_more == (stage.messages.len() + 1 >= stage.limit) && page.next_offset
                == (if page.has_more {
                Some(decimal(m.offset + 1))
            } else {
                None
            }) && page.next_partition == (if page.has_more {
                Some(m.partition)
            } else {
                None
            }))
        }),
{
}

/// A stage goes on with everything but what cannot be counted in 64 bits: a last
/// offset before the first, more messages than there are numbers, an offset
/// behind the largest one.
pub proof fn law_only_uncountable_replies_are_left_out(
    watermarks: WatermarkView,
    low: i64,
    high: i64,
    polling: PollView,
    event: PollEvent,
)
    ensures
        watermarks.fits(low, high) <==> low <= high && watermarks.total + (high
            - watermarks.seek(low, high)) <= 0x7fff_ffff_ffff_ffff,
        !(event is Message) ==> polling.fits(event),
        event matches PollEvent::Message(m) ==> (!polling.fits(event) <==> (polling.partition
            is None || polling.partition == Some(m.partition)) && polling.messages.len() + 1
            >= polling.limit && m.offset == 0x7fff_ffff_ffff_ffff),
{
}

/// Before any offsets are asked for, nothing is lost of what is known: the
/// request, the partitions, the offsets at the given time if there is one,
/// whether or not an offset is given too, and that offset; only a text that is
/// no offset fails the fetch.
pub proof fn law_nothing_is_lost_before_watermarks(
    request: RequestView,
    partitions: Seq<i32>,
    seeks: Option<Map<i32, i64>>,
)
    ensures
        ({
            let step = watermarks_begin(request, partitions, seeks);
            let sound = match request.from_offset {
                Some(t) => is_numeral(t) && numeral_value(t) <= 0x7fff_ffff_ffff_ffff,
                None => true,
            };
            &&& !sound ==> step == StepView::Failed("Invalid offset"@)
            &&& sound ==> (step matches StepView::FetchWatermarks(stage) && stage.request
                == request && stage.partitions == partitions && stage.seeks == seeks && stage.next
                == 0 && stage.entries.len() == 0 && stage.total == 0)
            &&& sound && request.from_offset is None ==> step->FetchWatermarks_0.from_offset
                is None
            &&& sound && request.from_offset is Some ==> (
            step->FetchWatermarks_0.from_offset matches Some(o) && o == numeral_value(
                request.from_offset->0,
            ))
        }),
{
}

/// A request goes on with every reply that lists no more than 1073741824
/// partitions to fetch from.
pub proof fn law_request_accepts_what_a_list_holds(
    request: FetchRequest,
    topics: Seq<TopicInfo>,
    i: int,
)
    requires
        first_named(topics, request.topic@, i),
        topics[i].partitions@.len() <= 1_073_741_824,
    ensures
        request@.fits(topic_views(topics)),
{
    let all = topics[i].partitions@;
    lemma_first_named(topics, request.topic@, i);
    match request.partition {
        Some(w) => {
            all.lemma_filter_len(|p: i32| p == w);
            lemma_ascending(all.filter(|p: i32| p == w));
        },
        None => lemma_ascending(all),
    }
}

} // verus!
