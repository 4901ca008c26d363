//! Fetching one page of messages, step by step.
//!
//! Each step says what a consumer is to do next. What came of it goes into the
//! `on_..` method of the step, which gives the step that follows:
//!
//! * metadata of the topic is asked for;
//! * where a time is given, the offsets at that time are asked for;
//! * of each partition the first and the last offset are asked for, and with
//!   them it is settled where to start in it;
//! * the partitions are assigned to the consumer;
//! * the consumer is polled until the page is full or nothing comes any more.

use rdkafka::topic_partition_list::TopicPartitionList;
use std::collections::HashMap;
use vstd::prelude::*;
use vstd::relations::{sorted_by, total_ordering};
use vstd::seq_lib::lemma_sorted_unique;
use vstd::string::*;

use crate::message::{
    empty_result, following_offset, next_offset, shown, shown_messages, to_out_message,
    MessageFetchResult, OutMessage, RawMessage, ShownMessage,
};
use crate::partitions::{
    add_entry, lemma_with_entry_len, new_list, offset_rejected, offsets_by_partition,
    partition_entries, query_entries, resolved_offsets, timestamp_query, with_entry, PartitionEntry,
    MAX_PARTITIONS,
};
use crate::redact::{sanitize_error, sanitized};
use crate::request::{is_topic_char, valid_topic, FetchRequest, RequestView};
use crate::text::{decimal, is_numeral, numeral_value, opt_text, parse_numeral};

verus! {

// ---- partitions of the topic ------------------------------------------------

/// What a metadata reply says of one topic.
#[derive(Debug, Clone)]
pub struct TopicInfo {
    /// The name of the topic.
    pub name: String,
    /// What is wrong with it, if anything is.
    pub error: Option<String>,
    /// The ids of its partitions.
    pub partitions: Vec<i32>,
}

/// What a `TopicInfo` holds.
#[verifier::ext_equal]
pub struct TopicView {
    pub name: Seq<char>,
    pub error: Option<Seq<char>>,
    pub partitions: Seq<i32>,
}

impl View for TopicInfo {
    type V = TopicView;

    open spec fn view(&self) -> TopicView {
        TopicView {
            name: self.name@,
            error: opt_text(self.error),
            partitions: self.partitions@,
        }
    }
}

/// What a list of topics holds.
pub open spec fn topic_views(topics: Seq<TopicInfo>) -> Seq<TopicView> {
    topics.map_values(|t: TopicInfo| t@)
}

/// The first of the topics with a name.
pub open spec fn find_topic(topics: Seq<TopicView>, name: Seq<char>) -> Option<TopicView>
    decreases topics.len(),
{
    if topics.len() == 0 {
        None
    } else if topics.first().name == name {
        Some(topics.first())
    } else {
        find_topic(topics.drop_first(), name)
    }
}

/// The partitions in ascending order, all of them or only the wanted one.
pub open spec fn selected(partitions: Seq<i32>, wanted: Option<i32>) -> Seq<i32> {
    match wanted {
        Some(w) => ascending(partitions.filter(|p: i32| p == w)),
        None => ascending(partitions),
    }
}

/// The numbers in ascending order.
pub open spec fn ascending(numbers: Seq<i32>) -> Seq<i32> {
    numbers.sort_by(|a: i32, b: i32| a <= b)
}

/// What is wrong with the topic, if anything is: it is not among those of the
/// reply, or the reply has an error for it.
pub open spec fn topic_error(topics: Seq<TopicView>, topic: Seq<char>) -> Option<Seq<char>> {
    match find_topic(topics, topic) {
        Some(info) => match info.error {
            Some(e) => Some(sanitized("Topic error: "@ + e)),
            None => None,
        },
        None => Some("Topic not found: "@ + topic),
    }
}

/// Calls `sort_unstable` of std on a slice of integers. Claimed of it: the
/// integers are the same ones, each as often as before, and none is followed by
/// a smaller one.
#[verifier::external_body]
fn sort_partitions(partitions: &mut Vec<i32>)
    ensures
        sorted_by(final(partitions)@, |a: i32, b: i32| a <= b),
        final(partitions)@.to_multiset() == old(partitions)@.to_multiset(),
{
    partitions.sort_unstable();
}

fn position_of(topics: &Vec<TopicInfo>, name: &String) -> (r: Option<usize>)
    ensures
        r matches Some(i) ==> i < topics@.len() && find_topic(topic_views(topics@), name@) == Some(
            topics@[i as int]@,
        ),
        r matches Some(i) ==> topics@[i as int].name@ == name@,
        r is None ==> find_topic(topic_views(topics@), name@) is None,
{
    let ghost all = topic_views(topics@);
    let mut i: usize = 0;
    assert(all.skip(0) =~= all);
    while i < topics.len()
        invariant
            i <= topics@.len(),
            all == topic_views(topics@),
            find_topic(all, name@) == find_topic(all.skip(i as int), name@),
        decreases topics.len() - i,
    {
        assert(all.skip(i as int).first() == topics@[i as int]@);
        assert(all.skip(i as int).drop_first() =~= all.skip(i + 1));
        if topics[i].name == *name {
            return Some(i);
        }
        i += 1;
    }
    None
}

fn only_partition(partitions: &Vec<i32>, wanted: i32) -> (r: Vec<i32>)
    ensures
        r@ == partitions@.filter(|p: i32| p == wanted),
{
    let ghost keep = |p: i32| p == wanted;
    let mut kept: Vec<i32> = Vec::new();
    let mut i: usize = 0;
    assert(partitions@.take(0).filter(keep) =~= Seq::<i32>::empty());
    while i < partitions.len()
        invariant
            i <= partitions@.len(),
            keep == (|p: i32| p == wanted),
            kept@ == partitions@.take(i as int).filter(keep),
        decreases partitions.len() - i,
    {
        proof {
            reveal(Seq::filter);
            assert(partitions@.take(i + 1).drop_last() =~= partitions@.take(i as int));
            assert(partitions@.take(i + 1).last() == partitions@[i as int]);
        }
        if partitions[i] == wanted {
            kept.push(partitions[i]);
        }
        i += 1;
    }
    assert(partitions@.take(partitions@.len() as int) =~= partitions@);
    kept
}

/// The partitions to fetch from: those of the topic, or the wanted one of them,
/// in ascending order.
pub fn select_partitions(topics: &Vec<TopicInfo>, topic: &String, wanted: Option<i32>) -> (r:
    Result<Vec<i32>, String>)
    ensures
        r is Ok <==> topic_error(topic_views(topics@), topic@) is None,
        r matches Ok(partitions) ==> {
            &&& find_topic(topic_views(topics@), topic@) matches Some(info)
            &&& partitions@ == selected(info.partitions, wanted)
            &&& exists|i: int|
                0 <= i < topics@.len() && (#[trigger] topics@[i]).name@ == topic@
                    && topics@[i].error is None
        },
        r matches Err(e) ==> topic_error(topic_views(topics@), topic@) == Some(e@),
{
    let i: usize = match position_of(topics, topic) {
        Some(i) => i,
        None => {
            let mut e: String = "Topic not found: ".to_owned();
            e.append(topic.as_str());
            return Err(e);
        },
    };
    match &topics[i].error {
        Some(e) => {
            let mut raw: String = "Topic error: ".to_owned();
            raw.append(e.as_str());
            return Err(sanitize_error(raw.as_str()));
        },
        None => {},
    }
    let mut partitions: Vec<i32> = match wanted {
        Some(w) => only_partition(&topics[i].partitions, w),
        None => topics[i].partitions.clone(),
    };
    let ghost unsorted = partitions@;
    sort_partitions(&mut partitions);
    proof {
        let leq = |a: i32, b: i32| a <= b;
        assert(unsorted =~= (match wanted {
            Some(w) => topics@[i as int].partitions@.filter(|p: i32| p == w),
            None => topics@[i as int].partitions@,
        }));
        assert(total_ordering(leq));
        unsorted.lemma_sort_by_ensures(leq);
        lemma_sorted_unique(partitions@, unsorted.sort_by(leq), leq);
    }
    assert(topics@[i as int].name@ == topic@ && topics@[i as int].error is None);
    Ok(partitions)
}

// ---- where to start ---------------------------------------------------------

/// The offset to start at: none if none is given; otherwise the number that the
/// text denotes, which has to be nothing but digits and no larger than an offset
/// can be.
pub open spec fn start_offset(from_offset: Option<Seq<char>>) -> Result<Option<i64>, Seq<char>> {
    match from_offset {
        Some(s) => if is_numeral(s) && numeral_value(s) <= i64::MAX {
            Ok(Some(numeral_value(s) as i64))
        } else {
            Err("Invalid offset"@)
        },
        None => Ok(None),
    }
}

/// Reads the offset to start at. Signs and anything else but digits are refused,
/// and so is a number beyond the largest offset.
pub fn parse_from_offset(from_offset: &Option<String>) -> (r: Result<Option<i64>, String>)
    ensures
        r is Ok <==> start_offset(opt_text(*from_offset)) is Ok,
        r matches Ok(offset) ==> start_offset(opt_text(*from_offset)) == Ok::<_, Seq<char>>(offset),
        r matches Err(e) ==> start_offset(opt_text(*from_offset)) == Err::<Option<i64>, _>(e@),
{
    match from_offset {
        Some(s) => match parse_numeral(s.as_str()) {
            Some(v) => if v <= i64::MAX as u64 {
                Ok(Some(v as i64))
            } else {
                Err("Invalid offset".to_owned())
            },
            None => Err("Invalid offset".to_owned()),
        },
        None => Ok(None),
    }
}

// ---- what there is to do ----------------------------------------------------

/// What a `MessageFetchResult` holds.
#[verifier::ext_equal]
pub struct PageView {
    pub messages: Seq<ShownMessage>,
    pub has_more: bool,
    pub next_offset: Option<Seq<char>>,
    pub next_partition: Option<i32>,
}

impl View for MessageFetchResult {
    type V = PageView;

    open spec fn view(&self) -> PageView {
        PageView {
            messages: shown_messages(self.messages@),
            has_more: self.has_more,
            next_offset: opt_text(self.next_offset),
            next_partition: self.next_partition,
        }
    }
}

/// A page without messages.
pub open spec fn empty_page() -> PageView {
    PageView { messages: Seq::empty(), has_more: false, next_offset: None, next_partition: None }
}

/// Waiting for the offsets at a time.
#[derive(Debug, Clone)]
pub struct TimestampStage {
    /// What is asked for.
    pub request: FetchRequest,
    /// The partitions to fetch from, in ascending order.
    pub partitions: Vec<i32>,
}

/// Waiting for the first and last offset of a partition.
pub struct WatermarkStage {
    /// What is asked for.
    pub request: FetchRequest,
    /// The partitions to fetch from, in ascending order.
    pub partitions: Vec<i32>,
    /// Where a time is given, the offsets at that time.
    pub seeks: Option<HashMap<i32, i64>>,
    /// The offset to start at, if one is given.
    pub from_offset: Option<i64>,
    /// The index of the partition whose offsets are awaited.
    pub next: usize,
    /// The partitions before it, each with the offset to start at.
    pub assignment: TopicPartitionList,
    /// How many messages those have from there on.
    pub total: i64,
}

/// Waiting for the assignment of the partitions.
#[derive(Debug, Clone)]
pub struct AssignStage {
    /// What is asked for.
    pub request: FetchRequest,
    /// How many messages are to be expected, at most as many as fit on the page.
    pub cap: usize,
}

/// Waiting for messages.
#[derive(Debug)]
pub struct PollStage {
    /// Only messages of this partition count.
    pub partition: Option<i32>,
    /// How many messages fit on the page.
    pub limit: usize,
    /// How many messages are to be expected, at most as many as fit on the page.
    pub cap: usize,
    /// The messages that have come.
    pub messages: Vec<OutMessage>,
    /// The offset of the last one.
    pub last_offset: Option<i64>,
    /// The partition of the last one.
    pub last_partition: Option<i32>,
}

/// What comes of polling a consumer.
#[derive(Debug, Clone)]
pub enum PollEvent {
    /// The time for the whole page was over before the poll.
    DeadlinePassed,
    /// Nothing came for a while.
    Idle,
    /// The client reported an error.
    Failed(String),
    /// A message came.
    Message(RawMessage),
}

/// What there is to do next.
pub enum FetchStep {
    /// Nothing: this is the outcome.
    Done(Result<MessageFetchResult, String>),
    /// Release the partitions from the consumer: this is the outcome.
    Release(MessageFetchResult),
    /// Ask for the offsets at a time, with this list.
    ResolveTimestamps(TimestampStage, TopicPartitionList),
    /// Ask for the first and last offset of the stage's next partition.
    FetchWatermarks(WatermarkStage),
    /// Assign the partitions of this list to the consumer.
    Assign(AssignStage, TopicPartitionList),
    /// Poll the consumer.
    Poll(PollStage),
}

/// What a `WatermarkStage` holds.
#[verifier::ext_equal]
pub struct WatermarkView {
    pub request: RequestView,
    pub partitions: Seq<i32>,
    pub seeks: Option<Map<i32, i64>>,
    pub from_offset: Option<i64>,
    pub next: nat,
    pub entries: Seq<PartitionEntry>,
    pub total: int,
}

/// What a `PollStage` holds.
#[verifier::ext_equal]
pub struct PollView {
    pub partition: Option<i32>,
    pub limit: nat,
    pub cap: nat,
    pub messages: Seq<ShownMessage>,
    pub last_offset: Option<i64>,
    pub last_partition: Option<i32>,
}

/// What a `FetchStep` holds.
#[verifier::ext_equal]
pub enum StepView {
    Failed(Seq<char>),
    Done(PageView),
    Release(PageView),
    ResolveTimestamps {
        request: RequestView,
        partitions: Seq<i32>,
        query: Seq<PartitionEntry>,
    },
    FetchWatermarks(WatermarkView),
    Assign { request: RequestView, cap: nat, entries: Seq<PartitionEntry> },
    Poll(PollView),
}

impl View for WatermarkStage {
    type V = WatermarkView;

    open spec fn view(&self) -> WatermarkView {
        WatermarkView {
            request: self.request@,
            partitions: self.partitions@,
            seeks: match self.seeks {
                Some(offsets) => Some(offsets@),
                None => None,
            },
            from_offset: self.from_offset,
            next: self.next as nat,
            entries: partition_entries(self.assignment),
            total: self.total as int,
        }
    }
}

impl View for PollStage {
    type V = PollView;

    open spec fn view(&self) -> PollView {
        PollView {
            partition: self.partition,
            limit: self.limit as nat,
            cap: self.cap as nat,
            messages: shown_messages(self.messages@),
            last_offset: self.last_offset,
            last_partition: self.last_partition,
        }
    }
}

impl View for FetchStep {
    type V = StepView;

    open spec fn view(&self) -> StepView {
        match *self {
            FetchStep::Done(Ok(page)) => StepView::Done(page@),
            FetchStep::Done(Err(e)) => StepView::Failed(e@),
            FetchStep::Release(page) => StepView::Release(page@),
            FetchStep::ResolveTimestamps(stage, query) => StepView::ResolveTimestamps {
                request: stage.request@,
                partitions: stage.partitions@,
                query: partition_entries(query),
            },
            FetchStep::FetchWatermarks(stage) => StepView::FetchWatermarks(stage@),
            FetchStep::Assign(stage, list) => StepView::Assign {
                request: stage.request@,
                cap: stage.cap as nat,
                entries: partition_entries(list),
            },
            FetchStep::Poll(stage) => StepView::Poll(stage@),
        }
    }
}

/// Whether partitions are ones that can be fetched from: there are some, and no
/// more than a partition list holds.
pub open spec fn fetchable(partitions: Seq<i32>) -> bool {
    0 < partitions.len() <= MAX_PARTITIONS
}

impl WatermarkView {
    /// The stage is one of those that fetching goes through.
    pub open spec fn wf(self) -> bool {
        &&& self.request.wf()
        &&& fetchable(self.partitions)
        &&& self.next < self.partitions.len()
        &&& self.entries.len() == self.next
        &&& self.total >= 0
    }

    /// The partition whose offsets are awaited.
    pub open spec fn awaited(self) -> i32 {
        self.partitions[self.next as int]
    }

    /// Where to start in the awaited partition if it holds the offsets from
    /// `low` up to `high`: at the offset of the given time, or at the end if
    /// nothing is that late; without a time, at the given offset, or at the
    /// first one; in any case within the offsets that there are.
    pub open spec fn seek(self, low: i64, high: i64) -> i64 {
        let aim = match self.seeks {
            Some(offsets) => if offsets.contains_key(self.awaited()) && offsets[self.awaited()]
                >= 0 {
                offsets[self.awaited()]
            } else {
                high
            },
            None => match self.from_offset {
                Some(o) => o,
                None => low,
            },
        };
        if aim < low {
            low
        } else if aim > high {
            high
        } else {
            aim
        }
    }

    /// Whether offsets are ones that a partition can have, and the number of
    /// messages to expect still fits into 64 bits.
    pub open spec fn fits(self, low: i64, high: i64) -> bool {
        &&& low <= high
        &&& self.total + (high - self.seek(low, high)) <= i64::MAX
    }
}

impl PollView {
    /// The stage is one of those that fetching goes through: the page is not
    /// full, it holds messages of the wanted partition only, and the last offset
    /// and partition are those of its last message.
    pub open spec fn wf(self) -> bool {
        &&& self.messages.len() < self.cap <= self.limit
        &&& self.partition matches Some(p) ==> forall|i: int|
            0 <= i < self.messages.len() ==> (#[trigger] self.messages[i]).partition == p
        &&& self.messages.len() == 0 ==> self.last_offset is None && self.last_partition is None
        &&& self.messages.len() > 0 ==> {
            &&& self.last_offset matches Some(o) && self.messages.last().offset == decimal(o as int)
            &&& self.last_partition == Some(self.messages.last().partition)
        }
    }

    /// Whether a message counts.
    pub open spec fn takes(self, m: RawMessage) -> bool {
        self.partition matches Some(p) ==> m.partition == p
    }

    /// The stage with a message more.
    pub open spec fn with_message(self, m: RawMessage) -> PollView {
        PollView {
            messages: self.messages.push(shown(m)),
            last_offset: Some(m.offset),
            last_partition: Some(m.partition),
            ..self
        }
    }

    /// The page that the messages make: it has more behind it if it is full, and
    /// then the next one starts behind the last message.
    pub open spec fn page(self) -> PageView {
        let has_more = self.messages.len() >= self.limit;
        PageView {
            messages: self.messages,
            has_more,
            next_offset: following_offset(has_more, self.last_offset),
            next_partition: if has_more {
                self.last_partition
            } else {
                None
            },
        }
    }

    /// Whether the offset behind the last message is in range, should the page
    /// become full with what comes.
    pub open spec fn fits(self, event: PollEvent) -> bool {
        event matches PollEvent::Message(m) ==> self.takes(m) && self.messages.len() + 1
            >= self.limit ==> m.offset < i64::MAX
    }
}

// ---- which step follows -----------------------------------------------------

/// The step that follows once partitions are settled, and the offsets at the
/// given time, if there is one.
pub open spec fn watermarks_begin(
    request: RequestView,
    partitions: Seq<i32>,
    seeks: Option<Map<i32, i64>>,
) -> StepView {
    match start_offset(request.from_offset) {
        Ok(from_offset) => StepView::FetchWatermarks(
            WatermarkView {
                request,
                partitions,
                seeks,
                from_offset,
                next: 0,
                entries: Seq::empty(),
                total: 0,
            },
        ),
        Err(e) => StepView::Failed(e),
    }
}

/// The step that follows a metadata reply.
pub open spec fn after_metadata(request: RequestView, topics: Seq<TopicView>) -> StepView {
    match topic_error(topics, request.topic) {
        Some(e) => StepView::Failed(e),
        None => {
            let partitions = selected(
                find_topic(topics, request.topic)->0.partitions,
                request.partition,
            );
            if partitions.len() == 0 {
                StepView::Done(empty_page())
            } else if request.from_timestamp is Some && request.from_timestamp->0 > 0 {
                StepView::ResolveTimestamps {
                    request,
                    partitions,
                    query: query_entries(request.topic, partitions, request.from_timestamp->0),
                }
            } else {
                watermarks_begin(request, partitions, None)
            }
        },
    }
}

/// The step that follows the first and last offset of a partition.
pub open spec fn after_watermarks(stage: WatermarkView, low: i64, high: i64) -> StepView {
    let seek = stage.seek(low, high);
    let total = stage.total + (high - seek);
    let entries = with_entry(stage.entries, stage.request.topic, stage.awaited(), seek);
    if seek < 0 {
        StepView::Failed(offset_rejected())
    } else if stage.next + 1 < stage.partitions.len() {
        StepView::FetchWatermarks(
            WatermarkView { next: stage.next + 1, entries, total, ..stage },
        )
    } else if total == 0 {
        StepView::Done(empty_page())
    } else {
        StepView::Assign {
            request: stage.request,
            cap: if total < stage.request.limit {
                total as nat
            } else {
                stage.request.limit
            },
            entries,
        }
    }
}

/// The step that follows the assignment.
pub open spec fn polling_begins(request: RequestView, cap: nat) -> StepView {
    StepView::Poll(
        PollView {
            partition: request.partition,
            limit: request.limit,
            cap,
            messages: Seq::empty(),
            last_offset: None,
            last_partition: None,
        },
    )
}

/// The step that follows a poll.
pub open spec fn after_poll(stage: PollView, event: PollEvent) -> StepView {
    match event {
        PollEvent::DeadlinePassed => StepView::Release(stage.page()),
        PollEvent::Idle => StepView::Release(stage.page()),
        PollEvent::Failed(raw) => StepView::Failed(sanitized(raw@)),
        PollEvent::Message(m) => if !stage.takes(m) {
            StepView::Poll(stage)
        } else if stage.with_message(m).messages.len() < stage.cap {
            StepView::Poll(stage.with_message(m))
        } else {
            StepView::Release(stage.with_message(m).page())
        },
    }
}

proof fn lemma_valid_topic_has_no_zero(topic: Seq<char>)
    requires
        valid_topic(topic),
    ensures
        !topic.contains('\0'),
{
    assert forall|i: int| 0 <= i < topic.len() implies #[trigger] topic[i] != '\0' by {
        assert(is_topic_char(topic[i]));
    }
}

/// Numbers in ascending order are the same numbers, each as often as before.
pub proof fn lemma_ascending(numbers: Seq<i32>)
    ensures
        ascending(numbers).to_multiset() == numbers.to_multiset(),
        ascending(numbers).len() == numbers.len(),
        sorted_by(ascending(numbers), |a: i32, b: i32| a <= b),
{
    let leq = |a: i32, b: i32| a <= b;
    assert(total_ordering(leq));
    numbers.lemma_sort_by_ensures(leq);
    numbers.to_multiset_ensures();
    ascending(numbers).to_multiset_ensures();
}

fn begin_watermarks(
    request: FetchRequest,
    partitions: Vec<i32>,
    seeks: Option<HashMap<i32, i64>>,
) -> (r: FetchStep)
    requires
        request@.wf(),
        fetchable(partitions@),
    ensures
        r@ == watermarks_begin(
            request@,
            partitions@,
            match seeks {
                Some(offsets) => Some(offsets@),
                None => None,
            },
        ),
        r matches FetchStep::FetchWatermarks(stage) ==> stage@.wf(),
{
    match parse_from_offset(&request.from_offset) {
        Ok(from_offset) => {
            let stage = WatermarkStage {
                request,
                partitions,
                seeks,
                from_offset,
                next: 0,
                assignment: new_list(),
                total: 0,
            };
            assert(stage@.entries =~= Seq::empty());
            FetchStep::FetchWatermarks(stage)
        },
        Err(e) => FetchStep::Done(Err(e)),
    }
}

impl RequestView {
    /// Whether the partitions to fetch from are no more than a partition list
    /// holds.
    pub open spec fn fits(self, topics: Seq<TopicView>) -> bool {
        topic_error(topics, self.topic) is None ==> selected(
            find_topic(topics, self.topic)->0.partitions,
            self.partition,
        ).len() <= MAX_PARTITIONS
    }
}

impl FetchRequest {
    /// Whether the request can go on with the metadata of the topic.
    pub fn accepts(&self, topics: &Vec<TopicInfo>) -> (r: bool)
        ensures
            r == self@.fits(topic_views(topics@)),
    {
        match select_partitions(topics, &self.topic, self.partition) {
            Ok(partitions) => partitions.len() <= MAX_PARTITIONS,
            Err(_) => true,
        }
    }

    /// The step that follows the metadata of the topic, or the failure to make a
    /// consumer or to get them.
    pub fn on_metadata(self, reply: Result<Vec<TopicInfo>, String>) -> (r: FetchStep)
        requires
            self@.wf(),
            reply matches Ok(topics) ==> self@.fits(topic_views(topics@)),
        ensures
            reply matches Ok(topics) ==> r@ == after_metadata(self@, topic_views(topics@)),
            reply matches Err(raw) ==> r@ == StepView::Failed(sanitized(raw@)),
            r@.wf(),
    {
        let topics: Vec<TopicInfo> = match reply {
            Ok(topics) => topics,
            Err(raw) => {
                return FetchStep::Done(Err(sanitize_error(raw.as_str())));
            },
        };
        let partitions: Vec<i32> = match select_partitions(&topics, &self.topic, self.partition) {
            Ok(partitions) => partitions,
            Err(e) => {
                return FetchStep::Done(Err(e));
            },
        };
        proof {
            lemma_valid_topic_has_no_zero(self.topic@);
        }
        if partitions.is_empty() {
            return FetchStep::Done(Ok(empty_result()));
        }
        match self.from_timestamp {
            Some(ts) => {
                if ts > 0 {
                    match timestamp_query(self.topic.as_str(), &partitions, ts) {
                        Ok(query) => {
                            return FetchStep::ResolveTimestamps(
                                TimestampStage { request: self, partitions },
                                query,
                            );
                        },
                        Err(e) => {
                            return FetchStep::Done(Err(e));
                        },
                    }
                }
            },
            None => {},
        }
        begin_watermarks(self, partitions, None)
    }
}

impl StepView {
    /// What a step rests on: its stage is one of those that fetching goes
    /// through.
    pub open spec fn wf(self) -> bool {
        match self {
            StepView::ResolveTimestamps { request, partitions, query } => request.wf()
                && fetchable(partitions),
            StepView::FetchWatermarks(stage) => stage.wf(),
            StepView::Assign { request, cap, entries } => request.wf() && 0 < cap
                <= request.limit,
            StepView::Poll(stage) => stage.wf(),
            _ => true,
        }
    }
}

impl TimestampStage {
    /// The step that follows the offsets at the given time, or the failure to
    /// get them.
    pub fn on_offsets(self, reply: Result<TopicPartitionList, String>) -> (r: FetchStep)
        requires
            self.request@.wf(),
            fetchable(self.partitions@),
        ensures
            reply matches Ok(list) ==> r@ == watermarks_begin(
                self.request@,
                self.partitions@,
                Some(offsets_by_partition(partition_entries(list))),
            ),
            reply matches Err(raw) ==> r@ == StepView::Failed(sanitized(raw@)),
            r@.wf(),
    {
        match reply {
            Ok(list) => begin_watermarks(
                self.request,
                self.partitions,
                Some(resolved_offsets(&list)),
            ),
            Err(raw) => FetchStep::Done(Err(sanitize_error(raw.as_str()))),
        }
    }
}

impl WatermarkStage {
    /// The partition whose offsets are awaited.
    pub fn next_partition(&self) -> (r: i32)
        requires
            self@.wf(),
        ensures
            r == self@.awaited(),
            r == self.partitions@[self.next as int],
    {
        self.partitions[self.next]
    }

    fn seek_offset(&self, low: i64, high: i64) -> (r: i64)
        requires
            self@.wf(),
        ensures
            r == self@.seek(low, high),
    {
        broadcast use vstd::std_specs::hash::group_hash_axioms;

        let partition: i32 = self.next_partition();
        let aim: i64 = match &self.seeks {
            Some(offsets) => match offsets.get(&partition) {
                Some(o) => if *o >= 0 {
                    *o
                } else {
                    high
                },
                None => high,
            },
            None => match self.from_offset {
                Some(o) => o,
                None => low,
            },
        };
        if aim < low {
            low
        } else if aim > high {
            high
        } else {
            aim
        }
    }

    /// Whether the first and last offset of the awaited partition are ones that
    /// the stage can go on with.
    pub fn accepts(&self, low: i64, high: i64) -> (r: bool)
        requires
            self@.wf(),
        ensures
            r == self@.fits(low, high),
    {
        if low > high {
            return false;
        }
        let seek: i64 = self.seek_offset(low, high);
        (self.total as i128) + ((high as i128) - (seek as i128)) <= i64::MAX as i128
    }

    /// The step that follows the first and last offset of the awaited partition,
    /// or the failure to get them.
    pub fn on_watermarks(self, reply: Result<(i64, i64), String>) -> (r: FetchStep)
        requires
            self@.wf(),
            reply matches Ok(marks) ==> self@.fits(marks.0, marks.1),
        ensures
            reply matches Ok(marks) ==> r@ == after_watermarks(self@, marks.0, marks.1),
            reply matches Err(raw) ==> r@ == StepView::Failed(sanitized(raw@)),
            r@.wf(),
    {
        let (low, high) = match reply {
            Ok(marks) => marks,
            Err(raw) => {
                return FetchStep::Done(Err(sanitize_error(raw.as_str())));
            },
        };
        let seek: i64 = self.seek_offset(low, high);
        let partition: i32 = self.next_partition();
        let ghost before = self@;
        proof {
            lemma_valid_topic_has_no_zero(self.request.topic@);
            lemma_with_entry_len(before.entries, self.request.topic@, partition, seek);
        }
        let total: i64 = self.total + (high - seek);
        let WatermarkStage { request, partitions, seeks, from_offset, next, assignment, .. } = self;
        let mut assignment: TopicPartitionList = assignment;
        match add_entry(&mut assignment, request.topic.as_str(), partition, seek) {
            Ok(()) => {},
            Err(e) => {
                return FetchStep::Done(Err(e));
            },
        }
        if next + 1 < partitions.len() {
            return FetchStep::FetchWatermarks(
                WatermarkStage {
                    request,
                    partitions,
                    seeks,
                    from_offset,
                    next: next + 1,
                    assignment,
                    total,
                },
            );
        }
        if total == 0 {
            return FetchStep::Done(Ok(empty_result()));
        }
        let cap: usize = if (total as u64) < (request.limit as u64) {
            total as usize
        } else {
            request.limit
        };
        FetchStep::Assign(AssignStage { request, cap }, assignment)
    }
}

impl AssignStage {
    /// The step that follows the assignment of the partitions, or its failure.
    pub fn on_assigned(self, reply: Result<(), String>) -> (r: FetchStep)
        requires
            0 < self.cap <= self.request.limit,
        ensures
            reply is Ok ==> r@ == polling_begins(self.request@, self.cap as nat),
            reply matches Err(raw) ==> r@ == StepView::Failed(sanitized(raw@)),
            r@.wf(),
    {
        match reply {
            Ok(()) => {
                let stage = PollStage {
                    partition: self.request.partition,
                    limit: self.request.limit,
                    cap: self.cap,
                    messages: Vec::new(),
                    last_offset: None,
                    last_partition: None,
                };
                assert(stage@.messages =~= Seq::empty());
                FetchStep::Poll(stage)
            },
            Err(raw) => FetchStep::Done(Err(sanitize_error(raw.as_str()))),
        }
    }
}

impl PollStage {
    fn counts(&self, m: &RawMessage) -> (r: bool)
        ensures
            r == self@.takes(*m),
    {
        match self.partition {
            Some(p) => m.partition == p,
            None => true,
        }
    }

    /// Whether the stage can go on with what came of the poll.
    pub fn accepts(&self, event: &PollEvent) -> (r: bool)
        requires
            self@.wf(),
        ensures
            r == self@.fits(*event),
    {
        match event {
            PollEvent::Message(m) => {
                !self.counts(m) || self.messages.len() + 1 < self.limit || m.offset < i64::MAX
            },
            _ => true,
        }
    }

    fn into_page(self) -> (r: MessageFetchResult)
        requires
            self@.messages.len() >= self@.limit && self.last_offset is Some ==> self.last_offset->0
                < i64::MAX,
        ensures
            r@ == self@.page(),
    {
        let has_more: bool = self.messages.len() >= self.limit;
        MessageFetchResult {
            next_offset: next_offset(has_more, self.last_offset),
            next_partition: if has_more {
                self.last_partition
            } else {
                None
            },
            has_more,
            messages: self.messages,
        }
    }

    /// The step that follows a poll.
    pub fn on_poll(self, event: PollEvent) -> (r: FetchStep)
        requires
            self@.wf(),
            self@.fits(event),
        ensures
            r@ == after_poll(self@, event),
            r@.wf(),
    {
        match event {
            PollEvent::DeadlinePassed => FetchStep::Release(self.into_page()),
            PollEvent::Idle => FetchStep::Release(self.into_page()),
            PollEvent::Failed(raw) => FetchStep::Done(Err(sanitize_error(raw.as_str()))),
            PollEvent::Message(m) => {
                if !self.counts(&m) {
                    return FetchStep::Poll(self);
                }
                let ghost before = self@;
                let PollStage { partition, limit, cap, messages, .. } = self;
                let mut messages: Vec<OutMessage> = messages;
                messages.push(to_out_message(&m));
                let stage = PollStage {
                    partition,
                    limit,
                    cap,
                    messages,
                    last_offset: Some(m.offset),
                    last_partition: Some(m.partition),
                };
                assert(stage@.messages =~= before.with_message(m).messages);
                assert(stage@ == before.with_message(m));
                if stage.messages.len() < cap {
                    FetchStep::Poll(stage)
                } else {
                    FetchStep::Release(stage.into_page())
                }
            },
        }
    }
}

} // verus!
