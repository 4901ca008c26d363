//! Lists of partitions with offsets, as a consumer takes and gives them.

use rdkafka::topic_partition_list::TopicPartitionList;
use std::collections::HashMap;
use vstd::prelude::*;
use vstd::string::*;

verus! {

/// How many entries a partition list may have. librdkafka keeps the room of a
/// list in an `int` and doubles it when the list is full.
pub const MAX_PARTITIONS: usize = 0x4000_0000;

/// Where in a partition an entry points.
#[derive(Debug, PartialEq, Eq, Clone, Copy, Structural)]
pub enum PartitionOffset {
    /// The first message.
    Beginning,
    /// Behind the last message.
    End,
    /// The stored offset.
    Stored,
    /// Nowhere.
    Invalid,
    /// This very offset.
    At(i64),
    /// So many messages before the end.
    Tail(i64),
}

/// One entry of a list: topic, partition, offset.
pub type PartitionEntry = (Seq<char>, i32, PartitionOffset);

/// The partition list of `rdkafka`.
#[verifier::external_type_specification]
#[verifier::external_body]
pub struct ExTopicPartitionList(TopicPartitionList);

/// The entries of a partition list, in their order.
pub uninterp spec fn partition_entries(list: TopicPartitionList) -> Seq<PartitionEntry>;

/// The index of the first entry for a partition of a topic; the length of the
/// list where there is none.
pub open spec fn first_entry(entries: Seq<PartitionEntry>, topic: Seq<char>, partition: i32) -> int
    decreases entries.len(),
{
    if entries.len() == 0 {
        0
    } else if entries.first().0 == topic && entries.first().1 == partition {
        0
    } else {
        1 + first_entry(entries.drop_first(), topic, partition)
    }
}

/// The entries with one more at the end, and the offset set on the first one
/// that is for the same partition.
pub open spec fn with_entry(
    entries: Seq<PartitionEntry>,
    topic: Seq<char>,
    partition: i32,
    offset: i64,
) -> Seq<PartitionEntry> {
    let longer = entries.push((topic, partition, PartitionOffset::Invalid));
    longer.update(
        first_entry(longer, topic, partition),
        (topic, partition, PartitionOffset::At(offset)),
    )
}

/// What is answered to an offset below zero.
pub open spec fn offset_rejected() -> Seq<char> {
    "Set partition offset error: InvalidArgument (Local: Invalid argument or configuration)"@
}

/// Calls `rdkafka::topic_partition_list::TopicPartitionList::new`. Claimed of
/// it: the list has no entries.
#[verifier::external_body]
pub(crate) fn new_list() -> (r: TopicPartitionList)
    ensures
        partition_entries(r).len() == 0,
{
    TopicPartitionList::new()
}

/// Calls `rdkafka::topic_partition_list::TopicPartitionList::add_partition_offset`
/// with a definite offset. Claimed of it: an entry for the partition goes to the
/// end of the list, and the first entry for that partition gets the offset; an
/// offset below zero is refused with the text of the error, the entry standing
/// without an offset. The call panics on a topic with a zero character in it,
/// and ends the process where twice the room of the list is beyond an `int`.
#[verifier::external_body]
pub(crate) fn add_entry(
    list: &mut TopicPartitionList,
    topic: &str,
    partition: i32,
    offset: i64,
) -> (r: Result<(), String>)
    requires
        !topic@.contains('\0'),
        partition_entries(*old(list)).len() < MAX_PARTITIONS,
    ensures
        r is Ok <==> offset >= 0,
        r is Ok ==> partition_entries(*final(list)) == with_entry(
            partition_entries(*old(list)),
            topic@,
            partition,
            offset,
        ),
        r is Err ==> partition_entries(*final(list)) == partition_entries(*old(list)).push(
            (topic@, partition, PartitionOffset::Invalid),
        ),
        r matches Err(e) ==> e@ == offset_rejected(),
{
    let offset = rdkafka::Offset::Offset(offset);
    match list.add_partition_offset(topic, partition, offset) {
        Ok(()) => Ok(()),
        Err(e) => Err(e.to_string()),
    }
}

/// Calls `rdkafka::topic_partition_list::TopicPartitionList::elements`. Claimed
/// of it: it hands out the entries in their order, here without their topics.
#[verifier::external_body]
fn list_elements(list: &TopicPartitionList) -> (r: Vec<(i32, PartitionOffset)>)
    ensures
        r@ == partition_entries(*list).map_values(|e: PartitionEntry| (e.1, e.2)),
{
    list.elements().iter().map(|e| (e.partition(), match e.offset() {
        rdkafka::Offset::Beginning => PartitionOffset::Beginning,
        rdkafka::Offset::End => PartitionOffset::End,
        rdkafka::Offset::Stored => PartitionOffset::Stored,
        rdkafka::Offset::Invalid => PartitionOffset::Invalid,
        rdkafka::Offset::Offset(o) => PartitionOffset::At(o),
        rdkafka::Offset::OffsetTail(o) => PartitionOffset::Tail(o),
    })).collect()
}

proof fn lemma_first_entry(entries: Seq<PartitionEntry>, topic: Seq<char>, partition: i32)
    ensures
        0 <= first_entry(entries, topic, partition) <= entries.len(),
        forall|i: int|
            0 <= i < first_entry(entries, topic, partition) ==> !((#[trigger] entries[i]).0 == topic
                && entries[i].1 == partition),
        first_entry(entries, topic, partition) < entries.len() ==> entries[first_entry(
            entries,
            topic,
            partition,
        )].0 == topic && entries[first_entry(entries, topic, partition)].1 == partition,
    decreases entries.len(),
{
    if entries.len() > 0 && !(entries.first().0 == topic && entries.first().1 == partition) {
        let rest = entries.drop_first();
        lemma_first_entry(rest, topic, partition);
        assert forall|i: int| 0 <= i < first_entry(entries, topic, partition) implies !((
        #[trigger] entries[i]).0 == topic && entries[i].1 == partition) by {
            if i > 0 {
                assert(rest[i - 1] == entries[i]);
            }
        }
    }
}

/// A partition that the list has no entry for gets one at the end, with the
/// offset, and nothing else changes.
pub proof fn law_new_partition_appended(
    entries: Seq<PartitionEntry>,
    topic: Seq<char>,
    partition: i32,
    offset: i64,
)
    requires
        forall|i: int|
            0 <= i < entries.len() ==> !((#[trigger] entries[i]).0 == topic && entries[i].1
                == partition),
    ensures
        with_entry(entries, topic, partition, offset) == entries.push(
            (topic, partition, PartitionOffset::At(offset)),
        ),
{
    let longer = entries.push((topic, partition, PartitionOffset::Invalid));
    lemma_first_entry(longer, topic, partition);
    let f = first_entry(longer, topic, partition);
    if f < entries.len() {
        assert(longer[f] == entries[f]);
    }
    if f > entries.len() {
        assert(!(longer[entries.len() as int].0 == topic && longer[entries.len() as int].1
            == partition));
    }
    assert(with_entry(entries, topic, partition, offset) =~= entries.push(
        (topic, partition, PartitionOffset::At(offset)),
    ));
}

/// A list gets one entry longer, whether or not the partition has one already.
pub(crate) proof fn lemma_with_entry_len(
    entries: Seq<PartitionEntry>,
    topic: Seq<char>,
    partition: i32,
    offset: i64,
)
    ensures
        with_entry(entries, topic, partition, offset).len() == entries.len() + 1,
{
    let longer = entries.push((topic, partition, PartitionOffset::Invalid));
    lemma_first_entry(longer, topic, partition);
    assert(longer[entries.len() as int].0 == topic);
}

// ---- offsets for a time -----------------------------------------------------

/// The entries of a list in which partitions of a topic are put one after the
/// other, each with the same number in place of the offset.
pub open spec fn query_entries(topic: Seq<char>, partitions: Seq<i32>, number: i64) -> Seq<
    PartitionEntry,
>
    decreases partitions.len(),
{
    if partitions.len() == 0 {
        Seq::empty()
    } else {
        with_entry(
            query_entries(topic, partitions.drop_last(), number),
            topic,
            partitions.last(),
            number,
        )
    }
}

proof fn lemma_query_len(topic: Seq<char>, partitions: Seq<i32>, number: i64)
    ensures
        query_entries(topic, partitions, number).len() == partitions.len(),
    decreases partitions.len(),
{
    if partitions.len() > 0 {
        let front = partitions.drop_last();
        lemma_query_len(topic, front, number);
        lemma_with_entry_len(
            query_entries(topic, front, number),
            topic,
            partitions.last(),
            number,
        );
    }
}

/// The question which offset each partition had at a time: a list that holds
/// the time, in milliseconds since the epoch, in place of the offsets.
pub fn timestamp_query(topic: &str, partitions: &Vec<i32>, ts: i64) -> (r: Result<
    TopicPartitionList,
    String,
>)
    requires
        !topic@.contains('\0'),
        partitions@.len() <= MAX_PARTITIONS,
    ensures
        r is Ok <==> ts >= 0 || partitions@.len() == 0,
        r matches Ok(list) ==> partition_entries(list) == query_entries(topic@, partitions@, ts),
        r matches Err(e) ==> e@ == offset_rejected(),
{
    let mut list: TopicPartitionList = new_list();
    let mut i: usize = 0;
    assert(partition_entries(list) =~= query_entries(topic@, partitions@.take(0), ts));
    while i < partitions.len()
        invariant
            i <= partitions@.len() <= MAX_PARTITIONS,
            !topic@.contains('\0'),
            i > 0 ==> ts >= 0,
            partition_entries(list) == query_entries(topic@, partitions@.take(i as int), ts),
        decreases partitions.len() - i,
    {
        proof {
            lemma_query_len(topic@, partitions@.take(i as int), ts);
            assert(partitions@.take(i + 1).drop_last() =~= partitions@.take(i as int));
        }
        match add_entry(&mut list, topic, partitions[i], ts) {
            Ok(()) => {},
            Err(e) => {
                return Err(e);
            },
        }
        i += 1;
    }
    assert(partitions@.take(partitions@.len() as int) =~= partitions@);
    Ok(list)
}

/// Where no partition stands twice, the question has one entry for each, in
/// their order.
pub proof fn law_query_asks_each_partition_once(topic: Seq<char>, partitions: Seq<i32>, ts: i64)
    requires
        partitions.no_duplicates(),
    ensures
        query_entries(topic, partitions, ts) == partitions.map_values(
            |p: i32| (topic, p, PartitionOffset::At(ts)),
        ),
    decreases partitions.len(),
{
    let expected = partitions.map_values(|p: i32| (topic, p, PartitionOffset::At(ts)));
    if partitions.len() > 0 {
        let front = partitions.drop_last();
        law_query_asks_each_partition_once(topic, front, ts);
        let before = query_entries(topic, front, ts);
        assert forall|i: int| 0 <= i < before.len() implies !((#[trigger] before[i]).0 == topic
            && before[i].1 == partitions.last()) by {
            assert(before[i].1 == front[i]);
            assert(partitions[i] != partitions[partitions.len() - 1]);
        }
        law_new_partition_appended(before, topic, partitions.last(), ts);
        assert(query_entries(topic, partitions, ts) =~= expected);
    } else {
        assert(query_entries(topic, partitions, ts) =~= expected);
    }
}

/// The offsets that a list gives definitely, by partition; of two entries for
/// one partition the later one counts.
pub open spec fn offsets_by_partition(entries: Seq<PartitionEntry>) -> Map<i32, i64>
    decreases entries.len(),
{
    if entries.len() == 0 {
        Map::empty()
    } else {
        let earlier = offsets_by_partition(entries.drop_last());
        match entries.last().2 {
            PartitionOffset::At(o) => earlier.insert(entries.last().1, o),
            _ => earlier,
        }
    }
}

/// Reads the answer to a `timestamp_query`: the offsets that it gives
/// definitely, by partition. A partition without a message at or after the time
/// has none.
pub fn resolved_offsets(list: &TopicPartitionList) -> (r: HashMap<i32, i64>)
    ensures
        r@ == offsets_by_partition(partition_entries(*list)),
{
    broadcast use vstd::std_specs::hash::group_hash_axioms;

    let elements: Vec<(i32, PartitionOffset)> = list_elements(list);
    let ghost entries = partition_entries(*list);
    let mut offsets: HashMap<i32, i64> = HashMap::new();
    let mut i: usize = 0;
    assert(entries.take(0) =~= Seq::empty());
    assert(offsets@ =~= offsets_by_partition(entries.take(0)));
    while i < elements.len()
        invariant
            i <= elements@.len() == entries.len(),
            forall|j: int|
                0 <= j < entries.len() ==> #[trigger] elements@[j] == (entries[j].1, entries[j].2),
            offsets@ == offsets_by_partition(entries.take(i as int)),
        decreases elements.len() - i,
    {
        broadcast use vstd::std_specs::hash::group_hash_axioms;

        proof {
            assert(entries.take(i + 1).drop_last() =~= entries.take(i as int));
            assert(entries.take(i + 1).last() == entries[i as int]);
            assert(elements@[i as int] == (entries[i as int].1, entries[i as int].2));
        }
        match elements[i].1 {
            PartitionOffset::At(o) => {
                offsets.insert(elements[i].0, o);
            },
            _ => {},
        }
        i += 1;
    }
    assert(entries.take(entries.len() as int) =~= entries);
    offsets
}

/// The question has as many entries as there are partitions.
pub proof fn law_query_is_as_long_as_asked(topic: Seq<char>, partitions: Seq<i32>, ts: i64)
    ensures
        query_entries(topic, partitions, ts).len() == partitions.len(),
{
    lemma_query_len(topic, partitions, ts);
}

/// Whether the `i`-th entry is the last one that gives a definite offset for a
/// partition, and gives this one.
pub open spec fn last_definite(
    entries: Seq<PartitionEntry>,
    partition: i32,
    i: int,
    offset: i64,
) -> bool {
    &&& 0 <= i < entries.len()
    &&& entries[i].1 == partition
    &&& entries[i].2 == PartitionOffset::At(offset)
    &&& forall|j: int|
        i < j < entries.len() && (#[trigger] entries[j]).1 == partition ==> !(entries[j].2 is At)
}

/// A partition has an offset exactly if some entry gives it a definite one, zero
/// and negative ones included, and it is the one that the last such entry gives.
pub proof fn law_last_definite_offset_counts(entries: Seq<PartitionEntry>, partition: i32)
    ensures
        offsets_by_partition(entries).contains_key(partition) <==> exists|i: int|
            0 <= i < entries.len() && (#[trigger] entries[i]).1 == partition && entries[i].2 is At,
        forall|i: int, offset: i64| #[trigger]
            last_definite(entries, partition, i, offset) ==> offsets_by_partition(
                entries,
            ).contains_key(partition) && offsets_by_partition(entries)[partition] == offset,
    decreases entries.len(),
{
    if entries.len() > 0 {
        let front = entries.drop_last();
        let last = entries.len() - 1;
        law_last_definite_offset_counts(front, partition);
        assert(entries.last() == entries[last]);
        assert(forall|i: int| 0 <= i < last ==> #[trigger] front[i] == entries[i]);
        if offsets_by_partition(front).contains_key(partition) {
            let i = choose|i: int|
                0 <= i < front.len() && (#[trigger] front[i]).1 == partition && front[i].2 is At;
            assert(entries[i].1 == partition && entries[i].2 is At);
        }
        if exists|i: int|
            0 <= i < entries.len() && (#[trigger] entries[i]).1 == partition && entries[i].2
                is At {
            let i = choose|i: int|
                0 <= i < entries.len() && (#[trigger] entries[i]).1 == partition && entries[i].2
                    is At;
            if i < last {
                assert(front[i].1 == partition && front[i].2 is At);
            }
        }
        assert forall|i: int, offset: i64| #[trigger]
            last_definite(entries, partition, i, offset) implies offsets_by_partition(
            entries,
        ).contains_key(partition) && offsets_by_partition(entries)[partition] == offset by {
            if i < last {
                assert(front[i] == entries[i]);
                assert forall|j: int|
                    i < j < front.len() && (#[trigger] front[j]).1 == partition implies !(
                front[j].2 is At) by {
                    assert(entries[j] == front[j]);
                }
                assert(last_definite(front, partition, i, offset));
            }
        }
    }
}

/// A question that goes to one partition more is the question before it with
/// that partition added, and one that goes to none is empty.
pub proof fn law_query_grows_by_partition(
    topic: Seq<char>,
    partitions: Seq<i32>,
    partition: i32,
    ts: i64,
)
    ensures
        query_entries(topic, Seq::empty(), ts).len() == 0,
        query_entries(topic, partitions.push(partition), ts) == with_entry(
            query_entries(topic, partitions, ts),
            topic,
            partition,
            ts,
        ),
{
    assert(partitions.push(partition).drop_last() =~= partitions);
}

} // verus!
