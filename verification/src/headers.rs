//! Message headers: repeated keys are gathered under one entry.

use vstd::prelude::*;
use vstd::string::*;

use crate::text::{comma_join, comma_joined, texts, truncate, truncated};

verus! {

/// No header value is longer than this many characters, the marker apart.
pub const MAX_HEADER_VALUE_SIZE: usize = 10_240;

/// Key and value of each header, as plain text.
pub open spec fn pair_texts(pairs: Seq<(String, String)>) -> Seq<(Seq<char>, Seq<char>)> {
    pairs.map_values(|p: (String, String)| (p.0@, p.1@))
}

/// The values that stand under a key, in the order of the headers.
pub open spec fn values_for(pairs: Seq<(Seq<char>, Seq<char>)>, key: Seq<char>) -> Seq<Seq<char>>
    decreases pairs.len(),
{
    if pairs.len() == 0 {
        Seq::empty()
    } else {
        let earlier = values_for(pairs.drop_last(), key);
        if pairs.last().0 == key {
            earlier.push(pairs.last().1)
        } else {
            earlier
        }
    }
}

/// Every key with its values, joined by commas and then truncated.
pub open spec fn joined_headers(pairs: Seq<(Seq<char>, Seq<char>)>) -> Map<Seq<char>, Seq<char>> {
    Map::new(
        |key: Seq<char>| values_for(pairs, key).len() > 0,
        |key: Seq<char>|
            truncated(comma_joined(values_for(pairs, key)), MAX_HEADER_VALUE_SIZE as nat),
    )
}

/// Header values by key.
#[derive(Debug)]
pub struct HeaderMap {
    entries: Vec<(String, String)>,
}

impl View for HeaderMap {
    type V = Map<Seq<char>, Seq<char>>;

    closed spec fn view(&self) -> Map<Seq<char>, Seq<char>> {
        Map::new(
            |key: Seq<char>|
                exists|i: int|
                    0 <= i < self.entries@.len() && (#[trigger] self.entries@[i]).0@ == key,
            |key: Seq<char>|
                {
                    let i = choose|i: int|
                        0 <= i < self.entries@.len() && (#[trigger] self.entries@[i]).0@ == key;
                    self.entries@[i].1@
                },
        )
    }
}

impl HeaderMap {
    /// No key stands twice.
    #[verifier::type_invariant]
    spec fn keys_differ(self) -> bool {
        distinct_keys(self.entries@)
    }

    /// The value under a key.
    pub fn get(&self, key: &str) -> (r: Option<&String>)
        ensures
            r is Some <==> self@.contains_key(key@),
            r matches Some(value) ==> value@ == self@[key@],
    {
        proof {
            use_type_invariant(self);
        }
        let wanted: String = key.to_owned();
        let mut i: usize = 0;
        while i < self.entries.len()
            invariant
                i <= self.entries@.len(),
                wanted@ == key@,
                distinct_keys(self.entries@),
                forall|j: int| 0 <= j < i ==> (#[trigger] self.entries@[j]).0@ != key@,
            decreases self.entries.len() - i,
        {
            if self.entries[i].0 == wanted {
                assert(self.entries@[i as int].0@ == key@);
                return Some(&self.entries[i].1);
            }
            i += 1;
        }
        None
    }

    /// All entries, each key once.
    pub fn entries(&self) -> (r: &Vec<(String, String)>)
        ensures
            distinct_keys(r@),
            forall|i: int|
                0 <= i < r@.len() ==> self@.contains_key((#[trigger] r@[i]).0@)
                    && self@[r@[i].0@] == r@[i].1@,
            forall|key: Seq<char>| #[trigger]
                self@.contains_key(key) ==> exists|i: int|
                    0 <= i < r@.len() && (#[trigger] r@[i]).0@ == key,
    {
        proof {
            use_type_invariant(self);
        }
        &self.entries
    }
}

/// Whether no key stands twice among the entries.
pub open spec fn distinct_keys(entries: Seq<(String, String)>) -> bool {
    forall|i: int, j: int|
        0 <= i < j < entries.len() ==> (#[trigger] entries[i]).0@ != (#[trigger] entries[j]).0@
}

/// The headers seen so far, gathered: each key once, with all its values.
spec fn gathered(groups: Seq<(String, Vec<String>)>, pairs: Seq<(Seq<char>, Seq<char>)>) -> bool {
    &&& forall|i: int, j: int|
        0 <= i < j < groups.len() ==> (#[trigger] groups[i]).0@ != (#[trigger] groups[j]).0@
    &&& forall|i: int|
        0 <= i < groups.len() ==> texts((#[trigger] groups[i]).1@) == values_for(
            pairs,
            groups[i].0@,
        ) && groups[i].1@.len() > 0
    &&& forall|key: Seq<char>|
        (#[trigger] values_for(pairs, key)).len() > 0 ==> exists|i: int|
            0 <= i < groups.len() && (#[trigger] groups[i]).0@ == key
}

/// One header more: its value has gone behind the values of its key, and no
/// other group has changed.
proof fn lemma_gathered_one_more(
    before: Seq<(String, Vec<String>)>,
    after: Seq<(String, Vec<String>)>,
    seen: Seq<(Seq<char>, Seq<char>)>,
)
    requires
        seen.len() > 0,
        gathered(before, seen.drop_last()),
        ({
            ||| exists|i: int| #[trigger] extends_group(before, after, i, seen.last())
            ||| opens_group(before, after, seen.last())
        }),
    ensures
        gathered(after, seen),
{
    let (key, value) = seen.last();
    let earlier = seen.drop_last();
    assert forall|other: Seq<char>| (#[trigger] values_for(seen, other)) == (if other == key {
        values_for(earlier, other).push(value)
    } else {
        values_for(earlier, other)
    }) by {}
    if opens_group(before, after, seen.last()) {
        let last = after.len() - 1;
        assert(values_for(earlier, key).len() == 0);
        assert forall|i: int| 0 <= i < last implies #[trigger] after[i] == before[i] by {
            assert(after.drop_last()[i] == after[i]);
        }
        assert(texts(after[last].1@) =~= values_for(seen, key));
        assert forall|i: int| 0 <= i < after.len() implies texts((#[trigger] after[i]).1@)
            == values_for(seen, after[i].0@) && after[i].1@.len() > 0 by {
            if i < last {
                assert(after[i] == before[i]);
            }
        }
        assert forall|other: Seq<char>|
            (#[trigger] values_for(seen, other)).len() > 0 implies exists|i: int|
            0 <= i < after.len() && (#[trigger] after[i]).0@ == other by {
            if other == key {
                assert(after[last].0@ == key);
            } else {
                assert(values_for(earlier, other).len() > 0);
                let i = choose|i: int| 0 <= i < before.len() && (#[trigger] before[i]).0@ == other;
                assert(after[i].0@ == other);
            }
        }
    } else {
        let g = choose|g: int| #[trigger] extends_group(before, after, g, seen.last());
        assert(texts(after[g].1@) =~= texts(before[g].1@).push(value));
        assert forall|i: int| 0 <= i < after.len() implies texts((#[trigger] after[i]).1@)
            == values_for(seen, after[i].0@) && after[i].1@.len() > 0 by {
            if i != g {
                assert(after[i] == before[i]);
                assert(before[i].0@ != before[g].0@);
            }
        }
        assert forall|other: Seq<char>|
            (#[trigger] values_for(seen, other)).len() > 0 implies exists|i: int|
            0 <= i < after.len() && (#[trigger] after[i]).0@ == other by {
            if other == key {
                assert(after[g].0@ == key);
            } else {
                assert(values_for(earlier, other).len() > 0);
                let i = choose|i: int| 0 <= i < before.len() && (#[trigger] before[i]).0@ == other;
                assert(after[i].0@ == other);
            }
        }
    }
}

/// `after` has the header's value at the end of group `i`, which has its key.
spec fn extends_group(
    before: Seq<(String, Vec<String>)>,
    after: Seq<(String, Vec<String>)>,
    i: int,
    header: (Seq<char>, Seq<char>),
) -> bool {
    &&& 0 <= i < before.len()
    &&& after.len() == before.len()
    &&& before[i].0@ == header.0
    &&& after[i].0 == before[i].0
    &&& texts(after[i].1@) == texts(before[i].1@).push(header.1)
    &&& forall|j: int| 0 <= j < before.len() && j != i ==> #[trigger] after[j] == before[j]
}

/// `after` has one group more, for a header whose key had none.
spec fn opens_group(
    before: Seq<(String, Vec<String>)>,
    after: Seq<(String, Vec<String>)>,
    header: (Seq<char>, Seq<char>),
) -> bool {
    &&& after.len() == before.len() + 1
    &&& after.drop_last() == before
    &&& after.last().0@ == header.0
    &&& texts(after.last().1@) == seq![header.1]
    &&& forall|j: int| 0 <= j < before.len() ==> (#[trigger] before[j]).0@ != header.0
}

fn find_group(groups: &Vec<(String, Vec<String>)>, key: &String) -> (r: Option<usize>)
    ensures
        r matches Some(i) ==> i < groups@.len() && groups@[i as int].0@ == key@,
        r is None ==> forall|i: int| 0 <= i < groups@.len() ==> (#[trigger] groups@[i]).0@ != key@,
{
    let mut i: usize = 0;
    while i < groups.len()
        invariant
            i <= groups@.len(),
            forall|j: int| 0 <= j < i ==> (#[trigger] groups@[j]).0@ != key@,
        decreases groups.len() - i,
    {
        if groups[i].0 == *key {
            return Some(i);
        }
        i += 1;
    }
    None
}

/// Gathers headers by key: the values under a repeated key are joined by commas
/// in their order, and the joined value is truncated.
pub fn join_headers(pairs: Vec<(String, String)>) -> (r: HeaderMap)
    ensures
        r@ == joined_headers(pair_texts(pairs@)),
{
    let ghost all = pair_texts(pairs@);
    let ghost source = pairs@;
    let mut groups: Vec<(String, Vec<String>)> = Vec::new();
    for pair in it: pairs
        invariant
            all == pair_texts(source),
            it.seq() == source,
            gathered(groups@, all.take(it.index())),
    {
        let ghost k = it.index();
        let ghost before = groups@;
        let (key, value) = pair;
        proof {
            assert(all[k] == (key@, value@));
            assert(all.take(k + 1).drop_last() =~= all.take(k));
            assert(all.take(k + 1).last() == (key@, value@));
        }
        match find_group(&groups, &key) {
            Some(i) => {
                groups[i].1.push(value);
                proof {
                    assert(texts(groups@[i as int].1@) =~= texts(before[i as int].1@).push(value@));
                    assert(extends_group(before, groups@, i as int, (key@, value@)));
                }
            },
            None => {
                let mut values: Vec<String> = Vec::new();
                values.push(value);
                groups.push((key, values));
                proof {
                    assert(groups@.drop_last() =~= before);
                    assert(texts(groups@.last().1@) =~= seq![value@]);
                    assert(opens_group(before, groups@, (key@, value@)));
                }
            },
        }
        proof {
            lemma_gathered_one_more(before, groups@, all.take(k + 1));
        }
    }
    assert(all.take(all.len() as int) =~= all);
    let mut entries: Vec<(String, String)> = Vec::new();
    let mut i: usize = 0;
    while i < groups.len()
        invariant
            i <= groups@.len(),
            gathered(groups@, all),
            entries@.len() == i,
            forall|j: int|
                0 <= j < i ==> (#[trigger] entries@[j]).0@ == groups@[j].0@ && entries@[j].1@
                    == joined_headers(all)[groups@[j].0@],
        decreases groups.len() - i,
    {
        let joined: String = comma_join(&groups[i].1);
        let value: Option<String> = truncate(Some(joined.as_str()), MAX_HEADER_VALUE_SIZE);
        assert(values_for(all, groups@[i as int].0@).len() > 0);
        entries.push((groups[i].0.clone(), value.unwrap_or_default()));
        i += 1;
    }
    assert(distinct_keys(entries@)) by {
        assert forall|a: int, b: int| 0 <= a < b < entries@.len() implies (
        #[trigger] entries@[a]).0@ != (#[trigger] entries@[b]).0@ by {
            assert(groups@[a].0@ != groups@[b].0@);
        }
    }
    let result = HeaderMap { entries };
    proof {
        let expected = joined_headers(all);
        assert forall|key: Seq<char>| result@.contains_key(key) == expected.contains_key(key) by {
            if result@.contains_key(key) {
                let j = choose|j: int|
                    0 <= j < result.entries@.len() && (#[trigger] result.entries@[j]).0@ == key;
                assert(groups@[j].0@ == key);
            }
            if expected.contains_key(key) {
                assert(values_for(all, key).len() > 0);
                let j = choose|j: int| 0 <= j < groups@.len() && (#[trigger] groups@[j]).0@ == key;
                assert(result.entries@[j].0@ == key);
            }
        }
        assert forall|key: Seq<char>| result@.contains_key(key) implies result@[key]
            == expected[key] by {
            let j = choose|j: int|
                0 <= j < result.entries@.len() && (#[trigger] result.entries@[j]).0@ == key;
            assert(groups@[j].0@ == key);
        }
        assert(result@ =~= expected);
    }
    result
}

/// No header is dropped, however often its key is repeated: its key has an
/// entry, and its value is one of those that are joined there.
pub proof fn law_no_header_dropped(pairs: Seq<(Seq<char>, Seq<char>)>, i: int)
    requires
        0 <= i < pairs.len(),
    ensures
        joined_headers(pairs).contains_key(pairs[i].0),
        values_for(pairs, pairs[i].0).contains(pairs[i].1),
    decreases pairs.len(),
{
    let (key, value) = pairs[i];
    let values = values_for(pairs, key);
    let earlier = values_for(pairs.drop_last(), key);
    if i == pairs.len() - 1 {
        assert(values == earlier.push(value));
        assert(values.last() == value);
    } else {
        assert(pairs.drop_last()[i] == pairs[i]);
        law_no_header_dropped(pairs.drop_last(), i);
        let k = choose|k: int| 0 <= k < earlier.len() && earlier[k] == value;
        assert(values[k] == value);
    }
}

/// No entry is made up: a value that is joined under a key came with that key.
pub proof fn law_no_header_invented(
    pairs: Seq<(Seq<char>, Seq<char>)>,
    key: Seq<char>,
    value: Seq<char>,
)
    requires
        values_for(pairs, key).contains(value),
    ensures
        exists|i: int| 0 <= i < pairs.len() && #[trigger] pairs[i] == (key, value),
    decreases pairs.len(),
{
    let values = values_for(pairs, key);
    if pairs.len() > 0 {
        let earlier = values_for(pairs.drop_last(), key);
        if pairs.last() == (key, value) {
            assert(pairs[pairs.len() - 1] == (key, value));
        } else {
            let k = choose|k: int| 0 <= k < values.len() && values[k] == value;
            assert(k < earlier.len() && earlier[k] == value);
            law_no_header_invented(pairs.drop_last(), key, value);
            let i = choose|i: int|
                0 <= i < pairs.len() - 1 && #[trigger] pairs.drop_last()[i] == (key, value);
            assert(pairs[i] == (key, value));
        }
    }
}

/// A key that no other header has keeps its value, cut only if it is too long.
pub proof fn law_single_header_kept(pairs: Seq<(Seq<char>, Seq<char>)>, i: int)
    requires
        0 <= i < pairs.len(),
        forall|j: int| 0 <= j < pairs.len() && j != i ==> (#[trigger] pairs[j]).0 != pairs[i].0,
    ensures
        joined_headers(pairs).contains_key(pairs[i].0),
        joined_headers(pairs)[pairs[i].0] == truncated(
            pairs[i].1,
            MAX_HEADER_VALUE_SIZE as nat,
        ),
{
    lemma_values_of_single(pairs, i);
    assert(comma_joined(values_for(pairs, pairs[i].0)) == pairs[i].1);
}

proof fn lemma_values_of_absent(pairs: Seq<(Seq<char>, Seq<char>)>, key: Seq<char>)
    requires
        forall|j: int| 0 <= j < pairs.len() ==> (#[trigger] pairs[j]).0 != key,
    ensures
        values_for(pairs, key).len() == 0,
    decreases pairs.len(),
{
    if pairs.len() > 0 {
        assert(pairs[pairs.len() - 1].0 != key);
        assert forall|j: int| 0 <= j < pairs.len() - 1 implies (
        #[trigger] pairs.drop_last()[j]).0 != key by {
            assert(pairs.drop_last()[j] == pairs[j]);
        }
        lemma_values_of_absent(pairs.drop_last(), key);
    }
}

proof fn lemma_values_of_single(pairs: Seq<(Seq<char>, Seq<char>)>, i: int)
    requires
        0 <= i < pairs.len(),
        forall|j: int| 0 <= j < pairs.len() && j != i ==> (#[trigger] pairs[j]).0 != pairs[i].0,
    ensures
        values_for(pairs, pairs[i].0) == seq![pairs[i].1],
    decreases pairs.len(),
{
    let front = pairs.drop_last();
    assert(forall|j: int| 0 <= j < front.len() ==> #[trigger] front[j] == pairs[j]);
    if i == pairs.len() - 1 {
        lemma_values_of_absent(front, pairs[i].0);
        assert(values_for(pairs, pairs[i].0) =~= seq![pairs[i].1]);
    } else {
        assert(pairs[pairs.len() - 1].0 != pairs[i].0);
        assert(front[i] == pairs[i]);
        lemma_values_of_single(front, i);
    }
}

proof fn lemma_values_are_filtered(pairs: Seq<(Seq<char>, Seq<char>)>, key: Seq<char>)
    ensures
        values_for(pairs, key) == pairs.filter(
            |p: (Seq<char>, Seq<char>)| p.0 == key,
        ).map_values(|p: (Seq<char>, Seq<char>)| p.1),
    decreases pairs.len(),
{
    reveal(Seq::filter);
    let has_key = |p: (Seq<char>, Seq<char>)| p.0 == key;
    let value = |p: (Seq<char>, Seq<char>)| p.1;
    if pairs.len() > 0 {
        lemma_values_are_filtered(pairs.drop_last(), key);
    }
    assert(values_for(pairs, key) =~= pairs.filter(has_key).map_values(value));
}

/// There is an entry for exactly the keys that a header has, and it holds the
/// values of just the headers with that key, in their order, with commas between
/// them, cut only beyond 10240 characters.
pub proof fn law_entry_holds_the_values_of_its_key(
    pairs: Seq<(Seq<char>, Seq<char>)>,
    key: Seq<char>,
)
    ensures
        ({
            let values = pairs.filter(|p: (Seq<char>, Seq<char>)| p.0 == key).map_values(
                |p: (Seq<char>, Seq<char>)| p.1,
            );
            let joined = comma_joined(values);
            &&& joined_headers(pairs).contains_key(key) <==> exists|i: int|
                0 <= i < pairs.len() && (#[trigger] pairs[i]).0 == key
            &&& joined_headers(pairs).contains_key(key) && joined.len() <= 10_240
                ==> joined_headers(pairs)[key] == joined
            &&& joined_headers(pairs).contains_key(key) && joined.len() > 10_240
                ==> joined_headers(pairs)[key] == joined.take(10_240) + "\n...[truncated]"@
        }),
{
    lemma_values_are_filtered(pairs, key);
    if joined_headers(pairs).contains_key(key) {
        let value = values_for(pairs, key)[0];
        assert(values_for(pairs, key).contains(value));
        law_no_header_invented(pairs, key, value);
        let i = choose|i: int| 0 <= i < pairs.len() && #[trigger] pairs[i] == (key, value);
        assert(pairs[i].0 == key);
    }
    if exists|i: int| 0 <= i < pairs.len() && (#[trigger] pairs[i]).0 == key {
        let i = choose|i: int| 0 <= i < pairs.len() && (#[trigger] pairs[i]).0 == key;
        law_no_header_dropped(pairs, i);
    }
}

/// The text of headers is that of each header, in their order.
pub proof fn law_contents_of_headers(pairs: Seq<(String, String)>)
    ensures
        pair_texts(pairs).len() == pairs.len(),
        forall|i: int|
            0 <= i < pairs.len() ==> #[trigger] pair_texts(pairs)[i] == (pairs[i].0@, pairs[i].1@),
{
}

} // verus!
