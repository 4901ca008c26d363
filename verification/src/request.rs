//! Requests: which topics there are, and which messages are asked for.

use rdkafka::config::ClientConfig;
use vstd::prelude::*;
use vstd::relations::{sorted_by, total_ordering};
use vstd::seq_lib::lemma_sorted_unique;
use vstd::string::*;

use crate::config::config_entries;
use crate::redact::{sanitize_error, sanitized};
use crate::state::{get_config, AppState};
use crate::text::{opt_text, texts};

verus! {

/// The longest name that a topic may have.
pub const TOPIC_NAME_MAX: usize = 249;

/// The size of a page for which none was asked.
pub const DEFAULT_LIMIT: usize = 100;

/// The largest size of a page.
pub const MAX_LIMIT: usize = 10_000;

// ---- topics -----------------------------------------------------------------

/// Whether one text comes before another or is equal to it, code point by code
/// point.
pub open spec fn text_le(a: Seq<char>, b: Seq<char>) -> bool
    decreases a.len(),
{
    if a.len() == 0 {
        true
    } else if b.len() == 0 {
        false
    } else if a.first() == b.first() {
        text_le(a.drop_first(), b.drop_first())
    } else {
        a.first() < b.first()
    }
}

/// The order in which topics are listed.
pub open spec fn topic_order() -> spec_fn(Seq<char>, Seq<char>) -> bool {
    |a: Seq<char>, b: Seq<char>| text_le(a, b)
}

/// Calls `sort` of std on a slice of strings. Claimed of it: the strings are the
/// same ones, each as often as before, and stand in the order of their code
/// points.
#[verifier::external_body]
fn sort_texts(list: &mut Vec<String>)
    ensures
        sorted_by(texts(final(list)@), topic_order()),
        texts(final(list)@).to_multiset() == texts(old(list)@).to_multiset(),
{
    list.sort();
}

/// The names of all topics, in order; an error of the client is handed on
/// redacted.
pub fn topic_list(reply: Result<Vec<String>, String>) -> (r: Result<Vec<String>, String>)
    ensures
        r is Ok <==> reply is Ok,
        r matches Ok(list) ==> {
            &&& sorted_by(texts(list@), topic_order())
            &&& texts(list@).to_multiset() == texts(reply->Ok_0@).to_multiset()
            &&& texts(list@) == texts(reply->Ok_0@).sort_by(topic_order())
        },
        r matches Err(e) ==> e@ == sanitized(reply->Err_0@),
{
    match reply {
        Ok(names) => {
            let mut list: Vec<String> = names;
            let ghost unsorted = texts(list@);
            sort_texts(&mut list);
            proof {
                lemma_topic_order();
                unsorted.lemma_sort_by_ensures(topic_order());
                lemma_sorted_unique(
                    texts(list@),
                    unsorted.sort_by(topic_order()),
                    topic_order(),
                );
            }
            Ok(list)
        },
        Err(raw) => Err(sanitize_error(raw.as_str())),
    }
}

proof fn lemma_topic_order()
    ensures
        total_ordering(topic_order()),
{
    let leq = topic_order();
    assert forall|a: Seq<char>| #[trigger] leq(a, a) by {
        law_topic_order_is_total(a, a, a);
    }
    assert forall|a: Seq<char>, b: Seq<char>| #[trigger] leq(a, b) && #[trigger] leq(b, a) implies a
        == b by {
        law_topic_order_is_total(a, b, a);
    }
    assert forall|a: Seq<char>, b: Seq<char>, c: Seq<char>| #[trigger]
        leq(a, b) && #[trigger] leq(b, c) implies leq(a, c) by {
        law_topic_order_is_total(a, b, c);
    }
    assert forall|a: Seq<char>, b: Seq<char>| #[trigger] leq(a, b) || #[trigger] leq(b, a) by {
        law_topic_order_is_total(a, b, a);
    }
}

/// The order of topics leaves nothing open: two different names stand in one
/// order only, any two names can be ordered, and the order is transitive.
pub proof fn law_topic_order_is_total(a: Seq<char>, b: Seq<char>, c: Seq<char>)
    ensures
        text_le(a, b) || text_le(b, a),
        text_le(a, b) && text_le(b, a) ==> a == b,
        text_le(a, b) && text_le(b, c) ==> text_le(a, c),
    decreases a.len() + b.len() + c.len(),
{
    if a.len() == 0 {
        if b.len() == 0 {
            assert(a =~= b);
        }
    } else if b.len() > 0 {
        let (a1, b1) = (a.drop_first(), b.drop_first());
        if c.len() > 0 {
            law_topic_order_is_total(a1, b1, c.drop_first());
        } else {
            law_topic_order_is_total(a1, b1, c);
        }
        if a.first() == b.first() && a1 == b1 {
            assert(a =~= seq![a.first()] + a1);
            assert(b =~= seq![b.first()] + b1);
        }
    }
}

/// Whether a character may stand in the name of a topic.
pub open spec fn is_topic_char(c: char) -> bool {
    ||| 'a' <= c <= 'z'
    ||| 'A' <= c <= 'Z'
    ||| '0' <= c <= '9'
    ||| c == '.'
    ||| c == '_'
    ||| c == '-'
}

/// Whether a text is the name of a topic.
pub open spec fn valid_topic(topic: Seq<char>) -> bool {
    &&& 0 < topic.len() <= TOPIC_NAME_MAX
    &&& forall|i: int| 0 <= i < topic.len() ==> is_topic_char(#[trigger] topic[i])
}

/// Refuses what cannot be the name of a topic.
pub fn validate_topic(topic: &str) -> (r: Result<(), String>)
    ensures
        r is Ok <==> valid_topic(topic@),
        r matches Err(e) ==> e@ == "Invalid topic name"@,
{
    let mut ok: bool = !topic.is_empty() && topic.unicode_len() <= TOPIC_NAME_MAX;
    for c in it: topic.chars()
        invariant
            it.seq() == topic@,
            ok ==> 0 < topic@.len() <= TOPIC_NAME_MAX && forall|i: int|
                0 <= i < it.index() ==> is_topic_char(#[trigger] topic@[i]),
            !ok ==> !valid_topic(topic@),
    {
        let ghost k = it.index();
        assert(c == topic@[k]);
        if !(('a' <= c && c <= 'z') || ('A' <= c && c <= 'Z') || ('0' <= c && c <= '9') || c == '.'
            || c == '_' || c == '-') {
            assert(!is_topic_char(topic@[k]));
            ok = false;
        }
    }
    if ok {
        Ok(())
    } else {
        Err("Invalid topic name".to_owned())
    }
}

// ---- messages ---------------------------------------------------------------

/// Which messages of a topic are asked for.
#[derive(Debug, Clone)]
pub struct MessageOptions {
    /// Only those of this partition.
    pub partition: Option<i32>,
    /// Only those from this offset on, in decimal.
    pub from_offset: Option<String>,
    /// Only those from this time on, in milliseconds since the epoch.
    pub from_timestamp: Option<i64>,
    /// At most so many.
    pub limit: Option<usize>,
}

impl Default for MessageOptions {
    fn default() -> (r: MessageOptions)
        ensures
            r.partition is None,
            r.from_offset is None,
            r.from_timestamp is None,
            r.limit is None,
    {
        MessageOptions { partition: None, from_offset: None, from_timestamp: None, limit: None }
    }
}

/// A request for messages that has been checked.
#[derive(Debug, Clone)]
pub struct FetchRequest {
    /// The topic.
    pub topic: String,
    /// Only messages of this partition.
    pub partition: Option<i32>,
    /// Only messages from this offset on, in decimal.
    pub from_offset: Option<String>,
    /// Only messages from this time on, in milliseconds since the epoch.
    pub from_timestamp: Option<i64>,
    /// At most so many messages.
    pub limit: usize,
}

/// What a `FetchRequest` holds.
#[verifier::ext_equal]
pub struct RequestView {
    pub topic: Seq<char>,
    pub partition: Option<i32>,
    pub from_offset: Option<Seq<char>>,
    pub from_timestamp: Option<i64>,
    pub limit: nat,
}

impl View for FetchRequest {
    type V = RequestView;

    open spec fn view(&self) -> RequestView {
        RequestView {
            topic: self.topic@,
            partition: self.partition,
            from_offset: opt_text(self.from_offset),
            from_timestamp: self.from_timestamp,
            limit: self.limit as nat,
        }
    }
}

impl RequestView {
    /// The topic has the name of a topic, and the page has an admissible size.
    pub open spec fn wf(self) -> bool {
        &&& valid_topic(self.topic)
        &&& 1 <= self.limit <= MAX_LIMIT
    }
}

/// The size of a page: the one asked for, brought into the range of admissible
/// sizes, or the default.
pub open spec fn page_limit(limit: Option<usize>) -> usize {
    match limit {
        Some(n) => if n < 1 {
            1
        } else if n > MAX_LIMIT {
            MAX_LIMIT
        } else {
            n
        },
        None => DEFAULT_LIMIT,
    }
}

/// What is asked for by a topic and options.
pub open spec fn requested(topic: Seq<char>, options: Option<MessageOptions>) -> RequestView {
    match options {
        Some(o) => RequestView {
            topic,
            partition: o.partition,
            from_offset: opt_text(o.from_offset),
            from_timestamp: o.from_timestamp,
            limit: page_limit(o.limit) as nat,
        },
        None => RequestView {
            topic,
            partition: None,
            from_offset: None,
            from_timestamp: None,
            limit: DEFAULT_LIMIT as nat,
        },
    }
}

/// Why a request for messages is refused, if it is: the topic is looked at
/// first, then the connection.
pub open spec fn refusal(
    clients: Map<Seq<char>, ClientConfig>,
    connection_id: Seq<char>,
    topic: Seq<char>,
) -> Option<Seq<char>> {
    if !valid_topic(topic) {
        Some("Invalid topic name"@)
    } else if !clients.contains_key(connection_id) {
        Some("Not connected"@)
    } else {
        None
    }
}

/// Checks a request for messages and finds the configuration to fetch them with.
pub fn prepare_fetch(
    state: &AppState,
    connection_id: &str,
    topic: String,
    options: Option<MessageOptions>,
) -> (r: Result<(ClientConfig, FetchRequest), String>)
    ensures
        r is Ok <==> refusal(state@, connection_id@, topic@) is None,
        r matches Ok(prepared) ==> {
            &&& config_entries(prepared.0) == config_entries(state@[connection_id@])
            &&& prepared.1@ == requested(topic@, options)
            &&& prepared.1.topic@ == topic@
            &&& prepared.1.partition == (match options {
                Some(o) => o.partition,
                None => None,
            })
            &&& opt_text(prepared.1.from_offset) == (match options {
                Some(o) => opt_text(o.from_offset),
                None => None,
            })
            &&& prepared.1.from_timestamp == (match options {
                Some(o) => o.from_timestamp,
                None => None,
            })
            &&& prepared.1@.wf()
        },
        r matches Err(e) ==> refusal(state@, connection_id@, topic@) == Some(e@),
{
    match validate_topic(topic.as_str()) {
        Ok(()) => {},
        Err(e) => {
            return Err(e);
        },
    }
    let config: ClientConfig = match get_config(state, connection_id) {
        Ok(config) => config,
        Err(e) => {
            return Err(e);
        },
    };
    let options: MessageOptions = options.unwrap_or_default();
    let asked: usize = options.limit.unwrap_or(DEFAULT_LIMIT);
    let limit: usize = if asked < 1 {
        1
    } else if asked > MAX_LIMIT {
        MAX_LIMIT
    } else {
        asked
    };
    let request = FetchRequest {
        topic,
        partition: options.partition,
        from_offset: options.from_offset,
        from_timestamp: options.from_timestamp,
        limit,
    };
    Ok((config, request))
}

/// Topics are listed as a dictionary lists words: a name comes before those that
/// it is the beginning of, and otherwise the first character that differs
/// decides.
pub proof fn law_topic_order_is_that_of_a_dictionary(a: Seq<char>, b: Seq<char>, k: int)
    requires
        0 <= k <= a.len(),
        k <= b.len(),
        a.take(k) == b.take(k),
    ensures
        k == a.len() ==> text_le(a, b),
        k == b.len() && k < a.len() ==> !text_le(a, b),
        k < a.len() && k < b.len() && a[k] < b[k] ==> text_le(a, b) && !text_le(b, a),
    decreases k,
{
    if k > 0 {
        assert(a[0] == a.take(k)[0]);
        assert(b[0] == b.take(k)[0]);
        let (a1, b1) = (a.drop_first(), b.drop_first());
        assert(a1.take(k - 1) =~= a.take(k).drop_first());
        assert(b1.take(k - 1) =~= b.take(k).drop_first());
        law_topic_order_is_that_of_a_dictionary(a1, b1, k - 1);
    }
}

/// A topic has a name of 1 to 249 characters, each a letter or digit of ASCII, a
/// dot, an underscore or a hyphen, and every such text is the name of a topic.
pub proof fn law_topic_names(topic: Seq<char>)
    ensures
        valid_topic(topic) <==> {
            &&& 1 <= topic.len() <= 249
            &&& forall|i: int|
                0 <= i < topic.len() ==> {
                    ||| 'a' <= (#[trigger] topic[i]) <= 'z'
                    ||| 'A' <= topic[i] <= 'Z'
                    ||| '0' <= topic[i] <= '9'
                    ||| topic[i] == '.'
                    ||| topic[i] == '_'
                    ||| topic[i] == '-'
                }
        },
{
    if 1 <= topic.len() <= 249 && forall|i: int|
        0 <= i < topic.len() ==> {
            ||| 'a' <= (#[trigger] topic[i]) <= 'z'
            ||| 'A' <= topic[i] <= 'Z'
            ||| '0' <= topic[i] <= '9'
            ||| topic[i] == '.'
            ||| topic[i] == '_'
            ||| topic[i] == '-'
        } {
        assert forall|i: int| 0 <= i < topic.len() implies is_topic_char(#[trigger] topic[i]) by {}
    }
    if valid_topic(topic) {
        assert forall|i: int| 0 <= i < topic.len() implies {
            ||| 'a' <= (#[trigger] topic[i]) <= 'z'
            ||| 'A' <= topic[i] <= 'Z'
            ||| '0' <= topic[i] <= '9'
            ||| topic[i] == '.'
            ||| topic[i] == '_'
            ||| topic[i] == '-'
        } by {
            assert(is_topic_char(topic[i]));
        }
    }
}

/// A request carries the options that it was made from: partition, offset and
/// time as they were given, and the size of the page, which is only brought into
/// the range from 1 to 10000; without one it is 100.
pub proof fn law_request_carries_its_options(topic: Seq<char>, options: Option<MessageOptions>)
    ensures
        requested(topic, options).topic == topic,
        options is None ==> {
            &&& requested(topic, options).partition is None
            &&& requested(topic, options).from_offset is None
            &&& requested(topic, options).from_timestamp is None
            &&& requested(topic, options).limit == 100
        },
        options matches Some(o) ==> {
            &&& requested(topic, options).partition == o.partition
            &&& o.from_offset is None ==> requested(topic, options).from_offset is None
            &&& o.from_offset matches Some(t) ==> requested(topic, options).from_offset == Some(t@)
            &&& requested(topic, options).from_timestamp == o.from_timestamp
            &&& o.limit is None ==> requested(topic, options).limit == 100
            &&& o.limit matches Some(n) ==> {
                &&& 1 <= n <= 10_000 ==> requested(topic, options).limit == n
                &&& n == 0 ==> requested(topic, options).limit == 1
                &&& n > 10_000 ==> requested(topic, options).limit == 10_000
            }
        },
{
}

/// A request is refused only for the name of its topic or for a connection that
/// is not open, the name being looked at first.
pub proof fn law_request_refused_only_for_cause(
    clients: Map<Seq<char>, ClientConfig>,
    connection_id: Seq<char>,
    topic: Seq<char>,
)
    ensures
        !valid_topic(topic) ==> refusal(clients, connection_id, topic) == Some(
            "Invalid topic name"@,
        ),
        valid_topic(topic) && !clients.contains_key(connection_id) ==> refusal(
            clients,
            connection_id,
            topic,
        ) == Some("Not connected"@),
        valid_topic(topic) && clients.contains_key(connection_id) ==> refusal(
            clients,
            connection_id,
            topic,
        ) is None,
{
}

} // verus!
