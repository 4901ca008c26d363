//! Messages as they come from a consumer and as they are shown.

use vstd::prelude::*;
use vstd::string::*;
use vstd::utf8::*;

use crate::headers::{join_headers, joined_headers, pair_texts, HeaderMap, MAX_HEADER_VALUE_SIZE};
use crate::text::{
    decimal, integer_text, is_numeral, law_decimal_is_canonical, numeral_value, opt_text, truncate,
    truncated, TRUNCATED_SUFFIX,
};

verus! {

/// No shown value is longer than this many characters, the marker apart.
pub const MAX_VALUE_SIZE: usize = 1_048_576;

/// No shown key is longer than this many characters, the marker apart.
pub const MAX_KEY_SIZE: usize = 10_240;

/// When a message was made or stored, in milliseconds since the epoch.
#[derive(Debug, PartialEq, Eq, Clone, Copy, Structural)]
pub enum MessageTimestamp {
    /// The message has none.
    NotAvailable,
    /// The time the producer gave it.
    CreateTime(i64),
    /// The time the broker stored it.
    LogAppendTime(i64),
}

impl MessageTimestamp {
    /// The time in milliseconds; a time of -1 stands for none.
    pub open spec fn millis(self) -> Option<i64> {
        match self {
            MessageTimestamp::NotAvailable => None,
            MessageTimestamp::CreateTime(t) => if t == -1 {
                None
            } else {
                Some(t)
            },
            MessageTimestamp::LogAppendTime(t) => if t == -1 {
                None
            } else {
                Some(t)
            },
        }
    }
}

/// Calls `rdkafka::message::Timestamp::to_millis`. Claimed of it: the time that
/// the timestamp carries, and nothing where it carries none or carries -1.
#[verifier::external_body]
fn timestamp_millis(timestamp: MessageTimestamp) -> (r: Option<i64>)
    ensures
        r == timestamp.millis(),
{
    match timestamp {
        MessageTimestamp::NotAvailable => rdkafka::Timestamp::NotAvailable,
        MessageTimestamp::CreateTime(t) => rdkafka::Timestamp::CreateTime(t),
        MessageTimestamp::LogAppendTime(t) => rdkafka::Timestamp::LogAppendTime(t),
    }.to_millis()
}

/// The text that a byte string holds, with U+FFFD in place of what is not UTF-8.
pub uninterp spec fn lossy_text(bytes: Seq<u8>) -> Seq<char>;

/// Calls `String::from_utf8_lossy` of std. Claimed of it: the result depends on
/// the bytes alone; valid UTF-8 is decoded as it stands, and in anything else
/// there is a U+FFFD. Which of the invalid bytes share one U+FFFD is left
/// unsaid.
#[verifier::external_body]
fn decode_lossy(bytes: &Vec<u8>) -> (r: String)
    ensures
        r@ == lossy_text(bytes@),
        valid_utf8(bytes@) ==> r@ == decode_utf8(bytes@),
        !valid_utf8(bytes@) ==> r@.contains('\u{FFFD}'),
{
    String::from_utf8_lossy(bytes).into_owned()
}

/// A message as a consumer hands it out.
#[derive(Debug, Clone)]
pub struct RawMessage {
    /// The partition it stands in.
    pub partition: i32,
    /// Its offset there.
    pub offset: i64,
    /// Its timestamp.
    pub timestamp: MessageTimestamp,
    /// Its key, if it has one.
    pub key: Option<Vec<u8>>,
    /// Its payload, if it has one.
    pub payload: Option<Vec<u8>>,
    /// Its headers, if it has any: the key of each, and its value if it has one.
    pub headers: Option<Vec<(String, Option<Vec<u8>>)>>,
}

/// A message as it is shown.
#[derive(Debug)]
pub struct OutMessage {
    /// The partition it stands in.
    pub partition: i32,
    /// Its offset there, in decimal.
    pub offset: String,
    /// Its time in milliseconds since the epoch, in decimal; empty where there
    /// is none.
    pub timestamp: String,
    /// Its key as text, truncated.
    pub key: Option<String>,
    /// Its payload as text, truncated.
    pub value: Option<String>,
    /// Its headers by key.
    pub headers: HeaderMap,
}

/// One page of messages.
#[derive(Debug)]
pub struct MessageFetchResult {
    /// The messages, in the order in which they came.
    pub messages: Vec<OutMessage>,
    /// Whether the page is full, so that there may be more.
    pub has_more: bool,
    /// Where the next page starts, in decimal.
    pub next_offset: Option<String>,
    /// The partition that `next_offset` belongs to.
    pub next_partition: Option<i32>,
}

/// What an `OutMessage` holds.
#[verifier::ext_equal]
pub struct ShownMessage {
    pub partition: i32,
    pub offset: Seq<char>,
    pub timestamp: Seq<char>,
    pub key: Option<Seq<char>>,
    pub value: Option<Seq<char>>,
    pub headers: Map<Seq<char>, Seq<char>>,
}

impl View for OutMessage {
    type V = ShownMessage;

    open spec fn view(&self) -> ShownMessage {
        ShownMessage {
            partition: self.partition,
            offset: self.offset@,
            timestamp: self.timestamp@,
            key: opt_text(self.key),
            value: opt_text(self.value),
            headers: self.headers@,
        }
    }
}

/// What a list of messages holds.
pub open spec fn shown_messages(messages: Seq<OutMessage>) -> Seq<ShownMessage> {
    messages.map_values(|m: OutMessage| m@)
}

/// What is shown of an optional text of bounded size.
pub open spec fn shown_text(text: Option<Seq<char>>, max: nat) -> Option<Seq<char>> {
    match text {
        Some(t) => Some(truncated(t, max)),
        None => None,
    }
}

/// What is shown of a message whose bytes have been decoded.
pub open spec fn assembled(
    partition: i32,
    offset: i64,
    millis: Option<i64>,
    key: Option<Seq<char>>,
    value: Option<Seq<char>>,
    headers: Seq<(Seq<char>, Seq<char>)>,
) -> ShownMessage {
    ShownMessage {
        partition,
        offset: decimal(offset as int),
        timestamp: match millis {
            Some(t) => decimal(t as int),
            None => Seq::empty(),
        },
        key: shown_text(key, MAX_KEY_SIZE as nat),
        value: shown_text(value, MAX_VALUE_SIZE as nat),
        headers: joined_headers(headers),
    }
}

/// Makes a message whose bytes have been decoded ready to be shown: numbers
/// become text, sizes are bounded, repeated headers are joined.
pub fn assemble_message(
    partition: i32,
    offset: i64,
    millis: Option<i64>,
    key: Option<String>,
    value: Option<String>,
    headers: Vec<(String, String)>,
) -> (r: OutMessage)
    ensures
        r@ == assembled(
            partition,
            offset,
            millis,
            opt_text(key),
            opt_text(value),
            pair_texts(headers@),
        ),
{
    let timestamp: String = match millis {
        Some(t) => integer_text(t),
        None => String::new(),
    };
    let key: Option<String> = match &key {
        Some(text) => truncate(Some(text.as_str()), MAX_KEY_SIZE),
        None => None,
    };
    let value: Option<String> = match &value {
        Some(text) => truncate(Some(text.as_str()), MAX_VALUE_SIZE),
        None => None,
    };
    OutMessage {
        partition,
        offset: integer_text(offset),
        timestamp,
        key,
        value,
        headers: join_headers(headers),
    }
}

/// The text of an optional byte string.
pub open spec fn decoded(bytes: Option<Vec<u8>>) -> Option<Seq<char>> {
    match bytes {
        Some(b) => Some(lossy_text(b@)),
        None => None,
    }
}

/// The text of a header: a header without a value has the empty text.
pub open spec fn header_text(header: (String, Option<Vec<u8>>)) -> (Seq<char>, Seq<char>) {
    (
        header.0@,
        match header.1 {
            Some(b) => lossy_text(b@),
            None => Seq::empty(),
        },
    )
}

/// The headers of a message as text.
pub open spec fn header_texts(headers: Option<Vec<(String, Option<Vec<u8>>)>>) -> Seq<
    (Seq<char>, Seq<char>),
> {
    match headers {
        Some(list) => list@.map_values(|h: (String, Option<Vec<u8>>)| header_text(h)),
        None => Seq::empty(),
    }
}

/// What is shown of a message.
pub open spec fn shown(m: RawMessage) -> ShownMessage {
    assembled(
        m.partition,
        m.offset,
        m.timestamp.millis(),
        decoded(m.key),
        decoded(m.payload),
        header_texts(m.headers),
    )
}

/// Whether the text of a byte string is what its bytes encode, with a U+FFFD in
/// it where they are not UTF-8.
pub open spec fn decodes_faithfully(bytes: Seq<u8>) -> bool {
    &&& valid_utf8(bytes) ==> lossy_text(bytes) == decode_utf8(bytes)
    &&& !valid_utf8(bytes) ==> lossy_text(bytes).contains('\u{FFFD}')
}

/// Whether key, payload and header values of a message all decode faithfully.
pub open spec fn message_decodes_faithfully(m: RawMessage) -> bool {
    &&& m.key matches Some(b) ==> decodes_faithfully(b@)
    &&& m.payload matches Some(b) ==> decodes_faithfully(b@)
    &&& m.headers matches Some(list) ==> forall|i: int|
        0 <= i < list@.len() ==> ((#[trigger] list@[i]).1 matches Some(b) ==> decodes_faithfully(
            b@,
        ))
}

fn decode_optional(bytes: &Option<Vec<u8>>) -> (r: Option<String>)
    ensures
        opt_text(r) == decoded(*bytes),
        *bytes matches Some(b) ==> decodes_faithfully(b@),
{
    match bytes {
        Some(b) => Some(decode_lossy(b)),
        None => None,
    }
}

fn header_pairs(headers: &Option<Vec<(String, Option<Vec<u8>>)>>) -> (r: Vec<(String, String)>)
    ensures
        pair_texts(r@) == header_texts(*headers),
        *headers matches Some(list) ==> forall|i: int|
            0 <= i < list@.len() ==> ((#[trigger] list@[i]).1 matches Some(b)
                ==> decodes_faithfully(b@)),
{
    let mut pairs: Vec<(String, String)> = Vec::new();
    match headers {
        Some(list) => {
            let mut i: usize = 0;
            while i < list.len()
                invariant
                    i <= list@.len(),
                    pairs@.len() == i,
                    forall|j: int|
                        0 <= j < i ==> ((#[trigger] pairs@[j]).0@, pairs@[j].1@) == header_text(
                            list@[j],
                        ),
                    forall|j: int|
                        0 <= j < i ==> ((#[trigger] list@[j]).1 matches Some(b)
                            ==> decodes_faithfully(b@)),
                decreases list.len() - i,
            {
                let value: String = match &list[i].1 {
                    Some(b) => decode_lossy(b),
                    None => String::new(),
                };
                pairs.push((list[i].0.clone(), value));
                i += 1;
            }
            assert(pair_texts(pairs@) =~= header_texts(*headers));
        },
        None => {
            assert(pair_texts(pairs@) =~= header_texts(*headers));
        },
    }
    pairs
}

/// Makes a message ready to be shown: bytes become text, sizes are bounded,
/// repeated headers are joined.
pub fn to_out_message(m: &RawMessage) -> (r: OutMessage)
    ensures
        r@ == shown(*m),
        message_decodes_faithfully(*m),
{
    assemble_message(
        m.partition,
        m.offset,
        timestamp_millis(m.timestamp),
        decode_optional(&m.key),
        decode_optional(&m.payload),
        header_pairs(&m.headers),
    )
}

/// Where the next page starts: behind the last offset, if there is more.
pub open spec fn following_offset(has_more: bool, last_offset: Option<i64>) -> Option<Seq<char>> {
    match last_offset {
        Some(o) => if has_more {
            Some(decimal(o + 1))
        } else {
            None
        },
        None => None,
    }
}

/// Where the next page starts: behind the last offset, if there is more.
pub fn next_offset(has_more: bool, last_offset: Option<i64>) -> (r: Option<String>)
    requires
        has_more && last_offset is Some ==> last_offset->0 < i64::MAX,
    ensures
        opt_text(r) == following_offset(has_more, last_offset),
{
    match (has_more, last_offset) {
        (true, Some(o)) => Some(integer_text(o + 1)),
        _ => None,
    }
}

/// A page without messages.
pub fn empty_result() -> (r: MessageFetchResult)
    ensures
        r.messages@.len() == 0,
        !r.has_more,
        r.next_offset is None,
        r.next_partition is None,
{
    MessageFetchResult {
        messages: Vec::new(),
        has_more: false,
        next_offset: None,
        next_partition: None,
    }
}

/// A key or value that is valid UTF-8 and not too long is shown in full: its
/// text encodes to the very bytes of the message.
pub proof fn law_short_text_shown_in_full(bytes: Seq<u8>, max: nat)
    ensures
        decodes_faithfully(bytes) && valid_utf8(bytes) && decode_utf8(bytes).len() <= max
            ==> encode_utf8(truncated(lossy_text(bytes), max)) == bytes,
{
    if valid_utf8(bytes) {
        decode_utf8_encode_utf8(bytes);
    }
}

/// Whatever a message holds, what is shown of it is of bounded size: key, value
/// and every header value.
pub proof fn law_shown_message_is_bounded(m: RawMessage)
    ensures
        shown(m).key matches Some(t) ==> t.len() <= MAX_KEY_SIZE + TRUNCATED_SUFFIX@.len(),
        shown(m).value matches Some(t) ==> t.len() <= MAX_VALUE_SIZE + TRUNCATED_SUFFIX@.len(),
        forall|key: Seq<char>| #[trigger]
            shown(m).headers.contains_key(key) ==> shown(m).headers[key].len()
                <= MAX_HEADER_VALUE_SIZE + TRUNCATED_SUFFIX@.len(),
{
}

/// What is shown of a decoded message is that message: its numbers in decimal,
/// its key, value and headers as they are, the key cut only beyond 10240
/// characters and the value only beyond 1048576, and what it does not have is
/// not made up.
pub proof fn law_decoded_message_is_shown(
    partition: i32,
    offset: i64,
    millis: Option<i64>,
    key: Option<Seq<char>>,
    value: Option<Seq<char>>,
    headers: Seq<(Seq<char>, Seq<char>)>,
)
    ensures
        ({
            let m = assembled(partition, offset, millis, key, value, headers);
            &&& m.partition == partition
            &&& m.offset == decimal(offset as int)
            &&& millis is None ==> m.timestamp == Seq::<char>::empty()
            &&& millis matches Some(t) ==> m.timestamp == decimal(t as int)
            &&& key is None ==> m.key is None
            &&& key matches Some(t) ==> m.key == Some(
                if t.len() <= 10_240 {
                    t
                } else {
                    t.take(10_240) + "\n...[truncated]"@
                },
            )
            &&& value is None ==> m.value is None
            &&& value matches Some(t) ==> m.value == Some(
                if t.len() <= 1_048_576 {
                    t
                } else {
                    t.take(1_048_576) + "\n...[truncated]"@
                },
            )
            &&& m.headers == joined_headers(headers)
        }),
{
}

/// What is shown of a message comes from that message: partition and offset, the
/// time that its timestamp carries, key, payload and headers decoded, each in
/// its own place. A timestamp that carries -1 carries no time, and a header
/// without a value has the empty text.
pub proof fn law_message_is_shown(m: RawMessage)
    ensures
        shown(m).partition == m.partition,
        shown(m).offset == decimal(m.offset as int),
        match m.timestamp {
            MessageTimestamp::NotAvailable => shown(m).timestamp == Seq::<char>::empty(),
            MessageTimestamp::CreateTime(t) => shown(m).timestamp == (if t == -1 {
                Seq::empty()
            } else {
                decimal(t as int)
            }),
            MessageTimestamp::LogAppendTime(t) => shown(m).timestamp == (if t == -1 {
                Seq::empty()
            } else {
                decimal(t as int)
            }),
        },
        m.key is None ==> shown(m).key is None,
        m.key matches Some(b) ==> shown(m).key == Some(
            if lossy_text(b@).len() <= 10_240 {
                lossy_text(b@)
            } else {
                lossy_text(b@).take(10_240) + "\n...[truncated]"@
            },
        ),
        m.payload is None ==> shown(m).value is None,
        m.payload matches Some(b) ==> shown(m).value == Some(
            if lossy_text(b@).len() <= 1_048_576 {
                lossy_text(b@)
            } else {
                lossy_text(b@).take(1_048_576) + "\n...[truncated]"@
            },
        ),
        m.headers is None ==> shown(m).headers == joined_headers(Seq::empty()),
        m.headers matches Some(list) ==> shown(m).headers == joined_headers(
            Seq::new(
                list@.len(),
                |i: int|
                    (
                        list@[i].0@,
                        match list@[i].1 {
                            Some(b) => lossy_text(b@),
                            None => Seq::empty(),
                        },
                    ),
            ),
        ),
{
    if m.headers is Some {
        let list = m.headers->0;
        assert(header_texts(m.headers) =~= Seq::new(
            list@.len(),
            |i: int|
                (
                    list@[i].0@,
                    match list@[i].1 {
                        Some(b) => lossy_text(b@),
                        None => Seq::empty(),
                    },
                ),
        ));
    }
}

/// A payload that is valid UTF-8 of at most 1048576 characters is shown in full:
/// the shown text encodes to the very bytes of the payload. So is a key of at
/// most 10240 characters.
pub proof fn law_payload_shown_in_full(m: RawMessage)
    ensures
        message_decodes_faithfully(m) ==> (m.payload matches Some(b) ==> valid_utf8(b@)
            && decode_utf8(b@).len() <= 1_048_576 ==> (shown(m).value matches Some(t)
            && encode_utf8(t) == b@)),
        message_decodes_faithfully(m) ==> (m.key matches Some(b) ==> valid_utf8(b@) && decode_utf8(
            b@,
        ).len() <= 10_240 ==> (shown(m).key matches Some(t) && encode_utf8(t) == b@)),
{
    if m.payload is Some {
        law_short_text_shown_in_full(m.payload->0@, 1_048_576);
    }
    if m.key is Some {
        law_short_text_shown_in_full(m.key->0@, 10_240);
    }
}

/// There is a next page exactly if there is more and something came before it,
/// and it starts one behind the last offset.
pub proof fn law_next_page_is_one_behind(has_more: bool, last_offset: Option<i64>)
    ensures
        following_offset(has_more, last_offset) is Some <==> has_more && last_offset is Some,
        following_offset(has_more, last_offset) matches Some(t) ==> t == decimal(
            last_offset->0 + 1,
        ),
        has_more && last_offset is Some && last_offset->0 >= -1 ==> is_numeral(
            following_offset(has_more, last_offset)->0,
        ) && numeral_value(following_offset(has_more, last_offset)->0) == last_offset->0 + 1,
{
    if last_offset is Some {
        law_decimal_is_canonical(last_offset->0 + 1);
    }
}

/// The view of a shown message leaves out none of its fields and changes none.
pub proof fn law_shown_message_holds_its_fields(m: OutMessage, list: Seq<OutMessage>)
    ensures
        m@.partition == m.partition,
        m@.offset == m.offset@,
        m@.timestamp == m.timestamp@,
        m.key is None <==> m@.key is None,
        m.key matches Some(t) ==> m@.key == Some(t@),
        m.value is None <==> m@.value is None,
        m.value matches Some(t) ==> m@.value == Some(t@),
        m@.headers == m.headers@,
        shown_messages(list).len() == list.len(),
        forall|i: int| 0 <= i < list.len() ==> #[trigger] shown_messages(list)[i] == list[i]@,
{
}

} // verus!
