//! Redaction of error texts before they leave the process.

use vstd::prelude::*;
use vstd::string::*;

verus! {

/// A dotted IPv4 address, with a port or without.
pub const IPV4_PATTERN: &'static str = r"\b\d{1,3}\.\d{1,3}\.\d{1,3}\.\d{1,3}(:\d+)?\b";

/// A host name with a port: a name with dots in it, or one without them that has
/// a letter in it.
pub const HOST_PORT_PATTERN: &'static str =
    r"\b([a-zA-Z0-9]([a-zA-Z0-9-]*[a-zA-Z0-9])?(\.[a-zA-Z0-9]([a-zA-Z0-9-]*[a-zA-Z0-9])?)+|([0-9][0-9-]*)?[a-zA-Z]([a-zA-Z0-9-]*[a-zA-Z0-9])?):\d{2,5}\b";

/// A mention of a SASL mechanism, whose name may have hyphens in it.
pub const SASL_PATTERN: &'static str = r"(?i)SASL\s+[\w-]+\s+authentication";

/// One frame of a stack trace, with the line break before it.
pub const STACK_PATTERN: &'static str = r"\n\s*at\s+.*";

/// The patterns that redaction looks for.
pub open spec fn is_redaction_pattern(pattern: Seq<char>) -> bool {
    ||| pattern == IPV4_PATTERN@
    ||| pattern == HOST_PORT_PATTERN@
    ||| pattern == SASL_PATTERN@
    ||| pattern == STACK_PATTERN@
}

/// The successive non-overlapping matches of a regular expression in a text,
/// each as the index of its first character and the index behind its last one.
pub uninterp spec fn pattern_matches(pattern: Seq<char>, text: Seq<char>) -> Seq<(int, int)>;

/// Whether spans lie within a text of length `len`, one behind the other.
pub open spec fn in_order(spans: Seq<(int, int)>, len: nat) -> bool {
    &&& forall|i: int|
        0 <= i < spans.len() ==> 0 <= (#[trigger] spans[i]).0 <= spans[i].1 <= len
    &&& forall|i: int, j: int|
        0 <= i < j < spans.len() ==> (#[trigger] spans[i]).1 <= (#[trigger] spans[j]).0
}

/// Whether the position is covered by none of the spans.
pub open spec fn outside(spans: Seq<(int, int)>, position: int) -> bool {
    forall|i: int|
        0 <= i < spans.len() ==> position < (#[trigger] spans[i]).0 || spans[i].1 <= position
}

/// The text with each of the spans replaced.
pub open spec fn spliced(text: Seq<char>, spans: Seq<(int, int)>, replacement: Seq<char>) -> Seq<
    char,
>
    decreases spans.len(),
{
    if spans.len() == 0 {
        text
    } else {
        spliced(text.take(spans.last().0), spans.drop_last(), replacement) + replacement
            + text.skip(spans.last().1)
    }
}

/// Whether `result` is the text with spans that lie within it, one behind the
/// other, each replaced.
pub open spec fn is_replacement(
    text: Seq<char>,
    spans: Seq<(int, int)>,
    replacement: Seq<char>,
    result: Seq<char>,
) -> bool {
    &&& in_order(spans, text.len())
    &&& result == spliced(text, spans, replacement)
}

/// The text with every match of the pattern replaced.
pub open spec fn replaced(pattern: Seq<char>, text: Seq<char>, replacement: Seq<char>) -> Seq<
    char,
> {
    spliced(text, pattern_matches(pattern, text), replacement)
}

/// Calls `regex::Regex::replace_all` on the regular expression that
/// `regex::Regex::new` makes of `pattern`.
///
/// Claimed of them: each of the four patterns compiles, and the result is the
/// text in which every one of the pattern's successive non-overlapping matches
/// has given way to the replacement, everything else standing as it was; those
/// matches lie within the text, one behind the other. A `$` in the replacement
/// would refer to a group of the match, so there is none. Which spans of a text
/// a pattern matches is left unsaid.
#[verifier::external_body]
fn replace_matches(pattern: &str, text: &str, replacement: &str) -> (r: String)
    requires
        is_redaction_pattern(pattern@),
        !replacement@.contains('$'),
    ensures
        is_replacement(text@, pattern_matches(pattern@, text@), replacement@, r@),
{
    regex::Regex::new(pattern).unwrap().replace_all(text, replacement).into_owned()
}

/// The text without the IPv4 addresses.
pub open spec fn without_addresses(message: Seq<char>) -> Seq<char> {
    replaced(IPV4_PATTERN@, message, "<redacted>"@)
}

/// The text without the IPv4 addresses and the host names with ports.
pub open spec fn without_hosts(message: Seq<char>) -> Seq<char> {
    replaced(HOST_PORT_PATTERN@, without_addresses(message), "<redacted>"@)
}

/// The text without those and without the names of SASL mechanisms.
pub open spec fn without_mechanisms(message: Seq<char>) -> Seq<char> {
    replaced(SASL_PATTERN@, without_hosts(message), "SASL authentication"@)
}

/// The text with IPv4 addresses, then host names with ports, then SASL
/// mechanism names, then stack frames taken out.
pub open spec fn sanitized(message: Seq<char>) -> Seq<char> {
    replaced(STACK_PATTERN@, without_mechanisms(message), ""@)
}

/// Whether the matches of a pattern lie within the text, one behind the other.
pub open spec fn matches_in_order(pattern: Seq<char>, text: Seq<char>) -> bool {
    in_order(pattern_matches(pattern, text), text.len())
}

/// Takes IPv4 addresses, `host:port` pairs, SASL mechanism names and stack
/// frames out of an error text.
pub fn sanitize_error(message: &str) -> (r: String)
    ensures
        r@ == sanitized(message@),
        matches_in_order(IPV4_PATTERN@, message@),
        matches_in_order(HOST_PORT_PATTERN@, without_addresses(message@)),
        matches_in_order(SASL_PATTERN@, without_hosts(message@)),
        matches_in_order(STACK_PATTERN@, without_mechanisms(message@)),
{
    proof {
        reveal_strlit("<redacted>");
        reveal_strlit("SASL authentication");
        reveal_strlit("");
    }
    let s = replace_matches(IPV4_PATTERN, message, "<redacted>");
    let s = replace_matches(HOST_PORT_PATTERN, s.as_str(), "<redacted>");
    let s = replace_matches(SASL_PATTERN, s.as_str(), "SASL authentication");
    replace_matches(STACK_PATTERN, s.as_str(), "")
}

/// A text in which none of the four patterns occurs comes through unchanged.
pub proof fn law_clean_text_unchanged(message: Seq<char>)
    ensures
        ({
            &&& pattern_matches(IPV4_PATTERN@, message).len() == 0
            &&& pattern_matches(HOST_PORT_PATTERN@, message).len() == 0
            &&& pattern_matches(SASL_PATTERN@, message).len() == 0
            &&& pattern_matches(STACK_PATTERN@, message).len() == 0
        }) ==> sanitized(message) == message,
{
}

/// What a pattern matched is gone: every character of the result belongs to the
/// replacement or stood in the text outside all the spans.
pub proof fn law_spliced_spans_are_gone(
    text: Seq<char>,
    spans: Seq<(int, int)>,
    replacement: Seq<char>,
)
    requires
        in_order(spans, text.len()),
    ensures
        forall|k: int|
            0 <= k < spliced(text, spans, replacement).len() ==> replacement.contains(
                #[trigger] spliced(text, spans, replacement)[k],
            ) || exists|j: int|
                0 <= j < text.len() && outside(spans, j) && #[trigger] text[j] == spliced(
                    text,
                    spans,
                    replacement,
                )[k],
    decreases spans.len(),
{
    let result = spliced(text, spans, replacement);
    if spans.len() == 0 {
        assert forall|k: int| 0 <= k < result.len() implies replacement.contains(
            #[trigger] result[k],
        ) || exists|j: int|
            0 <= j < text.len() && outside(spans, j) && #[trigger] text[j] == result[k] by {
            assert(outside(spans, k) && text[k] == result[k]);
        }
    } else {
        let (start, end) = spans.last();
        let front = text.take(start);
        let fewer = spans.drop_last();
        let head = spliced(front, fewer, replacement);
        assert(forall|i: int| 0 <= i < fewer.len() ==> fewer[i] == spans[i]);
        law_spliced_spans_are_gone(front, fewer, replacement);
        assert forall|k: int| 0 <= k < result.len() implies replacement.contains(
            #[trigger] result[k],
        ) || exists|j: int|
            0 <= j < text.len() && outside(spans, j) && #[trigger] text[j] == result[k] by {
            if k < head.len() {
                assert(result[k] == head[k]);
                if !replacement.contains(head[k]) {
                    let j = choose|j: int|
                        0 <= j < front.len() && outside(fewer, j) && #[trigger] front[j] == head[k];
                    assert(text[j] == result[k]);
                    assert forall|i: int| 0 <= i < spans.len() implies j < (#[trigger] spans[i]).0
                        || spans[i].1 <= j by {
                        if i < fewer.len() {
                            assert(fewer[i] == spans[i]);
                        }
                    }
                    assert(outside(spans, j));
                }
            } else if k < head.len() + replacement.len() {
                assert(result[k] == replacement[k - head.len()]);
            } else {
                let j = k - head.len() - replacement.len() + end;
                assert(text[j] == result[k]);
                assert(outside(spans, j));
            }
        }
    }
}

/// Whatever the text, redaction replaces the matches of all four patterns, one
/// pattern after the other, each in what the one before has left: addresses and
/// hosts with ports by a placeholder, a mention of a mechanism by one without
/// its name, a stack frame by nothing.
pub proof fn law_every_pattern_is_replaced(message: Seq<char>)
    ensures
        ({
            let addresses = r"\b\d{1,3}\.\d{1,3}\.\d{1,3}\.\d{1,3}(:\d+)?\b"@;
            let hosts =
                r"\b([a-zA-Z0-9]([a-zA-Z0-9-]*[a-zA-Z0-9])?(\.[a-zA-Z0-9]([a-zA-Z0-9-]*[a-zA-Z0-9])?)+|([0-9][0-9-]*)?[a-zA-Z]([a-zA-Z0-9-]*[a-zA-Z0-9])?):\d{2,5}\b"@;
            let mechanisms = r"(?i)SASL\s+[\w-]+\s+authentication"@;
            let frames = r"\n\s*at\s+.*"@;
            let s1 = spliced(message, pattern_matches(addresses, message), "<redacted>"@);
            let s2 = spliced(s1, pattern_matches(hosts, s1), "<redacted>"@);
            let s3 = spliced(s2, pattern_matches(mechanisms, s2), "SASL authentication"@);
            let s4 = spliced(s3, pattern_matches(frames, s3), Seq::empty());
            sanitized(message) == s4
        }),
{
    reveal_strlit("");
    assert(""@ =~= Seq::<char>::empty());
}

} // verus!
