//! Plain text operations: decimal numerals, comma joining, truncation.

use vstd::prelude::*;
use vstd::string::*;

verus! {

/// What `truncate` puts behind a text that it has cut.
pub const TRUNCATED_SUFFIX: &'static str = "\n...[truncated]";

/// The contents of a list of strings.
pub open spec fn texts(list: Seq<String>) -> Seq<Seq<char>> {
    list.map_values(|s: String| s@)
}

/// The contents of an optional string.
pub open spec fn opt_text(s: Option<String>) -> Option<Seq<char>> {
    match s {
        Some(t) => Some(t@),
        None => None,
    }
}

// ---- decimal numerals -------------------------------------------------------

/// The character of a decimal digit.
pub open spec fn digit_char(d: nat) -> char
    recommends
        d < 10,
{
    ('0' as nat + d) as char
}

/// Whether a character is one of `0` to `9`.
pub open spec fn is_digit(c: char) -> bool {
    '0' <= c <= '9'
}

/// The decimal numeral of a natural number, without leading zeros.
pub open spec fn decimal_nat(n: nat) -> Seq<char>
    decreases n,
{
    if n < 10 {
        seq![digit_char(n)]
    } else {
        decimal_nat(n / 10).push(digit_char(n % 10))
    }
}

/// The decimal numeral of an integer: a `-` stands in front of a negative one.
pub open spec fn decimal(n: int) -> Seq<char> {
    if n < 0 {
        seq!['-'] + decimal_nat((-n) as nat)
    } else {
        decimal_nat(n as nat)
    }
}

/// Whether a text is a nonempty run of decimal digits.
pub open spec fn is_numeral(s: Seq<char>) -> bool {
    &&& s.len() > 0
    &&& forall|i: int| 0 <= i < s.len() ==> is_digit(#[trigger] s[i])
}

/// The number that a run of decimal digits denotes.
pub open spec fn numeral_value(s: Seq<char>) -> nat
    decreases s.len(),
{
    if s.len() == 0 {
        0
    } else {
        numeral_value(s.drop_last()) * 10 + (s.last() as nat - '0' as nat) as nat
    }
}

/// Writing a number down and reading it back gives the number: a decimal
/// numeral is a run of digits that denotes the number it was written for.
pub proof fn law_decimal_reads_back(n: nat)
    ensures
        is_numeral(decimal_nat(n)),
        numeral_value(decimal_nat(n)) == n,
    decreases n,
{
    if n < 10 {
        let s = decimal_nat(n);
        assert(s.drop_last() =~= Seq::<char>::empty());
        assert(numeral_value(s.drop_last()) == 0);
    } else {
        let front = decimal_nat(n / 10);
        let s = decimal_nat(n);
        law_decimal_reads_back(n / 10);
        assert(s.drop_last() =~= front);
        assert forall|i: int| 0 <= i < s.len() implies is_digit(#[trigger] s[i]) by {
            if i < front.len() {
                assert(s[i] == front[i]);
            }
        }
    }
}

/// Two numbers with the same decimal numeral are the same number.
pub proof fn law_decimal_injective(m: nat, n: nat)
    requires
        decimal_nat(m) == decimal_nat(n),
    ensures
        m == n,
{
    law_decimal_reads_back(m);
    law_decimal_reads_back(n);
}

fn digit_text(d: u128) -> (r: &'static str)
    requires
        d < 10,
    ensures
        r@ == seq![digit_char(d as nat)],
{
    proof {
        reveal_strlit("0");
        reveal_strlit("1");
        reveal_strlit("2");
        reveal_strlit("3");
        reveal_strlit("4");
        reveal_strlit("5");
        reveal_strlit("6");
        reveal_strlit("7");
        reveal_strlit("8");
        reveal_strlit("9");
    }
    if d == 0 {
        "0"
    } else if d == 1 {
        "1"
    } else if d == 2 {
        "2"
    } else if d == 3 {
        "3"
    } else if d == 4 {
        "4"
    } else if d == 5 {
        "5"
    } else if d == 6 {
        "6"
    } else if d == 7 {
        "7"
    } else if d == 8 {
        "8"
    } else {
        "9"
    }
}

/// The decimal numeral of `n`.
pub fn unsigned_text(n: u128) -> (r: String)
    ensures
        r@ == decimal_nat(n as nat),
    decreases n,
{
    if n < 10 {
        digit_text(n).to_owned()
    } else {
        let mut s: String = unsigned_text(n / 10);
        s.append(digit_text(n % 10));
        s
    }
}

/// The decimal numeral of `n`, signed.
pub fn integer_text(n: i64) -> (r: String)
    ensures
        r@ == decimal(n as int),
{
    if n < 0 {
        proof {
            reveal_strlit("-");
        }
        let magnitude: i128 = -(n as i128);
        let mut s: String = "-".to_owned();
        s.append(unsigned_text(magnitude as u128).as_str());
        s
    } else {
        unsigned_text(n as u128)
    }
}

proof fn lemma_prefix_value(s: Seq<char>, k: int)
    requires
        0 <= k <= s.len(),
        is_numeral(s),
    ensures
        numeral_value(s.take(k)) <= numeral_value(s),
    decreases s.len() - k,
{
    if k < s.len() {
        lemma_prefix_value(s, k + 1);
        assert(s.take(k + 1).drop_last() =~= s.take(k));
        assert(numeral_value(s.take(k + 1)) == numeral_value(s.take(k)) * 10 + (s[k] as nat
            - '0' as nat) as nat);
    } else {
        assert(s.take(k) =~= s);
    }
}

/// Reads a run of decimal digits; `None` where the text is anything else or
/// denotes a number beyond the range of the result.
pub fn parse_numeral(s: &str) -> (r: Option<u64>)
    ensures
        r is Some <==> is_numeral(s@) && numeral_value(s@) <= u64::MAX,
        r matches Some(v) ==> v as nat == numeral_value(s@),
{
    let mut value: u64 = 0;
    let mut seen: bool = false;
    for c in it: s.chars()
        invariant
            it.seq() == s@,
            seen == (it.index() > 0),
            forall|i: int| 0 <= i < it.index() ==> is_digit(#[trigger] s@[i]),
            value as nat == numeral_value(s@.take(it.index())),
    {
        let ghost k = it.index();
        assert(c == s@[k]);
        if !('0' <= c && c <= '9') {
            assert(!is_digit(s@[k]));
            return None;
        }
        let d: u64 = (c as u64) - ('0' as u64);
        proof {
            assert(s@.take(k + 1).drop_last() =~= s@.take(k));
            assert(numeral_value(s@.take(k + 1)) == value * 10 + d);
            if is_numeral(s@) {
                lemma_prefix_value(s@, k + 1);
            }
        }
        if value > u64::MAX / 10 {
            return None;
        }
        let shifted: u64 = value * 10;
        if shifted > u64::MAX - d {
            return None;
        }
        value = shifted + d;
        seen = true;
    }
    assert(s@.take(s@.len() as int) =~= s@);
    if seen {
        Some(value)
    } else {
        None
    }
}

// ---- joining and cutting ----------------------------------------------------

/// The parts one after the other with a comma between neighbours.
pub open spec fn comma_joined(parts: Seq<Seq<char>>) -> Seq<char>
    decreases parts.len(),
{
    if parts.len() == 0 {
        Seq::empty()
    } else if parts.len() == 1 {
        parts.first()
    } else {
        comma_joined(parts.drop_last()).push(',') + parts.last()
    }
}

/// Joins the parts with a comma between neighbours.
pub fn comma_join(parts: &Vec<String>) -> (r: String)
    ensures
        r@ == comma_joined(texts(parts@)),
{
    proof {
        reveal_strlit(",");
    }
    let ghost all = texts(parts@);
    let mut joined: String = String::new();
    let mut i: usize = 0;
    while i < parts.len()
        invariant
            i <= parts.len(),
            all == texts(parts@),
            ","@ == seq![','],
            joined@ == comma_joined(all.take(i as int)),
        decreases parts.len() - i,
    {
        if i > 0 {
            joined.append(",");
        }
        joined.append(parts[i].as_str());
        proof {
            let next = all.take(i + 1);
            assert(next.drop_last() =~= all.take(i as int));
            assert(next.last() == parts@[i as int]@);
            if i == 0 {
                assert(next.first() == parts@[i as int]@);
                assert(joined@ =~= next.first());
            } else {
                assert(joined@ =~= comma_joined(next.drop_last()).push(',') + next.last());
            }
        }
        i += 1;
    }
    assert(all.take(parts@.len() as int) =~= all);
    joined
}

/// A text of at most `max` characters as it is, a longer one cut to its first
/// `max` characters with the marker behind them.
pub open spec fn truncated(s: Seq<char>, max: nat) -> Seq<char> {
    if s.len() > max {
        s.take(max as int) + TRUNCATED_SUFFIX@
    } else {
        s
    }
}

/// Bounds the size of a text: `None` stays `None`, and a text of more than
/// `max` characters is cut to `max` of them and marked.
pub fn truncate(s: Option<&str>, max: usize) -> (r: Option<String>)
    ensures
        r is Some <==> s is Some,
        s matches Some(t) ==> opt_text(r) == Some(truncated(t@, max as nat)),
{
    match s {
        None => None,
        Some(t) => {
            if t.unicode_len() > max {
                let mut head: String = t.substring_char(0, max).to_owned();
                head.append(TRUNCATED_SUFFIX);
                Some(head)
            } else {
                Some(t.to_owned())
            }
        },
    }
}

/// Truncation bounds size: whatever the text, no more than `max` characters of
/// it remain, and at most the marker comes on top.
pub proof fn law_truncation_bounds_size(s: Seq<char>, max: nat)
    ensures
        truncated(s, max).len() <= max + TRUNCATED_SUFFIX@.len(),
        s.take(if s.len() > max { max as int } else { s.len() as int }).is_prefix_of(
            truncated(s, max),
        ),
{
}

proof fn lemma_leading_digit(n: nat)
    requires
        n > 0,
    ensures
        decimal_nat(n).len() > 0,
        decimal_nat(n)[0] != '0',
    decreases n,
{
    if n >= 10 {
        lemma_leading_digit(n / 10);
    }
}

/// A decimal numeral holds the number and nothing else: its digits denote the
/// number, it has no leading zero, and a `-` stands in front of exactly the
/// negative ones.
pub proof fn law_decimal_is_canonical(n: int)
    ensures
        n >= 0 ==> is_numeral(decimal(n)) && numeral_value(decimal(n)) == n,
        n > 0 ==> decimal(n)[0] != '0',
        n < 0 ==> {
            &&& decimal(n).len() > 1
            &&& decimal(n)[0] == '-'
            &&& decimal(n)[1] != '0'
            &&& is_numeral(decimal(n).drop_first())
            &&& numeral_value(decimal(n).drop_first()) == -n
        },
{
    if n > 0 {
        lemma_leading_digit(n as nat);
    }
    if n >= 0 {
        law_decimal_reads_back(n as nat);
    } else {
        lemma_leading_digit((-n) as nat);
        law_decimal_reads_back((-n) as nat);
        assert(decimal(n).drop_first() =~= decimal_nat((-n) as nat));
    }
}

/// Numerals are positional: a digit more makes ten times the number and the
/// digit, and nothing but the ten digits may stand in one.
pub proof fn law_numerals_are_positional(s: Seq<char>, c: char)
    ensures
        is_numeral(s.push(c)) <==> (s.len() == 0 || is_numeral(s)) && '0' <= c <= '9',
        !is_numeral(Seq::<char>::empty()),
        numeral_value(Seq::<char>::empty()) == 0,
        '0' <= c <= '9' ==> numeral_value(s.push(c)) == 10 * numeral_value(s) + (c as int
            - '0' as int),
{
    let longer = s.push(c);
    assert(longer.drop_last() =~= s);
    assert(longer.last() == c);
    if is_numeral(longer) {
        assert(is_digit(longer[s.len() as int]));
        assert forall|i: int| 0 <= i < s.len() implies is_digit(#[trigger] s[i]) by {
            assert(is_digit(longer[i]));
        }
    }
    if (s.len() == 0 || is_numeral(s)) && '0' <= c <= '9' {
        assert forall|i: int| 0 <= i < longer.len() implies is_digit(#[trigger] longer[i]) by {
            if i < s.len() {
                assert(is_digit(s[i]));
            }
        }
    }
}

/// Joining keeps every part as it is and puts one comma between neighbours:
/// lists that are joined one behind the other have a comma between them, and a
/// part by itself is the whole result.
pub proof fn law_joining_keeps_every_part(
    a: Seq<Seq<char>>,
    b: Seq<Seq<char>>,
    part: Seq<char>,
)
    requires
        a.len() > 0,
        b.len() > 0,
    ensures
        comma_joined(a + b) == comma_joined(a) + seq![','] + comma_joined(b),
        comma_joined(seq![part]) == part,
        comma_joined(Seq::empty()) == Seq::<char>::empty(),
    decreases b.len(),
{
    let all = a + b;
    assert(all.last() == b.last());
    if b.len() == 1 {
        assert(all.drop_last() =~= a);
        assert(comma_joined(all) =~= comma_joined(a) + seq![','] + comma_joined(b));
    } else {
        law_joining_keeps_every_part(a, b.drop_last(), part);
        assert(all.drop_last() =~= a + b.drop_last());
        assert(comma_joined(all) =~= comma_joined(a) + seq![','] + comma_joined(b));
    }
}

/// A text is cut only if it is too long: one of at most `max` characters stays
/// whole and unmarked, and of a longer one the first `max` characters remain,
/// with the marker behind them.
pub proof fn law_only_long_text_is_cut(s: Seq<char>, max: nat)
    ensures
        s.len() <= max ==> truncated(s, max) == s,
        s.len() > max ==> truncated(s, max) == s.take(max as int) + "\n...[truncated]"@,
{
}

/// The contents of strings are those of each string, in their order, and where
/// there is no string there are none.
pub proof fn law_contents_of_strings(list: Seq<String>, s: String)
    ensures
        texts(list).len() == list.len(),
        forall|i: int| 0 <= i < list.len() ==> #[trigger] texts(list)[i] == list[i]@,
        opt_text(Some(s)) == Some(s@),
        opt_text(None) is None,
{
}

} // verus!
