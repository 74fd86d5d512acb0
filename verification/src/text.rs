//! Text helpers shared by the renderers.

use vstd::prelude::*;

verus! {

/// `serde_json::Error`, carried unread from the encoder to its caller.
#[verifier::external_type_specification]
#[verifier::external_body]
pub struct ExJsonError(serde_json::Error);

/// The compact JSON string literal for `text`, quotes and escapes included.
pub uninterp spec fn json_string_text(text: Seq<char>) -> Seq<char>;

/// Calls `serde_json::to_string` on a string slice. What it yields depends on
/// the text alone. It succeeds on every text: encoding a string fails only
/// where the writer fails, and the writer is a `Vec`, which takes every write.
#[verifier::external_body]
pub(crate) fn json_quote(text: &str) -> (r: Result<String, serde_json::Error>)
    ensures
        r is Ok,
        r matches Ok(quoted) ==> quoted@ == json_string_text(text@),
{
    serde_json::to_string(text)
}

/// Appends the JSON string literal for `text` to `out`.
pub fn append_quoted(out: &mut String, text: &str)
    ensures
        final(out)@ == old(out)@ + json_string_text(text@),
{
    match json_quote(text) {
        Ok(q) => out.append(q.as_str()),
        Err(_) => unreached(),
    }
}

/// The decimal digit for `d`, where `0 <= d < 10`.
pub open spec fn digit_char(d: int) -> char {
    if d == 0 {
        '0'
    } else if d == 1 {
        '1'
    } else if d == 2 {
        '2'
    } else if d == 3 {
        '3'
    } else if d == 4 {
        '4'
    } else if d == 5 {
        '5'
    } else if d == 6 {
        '6'
    } else if d == 7 {
        '7'
    } else if d == 8 {
        '8'
    } else {
        '9'
    }
}

/// Decimal digits of a natural number, most significant first, no leading zero.
pub open spec fn digits_text(n: nat) -> Seq<char>
    decreases n,
{
    if n < 10 {
        seq![digit_char(n as int)]
    } else {
        digits_text(n / 10).push(digit_char((n % 10) as int))
    }
}

/// Decimal rendering of an integer: a minus sign for negatives, then the digits.
pub open spec fn decimal_text(n: int) -> Seq<char> {
    if n < 0 {
        seq!['-'] + digits_text((-n) as nat)
    } else {
        digits_text(n as nat)
    }
}

/// The text of one decimal digit.
fn digit_text(d: u64) -> (r: &'static str)
    requires
        d < 10,
    ensures
        r@ == seq![digit_char(d as int)],
{
    proof {
        reveal_strlit("0");
        reveal_strlit("1");
        reveal_strlit("2");
        reveal_strlit("3");
        reveal_strlit("4");
        reveal_strlit("5");
        reveal_strlit("6");
        reveal_strlit("7");
        reveal_strlit("8");
        reveal_strlit("9");
    }
    let r = if d == 0 {
        "0"
    } else if d == 1 {
        "1"
    } else if d == 2 {
        "2"
    } else if d == 3 {
        "3"
    } else if d == 4 {
        "4"
    } else if d == 5 {
        "5"
    } else if d == 6 {
        "6"
    } else if d == 7 {
        "7"
    } else if d == 8 {
        "8"
    } else {
        "9"
    };
    assert(r@ =~= seq![digit_char(d as int)]);
    r
}

/// Appends the decimal digits of `n`.
fn append_digits(out: &mut String, n: u64)
    ensures
        final(out)@ == old(out)@ + digits_text(n as nat),
    decreases n,
{
    if n >= 10 {
        append_digits(out, n / 10);
    }
    out.append(digit_text(n % 10));
    assert(out@ =~= old(out)@ + digits_text(n as nat));
}

/// Renders an integer in decimal.
pub fn decimal(n: i64) -> (r: String)
    ensures
        r@ == decimal_text(n as int),
{
    let mut out = String::new();
    if n < 0 {
        out.append("-");
        proof {
            reveal_strlit("-");
            assert("-"@ =~= seq!['-']);
        }
        let magnitude: u64 = if n == i64::MIN {
            9_223_372_036_854_775_808
        } else {
            (-n) as u64
        };
        append_digits(&mut out, magnitude);
    } else {
        append_digits(&mut out, n as u64);
    }
    assert(out@ =~= decimal_text(n as int));
    out
}

/// `text` without its trailing run of `c`.
pub open spec fn strip_trailing(text: Seq<char>, c: char) -> Seq<char>
    decreases text.len(),
{
    if text.len() > 0 && text.last() == c {
        strip_trailing(text.drop_last(), c)
    } else {
        text
    }
}

/// Removes every trailing `c` from `text`.
pub fn trim_trailing(text: &str, c: char) -> (r: String)
    ensures
        r@ == strip_trailing(text@, c),
{
    let mut end: usize = text.unicode_len();
    proof {
        assert(text@.subrange(0, end as int) == text@);
    }
    while end > 0 && text.get_char(end - 1) == c
        invariant
            end <= text@.len(),
            strip_trailing(text@, c) == strip_trailing(text@.subrange(0, end as int), c),
        decreases end,
    {
        proof {
            let cur = text@.subrange(0, end as int);
            assert(cur.last() == text@[end - 1]);
            assert(cur.drop_last() == text@.subrange(0, end - 1));
        }
        end = end - 1;
    }
    String::from_str(text.substring_char(0, end))
}

/// Whether `text` ends with `suffix`.
pub open spec fn has_suffix(text: Seq<char>, suffix: Seq<char>) -> bool {
    suffix.len() <= text.len() && text.subrange(text.len() - suffix.len(), text.len() as int)
        == suffix
}

/// `text` without its trailing run of copies of `suffix`.
pub open spec fn strip_trailing_text(text: Seq<char>, suffix: Seq<char>) -> Seq<char>
    decreases text.len(),
{
    if suffix.len() > 0 && has_suffix(text, suffix) {
        strip_trailing_text(text.subrange(0, text.len() - suffix.len()), suffix)
    } else {
        text
    }
}

/// Whether the first `end` characters of `text` end with `suffix`.
fn prefix_ends_with(text: &str, end: usize, suffix: &str) -> (r: bool)
    requires
        end <= text@.len(),
    ensures
        r == has_suffix(text@.subrange(0, end as int), suffix@),
{
    let m = suffix.unicode_len();
    if m > end {
        return false;
    }
    let start = end - m;
    let ghost head = text@.subrange(0, end as int);
    let ghost tail = head.subrange(head.len() - suffix@.len(), head.len() as int);
    let mut i: usize = 0;
    while i < m
        invariant
            i <= m,
            m == suffix@.len(),
            start + m == end,
            end <= text@.len(),
            head == text@.subrange(0, end as int),
            tail == head.subrange(head.len() - suffix@.len(), head.len() as int),
            forall|k: int| 0 <= k < i ==> tail[k] == suffix@[k],
        decreases m - i,
    {
        if text.get_char(start + i) != suffix.get_char(i) {
            assert(tail[i as int] != suffix@[i as int]);
            return false;
        }
        i = i + 1;
    }
    assert(tail =~= suffix@);
    true
}

/// Removes every trailing copy of `suffix` from `text`.
pub fn trim_trailing_text(text: &str, suffix: &str) -> (r: String)
    ensures
        r@ == strip_trailing_text(text@, suffix@),
{
    let m = suffix.unicode_len();
    let mut end: usize = text.unicode_len();
    proof {
        assert(text@.subrange(0, end as int) == text@);
    }
    while m > 0 && prefix_ends_with(text, end, suffix)
        invariant
            end <= text@.len(),
            m == suffix@.len(),
            strip_trailing_text(text@, suffix@) == strip_trailing_text(
                text@.subrange(0, end as int),
                suffix@,
            ),
        decreases end,
    {
        proof {
            let cur = text@.subrange(0, end as int);
            assert(cur.subrange(0, cur.len() - suffix@.len()) == text@.subrange(0, end - m));
        }
        end = end - m;
    }
    String::from_str(text.substring_char(0, end))
}

/// The value of a decimal digit.
pub open spec fn digit_value(c: char) -> Option<nat> {
    if c == '0' {
        Some(0)
    } else if c == '1' {
        Some(1)
    } else if c == '2' {
        Some(2)
    } else if c == '3' {
        Some(3)
    } else if c == '4' {
        Some(4)
    } else if c == '5' {
        Some(5)
    } else if c == '6' {
        Some(6)
    } else if c == '7' {
        Some(7)
    } else if c == '8' {
        Some(8)
    } else if c == '9' {
        Some(9)
    } else {
        None
    }
}

/// The number that a run of decimal digits denotes; `None` where some
/// character is no digit.
pub open spec fn digits_value(digits: Seq<char>) -> Option<nat>
    decreases digits.len(),
{
    if digits.len() == 0 {
        Some(0)
    } else {
        match (digits_value(digits.drop_last()), digit_value(digits.last())) {
            (Some(v), Some(d)) => Some(v * 10 + d),
            _ => None,
        }
    }
}

/// The unsigned 64-bit number that `text` denotes: an optional plus sign,
/// then at least one decimal digit and nothing else, within range.
pub open spec fn unsigned_value(text: Seq<char>) -> Option<u64> {
    let digits = if text.len() > 0 && text[0] == '+' {
        text.drop_first()
    } else {
        text
    };
    if digits.len() == 0 {
        None
    } else {
        match digits_value(digits) {
            Some(v) => if v <= u64::MAX {
                Some(v as u64)
            } else {
                None
            },
            None => None,
        }
    }
}

/// The value of a decimal digit.
fn digit_of(c: char) -> (r: Option<u64>)
    ensures
        match digit_value(c) {
            Some(d) => r == Some(d as u64),
            None => r is None,
        },
{
    if c == '0' {
        Some(0)
    } else if c == '1' {
        Some(1)
    } else if c == '2' {
        Some(2)
    } else if c == '3' {
        Some(3)
    } else if c == '4' {
        Some(4)
    } else if c == '5' {
        Some(5)
    } else if c == '6' {
        Some(6)
    } else if c == '7' {
        Some(7)
    } else if c == '8' {
        Some(8)
    } else if c == '9' {
        Some(9)
    } else {
        None
    }
}

/// A run of digits that denotes a number denotes at least the number of
/// each of its prefixes.
proof fn lemma_digits_value_grows(digits: Seq<char>, n: int)
    requires
        0 <= n <= digits.len(),
    ensures
        digits_value(digits.subrange(0, n)) is None ==> digits_value(digits) is None,
        digits_value(digits) matches Some(v) ==> digits_value(digits.subrange(0, n)).unwrap() <= v,
    decreases digits.len() - n,
{
    if n == digits.len() {
        assert(digits.subrange(0, n) == digits);
    } else {
        lemma_digits_value_grows(digits, n + 1);
        assert(digits.subrange(0, n + 1).drop_last() == digits.subrange(0, n));
    }
}

/// Reads an unsigned 64-bit number in decimal.
pub fn parse_u64(text: &str) -> (r: Option<u64>)
    ensures
        r == unsigned_value(text@),
{
    let n = text.unicode_len();
    let start: usize = if n > 0 && text.get_char(0) == '+' {
        1
    } else {
        0
    };
    if start == n {
        return None;
    }
    let ghost digits = text@.subrange(start as int, n as int);
    proof {
        if start == 1 {
            assert(digits == text@.drop_first());
        } else {
            assert(digits == text@);
        }
        assert(digits.subrange(0, 0) == Seq::<char>::empty());
    }
    let mut value: u64 = 0;
    let mut i: usize = start;
    while i < n
        invariant
            start <= i <= n,
            n == text@.len(),
            digits == text@.subrange(start as int, n as int),
            digits.len() > 0,
            digits == if text@.len() > 0 && text@[0] == '+' {
                text@.drop_first()
            } else {
                text@
            },
            digits_value(digits.subrange(0, i - start)) == Some(value as nat),
        decreases n - i,
    {
        let ghost seen = digits.subrange(0, i - start);
        let ghost more = digits.subrange(0, i - start + 1);
        proof {
            assert(more.drop_last() == seen);
            assert(more.last() == text@[i as int]);
            lemma_digits_value_grows(digits, i - start + 1);
        }
        let d = match digit_of(text.get_char(i)) {
            Some(d) => d,
            None => {
                return None;
            },
        };
        if value > (u64::MAX - d) / 10 {
            assert(value * 10 + d > u64::MAX);
            return None;
        }
        value = value * 10 + d;
        i = i + 1;
    }
    proof {
        assert(digits.subrange(0, n - start) == digits);
    }
    Some(value)
}

} // verus!
