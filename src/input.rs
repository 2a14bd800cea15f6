use crate::collection::Answer;
use crate::model::PROBABILITY_SCALE;
use vstd::prelude::*;
use vstd::string::StrSliceExecFns;

verus! {

/// Millionths in one percent.
pub const PERCENT: u32 = 10_000;

pub open spec fn is_digit(c: char) -> bool {
    '0' <= c <= '9'
}

/// A non-empty run of decimal digits.
pub open spec fn all_digits(s: Seq<char>) -> bool {
    s.len() > 0 && forall|i: int| 0 <= i < s.len() ==> is_digit(#[trigger] s[i])
}

/// The number that the decimal digits `s` write.
pub open spec fn decimal_value(s: Seq<char>) -> int
    decreases s.len(),
{
    if s.len() == 0 {
        0
    } else {
        decimal_value(s.drop_last()) * 10 + (s.last() as int - '0' as int)
    }
}

/// `s` without one trailing percent sign, if it has one.
pub open spec fn without_percent_sign(s: Seq<char>) -> Seq<char> {
    if s.len() > 0 && s.last() == '%' {
        s.drop_last()
    } else {
        s
    }
}

/// `s` without one leading plus sign, if it has one.
pub open spec fn without_plus_sign(s: Seq<char>) -> Seq<char> {
    if s.len() > 0 && s[0] == '+' {
        s.drop_first()
    } else {
        s
    }
}

/// The probability, in millionths, that a typed percentage stands for: a
/// whole number from 0 to 100, with an optional leading `+` and an optional
/// trailing `%`.
pub open spec fn spec_probability_input(s: Seq<char>) -> Option<int> {
    let digits = without_plus_sign(without_percent_sign(s));
    if all_digits(digits) && decimal_value(digits) <= 100 {
        Some(decimal_value(digits) * PERCENT)
    } else {
        None
    }
}

/// The characters of `s`, one by one.
fn chars_of(s: &str) -> (r: Vec<char>)
    ensures
        r@ == s@,
{
    let n = s.unicode_len();
    let mut r: Vec<char> = Vec::new();
    let mut i: usize = 0;
    while i < n
        invariant
            n == s@.len(),
            i <= n,
            r@ == s@.take(i as int),
        decreases n - i,
    {
        r.push(s.get_char(i));
        proof {
            assert(s@.take(i + 1) == s@.take(i as int).push(s@[i as int]));
        }
        i += 1;
    }
    assert(s@.take(n as int) == s@);
    r
}

proof fn lemma_decimal_value_nonnegative(s: Seq<char>)
    requires
        forall|i: int| 0 <= i < s.len() ==> is_digit(#[trigger] s[i]),
    ensures
        decimal_value(s) >= 0,
    decreases s.len(),
{
    if s.len() > 0 {
        lemma_decimal_value_nonnegative(s.drop_last());
    }
}

/// Reads a typed percentage such as `70`, `70%` or `+5`: the probability in
/// millionths, or none when the text is not a whole number from 0 to 100.
pub fn parse_probability(input: &str) -> (r: Option<u32>)
    ensures
        r matches Some(v) ==> spec_probability_input(input@) == Some(v as int),
        r is None ==> spec_probability_input(input@) is None,
        r matches Some(v) ==> v <= PROBABILITY_SCALE,
{
    let chars = chars_of(input);
    let mut end: usize = chars.len();
    if end > 0 && chars[end - 1] == '%' {
        end = end - 1;
    }
    let mut start: usize = 0;
    if end > 0 && chars[0] == '+' {
        start = 1;
    }
    let ghost digits = chars@.subrange(start as int, end as int);
    proof {
        let t = without_percent_sign(input@);
        assert(t == chars@.take(end as int));
        assert(without_plus_sign(t) == digits);
    }
    if start >= end {
        return None;
    }
    let mut value: u32 = 0;
    let mut i: usize = start;
    while i < end
        invariant
            start <= i <= end,
            end <= chars@.len(),
            digits == chars@.subrange(start as int, end as int),
            digits == without_plus_sign(without_percent_sign(input@)),
            forall|j: int| start <= j < i ==> is_digit(#[trigger] chars@[j]),
            value <= 101,
            value == (if decimal_value(chars@.subrange(start as int, i as int)) > 100 {
                101
            } else {
                decimal_value(chars@.subrange(start as int, i as int))
            }),
        decreases end - i,
    {
        let c = chars[i];
        if !('0' <= c && c <= '9') {
            proof {
                assert(digits[i - start] == c);
                assert(!is_digit(digits[i - start]));
                assert(!all_digits(digits));
            }
            return None;
        }
        let ghost before = chars@.subrange(start as int, i as int);
        let ghost after = chars@.subrange(start as int, i + 1);
        proof {
            assert(after.drop_last() == before);
            assert(after.last() == c);
            assert forall|j: int| 0 <= j < before.len() implies is_digit(#[trigger] before[j]) by {
                assert(before[j] == chars@[start + j]);
            }
            lemma_decimal_value_nonnegative(before);
        }
        let d: u32 = (c as u32) - ('0' as u32);
        let next: u32 = value * 10 + d;
        value = if next > 100 {
            101
        } else {
            next
        };
        i += 1;
    }
    proof {
        assert(chars@.subrange(start as int, end as int) == digits);
        assert forall|j: int| 0 <= j < digits.len() implies is_digit(#[trigger] digits[j]) by {
            assert(digits[j] == chars@[start + j]);
        }
    }
    if value > 100 {
        None
    } else {
        Some(value * PERCENT)
    }
}

/// What a typed answer to "how did this prediction resolve?" means, once
/// folded to lower case; none when it is not understood.
pub open spec fn spec_answer(folded: Seq<char>) -> Option<Answer> {
    if folded == "true"@ || folded == "t"@ || folded == "yes"@ || folded == "y"@ || folded
        == "0"@ {
        Some(Answer::Resolve(true))
    } else if folded == "false"@ || folded == "f"@ || folded == "no"@ || folded == "n"@
        || folded == "1"@ {
        Some(Answer::Resolve(false))
    } else if folded == "skip"@ || folded == "s"@ {
        Some(Answer::Skip)
    } else {
        None
    }
}

/// Whether `a` and `b` hold the same characters.
fn same_text(a: &str, b: &str) -> (r: bool)
    ensures
        r == (a@ == b@),
{
    let x = chars_of(a);
    let y = chars_of(b);
    if x.len() != y.len() {
        return false;
    }
    let mut i: usize = 0;
    while i < x.len()
        invariant
            x@ == a@,
            y@ == b@,
            x@.len() == y@.len(),
            i <= x@.len(),
            forall|j: int| 0 <= j < i ==> x@[j] == y@[j],
        decreases x@.len() - i,
    {
        if x[i] != y[i] {
            return false;
        }
        i += 1;
    }
    assert(x@ == y@);
    true
}

/// Reads an answer that is already in lower case.
pub fn parse_folded_answer(folded: &str) -> (r: Option<Answer>)
    ensures
        r == spec_answer(folded@),
{
    if same_text(folded, "true") || same_text(folded, "t") || same_text(folded, "yes")
        || same_text(folded, "y") || same_text(folded, "0") {
        Some(Answer::Resolve(true))
    } else if same_text(folded, "false") || same_text(folded, "f") || same_text(folded, "no")
        || same_text(folded, "n") || same_text(folded, "1") {
        Some(Answer::Resolve(false))
    } else if same_text(folded, "skip") || same_text(folded, "s") {
        Some(Answer::Skip)
    } else {
        None
    }
}

/// What `str::to_lowercase` makes of a text.
pub uninterp spec fn lower_of(s: Seq<char>) -> Seq<char>;

/// Relies on `str::to_lowercase`: the result depends on the characters
/// alone.
#[verifier::external_body]
fn lowercase(s: &str) -> (r: String)
    ensures
        r@ == lower_of(s@),
{
    s.to_lowercase()
}

/// Reads a typed answer in any mix of cases.
pub fn parse_answer(input: &str) -> (r: Option<Answer>)
    ensures
        r == spec_answer(lower_of(input@)),
{
    let folded = lowercase(input);
    parse_folded_answer(folded.as_str())
}

} // verus!
