use crate::collection::Predictions;
use crate::model::{OpenPrediction, ResolvedPrediction};
use crate::time::Timestamp;
use vstd::prelude::*;
use vstd::string::{StrSliceExecFns, StringExecFns};

verus! {

/// The character that writes the decimal digit `d`.
pub open spec fn digit_char(d: int) -> char {
    seq!['0', '1', '2', '3', '4', '5', '6', '7', '8', '9'][d]
}

/// The decimal digits of `n`, without leading zeros.
pub open spec fn decimal_text(n: nat) -> Seq<char>
    decreases n,
{
    if n < 10 {
        seq![digit_char(n as int)]
    } else {
        decimal_text(n / 10).push(digit_char((n % 10) as int))
    }
}

/// A probability in millionths as a percentage with one decimal, rounded
/// half up: 700_000 is `70.0`, 1_250 is `0.1`.
pub open spec fn percent_text(probability: nat) -> Seq<char> {
    let tenths = (probability + 500) / 1000;
    decimal_text(tenths / 10) + seq!['.', digit_char((tenths % 10) as int)]
}

/// Appends the digit `d`.
fn append_digit(out: &mut String, d: u64)
    requires
        d < 10,
    ensures
        final(out)@ == old(out)@.push(digit_char(d as int)),
{
    let digits = "0123456789";
    proof {
        reveal_strlit("0123456789");
        assert(digits@ == seq!['0', '1', '2', '3', '4', '5', '6', '7', '8', '9']);
    }
    let one = digits.substring_char(d as usize, d as usize + 1);
    assert(one@ == seq![digit_char(d as int)]);
    out.append(one);
}

/// Appends the decimal digits of `n`.
fn append_decimal(out: &mut String, n: u64)
    ensures
        final(out)@ == old(out)@ + decimal_text(n as nat),
    decreases n,
{
    if n >= 10 {
        append_decimal(out, n / 10);
    }
    append_digit(out, n % 10);
    assert(old(out)@ + decimal_text(n as nat) == if n >= 10 {
        old(out)@ + decimal_text((n / 10) as nat) + seq![digit_char((n % 10) as int)]
    } else {
        old(out)@ + seq![digit_char(n as int)]
    });
}

/// Appends `probability`, given in millionths, as a percentage.
fn append_percent(out: &mut String, probability: u32)
    ensures
        final(out)@ == old(out)@ + percent_text(probability as nat),
{
    let tenths: u64 = (probability as u64 + 500) / 1000;
    append_decimal(out, tenths / 10);
    out.append(".");
    proof {
        reveal_strlit(".");
    }
    append_digit(out, tenths % 10);
    assert(out@ == old(out)@ + percent_text(probability as nat));
}

/// How chrono's `Display` writes a point in time in its own offset, such as
/// `1970-01-01 01:00:00 +01:00`; none where chrono's calendar does not reach.
pub uninterp spec fn date_text_of(seconds: int, nanos: int, offset: int) -> Option<Seq<char>>;

/// Relies on chrono's `DateTime::from_timestamp`, `FixedOffset::east_opt`,
/// `DateTime::with_timezone` and the `Display` of `DateTime<FixedOffset>`:
/// the text depends on the three numbers alone.
#[verifier::external_body]
fn date_text(t: &Timestamp) -> (r: Option<String>)
    ensures
        r matches Some(s) ==> date_text_of(t.seconds as int, t.nanos as int, t.offset as int)
            == Some(s@),
        r is None ==> date_text_of(t.seconds as int, t.nanos as int, t.offset as int) is None,
{
    let offset = chrono::FixedOffset::east_opt(t.offset)?;
    let at = chrono::DateTime::from_timestamp(t.seconds, t.nanos)?;
    Some(at.with_timezone(&offset).to_string())
}

/// The text shown for a point in time: chrono's, or `?` where it has none.
pub open spec fn shown_date(t: Timestamp) -> Seq<char> {
    match date_text_of(t.seconds as int, t.nanos as int, t.offset as int) {
        Some(s) => s,
        None => seq!['?'],
    }
}

/// Appends the text shown for `t`.
fn append_date(out: &mut String, t: &Timestamp)
    ensures
        final(out)@ == old(out)@ + shown_date(*t),
{
    match date_text(t) {
        Some(s) => out.append(s.as_str()),
        None => {
            out.append("?");
            proof {
                reveal_strlit("?");
            }
        },
    }
}

/// The text shown for an open prediction.
pub open spec fn open_text(p: OpenPrediction) -> Seq<char> {
    "\nStatement: "@ + p.record.statement@ + "\nProbability: "@ + percent_text(
        p.record.probability as nat,
    ) + "%\nWill resolve after: "@ + shown_date(p.record.resolves_after) + "\n"@
}

/// The text shown for a resolved prediction.
pub open spec fn resolved_text(p: ResolvedPrediction) -> Seq<char> {
    "\nStatement: "@ + p.record.statement@ + "\nProbability: "@ + percent_text(
        p.record.probability as nat,
    ) + "%\nResolved on: "@ + shown_date(p.resolved_on) + "\nResolved: "@ + (if p.resolved_to {
        "true"@
    } else {
        "false"@
    }) + "\n"@
}

/// The texts of all of `s`, each followed by an empty line.
pub open spec fn open_list_text(s: Seq<OpenPrediction>) -> Seq<char>
    decreases s.len(),
{
    if s.len() == 0 {
        Seq::empty()
    } else {
        open_list_text(s.drop_last()) + open_text(s.last()) + "\n"@
    }
}

/// The texts of all of `s`, each followed by an empty line.
pub open spec fn resolved_list_text(s: Seq<ResolvedPrediction>) -> Seq<char>
    decreases s.len(),
{
    if s.len() == 0 {
        Seq::empty()
    } else {
        resolved_list_text(s.drop_last()) + resolved_text(s.last()) + "\n"@
    }
}

/// The listing of a whole collection: open predictions first, then the
/// resolved ones, with `None` under an empty heading.
pub open spec fn listing_text(p: Predictions) -> Seq<char> {
    "Open predictions:\n"@ + (if p.open@.len() == 0 {
        "None\n"@
    } else {
        open_list_text(p.open@)
    }) + "Resolved predictions:\n"@ + (if p.resolved@.len() == 0 {
        "None\n"@
    } else {
        resolved_list_text(p.resolved@)
    })
}

impl OpenPrediction {
    /// Appends the text shown for this prediction.
    fn append_to(&self, out: &mut String)
        ensures
            final(out)@ == old(out)@ + open_text(*self),
    {
        out.append("\nStatement: ");
        out.append(self.record.statement.as_str());
        out.append("\nProbability: ");
        append_percent(out, self.record.probability);
        out.append("%\nWill resolve after: ");
        append_date(out, &self.record.resolves_after);
        out.append("\n");
        assert(out@ == old(out)@ + open_text(*self));
    }

    /// The text shown for this prediction.
    pub fn render(&self) -> (r: String)
        ensures
            r@ == open_text(*self),
    {
        let mut out = String::new();
        self.append_to(&mut out);
        assert(out@ == open_text(*self));
        out
    }
}

impl ResolvedPrediction {
    /// Appends the text shown for this prediction.
    fn append_to(&self, out: &mut String)
        ensures
            final(out)@ == old(out)@ + resolved_text(*self),
    {
        out.append("\nStatement: ");
        out.append(self.record.statement.as_str());
        out.append("\nProbability: ");
        append_percent(out, self.record.probability);
        out.append("%\nResolved on: ");
        append_date(out, &self.resolved_on);
        out.append("\nResolved: ");
        if self.resolved_to {
            out.append("true");
        } else {
            out.append("false");
        }
        out.append("\n");
        assert(out@ == old(out)@ + resolved_text(*self));
    }

    /// The text shown for this prediction.
    pub fn render(&self) -> (r: String)
        ensures
            r@ == resolved_text(*self),
    {
        let mut out = String::new();
        self.append_to(&mut out);
        assert(out@ == resolved_text(*self));
        out
    }
}

impl Predictions {
    /// The listing of every prediction.
    pub fn render(&self) -> (r: String)
        ensures
            r@ == listing_text(*self),
    {
        let mut out = String::from_str("Open predictions:\n");
        let ghost head = out@;
        if self.open.len() == 0 {
            out.append("None\n");
        } else {
            let mut i: usize = 0;
            while i < self.open.len()
                invariant
                    i <= self.open@.len(),
                    out@ == head + open_list_text(self.open@.take(i as int)),
                decreases self.open@.len() - i,
            {
                proof {
                    assert(self.open@.take(i + 1).drop_last() == self.open@.take(i as int));
                }
                self.open[i].append_to(&mut out);
                out.append("\n");
                i += 1;
            }
            assert(self.open@.take(i as int) == self.open@);
        }
        out.append("Resolved predictions:\n");
        let ghost middle = out@;
        if self.resolved.len() == 0 {
            out.append("None\n");
        } else {
            let mut i: usize = 0;
            while i < self.resolved.len()
                invariant
                    i <= self.resolved@.len(),
                    out@ == middle + resolved_list_text(self.resolved@.take(i as int)),
                decreases self.resolved@.len() - i,
            {
                proof {
                    assert(self.resolved@.take(i + 1).drop_last() == self.resolved@.take(i as int));
                }
                self.resolved[i].append_to(&mut out);
                out.append("\n");
                i += 1;
            }
            assert(self.resolved@.take(i as int) == self.resolved@);
        }
        assert(out@ == listing_text(*self));
        out
    }
}

} // verus!
