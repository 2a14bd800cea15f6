use crate::model::{ResolvedPrediction, PROBABILITY_SCALE};
use vstd::prelude::*;

verus! {

/// Width of one calibration bin, in millionths: 0.05.
pub const BIN_WIDTH: u32 = 50_000;

/// Index of the lowest calibration bin, [0.50, 0.55).
pub const FIRST_BIN: u32 = 10;

/// Index of the highest calibration bin, [0.95, 1.00].
pub const LAST_BIN: u32 = 19;

/// A non-negative rational number, `numerator / denominator`.
#[derive(Clone, Copy, Debug, PartialEq, Eq, Structural)]
pub struct Fraction {
    pub numerator: u128,
    pub denominator: u128,
}

/// `score` was asked about no resolved prediction at all.
#[derive(Clone, Copy, Debug, PartialEq, Eq, Structural)]
pub struct EmptyInputError;

/// The probability seen from the side the forecaster leaned to: below one
/// half it is mirrored to `1 - p`.
pub open spec fn confident_probability(p: int) -> int {
    if p < PROBABILITY_SCALE / 2 {
        PROBABILITY_SCALE - p
    } else {
        p
    }
}

/// Whether the forecast came out right, seen from the side the forecaster
/// leaned to: below one half, a false outcome is the right one.
pub open spec fn confident_correct(p: int, outcome: bool) -> bool {
    if p < PROBABILITY_SCALE / 2 {
        !outcome
    } else {
        outcome
    }
}

/// The calibration bin of probability `p`: `floor(20 * p')` for the
/// confident probability `p'`, with certainty counted in the highest bin.
pub open spec fn bin_of(p: int) -> int {
    let b = confident_probability(p) / BIN_WIDTH as int;
    if b > LAST_BIN {
        LAST_BIN as int
    } else {
        b
    }
}

/// How many predictions of `s` fall into bin `bin` and came out right
/// (`correct`) or wrong (`!correct`).
pub open spec fn count_in_bin(s: Seq<ResolvedPrediction>, bin: int, correct: bool) -> nat
    decreases s.len(),
{
    if s.len() == 0 {
        0
    } else {
        let p = s.last();
        count_in_bin(s.drop_last(), bin, correct) + if bin_of(p.record.probability as int) == bin
            && confident_correct(p.record.probability as int, p.resolved_to) == correct {
            1nat
        } else {
            0nat
        }
    }
}

/// Observations in the bins `lo` up to but excluding `hi`.
pub open spec fn count_in_bins(s: Seq<ResolvedPrediction>, lo: int, hi: int) -> nat
    decreases hi - lo,
{
    if hi <= lo {
        0
    } else {
        count_in_bins(s, lo, hi - 1) + count_in_bin(s, hi - 1, true) + count_in_bin(
            s,
            hi - 1,
            false,
        )
    }
}

/// The observations of one calibration bin.
#[derive(Clone, Copy, Debug, PartialEq, Eq, Structural)]
pub struct BinReport {
    /// The bin covers [index * 0.05, (index + 1) * 0.05).
    pub index: u32,
    pub correct: u32,
    pub incorrect: u32,
}

/// Observations over all of `reports`.
pub open spec fn reports_total(reports: Seq<BinReport>) -> int
    decreases reports.len(),
{
    if reports.len() == 0 {
        0
    } else {
        reports_total(reports.drop_last()) + reports.last().correct + reports.last().incorrect
    }
}

impl BinReport {
    /// Lower bound of the bin, in millionths.
    pub fn lower(&self) -> (r: u32)
        requires
            self.index <= LAST_BIN,
        ensures
            r == self.index * BIN_WIDTH,
    {
        self.index * BIN_WIDTH
    }

    /// Upper bound of the bin, in millionths.
    pub fn upper(&self) -> (r: u32)
        requires
            self.index <= LAST_BIN,
        ensures
            r == (self.index + 1) * BIN_WIDTH,
    {
        (self.index + 1) * BIN_WIDTH
    }

    /// The share of right forecasts in the bin; none when the bin is empty,
    /// which is not the same as no right forecast.
    pub fn accuracy(&self) -> (r: Option<Fraction>)
        ensures
            self.correct + self.incorrect == 0 ==> r is None,
            self.correct + self.incorrect > 0 ==> r == Some(
                Fraction {
                    numerator: self.correct as u128,
                    denominator: (self.correct + self.incorrect) as u128,
                },
            ),
    {
        let total: u64 = self.correct as u64 + self.incorrect as u64;
        if total == 0 {
            None
        } else {
            Some(Fraction { numerator: self.correct as u128, denominator: total as u128 })
        }
    }
}

/// The calibration bin of a probability, with the outcome that counts as
/// right there.
pub fn classify(probability: u32, outcome: bool) -> (r: (u32, bool))
    ensures
        r.0 == bin_of(probability as int),
        r.1 == confident_correct(probability as int, outcome),
        FIRST_BIN <= r.0 <= LAST_BIN,
{
    let half: u32 = PROBABILITY_SCALE / 2;
    let (p, correct) = if probability < half {
        (PROBABILITY_SCALE - probability, !outcome)
    } else {
        (probability, outcome)
    };
    let b = p / BIN_WIDTH;
    if b > LAST_BIN {
        (LAST_BIN, correct)
    } else {
        (b, correct)
    }
}

proof fn lemma_count_bounded(s: Seq<ResolvedPrediction>, bin: int, correct: bool)
    ensures
        count_in_bin(s, bin, correct) <= s.len(),
    decreases s.len(),
{
    if s.len() > 0 {
        lemma_count_bounded(s.drop_last(), bin, correct);
    }
}

/// Adding one prediction to `s` adds one observation to the bins `lo..hi`
/// when its bin lies among them, and none otherwise.
proof fn lemma_count_in_bins_step(s: Seq<ResolvedPrediction>, lo: int, hi: int)
    requires
        s.len() > 0,
    ensures
        count_in_bins(s, lo, hi) == count_in_bins(s.drop_last(), lo, hi) + if lo <= bin_of(
            s.last().record.probability as int,
        ) < hi {
            1int
        } else {
            0int
        },
    decreases hi - lo,
{
    if hi > lo {
        lemma_count_in_bins_step(s, lo, hi - 1);
    }
}

/// Every resolved prediction lands in exactly one of the calibration bins,
/// so the bins together hold as many observations as there are predictions.
pub proof fn law_bins_cover_all(s: Seq<ResolvedPrediction>)
    ensures
        count_in_bins(s, FIRST_BIN as int, LAST_BIN + 1) == s.len(),
    decreases s.len(),
{
    if s.len() > 0 {
        law_bins_cover_all(s.drop_last());
        lemma_count_in_bins_step(s, FIRST_BIN as int, LAST_BIN + 1);
        lemma_bin_range(s.last().record.probability as int);
    } else {
        lemma_no_observations(s, FIRST_BIN as int, LAST_BIN + 1);
    }
}

proof fn lemma_no_observations(s: Seq<ResolvedPrediction>, lo: int, hi: int)
    requires
        s.len() == 0,
    ensures
        count_in_bins(s, lo, hi) == 0,
    decreases hi - lo,
{
    if hi > lo {
        lemma_no_observations(s, lo, hi - 1);
    }
}

/// Every probability that is not negative lands in one of the ten bins.
proof fn lemma_bin_range(p: int)
    requires
        p >= 0,
    ensures
        FIRST_BIN <= bin_of(p) <= LAST_BIN,
{
    assert(confident_probability(p) >= PROBABILITY_SCALE / 2);
    assert(confident_probability(p) / BIN_WIDTH as int >= FIRST_BIN) by (nonlinear_arith)
        requires
            confident_probability(p) >= 500_000,
            BIN_WIDTH == 50_000,
            FIRST_BIN == 10,
    ;
}

/// Away from exactly one half, a forecast of `p` that came out `outcome`
/// counts in calibration as the mirrored forecast of `1 - p` that came out
/// the other way: same bin, same verdict.
pub proof fn law_mirror_symmetry(p: int, outcome: bool)
    requires
        0 <= p <= PROBABILITY_SCALE,
        p != PROBABILITY_SCALE / 2,
    ensures
        bin_of(p) == bin_of(PROBABILITY_SCALE - p),
        confident_correct(p, outcome) == confident_correct(PROBABILITY_SCALE - p, !outcome),
{
}

/// The calibration report over `resolved`: one `BinReport` for each bin
/// from [0.50, 0.55) up to [0.95, 1.00], in ascending order, empty bins
/// included.
pub fn tally(resolved: &Vec<ResolvedPrediction>) -> (r: Vec<BinReport>)
    requires
        resolved@.len() <= u32::MAX,
    ensures
        r@.len() == LAST_BIN - FIRST_BIN + 1,
        forall|k: int|
            0 <= k < r@.len() ==> #[trigger] r@[k] == (BinReport {
                index: (FIRST_BIN + k) as u32,
                correct: count_in_bin(resolved@, FIRST_BIN + k, true) as u32,
                incorrect: count_in_bin(resolved@, FIRST_BIN + k, false) as u32,
            }),
        reports_total(r@) == resolved@.len(),
{
    let ghost s = resolved@;
    let n_bins: usize = (LAST_BIN - FIRST_BIN + 1) as usize;
    let mut right: Vec<u32> = vec![0u32; n_bins];
    let mut wrong: Vec<u32> = vec![0u32; n_bins];
    let n: usize = resolved.len();
    let mut i: usize = 0;
    while i < n
        invariant
            n == s.len(),
            s == resolved@,
            n <= u32::MAX,
            i <= n,
            right@.len() == n_bins,
            wrong@.len() == n_bins,
            n_bins == LAST_BIN - FIRST_BIN + 1,
            forall|k: int|
                0 <= k < n_bins ==> #[trigger] right@[k] == count_in_bin(
                    s.take(i as int),
                    FIRST_BIN + k,
                    true,
                ),
            forall|k: int|
                0 <= k < n_bins ==> #[trigger] wrong@[k] == count_in_bin(
                    s.take(i as int),
                    FIRST_BIN + k,
                    false,
                ),
        decreases n - i,
    {
        let p = &resolved[i];
        let (bin, ok) = classify(p.record.probability, p.is_correct());
        let slot: usize = (bin - FIRST_BIN) as usize;
        proof {
            assert(s.take(i + 1).drop_last() == s.take(i as int));
            assert(s.take(i + 1).last() == s[i as int]);
            lemma_count_bounded(s.take(i as int), bin as int, ok);
        }
        if ok {
            let c = right[slot];
            right.set(slot, c + 1);
        } else {
            let c = wrong[slot];
            wrong.set(slot, c + 1);
        }
        i += 1;
    }
    assert(s.take(n as int) == s);
    let mut reports: Vec<BinReport> = Vec::new();
    let mut k: usize = 0;
    while k < n_bins
        invariant
            k <= n_bins,
            n_bins == LAST_BIN - FIRST_BIN + 1,
            right@.len() == n_bins,
            wrong@.len() == n_bins,
            forall|j: int|
                0 <= j < n_bins ==> #[trigger] right@[j] == count_in_bin(s, FIRST_BIN + j, true),
            forall|j: int|
                0 <= j < n_bins ==> #[trigger] wrong@[j] == count_in_bin(s, FIRST_BIN + j, false),
            reports@.len() == k,
            forall|j: int|
                0 <= j < k ==> #[trigger] reports@[j] == (BinReport {
                    index: (FIRST_BIN + j) as u32,
                    correct: count_in_bin(s, FIRST_BIN + j, true) as u32,
                    incorrect: count_in_bin(s, FIRST_BIN + j, false) as u32,
                }),
            reports_total(reports@) == count_in_bins(s, FIRST_BIN as int, FIRST_BIN + k),
        decreases n_bins - k,
    {
        let report = BinReport {
            index: FIRST_BIN + k as u32,
            correct: right[k],
            incorrect: wrong[k],
        };
        let ghost earlier = reports@;
        reports.push(report);
        proof {
            assert(reports@.drop_last() == earlier);
        }
        k += 1;
    }
    proof {
        law_bins_cover_all(s);
    }
    reports
}

/// The squared distance, in millionths squared, between probability `p`
/// and what happened (certainty if `outcome`, else impossibility).
pub open spec fn squared_error(p: int, outcome: bool) -> int {
    let actual = if outcome {
        PROBABILITY_SCALE as int
    } else {
        0
    };
    (p - actual) * (p - actual)
}

/// The squared errors of all of `s`, added up.
pub open spec fn squared_error_sum(s: Seq<ResolvedPrediction>) -> int
    decreases s.len(),
{
    if s.len() == 0 {
        0
    } else {
        squared_error_sum(s.drop_last()) + squared_error(
            s.last().record.probability as int,
            s.last().resolved_to,
        )
    }
}

proof fn lemma_squared_error_sum_bound(s: Seq<ResolvedPrediction>)
    ensures
        0 <= squared_error_sum(s) <= s.len() * u64::MAX,
    decreases s.len(),
{
    if s.len() > 0 {
        lemma_squared_error_sum_bound(s.drop_last());
        let p = s.last().record.probability as int;
        let a: int = if s.last().resolved_to {
            PROBABILITY_SCALE as int
        } else {
            0
        };
        assert((p - a) * (p - a) <= u64::MAX) by (nonlinear_arith)
            requires
                0 <= p <= u32::MAX,
                0 <= a <= u32::MAX,
        ;
        assert((p - a) * (p - a) >= 0) by (nonlinear_arith);
    }
}

/// The Brier score of `resolved`: the mean, over the predictions, of the
/// squared distance between probability and outcome, as a fraction of
/// probabilities squared (its denominator carries the scale twice). An
/// empty input has no score.
pub fn score(resolved: &Vec<ResolvedPrediction>) -> (r: Result<Fraction, EmptyInputError>)
    ensures
        resolved@.len() == 0 ==> r == Err::<Fraction, _>(EmptyInputError),
        resolved@.len() > 0 ==> r == Ok::<_, EmptyInputError>(
            Fraction {
                numerator: squared_error_sum(resolved@) as u128,
                denominator: (resolved@.len() * PROBABILITY_SCALE * PROBABILITY_SCALE) as u128,
            },
        ),
{
    let ghost s = resolved@;
    let n: usize = resolved.len();
    if n == 0 {
        return Err(EmptyInputError);
    }
    let mut sum: u128 = 0;
    let mut i: usize = 0;
    while i < n
        invariant
            n == s.len(),
            s == resolved@,
            i <= n,
            sum == squared_error_sum(s.take(i as int)),
        decreases n - i,
    {
        let p = &resolved[i];
        let probability = p.record.probability;
        let actual: u32 = if p.is_correct() {
            PROBABILITY_SCALE
        } else {
            0
        };
        let d: u32 = if probability >= actual {
            probability - actual
        } else {
            actual - probability
        };
        assert(d as u128 * d as u128 <= u64::MAX) by (nonlinear_arith)
            requires
                d <= u32::MAX,
        ;
        let sq: u128 = d as u128 * d as u128;
        proof {
            assert(s.take(i + 1).drop_last() == s.take(i as int));
            assert(s.take(i + 1).last() == s[i as int]);
            let x = probability as int - actual as int;
            assert(sq == x * x) by (nonlinear_arith)
                requires
                    sq == d * d,
                    d == x || d == -x,
            ;
            lemma_squared_error_sum_bound(s.take(i as int));
            assert(sum + sq <= u128::MAX) by (nonlinear_arith)
                requires
                    sum <= i * u64::MAX,
                    sq <= u64::MAX,
                    i < n,
                    n <= u64::MAX,
            ;
        }
        sum = sum + sq;
        i += 1;
    }
    assert(s.take(n as int) == s);
    let squared_scale: u128 = PROBABILITY_SCALE as u128 * PROBABILITY_SCALE as u128;
    assert(n as u128 * squared_scale <= u128::MAX) by (nonlinear_arith)
        requires
            n <= u64::MAX,
            squared_scale == 1_000_000_000_000u128,
    ;
    let denominator: u128 = n as u128 * squared_scale;
    Ok(Fraction { numerator: sum, denominator })
}

} // verus!
