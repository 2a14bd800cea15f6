use crate::time::{clock_now, Timestamp};
use vstd::prelude::*;

verus! {

/// Probabilities are held as whole millionths: `PROBABILITY_SCALE` stands
/// for certainty (1.0), 0 for impossibility.
pub const PROBABILITY_SCALE: u32 = 1_000_000;

/// Why a forecast could not be recorded.
#[derive(Clone, Copy, Debug, PartialEq, Eq, Structural)]
pub enum ValidationError {
    /// The statement holds no text.
    EmptyStatement,
    /// The probability lies above certainty.
    ProbabilityOutOfRange,
}

/// A forecast: a statement, how likely it was judged, when it can be
/// judged, and when it was made.
#[derive(Clone, Debug)]
pub struct Record {
    pub statement: String,
    /// In millionths, see `PROBABILITY_SCALE`.
    pub probability: u32,
    pub resolves_after: Timestamp,
    pub created_on: Timestamp,
}

impl Record {
    /// A record holds a non-empty statement and a probability within [0, 1].
    pub open spec fn wf(&self) -> bool {
        &&& self.statement@.len() > 0
        &&& self.probability <= PROBABILITY_SCALE
    }

    /// Builds a record, refusing an empty statement or a probability above
    /// certainty.
    pub fn new(
        statement: String,
        probability: u32,
        resolves_after: Timestamp,
        created_on: Timestamp,
    ) -> (r: Result<Record, ValidationError>)
        ensures
            statement@.len() == 0 ==> r == Err::<Record, _>(ValidationError::EmptyStatement),
            statement@.len() > 0 && probability > PROBABILITY_SCALE ==> r == Err::<Record, _>(
                ValidationError::ProbabilityOutOfRange,
            ),
            statement@.len() > 0 && probability <= PROBABILITY_SCALE ==> r == Ok::<
                _,
                ValidationError,
            >(Record { statement, probability, resolves_after, created_on }),
            r matches Ok(rec) ==> rec.wf(),
    {
        if statement.as_str().is_empty() {
            Err(ValidationError::EmptyStatement)
        } else if probability > PROBABILITY_SCALE {
            Err(ValidationError::ProbabilityOutOfRange)
        } else {
            Ok(Record { statement, probability, resolves_after, created_on })
        }
    }
}

/// A forecast that awaits its outcome.
#[derive(Clone, Debug)]
pub struct OpenPrediction {
    pub record: Record,
}

impl OpenPrediction {
    /// Due once the resolution date has been reached.
    pub open spec fn spec_is_due(&self, now: Timestamp) -> bool {
        self.record.resolves_after.spec_not_after(now)
    }

    /// Whether this prediction may be resolved at `now`.
    pub fn is_due(&self, now: &Timestamp) -> (r: bool)
        ensures
            r == self.spec_is_due(*now),
    {
        self.record.resolves_after.not_after(now)
    }

    /// What resolving this prediction to `outcome` at time `at` yields.
    pub open spec fn spec_resolved(self, outcome: bool, at: Timestamp) -> ResolvedPrediction {
        ResolvedPrediction { record: self.record, resolved_to: outcome, resolved_on: at }
    }

    /// Resolves this prediction to `outcome`, stamped with time `at`.
    pub fn resolve_at(self, outcome: bool, at: Timestamp) -> (r: ResolvedPrediction)
        ensures
            r == self.spec_resolved(outcome, at),
    {
        ResolvedPrediction { record: self.record, resolved_to: outcome, resolved_on: at }
    }

    /// Resolves this prediction to `outcome`, stamped with the current time.
    pub fn resolve(self, outcome: bool) -> (r: ResolvedPrediction)
        ensures
            r.record == self.record,
            r.resolved_to == outcome,
            r.resolved_on.wf(),
    {
        let now = clock_now();
        self.resolve_at(outcome, now)
    }
}

/// A forecast whose outcome is known.
#[derive(Clone, Debug)]
pub struct ResolvedPrediction {
    pub record: Record,
    pub resolved_to: bool,
    pub resolved_on: Timestamp,
}

impl ResolvedPrediction {
    /// Whether the statement came true.
    pub fn is_correct(&self) -> (r: bool)
        ensures
            r == self.resolved_to,
    {
        self.resolved_to
    }
}

} // verus!
