use crate::model::{OpenPrediction, ResolvedPrediction};
use crate::time::Timestamp;
use vstd::prelude::*;

verus! {

/// What the forecaster said when asked about a due prediction.
#[derive(Clone, Copy, Debug, PartialEq, Eq, Structural)]
pub enum Answer {
    /// The statement turned out true (`true`) or false (`false`).
    Resolve(bool),
    /// Not now: the prediction stays open.
    Skip,
    /// Ask again later; in effect the same as `Skip`.
    Defer,
}

/// Whether one pass of resolution moves `p`, answered with `a`, at `now`.
pub open spec fn moves(p: OpenPrediction, a: Answer, now: Timestamp) -> bool {
    p.spec_is_due(now) && a is Resolve
}

/// The predictions of `open` that one pass leaves open, in their order.
pub open spec fn still_open(open: Seq<OpenPrediction>, answers: Seq<Answer>, now: Timestamp) -> Seq<
    OpenPrediction,
>
    decreases open.len(),
{
    if open.len() == 0 {
        Seq::empty()
    } else {
        let rest = still_open(open.drop_last(), answers.take(open.len() - 1), now);
        if moves(open.last(), answers[open.len() - 1], now) {
            rest
        } else {
            rest.push(open.last())
        }
    }
}

/// What one pass resolves out of `open`, in the order of `open`.
pub open spec fn newly_resolved(
    open: Seq<OpenPrediction>,
    answers: Seq<Answer>,
    now: Timestamp,
) -> Seq<ResolvedPrediction>
    decreases open.len(),
{
    if open.len() == 0 {
        Seq::empty()
    } else {
        let rest = newly_resolved(open.drop_last(), answers.take(open.len() - 1), now);
        let a = answers[open.len() - 1];
        if moves(open.last(), a, now) {
            rest.push(open.last().spec_resolved(a->Resolve_0, now))
        } else {
            rest
        }
    }
}

/// Every prediction, open or resolved.
#[derive(Clone, Debug)]
pub struct Predictions {
    pub open: Vec<OpenPrediction>,
    pub resolved: Vec<ResolvedPrediction>,
}

impl Default for Predictions {
    /// An empty collection.
    fn default() -> (r: Predictions)
        ensures
            r.open@.len() == 0,
            r.resolved@.len() == 0,
    {
        Predictions::new()
    }
}

impl Predictions {
    /// Every record held is well formed.
    pub open spec fn wf(&self) -> bool {
        &&& forall|i: int| 0 <= i < self.open@.len() ==> (#[trigger] self.open@[i]).record.wf()
        &&& forall|i: int|
            0 <= i < self.resolved@.len() ==> (#[trigger] self.resolved@[i]).record.wf()
    }

    /// An empty collection.
    pub fn new() -> (r: Predictions)
        ensures
            r.open@.len() == 0,
            r.resolved@.len() == 0,
            r.wf(),
    {
        Predictions { open: Vec::new(), resolved: Vec::new() }
    }

    /// One pass over the open predictions, in order: each that is due at
    /// `now` and whose answer (`answers[i]` for `open[i]`) is `Resolve` moves
    /// to the end of the resolved ones, stamped with `now`; every other one
    /// stays open where it was.
    pub fn resolve_due(&mut self, now: &Timestamp, answers: &Vec<Answer>)
        requires
            answers@.len() == old(self).open@.len(),
        ensures
            final(self).open@ == still_open(old(self).open@, answers@, *now),
            final(self).resolved@ == old(self).resolved@ + newly_resolved(
                old(self).open@,
                answers@,
                *now,
            ),
            old(self).wf() ==> final(self).wf(),
    {
        let mut pending: Vec<OpenPrediction> = Vec::new();
        std::mem::swap(&mut pending, &mut self.open);
        let ghost s = pending@;
        let ghost before = self.resolved@;
        let n: usize = answers.len();
        let mut i: usize = 0;
        for p in it: pending.into_iter()
            invariant
                it.seq() == s,
                i == it.index(),
                answers@.len() == s.len(),
                n == s.len(),
                self.open@ == still_open(s.take(i as int), answers@.take(i as int), *now),
                self.resolved@ == before + newly_resolved(
                    s.take(i as int),
                    answers@.take(i as int),
                    *now,
                ),
        {
            proof {
                assert(s.take(i + 1).drop_last() == s.take(i as int));
                assert(answers@.take(i + 1).take(i as int) == answers@.take(i as int));
            }
            assert(i < n);
            let due = p.is_due(now);
            match answers[i] {
                Answer::Resolve(outcome) if due => {
                    self.resolved.push(p.resolve_at(outcome, *now));
                },
                _ => {
                    self.open.push(p);
                },
            }
            i += 1;
        }
        proof {
            assert(s.take(s.len() as int) == s);
            assert(answers@.take(s.len() as int) == answers@);
            if old(self).wf() {
                lemma_pass_keeps_records(s, answers@, *now);
            }
        }
    }
}

/// Every record a pass leaves open or resolves is a record of `open`.
proof fn lemma_pass_keeps_records(open: Seq<OpenPrediction>, answers: Seq<Answer>, now: Timestamp)
    requires
        answers.len() == open.len(),
    ensures
        forall|j: int|
            0 <= j < still_open(open, answers, now).len() ==> exists|k: int|
                0 <= k < open.len() && (#[trigger] still_open(open, answers, now)[j]).record
                    == open[k].record,
        forall|j: int|
            0 <= j < newly_resolved(open, answers, now).len() ==> exists|k: int|
                0 <= k < open.len() && (#[trigger] newly_resolved(open, answers, now)[j]).record
                    == open[k].record,
    decreases open.len(),
{
    if open.len() > 0 {
        let n = open.len() - 1;
        lemma_pass_keeps_records(open.drop_last(), answers.take(n), now);
        assert forall|j: int|
            0 <= j < still_open(open, answers, now).len() implies exists|k: int|
                0 <= k < open.len() && (#[trigger] still_open(open, answers, now)[j]).record
                    == open[k].record by {
            if j < still_open(open.drop_last(), answers.take(n), now).len() {
                let k = choose|k: int|
                    0 <= k < n && still_open(open.drop_last(), answers.take(n), now)[j].record
                        == open.drop_last()[k].record;
                assert(open[k] == open.drop_last()[k]);
            } else {
                assert(still_open(open, answers, now)[j] == open[n]);
            }
        }
        assert forall|j: int|
            0 <= j < newly_resolved(open, answers, now).len() implies exists|k: int|
                0 <= k < open.len() && (#[trigger] newly_resolved(open, answers, now)[j]).record
                    == open[k].record by {
            if j < newly_resolved(open.drop_last(), answers.take(n), now).len() {
                let k = choose|k: int|
                    0 <= k < n && newly_resolved(open.drop_last(), answers.take(n), now)[j].record
                        == open.drop_last()[k].record;
                assert(open[k] == open.drop_last()[k]);
            } else {
                assert(newly_resolved(open, answers, now)[j].record == open[n].record);
            }
        }
    }
}

/// A pass loses nothing and duplicates nothing: what stays open and what is
/// resolved together number exactly the open predictions it started from.
pub proof fn law_pass_conserves(open: Seq<OpenPrediction>, answers: Seq<Answer>, now: Timestamp)
    requires
        answers.len() == open.len(),
    ensures
        still_open(open, answers, now).len() + newly_resolved(open, answers, now).len()
            == open.len(),
    decreases open.len(),
{
    if open.len() > 0 {
        law_pass_conserves(open.drop_last(), answers.take(open.len() - 1), now);
    }
}

/// One pass visits every open prediction exactly once, in order, also after
/// an earlier one was resolved: the one at `k` either stays open, placed
/// right after those before it that stayed, or is resolved to the answered
/// outcome with its record unchanged, placed right after those before it
/// that were resolved.
pub proof fn law_pass_visits_each_once(
    open: Seq<OpenPrediction>,
    answers: Seq<Answer>,
    now: Timestamp,
    k: int,
)
    requires
        answers.len() == open.len(),
        0 <= k < open.len(),
    ensures
        ({
            let kept = still_open(open.take(k), answers.take(k), now).len() as int;
            !moves(open[k], answers[k], now) ==> kept < still_open(open, answers, now).len()
                && still_open(open, answers, now)[kept] == open[k]
        }),
        ({
            let done = newly_resolved(open.take(k), answers.take(k), now).len() as int;
            moves(open[k], answers[k], now) ==> done < newly_resolved(open, answers, now).len()
                && newly_resolved(open, answers, now)[done] == open[k].spec_resolved(
                answers[k]->Resolve_0,
                now,
            ) && newly_resolved(open, answers, now)[done].record == open[k].record
                && newly_resolved(open, answers, now)[done].resolved_to == answers[k]->Resolve_0
        }),
    decreases open.len(),
{
    let n = open.len() - 1;
    assert(open.drop_last() == open.take(n));
    if k < n {
        law_pass_visits_each_once(open.drop_last(), answers.take(n), now, k);
        assert(open.drop_last().take(k) == open.take(k));
        assert(answers.take(n).take(k) == answers.take(k));
        assert(open.drop_last()[k] == open[k]);
        assert(answers.take(n)[k] == answers[k]);
    }
}

} // verus!
