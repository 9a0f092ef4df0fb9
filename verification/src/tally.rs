//! Keeping the first outcome that settles a comparison while the outcomes
//! of its parts arrive one by one, in whatever order they finish.

use crate::admission::Error;
use crate::verdict::Verdict;
use vstd::prelude::*;

verus! {

/// Whether an outcome ends the search: a difference or an error does, a
/// part that was found the same does not.
pub open spec fn settles(outcome: Result<Verdict, Error>) -> bool {
    outcome != Ok::<Verdict, Error>(Verdict::Same)
}

/// The first outcome at or after position `from` that settles the
/// comparison, or `Ok(Same)` if none does.
pub open spec fn first_settling_from(outcomes: Seq<Result<Verdict, Error>>, from: int) -> Result<
    Verdict,
    Error,
>
    decreases outcomes.len() - from,
{
    if from < 0 || from >= outcomes.len() {
        Ok(Verdict::Same)
    } else if settles(outcomes[from]) {
        outcomes[from]
    } else {
        first_settling_from(outcomes, from + 1)
    }
}

/// The outcomes recorded so far, reduced to the first that settled.
#[derive(Clone, Debug, PartialEq, Eq)]
pub struct Tally {
    pub first: Option<Result<Verdict, Error>>,
}

impl Tally {
    /// The tally after one more outcome: the first settling outcome
    /// stays, later ones are dropped.
    pub open spec fn spec_record(self, outcome: Result<Verdict, Error>) -> Tally {
        if self.first.is_none() && settles(outcome) {
            Tally { first: Some(outcome) }
        } else {
            self
        }
    }

    /// The result of the whole: what settled first, or `Same` if nothing
    /// did.
    pub open spec fn spec_finish(self) -> Result<Verdict, Error> {
        match self.first {
            Some(outcome) => outcome,
            None => Ok(Verdict::Same),
        }
    }

    /// The tally after all of `outcomes`, from position `from` on, were
    /// recorded in order.
    pub open spec fn record_all(self, outcomes: Seq<Result<Verdict, Error>>, from: int) -> Tally
        decreases outcomes.len() - from,
    {
        if from < 0 || from >= outcomes.len() {
            self
        } else {
            self.spec_record(outcomes[from]).record_all(outcomes, from + 1)
        }
    }

    /// A tally with nothing recorded.
    pub fn new() -> (tally: Tally)
        ensures
            tally == (Tally { first: None }),
    {
        Tally { first: None }
    }

    /// Whether an outcome has settled the comparison, so that no new work
    /// need be started.
    pub fn is_settled(&self) -> (settled: bool)
        ensures
            settled == self.first.is_some(),
    {
        self.first.is_some()
    }

    /// Records the outcome of one part.
    pub fn record(&mut self, outcome: Result<Verdict, Error>)
        ensures
            *final(self) == old(self).spec_record(outcome),
    {
        if self.first.is_none() {
            match outcome {
                Ok(Verdict::Same) => {},
                other => {
                    self.first = Some(other);
                },
            }
        }
    }

    /// Ends the tally and hands out the result.
    pub fn finish(self) -> (result: Result<Verdict, Error>)
        ensures
            result == self.spec_finish(),
    {
        match self.first {
            Some(outcome) => outcome,
            None => Ok(Verdict::Same),
        }
    }
}

/// Recording outcomes in the order of their arrival yields the first of
/// them that is an error or a difference, and `Same` only if every one of
/// them is `Same`.
pub proof fn lemma_tally_yields_first_settling(
    tally: Tally,
    outcomes: Seq<Result<Verdict, Error>>,
    from: int,
)
    requires
        0 <= from <= outcomes.len(),
    ensures
        tally.record_all(outcomes, from).spec_finish() == if tally.first.is_some() {
            tally.spec_finish()
        } else {
            first_settling_from(outcomes, from)
        },
    decreases outcomes.len() - from,
{
    if from < outcomes.len() {
        lemma_tally_yields_first_settling(tally.spec_record(outcomes[from]), outcomes, from + 1);
    }
}

/// The result is `Same` exactly if every outcome is `Same`: that a
/// difference or an error exists does not depend on the order in which
/// the outcomes arrive.
pub proof fn lemma_same_exactly_if_all_same(outcomes: Seq<Result<Verdict, Error>>, from: int)
    requires
        0 <= from <= outcomes.len(),
    ensures
        first_settling_from(outcomes, from) == Ok::<Verdict, Error>(Verdict::Same) <==> forall|
            i: int,
        |
            from <= i < outcomes.len() ==> outcomes[i] == Ok::<Verdict, Error>(Verdict::Same),
    decreases outcomes.len() - from,
{
    if from < outcomes.len() {
        lemma_same_exactly_if_all_same(outcomes, from + 1);
        if forall|i: int|
            from <= i < outcomes.len() ==> outcomes[i] == Ok::<Verdict, Error>(Verdict::Same) {
            assert(outcomes[from] == Ok::<Verdict, Error>(Verdict::Same));
        }
    }
}

} // verus!
