//! The provisioning pipeline: an ordered sequence of install steps whose
//! failures are recorded, never fatal.
//!
//! Steps run strictly in configured order. A step's failure does not
//! abort the run: the outcome is recorded and the next step is attempted,
//! and at the end the aggregate of outcomes is surfaced to the caller.
//! The run's process exit status is non-zero exactly when some step or
//! the export-sync phase reported a failure.

use vstd::prelude::*;

use crate::steps::{InstallStep, StepOutcome};

verus! {

/// How many recorded outcomes are successes.
pub open spec fn spec_success_count(outcomes: Seq<StepOutcome>) -> nat
    decreases outcomes.len(),
{
    if outcomes.len() == 0 {
        0
    } else {
        spec_success_count(outcomes.drop_first()) + if outcomes.first() is Success {
            1nat
        } else {
            0nat
        }
    }
}

/// How many recorded outcomes are failures.
pub open spec fn spec_failure_count(outcomes: Seq<StepOutcome>) -> nat
    decreases outcomes.len(),
{
    if outcomes.len() == 0 {
        0
    } else {
        spec_failure_count(outcomes.drop_first()) + if outcomes.first() is Failure {
            1nat
        } else {
            0nat
        }
    }
}

/// Recording one more outcome raises exactly one of the two counts.
pub proof fn lemma_counts_push(outcomes: Seq<StepOutcome>, o: StepOutcome)
    ensures
        spec_success_count(outcomes.push(o)) == spec_success_count(outcomes) + if o is Success {
            1nat
        } else {
            0nat
        },
        spec_failure_count(outcomes.push(o)) == spec_failure_count(outcomes) + if o is Failure {
            1nat
        } else {
            0nat
        },
    decreases outcomes.len(),
{
    if outcomes.len() == 0 {
        assert(outcomes.push(o).drop_first() =~= Seq::<StepOutcome>::empty());
        assert(outcomes.push(o).first() == o);
        assert(spec_success_count(Seq::<StepOutcome>::empty()) == 0);
        assert(spec_failure_count(Seq::<StepOutcome>::empty()) == 0);
        assert(spec_success_count(outcomes) == 0 && spec_failure_count(outcomes) == 0);
    } else {
        assert(outcomes.push(o).first() == outcomes.first());
        assert(outcomes.push(o).drop_first() =~= outcomes.drop_first().push(o));
        lemma_counts_push(outcomes.drop_first(), o);
    }
}

/// Every recorded outcome is either a success or a failure, so a full
/// run's report enumerates every step: the two counts add up to the
/// number of steps that ran.
pub proof fn lemma_every_outcome_counted(outcomes: Seq<StepOutcome>)
    ensures
        spec_success_count(outcomes) + spec_failure_count(outcomes) == outcomes.len(),
    decreases outcomes.len(),
{
    if outcomes.len() > 0 {
        lemma_every_outcome_counted(outcomes.drop_first());
    }
}

/// No failures are counted exactly when every outcome is a success.
pub proof fn lemma_no_failures_means_all_successes(outcomes: Seq<StepOutcome>)
    ensures
        spec_failure_count(outcomes) == 0 <==> forall|i: int|
            0 <= i < outcomes.len() ==> #[trigger] outcomes[i] is Success,
    decreases outcomes.len(),
{
    if outcomes.len() > 0 {
        lemma_no_failures_means_all_successes(outcomes.drop_first());
        if spec_failure_count(outcomes) == 0 {
            assert forall|i: int| 0 <= i < outcomes.len() implies #[trigger] outcomes[i]
                is Success by {
                if i > 0 {
                    assert(outcomes.drop_first()[i - 1] == outcomes[i]);
                }
            }
        } else {
            if outcomes.first() is Failure {
                assert(!(outcomes[0] is Success));
            } else {
                let i = choose|i: int|
                    0 <= i < outcomes.drop_first().len() && !(#[trigger] outcomes.drop_first()[i]
                        is Success);
                assert(!(outcomes[i + 1] is Success));
            }
        }
    }
}

/// A provisioning run: the configured steps in order, and the outcome of
/// each step attempted so far.
pub struct Pipeline {
    steps: Vec<InstallStep>,
    outcomes: Vec<StepOutcome>,
}

impl Pipeline {
    /// The configured steps, in the order they run.
    pub closed spec fn spec_steps(&self) -> Seq<InstallStep> {
        self.steps@
    }

    /// The outcomes recorded so far, in step order.
    pub closed spec fn spec_outcomes(&self) -> Seq<StepOutcome> {
        self.outcomes@
    }

    /// At most one outcome per step.
    pub open spec fn wf(&self) -> bool {
        self.spec_outcomes().len() <= self.spec_steps().len()
    }

    /// Every step has run and has its outcome recorded.
    pub open spec fn done(&self) -> bool {
        self.spec_outcomes().len() == self.spec_steps().len()
    }

    /// A run over the given steps; nothing attempted yet.
    pub fn new(steps: Vec<InstallStep>) -> (r: Self)
        ensures
            r.wf(),
            r.spec_steps() == steps@,
            r.spec_outcomes() == Seq::<StepOutcome>::empty(),
    {
        Pipeline { steps, outcomes: Vec::new() }
    }

    /// The next step to run, or nothing once every step has run. Earlier
    /// failures have no bearing on it: the pipeline never aborts early.
    pub fn next_step(&self) -> (r: Option<&InstallStep>)
        requires
            self.wf(),
        ensures
            match r {
                Some(s) => !self.done() && *s == self.spec_steps()[self.spec_outcomes().len() as int],
                None => self.done(),
            },
    {
        if self.outcomes.len() < self.steps.len() {
            Some(&self.steps[self.outcomes.len()])
        } else {
            None
        }
    }

    /// Records the outcome of the step that just ran, success or failure
    /// alike, and moves on to the next step.
    pub fn record_outcome(&mut self, o: StepOutcome)
        requires
            old(self).wf(),
            !old(self).done(),
        ensures
            final(self).wf(),
            final(self).spec_steps() == old(self).spec_steps(),
            final(self).spec_outcomes() == old(self).spec_outcomes().push(o),
    {
        self.outcomes.push(o);
    }

    /// The recorded outcomes, for the final summary: one entry per step
    /// that ran, in step order.
    pub fn outcomes(&self) -> (r: &Vec<StepOutcome>)
        ensures
            r@ == self.spec_outcomes(),
    {
        &self.outcomes
    }

    /// How many recorded steps succeeded.
    pub fn success_count(&self) -> (n: usize)
        ensures
            n == spec_success_count(self.spec_outcomes()),
    {
        let ghost os = self.spec_outcomes();
        let mut n: usize = 0;
        let mut i: usize = 0;
        proof {
            assert(os.take(0) =~= Seq::<StepOutcome>::empty());
        }
        while i < self.outcomes.len()
            invariant
                i <= os.len(),
                os == self.spec_outcomes(),
                n <= i,
                n == spec_success_count(os.take(i as int)),
            decreases os.len() - i,
        {
            proof {
                assert(os.take(i + 1) =~= os.take(i as int).push(os[i as int]));
                lemma_counts_push(os.take(i as int), os[i as int]);
            }
            if self.outcomes[i].is_success() {
                n += 1;
            }
            i += 1;
        }
        proof {
            assert(os.take(os.len() as int) =~= os);
        }
        n
    }

    /// How many recorded steps failed.
    pub fn failure_count(&self) -> (n: usize)
        ensures
            n == spec_failure_count(self.spec_outcomes()),
    {
        let ghost os = self.spec_outcomes();
        let mut n: usize = 0;
        let mut i: usize = 0;
        proof {
            assert(os.take(0) =~= Seq::<StepOutcome>::empty());
        }
        while i < self.outcomes.len()
            invariant
                i <= os.len(),
                os == self.spec_outcomes(),
                n <= i,
                n == spec_failure_count(os.take(i as int)),
            decreases os.len() - i,
        {
            proof {
                assert(os.take(i + 1) =~= os.take(i as int).push(os[i as int]));
                lemma_counts_push(os.take(i as int), os[i as int]);
            }
            if !self.outcomes[i].is_success() {
                n += 1;
            }
            i += 1;
        }
        proof {
            assert(os.take(os.len() as int) =~= os);
        }
        n
    }

    /// Whether any recorded step failed.
    pub fn any_failure(&self) -> (r: bool)
        ensures
            r == (spec_failure_count(self.spec_outcomes()) > 0),
    {
        self.failure_count() > 0
    }

    /// The process exit status the run owes its caller: zero exactly when
    /// every step succeeded and the export-sync phase did too.
    pub fn exit_code(&self, sync_ok: bool) -> (c: i32)
        ensures
            c == 0 <==> (sync_ok && spec_failure_count(self.spec_outcomes()) == 0),
            c == 0 || c == 1,
    {
        if sync_ok && !self.any_failure() {
            0
        } else {
            1
        }
    }
}

} // verus!
