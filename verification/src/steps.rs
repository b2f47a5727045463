//! Install steps and their outcomes.
//!
//! A step is one discrete provisioning action: a batch install through the
//! system package manager, a per-package install through a language
//! toolchain, or a single external script. Running a step is outside work;
//! what stands here is every decision about it: which shape of invocation
//! a step takes, how per-package results are aggregated, and what outcome
//! a step reports.

use vstd::prelude::*;

use crate::lines::{clone_line, line_views};
use crate::select::{is_subsequence, lemma_subsequence_cons};

verus! {

/// One provisioning action, created once per run and immutable.
pub enum InstallStep {
    /// Install the whole package list with one invocation of the system
    /// package manager; the manager aggregates per-package failures into
    /// one exit status.
    Apt { label: Vec<u8>, packages: Vec<Vec<u8>> },
    /// Install one package per invocation of the toolchain installer;
    /// each package's failure is independent of the others.
    Toolchain { label: Vec<u8>, packages: Vec<Vec<u8>> },
    /// Run a single external script.
    Script { label: Vec<u8> },
}

/// Why a step failed.
pub enum FailureCause {
    /// The step's package list could not be read; a package list is
    /// mandatory input for the step that depends on it.
    SourceUnavailable,
    /// A single external invocation returned a non-zero exit status.
    SubprocessFailure,
    /// These packages, and only these, failed to install; the rest of the
    /// list was still attempted.
    PackagesFailed { failed: Vec<Vec<u8>> },
}

/// The recorded result of running one step: never silently dropped.
pub enum StepOutcome {
    Success { label: Vec<u8> },
    Failure { label: Vec<u8>, cause: FailureCause },
}

impl InstallStep {
    /// The step's human-readable label.
    pub open spec fn spec_label(&self) -> Seq<u8> {
        match self {
            InstallStep::Apt { label, .. } => label@,
            InstallStep::Toolchain { label, .. } => label@,
            InstallStep::Script { label } => label@,
        }
    }

    /// The packages the step consumes; a script step consumes none.
    pub open spec fn spec_packages(&self) -> Seq<Seq<u8>> {
        match self {
            InstallStep::Apt { packages, .. } => line_views(packages@),
            InstallStep::Toolchain { packages, .. } => line_views(packages@),
            InstallStep::Script { .. } => Seq::empty(),
        }
    }

    /// Describes the step.
    pub fn label(&self) -> (r: &Vec<u8>)
        ensures
            r@ == self.spec_label(),
    {
        match self {
            InstallStep::Apt { label, .. } => label,
            InstallStep::Toolchain { label, .. } => label,
            InstallStep::Script { label } => label,
        }
    }

    /// Whether the step hands its whole package list to one invocation.
    /// The system package manager takes the full list at once; the
    /// toolchain installer is invoked once per package instead.
    pub fn is_batch(&self) -> (r: bool)
        ensures
            r == (self is Apt),
    {
        match self {
            InstallStep::Apt { .. } => true,
            _ => false,
        }
    }

    /// The step's package list, if it carries one.
    pub fn packages(&self) -> (r: Option<&Vec<Vec<u8>>>)
        ensures
            match r {
                Some(p) => line_views(p@) == self.spec_packages() && !(self is Script),
                None => self is Script,
            },
    {
        match self {
            InstallStep::Apt { packages, .. } => Some(packages),
            InstallStep::Toolchain { packages, .. } => Some(packages),
            InstallStep::Script { .. } => None,
        }
    }
}

impl StepOutcome {
    /// The label of the step the outcome belongs to.
    pub open spec fn spec_label(&self) -> Seq<u8> {
        match self {
            StepOutcome::Success { label } => label@,
            StepOutcome::Failure { label, .. } => label@,
        }
    }

    /// Whether the step succeeded.
    pub fn is_success(&self) -> (r: bool)
        ensures
            r == (self is Success),
    {
        match self {
            StepOutcome::Success { .. } => true,
            StepOutcome::Failure { .. } => false,
        }
    }
}

/// Outcome of a step whose whole work is one external invocation: the apt
/// batch install, the apt update, or a script. Success exactly when the
/// invocation exited with status zero.
pub fn single_invocation_outcome(label: Vec<u8>, exit_ok: bool) -> (o: StepOutcome)
    ensures
        o is Success <==> exit_ok,
        o.spec_label() == label@,
        !exit_ok ==> (o matches StepOutcome::Failure { cause, .. } && cause is SubprocessFailure),
{
    if exit_ok {
        StepOutcome::Success { label }
    } else {
        StepOutcome::Failure { label, cause: FailureCause::SubprocessFailure }
    }
}

/// Outcome of a step whose mandatory package list could not be read.
pub fn source_unavailable_outcome(label: Vec<u8>) -> (o: StepOutcome)
    ensures
        o is Failure,
        o.spec_label() == label@,
        (o matches StepOutcome::Failure { cause, .. } && cause is SourceUnavailable),
{
    StepOutcome::Failure { label, cause: FailureCause::SourceUnavailable }
}

/// The packages whose recorded result is a failure, in list order.
pub open spec fn spec_failed_packages(packages: Seq<Seq<u8>>, results: Seq<bool>) -> Seq<Seq<u8>>
    decreases packages.len(),
{
    if packages.len() == 0 || results.len() == 0 {
        Seq::empty()
    } else if results.first() {
        spec_failed_packages(packages.drop_first(), results.drop_first())
    } else {
        seq![packages.first()] + spec_failed_packages(packages.drop_first(), results.drop_first())
    }
}

/// Recording one more result extends the failed list at the back, and
/// only when that result is a failure.
pub proof fn lemma_failed_packages_push(packages: Seq<Seq<u8>>, results: Seq<bool>, p: Seq<u8>, ok: bool)
    requires
        packages.len() == results.len(),
    ensures
        spec_failed_packages(packages.push(p), results.push(ok)) == spec_failed_packages(
            packages,
            results,
        ) + (if ok {
            Seq::empty()
        } else {
            seq![p]
        }),
    decreases packages.len(),
{
    let tail: Seq<Seq<u8>> = if ok {
        Seq::empty()
    } else {
        seq![p]
    };
    if packages.len() == 0 {
        assert(packages.push(p).drop_first() =~= Seq::<Seq<u8>>::empty());
        assert(results.push(ok).drop_first() =~= Seq::<bool>::empty());
        assert(packages.push(p).first() == p);
        assert(results.push(ok).first() == ok);
        assert(spec_failed_packages(Seq::<Seq<u8>>::empty(), Seq::<bool>::empty())
            =~= Seq::<Seq<u8>>::empty());
        assert(spec_failed_packages(packages, results) =~= Seq::<Seq<u8>>::empty());
        assert(spec_failed_packages(packages.push(p), results.push(ok)) =~= spec_failed_packages(
            packages,
            results,
        ) + tail);
    } else {
        assert(packages.push(p).first() == packages.first());
        assert(results.push(ok).first() == results.first());
        assert(packages.push(p).drop_first() =~= packages.drop_first().push(p));
        assert(results.push(ok).drop_first() =~= results.drop_first().push(ok));
        lemma_failed_packages_push(packages.drop_first(), results.drop_first(), p, ok);
        if !results.first() {
            assert(seq![packages.first()] + (spec_failed_packages(
                packages.drop_first(),
                results.drop_first(),
            ) + tail) =~= (seq![packages.first()] + spec_failed_packages(
                packages.drop_first(),
                results.drop_first(),
            )) + tail);
        }
    }
}

/// A package is reported as failed exactly when its own result was a
/// failure: no other package's failure puts it on the list, and no
/// failure takes it off.
pub proof fn lemma_failed_packages_membership(packages: Seq<Seq<u8>>, results: Seq<bool>)
    requires
        packages.len() == results.len(),
    ensures
        forall|l: Seq<u8>| #[trigger]
            spec_failed_packages(packages, results).contains(l) <==> exists|i: int|
                0 <= i < packages.len() && #[trigger] packages[i] == l && !results[i],
    decreases packages.len(),
{
    if packages.len() == 0 {
    } else {
        let pd = packages.drop_first();
        let rd = results.drop_first();
        lemma_failed_packages_membership(pd, rd);
        let failed = spec_failed_packages(packages, results);
        assert forall|l: Seq<u8>| #[trigger] failed.contains(l) implies exists|i: int|
            0 <= i < packages.len() && #[trigger] packages[i] == l && !results[i] by {
            if !results.first() && l == packages.first() {
                assert(packages[0] == l && !results[0]);
            } else {
                let k = choose|k: int| 0 <= k < failed.len() && failed[k] == l;
                if results.first() {
                    assert(spec_failed_packages(pd, rd).contains(l));
                } else {
                    assert(spec_failed_packages(pd, rd)[k - 1] == l);
                    assert(spec_failed_packages(pd, rd).contains(l));
                }
                let j = choose|j: int| 0 <= j < pd.len() && #[trigger] pd[j] == l && !rd[j];
                assert(packages[j + 1] == l && !results[j + 1]);
            }
        }
        assert forall|l: Seq<u8>|
            exists|i: int|
                0 <= i < packages.len() && #[trigger] packages[i] == l
                    && !results[i] implies #[trigger] failed.contains(l) by {
            let i = choose|i: int|
                0 <= i < packages.len() && #[trigger] packages[i] == l && !results[i];
            if i == 0 {
                assert(failed[0] == l);
            } else {
                assert(pd[i - 1] == l && !rd[i - 1]);
                assert(spec_failed_packages(pd, rd).contains(l));
                let k = choose|k: int|
                    0 <= k < spec_failed_packages(pd, rd).len() && spec_failed_packages(pd, rd)[k]
                        == l;
                if results.first() {
                } else {
                    assert(failed[k + 1] == l);
                }
            }
        }
    }
}

/// The failed list keeps the relative order of the package list.
pub proof fn lemma_failed_packages_order(packages: Seq<Seq<u8>>, results: Seq<bool>)
    ensures
        is_subsequence(spec_failed_packages(packages, results), packages),
    decreases packages.len(),
{
    if packages.len() == 0 || results.len() == 0 {
    } else {
        lemma_failed_packages_order(packages.drop_first(), results.drop_first());
        let rest = spec_failed_packages(packages.drop_first(), results.drop_first());
        if results.first() {
            lemma_subsequence_cons(rest, packages.drop_first(), packages.first());
            assert(packages =~= seq![packages.first()] + packages.drop_first());
        } else {
            let failed = seq![packages.first()] + rest;
            assert(failed.first() == packages.first());
            assert(failed.drop_first() =~= rest);
        }
    }
}

/// When every result is a success, nothing is reported as failed.
pub proof fn lemma_failed_packages_all_ok(packages: Seq<Seq<u8>>, results: Seq<bool>)
    requires
        forall|i: int| 0 <= i < results.len() ==> #[trigger] results[i],
    ensures
        spec_failed_packages(packages, results) == Seq::<Seq<u8>>::empty(),
    decreases packages.len(),
{
    if packages.len() == 0 || results.len() == 0 {
        assert(spec_failed_packages(packages, results) =~= Seq::<Seq<u8>>::empty());
    } else {
        assert(results[0]);
        lemma_failed_packages_all_ok(packages.drop_first(), results.drop_first());
    }
}

/// One toolchain step under way: the packages to install, and the results
/// recorded so far, one per attempted package. A failure never stops the
/// run: the next package can always be attempted while any remain.
pub struct ToolchainRun {
    packages: Vec<Vec<u8>>,
    results: Vec<bool>,
}

impl ToolchainRun {
    /// The packages the run installs, in order.
    pub closed spec fn spec_packages(&self) -> Seq<Seq<u8>> {
        line_views(self.packages@)
    }

    /// The results recorded so far: one per attempted package.
    pub closed spec fn spec_results(&self) -> Seq<bool> {
        self.results@
    }

    /// At most one result per package.
    pub open spec fn wf(&self) -> bool {
        self.spec_results().len() <= self.spec_packages().len()
    }

    /// Every package has been attempted.
    pub open spec fn done(&self) -> bool {
        self.spec_results().len() == self.spec_packages().len()
    }

    /// Starts a run over the given packages; nothing attempted yet.
    pub fn new(packages: Vec<Vec<u8>>) -> (r: Self)
        ensures
            r.wf(),
            r.spec_packages() == line_views(packages@),
            r.spec_results() == Seq::<bool>::empty(),
    {
        ToolchainRun { packages, results: Vec::new() }
    }

    /// The next package to attempt, or nothing once every package has
    /// been attempted. What was recorded so far has no bearing on it.
    pub fn next_package(&self) -> (r: Option<&Vec<u8>>)
        requires
            self.wf(),
        ensures
            match r {
                Some(p) => !self.done() && p@ == self.spec_packages()[self.spec_results().len() as int],
                None => self.done(),
            },
    {
        if self.results.len() < self.packages.len() {
            Some(&self.packages[self.results.len()])
        } else {
            None
        }
    }

    /// Records the result of the attempt on the next package. A failure
    /// is recorded like a success: the run continues either way.
    pub fn record(&mut self, ok: bool)
        requires
            old(self).wf(),
            !old(self).done(),
        ensures
            final(self).wf(),
            final(self).spec_packages() == old(self).spec_packages(),
            final(self).spec_results() == old(self).spec_results().push(ok),
    {
        self.results.push(ok);
    }

    /// The packages that failed so far, in list order.
    pub fn failed_packages(&self) -> (r: Vec<Vec<u8>>)
        requires
            self.wf(),
        ensures
            line_views(r@) == spec_failed_packages(
                self.spec_packages().take(self.spec_results().len() as int),
                self.spec_results(),
            ),
    {
        let ghost p = self.spec_packages();
        let ghost res = self.spec_results();
        let mut r: Vec<Vec<u8>> = Vec::new();
        let mut i: usize = 0;
        proof {
            assert(p.take(0) =~= Seq::<Seq<u8>>::empty());
            assert(res.take(0) =~= Seq::<bool>::empty());
            assert(spec_failed_packages(p.take(0), res.take(0)) =~= Seq::<Seq<u8>>::empty());
        }
        while i < self.results.len()
            invariant
                self.wf(),
                i <= res.len(),
                p == self.spec_packages(),
                res == self.spec_results(),
                line_views(r@) == spec_failed_packages(p.take(i as int), res.take(i as int)),
            decreases self.results@.len() - i,
        {
            proof {
                assert(p.take(i + 1) =~= p.take(i as int).push(p[i as int]));
                assert(res.take(i + 1) =~= res.take(i as int).push(res[i as int]));
                lemma_failed_packages_push(p.take(i as int), res.take(i as int), p[i as int], res[i as int]);
            }
            if !self.results[i] {
                let ghost old_r = r@;
                r.push(clone_line(&self.packages[i]));
                proof {
                    crate::lines::lemma_line_views_push(old_r, r@[r@.len() - 1]);
                    assert(line_views(r@) =~= spec_failed_packages(
                        p.take(i as int),
                        res.take(i as int),
                    ) + seq![p[i as int]]);
                }
            } else {
                proof {
                    assert(line_views(r@) =~= spec_failed_packages(
                        p.take(i as int),
                        res.take(i as int),
                    ) + Seq::<Seq<u8>>::empty());
                }
            }
            i += 1;
        }
        proof {
            assert(res.take(res.len() as int) =~= res);
            assert(spec_failed_packages(p.take(res.len() as int), res.take(res.len() as int))
                == spec_failed_packages(p.take(res.len() as int), res));
        }
        r
    }

    /// The aggregated outcome of a finished run: a success when every
    /// package installed, otherwise a failure listing exactly the
    /// packages that did not.
    pub fn outcome(self, label: Vec<u8>) -> (o: StepOutcome)
        requires
            self.wf(),
            self.done(),
        ensures
            o.spec_label() == label@,
            o is Success <==> spec_failed_packages(self.spec_packages(), self.spec_results())
                == Seq::<Seq<u8>>::empty(),
            o matches StepOutcome::Failure { cause, .. } ==> (cause matches
                FailureCause::PackagesFailed { failed } && line_views(failed@)
                == spec_failed_packages(self.spec_packages(), self.spec_results())),
    {
        let failed = self.failed_packages();
        proof {
            assert(self.spec_packages().take(self.spec_results().len() as int)
                =~= self.spec_packages());
        }
        if failed.len() == 0 {
            proof {
                assert(line_views(failed@) =~= Seq::<Seq<u8>>::empty());
            }
            StepOutcome::Success { label }
        } else {
            proof {
                assert(line_views(failed@).len() == failed@.len());
            }
            StepOutcome::Failure { label, cause: FailureCause::PackagesFailed { failed } }
        }
    }
}

} // verus!
