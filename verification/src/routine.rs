//! The synthesized validation routine: an ordered sequence of per-field
//! check invocations, combined by short-circuit conjunction.

use vstd::prelude::*;
use crate::ownership::AccessPolicy;
use crate::schema::ConstraintKind;

verus! {

/// A value handed to a field's check.
#[derive(Clone, Copy, Debug, PartialEq, Eq, Structural)]
pub enum Operand {
    /// The parameter at this position, read directly.
    Parameter(usize),
    /// The field at this position, read through the access that its policy
    /// gives: directly where it is exclusive, through an alias where it is
    /// shared.
    Field(usize, AccessPolicy),
}

/// One invocation of a field's local check.
#[derive(Clone, Debug, PartialEq, Eq)]
pub struct CheckStep {
    /// The field that is checked, by its position in the declaration order.
    pub field: usize,
    pub kind: ConstraintKind,
    /// How the routine reaches the checked field itself.
    pub access: AccessPolicy,
    /// What the check reads, in the order of the field's declaration.
    pub operands: Vec<Operand>,
}

/// Mathematical model of a [`CheckStep`].
pub struct CheckStepView {
    pub field: usize,
    pub kind: ConstraintKind,
    pub access: AccessPolicy,
    pub operands: Seq<Operand>,
}

impl View for CheckStep {
    type V = CheckStepView;

    open spec fn view(&self) -> CheckStepView {
        CheckStepView { field: self.field, kind: self.kind, access: self.access, operands: self.operands@ }
    }
}

/// The validation routine of one record.
#[derive(Clone, Debug, PartialEq, Eq)]
pub struct ValidationRoutine {
    pub steps: Vec<CheckStep>,
}

impl View for ValidationRoutine {
    type V = Seq<CheckStepView>;

    open spec fn view(&self) -> Seq<CheckStepView> {
        Seq::new(self.steps@.len(), |k: int| self.steps@[k]@)
    }
}

/// How a run of a validation routine ended.
#[derive(Clone, Copy, Debug, PartialEq, Eq, Structural)]
pub struct Verdict {
    /// Whether every check held.
    pub passed: bool,
    /// How many checks were invoked.
    pub evaluated: usize,
}

/// What a run of `steps` with `check` leaves behind: the checks up to the
/// last one invoked held, and the last one failed unless the run passed,
/// which it does only after the last step.
pub open spec fn ran<F: Fn(&CheckStep) -> bool>(steps: Seq<CheckStep>, check: F, verdict: Verdict) -> bool {
    &&& verdict.evaluated <= steps.len()
    &&& verdict.passed ==> verdict.evaluated == steps.len()
    &&& !verdict.passed ==> verdict.evaluated > 0 && call_ensures(check, (&steps[verdict.evaluated - 1],), false)
    &&& forall|k: int|
        0 <= k < verdict.evaluated && (verdict.passed || k < verdict.evaluated - 1) ==> call_ensures(
            check,
            (&#[trigger] steps[k],),
            true,
        )
}

/// The outcome of `check` on every step is the one that `holds` gives.
pub open spec fn decides<F: Fn(&CheckStep) -> bool>(check: F, holds: spec_fn(CheckStep) -> bool) -> bool {
    forall|step: CheckStep, outcome: bool| #[trigger] call_ensures(check, (&step,), outcome) ==> outcome == holds(step)
}

/// The step at `k` is the first one whose check fails.
pub open spec fn is_first_failure(steps: Seq<CheckStep>, holds: spec_fn(CheckStep) -> bool, k: int) -> bool {
    &&& 0 <= k < steps.len()
    &&& !holds(steps[k])
    &&& forall|j: int| 0 <= j < k ==> holds(#[trigger] steps[j])
}

/// If any check fails, the run fails, and it invokes the checks up to the
/// first one that fails and none after it.
pub proof fn run_stops_at_first_failure<F: Fn(&CheckStep) -> bool>(
    steps: Seq<CheckStep>,
    check: F,
    holds: spec_fn(CheckStep) -> bool,
    verdict: Verdict,
    k: int,
)
    requires
        ran(steps, check, verdict),
        decides(check, holds),
        is_first_failure(steps, holds, k),
    ensures
        !verdict.passed,
        verdict.evaluated == k + 1,
{
    if verdict.passed {
        assert(call_ensures(check, (&steps[k],), true));
    } else {
        let last = verdict.evaluated - 1;
        assert(call_ensures(check, (&steps[last],), false));
        if last < k {
            assert(holds(steps[last]));
        } else if k < last {
            assert(call_ensures(check, (&steps[k],), true));
        }
    }
}

/// If every check holds, the run passes after invoking all of them.
pub proof fn run_passes_when_all_hold<F: Fn(&CheckStep) -> bool>(
    steps: Seq<CheckStep>,
    check: F,
    holds: spec_fn(CheckStep) -> bool,
    verdict: Verdict,
)
    requires
        ran(steps, check, verdict),
        decides(check, holds),
        forall|k: int| 0 <= k < steps.len() ==> holds(#[trigger] steps[k]),
    ensures
        verdict.passed,
        verdict.evaluated == steps.len(),
{
    if !verdict.passed {
        let last = verdict.evaluated - 1;
        assert(call_ensures(check, (&steps[last],), false));
        assert(holds(steps[last]));
    }
}

impl ValidationRoutine {
    /// Runs the routine: invokes `check` on the steps in order and stops at
    /// the first one that fails.
    pub fn run<F: Fn(&CheckStep) -> bool>(&self, check: F) -> (verdict: Verdict)
        requires
            forall|k: int| 0 <= k < self.steps@.len() ==> call_requires(check, (&#[trigger] self.steps@[k],)),
        ensures
            ran(self.steps@, check, verdict),
    {
        let mut k: usize = 0;
        while k < self.steps.len()
            invariant
                k <= self.steps@.len(),
                forall|j: int| 0 <= j < self.steps@.len() ==> call_requires(check, (&#[trigger] self.steps@[j],)),
                forall|j: int| 0 <= j < k ==> call_ensures(check, (&#[trigger] self.steps@[j],), true),
            decreases self.steps@.len() - k,
        {
            if !check(&self.steps[k]) {
                return Verdict { passed: false, evaluated: k + 1 };
            }
            k += 1;
        }
        Verdict { passed: true, evaluated: k }
    }
}

} // verus!
