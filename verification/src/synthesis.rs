//! Synthesis of the validation routine from an annotated record.

use vstd::prelude::*;
use crate::annotate::{AnnotatedRecord, AnnotatedView};
use crate::graph::depends_on;
use crate::order::{dependencies_come_first, placed_before, position_in, position_is_exact};
use crate::ownership::AccessPolicy;
use crate::routine::{CheckStep, CheckStepView, Operand, ValidationRoutine};
use crate::schema::Target;

verus! {

/// How a check receives what a reference denotes: a parameter as it is, a
/// field through the access that the field's policy gives.
pub open spec fn operand_for(target: Target, policies: Seq<AccessPolicy>) -> Operand {
    match target {
        Target::Parameter(p) => Operand::Parameter(p),
        Target::Field(f) => Operand::Field(f, policies[f as int]),
    }
}

/// The check invocation of field `f`.
pub open spec fn step_for(a: AnnotatedView, f: usize) -> CheckStepView {
    CheckStepView {
        field: f,
        kind: a.kinds[f as int],
        access: a.policies[f as int],
        operands: Seq::new(a.edges[f as int].len(), |e: int| operand_for(a.edges[f as int][e], a.policies)),
    }
}

/// The validation routine of an annotated record: one check invocation per
/// field, in evaluation order.
pub open spec fn routine_for(a: AnnotatedView) -> Seq<CheckStepView> {
    Seq::new(a.order.len(), |k: int| step_for(a, a.order[k]))
}

/// The routine checks every field of the record exactly once.
pub proof fn every_field_is_checked_once(a: AnnotatedView, f: usize)
    requires
        a.consistent(),
        f < a.edges.len(),
    ensures
        0 <= position_in(a.order, f) < routine_for(a).len(),
        forall|k: int| 0 <= k < routine_for(a).len() ==> (#[trigger] routine_for(a)[k].field == f <==> k == position_in(
            a.order,
            f,
        )),
{
    assert(placed_before(a.order, a.order.len() as int, f));
    assert forall|k: int| 0 <= k < routine_for(a).len() implies (#[trigger] routine_for(a)[k].field == f <==> k
        == position_in(a.order, f)) by {
        position_is_exact(a.edges, a.order, k);
    }
}

/// Every field that a step reads was checked by an earlier step, and is
/// read through the access that its own policy gives.
pub proof fn operands_are_checked_before(a: AnnotatedView, k: int, e: int)
    requires
        a.consistent(),
        0 <= k < routine_for(a).len(),
        0 <= e < routine_for(a)[k].operands.len(),
    ensures
        match routine_for(a)[k].operands[e] {
            Operand::Parameter(p) => p < a.params,
            Operand::Field(d, policy) => {
                &&& policy == a.policies[d as int]
                &&& exists|j: int| 0 <= j < k && #[trigger] routine_for(a)[j].field == d
            },
        },
{
    let f = a.order[k];
    let target = a.edges[f as int][e];
    match target {
        Target::Parameter(p) => {},
        Target::Field(d) => {
            assert(depends_on(a.edges, f, d));
            dependencies_come_first(a.edges, a.order, f, d);
            position_is_exact(a.edges, a.order, k);
            let j = position_in(a.order, d);
            assert(routine_for(a)[j].field == d);
        },
    }
}

impl AnnotatedRecord {
    /// Synthesizes the validation routine: for every field, in evaluation
    /// order, one invocation of its local check with the values it reads.
    pub fn synthesize(&self) -> (routine: ValidationRoutine)
        ensures
            routine@ == routine_for(self@),
    {
        let graph = self.graph();
        let order = self.order();
        let policies = self.policies();
        let kinds = self.kinds();
        let n = graph.len();
        let mut steps: Vec<CheckStep> = Vec::new();
        let mut k: usize = 0;
        while k < order.len()
            invariant
                k <= order@.len(),
                self@.consistent(),
                graph@ == self@.edges,
                graph.params() == self@.params,
                order@ == self@.order,
                policies@ == self@.policies,
                kinds@ == self@.kinds,
                n == graph@.len(),
                steps@.len() == k,
                forall|j: int| 0 <= j < k ==> (#[trigger] steps@[j])@ == step_for(self@, self@.order[j]),
            decreases order@.len() - k,
        {
            let f = order[k];
            let row = graph.targets(f);
            let mut operands: Vec<Operand> = Vec::new();
            let mut e: usize = 0;
            while e < row.len()
                invariant
                    e <= row@.len(),
                    f < n,
                    self@.consistent(),
                    graph@ == self@.edges,
                    graph.params() == self@.params,
                    policies@ == self@.policies,
                    n == graph@.len(),
                    row@ == self@.edges[f as int],
                    operands@.len() == e,
                    forall|e2: int| 0 <= e2 < e ==> #[trigger] operands@[e2] == operand_for(row@[e2], self@.policies),
                decreases row@.len() - e,
            {
                let operand = match row[e] {
                    Target::Parameter(p) => Operand::Parameter(p),
                    Target::Field(d) => {
                        assert(graph@[f as int][e as int] == Target::Field(d));
                        Operand::Field(d, policies[d])
                    },
                };
                operands.push(operand);
                e += 1;
            }
            let step = CheckStep { field: f, kind: kinds[f], access: policies[f], operands };
            assert(step@.operands =~= step_for(self@, f).operands);
            steps.push(step);
            k += 1;
        }
        let routine = ValidationRoutine { steps };
        assert(routine@ =~= routine_for(self@));
        routine
    }
}

} // verus!
