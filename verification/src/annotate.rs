//! The annotated model: a record's resolved graph together with the
//! evaluation order and the access policies derived from it.

use vstd::prelude::*;
use crate::cycle::{acyclic, cycle_stays_in_graph, is_simple};
use crate::error::SchemaError;
use crate::graph::{fully_resolved, is_first_unresolved, resolved_edges, well_formed, DependencyGraph};
use crate::order::{is_stable_order, ordered_graph_is_acyclic, stable_order_is_unique};
use crate::ownership::{fan_in, policy_for, AccessPolicy};
use crate::schema::{names_of, ConstraintKind, Record, RecordView, Target};
use crate::shortest::is_minimal_cycle;

verus! {

/// Mathematical model of an [`AnnotatedRecord`].
#[verifier::ext_equal]
pub struct AnnotatedView {
    /// Number of parameters of the record.
    pub params: nat,
    /// Constraint kind of every field, in declaration order.
    pub kinds: Seq<ConstraintKind>,
    /// What every field reads.
    pub edges: Seq<Seq<Target>>,
    /// The fields in evaluation order.
    pub order: Seq<usize>,
    /// Access policy of every field, in declaration order.
    pub policies: Seq<AccessPolicy>,
}

/// `policies` tags every field by its fan-in: `Shared` above one, else
/// `Exclusive`.
pub open spec fn policies_by_fan_in(edges: Seq<Seq<Target>>, policies: Seq<AccessPolicy>) -> bool {
    &&& policies.len() == edges.len()
    &&& forall|f: usize| f < edges.len() ==> #[trigger] policies[f as int] == policy_for(fan_in(edges, f))
}

impl AnnotatedView {
    /// The annotations belong to the graph: the order is its stable
    /// evaluation order and the policies follow its fan-in.
    pub open spec fn consistent(self) -> bool {
        &&& well_formed(self.edges, self.params)
        &&& self.kinds.len() == self.edges.len()
        &&& is_stable_order(self.edges, self.order)
        &&& policies_by_fan_in(self.edges, self.policies)
    }
}

/// The constraint kinds of a record's fields, in declaration order.
pub open spec fn kinds_of(r: RecordView) -> Seq<ConstraintKind> {
    Seq::new(r.fields.len(), |i: int| r.fields[i].kind)
}

/// The stable evaluation order of a graph that has one.
pub open spec fn stable_order_of(edges: Seq<Seq<Target>>) -> Seq<usize> {
    choose|order: Seq<usize>| is_stable_order(edges, order)
}

/// The access policy that the fan-in gives to every field of a graph.
pub open spec fn policies_of(edges: Seq<Seq<Target>>) -> Seq<AccessPolicy> {
    Seq::new(edges.len(), |f: int| policy_for(fan_in(edges, f as usize)))
}

/// The annotations that a record's declarations determine.
pub open spec fn annotation_of(r: RecordView) -> AnnotatedView {
    AnnotatedView {
        params: r.params.len(),
        kinds: kinds_of(r),
        edges: resolved_edges(r),
        order: stable_order_of(resolved_edges(r)),
        policies: policies_of(resolved_edges(r)),
    }
}

/// What `annotate` may report for a record, and when.
pub open spec fn reports(r: RecordView, error: SchemaError) -> bool {
    match error {
        SchemaError::UnresolvedReference { field, position, name } => {
            &&& is_first_unresolved(r, field as int, position as int)
            &&& name@ == r.fields[field as int].deps[position as int]
        },
        SchemaError::CyclicDependency { path, names } => {
            &&& fully_resolved(r)
            &&& is_minimal_cycle(resolved_edges(r), path@)
            &&& is_simple(path@)
            &&& names_of(names@) == names_on(r, path@)
        },
        SchemaError::AmbiguousOwnership { .. } => false,
    }
}

/// The names of the fields on `path`, in step with it.
pub open spec fn names_on(r: RecordView, path: Seq<usize>) -> Seq<Seq<char>> {
    Seq::new(path.len(), |k: int| r.fields[path[k] as int].name)
}

/// A record after resolution and ownership analysis. It is made once and
/// only read afterwards.
pub struct AnnotatedRecord {
    pub(crate) kinds: Vec<ConstraintKind>,
    pub(crate) graph: DependencyGraph,
    pub(crate) order: Vec<usize>,
    pub(crate) policies: Vec<AccessPolicy>,
}

impl View for AnnotatedRecord {
    type V = AnnotatedView;

    closed spec fn view(&self) -> AnnotatedView {
        AnnotatedView {
            params: self.graph.params(),
            kinds: self.kinds@,
            edges: self.graph@,
            order: self.order@,
            policies: self.policies@,
        }
    }
}

impl AnnotatedRecord {
    #[verifier::type_invariant]
    spec fn inv(self) -> bool {
        self@.consistent()
    }

    /// Resolves the references of `record`, orders its fields and tags them
    /// with their access policies.
    ///
    /// Fails with `UnresolvedReference` exactly when some reference names
    /// nothing, citing the first such reference; else with
    /// `CyclicDependency` exactly when some fields depend on each other in
    /// a circle, citing a minimal cycle.
    pub fn annotate(record: &Record) -> (result: Result<AnnotatedRecord, SchemaError>)
        ensures
            match result {
                Ok(annotated) => annotated@ == annotation_of(record@) && annotated@.consistent(),
                Err(error) => reports(record@, error),
            },
            result is Ok <==> fully_resolved(record@) && acyclic(resolved_edges(record@)),
            result matches Err(SchemaError::UnresolvedReference { .. }) <==> !fully_resolved(record@),
    {
        let graph = match DependencyGraph::resolve(record) {
            Ok(graph) => graph,
            Err(error) => {
                return Err(error);
            },
        };
        let order = match graph.evaluation_order() {
            Ok(order) => order,
            Err(path) => {
                proof {
                    cycle_stays_in_graph(graph@, path@);
                }
                let names = record.names_along(&path);
                return Err(SchemaError::CyclicDependency { path, names });
            },
        };
        let policies = graph.access_policies();
        let mut kinds: Vec<ConstraintKind> = Vec::new();
        let mut i: usize = 0;
        while i < record.fields.len()
            invariant
                i <= record.fields.len(),
                kinds@.len() == i,
                forall|j: int| 0 <= j < i ==> kinds@[j] == record@.fields[j].kind,
            decreases record.fields.len() - i,
        {
            kinds.push(record.fields[i].kind);
            i += 1;
        }
        proof {
            assert(kinds@ =~= kinds_of(record@));
            ordered_graph_is_acyclic(graph@, order@);
            stable_order_is_unique(graph@, order@, stable_order_of(graph@));
            assert(policies@ =~= policies_of(graph@));
        }
        Ok(AnnotatedRecord { kinds, graph, order, policies })
    }

    /// The resolved dependency graph.
    pub fn graph(&self) -> (graph: &DependencyGraph)
        ensures
            graph@ == self@.edges,
            graph.params() == self@.params,
            self@.consistent(),
    {
        proof {
            use_type_invariant(self);
        }
        &self.graph
    }

    /// The fields in evaluation order.
    pub fn order(&self) -> (order: &Vec<usize>)
        ensures
            order@ == self@.order,
            self@.consistent(),
    {
        proof {
            use_type_invariant(self);
        }
        &self.order
    }

    /// The access policy of every field, in declaration order.
    pub fn policies(&self) -> (policies: &Vec<AccessPolicy>)
        ensures
            policies@ == self@.policies,
            self@.consistent(),
    {
        proof {
            use_type_invariant(self);
        }
        &self.policies
    }

    /// The constraint kind of every field, in declaration order.
    pub fn kinds(&self) -> (kinds: &Vec<ConstraintKind>)
        ensures
            kinds@ == self@.kinds,
            self@.consistent(),
    {
        proof {
            use_type_invariant(self);
        }
        &self.kinds
    }
}

impl Record {
    /// The names of the fields on `path`, in step with it.
    pub(crate) fn names_along(&self, path: &Vec<usize>) -> (names: Vec<String>)
        requires
            forall|k: int| 0 <= k < path@.len() ==> #[trigger] path@[k] < self@.fields.len(),
        ensures
            names_of(names@) == names_on(self@, path@),
    {
        let mut names: Vec<String> = Vec::new();
        let mut k: usize = 0;
        while k < path.len()
            invariant
                k <= path@.len(),
                names@.len() == k,
                forall|j: int| 0 <= j < path@.len() ==> #[trigger] path@[j] < self@.fields.len(),
                forall|j: int| 0 <= j < k ==> (#[trigger] names@[j])@ == self@.fields[path@[j] as int].name,
            decreases path@.len() - k,
        {
            names.push(self.fields[path[k]].name.clone());
            k += 1;
        }
        proof {
            assert(names_of(names@) =~= names_on(self@, path@));
        }
        names
    }
}

} // verus!
