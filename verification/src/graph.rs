//! The dependency graph of one record: for every field, what its check reads.

use vstd::prelude::*;
use crate::error::SchemaError;
use crate::schema::{Record, RecordView, Target};

verus! {

/// Every target of `edges` denotes a field of the graph or one of `params`
/// parameters.
pub open spec fn well_formed(edges: Seq<Seq<Target>>, params: nat) -> bool {
    forall|i: int, k: int|
        0 <= i < edges.len() && 0 <= k < edges[i].len() ==> match #[trigger] edges[i][k] {
            Target::Field(f) => f < edges.len(),
            Target::Parameter(p) => p < params,
        }
}

/// Field `a` reads the value of field `b`.
pub open spec fn depends_on(edges: Seq<Seq<Target>>, a: usize, b: usize) -> bool {
    &&& a < edges.len()
    &&& exists|k: int| 0 <= k < edges[a as int].len() && #[trigger] edges[a as int][k] == Target::Field(b)
}

/// The reference at `k` of field `i` names nothing in the record.
pub open spec fn unresolved_at(r: RecordView, i: int, k: int) -> bool {
    &&& 0 <= i < r.fields.len()
    &&& 0 <= k < r.fields[i].deps.len()
    &&& r.resolve(r.fields[i].deps[k]) is None
}

/// Reading order of references: by field, then by place within the field.
pub open spec fn comes_before(i1: int, k1: int, i2: int, k2: int) -> bool {
    i1 < i2 || (i1 == i2 && k1 < k2)
}

/// The reference at `k` of field `i` is the first one that names nothing.
pub open spec fn is_first_unresolved(r: RecordView, i: int, k: int) -> bool {
    &&& unresolved_at(r, i, k)
    &&& forall|i2: int, k2: int| #[trigger] unresolved_at(r, i2, k2) ==> !comes_before(i2, k2, i, k)
}

/// Every reference of the record names a field or a parameter.
pub open spec fn fully_resolved(r: RecordView) -> bool {
    forall|i: int, k: int| !#[trigger] unresolved_at(r, i, k)
}

/// The graph of a record: each reference replaced by what it denotes.
pub open spec fn resolved_edges(r: RecordView) -> Seq<Seq<Target>> {
    Seq::new(
        r.fields.len(),
        |i: int| Seq::new(r.fields[i].deps.len(), |k: int| r.resolve(r.fields[i].deps[k]).unwrap()),
    )
}

/// What a resolved name can denote lies within the record.
pub proof fn resolve_in_range(r: RecordView, name: Seq<char>)
    ensures
        match r.resolve(name) {
            Some(Target::Field(f)) => f < r.fields.len(),
            Some(Target::Parameter(p)) => p < r.params.len(),
            None => true,
        },
{
}

/// The graph of a fully resolved record is well formed.
pub proof fn resolved_edges_well_formed(r: RecordView)
    requires
        fully_resolved(r),
    ensures
        well_formed(resolved_edges(r), r.params.len()),
{
    let edges = resolved_edges(r);
    assert forall|i: int, k: int| 0 <= i < edges.len() && 0 <= k < edges[i].len() implies match #[trigger] edges[i][k] {
        Target::Field(f) => f < edges.len(),
        Target::Parameter(p) => p < r.params.len(),
    } by {
        assert(!unresolved_at(r, i, k));
        resolve_in_range(r, r.fields[i].deps[k]);
    }
}

/// The rows held by a vector of vectors.
pub open spec fn rows_of(rows: Seq<Vec<Target>>) -> Seq<Seq<Target>> {
    Seq::new(rows.len(), |i: int| rows[i]@)
}

/// A record's dependency references, resolved to positions.
pub struct DependencyGraph {
    pub(crate) params: usize,
    pub(crate) edges: Vec<Vec<Target>>,
}

impl View for DependencyGraph {
    type V = Seq<Seq<Target>>;

    closed spec fn view(&self) -> Seq<Seq<Target>> {
        rows_of(self.edges@)
    }
}

impl DependencyGraph {
    #[verifier::type_invariant]
    spec fn inv(self) -> bool {
        well_formed(self@, self.params as nat)
    }

    /// Number of parameters that the targets may refer to.
    pub closed spec fn params(&self) -> nat {
        self.params as nat
    }

    /// Resolves every dependency reference of `record`, in reading order.
    /// Fails at the first reference that names neither a field nor a
    /// parameter.
    pub fn resolve(record: &Record) -> (result: Result<DependencyGraph, SchemaError>)
        ensures
            match result {
                Ok(graph) => {
                    &&& fully_resolved(record@)
                    &&& graph@ == resolved_edges(record@)
                    &&& graph.params() == record@.params.len()
                    &&& well_formed(graph@, graph.params())
                },
                Err(SchemaError::UnresolvedReference { field, position, name }) => {
                    &&& is_first_unresolved(record@, field as int, position as int)
                    &&& name@ == record@.fields[field as int].deps[position as int]
                },
                Err(_) => false,
            },
            result is Ok <==> fully_resolved(record@),
    {
        let ghost r = record@;
        let mut edges: Vec<Vec<Target>> = Vec::new();
        let mut i: usize = 0;
        while i < record.fields.len()
            invariant
                r == record@,
                i <= record.fields.len(),
                edges@.len() == i,
                forall|i2: int, k2: int| 0 <= i2 < i ==> !unresolved_at(r, i2, k2),
                forall|i2: int| 0 <= i2 < i ==> (#[trigger] edges@[i2])@ == resolved_edges(r)[i2],
            decreases record.fields.len() - i,
        {
            let decl = &record.fields[i];
            let mut row: Vec<Target> = Vec::new();
            let mut k: usize = 0;
            while k < decl.deps.len()
                invariant
                    r == record@,
                    i < record.fields.len(),
                    *decl == record.fields@[i as int],
                    k <= decl.deps.len(),
                    row@.len() == k,
                    forall|i2: int, k2: int| 0 <= i2 < i ==> !unresolved_at(r, i2, k2),
                    forall|k2: int| 0 <= k2 < k ==> !unresolved_at(r, i as int, k2),
                    forall|k2: int| 0 <= k2 < k ==> #[trigger] row@[k2] == resolved_edges(r)[i as int][k2],
                decreases decl.deps.len() - k,
            {
                let name = &decl.deps[k];
                assert(name@ == r.fields[i as int].deps[k as int]);
                match record.resolve(name) {
                    Some(target) => {
                        row.push(target);
                    },
                    None => {
                        assert(unresolved_at(r, i as int, k as int));
                        return Err(
                            SchemaError::UnresolvedReference {
                                field: i,
                                position: k,
                                name: name.clone(),
                            },
                        );
                    },
                }
                k += 1;
            }
            assert(row@ =~= resolved_edges(r)[i as int]);
            edges.push(row);
            i += 1;
        }
        proof {
            assert(rows_of(edges@) =~= resolved_edges(r));
            assert(fully_resolved(r));
            resolved_edges_well_formed(r);
        }
        Ok(DependencyGraph { params: record.params.len(), edges })
    }

    /// Number of fields.
    pub fn len(&self) -> (n: usize)
        ensures
            n == self@.len(),
            well_formed(self@, self.params()),
    {
        proof {
            use_type_invariant(self);
        }
        self.edges.len()
    }

    /// What the field at `field` reads, in the order of its declaration.
    pub fn targets(&self, field: usize) -> (row: &Vec<Target>)
        requires
            field < self@.len(),
        ensures
            row@ == self@[field as int],
    {
        &self.edges[field]
    }
}

} // verus!
