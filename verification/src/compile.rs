//! The whole pass over one record, and over a schema record by record.

use vstd::prelude::*;
use crate::annotate::{annotation_of, reports, AnnotatedRecord};
use crate::cycle::acyclic;
use crate::error::Diagnostic;
use crate::graph::{fully_resolved, resolved_edges};
use crate::ownership::AccessPolicy;
use crate::routine::{CheckStepView, ValidationRoutine};
use crate::schema::{names_of, Record, RecordView};
use crate::synthesis::routine_for;

verus! {

/// How one field is stored in the emitted record type.
#[derive(Clone, Debug, PartialEq, Eq)]
pub struct FieldSlot {
    pub name: String,
    pub policy: AccessPolicy,
}

/// Mathematical model of a [`FieldSlot`].
pub struct FieldSlotView {
    pub name: Seq<char>,
    pub policy: AccessPolicy,
}

impl View for FieldSlot {
    type V = FieldSlotView;

    open spec fn view(&self) -> FieldSlotView {
        FieldSlotView { name: self.name@, policy: self.policy }
    }
}

/// What the core hands to the emitter for one record: the storage layout
/// and the validation routine.
#[derive(Clone, Debug, PartialEq, Eq)]
pub struct CompiledRecord {
    pub name: String,
    pub params: Vec<String>,
    /// One slot per field, in declaration order.
    pub layout: Vec<FieldSlot>,
    pub routine: ValidationRoutine,
}

/// Mathematical model of a [`CompiledRecord`].
#[verifier::ext_equal]
pub struct CompiledView {
    pub name: Seq<char>,
    pub params: Seq<Seq<char>>,
    pub layout: Seq<FieldSlotView>,
    pub routine: Seq<CheckStepView>,
}

impl View for CompiledRecord {
    type V = CompiledView;

    open spec fn view(&self) -> CompiledView {
        CompiledView {
            name: self.name@,
            params: names_of(self.params@),
            layout: Seq::new(self.layout@.len(), |i: int| self.layout@[i]@),
            routine: self.routine@,
        }
    }
}

/// The storage layout of a record under the given policies.
pub open spec fn layout_of(r: RecordView, policies: Seq<AccessPolicy>) -> Seq<FieldSlotView> {
    Seq::new(r.fields.len(), |i: int| FieldSlotView { name: r.fields[i].name, policy: policies[i] })
}

/// What a record compiles to, where it compiles at all.
pub open spec fn compilation_of(r: RecordView) -> CompiledView {
    let a = annotation_of(r);
    CompiledView { name: r.name, params: r.params, layout: layout_of(r, a.policies), routine: routine_for(a) }
}

/// `result` is the outcome of compiling `r`: its compilation where every
/// reference resolves and no fields depend on each other in a circle, else
/// a diagnostic that names the record and cites the problem.
pub open spec fn compiles_to(r: RecordView, result: Result<CompiledRecord, Diagnostic>) -> bool {
    &&& match result {
        Ok(compiled) => compiled@ == compilation_of(r) && annotation_of(r).consistent(),
        Err(diagnostic) => diagnostic.record@ == r.name && reports(r, diagnostic.error),
    }
    &&& result is Ok <==> fully_resolved(r) && acyclic(resolved_edges(r))
    &&& (result matches Err(diagnostic) && diagnostic.error is UnresolvedReference) <==> !fully_resolved(r)
}

/// Copies a list of names.
fn copy_names(names: &Vec<String>) -> (copy: Vec<String>)
    ensures
        names_of(copy@) == names_of(names@),
{
    let mut copy: Vec<String> = Vec::new();
    let mut i: usize = 0;
    while i < names.len()
        invariant
            i <= names@.len(),
            copy@.len() == i,
            forall|j: int| 0 <= j < i ==> (#[trigger] copy@[j])@ == names@[j]@,
        decreases names@.len() - i,
    {
        copy.push(names[i].clone());
        i += 1;
    }
    proof {
        assert(names_of(copy@) =~= names_of(names@));
    }
    copy
}

/// Compiles one record: resolves its references, orders its fields, tags
/// them with their access policies and synthesizes the validation routine.
/// Nothing is synthesized for a record with a structural problem.
pub fn compile(record: &Record) -> (result: Result<CompiledRecord, Diagnostic>)
    ensures
        compiles_to(record@, result),
{
    let annotated = match AnnotatedRecord::annotate(record) {
        Ok(annotated) => annotated,
        Err(error) => {
            return Err(Diagnostic { record: record.name.clone(), error });
        },
    };
    let policies = annotated.policies();
    let mut layout: Vec<FieldSlot> = Vec::new();
    let mut i: usize = 0;
    while i < record.fields.len()
        invariant
            i <= record.fields.len(),
            policies@.len() == record@.fields.len(),
            layout@.len() == i,
            forall|j: int| 0 <= j < i ==> (#[trigger] layout@[j])@ == layout_of(record@, policies@)[j],
        decreases record.fields.len() - i,
    {
        layout.push(FieldSlot { name: record.fields[i].name.clone(), policy: policies[i] });
        i += 1;
    }
    let routine = annotated.synthesize();
    let compiled = CompiledRecord {
        name: record.name.clone(),
        params: copy_names(&record.params),
        layout,
        routine,
    };
    proof {
        assert(compiled@.layout =~= compilation_of(record@).layout);
        assert(compiled@ =~= compilation_of(record@));
    }
    Ok(compiled)
}

/// Compiles every record of a schema on its own: a record with a
/// structural problem yields its diagnostic and leaves the others as they
/// are.
pub fn compile_schema(records: &Vec<Record>) -> (results: Vec<Result<CompiledRecord, Diagnostic>>)
    ensures
        results@.len() == records@.len(),
        forall|i: int| 0 <= i < records@.len() ==> compiles_to(records@[i]@, #[trigger] results@[i]),
{
    let mut results: Vec<Result<CompiledRecord, Diagnostic>> = Vec::new();
    let mut i: usize = 0;
    while i < records.len()
        invariant
            i <= records@.len(),
            results@.len() == i,
            forall|j: int| 0 <= j < i ==> compiles_to(records@[j]@, #[trigger] results@[j]),
        decreases records@.len() - i,
    {
        results.push(compile(&records[i]));
        i += 1;
    }
    results
}

} // verus!
