//! Structural problems of a schema, found before any routine is synthesized.

use vstd::prelude::*;

verus! {

/// Why a record cannot be compiled. Fields are cited by their position in the
/// declaration order and, where a name is at hand, by name.
#[derive(Clone, Debug, PartialEq, Eq)]
pub enum SchemaError {
    /// The dependency reference at `position` of the field at `field` names
    /// neither a field nor a parameter of the record.
    UnresolvedReference { field: usize, position: usize, name: String },
    /// The fields on `path` depend on each other in a circle: each one on the
    /// next, the last one on the first. `names` holds their names, in step.
    CyclicDependency { path: Vec<usize>, names: Vec<String> },
    /// Two access policies conflict for the field at `field`. Kept for
    /// constraint kinds to come; the fan-in policy never reports it.
    AmbiguousOwnership { field: usize },
}

/// A schema error together with the record it was found in.
#[derive(Clone, Debug, PartialEq, Eq)]
pub struct Diagnostic {
    pub record: String,
    pub error: SchemaError,
}

} // verus!
