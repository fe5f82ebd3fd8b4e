//! The schema model: records, their parameters and their field declarations.
//!
//! A record is built once by a front end and only read afterwards. Fields and
//! parameters are referred to by name in the declarations and by position
//! everywhere else.

use vstd::prelude::*;

verus! {

/// What the local check of a field has to decide.
#[derive(Clone, Copy, Debug, PartialEq, Eq, Structural)]
pub enum ConstraintKind {
    /// A check of the field's own primitive value.
    Primitive,
    /// The field must equal the value of an upstream parameter.
    ParameterEquality,
    /// The field is a nested record whose variant is selected by upstream values.
    NestedRecord,
}

/// One field declaration of a record.
#[derive(Clone, Debug, PartialEq, Eq)]
pub struct FieldDecl {
    pub name: String,
    pub kind: ConstraintKind,
    /// Names of the fields and parameters whose values the check reads.
    pub deps: Vec<String>,
}

/// Mathematical model of a [`FieldDecl`].
pub struct FieldDeclView {
    pub name: Seq<char>,
    pub kind: ConstraintKind,
    pub deps: Seq<Seq<char>>,
}

/// A named record: its parameters and its fields in declaration order.
#[derive(Clone, Debug, PartialEq, Eq)]
pub struct Record {
    pub name: String,
    pub params: Vec<String>,
    pub fields: Vec<FieldDecl>,
}

/// Mathematical model of a [`Record`].
pub struct RecordView {
    pub name: Seq<char>,
    pub params: Seq<Seq<char>>,
    pub fields: Seq<FieldDeclView>,
}

/// What a dependency reference denotes once it is resolved.
#[derive(Clone, Copy, Debug, PartialEq, Eq, Structural)]
pub enum Target {
    /// The field at this position of the declaration order.
    Field(usize),
    /// The parameter at this position of the parameter list.
    Parameter(usize),
}

/// The names held by a vector of strings.
pub open spec fn names_of(strings: Seq<String>) -> Seq<Seq<char>> {
    Seq::new(strings.len(), |i: int| strings[i]@)
}

impl View for FieldDecl {
    type V = FieldDeclView;

    open spec fn view(&self) -> FieldDeclView {
        FieldDeclView { name: self.name@, kind: self.kind, deps: names_of(self.deps@) }
    }
}

impl View for Record {
    type V = RecordView;

    open spec fn view(&self) -> RecordView {
        RecordView {
            name: self.name@,
            params: names_of(self.params@),
            fields: Seq::new(self.fields@.len(), |i: int| self.fields@[i]@),
        }
    }
}

/// `i` is the first position of `names` that holds `name`.
pub open spec fn is_first_occurrence(names: Seq<Seq<char>>, name: Seq<char>, i: int) -> bool {
    &&& 0 <= i < names.len()
    &&& names[i] == name
    &&& forall|j: int| 0 <= j < i ==> names[j] != name
}

/// The first position of `names` that holds `name`, if there is one.
pub open spec fn position_of(names: Seq<Seq<char>>, name: Seq<char>) -> Option<int> {
    if exists|i: int| is_first_occurrence(names, name, i) {
        Some(choose|i: int| is_first_occurrence(names, name, i))
    } else {
        None
    }
}

/// A name has at most one first occurrence.
pub proof fn first_occurrence_is_unique(names: Seq<Seq<char>>, name: Seq<char>, i: int, j: int)
    requires
        is_first_occurrence(names, name, i),
        is_first_occurrence(names, name, j),
    ensures
        i == j,
{
    if i < j {
        assert(names[i] != name);
    } else if j < i {
        assert(names[j] != name);
    }
}

/// `position_of` is `Some(i)` exactly at the first occurrence.
pub proof fn position_of_first_occurrence(names: Seq<Seq<char>>, name: Seq<char>, i: int)
    requires
        is_first_occurrence(names, name, i),
    ensures
        position_of(names, name) == Some(i),
{
    let c = choose|c: int| is_first_occurrence(names, name, c);
    first_occurrence_is_unique(names, name, i, c);
}

/// `position_of` is `None` exactly when the name does not occur.
pub proof fn position_of_absent(names: Seq<Seq<char>>, name: Seq<char>)
    requires
        forall|j: int| 0 <= j < names.len() ==> names[j] != name,
    ensures
        position_of(names, name) is None,
{
}

impl RecordView {
    /// The field names in declaration order.
    pub open spec fn field_names(self) -> Seq<Seq<char>> {
        Seq::new(self.fields.len(), |i: int| self.fields[i].name)
    }

    /// What `name` denotes in this record: the first field of that name, else
    /// the first parameter of that name, else nothing.
    pub open spec fn resolve(self, name: Seq<char>) -> Option<Target> {
        match position_of(self.field_names(), name) {
            Some(i) => Some(Target::Field(i as usize)),
            None => match position_of(self.params, name) {
                Some(p) => Some(Target::Parameter(p as usize)),
                None => None,
            },
        }
    }
}

impl Record {
    /// Position of the first field called `name`.
    pub fn find_field(&self, name: &String) -> (found: Option<usize>)
        ensures
            match found {
                Some(i) => position_of(self@.field_names(), name@) == Some(i as int),
                None => position_of(self@.field_names(), name@) is None,
            },
    {
        let ghost names = self@.field_names();
        let mut i: usize = 0;
        while i < self.fields.len()
            invariant
                i <= self.fields.len(),
                names == self@.field_names(),
                forall|j: int| 0 <= j < i ==> names[j] != name@,
            decreases self.fields.len() - i,
        {
            if self.fields[i].name == *name {
                proof {
                    position_of_first_occurrence(names, name@, i as int);
                }
                return Some(i);
            }
            i += 1;
        }
        proof {
            position_of_absent(names, name@);
        }
        None
    }

    /// Position of the first parameter called `name`.
    pub fn find_param(&self, name: &String) -> (found: Option<usize>)
        ensures
            match found {
                Some(p) => position_of(self@.params, name@) == Some(p as int),
                None => position_of(self@.params, name@) is None,
            },
    {
        let ghost names = self@.params;
        let mut p: usize = 0;
        while p < self.params.len()
            invariant
                p <= self.params.len(),
                names == self@.params,
                forall|j: int| 0 <= j < p ==> names[j] != name@,
            decreases self.params.len() - p,
        {
            if self.params[p] == *name {
                proof {
                    position_of_first_occurrence(names, name@, p as int);
                }
                return Some(p);
            }
            p += 1;
        }
        proof {
            position_of_absent(names, name@);
        }
        None
    }

    /// Resolves a dependency reference against the fields, then the parameters.
    pub fn resolve(&self, name: &String) -> (target: Option<Target>)
        ensures
            target == self@.resolve(name@),
    {
        match self.find_field(name) {
            Some(i) => Some(Target::Field(i)),
            None => match self.find_param(name) {
                Some(p) => Some(Target::Parameter(p)),
                None => None,
            },
        }
    }
}

} // verus!
