//! An emitted record type, as a back end renders it for a record of three
//! independent fields and two boolean parameters.

use vstd::prelude::*;
use std::rc::Rc;

verus! {

/// A stored field value, as far as validation is concerned: what its own
/// local check finds.
pub struct Field {
    valid: bool,
}

impl Field {
    /// Whether the local check of this value holds.
    pub closed spec fn holds(&self) -> bool {
        self.valid
    }

    /// A field value whose local check holds exactly if `valid`.
    pub fn new(valid: bool) -> (field: Field)
        ensures
            field.holds() == valid,
    {
        Field { valid }
    }

    /// The local check.
    pub fn check(&self) -> (ok: bool)
        ensures
            ok == self.holds(),
    {
        self.valid
    }
}

/// A record of three fields that read neither each other nor the record's
/// two parameters. Each is held behind a shared handle.
pub struct FieldsDependOnDependenciesBool {
    pub v7: Rc<Field>,
    pub v8: Rc<Field>,
    pub v9: Rc<Field>,
}

impl FieldsDependOnDependenciesBool {
    /// Whether the checks of all three fields hold.
    pub open spec fn valid(&self) -> bool {
        self.v7.holds() && self.v8.holds() && self.v9.holds()
    }

    /// The validation routine of the record: checks the fields in
    /// declaration order and stops at the first check that fails.
    pub fn check(&self, b1: bool, b2: bool) -> (ok: bool)
        ensures
            ok == self.valid(),
    {
        let v7 = &self.v7;
        let v8 = &self.v8;
        let v9 = &self.v9;
        if !v7.check() {
            return false;
        }
        if !v8.check() {
            return false;
        }
        if !v9.check() {
            return false;
        }
        return true;
    }
}

} // verus!
