use dfc_core::compile::compile;
use dfc_core::emitted::{Field, FieldsDependOnDependenciesBool};
use dfc_core::routine::CheckStep;
use dfc_core::schema::{ConstraintKind, FieldDecl, Record};
use std::rc::Rc;

fn sample(v7: bool, v8: bool, v9: bool) -> FieldsDependOnDependenciesBool {
    FieldsDependOnDependenciesBool {
        v7: Rc::new(Field::new(v7)),
        v8: Rc::new(Field::new(v8)),
        v9: Rc::new(Field::new(v9)),
    }
}

#[test]
fn field_check_tells_what_it_was_made_with() {
    assert!(Field::new(true).check());
    assert!(!Field::new(false).check());
}

#[test]
fn check_is_the_conjunction_of_the_field_checks() {
    for bits in 0..8u32 {
        let (a, b, c) = (bits & 1 != 0, bits & 2 != 0, bits & 4 != 0);
        let record = sample(a, b, c);
        for (b1, b2) in [(false, false), (false, true), (true, false), (true, true)] {
            assert_eq!(record.check(b1, b2), a && b && c);
        }
    }
}

#[test]
fn check_holds_for_three_sound_fields() {
    assert!(sample(true, true, true).check(true, false));
}

#[test]
fn check_fails_for_each_single_unsound_field() {
    assert!(!sample(false, true, true).check(false, false));
    assert!(!sample(true, false, true).check(false, false));
    assert!(!sample(true, true, false).check(false, false));
}

#[test]
fn shared_handles_may_point_to_one_field() {
    let one = Rc::new(Field::new(true));
    let record = FieldsDependOnDependenciesBool { v7: one.clone(), v8: one.clone(), v9: one };
    assert!(record.check(true, true));
}

#[test]
fn check_agrees_with_the_synthesized_routine() {
    let free = |name: &str| FieldDecl { name: name.to_string(), kind: ConstraintKind::NestedRecord, deps: vec![] };
    let schema = Record {
        name: "FieldsDependOnDependenciesBool".to_string(),
        params: vec!["b1".to_string(), "b2".to_string()],
        fields: vec![free("v7"), free("v8"), free("v9")],
    };
    let compiled = compile(&schema).expect("the record is sound");
    for bits in 0..8u32 {
        let record = sample(bits & 1 != 0, bits & 2 != 0, bits & 4 != 0);
        let fields = [&record.v7, &record.v8, &record.v9];
        let verdict = compiled.routine.run(|s: &CheckStep| fields[s.field].check());
        assert_eq!(verdict.passed, record.check(false, true));
    }
}
