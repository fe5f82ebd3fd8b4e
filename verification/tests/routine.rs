use dfc_core::annotate::AnnotatedRecord;
use dfc_core::ownership::AccessPolicy;
use dfc_core::routine::{CheckStep, Operand, ValidationRoutine, Verdict};
use dfc_core::schema::{ConstraintKind, FieldDecl, Record};
use std::cell::Cell;

fn step(field: usize) -> CheckStep {
    CheckStep { field, kind: ConstraintKind::Primitive, access: AccessPolicy::Exclusive, operands: vec![] }
}

fn routine_over(fields: &[usize]) -> ValidationRoutine {
    ValidationRoutine { steps: fields.iter().map(|f| step(*f)).collect() }
}

fn counted_run(routine: &ValidationRoutine, outcomes: &[bool]) -> (Verdict, Vec<usize>) {
    let seen: Cell<Vec<usize>> = Cell::new(Vec::new());
    let verdict = routine.run(|s: &CheckStep| {
        let mut so_far = seen.take();
        so_far.push(s.field);
        seen.set(so_far);
        outcomes[s.field]
    });
    (verdict, seen.take())
}

#[test]
fn empty_routine_passes_without_a_check() {
    let routine = routine_over(&[]);
    let (verdict, seen) = counted_run(&routine, &[]);
    assert_eq!(verdict, Verdict { passed: true, evaluated: 0 });
    assert!(seen.is_empty());
}

#[test]
fn run_passes_when_every_check_holds() {
    let routine = routine_over(&[2, 0, 1]);
    let (verdict, seen) = counted_run(&routine, &[true, true, true]);
    assert_eq!(verdict, Verdict { passed: true, evaluated: 3 });
    assert_eq!(seen, vec![2, 0, 1]);
}

#[test]
fn run_stops_at_the_first_failing_check() {
    let routine = routine_over(&[2, 0, 1, 3]);
    // Field 0 fails; it is checked second. Field 1 would fail too.
    let (verdict, seen) = counted_run(&routine, &[false, false, true, true]);
    assert_eq!(verdict, Verdict { passed: false, evaluated: 2 });
    assert_eq!(seen, vec![2, 0]);
}

#[test]
fn run_fails_on_the_first_step() {
    let routine = routine_over(&[0, 1, 2]);
    let (verdict, seen) = counted_run(&routine, &[false, true, true]);
    assert_eq!(verdict, Verdict { passed: false, evaluated: 1 });
    assert_eq!(seen, vec![0]);
}

#[test]
fn run_fails_on_the_last_step() {
    let routine = routine_over(&[0, 1, 2]);
    let (verdict, seen) = counted_run(&routine, &[true, true, false]);
    assert_eq!(verdict, Verdict { passed: false, evaluated: 3 });
    assert_eq!(seen, vec![0, 1, 2]);
}

#[test]
fn every_single_failure_fails_the_run() {
    let routine = routine_over(&[0, 1, 2, 3, 4]);
    for failing in 0..5 {
        let mut outcomes = vec![true; 5];
        outcomes[failing] = false;
        let (verdict, seen) = counted_run(&routine, &outcomes);
        assert!(!verdict.passed);
        assert_eq!(verdict.evaluated, failing + 1);
        assert_eq!(seen.len(), failing + 1);
        assert_eq!(seen, (0..=failing).collect::<Vec<usize>>());
    }
}

#[test]
fn routine_follows_the_evaluation_order() {
    let r = Record {
        name: "R".to_string(),
        params: vec!["p".to_string()],
        fields: vec![
            FieldDecl {
                name: "late".to_string(),
                kind: ConstraintKind::NestedRecord,
                deps: vec!["a".to_string(), "p".to_string()],
            },
            FieldDecl { name: "a".to_string(), kind: ConstraintKind::ParameterEquality, deps: vec!["p".to_string()] },
            FieldDecl { name: "b".to_string(), kind: ConstraintKind::Primitive, deps: vec!["a".to_string()] },
        ],
    };
    let annotated = AnnotatedRecord::annotate(&r).expect("the record is sound");
    let routine = annotated.synthesize();
    let expected = ValidationRoutine {
        steps: vec![
            CheckStep {
                field: 1,
                kind: ConstraintKind::ParameterEquality,
                access: AccessPolicy::Shared,
                operands: vec![Operand::Parameter(0)],
            },
            CheckStep {
                field: 0,
                kind: ConstraintKind::NestedRecord,
                access: AccessPolicy::Exclusive,
                operands: vec![Operand::Field(1, AccessPolicy::Shared), Operand::Parameter(0)],
            },
            CheckStep {
                field: 2,
                kind: ConstraintKind::Primitive,
                access: AccessPolicy::Exclusive,
                operands: vec![Operand::Field(1, AccessPolicy::Shared)],
            },
        ],
    };
    assert_eq!(routine, expected);
}

#[test]
fn exclusive_field_is_read_directly() {
    let r = Record {
        name: "R".to_string(),
        params: vec![],
        fields: vec![
            FieldDecl { name: "a".to_string(), kind: ConstraintKind::Primitive, deps: vec![] },
            FieldDecl { name: "b".to_string(), kind: ConstraintKind::Primitive, deps: vec!["a".to_string()] },
        ],
    };
    let routine = AnnotatedRecord::annotate(&r).expect("the record is sound").synthesize();
    assert_eq!(routine.steps.len(), 2);
    assert_eq!(routine.steps[0].access, AccessPolicy::Exclusive);
    assert_eq!(routine.steps[1].operands, vec![Operand::Field(0, AccessPolicy::Exclusive)]);
}

#[test]
fn operands_are_checked_before_they_are_read() {
    let names = ["f0", "f1", "f2", "f3", "f4", "f5"];
    let deps: [&[&str]; 6] = [&["f3", "f5"], &["f0"], &[], &["f5"], &["f1", "f2", "f3"], &[]];
    let fields = names
        .iter()
        .zip(deps.iter())
        .map(|(n, d)| FieldDecl {
            name: n.to_string(),
            kind: ConstraintKind::Primitive,
            deps: d.iter().map(|x| x.to_string()).collect(),
        })
        .collect();
    let r = Record { name: "R".to_string(), params: vec![], fields };
    let routine = AnnotatedRecord::annotate(&r).expect("the record is sound").synthesize();
    let mut checked = vec![false; 6];
    for s in &routine.steps {
        for operand in &s.operands {
            if let Operand::Field(d, _) = operand {
                assert!(checked[*d]);
            }
        }
        assert!(!checked[s.field]);
        checked[s.field] = true;
    }
    assert!(checked.iter().all(|c| *c));
}
