use dfc_core::annotate::AnnotatedRecord;
use dfc_core::graph::DependencyGraph;
use dfc_core::ownership::{choose_policy, AccessPolicy};
use dfc_core::schema::{ConstraintKind, FieldDecl, Record};

fn decl(name: &str, deps: &[&str]) -> FieldDecl {
    FieldDecl {
        name: name.to_string(),
        kind: ConstraintKind::Primitive,
        deps: deps.iter().map(|d| d.to_string()).collect(),
    }
}

fn graph_of(params: &[&str], fields: Vec<FieldDecl>) -> DependencyGraph {
    let r = Record { name: "R".to_string(), params: params.iter().map(|p| p.to_string()).collect(), fields };
    DependencyGraph::resolve(&r).expect("references resolve")
}

#[test]
fn policy_follows_fan_in() {
    assert_eq!(choose_policy(0), AccessPolicy::Exclusive);
    assert_eq!(choose_policy(1), AccessPolicy::Exclusive);
    assert_eq!(choose_policy(2), AccessPolicy::Shared);
    assert_eq!(choose_policy(3), AccessPolicy::Shared);
    assert_eq!(choose_policy(usize::MAX), AccessPolicy::Shared);
}

#[test]
fn independent_fields_are_exclusive() {
    let g = graph_of(&["b1", "b2"], vec![decl("v7", &[]), decl("v8", &[]), decl("v9", &[])]);
    assert_eq!(g.fan_in(0), 0);
    assert_eq!(g.fan_in(1), 0);
    assert_eq!(g.fan_in(2), 0);
    assert_eq!(
        g.access_policies(),
        vec![AccessPolicy::Exclusive, AccessPolicy::Exclusive, AccessPolicy::Exclusive]
    );
}

#[test]
fn field_read_by_two_is_shared() {
    let g = graph_of(&[], vec![decl("a", &[]), decl("b", &["a"]), decl("c", &["a"])]);
    assert_eq!(g.fan_in(0), 2);
    assert_eq!(g.fan_in(1), 0);
    assert_eq!(g.fan_in(2), 0);
    assert_eq!(
        g.access_policies(),
        vec![AccessPolicy::Shared, AccessPolicy::Exclusive, AccessPolicy::Exclusive]
    );
}

#[test]
fn field_read_by_one_is_exclusive() {
    let g = graph_of(&[], vec![decl("a", &[]), decl("b", &["a"]), decl("c", &["b"])]);
    assert_eq!(g.fan_in(0), 1);
    assert_eq!(g.fan_in(1), 1);
    assert_eq!(g.fan_in(2), 0);
    assert_eq!(
        g.access_policies(),
        vec![AccessPolicy::Exclusive, AccessPolicy::Exclusive, AccessPolicy::Exclusive]
    );
}

#[test]
fn repeated_references_of_one_field_count_once() {
    let g = graph_of(&[], vec![decl("a", &[]), decl("b", &["a", "a", "a"])]);
    assert_eq!(g.fan_in(0), 1);
    assert_eq!(g.access_policies(), vec![AccessPolicy::Exclusive, AccessPolicy::Exclusive]);
}

#[test]
fn a_field_does_not_count_as_its_own_dependent() {
    let g = graph_of(&[], vec![decl("a", &["a"]), decl("b", &["a"])]);
    assert_eq!(g.fan_in(0), 1);
    let h = graph_of(&[], vec![decl("a", &["a"]), decl("b", &["a"]), decl("c", &["a"])]);
    assert_eq!(h.fan_in(0), 2);
}

#[test]
fn parameters_add_nothing_to_fan_in() {
    let g = graph_of(&["p"], vec![decl("a", &["p"]), decl("b", &["p", "a"]), decl("c", &["p"])]);
    assert_eq!(g.fan_in(0), 1);
    assert_eq!(g.fan_in(1), 0);
    assert_eq!(g.fan_in(2), 0);
}

#[test]
fn fan_in_of_a_position_without_field_is_zero() {
    let g = graph_of(&[], vec![decl("a", &[]), decl("b", &["a"])]);
    assert_eq!(g.fan_in(2), 0);
    assert_eq!(g.fan_in(usize::MAX), 0);
}

#[test]
fn reads_tells_direct_dependencies() {
    let g = graph_of(&["p"], vec![decl("a", &[]), decl("b", &["a", "p"]), decl("c", &["b"])]);
    assert!(g.reads(1, 0));
    assert!(g.reads(2, 1));
    assert!(!g.reads(2, 0));
    assert!(!g.reads(0, 1));
    assert!(!g.reads(0, 0));
    assert!(!g.reads(3, 0));
}

#[test]
fn wide_fan_in_is_counted_exactly() {
    let mut fields = vec![decl("hub", &[])];
    for i in 0..40 {
        let name = format!("spoke{}", i);
        fields.push(FieldDecl {
            name,
            kind: ConstraintKind::Primitive,
            deps: if i % 2 == 0 { vec!["hub".to_string()] } else { vec![] },
        });
    }
    let g = graph_of(&[], fields);
    assert_eq!(g.fan_in(0), 20);
    let policies = g.access_policies();
    assert_eq!(policies.len(), 41);
    assert_eq!(policies[0], AccessPolicy::Shared);
    assert!(policies[1..].iter().all(|p| *p == AccessPolicy::Exclusive));
}

#[test]
fn annotation_holds_order_and_policies() {
    let r = Record {
        name: "R".to_string(),
        params: vec!["p".to_string()],
        fields: vec![decl("late", &["a"]), decl("a", &["p"]), decl("b", &["a"])],
    };
    let annotated = AnnotatedRecord::annotate(&r).expect("the record is sound");
    assert_eq!(annotated.order(), &vec![1, 0, 2]);
    assert_eq!(
        annotated.policies(),
        &vec![AccessPolicy::Exclusive, AccessPolicy::Shared, AccessPolicy::Exclusive]
    );
    assert_eq!(annotated.graph().len(), 3);
    assert_eq!(annotated.kinds().len(), 3);
}
