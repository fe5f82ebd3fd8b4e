use dfc_core::annotate::AnnotatedRecord;
use dfc_core::error::SchemaError;
use dfc_core::graph::DependencyGraph;
use dfc_core::schema::{ConstraintKind, FieldDecl, Record, Target};

fn field(name: &str, deps: &[&str]) -> FieldDecl {
    FieldDecl {
        name: name.to_string(),
        kind: ConstraintKind::Primitive,
        deps: deps.iter().map(|d| d.to_string()).collect(),
    }
}

fn record(name: &str, params: &[&str], fields: Vec<FieldDecl>) -> Record {
    Record { name: name.to_string(), params: params.iter().map(|p| p.to_string()).collect(), fields }
}

fn order_of(r: &Record) -> Vec<usize> {
    let graph = DependencyGraph::resolve(r).expect("references resolve");
    graph.evaluation_order().expect("no cycle")
}

#[test]
fn independent_fields_keep_declaration_order() {
    let r = record("R", &["b1", "b2"], vec![field("v7", &[]), field("v8", &[]), field("v9", &[])]);
    assert_eq!(order_of(&r), vec![0, 1, 2]);
}

#[test]
fn shared_upstream_comes_first() {
    let r = record("R", &[], vec![field("a", &[]), field("b", &["a"]), field("c", &["a"])]);
    assert_eq!(order_of(&r), vec![0, 1, 2]);
}

#[test]
fn forced_reordering_is_stable() {
    // `a` has to wait for `c`; `b` and `c` keep their declaration order.
    let r = record("R", &[], vec![field("a", &["c"]), field("b", &[]), field("c", &[])]);
    assert_eq!(order_of(&r), vec![1, 2, 0]);
}

#[test]
fn earliest_ready_field_is_taken_first() {
    // d <- c <- a, b free: after `d` is placed, `b` is the earliest ready field,
    // not `c`, which became ready at the same time.
    let r = record(
        "R",
        &[],
        vec![field("a", &["c"]), field("b", &["d"]), field("c", &["d"]), field("d", &[])],
    );
    assert_eq!(order_of(&r), vec![3, 1, 2, 0]);
}

#[test]
fn every_field_follows_what_it_depends_on() {
    let fields = vec![
        field("f0", &["f3", "f5"]),
        field("f1", &["f0", "p"]),
        field("f2", &[]),
        field("f3", &["f5"]),
        field("f4", &["f1", "f2", "f3"]),
        field("f5", &["q"]),
    ];
    let r = record("R", &["p", "q"], fields);
    let graph = DependencyGraph::resolve(&r).expect("references resolve");
    let order = graph.evaluation_order().expect("no cycle");
    assert_eq!(order, vec![2, 5, 3, 0, 1, 4]);
    let mut position = vec![usize::MAX; order.len()];
    for (k, f) in order.iter().enumerate() {
        position[*f] = k;
    }
    for f in 0..graph.len() {
        for target in graph.targets(f) {
            if let Target::Field(d) = target {
                assert!(position[*d] < position[f]);
            }
        }
    }
}

#[test]
fn resolving_again_yields_the_same_order() {
    let fields = vec![field("a", &["c"]), field("b", &["a"]), field("c", &[]), field("d", &["p"])];
    let r = record("R", &["p"], fields);
    let first = order_of(&r);
    let second = order_of(&r);
    assert_eq!(first, second);
    assert_eq!(first, vec![2, 0, 1, 3]);
}

#[test]
fn references_resolve_to_fields_before_parameters() {
    let r = record("R", &["x", "p"], vec![field("x", &[]), field("y", &["x", "p"])]);
    let graph = DependencyGraph::resolve(&r).expect("references resolve");
    assert_eq!(graph.len(), 2);
    assert_eq!(graph.targets(0), &Vec::<Target>::new());
    assert_eq!(graph.targets(1), &vec![Target::Field(0), Target::Parameter(1)]);
    assert_eq!(r.resolve(&"x".to_string()), Some(Target::Field(0)));
    assert_eq!(r.resolve(&"p".to_string()), Some(Target::Parameter(1)));
    assert_eq!(r.resolve(&"q".to_string()), None);
}

#[test]
fn first_of_equal_names_is_found() {
    let r = record("R", &["p", "p"], vec![field("a", &[]), field("b", &[]), field("a", &[])]);
    assert_eq!(r.find_field(&"a".to_string()), Some(0));
    assert_eq!(r.find_field(&"b".to_string()), Some(1));
    assert_eq!(r.find_field(&"c".to_string()), None);
    assert_eq!(r.find_param(&"p".to_string()), Some(0));
    assert_eq!(r.find_param(&"a".to_string()), None);
}

#[test]
fn mutual_dependency_is_a_cycle() {
    let r = record("R", &[], vec![field("x", &["y"]), field("y", &["x"])]);
    match AnnotatedRecord::annotate(&r) {
        Err(SchemaError::CyclicDependency { path, names }) => {
            assert_eq!(path, vec![0, 1]);
            assert_eq!(names, vec!["x".to_string(), "y".to_string()]);
        },
        _ => panic!("a cycle was expected"),
    }
}

#[test]
fn self_dependency_is_a_cycle() {
    let r = record("R", &[], vec![field("a", &[]), field("x", &["a", "x"])]);
    let graph = DependencyGraph::resolve(&r).expect("references resolve");
    assert_eq!(graph.evaluation_order(), Err(vec![1]));
}

#[test]
fn reported_cycle_leaves_out_the_fields_that_lead_into_it() {
    // a -> b -> c -> b
    let r = record("R", &[], vec![field("a", &["b"]), field("b", &["c"]), field("c", &["b"])]);
    match AnnotatedRecord::annotate(&r) {
        Err(SchemaError::CyclicDependency { path, names }) => {
            assert_eq!(path, vec![1, 2]);
            assert_eq!(names, vec!["b".to_string(), "c".to_string()]);
        },
        _ => panic!("a cycle was expected"),
    }
}

#[test]
fn undeclared_parameter_is_unresolved() {
    let r = record("R", &[], vec![field("z", &["p"])]);
    match AnnotatedRecord::annotate(&r) {
        Err(SchemaError::UnresolvedReference { field, position, name }) => {
            assert_eq!(field, 0);
            assert_eq!(position, 0);
            assert_eq!(name, "p");
        },
        _ => panic!("an unresolved reference was expected"),
    }
}

#[test]
fn first_unresolved_reference_is_cited() {
    let fields = vec![field("a", &["p"]), field("b", &["a", "nope", "p", "gone"]), field("c", &["missing"])];
    let r = record("R", &["p"], fields);
    match DependencyGraph::resolve(&r) {
        Err(SchemaError::UnresolvedReference { field, position, name }) => {
            assert_eq!(field, 1);
            assert_eq!(position, 1);
            assert_eq!(name, "nope");
        },
        _ => panic!("an unresolved reference was expected"),
    }
}

#[test]
fn unresolved_reference_is_found_before_a_cycle() {
    let r = record("R", &[], vec![field("x", &["y"]), field("y", &["x", "p"])]);
    assert!(matches!(AnnotatedRecord::annotate(&r), Err(SchemaError::UnresolvedReference { .. })));
}

#[test]
fn empty_record_has_an_empty_order() {
    let r = record("Empty", &[], vec![]);
    assert_eq!(order_of(&r), Vec::<usize>::new());
}

#[test]
fn shortest_cycle_is_cited() {
    // 0 -> 1 -> 2 -> 3 -> 0 and 2 -> 4 -> 2
    let fields = vec![
        field("f0", &["f1"]),
        field("f1", &["f2"]),
        field("f2", &["f3", "f4"]),
        field("f3", &["f0"]),
        field("f4", &["f2"]),
    ];
    let r = record("R", &[], fields);
    match AnnotatedRecord::annotate(&r) {
        Err(SchemaError::CyclicDependency { path, names }) => {
            assert_eq!(path, vec![2, 4]);
            assert_eq!(names, vec!["f2".to_string(), "f4".to_string()]);
        },
        _ => panic!("a cycle was expected"),
    }
}

#[test]
fn among_shortest_cycles_the_earliest_declared_is_cited() {
    // 1 -> 2 -> 1 and 0 -> 3 -> 0, reached through 4 -> 1
    let fields = vec![
        field("f0", &["f3"]),
        field("f1", &["f2"]),
        field("f2", &["f1"]),
        field("f3", &["f0"]),
        field("f4", &["f1"]),
    ];
    let r = record("R", &[], fields);
    let graph = DependencyGraph::resolve(&r).expect("references resolve");
    assert_eq!(graph.evaluation_order(), Err(vec![0, 3]));
}

#[test]
fn cycle_behind_placed_fields_is_found() {
    // `a` and `b` can be placed; `c`, `d`, `e` wait for each other.
    let fields = vec![
        field("a", &[]),
        field("b", &["a"]),
        field("c", &["b", "e"]),
        field("d", &["c"]),
        field("e", &["d"]),
    ];
    let r = record("R", &[], fields);
    match AnnotatedRecord::annotate(&r) {
        Err(SchemaError::CyclicDependency { path, names }) => {
            assert_eq!(path, vec![2, 4, 3]);
            assert_eq!(names, vec!["c".to_string(), "e".to_string(), "d".to_string()]);
        },
        _ => panic!("a cycle was expected"),
    }
}

#[test]
fn field_without_dependencies_is_scheduled_as_early_as_declared() {
    // `free` reads nothing: it stands before `late`, declared after it,
    // though `late` could be placed from the start as well.
    let fields = vec![field("waits", &["late"]), field("free", &[]), field("late", &[])];
    let r = record("R", &[], fields);
    assert_eq!(order_of(&r), vec![1, 2, 0]);
}

#[test]
fn parameters_do_not_delay_a_field() {
    let fields = vec![field("a", &["p", "q"]), field("b", &["a", "p"]), field("c", &["q"])];
    let r = record("R", &["p", "q"], fields);
    assert_eq!(order_of(&r), vec![0, 1, 2]);
}
