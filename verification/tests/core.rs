//! Construction and evaluation cases driven through the linker and the
//! streaming engine under IEEE-754 arithmetic.

use sdag::arith::Arith;
use sdag::eval::Engine;
use sdag::link::{link, Linked, NodeSpec, ParamValue};
use sdag::row::Row;
use sdag::specs::LinkError;

/// IEEE-754 double-precision arithmetic over 64-bit value patterns.
struct Ieee;

impl Arith for Ieee {
    fn add_spec(&self, _a: u64, _b: u64) -> u64 {
        unreachable!()
    }
    fn sub_spec(&self, _a: u64, _b: u64) -> u64 {
        unreachable!()
    }
    fn mul_spec(&self, _a: u64, _b: u64) -> u64 {
        unreachable!()
    }
    fn div_spec(&self, _a: u64, _b: u64) -> u64 {
        unreachable!()
    }
    fn pow_spec(&self, _a: u64, _b: u64) -> u64 {
        unreachable!()
    }
    fn lt_spec(&self, _a: u64, _b: u64) -> bool {
        unreachable!()
    }
    fn gt_spec(&self, _a: u64, _b: u64) -> bool {
        unreachable!()
    }
    fn add(&self, a: u64, b: u64) -> u64 {
        (f64::from_bits(a) + f64::from_bits(b)).to_bits()
    }
    fn sub(&self, a: u64, b: u64) -> u64 {
        (f64::from_bits(a) - f64::from_bits(b)).to_bits()
    }
    fn mul(&self, a: u64, b: u64) -> u64 {
        (f64::from_bits(a) * f64::from_bits(b)).to_bits()
    }
    fn div(&self, a: u64, b: u64) -> u64 {
        (f64::from_bits(a) / f64::from_bits(b)).to_bits()
    }
    fn pow(&self, a: u64, b: u64) -> u64 {
        f64::from_bits(a).powf(f64::from_bits(b)).to_bits()
    }
    fn lt(&self, a: u64, b: u64) -> bool {
        f64::from_bits(a) < f64::from_bits(b)
    }
    fn gt(&self, a: u64, b: u64) -> bool {
        f64::from_bits(a) > f64::from_bits(b)
    }
}

fn bits(x: f64) -> u64 {
    x.to_bits()
}

fn num(x: f64) -> ParamValue {
    ParamValue::Num(x.to_bits())
}

fn refs(ids: &[&str]) -> ParamValue {
    ParamValue::Refs(ids.iter().map(|s| s.to_string()).collect())
}

fn node_spec(id: &str, kind: &str, params: Vec<(&str, ParamValue)>) -> NodeSpec {
    NodeSpec {
        id: id.to_string(),
        kind: kind.to_string(),
        params: params.into_iter().map(|(n, v)| (n.to_string(), v)).collect(),
    }
}

fn node_index(assignment: &[(String, usize)], id: &str) -> usize {
    assignment
        .iter()
        .find(|(n, _)| n == id)
        .map(|(_, i)| *i)
        .expect("identity was linked")
}

fn value_of(assignment: &[(String, usize)], eng: &Engine<Ieee>, id: &str) -> f64 {
    f64::from_bits(eng.get_value(node_index(assignment, id)))
}

fn split(linked: Linked) -> (sdag::arena::ArenaGraph, Vec<(String, usize)>) {
    (linked.graph, linked.assignment)
}

#[test]
fn test_constant_node() {
    let specs = vec![node_spec("c", "Constant", vec![("value", num(42.0))])];
    let (graph, assignment) = split(link(&specs, &None, &vec![]).unwrap());
    let mut eng = Engine::new(Ieee, graph);
    eng.evaluate_step(&Row::new());
    assert_eq!(value_of(&assignment, &eng, "c"), 42.0);
}

#[test]
fn test_add_node() {
    let specs = vec![
        node_spec("a", "Input", vec![("name", ParamValue::Text("a".to_string()))]),
        node_spec("b", "Input", vec![("name", ParamValue::Text("b".to_string()))]),
        node_spec("sum", "Add", vec![("inputs", refs(&["a", "b"]))]),
    ];
    let (graph, assignment) = split(link(&specs, &None, &vec![]).unwrap());
    let mut eng = Engine::new(Ieee, graph);
    let mut row = Row::new();
    row.set("a".to_string(), bits(5.0));
    row.set("b".to_string(), bits(3.0));
    eng.evaluate_step(&row);
    assert_eq!(value_of(&assignment, &eng, "sum"), 8.0);
}

#[test]
fn test_multiply_node() {
    let specs = vec![
        node_spec("a", "Input", vec![("name", ParamValue::Text("a".to_string()))]),
        node_spec("b", "Input", vec![("name", ParamValue::Text("b".to_string()))]),
        node_spec("prod", "Multiply", vec![("inputs", refs(&["a", "b"]))]),
    ];
    let (graph, assignment) = split(link(&specs, &None, &vec![]).unwrap());
    let mut eng = Engine::new(Ieee, graph);
    let mut row = Row::new();
    row.set("a".to_string(), bits(4.0));
    row.set("b".to_string(), bits(7.0));
    eng.evaluate_step(&row);
    assert_eq!(value_of(&assignment, &eng, "prod"), 28.0);
}

#[test]
fn test_simple_dag() {
    let specs = vec![
        node_spec("const1", "Constant", vec![("value", num(10.0))]),
        node_spec("const2", "Constant", vec![("value", num(20.0))]),
        node_spec("add", "Add", vec![("inputs", refs(&["const1", "const2"]))]),
    ];
    let (graph, assignment) = split(link(&specs, &None, &vec![]).unwrap());
    let mut eng = Engine::new(Ieee, graph);
    eng.evaluate_step(&Row::new());
    assert_eq!(value_of(&assignment, &eng, "add"), 30.0);
}

#[test]
fn test_complex_dag() {
    // (x + y) * z with x = 2, y = 3, z = 4.
    let specs = vec![
        node_spec("x", "Constant", vec![("value", num(2.0))]),
        node_spec("y", "Constant", vec![("value", num(3.0))]),
        node_spec("z", "Constant", vec![("value", num(4.0))]),
        node_spec("add", "Add", vec![("inputs", refs(&["x", "y"]))]),
        node_spec("multiply", "Multiply", vec![("inputs", refs(&["add", "z"]))]),
    ];
    let (graph, assignment) = split(link(&specs, &None, &vec![]).unwrap());
    let mut eng = Engine::new(Ieee, graph);
    eng.evaluate_step(&Row::new());
    assert_eq!(value_of(&assignment, &eng, "multiply"), 20.0);
}

#[test]
fn test_circular_dependency_detection() {
    let specs = vec![
        node_spec("a", "Add", vec![("inputs", refs(&["b"]))]),
        node_spec("b", "Add", vec![("inputs", refs(&["a"]))]),
    ];
    let result = link(&specs, &None, &vec![]);
    assert!(result.is_err());
    assert!(matches!(result, Err(LinkError::Cycle { .. })));
}

#[test]
fn test_declaration_order_is_free() {
    // Parents may be declared before their operands; linking reorders.
    let specs = vec![
        node_spec("sum", "Add", vec![("inputs", refs(&["p", "q"]))]),
        node_spec("p", "Constant", vec![("value", num(1.5))]),
        node_spec("q", "Constant", vec![("value", num(2.25))]),
    ];
    let (graph, assignment) = split(link(&specs, &None, &vec![]).unwrap());
    let mut eng = Engine::new(Ieee, graph);
    eng.evaluate_step(&Row::new());
    assert_eq!(value_of(&assignment, &eng, "sum"), 3.75);
}

#[test]
fn test_unknown_reference() {
    let specs = vec![node_spec("a", "Add", vec![("inputs", refs(&["ghostly"]))])];
    let result = link(&specs, &None, &vec![]);
    assert!(matches!(
        result,
        Err(LinkError::UnknownReference { .. })
    ));
}

#[test]
fn test_unknown_kind() {
    let specs = vec![node_spec("m", "Median", vec![])];
    let result = link(&specs, &None, &vec![]);
    match result {
        Err(LinkError::UnknownKind { id }) => assert_eq!(id, "m"),
        other => panic!("expected an unknown kind, got {:?}", other.is_ok()),
    }
}

#[test]
fn test_missing_parameter() {
    let specs = vec![node_spec("c", "Constant", vec![])];
    let result = link(&specs, &None, &vec![]);
    match result {
        Err(LinkError::MissingParameter { id, field }) => {
            assert_eq!(id, "c");
            assert_eq!(field, "value");
        },
        other => panic!("expected a missing parameter, got {:?}", other.is_ok()),
    }
}

#[test]
fn test_arity_mismatch() {
    let specs = vec![
        node_spec("a", "Constant", vec![("value", num(1.0))]),
        node_spec("b", "Constant", vec![("value", num(2.0))]),
        node_spec("c", "Constant", vec![("value", num(3.0))]),
        node_spec("d", "Divide", vec![("inputs", refs(&["a", "b", "c"]))]),
    ];
    let result = link(&specs, &None, &vec![]);
    match result {
        Err(LinkError::ArityMismatch { id }) => assert_eq!(id, "d"),
        other => panic!("expected an arity mismatch, got {:?}", other.is_ok()),
    }
}

#[test]
fn test_trigger_and_outputs_resolve() {
    let specs = vec![
        node_spec("a", "Constant", vec![("value", num(10.0))]),
        node_spec("b", "Constant", vec![("value", num(20.0))]),
        node_spec("s", "Add", vec![("inputs", refs(&["a", "b"]))]),
    ];
    let linked = link(
        &specs,
        &Some("s".to_string()),
        &vec!["a".to_string(), "s".to_string()],
    )
    .unwrap();
    assert!(linked.graph.trigger.is_some());
    assert_eq!(linked.graph.outputs.len(), 2);
    let mut eng = Engine::new(Ieee, linked.graph);
    let em = eng.evaluate_step(&Row::new()).expect("first step emits");
    assert_eq!(f64::from_bits(em.trigger), 30.0);
    assert_eq!(em.outputs.len(), 2);
    assert_eq!(f64::from_bits(em.outputs[0]), 10.0);
    assert_eq!(f64::from_bits(em.outputs[1]), 30.0);
}

#[test]
fn duplicate_identity_first_declaration_wins() {
    let specs = vec![
        node_spec("c", "Constant", vec![("value", num(1.0))]),
        node_spec("c", "Constant", vec![("value", num(2.0))]),
        node_spec("s", "Add", vec![("inputs", refs(&["c"]))]),
    ];
    let (graph, assignment) = split(link(&specs, &None, &vec![]).unwrap());
    let mut eng = Engine::new(Ieee, graph);
    eng.evaluate_step(&Row::new());
    assert_eq!(value_of(&assignment, &eng, "s"), 1.0);
}

#[test]
fn test_self_reference_is_a_cycle() {
    let specs = vec![node_spec("a", "Add", vec![("inputs", refs(&["a"]))])];
    let result = link(&specs, &None, &vec![]);
    assert!(matches!(result, Err(LinkError::Cycle { .. })));
}
