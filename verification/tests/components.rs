//! Component-level checks: the bit-level constants against the platform's
//! doubles, the registry, field extraction, arena construction, both batch
//! engines, determinism, and the integer reference arithmetic.

use sdag::arena::{ArenaGraph, GraphError};
use sdag::arith::{Arith, IntArith, F64_EPSILON, F64_NAN, F64_ONE, F64_ZERO, MAGNITUDE_MASK};
use sdag::engines::{LazyEngine, TopologicalEngine};
use sdag::eval::Engine;
use sdag::graph::Graph;
use sdag::kinds::{kind_known, register_all_nodes, ArityShape};
use sdag::nodes::{ComparisonOp, NodeOp};
use sdag::row::Row;
use sdag::specs::{build_arena_node, extract_field, ArenaNode, FieldValue};

/// IEEE-754 double-precision arithmetic over 64-bit value patterns.
struct Ieee;

impl Arith for Ieee {
    fn add_spec(&self, _a: u64, _b: u64) -> u64 {
        unreachable!()
    }
    fn sub_spec(&self, _a: u64, _b: u64) -> u64 {
        unreachable!()
    }
    fn mul_spec(&self, _a: u64, _b: u64) -> u64 {
        unreachable!()
    }
    fn div_spec(&self, _a: u64, _b: u64) -> u64 {
        unreachable!()
    }
    fn pow_spec(&self, _a: u64, _b: u64) -> u64 {
        unreachable!()
    }
    fn lt_spec(&self, _a: u64, _b: u64) -> bool {
        unreachable!()
    }
    fn gt_spec(&self, _a: u64, _b: u64) -> bool {
        unreachable!()
    }
    fn add(&self, a: u64, b: u64) -> u64 {
        (f64::from_bits(a) + f64::from_bits(b)).to_bits()
    }
    fn sub(&self, a: u64, b: u64) -> u64 {
        (f64::from_bits(a) - f64::from_bits(b)).to_bits()
    }
    fn mul(&self, a: u64, b: u64) -> u64 {
        (f64::from_bits(a) * f64::from_bits(b)).to_bits()
    }
    fn div(&self, a: u64, b: u64) -> u64 {
        (f64::from_bits(a) / f64::from_bits(b)).to_bits()
    }
    fn pow(&self, a: u64, b: u64) -> u64 {
        f64::from_bits(a).powf(f64::from_bits(b)).to_bits()
    }
    fn lt(&self, a: u64, b: u64) -> bool {
        f64::from_bits(a) < f64::from_bits(b)
    }
    fn gt(&self, a: u64, b: u64) -> bool {
        f64::from_bits(a) > f64::from_bits(b)
    }
}

fn bits(x: f64) -> u64 {
    x.to_bits()
}

fn row(pairs: &[(&str, f64)]) -> Row {
    let mut r = Row::new();
    for (name, v) in pairs {
        r.set(name.to_string(), bits(*v));
    }
    r
}

#[test]
fn bit_constants_match_the_platform() {
    assert_eq!(F64_ZERO, 0.0f64.to_bits());
    assert_eq!(F64_ONE, 1.0f64.to_bits());
    assert_eq!(F64_EPSILON, f64::EPSILON.to_bits());
    assert!(f64::from_bits(F64_NAN).is_nan());
    assert_eq!((-1.5f64).to_bits() & MAGNITUDE_MASK, 1.5f64.to_bits());
    // The magnitude test recognizes exactly the two IEEE zeros.
    assert_eq!(0.0f64.to_bits() & MAGNITUDE_MASK, 0);
    assert_eq!((-0.0f64).to_bits() & MAGNITUDE_MASK, 0);
    assert_ne!(5e-324f64.to_bits() & MAGNITUDE_MASK, 0);
}

#[test]
fn registry_lists_the_canonical_kinds() {
    let kinds = register_all_nodes();
    let names: Vec<&str> = kinds.iter().map(|k| k.name.as_str()).collect();
    assert_eq!(
        names,
        vec![
            "Input", "Constant", "Add", "Multiply", "Divide", "Compare", "Power", "ScaleByK"
        ]
    );
    assert!(matches!(kinds[0].shape, ArityShape::Nullary));
    assert!(matches!(kinds[2].shape, ArityShape::Nary));
    assert!(matches!(kinds[4].shape, ArityShape::Binary));
    assert!(matches!(kinds[7].shape, ArityShape::Unary));
    for k in &kinds {
        assert!(kind_known(&k.name));
    }
    assert!(!kind_known(&"Median".to_string()));
}

#[test]
fn extract_field_pulls_typed_values() {
    let node = ArenaNode {
        id: "n".to_string(),
        tag: "ScaleByK".to_string(),
        fields: vec![
            ("inputs".to_string(), FieldValue::Many(vec![3])),
            ("k".to_string(), FieldValue::Num(bits(2.0))),
            ("label".to_string(), FieldValue::Text("x".to_string())),
            ("one".to_string(), FieldValue::One(7)),
        ],
    };
    let many: Vec<usize> = extract_field(&node, &"inputs".to_string()).unwrap();
    assert_eq!(many, vec![3]);
    let k: u64 = extract_field(&node, &"k".to_string()).unwrap();
    assert_eq!(k, bits(2.0));
    let label: String = extract_field(&node, &"label".to_string()).unwrap();
    assert_eq!(label, "x");
    let one: usize = extract_field(&node, &"one".to_string()).unwrap();
    assert_eq!(one, 7);
    // A wrong type is reported as a missing parameter.
    let wrong: Result<u64, _> = extract_field(&node, &"label".to_string());
    assert!(wrong.is_err());
}

#[test]
fn build_arena_node_builds_each_kind() {
    let divide = ArenaNode {
        id: "d".to_string(),
        tag: "Divide".to_string(),
        fields: vec![("inputs".to_string(), FieldValue::Many(vec![0, 1]))],
    };
    assert!(matches!(
        build_arena_node(&divide),
        Ok(NodeOp::Divide { left: 0, right: 1 })
    ));
    let compare = ArenaNode {
        id: "c".to_string(),
        tag: "Compare".to_string(),
        fields: vec![
            ("inputs".to_string(), FieldValue::Many(vec![0, 1])),
            ("op".to_string(), FieldValue::Text("LessThan".to_string())),
        ],
    };
    assert!(matches!(
        build_arena_node(&compare),
        Ok(NodeOp::Compare { left: 0, right: 1, op: ComparisonOp::LessThan })
    ));
    let bad_op = ArenaNode {
        id: "c".to_string(),
        tag: "Compare".to_string(),
        fields: vec![
            ("inputs".to_string(), FieldValue::Many(vec![0, 1])),
            ("op".to_string(), FieldValue::Text("Approximately".to_string())),
        ],
    };
    assert!(build_arena_node(&bad_op).is_err());
}

#[test]
fn construct_validates_topology() {
    let forward = vec![
        NodeOp::Add { inputs: vec![1] },
        NodeOp::Constant { value: bits(1.0) },
    ];
    let r = ArenaGraph::construct(forward, None, vec![]);
    assert!(matches!(r, Err(GraphError::CycleOrForwardReference)));

    let self_ref = vec![NodeOp::Add { inputs: vec![0] }];
    assert!(ArenaGraph::construct(self_ref, None, vec![]).is_err());

    let ok = vec![
        NodeOp::Constant { value: bits(1.0) },
        NodeOp::Add { inputs: vec![0] },
    ];
    let g = ArenaGraph::construct(ok, Some(1), vec![1]).unwrap();
    assert_eq!(g.len(), 2);

    let bad_trigger = vec![NodeOp::Constant { value: bits(1.0) }];
    assert!(ArenaGraph::construct(bad_trigger, Some(3), vec![]).is_err());
}

#[test]
fn node_inputs_and_update() {
    let mut n = NodeOp::Divide { left: 2, right: 5 };
    assert_eq!(n.inputs(), vec![2, 5]);
    n.update_inputs(vec![0, 1]);
    assert_eq!(n.inputs(), vec![0, 1]);
    let c = NodeOp::Constant { value: bits(3.0) };
    assert!(c.inputs().is_empty());
}

#[test]
fn row_last_binding_wins() {
    let mut r = Row::new();
    r.set("x".to_string(), bits(1.0));
    r.set("x".to_string(), bits(2.0));
    assert_eq!(r.get(&"x".to_string()), Some(bits(2.0)));
    assert_eq!(r.get(&"y".to_string()), None);
    assert_eq!(r.value(&"y".to_string()), F64_ZERO);
}

/// A three-layer graph used by the engine-agreement tests.
fn sample(g: &mut Graph) -> (usize, Vec<usize>) {
    let a = g.input("a".to_string());
    let b = g.input("b".to_string());
    let s = g.add(vec![a, b]);
    let p = g.mul(vec![s, a]);
    let five = g.const_(bits(5.0));
    let q = g.div(p, five);
    let c = g.compare(q, s, ComparisonOp::GreaterThan);
    (c, vec![s, p, q])
}

#[test]
fn lazy_and_topological_engines_agree() {
    let rows = vec![
        row(&[("a", 1.0), ("b", 2.0)]),
        row(&[("a", 4.0), ("b", -1.0)]),
        row(&[("a", 0.0), ("b", 0.0)]),
    ];
    let mut g = Graph::new();
    let (root, outs) = sample(&mut g);
    let (arena1, _) = g.build();
    let lazy = LazyEngine.evaluate(&Ieee, &arena1, root, &outs, &rows);
    let topo = TopologicalEngine.evaluate(Ieee, arena1, root, &outs, &rows);
    assert_eq!(lazy.len(), rows.len());
    assert_eq!(topo.len(), rows.len());
    for (l, t) in lazy.iter().zip(topo.iter()) {
        assert_eq!(l.trigger, t.trigger);
        assert_eq!(l.outputs, t.outputs);
    }
    assert_eq!(TopologicalEngine.name(), "topological");
    assert_eq!(LazyEngine.name(), "lazy");
}

#[test]
fn two_engines_same_rows_agree_bit_for_bit() {
    let rows = vec![
        row(&[("a", 0.125), ("b", 3.5)]),
        row(&[("a", 0.125), ("b", 3.5)]),
        row(&[("a", -7.25), ("b", 0.0)]),
    ];
    let mut g = Graph::new();
    let (root, outs) = sample(&mut g);
    g.set_trigger(root);
    for o in outs {
        g.add_output(o);
    }
    let (arena1, _) = g.build();

    let mut g2 = Graph::new();
    let (root2, outs2) = sample(&mut g2);
    g2.set_trigger(root2);
    for o in outs2 {
        g2.add_output(o);
    }
    let (arena2, _) = g2.build();

    let mut e1 = Engine::new(Ieee, arena1);
    let mut e2 = Engine::new(Ieee, arena2);
    let ems1 = e1.run(&rows);
    let ems2 = e2.run(&rows);
    assert_eq!(ems1.len(), ems2.len());
    for (x, y) in ems1.iter().zip(ems2.iter()) {
        assert_eq!(x.trigger, y.trigger);
        assert_eq!(x.outputs, y.outputs);
    }
}

#[test]
fn emitted_triggers_never_repeat_consecutively() {
    let mut g = Graph::new();
    let a = g.input("a".to_string());
    g.set_trigger(a);
    g.add_output(a);
    let (arena, _) = g.build();
    let mut eng = Engine::new(Ieee, arena);
    let stream = vec![
        row(&[("a", 1.0)]),
        row(&[("a", 1.0)]),
        row(&[("a", 2.0)]),
        row(&[("a", 2.0)]),
        row(&[("a", 1.0)]),
        row(&[("a", 3.0)]),
        row(&[("a", 3.0)]),
    ];
    let ems = eng.run(&stream);
    let triggers: Vec<f64> = ems.iter().map(|e| f64::from_bits(e.trigger)).collect();
    assert_eq!(triggers, vec![1.0, 2.0, 1.0, 3.0]);
    for w in triggers.windows(2) {
        assert_ne!(w[0], w[1]);
    }
}

#[test]
fn constants_stay_put_across_steps() {
    let mut g = Graph::new();
    let c = g.const_(bits(42.0));
    let a = g.input("a".to_string());
    let s = g.add(vec![c, a]);
    g.set_trigger(s);
    g.add_output(c);
    let (arena, _) = g.build();
    let mut eng = Engine::new(Ieee, arena);
    for v in [1.0, 2.0, 3.0] {
        eng.evaluate_step(&row(&[("a", v)]));
        assert_eq!(f64::from_bits(eng.get_value(0)), 42.0);
    }
}

#[test]
fn integer_arithmetic_is_reproducible() {
    let mut g = Graph::new();
    let a = g.input("a".to_string());
    let b = g.input("b".to_string());
    let s = g.add(vec![a, b]);
    let p = g.power(a, b);
    g.set_trigger(s);
    g.add_output(p);
    let (arena, _) = g.build();
    let mut eng = Engine::new(IntArith, arena);
    let mut r = Row::new();
    r.set("a".to_string(), 3);
    r.set("b".to_string(), 4);
    let em = eng.evaluate_step(&r).expect("first step emits");
    assert_eq!(em.trigger, 7);
    assert_eq!(em.outputs[0], 81);

    let r2 = Row::new();
    let em2 = eng.evaluate_step(&r2).expect("inputs drop to zero");
    assert_eq!(em2.trigger, 0);
    // Zero to the zeroth power is one in the modular interpretation too.
    assert_eq!(em2.outputs[0], 1);
}

#[test]
fn get_all_values_matches_get_value() {
    let mut g = Graph::new();
    let a = g.input("a".to_string());
    let two = g.const_(bits(2.0));
    let s = g.add(vec![a, two]);
    g.set_trigger(s);
    let (arena, _) = g.build();
    let mut eng = Engine::new(Ieee, arena);
    eng.evaluate_step(&row(&[("a", 1.0)]));
    let all = eng.get_all_values().clone();
    assert_eq!(all.len(), 3);
    for (i, v) in all.iter().enumerate() {
        assert_eq!(*v, eng.get_value(i));
    }
    assert_eq!(f64::from_bits(all[2]), 3.0);
}

#[test]
fn set_trigger_and_outputs_after_construction() {
    let mut g = Graph::new();
    let a = g.input("a".to_string());
    let s = g.add(vec![a, a]);
    let (arena, _) = g.build();
    let mut eng = Engine::new(Ieee, arena);
    assert!(eng.evaluate_step(&row(&[("a", 1.0)])).is_none());
    eng.set_trigger(s);
    eng.set_outputs(vec![a]);
    let em = eng.evaluate_step(&row(&[("a", 2.0)])).expect("newly designated trigger fires");
    assert_eq!(f64::from_bits(em.trigger), 4.0);
    assert_eq!(f64::from_bits(em.outputs[0]), 2.0);
}

#[test]
fn input_bindings_list_every_input_channel() {
    let mut g = Graph::new();
    let a = g.input("alpha".to_string());
    let c = g.const_(bits(1.0));
    let b = g.input("beta".to_string());
    let s = g.add(vec![a, c, b]);
    g.set_trigger(s);
    let (arena, _) = g.build();
    let bindings = arena.input_nodes();
    assert_eq!(bindings.len(), 2);
    assert_eq!(bindings[0].0, 0);
    assert_eq!(bindings[0].1, "alpha");
    assert_eq!(bindings[1].0, 2);
    assert_eq!(bindings[1].1, "beta");
}

#[test]
fn run_on_empty_stream_emits_nothing() {
    let mut g = Graph::new();
    let a = g.input("a".to_string());
    g.set_trigger(a);
    let (arena, _) = g.build();
    let mut eng = Engine::new(Ieee, arena);
    let ems = eng.run(&vec![]);
    assert!(ems.is_empty());
}
