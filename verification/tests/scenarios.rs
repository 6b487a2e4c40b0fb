//! The streaming scenarios: trigger-gated emission over row streams,
//! shared-subexpression merging, and the numeric edge policies.

use sdag::arith::Arith;
use sdag::eval::{Emission, Engine};
use sdag::graph::Graph;
use sdag::nodes::ComparisonOp;
use sdag::row::Row;

/// IEEE-754 double-precision arithmetic over 64-bit value patterns.
struct Ieee;

impl Arith for Ieee {
    fn add_spec(&self, _a: u64, _b: u64) -> u64 {
        unreachable!()
    }
    fn sub_spec(&self, _a: u64, _b: u64) -> u64 {
        unreachable!()
    }
    fn mul_spec(&self, _a: u64, _b: u64) -> u64 {
        unreachable!()
    }
    fn div_spec(&self, _a: u64, _b: u64) -> u64 {
        unreachable!()
    }
    fn pow_spec(&self, _a: u64, _b: u64) -> u64 {
        unreachable!()
    }
    fn lt_spec(&self, _a: u64, _b: u64) -> bool {
        unreachable!()
    }
    fn gt_spec(&self, _a: u64, _b: u64) -> bool {
        unreachable!()
    }
    fn add(&self, a: u64, b: u64) -> u64 {
        (f64::from_bits(a) + f64::from_bits(b)).to_bits()
    }
    fn sub(&self, a: u64, b: u64) -> u64 {
        (f64::from_bits(a) - f64::from_bits(b)).to_bits()
    }
    fn mul(&self, a: u64, b: u64) -> u64 {
        (f64::from_bits(a) * f64::from_bits(b)).to_bits()
    }
    fn div(&self, a: u64, b: u64) -> u64 {
        (f64::from_bits(a) / f64::from_bits(b)).to_bits()
    }
    fn pow(&self, a: u64, b: u64) -> u64 {
        f64::from_bits(a).powf(f64::from_bits(b)).to_bits()
    }
    fn lt(&self, a: u64, b: u64) -> bool {
        f64::from_bits(a) < f64::from_bits(b)
    }
    fn gt(&self, a: u64, b: u64) -> bool {
        f64::from_bits(a) > f64::from_bits(b)
    }
}

fn bits(x: f64) -> u64 {
    x.to_bits()
}

fn row(pairs: &[(&str, f64)]) -> Row {
    let mut r = Row::new();
    for (name, v) in pairs {
        r.set(name.to_string(), bits(*v));
    }
    r
}

fn emitted(ems: &[Emission]) -> Vec<(f64, Vec<f64>)> {
    ems.iter()
        .map(|e| {
            (
                f64::from_bits(e.trigger),
                e.outputs.iter().map(|&v| f64::from_bits(v)).collect(),
            )
        })
        .collect()
}

/// `(a + b) * 2`, trigger = the sum, outputs = [the product].
fn g1() -> Engine<Ieee> {
    let mut g = Graph::new();
    let a = g.input("a".to_string());
    let b = g.input("b".to_string());
    let sum = g.add(vec![a, b]);
    let two = g.const_(bits(2.0));
    let prod = g.mul(vec![sum, two]);
    g.set_trigger(sum);
    g.add_output(prod);
    let (arena, _) = g.build();
    Engine::new(Ieee, arena)
}

/// Like `g1`, but trigger = `sum > 5`, outputs = [the sum].
fn g2() -> Engine<Ieee> {
    let mut g = Graph::new();
    let a = g.input("a".to_string());
    let b = g.input("b".to_string());
    let sum = g.add(vec![a, b]);
    let five = g.const_(bits(5.0));
    let cmp = g.compare(sum, five, ComparisonOp::GreaterThan);
    g.set_trigger(cmp);
    g.add_output(sum);
    let (arena, _) = g.build();
    Engine::new(Ieee, arena)
}

#[test]
fn scenario_one_row() {
    let mut eng = g1();
    let ems = eng.run(&vec![row(&[("a", 1.0), ("b", 2.0)])]);
    assert_eq!(emitted(&ems), vec![(3.0, vec![6.0])]);
}

#[test]
fn scenario_repeated_row_emits_once() {
    let mut eng = g1();
    let ems = eng.run(&vec![
        row(&[("a", 1.0), ("b", 2.0)]),
        row(&[("a", 1.0), ("b", 2.0)]),
    ]);
    assert_eq!(emitted(&ems), vec![(3.0, vec![6.0])]);
}

#[test]
fn scenario_two_changes_emit_twice() {
    let mut eng = g1();
    let ems = eng.run(&vec![
        row(&[("a", 1.0), ("b", 2.0)]),
        row(&[("a", 2.0), ("b", 3.0)]),
    ]);
    assert_eq!(emitted(&ems), vec![(3.0, vec![6.0]), (5.0, vec![10.0])]);
}

#[test]
fn scenario_comparison_first_step() {
    let mut eng = g2();
    let ems = eng.run(&vec![row(&[("a", 2.0), ("b", 2.0)])]);
    assert_eq!(emitted(&ems), vec![(0.0, vec![4.0])]);
}

#[test]
fn scenario_comparison_still_below() {
    let mut eng = g2();
    let ems = eng.run(&vec![
        row(&[("a", 2.0), ("b", 2.0)]),
        row(&[("a", 3.0), ("b", 2.0)]),
    ]);
    // The sum reaches 5, which is still not greater than 5.
    assert_eq!(emitted(&ems), vec![(0.0, vec![4.0])]);
}

#[test]
fn scenario_comparison_crosses() {
    let mut eng = g2();
    let ems = eng.run(&vec![
        row(&[("a", 2.0), ("b", 2.0)]),
        row(&[("a", 3.0), ("b", 3.0)]),
    ]);
    assert_eq!(emitted(&ems), vec![(0.0, vec![4.0]), (1.0, vec![6.0])]);
}

#[test]
fn dedup_merges_identical_sums() {
    // Two Add nodes summing the same children collapse to one arena node,
    // and evaluation is unchanged.
    let mut g = Graph::new();
    let a = g.input("a".to_string());
    let b = g.input("b".to_string());
    let s1 = g.add(vec![a, b]);
    let s2 = g.add(vec![a, b]);
    let prod = g.mul(vec![s1, s2]);
    g.set_trigger(s1);
    g.add_output(prod);
    let declared = g.nodes.len();
    let (arena, remap) = g.build();
    assert_eq!(declared, 5);
    assert_eq!(arena.nodes.len(), 4);
    assert_eq!(remap[s1], remap[s2]);

    let mut eng = Engine::new(Ieee, arena);
    let ems = eng.run(&vec![row(&[("a", 2.0), ("b", 3.0)])]);
    assert_eq!(emitted(&ems), vec![(5.0, vec![25.0])]);
}

#[test]
fn dedup_keeps_distinct_constants_apart() {
    let mut g = Graph::new();
    let c1 = g.const_(bits(1.0));
    let c2 = g.const_(bits(2.0));
    let c3 = g.const_(bits(1.0));
    let s = g.add(vec![c1, c2, c3]);
    g.set_trigger(s);
    g.add_output(s);
    let (arena, remap) = g.build();
    assert_eq!(arena.nodes.len(), 3);
    assert_eq!(remap[c1], remap[c3]);
    assert_ne!(remap[c1], remap[c2]);
}

#[test]
fn divide_by_zero_yields_nan_then_recovers() {
    let mut g = Graph::new();
    let a = g.input("a".to_string());
    let b = g.input("b".to_string());
    let q = g.div(a, b);
    g.set_trigger(q);
    g.add_output(q);
    let (arena, _) = g.build();
    let mut eng = Engine::new(Ieee, arena);

    let first = eng.evaluate_step(&row(&[("a", 1.0), ("b", 0.0)]));
    let first = first.expect("first step emits");
    assert!(f64::from_bits(first.trigger).is_nan());
    assert!(f64::from_bits(first.outputs[0]).is_nan());

    let second = eng.evaluate_step(&row(&[("a", 1.0), ("b", 1.0)]));
    let second = second.expect("recovery is a change and emits");
    assert_eq!(f64::from_bits(second.trigger), 1.0);
    assert_eq!(f64::from_bits(second.outputs[0]), 1.0);
}

#[test]
fn empty_add_reads_zero_and_empty_multiply_reads_one() {
    let mut g = Graph::new();
    let s = g.add(vec![]);
    let p = g.mul(vec![]);
    let both = g.add(vec![s, p]);
    g.set_trigger(both);
    g.add_output(s);
    g.add_output(p);
    let (arena, _) = g.build();
    let mut eng = Engine::new(Ieee, arena);
    let em = eng.evaluate_step(&Row::new()).expect("first step emits");
    assert_eq!(f64::from_bits(em.trigger), 1.0);
    assert_eq!(f64::from_bits(em.outputs[0]), 0.0);
    assert_eq!(f64::from_bits(em.outputs[1]), 1.0);
}

#[test]
fn power_follows_the_platform_primitive() {
    let mut g = Graph::new();
    let b = g.input("base".to_string());
    let e = g.input("exp".to_string());
    let p = g.power(b, e);
    g.set_trigger(p);
    g.add_output(p);
    let (arena, _) = g.build();
    let mut eng = Engine::new(Ieee, arena);

    let em = eng.evaluate_step(&row(&[("base", 2.0), ("exp", 10.0)]));
    assert_eq!(f64::from_bits(em.unwrap().trigger), 1024.0);

    // The platform convention: 0 raised to 0 is 1.
    let em = eng.evaluate_step(&row(&[("base", 0.0), ("exp", 0.0)]));
    assert_eq!(f64::from_bits(em.unwrap().trigger), 1.0);
}

#[test]
fn scale_by_constant_factor() {
    let mut g = Graph::new();
    let x = g.input("x".to_string());
    let scaled = g.scale(x, bits(2.5));
    g.set_trigger(scaled);
    g.add_output(scaled);
    let (arena, _) = g.build();
    let mut eng = Engine::new(Ieee, arena);
    let em = eng.evaluate_step(&row(&[("x", 4.0)]));
    assert_eq!(f64::from_bits(em.unwrap().trigger), 10.0);
}

#[test]
fn equality_comparison_uses_epsilon_tolerance() {
    let mut g = Graph::new();
    let x = g.input("x".to_string());
    let y = g.input("y".to_string());
    let eq = g.compare(x, y, ComparisonOp::Equal);
    g.set_trigger(eq);
    g.add_output(eq);
    let (arena, _) = g.build();
    let mut eng = Engine::new(Ieee, arena);

    // Equal values compare equal.
    let em = eng.evaluate_step(&row(&[("x", 1.0), ("y", 1.0)])).unwrap();
    assert_eq!(f64::from_bits(em.trigger), 1.0);

    // A changed value within machine epsilon of the other still counts
    // as equal, so the trigger does not change and nothing is emitted.
    let y = 1.0 - f64::EPSILON / 2.0;
    assert!(y != 1.0 && (1.0 - y).abs() < f64::EPSILON);
    let em = eng.evaluate_step(&row(&[("x", 1.0), ("y", y)]));
    assert!(em.is_none());

    // A visible difference flips the comparison.
    let em = eng.evaluate_step(&row(&[("x", 1.0), ("y", 2.0)])).unwrap();
    assert_eq!(f64::from_bits(em.trigger), 0.0);
}

#[test]
fn unbound_channel_reads_zero() {
    let mut g = Graph::new();
    let x = g.input("missing".to_string());
    g.set_trigger(x);
    g.add_output(x);
    let (arena, _) = g.build();
    let mut eng = Engine::new(Ieee, arena);
    let em = eng.evaluate_step(&row(&[("other", 9.0)])).unwrap();
    assert_eq!(f64::from_bits(em.trigger), 0.0);
}

#[test]
fn no_trigger_never_emits() {
    let mut g = Graph::new();
    let a = g.input("a".to_string());
    let s = g.add(vec![a, a]);
    g.add_output(s);
    let (arena, _) = g.build();
    let mut eng = Engine::new(Ieee, arena);
    let ems = eng.run(&vec![
        row(&[("a", 1.0)]),
        row(&[("a", 2.0)]),
        row(&[("a", 3.0)]),
    ]);
    assert!(ems.is_empty());
}

#[test]
fn nan_to_nan_transition_does_not_reemit() {
    // Two successive divisions by zero produce the same NaN pattern, so
    // the second row does not emit under bitwise change detection.
    let mut g = Graph::new();
    let a = g.input("a".to_string());
    let b = g.input("b".to_string());
    let q = g.div(a, b);
    g.set_trigger(q);
    g.add_output(q);
    let (arena, _) = g.build();
    let mut eng = Engine::new(Ieee, arena);
    let ems = eng.run(&vec![
        row(&[("a", 1.0), ("b", 0.0)]),
        row(&[("a", 1.0), ("b", 0.0)]),
    ]);
    assert_eq!(ems.len(), 1);
}
