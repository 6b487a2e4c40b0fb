//! The streaming evaluator.
//!
//! Dense parallel arrays, indexed by node: the current value, the previous
//! step's snapshot, and a per-step change flag. The first row evaluates
//! every node; later rows refresh the input channels and recompute only
//! nodes below which something changed. After every step the value array
//! equals the dense sweep semantics of the current row — incremental
//! evaluation is pure optimization, never visible in the result.

use vstd::prelude::*;

use crate::arena::ArenaGraph;
use crate::arith::{abs_bits, is_zero, Arith, F64_EPSILON, F64_NAN, F64_ONE, F64_ZERO};
use crate::nodes::{ComparisonOp, NodeOp};
use crate::row::{row_val, Row};
use crate::sem::{
    dense, fold_add, fold_mul, lemma_dense_char, lemma_node_value_frame,
    lemma_node_value_row_irrelevant, node_value,
};

verus! {

/// The record produced when the trigger fires: the trigger's value and the
/// values of the declared output nodes, in their declared order.
pub struct Emission {
    pub trigger: u64,
    pub outputs: Vec<u64>,
}

/// Whether a trigger value fires against the last emitted one: it fires
/// when nothing was emitted yet, or when it differs bitwise from the last
/// emitted value.
pub open spec fn should_emit(last: Option<u64>, tv: u64) -> bool {
    match last {
        None => true,
        Some(p) => tv != p,
    }
}

/// The value a node's slot holds right after construction: its constant
/// for a constant node, the zero pattern for every other node.
pub open spec fn init_value(n: NodeOp) -> u64 {
    match n {
        NodeOp::Constant { value } => value,
        _ => F64_ZERO,
    }
}

/// Does any operand of `n` carry a set change flag?
pub open spec fn any_input_changed(changed: Seq<bool>, n: NodeOp) -> bool {
    exists|k: int| 0 <= k < n.spec_inputs().len() && changed[(#[trigger] n.spec_inputs()[k]) as int]
}

/// The observable state of an engine between steps.
pub struct StepState {
    pub values: Seq<u64>,
    pub prev: Seq<u64>,
    pub changed: Seq<bool>,
    pub first: bool,
    pub last_trigger: Option<u64>,
}

/// What one step does to the observable state: the values become the dense
/// sweep of the row, the snapshot follows them, every flag says whether its
/// node moved (all flags are set on the first step), and the gating state
/// advances to the trigger's value exactly when it fires.
pub open spec fn spec_step<A: Arith>(
    a: A,
    nodes: Seq<NodeOp>,
    trig: Option<usize>,
    st: StepState,
    row: Seq<(String, u64)>,
) -> StepState {
    let d = dense(a, row, nodes);
    StepState {
        values: d,
        prev: d,
        changed: if st.first {
            Seq::new(nodes.len(), |i: int| true)
        } else {
            Seq::new(nodes.len(), |i: int| d[i] != st.values[i])
        },
        first: false,
        last_trigger: match trig {
            None => st.last_trigger,
            Some(t) => {
                let tv = d[t as int];
                if should_emit(st.last_trigger, tv) {
                    Some(tv)
                } else {
                    st.last_trigger
                }
            },
        },
    }
}

/// The record one step emits, if any: the trigger's dense value and the
/// dense values of the outputs, produced exactly when a trigger is
/// designated and its value fires against the gating state.
pub open spec fn spec_emission<A: Arith>(
    a: A,
    nodes: Seq<NodeOp>,
    trig: Option<usize>,
    outs: Seq<usize>,
    st: StepState,
    row: Seq<(String, u64)>,
) -> Option<(u64, Seq<u64>)> {
    let d = dense(a, row, nodes);
    match trig {
        None => None,
        Some(t) => {
            let tv = d[t as int];
            if should_emit(st.last_trigger, tv) {
                Some((tv, outs.map_values(|o: usize| d[o as int])))
            } else {
                None
            }
        },
    }
}

/// Compute the value of a non-input node from the values standing below it.
fn compute_node<A: Arith>(a: &A, node: &NodeOp, vals: &Vec<u64>) -> (r: u64)
    requires
        !node.spec_is_input(),
        forall|k: int|
            0 <= k < node.spec_inputs().len() ==> (#[trigger] node.spec_inputs()[k]) < vals@.len(),
    ensures
        forall|row: Seq<(String, u64)>| r == #[trigger] node_value(*a, row, vals@, *node),
{
    let r = match node {
        NodeOp::Input { .. } => F64_ZERO,
        NodeOp::Constant { value } => *value,
        NodeOp::Add { inputs } => {
            let mut acc: u64 = F64_ZERO;
            let mut k: usize = 0;
            proof {
                assert forall|j: int| 0 <= j < inputs@.len() implies (#[trigger] inputs@[j])
                    < vals@.len() by {
                    assert(node.spec_inputs()[j] == inputs@[j]);
                }
            }
            while k < inputs.len()
                invariant
                    k <= inputs@.len(),
                    acc == fold_add(*a, vals@, inputs@.take(k as int)),
                    forall|j: int| 0 <= j < inputs@.len() ==> (#[trigger] inputs@[j]) < vals@.len(),
                decreases inputs@.len() - k,
            {
                proof {
                    assert(inputs@.take(k + 1int).drop_last() =~= inputs@.take(k as int));
                    assert(inputs@.take(k + 1int).last() == inputs@[k as int]);
                }
                acc = a.add(acc, vals[inputs[k]]);
                k = k + 1;
            }
            proof {
                assert(inputs@.take(inputs@.len() as int) =~= inputs@);
            }
            acc
        },
        NodeOp::Multiply { inputs } => {
            let mut acc: u64 = F64_ONE;
            let mut k: usize = 0;
            proof {
                assert forall|j: int| 0 <= j < inputs@.len() implies (#[trigger] inputs@[j])
                    < vals@.len() by {
                    assert(node.spec_inputs()[j] == inputs@[j]);
                }
            }
            while k < inputs.len()
                invariant
                    k <= inputs@.len(),
                    acc == fold_mul(*a, vals@, inputs@.take(k as int)),
                    forall|j: int| 0 <= j < inputs@.len() ==> (#[trigger] inputs@[j]) < vals@.len(),
                decreases inputs@.len() - k,
            {
                proof {
                    assert(inputs@.take(k + 1int).drop_last() =~= inputs@.take(k as int));
                    assert(inputs@.take(k + 1int).last() == inputs@[k as int]);
                }
                acc = a.mul(acc, vals[inputs[k]]);
                k = k + 1;
            }
            proof {
                assert(inputs@.take(inputs@.len() as int) =~= inputs@);
            }
            acc
        },
        NodeOp::Divide { left, right } => {
            proof {
                assert(node.spec_inputs()[0] == left);
                assert(node.spec_inputs()[1] == right);
            }
            if is_zero(vals[*right]) {
                F64_NAN
            } else {
                a.div(vals[*left], vals[*right])
            }
        },
        NodeOp::Compare { left, right, op } => {
            proof {
                assert(node.spec_inputs()[0] == left);
                assert(node.spec_inputs()[1] == right);
            }
            let x = vals[*left];
            let y = vals[*right];
            let holds = match op {
                ComparisonOp::GreaterThan => a.gt(x, y),
                ComparisonOp::LessThan => a.lt(x, y),
                ComparisonOp::Equal => a.lt(abs_bits(a.sub(x, y)), F64_EPSILON),
            };
            if holds {
                F64_ONE
            } else {
                F64_ZERO
            }
        },
        NodeOp::Power { base, exp } => {
            proof {
                assert(node.spec_inputs()[0] == base);
                assert(node.spec_inputs()[1] == exp);
            }
            a.pow(vals[*base], vals[*exp])
        },
        NodeOp::ScaleByK { input, k } => {
            proof {
                assert(node.spec_inputs()[0] == input);
            }
            a.mul(vals[*input], *k)
        },
    };
    r
}

/// Check whether any operand of `node` carries a set change flag.
fn check_inputs_changed(node: &NodeOp, changed: &Vec<bool>) -> (r: bool)
    requires
        forall|k: int|
            0 <= k < node.spec_inputs().len() ==> (#[trigger] node.spec_inputs()[k])
                < changed@.len(),
    ensures
        r == any_input_changed(changed@, *node),
{
    let ins = node.inputs();
    let mut k: usize = 0;
    while k < ins.len()
        invariant
            k <= ins@.len(),
            ins@ == node.spec_inputs(),
            forall|j: int|
                0 <= j < node.spec_inputs().len() ==> (#[trigger] node.spec_inputs()[j])
                    < changed@.len(),
            forall|j: int| 0 <= j < k ==> !changed@[(#[trigger] ins@[j]) as int],
        decreases ins@.len() - k,
    {
        if changed[ins[k]] {
            proof {
                assert(changed@[(node.spec_inputs()[k as int]) as int]);
            }
            return true;
        }
        k = k + 1;
    }
    false
}

/// The streaming engine: the graph, its dense state arrays, the designated
/// trigger and outputs, and the gating state of the emission protocol.
pub struct Engine<A: Arith> {
    pub arith: A,
    pub graph: ArenaGraph,
    pub values: Vec<u64>,
    pub prev_values: Vec<u64>,
    pub changed: Vec<bool>,
    pub trigger_node: Option<usize>,
    pub output_nodes: Vec<usize>,
    pub first_run: bool,
    pub last_trigger: Option<u64>,
}

/// The observable state after stepping through every row in turn.
pub open spec fn run_state<A: Arith>(
    a: A,
    nodes: Seq<NodeOp>,
    trig: Option<usize>,
    st: StepState,
    rows: Seq<Seq<(String, u64)>>,
) -> StepState
    decreases rows.len(),
{
    if rows.len() == 0 {
        st
    } else {
        spec_step(a, nodes, trig, run_state(a, nodes, trig, st, rows.drop_last()), rows.last())
    }
}

/// The records emitted while stepping through every row in turn.
pub open spec fn run_emitted<A: Arith>(
    a: A,
    nodes: Seq<NodeOp>,
    trig: Option<usize>,
    outs: Seq<usize>,
    st: StepState,
    rows: Seq<Seq<(String, u64)>>,
) -> Seq<(u64, Seq<u64>)>
    decreases rows.len(),
{
    if rows.len() == 0 {
        Seq::empty()
    } else {
        let before = run_state(a, nodes, trig, st, rows.drop_last());
        run_emitted(a, nodes, trig, outs, st, rows.drop_last()) + (match spec_emission(
            a,
            nodes,
            trig,
            outs,
            before,
            rows.last(),
        ) {
            Some(e) => seq![e],
            None => Seq::empty(),
        })
    }
}

impl<A: Arith> Engine<A> {
    /// The observable state of this engine.
    pub open spec fn st(self) -> StepState {
        StepState {
            values: self.values@,
            prev: self.prev_values@,
            changed: self.changed@,
            first: self.first_run,
            last_trigger: self.last_trigger,
        }
    }

    /// The standing invariant of an engine.
    ///
    /// The three state arrays are as long as the arena; the graph, trigger
    /// and outputs are well-formed; constant slots always hold their
    /// constant; and between steps the arrays are consistent: every
    /// non-input slot holds exactly its node's value over the array, and
    /// the snapshot equals the current values.
    pub open spec fn wf(self) -> bool {
        &&& self.graph.wf()
        &&& self.values@.len() == self.graph.nodes@.len()
        &&& self.prev_values@.len() == self.graph.nodes@.len()
        &&& self.changed@.len() == self.graph.nodes@.len()
        &&& (match self.trigger_node {
            Some(t) => t < self.graph.nodes@.len(),
            None => true,
        })
        &&& (forall|k: int|
            0 <= k < self.output_nodes@.len() ==> (#[trigger] self.output_nodes@[k])
                < self.graph.nodes@.len())
        &&& (forall|i: int|
            0 <= i < self.graph.nodes@.len() ==> ((#[trigger] self.graph.nodes@[i])
                is Constant ==> self.values@[i] == init_value(self.graph.nodes@[i])))
        &&& (!self.first_run ==> {
            &&& (forall|i: int|
                0 <= i < self.graph.nodes@.len() && !(#[trigger] self.graph.nodes@[i]).spec_is_input()
                    ==> self.values@[i] == node_value(
                    self.arith,
                    Seq::<(String, u64)>::empty(),
                    self.values@,
                    self.graph.nodes@[i],
                ))
            &&& self.prev_values@ == self.values@
        })
    }

    /// Build an engine over a well-formed arena. The trigger and outputs
    /// are taken from the arena; constant slots start at their constant,
    /// all other slots at 0.0.
    pub fn new(arith: A, graph: ArenaGraph) -> (r: Engine<A>)
        requires
            graph.wf(),
        ensures
            r.wf(),
            r.graph == graph,
            r.arith == arith,
            r.first_run == true,
            r.last_trigger is None,
            r.trigger_node == graph.trigger,
            r.output_nodes@ == graph.outputs@,
            r.values@.len() == graph.nodes@.len(),
            forall|i: int|
                0 <= i < graph.nodes@.len() ==> r.values@[i] == init_value(
                    #[trigger] graph.nodes@[i],
                ),
    {
        let n = graph.nodes.len();
        let mut values: Vec<u64> = Vec::new();
        let mut i: usize = 0;
        while i < n
            invariant
                i <= n,
                n == graph.nodes@.len(),
                values@.len() == i,
                forall|j: int|
                    0 <= j < i ==> values@[j] == init_value(#[trigger] graph.nodes@[j]),
            decreases n - i,
        {
            match &graph.nodes[i] {
                NodeOp::Constant { value } => {
                    values.push(*value);
                },
                _ => {
                    values.push(F64_ZERO);
                },
            }
            i = i + 1;
        }
        let mut prev_values: Vec<u64> = Vec::new();
        let mut changed: Vec<bool> = Vec::new();
        let mut j: usize = 0;
        while j < n
            invariant
                j <= n,
                n == graph.nodes@.len(),
                values@.len() == n,
                prev_values@.len() == j,
                changed@.len() == j,
                forall|k: int| 0 <= k < j ==> prev_values@[k] == values@[k],
            decreases n - j,
        {
            prev_values.push(values[j]);
            changed.push(false);
            j = j + 1;
        }
        let trigger_node = match &graph.trigger {
            Some(t) => Some(*t),
            None => None,
        };
        let mut output_nodes: Vec<usize> = Vec::new();
        let mut k: usize = 0;
        while k < graph.outputs.len()
            invariant
                k <= graph.outputs@.len(),
                output_nodes@ == graph.outputs@.take(k as int),
            decreases graph.outputs@.len() - k,
        {
            output_nodes.push(graph.outputs[k]);
            proof {
                assert(output_nodes@ =~= graph.outputs@.take(k + 1int));
            }
            k = k + 1;
        }
        proof {
            assert(output_nodes@ =~= graph.outputs@);
        }
        Engine {
            arith,
            graph,
            values,
            prev_values,
            changed,
            trigger_node,
            output_nodes,
            first_run: true,
            last_trigger: None,
        }
    }

    /// Designate the node whose value change gates emission.
    pub fn set_trigger(&mut self, trigger: usize)
        requires
            old(self).wf(),
            trigger < old(self).graph.nodes@.len(),
        ensures
            final(self).wf(),
            *final(self) == (Engine { trigger_node: Some(trigger), ..*old(self) }),
    {
        self.trigger_node = Some(trigger);
    }

    /// Set the nodes whose values an emitted record carries.
    pub fn set_outputs(&mut self, outputs: Vec<usize>)
        requires
            old(self).wf(),
            forall|k: int|
                0 <= k < outputs@.len() ==> (#[trigger] outputs@[k])
                    < old(self).graph.nodes@.len(),
        ensures
            final(self).wf(),
            *final(self) == (Engine { output_nodes: outputs, ..*old(self) }),
    {
        self.output_nodes = outputs;
    }

    /// Evaluate one row and decide emission.
    ///
    /// The step refreshes the input channels from the row, propagates
    /// changes upward in one low-to-high sweep (recomputing only nodes
    /// below which a change flag is set, except on the first step, which
    /// computes everything), consults the trigger, and snapshots the
    /// values. Afterwards the value array equals the dense sweep semantics
    /// of the row, every change flag says exactly whether the node's value
    /// differs bitwise from the step before, and a record is returned
    /// exactly when a trigger is designated and its value fires against
    /// the last emitted one.
    pub fn evaluate_step(&mut self, row: &Row) -> (em: Option<Emission>)
        requires
            old(self).wf(),
        ensures
            final(self).wf(),
            final(self).graph == old(self).graph,
            final(self).arith == old(self).arith,
            final(self).trigger_node == old(self).trigger_node,
            final(self).output_nodes@ == old(self).output_nodes@,
            final(self).first_run == false,
            final(self).values@ == dense(old(self).arith, row@, old(self).graph.nodes@),
            final(self).prev_values@ == final(self).values@,
            (old(self).first_run ==> forall|i: int|
                0 <= i < old(self).graph.nodes@.len() ==> final(self).changed@[i] == true),
            (!old(self).first_run ==> forall|i: int|
                0 <= i < old(self).graph.nodes@.len() ==> final(self).changed@[i] == (dense(
                    old(self).arith,
                    row@,
                    old(self).graph.nodes@,
                )[i] != old(self).values@[i])),
            forall|i: int|
                0 <= i < old(self).graph.nodes@.len() ==> (match #[trigger] old(
                    self,
                ).graph.nodes@[i] {
                    NodeOp::Input { name } => final(self).values@[i] == row_val(row@, name@),
                    NodeOp::Constant { value } => final(self).values@[i] == value,
                    _ => true,
                }),
            final(self).st() == spec_step(
                old(self).arith,
                old(self).graph.nodes@,
                old(self).trigger_node,
                old(self).st(),
                row@,
            ),
            ({
                let se = spec_emission(
                    old(self).arith,
                    old(self).graph.nodes@,
                    old(self).trigger_node,
                    old(self).output_nodes@,
                    old(self).st(),
                    row@,
                );
                match em {
                    Some(e) => se == Some((e.trigger, e.outputs@)),
                    None => se is None,
                }
            }),
            ({
                let d = dense(old(self).arith, row@, old(self).graph.nodes@);
                match old(self).trigger_node {
                    None => em is None && final(self).last_trigger == old(self).last_trigger,
                    Some(t) => {
                        let tv = d[t as int];
                        if should_emit(old(self).last_trigger, tv) {
                            match em {
                                Some(e) => {
                                    &&& e.trigger == tv
                                    &&& e.outputs@.len() == old(self).output_nodes@.len()
                                    &&& (forall|k: int|
                                        0 <= k < old(self).output_nodes@.len() ==> e.outputs@[k]
                                            == d[(#[trigger] old(self).output_nodes@[k]) as int])
                                    &&& final(self).last_trigger == Some(tv)
                                },
                                None => false,
                            }
                        } else {
                            em is None && final(self).last_trigger == old(self).last_trigger
                        }
                    },
                }
            }),
    {
        let ghost a = self.arith;
        let ghost nodes0 = self.graph.nodes@;
        let ghost oldv = self.values@;
        let ghost d = dense(a, row@, nodes0);
        proof {
            crate::sem::lemma_dense_prefix_len(a, row@, nodes0, nodes0.len());
            assert forall|i: int| 0 <= i < nodes0.len() implies #[trigger] d[i] == node_value(
                a,
                row@,
                d,
                nodes0[i],
            ) by {
                lemma_dense_char(a, row@, nodes0, i);
            }
        }
        let first = self.first_run;
        let n = self.graph.nodes.len();

        // Step 1 and 2: reset the change flags; refresh every input
        // channel from the row, flagging the ones whose value moved.
        let mut i: usize = 0;
        while i < n
            invariant
                i <= n,
                n == nodes0.len(),
                self.graph == old(self).graph,
                self.arith == old(self).arith,
                self.trigger_node == old(self).trigger_node,
                self.output_nodes@ == old(self).output_nodes@,
                self.first_run == old(self).first_run,
                self.last_trigger == old(self).last_trigger,
                self.prev_values@ == old(self).prev_values@,
                nodes0 == self.graph.nodes@,
                a == self.arith,
                first == self.first_run,
                oldv == old(self).values@,
                d == dense(a, row@, nodes0),
                d.len() == n,
                oldv.len() == n,
                old(self).wf(),
                self.values@.len() == n,
                self.changed@.len() == n,
                forall|i2: int| 0 <= i2 < nodes0.len() ==> #[trigger] d[i2] == node_value(
                    a, row@, d, nodes0[i2]),
                forall|j: int|
                    0 <= j < i ==> #[trigger] self.changed@[j] == (if first {
                        true
                    } else if nodes0[j] is Input {
                        d[j] != oldv[j]
                    } else {
                        false
                    }),
                forall|j: int|
                    0 <= j < i && nodes0[j] is Input ==> #[trigger] self.values@[j] == d[j],
                forall|j: int|
                    0 <= j < i && !(nodes0[j] is Input) ==> #[trigger] self.values@[j] == oldv[j],
                forall|j: int| i <= j < n ==> #[trigger] self.values@[j] == oldv[j],
            decreases n - i,
        {
            match &self.graph.nodes[i] {
                NodeOp::Input { name } => {
                    let nv = row.value(name);
                    proof {
                        assert(d[i as int] == node_value(a, row@, d, nodes0[i as int]));
                        assert(nv == d[i as int]);
                    }
                    if first {
                        self.changed[i] = true;
                        self.values[i] = nv;
                    } else if nv != self.values[i] {
                        self.values[i] = nv;
                        self.changed[i] = true;
                    } else {
                        self.changed[i] = false;
                    }
                },
                _ => {
                    self.changed[i] = first;
                },
            }
            i = i + 1;
        }

        // Step 3: one sweep in topological order. On the first step,
        // compute every non-input node; afterwards, recompute a node only
        // when one of its operands is flagged, and flag it only when its
        // value moved bitwise.
        let mut p: usize = 0;
        while p < n
            invariant
                p <= n,
                n == nodes0.len(),
                self.graph == old(self).graph,
                self.arith == old(self).arith,
                self.trigger_node == old(self).trigger_node,
                self.output_nodes@ == old(self).output_nodes@,
                self.first_run == old(self).first_run,
                self.last_trigger == old(self).last_trigger,
                self.prev_values@ == old(self).prev_values@,
                nodes0 == self.graph.nodes@,
                a == self.arith,
                first == self.first_run,
                oldv == old(self).values@,
                d == dense(a, row@, nodes0),
                d.len() == n,
                oldv.len() == n,
                old(self).wf(),
                self.values@.len() == n,
                self.changed@.len() == n,
                forall|i2: int| 0 <= i2 < nodes0.len() ==> #[trigger] d[i2] == node_value(
                    a, row@, d, nodes0[i2]),
                forall|j: int|
                    0 <= j < n && nodes0[j] is Input ==> #[trigger] self.values@[j] == d[j],
                forall|j: int|
                    0 <= j < n && nodes0[j] is Input ==> #[trigger] self.changed@[j] == (if first {
                        true
                    } else {
                        d[j] != oldv[j]
                    }),
                first ==> forall|j: int| 0 <= j < n ==> #[trigger] self.changed@[j] == true,
                !first ==> forall|j: int|
                    0 <= j < p ==> #[trigger] self.changed@[j] == (d[j] != oldv[j]),
                !first ==> forall|j: int|
                    p <= j < n && !(nodes0[j] is Input) ==> #[trigger] self.changed@[j] == (
                    if nodes0[j] is Input {
                        d[j] != oldv[j]
                    } else {
                        false
                    }),
                forall|j: int| 0 <= j < p ==> #[trigger] self.values@[j] == d[j],
                forall|j: int|
                    p <= j < n && !(nodes0[j] is Input) ==> #[trigger] self.values@[j] == oldv[j],
            decreases n - p,
        {
            let ghost node = nodes0[p as int];
            proof {
                assert(crate::nodes::wf_node_at(node, p as int));
            }
            let is_input = match &self.graph.nodes[p] {
                NodeOp::Input { .. } => true,
                _ => false,
            };
            let is_const = match &self.graph.nodes[p] {
                NodeOp::Constant { .. } => true,
                _ => false,
            };
            if !is_input {
                if first {
                    let nv = compute_node(&self.arith, &self.graph.nodes[p], &self.values);
                    proof {
                        assert forall|k: int|
                            0 <= k < node.spec_inputs().len() implies self.values@[(
                        #[trigger] node.spec_inputs()[k]) as int] == d[node.spec_inputs()[k] as int]
                        by {
                            assert(node.spec_inputs()[k] < p);
                        }
                        lemma_node_value_frame(a, row@, self.values@, d, node);
                        assert(nv == d[p as int]);
                    }
                    self.values[p] = nv;
                } else if is_const {
                    proof {
                        assert(oldv[p as int] == init_value(node));
                        assert(d[p as int] == node_value(a, row@, d, node));
                        assert(d[p as int] == init_value(node));
                        assert(self.values@[p as int] == d[p as int]);
                        assert(self.changed@[p as int] == (d[p as int] != oldv[p as int]));
                    }
                } else {
                    let dirty = check_inputs_changed(&self.graph.nodes[p], &self.changed);
                    if dirty {
                        let nv = compute_node(&self.arith, &self.graph.nodes[p], &self.values);
                        proof {
                            assert forall|k: int|
                                0 <= k < node.spec_inputs().len() implies self.values@[(
                            #[trigger] node.spec_inputs()[k]) as int] == d[node.spec_inputs()[k] as int]
                            by {
                                assert(node.spec_inputs()[k] < p);
                            }
                            lemma_node_value_frame(a, row@, self.values@, d, node);
                            assert(nv == d[p as int]);
                        }
                        if nv != self.values[p] {
                            self.values[p] = nv;
                            self.changed[p] = true;
                        }
                    } else {
                        proof {
                            assert forall|k: int|
                                0 <= k < node.spec_inputs().len() implies oldv[(
                            #[trigger] node.spec_inputs()[k]) as int] == d[node.spec_inputs()[k] as int]
                            by {
                                let j = node.spec_inputs()[k] as int;
                                assert(j < p);
                                assert(!self.changed@[j]);
                                assert(self.changed@[j] == (d[j] != oldv[j]));
                            }
                            assert(oldv[p as int] == node_value(
                                a,
                                Seq::<(String, u64)>::empty(),
                                oldv,
                                node,
                            ));
                            lemma_node_value_frame(
                                a,
                                Seq::<(String, u64)>::empty(),
                                oldv,
                                d,
                                node,
                            );
                            lemma_node_value_row_irrelevant(
                                a,
                                Seq::<(String, u64)>::empty(),
                                row@,
                                d,
                                node,
                            );
                            assert(oldv[p as int] == d[p as int]);
                            assert(self.values@[p as int] == d[p as int]);
                        }
                    }
                }
            }
            p = p + 1;
        }

        // Step 5: snapshot the values for the next step's comparison.
        let mut q: usize = 0;
        while q < n
            invariant
                q <= n,
                n == nodes0.len(),
                self.graph == old(self).graph,
                self.arith == old(self).arith,
                self.trigger_node == old(self).trigger_node,
                self.output_nodes@ == old(self).output_nodes@,
                self.first_run == old(self).first_run,
                self.last_trigger == old(self).last_trigger,
                nodes0 == self.graph.nodes@,
                a == self.arith,
                oldv == old(self).values@,
                d == dense(a, row@, nodes0),
                d.len() == n,
                old(self).wf(),
                self.values@ == d,
                self.changed@.len() == n,
                first ==> forall|j: int| 0 <= j < n ==> #[trigger] self.changed@[j] == true,
                !first ==> forall|j: int|
                    0 <= j < n ==> #[trigger] self.changed@[j] == (d[j] != oldv[j]),
                first == self.first_run,
                self.prev_values@.len() == n,
                forall|j: int| 0 <= j < q ==> #[trigger] self.prev_values@[j] == d[j],
            decreases n - q,
        {
            let v = self.values[q];
            self.prev_values[q] = v;
            q = q + 1;
        }
        proof {
            assert(self.prev_values@ =~= d);
        }

        // Steps 4 and 6: consult the trigger, then leave first-step mode.
        self.first_run = false;
        let em: Option<Emission> = match self.trigger_node {
            Some(t) => {
                let tv = self.values[t];
                let fire = match self.last_trigger {
                    None => true,
                    Some(p2) => tv != p2,
                };
                if fire {
                    self.last_trigger = Some(tv);
                    let mut outs: Vec<u64> = Vec::new();
                    let mut k: usize = 0;
                    while k < self.output_nodes.len()
                        invariant
                            k <= self.output_nodes@.len(),
                            self.output_nodes@ == old(self).output_nodes@,
                            self.values@ == d,
                            d.len() == n,
                            n == nodes0.len(),
                            old(self).wf(),
                            nodes0 == self.graph.nodes@,
                            self.graph == old(self).graph,
                            outs@.len() == k,
                            forall|j: int|
                                0 <= j < k ==> #[trigger] outs@[j] == d[(self.output_nodes@[j]) as int],
                        decreases self.output_nodes@.len() - k,
                    {
                        let o = self.output_nodes[k];
                        outs.push(self.values[o]);
                        k = k + 1;
                    }
                    Some(Emission { trigger: tv, outputs: outs })
                } else {
                    None
                }
            },
            None => None,
        };

        proof {
            assert forall|i2: int|
                0 <= i2 < nodes0.len() && !(#[trigger] nodes0[i2]).spec_is_input() implies
            self.values@[i2] == node_value(
                a,
                Seq::<(String, u64)>::empty(),
                self.values@,
                nodes0[i2],
            ) by {
                lemma_node_value_row_irrelevant(
                    a,
                    Seq::<(String, u64)>::empty(),
                    row@,
                    d,
                    nodes0[i2],
                );
            }
            let sst = spec_step(a, nodes0, old(self).trigger_node, old(self).st(), row@);
            if old(self).first_run {
                assert(self.changed@ =~= sst.changed);
            } else {
                assert(self.changed@ =~= sst.changed);
            }
            assert(self.st() == sst);
            let se = spec_emission(
                a,
                nodes0,
                old(self).trigger_node,
                old(self).output_nodes@,
                old(self).st(),
                row@,
            );
            match &em {
                Some(e) => {
                    assert(e.outputs@ =~= old(self).output_nodes@.map_values(
                        |o: usize| d[o as int],
                    ));
                },
                None => {},
            }
        }
        em
    }

    /// Step through a sequence of rows in order, collecting the records the
    /// trigger emits. Emitted records preserve row order.
    pub fn run(&mut self, rows: &Vec<Row>) -> (out: Vec<Emission>)
        requires
            old(self).wf(),
        ensures
            final(self).wf(),
            final(self).graph == old(self).graph,
            final(self).arith == old(self).arith,
            final(self).trigger_node == old(self).trigger_node,
            final(self).output_nodes@ == old(self).output_nodes@,
            rows@.len() > 0 ==> final(self).st() == run_state(
                old(self).arith,
                old(self).graph.nodes@,
                old(self).trigger_node,
                old(self).st(),
                rows@.map_values(|r: Row| r@),
            ),
            ({
                let ems = run_emitted(
                    old(self).arith,
                    old(self).graph.nodes@,
                    old(self).trigger_node,
                    old(self).output_nodes@,
                    old(self).st(),
                    rows@.map_values(|r: Row| r@),
                );
                &&& out@.len() == ems.len()
                &&& (forall|k: int|
                    0 <= k < ems.len() ==> (#[trigger] ems[k]) == (out@[k].trigger,
                    out@[k].outputs@))
            }),
    {
        let ghost a = self.arith;
        let ghost nodes0 = self.graph.nodes@;
        let ghost trig = self.trigger_node;
        let ghost outsn = self.output_nodes@;
        let ghost st0 = self.st();
        let ghost rseq = rows@.map_values(|r: Row| r@);
        let mut out: Vec<Emission> = Vec::new();
        let mut i: usize = 0;
        proof {
            assert(rseq.take(0) =~= Seq::<Seq<(String, u64)>>::empty());
        }
        while i < rows.len()
            invariant
                i <= rows@.len(),
                self.wf(),
                self.graph == old(self).graph,
                self.arith == old(self).arith,
                self.trigger_node == old(self).trigger_node,
                self.output_nodes@ == old(self).output_nodes@,
                a == old(self).arith,
                nodes0 == old(self).graph.nodes@,
                trig == old(self).trigger_node,
                outsn == old(self).output_nodes@,
                st0 == old(self).st(),
                rseq == rows@.map_values(|r: Row| r@),
                i > 0 ==> self.st() == run_state(a, nodes0, trig, st0, rseq.take(i as int)),
                i == 0 ==> self.st() == st0,
                ({
                    let ems = run_emitted(a, nodes0, trig, outsn, st0, rseq.take(i as int));
                    &&& out@.len() == ems.len()
                    &&& (forall|k: int|
                        0 <= k < ems.len() ==> (#[trigger] ems[k]) == (out@[k].trigger,
                        out@[k].outputs@))
                }),
            decreases rows@.len() - i,
        {
            proof {
                assert(rseq.take(i + 1int).drop_last() =~= rseq.take(i as int));
                assert(rseq.take(i + 1int).last() == rseq[i as int]);
                assert(rseq[i as int] == rows@[i as int]@);
                if i == 0 {
                    assert(run_state(a, nodes0, trig, st0, rseq.take(0)) == st0);
                }
            }
            let em = self.evaluate_step(&rows[i]);
            match em {
                Some(e) => {
                    out.push(e);
                },
                None => {},
            }
            proof {
                let ems0 = run_emitted(a, nodes0, trig, outsn, st0, rseq.take(i as int));
                let ems1 = run_emitted(a, nodes0, trig, outsn, st0, rseq.take(i + 1int));
                assert forall|k: int| 0 <= k < ems1.len() implies (#[trigger] ems1[k]) == (
                out@[k].trigger, out@[k].outputs@) by {
                    if k < ems0.len() {
                        assert(ems1[k] == ems0[k]);
                    }
                }
            }
            i = i + 1;
        }
        proof {
            assert(rseq.take(rows@.len() as int) =~= rseq);
        }
        out
    }

    /// The current value of a node.
    pub fn get_value(&self, node_id: usize) -> (r: u64)
        requires
            node_id < self.values@.len(),
        ensures
            r == self.values@[node_id as int],
    {
        self.values[node_id]
    }

    /// The current values of all nodes, in arena order.
    pub fn get_all_values(&self) -> (r: &Vec<u64>)
        ensures
            r@ == self.values@,
    {
        &self.values
    }
}

} // verus!
