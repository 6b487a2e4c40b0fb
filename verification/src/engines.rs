//! Batch evaluation strategies over a whole row stream.
//!
//! Both engines produce one record per row — trigger value and output
//! values, ungated — and both are pinned to the dense sweep semantics:
//! the sweeping engine drives the incremental evaluator, the lazy engine
//! computes only the demanded nodes by memoized descent, and they agree
//! bit for bit.

use vstd::prelude::*;

use crate::arena::ArenaGraph;
use crate::arith::{abs_bits, is_zero, Arith, F64_EPSILON, F64_NAN, F64_ONE, F64_ZERO};
use crate::eval::{Emission, Engine};
use crate::nodes::{wf_node_at, wf_nodes, ComparisonOp, NodeOp};
use crate::row::Row;
use crate::sem::{dense, fold_add, fold_mul, lemma_dense_char, node_value};

verus! {

/// One correct batch record for one row: the dense trigger value and the
/// dense output values.
pub open spec fn record_ok<A: Arith>(
    a: A,
    nodes: Seq<NodeOp>,
    root: usize,
    outputs: Seq<usize>,
    row: Seq<(String, u64)>,
    e: Emission,
) -> bool {
    &&& e.trigger == dense(a, row, nodes)[root as int]
    &&& e.outputs@.len() == outputs.len()
    &&& (forall|k: int|
        0 <= k < outputs.len() ==> (#[trigger] e.outputs@[k]) == dense(a, row, nodes)[outputs[k] as int])
}

/// What both batch engines promise: one record per row, holding the dense
/// trigger value and the dense output values of that row.
pub open spec fn batch_records<A: Arith>(
    a: A,
    nodes: Seq<NodeOp>,
    root: usize,
    outputs: Seq<usize>,
    rows: Seq<Seq<(String, u64)>>,
    out: Seq<Emission>,
) -> bool {
    &&& out.len() == rows.len()
    &&& (forall|r: int|
        0 <= r < rows.len() ==> record_ok(a, nodes, root, outputs, rows[r], #[trigger] out[r]))
}

/// The sweeping engine: every row is evaluated by the incremental
/// evaluator, whose state after each step is exactly the dense sweep.
pub struct TopologicalEngine;

impl TopologicalEngine {
    /// The name of this strategy.
    pub fn name(&self) -> (r: String)
        ensures
            r@ == "topological"@,
    {
        "topological".to_owned()
    }

    /// Evaluate every row, recording the values of `root` and `outputs`.
    pub fn evaluate<A: Arith>(
        &self,
        arith: A,
        graph: ArenaGraph,
        root: usize,
        outputs: &Vec<usize>,
        rows: &Vec<Row>,
    ) -> (out: Vec<Emission>)
        requires
            graph.wf(),
            root < graph.nodes@.len(),
            forall|k: int|
                0 <= k < outputs@.len() ==> (#[trigger] outputs@[k]) < graph.nodes@.len(),
        ensures
            batch_records(
                arith,
                graph.nodes@,
                root,
                outputs@,
                rows@.map_values(|r: Row| r@),
                out@,
            ),
    {
        let ghost gnodes = graph.nodes@;
        let mut eng = Engine::new(arith, graph);
        let mut out: Vec<Emission> = Vec::new();
        let mut r: usize = 0;
        while r < rows.len()
            invariant
                r <= rows@.len(),
                eng.wf(),
                eng.graph.nodes@ == gnodes,
                eng.arith == arith,
                root < gnodes.len(),
                forall|k: int| 0 <= k < outputs@.len() ==> (#[trigger] outputs@[k]) < gnodes.len(),
                out@.len() == r,
                forall|r2: int|
                    0 <= r2 < r ==> {
                        let d = dense(arith, rows@[r2]@, gnodes);
                        &&& (#[trigger] out@[r2]).trigger == d[root as int]
                        &&& out@[r2].outputs@.len() == outputs@.len()
                        &&& (forall|k: int|
                            0 <= k < outputs@.len() ==> (#[trigger] out@[r2].outputs@[k]) == d[
                                outputs@[k] as int
                            ])
                    },
            decreases rows@.len() - r,
        {
            let row = &rows[r];
            let _ = eng.evaluate_step(row);
            proof {
                crate::sem::lemma_dense_prefix_len(arith, row@, gnodes, gnodes.len());
            }
            let trigger = eng.get_value(root);
            let mut outs: Vec<u64> = Vec::new();
            let mut k: usize = 0;
            while k < outputs.len()
                invariant
                    k <= outputs@.len(),
                    eng.values@ == dense(arith, rows@[r as int]@, gnodes),
                    eng.values@.len() == gnodes.len(),
                    forall|k2: int|
                        0 <= k2 < outputs@.len() ==> (#[trigger] outputs@[k2]) < gnodes.len(),
                    outs@.len() == k,
                    forall|j: int|
                        0 <= j < k ==> (#[trigger] outs@[j]) == dense(
                            arith,
                            rows@[r as int]@,
                            gnodes,
                        )[outputs@[j] as int],
                decreases outputs@.len() - k,
            {
                outs.push(eng.get_value(outputs[k]));
                k = k + 1;
            }
            out.push(Emission { trigger, outputs: outs });
            r = r + 1;
        }
        proof {
            assert forall|r2: int| 0 <= r2 < rows@.len() implies rows@.map_values(|rr: Row| rr@)[r2]
                == rows@[r2]@ by {}
        }
        out
    }
}

/// Compute the dense value of node `i` by memoized descent: operands are
/// demanded recursively, and every computed value is recorded so no node
/// is evaluated twice.
fn eval_lazy<A: Arith>(
    a: &A,
    nodes: &Vec<NodeOp>,
    row: &Row,
    memo: &mut Vec<Option<u64>>,
    i: usize,
) -> (r: u64)
    requires
        wf_nodes(nodes@),
        i < nodes@.len(),
        old(memo)@.len() == nodes@.len(),
        forall|j: int|
            0 <= j < nodes@.len() ==> (match #[trigger] old(memo)@[j] {
                Some(v) => v == dense(*a, row@, nodes@)[j],
                None => true,
            }),
    ensures
        final(memo)@.len() == nodes@.len(),
        forall|j: int|
            0 <= j < nodes@.len() ==> (match #[trigger] final(memo)@[j] {
                Some(v) => v == dense(*a, row@, nodes@)[j],
                None => true,
            }),
        forall|j: int|
            0 <= j < nodes@.len() && (#[trigger] old(memo)@[j]) is Some ==> final(memo)@[j] == old(
                memo,
            )@[j],
        final(memo)@[i as int] == Some(dense(*a, row@, nodes@)[i as int]),
        r == dense(*a, row@, nodes@)[i as int],
    decreases i,
{
    let ghost d = dense(*a, row@, nodes@);
    proof {
        crate::sem::lemma_dense_prefix_len(*a, row@, nodes@, nodes@.len());
        lemma_dense_char(*a, row@, nodes@, i as int);
        assert(wf_node_at(nodes@[i as int], i as int));
    }
    match memo[i] {
        Some(v) => {
            return v;
        },
        None => {},
    }
    let ghost node = nodes@[i as int];
    let val: u64 = match &nodes[i] {
        NodeOp::Input { name } => row.value(name),
        NodeOp::Constant { value } => *value,
        NodeOp::Add { inputs } => {
            proof {
                assert forall|k: int| 0 <= k < inputs@.len() implies (#[trigger] inputs@[k])
                    < i by {
                    assert(node.spec_inputs()[k] == inputs@[k]);
                }
            }
            let mut acc: u64 = F64_ZERO;
            let mut k: usize = 0;
            while k < inputs.len()
                invariant
                    k <= inputs@.len(),
                    wf_nodes(nodes@),
                    i < nodes@.len(),
                    forall|k2: int| 0 <= k2 < inputs@.len() ==> (#[trigger] inputs@[k2]) < i,
                    memo@.len() == nodes@.len(),
                    forall|j: int|
                        0 <= j < nodes@.len() ==> (match #[trigger] memo@[j] {
                            Some(v) => v == d[j],
                            None => true,
                        }),
                    forall|j: int|
                        0 <= j < nodes@.len() && (#[trigger] old(memo)@[j]) is Some ==> memo@[j]
                            == old(memo)@[j],
                    d == dense(*a, row@, nodes@),
                    acc == fold_add(*a, d, inputs@.take(k as int)),
                decreases inputs@.len() - k,
            {
                let child = inputs[k];
                let cv = eval_lazy(a, nodes, row, memo, child);
                proof {
                    assert(inputs@.take(k + 1int).drop_last() =~= inputs@.take(k as int));
                    assert(inputs@.take(k + 1int).last() == inputs@[k as int]);
                }
                acc = a.add(acc, cv);
                k = k + 1;
            }
            proof {
                assert(inputs@.take(inputs@.len() as int) =~= inputs@);
            }
            acc
        },
        NodeOp::Multiply { inputs } => {
            proof {
                assert forall|k: int| 0 <= k < inputs@.len() implies (#[trigger] inputs@[k])
                    < i by {
                    assert(node.spec_inputs()[k] == inputs@[k]);
                }
            }
            let mut acc: u64 = F64_ONE;
            let mut k: usize = 0;
            while k < inputs.len()
                invariant
                    k <= inputs@.len(),
                    wf_nodes(nodes@),
                    i < nodes@.len(),
                    forall|k2: int| 0 <= k2 < inputs@.len() ==> (#[trigger] inputs@[k2]) < i,
                    memo@.len() == nodes@.len(),
                    forall|j: int|
                        0 <= j < nodes@.len() ==> (match #[trigger] memo@[j] {
                            Some(v) => v == d[j],
                            None => true,
                        }),
                    forall|j: int|
                        0 <= j < nodes@.len() && (#[trigger] old(memo)@[j]) is Some ==> memo@[j]
                            == old(memo)@[j],
                    d == dense(*a, row@, nodes@),
                    acc == fold_mul(*a, d, inputs@.take(k as int)),
                decreases inputs@.len() - k,
            {
                let child = inputs[k];
                let cv = eval_lazy(a, nodes, row, memo, child);
                proof {
                    assert(inputs@.take(k + 1int).drop_last() =~= inputs@.take(k as int));
                    assert(inputs@.take(k + 1int).last() == inputs@[k as int]);
                }
                acc = a.mul(acc, cv);
                k = k + 1;
            }
            proof {
                assert(inputs@.take(inputs@.len() as int) =~= inputs@);
            }
            acc
        },
        NodeOp::Divide { left, right } => {
            proof {
                assert(node.spec_inputs()[0] == left);
                assert(node.spec_inputs()[1] == right);
            }
            let l = eval_lazy(a, nodes, row, memo, *left);
            let rv = eval_lazy(a, nodes, row, memo, *right);
            if is_zero(rv) {
                F64_NAN
            } else {
                a.div(l, rv)
            }
        },
        NodeOp::Compare { left, right, op } => {
            proof {
                assert(node.spec_inputs()[0] == left);
                assert(node.spec_inputs()[1] == right);
            }
            let l = eval_lazy(a, nodes, row, memo, *left);
            let rv = eval_lazy(a, nodes, row, memo, *right);
            let holds = match op {
                ComparisonOp::GreaterThan => a.gt(l, rv),
                ComparisonOp::LessThan => a.lt(l, rv),
                ComparisonOp::Equal => a.lt(abs_bits(a.sub(l, rv)), F64_EPSILON),
            };
            if holds {
                F64_ONE
            } else {
                F64_ZERO
            }
        },
        NodeOp::Power { base, exp } => {
            proof {
                assert(node.spec_inputs()[0] == base);
                assert(node.spec_inputs()[1] == exp);
            }
            let b = eval_lazy(a, nodes, row, memo, *base);
            let e = eval_lazy(a, nodes, row, memo, *exp);
            a.pow(b, e)
        },
        NodeOp::ScaleByK { input, k } => {
            proof {
                assert(node.spec_inputs()[0] == input);
            }
            let v = eval_lazy(a, nodes, row, memo, *input);
            a.mul(v, *k)
        },
    };
    proof {
        assert(val == node_value(*a, row@, d, node));
    }
    memo[i] = Some(val);
    val
}

/// The lazy engine: per row, only the trigger and the declared outputs
/// are demanded; everything they rest on is computed once and memoized.
pub struct LazyEngine;

impl LazyEngine {
    /// The name of this strategy.
    pub fn name(&self) -> (r: String)
        ensures
            r@ == "lazy"@,
    {
        "lazy".to_owned()
    }

    /// Evaluate every row, recording the values of `root` and `outputs`.
    pub fn evaluate<A: Arith>(
        &self,
        arith: &A,
        graph: &ArenaGraph,
        root: usize,
        outputs: &Vec<usize>,
        rows: &Vec<Row>,
    ) -> (out: Vec<Emission>)
        requires
            graph.wf(),
            root < graph.nodes@.len(),
            forall|k: int|
                0 <= k < outputs@.len() ==> (#[trigger] outputs@[k]) < graph.nodes@.len(),
        ensures
            batch_records(
                *arith,
                graph.nodes@,
                root,
                outputs@,
                rows@.map_values(|r: Row| r@),
                out@,
            ),
    {
        let n = graph.nodes.len();
        let mut out: Vec<Emission> = Vec::new();
        let mut r: usize = 0;
        while r < rows.len()
            invariant
                r <= rows@.len(),
                n == graph.nodes@.len(),
                graph.wf(),
                root < n,
                forall|k: int| 0 <= k < outputs@.len() ==> (#[trigger] outputs@[k]) < n,
                out@.len() == r,
                forall|r2: int|
                    0 <= r2 < r ==> {
                        let d = dense(*arith, rows@[r2]@, graph.nodes@);
                        &&& (#[trigger] out@[r2]).trigger == d[root as int]
                        &&& out@[r2].outputs@.len() == outputs@.len()
                        &&& (forall|k: int|
                            0 <= k < outputs@.len() ==> (#[trigger] out@[r2].outputs@[k]) == d[
                                outputs@[k] as int
                            ])
                    },
            decreases rows@.len() - r,
        {
            let row = &rows[r];
            proof {
                assert(rows@[r as int]@ == row@);
                crate::sem::lemma_dense_prefix_len(*arith, row@, graph.nodes@, graph.nodes@.len());
            }
            let mut memo: Vec<Option<u64>> = Vec::new();
            let mut w: usize = 0;
            while w < n
                invariant
                    w <= n,
                    memo@.len() == w,
                    forall|j: int| 0 <= j < w ==> (#[trigger] memo@[j]) is None,
                decreases n - w,
            {
                memo.push(None);
                w = w + 1;
            }
            let trigger = eval_lazy(arith, &graph.nodes, row, &mut memo, root);
            let mut outs: Vec<u64> = Vec::new();
            let mut k: usize = 0;
            while k < outputs.len()
                invariant
                    k <= outputs@.len(),
                    n == graph.nodes@.len(),
                    graph.wf(),
                    forall|k2: int| 0 <= k2 < outputs@.len() ==> (#[trigger] outputs@[k2]) < n,
                    memo@.len() == n,
                    forall|j: int|
                        0 <= j < n ==> (match #[trigger] memo@[j] {
                            Some(v) => v == dense(*arith, row@, graph.nodes@)[j],
                            None => true,
                        }),
                    outs@.len() == k,
                    forall|j: int|
                        0 <= j < k ==> (#[trigger] outs@[j]) == dense(*arith, row@, graph.nodes@)[
                            outputs@[j] as int
                        ],
                decreases outputs@.len() - k,
            {
                let ov = eval_lazy(arith, &graph.nodes, row, &mut memo, outputs[k]);
                outs.push(ov);
                k = k + 1;
            }
            out.push(Emission { trigger, outputs: outs });
            r = r + 1;
        }
        proof {
            assert forall|r2: int| 0 <= r2 < rows@.len() implies rows@.map_values(|rr: Row| rr@)[r2]
                == rows@[r2]@ by {}
        }
        out
    }
}

} // verus!
