//! The denotational semantics of a graph on one row.
//!
//! `dense(a, row, nodes)` is the sequence of values a full low-to-high
//! sweep assigns to the nodes: every input node reads the row, every other
//! node is a function of values standing strictly below it. The evaluator's
//! contract pins its state to this sequence after every step, whether the
//! step recomputed everything or propagated changes incrementally.

use vstd::prelude::*;

use crate::arith::{spec_abs, spec_is_zero, Arith, F64_EPSILON, F64_NAN, F64_ONE, F64_ZERO};
use crate::nodes::{wf_node_at, wf_nodes, ComparisonOp, NodeOp};
use crate::row::row_val;

verus! {

/// Left-to-right sum of the values standing at `ins`, from 0.0.
pub open spec fn fold_add<A: Arith>(a: A, vals: Seq<u64>, ins: Seq<usize>) -> u64
    decreases ins.len(),
{
    if ins.len() == 0 {
        F64_ZERO
    } else {
        a.add_spec(fold_add(a, vals, ins.drop_last()), vals[ins.last() as int])
    }
}

/// Left-to-right product of the values standing at `ins`, from 1.0.
pub open spec fn fold_mul<A: Arith>(a: A, vals: Seq<u64>, ins: Seq<usize>) -> u64
    decreases ins.len(),
{
    if ins.len() == 0 {
        F64_ONE
    } else {
        a.mul_spec(fold_mul(a, vals, ins.drop_last()), vals[ins.last() as int])
    }
}

/// Whether the comparison predicate holds of `(x, y)`. Equality is the
/// tolerance test: `|x - y| < epsilon`.
pub open spec fn compare_holds<A: Arith>(a: A, op: ComparisonOp, x: u64, y: u64) -> bool {
    match op {
        ComparisonOp::GreaterThan => a.gt_spec(x, y),
        ComparisonOp::LessThan => a.lt_spec(x, y),
        ComparisonOp::Equal => a.lt_spec(spec_abs(a.sub_spec(x, y)), F64_EPSILON),
    }
}

/// 1.0 for a predicate that holds, 0.0 for one that does not.
pub open spec fn bool_bits(b: bool) -> u64 {
    if b {
        F64_ONE
    } else {
        F64_ZERO
    }
}

/// The value node `n` takes, given the row and the values of the nodes
/// below it.
pub open spec fn node_value<A: Arith>(
    a: A,
    row: Seq<(String, u64)>,
    vals: Seq<u64>,
    n: NodeOp,
) -> u64 {
    match n {
        NodeOp::Input { name } => row_val(row, name@),
        NodeOp::Constant { value } => value,
        NodeOp::Add { inputs } => fold_add(a, vals, inputs@),
        NodeOp::Multiply { inputs } => fold_mul(a, vals, inputs@),
        NodeOp::Divide { left, right } => if spec_is_zero(vals[right as int]) {
            F64_NAN
        } else {
            a.div_spec(vals[left as int], vals[right as int])
        },
        NodeOp::Compare { left, right, op } => bool_bits(
            compare_holds(a, op, vals[left as int], vals[right as int]),
        ),
        NodeOp::Power { base, exp } => a.pow_spec(vals[base as int], vals[exp as int]),
        NodeOp::ScaleByK { input, k } => a.mul_spec(vals[input as int], k),
    }
}

/// The dense sweep values of the first `n` nodes.
pub open spec fn dense_prefix<A: Arith>(
    a: A,
    row: Seq<(String, u64)>,
    nodes: Seq<NodeOp>,
    n: nat,
) -> Seq<u64>
    decreases n,
{
    if n == 0 {
        Seq::empty()
    } else {
        let p = dense_prefix(a, row, nodes, (n - 1) as nat);
        p.push(node_value(a, row, p, nodes[n - 1]))
    }
}

/// The dense sweep values of a whole graph on one row: the value every
/// node takes when each is computed, in index order, from the values of
/// the nodes below it.
pub open spec fn dense<A: Arith>(a: A, row: Seq<(String, u64)>, nodes: Seq<NodeOp>) -> Seq<u64> {
    dense_prefix(a, row, nodes, nodes.len())
}

/// The sum folded over `ins` reads only the positions listed in `ins`.
pub proof fn lemma_fold_add_frame<A: Arith>(a: A, v1: Seq<u64>, v2: Seq<u64>, ins: Seq<usize>)
    requires
        forall|k: int| 0 <= k < ins.len() ==> v1[(#[trigger] ins[k]) as int] == v2[ins[k] as int],
    ensures
        fold_add(a, v1, ins) == fold_add(a, v2, ins),
    decreases ins.len(),
{
    if ins.len() > 0 {
        lemma_fold_add_frame(a, v1, v2, ins.drop_last());
    }
}

/// The product folded over `ins` reads only the positions listed in `ins`.
pub proof fn lemma_fold_mul_frame<A: Arith>(a: A, v1: Seq<u64>, v2: Seq<u64>, ins: Seq<usize>)
    requires
        forall|k: int| 0 <= k < ins.len() ==> v1[(#[trigger] ins[k]) as int] == v2[ins[k] as int],
    ensures
        fold_mul(a, v1, ins) == fold_mul(a, v2, ins),
    decreases ins.len(),
{
    if ins.len() > 0 {
        lemma_fold_mul_frame(a, v1, v2, ins.drop_last());
    }
}

/// A node's value reads only the positions its operand list names.
pub proof fn lemma_node_value_frame<A: Arith>(
    a: A,
    row: Seq<(String, u64)>,
    v1: Seq<u64>,
    v2: Seq<u64>,
    n: NodeOp,
)
    requires
        forall|k: int|
            0 <= k < n.spec_inputs().len() ==> v1[(#[trigger] n.spec_inputs()[k]) as int] == v2[
                n.spec_inputs()[k] as int
            ],
    ensures
        node_value(a, row, v1, n) == node_value(a, row, v2, n),
{
    match n {
        NodeOp::Add { inputs } => {
            assert(n.spec_inputs() == inputs@);
            assert forall|k: int| 0 <= k < inputs@.len() implies v1[(#[trigger] inputs@[k]) as int]
                == v2[inputs@[k] as int] by {
                assert(n.spec_inputs()[k] == inputs@[k]);
            }
            lemma_fold_add_frame(a, v1, v2, inputs@);
        },
        NodeOp::Multiply { inputs } => {
            assert(n.spec_inputs() == inputs@);
            assert forall|k: int| 0 <= k < inputs@.len() implies v1[(#[trigger] inputs@[k]) as int]
                == v2[inputs@[k] as int] by {
                assert(n.spec_inputs()[k] == inputs@[k]);
            }
            lemma_fold_mul_frame(a, v1, v2, inputs@);
        },
        NodeOp::Divide { left, right } => {
            assert(n.spec_inputs() =~= seq![left, right]);
            assert(v1[(n.spec_inputs()[0]) as int] == v2[(n.spec_inputs()[0]) as int]);
            assert(v1[(n.spec_inputs()[1]) as int] == v2[(n.spec_inputs()[1]) as int]);
        },
        NodeOp::Compare { left, right, op } => {
            assert(n.spec_inputs() =~= seq![left, right]);
            assert(v1[(n.spec_inputs()[0]) as int] == v2[(n.spec_inputs()[0]) as int]);
            assert(v1[(n.spec_inputs()[1]) as int] == v2[(n.spec_inputs()[1]) as int]);
        },
        NodeOp::Power { base, exp } => {
            assert(n.spec_inputs() =~= seq![base, exp]);
            assert(v1[(n.spec_inputs()[0]) as int] == v2[(n.spec_inputs()[0]) as int]);
            assert(v1[(n.spec_inputs()[1]) as int] == v2[(n.spec_inputs()[1]) as int]);
        },
        NodeOp::ScaleByK { input, k } => {
            assert(n.spec_inputs() =~= seq![input]);
            assert(v1[(n.spec_inputs()[0]) as int] == v2[(n.spec_inputs()[0]) as int]);
        },
        _ => {},
    }
}

/// A node that is not an input channel never reads the row.
pub proof fn lemma_node_value_row_irrelevant<A: Arith>(
    a: A,
    row1: Seq<(String, u64)>,
    row2: Seq<(String, u64)>,
    vals: Seq<u64>,
    n: NodeOp,
)
    requires
        !n.spec_is_input(),
    ensures
        node_value(a, row1, vals, n) == node_value(a, row2, vals, n),
{
}

/// The dense prefix of `n` nodes has length `n`.
pub proof fn lemma_dense_prefix_len<A: Arith>(
    a: A,
    row: Seq<(String, u64)>,
    nodes: Seq<NodeOp>,
    n: nat,
)
    ensures
        dense_prefix(a, row, nodes, n).len() == n,
    decreases n,
{
    if n > 0 {
        lemma_dense_prefix_len(a, row, nodes, (n - 1) as nat);
    }
}

/// Longer dense prefixes agree with shorter ones position by position.
pub proof fn lemma_dense_prefix_agree<A: Arith>(
    a: A,
    row: Seq<(String, u64)>,
    nodes: Seq<NodeOp>,
    m: nat,
    n: nat,
)
    requires
        m <= n,
    ensures
        forall|i: int|
            0 <= i < m ==> #[trigger] dense_prefix(a, row, nodes, n)[i] == dense_prefix(
                a,
                row,
                nodes,
                m,
            )[i],
    decreases n,
{
    lemma_dense_prefix_len(a, row, nodes, n);
    if m < n {
        lemma_dense_prefix_len(a, row, nodes, (n - 1) as nat);
        lemma_dense_prefix_agree(a, row, nodes, m, (n - 1) as nat);
    }
}

/// Folding the sum over remapped positions reads the remapped values.
pub proof fn lemma_fold_add_map<A: Arith>(
    a: A,
    v1: Seq<u64>,
    v2: Seq<u64>,
    ins: Seq<usize>,
    m: Seq<usize>,
)
    requires
        forall|k: int|
            0 <= k < ins.len() ==> v1[(#[trigger] ins[k]) as int] == v2[m[ins[k] as int] as int],
    ensures
        fold_add(a, v1, ins) == fold_add(a, v2, ins.map_values(|x: usize| m[x as int])),
    decreases ins.len(),
{
    let f = |x: usize| m[x as int];
    if ins.len() > 0 {
        lemma_fold_add_map(a, v1, v2, ins.drop_last(), m);
        assert(ins.map_values(f).drop_last() =~= ins.drop_last().map_values(f));
        assert(ins.map_values(f).last() == m[ins.last() as int]);
    }
}

/// Folding the product over remapped positions reads the remapped values.
pub proof fn lemma_fold_mul_map<A: Arith>(
    a: A,
    v1: Seq<u64>,
    v2: Seq<u64>,
    ins: Seq<usize>,
    m: Seq<usize>,
)
    requires
        forall|k: int|
            0 <= k < ins.len() ==> v1[(#[trigger] ins[k]) as int] == v2[m[ins[k] as int] as int],
    ensures
        fold_mul(a, v1, ins) == fold_mul(a, v2, ins.map_values(|x: usize| m[x as int])),
    decreases ins.len(),
{
    let f = |x: usize| m[x as int];
    if ins.len() > 0 {
        lemma_fold_mul_map(a, v1, v2, ins.drop_last(), m);
        assert(ins.map_values(f).drop_last() =~= ins.drop_last().map_values(f));
        assert(ins.map_values(f).last() == m[ins.last() as int]);
    }
}

/// Two nodes related by an index map take the same value over value
/// arrays that agree along the map.
pub proof fn lemma_node_value_related<A: Arith>(
    a: A,
    row: Seq<(String, u64)>,
    v1: Seq<u64>,
    v2: Seq<u64>,
    n1: NodeOp,
    n2: NodeOp,
    m: Seq<usize>,
)
    requires
        crate::nodes::related_nodes(n1, n2, m),
        forall|k: int|
            0 <= k < n1.spec_inputs().len() ==> v1[(#[trigger] n1.spec_inputs()[k]) as int] == v2[
                m[n1.spec_inputs()[k] as int] as int
            ],
    ensures
        node_value(a, row, v1, n1) == node_value(a, row, v2, n2),
{
    let f = |x: usize| m[x as int];
    match n1 {
        NodeOp::Input { .. } => {},
        NodeOp::Constant { .. } => {},
        NodeOp::Add { inputs } => {
            assert(n1.spec_inputs() == inputs@);
            assert forall|k: int| 0 <= k < inputs@.len() implies v1[(#[trigger] inputs@[k]) as int]
                == v2[m[inputs@[k] as int] as int] by {
                assert(n1.spec_inputs()[k] == inputs@[k]);
            }
            lemma_fold_add_map(a, v1, v2, inputs@, m);
            match n2 {
                NodeOp::Add { inputs: inputs2 } => {
                    assert(inputs2@ == inputs@.map_values(f));
                },
                _ => {
                    assert(false);
                },
            }
        },
        NodeOp::Multiply { inputs } => {
            assert(n1.spec_inputs() == inputs@);
            assert forall|k: int| 0 <= k < inputs@.len() implies v1[(#[trigger] inputs@[k]) as int]
                == v2[m[inputs@[k] as int] as int] by {
                assert(n1.spec_inputs()[k] == inputs@[k]);
            }
            lemma_fold_mul_map(a, v1, v2, inputs@, m);
            match n2 {
                NodeOp::Multiply { inputs: inputs2 } => {
                    assert(inputs2@ == inputs@.map_values(f));
                },
                _ => {
                    assert(false);
                },
            }
        },
        NodeOp::Divide { left, right } => {
            assert(n1.spec_inputs() =~= seq![left, right]);
            assert(v1[(n1.spec_inputs()[0]) as int] == v2[m[left as int] as int]);
            assert(v1[(n1.spec_inputs()[1]) as int] == v2[m[right as int] as int]);
            match n2 {
                NodeOp::Divide { left: l2, right: r2 } => {
                    assert(n2.spec_inputs() =~= seq![l2, r2]);
                    assert(l2 == n1.spec_inputs().map_values(f)[0]);
                    assert(r2 == n1.spec_inputs().map_values(f)[1]);
                },
                _ => {
                    assert(false);
                },
            }
        },
        NodeOp::Compare { left, right, op } => {
            assert(n1.spec_inputs() =~= seq![left, right]);
            assert(v1[(n1.spec_inputs()[0]) as int] == v2[m[left as int] as int]);
            assert(v1[(n1.spec_inputs()[1]) as int] == v2[m[right as int] as int]);
            match n2 {
                NodeOp::Compare { left: l2, right: r2, op: o2 } => {
                    assert(n2.spec_inputs() =~= seq![l2, r2]);
                    assert(l2 == n1.spec_inputs().map_values(f)[0]);
                    assert(r2 == n1.spec_inputs().map_values(f)[1]);
                },
                _ => {
                    assert(false);
                },
            }
        },
        NodeOp::Power { base, exp } => {
            assert(n1.spec_inputs() =~= seq![base, exp]);
            assert(v1[(n1.spec_inputs()[0]) as int] == v2[m[base as int] as int]);
            assert(v1[(n1.spec_inputs()[1]) as int] == v2[m[exp as int] as int]);
            match n2 {
                NodeOp::Power { base: b2, exp: e2 } => {
                    assert(n2.spec_inputs() =~= seq![b2, e2]);
                    assert(b2 == n1.spec_inputs().map_values(f)[0]);
                    assert(e2 == n1.spec_inputs().map_values(f)[1]);
                },
                _ => {
                    assert(false);
                },
            }
        },
        NodeOp::ScaleByK { input, k } => {
            assert(n1.spec_inputs() =~= seq![input]);
            assert(v1[(n1.spec_inputs()[0]) as int] == v2[m[input as int] as int]);
            match n2 {
                NodeOp::ScaleByK { input: i2, k: k2 } => {
                    assert(n2.spec_inputs() =~= seq![i2]);
                    assert(i2 == n1.spec_inputs().map_values(f)[0]);
                },
                _ => {
                    assert(false);
                },
            }
        },
    }
}

/// Merging shared subexpressions preserves every value: when each node of
/// one graph is, with operands sent through `m`, exactly the node its
/// image holds in the other, the dense values agree along `m`.
pub proof fn lemma_related_dense<A: Arith>(
    a: A,
    row: Seq<(String, u64)>,
    nodes1: Seq<NodeOp>,
    nodes2: Seq<NodeOp>,
    m: Seq<usize>,
    i: int,
)
    requires
        wf_nodes(nodes1),
        wf_nodes(nodes2),
        m.len() == nodes1.len(),
        forall|j: int| 0 <= j < nodes1.len() ==> (#[trigger] m[j]) < nodes2.len(),
        forall|j: int|
            0 <= j < nodes1.len() ==> crate::nodes::related_nodes(
                nodes1[j],
                nodes2[(#[trigger] m[j]) as int],
                m,
            ),
        0 <= i < nodes1.len(),
    ensures
        forall|j: int|
            0 <= j <= i ==> dense(a, row, nodes1)[j] == dense(a, row, nodes2)[(#[trigger] m[j]) as int],
    decreases i,
{
    lemma_dense_prefix_len(a, row, nodes1, nodes1.len());
    lemma_dense_prefix_len(a, row, nodes2, nodes2.len());
    if i > 0 {
        lemma_related_dense(a, row, nodes1, nodes2, m, i - 1);
    }
    let d1 = dense(a, row, nodes1);
    let d2 = dense(a, row, nodes2);
    let n1 = nodes1[i];
    let n2 = nodes2[m[i] as int];
    lemma_dense_char(a, row, nodes1, i);
    lemma_dense_char(a, row, nodes2, m[i] as int);
    assert(wf_node_at(n1, i));
    assert forall|k: int| 0 <= k < n1.spec_inputs().len() implies d1[(
    #[trigger] n1.spec_inputs()[k]) as int] == d2[m[n1.spec_inputs()[k] as int] as int] by {
        assert(n1.spec_inputs()[k] < i);
    }
    lemma_node_value_related(a, row, d1, d2, n1, n2, m);
}

/// Whether `x` stands somewhere before position `q` of the schedule.
pub open spec fn appears_before(sched: Seq<usize>, q: int, x: usize) -> bool {
    exists|q2: int| 0 <= q2 < q && sched[q2] == x
}

/// A valid evaluation schedule: every position it names is in range, and
/// every operand of a scheduled node was scheduled earlier.
pub open spec fn valid_schedule(nodes: Seq<NodeOp>, sched: Seq<usize>) -> bool {
    &&& (forall|q: int| 0 <= q < sched.len() ==> (#[trigger] sched[q]) < nodes.len())
    &&& (forall|q: int, k: int|
        0 <= q < sched.len() && 0 <= k < nodes[sched[q] as int].spec_inputs().len()
            ==> #[trigger] appears_before(
            sched,
            q,
            nodes[sched[q] as int].spec_inputs()[k],
        ))
}

/// The values reached by computing node values one schedule entry at a
/// time, left to right, over a starting value array.
pub open spec fn eval_schedule<A: Arith>(
    a: A,
    row: Seq<(String, u64)>,
    nodes: Seq<NodeOp>,
    vals0: Seq<u64>,
    sched: Seq<usize>,
) -> Seq<u64>
    decreases sched.len(),
{
    if sched.len() == 0 {
        vals0
    } else {
        let v = eval_schedule(a, row, nodes, vals0, sched.drop_last());
        v.update(sched.last() as int, node_value(a, row, v, nodes[sched.last() as int]))
    }
}

/// Evaluating along any valid schedule computes the dense value at every
/// position the schedule reaches, and leaves every other position alone.
pub proof fn lemma_schedule_computes_dense<A: Arith>(
    a: A,
    row: Seq<(String, u64)>,
    nodes: Seq<NodeOp>,
    vals0: Seq<u64>,
    sched: Seq<usize>,
)
    requires
        wf_nodes(nodes),
        vals0.len() == nodes.len(),
        valid_schedule(nodes, sched),
    ensures
        eval_schedule(a, row, nodes, vals0, sched).len() == nodes.len(),
        forall|pos: usize|
            pos < nodes.len() && sched.contains(pos) ==> #[trigger] eval_schedule(
                a,
                row,
                nodes,
                vals0,
                sched,
            )[pos as int] == dense(a, row, nodes)[pos as int],
        forall|pos: usize|
            pos < nodes.len() && !sched.contains(pos) ==> #[trigger] eval_schedule(
                a,
                row,
                nodes,
                vals0,
                sched,
            )[pos as int] == vals0[pos as int],
    decreases sched.len(),
{
    if sched.len() > 0 {
        let sched0 = sched.drop_last();
        assert(valid_schedule(nodes, sched0)) by {
            assert forall|q: int, k: int|
                0 <= q < sched0.len() && 0 <= k < nodes[sched0[q] as int].spec_inputs().len()
                    implies #[trigger] appears_before(
                sched0,
                q,
                nodes[sched0[q] as int].spec_inputs()[k],
            ) by {
                assert(sched0[q] == sched[q]);
                assert(appears_before(sched, q, nodes[sched[q] as int].spec_inputs()[k]));
                let q2 = choose|q2: int|
                    0 <= q2 < q && sched[q2] == nodes[sched[q] as int].spec_inputs()[k];
                assert(sched0[q2] == nodes[sched0[q] as int].spec_inputs()[k]);
            }
        }
        lemma_schedule_computes_dense(a, row, nodes, vals0, sched0);
        let v = eval_schedule(a, row, nodes, vals0, sched0);
        let last = sched.last();
        let node = nodes[last as int];
        assert(last < nodes.len());
        lemma_dense_prefix_len(a, row, nodes, nodes.len());
        assert forall|k: int| 0 <= k < node.spec_inputs().len() implies v[(
        #[trigger] node.spec_inputs()[k]) as int] == dense(a, row, nodes)[node.spec_inputs()[k] as int]
        by {
            assert(appears_before(sched, sched.len() - 1, node.spec_inputs()[k]));
            let q2 = choose|q2: int|
                0 <= q2 < sched.len() - 1 && sched[q2] == node.spec_inputs()[k];
            assert(sched0[q2] == node.spec_inputs()[k]);
            assert(sched0.contains(node.spec_inputs()[k]));
            assert(node.spec_inputs()[k] < nodes.len());
        }
        lemma_node_value_frame(a, row, v, dense(a, row, nodes), node);
        lemma_dense_char(a, row, nodes, last as int);
        assert(node_value(a, row, v, node) == dense(a, row, nodes)[last as int]);
        assert forall|pos: usize|
            pos < nodes.len() && sched.contains(pos) implies #[trigger] eval_schedule(
            a,
            row,
            nodes,
            vals0,
            sched,
        )[pos as int] == dense(a, row, nodes)[pos as int] by {
            if pos != last {
                let q = choose|q: int| 0 <= q < sched.len() && sched[q] == pos;
                if q == sched.len() - 1 {
                    assert(sched[q] == last);
                }
                assert(q < sched.len() - 1);
                assert(sched0[q] == pos);
                assert(sched0.contains(pos));
            }
        }
        assert forall|pos: usize|
            pos < nodes.len() && !sched.contains(pos) implies #[trigger] eval_schedule(
            a,
            row,
            nodes,
            vals0,
            sched,
        )[pos as int] == vals0[pos as int] by {
            assert(pos != last) by {
                assert(sched[sched.len() - 1] == last);
            }
            assert(!sched0.contains(pos)) by {
                if sched0.contains(pos) {
                    let q = choose|q: int| 0 <= q < sched0.len() && sched0[q] == pos;
                    assert(sched[q] == pos);
                }
            }
        }
    }
}

/// Topological sufficiency: a valid schedule that reaches every node
/// computes exactly the dense sweep — evaluating in arena order and
/// evaluating in any other valid topological order produce the same
/// values, bit for bit.
pub proof fn lemma_topological_sufficiency<A: Arith>(
    a: A,
    row: Seq<(String, u64)>,
    nodes: Seq<NodeOp>,
    vals0: Seq<u64>,
    sched: Seq<usize>,
)
    requires
        wf_nodes(nodes),
        nodes.len() <= usize::MAX,
        vals0.len() == nodes.len(),
        valid_schedule(nodes, sched),
        forall|i: usize| i < nodes.len() ==> #[trigger] sched.contains(i),
    ensures
        eval_schedule(a, row, nodes, vals0, sched) == dense(a, row, nodes),
{
    lemma_schedule_computes_dense(a, row, nodes, vals0, sched);
    lemma_dense_prefix_len(a, row, nodes, nodes.len());
    assert forall|pos: int| 0 <= pos < nodes.len() implies eval_schedule(a, row, nodes, vals0, sched)[pos]
        == dense(a, row, nodes)[pos] by {
        let pu = pos as usize;
        assert(pu as int == pos);
        assert(sched.contains(pu));
        assert(eval_schedule(a, row, nodes, vals0, sched)[pu as int] == dense(a, row, nodes)[pu as int]);
    }
    assert(eval_schedule(a, row, nodes, vals0, sched) =~= dense(a, row, nodes));
}

/// The fixpoint property of the dense sweep: in a well-formed graph every
/// position holds exactly the value of its node over the dense values
/// themselves.
pub proof fn lemma_dense_char<A: Arith>(
    a: A,
    row: Seq<(String, u64)>,
    nodes: Seq<NodeOp>,
    i: int,
)
    requires
        wf_nodes(nodes),
        0 <= i < nodes.len(),
    ensures
        dense(a, row, nodes).len() == nodes.len(),
        dense(a, row, nodes)[i] == node_value(a, row, dense(a, row, nodes), nodes[i]),
{
    lemma_dense_prefix_len(a, row, nodes, nodes.len());
    lemma_dense_prefix_len(a, row, nodes, (i + 1) as nat);
    lemma_dense_prefix_len(a, row, nodes, i as nat);
    lemma_dense_prefix_agree(a, row, nodes, (i + 1) as nat, nodes.len());
    lemma_dense_prefix_agree(a, row, nodes, i as nat, (i + 1) as nat);
    lemma_dense_prefix_agree(a, row, nodes, i as nat, nodes.len());
    let p = dense_prefix(a, row, nodes, i as nat);
    assert(dense_prefix(a, row, nodes, (i + 1) as nat) == p.push(node_value(a, row, p, nodes[i])));
    assert(dense(a, row, nodes)[i] == node_value(a, row, p, nodes[i]));
    assert(wf_node_at(nodes[i], i));
    assert forall|k: int| 0 <= k < nodes[i].spec_inputs().len() implies p[
        (#[trigger] nodes[i].spec_inputs()[k]) as int
    ] == dense(a, row, nodes)[nodes[i].spec_inputs()[k] as int] by {
        assert(nodes[i].spec_inputs()[k] < i);
    }
    lemma_node_value_frame(a, row, p, dense(a, row, nodes), nodes[i]);
}

} // verus!
