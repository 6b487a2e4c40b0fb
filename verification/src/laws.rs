//! The laws of the evaluator, proved over the spec-level step model that
//! `Engine::evaluate_step` is pinned to. Each holds for every arithmetic,
//! every graph, every gating state and every row stream.

use vstd::prelude::*;

use crate::arith::Arith;
use crate::eval::{init_value, run_emitted, run_state, spec_emission, spec_step, StepState};
use crate::nodes::{wf_nodes, NodeOp};
use crate::sem::{dense, lemma_dense_char, lemma_related_dense, node_value};

verus! {

/// First-step emission: while nothing has been emitted yet, a designated
/// trigger always fires, whatever value it takes.
pub proof fn lemma_first_step_emits<A: Arith>(
    a: A,
    nodes: Seq<NodeOp>,
    t: usize,
    outs: Seq<usize>,
    st: StepState,
    row: Seq<(String, u64)>,
)
    requires
        st.last_trigger is None,
    ensures
        spec_emission(a, nodes, Some(t), outs, st, row) is Some,
{
}

/// Idempotence under repeated identical rows: whatever the step on `row`
/// emitted, stepping on the very same row again emits nothing.
pub proof fn lemma_repeated_row_emits_once<A: Arith>(
    a: A,
    nodes: Seq<NodeOp>,
    trig: Option<usize>,
    outs: Seq<usize>,
    st: StepState,
    row: Seq<(String, u64)>,
)
    ensures
        spec_emission(a, nodes, trig, outs, spec_step(a, nodes, trig, st, row), row) is None,
{
}

/// Determinism: the state reached and the records emitted are functions of
/// the arithmetic, the graph, the trigger, the outputs, the starting state
/// and the row stream — nothing else. Together with the contract of
/// `Engine::evaluate_step`, which pins the engine to this very model, two
/// engines over the same graph fed the same rows agree bit for bit.
pub proof fn lemma_deterministic<A: Arith>(
    a: A,
    nodes: Seq<NodeOp>,
    trig: Option<usize>,
    outs: Seq<usize>,
    st: StepState,
    rows1: Seq<Seq<(String, u64)>>,
    rows2: Seq<Seq<(String, u64)>>,
)
    requires
        rows1 == rows2,
    ensures
        run_state(a, nodes, trig, st, rows1) == run_state(a, nodes, trig, st, rows2),
        run_emitted(a, nodes, trig, outs, st, rows1) == run_emitted(a, nodes, trig, outs, st, rows2),
{
}

/// Emission gating: over any row stream, the emitted trigger values never
/// hold two consecutive equal values; the first emitted value differs from
/// the last value emitted before the stream began; and the gating state
/// always remembers the last emitted value.
pub proof fn lemma_emission_gating<A: Arith>(
    a: A,
    nodes: Seq<NodeOp>,
    trig: Option<usize>,
    outs: Seq<usize>,
    st: StepState,
    rows: Seq<Seq<(String, u64)>>,
)
    ensures
        ({
            let ems = run_emitted(a, nodes, trig, outs, st, rows);
            &&& (forall|k: int|
                0 <= k && k + 1 < ems.len() ==> (#[trigger] ems[k]).0 != ems[k + 1].0)
            &&& (ems.len() > 0 ==> (match st.last_trigger {
                Some(p) => ems[0].0 != p,
                None => true,
            }))
            &&& (ems.len() > 0 ==> run_state(a, nodes, trig, st, rows).last_trigger == Some(
                ems.last().0,
            ))
            &&& (ems.len() == 0 ==> run_state(a, nodes, trig, st, rows).last_trigger
                == st.last_trigger)
        }),
    decreases rows.len(),
{
    if rows.len() > 0 {
        lemma_emission_gating(a, nodes, trig, outs, st, rows.drop_last());
        let before = run_state(a, nodes, trig, st, rows.drop_last());
        let ems0 = run_emitted(a, nodes, trig, outs, st, rows.drop_last());
        let ems = run_emitted(a, nodes, trig, outs, st, rows);
        match spec_emission(a, nodes, trig, outs, before, rows.last()) {
            Some(e) => {
                assert(ems == ems0 + seq![e]);
                assert(ems.last() == e);
                assert forall|k: int| 0 <= k && k + 1 < ems.len() implies (#[trigger] ems[k]).0
                    != ems[k + 1].0 by {
                    if k + 1 < ems0.len() {
                        assert(ems[k] == ems0[k]);
                        assert(ems[k + 1] == ems0[k + 1]);
                    } else {
                        assert(k + 1 == ems0.len());
                        assert(ems[k + 1] == e);
                        if ems0.len() > 0 {
                            assert(ems[k] == ems0[k]);
                            assert(before.last_trigger == Some(ems0.last().0));
                        }
                    }
                }
                if ems0.len() == 0 {
                    assert(ems[0] == e);
                    assert(before.last_trigger == st.last_trigger);
                } else {
                    assert(ems[0] == ems0[0]);
                }
            },
            None => {
                assert(ems =~= ems0);
            },
        }
    }
}

/// Dedup correctness: when every node of one graph is, with operands sent
/// through `m`, exactly the node its image holds in a merged graph, and
/// the trigger and outputs are sent through `m` too, the two graphs emit
/// identical record sequences over any row stream, and their gating
/// states stay in lockstep.
pub proof fn lemma_dedup_preserves_emissions<A: Arith>(
    a: A,
    nodes1: Seq<NodeOp>,
    nodes2: Seq<NodeOp>,
    m: Seq<usize>,
    trig1: Option<usize>,
    trig2: Option<usize>,
    outs1: Seq<usize>,
    outs2: Seq<usize>,
    st1: StepState,
    st2: StepState,
    rows: Seq<Seq<(String, u64)>>,
)
    requires
        wf_nodes(nodes1),
        wf_nodes(nodes2),
        m.len() == nodes1.len(),
        forall|j: int| 0 <= j < nodes1.len() ==> (#[trigger] m[j]) < nodes2.len(),
        forall|j: int|
            0 <= j < nodes1.len() ==> crate::nodes::related_nodes(
                nodes1[j],
                nodes2[(#[trigger] m[j]) as int],
                m,
            ),
        (match trig1 {
            Some(t) => t < nodes1.len() && trig2 == Some(m[t as int]),
            None => trig2 is None,
        }),
        outs2 == outs1.map_values(|o: usize| m[o as int]),
        forall|k: int| 0 <= k < outs1.len() ==> (#[trigger] outs1[k]) < nodes1.len(),
        st1.last_trigger == st2.last_trigger,
    ensures
        run_emitted(a, nodes1, trig1, outs1, st1, rows) == run_emitted(
            a,
            nodes2,
            trig2,
            outs2,
            st2,
            rows,
        ),
        run_state(a, nodes1, trig1, st1, rows).last_trigger == run_state(
            a,
            nodes2,
            trig2,
            st2,
            rows,
        ).last_trigger,
    decreases rows.len(),
{
    if rows.len() > 0 {
        lemma_dedup_preserves_emissions(
            a,
            nodes1,
            nodes2,
            m,
            trig1,
            trig2,
            outs1,
            outs2,
            st1,
            st2,
            rows.drop_last(),
        );
        let b1 = run_state(a, nodes1, trig1, st1, rows.drop_last());
        let b2 = run_state(a, nodes2, trig2, st2, rows.drop_last());
        let row = rows.last();
        let d1 = dense(a, row, nodes1);
        let d2 = dense(a, row, nodes2);
        let e1 = spec_emission(a, nodes1, trig1, outs1, b1, row);
        let e2 = spec_emission(a, nodes2, trig2, outs2, b2, row);
        match trig1 {
            Some(t) => {
                lemma_related_dense(a, row, nodes1, nodes2, m, nodes1.len() - 1);
                assert(d1[t as int] == d2[m[t as int] as int]);
                assert(outs1.map_values(|o: usize| d1[o as int]) =~= outs2.map_values(
                    |o: usize| d2[o as int],
                )) by {
                    assert forall|k: int| 0 <= k < outs1.len() implies d1[(
                    #[trigger] outs1[k]) as int] == d2[outs2[k] as int] by {
                        assert(outs2[k] == m[outs1[k] as int]);
                    }
                }
                assert(e1 == e2);
            },
            None => {
                assert(e1 == e2);
            },
        }
        assert(run_emitted(a, nodes1, trig1, outs1, st1, rows) == run_emitted(
            a,
            nodes2,
            trig2,
            outs2,
            st2,
            rows,
        ));
    }
}

/// Constant stability over one step: a constant node's slot keeps its
/// constant, and on every step but the first its change flag stays clear.
pub proof fn lemma_constant_stable_step<A: Arith>(
    a: A,
    nodes: Seq<NodeOp>,
    trig: Option<usize>,
    st: StepState,
    row: Seq<(String, u64)>,
    c: int,
)
    requires
        wf_nodes(nodes),
        0 <= c < nodes.len(),
        nodes[c] is Constant,
        st.values.len() == nodes.len(),
        st.values[c] == init_value(nodes[c]),
    ensures
        spec_step(a, nodes, trig, st, row).values[c] == init_value(nodes[c]),
        !st.first ==> spec_step(a, nodes, trig, st, row).changed[c] == false,
{
    lemma_dense_char(a, row, nodes, c);
    assert(dense(a, row, nodes)[c] == node_value(a, row, dense(a, row, nodes), nodes[c]));
}

/// Constant stability over a whole run: across any row stream a constant
/// node's slot never moves, and once the first step is behind, its change
/// flag is clear after every step.
pub proof fn lemma_constant_stable_run<A: Arith>(
    a: A,
    nodes: Seq<NodeOp>,
    trig: Option<usize>,
    st: StepState,
    rows: Seq<Seq<(String, u64)>>,
    c: int,
)
    requires
        wf_nodes(nodes),
        0 <= c < nodes.len(),
        nodes[c] is Constant,
        st.values.len() == nodes.len(),
        st.values[c] == init_value(nodes[c]),
    ensures
        run_state(a, nodes, trig, st, rows).values[c] == init_value(nodes[c]),
        rows.len() >= 2 || (rows.len() == 1 && !st.first) ==> run_state(
            a,
            nodes,
            trig,
            st,
            rows,
        ).changed[c] == false,
    decreases rows.len(),
{
    if rows.len() > 0 {
        lemma_constant_stable_run(a, nodes, trig, st, rows.drop_last(), c);
        let before = run_state(a, nodes, trig, st, rows.drop_last());
        crate::sem::lemma_dense_prefix_len(a, rows.last(), nodes, nodes.len());
        if rows.len() >= 2 {
            crate::sem::lemma_dense_prefix_len(a, rows.drop_last().last(), nodes, nodes.len());
            assert(before.values.len() == nodes.len());
            assert(!before.first);
        }
        lemma_constant_stable_step(a, nodes, trig, before, rows.last(), c);
    }
}

} // verus!
