//! The linker: from identity-based node specifications to a deduplicated,
//! topologically ordered arena.
//!
//! Specifications name each other by stable string identities, in any
//! declaration order. The linker assigns dense indices so that every
//! operand stands strictly below its consumer (ties broken by declaration
//! order), resolves every reference, merges structurally identical nodes
//! into one, and rejects unknown kinds, unknown references, cycles, arity
//! mismatches and missing parameters.

use vstd::prelude::*;

use crate::arena::ArenaGraph;
use crate::nodes::{
    node_eq_spec, related_nodes, rewrite_node, same_node, wf_node_at, wf_nodes, NodeOp,
};
use crate::specs::{build_arena_node, builds_to, spec_field, ArenaNode, FieldValue, LinkError};

verus! {

/// Some input index is sent to position `t` by the map.
pub open spec fn remap_covers(remap: Seq<usize>, t: int) -> bool {
    exists|i: int| 0 <= i < remap.len() && (#[trigger] remap[i]) == t
}

/// Merge structurally identical nodes: keep the first occurrence of every
/// distinct node, and send every index through the returned map.
///
/// The result holds no two structurally identical nodes, stays
/// topologically well-formed, every node given is, after its operands
/// are sent through the map, exactly the node its image holds, and every
/// kept node is the image of some input position.
pub fn dedup_nodes(nodes: &Vec<NodeOp>) -> (r: (Vec<NodeOp>, Vec<usize>))
    requires
        wf_nodes(nodes@),
    ensures
        r.1@.len() == nodes@.len(),
        r.0@.len() <= nodes@.len(),
        wf_nodes(r.0@),
        forall|i: int| 0 <= i < nodes@.len() ==> (#[trigger] r.1@[i]) < r.0@.len(),
        forall|i: int|
            0 <= i < nodes@.len() ==> related_nodes(nodes@[i], r.0@[(#[trigger] r.1@[i]) as int], r.1@),
        forall|t1: int, t2: int|
            0 <= t1 < t2 < r.0@.len() ==> !node_eq_spec(r.0@[t1], r.0@[t2]),
        forall|t: int| 0 <= t < r.0@.len() ==> #[trigger] remap_covers(r.1@, t),
{
    let n = nodes.len();
    let mut compact: Vec<NodeOp> = Vec::new();
    let mut remap: Vec<usize> = Vec::new();
    let mut i: usize = 0;
    while i < n
        invariant
            i <= n,
            n == nodes@.len(),
            wf_nodes(nodes@),
            remap@.len() == i,
            compact@.len() <= i,
            wf_nodes(compact@),
            forall|j: int| 0 <= j < i ==> (#[trigger] remap@[j]) < compact@.len(),
            forall|j: int|
                0 <= j < i ==> related_nodes(
                    nodes@[j],
                    compact@[(#[trigger] remap@[j]) as int],
                    remap@,
                ),
            forall|t1: int, t2: int|
                0 <= t1 < t2 < compact@.len() ==> !node_eq_spec(compact@[t1], compact@[t2]),
            forall|t: int| 0 <= t < compact@.len() ==> #[trigger] remap_covers(remap@, t),
        decreases n - i,
    {
        let ghost remap0 = remap@;
        let ghost compact0 = compact@;
        proof {
            assert(wf_node_at(nodes@[i as int], i as int));
        }
        let rewritten = rewrite_node(&nodes[i], &remap);
        proof {
            assert forall|k: int|
                0 <= k < rewritten.spec_inputs().len() implies (
            #[trigger] rewritten.spec_inputs()[k]) < compact@.len() by {
                let a_ins = nodes@[i as int].spec_inputs();
                assert(rewritten.spec_inputs()[k] == remap@[a_ins[k] as int]);
            }
        }
        let mut found: Option<usize> = None;
        let mut t: usize = 0;
        while t < compact.len()
            invariant
                t <= compact@.len(),
                match found {
                    Some(f) => f < compact@.len() && node_eq_spec(
                        compact@[f as int],
                        rewritten,
                    ),
                    None => forall|u: int|
                        0 <= u < t ==> !node_eq_spec(#[trigger] compact@[u], rewritten),
                },
            decreases compact@.len() - t,
        {
            if found.is_none() && same_node(&compact[t], &rewritten) {
                found = Some(t);
            }
            t = t + 1;
        }
        match found {
            Some(f) => {
                remap.push(f);
            },
            None => {
                let pos = compact.len();
                remap.push(pos);
                proof {
                    assert(wf_node_at(rewritten, pos as int));
                    assert forall|j: int| 0 <= j < compact@.len() + 1 implies wf_node_at(
                        #[trigger] compact@.push(rewritten)[j],
                        j,
                    ) by {
                        if j < compact@.len() {
                            assert(compact@.push(rewritten)[j] == compact@[j]);
                        } else {
                            assert(compact@.push(rewritten)[j] == rewritten);
                        }
                    }
                }
                compact.push(rewritten);
            },
        }
        proof {
            assert forall|t: int| 0 <= t < compact@.len() implies #[trigger] remap_covers(
                remap@,
                t,
            ) by {
                if t < compact0.len() {
                    assert(remap_covers(remap0, t));
                    let j0 = choose|j0: int| 0 <= j0 < remap0.len() && (#[trigger] remap0[j0]) == t;
                    assert(remap@[j0] == t);
                } else {
                    assert(remap@[i as int] == t);
                }
            }
            assert forall|j: int| 0 <= j < i + 1 implies related_nodes(
                nodes@[j],
                compact@[(#[trigger] remap@[j]) as int],
                remap@,
            ) by {
                let a = nodes@[j];
                if j < i {
                    assert(remap@[j] == remap0[j]);
                    assert(compact@[remap0[j] as int] == compact0[remap0[j] as int]);
                    assert(related_nodes(a, compact0[remap0[j] as int], remap0));
                    assert(wf_node_at(a, j));
                    assert(a.spec_inputs().map_values(|x: usize| remap0[x as int]) =~= a.spec_inputs().map_values(
                        |x: usize| remap@[x as int],
                    )) by {
                        assert forall|k: int| 0 <= k < a.spec_inputs().len() implies remap0[(
                        #[trigger] a.spec_inputs()[k]) as int] == remap@[a.spec_inputs()[k] as int] by {
                            assert(a.spec_inputs()[k] < j);
                        }
                    }
                } else {
                    assert(remap@[j] == remap@.last());
                    let a_ins = a.spec_inputs();
                    assert(a.spec_inputs().map_values(|x: usize| remap0[x as int]) =~= a.spec_inputs().map_values(
                        |x: usize| remap@[x as int],
                    )) by {
                        assert forall|k: int| 0 <= k < a_ins.len() implies remap0[(
                        #[trigger] a_ins[k]) as int] == remap@[a_ins[k] as int] by {
                            assert(a_ins[k] < i);
                        }
                    }
                    assert(related_nodes(a, rewritten, remap0));
                }
            }
        }
        i = i + 1;
    }
    (compact, remap)
}

/// The value of one named parameter of an unlinked node specification:
/// references name other specifications by their stable identities.
#[derive(Debug)]
pub enum ParamValue {
    /// One operand reference, by identity.
    Ref(String),
    /// An ordered list of operand references, by identity.
    Refs(Vec<String>),
    /// A scalar parameter: the 64-bit pattern of a double.
    Num(u64),
    /// A textual parameter.
    Text(String),
}

/// One node specification as handed to the linker: a stable identity, a
/// kind tag, and named per-kind parameters.
#[derive(Debug)]
pub struct NodeSpec {
    pub id: String,
    pub kind: String,
    pub params: Vec<(String, ParamValue)>,
}

/// A linked graph: the arena, and for every specification the arena index
/// its identity was assigned.
pub struct Linked {
    pub graph: ArenaGraph,
    pub assignment: Vec<(String, usize)>,
}

/// The first specification at or after `i` whose identity is `id`.
pub open spec fn spec_find_from(specs: Seq<NodeSpec>, id: Seq<char>, i: int) -> Option<int>
    decreases specs.len() - i,
{
    if i < 0 || i >= specs.len() {
        None
    } else if specs[i].id@ == id {
        Some(i)
    } else {
        spec_find_from(specs, id, i + 1)
    }
}

/// The specification an identity denotes: the first one declared with it.
pub open spec fn spec_find(specs: Seq<NodeSpec>, id: Seq<char>) -> Option<int> {
    spec_find_from(specs, id, 0)
}

/// Find the specification an identity denotes; the earliest declaration
/// wins.
pub fn find_spec(specs: &Vec<NodeSpec>, id: &String) -> (r: Option<usize>)
    ensures
        match r {
            Some(s) => spec_find(specs@, id@) == Some(s as int) && s < specs@.len(),
            None => spec_find(specs@, id@) is None,
        },
{
    let n = specs.len();
    let mut i: usize = 0;
    while i < n
        invariant
            i <= n,
            n == specs@.len(),
            spec_find(specs@, id@) == spec_find_from(specs@, id@, i as int),
        decreases n - i,
    {
        if specs[i].id == *id {
            return Some(i);
        }
        i = i + 1;
    }
    None
}

/// The identity `rid` resolves, and the specification it denotes already
/// holds a position strictly below `q`.
pub open spec fn ref_assigned_below(
    specs: Seq<NodeSpec>,
    pos_of: Seq<Option<usize>>,
    rid: Seq<char>,
    q: int,
) -> bool {
    match spec_find(specs, rid) {
        Some(s2) => 0 <= s2 < pos_of.len() && (match pos_of[s2] {
            Some(p2) => p2 < q,
            None => false,
        }),
        None => false,
    }
}

/// Every reference parameter of specification `s` resolves to a
/// specification already assigned a position strictly below `q`.
pub open spec fn refs_assigned_below(
    specs: Seq<NodeSpec>,
    pos_of: Seq<Option<usize>>,
    s: int,
    q: int,
) -> bool {
    forall|k: int|
        0 <= k < specs[s].params@.len() ==> (match (#[trigger] specs[s].params@[k]).1 {
            ParamValue::Ref(rid) => ref_assigned_below(specs, pos_of, rid@, q),
            ParamValue::Refs(rids) => forall|e: int|
                0 <= e < rids@.len() ==> ref_assigned_below(
                    specs,
                    pos_of,
                    (#[trigger] rids@[e])@,
                    q,
                ),
            ParamValue::Num(_) => true,
            ParamValue::Text(_) => true,
        })
}

/// One parameter of a specification references the specification `s2`.
pub open spec fn param_references(specs: Seq<NodeSpec>, p: ParamValue, s2: int) -> bool {
    match p {
        ParamValue::Ref(rid) => spec_find(specs, rid@) == Some(s2),
        ParamValue::Refs(rids) => exists|e: int|
            0 <= e < rids@.len() && spec_find(specs, (#[trigger] rids@[e])@) == Some(s2),
        ParamValue::Num(_) => false,
        ParamValue::Text(_) => false,
    }
}

/// Specification `s` references specification `s2`: some parameter names
/// an identity that `s2` is the first declaration of.
pub open spec fn references(specs: Seq<NodeSpec>, s: int, s2: int) -> bool {
    exists|k: int|
        0 <= k < specs[s].params@.len() && param_references(
            specs,
            (#[trigger] specs[s].params@[k]).1,
            s2,
        )
}

/// Every edge of the reference relation strictly decreases `rank`.
pub open spec fn rank_ok(specs: Seq<NodeSpec>, rank: Map<int, nat>) -> bool {
    forall|s: int, s2: int|
        0 <= s < specs.len() && 0 <= s2 < specs.len() && #[trigger] references(specs, s, s2)
            ==> rank[s2] < rank[s]
}

/// The reference relation is free of cycles: some rank strictly
/// decreases along every reference.
pub open spec fn acyclic(specs: Seq<NodeSpec>) -> bool {
    exists|rank: Map<int, nat>| #[trigger] rank_ok(specs, rank)
}

/// One parameter's references all resolve to declared identities.
pub open spec fn param_resolves(specs: Seq<NodeSpec>, p: ParamValue) -> bool {
    match p {
        ParamValue::Ref(rid) => spec_find(specs, rid@) is Some,
        ParamValue::Refs(rids) => forall|e: int|
            0 <= e < rids@.len() ==> spec_find(specs, (#[trigger] rids@[e])@) is Some,
        ParamValue::Num(_) => true,
        ParamValue::Text(_) => true,
    }
}

/// Every identity referenced anywhere is declared.
pub open spec fn refs_resolve(specs: Seq<NodeSpec>) -> bool {
    forall|s: int, k: int|
        0 <= s < specs.len() && 0 <= k < specs[s].params@.len() ==> param_resolves(
            specs,
            (#[trigger] specs[s].params@[k]).1,
        )
}

/// One parameter references a specification that still has no position.
pub open spec fn param_unassigned_ref(
    specs: Seq<NodeSpec>,
    pos_of: Seq<Option<usize>>,
    p: ParamValue,
) -> bool {
    match p {
        ParamValue::Ref(rid) => (match spec_find(specs, rid@) {
            Some(s2) => 0 <= s2 < pos_of.len() && pos_of[s2] is None,
            None => false,
        }),
        ParamValue::Refs(rids) => exists|e: int|
            0 <= e < rids@.len() && (match spec_find(specs, (#[trigger] rids@[e])@) {
                Some(s2) => 0 <= s2 < pos_of.len() && pos_of[s2] is None,
                None => false,
            }),
        ParamValue::Num(_) => false,
        ParamValue::Text(_) => false,
    }
}

/// The specification references another that still has no position.
pub open spec fn has_unassigned_ref(
    specs: Seq<NodeSpec>,
    pos_of: Seq<Option<usize>>,
    s: int,
) -> bool {
    exists|k: int|
        0 <= k < specs[s].params@.len() && param_unassigned_ref(
            specs,
            pos_of,
            (#[trigger] specs[s].params@[k]).1,
        )
}

/// When every unassigned specification references an unassigned one, no
/// rank can decrease along every reference: the stuck set is a cycle.
proof fn lemma_stuck_refutes_rank(
    specs: Seq<NodeSpec>,
    pos_of: Seq<Option<usize>>,
    rank: Map<int, nat>,
    s: int,
)
    requires
        pos_of.len() == specs.len(),
        0 <= s < specs.len(),
        pos_of[s] is None,
        forall|s1: int|
            0 <= s1 < specs.len() && (#[trigger] pos_of[s1]) is None ==> has_unassigned_ref(
                specs,
                pos_of,
                s1,
            ),
    ensures
        !rank_ok(specs, rank),
    decreases rank[s],
{
    if rank_ok(specs, rank) {
        assert(has_unassigned_ref(specs, pos_of, s));
        let k = choose|k: int|
            0 <= k < specs[s].params@.len() && param_unassigned_ref(
                specs,
                pos_of,
                (#[trigger] specs[s].params@[k]).1,
            );
        let p = specs[s].params@[k].1;
        match p {
            ParamValue::Ref(rid) => {
                match spec_find(specs, rid@) {
                    Some(s2) => {
                        assert(param_references(specs, p, s2));
                        assert(references(specs, s, s2));
                        assert(rank[s2] < rank[s]);
                        lemma_stuck_refutes_rank(specs, pos_of, rank, s2);
                    },
                    None => {
                        assert(false);
                    },
                }
            },
            ParamValue::Refs(rids) => {
                let e = choose|e: int|
                    0 <= e < rids@.len() && (match spec_find(specs, (#[trigger] rids@[e])@) {
                        Some(s2) => 0 <= s2 < pos_of.len() && pos_of[s2] is None,
                        None => false,
                    });
                match spec_find(specs, rids@[e]@) {
                    Some(s2) => {
                        assert(param_references(specs, p, s2));
                        assert(references(specs, s, s2));
                        assert(rank[s2] < rank[s]);
                        lemma_stuck_refutes_rank(specs, pos_of, rank, s2);
                    },
                    None => {
                        assert(false);
                    },
                }
            },
            ParamValue::Num(_) => {
                assert(false);
            },
            ParamValue::Text(_) => {
                assert(false);
            },
        }
    }
}

/// How many of the first `m` positions are still unassigned.
pub open spec fn unassigned_below(pos_of: Seq<Option<usize>>, m: int) -> nat
    decreases m,
{
    if m <= 0 {
        0
    } else {
        unassigned_below(pos_of, m - 1) + (if pos_of[m - 1] is None {
            1nat
        } else {
            0nat
        })
    }
}

/// Sequences that agree below `m` count the same.
proof fn lemma_unassigned_agree(a: Seq<Option<usize>>, b: Seq<Option<usize>>, m: int)
    requires
        forall|i: int| 0 <= i < m ==> a[i] == b[i],
    ensures
        unassigned_below(a, m) == unassigned_below(b, m),
    decreases m,
{
    if m > 0 {
        lemma_unassigned_agree(a, b, m - 1);
    }
}

/// Assigning one unassigned position lowers the count by one.
proof fn lemma_unassigned_update(pos_of: Seq<Option<usize>>, m: int, j: int, p: usize)
    requires
        0 <= j < m <= pos_of.len(),
        pos_of[j] is None,
    ensures
        unassigned_below(pos_of.update(j, Some(p)), m) == unassigned_below(pos_of, m) - 1,
    decreases m,
{
    let upd = pos_of.update(j, Some(p));
    if j == m - 1 {
        lemma_unassigned_agree(pos_of, upd, m - 1);
    } else {
        lemma_unassigned_update(pos_of, m - 1, j, p);
    }
}

/// A count of zero leaves nothing unassigned.
proof fn lemma_unassigned_zero(pos_of: Seq<Option<usize>>, m: int)
    requires
        unassigned_below(pos_of, m) == 0,
    ensures
        forall|j: int| 0 <= j < m ==> !((#[trigger] pos_of[j]) is None),
    decreases m,
{
    if m > 0 {
        lemma_unassigned_zero(pos_of, m - 1);
    }
}

/// An unassigned position keeps the count positive.
proof fn lemma_unassigned_pos(pos_of: Seq<Option<usize>>, m: int, j: int)
    requires
        0 <= j < m,
        pos_of[j] is None,
    ensures
        unassigned_below(pos_of, m) > 0,
    decreases m,
{
    if j < m - 1 {
        lemma_unassigned_pos(pos_of, m - 1, j);
    }
}

/// A fully unassigned prefix counts its whole length.
proof fn lemma_unassigned_full(pos_of: Seq<Option<usize>>, m: int)
    requires
        0 <= m,
        forall|j: int| 0 <= j < m ==> (#[trigger] pos_of[j]) is None,
    ensures
        unassigned_below(pos_of, m) == m,
    decreases m,
{
    if m > 0 {
        lemma_unassigned_full(pos_of, m - 1);
    }
}

/// A fully assigned prefix counts zero.
proof fn lemma_unassigned_all_some(pos_of: Seq<Option<usize>>, m: int)
    requires
        forall|j: int| 0 <= j < m ==> !((#[trigger] pos_of[j]) is None),
    ensures
        unassigned_below(pos_of, m) == 0,
    decreases m,
{
    if m > 0 {
        lemma_unassigned_all_some(pos_of, m - 1);
    }
}

/// References assigned below `q` stay assigned below `q` when further
/// positions are handed out.
proof fn lemma_refs_assigned_below_stable(
    specs: Seq<NodeSpec>,
    old_pos: Seq<Option<usize>>,
    new_pos: Seq<Option<usize>>,
    s: int,
    q: int,
)
    requires
        old_pos.len() == new_pos.len(),
        forall|j: int|
            0 <= j < old_pos.len() && (#[trigger] old_pos[j]) is Some ==> new_pos[j] == old_pos[j],
        refs_assigned_below(specs, old_pos, s, q),
    ensures
        refs_assigned_below(specs, new_pos, s, q),
{
    assert forall|k: int|
        0 <= k < specs[s].params@.len() implies (match (#[trigger] specs[s].params@[k]).1 {
        ParamValue::Ref(rid) => ref_assigned_below(specs, new_pos, rid@, q),
        ParamValue::Refs(rids) => forall|e: int|
            0 <= e < rids@.len() ==> ref_assigned_below(specs, new_pos, (#[trigger] rids@[e])@, q),
        ParamValue::Num(_) => true,
        ParamValue::Text(_) => true,
    }) by {
        match specs[s].params@[k].1 {
            ParamValue::Ref(rid) => {
                assert(ref_assigned_below(specs, old_pos, rid@, q));
            },
            ParamValue::Refs(rids) => {
                assert forall|e: int| 0 <= e < rids@.len() implies ref_assigned_below(
                    specs,
                    new_pos,
                    (#[trigger] rids@[e])@,
                    q,
                ) by {
                    assert(ref_assigned_below(specs, old_pos, rids@[e]@, q));
                }
            },
            ParamValue::Num(_) => {},
            ParamValue::Text(_) => {},
        }
    }
}

/// The trigger identity and every output identity are declared.
pub open spec fn roots_resolve(
    specs: Seq<NodeSpec>,
    trigger: Option<String>,
    outputs: Seq<String>,
) -> bool {
    &&& (match trigger {
        Some(t) => spec_find(specs, t@) is Some,
        None => true,
    })
    &&& (forall|k: int|
        0 <= k < outputs.len() ==> spec_find(specs, (#[trigger] outputs[k])@) is Some)
}

/// Some declared identity is assigned the arena index `t`.
pub open spec fn assignment_covers(assignment: Seq<(String, usize)>, t: int) -> bool {
    exists|k: int| 0 <= k < assignment.len() && (#[trigger] assignment[k]).1 == t
}

/// The binding of `name` among unlinked parameters: the latest entry wins.
pub open spec fn spec_param(params: Seq<(String, ParamValue)>, name: Seq<char>) -> Option<
    ParamValue,
>
    decreases params.len(),
{
    if params.len() == 0 {
        None
    } else if params.last().0@ == name {
        Some(params.last().1)
    } else {
        spec_param(params.drop_last(), name)
    }
}

/// A resolved field is exactly what its parameter prescribes: every
/// reference becomes the assigned position of the specification its
/// identity denotes, and scalars and texts are carried unchanged.
pub open spec fn field_resolves(
    specs: Seq<NodeSpec>,
    pos_of: Seq<Option<usize>>,
    p: ParamValue,
    f: FieldValue,
) -> bool {
    match p {
        ParamValue::Ref(rid) => (match f {
            FieldValue::One(x) => (match spec_find(specs, rid@) {
                Some(s2) => 0 <= s2 < pos_of.len() && pos_of[s2] == Some(x),
                None => false,
            }),
            _ => false,
        }),
        ParamValue::Refs(rids) => (match f {
            FieldValue::Many(m) => m@.len() == rids@.len() && (forall|e: int|
                0 <= e < rids@.len() ==> (match spec_find(specs, (#[trigger] rids@[e])@) {
                    Some(s2) => 0 <= s2 < pos_of.len() && pos_of[s2] == Some(m@[e]),
                    None => false,
                })),
            _ => false,
        }),
        ParamValue::Num(x) => (match f {
            FieldValue::Num(y) => x == y,
            _ => false,
        }),
        ParamValue::Text(t) => (match f {
            FieldValue::Text(u) => u@ == t@,
            _ => false,
        }),
    }
}

/// Every name is bound among the resolved fields exactly as it is bound
/// among the parameters, references resolved through the assignment.
pub open spec fn params_resolve(
    specs: Seq<NodeSpec>,
    pos_of: Seq<Option<usize>>,
    params: Seq<(String, ParamValue)>,
    fields: Seq<(String, FieldValue)>,
) -> bool {
    forall|nm: Seq<char>|
        match (#[trigger] spec_param(params, nm), spec_field(fields, nm)) {
            (Some(p), Some(f)) => field_resolves(specs, pos_of, p, f),
            (None, None) => true,
            _ => false,
        }
}

/// Whether a specification carries everything its kind requires: a known
/// kind, operands of the right arity, and every scalar parameter present
/// with the right type. Together with resolvable references and roots,
/// exactly the inputs on which linking succeeds.
pub open spec fn spec_buildable(sp: NodeSpec) -> bool {
    if sp.kind@ == "Input"@ {
        match spec_param(sp.params@, "name"@) {
            Some(ParamValue::Text(_)) => true,
            _ => false,
        }
    } else if sp.kind@ == "Constant"@ {
        match spec_param(sp.params@, "value"@) {
            Some(ParamValue::Num(_)) => true,
            _ => false,
        }
    } else if sp.kind@ == "Add"@ || sp.kind@ == "Multiply"@ {
        match spec_param(sp.params@, "inputs"@) {
            Some(ParamValue::Refs(_)) => true,
            _ => false,
        }
    } else if sp.kind@ == "Divide"@ || sp.kind@ == "Power"@ {
        match spec_param(sp.params@, "inputs"@) {
            Some(ParamValue::Refs(rids)) => rids@.len() == 2,
            _ => false,
        }
    } else if sp.kind@ == "Compare"@ {
        (match spec_param(sp.params@, "inputs"@) {
            Some(ParamValue::Refs(rids)) => rids@.len() == 2,
            _ => false,
        }) && (match spec_param(sp.params@, "op"@) {
            Some(ParamValue::Text(t)) => crate::specs::op_of_text(t@) is Some,
            _ => false,
        })
    } else if sp.kind@ == "ScaleByK"@ {
        (match spec_param(sp.params@, "inputs"@) {
            Some(ParamValue::Refs(rids)) => rids@.len() == 1,
            _ => false,
        }) && (match spec_param(sp.params@, "k"@) {
            Some(ParamValue::Num(_)) => true,
            _ => false,
        })
    } else {
        false
    }
}

/// The operand indices `ops` are exactly the identities a `Refs`
/// parameter lists, each resolved through `amap`.
pub open spec fn refs_map_to(
    specs: Seq<NodeSpec>,
    amap: Seq<usize>,
    p: Option<ParamValue>,
    ops: Seq<usize>,
) -> bool {
    match p {
        Some(ParamValue::Refs(rids)) => ops.len() == rids@.len() && (forall|e: int|
            0 <= e < rids@.len() ==> (match spec_find(specs, (#[trigger] rids@[e])@) {
                Some(s2) => 0 <= s2 < amap.len() && ops[e] == amap[s2],
                None => false,
            })),
        _ => false,
    }
}

/// `n` is exactly the node that specification `sp` describes, every
/// operand reference resolved through `amap`, the map sending each
/// specification index to its final arena index.
pub open spec fn spec_describes(
    specs: Seq<NodeSpec>,
    amap: Seq<usize>,
    sp: NodeSpec,
    n: NodeOp,
) -> bool {
    match n {
        NodeOp::Input { name } => sp.kind@ == "Input"@ && (match spec_param(sp.params@, "name"@) {
            Some(ParamValue::Text(t)) => t@ == name@,
            _ => false,
        }),
        NodeOp::Constant { value } => sp.kind@ == "Constant"@ && (match spec_param(
            sp.params@,
            "value"@,
        ) {
            Some(ParamValue::Num(x)) => x == value,
            _ => false,
        }),
        NodeOp::Add { inputs } => sp.kind@ == "Add"@ && refs_map_to(
            specs,
            amap,
            spec_param(sp.params@, "inputs"@),
            inputs@,
        ),
        NodeOp::Multiply { inputs } => sp.kind@ == "Multiply"@ && refs_map_to(
            specs,
            amap,
            spec_param(sp.params@, "inputs"@),
            inputs@,
        ),
        NodeOp::Divide { left, right } => sp.kind@ == "Divide"@ && refs_map_to(
            specs,
            amap,
            spec_param(sp.params@, "inputs"@),
            seq![left, right],
        ),
        NodeOp::Compare { left, right, op } => sp.kind@ == "Compare"@ && refs_map_to(
            specs,
            amap,
            spec_param(sp.params@, "inputs"@),
            seq![left, right],
        ) && (match spec_param(sp.params@, "op"@) {
            Some(ParamValue::Text(t)) => crate::specs::op_of_text(t@) == Some(op),
            _ => false,
        }),
        NodeOp::Power { base, exp } => sp.kind@ == "Power"@ && refs_map_to(
            specs,
            amap,
            spec_param(sp.params@, "inputs"@),
            seq![base, exp],
        ),
        NodeOp::ScaleByK { input, k } => sp.kind@ == "ScaleByK"@ && refs_map_to(
            specs,
            amap,
            spec_param(sp.params@, "inputs"@),
            seq![input],
        ) && (match spec_param(sp.params@, "k"@) {
            Some(ParamValue::Num(x)) => x == k,
            _ => false,
        }),
    }
}

/// Composing the three verified stages: when a description resolves a
/// specification's parameters through the position assignment, a node is
/// built from that description, and the merge sends it through `remap`,
/// then the merged node is exactly what the specification describes
/// under the final assignment `amap`.
proof fn lemma_describes_composed(
    specs: Seq<NodeSpec>,
    pos_of: Seq<Option<usize>>,
    remap: Seq<usize>,
    amap: Seq<usize>,
    sp: NodeSpec,
    an: ArenaNode,
    n1: NodeOp,
    n2: NodeOp,
)
    requires
        an.tag@ == sp.kind@,
        params_resolve(specs, pos_of, sp.params@, an.fields@),
        builds_to(an, n1),
        related_nodes(n1, n2, remap),
        amap.len() == pos_of.len(),
        forall|s2: int|
            0 <= s2 < pos_of.len() ==> (match #[trigger] pos_of[s2] {
                Some(p) => 0 <= p < remap.len() && amap[s2] == remap[p as int],
                None => true,
            }),
    ensures
        spec_describes(specs, amap, sp, n2),
{
    let f = |x: usize| remap[x as int];
    match n1 {
        NodeOp::Input { name } => {
            assert(spec_param(sp.params@, "name"@) is Some);
            match n2 {
                NodeOp::Input { .. } => {},
                _ => {
                    assert(false);
                },
            }
        },
        NodeOp::Constant { value } => {
            assert(spec_param(sp.params@, "value"@) is Some);
            match n2 {
                NodeOp::Constant { .. } => {},
                _ => {
                    assert(false);
                },
            }
        },
        NodeOp::Add { inputs } => {
            assert(n1.spec_inputs() == inputs@);
            match spec_param(sp.params@, "inputs"@) {
                Some(ParamValue::Refs(rids)) => {
                    match n2 {
                        NodeOp::Add { inputs: inputs2 } => {
                            assert(inputs2@ == inputs@.map_values(f));
                            assert forall|e: int| 0 <= e < rids@.len() implies (match spec_find(
                                specs,
                                (#[trigger] rids@[e])@,
                            ) {
                                Some(s2) => 0 <= s2 < amap.len() && inputs2@[e] == amap[s2],
                                None => false,
                            }) by {
                                assert(inputs2@[e] == remap[inputs@[e] as int]);
                            }
                        },
                        _ => {
                            assert(false);
                        },
                    }
                },
                _ => {
                    assert(false);
                },
            }
        },
        NodeOp::Multiply { inputs } => {
            assert(n1.spec_inputs() == inputs@);
            match spec_param(sp.params@, "inputs"@) {
                Some(ParamValue::Refs(rids)) => {
                    match n2 {
                        NodeOp::Multiply { inputs: inputs2 } => {
                            assert(inputs2@ == inputs@.map_values(f));
                            assert forall|e: int| 0 <= e < rids@.len() implies (match spec_find(
                                specs,
                                (#[trigger] rids@[e])@,
                            ) {
                                Some(s2) => 0 <= s2 < amap.len() && inputs2@[e] == amap[s2],
                                None => false,
                            }) by {
                                assert(inputs2@[e] == remap[inputs@[e] as int]);
                            }
                        },
                        _ => {
                            assert(false);
                        },
                    }
                },
                _ => {
                    assert(false);
                },
            }
        },
        NodeOp::Divide { left, right } => {
            assert(n1.spec_inputs() =~= seq![left, right]);
            match spec_param(sp.params@, "inputs"@) {
                Some(ParamValue::Refs(rids)) => {
                    match n2 {
                        NodeOp::Divide { left: l2, right: r2 } => {
                            assert(n2.spec_inputs() =~= seq![l2, r2]);
                            assert(l2 == n1.spec_inputs().map_values(f)[0]);
                            assert(r2 == n1.spec_inputs().map_values(f)[1]);
                            assert forall|e: int| 0 <= e < rids@.len() implies (match spec_find(
                                specs,
                                (#[trigger] rids@[e])@,
                            ) {
                                Some(s2) => 0 <= s2 < amap.len() && seq![l2, r2][e] == amap[s2],
                                None => false,
                            }) by {
                                assert(seq![l2, r2][e] == remap[seq![left, right][e] as int]);
                            }
                        },
                        _ => {
                            assert(false);
                        },
                    }
                },
                _ => {
                    assert(false);
                },
            }
        },
        NodeOp::Compare { left, right, op } => {
            assert(n1.spec_inputs() =~= seq![left, right]);
            assert(spec_param(sp.params@, "op"@) is Some);
            match spec_param(sp.params@, "inputs"@) {
                Some(ParamValue::Refs(rids)) => {
                    match n2 {
                        NodeOp::Compare { left: l2, right: r2, op: o2 } => {
                            assert(n2.spec_inputs() =~= seq![l2, r2]);
                            assert(l2 == n1.spec_inputs().map_values(f)[0]);
                            assert(r2 == n1.spec_inputs().map_values(f)[1]);
                            assert forall|e: int| 0 <= e < rids@.len() implies (match spec_find(
                                specs,
                                (#[trigger] rids@[e])@,
                            ) {
                                Some(s2) => 0 <= s2 < amap.len() && seq![l2, r2][e] == amap[s2],
                                None => false,
                            }) by {
                                assert(seq![l2, r2][e] == remap[seq![left, right][e] as int]);
                            }
                        },
                        _ => {
                            assert(false);
                        },
                    }
                },
                _ => {
                    assert(false);
                },
            }
        },
        NodeOp::Power { base, exp } => {
            assert(n1.spec_inputs() =~= seq![base, exp]);
            match spec_param(sp.params@, "inputs"@) {
                Some(ParamValue::Refs(rids)) => {
                    match n2 {
                        NodeOp::Power { base: b2, exp: e2 } => {
                            assert(n2.spec_inputs() =~= seq![b2, e2]);
                            assert(b2 == n1.spec_inputs().map_values(f)[0]);
                            assert(e2 == n1.spec_inputs().map_values(f)[1]);
                            assert forall|e3: int| 0 <= e3 < rids@.len() implies (match spec_find(
                                specs,
                                (#[trigger] rids@[e3])@,
                            ) {
                                Some(s2) => 0 <= s2 < amap.len() && seq![b2, e2][e3] == amap[s2],
                                None => false,
                            }) by {
                                assert(seq![b2, e2][e3] == remap[seq![base, exp][e3] as int]);
                            }
                        },
                        _ => {
                            assert(false);
                        },
                    }
                },
                _ => {
                    assert(false);
                },
            }
        },
        NodeOp::ScaleByK { input, k } => {
            assert(n1.spec_inputs() =~= seq![input]);
            assert(spec_param(sp.params@, "k"@) is Some);
            match spec_param(sp.params@, "inputs"@) {
                Some(ParamValue::Refs(rids)) => {
                    match n2 {
                        NodeOp::ScaleByK { input: i2, k: k2 } => {
                            assert(n2.spec_inputs() =~= seq![i2]);
                            assert(i2 == n1.spec_inputs().map_values(f)[0]);
                            assert forall|e: int| 0 <= e < rids@.len() implies (match spec_find(
                                specs,
                                (#[trigger] rids@[e])@,
                            ) {
                                Some(s2) => 0 <= s2 < amap.len() && seq![i2][e] == amap[s2],
                                None => false,
                            }) by {
                                assert(seq![i2][e] == remap[seq![input][e] as int]);
                            }
                        },
                        _ => {
                            assert(false);
                        },
                    }
                },
                _ => {
                    assert(false);
                },
            }
        },
    }
}

/// Some description with the specification's kind tag resolves its
/// parameters through the position assignment and builds to `n`.
pub open spec fn spec_built_from(
    specs: Seq<NodeSpec>,
    pos_of: Seq<Option<usize>>,
    s: int,
    n: NodeOp,
) -> bool {
    exists|an: ArenaNode|
        {
            &&& (#[trigger] an.tag)@ == specs[s].kind@
            &&& params_resolve(specs, pos_of, specs[s].params@, an.fields@)
            &&& builds_to(an, n)
        }
}

/// A description resolved from a buildable specification is buildable.
proof fn lemma_corresponding_buildable(specs: Seq<NodeSpec>, pos_of: Seq<Option<usize>>, sp: NodeSpec, an: ArenaNode)
    requires
        an.tag@ == sp.kind@,
        params_resolve(specs, pos_of, sp.params@, an.fields@),
        spec_buildable(sp),
    ensures
        crate::specs::buildable(an),
{
    if sp.kind@ == "Input"@ {
        assert(spec_param(sp.params@, "name"@) is Some);
    } else if sp.kind@ == "Constant"@ {
        assert(spec_param(sp.params@, "value"@) is Some);
    } else if sp.kind@ == "Add"@ || sp.kind@ == "Multiply"@ {
        assert(spec_param(sp.params@, "inputs"@) is Some);
    } else if sp.kind@ == "Divide"@ || sp.kind@ == "Power"@ {
        assert(spec_param(sp.params@, "inputs"@) is Some);
    } else if sp.kind@ == "Compare"@ {
        assert(spec_param(sp.params@, "inputs"@) is Some);
        assert(spec_param(sp.params@, "op"@) is Some);
    } else if sp.kind@ == "ScaleByK"@ {
        assert(spec_param(sp.params@, "inputs"@) is Some);
        assert(spec_param(sp.params@, "k"@) is Some);
    }
}

/// Every operand reference a field carries lies strictly below `b`.
pub open spec fn field_bounded(v: FieldValue, b: int) -> bool {
    match v {
        FieldValue::One(x) => x < b,
        FieldValue::Many(xs) => forall|e: int| 0 <= e < xs@.len() ==> (#[trigger] xs@[e]) < b,
        FieldValue::Num(_) => true,
        FieldValue::Text(_) => true,
    }
}

/// A node built from a description whose fields are bounded by `q` is
/// well-formed at position `q`.
proof fn lemma_built_wf(an: ArenaNode, n: NodeOp, q: int)
    requires
        builds_to(an, n),
        forall|k: int| 0 <= k < an.fields@.len() ==> field_bounded(#[trigger] an.fields@[k].1, q),
    ensures
        wf_node_at(n, q),
{
    match n {
        NodeOp::Input { .. } => {},
        NodeOp::Constant { .. } => {},
        NodeOp::Add { inputs } => {
            crate::specs::lemma_spec_field_present(an.fields@, "inputs"@);
        },
        NodeOp::Multiply { inputs } => {
            crate::specs::lemma_spec_field_present(an.fields@, "inputs"@);
        },
        NodeOp::Divide { left, right } => {
            crate::specs::lemma_spec_field_present(an.fields@, "inputs"@);
        },
        NodeOp::Compare { left, right, op } => {
            crate::specs::lemma_spec_field_present(an.fields@, "inputs"@);
        },
        NodeOp::Power { base, exp } => {
            crate::specs::lemma_spec_field_present(an.fields@, "inputs"@);
        },
        NodeOp::ScaleByK { input, k } => {
            crate::specs::lemma_spec_field_present(an.fields@, "inputs"@);
        },
    }
}

/// Resolve the parameters of specification `s` into arena-indexed fields,
/// every reference checked to stand strictly below position `q`.
fn convert_spec(specs: &Vec<NodeSpec>, s: usize, pos_of: &Vec<Option<usize>>, q: usize) -> (r:
    Result<ArenaNode, LinkError>)
    requires
        s < specs@.len(),
        pos_of@.len() == specs@.len(),
    ensures
        match r {
            Ok(an) => {
                &&& an.id@ == specs@[s as int].id@
                &&& an.tag@ == specs@[s as int].kind@
                &&& (forall|k: int|
                    0 <= k < an.fields@.len() ==> field_bounded(
                        #[trigger] an.fields@[k].1,
                        q as int,
                    ))
                &&& params_resolve(specs@, pos_of@, specs@[s as int].params@, an.fields@)
            },
            Err(e) => match e {
                LinkError::UnknownReference { id, reference } => id@ == specs@[s as int].id@
                    && spec_find(specs@, reference@) is None,
                LinkError::Cycle { id } => id@ == specs@[s as int].id@,
                _ => false,
            },
        },
        refs_assigned_below(specs@, pos_of@, s as int, q as int) ==> r is Ok,
{
    let mut fields: Vec<(String, FieldValue)> = Vec::new();
    let mut k: usize = 0;
    let np = specs[s].params.len();
    while k < np
        invariant
            k <= np,
            s < specs@.len(),
            pos_of@.len() == specs@.len(),
            np == specs@[s as int].params@.len(),
            forall|j: int|
                0 <= j < fields@.len() ==> field_bounded(#[trigger] fields@[j].1, q as int),
            params_resolve(specs@, pos_of@, specs@[s as int].params@.take(k as int), fields@),
        decreases np - k,
    {
        let ghost fields0 = fields@;
        let pname = specs[s].params[k].0.clone();
        match &specs[s].params[k].1 {
            ParamValue::Num(x) => {
                fields.push((pname, FieldValue::Num(*x)));
            },
            ParamValue::Text(t) => {
                fields.push((pname, FieldValue::Text(t.clone())));
            },
            ParamValue::Ref(rid) => {
                proof {
                    if refs_assigned_below(specs@, pos_of@, s as int, q as int) {
                        let pk = specs@[s as int].params@[k as int];
                        assert(ref_assigned_below(specs@, pos_of@, rid@, q as int));
                    }
                }
                match find_spec(specs, rid) {
                    None => {
                        proof {
                            assert(!refs_assigned_below(specs@, pos_of@, s as int, q as int));
                        }
                        return Err(
                            LinkError::UnknownReference {
                                id: specs[s].id.clone(),
                                reference: rid.clone(),
                            },
                        );
                    },
                    Some(s2) => {
                        match pos_of[s2] {
                            Some(p2) => {
                                if p2 >= q {
                                    proof {
                                        assert(!refs_assigned_below(
                                            specs@,
                                            pos_of@,
                                            s as int,
                                            q as int,
                                        ));
                                    }
                                    return Err(LinkError::Cycle { id: specs[s].id.clone() });
                                }
                                fields.push((pname, FieldValue::One(p2)));
                            },
                            None => {
                                proof {
                                    assert(!refs_assigned_below(
                                        specs@,
                                        pos_of@,
                                        s as int,
                                        q as int,
                                    ));
                                }
                                return Err(LinkError::Cycle { id: specs[s].id.clone() });
                            },
                        }
                    },
                }
            },
            ParamValue::Refs(rids) => {
                proof {
                    if refs_assigned_below(specs@, pos_of@, s as int, q as int) {
                        let pk = specs@[s as int].params@[k as int];
                        assert(forall|e2: int|
                            0 <= e2 < rids@.len() ==> ref_assigned_below(
                                specs@,
                                pos_of@,
                                (#[trigger] rids@[e2])@,
                                q as int,
                            ));
                    }
                }
                let mut many: Vec<usize> = Vec::new();
                let mut e: usize = 0;
                while e < rids.len()
                    invariant
                        e <= rids@.len(),
                        s < specs@.len(),
                        pos_of@.len() == specs@.len(),
                        refs_assigned_below(specs@, pos_of@, s as int, q as int) ==> forall|
                            e2: int,
                        |
                            0 <= e2 < rids@.len() ==> ref_assigned_below(
                                specs@,
                                pos_of@,
                                (#[trigger] rids@[e2])@,
                                q as int,
                            ),
                        many@.len() == e,
                        forall|j: int| 0 <= j < many@.len() ==> (#[trigger] many@[j]) < q as int,
                        forall|e2: int|
                            0 <= e2 < e ==> (match spec_find(specs@, (#[trigger] rids@[e2])@) {
                                Some(s2) => 0 <= s2 < pos_of@.len() && pos_of@[s2] == Some(
                                    many@[e2],
                                ),
                                None => false,
                            }),
                    decreases rids@.len() - e,
                {
                    proof {
                        if refs_assigned_below(specs@, pos_of@, s as int, q as int) {
                            assert(ref_assigned_below(
                                specs@,
                                pos_of@,
                                rids@[e as int]@,
                                q as int,
                            ));
                        }
                    }
                    match find_spec(specs, &rids[e]) {
                        None => {
                            proof {
                                assert(!refs_assigned_below(specs@, pos_of@, s as int, q as int));
                            }
                            return Err(
                                LinkError::UnknownReference {
                                    id: specs[s].id.clone(),
                                    reference: rids[e].clone(),
                                },
                            );
                        },
                        Some(s2) => {
                            match pos_of[s2] {
                                Some(p2) => {
                                    if p2 >= q {
                                        proof {
                                            assert(!refs_assigned_below(
                                                specs@,
                                                pos_of@,
                                                s as int,
                                                q as int,
                                            ));
                                        }
                                        return Err(
                                            LinkError::Cycle { id: specs[s].id.clone() },
                                        );
                                    }
                                    many.push(p2);
                                },
                                None => {
                                    proof {
                                        assert(!refs_assigned_below(
                                            specs@,
                                            pos_of@,
                                            s as int,
                                            q as int,
                                        ));
                                    }
                                    return Err(LinkError::Cycle { id: specs[s].id.clone() });
                                },
                            }
                        },
                    }
                    e = e + 1;
                }
                proof {
                    assert(many@.len() == rids@.len());
                }
                fields.push((pname, FieldValue::Many(many)));
            },
        }
        proof {
            let ps = specs@[s as int].params@;
            assert(fields@.len() == fields0.len() + 1);
            assert(fields@.drop_last() =~= fields0);
            assert(fields@.last().0@ == ps[k as int].0@);
            assert(field_resolves(specs@, pos_of@, ps[k as int].1, fields@.last().1));
            assert(ps.take(k + 1int).drop_last() =~= ps.take(k as int));
            assert(ps.take(k + 1int).last() == ps[k as int]);
            assert forall|nm: Seq<char>|
                match (#[trigger] spec_param(ps.take(k + 1int), nm), spec_field(fields@, nm)) {
                    (Some(p2), Some(f2)) => field_resolves(specs@, pos_of@, p2, f2),
                    (None, None) => true,
                    _ => false,
                } by {
                if ps[k as int].0@ == nm {
                    assert(spec_param(ps.take(k + 1int), nm) == Some(ps[k as int].1));
                    assert(spec_field(fields@, nm) == Some(fields@.last().1));
                } else {
                    assert(spec_param(ps.take(k + 1int), nm) == spec_param(ps.take(k as int), nm));
                    assert(spec_field(fields@, nm) == spec_field(fields0, nm));
                    assert(match (spec_param(ps.take(k as int), nm), spec_field(fields0, nm)) {
                        (Some(p2), Some(f2)) => field_resolves(specs@, pos_of@, p2, f2),
                        (None, None) => true,
                        _ => false,
                    });
                }
            }
        }
        k = k + 1;
    }
    proof {
        assert(specs@[s as int].params@.take(np as int) =~= specs@[s as int].params@);
    }
    Ok(ArenaNode { id: specs[s].id.clone(), tag: specs[s].kind.clone(), fields })
}

/// Link a set of node specifications into a deduplicated, topologically
/// ordered arena.
///
/// Indices are assigned in repeated declaration-order sweeps: a
/// specification receives the next index once all of its references have
/// one, so operands always stand strictly below their consumers and ties
/// fall to declaration order. A sweep without progress means the
/// remaining specifications reference each other in a cycle.
///
/// On success the arena is well-formed, holds no two structurally
/// identical nodes, and the assignment sends every declared identity to
/// the arena index holding exactly the node its specification describes,
/// references resolved through the same assignment; the trigger and the
/// outputs are the assigned indices of the declared identities. Each
/// error names a real defect: an undeclared identity, a specification
/// whose kind or parameters are unusable, or a reference cycle. On every
/// input whose references and roots resolve, whose reference relation is
/// acyclic and whose specifications are buildable — in any declaration
/// order — linking succeeds.
pub fn link(specs: &Vec<NodeSpec>, trigger: &Option<String>, outputs: &Vec<String>) -> (r: Result<
    Linked,
    LinkError,
>)
    ensures
        match r {
            Ok(l) => {
                &&& l.graph.wf()
                &&& (forall|t1: int, t2: int|
                    0 <= t1 < t2 < l.graph.nodes@.len() ==> !node_eq_spec(
                        l.graph.nodes@[t1],
                        l.graph.nodes@[t2],
                    ))
                &&& l.assignment@.len() == specs@.len()
                &&& (forall|k: int|
                    0 <= k < specs@.len() ==> (#[trigger] l.assignment@[k]).0@ == specs@[k].id@
                        && l.assignment@[k].1 < l.graph.nodes@.len())
                &&& (forall|k: int|
                    0 <= k < specs@.len() ==> spec_describes(
                        specs@,
                        l.assignment@.map_values(|pr: (String, usize)| pr.1),
                        specs@[k],
                        l.graph.nodes@[(#[trigger] l.assignment@[k]).1 as int],
                    ))
                &&& (match *trigger {
                    Some(t) => (match spec_find(specs@, t@) {
                        Some(s2) => 0 <= s2 < specs@.len() && l.graph.trigger == Some(
                            l.assignment@[s2].1,
                        ),
                        None => false,
                    }),
                    None => l.graph.trigger is None,
                })
                &&& l.graph.outputs@.len() == outputs@.len()
                &&& (forall|j: int|
                    0 <= j < outputs@.len() ==> (match spec_find(
                        specs@,
                        (#[trigger] outputs@[j])@,
                    ) {
                        Some(s2) => 0 <= s2 < specs@.len() && l.graph.outputs@[j]
                            == l.assignment@[s2].1,
                        None => false,
                    }))
                &&& (forall|t: int|
                    0 <= t < l.graph.nodes@.len() ==> #[trigger] assignment_covers(
                        l.assignment@,
                        t,
                    ))
                &&& acyclic(specs@)
            },
            Err(e) => match e {
                LinkError::UnknownKind { id } => exists|s: int|
                    0 <= s < specs@.len() && (#[trigger] specs@[s]).id@ == id@
                        && !crate::kinds::spec_kind_known(specs@[s].kind@) && !spec_buildable(
                        specs@[s],
                    ),
                LinkError::UnknownReference { id, reference } => spec_find(
                    specs@,
                    reference@,
                ) is None,
                LinkError::ArityMismatch { id } => exists|s: int|
                    0 <= s < specs@.len() && (#[trigger] specs@[s]).id@ == id@
                        && crate::kinds::spec_kind_known(specs@[s].kind@) && !spec_buildable(
                        specs@[s],
                    ),
                LinkError::MissingParameter { id, .. } => exists|s: int|
                    0 <= s < specs@.len() && (#[trigger] specs@[s]).id@ == id@
                        && crate::kinds::spec_kind_known(specs@[s].kind@) && !spec_buildable(
                        specs@[s],
                    ),
                LinkError::Cycle { .. } => !acyclic(specs@),
            },
        },
        specs@.len() == 0 && trigger is None && outputs@.len() == 0 ==> r is Ok,
        refs_resolve(specs@) && acyclic(specs@) && roots_resolve(specs@, *trigger, outputs@)
            ==> (match r {
            Ok(_) => true,
            Err(e) => !(e is Cycle) && !(e is UnknownReference),
        }),
        refs_resolve(specs@) && acyclic(specs@) && roots_resolve(specs@, *trigger, outputs@) && (
        forall|s: int| 0 <= s < specs@.len() ==> spec_buildable(#[trigger] specs@[s])) ==> r is Ok,
{
    let n = specs.len();

    // Assign arena positions in repeated declaration-order sweeps.
    let mut pos_of: Vec<Option<usize>> = Vec::new();
    let mut w: usize = 0;
    while w < n
        invariant
            w <= n,
            pos_of@.len() == w,
            forall|j: int| 0 <= j < w ==> (#[trigger] pos_of@[j]) is None,
        decreases n - w,
    {
        pos_of.push(None);
        w = w + 1;
    }
    proof {
        lemma_unassigned_full(pos_of@, n as int);
    }
    let mut order: Vec<usize> = Vec::new();
    while order.len() < n
        invariant
            n == specs@.len(),
            pos_of@.len() == n,
            order@.len() <= n,
            forall|q: int| 0 <= q < order@.len() ==> (#[trigger] order@[q]) < n,
            forall|s: int|
                0 <= s < n ==> (match #[trigger] pos_of@[s] {
                    Some(p) => p < order@.len() && order@[p as int] == s,
                    None => true,
                }),
            forall|q: int|
                0 <= q < order@.len() ==> pos_of@[(#[trigger] order@[q]) as int] == Some(
                    q as usize,
                ),
            unassigned_below(pos_of@, n as int) + order@.len() == n,
            forall|q: int|
                0 <= q < order@.len() ==> refs_assigned_below(
                    specs@,
                    pos_of@,
                    (#[trigger] order@[q]) as int,
                    q,
                ),
        decreases n - order.len(),
    {
        let before = order.len();
        let mut s: usize = 0;
        while s < n
            invariant
                s <= n,
                n == specs@.len(),
                pos_of@.len() == n,
                order@.len() <= n,
                order@.len() >= before,
                forall|q: int| 0 <= q < order@.len() ==> (#[trigger] order@[q]) < n,
                forall|s2: int|
                    0 <= s2 < n ==> (match #[trigger] pos_of@[s2] {
                        Some(p) => p < order@.len() && order@[p as int] == s2,
                        None => true,
                    }),
                forall|q: int|
                    0 <= q < order@.len() ==> pos_of@[(#[trigger] order@[q]) as int] == Some(
                        q as usize,
                    ),
                unassigned_below(pos_of@, n as int) + order@.len() == n,
                forall|q: int|
                    0 <= q < order@.len() ==> refs_assigned_below(
                        specs@,
                        pos_of@,
                        (#[trigger] order@[q]) as int,
                        q,
                    ),
                order@.len() == before ==> (forall|s1: int|
                    0 <= s1 < s && (#[trigger] pos_of@[s1]) is None ==> has_unassigned_ref(
                        specs@,
                        pos_of@,
                        s1,
                    )),
            decreases n - s,
        {
            let assigned = match pos_of[s] {
                Some(_) => true,
                None => false,
            };
            if !assigned {
                let mut all: bool = true;
                let np = specs[s].params.len();
                let mut k: usize = 0;
                while k < np
                    invariant
                        k <= np,
                        s < n,
                        n == specs@.len(),
                        pos_of@.len() == n,
                        np == specs@[s as int].params@.len(),
                        order@.len() <= n,
                        forall|s2: int|
                            0 <= s2 < n ==> (match #[trigger] pos_of@[s2] {
                                Some(p) => p < order@.len() && order@[p as int] == s2,
                                None => true,
                            }),
                        all ==> (forall|k2: int|
                            0 <= k2 < k ==> (match (#[trigger] specs@[s as int].params@[k2]).1 {
                                ParamValue::Ref(rid) => ref_assigned_below(
                                    specs@,
                                    pos_of@,
                                    rid@,
                                    order@.len() as int,
                                ),
                                ParamValue::Refs(rids) => forall|e: int|
                                    0 <= e < rids@.len() ==> ref_assigned_below(
                                        specs@,
                                        pos_of@,
                                        (#[trigger] rids@[e])@,
                                        order@.len() as int,
                                    ),
                                ParamValue::Num(_) => true,
                                ParamValue::Text(_) => true,
                            })),
                        !all ==> has_unassigned_ref(specs@, pos_of@, s as int),
                    decreases np - k,
                {
                    let ghost pk = specs@[s as int].params@[k as int];
                    match &specs[s].params[k].1 {
                        ParamValue::Ref(rid) => {
                            match find_spec(specs, rid) {
                                None => {
                                    proof {
                                        if refs_resolve(specs@) {
                                            assert(param_resolves(specs@, pk.1));
                                            assert(false);
                                        }
                                    }
                                    return Err(
                                        LinkError::UnknownReference {
                                            id: specs[s].id.clone(),
                                            reference: rid.clone(),
                                        },
                                    );
                                },
                                Some(s2) => {
                                    match pos_of[s2] {
                                        Some(_) => {},
                                        None => {
                                            proof {
                                                assert(param_unassigned_ref(
                                                    specs@,
                                                    pos_of@,
                                                    pk.1,
                                                ));
                                                assert(has_unassigned_ref(
                                                    specs@,
                                                    pos_of@,
                                                    s as int,
                                                ));
                                            }
                                            all = false;
                                        },
                                    }
                                },
                            }
                        },
                        ParamValue::Refs(rids) => {
                            proof {
                                if refs_resolve(specs@) {
                                    assert(param_resolves(specs@, pk.1));
                                }
                            }
                            let mut e: usize = 0;
                            while e < rids.len()
                                invariant
                                    e <= rids@.len(),
                                    s < n,
                                    n == specs@.len(),
                                    pos_of@.len() == n,
                                    order@.len() <= n,
                                    k < specs@[s as int].params@.len(),
                                    pk == specs@[s as int].params@[k as int],
                                    pk.1 == ParamValue::Refs(*rids),
                                    forall|s3: int|
                                        0 <= s3 < n ==> (match #[trigger] pos_of@[s3] {
                                            Some(p) => p < order@.len() && order@[p as int] == s3,
                                            None => true,
                                        }),
                                    refs_resolve(specs@) ==> (forall|e2: int|
                                        0 <= e2 < rids@.len() ==> spec_find(
                                            specs@,
                                            (#[trigger] rids@[e2])@,
                                        ) is Some),
                                    all ==> (forall|e2: int|
                                        0 <= e2 < e ==> ref_assigned_below(
                                            specs@,
                                            pos_of@,
                                            (#[trigger] rids@[e2])@,
                                            order@.len() as int,
                                        )),
                                    all ==> (forall|k2: int|
                                        0 <= k2 < k ==> (match (
                                        #[trigger] specs@[s as int].params@[k2]).1 {
                                            ParamValue::Ref(rid) => ref_assigned_below(
                                                specs@,
                                                pos_of@,
                                                rid@,
                                                order@.len() as int,
                                            ),
                                            ParamValue::Refs(rids2) => forall|e2: int|
                                                0 <= e2 < rids2@.len() ==> ref_assigned_below(
                                                    specs@,
                                                    pos_of@,
                                                    (#[trigger] rids2@[e2])@,
                                                    order@.len() as int,
                                                ),
                                            ParamValue::Num(_) => true,
                                            ParamValue::Text(_) => true,
                                        })),
                                    !all ==> has_unassigned_ref(specs@, pos_of@, s as int),
                                decreases rids@.len() - e,
                            {
                                match find_spec(specs, &rids[e]) {
                                    None => {
                                        proof {
                                            if refs_resolve(specs@) {
                                                assert(spec_find(
                                                    specs@,
                                                    rids@[e as int]@,
                                                ) is Some);
                                            }
                                        }
                                        return Err(
                                            LinkError::UnknownReference {
                                                id: specs[s].id.clone(),
                                                reference: rids[e].clone(),
                                            },
                                        );
                                    },
                                    Some(s2) => {
                                        match pos_of[s2] {
                                            Some(_) => {
                                                proof {
                                                    assert(ref_assigned_below(
                                                        specs@,
                                                        pos_of@,
                                                        rids@[e as int]@,
                                                        order@.len() as int,
                                                    ));
                                                }
                                            },
                                            None => {
                                                proof {
                                                    assert(match spec_find(
                                                        specs@,
                                                        rids@[e as int]@,
                                                    ) {
                                                        Some(s3) => 0 <= s3 < pos_of@.len()
                                                            && pos_of@[s3] is None,
                                                        None => false,
                                                    });
                                                    assert(param_unassigned_ref(
                                                        specs@,
                                                        pos_of@,
                                                        pk.1,
                                                    ));
                                                    assert(has_unassigned_ref(
                                                        specs@,
                                                        pos_of@,
                                                        s as int,
                                                    ));
                                                }
                                                all = false;
                                            },
                                        }
                                    },
                                }
                                e = e + 1;
                            }
                        },
                        ParamValue::Num(_) => {},
                        ParamValue::Text(_) => {},
                    }
                    k = k + 1;
                }
                if all {
                    let ghost oldpos = pos_of@;
                    proof {
                        lemma_unassigned_pos(pos_of@, n as int, s as int);
                        assert(refs_assigned_below(specs@, oldpos, s as int, order@.len() as int));
                    }
                    let newpos = order.len();
                    pos_of[s] = Some(newpos);
                    order.push(s);
                    proof {
                        lemma_unassigned_update(oldpos, n as int, s as int, newpos);
                        assert forall|q: int| 0 <= q < order@.len() implies refs_assigned_below(
                            specs@,
                            pos_of@,
                            (#[trigger] order@[q]) as int,
                            q,
                        ) by {
                            if q < order@.len() - 1 {
                                assert(order@[q] == oldpos.len() == 0 || true);
                                lemma_refs_assigned_below_stable(
                                    specs@,
                                    oldpos,
                                    pos_of@,
                                    order@[q] as int,
                                    q,
                                );
                            } else {
                                assert(order@[q] == s);
                                lemma_refs_assigned_below_stable(
                                    specs@,
                                    oldpos,
                                    pos_of@,
                                    s as int,
                                    q,
                                );
                            }
                        }
                    }
                }
            }
            s = s + 1;
        }
        if order.len() == before {
            // No specification became assignable: every unassigned one
            // references an unassigned one, so the rest form a cycle.
            let mut u: usize = 0;
            while u < n
                invariant
                    u <= n,
                    n == specs@.len(),
                    pos_of@.len() == n,
                    order@.len() < n,
                    unassigned_below(pos_of@, n as int) + order@.len() == n,
                    forall|j: int| 0 <= j < u ==> !((#[trigger] pos_of@[j]) is None),
                    forall|s1: int|
                        0 <= s1 < n && (#[trigger] pos_of@[s1]) is None ==> has_unassigned_ref(
                            specs@,
                            pos_of@,
                            s1,
                        ),
                decreases n - u,
            {
                let unassigned = match pos_of[u] {
                    Some(_) => false,
                    None => true,
                };
                if unassigned {
                    proof {
                        if acyclic(specs@) {
                            let rank = choose|rank: Map<int, nat>| rank_ok(specs@, rank);
                            lemma_stuck_refutes_rank(specs@, pos_of@, rank, u as int);
                        }
                    }
                    return Err(LinkError::Cycle { id: specs[u].id.clone() });
                }
                u = u + 1;
            }
            proof {
                lemma_unassigned_all_some(pos_of@, n as int);
                assert(false);
            }
            return Err(LinkError::Cycle { id: "".to_owned() });
        }
    }
    proof {
        lemma_unassigned_zero(pos_of@, n as int);
    }

    // Build each node at its assigned position.
    let mut nodes: Vec<NodeOp> = Vec::new();
    let mut q: usize = 0;
    while q < n
        invariant
            q <= n,
            n == specs@.len(),
            pos_of@.len() == n,
            order@.len() == n,
            forall|q2: int| 0 <= q2 < n ==> (#[trigger] order@[q2]) < n,
            forall|s2: int|
                0 <= s2 < n ==> (match #[trigger] pos_of@[s2] {
                    Some(p) => p < n && order@[p as int] == s2,
                    None => true,
                }),
            forall|q2: int|
                0 <= q2 < n ==> pos_of@[(#[trigger] order@[q2]) as int] == Some(q2 as usize),
            forall|j: int| 0 <= j < n ==> (#[trigger] pos_of@[j]) is Some,
            forall|q2: int|
                0 <= q2 < n ==> refs_assigned_below(
                    specs@,
                    pos_of@,
                    (#[trigger] order@[q2]) as int,
                    q2,
                ),
            nodes@.len() == q,
            wf_nodes(nodes@),
            forall|q2: int|
                0 <= q2 < q ==> spec_built_from(
                    specs@,
                    pos_of@,
                    order@[q2] as int,
                    #[trigger] nodes@[q2],
                ),
        decreases n - q,
    {
        let s = order[q];
        proof {
            assert(refs_assigned_below(specs@, pos_of@, s as int, q as int));
        }
        let an = match convert_spec(specs, s, &pos_of, q) {
            Ok(an) => an,
            Err(e) => {
                proof {
                    assert(false);
                }
                return Err(e);
            },
        };
        let nodeop = match build_arena_node(&an) {
            Ok(nodeop) => nodeop,
            Err(e) => {
                proof {
                    assert(specs@[s as int].id@ == an.id@);
                    assert(specs@[s as int].kind@ == an.tag@);
                    if spec_buildable(specs@[s as int]) {
                        lemma_corresponding_buildable(specs@, pos_of@, specs@[s as int], an);
                        assert(false);
                    }
                }
                return Err(e);
            },
        };
        proof {
            lemma_built_wf(an, nodeop, q as int);
            assert forall|j: int| 0 <= j < nodes@.len() + 1 implies wf_node_at(
                #[trigger] nodes@.push(nodeop)[j],
                j,
            ) by {
                if j < nodes@.len() {
                    assert(nodes@.push(nodeop)[j] == nodes@[j]);
                } else {
                    assert(nodes@.push(nodeop)[j] == nodeop);
                }
            }
            assert(spec_built_from(specs@, pos_of@, s as int, nodeop));
        }
        nodes.push(nodeop);
        q = q + 1;
    }

    // Merge structurally identical nodes.
    let (compact, remap) = dedup_nodes(&nodes);

    // Map the trigger, the outputs and every identity to final indices.
    let trig: Option<usize> = match trigger {
        Some(tid) => {
            match find_spec(specs, tid) {
                None => {
                    return Err(
                        LinkError::UnknownReference { id: tid.clone(), reference: tid.clone() },
                    );
                },
                Some(s2) => {
                    match pos_of[s2] {
                        Some(p) => Some(remap[p]),
                        None => {
                            proof {
                                assert(false);
                            }
                            return Err(LinkError::Cycle { id: tid.clone() });
                        },
                    }
                },
            }
        },
        None => None,
    };
    let mut outs: Vec<usize> = Vec::new();
    let mut ko: usize = 0;
    while ko < outputs.len()
        invariant
            ko <= outputs@.len(),
            n == specs@.len(),
            pos_of@.len() == n,
            nodes@.len() == n,
            remap@.len() == n,
            forall|i: int| 0 <= i < n ==> (#[trigger] remap@[i]) < compact@.len(),
            forall|s2: int|
                0 <= s2 < n ==> (match #[trigger] pos_of@[s2] {
                    Some(p) => p < n,
                    None => true,
                }),
            forall|j: int| 0 <= j < n ==> (#[trigger] pos_of@[j]) is Some,
            outs@.len() == ko,
            forall|j: int| 0 <= j < ko ==> (#[trigger] outs@[j]) < compact@.len(),
            forall|j: int|
                0 <= j < ko ==> (match spec_find(specs@, (#[trigger] outputs@[j])@) {
                    Some(s2) => 0 <= s2 < n && (match pos_of@[s2] {
                        Some(p) => outs@[j] == remap@[p as int] && outs@[j] < compact@.len(),
                        None => false,
                    }),
                    None => false,
                }),
        decreases outputs@.len() - ko,
    {
        match find_spec(specs, &outputs[ko]) {
            None => {
                return Err(
                    LinkError::UnknownReference {
                        id: outputs[ko].clone(),
                        reference: outputs[ko].clone(),
                    },
                );
            },
            Some(s2) => {
                match pos_of[s2] {
                    Some(p) => {
                        outs.push(remap[p]);
                    },
                    None => {
                        proof {
                            assert(false);
                        }
                        return Err(LinkError::Cycle { id: outputs[ko].clone() });
                    },
                }
            },
        }
        ko = ko + 1;
    }
    let mut assignment: Vec<(String, usize)> = Vec::new();
    let mut sa: usize = 0;
    while sa < n
        invariant
            sa <= n,
            n == specs@.len(),
            pos_of@.len() == n,
            remap@.len() == n,
            forall|i: int| 0 <= i < n ==> (#[trigger] remap@[i]) < compact@.len(),
            forall|s2: int|
                0 <= s2 < n ==> (match #[trigger] pos_of@[s2] {
                    Some(p) => p < n,
                    None => true,
                }),
            forall|j: int| 0 <= j < n ==> (#[trigger] pos_of@[j]) is Some,
            assignment@.len() == sa,
            forall|k: int|
                0 <= k < sa ==> (#[trigger] assignment@[k]).0@ == specs@[k].id@ && (
                match pos_of@[k] {
                    Some(p) => assignment@[k].1 == remap@[p as int] && assignment@[k].1
                        < compact@.len(),
                    None => false,
                }),
        decreases n - sa,
    {
        match pos_of[sa] {
            Some(p) => {
                assignment.push((specs[sa].id.clone(), remap[p]));
            },
            None => {
                proof {
                    assert(false);
                }
                return Err(LinkError::Cycle { id: specs[sa].id.clone() });
            },
        }
        sa = sa + 1;
    }

    let graph = ArenaGraph { nodes: compact, trigger: trig, outputs: outs };
    proof {
        let amap = assignment@.map_values(|pr: (String, usize)| pr.1);
        assert forall|s2: int|
            0 <= s2 < n implies (match #[trigger] pos_of@[s2] {
            Some(p) => 0 <= p < remap@.len() && amap[s2] == remap@[p as int],
            None => true,
        }) by {
            assert(amap[s2] == assignment@[s2].1);
        }
        assert forall|kk: int| 0 <= kk < n implies spec_describes(
            specs@,
            amap,
            specs@[kk],
            graph.nodes@[(#[trigger] assignment@[kk]).1 as int],
        ) by {
            assert(pos_of@[kk] is Some);
            match pos_of@[kk] {
                Some(p) => {
                    assert(p < n && order@[p as int] == kk);
                    assert(spec_built_from(specs@, pos_of@, kk as int, nodes@[p as int]));
                    let an = choose|an: ArenaNode|
                        {
                            &&& (#[trigger] an.tag)@ == specs@[kk as int].kind@
                            &&& params_resolve(
                                specs@,
                                pos_of@,
                                specs@[kk as int].params@,
                                an.fields@,
                            )
                            &&& builds_to(an, nodes@[p as int])
                        };
                    assert(related_nodes(
                        nodes@[p as int],
                        graph.nodes@[remap@[p as int] as int],
                        remap@,
                    ));
                    assert(assignment@[kk as int].1 == remap@[p as int]);
                    lemma_describes_composed(
                        specs@,
                        pos_of@,
                        remap@,
                        amap,
                        specs@[kk],
                        an,
                        nodes@[p as int],
                        graph.nodes@[remap@[p as int] as int],
                    );
                },
                None => {},
            }
        }
        assert forall|t: int| 0 <= t < graph.nodes@.len() implies #[trigger] assignment_covers(
            assignment@,
            t,
        ) by {
            assert(remap_covers(remap@, t));
            let i = choose|i: int| 0 <= i < remap@.len() && (#[trigger] remap@[i]) == t;
            let kk = order@[i] as int;
            assert(pos_of@[kk] == Some(i as usize));
            assert(assignment@[kk].1 == remap@[i]);
        }
        let rank = Map::<int, nat>::new(
            |s3: int| true,
            |s3: int|
                (match pos_of@[s3] {
                    Some(p) => p as nat,
                    None => 0nat,
                }),
        );
        assert forall|s3: int, s4: int|
            0 <= s3 < specs@.len() && 0 <= s4 < specs@.len() && #[trigger] references(
            specs@,
            s3,
            s4,
        ) implies rank[s4] < rank[s3] by {
            assert(pos_of@[s3] is Some);
            match pos_of@[s3] {
                Some(qs) => {
                    assert(order@[qs as int] == s3);
                    assert(refs_assigned_below(specs@, pos_of@, s3, qs as int));
                    let k = choose|k: int|
                        0 <= k < specs@[s3].params@.len() && param_references(
                            specs@,
                            (#[trigger] specs@[s3].params@[k]).1,
                            s4,
                        );
                    match specs@[s3].params@[k].1 {
                        ParamValue::Ref(rid) => {
                            assert(ref_assigned_below(specs@, pos_of@, rid@, qs as int));
                            assert(spec_find(specs@, rid@) == Some(s4));
                        },
                        ParamValue::Refs(rids) => {
                            let e = choose|e: int|
                                0 <= e < rids@.len() && spec_find(
                                    specs@,
                                    (#[trigger] rids@[e])@,
                                ) == Some(s4);
                            assert(ref_assigned_below(specs@, pos_of@, rids@[e]@, qs as int));
                        },
                        ParamValue::Num(_) => {
                            assert(false);
                        },
                        ParamValue::Text(_) => {
                            assert(false);
                        },
                    }
                },
                None => {},
            }
        }
        assert(rank_ok(specs@, rank));
        assert(acyclic(specs@));
        match trigger {
            Some(tid) => {
                match spec_find(specs@, tid@) {
                    Some(s2) => {
                        assert(amap[s2] == assignment@[s2].1);
                    },
                    None => {
                        assert(false);
                    },
                }
            },
            None => {},
        }
        assert forall|j: int| 0 <= j < outputs@.len() implies (match spec_find(
            specs@,
            (#[trigger] outputs@[j])@,
        ) {
            Some(s2) => 0 <= s2 < specs@.len() && graph.outputs@[j] == assignment@[s2].1,
            None => false,
        }) by {
            match spec_find(specs@, outputs@[j]@) {
                Some(s2) => {
                    assert(pos_of@[s2] is Some);
                },
                None => {},
            }
        }
    }
    Ok(Linked { graph, assignment })
}

} // verus!
