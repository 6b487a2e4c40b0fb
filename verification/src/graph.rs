//! The programmatic graph builder.
//!
//! Nodes are declared one by one; each declaration returns the node's
//! identity, and later declarations may reference only identities already
//! returned, so the declared sequence is topologically ordered by
//! construction. Freezing the builder merges structurally identical nodes
//! and produces the arena, and cannot fail.

use vstd::prelude::*;

use crate::arena::ArenaGraph;
use crate::link::{dedup_nodes, remap_covers};
use crate::nodes::{node_eq_spec, related_nodes, wf_node_at, wf_nodes, ComparisonOp, NodeOp};

verus! {

/// An incrementally declared graph: nodes in declaration order, with the
/// designated trigger and outputs.
pub struct Graph {
    pub nodes: Vec<NodeOp>,
    pub trigger: Option<usize>,
    pub outputs: Vec<usize>,
}

impl Graph {
    /// Declared references point strictly backwards; trigger and outputs
    /// point at declared nodes.
    pub open spec fn wf(self) -> bool {
        &&& wf_nodes(self.nodes@)
        &&& (match self.trigger {
            Some(t) => t < self.nodes@.len(),
            None => true,
        })
        &&& (forall|k: int|
            0 <= k < self.outputs@.len() ==> (#[trigger] self.outputs@[k]) < self.nodes@.len())
    }

    /// An empty builder.
    pub fn new() -> (r: Graph)
        ensures
            r.wf(),
            r.nodes@.len() == 0,
            r.trigger is None,
            r.outputs@.len() == 0,
    {
        Graph { nodes: Vec::new(), trigger: None, outputs: Vec::new() }
    }

    /// Append one node whose operands are already declared.
    fn push_node(&mut self, node: NodeOp) -> (id: usize)
        requires
            old(self).wf(),
            wf_node_at(node, old(self).nodes@.len() as int),
        ensures
            final(self).wf(),
            id == old(self).nodes@.len(),
            final(self).nodes@ == old(self).nodes@.push(node),
            final(self).trigger == old(self).trigger,
            final(self).outputs == old(self).outputs,
    {
        let id = self.nodes.len();
        proof {
            assert forall|j: int| 0 <= j < self.nodes@.len() + 1 implies wf_node_at(
                #[trigger] self.nodes@.push(node)[j],
                j,
            ) by {
                if j < self.nodes@.len() {
                    assert(self.nodes@.push(node)[j] == self.nodes@[j]);
                } else {
                    assert(self.nodes@.push(node)[j] == node);
                }
            }
        }
        self.nodes.push(node);
        id
    }

    /// Declare an input channel read from the row under `name`.
    pub fn input(&mut self, name: String) -> (id: usize)
        requires
            old(self).wf(),
        ensures
            final(self).wf(),
            id == old(self).nodes@.len(),
            final(self).nodes@ == old(self).nodes@.push(NodeOp::Input { name }),
            final(self).trigger == old(self).trigger,
            final(self).outputs == old(self).outputs,
    {
        self.push_node(NodeOp::Input { name })
    }

    /// Declare a constant node carrying the 64-bit pattern `value`.
    pub fn const_(&mut self, value: u64) -> (id: usize)
        requires
            old(self).wf(),
        ensures
            final(self).wf(),
            id == old(self).nodes@.len(),
            final(self).nodes@ == old(self).nodes@.push(NodeOp::Constant { value }),
            final(self).trigger == old(self).trigger,
            final(self).outputs == old(self).outputs,
    {
        self.push_node(NodeOp::Constant { value })
    }

    /// Declare a sum over declared nodes.
    pub fn add(&mut self, children: Vec<usize>) -> (id: usize)
        requires
            old(self).wf(),
            forall|k: int|
                0 <= k < children@.len() ==> (#[trigger] children@[k]) < old(self).nodes@.len(),
        ensures
            final(self).wf(),
            id == old(self).nodes@.len(),
            final(self).nodes@ == old(self).nodes@.push(NodeOp::Add { inputs: children }),
            final(self).trigger == old(self).trigger,
            final(self).outputs == old(self).outputs,
    {
        let node = NodeOp::Add { inputs: children };
        proof {
            assert(wf_node_at(node, self.nodes@.len() as int));
        }
        self.push_node(node)
    }

    /// Declare a product over declared nodes.
    pub fn mul(&mut self, children: Vec<usize>) -> (id: usize)
        requires
            old(self).wf(),
            forall|k: int|
                0 <= k < children@.len() ==> (#[trigger] children@[k]) < old(self).nodes@.len(),
        ensures
            final(self).wf(),
            id == old(self).nodes@.len(),
            final(self).nodes@ == old(self).nodes@.push(NodeOp::Multiply { inputs: children }),
            final(self).trigger == old(self).trigger,
            final(self).outputs == old(self).outputs,
    {
        let node = NodeOp::Multiply { inputs: children };
        proof {
            assert(wf_node_at(node, self.nodes@.len() as int));
        }
        self.push_node(node)
    }

    /// Declare a quotient of two declared nodes.
    pub fn div(&mut self, left: usize, right: usize) -> (id: usize)
        requires
            old(self).wf(),
            left < old(self).nodes@.len(),
            right < old(self).nodes@.len(),
        ensures
            final(self).wf(),
            id == old(self).nodes@.len(),
            final(self).nodes@ == old(self).nodes@.push(NodeOp::Divide { left, right }),
            final(self).trigger == old(self).trigger,
            final(self).outputs == old(self).outputs,
    {
        let node = NodeOp::Divide { left, right };
        proof {
            assert(wf_node_at(node, self.nodes@.len() as int));
        }
        self.push_node(node)
    }

    /// Declare a comparison of two declared nodes.
    pub fn compare(&mut self, left: usize, right: usize, op: ComparisonOp) -> (id: usize)
        requires
            old(self).wf(),
            left < old(self).nodes@.len(),
            right < old(self).nodes@.len(),
        ensures
            final(self).wf(),
            id == old(self).nodes@.len(),
            final(self).nodes@ == old(self).nodes@.push(NodeOp::Compare { left, right, op }),
            final(self).trigger == old(self).trigger,
            final(self).outputs == old(self).outputs,
    {
        let node = NodeOp::Compare { left, right, op };
        proof {
            assert(wf_node_at(node, self.nodes@.len() as int));
        }
        self.push_node(node)
    }

    /// Declare an exponentiation of two declared nodes.
    pub fn power(&mut self, base: usize, exp: usize) -> (id: usize)
        requires
            old(self).wf(),
            base < old(self).nodes@.len(),
            exp < old(self).nodes@.len(),
        ensures
            final(self).wf(),
            id == old(self).nodes@.len(),
            final(self).nodes@ == old(self).nodes@.push(NodeOp::Power { base, exp }),
            final(self).trigger == old(self).trigger,
            final(self).outputs == old(self).outputs,
    {
        let node = NodeOp::Power { base, exp };
        proof {
            assert(wf_node_at(node, self.nodes@.len() as int));
        }
        self.push_node(node)
    }

    /// Declare a scaling of a declared node by the constant pattern `k`.
    pub fn scale(&mut self, input: usize, k: u64) -> (id: usize)
        requires
            old(self).wf(),
            input < old(self).nodes@.len(),
        ensures
            final(self).wf(),
            id == old(self).nodes@.len(),
            final(self).nodes@ == old(self).nodes@.push(NodeOp::ScaleByK { input, k }),
            final(self).trigger == old(self).trigger,
            final(self).outputs == old(self).outputs,
    {
        let node = NodeOp::ScaleByK { input, k };
        proof {
            assert(wf_node_at(node, self.nodes@.len() as int));
        }
        self.push_node(node)
    }

    /// Designate the declared node whose value change gates emission.
    pub fn set_trigger(&mut self, id: usize)
        requires
            old(self).wf(),
            id < old(self).nodes@.len(),
        ensures
            final(self).wf(),
            *final(self) == (Graph { trigger: Some(id), ..*old(self) }),
    {
        self.trigger = Some(id);
    }

    /// Append a declared node to the ordered outputs, unless it already
    /// stands among them.
    pub fn add_output(&mut self, id: usize)
        requires
            old(self).wf(),
            id < old(self).nodes@.len(),
        ensures
            final(self).wf(),
            final(self).nodes == old(self).nodes,
            final(self).trigger == old(self).trigger,
            final(self).outputs@ == if old(self).outputs@.contains(id) {
                old(self).outputs@
            } else {
                old(self).outputs@.push(id)
            },
    {
        let mut k: usize = 0;
        let m = self.outputs.len();
        while k < m
            invariant
                k <= m,
                m == self.outputs@.len(),
                *self == *old(self),
                self.wf(),
                id < self.nodes@.len(),
                forall|j: int| 0 <= j < k ==> (#[trigger] self.outputs@[j]) != id,
            decreases m - k,
        {
            if self.outputs[k] == id {
                proof {
                    assert(self.outputs@[k as int] == id);
                    assert(self.outputs@.contains(id));
                }
                return ;
            }
            k = k + 1;
        }
        proof {
            assert(!self.outputs@.contains(id));
        }
        self.outputs.push(id);
    }

    /// Freeze the builder into an arena graph.
    ///
    /// Structurally identical nodes are merged into the earliest
    /// occurrence; the returned map sends every declared identity to its
    /// arena index. Freezing always succeeds: the declared order is
    /// topological by construction.
    pub fn build(&self) -> (r: (ArenaGraph, Vec<usize>))
        requires
            self.wf(),
        ensures
            r.0.wf(),
            r.1@.len() == self.nodes@.len(),
            forall|i: int| 0 <= i < self.nodes@.len() ==> (#[trigger] r.1@[i]) < r.0.nodes@.len(),
            forall|i: int|
                0 <= i < self.nodes@.len() ==> related_nodes(
                    self.nodes@[i],
                    r.0.nodes@[(#[trigger] r.1@[i]) as int],
                    r.1@,
                ),
            forall|t1: int, t2: int|
                0 <= t1 < t2 < r.0.nodes@.len() ==> !node_eq_spec(r.0.nodes@[t1], r.0.nodes@[t2]),
            forall|t: int| 0 <= t < r.0.nodes@.len() ==> #[trigger] remap_covers(r.1@, t),
            r.0.trigger == (match self.trigger {
                Some(t) => Some(r.1@[t as int]),
                None => None::<usize>,
            }),
            r.0.outputs@.len() == self.outputs@.len(),
            forall|k: int|
                0 <= k < self.outputs@.len() ==> (#[trigger] r.0.outputs@[k]) == r.1@[self.outputs@[k] as int],
    {
        let (compact, remap) = dedup_nodes(&self.nodes);
        let trig: Option<usize> = match self.trigger {
            Some(t) => Some(remap[t]),
            None => None,
        };
        let mut outs: Vec<usize> = Vec::new();
        let mut k: usize = 0;
        while k < self.outputs.len()
            invariant
                k <= self.outputs@.len(),
                self.wf(),
                remap@.len() == self.nodes@.len(),
                forall|i: int|
                    0 <= i < self.nodes@.len() ==> (#[trigger] remap@[i]) < compact@.len(),
                outs@.len() == k,
                forall|j: int|
                    0 <= j < k ==> (#[trigger] outs@[j]) == remap@[self.outputs@[j] as int]
                        && outs@[j] < compact@.len(),
            decreases self.outputs@.len() - k,
        {
            outs.push(remap[self.outputs[k]]);
            k = k + 1;
        }
        (ArenaGraph { nodes: compact, trigger: trig, outputs: outs }, remap)
    }
}

} // verus!
