//! The arena graph: an immutable, topologically ordered vector of nodes,
//! together with the designated trigger node and the ordered output nodes.

use vstd::prelude::*;

use crate::nodes::{check_node_at, wf_node_at, wf_nodes, NodeOp};

verus! {

/// The single construction-time failure of an arena: some reference does
/// not point strictly below its referent. An operand index at or past the
/// end of the arena, and a trigger or output index past the end, count as
/// forward references too.
#[derive(Clone, Copy, Debug, PartialEq, Eq, Structural)]
pub enum GraphError {
    CycleOrForwardReference,
}

/// An immutable dataflow graph in dense-arena form.
///
/// Node `i`'s operands all have indices strictly below `i`, so a single
/// low-to-high sweep visits every node after all of its operands.
pub struct ArenaGraph {
    pub nodes: Vec<NodeOp>,
    pub trigger: Option<usize>,
    pub outputs: Vec<usize>,
}

impl ArenaGraph {
    /// Topological well-formedness: every operand reference points strictly
    /// below its node, and the trigger and output indices are in range.
    pub open spec fn wf(self) -> bool {
        &&& wf_nodes(self.nodes@)
        &&& (match self.trigger {
            Some(t) => t < self.nodes@.len(),
            None => true,
        })
        &&& (forall|k: int|
            0 <= k < self.outputs@.len() ==> (#[trigger] self.outputs@[k]) < self.nodes@.len())
    }

    /// Build an arena from nodes already in topological order.
    ///
    /// Succeeds exactly when every operand index of every node is strictly
    /// smaller than the node's own index and the trigger and output indices
    /// are in range; otherwise nothing is built and
    /// `CycleOrForwardReference` is returned.
    pub fn construct(nodes: Vec<NodeOp>, trigger: Option<usize>, outputs: Vec<usize>) -> (r:
        Result<ArenaGraph, GraphError>)
        ensures
            match r {
                Ok(g) => {
                    &&& g.wf()
                    &&& g.nodes@ == nodes@
                    &&& g.trigger == trigger
                    &&& g.outputs@ == outputs@
                },
                Err(e) => {
                    &&& e == GraphError::CycleOrForwardReference
                    &&& !(ArenaGraph { nodes, trigger, outputs }).wf()
                },
            },
    {
        let n = nodes.len();
        let mut i: usize = 0;
        while i < n
            invariant
                i <= n,
                n == nodes@.len(),
                forall|j: int| 0 <= j < i ==> wf_node_at(#[trigger] nodes@[j], j),
            decreases n - i,
        {
            if !check_node_at(&nodes[i], i) {
                return Err(GraphError::CycleOrForwardReference);
            }
            i = i + 1;
        }
        match trigger {
            Some(t) => {
                if t >= n {
                    return Err(GraphError::CycleOrForwardReference);
                }
            },
            None => {},
        }
        let mut k: usize = 0;
        while k < outputs.len()
            invariant
                k <= outputs@.len(),
                n == nodes@.len(),
                forall|j: int| 0 <= j < k ==> (#[trigger] outputs@[j]) < n,
            decreases outputs@.len() - k,
        {
            if outputs[k] >= n {
                proof {
                    assert((ArenaGraph { nodes, trigger, outputs }).outputs@[k as int]
                        >= (ArenaGraph { nodes, trigger, outputs }).nodes@.len());
                }
                return Err(GraphError::CycleOrForwardReference);
            }
            k = k + 1;
        }
        Ok(ArenaGraph { nodes, trigger, outputs })
    }

    /// Read the node at position `i`.
    pub fn lookup(&self, i: usize) -> (r: &NodeOp)
        requires
            i < self.nodes@.len(),
        ensures
            *r == self.nodes@[i as int],
    {
        &self.nodes[i]
    }

    /// The number of nodes in the arena.
    pub fn len(&self) -> (r: usize)
        ensures
            r == self.nodes@.len(),
    {
        self.nodes.len()
    }

    /// The input bindings of the arena: every input node's index with its
    /// channel name, in arena order, nothing else and nothing missing.
    /// Resolved once, so a step performs one row lookup per entry.
    pub fn input_nodes(&self) -> (r: Vec<(usize, String)>)
        ensures
            forall|k: int|
                0 <= k < r@.len() ==> (#[trigger] r@[k]).0 < self.nodes@.len() && (
                match self.nodes@[r@[k].0 as int] {
                    NodeOp::Input { name } => name@ == r@[k].1@,
                    _ => false,
                }),
            forall|k1: int, k2: int| 0 <= k1 < k2 < r@.len() ==> r@[k1].0 < r@[k2].0,
            forall|i: int|
                0 <= i < self.nodes@.len() && (#[trigger] self.nodes@[i]) is Input ==> exists|k: int|
                    0 <= k < r@.len() && (#[trigger] r@[k]).0 == i,
    {
        let n = self.nodes.len();
        let mut r: Vec<(usize, String)> = Vec::new();
        let mut i: usize = 0;
        while i < n
            invariant
                i <= n,
                n == self.nodes@.len(),
                forall|k: int|
                    0 <= k < r@.len() ==> (#[trigger] r@[k]).0 < i && (
                    match self.nodes@[r@[k].0 as int] {
                        NodeOp::Input { name } => name@ == r@[k].1@,
                        _ => false,
                    }),
                forall|k1: int, k2: int| 0 <= k1 < k2 < r@.len() ==> r@[k1].0 < r@[k2].0,
                forall|j: int|
                    0 <= j < i && (#[trigger] self.nodes@[j]) is Input ==> exists|k: int|
                        0 <= k < r@.len() && (#[trigger] r@[k]).0 == j,
            decreases n - i,
        {
            match &self.nodes[i] {
                NodeOp::Input { name } => {
                    let ghost r0 = r@;
                    r.push((i, name.clone()));
                    proof {
                        assert(r@[r0.len() as int].0 == i as int);
                        assert forall|j: int|
                            0 <= j < i + 1 && (#[trigger] self.nodes@[j]) is Input implies exists|
                            k: int,
                        | 0 <= k < r@.len() && (#[trigger] r@[k]).0 == j by {
                            if j < i {
                                let k0 = choose|k0: int|
                                    0 <= k0 < r0.len() && (#[trigger] r0[k0]).0 == j;
                                assert(r@[k0].0 == j);
                            } else {
                                assert(r@[r0.len() as int].0 == j);
                            }
                        }
                    }
                },
                _ => {},
            }
            i = i + 1;
        }
        r
    }
}

} // verus!
