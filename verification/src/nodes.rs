//! The closed set of node operations.
//!
//! A node is one tagged variant: its kind, its scalar parameters, and the
//! arena indices of its operands. Cross-node references are always integer
//! indices into a single arena, and a well-formed node at position `i`
//! references only positions strictly below `i`.

use vstd::prelude::*;

verus! {

/// The flavor of a comparison node.
#[derive(Clone, Copy, Debug, PartialEq, Eq, Structural)]
pub enum ComparisonOp {
    GreaterThan,
    LessThan,
    Equal,
}

/// One node of the arena: the operation it performs, with its parameters
/// and the indices of its operands.
///
/// Scalar parameters (`value`, `k`) are 64-bit patterns of doubles.
#[derive(Clone, Debug)]
pub enum NodeOp {
    /// Value read from the current row under `name`; 0.0 when unbound.
    Input { name: String },
    /// A fixed value.
    Constant { value: u64 },
    /// Sum of the operands; 0.0 of none.
    Add { inputs: Vec<usize> },
    /// Product of the operands; 1.0 of none.
    Multiply { inputs: Vec<usize> },
    /// `left / right`; NaN when `right` is a zero.
    Divide { left: usize, right: usize },
    /// 1.0 when the predicate holds of (`left`, `right`), else 0.0.
    Compare { left: usize, right: usize, op: ComparisonOp },
    /// `base` raised to `exp`.
    Power { base: usize, exp: usize },
    /// `input` scaled by the constant factor `k`.
    ScaleByK { input: usize, k: u64 },
}

impl NodeOp {
    /// The arena indices this node reads, in operand order.
    pub open spec fn spec_inputs(self) -> Seq<usize> {
        match self {
            NodeOp::Input { .. } => Seq::empty(),
            NodeOp::Constant { .. } => Seq::empty(),
            NodeOp::Add { inputs } => inputs@,
            NodeOp::Multiply { inputs } => inputs@,
            NodeOp::Divide { left, right } => seq![left, right],
            NodeOp::Compare { left, right, .. } => seq![left, right],
            NodeOp::Power { base, exp } => seq![base, exp],
            NodeOp::ScaleByK { input, .. } => seq![input],
        }
    }

    /// Whether this node is an input channel.
    pub open spec fn spec_is_input(self) -> bool {
        self is Input
    }

    /// Whether this node is a constant.
    pub open spec fn spec_is_constant(self) -> bool {
        self is Constant
    }

    /// Get the arena indices this node depends on, in operand order.
    pub fn inputs(&self) -> (r: Vec<usize>)
        ensures
            r@ == self.spec_inputs(),
    {
        match self {
            NodeOp::Input { .. } => Vec::new(),
            NodeOp::Constant { .. } => Vec::new(),
            NodeOp::Add { inputs } => copy_indices(inputs),
            NodeOp::Multiply { inputs } => copy_indices(inputs),
            NodeOp::Divide { left, right } => {
                let mut v: Vec<usize> = Vec::new();
                v.push(*left);
                v.push(*right);
                proof {
                    assert(v@ =~= self.spec_inputs());
                }
                v
            },
            NodeOp::Compare { left, right, .. } => {
                let mut v: Vec<usize> = Vec::new();
                v.push(*left);
                v.push(*right);
                proof {
                    assert(v@ =~= self.spec_inputs());
                }
                v
            },
            NodeOp::Power { base, exp } => {
                let mut v: Vec<usize> = Vec::new();
                v.push(*base);
                v.push(*exp);
                proof {
                    assert(v@ =~= self.spec_inputs());
                }
                v
            },
            NodeOp::ScaleByK { input, .. } => {
                let mut v: Vec<usize> = Vec::new();
                v.push(*input);
                proof {
                    assert(v@ =~= self.spec_inputs());
                }
                v
            },
        }
    }

    /// Replace the operand indices of this node, keeping its kind and scalar
    /// parameters. Nullary nodes are left as they are.
    pub fn update_inputs(&mut self, new_inputs: Vec<usize>)
        requires
            new_inputs@.len() == old(self).spec_inputs().len(),
        ensures
            final(self).spec_inputs() == if old(self).spec_inputs().len() == 0 {
                old(self).spec_inputs()
            } else {
                new_inputs@
            },
            same_shape(*old(self), *final(self)),
    {
        match self {
            NodeOp::Input { .. } => {},
            NodeOp::Constant { .. } => {},
            NodeOp::Add { inputs } => {
                *inputs = new_inputs;
            },
            NodeOp::Multiply { inputs } => {
                *inputs = new_inputs;
            },
            NodeOp::Divide { left, right } => {
                *left = new_inputs[0];
                *right = new_inputs[1];
                proof {
                    assert(self.spec_inputs() =~= new_inputs@);
                }
            },
            NodeOp::Compare { left, right, .. } => {
                *left = new_inputs[0];
                *right = new_inputs[1];
                proof {
                    assert(self.spec_inputs() =~= new_inputs@);
                }
            },
            NodeOp::Power { base, exp } => {
                *base = new_inputs[0];
                *exp = new_inputs[1];
                proof {
                    assert(self.spec_inputs() =~= new_inputs@);
                }
            },
            NodeOp::ScaleByK { input, .. } => {
                *input = new_inputs[0];
                proof {
                    assert(self.spec_inputs() =~= new_inputs@);
                }
            },
        }
    }
}

/// Same kind and same scalar parameters, operand indices aside.
pub open spec fn same_shape(a: NodeOp, b: NodeOp) -> bool {
    match (a, b) {
        (NodeOp::Input { name: n1 }, NodeOp::Input { name: n2 }) => n1@ == n2@,
        (NodeOp::Constant { value: v1 }, NodeOp::Constant { value: v2 }) => v1 == v2,
        (NodeOp::Add { .. }, NodeOp::Add { .. }) => true,
        (NodeOp::Multiply { .. }, NodeOp::Multiply { .. }) => true,
        (NodeOp::Divide { .. }, NodeOp::Divide { .. }) => true,
        (NodeOp::Compare { op: o1, .. }, NodeOp::Compare { op: o2, .. }) => o1 == o2,
        (NodeOp::Power { .. }, NodeOp::Power { .. }) => true,
        (NodeOp::ScaleByK { k: k1, .. }, NodeOp::ScaleByK { k: k2, .. }) => k1 == k2,
        _ => false,
    }
}

/// Structural identity: same kind, same scalar parameters, and the same
/// operand indices in the same order. This is the equality under which the
/// linker merges shared subexpressions.
pub open spec fn node_eq_spec(a: NodeOp, b: NodeOp) -> bool {
    same_shape(a, b) && a.spec_inputs() == b.spec_inputs()
}

/// Decide structural identity of two nodes.
pub fn same_node(a: &NodeOp, b: &NodeOp) -> (r: bool)
    ensures
        r == node_eq_spec(*a, *b),
{
    match (a, b) {
        (NodeOp::Input { name: n1 }, NodeOp::Input { name: n2 }) => {
            let r = *n1 == *n2;
            proof {
                if r {
                    assert(a.spec_inputs() =~= b.spec_inputs());
                }
            }
            r
        },
        (NodeOp::Constant { value: v1 }, NodeOp::Constant { value: v2 }) => {
            let r = v1 == v2;
            proof {
                if r {
                    assert(a.spec_inputs() =~= b.spec_inputs());
                }
            }
            r
        },
        (NodeOp::Add { inputs: i1 }, NodeOp::Add { inputs: i2 }) => same_indices(i1, i2),
        (NodeOp::Multiply { inputs: i1 }, NodeOp::Multiply { inputs: i2 }) => same_indices(
            i1,
            i2,
        ),
        (NodeOp::Divide { left: l1, right: r1 }, NodeOp::Divide { left: l2, right: r2 }) => {
            let r = l1 == l2 && r1 == r2;
            proof {
                if r {
                    assert(a.spec_inputs() =~= b.spec_inputs());
                } else {
                    assert(a.spec_inputs()[if l1 == l2 { 1int } else { 0int }] != b.spec_inputs()[
                        if l1 == l2 { 1int } else { 0int }
                    ]);
                }
            }
            r
        },
        (
            NodeOp::Compare { left: l1, right: r1, op: o1 },
            NodeOp::Compare { left: l2, right: r2, op: o2 },
        ) => {
            let r = l1 == l2 && r1 == r2 && o1 == o2;
            proof {
                if l1 == l2 && r1 == r2 {
                    assert(a.spec_inputs() =~= b.spec_inputs());
                } else {
                    assert(a.spec_inputs()[if l1 == l2 { 1int } else { 0int }] != b.spec_inputs()[
                        if l1 == l2 { 1int } else { 0int }
                    ]);
                }
            }
            r
        },
        (NodeOp::Power { base: b1, exp: e1 }, NodeOp::Power { base: b2, exp: e2 }) => {
            let r = b1 == b2 && e1 == e2;
            proof {
                if r {
                    assert(a.spec_inputs() =~= b.spec_inputs());
                } else {
                    assert(a.spec_inputs()[if b1 == b2 { 1int } else { 0int }] != b.spec_inputs()[
                        if b1 == b2 { 1int } else { 0int }
                    ]);
                }
            }
            r
        },
        (NodeOp::ScaleByK { input: i1, k: k1 }, NodeOp::ScaleByK { input: i2, k: k2 }) => {
            let r = i1 == i2 && k1 == k2;
            proof {
                if i1 == i2 {
                    assert(a.spec_inputs() =~= b.spec_inputs());
                } else {
                    assert(a.spec_inputs()[0int] != b.spec_inputs()[0int]);
                }
            }
            r
        },
        _ => false,
    }
}

/// `b` is `a` with every operand index sent through the map `m`: same kind,
/// same scalar parameters, operands remapped pointwise.
pub open spec fn related_nodes(a: NodeOp, b: NodeOp, m: Seq<usize>) -> bool {
    &&& same_shape(a, b)
    &&& b.spec_inputs() == a.spec_inputs().map_values(|j: usize| m[j as int])
}

/// Rebuild `n` with every operand index sent through `m`.
pub fn rewrite_node(n: &NodeOp, m: &Vec<usize>) -> (r: NodeOp)
    requires
        forall|k: int|
            0 <= k < n.spec_inputs().len() ==> (#[trigger] n.spec_inputs()[k]) < m@.len(),
    ensures
        related_nodes(*n, r, m@),
{
    match n {
        NodeOp::Input { name } => {
            let r = NodeOp::Input { name: name.clone() };
            proof {
                assert(r.spec_inputs() =~= n.spec_inputs().map_values(|j: usize| m@[j as int]));
            }
            r
        },
        NodeOp::Constant { value } => {
            let r = NodeOp::Constant { value: *value };
            proof {
                assert(r.spec_inputs() =~= n.spec_inputs().map_values(|j: usize| m@[j as int]));
            }
            r
        },
        NodeOp::Add { inputs } => {
            proof {
                assert forall|k: int| 0 <= k < inputs@.len() implies (#[trigger] inputs@[k])
                    < m@.len() by {
                    assert(n.spec_inputs()[k] == inputs@[k]);
                }
            }
            let r = NodeOp::Add { inputs: map_indices(inputs, m) };
            proof {
                assert(r.spec_inputs() =~= n.spec_inputs().map_values(|j: usize| m@[j as int]));
            }
            r
        },
        NodeOp::Multiply { inputs } => {
            proof {
                assert forall|k: int| 0 <= k < inputs@.len() implies (#[trigger] inputs@[k])
                    < m@.len() by {
                    assert(n.spec_inputs()[k] == inputs@[k]);
                }
            }
            let r = NodeOp::Multiply { inputs: map_indices(inputs, m) };
            proof {
                assert(r.spec_inputs() =~= n.spec_inputs().map_values(|j: usize| m@[j as int]));
            }
            r
        },
        NodeOp::Divide { left, right } => {
            proof {
                assert(n.spec_inputs()[0] == left);
                assert(n.spec_inputs()[1] == right);
            }
            let r = NodeOp::Divide { left: m[*left], right: m[*right] };
            proof {
                assert(r.spec_inputs() =~= n.spec_inputs().map_values(|j: usize| m@[j as int]));
            }
            r
        },
        NodeOp::Compare { left, right, op } => {
            proof {
                assert(n.spec_inputs()[0] == left);
                assert(n.spec_inputs()[1] == right);
            }
            let r = NodeOp::Compare { left: m[*left], right: m[*right], op: *op };
            proof {
                assert(r.spec_inputs() =~= n.spec_inputs().map_values(|j: usize| m@[j as int]));
            }
            r
        },
        NodeOp::Power { base, exp } => {
            proof {
                assert(n.spec_inputs()[0] == base);
                assert(n.spec_inputs()[1] == exp);
            }
            let r = NodeOp::Power { base: m[*base], exp: m[*exp] };
            proof {
                assert(r.spec_inputs() =~= n.spec_inputs().map_values(|j: usize| m@[j as int]));
            }
            r
        },
        NodeOp::ScaleByK { input, k } => {
            proof {
                assert(n.spec_inputs()[0] == input);
            }
            let r = NodeOp::ScaleByK { input: m[*input], k: *k };
            proof {
                assert(r.spec_inputs() =~= n.spec_inputs().map_values(|j: usize| m@[j as int]));
            }
            r
        },
    }
}

/// Map a vector of arena indices pointwise through `m`.
fn map_indices(v: &Vec<usize>, m: &Vec<usize>) -> (r: Vec<usize>)
    requires
        forall|k: int| 0 <= k < v@.len() ==> (#[trigger] v@[k]) < m@.len(),
    ensures
        r@ == v@.map_values(|j: usize| m@[j as int]),
{
    let mut out: Vec<usize> = Vec::new();
    let mut i: usize = 0;
    while i < v.len()
        invariant
            i <= v@.len(),
            forall|k: int| 0 <= k < v@.len() ==> (#[trigger] v@[k]) < m@.len(),
            out@ == v@.take(i as int).map_values(|j: usize| m@[j as int]),
        decreases v@.len() - i,
    {
        out.push(m[v[i]]);
        proof {
            assert(out@ =~= v@.take(i + 1int).map_values(|j: usize| m@[j as int]));
        }
        i = i + 1;
    }
    proof {
        assert(v@.take(v@.len() as int) =~= v@);
    }
    out
}

/// Copy a vector of arena indices.
fn copy_indices(v: &Vec<usize>) -> (r: Vec<usize>)
    ensures
        r@ == v@,
{
    let mut out: Vec<usize> = Vec::new();
    let mut i: usize = 0;
    while i < v.len()
        invariant
            i <= v.len(),
            out@ == v@.take(i as int),
        decreases v.len() - i,
    {
        out.push(v[i]);
        proof {
            assert(out@ =~= v@.take(i + 1int));
        }
        i = i + 1;
    }
    proof {
        assert(out@ =~= v@);
    }
    out
}

/// Decide equality of two index vectors.
fn same_indices(a: &Vec<usize>, b: &Vec<usize>) -> (r: bool)
    ensures
        r == (a@ == b@),
{
    if a.len() != b.len() {
        return false;
    }
    let mut i: usize = 0;
    while i < a.len()
        invariant
            i <= a.len(),
            a@.len() == b@.len(),
            forall|j: int| 0 <= j < i ==> a@[j] == b@[j],
        decreases a.len() - i,
    {
        if a[i] != b[i] {
            return false;
        }
        i = i + 1;
    }
    proof {
        assert(a@ =~= b@);
    }
    true
}

/// Well-formedness of a node standing at arena position `i`: every operand
/// index lies strictly below `i`.
pub open spec fn wf_node_at(n: NodeOp, i: int) -> bool {
    forall|k: int| 0 <= k < n.spec_inputs().len() ==> (#[trigger] n.spec_inputs()[k]) < i
}

/// Topological well-formedness of a whole node sequence.
pub open spec fn wf_nodes(nodes: Seq<NodeOp>) -> bool {
    forall|i: int| 0 <= i < nodes.len() ==> wf_node_at(#[trigger] nodes[i], i)
}

/// Check that every operand index of `n` lies strictly below `i`.
pub fn check_node_at(n: &NodeOp, i: usize) -> (r: bool)
    ensures
        r == wf_node_at(*n, i as int),
{
    let ins = n.inputs();
    let mut k: usize = 0;
    let mut ok: bool = true;
    while k < ins.len()
        invariant
            k <= ins.len(),
            ins@ == n.spec_inputs(),
            ok == (forall|j: int| 0 <= j < k ==> (#[trigger] ins@[j]) < i as int),
        decreases ins.len() - k,
    {
        if ins[k] >= i {
            ok = false;
        }
        k = k + 1;
    }
    ok
}

} // verus!
