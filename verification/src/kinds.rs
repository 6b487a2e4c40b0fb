//! The node kind registry: the closed, compile-time-known enumeration of
//! operator kinds, each with its arity shape. Adding a kind means adding a
//! `NodeOp` variant and a case in the evaluator; the registry only
//! describes what exists.

use vstd::prelude::*;

verus! {

/// How many operands a kind takes.
#[derive(Clone, Copy, Debug, PartialEq, Eq, Structural)]
pub enum ArityShape {
    Nullary,
    Unary,
    Binary,
    Nary,
}

/// One registry entry: a kind's tag and its arity shape.
pub struct KindInfo {
    pub name: String,
    pub shape: ArityShape,
}

/// Whether `tag` names a kind of the registry.
pub open spec fn spec_kind_known(tag: Seq<char>) -> bool {
    ||| tag == "Input"@
    ||| tag == "Constant"@
    ||| tag == "Add"@
    ||| tag == "Multiply"@
    ||| tag == "Divide"@
    ||| tag == "Compare"@
    ||| tag == "Power"@
    ||| tag == "ScaleByK"@
}

/// Decide whether `tag` names a kind of the registry.
pub fn kind_known(tag: &String) -> (r: bool)
    ensures
        r == spec_kind_known(tag@),
{
    *tag == "Input".to_owned() || *tag == "Constant".to_owned() || *tag == "Add".to_owned()
        || *tag == "Multiply".to_owned() || *tag == "Divide".to_owned() || *tag
        == "Compare".to_owned() || *tag == "Power".to_owned() || *tag == "ScaleByK".to_owned()
}

/// Enumerate every node kind of this core with its arity shape: the whole,
/// closed registry, in canonical order.
pub fn register_all_nodes() -> (r: Vec<KindInfo>)
    ensures
        r@.len() == 8,
        r@[0].name@ == "Input"@ && r@[0].shape == ArityShape::Nullary,
        r@[1].name@ == "Constant"@ && r@[1].shape == ArityShape::Nullary,
        r@[2].name@ == "Add"@ && r@[2].shape == ArityShape::Nary,
        r@[3].name@ == "Multiply"@ && r@[3].shape == ArityShape::Nary,
        r@[4].name@ == "Divide"@ && r@[4].shape == ArityShape::Binary,
        r@[5].name@ == "Compare"@ && r@[5].shape == ArityShape::Binary,
        r@[6].name@ == "Power"@ && r@[6].shape == ArityShape::Binary,
        r@[7].name@ == "ScaleByK"@ && r@[7].shape == ArityShape::Unary,
        forall|i: int| 0 <= i < 8 ==> spec_kind_known(#[trigger] r@[i].name@),
{
    let mut r: Vec<KindInfo> = Vec::new();
    r.push(KindInfo { name: "Input".to_owned(), shape: ArityShape::Nullary });
    r.push(KindInfo { name: "Constant".to_owned(), shape: ArityShape::Nullary });
    r.push(KindInfo { name: "Add".to_owned(), shape: ArityShape::Nary });
    r.push(KindInfo { name: "Multiply".to_owned(), shape: ArityShape::Nary });
    r.push(KindInfo { name: "Divide".to_owned(), shape: ArityShape::Binary });
    r.push(KindInfo { name: "Compare".to_owned(), shape: ArityShape::Binary });
    r.push(KindInfo { name: "Power".to_owned(), shape: ArityShape::Binary });
    r.push(KindInfo { name: "ScaleByK".to_owned(), shape: ArityShape::Unary });
    r
}

} // verus!
