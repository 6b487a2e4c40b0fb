//! Node specifications in arena-resolved form.
//!
//! An [`ArenaNode`] is one node description whose references have already
//! been resolved to arena indices: a stable identity, a kind tag, and a
//! bag of named fields. [`build_arena_node`] turns it into the closed
//! [`NodeOp`] variant, reporting exactly which construction error the
//! description suffers from, if any.

use vstd::prelude::*;

use crate::kinds::spec_kind_known;
use crate::nodes::{ComparisonOp, NodeOp};

verus! {

/// A construction-time failure of the linker. Each names the offending
/// spec identity and, where relevant, the offending field.
#[derive(Debug)]
pub enum LinkError {
    /// The spec's kind tag is outside the registry.
    UnknownKind { id: String },
    /// The spec references an identity that no spec declares.
    UnknownReference { id: String, reference: String },
    /// The spec is part of a reference cycle.
    Cycle { id: String },
    /// The kind's declared arity and the supplied operands disagree.
    ArityMismatch { id: String },
    /// A required scalar parameter is absent or of the wrong type.
    MissingParameter { id: String, field: String },
}

/// The value of one named field of a node spec, references resolved to
/// arena indices.
#[derive(Debug)]
pub enum FieldValue {
    /// One operand reference.
    One(usize),
    /// An ordered list of operand references.
    Many(Vec<usize>),
    /// A scalar parameter: the 64-bit pattern of a double.
    Num(u64),
    /// A textual parameter.
    Text(String),
}

/// One node description with resolved references: its stable identity,
/// its kind tag, and its named fields.
#[derive(Debug)]
pub struct ArenaNode {
    pub id: String,
    pub tag: String,
    pub fields: Vec<(String, FieldValue)>,
}

/// The single operand reference a field holds, if it is one.
pub open spec fn as_one(v: FieldValue) -> Option<usize> {
    match v {
        FieldValue::One(x) => Some(x),
        _ => None,
    }
}

/// The scalar a field holds, if it is one.
pub open spec fn as_num(v: FieldValue) -> Option<u64> {
    match v {
        FieldValue::Num(x) => Some(x),
        _ => None,
    }
}

/// The binding of `name` among `fields`: the latest entry wins.
pub open spec fn spec_field(fields: Seq<(String, FieldValue)>, name: Seq<char>) -> Option<
    FieldValue,
>
    decreases fields.len(),
{
    if fields.len() == 0 {
        None
    } else if fields.last().0@ == name {
        Some(fields.last().1)
    } else {
        spec_field(fields.drop_last(), name)
    }
}

/// Whatever binding `spec_field` returns is one of the field values.
pub proof fn lemma_spec_field_present(fields: Seq<(String, FieldValue)>, name: Seq<char>)
    ensures
        match spec_field(fields, name) {
            Some(f) => exists|k: int| 0 <= k < fields.len() && (#[trigger] fields[k].1) == f,
            None => true,
        },
    decreases fields.len(),
{
    if fields.len() > 0 {
        if fields.last().0@ == name {
            assert(fields[fields.len() - 1].1 == fields.last().1);
        } else {
            lemma_spec_field_present(fields.drop_last(), name);
            match spec_field(fields, name) {
                Some(f) => {
                    let k = choose|k: int|
                        0 <= k < fields.drop_last().len() && (#[trigger] fields.drop_last()[k].1)
                            == f;
                    assert(fields[k].1 == f);
                },
                None => {},
            }
        }
    }
}

/// A field type that `extract_field` can pull out of a node spec.
pub trait ExtractField: Sized {
    /// What a correct extraction of `Self` from field value `v` returns:
    /// `None` when `v` has the wrong form, the carried value otherwise.
    spec fn field_matches(v: FieldValue, r: Option<Self>) -> bool;

    /// Extract a `Self` from one field value.
    fn extract_value(v: &FieldValue) -> (r: Option<Self>)
        ensures
            Self::field_matches(*v, r),
    ;
}

impl ExtractField for usize {
    open spec fn field_matches(v: FieldValue, r: Option<usize>) -> bool {
        r == as_one(v)
    }

    fn extract_value(v: &FieldValue) -> (r: Option<usize>) {
        match v {
            FieldValue::One(x) => Some(*x),
            _ => None,
        }
    }
}

impl ExtractField for u64 {
    open spec fn field_matches(v: FieldValue, r: Option<u64>) -> bool {
        r == as_num(v)
    }

    fn extract_value(v: &FieldValue) -> (r: Option<u64>) {
        match v {
            FieldValue::Num(x) => Some(*x),
            _ => None,
        }
    }
}

impl ExtractField for String {
    open spec fn field_matches(v: FieldValue, r: Option<String>) -> bool {
        match v {
            FieldValue::Text(s) => match r {
                Some(t) => t@ == s@,
                None => false,
            },
            _ => r is None,
        }
    }

    fn extract_value(v: &FieldValue) -> (r: Option<String>) {
        match v {
            FieldValue::Text(s) => Some(s.clone()),
            _ => None,
        }
    }
}

impl ExtractField for Vec<usize> {
    open spec fn field_matches(v: FieldValue, r: Option<Vec<usize>>) -> bool {
        match v {
            FieldValue::Many(xs) => match r {
                Some(ys) => ys@ == xs@,
                None => false,
            },
            _ => r is None,
        }
    }

    fn extract_value(v: &FieldValue) -> (r: Option<Vec<usize>>) {
        match v {
            FieldValue::Many(xs) => {
                let mut out: Vec<usize> = Vec::new();
                let mut i: usize = 0;
                while i < xs.len()
                    invariant
                        i <= xs@.len(),
                        out@ == xs@.take(i as int),
                    decreases xs@.len() - i,
                {
                    out.push(xs[i]);
                    proof {
                        assert(out@ =~= xs@.take(i + 1int));
                    }
                    i = i + 1;
                }
                proof {
                    assert(out@ =~= xs@);
                }
                Some(out)
            },
            _ => None,
        }
    }
}

/// The comparison flavor a textual `op` parameter names, if any.
pub open spec fn op_of_text(s: Seq<char>) -> Option<ComparisonOp> {
    if s == "GreaterThan"@ {
        Some(ComparisonOp::GreaterThan)
    } else if s == "LessThan"@ {
        Some(ComparisonOp::LessThan)
    } else if s == "Equal"@ {
        Some(ComparisonOp::Equal)
    } else {
        None
    }
}

/// `n` is exactly the node that the description `an` describes.
pub open spec fn builds_to(an: ArenaNode, n: NodeOp) -> bool {
    match n {
        NodeOp::Input { name } => an.tag@ == "Input"@ && (match spec_field(an.fields@, "name"@) {
            Some(FieldValue::Text(s)) => s@ == name@,
            _ => false,
        }),
        NodeOp::Constant { value } => an.tag@ == "Constant"@ && (match spec_field(
            an.fields@,
            "value"@,
        ) {
            Some(FieldValue::Num(x)) => x == value,
            _ => false,
        }),
        NodeOp::Add { inputs } => an.tag@ == "Add"@ && (match spec_field(an.fields@, "inputs"@) {
            Some(FieldValue::Many(xs)) => xs@ == inputs@,
            _ => false,
        }),
        NodeOp::Multiply { inputs } => an.tag@ == "Multiply"@ && (match spec_field(
            an.fields@,
            "inputs"@,
        ) {
            Some(FieldValue::Many(xs)) => xs@ == inputs@,
            _ => false,
        }),
        NodeOp::Divide { left, right } => an.tag@ == "Divide"@ && (match spec_field(
            an.fields@,
            "inputs"@,
        ) {
            Some(FieldValue::Many(xs)) => xs@.len() == 2 && xs@[0] == left && xs@[1] == right,
            _ => false,
        }),
        NodeOp::Compare { left, right, op } => an.tag@ == "Compare"@ && (match spec_field(
            an.fields@,
            "inputs"@,
        ) {
            Some(FieldValue::Many(xs)) => xs@.len() == 2 && xs@[0] == left && xs@[1] == right,
            _ => false,
        }) && (match spec_field(an.fields@, "op"@) {
            Some(FieldValue::Text(s)) => op_of_text(s@) == Some(op),
            _ => false,
        }),
        NodeOp::Power { base, exp } => an.tag@ == "Power"@ && (match spec_field(
            an.fields@,
            "inputs"@,
        ) {
            Some(FieldValue::Many(xs)) => xs@.len() == 2 && xs@[0] == base && xs@[1] == exp,
            _ => false,
        }),
        NodeOp::ScaleByK { input, k } => an.tag@ == "ScaleByK"@ && (match spec_field(
            an.fields@,
            "inputs"@,
        ) {
            Some(FieldValue::Many(xs)) => xs@.len() == 1 && xs@[0] == input,
            _ => false,
        }) && (match spec_field(an.fields@, "k"@) {
            Some(FieldValue::Num(x)) => x == k,
            _ => false,
        }),
    }
}

/// Whether the description `an` is complete: a known kind, operands of
/// the right arity, and every required scalar parameter present with the
/// right type. Exactly the descriptions on which `build_arena_node`
/// succeeds.
pub open spec fn buildable(an: ArenaNode) -> bool {
    if an.tag@ == "Input"@ {
        match spec_field(an.fields@, "name"@) {
            Some(FieldValue::Text(_)) => true,
            _ => false,
        }
    } else if an.tag@ == "Constant"@ {
        match spec_field(an.fields@, "value"@) {
            Some(FieldValue::Num(_)) => true,
            _ => false,
        }
    } else if an.tag@ == "Add"@ || an.tag@ == "Multiply"@ {
        match spec_field(an.fields@, "inputs"@) {
            Some(FieldValue::Many(_)) => true,
            _ => false,
        }
    } else if an.tag@ == "Divide"@ || an.tag@ == "Power"@ {
        match spec_field(an.fields@, "inputs"@) {
            Some(FieldValue::Many(xs)) => xs@.len() == 2,
            _ => false,
        }
    } else if an.tag@ == "Compare"@ {
        (match spec_field(an.fields@, "inputs"@) {
            Some(FieldValue::Many(xs)) => xs@.len() == 2,
            _ => false,
        }) && (match spec_field(an.fields@, "op"@) {
            Some(FieldValue::Text(s)) => op_of_text(s@) is Some,
            _ => false,
        })
    } else if an.tag@ == "ScaleByK"@ {
        (match spec_field(an.fields@, "inputs"@) {
            Some(FieldValue::Many(xs)) => xs@.len() == 1,
            _ => false,
        }) && (match spec_field(an.fields@, "k"@) {
            Some(FieldValue::Num(_)) => true,
            _ => false,
        })
    } else {
        false
    }
}

/// Build the closed node variant a description describes.
///
/// Succeeds exactly on `buildable` descriptions. Otherwise: a tag outside
/// the registry is an `UnknownKind`; a present operand list of the wrong
/// length is an `ArityMismatch`; an absent or wrongly typed parameter is
/// a `MissingParameter`.
pub fn build_arena_node(node: &ArenaNode) -> (r: Result<NodeOp, LinkError>)
    ensures
        match r {
            Ok(n) => builds_to(*node, n) && buildable(*node),
            Err(e) => !buildable(*node) && (match e {
                LinkError::UnknownKind { id } => id@ == node.id@ && !spec_kind_known(node.tag@),
                LinkError::ArityMismatch { id } => id@ == node.id@ && spec_kind_known(node.tag@),
                LinkError::MissingParameter { id, .. } => id@ == node.id@ && spec_kind_known(
                    node.tag@,
                ),
                _ => false,
            }),
        },
{
    proof {
        // The dispatch below tests the tags in a different order than
        // `buildable` does, so the two literals compared out of order must
        // be known distinct.
        reveal_strlit("Compare");
        reveal_strlit("Power");
        assert("Compare"@.len() == 7);
        assert("Power"@.len() == 5);
        assert("Compare"@ != "Power"@);
    }
    if node.tag == "Input".to_owned() {
        match extract_field::<String>(node, &"name".to_owned()) {
            Ok(name) => Ok(NodeOp::Input { name }),
            Err(e) => Err(e),
        }
    } else if node.tag == "Constant".to_owned() {
        match extract_field::<u64>(node, &"value".to_owned()) {
            Ok(value) => Ok(NodeOp::Constant { value }),
            Err(e) => Err(e),
        }
    } else if node.tag == "Add".to_owned() {
        match extract_field::<Vec<usize>>(node, &"inputs".to_owned()) {
            Ok(inputs) => Ok(NodeOp::Add { inputs }),
            Err(e) => Err(e),
        }
    } else if node.tag == "Multiply".to_owned() {
        match extract_field::<Vec<usize>>(node, &"inputs".to_owned()) {
            Ok(inputs) => Ok(NodeOp::Multiply { inputs }),
            Err(e) => Err(e),
        }
    } else if node.tag == "Divide".to_owned() {
        match extract_field::<Vec<usize>>(node, &"inputs".to_owned()) {
            Ok(inputs) => {
                if inputs.len() == 2 {
                    Ok(NodeOp::Divide { left: inputs[0], right: inputs[1] })
                } else {
                    Err(LinkError::ArityMismatch { id: node.id.clone() })
                }
            },
            Err(e) => Err(e),
        }
    } else if node.tag == "Compare".to_owned() {
        match extract_field::<Vec<usize>>(node, &"inputs".to_owned()) {
            Ok(inputs) => {
                if inputs.len() == 2 {
                    match extract_field::<String>(node, &"op".to_owned()) {
                        Ok(op_text) => {
                            let op = if op_text == "GreaterThan".to_owned() {
                                Some(ComparisonOp::GreaterThan)
                            } else if op_text == "LessThan".to_owned() {
                                Some(ComparisonOp::LessThan)
                            } else if op_text == "Equal".to_owned() {
                                Some(ComparisonOp::Equal)
                            } else {
                                None
                            };
                            match op {
                                Some(op) => Ok(
                                    NodeOp::Compare { left: inputs[0], right: inputs[1], op },
                                ),
                                None => Err(
                                    LinkError::MissingParameter {
                                        id: node.id.clone(),
                                        field: "op".to_owned(),
                                    },
                                ),
                            }
                        },
                        Err(e) => Err(e),
                    }
                } else {
                    Err(LinkError::ArityMismatch { id: node.id.clone() })
                }
            },
            Err(e) => Err(e),
        }
    } else if node.tag == "Power".to_owned() {
        match extract_field::<Vec<usize>>(node, &"inputs".to_owned()) {
            Ok(inputs) => {
                if inputs.len() == 2 {
                    Ok(NodeOp::Power { base: inputs[0], exp: inputs[1] })
                } else {
                    Err(LinkError::ArityMismatch { id: node.id.clone() })
                }
            },
            Err(e) => Err(e),
        }
    } else if node.tag == "ScaleByK".to_owned() {
        match extract_field::<Vec<usize>>(node, &"inputs".to_owned()) {
            Ok(inputs) => {
                if inputs.len() == 1 {
                    match extract_field::<u64>(node, &"k".to_owned()) {
                        Ok(k) => Ok(NodeOp::ScaleByK { input: inputs[0], k }),
                        Err(e) => Err(e),
                    }
                } else {
                    Err(LinkError::ArityMismatch { id: node.id.clone() })
                }
            },
            Err(e) => Err(e),
        }
    } else {
        Err(LinkError::UnknownKind { id: node.id.clone() })
    }
}

/// Find the binding of `name` among the fields of `node`; the latest
/// entry wins.
fn find_field<'a>(node: &'a ArenaNode, name: &String) -> (r: Option<&'a FieldValue>)
    ensures
        match r {
            Some(f) => spec_field(node.fields@, name@) == Some(*f),
            None => spec_field(node.fields@, name@) is None,
        },
{
    let n = node.fields.len();
    let mut best: Option<usize> = None;
    let mut i: usize = 0;
    while i < n
        invariant
            i <= n,
            n == node.fields@.len(),
            match best {
                Some(b) => b < i && spec_field(node.fields@.take(i as int), name@) == Some(
                    node.fields@[b as int].1,
                ),
                None => spec_field(node.fields@.take(i as int), name@) is None,
            },
        decreases n - i,
    {
        proof {
            assert(node.fields@.take(i + 1int).drop_last() =~= node.fields@.take(i as int));
        }
        if node.fields[i].0 == *name {
            best = Some(i);
        }
        i = i + 1;
    }
    proof {
        assert(node.fields@.take(n as int) =~= node.fields@);
    }
    match best {
        Some(b) => Some(&node.fields[b].1),
        None => None,
    }
}

/// Pull the typed value of field `field_name` out of `node`, or report a
/// missing (or wrongly typed) parameter on `node`'s identity.
pub fn extract_field<T: ExtractField>(node: &ArenaNode, field_name: &String) -> (r: Result<
    T,
    LinkError,
>)
    ensures
        match r {
            Ok(v) => {
                &&& spec_field(node.fields@, field_name@) is Some
                &&& (match spec_field(node.fields@, field_name@) {
                    Some(f) => T::field_matches(f, Some(v)),
                    None => false,
                })
            },
            Err(e) => {
                &&& (match e {
                    LinkError::MissingParameter { id, field } => id@ == node.id@ && field@
                        == field_name@,
                    _ => false,
                })
                &&& (match spec_field(node.fields@, field_name@) {
                    Some(f) => T::field_matches(f, Option::<T>::None),
                    None => true,
                })
            },
        },
{
    let found = find_field(node, field_name);
    match found {
        Some(f) => {
            match T::extract_value(f) {
                Some(v) => Ok(v),
                None => Err(
                    LinkError::MissingParameter { id: node.id.clone(), field: field_name.clone() },
                ),
            }
        },
        None => Err(
            LinkError::MissingParameter { id: node.id.clone(), field: field_name.clone() },
        ),
    }
}

} // verus!
