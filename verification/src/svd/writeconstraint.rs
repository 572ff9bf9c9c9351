//! The write constraint of a field: exactly one of write-as-read,
//! use-enumerated-values, or an allowed value range.

use vstd::prelude::*;
use crate::error::{ErrorKind, SvdError, WriteConstraintError};
use crate::num::{
    spec_parse_bool, spec_parse_u32, bool_str, dec_str, format_bool, format_u32_dec,
};
use crate::tree::{Node, NodeV, child_text_opt, first_child, text_node};

verus! {

/// An allowed value range.
#[derive(Clone, Copy, Debug, PartialEq, Eq, Structural)]
pub struct WriteConstraintRange {
    pub min: u32,
    pub max: u32,
}

/// Exactly one constraint kind per element.
#[derive(Clone, Copy, Debug, PartialEq, Eq, Structural)]
pub enum WriteConstraint {
    WriteAsRead(bool),
    UseEnumeratedValues(bool),
    Range(WriteConstraintRange),
}

pub open spec fn is_wc_tag(t: Seq<char>) -> bool {
    t == "writeAsRead"@ || t == "useEnumeratedValues"@ || t == "range"@
}

/// How many constraint-kind children the element has.
pub open spec fn wc_count(cs: Seq<NodeV>) -> nat
    decreases cs.len(),
{
    if cs.len() == 0 {
        0
    } else {
        wc_count(cs.drop_last()) + (if is_wc_tag(cs.last().name) {
            1nat
        } else {
            0
        })
    }
}

/// Exactly one constraint-kind child, and that child readable.
pub open spec fn wc_parses(n: NodeV) -> bool {
    &&& wc_count(n.children) == 1
    &&& (match first_child(n, "writeAsRead"@) {
        Some(_) => (child_text_opt(n, "writeAsRead"@) matches Ok(Some(t)) && spec_parse_bool(t)
            is Some),
        None => match first_child(n, "useEnumeratedValues"@) {
            Some(_) => (child_text_opt(n, "useEnumeratedValues"@) matches Ok(Some(t))
                && spec_parse_bool(t) is Some),
            None => match first_child(n, "range"@) {
                Some(rg) => (child_text_opt(rg, "minimum"@) matches Ok(Some(t)) && spec_parse_u32(
                    t,
                ) is Some) && (child_text_opt(rg, "maximum"@) matches Ok(Some(t))
                    && spec_parse_u32(t) is Some),
                None => false,
            },
        },
    })
}

/// `wc` is exactly what reading `n` gives.
pub open spec fn wc_matches(n: NodeV, wc: WriteConstraint) -> bool {
    match wc {
        WriteConstraint::WriteAsRead(b) => child_text_opt(n, "writeAsRead"@) matches Ok(Some(t))
            && spec_parse_bool(t) == Some(b),
        WriteConstraint::UseEnumeratedValues(b) => first_child(n, "writeAsRead"@) is None
            && (child_text_opt(n, "useEnumeratedValues"@) matches Ok(Some(t)) && spec_parse_bool(t)
            == Some(b)),
        WriteConstraint::Range(rg) => first_child(n, "writeAsRead"@) is None && first_child(
            n,
            "useEnumeratedValues"@,
        ) is None && (first_child(n, "range"@) matches Some(rn) && (child_text_opt(rn, "minimum"@)
            matches Ok(Some(t)) && spec_parse_u32(t) == Some(rg.min)) && (child_text_opt(
            rn,
            "maximum"@,
        ) matches Ok(Some(t2)) && spec_parse_u32(t2) == Some(rg.max))),
    }
}

/// The exact node `encode` writes for a write constraint.
pub open spec fn wc_node(wc: WriteConstraint) -> NodeV {
    NodeV {
        name: "writeConstraint"@,
        attributes: Seq::empty(),
        children: match wc {
            WriteConstraint::WriteAsRead(b) => seq![text_node("writeAsRead"@, bool_str(b))],
            WriteConstraint::UseEnumeratedValues(b) => seq![
                text_node("useEnumeratedValues"@, bool_str(b)),
            ],
            WriteConstraint::Range(rg) => seq![
                NodeV {
                    name: "range"@,
                    attributes: Seq::empty(),
                    children: seq![
                        text_node("minimum"@, dec_str(rg.min as nat)),
                        text_node("maximum"@, dec_str(rg.max as nat)),
                    ],
                    text: None,
                },
            ],
        },
        text: None,
    }
}

impl WriteConstraint {
    /// Reads a `writeConstraint` node: no recognized constraint kind is an
    /// unknown-constraint failure, more than one is a multiplicity failure.
    pub fn parse(tree: &Node) -> (r: Result<WriteConstraint, SvdError>)
        ensures
            r is Ok <==> wc_parses(tree@),
            r matches Ok(wc) ==> wc_matches(tree@, wc),
            r matches Err(e) ==> (e.context@.len() == 0 && (e.kind matches
                ErrorKind::WriteConstraint(_) || e.kind matches ErrorKind::Parse(_))),
            wc_count(tree@.children) > 1 ==> (r matches Err(e) && e.kind matches
                ErrorKind::WriteConstraint(WriteConstraintError::MoreThanOne(nn)) && nn@ == tree@),
    {
        let ghost cs = tree@.children;
        let mut count: usize = 0;
        let mut i: usize = 0;
        proof {
            crate::tree::lemma_children_view(tree.children@);
        }
        while i < tree.children.len()
            invariant
                i <= tree.children@.len(),
                cs == tree@.children,
                cs.len() == tree.children@.len(),
                forall|j: int| 0 <= j < cs.len() ==> cs[j] == crate::tree::node_view(
                    #[trigger] tree.children@[j],
                ),
                count <= i,
                count == wc_count(cs.subrange(0, i as int)),
            decreases tree.children@.len() - i,
        {
            proof {
                assert(cs.subrange(0, i + 1).drop_last() =~= cs.subrange(0, i as int));
                assert(cs.subrange(0, i + 1).last() == cs[i as int]);
            }
            let c = &tree.children[i];
            if crate::tree::str_eq(c.name.as_str(), "writeAsRead") || crate::tree::str_eq(
                c.name.as_str(),
                "useEnumeratedValues",
            ) || crate::tree::str_eq(c.name.as_str(), "range") {
                count += 1;
            }
            i += 1;
        }
        proof {
            assert(cs.subrange(0, cs.len() as int) =~= cs);
        }
        if count == 0 {
            return Err(
                SvdError::new(
                    ErrorKind::WriteConstraint(WriteConstraintError::Unknown(tree.clone())),
                ),
            );
        }
        if count > 1 {
            return Err(
                SvdError::new(
                    ErrorKind::WriteConstraint(WriteConstraintError::MoreThanOne(tree.clone())),
                ),
            );
        }
        if tree.get_child("writeAsRead").is_some() {
            match tree.get_child_bool("writeAsRead") {
                Ok(b) => Ok(WriteConstraint::WriteAsRead(b)),
                Err(e) => Err(SvdError::new(ErrorKind::Parse(e))),
            }
        } else if tree.get_child("useEnumeratedValues").is_some() {
            match tree.get_child_bool("useEnumeratedValues") {
                Ok(b) => Ok(WriteConstraint::UseEnumeratedValues(b)),
                Err(e) => Err(SvdError::new(ErrorKind::Parse(e))),
            }
        } else {
            match tree.get_child("range") {
                None => Err(
                    SvdError::new(
                        ErrorKind::WriteConstraint(WriteConstraintError::Unknown(tree.clone())),
                    ),
                ),
                Some(rg) => {
                    let min = match rg.get_child_u32("minimum") {
                        Ok(v) => v,
                        Err(e) => return Err(SvdError::new(ErrorKind::Parse(e))),
                    };
                    let max = match rg.get_child_u32("maximum") {
                        Ok(v) => v,
                        Err(e) => return Err(SvdError::new(ErrorKind::Parse(e))),
                    };
                    Ok(WriteConstraint::Range(WriteConstraintRange { min, max }))
                },
            }
        }
    }

    /// Writes a `writeConstraint` node holding the single constraint kind.
    pub fn encode(&self) -> (r: Result<Node, SvdError>)
        ensures
            r is Ok,
            r matches Ok(node) ==> node@ == wc_node(*self),
    {
        let mut node = Node::text_element("writeConstraint", None);
        match self {
            WriteConstraint::WriteAsRead(b) => {
                node.push_text_child("writeAsRead", String::from_str(format_bool(*b)));
            },
            WriteConstraint::UseEnumeratedValues(b) => {
                node.push_text_child("useEnumeratedValues", String::from_str(format_bool(*b)));
            },
            WriteConstraint::Range(rg) => {
                let mut range_node = Node::text_element("range", None);
                range_node.push_text_child("minimum", format_u32_dec(rg.min));
                range_node.push_text_child("maximum", format_u32_dec(rg.max));
                proof {
                    assert(range_node@.children =~= seq![
                        text_node("minimum"@, dec_str(rg.min as nat)),
                        text_node("maximum"@, dec_str(rg.max as nat)),
                    ]);
                }
                node.push_child(range_node);
            },
        }
        proof {
            match *self {
                WriteConstraint::WriteAsRead(b) => {
                    assert(node@.children =~= seq![text_node("writeAsRead"@, bool_str(b))]);
                },
                WriteConstraint::UseEnumeratedValues(b) => {
                    assert(node@.children =~= seq![
                        text_node("useEnumeratedValues"@, bool_str(b)),
                    ]);
                },
                WriteConstraint::Range(rg) => {
                    assert(node@.children =~= seq![
                        NodeV {
                            name: "range"@,
                            attributes: Seq::empty(),
                            children: seq![
                                text_node("minimum"@, dec_str(rg.min as nat)),
                                text_node("maximum"@, dec_str(rg.max as nat)),
                            ],
                            text: None,
                        },
                    ]);
                },
            }
            assert(node@ =~= wc_node(*self));
        }
        Ok(node)
    }
}

} // verus!
