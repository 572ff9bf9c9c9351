//! The interrupt record associated with a peripheral.

use vstd::prelude::*;
use crate::error::{ErrorKind, ParseError, SvdError};
use crate::num::{spec_parse_u32, dec_str, format_u32_dec, lemma_dec_roundtrip};
use crate::tree::{
    Node, NodeV, child_text_opt, first_child, text_node, lemma_first_child_at,
};

verus! {

/// A flat record: interrupt name, optional description, interrupt number.
#[derive(Clone, Debug, PartialEq)]
pub struct Interrupt {
    pub name: String,
    pub description: Option<String>,
    pub value: u32,
}

/// `name` and a readable `value` are required; `description` is optional.
pub open spec fn interrupt_parses(n: NodeV) -> bool {
    &&& (child_text_opt(n, "name"@) matches Ok(Some(_)))
    &&& (child_text_opt(n, "description"@) is Ok)
    &&& (child_text_opt(n, "value"@) matches Ok(Some(t)) && spec_parse_u32(t) is Some)
}

/// `it` is exactly what reading `n` gives.
pub open spec fn interrupt_matches(n: NodeV, it: Interrupt) -> bool {
    &&& child_text_opt(n, "name"@) == Ok::<_, ()>(Some(it.name@))
    &&& (match it.description {
        Some(d) => child_text_opt(n, "description"@) == Ok::<_, ()>(Some(d@)),
        None => child_text_opt(n, "description"@) == Ok::<Option<Seq<char>>, ()>(None),
    })
    &&& (child_text_opt(n, "value"@) matches Ok(Some(t)) && spec_parse_u32(t) == Some(it.value))
}

/// The failure kind reading `n` as an interrupt produces, mirroring the
/// read order: the kind of a nested failure is fixed by the node alone,
/// so callers wrap it in context without altering it.
pub open spec fn interrupt_error_matches(n: NodeV, k: ErrorKind) -> bool {
    if !(child_text_opt(n, "name"@) matches Ok(Some(_))) {
        match child_text_opt(n, "name"@) {
            Ok(_) => (k matches ErrorKind::Parse(pe) && pe matches ParseError::MissingTag(nn, s)
                && nn@ == n && s@ == "name"@),
            Err(_) => (k matches ErrorKind::Parse(pe) && pe matches ParseError::EmptyTag(nn, s)
                && first_child(n, "name"@) == Some(nn@) && s@ == "name"@),
        }
    } else if child_text_opt(n, "description"@) is Err {
        k matches ErrorKind::Parse(pe) && pe matches ParseError::EmptyTag(nn, s) && first_child(
            n,
            "description"@,
        ) == Some(nn@) && s@ == "description"@
    } else {
        match child_text_opt(n, "value"@) {
            Ok(Some(t)) => spec_parse_u32(t) is None && (k matches ErrorKind::Parse(pe) && pe
                matches ParseError::Other(nn) && first_child(n, "value"@) == Some(nn@)),
            Ok(None) => (k matches ErrorKind::Parse(pe) && pe matches ParseError::MissingTag(
                nn,
                s,
            ) && nn@ == n && s@ == "value"@),
            Err(_) => (k matches ErrorKind::Parse(pe) && pe matches ParseError::EmptyTag(nn, s)
                && first_child(n, "value"@) == Some(nn@) && s@ == "value"@),
        }
    }
}

/// The exact node `encode` writes for an interrupt.
pub open spec fn interrupt_node(it: Interrupt) -> NodeV {
    NodeV {
        name: "interrupt"@,
        attributes: Seq::empty(),
        children: match it.description {
            Some(d) => seq![
                text_node("name"@, it.name@),
                text_node("description"@, d@),
                text_node("value"@, dec_str(it.value as nat)),
            ],
            None => seq![
                text_node("name"@, it.name@),
                text_node("value"@, dec_str(it.value as nat)),
            ],
        },
        text: None,
    }
}

impl Interrupt {
    /// Reads an `interrupt` node.
    pub fn parse(tree: &Node) -> (r: Result<Interrupt, SvdError>)
        ensures
            r is Ok <==> interrupt_parses(tree@),
            r matches Ok(it) ==> interrupt_matches(tree@, it),
            r matches Err(e) ==> (e.kind matches ErrorKind::Parse(_) && e.context@.len() == 0),
            r matches Err(e) ==> interrupt_error_matches(tree@, e.kind),
    {
        let name = match tree.get_child_text("name") {
            Ok(v) => v,
            Err(e) => return Err(SvdError::new(ErrorKind::Parse(e))),
        };
        let description = match tree.get_child_text_opt("description") {
            Ok(v) => v,
            Err(e) => return Err(SvdError::new(ErrorKind::Parse(e))),
        };
        let value = match tree.get_child_u32("value") {
            Ok(v) => v,
            Err(e) => return Err(SvdError::new(ErrorKind::Parse(e))),
        };
        Ok(Interrupt { name, description, value })
    }

    /// Writes an `interrupt` node: `name`, the description when present,
    /// then `value` in canonical decimal; nothing else.
    pub fn encode(&self) -> (r: Result<Node, SvdError>)
        ensures
            r is Ok,
            r matches Ok(node) ==> node@ == interrupt_node(*self),
    {
        let mut node = Node::text_element("interrupt", None);
        node.push_text_child("name", self.name.clone());
        match &self.description {
            Some(d) => node.push_text_child("description", d.clone()),
            None => (),
        }
        node.push_text_child("value", format_u32_dec(self.value));
        proof {
            match &self.description {
                Some(d) => {
                    assert(node@.children =~= seq![
                        text_node("name"@, self.name@),
                        text_node("description"@, d@),
                        text_node("value"@, dec_str(self.value as nat)),
                    ]);
                },
                None => {
                    assert(node@.children =~= seq![
                        text_node("name"@, self.name@),
                        text_node("value"@, dec_str(self.value as nat)),
                    ]);
                },
            }
            assert(node@ =~= interrupt_node(*self));
        }
        Ok(node)
    }
}

/// Re-reading an encoded interrupt gives the record back, for both the
/// with-description and without-description shapes.
pub proof fn lemma_interrupt_roundtrip(it: Interrupt, n: NodeV)
    requires
        n.children == (match it.description {
            Some(d) => seq![
                text_node("name"@, it.name@),
                text_node("description"@, d@),
                text_node("value"@, dec_str(it.value as nat)),
            ],
            None => seq![
                text_node("name"@, it.name@),
                text_node("value"@, dec_str(it.value as nat)),
            ],
        }),
        it.name@.len() > 0,
        it.description matches Some(d) ==> d@.len() > 0,
    ensures
        interrupt_parses(n),
        interrupt_matches(n, it),
{
    reveal_strlit("name");
    reveal_strlit("description");
    reveal_strlit("value");
    assert("name"@.len() == 4);
    assert("description"@.len() == 11);
    assert("value"@.len() == 5);
    lemma_dec_roundtrip(it.value);
    lemma_first_child_at(n.children, "name"@, 0);
    match it.description {
        Some(d) => {
            lemma_first_child_at(n.children, "description"@, 1);
            lemma_first_child_at(n.children, "value"@, 2);
        },
        None => {
            lemma_first_child_at(n.children, "value"@, 1);
            crate::tree::lemma_first_child_none(n.children, "description"@);
        },
    }
}

} // verus!
