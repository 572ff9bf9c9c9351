//! The cascading register properties: size, access, protection, reset
//! value and reset mask. Every field is independently optional; an entity
//! that omits one inherits it from the nearest enclosing scope at the point
//! of use.

use vstd::prelude::*;
use crate::error::{AccessTypeError, ErrorKind, SvdError};
use crate::num::{spec_parse_u32, dec_str, format_u32_dec};
use crate::svd::enums::{AccessType, spec_access, access_str};
use crate::tree::{
    Node, NodeV, child_text_opt, first_child, text_node, text_or_empty, children_view,
    lemma_children_view,
};

verus! {

/// The five optional properties, each absent unless the source set it.
#[derive(Debug, PartialEq)]
pub struct RegisterProperties {
    pub size: Option<u32>,
    pub access: Option<AccessType>,
    pub protection: Option<String>,
    pub reset_value: Option<u32>,
    pub reset_mask: Option<u32>,
}

/// Each property child that is present must be readable.
pub open spec fn register_properties_parses(n: NodeV) -> bool {
    &&& (match child_text_opt(n, "size"@) {
        Ok(Some(t)) => spec_parse_u32(t) is Some,
        Ok(None) => true,
        Err(_) => false,
    })
    &&& (match first_child(n, "access"@) {
        None => true,
        Some(c) => spec_access(text_or_empty(c)) is Some,
    })
    &&& (child_text_opt(n, "protection"@) is Ok)
    &&& (match child_text_opt(n, "resetValue"@) {
        Ok(Some(t)) => spec_parse_u32(t) is Some,
        Ok(None) => true,
        Err(_) => false,
    })
    &&& (match child_text_opt(n, "resetMask"@) {
        Ok(Some(t)) => spec_parse_u32(t) is Some,
        Ok(None) => true,
        Err(_) => false,
    })
}

/// `rp` is exactly what reading the property children of `n` gives.
pub open spec fn register_properties_matches(n: NodeV, rp: RegisterProperties) -> bool {
    &&& (match child_text_opt(n, "size"@) {
        Ok(Some(t)) => rp.size matches Some(v) && spec_parse_u32(t) == Some(v),
        Ok(None) => rp.size is None,
        Err(_) => false,
    })
    &&& (match first_child(n, "access"@) {
        None => rp.access is None,
        Some(c) => rp.access matches Some(a) && spec_access(text_or_empty(c)) == Some(a),
    })
    &&& (match child_text_opt(n, "protection"@) {
        Ok(Some(t)) => rp.protection matches Some(p) && p@ == t,
        Ok(None) => rp.protection is None,
        Err(_) => false,
    })
    &&& (match child_text_opt(n, "resetValue"@) {
        Ok(Some(t)) => rp.reset_value matches Some(v) && spec_parse_u32(t) == Some(v),
        Ok(None) => rp.reset_value is None,
        Err(_) => false,
    })
    &&& (match child_text_opt(n, "resetMask"@) {
        Ok(Some(t)) => rp.reset_mask matches Some(v) && spec_parse_u32(t) == Some(v),
        Ok(None) => rp.reset_mask is None,
        Err(_) => false,
    })
}

/// The encoded property children in schema order, absent fields omitted.
pub open spec fn register_properties_children(rp: RegisterProperties) -> Seq<NodeV> {
    let s0 = Seq::<NodeV>::empty();
    let s1 = match rp.size {
        Some(v) => s0.push(text_node("size"@, dec_str(v as nat))),
        None => s0,
    };
    let s2 = match rp.access {
        Some(a) => s1.push(text_node("access"@, access_str(a))),
        None => s1,
    };
    let s3 = match rp.protection {
        Some(p) => s2.push(text_node("protection"@, p@)),
        None => s2,
    };
    let s4 = match rp.reset_value {
        Some(v) => s3.push(text_node("resetValue"@, dec_str(v as nat))),
        None => s3,
    };
    match rp.reset_mask {
        Some(v) => s4.push(text_node("resetMask"@, dec_str(v as nat))),
        None => s4,
    }
}

impl Clone for RegisterProperties {
    /// A clone carries the same value.
    fn clone(&self) -> (r: RegisterProperties)
        ensures
            r == *self,
    {
        RegisterProperties {
            size: self.size,
            access: self.access,
            protection: match &self.protection {
                Some(p) => Some(p.clone()),
                None => None,
            },
            reset_value: self.reset_value,
            reset_mask: self.reset_mask,
        }
    }
}

impl RegisterProperties {
    /// Reads the optional property children of the given node (the node is
    /// the owning entity: a peripheral or a register).
    pub fn parse(tree: &Node) -> (r: Result<RegisterProperties, SvdError>)
        ensures
            r is Ok <==> register_properties_parses(tree@),
            r matches Ok(rp) ==> register_properties_matches(tree@, rp),
            r matches Err(e) ==> ((e.kind matches ErrorKind::Parse(_) || e.kind matches
                ErrorKind::AccessType(_)) && e.context@.len() == 0),
            (match first_child(tree@, "access"@) {
                Some(c) => (spec_access(text_or_empty(c)) is None && (match child_text_opt(
                    tree@,
                    "size"@,
                ) {
                    Ok(Some(t)) => spec_parse_u32(t) is Some,
                    Ok(None) => true,
                    Err(_) => false,
                })) ==> (r matches Err(e) && (e.kind matches ErrorKind::AccessType(ae) && ae
                    matches AccessTypeError::Unknown(nn, tt) && nn@ == c && tt@ == text_or_empty(
                    c,
                ))),
                None => true,
            }),
    {
        let size = match tree.get_child_u32_opt("size") {
            Ok(v) => v,
            Err(e) => return Err(SvdError::new(ErrorKind::Parse(e))),
        };
        let access = match tree.get_child("access") {
            None => None,
            Some(c) => match AccessType::parse(c) {
                Ok(a) => Some(a),
                Err(e) => return Err(SvdError::new(ErrorKind::AccessType(e))),
            },
        };
        let protection = match tree.get_child_text_opt("protection") {
            Ok(v) => v,
            Err(e) => return Err(SvdError::new(ErrorKind::Parse(e))),
        };
        let reset_value = match tree.get_child_u32_opt("resetValue") {
            Ok(v) => v,
            Err(e) => return Err(SvdError::new(ErrorKind::Parse(e))),
        };
        let reset_mask = match tree.get_child_u32_opt("resetMask") {
            Ok(v) => v,
            Err(e) => return Err(SvdError::new(ErrorKind::Parse(e))),
        };
        Ok(RegisterProperties { size, access, protection, reset_value, reset_mask })
    }

    /// Writes the property children in schema order, omitting absent fields.
    pub fn encode_children(&self) -> (r: Result<Vec<Node>, SvdError>)
        ensures
            r is Ok,
            r matches Ok(cs) ==> children_view(cs@) == register_properties_children(*self),
    {
        let mut cs: Vec<Node> = Vec::new();
        match self.size {
            Some(v) => cs.push(Node::text_element("size", Some(format_u32_dec(v)))),
            None => (),
        }
        match &self.access {
            Some(a) => cs.push(a.encode()),
            None => (),
        }
        match &self.protection {
            Some(p) => cs.push(Node::text_element("protection", Some(p.clone()))),
            None => (),
        }
        match self.reset_value {
            Some(v) => cs.push(Node::text_element("resetValue", Some(format_u32_dec(v)))),
            None => (),
        }
        match self.reset_mask {
            Some(v) => cs.push(Node::text_element("resetMask", Some(format_u32_dec(v)))),
            None => (),
        }
        proof {
            lemma_children_view(cs@);
            assert(children_view(cs@) =~= register_properties_children(*self));
        }
        Ok(cs)
    }

    /// Appends the property children to a node being built, in schema
    /// order, omitting absent fields.
    pub fn encode_into(&self, node: &mut Node)
        ensures
            final(node)@.name == old(node)@.name,
            final(node)@.attributes == old(node)@.attributes,
            final(node)@.text == old(node)@.text,
            final(node)@.children == old(node)@.children + register_properties_children(*self),
    {
        match self.size {
            Some(v) => node.push_text_child("size", format_u32_dec(v)),
            None => (),
        }
        match &self.access {
            Some(a) => node.push_child(a.encode()),
            None => (),
        }
        match &self.protection {
            Some(p) => node.push_text_child("protection", p.clone()),
            None => (),
        }
        match self.reset_value {
            Some(v) => node.push_text_child("resetValue", format_u32_dec(v)),
            None => (),
        }
        match self.reset_mask {
            Some(v) => node.push_text_child("resetMask", format_u32_dec(v)),
            None => (),
        }
        proof {
            assert(final(node)@.children =~= old(node)@.children + register_properties_children(
                *self,
            ));
        }
    }

    /// Nearest-enclosing-scope resolution: every property this set leaves
    /// absent is taken from the enclosing scope's set.
    pub fn merged(&self, outer: &RegisterProperties) -> (r: RegisterProperties)
        ensures
            r.size == (if self.size is Some {
                self.size
            } else {
                outer.size
            }),
            r.access == (if self.access is Some {
                self.access
            } else {
                outer.access
            }),
            r.protection == (if self.protection is Some {
                self.protection
            } else {
                outer.protection
            }),
            r.reset_value == (if self.reset_value is Some {
                self.reset_value
            } else {
                outer.reset_value
            }),
            r.reset_mask == (if self.reset_mask is Some {
                self.reset_mask
            } else {
                outer.reset_mask
            }),
    {
        RegisterProperties {
            size: match self.size {
                Some(v) => Some(v),
                None => outer.size,
            },
            access: match self.access {
                Some(a) => Some(a),
                None => outer.access,
            },
            protection: match &self.protection {
                Some(p) => Some(p.clone()),
                None => match &outer.protection {
                    Some(p) => Some(p.clone()),
                    None => None,
                },
            },
            reset_value: match self.reset_value {
                Some(v) => Some(v),
                None => outer.reset_value,
            },
            reset_mask: match self.reset_mask {
                Some(v) => Some(v),
                None => outer.reset_mask,
            },
        }
    }
}

impl Default for RegisterProperties {
    /// The defaulted set: every property absent.
    fn default() -> (r: RegisterProperties)
        ensures
            r.size is None,
            r.access is None,
            r.protection is None,
            r.reset_value is None,
            r.reset_mask is None,
    {
        RegisterProperties {
            size: None,
            access: None,
            protection: None,
            reset_value: None,
            reset_mask: None,
        }
    }
}

/// Every encoded property child carries one of the five property tags.
pub proof fn lemma_rp_children_tags(rp: RegisterProperties)
    ensures
        forall|k: int|
            0 <= k < register_properties_children(rp).len() ==> ((#[trigger]
            register_properties_children(rp)[k]).name == "size"@ || register_properties_children(
                rp,
            )[k].name == "access"@ || register_properties_children(rp)[k].name == "protection"@
                || register_properties_children(rp)[k].name == "resetValue"@
                || register_properties_children(rp)[k].name == "resetMask"@),
{
}

} // verus!
