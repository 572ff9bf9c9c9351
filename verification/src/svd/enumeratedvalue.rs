//! Enumerated values of a field: named values with an optional numeric
//! value and an optional default marker, grouped under a usage.

use vstd::prelude::*;
use crate::error::{ErrorContext, ErrorKind, SvdError, valid_name, check_name};
use crate::num::{
    spec_parse_bool, spec_parse_u32, bool_str, dec_str, format_bool, format_u32_dec,
    lemma_bool_roundtrip, lemma_dec_roundtrip,
};
use crate::svd::enums::usage_str;
use crate::svd::enums::{Usage, spec_usage};
use crate::tree::{
    Node, NodeV, child_text_opt, children_named, first_child, text_node, text_or_empty,
    lemma_children_view, lemma_children_named_prefix, lemma_first_child_at,
    lemma_first_child_none, node_view,
};

verus! {

/// One named value of a field.
#[derive(Clone, Debug, PartialEq)]
pub struct EnumeratedValue {
    pub name: String,
    pub description: Option<String>,
    pub value: Option<u32>,
    pub is_default: Option<bool>,
}

/// The grammar-checked name is required; everything else is optional.
pub open spec fn enumerated_value_parses(n: NodeV) -> bool {
    &&& (child_text_opt(n, "name"@) matches Ok(Some(nm)) && valid_name(nm))
    &&& (child_text_opt(n, "description"@) is Ok)
    &&& (match child_text_opt(n, "value"@) {
        Ok(Some(t)) => spec_parse_u32(t) is Some,
        Ok(None) => true,
        Err(_) => false,
    })
    &&& (match child_text_opt(n, "isDefault"@) {
        Ok(Some(t)) => spec_parse_bool(t) is Some,
        Ok(None) => true,
        Err(_) => false,
    })
}

/// `ev` is exactly what reading `n` gives.
pub open spec fn enumerated_value_matches(n: NodeV, ev: EnumeratedValue) -> bool {
    &&& child_text_opt(n, "name"@) == Ok::<_, ()>(Some(ev.name@))
    &&& (match ev.description {
        Some(d) => child_text_opt(n, "description"@) == Ok::<_, ()>(Some(d@)),
        None => child_text_opt(n, "description"@) == Ok::<Option<Seq<char>>, ()>(None),
    })
    &&& (match child_text_opt(n, "value"@) {
        Ok(Some(t)) => ev.value matches Some(v) && spec_parse_u32(t) == Some(v),
        Ok(None) => ev.value is None,
        Err(_) => false,
    })
    &&& (match child_text_opt(n, "isDefault"@) {
        Ok(Some(t)) => ev.is_default matches Some(b) && spec_parse_bool(t) == Some(b),
        Ok(None) => ev.is_default is None,
        Err(_) => false,
    })
}

impl EnumeratedValue {
    /// Reads an `enumeratedValue` node.
    pub fn parse(tree: &Node) -> (r: Result<EnumeratedValue, SvdError>)
        ensures
            r is Ok <==> enumerated_value_parses(tree@),
            r matches Ok(ev) ==> enumerated_value_matches(tree@, ev),
            r matches Err(e) ==> (e.context@.len() == 0 && (e.kind matches ErrorKind::Parse(_)
                || e.kind matches ErrorKind::Name(_))),
    {
        let name = match tree.get_child_text("name") {
            Ok(v) => v,
            Err(e) => return Err(SvdError::new(ErrorKind::Parse(e))),
        };
        match check_name(name.as_str()) {
            Ok(_) => (),
            Err(e) => return Err(SvdError::new(ErrorKind::Name(e))),
        }
        let description = match tree.get_child_text_opt("description") {
            Ok(v) => v,
            Err(e) => return Err(SvdError::new(ErrorKind::Parse(e))),
        };
        let value = match tree.get_child_u32_opt("value") {
            Ok(v) => v,
            Err(e) => return Err(SvdError::new(ErrorKind::Parse(e))),
        };
        let is_default = match tree.get_child_bool_opt("isDefault") {
            Ok(v) => v,
            Err(e) => return Err(SvdError::new(ErrorKind::Parse(e))),
        };
        Ok(EnumeratedValue { name, description, value, is_default })
    }
}

/// The exact children `encode` writes for one enumerated value, in schema
/// order, absent fields omitted.
pub open spec fn ev_children(ev: EnumeratedValue) -> Seq<NodeV> {
    let s0 = seq![text_node("name"@, ev.name@)];
    let s1 = match ev.description {
        Some(d) => s0.push(text_node("description"@, d@)),
        None => s0,
    };
    let s2 = match ev.value {
        Some(v) => s1.push(text_node("value"@, dec_str(v as nat))),
        None => s1,
    };
    match ev.is_default {
        Some(b) => s2.push(text_node("isDefault"@, bool_str(b))),
        None => s2,
    }
}

/// The exact node `encode` writes for one enumerated value.
pub open spec fn ev_node(ev: EnumeratedValue) -> NodeV {
    NodeV {
        name: "enumeratedValue"@,
        attributes: Seq::empty(),
        children: ev_children(ev),
        text: None,
    }
}

/// The exact node `encode` writes for an enumerated-values group.
pub open spec fn evs_node(evs: EnumeratedValues) -> NodeV {
    NodeV {
        name: "enumeratedValues"@,
        attributes: Seq::empty(),
        children: (match evs.usage {
            Some(u) => seq![text_node("usage"@, usage_str(u))],
            None => Seq::empty(),
        }) + Seq::new(evs.values@.len(), |k: int| ev_node(evs.values@[k])),
        text: None,
    }
}

impl EnumeratedValue {
    /// Writes an `enumeratedValue` node: `name`, then each present field in
    /// schema order. Re-reading the written node gives the same name, value
    /// and default marker.
    pub fn encode(&self) -> (r: Result<Node, SvdError>)
        requires
            valid_name(self.name@),
        ensures
            r is Ok,
            r matches Ok(node) ==> node@ == ev_node(*self),
            r matches Ok(node) ==> node@.name == "enumeratedValue"@ && child_text_opt(
                node@,
                "name"@,
            ) == Ok::<_, ()>(Some(self.name@)) && (match self.value {
                Some(v) => child_text_opt(node@, "value"@) matches Ok(Some(t)) && spec_parse_u32(
                    t,
                ) == Some(v),
                None => first_child(node@, "value"@) is None,
            }) && (match self.is_default {
                Some(b) => child_text_opt(node@, "isDefault"@) matches Ok(Some(t))
                    && spec_parse_bool(t) == Some(b),
                None => first_child(node@, "isDefault"@) is None,
            }),
    {
        proof {
            reveal_strlit("name");
            reveal_strlit("description");
            reveal_strlit("value");
            reveal_strlit("isDefault");
            assert("name"@.len() == 4);
            assert("description"@.len() == 11);
            assert("value"@.len() == 5);
            assert("isDefault"@.len() == 9);
        }
        let mut node = Node::text_element("enumeratedValue", None);
        node.push_text_child("name", self.name.clone());
        match &self.description {
            Some(d) => node.push_text_child("description", d.clone()),
            None => (),
        }
        proof {
            assert(forall|j: int|
                0 <= j < node@.children.len() ==> ((#[trigger] node@.children[j]).name == "name"@
                    || node@.children[j].name == "description"@));
        }
        let ghost val_off = node@.children.len() as int;
        match self.value {
            Some(v) => node.push_text_child("value", format_u32_dec(v)),
            None => (),
        }
        proof {
            match self.value {
                Some(v) => {
                    assert(node@.children[val_off] == text_node("value"@, dec_str(v as nat)));
                },
                None => (),
            }
            assert(forall|j: int|
                0 <= j < node@.children.len() ==> (#[trigger] node@.children[j]).name
                    != "isDefault"@);
            assert(self.value is None ==> forall|j: int|
                0 <= j < node@.children.len() ==> (#[trigger] node@.children[j]).name
                    != "value"@);
        }
        let ghost def_off = node@.children.len() as int;
        match self.is_default {
            Some(b) => node.push_text_child("isDefault", String::from_str(format_bool(b))),
            None => (),
        }
        proof {
            let cs = node@.children;
            assert(cs[0] == text_node("name"@, self.name@));
            lemma_first_child_at(cs, "name"@, 0);
            match self.value {
                Some(v) => {
                    assert(cs[val_off] == text_node("value"@, dec_str(v as nat)));
                    lemma_first_child_at(cs, "value"@, val_off);
                    lemma_dec_roundtrip(v);
                },
                None => {
                    lemma_first_child_none(cs, "value"@);
                },
            }
            match self.is_default {
                Some(b) => {
                    lemma_first_child_at(cs, "isDefault"@, def_off);
                    lemma_bool_roundtrip(b);
                },
                None => {
                    lemma_first_child_none(cs, "isDefault"@);
                },
            }
            assert(node@.children =~= ev_children(*self));
            assert(node@ =~= ev_node(*self));
        }
        Ok(node)
    }
}

/// A group of enumerated values under an optional usage.
#[derive(Clone, Debug, PartialEq)]
pub struct EnumeratedValues {
    pub usage: Option<Usage>,
    pub values: Vec<EnumeratedValue>,
}

/// The optional usage child must be readable and every `enumeratedValue`
/// child must parse.
pub open spec fn enumerated_values_parses(n: NodeV) -> bool {
    &&& (match first_child(n, "usage"@) {
        None => true,
        Some(c) => spec_usage(text_or_empty(c)) is Some,
    })
    &&& (forall|k: int|
        0 <= k < children_named(n.children, "enumeratedValue"@).len()
            ==> enumerated_value_parses(
            #[trigger] children_named(n.children, "enumeratedValue"@)[k],
        ))
}

/// `evs` is exactly what reading `n` gives, value by value in order.
pub open spec fn enumerated_values_matches(n: NodeV, evs: EnumeratedValues) -> bool {
    &&& (match first_child(n, "usage"@) {
        None => evs.usage is None,
        Some(c) => evs.usage matches Some(u) && spec_usage(text_or_empty(c)) == Some(u),
    })
    &&& evs.values@.len() == children_named(n.children, "enumeratedValue"@).len()
    &&& (forall|k: int|
        0 <= k < evs.values@.len() ==> enumerated_value_matches(
            children_named(n.children, "enumeratedValue"@)[k],
            #[trigger] evs.values@[k],
        ))
}

impl EnumeratedValues {
    /// Reads an `enumeratedValues` node: the optional `usage` child and the
    /// ordered `enumeratedValue` children.
    pub fn parse(tree: &Node) -> (r: Result<EnumeratedValues, SvdError>)
        ensures
            r is Ok <==> enumerated_values_parses(tree@),
            r matches Ok(evs) ==> enumerated_values_matches(tree@, evs),
            r matches Err(e) ==> (e.context@.len() <= 1 && (e.kind matches ErrorKind::Parse(_)
                || e.kind matches ErrorKind::Name(_) || e.kind matches ErrorKind::Usage(_))),
    {
        let ghost cs = tree@.children;
        let usage = match tree.get_child("usage") {
            None => None,
            Some(c) => {
                let t = match &c.text {
                    Some(t) => t.clone(),
                    None => String::new(),
                };
                match Usage::parse_str(c, t.as_str()) {
                    Ok(u) => Some(u),
                    Err(e) => return Err(SvdError::new(ErrorKind::Usage(e))),
                }
            },
        };
        let mut values: Vec<EnumeratedValue> = Vec::new();
        let mut i: usize = 0;
        proof {
            lemma_children_view(tree.children@);
        }
        while i < tree.children.len()
            invariant
                i <= tree.children@.len(),
                cs == tree@.children,
                cs.len() == tree.children@.len(),
                forall|j: int| 0 <= j < cs.len() ==> cs[j] == node_view(
                    #[trigger] tree.children@[j],
                ),
                values@.len() == children_named(cs.subrange(0, i as int), "enumeratedValue"@).len(),
                forall|k: int|
                    0 <= k < children_named(cs.subrange(0, i as int), "enumeratedValue"@).len()
                        ==> enumerated_value_parses(
                        #[trigger] children_named(cs.subrange(0, i as int), "enumeratedValue"@)[k],
                    ),
                forall|k: int|
                    0 <= k < values@.len() ==> enumerated_value_matches(
                        children_named(cs.subrange(0, i as int), "enumeratedValue"@)[k],
                        #[trigger] values@[k],
                    ),
            decreases tree.children@.len() - i,
        {
            proof {
                assert(cs.subrange(0, i + 1).drop_last() =~= cs.subrange(0, i as int));
                assert(cs.subrange(0, i + 1).last() == cs[i as int]);
            }
            let c = &tree.children[i];
            if crate::tree::str_eq(c.name.as_str(), "enumeratedValue") {
                match EnumeratedValue::parse(c) {
                    Ok(ev) => values.push(ev),
                    Err(e) => {
                        proof {
                            let pre = children_named(cs.subrange(0, i as int), "enumeratedValue"@);
                            let pre1 = children_named(cs.subrange(0, i + 1), "enumeratedValue"@);
                            assert(pre1 == pre.push(cs[i as int]));
                            assert(pre1[pre.len() as int] == cs[i as int]);
                            lemma_children_named_prefix(cs, "enumeratedValue"@, i + 1);
                            assert(children_named(cs, "enumeratedValue"@)[pre.len() as int] == cs[
                                i as int
                            ]);
                        }
                        return Err(e.with_context(ErrorContext::ParsingEnumeratedValue(i)));
                    },
                }
            }
            i += 1;
        }
        proof {
            assert(cs.subrange(0, cs.len() as int) =~= cs);
        }
        Ok(EnumeratedValues { usage, values })
    }

    /// Writes an `enumeratedValues` node: the usage when present, then one
    /// child per value in order.
    pub fn encode(&self) -> (r: Result<Node, SvdError>)
        requires
            forall|k: int| 0 <= k < self.values@.len() ==> valid_name(
                (#[trigger] self.values@[k]).name@,
            ),
        ensures
            r is Ok,
            r matches Ok(node) ==> node@ == evs_node(*self),
            r matches Ok(node) ==> node@.name == "enumeratedValues"@ && (match self.usage {
                Some(u) => child_text_opt(node@, "usage"@) == Ok::<_, ()>(Some(usage_str(u))),
                None => first_child(node@, "usage"@) is None,
            }) && node@.children.len() == self.values@.len() + (if self.usage is Some {
                1int
            } else {
                0
            }),
    {
        proof {
            reveal_strlit("usage");
            reveal_strlit("read");
            reveal_strlit("write");
            reveal_strlit("read-write");
            reveal_strlit("enumeratedValue");
            assert("usage"@.len() == 5);
            assert("enumeratedValue"@.len() == 15);
            assert("read"@.len() == 4);
            assert("write"@.len() == 5);
            assert("read-write"@.len() == 10);
        }
        let mut node = Node::text_element("enumeratedValues", None);
        match &self.usage {
            Some(u) => node.push_text_child("usage", String::from_str(u.encode_str())),
            None => (),
        }
        let ghost base = node@.children.len() as int;
        let mut i: usize = 0;
        while i < self.values.len()
            invariant
                i <= self.values@.len(),
                forall|k: int| 0 <= k < self.values@.len() ==> valid_name(
                    (#[trigger] self.values@[k]).name@,
                ),
                node@.name == "enumeratedValues"@,
                base == (if self.usage is Some {
                    1int
                } else {
                    0
                }),
                node@.children.len() == base + i,
                self.usage matches Some(u) ==> node@.children[0] == text_node(
                    "usage"@,
                    usage_str(u),
                ),
                forall|j: int|
                    base <= j < node@.children.len() ==> (#[trigger] node@.children[j]).name
                        == "enumeratedValue"@,
                node@.attributes == Seq::<(Seq<char>, Seq<char>)>::empty(),
                node@.text is None,
                node@.children.subrange(0, base as int) == (match self.usage {
                    Some(u) => seq![text_node("usage"@, usage_str(u))],
                    None => Seq::<NodeV>::empty(),
                }),
                forall|k: int|
                    0 <= k < i ==> node@.children[base + k] == ev_node(#[trigger] self.values@[k]),
            decreases self.values@.len() - i,
        {
            let c = match self.values[i].encode() {
                Ok(c) => c,
                Err(e) => return Err(e),
            };
            node.push_child(c);
            i += 1;
        }
        proof {
            reveal_strlit("usage");
            reveal_strlit("read");
            reveal_strlit("write");
            reveal_strlit("read-write");
            reveal_strlit("enumeratedValue");
            assert("usage"@.len() == 5);
            assert("enumeratedValue"@.len() == 15);
            assert("read"@.len() == 4);
            assert("write"@.len() == 5);
            assert("read-write"@.len() == 10);
            match self.usage {
                Some(u) => {
                    lemma_first_child_at(node@.children, "usage"@, 0);
                },
                None => {
                    lemma_first_child_none(node@.children, "usage"@);
                },
            }
            assert(node@.children =~= (match self.usage {
                Some(u) => seq![text_node("usage"@, usage_str(u))],
                None => Seq::<NodeV>::empty(),
            }) + Seq::new(self.values@.len(), |k: int| ev_node(self.values@[k])));
            assert(node@ =~= evs_node(*self));
        }
        Ok(node)
    }
}

} // verus!
