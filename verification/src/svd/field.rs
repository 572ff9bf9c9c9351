//! A bit field of a register: a grammar-checked name, a canonical bit
//! range, and optional access, enumerated values, write constraint and
//! modified-write behaviour.

use vstd::prelude::*;
use crate::bitrange::{BitRange, spec_bit_range, lemma_bit_range_roundtrip};
use crate::error::BitRangeError;
use crate::error::{ErrorContext, ErrorKind, InvalidBitRange, SvdError, valid_name, check_name};
use crate::num::dec_str;
use crate::svd::enums::{
    AccessType, ModifiedWriteValues, spec_access, spec_modified_write_values, access_str,
    modified_write_values_str,
};
use crate::svd::enumeratedvalue::{
    EnumeratedValues, enumerated_values_parses, enumerated_values_matches, evs_node,
};
use crate::svd::writeconstraint::{WriteConstraint, wc_parses, wc_matches, wc_node};
use crate::tree::{
    Node, NodeV, child_text_opt, first_child, text_or_empty, text_node,
    lemma_first_child_at, lemma_first_child_none,
};

verus! {

/// One bit field of a register.
#[derive(Clone, Debug, PartialEq)]
pub struct Field {
    pub name: String,
    pub description: Option<String>,
    pub bit_range: BitRange,
    pub access: Option<AccessType>,
    pub enumerated_values: Option<EnumeratedValues>,
    pub write_constraint: Option<WriteConstraint>,
    pub modified_write_values: Option<ModifiedWriteValues>,
}

/// A grammar-checked name and a resolvable bit range are required; the
/// rest is optional but must be readable when present.
pub open spec fn field_parses(n: NodeV) -> bool {
    &&& (child_text_opt(n, "name"@) matches Ok(Some(nm)) && valid_name(nm))
    &&& (child_text_opt(n, "description"@) is Ok)
    &&& spec_bit_range(n) is Ok
    &&& (match first_child(n, "access"@) {
        None => true,
        Some(c) => spec_access(text_or_empty(c)) is Some,
    })
    &&& (match first_child(n, "enumeratedValues"@) {
        None => true,
        Some(c) => enumerated_values_parses(c),
    })
    &&& (match first_child(n, "writeConstraint"@) {
        None => true,
        Some(c) => wc_parses(c),
    })
    &&& (match first_child(n, "modifiedWriteValues"@) {
        None => true,
        Some(c) => spec_modified_write_values(text_or_empty(c)) is Some,
    })
}

/// `f` is exactly what reading `n` gives.
pub open spec fn field_matches(n: NodeV, f: Field) -> bool {
    &&& child_text_opt(n, "name"@) == Ok::<_, ()>(Some(f.name@))
    &&& (match f.description {
        Some(d) => child_text_opt(n, "description"@) == Ok::<_, ()>(Some(d@)),
        None => child_text_opt(n, "description"@) == Ok::<Option<Seq<char>>, ()>(None),
    })
    &&& spec_bit_range(n) == Ok::<BitRange, InvalidBitRange>(f.bit_range)
    &&& (match first_child(n, "access"@) {
        None => f.access is None,
        Some(c) => f.access matches Some(a) && spec_access(text_or_empty(c)) == Some(a),
    })
    &&& (match first_child(n, "enumeratedValues"@) {
        None => f.enumerated_values is None,
        Some(c) => f.enumerated_values matches Some(evs) && enumerated_values_matches(c, evs),
    })
    &&& (match first_child(n, "writeConstraint"@) {
        None => f.write_constraint is None,
        Some(c) => f.write_constraint matches Some(wc) && wc_matches(c, wc),
    })
    &&& (match first_child(n, "modifiedWriteValues"@) {
        None => f.modified_write_values is None,
        Some(c) => f.modified_write_values matches Some(m) && spec_modified_write_values(
            text_or_empty(c),
        ) == Some(m),
    })
}

/// Well-formedness of a field value: the names in it satisfy the grammar.
pub open spec fn field_wf(f: Field) -> bool {
    &&& valid_name(f.name@)
    &&& (match f.enumerated_values {
        Some(evs) => forall|k: int|
            0 <= k < evs.values@.len() ==> valid_name((#[trigger] evs.values@[k]).name@),
        None => true,
    })
}

/// The exact children `encode` writes for a field, in schema order: the
/// bit position always in the canonical `bitOffset`/`bitWidth` form, never
/// as `msb`/`lsb` or a `bitRange` string; absent fields omitted.
pub open spec fn field_children(f: Field) -> Seq<NodeV> {
    let s0 = seq![text_node("name"@, f.name@)];
    let s1 = match f.description {
        Some(d) => s0.push(text_node("description"@, d@)),
        None => s0,
    };
    let s2 = s1.push(text_node("bitOffset"@, dec_str(f.bit_range.offset as nat))).push(
        text_node("bitWidth"@, dec_str(f.bit_range.width as nat)),
    );
    let s3 = match f.access {
        Some(a) => s2.push(text_node("access"@, access_str(a))),
        None => s2,
    };
    let s4 = match f.enumerated_values {
        Some(evs) => s3.push(evs_node(evs)),
        None => s3,
    };
    let s5 = match f.write_constraint {
        Some(wc) => s4.push(wc_node(wc)),
        None => s4,
    };
    match f.modified_write_values {
        Some(m) => s5.push(text_node("modifiedWriteValues"@, modified_write_values_str(m))),
        None => s5,
    }
}

/// The exact node `encode` writes for a field.
pub open spec fn field_node(f: Field) -> NodeV {
    NodeV { name: "field"@, attributes: Seq::empty(), children: field_children(f), text: None }
}

/// The bit-range failure a field read runs into, when its name and
/// description read fine: the reason the resolver rejects the node, if it
/// does.
pub open spec fn field_bit_range_failure(n: NodeV) -> Option<InvalidBitRange> {
    if (child_text_opt(n, "name"@) matches Ok(Some(nm)) && valid_name(nm)) && child_text_opt(
        n,
        "description"@,
    ) is Ok {
        match spec_bit_range(n) {
            Ok(_) => None,
            Err(k) => Some(k),
        }
    } else {
        None
    }
}

proof fn lemma_field_strings()
    ensures
        "name"@.len() == 4,
        "description"@.len() == 11,
        "bitOffset"@.len() == 9,
        "bitWidth"@.len() == 8,
        "bitRange"@.len() == 8,
        "msb"@.len() == 3,
        "access"@.len() == 6,
        "enumeratedValues"@.len() == 16,
        "writeConstraint"@.len() == 15,
        "modifiedWriteValues"@.len() == 19,
        "bitWidth"@[3] == 'W',
        "bitRange"@[3] == 'R',
{
    reveal_strlit("name");
    reveal_strlit("description");
    reveal_strlit("bitOffset");
    reveal_strlit("bitWidth");
    reveal_strlit("bitRange");
    reveal_strlit("msb");
    reveal_strlit("access");
    reveal_strlit("enumeratedValues");
    reveal_strlit("writeConstraint");
    reveal_strlit("modifiedWriteValues");
}

impl Field {
    /// Reads a `field` node.
    pub fn parse(tree: &Node) -> (r: Result<Field, SvdError>)
        ensures
            r is Ok <==> field_parses(tree@),
            r matches Ok(f) ==> field_matches(tree@, f),
            (match field_bit_range_failure(tree@) {
                Some(k) => r matches Err(e) && (e.kind matches ErrorKind::BitRange(be) && be
                    matches BitRangeError::Invalid(nn, kk) && nn@ == tree@ && kk == k),
                None => true,
            }),
    {
        let name = match tree.get_child_text("name") {
            Ok(v) => v,
            Err(e) => return Err(SvdError::new(ErrorKind::Parse(e))),
        };
        match check_name(name.as_str()) {
            Ok(_) => (),
            Err(e) => return Err(SvdError::new(ErrorKind::Name(e))),
        }
        let description = match tree.get_child_text_opt("description") {
            Ok(v) => v,
            Err(e) => return Err(SvdError::new(ErrorKind::Parse(e))),
        };
        let bit_range = match BitRange::parse(tree) {
            Ok(v) => v,
            Err(e) => return Err(SvdError::new(ErrorKind::BitRange(e))),
        };
        let access = match tree.get_child("access") {
            None => None,
            Some(c) => {
                let t = match &c.text {
                    Some(t) => t.clone(),
                    None => String::new(),
                };
                match AccessType::parse_str(c, t.as_str()) {
                    Ok(a) => Some(a),
                    Err(e) => return Err(SvdError::new(ErrorKind::AccessType(e))),
                }
            },
        };
        let enumerated_values = match tree.get_child("enumeratedValues") {
            None => None,
            Some(c) => match EnumeratedValues::parse(c) {
                Ok(evs) => Some(evs),
                Err(e) => return Err(e.with_context(ErrorContext::InField(name.clone()))),
            },
        };
        let write_constraint = match tree.get_child("writeConstraint") {
            None => None,
            Some(c) => match WriteConstraint::parse(c) {
                Ok(wc) => Some(wc),
                Err(e) => return Err(e.with_context(ErrorContext::InField(name.clone()))),
            },
        };
        let modified_write_values = match tree.get_child("modifiedWriteValues") {
            None => None,
            Some(c) => {
                let t = match &c.text {
                    Some(t) => t.clone(),
                    None => String::new(),
                };
                match ModifiedWriteValues::parse_str(c, t.as_str()) {
                    Ok(m) => Some(m),
                    Err(e) => return Err(SvdError::new(ErrorKind::ModifiedWriteValues(e))),
                }
            },
        };
        Ok(
            Field {
                name,
                description,
                bit_range,
                access,
                enumerated_values,
                write_constraint,
                modified_write_values,
            },
        )
    }

    /// Writes a `field` node: `name`, the description when present, the
    /// canonical `bitOffset`/`bitWidth` pair, then the optional children in
    /// schema order. Re-reading the written node resolves the same bit
    /// range.
    #[verifier::rlimit(100)]
    pub fn encode(&self) -> (r: Result<Node, SvdError>)
        requires
            field_wf(*self),
        ensures
            r is Ok,
            r matches Ok(node) ==> node@ == field_node(*self),
            r matches Ok(node) ==> node@.name == "field"@ && child_text_opt(node@, "name"@)
                == Ok::<_, ()>(Some(self.name@)) && spec_bit_range(node@) == Ok::<
                BitRange,
                InvalidBitRange,
            >(self.bit_range),
    {
        proof {
            lemma_field_strings();
        }
        let mut node = Node::text_element("field", None);
        node.push_text_child("name", self.name.clone());
        match &self.description {
            Some(d) => node.push_text_child("description", d.clone()),
            None => (),
        }
        let ghost pre = node@.children;
        let mut br = self.bit_range.encode_children();
        let b1 = br.remove(0);
        let b0 = br.remove(0);
        node.push_child(b1);
        node.push_child(b0);
        let ghost mid = node@.children;
        match &self.access {
            Some(a) => node.push_child(a.encode()),
            None => (),
        }
        match &self.enumerated_values {
            Some(evs) => {
                let c = match evs.encode() {
                    Ok(c) => c,
                    Err(e) => return Err(e),
                };
                node.push_child(c);
            },
            None => (),
        }
        match &self.write_constraint {
            Some(wc) => {
                let c = match wc.encode() {
                    Ok(c) => c,
                    Err(e) => return Err(e),
                };
                node.push_child(c);
            },
            None => (),
        }
        match &self.modified_write_values {
            Some(m) => node.push_text_child(
                "modifiedWriteValues",
                String::from_str(m.encode_str()),
            ),
            None => (),
        }
        proof {
            let cs = node@.children;
            let off: int = if self.description is Some {
                2
            } else {
                1
            };
            assert(cs[0] == text_node("name"@, self.name@));
            assert(cs[off] == text_node("bitOffset"@, dec_str(self.bit_range.offset as nat)));
            assert(cs[off + 1] == text_node("bitWidth"@, dec_str(self.bit_range.width as nat)));
            assert forall|j: int| 0 <= j < cs.len() implies (#[trigger] cs[j]).name != "bitRange"@
                && cs[j].name != "msb"@ by {
                assert(cs[j].name == "name"@ || cs[j].name == "description"@ || cs[j].name
                    == "bitOffset"@ || cs[j].name == "bitWidth"@ || cs[j].name == "access"@
                    || cs[j].name == "enumeratedValues"@ || cs[j].name == "writeConstraint"@
                    || cs[j].name == "modifiedWriteValues"@);
            }
            lemma_first_child_none(cs, "bitRange"@);
            lemma_first_child_none(cs, "msb"@);
            lemma_first_child_at(cs, "name"@, 0);
            lemma_first_child_at(cs, "bitOffset"@, off);
            lemma_first_child_at(cs, "bitWidth"@, off + 1);
            crate::num::lemma_dec_roundtrip(self.bit_range.offset);
            crate::num::lemma_dec_roundtrip(self.bit_range.width);
            lemma_bit_range_roundtrip(node@, self.bit_range);
            assert(node@.children =~= field_children(*self));
            assert(node@ =~= field_node(*self));
        }
        Ok(node)
    }
}

} // verus!
