//! A concrete addressable register: name, address offset, its own
//! property overrides, and an optional ordered list of bit fields.

use vstd::prelude::*;
use crate::error::{
    BitRangeError, ErrorContext, ErrorKind, InvalidBitRange, SvdError, valid_name, check_name,
};
use crate::svd::field::field_bit_range_failure;
use crate::num::{spec_parse_u32, hex8_str, format_u32_hex8, lemma_hex8_roundtrip};
use crate::svd::field::{Field, field_parses, field_matches, field_wf, field_node};
use crate::svd::registerproperties::{
    RegisterProperties, register_properties_parses, register_properties_matches,
    register_properties_children,
};
use crate::tree::{
    Node, NodeV, child_text_opt, children_named, first_child, text_node,
    lemma_children_view, lemma_children_named_prefix, lemma_first_child_at, node_view,
};

verus! {

/// One register. Properties left absent here are inherited from the
/// enclosing peripheral's defaults at the point of use.
#[derive(Clone, Debug, PartialEq)]
pub struct Register {
    pub name: String,
    pub description: Option<String>,
    pub address_offset: u32,
    pub properties: RegisterProperties,
    pub fields: Option<Vec<Field>>,
}

/// A grammar-checked name and a readable `addressOffset` are required; the
/// property children and every `field` child of a present `fields` child
/// must be readable.
pub open spec fn register_parses(n: NodeV) -> bool {
    &&& (child_text_opt(n, "name"@) matches Ok(Some(nm)) && valid_name(nm))
    &&& (child_text_opt(n, "description"@) is Ok)
    &&& (child_text_opt(n, "addressOffset"@) matches Ok(Some(t)) && spec_parse_u32(t) is Some)
    &&& register_properties_parses(n)
    &&& (match first_child(n, "fields"@) {
        None => true,
        Some(fc) => forall|k: int|
            0 <= k < children_named(fc.children, "field"@).len() ==> field_parses(
                #[trigger] children_named(fc.children, "field"@)[k],
            ),
    })
}

/// `r` is exactly what reading `n` gives. A `fields` child wholly absent
/// gives `None`; a present but empty one gives an empty list.
pub open spec fn register_matches(n: NodeV, r: Register) -> bool {
    &&& child_text_opt(n, "name"@) == Ok::<_, ()>(Some(r.name@))
    &&& (match r.description {
        Some(d) => child_text_opt(n, "description"@) == Ok::<_, ()>(Some(d@)),
        None => child_text_opt(n, "description"@) == Ok::<Option<Seq<char>>, ()>(None),
    })
    &&& (child_text_opt(n, "addressOffset"@) matches Ok(Some(t)) && spec_parse_u32(t) == Some(
        r.address_offset,
    ))
    &&& register_properties_matches(n, r.properties)
    &&& (match first_child(n, "fields"@) {
        None => r.fields is None,
        Some(fc) => r.fields matches Some(fs) && fs@.len() == children_named(
            fc.children,
            "field"@,
        ).len() && (forall|k: int|
            0 <= k < fs@.len() ==> field_matches(
                children_named(fc.children, "field"@)[k],
                #[trigger] fs@[k],
            )),
    })
}

/// The bit-range failure of the first `field` child that does not parse,
/// if that child's failure is a bit-range one.
pub open spec fn first_field_bit_range_failure(cs: Seq<NodeV>, i: int) -> Option<InvalidBitRange>
    decreases cs.len() - i,
{
    if i < 0 || i >= cs.len() {
        None
    } else if field_parses(cs[i]) {
        first_field_bit_range_failure(cs, i + 1)
    } else {
        field_bit_range_failure(cs[i])
    }
}

proof fn lemma_field_failure_skip(cs: Seq<NodeV>, i: int)
    requires
        0 <= i <= cs.len(),
        forall|j: int| 0 <= j < i ==> field_parses(#[trigger] cs[j]),
    ensures
        first_field_bit_range_failure(cs, 0) == first_field_bit_range_failure(cs, i),
    decreases i,
{
    if i > 0 {
        lemma_field_failure_skip(cs, i - 1);
    }
}

proof fn lemma_no_field_failure(cs: Seq<NodeV>, i: int)
    requires
        0 <= i <= cs.len(),
        forall|j: int| i <= j < cs.len() ==> field_parses(#[trigger] cs[j]),
    ensures
        first_field_bit_range_failure(cs, i) is None,
    decreases cs.len() - i,
{
    if i < cs.len() {
        lemma_no_field_failure(cs, i + 1);
    }
}

/// The bit-range failure a register read runs into: its own scalar reads
/// are fine but the first failing field fails on its bit range.
pub open spec fn register_bit_range_failure(n: NodeV) -> Option<InvalidBitRange> {
    if (child_text_opt(n, "name"@) matches Ok(Some(nm)) && valid_name(nm)) && child_text_opt(
        n,
        "description"@,
    ) is Ok && (child_text_opt(n, "addressOffset"@) matches Ok(Some(t)) && spec_parse_u32(t)
        is Some) && register_properties_parses(n) {
        match first_child(n, "fields"@) {
            Some(fc) => first_field_bit_range_failure(
                children_named(fc.children, "field"@),
                0,
            ),
            None => None,
        }
    } else {
        None
    }
}

/// Well-formedness of a register value: the names in it satisfy the grammar.
pub open spec fn register_wf(r: Register) -> bool {
    &&& valid_name(r.name@)
    &&& (match r.fields {
        Some(fs) => forall|k: int| 0 <= k < fs@.len() ==> field_wf(#[trigger] fs@[k]),
        None => true,
    })
}

/// The exact children `encode` writes for a register, in schema order,
/// absent fields omitted; the `fields` child appears exactly when the
/// field list is present and holds one encoded field per element, in order.
pub open spec fn register_children(r: Register) -> Seq<NodeV> {
    let s0 = seq![text_node("name"@, r.name@)];
    let s1 = match r.description {
        Some(d) => s0.push(text_node("description"@, d@)),
        None => s0,
    };
    let s2 = s1.push(text_node("addressOffset"@, hex8_str(r.address_offset)));
    let s3 = s2 + register_properties_children(r.properties);
    match r.fields {
        Some(fs) => s3.push(
            NodeV {
                name: "fields"@,
                attributes: Seq::empty(),
                children: Seq::new(fs@.len(), |k: int| field_node(fs@[k])),
                text: None,
            },
        ),
        None => s3,
    }
}

/// The exact node `encode` writes for a register.
pub open spec fn register_node(r: Register) -> NodeV {
    NodeV {
        name: "register"@,
        attributes: Seq::empty(),
        children: register_children(r),
        text: None,
    }
}

impl Register {
    /// Reads a `register` node.
    pub fn parse(tree: &Node) -> (r: Result<Register, SvdError>)
        ensures
            r is Ok <==> register_parses(tree@),
            r matches Ok(reg) ==> register_matches(tree@, reg),
            (match register_bit_range_failure(tree@) {
                Some(k) => r matches Err(e) && (e.kind matches ErrorKind::BitRange(be) && be
                    matches BitRangeError::Invalid(nn, kk) && kk == k),
                None => true,
            }),
    {
        let name = match tree.get_child_text("name") {
            Ok(v) => v,
            Err(e) => return Err(SvdError::new(ErrorKind::Parse(e))),
        };
        match check_name(name.as_str()) {
            Ok(_) => (),
            Err(e) => return Err(SvdError::new(ErrorKind::Name(e))),
        }
        let description = match tree.get_child_text_opt("description") {
            Ok(v) => v,
            Err(e) => return Err(SvdError::new(ErrorKind::Parse(e))),
        };
        let address_offset = match tree.get_child_u32("addressOffset") {
            Ok(v) => v,
            Err(e) => return Err(SvdError::new(ErrorKind::Parse(e))),
        };
        let properties = match RegisterProperties::parse(tree) {
            Ok(v) => v,
            Err(e) => return Err(e),
        };
        let fields = match tree.get_child("fields") {
            None => None,
            Some(fc) => {
                let ghost fcs = fc@.children;
                let mut fs: Vec<Field> = Vec::new();
                let mut i: usize = 0;
                proof {
                    lemma_children_view(fc.children@);
                }
                while i < fc.children.len()
                    invariant
                        i <= fc.children@.len(),
                        fcs == fc@.children,
                        first_child(tree@, "fields"@) == Some(fc@),
                        fcs.len() == fc.children@.len(),
                        forall|j: int| 0 <= j < fcs.len() ==> fcs[j] == node_view(
                            #[trigger] fc.children@[j],
                        ),
                        fs@.len() == children_named(fcs.subrange(0, i as int), "field"@).len(),
                        forall|k: int|
                            0 <= k < children_named(fcs.subrange(0, i as int), "field"@).len()
                                ==> field_parses(
                                #[trigger] children_named(fcs.subrange(0, i as int), "field"@)[k],
                            ),
                        forall|k: int|
                            0 <= k < fs@.len() ==> field_matches(
                                children_named(fcs.subrange(0, i as int), "field"@)[k],
                                #[trigger] fs@[k],
                            ),
                    decreases fc.children@.len() - i,
                {
                    proof {
                        assert(fcs.subrange(0, i + 1).drop_last() =~= fcs.subrange(0, i as int));
                        assert(fcs.subrange(0, i + 1).last() == fcs[i as int]);
                    }
                    let c = &fc.children[i];
                    if crate::tree::str_eq(c.name.as_str(), "field") {
                        match Field::parse(c) {
                            Ok(f) => fs.push(f),
                            Err(e) => {
                                proof {
                                    let pre = children_named(
                                        fcs.subrange(0, i as int),
                                        "field"@,
                                    );
                                    let pre1 = children_named(
                                        fcs.subrange(0, i + 1),
                                        "field"@,
                                    );
                                    assert(pre1 == pre.push(fcs[i as int]));
                                    assert(pre1[pre.len() as int] == fcs[i as int]);
                                    lemma_children_named_prefix(fcs, "field"@, i + 1);
                                    assert(children_named(fcs, "field"@)[pre.len() as int] == fcs[
                                        i as int
                                    ]);
                                    assert(!field_parses(fcs[i as int]));
                                    lemma_children_named_prefix(fcs, "field"@, i as int);
                                    let full = children_named(fcs, "field"@);
                                    assert(forall|j: int|
                                        0 <= j < pre.len() ==> field_parses(#[trigger] full[j]));
                                    lemma_field_failure_skip(full, pre.len() as int);
                                    assert(first_field_bit_range_failure(full, pre.len() as int)
                                        == field_bit_range_failure(fcs[i as int]));
                                }
                                return Err(
                                    e.with_context(ErrorContext::ParsingField(i)).with_context(
                                        ErrorContext::InRegister(name.clone()),
                                    ),
                                );
                            },
                        }
                    }
                    i += 1;
                }
                proof {
                    assert(fcs.subrange(0, fcs.len() as int) =~= fcs);
                    lemma_no_field_failure(children_named(fcs, "field"@), 0);
                }
                Some(fs)
            },
        };
        Ok(Register { name, description, address_offset, properties, fields })
    }

    /// Writes a `register` node: `name`, the description when present, the
    /// `addressOffset` in canonical hexadecimal, the property children, and
    /// a `fields` child exactly when the field list is present.
    pub fn encode(&self) -> (r: Result<Node, SvdError>)
        requires
            register_wf(*self),
        ensures
            r is Ok,
            r matches Ok(node) ==> node@ == register_node(*self),
            r matches Ok(node) ==> node@.name == "register"@ && child_text_opt(node@, "name"@)
                == Ok::<_, ()>(Some(self.name@)) && (child_text_opt(node@, "addressOffset"@)
                matches Ok(Some(t)) && spec_parse_u32(t) == Some(self.address_offset)),
    {
        proof {
            reveal_strlit("name");
            reveal_strlit("description");
            reveal_strlit("addressOffset");
            assert("name"@.len() == 4);
            assert("description"@.len() == 11);
            assert("addressOffset"@.len() == 13);
        }
        let mut node = Node::text_element("register", None);
        node.push_text_child("name", self.name.clone());
        match &self.description {
            Some(d) => node.push_text_child("description", d.clone()),
            None => (),
        }
        node.push_text_child("addressOffset", format_u32_hex8(self.address_offset));
        let ghost off: int = if self.description is Some {
            2
        } else {
            1
        };
        proof {
            assert(node@.children[0] == text_node("name"@, self.name@));
            assert(node@.children[off] == text_node(
                "addressOffset"@,
                hex8_str(self.address_offset),
            ));
        }
        self.properties.encode_into(&mut node);
        match &self.fields {
            Some(fs) => {
                let mut fields_node = Node::text_element("fields", None);
                let mut i: usize = 0;
                while i < fs.len()
                    invariant
                        i <= fs@.len(),
                        forall|k: int| 0 <= k < fs@.len() ==> field_wf(#[trigger] fs@[k]),
                        fields_node@.name == "fields"@,
                        fields_node@.attributes == Seq::<(Seq<char>, Seq<char>)>::empty(),
                        fields_node@.text is None,
                        fields_node@.children.len() == i,
                        forall|k: int|
                            0 <= k < i ==> fields_node@.children[k] == field_node(
                                #[trigger] fs@[k],
                            ),
                    decreases fs@.len() - i,
                {
                    let c = match fs[i].encode() {
                        Ok(c) => c,
                        Err(e) => return Err(e),
                    };
                    fields_node.push_child(c);
                    i += 1;
                }
                proof {
                    assert(fields_node@.children =~= Seq::new(
                        fs@.len(),
                        |k: int| field_node(fs@[k]),
                    ));
                }
                node.push_child(fields_node);
            },
            None => (),
        }
        proof {
            assert(node@.children[0] == text_node("name"@, self.name@));
            assert(node@.children[off] == text_node(
                "addressOffset"@,
                hex8_str(self.address_offset),
            ));
            lemma_first_child_at(node@.children, "name"@, 0);
            lemma_first_child_at(node@.children, "addressOffset"@, off);
            lemma_hex8_roundtrip(self.address_offset);
            assert(node@.children =~= register_children(*self));
            assert(node@ =~= register_node(*self));
        }
        Ok(node)
    }
}

} // verus!
