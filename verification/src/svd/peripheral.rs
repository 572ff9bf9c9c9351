//! A peripheral: the named, addressable unit that owns an address block,
//! interrupts and a register tree, together with the required-field
//! builder that assembles it and the second-pass `derivedFrom` resolver.

use vstd::prelude::*;
use crate::error::{
    BuildError, DeriveError, ErrorContext, ErrorKind, ParseError, SvdError, valid_name,
    check_name,
};
use crate::num::{spec_parse_u32, hex8_str, format_u32_hex8, lemma_hex8_roundtrip};
use crate::svd::addressblock::{
    AddressBlock, address_block_parses, address_block_matches, address_block_node,
};
use crate::svd::interrupt::{Interrupt, interrupt_parses, interrupt_matches, interrupt_node};
use crate::svd::registercluster::{
    RegisterCluster, register_cluster_parses, register_cluster_matches, register_cluster_wf,
    rc_nodes, lemma_rc_nodes, rc_bit_range_failure,
};
use crate::error::{AccessTypeError, BitRangeError, InvalidBitRange};
use crate::svd::enums::spec_access;
use crate::svd::interrupt::interrupt_error_matches;
use crate::tree::text_or_empty;
use crate::svd::registerproperties::{
    RegisterProperties, register_properties_parses, register_properties_matches,
    register_properties_children,
};
use crate::tree::{
    Node, NodeV, attr_of, child_text_opt, children_named, first_child, text_node,
    lemma_children_view, lemma_children_named_prefix, lemma_first_child_at, node_view,
};

verus! {

/// A named, addressable hardware unit. `registers: None` records that the
/// source had no `registers` node at all; `Some` with an empty list records
/// a present but empty one — the two encode differently. `base_address` is
/// required of every peripheral that does not declare `derivedFrom`; a
/// deriving peripheral may leave it to be copied from the named source.
#[derive(Clone, Debug)]
pub struct Peripheral {
    pub name: String,
    pub version: Option<String>,
    pub display_name: Option<String>,
    pub group_name: Option<String>,
    pub description: Option<String>,
    pub base_address: Option<u32>,
    pub address_block: Option<AddressBlock>,
    pub interrupt: Vec<Interrupt>,
    pub default_register_properties: RegisterProperties,
    pub registers: Option<Vec<RegisterCluster>>,
    pub derived_from: Option<String>,
}

/// Deferred assembly of a peripheral: slots are set one by one and checked
/// at build time. `name` is the one required slot.
pub struct PeripheralBuilder {
    pub name: Option<String>,
    pub version: Option<String>,
    pub display_name: Option<String>,
    pub group_name: Option<String>,
    pub description: Option<String>,
    pub base_address: Option<u32>,
    pub address_block: Option<AddressBlock>,
    pub interrupt: Vec<Interrupt>,
    pub default_register_properties: Option<RegisterProperties>,
    pub registers: Option<Vec<RegisterCluster>>,
    pub derived_from: Option<String>,
}

impl Default for PeripheralBuilder {
    /// The empty builder: no slot set.
    fn default() -> (r: PeripheralBuilder)
        ensures
            r.name is None,
            r.version is None,
            r.display_name is None,
            r.group_name is None,
            r.description is None,
            r.base_address is None,
            r.address_block is None,
            r.interrupt@ == Seq::<Interrupt>::empty(),
            r.default_register_properties is None,
            r.registers is None,
            r.derived_from is None,
    {
        let r = PeripheralBuilder {
            name: None,
            version: None,
            display_name: None,
            group_name: None,
            description: None,
            base_address: None,
            address_block: None,
            interrupt: Vec::new(),
            default_register_properties: None,
            registers: None,
            derived_from: None,
        };
        proof {
            assert(r.interrupt@ =~= Seq::<Interrupt>::empty());
        }
        r
    }
}

impl PeripheralBuilder {
    pub fn name(self, v: String) -> (r: Self)
        ensures
            r == (PeripheralBuilder { name: Some(v), ..self }),
    {
        let mut s = self;
        s.name = Some(v);
        s
    }

    pub fn version(self, v: Option<String>) -> (r: Self)
        ensures
            r == (PeripheralBuilder { version: v, ..self }),
    {
        let mut s = self;
        s.version = v;
        s
    }

    pub fn display_name(self, v: Option<String>) -> (r: Self)
        ensures
            r == (PeripheralBuilder { display_name: v, ..self }),
    {
        let mut s = self;
        s.display_name = v;
        s
    }

    pub fn group_name(self, v: Option<String>) -> (r: Self)
        ensures
            r == (PeripheralBuilder { group_name: v, ..self }),
    {
        let mut s = self;
        s.group_name = v;
        s
    }

    pub fn description(self, v: Option<String>) -> (r: Self)
        ensures
            r == (PeripheralBuilder { description: v, ..self }),
    {
        let mut s = self;
        s.description = v;
        s
    }

    pub fn base_address(self, v: Option<u32>) -> (r: Self)
        ensures
            r == (PeripheralBuilder { base_address: v, ..self }),
    {
        let mut s = self;
        s.base_address = v;
        s
    }

    pub fn address_block(self, v: Option<AddressBlock>) -> (r: Self)
        ensures
            r == (PeripheralBuilder { address_block: v, ..self }),
    {
        let mut s = self;
        s.address_block = v;
        s
    }

    pub fn interrupt(self, v: Vec<Interrupt>) -> (r: Self)
        ensures
            r == (PeripheralBuilder { interrupt: v, ..self }),
    {
        let mut s = self;
        s.interrupt = v;
        s
    }

    pub fn default_register_properties(self, v: RegisterProperties) -> (r: Self)
        ensures
            r == (PeripheralBuilder { default_register_properties: Some(v), ..self }),
    {
        let mut s = self;
        s.default_register_properties = Some(v);
        s
    }

    pub fn registers(self, v: Option<Vec<RegisterCluster>>) -> (r: Self)
        ensures
            r == (PeripheralBuilder { registers: v, ..self }),
    {
        let mut s = self;
        s.registers = v;
        s
    }

    pub fn derived_from(self, v: Option<String>) -> (r: Self)
        ensures
            r == (PeripheralBuilder { derived_from: v, ..self }),
    {
        let mut s = self;
        s.derived_from = v;
        s
    }

    /// Assembles the peripheral, or reports the first required slot — in
    /// declaration order — that was never set. Optional slots fall back to
    /// their defaults.
    pub fn build(self) -> (r: Result<Peripheral, BuildError>)
        ensures
            r is Ok <==> self.name is Some,
            r matches Ok(p) ==> {
                &&& Some(p.name) == self.name
                &&& p.version == self.version
                &&& p.display_name == self.display_name
                &&& p.group_name == self.group_name
                &&& p.description == self.description
                &&& p.base_address == self.base_address
                &&& p.address_block == self.address_block
                &&& p.interrupt == self.interrupt
                &&& p.default_register_properties == (match self.default_register_properties {
                    Some(rp) => rp,
                    None => (RegisterProperties {
                        size: None,
                        access: None,
                        protection: None,
                        reset_value: None,
                        reset_mask: None,
                    }),
                })
                &&& p.registers == self.registers
                &&& p.derived_from == self.derived_from
            },
            r matches Err(e) ==> (e matches BuildError::Uninitialized(s) && s@ == "name"@
                && self.name is None),
    {
        let s = self;
        let name = match s.name {
            Some(n) => n,
            None => return Err(BuildError::Uninitialized(String::from_str("name"))),
        };
        let default_register_properties = match s.default_register_properties {
            Some(rp) => rp,
            None => RegisterProperties {
                size: None,
                access: None,
                protection: None,
                reset_value: None,
                reset_mask: None,
            },
        };
        Ok(
            Peripheral {
                name,
                version: s.version,
                display_name: s.display_name,
                group_name: s.group_name,
                description: s.description,
                base_address: s.base_address,
                address_block: s.address_block,
                interrupt: s.interrupt,
                default_register_properties,
                registers: s.registers,
                derived_from: s.derived_from,
            },
        )
    }
}

/// The node is a `peripheral` with a grammar-checked name; every part that
/// is present must be readable; `baseAddress` may be absent (to be supplied
/// by derivation).
pub open spec fn peripheral_parses(n: NodeV) -> bool {
    &&& n.name == "peripheral"@
    &&& (child_text_opt(n, "name"@) matches Ok(Some(nm)) && valid_name(nm))
    &&& (child_text_opt(n, "version"@) is Ok)
    &&& (child_text_opt(n, "displayName"@) is Ok)
    &&& (child_text_opt(n, "groupName"@) is Ok)
    &&& (child_text_opt(n, "description"@) is Ok)
    &&& (match child_text_opt(n, "baseAddress"@) {
        Ok(Some(t)) => spec_parse_u32(t) is Some,
        Ok(None) => attr_of(n, "derivedFrom"@) is Some,
        Err(_) => false,
    })
    &&& (match first_child(n, "addressBlock"@) {
        None => true,
        Some(ab) => address_block_parses(ab),
    })
    &&& (forall|k: int|
        0 <= k < children_named(n.children, "interrupt"@).len() ==> interrupt_parses(
            #[trigger] children_named(n.children, "interrupt"@)[k],
        ))
    &&& register_properties_parses(n)
    &&& (match first_child(n, "registers"@) {
        None => true,
        Some(rn) => forall|k: int|
            0 <= k < rn.children.len() ==> register_cluster_parses(#[trigger] rn.children[k]),
    })
}

/// `p` is exactly what reading `n` gives. A `registers` node wholly absent
/// gives `None`; a present but empty one gives an empty list.
pub open spec fn peripheral_matches(n: NodeV, p: Peripheral) -> bool {
    &&& child_text_opt(n, "name"@) == Ok::<_, ()>(Some(p.name@))
    &&& (match p.version {
        Some(v) => child_text_opt(n, "version"@) == Ok::<_, ()>(Some(v@)),
        None => child_text_opt(n, "version"@) == Ok::<Option<Seq<char>>, ()>(None),
    })
    &&& (match p.display_name {
        Some(v) => child_text_opt(n, "displayName"@) == Ok::<_, ()>(Some(v@)),
        None => child_text_opt(n, "displayName"@) == Ok::<Option<Seq<char>>, ()>(None),
    })
    &&& (match p.group_name {
        Some(v) => child_text_opt(n, "groupName"@) == Ok::<_, ()>(Some(v@)),
        None => child_text_opt(n, "groupName"@) == Ok::<Option<Seq<char>>, ()>(None),
    })
    &&& (match p.description {
        Some(v) => child_text_opt(n, "description"@) == Ok::<_, ()>(Some(v@)),
        None => child_text_opt(n, "description"@) == Ok::<Option<Seq<char>>, ()>(None),
    })
    &&& (match child_text_opt(n, "baseAddress"@) {
        Ok(Some(t)) => p.base_address matches Some(v) && spec_parse_u32(t) == Some(v),
        Ok(None) => p.base_address is None,
        Err(_) => false,
    })
    &&& (match first_child(n, "addressBlock"@) {
        None => p.address_block is None,
        Some(abn) => p.address_block matches Some(ab) && address_block_matches(abn, ab),
    })
    &&& p.interrupt@.len() == children_named(n.children, "interrupt"@).len()
    &&& (forall|k: int|
        0 <= k < p.interrupt@.len() ==> interrupt_matches(
            children_named(n.children, "interrupt"@)[k],
            #[trigger] p.interrupt@[k],
        ))
    &&& register_properties_matches(n, p.default_register_properties)
    &&& (match first_child(n, "registers"@) {
        None => p.registers is None,
        Some(rn) => p.registers matches Some(rs) && rs@.len() == rn.children.len() && (forall|
            k: int,
        |
            0 <= k < rs@.len() ==> register_cluster_matches(rn.children[k], #[trigger] rs@[k])),
    })
    &&& (match attr_of(n, "derivedFrom"@) {
        None => p.derived_from is None,
        Some(v) => p.derived_from matches Some(d) && d@ == v,
    })
}

/// Everything `parse` reads before the interrupt children: the tag, the
/// grammar-checked name, the optional scalars, the base address and the
/// address block.
pub open spec fn peripheral_prelude_parses(n: NodeV) -> bool {
    &&& n.name == "peripheral"@
    &&& (child_text_opt(n, "name"@) matches Ok(Some(nm)) && valid_name(nm))
    &&& (child_text_opt(n, "version"@) is Ok)
    &&& (child_text_opt(n, "displayName"@) is Ok)
    &&& (child_text_opt(n, "groupName"@) is Ok)
    &&& (child_text_opt(n, "description"@) is Ok)
    &&& (match child_text_opt(n, "baseAddress"@) {
        Ok(Some(t)) => spec_parse_u32(t) is Some,
        Ok(None) => true,
        Err(_) => false,
    })
    &&& (match first_child(n, "addressBlock"@) {
        None => true,
        Some(ab) => address_block_parses(ab),
    })
}

/// All interrupt children read fine.
pub open spec fn peripheral_interrupts_parse(n: NodeV) -> bool {
    forall|k: int|
        0 <= k < children_named(n.children, "interrupt"@).len() ==> interrupt_parses(
            #[trigger] children_named(n.children, "interrupt"@)[k],
        )
}

/// The bit-range failure of the first `registers` entry that does not
/// parse, if that entry's failure is a bit-range one.
pub open spec fn first_rc_bit_range_failure(cs: Seq<NodeV>, i: int) -> Option<InvalidBitRange>
    decreases cs.len() - i,
{
    if i < 0 || i >= cs.len() {
        None
    } else if register_cluster_parses(cs[i]) {
        first_rc_bit_range_failure(cs, i + 1)
    } else {
        rc_bit_range_failure(cs[i])
    }
}

proof fn lemma_rc_failure_skip(cs: Seq<NodeV>, i: int)
    requires
        0 <= i <= cs.len(),
        forall|j: int| 0 <= j < i ==> register_cluster_parses(#[trigger] cs[j]),
    ensures
        first_rc_bit_range_failure(cs, 0) == first_rc_bit_range_failure(cs, i),
    decreases i,
{
    if i > 0 {
        lemma_rc_failure_skip(cs, i - 1);
    }
}

proof fn lemma_no_rc_failure(cs: Seq<NodeV>, i: int)
    requires
        0 <= i <= cs.len(),
        forall|j: int| i <= j < cs.len() ==> register_cluster_parses(#[trigger] cs[j]),
    ensures
        first_rc_bit_range_failure(cs, i) is None,
    decreases cs.len() - i,
{
    if i < cs.len() {
        lemma_no_rc_failure(cs, i + 1);
    }
}

/// The bit-range failure the register tree of a peripheral node runs into.
pub open spec fn registers_bit_range_failure(n: NodeV) -> Option<InvalidBitRange> {
    match first_child(n, "registers"@) {
        Some(rn) => first_rc_bit_range_failure(rn.children, 0),
        None => None,
    }
}

/// Well-formedness of a peripheral value: the names in it satisfy the
/// grammar.
pub open spec fn peripheral_wf(p: Peripheral) -> bool {
    &&& valid_name(p.name@)
    &&& (match p.registers {
        Some(rs) => forall|k: int|
            0 <= k < rs@.len() ==> register_cluster_wf(#[trigger] rs@[k]),
        None => true,
    })
}

/// The exact children `encode` writes for a peripheral, in schema
/// declaration order, absent fields omitted: name, the optional scalars,
/// the canonical `baseAddress`, the property children, the address block,
/// one encoded interrupt per element in order, and the `registers` child
/// exactly when the list is present, holding one encoded entry per element
/// in order.
pub open spec fn peripheral_children(p: Peripheral) -> Seq<NodeV> {
    let s0 = seq![text_node("name"@, p.name@)];
    let s1 = match p.version {
        Some(v) => s0.push(text_node("version"@, v@)),
        None => s0,
    };
    let s2 = match p.display_name {
        Some(v) => s1.push(text_node("displayName"@, v@)),
        None => s1,
    };
    let s3 = match p.group_name {
        Some(v) => s2.push(text_node("groupName"@, v@)),
        None => s2,
    };
    let s4 = match p.description {
        Some(v) => s3.push(text_node("description"@, v@)),
        None => s3,
    };
    let s5 = match p.base_address {
        Some(a) => s4.push(text_node("baseAddress"@, hex8_str(a))),
        None => s4,
    };
    let s6 = s5 + register_properties_children(p.default_register_properties);
    let s7 = match p.address_block {
        Some(ab) => s6.push(address_block_node(ab)),
        None => s6,
    };
    let s8 = s7 + Seq::new(p.interrupt@.len(), |k: int| interrupt_node(p.interrupt@[k]));
    match p.registers {
        Some(rs) => s8.push(
            NodeV {
                name: "registers"@,
                attributes: Seq::empty(),
                children: rc_nodes(rs@),
                text: None,
            },
        ),
        None => s8,
    }
}

/// The exact node `encode` writes for a peripheral: the children above,
/// `derivedFrom` as the node's only attribute (never a child element), and
/// no text.
pub open spec fn peripheral_node(p: Peripheral) -> NodeV {
    NodeV {
        name: "peripheral"@,
        attributes: match p.derived_from {
            Some(d) => seq![("derivedFrom"@, d@)],
            None => Seq::empty(),
        },
        children: peripheral_children(p),
        text: None,
    }
}

impl Peripheral {
    /// Reads a `peripheral` node. A failure inside the peripheral is
    /// wrapped in the peripheral's name as positional context; the failure
    /// kind is never altered.
    pub fn parse(tree: &Node) -> (r: Result<Peripheral, SvdError>)
        ensures
            r is Ok <==> peripheral_parses(tree@),
            r matches Ok(p) ==> peripheral_matches(tree@, p),
            tree@.name != "peripheral"@ ==> (r matches Err(e) && e.context@.len() == 0 && (e.kind
                matches ErrorKind::Parse(pe) && pe matches ParseError::NotExpectedTag(nn, s) && nn@
                == tree@ && s@ == "peripheral"@)),
            (tree@.name == "peripheral"@ && (child_text_opt(tree@, "name"@) matches Ok(o) && o
                is None)) ==> (r matches Err(e) && e.context@.len() == 0 && (e.kind matches
                ErrorKind::Parse(pe) && pe matches ParseError::MissingTag(nn, s) && nn@ == tree@
                && s@ == "name"@)),
            tree@.name == "peripheral"@ && r is Err ==> (child_text_opt(tree@, "name"@) matches
                Ok(Some(nm)) ==> (valid_name(nm) ==> (r matches Err(e) && e.context@.len() >= 1
                && (e.context@.last() matches ErrorContext::InPeripheral(pn) && pn@ == nm)))),
            (peripheral_prelude_parses(tree@) && peripheral_interrupts_parse(tree@) && (match
                first_child(tree@, "access"@) {
                Some(c) => spec_access(text_or_empty(c)) is None && (match child_text_opt(
                    tree@,
                    "size"@,
                ) {
                    Ok(Some(t)) => spec_parse_u32(t) is Some,
                    Ok(None) => true,
                    Err(_) => false,
                }),
                None => false,
            })) ==> (match first_child(tree@, "access"@) {
                Some(c) => r matches Err(e) && (e.kind matches ErrorKind::AccessType(ae) && ae
                    matches AccessTypeError::Unknown(nn, tt) && nn@ == c && tt@ == text_or_empty(
                    c,
                )),
                None => true,
            }),
            (peripheral_prelude_parses(tree@) && (exists|k: int|
                0 <= k < children_named(tree@.children, "interrupt"@).len()
                    && !interrupt_parses(#[trigger] children_named(
                    tree@.children,
                    "interrupt"@,
                )[k]))) ==> (r matches Err(e) && (exists|k: int|
                #![auto]
                {
                    &&& 0 <= k < children_named(tree@.children, "interrupt"@).len()
                    &&& (forall|j: int|
                        0 <= j < k ==> interrupt_parses(
                            #[trigger] children_named(tree@.children, "interrupt"@)[j],
                        ))
                    &&& !interrupt_parses(children_named(tree@.children, "interrupt"@)[k])
                    &&& interrupt_error_matches(
                        children_named(tree@.children, "interrupt"@)[k],
                        e.kind,
                    )
                    &&& e.context@.len() == 2
                    &&& e.context@[0] == ErrorContext::ParsingInterrupt(k as usize)
                })),
            (peripheral_prelude_parses(tree@) && peripheral_interrupts_parse(tree@)
                && register_properties_parses(tree@)) ==> (registers_bit_range_failure(tree@)
                matches Some(k) ==> (r matches Err(e) && (e.kind matches ErrorKind::BitRange(be)
                && be matches BitRangeError::Invalid(nn, kk) && kk == k))),
    {
        if !crate::tree::str_eq(tree.name.as_str(), "peripheral") {
            return Err(
                SvdError::new(
                    ErrorKind::Parse(
                        ParseError::NotExpectedTag(tree.clone(), String::from_str("peripheral")),
                    ),
                ),
            );
        }
        let name = match tree.get_child_text("name") {
            Ok(v) => v,
            Err(e) => return Err(SvdError::new(ErrorKind::Parse(e))),
        };
        match check_name(name.as_str()) {
            Ok(_) => (),
            Err(e) => return Err(SvdError::new(ErrorKind::Name(e))),
        }
        let version = match tree.get_child_text_opt("version") {
            Ok(v) => v,
            Err(e) => return Err(
                SvdError::new(ErrorKind::Parse(e)).with_context(ErrorContext::InPeripheral(name)),
            ),
        };
        let display_name = match tree.get_child_text_opt("displayName") {
            Ok(v) => v,
            Err(e) => return Err(
                SvdError::new(ErrorKind::Parse(e)).with_context(ErrorContext::InPeripheral(name)),
            ),
        };
        let group_name = match tree.get_child_text_opt("groupName") {
            Ok(v) => v,
            Err(e) => return Err(
                SvdError::new(ErrorKind::Parse(e)).with_context(ErrorContext::InPeripheral(name)),
            ),
        };
        let description = match tree.get_child_text_opt("description") {
            Ok(v) => v,
            Err(e) => return Err(
                SvdError::new(ErrorKind::Parse(e)).with_context(ErrorContext::InPeripheral(name)),
            ),
        };
        let base_address = match tree.get_child_u32_opt("baseAddress") {
            Ok(v) => v,
            Err(e) => return Err(
                SvdError::new(ErrorKind::Parse(e)).with_context(ErrorContext::InPeripheral(name)),
            ),
        };
        let address_block = match tree.get_child("addressBlock") {
            None => None,
            Some(abn) => match AddressBlock::parse(abn) {
                Ok(ab) => Some(ab),
                Err(e) => return Err(e.with_context(ErrorContext::InPeripheral(name))),
            },
        };
        let ghost cs = tree@.children;
        let mut interrupts: Vec<Interrupt> = Vec::new();
        let mut i: usize = 0;
        proof {
            lemma_children_view(tree.children@);
        }
        while i < tree.children.len()
            invariant
                i <= tree.children@.len(),
                cs == tree@.children,
                cs.len() == tree.children@.len(),
                tree@.name == "peripheral"@,
                child_text_opt(tree@, "name"@) == Ok::<_, ()>(Some(name@)),
                valid_name(name@),
                forall|j: int| 0 <= j < cs.len() ==> cs[j] == node_view(
                    #[trigger] tree.children@[j],
                ),
                interrupts@.len() == children_named(cs.subrange(0, i as int), "interrupt"@).len(),
                forall|k: int|
                    0 <= k < children_named(cs.subrange(0, i as int), "interrupt"@).len()
                        ==> interrupt_parses(
                        #[trigger] children_named(cs.subrange(0, i as int), "interrupt"@)[k],
                    ),
                forall|k: int|
                    0 <= k < interrupts@.len() ==> interrupt_matches(
                        children_named(cs.subrange(0, i as int), "interrupt"@)[k],
                        #[trigger] interrupts@[k],
                    ),
            decreases tree.children@.len() - i,
        {
            proof {
                assert(cs.subrange(0, i + 1).drop_last() =~= cs.subrange(0, i as int));
                assert(cs.subrange(0, i + 1).last() == cs[i as int]);
            }
            let c = &tree.children[i];
            if crate::tree::str_eq(c.name.as_str(), "interrupt") {
                let k = interrupts.len();
                match Interrupt::parse(c) {
                    Ok(it) => interrupts.push(it),
                    Err(e) => {
                        proof {
                            let pre = children_named(cs.subrange(0, i as int), "interrupt"@);
                            let pre1 = children_named(cs.subrange(0, i + 1), "interrupt"@);
                            assert(pre1 == pre.push(cs[i as int]));
                            assert(pre1[pre.len() as int] == cs[i as int]);
                            lemma_children_named_prefix(cs, "interrupt"@, i + 1);
                            assert(children_named(cs, "interrupt"@)[pre.len() as int] == cs[
                                i as int
                            ]);
                        }
                        return Err(
                            e.with_context(ErrorContext::ParsingInterrupt(k)).with_context(
                                ErrorContext::InPeripheral(name),
                            ),
                        );
                    },
                }
            }
            i += 1;
        }
        proof {
            assert(cs.subrange(0, cs.len() as int) =~= cs);
            assert(peripheral_interrupts_parse(tree@));
        }
        let properties = match RegisterProperties::parse(tree) {
            Ok(v) => v,
            Err(e) => return Err(e.with_context(ErrorContext::InPeripheral(name))),
        };
        let registers = match tree.get_child("registers") {
            None => None,
            Some(rn) => {
                let mut rs: Vec<RegisterCluster> = Vec::new();
                let mut i: usize = 0;
                proof {
                    lemma_children_view(rn.children@);
                }
                while i < rn.children.len()
                    invariant
                        i <= rn.children@.len(),
                        tree@.name == "peripheral"@,
                        child_text_opt(tree@, "name"@) == Ok::<_, ()>(Some(name@)),
                        valid_name(name@),
                        peripheral_interrupts_parse(tree@),
                        register_properties_parses(tree@),
                        first_child(tree@, "registers"@) == Some(rn@),
                        rn@.children.len() == rn.children@.len(),
                        forall|j: int| 0 <= j < rn@.children.len() ==> rn@.children[j]
                            == node_view(#[trigger] rn.children@[j]),
                        rs@.len() == i,
                        forall|k: int|
                            0 <= k < i ==> register_cluster_parses(#[trigger] rn@.children[k]),
                        forall|k: int|
                            0 <= k < i ==> register_cluster_matches(
                                rn@.children[k],
                                #[trigger] rs@[k],
                            ),
                    decreases rn.children@.len() - i,
                {
                    let c = &rn.children[i];
                    match RegisterCluster::parse(c) {
                        Ok(rc) => rs.push(rc),
                        Err(e) => {
                            proof {
                                lemma_rc_failure_skip(rn@.children, i as int);
                                assert(!register_cluster_parses(rn@.children[i as int]));
                                assert(first_rc_bit_range_failure(rn@.children, i as int)
                                    == rc_bit_range_failure(rn@.children[i as int]));
                            }
                            return Err(
                                e.with_context(ErrorContext::ParsingRegisterCluster(i))
                                    .with_context(ErrorContext::InPeripheral(name)),
                            );
                        },
                    }
                    i += 1;
                }
                proof {
                    lemma_no_rc_failure(rn@.children, 0);
                }
                Some(rs)
            },
        };
        let derived_from = tree.attribute("derivedFrom");
        if base_address.is_none() && derived_from.is_none() {
            return Err(
                SvdError::new(
                    ErrorKind::Build(BuildError::Uninitialized(String::from_str("base_address"))),
                ).with_context(ErrorContext::InPeripheral(name)),
            );
        }
        match PeripheralBuilder::default()
            .name(name.clone())
            .version(version)
            .display_name(display_name)
            .group_name(group_name)
            .description(description)
            .base_address(base_address)
            .address_block(address_block)
            .interrupt(interrupts)
            .default_register_properties(properties)
            .registers(registers)
            .derived_from(derived_from)
            .build() {
            Ok(p) => Ok(p),
            Err(e) => Err(
                SvdError::new(ErrorKind::Build(e)).with_context(
                    ErrorContext::InPeripheral(name),
                ),
            ),
        }
    }
}

proof fn lemma_peripheral_strings()
    ensures
        "name"@.len() == 4,
        "version"@.len() == 7,
        "displayName"@.len() == 11,
        "groupName"@.len() == 9,
        "description"@.len() == 11,
        "baseAddress"@.len() == 11,
        "size"@.len() == 4,
        "access"@.len() == 6,
        "protection"@.len() == 10,
        "resetValue"@.len() == 10,
        "resetMask"@.len() == 9,
        "addressBlock"@.len() == 12,
        "interrupt"@.len() == 9,
        "registers"@.len() == 9,
        "displayName"@[0] == 'd',
        "description"@[0] == 'd',
        "baseAddress"@[0] == 'b',
        "groupName"@[0] == 'g',
        "interrupt"@[0] == 'i',
        "resetMask"@[2] == 's',
        "registers"@[0] == 'r',
        "registers"@[2] == 'g',
{
    reveal_strlit("name");
    reveal_strlit("version");
    reveal_strlit("displayName");
    reveal_strlit("groupName");
    reveal_strlit("description");
    reveal_strlit("baseAddress");
    reveal_strlit("size");
    reveal_strlit("access");
    reveal_strlit("protection");
    reveal_strlit("resetValue");
    reveal_strlit("resetMask");
    reveal_strlit("addressBlock");
    reveal_strlit("interrupt");
    reveal_strlit("registers");
}

impl Peripheral {
    /// Writes a `peripheral` node: children in schema order (absent fields
    /// omitted), `baseAddress` in canonical hexadecimal, the `derivedFrom`
    /// reference as an attribute, and a `registers` child exactly when the
    /// register list is present — so an absent list and a present empty
    /// list encode differently.
    #[verifier::rlimit(100)]
    pub fn encode(&self) -> (r: Result<Node, SvdError>)
        requires
            peripheral_wf(*self),
        ensures
            r is Ok,
            r matches Ok(node) ==> node@ == peripheral_node(*self),
    {
        let mut node = Node::text_element("peripheral", None);
        node.push_text_child("name", self.name.clone());
        match &self.version {
            Some(v) => node.push_text_child("version", v.clone()),
            None => (),
        }
        match &self.display_name {
            Some(v) => node.push_text_child("displayName", v.clone()),
            None => (),
        }
        match &self.group_name {
            Some(v) => node.push_text_child("groupName", v.clone()),
            None => (),
        }
        match &self.description {
            Some(v) => node.push_text_child("description", v.clone()),
            None => (),
        }
        match self.base_address {
            Some(a) => node.push_text_child("baseAddress", format_u32_hex8(a)),
            None => (),
        }
        proof {
            assert(node@.children =~= ({
                let s0 = seq![text_node("name"@, self.name@)];
                let s1 = match self.version {
                    Some(v) => s0.push(text_node("version"@, v@)),
                    None => s0,
                };
                let s2 = match self.display_name {
                    Some(v) => s1.push(text_node("displayName"@, v@)),
                    None => s1,
                };
                let s3 = match self.group_name {
                    Some(v) => s2.push(text_node("groupName"@, v@)),
                    None => s2,
                };
                let s4 = match self.description {
                    Some(v) => s3.push(text_node("description"@, v@)),
                    None => s3,
                };
                match self.base_address {
                    Some(a) => s4.push(text_node("baseAddress"@, hex8_str(a))),
                    None => s4,
                }
            }));
        }
        let ghost scalar_part = node@.children;
        self.default_register_properties.encode_into(&mut node);
        match &self.address_block {
            Some(ab) => {
                let c = match ab.encode() {
                    Ok(c) => c,
                    Err(e) => return Err(e),
                };
                node.push_child(c);
            },
            None => (),
        }
        proof {
            assert(node@.children =~= (match self.address_block {
                Some(ab) => (scalar_part + register_properties_children(
                    self.default_register_properties,
                )).push(address_block_node(ab)),
                None => scalar_part + register_properties_children(
                    self.default_register_properties,
                ),
            }));
        }
        let ghost pre_irq = node@.children;
        let mut i: usize = 0;
        while i < self.interrupt.len()
            invariant
                i <= self.interrupt@.len(),
                node@.name == "peripheral"@,
                node@.attributes == Seq::<(Seq<char>, Seq<char>)>::empty(),
                node@.text is None,
                node@.children.len() == pre_irq.len() + i,
                node@.children.subrange(0, pre_irq.len() as int) == pre_irq,
                forall|k: int|
                    0 <= k < i ==> node@.children[pre_irq.len() + k] == interrupt_node(
                        #[trigger] self.interrupt@[k],
                    ),
            decreases self.interrupt@.len() - i,
        {
            let c = match self.interrupt[i].encode() {
                Ok(c) => c,
                Err(e) => return Err(e),
            };
            node.push_child(c);
            i += 1;
        }
        let ghost regs_off = node@.children.len() as int;
        let ghost with_irq = node@.children;
        proof {
            assert forall|j: int|
                pre_irq.len() <= j < with_irq.len() implies with_irq[j] == Seq::new(
                self.interrupt@.len(),
                |k: int| interrupt_node(self.interrupt@[k]),
            )[j - pre_irq.len()] by {
                let k = j - pre_irq.len();
                assert(with_irq[j] == interrupt_node(self.interrupt@[k]));
            }
            assert(with_irq =~= pre_irq + Seq::new(
                self.interrupt@.len(),
                |k: int| interrupt_node(self.interrupt@[k]),
            ));
        }
        match &self.registers {
            Some(rs) => {
                let mut registers_node = Node::text_element("registers", None);
                let mut k: usize = 0;
                while k < rs.len()
                    invariant
                        k <= rs@.len(),
                        forall|m: int|
                            0 <= m < rs@.len() ==> register_cluster_wf(#[trigger] rs@[m]),
                        registers_node@.name == "registers"@,
                        registers_node@.attributes == Seq::<(Seq<char>, Seq<char>)>::empty(),
                        registers_node@.text is None,
                        registers_node@.children.len() == k,
                        forall|m: int|
                            0 <= m < k ==> registers_node@.children[m] == crate::svd::registercluster::rc_node(
                                #[trigger] rs@[m],
                            ),
                    decreases rs@.len() - k,
                {
                    let c = match rs[k].encode() {
                        Ok(c) => c,
                        Err(e) => return Err(e),
                    };
                    registers_node.push_child(c);
                    k += 1;
                }
                proof {
                    lemma_rc_nodes(rs@);
                    assert forall|m: int|
                        0 <= m < rs@.len() implies registers_node@.children[m] == rc_nodes(
                        rs@,
                    )[m] by {
                        assert(registers_node@.children[m] == crate::svd::registercluster::rc_node(
                            rs@[m],
                        ));
                        assert(rc_nodes(rs@)[m] == crate::svd::registercluster::rc_node(rs@[m]));
                    }
                    assert(registers_node@.children =~= rc_nodes(rs@));
                }
                node.push_child(registers_node);
            },
            None => (),
        }
        match &self.derived_from {
            Some(d) => node.push_attribute("derivedFrom", d.clone()),
            None => (),
        }
        proof {
            let cs = node@.children;
            match &self.derived_from {
                Some(d) => {
                    assert(node@.attributes =~= seq![("derivedFrom"@, d@)]);
                },
                None => {
                    assert(node@.attributes =~= Seq::<(Seq<char>, Seq<char>)>::empty());
                },
            }
            match &self.registers {
                Some(_) => {
                    assert(cs =~= with_irq.push(cs.last()));
                },
                None => {
                    assert(cs =~= with_irq);
                },
            }
            assert(cs =~= peripheral_children(*self));
            assert(node@ =~= peripheral_node(*self));
        }
        Ok(node)
    }
}

/// What the written node guarantees, read off the node equation: the name
/// child holds the name, `baseAddress` appears (in canonical hexadecimal)
/// exactly when set, `registers` appears exactly when the list is present
/// and holds one encoded entry per element, and `derivedFrom` is an
/// attribute exactly when set — never a child element.
pub proof fn lemma_peripheral_node_facts(p: Peripheral, n: NodeV)
    requires
        peripheral_wf(p),
        n == peripheral_node(p),
    ensures
        n.name == "peripheral"@,
        n.text is None,
        n.children[0] == text_node("name"@, p.name@),
        child_text_opt(n, "name"@) == Ok::<Option<Seq<char>>, ()>(Some(p.name@)),
        (match p.base_address {
            Some(a) => child_text_opt(n, "baseAddress"@) == Ok::<Option<Seq<char>>, ()>(
                Some(hex8_str(a)),
            ) && spec_parse_u32(hex8_str(a)) == Some(a),
            None => first_child(n, "baseAddress"@) is None,
        }),
        (match p.registers {
            Some(rs) => first_child(n, "registers"@) matches Some(rn) && rn.children == rc_nodes(
                rs@,
            ) && rn.children.len() == rs@.len(),
            None => first_child(n, "registers"@) is None,
        }),
        (match p.derived_from {
            Some(d) => attr_of(n, "derivedFrom"@) == Some(d@),
            None => attr_of(n, "derivedFrom"@) is None,
        }),
{
    lemma_peripheral_strings();
    crate::svd::registerproperties::lemma_rp_children_tags(p.default_register_properties);
    let cs = peripheral_children(p);
    let s0 = seq![text_node("name"@, p.name@)];
    let s1 = match p.version {
        Some(v) => s0.push(text_node("version"@, v@)),
        None => s0,
    };
    let s2 = match p.display_name {
        Some(v) => s1.push(text_node("displayName"@, v@)),
        None => s1,
    };
    let s3 = match p.group_name {
        Some(v) => s2.push(text_node("groupName"@, v@)),
        None => s2,
    };
    let s4 = match p.description {
        Some(v) => s3.push(text_node("description"@, v@)),
        None => s3,
    };
    let s5 = match p.base_address {
        Some(a) => s4.push(text_node("baseAddress"@, hex8_str(a))),
        None => s4,
    };
    let s6 = s5 + register_properties_children(p.default_register_properties);
    let s7 = match p.address_block {
        Some(ab) => s6.push(address_block_node(ab)),
        None => s6,
    };
    let s8 = s7 + Seq::new(p.interrupt@.len(), |k: int| interrupt_node(p.interrupt@[k]));
    assert(forall|j: int|
        0 <= j < s4.len() ==> ((#[trigger] s4[j]).name == "name"@ || s4[j].name == "version"@
            || s4[j].name == "displayName"@ || s4[j].name == "groupName"@ || s4[j].name
            == "description"@));
    assert forall|j: int| 0 <= j < s8.len() implies (#[trigger] s8[j]).name != "registers"@ && (
    p.base_address is None ==> s8[j].name != "baseAddress"@) by {
        if j < s5.len() {
            if j < s4.len() {
            } else {
                assert(s5[j] == text_node("baseAddress"@, hex8_str(p.base_address->Some_0)));
            }
        } else if j < s6.len() {
            assert(s6[j] == register_properties_children(p.default_register_properties)[j
                - s5.len()]);
        } else if j < s7.len() {
            assert(s7[j] == address_block_node(p.address_block->Some_0));
        } else {
            assert(s8[j] == interrupt_node(p.interrupt@[j - s7.len()]));
        }
    }
    lemma_first_child_at(cs, "name"@, 0);
    match p.base_address {
        Some(a) => {
            assert(cs[s4.len() as int] == text_node("baseAddress"@, hex8_str(a)));
            lemma_first_child_at(cs, "baseAddress"@, s4.len() as int);
            lemma_hex8_roundtrip(a);
        },
        None => {
            crate::tree::lemma_first_child_none(cs, "baseAddress"@);
        },
    }
    match p.registers {
        Some(rs) => {
            assert(cs[cs.len() - 1].name == "registers"@);
            lemma_first_child_at(cs, "registers"@, cs.len() - 1);
            lemma_rc_nodes(rs@);
        },
        None => {
            crate::tree::lemma_first_child_none(cs, "registers"@);
        },
    }
}

/// Round-trip of the required-field subset: whatever peripheral the
/// written node re-reads to has the same name, the same base address, a
/// register list present exactly when the original's is and of the same
/// length, and the same derivation reference.
pub proof fn lemma_peripheral_roundtrip_required(p: Peripheral, n: NodeV, q: Peripheral)
    requires
        peripheral_wf(p),
        n == peripheral_node(p),
        peripheral_matches(n, q),
    ensures
        q.name@ == p.name@,
        q.base_address == p.base_address,
        q.registers is Some <==> p.registers is Some,
        (match (p.registers, q.registers) {
            (Some(ps_), Some(qs)) => qs@.len() == ps_@.len(),
            _ => true,
        }),
        (match p.derived_from {
            Some(d) => q.derived_from matches Some(qd) && qd@ == d@,
            None => q.derived_from is None,
        }),
{
    lemma_peripheral_node_facts(p, n);
}

/// The first peripheral at or after `i` whose name is `nm`.
pub open spec fn source_index_from(ps: Seq<Peripheral>, nm: Seq<char>, i: int) -> Option<int>
    decreases ps.len() - i,
{
    if i < 0 || i >= ps.len() {
        None
    } else if ps[i].name@ == nm {
        Some(i)
    } else {
        source_index_from(ps, nm, i + 1)
    }
}

proof fn lemma_source_skip(ps: Seq<Peripheral>, nm: Seq<char>, i: int)
    requires
        0 <= i <= ps.len(),
        forall|j: int| 0 <= j < i ==> (#[trigger] ps[j]).name@ != nm,
    ensures
        source_index_from(ps, nm, 0) == source_index_from(ps, nm, i),
    decreases i,
{
    if i > 0 {
        lemma_source_skip(ps, nm, i - 1);
    }
}

/// Every `derivedFrom` reference names some peripheral of the document.
pub open spec fn derivation_resolvable(ps: Seq<Peripheral>) -> bool {
    forall|i: int|
        0 <= i < ps.len() ==> (match (#[trigger] ps[i]).derived_from {
            Some(d) => source_index_from(ps, d@, 0) is Some,
            None => true,
        })
}

/// `out` is `p` with every field `p` left unset copied from `src`; fields
/// `p` set itself are never overwritten. Interrupts belong to the instance
/// and are never inherited; of an inherited register tree only the length
/// is pinned here.
pub open spec fn derives_into(p: Peripheral, src: Peripheral, out: Peripheral) -> bool {
    &&& out.name == p.name
    &&& out.version == (if p.version is Some {
        p.version
    } else {
        src.version
    })
    &&& out.display_name == (if p.display_name is Some {
        p.display_name
    } else {
        src.display_name
    })
    &&& out.group_name == (if p.group_name is Some {
        p.group_name
    } else {
        src.group_name
    })
    &&& out.description == (if p.description is Some {
        p.description
    } else {
        src.description
    })
    &&& out.base_address == (if p.base_address is Some {
        p.base_address
    } else {
        src.base_address
    })
    &&& out.address_block == (if p.address_block is Some {
        p.address_block
    } else {
        src.address_block
    })
    &&& out.interrupt == p.interrupt
    &&& out.default_register_properties == (RegisterProperties {
        size: if p.default_register_properties.size is Some {
            p.default_register_properties.size
        } else {
            src.default_register_properties.size
        },
        access: if p.default_register_properties.access is Some {
            p.default_register_properties.access
        } else {
            src.default_register_properties.access
        },
        protection: if p.default_register_properties.protection is Some {
            p.default_register_properties.protection
        } else {
            src.default_register_properties.protection
        },
        reset_value: if p.default_register_properties.reset_value is Some {
            p.default_register_properties.reset_value
        } else {
            src.default_register_properties.reset_value
        },
        reset_mask: if p.default_register_properties.reset_mask is Some {
            p.default_register_properties.reset_mask
        } else {
            src.default_register_properties.reset_mask
        },
    })
    &&& (match p.registers {
        Some(_) => out.registers == p.registers,
        None => (match src.registers {
            Some(rs) => out.registers matches Some(ors) && ors@.len() == rs@.len(),
            None => out.registers is None,
        }),
    })
    &&& out.derived_from == p.derived_from
}

/// The values a deriving peripheral takes from its source where its own
/// are unset.
struct SourcePatch {
    version: Option<String>,
    display_name: Option<String>,
    group_name: Option<String>,
    description: Option<String>,
    base_address: Option<u32>,
    address_block: Option<AddressBlock>,
    default_register_properties: RegisterProperties,
    registers: Option<Vec<RegisterCluster>>,
}

/// `pt` carries the source's fields (of an inherited register tree, its
/// length).
spec fn patch_of(src: Peripheral, pt: SourcePatch) -> bool {
    &&& pt.version == src.version
    &&& pt.display_name == src.display_name
    &&& pt.group_name == src.group_name
    &&& pt.description == src.description
    &&& pt.base_address == src.base_address
    &&& pt.address_block == src.address_block
    &&& pt.default_register_properties == src.default_register_properties
    &&& (match src.registers {
        Some(rs) => pt.registers matches Some(prs) && prs@.len() == rs@.len(),
        None => pt.registers is None,
    })
}

/// The second pass over a parsed document: for every peripheral that
/// declares `derivedFrom`, the named source is looked up by name (first
/// match wins) and every field the deriving peripheral left unset is
/// copied from the source; fields it set itself are never overwritten.
/// Each peripheral derives from the source as it was parsed, so the pass
/// is order-independent and idempotent, and a cyclic chain is harmless:
/// chains are not followed.
pub fn resolve_derivations(peripherals: Vec<Peripheral>) -> (r: Result<Vec<Peripheral>, SvdError>)
    ensures
        r is Ok <==> derivation_resolvable(peripherals@),
        r matches Ok(out) ==> out@.len() == peripherals@.len() && (forall|i: int|
            0 <= i < out@.len() ==> (match (#[trigger] peripherals@[i]).derived_from {
                None => out@[i] == peripherals@[i],
                Some(d) => source_index_from(peripherals@, d@, 0) matches Some(j) && derives_into(
                    peripherals@[i],
                    peripherals@[j],
                    out@[i],
                ),
            })),
        r matches Err(e) ==> (e.context@.len() == 0 && (e.kind matches ErrorKind::Derive(de) && de
            matches DeriveError::MissingSource(s) && source_index_from(peripherals@, s@, 0)
            is None)),
{
    let ghost ps = peripherals@;
    let n = peripherals.len();
    let mut sources: Vec<Option<usize>> = Vec::new();
    let mut i: usize = 0;
    while i < n
        invariant
            i <= n,
            n == ps.len(),
            ps == peripherals@,
            sources@.len() == i,
            forall|k: int|
                0 <= k < i ==> (match (#[trigger] ps[k]).derived_from {
                    Some(d) => sources@[k] matches Some(j) && j < n && source_index_from(
                        ps,
                        d@,
                        0,
                    ) == Some(j as int),
                    None => sources@[k] is None,
                }),
        decreases n - i,
    {
        let has_source = match &peripherals[i].derived_from {
            None => None,
            Some(d) => {
                let mut j: usize = 0;
                let mut found: Option<usize> = None;
                while j < n && found.is_none()
                    invariant
                        j <= n,
                        n == ps.len(),
                        ps == peripherals@,
                        i < n,
                        peripherals@[i as int].derived_from matches Some(dd) && dd@ == d@,
                        match found {
                            None => forall|m: int| 0 <= m < j ==> (#[trigger] ps[m]).name@ != d@,
                            Some(f) => f < n && source_index_from(ps, d@, 0) == Some(f as int),
                        },
                    decreases n - j + (if found is None {
                        1int
                    } else {
                        0
                    }),
                {
                    if crate::tree::str_eq(peripherals[j].name.as_str(), d.as_str()) {
                        proof {
                            lemma_source_skip(ps, d@, j as int);
                        }
                        found = Some(j);
                    } else {
                        j += 1;
                    }
                }
                match found {
                    Some(f) => Some(f),
                    None => {
                        proof {
                            lemma_source_skip(ps, d@, n as int);
                        }
                        return Err(
                            SvdError::new(
                                ErrorKind::Derive(DeriveError::MissingSource(d.clone())),
                            ),
                        );
                    },
                }
            },
        };
        sources.push(has_source);
        i += 1;
    }
    let mut patches: Vec<Option<SourcePatch>> = Vec::new();
    let mut i: usize = 0;
    while i < n
        invariant
            i <= n,
            n == ps.len(),
            ps == peripherals@,
            sources@.len() == n,
            forall|k: int|
                0 <= k < n ==> (match (#[trigger] ps[k]).derived_from {
                    Some(d) => sources@[k] matches Some(j) && j < n && source_index_from(
                        ps,
                        d@,
                        0,
                    ) == Some(j as int),
                    None => sources@[k] is None,
                }),
            patches@.len() == i,
            forall|k: int|
                0 <= k < i ==> (match (#[trigger] ps[k]).derived_from {
                    Some(d) => patches@[k] matches Some(pt) && (sources@[k] matches Some(j)
                        && patch_of(ps[j as int], pt)),
                    None => patches@[k] is None,
                }),
        decreases n - i,
    {
        let patch = match &sources[i] {
            None => None,
            Some(j) => {
                proof {
                    assert((match ps[i as int].derived_from {
                        Some(d) => sources@[i as int] matches Some(jj) && jj < n
                            && source_index_from(ps, d@, 0) == Some(jj as int),
                        None => sources@[i as int] is None,
                    }));
                }
                let src = &peripherals[*j];
                Some(
                    SourcePatch {
                        version: match &src.version {
                            Some(v) => Some(v.clone()),
                            None => None,
                        },
                        display_name: match &src.display_name {
                            Some(v) => Some(v.clone()),
                            None => None,
                        },
                        group_name: match &src.group_name {
                            Some(v) => Some(v.clone()),
                            None => None,
                        },
                        description: match &src.description {
                            Some(v) => Some(v.clone()),
                            None => None,
                        },
                        base_address: src.base_address,
                        address_block: match &src.address_block {
                            Some(ab) => Some(ab.clone()),
                            None => None,
                        },
                        default_register_properties: src.default_register_properties.clone(),
                        registers: match &src.registers {
                            Some(rs) => Some(rs.clone()),
                            None => None,
                        },
                    },
                )
            },
        };
        patches.push(patch);
        i += 1;
    }
    let mut remaining = peripherals;
    let mut remaining_patches = patches;
    let mut out: Vec<Peripheral> = Vec::new();
    let mut i: usize = 0;
    while i < n
        invariant
            i <= n,
            n == ps.len(),
            remaining@ == ps.subrange(i as int, n as int),
            remaining_patches@.len() == n - i,
            forall|k: int|
                i <= k < n ==> (match (#[trigger] ps[k]).derived_from {
                    Some(d) => remaining_patches@[k - i] matches Some(pt)
                        && (source_index_from(ps, d@, 0) matches Some(j) && patch_of(
                        ps[j],
                        pt,
                    )),
                    None => remaining_patches@[k - i] is None,
                }),
            out@.len() == i,
            forall|k: int|
                0 <= k < i ==> (match (#[trigger] ps[k]).derived_from {
                    None => out@[k] == ps[k],
                    Some(d) => source_index_from(ps, d@, 0) matches Some(j) && derives_into(
                        ps[k],
                        ps[j],
                        out@[k],
                    ),
                }),
        decreases n - i,
    {
        let p = remaining.remove(0);
        let patch = remaining_patches.remove(0);
        proof {
            assert(ps.subrange(i as int, n as int).remove(0) =~= ps.subrange(
                i + 1,
                n as int,
            ));
            assert(p == ps[i as int]);
        }
        let merged = match patch {
            None => p,
            Some(pt) => Peripheral {
                name: p.name,
                version: match p.version {
                    Some(v) => Some(v),
                    None => pt.version,
                },
                display_name: match p.display_name {
                    Some(v) => Some(v),
                    None => pt.display_name,
                },
                group_name: match p.group_name {
                    Some(v) => Some(v),
                    None => pt.group_name,
                },
                description: match p.description {
                    Some(v) => Some(v),
                    None => pt.description,
                },
                base_address: match p.base_address {
                    Some(v) => Some(v),
                    None => pt.base_address,
                },
                address_block: match p.address_block {
                    Some(ab) => Some(ab),
                    None => pt.address_block,
                },
                interrupt: p.interrupt,
                default_register_properties: RegisterProperties {
                    size: match p.default_register_properties.size {
                        Some(v) => Some(v),
                        None => pt.default_register_properties.size,
                    },
                    access: match p.default_register_properties.access {
                        Some(v) => Some(v),
                        None => pt.default_register_properties.access,
                    },
                    protection: match p.default_register_properties.protection {
                        Some(v) => Some(v),
                        None => pt.default_register_properties.protection,
                    },
                    reset_value: match p.default_register_properties.reset_value {
                        Some(v) => Some(v),
                        None => pt.default_register_properties.reset_value,
                    },
                    reset_mask: match p.default_register_properties.reset_mask {
                        Some(v) => Some(v),
                        None => pt.default_register_properties.reset_mask,
                    },
                },
                registers: match p.registers {
                    Some(rs) => Some(rs),
                    None => pt.registers,
                },
                derived_from: p.derived_from,
            },
        };
        out.push(merged);
        i += 1;
    }
    Ok(out)
}

} // verus!
