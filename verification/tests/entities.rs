use svd_parser::error::{ErrorContext, ErrorKind, ParseError};
use svd_parser::svd::addressblock::AddressBlock;
use svd_parser::svd::enums::AccessType;
use svd_parser::svd::enumeratedvalue::{EnumeratedValue, EnumeratedValues};
use svd_parser::svd::field::Field;
use svd_parser::svd::interrupt::Interrupt;
use svd_parser::svd::peripheral::{resolve_derivations, Peripheral, PeripheralBuilder};
use svd_parser::svd::register::Register;
use svd_parser::svd::registercluster::RegisterCluster;
use svd_parser::svd::registerproperties::RegisterProperties;
use svd_parser::svd::writeconstraint::WriteConstraint;
use svd_parser::tree::Node;

fn t(tag: &str, text: &str) -> Node {
    Node {
        name: tag.to_string(),
        attributes: vec![],
        children: vec![],
        text: Some(text.to_string()),
    }
}

fn el(tag: &str, children: Vec<Node>) -> Node {
    Node { name: tag.to_string(), attributes: vec![], children, text: None }
}

fn small_peripheral(name: &str) -> Node {
    el(
        "peripheral",
        vec![t("name", name), t("baseAddress", "0x40010000")],
    )
}

#[test]
fn interrupt_parses_and_encodes() {
    let n = el(
        "interrupt",
        vec![t("name", "USART1"), t("description", "receive line"), t("value", "37")],
    );
    let it = Interrupt::parse(&n).unwrap();
    assert_eq!(it.name, "USART1");
    assert_eq!(it.description.as_deref(), Some("receive line"));
    assert_eq!(it.value, 37);
    let back = Interrupt::parse(&it.encode().unwrap()).unwrap();
    assert_eq!(back.name, "USART1");
    assert_eq!(back.description.as_deref(), Some("receive line"));
    assert_eq!(back.value, 37);
}

#[test]
fn interrupt_missing_value_fails() {
    let n = el("interrupt", vec![t("name", "USART1")]);
    assert!(Interrupt::parse(&n).is_err());
}

#[test]
fn address_block_round_trips() {
    let n = el(
        "addressBlock",
        vec![t("offset", "0"), t("size", "0x400"), t("usage", "registers")],
    );
    let ab = AddressBlock::parse(&n).unwrap();
    assert_eq!(ab.offset, 0);
    assert_eq!(ab.size, 0x400);
    assert_eq!(ab.usage, "registers");
    let back = AddressBlock::parse(&ab.encode().unwrap()).unwrap();
    assert_eq!(back, AddressBlock { offset: 0, size: 0x400, usage: "registers".to_string() });
}

#[test]
fn register_properties_read_the_optional_children() {
    let n = el(
        "register",
        vec![
            t("size", "32"),
            t("access", "read-write"),
            t("resetValue", "0x00000000"),
            t("resetMask", "0xFFFFFFFF"),
        ],
    );
    let rp = RegisterProperties::parse(&n).unwrap();
    assert_eq!(rp.size, Some(32));
    assert_eq!(rp.access, Some(AccessType::ReadWrite));
    assert_eq!(rp.protection, None);
    assert_eq!(rp.reset_value, Some(0));
    assert_eq!(rp.reset_mask, Some(u32::MAX));
}

#[test]
fn register_properties_merge_prefers_the_inner_scope() {
    let inner = RegisterProperties {
        size: Some(16),
        access: None,
        protection: None,
        reset_value: None,
        reset_mask: None,
    };
    let outer = RegisterProperties {
        size: Some(32),
        access: Some(AccessType::ReadOnly),
        protection: None,
        reset_value: Some(7),
        reset_mask: None,
    };
    let m = inner.merged(&outer);
    assert_eq!(m.size, Some(16));
    assert_eq!(m.access, Some(AccessType::ReadOnly));
    assert_eq!(m.reset_value, Some(7));
    assert_eq!(m.reset_mask, None);
}

#[test]
fn enumerated_values_parse_in_order() {
    let n = el(
        "enumeratedValues",
        vec![
            t("usage", "read"),
            el("enumeratedValue", vec![t("name", "DISABLED"), t("value", "0")]),
            el("enumeratedValue", vec![t("name", "ENABLED"), t("value", "1"), t("isDefault", "true")]),
        ],
    );
    let evs = EnumeratedValues::parse(&n).unwrap();
    assert_eq!(evs.usage, Some(svd_parser::svd::enums::Usage::Read));
    assert_eq!(evs.values.len(), 2);
    assert_eq!(evs.values[0].name, "DISABLED");
    assert_eq!(evs.values[0].value, Some(0));
    assert_eq!(evs.values[1].is_default, Some(true));
}

#[test]
fn enumerated_value_bad_name_fails() {
    let n = el("enumeratedValue", vec![t("name", "1ON"), t("value", "1")]);
    match EnumeratedValue::parse(&n) {
        Err(e) => assert!(matches!(e.kind, ErrorKind::Name(_))),
        Ok(_) => panic!("expected the name grammar error"),
    }
}

#[test]
fn write_constraint_exactly_one_kind() {
    let ok = el("writeConstraint", vec![t("writeAsRead", "true")]);
    assert_eq!(WriteConstraint::parse(&ok).unwrap(), WriteConstraint::WriteAsRead(true));
    let range = el(
        "writeConstraint",
        vec![el("range", vec![t("minimum", "0"), t("maximum", "15")])],
    );
    match WriteConstraint::parse(&range).unwrap() {
        WriteConstraint::Range(r) => {
            assert_eq!(r.min, 0);
            assert_eq!(r.max, 15);
        },
        _ => panic!("expected the range constraint"),
    }
    let two = el(
        "writeConstraint",
        vec![t("writeAsRead", "true"), t("useEnumeratedValues", "true")],
    );
    match WriteConstraint::parse(&two) {
        Err(e) => assert!(matches!(
            e.kind,
            ErrorKind::WriteConstraint(svd_parser::error::WriteConstraintError::MoreThanOne(_))
        )),
        Ok(_) => panic!("expected the multiplicity error"),
    }
    let none = el("writeConstraint", vec![t("other", "1")]);
    match WriteConstraint::parse(&none) {
        Err(e) => assert!(matches!(
            e.kind,
            ErrorKind::WriteConstraint(svd_parser::error::WriteConstraintError::Unknown(_))
        )),
        Ok(_) => panic!("expected the unknown-constraint error"),
    }
}

#[test]
fn field_parses_with_bit_range_and_access() {
    let n = el(
        "field",
        vec![
            t("name", "EN"),
            t("description", "enable"),
            t("bitOffset", "0"),
            t("bitWidth", "1"),
            t("access", "read-write"),
            t("modifiedWriteValues", "oneToClear"),
        ],
    );
    let f = Field::parse(&n).unwrap();
    assert_eq!(f.name, "EN");
    assert_eq!(f.bit_range.offset, 0);
    assert_eq!(f.bit_range.width, 1);
    assert_eq!(f.access, Some(AccessType::ReadWrite));
    assert_eq!(
        f.modified_write_values,
        Some(svd_parser::svd::enums::ModifiedWriteValues::OneToClear)
    );
    // the encoded node reads back to the same canonical bit range
    let back = Field::parse(&f.encode().unwrap()).unwrap();
    assert_eq!(back.name, "EN");
    assert_eq!(back.bit_range, f.bit_range);
}

#[test]
fn register_parses_fields_list() {
    let n = el(
        "register",
        vec![
            t("name", "CR1"),
            t("addressOffset", "0x0"),
            t("size", "32"),
            el(
                "fields",
                vec![el("field", vec![t("name", "EN"), t("bitRange", "[0:0]")])],
            ),
        ],
    );
    let r = Register::parse(&n).unwrap();
    assert_eq!(r.name, "CR1");
    assert_eq!(r.address_offset, 0);
    assert_eq!(r.properties.size, Some(32));
    let fs = r.fields.unwrap();
    assert_eq!(fs.len(), 1);
    assert_eq!(fs[0].name, "EN");
    assert_eq!(fs[0].bit_range.offset, 0);
    assert_eq!(fs[0].bit_range.width, 1);
}

#[test]
fn register_cluster_rejects_unknown_tags() {
    let n = el("whatever", vec![]);
    match RegisterCluster::parse(&n) {
        Err(e) => match e.kind {
            ErrorKind::RegisterCluster(svd_parser::error::RegisterClusterError::Invalid(
                _,
                tag,
            )) => assert_eq!(tag, "whatever"),
            _ => panic!("expected the invalid-kind error"),
        },
        Ok(_) => panic!("expected the invalid-kind error"),
    }
}

#[test]
fn clusters_nest_recursively() {
    let n = el(
        "cluster",
        vec![
            t("name", "CH0"),
            t("addressOffset", "0x10"),
            el("register", vec![t("name", "CR"), t("addressOffset", "0x0")]),
            el(
                "cluster",
                vec![
                    t("name", "SUB"),
                    t("addressOffset", "0x8"),
                    el("register", vec![t("name", "SR"), t("addressOffset", "0x4")]),
                ],
            ),
        ],
    );
    match RegisterCluster::parse(&n).unwrap() {
        RegisterCluster::Cluster(c) => {
            assert_eq!(c.name, "CH0");
            assert_eq!(c.children.len(), 2);
            match &c.children[1] {
                RegisterCluster::Cluster(sub) => {
                    assert_eq!(sub.name, "SUB");
                    assert_eq!(sub.children.len(), 1);
                },
                _ => panic!("expected the nested cluster"),
            }
        },
        _ => panic!("expected a cluster"),
    }
}

#[test]
fn peripheral_wrong_tag_fails() {
    let n = el("device", vec![t("name", "TIM1")]);
    match Peripheral::parse(&n) {
        Err(e) => match e.kind {
            ErrorKind::Parse(ParseError::NotExpectedTag(_, tag)) => {
                assert_eq!(tag, "peripheral")
            },
            _ => panic!("expected the tag mismatch"),
        },
        Ok(_) => panic!("expected the tag mismatch"),
    }
}

#[test]
fn peripheral_missing_name_fails_with_missing_tag() {
    let n = el("peripheral", vec![t("baseAddress", "0x40010000")]);
    match Peripheral::parse(&n) {
        Err(e) => match e.kind {
            ErrorKind::Parse(ParseError::MissingTag(_, tag)) => assert_eq!(tag, "name"),
            _ => panic!("expected the missing-tag error"),
        },
        Ok(_) => panic!("expected the missing-tag error"),
    }
}

#[test]
fn registers_absent_and_empty_are_distinct() {
    let absent = Peripheral::parse(&small_peripheral("TIM1")).unwrap();
    assert!(absent.registers.is_none());
    let empty = Peripheral::parse(&el(
        "peripheral",
        vec![t("name", "TIM1"), t("baseAddress", "0x40010000"), el("registers", vec![])],
    ))
    .unwrap();
    assert_eq!(empty.registers.as_ref().map(|r| r.len()), Some(0));
    // and the difference survives encoding
    let absent_node = absent.encode().unwrap();
    assert!(absent_node.get_child("registers").is_none());
    let empty_node = empty.encode().unwrap();
    let regs = empty_node.get_child("registers").unwrap();
    assert_eq!(regs.children.len(), 0);
}

#[test]
fn peripheral_parses_whole_record() {
    let n = Node {
        name: "peripheral".to_string(),
        attributes: vec![("derivedFrom".to_string(), "TIM1".to_string())],
        children: vec![
            t("name", "TIM2"),
            t("version", "1.0"),
            t("description", "second timer"),
            t("baseAddress", "0x40020000"),
            t("size", "32"),
            el("interrupt", vec![t("name", "TIM2_IRQ"), t("value", "29")]),
            el(
                "registers",
                vec![el("register", vec![t("name", "CR"), t("addressOffset", "0x0")])],
            ),
        ],
        text: None,
    };
    let p = Peripheral::parse(&n).unwrap();
    assert_eq!(p.name, "TIM2");
    assert_eq!(p.version.as_deref(), Some("1.0"));
    assert_eq!(p.base_address, Some(0x40020000));
    assert_eq!(p.default_register_properties.size, Some(32));
    assert_eq!(p.interrupt.len(), 1);
    assert_eq!(p.interrupt[0].value, 29);
    assert_eq!(p.registers.as_ref().map(|r| r.len()), Some(1));
    assert_eq!(p.derived_from.as_deref(), Some("TIM1"));
    // re-encode and re-read: the required-field subset is preserved
    let back = Peripheral::parse(&p.encode().unwrap()).unwrap();
    assert_eq!(back.name, "TIM2");
    assert_eq!(back.base_address, Some(0x40020000));
    assert_eq!(back.derived_from.as_deref(), Some("TIM1"));
    assert_eq!(back.registers.as_ref().map(|r| r.len()), Some(1));
}

#[test]
fn inner_failure_carries_the_peripheral_context() {
    let n = el(
        "peripheral",
        vec![t("name", "TIM1"), t("baseAddress", "0x40010000"), t("access", "bogus")],
    );
    match Peripheral::parse(&n) {
        Err(e) => {
            match &e.kind {
                ErrorKind::AccessType(svd_parser::error::AccessTypeError::Unknown(_, s)) => {
                    assert_eq!(s, "bogus")
                },
                _ => panic!("expected the unknown access variant"),
            }
            assert_eq!(
                e.context.last(),
                Some(&ErrorContext::InPeripheral("TIM1".to_string()))
            );
        },
        Ok(_) => panic!("expected the unknown access variant"),
    }
}

#[test]
fn interrupt_failure_is_positioned() {
    let n = el(
        "peripheral",
        vec![
            t("name", "TIM1"),
            t("baseAddress", "0x40010000"),
            el("interrupt", vec![t("name", "A"), t("value", "1")]),
            el("interrupt", vec![t("name", "B")]),
        ],
    );
    match Peripheral::parse(&n) {
        Err(e) => {
            assert_eq!(e.context.first(), Some(&ErrorContext::ParsingInterrupt(1)));
            assert_eq!(
                e.context.last(),
                Some(&ErrorContext::InPeripheral("TIM1".to_string()))
            );
        },
        Ok(_) => panic!("expected the nested failure"),
    }
}

#[test]
fn builder_reports_the_missing_name() {
    match PeripheralBuilder::default().base_address(Some(1)).build() {
        Err(svd_parser::error::BuildError::Uninitialized(s)) => assert_eq!(s, "name"),
        Ok(_) => panic!("expected the uninitialized-slot error"),
    }
}

#[test]
fn derivation_copies_unset_fields_only() {
    let other = Peripheral::parse(&el(
        "peripheral",
        vec![t("name", "Other"), t("description", "base unit"), t("baseAddress", "0x40010000")],
    ))
    .unwrap();
    let mut deriving_node = small_peripheral("TIM2");
    deriving_node.children.remove(1); // no baseAddress of its own
    deriving_node
        .attributes
        .push(("derivedFrom".to_string(), "Other".to_string()));
    let deriving = Peripheral::parse(&deriving_node).unwrap();
    assert_eq!(deriving.base_address, None);
    let out = resolve_derivations(vec![other, deriving]).unwrap();
    assert_eq!(out[1].name, "TIM2");
    assert_eq!(out[1].base_address, Some(0x40010000));
    assert_eq!(out[1].description.as_deref(), Some("base unit"));
    assert_eq!(out[0].base_address, Some(0x40010000));
}

#[test]
fn derivation_never_overwrites_explicit_fields() {
    let other = Peripheral::parse(&small_peripheral("Other")).unwrap();
    let mut node = small_peripheral("TIM2");
    node.children[1] = t("baseAddress", "0x50000000");
    node.attributes
        .push(("derivedFrom".to_string(), "Other".to_string()));
    let deriving = Peripheral::parse(&node).unwrap();
    let out = resolve_derivations(vec![other, deriving]).unwrap();
    assert_eq!(out[1].base_address, Some(0x50000000));
}

#[test]
fn derivation_missing_source_fails() {
    let mut node = small_peripheral("TIM2");
    node.attributes
        .push(("derivedFrom".to_string(), "Nowhere".to_string()));
    let deriving = Peripheral::parse(&node).unwrap();
    match resolve_derivations(vec![deriving]) {
        Err(e) => match e.kind {
            ErrorKind::Derive(svd_parser::error::DeriveError::MissingSource(s)) => {
                assert_eq!(s, "Nowhere")
            },
            _ => panic!("expected the missing-source error"),
        },
        Ok(_) => panic!("expected the missing-source error"),
    }
}

#[test]
fn empty_tag_is_reported() {
    let n = el("peripheral", vec![el("name", vec![]), t("baseAddress", "0x0")]);
    match Peripheral::parse(&n) {
        Err(e) => assert!(matches!(e.kind, ErrorKind::Parse(ParseError::EmptyTag(_, _)))),
        Ok(_) => panic!("expected the empty-tag error"),
    }
}

#[test]
fn bad_boolean_is_reported() {
    let n = el(
        "enumeratedValue",
        vec![t("name", "ON"), t("isDefault", "maybe")],
    );
    match EnumeratedValue::parse(&n) {
        Err(e) => assert!(matches!(
            e.kind,
            ErrorKind::Parse(ParseError::InvalidBooleanValue(_, _))
        )),
        Ok(_) => panic!("expected the boolean error"),
    }
}

#[test]
fn enumerated_value_encodes_and_re_reads() {
    let ev = EnumeratedValue {
        name: "ENABLED".to_string(),
        description: None,
        value: Some(1),
        is_default: Some(false),
    };
    let back = EnumeratedValue::parse(&ev.encode().unwrap()).unwrap();
    assert_eq!(back.name, "ENABLED");
    assert_eq!(back.value, Some(1));
    assert_eq!(back.is_default, Some(false));
    assert_eq!(back.description, None);
}

#[test]
fn enumerated_values_encode_keeps_usage_and_count() {
    let evs = EnumeratedValues {
        usage: Some(svd_parser::svd::enums::Usage::ReadWrite),
        values: vec![
            EnumeratedValue {
                name: "A".to_string(),
                description: None,
                value: Some(0),
                is_default: None,
            },
            EnumeratedValue {
                name: "B".to_string(),
                description: None,
                value: Some(1),
                is_default: None,
            },
        ],
    };
    let node = evs.encode().unwrap();
    let back = EnumeratedValues::parse(&node).unwrap();
    assert_eq!(back.usage, Some(svd_parser::svd::enums::Usage::ReadWrite));
    assert_eq!(back.values.len(), 2);
    assert_eq!(back.values[1].name, "B");
}

#[test]
fn peripheral_with_address_block() {
    let n = el(
        "peripheral",
        vec![
            t("name", "GPIOA"),
            t("baseAddress", "0x48000000"),
            el(
                "addressBlock",
                vec![t("offset", "0"), t("size", "0x400"), t("usage", "registers")],
            ),
        ],
    );
    let p = Peripheral::parse(&n).unwrap();
    let ab = p.address_block.as_ref().unwrap();
    assert_eq!(ab.size, 0x400);
    let back = Peripheral::parse(&p.encode().unwrap()).unwrap();
    assert_eq!(back.address_block.as_ref().unwrap().size, 0x400);
    assert_eq!(back.address_block.as_ref().unwrap().usage, "registers");
}

#[test]
fn peripheral_needs_base_address_or_derivation() {
    let n = el("peripheral", vec![t("name", "TIM9")]);
    match Peripheral::parse(&n) {
        Err(e) => match e.kind {
            ErrorKind::Build(svd_parser::error::BuildError::Uninitialized(s)) => {
                assert_eq!(s, "base_address")
            },
            _ => panic!("expected the uninitialized-slot error"),
        },
        Ok(_) => panic!("expected the uninitialized-slot error"),
    }
}

#[test]
fn inverted_bit_range_kind_survives_to_the_peripheral() {
    let n = el(
        "peripheral",
        vec![
            t("name", "TIM1"),
            t("baseAddress", "0x40010000"),
            el(
                "registers",
                vec![el(
                    "register",
                    vec![
                        t("name", "CR"),
                        t("addressOffset", "0x0"),
                        el(
                            "fields",
                            vec![el("field", vec![t("name", "F"), t("msb", "3"), t("lsb", "7")])],
                        ),
                    ],
                )],
            ),
        ],
    );
    match Peripheral::parse(&n) {
        Err(e) => {
            match e.kind {
                ErrorKind::BitRange(svd_parser::error::BitRangeError::Invalid(_, k)) => {
                    assert_eq!(k, svd_parser::error::InvalidBitRange::MsbLsb)
                },
                _ => panic!("expected the inverted-bit-range kind"),
            }
            assert_eq!(
                e.context.last(),
                Some(&ErrorContext::InPeripheral("TIM1".to_string()))
            );
        },
        Ok(_) => panic!("expected the inverted-bit-range kind"),
    }
}
