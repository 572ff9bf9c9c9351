//! The closed enumerations of the schema: access type, endianness,
//! modified-write-values behaviour and enumerated-value usage. Each value
//! corresponds one-to-one to a fixed schema string; anything else is an
//! error, never a represented state.

use vstd::prelude::*;
use crate::error::{AccessTypeError, EndianError, ModifiedWriteValuesError, UsageVariantError};
use crate::tree::{Node, NodeV, str_eq, text_node, text_or_empty};

verus! {

broadcast use vstd::string::group_string_axioms;

#[derive(Clone, Copy, Debug, PartialEq, Eq, Structural)]
pub enum AccessType {
    ReadOnly,
    ReadWrite,
    ReadWriteOnce,
    WriteOnce,
    WriteOnly,
}

/// The closed access-type vocabulary.
pub open spec fn spec_access(s: Seq<char>) -> Option<AccessType> {
    if s == "read-only"@ {
        Some(AccessType::ReadOnly)
    } else if s == "read-write"@ {
        Some(AccessType::ReadWrite)
    } else if s == "read-writeOnce"@ {
        Some(AccessType::ReadWriteOnce)
    } else if s == "writeOnce"@ {
        Some(AccessType::WriteOnce)
    } else if s == "write-only"@ {
        Some(AccessType::WriteOnly)
    } else {
        None
    }
}

/// The fixed schema string of each access type.
pub open spec fn access_str(a: AccessType) -> Seq<char> {
    match a {
        AccessType::ReadOnly => "read-only"@,
        AccessType::ReadWrite => "read-write"@,
        AccessType::ReadWriteOnce => "read-writeOnce"@,
        AccessType::WriteOnce => "writeOnce"@,
        AccessType::WriteOnly => "write-only"@,
    }
}

impl AccessType {
    /// Reads an access-type string; an unknown string is carried back
    /// verbatim together with the node it came from.
    pub fn parse_str(tree: &Node, s: &str) -> (r: Result<AccessType, AccessTypeError>)
        ensures
            r matches Ok(a) ==> spec_access(s@) == Some(a),
            r is Ok <==> spec_access(s@) is Some,
            r matches Err(e) ==> (e matches AccessTypeError::Unknown(n, t) && n@ == tree@ && t@
                == s@),
    {
        if str_eq(s, "read-only") {
            Ok(AccessType::ReadOnly)
        } else if str_eq(s, "read-write") {
            Ok(AccessType::ReadWrite)
        } else if str_eq(s, "read-writeOnce") {
            Ok(AccessType::ReadWriteOnce)
        } else if str_eq(s, "writeOnce") {
            Ok(AccessType::WriteOnce)
        } else if str_eq(s, "write-only") {
            Ok(AccessType::WriteOnly)
        } else {
            Err(AccessTypeError::Unknown(tree.clone(), String::from_str(s)))
        }
    }

    /// Reads the text of an `<access>` node.
    pub fn parse(tree: &Node) -> (r: Result<AccessType, AccessTypeError>)
        ensures
            r matches Ok(a) ==> spec_access(text_or_empty(tree@)) == Some(a),
            r is Ok <==> spec_access(text_or_empty(tree@)) is Some,
            r matches Err(e) ==> (e matches AccessTypeError::Unknown(n, t) && n@ == tree@ && t@
                == text_or_empty(tree@)),
    {
        proof {
            lemma_access_strings();
        }
        match &tree.text {
            Some(t) => Self::parse_str(tree, t.as_str()),
            None => Err(AccessTypeError::Unknown(tree.clone(), String::new())),
        }
    }

    /// The fixed schema string of this access type.
    pub fn encode_str(&self) -> (r: &'static str)
        ensures
            r@ == access_str(*self),
    {
        match self {
            AccessType::ReadOnly => "read-only",
            AccessType::ReadWrite => "read-write",
            AccessType::ReadWriteOnce => "read-writeOnce",
            AccessType::WriteOnce => "writeOnce",
            AccessType::WriteOnly => "write-only",
        }
    }

    /// Writes an `<access>` node holding the fixed schema string.
    pub fn encode(&self) -> (r: Node)
        ensures
            r@ == text_node("access"@, access_str(*self)),
    {
        let r = Node::text_element("access", Some(String::from_str(self.encode_str())));
        proof {
            assert(r@ =~= text_node("access"@, access_str(*self)));
        }
        r
    }
}

proof fn lemma_access_strings()
    ensures
        "read-only"@.len() == 9,
        "read-write"@.len() == 10,
        "read-writeOnce"@.len() == 14,
        "writeOnce"@.len() == 9,
        "write-only"@.len() == 10,
        "read-only"@[0] == 'r',
        "read-write"@[0] == 'r',
        "writeOnce"@[0] == 'w',
        "write-only"@[0] == 'w',
{
    reveal_strlit("read-only");
    reveal_strlit("read-write");
    reveal_strlit("read-writeOnce");
    reveal_strlit("writeOnce");
    reveal_strlit("write-only");
}

/// Reading back the fixed string of any access type gives that access type.
pub proof fn lemma_access_roundtrip(a: AccessType)
    ensures
        spec_access(access_str(a)) == Some(a),
{
    lemma_access_strings();
    match a {
        AccessType::ReadOnly => assert(spec_access(access_str(a)) == Some(a)),
        AccessType::ReadWrite => assert(spec_access(access_str(a)) == Some(a)),
        AccessType::ReadWriteOnce => assert(spec_access(access_str(a)) == Some(a)),
        AccessType::WriteOnce => assert(spec_access(access_str(a)) == Some(a)),
        AccessType::WriteOnly => assert(spec_access(access_str(a)) == Some(a)),
    }
}

#[derive(Clone, Copy, Debug, PartialEq, Eq, Structural)]
pub enum Endian {
    Little,
    Big,
    Selectable,
    Other,
}

/// The closed endianness vocabulary.
pub open spec fn spec_endian(s: Seq<char>) -> Option<Endian> {
    if s == "little"@ {
        Some(Endian::Little)
    } else if s == "big"@ {
        Some(Endian::Big)
    } else if s == "selectable"@ {
        Some(Endian::Selectable)
    } else if s == "other"@ {
        Some(Endian::Other)
    } else {
        None
    }
}

/// The fixed schema string of each endianness.
pub open spec fn endian_str(e: Endian) -> Seq<char> {
    match e {
        Endian::Little => "little"@,
        Endian::Big => "big"@,
        Endian::Selectable => "selectable"@,
        Endian::Other => "other"@,
    }
}

impl Endian {
    /// Reads an endianness string; an unknown string is carried back verbatim.
    pub fn parse_str(s: &str) -> (r: Result<Endian, EndianError>)
        ensures
            r matches Ok(e) ==> spec_endian(s@) == Some(e),
            r is Ok <==> spec_endian(s@) is Some,
            r matches Err(e) ==> (e matches EndianError::Unknown(t) && t@ == s@),
    {
        if str_eq(s, "little") {
            Ok(Endian::Little)
        } else if str_eq(s, "big") {
            Ok(Endian::Big)
        } else if str_eq(s, "selectable") {
            Ok(Endian::Selectable)
        } else if str_eq(s, "other") {
            Ok(Endian::Other)
        } else {
            Err(EndianError::Unknown(String::from_str(s)))
        }
    }

    /// The fixed schema string of this endianness.
    pub fn encode_str(&self) -> (r: &'static str)
        ensures
            r@ == endian_str(*self),
    {
        match self {
            Endian::Little => "little",
            Endian::Big => "big",
            Endian::Selectable => "selectable",
            Endian::Other => "other",
        }
    }
}

/// Reading back the fixed string of any endianness gives that endianness.
pub proof fn lemma_endian_roundtrip(e: Endian)
    ensures
        spec_endian(endian_str(e)) == Some(e),
{
    reveal_strlit("little");
    reveal_strlit("big");
    reveal_strlit("selectable");
    reveal_strlit("other");
    assert("little"@.len() == 6);
    assert("big"@.len() == 3);
    assert("selectable"@.len() == 10);
    assert("other"@.len() == 5);
    match e {
        Endian::Little => assert(spec_endian(endian_str(e)) == Some(e)),
        Endian::Big => assert(spec_endian(endian_str(e)) == Some(e)),
        Endian::Selectable => assert(spec_endian(endian_str(e)) == Some(e)),
        Endian::Other => assert(spec_endian(endian_str(e)) == Some(e)),
    }
}

#[derive(Clone, Copy, Debug, PartialEq, Eq, Structural)]
pub enum ModifiedWriteValues {
    OneToClear,
    OneToSet,
    OneToToggle,
    ZeroToClear,
    ZeroToSet,
    ZeroToToggle,
    Clear,
    SetAll,
    Modify,
}

/// The closed modified-write-values vocabulary.
pub open spec fn spec_modified_write_values(s: Seq<char>) -> Option<ModifiedWriteValues> {
    if s == "oneToClear"@ {
        Some(ModifiedWriteValues::OneToClear)
    } else if s == "oneToSet"@ {
        Some(ModifiedWriteValues::OneToSet)
    } else if s == "oneToToggle"@ {
        Some(ModifiedWriteValues::OneToToggle)
    } else if s == "zeroToClear"@ {
        Some(ModifiedWriteValues::ZeroToClear)
    } else if s == "zeroToSet"@ {
        Some(ModifiedWriteValues::ZeroToSet)
    } else if s == "zeroToToggle"@ {
        Some(ModifiedWriteValues::ZeroToToggle)
    } else if s == "clear"@ {
        Some(ModifiedWriteValues::Clear)
    } else if s == "set"@ {
        Some(ModifiedWriteValues::SetAll)
    } else if s == "modify"@ {
        Some(ModifiedWriteValues::Modify)
    } else {
        None
    }
}

/// The fixed schema string of each modified-write-values behaviour.
pub open spec fn modified_write_values_str(m: ModifiedWriteValues) -> Seq<char> {
    match m {
        ModifiedWriteValues::OneToClear => "oneToClear"@,
        ModifiedWriteValues::OneToSet => "oneToSet"@,
        ModifiedWriteValues::OneToToggle => "oneToToggle"@,
        ModifiedWriteValues::ZeroToClear => "zeroToClear"@,
        ModifiedWriteValues::ZeroToSet => "zeroToSet"@,
        ModifiedWriteValues::ZeroToToggle => "zeroToToggle"@,
        ModifiedWriteValues::Clear => "clear"@,
        ModifiedWriteValues::SetAll => "set"@,
        ModifiedWriteValues::Modify => "modify"@,
    }
}

impl ModifiedWriteValues {
    /// Reads a modified-write-values string; an unknown string is carried
    /// back verbatim together with the node it came from.
    pub fn parse_str(tree: &Node, s: &str) -> (r: Result<
        ModifiedWriteValues,
        ModifiedWriteValuesError,
    >)
        ensures
            r matches Ok(m) ==> spec_modified_write_values(s@) == Some(m),
            r is Ok <==> spec_modified_write_values(s@) is Some,
            r matches Err(e) ==> (e matches ModifiedWriteValuesError::Invalid(n, t) && n@ == tree@
                && t@ == s@),
    {
        if str_eq(s, "oneToClear") {
            Ok(ModifiedWriteValues::OneToClear)
        } else if str_eq(s, "oneToSet") {
            Ok(ModifiedWriteValues::OneToSet)
        } else if str_eq(s, "oneToToggle") {
            Ok(ModifiedWriteValues::OneToToggle)
        } else if str_eq(s, "zeroToClear") {
            Ok(ModifiedWriteValues::ZeroToClear)
        } else if str_eq(s, "zeroToSet") {
            Ok(ModifiedWriteValues::ZeroToSet)
        } else if str_eq(s, "zeroToToggle") {
            Ok(ModifiedWriteValues::ZeroToToggle)
        } else if str_eq(s, "clear") {
            Ok(ModifiedWriteValues::Clear)
        } else if str_eq(s, "set") {
            Ok(ModifiedWriteValues::SetAll)
        } else if str_eq(s, "modify") {
            Ok(ModifiedWriteValues::Modify)
        } else {
            Err(ModifiedWriteValuesError::Invalid(tree.clone(), String::from_str(s)))
        }
    }

    /// The fixed schema string of this behaviour.
    pub fn encode_str(&self) -> (r: &'static str)
        ensures
            r@ == modified_write_values_str(*self),
    {
        match self {
            ModifiedWriteValues::OneToClear => "oneToClear",
            ModifiedWriteValues::OneToSet => "oneToSet",
            ModifiedWriteValues::OneToToggle => "oneToToggle",
            ModifiedWriteValues::ZeroToClear => "zeroToClear",
            ModifiedWriteValues::ZeroToSet => "zeroToSet",
            ModifiedWriteValues::ZeroToToggle => "zeroToToggle",
            ModifiedWriteValues::Clear => "clear",
            ModifiedWriteValues::SetAll => "set",
            ModifiedWriteValues::Modify => "modify",
        }
    }
}

/// Reading back the fixed string of any modified-write-values behaviour
/// gives that behaviour.
pub proof fn lemma_modified_write_values_roundtrip(m: ModifiedWriteValues)
    ensures
        spec_modified_write_values(modified_write_values_str(m)) == Some(m),
{
    reveal_strlit("oneToClear");
    reveal_strlit("oneToSet");
    reveal_strlit("oneToToggle");
    reveal_strlit("zeroToClear");
    reveal_strlit("zeroToSet");
    reveal_strlit("zeroToToggle");
    reveal_strlit("clear");
    reveal_strlit("set");
    reveal_strlit("modify");
    assert("oneToClear"@.len() == 10);
    assert("oneToSet"@.len() == 8);
    assert("oneToToggle"@.len() == 11);
    assert("zeroToClear"@.len() == 11);
    assert("zeroToSet"@.len() == 9);
    assert("zeroToToggle"@.len() == 12);
    assert("clear"@.len() == 5);
    assert("set"@.len() == 3);
    assert("modify"@.len() == 6);
    assert("oneToToggle"@[0] == 'o');
    assert("zeroToClear"@[0] == 'z');
    match m {
        ModifiedWriteValues::OneToClear => assert(spec_modified_write_values(
            modified_write_values_str(m)) == Some(m)),
        ModifiedWriteValues::OneToSet => assert(spec_modified_write_values(
            modified_write_values_str(m)) == Some(m)),
        ModifiedWriteValues::OneToToggle => assert(spec_modified_write_values(
            modified_write_values_str(m)) == Some(m)),
        ModifiedWriteValues::ZeroToClear => assert(spec_modified_write_values(
            modified_write_values_str(m)) == Some(m)),
        ModifiedWriteValues::ZeroToSet => assert(spec_modified_write_values(
            modified_write_values_str(m)) == Some(m)),
        ModifiedWriteValues::ZeroToToggle => assert(spec_modified_write_values(
            modified_write_values_str(m)) == Some(m)),
        ModifiedWriteValues::Clear => assert(spec_modified_write_values(
            modified_write_values_str(m)) == Some(m)),
        ModifiedWriteValues::SetAll => assert(spec_modified_write_values(
            modified_write_values_str(m)) == Some(m)),
        ModifiedWriteValues::Modify => assert(spec_modified_write_values(
            modified_write_values_str(m)) == Some(m)),
    }
}

#[derive(Clone, Copy, Debug, PartialEq, Eq, Structural)]
pub enum Usage {
    Read,
    Write,
    ReadWrite,
}

/// The closed usage vocabulary of enumerated values.
pub open spec fn spec_usage(s: Seq<char>) -> Option<Usage> {
    if s == "read"@ {
        Some(Usage::Read)
    } else if s == "write"@ {
        Some(Usage::Write)
    } else if s == "read-write"@ {
        Some(Usage::ReadWrite)
    } else {
        None
    }
}

/// The fixed schema string of each usage.
pub open spec fn usage_str(u: Usage) -> Seq<char> {
    match u {
        Usage::Read => "read"@,
        Usage::Write => "write"@,
        Usage::ReadWrite => "read-write"@,
    }
}

impl Usage {
    /// Reads a usage string; the error carries the node it came from.
    pub fn parse_str(tree: &Node, s: &str) -> (r: Result<Usage, UsageVariantError>)
        ensures
            r matches Ok(u) ==> spec_usage(s@) == Some(u),
            r is Ok <==> spec_usage(s@) is Some,
            r matches Err(e) ==> (e matches UsageVariantError::Unknown(n) && n@ == tree@),
    {
        if str_eq(s, "read") {
            Ok(Usage::Read)
        } else if str_eq(s, "write") {
            Ok(Usage::Write)
        } else if str_eq(s, "read-write") {
            Ok(Usage::ReadWrite)
        } else {
            Err(UsageVariantError::Unknown(tree.clone()))
        }
    }

    /// The fixed schema string of this usage.
    pub fn encode_str(&self) -> (r: &'static str)
        ensures
            r@ == usage_str(*self),
    {
        match self {
            Usage::Read => "read",
            Usage::Write => "write",
            Usage::ReadWrite => "read-write",
        }
    }
}

/// Reading back the fixed string of any usage gives that usage.
pub proof fn lemma_usage_roundtrip(u: Usage)
    ensures
        spec_usage(usage_str(u)) == Some(u),
{
    reveal_strlit("read");
    reveal_strlit("write");
    reveal_strlit("read-write");
    assert("read"@.len() == 4);
    assert("write"@.len() == 5);
    assert("read-write"@.len() == 10);
    match u {
        Usage::Read => assert(spec_usage(usage_str(u)) == Some(u)),
        Usage::Write => assert(spec_usage(usage_str(u)) == Some(u)),
        Usage::ReadWrite => assert(spec_usage(usage_str(u)) == Some(u)),
    }
}

} // verus!
