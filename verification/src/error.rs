//! Error kinds for parsing and encoding, the positional-context layer, and
//! the identifier grammar.

use vstd::prelude::*;
use crate::tree::Node;

verus! {

/// Structural failures of the tree shape. Each carries the offending node.
#[derive(Clone, Debug, PartialEq)]
pub enum ParseError {
    /// A tag was found but held no content.
    EmptyTag(Node, String),
    /// A required tag was absent.
    MissingTag(Node, String),
    NameMismatch(Node),
    /// A node's own tag was not the one the entity expects.
    NotExpectedTag(Node, String),
    /// The content could not be read as a boolean value.
    InvalidBooleanValue(Node, String),
    /// The content could not be read by the numeric literal grammar.
    Other(Node),
}

/// A required-field builder failure: the named slot was never set.
#[derive(Clone, Debug, PartialEq, Eq)]
pub enum BuildError {
    Uninitialized(String),
}

/// A string outside the closed access-type enumeration, carried verbatim.
#[derive(Clone, Debug, PartialEq)]
pub enum AccessTypeError {
    Unknown(Node, String),
}

/// A bit-range that could not be reconciled, with the reason.
#[derive(Clone, Debug, PartialEq)]
pub enum BitRangeError {
    Invalid(Node, InvalidBitRange),
}

/// Why a bit-range was rejected: malformed `[msb:lsb]` shape, unreadable
/// numbers, or an inverted pair.
#[derive(Clone, Copy, Debug, PartialEq, Eq, Structural)]
pub enum InvalidBitRange {
    Syntax,
    ParseError,
    MsbLsb,
}

/// A string outside the closed endianness enumeration.
#[derive(Clone, Debug, PartialEq, Eq)]
pub enum EndianError {
    Unknown(String),
}

/// A string outside the closed modified-write-values enumeration.
#[derive(Clone, Debug, PartialEq)]
pub enum ModifiedWriteValuesError {
    Invalid(Node, String),
}

/// A child of a `registers` or `cluster` node that is neither a register
/// nor a cluster.
#[derive(Clone, Debug, PartialEq)]
pub enum RegisterClusterError {
    Invalid(Node, String),
}

/// A string outside the closed usage enumeration.
#[derive(Clone, Debug, PartialEq)]
pub enum UsageVariantError {
    Unknown(Node),
}

/// A write-constraint element without a recognized constraint kind, or with
/// more than one.
#[derive(Clone, Debug, PartialEq)]
pub enum WriteConstraintError {
    Unknown(Node),
    MoreThanOne(Node),
}

/// A name grammar violation: the offending string is carried verbatim.
#[derive(Clone, Debug, PartialEq, Eq)]
pub enum NameError {
    Invalid(String),
}

/// A `derivedFrom` reference naming a peripheral that the document does not
/// contain.
#[derive(Clone, Debug, PartialEq, Eq)]
pub enum DeriveError {
    MissingSource(String),
}

/// Every failure kind the engine can report. The kind is never altered once
/// raised; callers only wrap it in positional context.
#[derive(Clone, Debug, PartialEq)]
pub enum ErrorKind {
    Parse(ParseError),
    Build(BuildError),
    AccessType(AccessTypeError),
    BitRange(BitRangeError),
    Endian(EndianError),
    ModifiedWriteValues(ModifiedWriteValuesError),
    RegisterCluster(RegisterClusterError),
    Usage(UsageVariantError),
    WriteConstraint(WriteConstraintError),
    Name(NameError),
    Derive(DeriveError),
}

/// One step of the human-readable failure path, innermost step first.
#[derive(Clone, Debug, PartialEq)]
pub enum ErrorContext {
    InPeripheral(String),
    InRegister(String),
    InCluster(String),
    InField(String),
    ParsingInterrupt(usize),
    ParsingRegisterCluster(usize),
    ParsingField(usize),
    ParsingEnumeratedValue(usize),
}

/// A failure kind together with the positional path collected while the
/// failure unwound, innermost context first.
#[derive(Clone, Debug, PartialEq)]
pub struct SvdError {
    pub context: Vec<ErrorContext>,
    pub kind: ErrorKind,
}

impl SvdError {
    /// A fresh failure with no positional context yet.
    pub fn new(kind: ErrorKind) -> (r: SvdError)
        ensures
            r.kind == kind,
            r.context@ == Seq::<ErrorContext>::empty(),
    {
        let r = SvdError { context: Vec::new(), kind };
        proof {
            assert(r.context@ =~= Seq::<ErrorContext>::empty());
        }
        r
    }

    /// Adds one positional step around the failure; the kind is kept as it is.
    pub fn with_context(self, c: ErrorContext) -> (r: SvdError)
        ensures
            r.kind == self.kind,
            r.context@ == self.context@.push(c),
    {
        let mut s = self;
        s.context.push(c);
        s
    }
}

/// The first character of a valid identifier: an ASCII letter or underscore.
pub open spec fn valid_name_char_first(c: char) -> bool {
    ('a' <= c && c <= 'z') || ('A' <= c && c <= 'Z') || c == '_'
}

/// Any later character of a valid identifier: an ASCII alphanumeric or underscore.
pub open spec fn valid_name_char(c: char) -> bool {
    valid_name_char_first(c) || ('0' <= c && c <= '9')
}

/// The identifier grammar: nonempty, a letter or underscore first,
/// alphanumerics or underscores after.
pub open spec fn valid_name(s: Seq<char>) -> bool {
    &&& s.len() > 0
    &&& valid_name_char_first(s[0])
    &&& forall|i: int| 1 <= i < s.len() ==> valid_name_char(#[trigger] s[i])
}

/// Decides the identifier grammar.
pub fn is_valid_name(name: &str) -> (r: bool)
    ensures
        r == valid_name(name@),
{
    let len = name.unicode_len();
    if len == 0 {
        return false;
    }
    let first = name.get_char(0);
    if !(('a' <= first && first <= 'z') || ('A' <= first && first <= 'Z') || first == '_') {
        return false;
    }
    let mut i: usize = 1;
    while i < len
        invariant
            1 <= i <= len,
            len == name@.len(),
            valid_name_char_first(name@[0]),
            forall|j: int| 1 <= j < i ==> valid_name_char(#[trigger] name@[j]),
        decreases len - i,
    {
        let c = name.get_char(i);
        if !(('a' <= c && c <= 'z') || ('A' <= c && c <= 'Z') || c == '_' || ('0' <= c && c <= '9'))
        {
            return false;
        }
        i += 1;
    }
    true
}

/// Accepts exactly the strings of the identifier grammar; a rejected string
/// is carried back unchanged in the error.
pub fn check_name(name: &str) -> (r: Result<(), NameError>)
    ensures
        r is Ok <==> valid_name(name@),
        r matches Err(NameError::Invalid(s)) ==> s@ == name@,
{
    if is_valid_name(name) {
        Ok(())
    } else {
        Err(NameError::Invalid(String::from_str(name)))
    }
}

/// A string that starts with a character outside the letter-or-underscore
/// class (a digit, or punctuation other than underscore) never satisfies
/// the identifier grammar.
pub proof fn lemma_invalid_first_char(s: Seq<char>)
    requires
        s.len() > 0,
        !valid_name_char_first(s[0]),
    ensures
        !valid_name(s),
{
}

} // verus!
