//! The generic attributed tree that entities are parsed from and encoded to.
//!
//! A document parser outside this library produces nodes of this shape; the
//! library never lexes a document itself.

use vstd::prelude::*;
use crate::error::ParseError;
use crate::num::{spec_parse_u32, spec_parse_bool, parse_u32, parse_bool};

verus! {

broadcast use {
    vstd::std_specs::vec::axiom_vec_index_decreases,
    vstd::std_specs::vec::axiom_vec_decreases_to_view,
    vstd::seq::axiom_seq_index_decreases,
    vstd::seq::axiom_seq_subrange_decreases,
};

/// Mathematical model of a tree node: every string as a sequence of
/// characters, children in order.
#[verifier::ext_equal]
pub struct NodeV {
    pub name: Seq<char>,
    pub attributes: Seq<(Seq<char>, Seq<char>)>,
    pub children: Seq<NodeV>,
    pub text: Option<Seq<char>>,
}

/// A named tree node: tag name, unordered attribute pairs, ordered children,
/// optional text content.
#[derive(Debug, PartialEq)]
pub struct Node {
    pub name: String,
    pub attributes: Vec<(String, String)>,
    pub children: Vec<Node>,
    pub text: Option<String>,
}

/// The model of a node: each string replaced by its character sequence,
/// children modelled recursively.
pub open spec fn node_view(n: Node) -> NodeV
    decreases n,
{
    NodeV {
        name: n.name@,
        attributes: Seq::new(n.attributes@.len(), |i: int| (n.attributes@[i].0@, n.attributes@[i].1@)),
        children: children_view(n.children@),
        text: match n.text {
            Some(t) => Some(t@),
            None => None,
        },
    }
}

/// The models of a sequence of nodes, in order.
pub open spec fn children_view(cs: Seq<Node>) -> Seq<NodeV>
    decreases cs,
{
    if cs.len() == 0 {
        Seq::empty()
    } else {
        seq![node_view(cs[0])] + children_view(cs.drop_first())
    }
}

/// `children_view` maps each node to its model and keeps the order.
pub broadcast proof fn lemma_children_view(cs: Seq<Node>)
    ensures
        (#[trigger] children_view(cs)).len() == cs.len(),
        forall|i: int| 0 <= i < cs.len() ==> children_view(cs)[i] == node_view(cs[i]),
    decreases cs.len(),
{
    if cs.len() > 0 {
        lemma_children_view(cs.drop_first());
        assert forall|i: int| 0 <= i < cs.len() implies children_view(cs)[i] == node_view(cs[i]) by {
            if i > 0 {
                assert(cs.drop_first()[i - 1] == cs[i]);
            }
        }
    }
}

impl View for Node {
    type V = NodeV;

    open spec fn view(&self) -> NodeV {
        node_view(*self)
    }
}

impl Clone for Node {
    /// A clone has the same model as the original.
    fn clone(&self) -> (r: Node)
        ensures
            r@ == self@,
        decreases *self,
    {
        let mut attributes: Vec<(String, String)> = Vec::new();
        let mut i: usize = 0;
        while i < self.attributes.len()
            invariant
                i <= self.attributes.len(),
                attributes@.len() == i,
                forall|j: int|
                    0 <= j < i ==> #[trigger] attributes@[j].0@ == self.attributes@[j].0@
                        && attributes@[j].1@ == self.attributes@[j].1@,
            decreases self.attributes.len() - i,
        {
            attributes.push((self.attributes[i].0.clone(), self.attributes[i].1.clone()));
            i += 1;
        }
        let mut children: Vec<Node> = Vec::new();
        let mut i: usize = 0;
        while i < self.children.len()
            invariant
                i <= self.children.len(),
                children@.len() == i,
                forall|j: int|
                    0 <= j < i ==> #[trigger] node_view(children@[j]) == node_view(
                        self.children@[j],
                    ),
            decreases self.children.len() - i,
        {
            proof {
                assert(decreases_to!(*self => self.children));
                assert(decreases_to!(self.children => self.children@[i as int]));
            }
            children.push(self.children[i].clone());
            i += 1;
        }
        let r = Node {
            name: self.name.clone(),
            attributes,
            children,
            text: match &self.text {
                Some(t) => Some(t.clone()),
                None => None,
            },
        };
        proof {
            lemma_children_view(r.children@);
            lemma_children_view(self.children@);
            assert(r@.attributes =~= self@.attributes);
            assert(r@.children =~= self@.children);
            assert(r@ =~= self@);
        }
        r
    }
}

/// The first child of `n` named `tag`, searching from index `i`.
pub open spec fn first_child_from(cs: Seq<NodeV>, tag: Seq<char>, i: int) -> Option<NodeV>
    decreases cs.len() - i,
{
    if i < 0 || i >= cs.len() {
        None
    } else if cs[i].name == tag {
        Some(cs[i])
    } else {
        first_child_from(cs, tag, i + 1)
    }
}

/// The first child of `n` named `tag`, if any.
pub open spec fn first_child(n: NodeV, tag: Seq<char>) -> Option<NodeV> {
    first_child_from(n.children, tag, 0)
}

/// Skipping a prefix without a match does not change the search result.
pub proof fn lemma_first_child_skip(cs: Seq<NodeV>, tag: Seq<char>, i: int)
    requires
        0 <= i <= cs.len(),
        forall|j: int| 0 <= j < i ==> (#[trigger] cs[j]).name != tag,
    ensures
        first_child_from(cs, tag, 0) == first_child_from(cs, tag, i),
    decreases i,
{
    if i > 0 {
        lemma_first_child_skip(cs, tag, i - 1);
    }
}

/// Text content of a node, the empty sequence standing for no text at all.
pub open spec fn text_or_empty(n: NodeV) -> Seq<char> {
    match n.text {
        Some(t) => t,
        None => Seq::empty(),
    }
}

/// Extraction of an optional child's text: no child with the tag is `Ok(None)`,
/// a first such child with nonempty text is `Ok(Some(text))`, and a first such
/// child with no text is an empty-tag failure.
pub open spec fn child_text_opt(n: NodeV, tag: Seq<char>) -> Result<Option<Seq<char>>, ()> {
    match first_child(n, tag) {
        None => Ok(None),
        Some(c) => if text_or_empty(c).len() > 0 {
            Ok(Some(text_or_empty(c)))
        } else {
            Err(())
        },
    }
}

/// The value of the attribute named `key`, searching from index `i`.
pub open spec fn attr_from(ats: Seq<(Seq<char>, Seq<char>)>, key: Seq<char>, i: int) -> Option<
    Seq<char>,
>
    decreases ats.len() - i,
{
    if i < 0 || i >= ats.len() {
        None
    } else if ats[i].0 == key {
        Some(ats[i].1)
    } else {
        attr_from(ats, key, i + 1)
    }
}

/// The value of the attribute named `key` on `n`, if any.
pub open spec fn attr_of(n: NodeV, key: Seq<char>) -> Option<Seq<char>> {
    attr_from(n.attributes, key, 0)
}

/// Skipping a prefix without a match does not change the attribute lookup.
pub proof fn lemma_attr_skip(ats: Seq<(Seq<char>, Seq<char>)>, key: Seq<char>, i: int)
    requires
        0 <= i <= ats.len(),
        forall|j: int| 0 <= j < i ==> (#[trigger] ats[j]).0 != key,
    ensures
        attr_from(ats, key, 0) == attr_from(ats, key, i),
    decreases i,
{
    if i > 0 {
        lemma_attr_skip(ats, key, i - 1);
    }
}

/// Character-wise string equality.
pub fn str_eq(a: &str, b: &str) -> (r: bool)
    ensures
        r == (a@ == b@),
{
    let la = a.unicode_len();
    let lb = b.unicode_len();
    if la != lb {
        return false;
    }
    let mut i: usize = 0;
    while i < la
        invariant
            i <= la,
            la == a@.len(),
            la == b@.len(),
            forall|j: int| 0 <= j < i ==> a@[j] == b@[j],
        decreases la - i,
    {
        if a.get_char(i) != b.get_char(i) {
            return false;
        }
        i += 1;
    }
    proof {
        assert(a@ =~= b@);
    }
    true
}

impl Node {
    /// A childless, attributeless node with the given tag and text.
    pub fn text_element(tag: &str, text: Option<String>) -> (r: Node)
        ensures
            r@.name == tag@,
            r@.attributes == Seq::<(Seq<char>, Seq<char>)>::empty(),
            r@.children == Seq::<NodeV>::empty(),
            r@.text == (match text {
                Some(t) => Some(t@),
                None => None::<Seq<char>>,
            }),
    {
        let r = Node { name: String::from_str(tag), attributes: Vec::new(), children: Vec::new(), text };
        proof {
            assert(r@.attributes =~= Seq::<(Seq<char>, Seq<char>)>::empty());
            assert(r@.children =~= Seq::<NodeV>::empty());
        }
        r
    }

    /// Appends a child, leaving everything else unchanged.
    pub fn push_child(&mut self, c: Node)
        ensures
            final(self)@.name == old(self)@.name,
            final(self)@.attributes == old(self)@.attributes,
            final(self)@.text == old(self)@.text,
            final(self)@.children == old(self)@.children.push(c@),
    {
        self.children.push(c);
        proof {
            lemma_children_view(self.children@);
            lemma_children_view(old(self).children@);
            assert(final(self)@.attributes =~= old(self)@.attributes);
            assert(final(self)@.children =~= old(self)@.children.push(c@));
        }
    }

    /// Appends an attribute pair, leaving everything else unchanged.
    pub fn push_attribute(&mut self, key: &str, value: String)
        ensures
            final(self)@.name == old(self)@.name,
            final(self)@.children == old(self)@.children,
            final(self)@.text == old(self)@.text,
            final(self)@.attributes == old(self)@.attributes.push((key@, value@)),
    {
        self.attributes.push((String::from_str(key), value));
        proof {
            assert(final(self)@.children =~= old(self)@.children);
            assert(final(self)@.attributes =~= old(self)@.attributes.push((key@, value@)));
        }
    }

    /// The first child named `tag`, if any.
    pub fn get_child(&self, tag: &str) -> (r: Option<&Node>)
        ensures
            match r {
                Some(c) => first_child(self@, tag@) == Some(c@),
                None => first_child(self@, tag@) is None,
            },
    {
        proof {
            lemma_children_view(self.children@);
        }
        let mut i: usize = 0;
        while i < self.children.len()
            invariant
                i <= self.children.len(),
                self@.children.len() == self.children@.len(),
                forall|j: int| 0 <= j < i ==> (#[trigger] self@.children[j]).name != tag@,
            decreases self.children.len() - i,
        {
            proof {
                lemma_children_view(self.children@);
            }
            if str_eq(self.children[i].name.as_str(), tag) {
                proof {
                    lemma_first_child_skip(self@.children, tag@, i as int);
                }
                return Some(&self.children[i]);
            }
            i += 1;
        }
        proof {
            lemma_first_child_skip(self@.children, tag@, self@.children.len() as int);
        }
        None
    }

    /// The value of the attribute named `key`, if any.
    pub fn attribute(&self, key: &str) -> (r: Option<String>)
        ensures
            match r {
                Some(v) => attr_of(self@, key@) == Some(v@),
                None => attr_of(self@, key@) is None,
            },
    {
        let mut i: usize = 0;
        while i < self.attributes.len()
            invariant
                i <= self.attributes.len(),
                forall|j: int| 0 <= j < i ==> (#[trigger] self@.attributes[j]).0 != key@,
            decreases self.attributes.len() - i,
        {
            if str_eq(self.attributes[i].0.as_str(), key) {
                proof {
                    lemma_attr_skip(self@.attributes, key@, i as int);
                }
                return Some(self.attributes[i].1.clone());
            }
            i += 1;
        }
        proof {
            lemma_attr_skip(self@.attributes, key@, self@.attributes.len() as int);
        }
        None
    }

    /// Text of the first child named `tag`: absent child is `Ok(None)`, a
    /// present child must have nonempty text or the extraction fails.
    pub fn get_child_text_opt(&self, tag: &str) -> (r: Result<Option<String>, ParseError>)
        ensures
            r is Ok <==> child_text_opt(self@, tag@) is Ok,
            r matches Ok(Some(t)) ==> child_text_opt(self@, tag@) == Ok::<_, ()>(Some(t@)),
            r matches Ok(None) ==> child_text_opt(self@, tag@) == Ok::<Option<Seq<char>>, ()>(None),
            r matches Err(e) ==> (e matches ParseError::EmptyTag(n, s) && first_child(self@, tag@)
                == Some(n@) && s@ == tag@),
    {
        match self.get_child(tag) {
            None => Ok(None),
            Some(c) => {
                match &c.text {
                    Some(t) if !t.as_str().is_empty() => Ok(Some(t.clone())),
                    _ => Err(ParseError::EmptyTag(c.clone(), String::from_str(tag))),
                }
            },
        }
    }

    /// Text of the required child named `tag`: a missing child or a child
    /// without text is a failure naming the tag.
    pub fn get_child_text(&self, tag: &str) -> (r: Result<String, ParseError>)
        ensures
            r matches Ok(t) ==> child_text_opt(self@, tag@) == Ok::<_, ()>(Some(t@)),
            child_text_opt(self@, tag@) matches Ok(Some(t)) ==> (r matches Ok(rt) && rt@ == t),
            child_text_opt(self@, tag@) matches Ok(o) && o is None ==> (r matches Err(e)
                && e matches ParseError::MissingTag(n, s) && n@ == self@ && s@ == tag@),
            child_text_opt(self@, tag@) is Err ==> (r matches Err(e) && e matches
                ParseError::EmptyTag(n, s) && first_child(self@, tag@) == Some(n@) && s@ == tag@),
    {
        match self.get_child_text_opt(tag)? {
            Some(t) => Ok(t),
            None => Err(ParseError::MissingTag(self.clone(), String::from_str(tag))),
        }
    }

    /// Numeric value of the required child named `tag`, read by the numeric
    /// literal grammar (decimal, `0x` hexadecimal, `#` binary).
    pub fn get_child_u32(&self, tag: &str) -> (r: Result<u32, ParseError>)
        ensures
            r matches Ok(v) ==> (child_text_opt(self@, tag@) matches Ok(Some(t))
                && spec_parse_u32(t) == Some(v)),
            child_text_opt(self@, tag@) matches Ok(Some(t)) ==> (match spec_parse_u32(t) {
                Some(v) => r matches Ok(rv) && rv == v,
                None => r matches Err(e) && e matches ParseError::Other(n) && first_child(
                    self@,
                    tag@,
                ) == Some(n@),
            }),
            child_text_opt(self@, tag@) matches Ok(o) && o is None ==> (r matches Err(e)
                && e matches ParseError::MissingTag(n, s) && n@ == self@ && s@ == tag@),
            child_text_opt(self@, tag@) is Err ==> (r matches Err(e) && e matches
                ParseError::EmptyTag(n, s) && first_child(self@, tag@) == Some(n@) && s@ == tag@),
    {
        let t = self.get_child_text(tag)?;
        match parse_u32(t.as_str()) {
            Some(v) => Ok(v),
            None => {
                match self.get_child(tag) {
                    Some(c) => Err(ParseError::Other(c.clone())),
                    None => Err(ParseError::MissingTag(self.clone(), String::from_str(tag))),
                }
            },
        }
    }

    /// Boolean value of the required child named `tag` (`true` or `false`).
    pub fn get_child_bool(&self, tag: &str) -> (r: Result<bool, ParseError>)
        ensures
            r matches Ok(v) ==> (child_text_opt(self@, tag@) matches Ok(Some(t))
                && spec_parse_bool(t) == Some(v)),
            child_text_opt(self@, tag@) matches Ok(Some(t)) ==> (match spec_parse_bool(t) {
                Some(v) => r matches Ok(rv) && rv == v,
                None => r matches Err(e) && e matches ParseError::InvalidBooleanValue(n, s)
                    && first_child(self@, tag@) == Some(n@) && s@ == t,
            }),
            child_text_opt(self@, tag@) matches Ok(o) && o is None ==> (r matches Err(e)
                && e matches ParseError::MissingTag(n, s) && n@ == self@ && s@ == tag@),
            child_text_opt(self@, tag@) is Err ==> (r matches Err(e) && e matches
                ParseError::EmptyTag(n, s) && first_child(self@, tag@) == Some(n@) && s@ == tag@),
    {
        let t = self.get_child_text(tag)?;
        match parse_bool(t.as_str()) {
            Some(v) => Ok(v),
            None => {
                match self.get_child(tag) {
                    Some(c) => Err(ParseError::InvalidBooleanValue(c.clone(), t)),
                    None => Err(ParseError::MissingTag(self.clone(), String::from_str(tag))),
                }
            },
        }
    }
}

/// The children named `tag`, in order.
pub open spec fn children_named(cs: Seq<NodeV>, tag: Seq<char>) -> Seq<NodeV>
    decreases cs.len(),
{
    if cs.len() == 0 {
        Seq::empty()
    } else if cs.last().name == tag {
        children_named(cs.drop_last(), tag).push(cs.last())
    } else {
        children_named(cs.drop_last(), tag)
    }
}

/// What a prefix of the children contributes stands unchanged, at the same
/// places, in the whole children list's selection.
pub proof fn lemma_children_named_prefix(cs: Seq<NodeV>, tag: Seq<char>, i: int)
    requires
        0 <= i <= cs.len(),
    ensures
        children_named(cs.subrange(0, i), tag).len() <= children_named(cs, tag).len(),
        forall|k: int|
            0 <= k < children_named(cs.subrange(0, i), tag).len() ==> #[trigger] children_named(
                cs,
                tag,
            )[k] == children_named(cs.subrange(0, i), tag)[k],
    decreases cs.len() - i,
{
    if i == cs.len() {
        assert(cs.subrange(0, i) =~= cs);
    } else {
        assert(cs.subrange(0, i + 1).drop_last() =~= cs.subrange(0, i));
        assert(cs.subrange(0, i + 1).last() == cs[i]);
        lemma_children_named_prefix(cs, tag, i + 1);
    }
}

/// The model of a childless, attributeless node with the given tag and text.
pub open spec fn text_node(tag: Seq<char>, text: Seq<char>) -> NodeV {
    NodeV { name: tag, attributes: Seq::empty(), children: Seq::empty(), text: Some(text) }
}

/// The first match of a tag is the one at the first matching index.
pub proof fn lemma_first_child_at(cs: Seq<NodeV>, tag: Seq<char>, i: int)
    requires
        0 <= i < cs.len(),
        forall|j: int| 0 <= j < i ==> (#[trigger] cs[j]).name != tag,
        cs[i].name == tag,
    ensures
        first_child_from(cs, tag, 0) == Some(cs[i]),
{
    lemma_first_child_skip(cs, tag, i);
}

/// A tag that no child carries is never found.
pub proof fn lemma_first_child_none(cs: Seq<NodeV>, tag: Seq<char>)
    requires
        forall|j: int| 0 <= j < cs.len() ==> (#[trigger] cs[j]).name != tag,
    ensures
        first_child_from(cs, tag, 0) is None,
{
    lemma_first_child_skip(cs, tag, cs.len() as int);
}

impl Node {
    /// Numeric value of the optional child named `tag`: an absent child is
    /// no value, a present one must hold a readable numeric literal.
    pub fn get_child_u32_opt(&self, tag: &str) -> (r: Result<Option<u32>, ParseError>)
        ensures
            r matches Ok(o) ==> (match child_text_opt(self@, tag@) {
                Ok(Some(t)) => o matches Some(v) && spec_parse_u32(t) == Some(v),
                Ok(None) => o is None,
                Err(_) => false,
            }),
            r is Ok <==> (match child_text_opt(self@, tag@) {
                Ok(Some(t)) => spec_parse_u32(t) is Some,
                Ok(None) => true,
                Err(_) => false,
            }),
            r matches Err(e) ==> (match e {
                ParseError::Other(n) => first_child(self@, tag@) == Some(n@),
                ParseError::EmptyTag(n, s) => first_child(self@, tag@) == Some(n@) && s@ == tag@,
                _ => false,
            }),
    {
        match self.get_child_text_opt(tag)? {
            None => Ok(None),
            Some(t) => {
                match parse_u32(t.as_str()) {
                    Some(v) => Ok(Some(v)),
                    None => {
                        match self.get_child(tag) {
                            Some(c) => Err(ParseError::Other(c.clone())),
                            None => Err(ParseError::MissingTag(
                                self.clone(),
                                String::from_str(tag),
                            )),
                        }
                    },
                }
            },
        }
    }

    /// Boolean value of the optional child named `tag`.
    pub fn get_child_bool_opt(&self, tag: &str) -> (r: Result<Option<bool>, ParseError>)
        ensures
            r matches Ok(o) ==> (match child_text_opt(self@, tag@) {
                Ok(Some(t)) => o matches Some(v) && spec_parse_bool(t) == Some(v),
                Ok(None) => o is None,
                Err(_) => false,
            }),
            r is Ok <==> (match child_text_opt(self@, tag@) {
                Ok(Some(t)) => spec_parse_bool(t) is Some,
                Ok(None) => true,
                Err(_) => false,
            }),
            r matches Err(e) ==> (match e {
                ParseError::InvalidBooleanValue(n, t) => first_child(self@, tag@) == Some(n@),
                ParseError::EmptyTag(n, s) => first_child(self@, tag@) == Some(n@) && s@ == tag@,
                _ => false,
            }),
    {
        match self.get_child_text_opt(tag)? {
            None => Ok(None),
            Some(t) => {
                match parse_bool(t.as_str()) {
                    Some(v) => Ok(Some(v)),
                    None => {
                        match self.get_child(tag) {
                            Some(c) => Err(ParseError::InvalidBooleanValue(c.clone(), t)),
                            None => Err(ParseError::MissingTag(
                                self.clone(),
                                String::from_str(tag),
                            )),
                        }
                    },
                }
            },
        }
    }

    /// Appends a `<tag>text</tag>` child, leaving everything else unchanged.
    pub fn push_text_child(&mut self, tag: &str, text: String)
        ensures
            final(self)@.name == old(self)@.name,
            final(self)@.attributes == old(self)@.attributes,
            final(self)@.text == old(self)@.text,
            final(self)@.children == old(self)@.children.push(text_node(tag@, text@)),
    {
        let ghost t = text@;
        let c = Node::text_element(tag, Some(text));
        proof {
            assert(c@ =~= text_node(tag@, t));
        }
        self.push_child(c);
    }
}

} // verus!
