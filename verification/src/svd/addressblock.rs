//! The address block record: an address range uniquely mapped to a
//! peripheral.

use vstd::prelude::*;
use crate::error::{ErrorKind, SvdError};
use crate::num::{spec_parse_u32, dec_str, format_u32_dec, lemma_dec_roundtrip};
use crate::tree::{
    Node, NodeV, child_text_opt, text_node, lemma_first_child_at,
};

verus! {

/// A flat record: offset and size of the range, and what the range is used
/// for (a free-form schema string such as `registers`).
#[derive(Debug, PartialEq)]
pub struct AddressBlock {
    pub offset: u32,
    pub size: u32,
    pub usage: String,
}

/// All three children are required and the two numbers must be readable.
pub open spec fn address_block_parses(n: NodeV) -> bool {
    &&& (child_text_opt(n, "offset"@) matches Ok(Some(t)) && spec_parse_u32(t) is Some)
    &&& (child_text_opt(n, "size"@) matches Ok(Some(t)) && spec_parse_u32(t) is Some)
    &&& (child_text_opt(n, "usage"@) matches Ok(Some(_)))
}

/// `ab` is exactly what reading `n` gives.
pub open spec fn address_block_matches(n: NodeV, ab: AddressBlock) -> bool {
    &&& (child_text_opt(n, "offset"@) matches Ok(Some(t)) && spec_parse_u32(t) == Some(ab.offset))
    &&& (child_text_opt(n, "size"@) matches Ok(Some(t)) && spec_parse_u32(t) == Some(ab.size))
    &&& child_text_opt(n, "usage"@) == Ok::<_, ()>(Some(ab.usage@))
}

/// The exact node `encode` writes for an address block.
pub open spec fn address_block_node(ab: AddressBlock) -> NodeV {
    NodeV {
        name: "addressBlock"@,
        attributes: Seq::empty(),
        children: seq![
            text_node("offset"@, dec_str(ab.offset as nat)),
            text_node("size"@, dec_str(ab.size as nat)),
            text_node("usage"@, ab.usage@),
        ],
        text: None,
    }
}

impl Clone for AddressBlock {
    /// A clone carries the same value.
    fn clone(&self) -> (r: AddressBlock)
        ensures
            r == *self,
    {
        AddressBlock { offset: self.offset, size: self.size, usage: self.usage.clone() }
    }
}

impl AddressBlock {
    /// Reads an `addressBlock` node: required `offset`, `size` and `usage`
    /// children.
    pub fn parse(tree: &Node) -> (r: Result<AddressBlock, SvdError>)
        ensures
            r is Ok <==> address_block_parses(tree@),
            r matches Ok(ab) ==> address_block_matches(tree@, ab),
            r matches Err(e) ==> (e.kind matches ErrorKind::Parse(_) && e.context@.len() == 0),
    {
        let offset = match tree.get_child_u32("offset") {
            Ok(v) => v,
            Err(e) => return Err(SvdError::new(ErrorKind::Parse(e))),
        };
        let size = match tree.get_child_u32("size") {
            Ok(v) => v,
            Err(e) => return Err(SvdError::new(ErrorKind::Parse(e))),
        };
        let usage = match tree.get_child_text("usage") {
            Ok(v) => v,
            Err(e) => return Err(SvdError::new(ErrorKind::Parse(e))),
        };
        Ok(AddressBlock { offset, size, usage })
    }

    /// Writes an `addressBlock` node with the three children in schema
    /// order, numbers in canonical decimal.
    pub fn encode(&self) -> (r: Result<Node, SvdError>)
        ensures
            r is Ok,
            r matches Ok(node) ==> node@ == address_block_node(*self),
    {
        let mut node = Node::text_element("addressBlock", None);
        node.push_text_child("offset", format_u32_dec(self.offset));
        node.push_text_child("size", format_u32_dec(self.size));
        node.push_text_child("usage", self.usage.clone());
        proof {
            assert(node@.children =~= seq![
                text_node("offset"@, dec_str(self.offset as nat)),
                text_node("size"@, dec_str(self.size as nat)),
                text_node("usage"@, self.usage@),
            ]);
            assert(node@ =~= address_block_node(*self));
        }
        Ok(node)
    }
}

/// Re-reading an encoded address block gives the record back: parsing a
/// node shaped like the encode output yields exactly the same three fields.
pub proof fn lemma_address_block_roundtrip(ab: AddressBlock, n: NodeV)
    requires
        n.children == seq![
            text_node("offset"@, dec_str(ab.offset as nat)),
            text_node("size"@, dec_str(ab.size as nat)),
            text_node("usage"@, ab.usage@),
        ],
        ab.usage@.len() > 0,
    ensures
        address_block_parses(n),
        address_block_matches(n, ab),
{
    reveal_strlit("offset");
    reveal_strlit("size");
    reveal_strlit("usage");
    assert("offset"@.len() == 6);
    assert("size"@.len() == 4);
    assert("usage"@.len() == 5);
    lemma_first_child_at(n.children, "offset"@, 0);
    lemma_first_child_at(n.children, "size"@, 1);
    lemma_first_child_at(n.children, "usage"@, 2);
    lemma_dec_roundtrip(ab.offset);
    lemma_dec_roundtrip(ab.size);
}

} // verus!
