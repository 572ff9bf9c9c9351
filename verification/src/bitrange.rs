//! The bit-range resolver: reconciles the three source encodings of a bit
//! position — `bitOffset`/`bitWidth` children, `msb`/`lsb` children, or a
//! single `[msb:lsb]` string — into the canonical (offset, width) pair.

use vstd::prelude::*;
use crate::error::{BitRangeError, InvalidBitRange};
use crate::num::{
    spec_parse_u32, spec_parse_radix, parse_u32, parse_radix, format_u32_dec, dec_str,
    lemma_dec_roundtrip,
};
use crate::tree::{Node, NodeV, first_child, child_text_opt, text_node};

verus! {

/// Canonical position of a field inside a register's bit layout. Never
/// constructed except through the resolver or from already-validated values.
#[derive(Clone, Copy, Debug, PartialEq, Eq, Structural)]
pub struct BitRange {
    pub offset: u32,
    pub width: u32,
}

/// Position of the first colon at or after `i`.
pub open spec fn colon_from(s: Seq<char>, i: int) -> Option<int>
    decreases s.len() - i,
{
    if i < 0 || i >= s.len() {
        None
    } else if s[i] == ':' {
        Some(i)
    } else {
        colon_from(s, i + 1)
    }
}

proof fn lemma_colon_skip(s: Seq<char>, i: int)
    requires
        0 <= i <= s.len(),
        forall|j: int| 0 <= j < i ==> s[j] != ':',
    ensures
        colon_from(s, 0) == colon_from(s, i),
    decreases i,
{
    if i > 0 {
        lemma_colon_skip(s, i - 1);
    }
}

/// Reading the `[msb:lsb]` string form: bracket-and-colon shape first
/// (`Syntax`), then decimal numbers (`ParseError`), then `msb >= lsb`
/// (`MsbLsb`). An `msb`/`lsb` pair spanning all thirty-two bits and more
/// cannot be represented and is rejected as unreadable.
pub open spec fn spec_bit_range_str(s: Seq<char>) -> Result<BitRange, InvalidBitRange> {
    if s.len() < 2 || s[0] != '[' || s[s.len() - 1] != ']' {
        Err(InvalidBitRange::Syntax)
    } else {
        match colon_from(s, 0) {
            None => Err(InvalidBitRange::Syntax),
            Some(k) => match (
                spec_parse_radix(s.subrange(1, k), 10),
                spec_parse_radix(s.subrange(k + 1, s.len() - 1), 10),
            ) {
                (Some(m), Some(l)) => if m < l {
                    Err(InvalidBitRange::MsbLsb)
                } else if m - l == u32::MAX {
                    Err(InvalidBitRange::ParseError)
                } else {
                    Ok(BitRange { offset: l, width: (m - l + 1) as u32 })
                },
                _ => Err(InvalidBitRange::ParseError),
            },
        }
    }
}

/// Which encoding a node carries and what it resolves to: a `bitRange`
/// string child wins, then an `msb`/`lsb` child pair, then
/// `bitOffset`/`bitWidth`; a node with none of the three is a `Syntax`
/// failure.
pub open spec fn spec_bit_range(n: NodeV) -> Result<BitRange, InvalidBitRange> {
    match child_text_opt(n, "bitRange"@) {
        Err(_) => Err(InvalidBitRange::Syntax),
        Ok(Some(t)) => spec_bit_range_str(t),
        Ok(None) => match (child_text_opt(n, "msb"@), child_text_opt(n, "lsb"@)) {
            (Ok(Some(ms)), Ok(Some(ls))) => match (spec_parse_u32(ms), spec_parse_u32(ls)) {
                (Some(m), Some(l)) => if m < l {
                    Err(InvalidBitRange::MsbLsb)
                } else if m - l == u32::MAX {
                    Err(InvalidBitRange::ParseError)
                } else {
                    Ok(BitRange { offset: l, width: (m - l + 1) as u32 })
                },
                _ => Err(InvalidBitRange::ParseError),
            },
            _ => match (child_text_opt(n, "bitOffset"@), child_text_opt(n, "bitWidth"@)) {
                (Ok(Some(os)), Ok(Some(ws))) => match (spec_parse_u32(os), spec_parse_u32(ws)) {
                    (Some(o), Some(w)) => Ok(BitRange { offset: o, width: w }),
                    _ => Err(InvalidBitRange::ParseError),
                },
                _ => Err(InvalidBitRange::Syntax),
            },
        },
    }
}

impl BitRange {
    /// Resolves the `[msb:lsb]` string form.
    fn parse_str(tree: &Node, s: &str) -> (r: Result<BitRange, BitRangeError>)
        ensures
            r matches Ok(br) ==> spec_bit_range_str(s@) == Ok::<BitRange, InvalidBitRange>(br),
            r is Ok <==> spec_bit_range_str(s@) is Ok,
            r matches Err(e) ==> (e matches BitRangeError::Invalid(n, k) && n@ == tree@
                && spec_bit_range_str(s@) == Err::<BitRange, InvalidBitRange>(k)),
    {
        let len = s.unicode_len();
        if len < 2 {
            return Err(BitRangeError::Invalid(tree.clone(), InvalidBitRange::Syntax));
        }
        let c0 = s.get_char(0);
        let cl = s.get_char(len - 1);
        if c0 != '[' || cl != ']' {
            return Err(BitRangeError::Invalid(tree.clone(), InvalidBitRange::Syntax));
        }
        let mut k: usize = 0;
        while k < len && s.get_char(k) != ':'
            invariant
                k <= len,
                len == s@.len(),
                forall|j: int| 0 <= j < k ==> s@[j] != ':',
            decreases len - k,
        {
            k += 1;
        }
        proof {
            lemma_colon_skip(s@, k as int);
        }
        if k == len {
            return Err(BitRangeError::Invalid(tree.clone(), InvalidBitRange::Syntax));
        }
        proof {
            assert(k >= 1);
            assert(k < len - 1);
        }
        let msb_part = s.substring_char(1, k);
        let lsb_part = s.substring_char(k + 1, len - 1);
        proof {
            assert(msb_part@.subrange(0, msb_part@.len() as int) =~= s@.subrange(1, k as int));
            assert(lsb_part@.subrange(0, lsb_part@.len() as int) =~= s@.subrange(
                k + 1,
                s@.len() - 1,
            ));
        }
        match (parse_radix(msb_part, 0, 10), parse_radix(lsb_part, 0, 10)) {
            (Some(m), Some(l)) => {
                if m < l {
                    Err(BitRangeError::Invalid(tree.clone(), InvalidBitRange::MsbLsb))
                } else if m - l == u32::MAX {
                    Err(BitRangeError::Invalid(tree.clone(), InvalidBitRange::ParseError))
                } else {
                    Ok(BitRange { offset: l, width: m - l + 1 })
                }
            },
            _ => Err(BitRangeError::Invalid(tree.clone(), InvalidBitRange::ParseError)),
        }
    }

    /// Resolves whichever of the three encodings the node carries to the
    /// canonical pair; the error names the reason and carries the node.
    pub fn parse(tree: &Node) -> (r: Result<BitRange, BitRangeError>)
        ensures
            r matches Ok(br) ==> spec_bit_range(tree@) == Ok::<BitRange, InvalidBitRange>(br),
            r is Ok <==> spec_bit_range(tree@) is Ok,
            r matches Err(e) ==> (e matches BitRangeError::Invalid(n, k) && n@ == tree@
                && spec_bit_range(tree@) == Err::<BitRange, InvalidBitRange>(k)),
    {
        match tree.get_child_text_opt("bitRange") {
            Err(_) => Err(BitRangeError::Invalid(tree.clone(), InvalidBitRange::Syntax)),
            Ok(Some(t)) => Self::parse_str(tree, t.as_str()),
            Ok(None) => {
                let ms = tree.get_child_text_opt("msb");
                let ls = tree.get_child_text_opt("lsb");
                match (ms, ls) {
                    (Ok(Some(mt)), Ok(Some(lt))) => {
                        match (parse_u32(mt.as_str()), parse_u32(lt.as_str())) {
                            (Some(m), Some(l)) => {
                                if m < l {
                                    Err(
                                        BitRangeError::Invalid(
                                            tree.clone(),
                                            InvalidBitRange::MsbLsb,
                                        ),
                                    )
                                } else if m - l == u32::MAX {
                                    Err(
                                        BitRangeError::Invalid(
                                            tree.clone(),
                                            InvalidBitRange::ParseError,
                                        ),
                                    )
                                } else {
                                    Ok(BitRange { offset: l, width: m - l + 1 })
                                }
                            },
                            _ => Err(
                                BitRangeError::Invalid(tree.clone(), InvalidBitRange::ParseError),
                            ),
                        }
                    },
                    _ => {
                        let os = tree.get_child_text_opt("bitOffset");
                        let ws = tree.get_child_text_opt("bitWidth");
                        match (os, ws) {
                            (Ok(Some(ot)), Ok(Some(wt))) => {
                                match (parse_u32(ot.as_str()), parse_u32(wt.as_str())) {
                                    (Some(o), Some(w)) => Ok(BitRange { offset: o, width: w }),
                                    _ => Err(
                                        BitRangeError::Invalid(
                                            tree.clone(),
                                            InvalidBitRange::ParseError,
                                        ),
                                    ),
                                }
                            },
                            _ => Err(
                                BitRangeError::Invalid(tree.clone(), InvalidBitRange::Syntax),
                            ),
                        }
                    },
                }
            },
        }
    }

    /// Writes the canonical encoding: a `bitOffset` child and a `bitWidth`
    /// child in canonical decimal, whatever encoding the source used.
    pub fn encode_children(&self) -> (r: Vec<Node>)
        ensures
            r@.len() == 2,
            r@[0]@ == text_node("bitOffset"@, dec_str(self.offset as nat)),
            r@[1]@ == text_node("bitWidth"@, dec_str(self.width as nat)),
    {
        let mut v: Vec<Node> = Vec::new();
        let a = Node::text_element("bitOffset", Some(format_u32_dec(self.offset)));
        let b = Node::text_element("bitWidth", Some(format_u32_dec(self.width)));
        proof {
            assert(a@ =~= text_node("bitOffset"@, dec_str(self.offset as nat)));
            assert(b@ =~= text_node("bitWidth"@, dec_str(self.width as nat)));
        }
        v.push(a);
        v.push(b);
        v
    }
}

/// Re-reading an encoded bit-range gives the same canonical pair: a node
/// whose only bit-position encoding is a canonical-decimal
/// `bitOffset`/`bitWidth` pair resolves to exactly that pair.
pub proof fn lemma_bit_range_roundtrip(n: NodeV, br: BitRange)
    requires
        child_text_opt(n, "bitRange"@) == Ok::<Option<Seq<char>>, ()>(None),
        child_text_opt(n, "msb"@) == Ok::<Option<Seq<char>>, ()>(None),
        child_text_opt(n, "bitOffset"@) == Ok::<Option<Seq<char>>, ()>(
            Some(dec_str(br.offset as nat)),
        ),
        child_text_opt(n, "bitWidth"@) == Ok::<Option<Seq<char>>, ()>(
            Some(dec_str(br.width as nat)),
        ),
    ensures
        spec_bit_range(n) == Ok::<BitRange, InvalidBitRange>(br),
{
    lemma_dec_roundtrip(br.offset);
    lemma_dec_roundtrip(br.width);
}

} // verus!
