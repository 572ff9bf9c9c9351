//! The recursive register/cluster containment tree. A child node is
//! classified by tag name alone: `register` or `cluster`, anything else is
//! rejected.

use vstd::prelude::*;
use crate::error::{
    ErrorContext, ErrorKind, RegisterClusterError, SvdError, valid_name, check_name,
};
use crate::num::{spec_parse_u32, hex8_str, format_u32_hex8, lemma_hex8_roundtrip};
use crate::svd::register::{
    Register, register_parses, register_matches, register_wf, register_node,
    register_bit_range_failure,
};
use crate::error::{BitRangeError, InvalidBitRange};
use crate::tree::{
    Node, NodeV, child_text_opt, text_node, lemma_children_view, lemma_first_child_at, node_view,
};

verus! {

broadcast use {
    vstd::std_specs::vec::axiom_vec_index_decreases,
    vstd::std_specs::vec::axiom_vec_decreases_to_view,
    vstd::seq::axiom_seq_index_decreases,
    vstd::seq::axiom_seq_subrange_decreases,
};

/// A named grouping that recursively contains more registers and clusters.
#[derive(Debug)]
pub struct Cluster {
    pub name: String,
    pub description: Option<String>,
    pub address_offset: u32,
    pub children: Vec<RegisterCluster>,
}

/// The closed sum of the two containment variants.
#[derive(Debug)]
pub enum RegisterCluster {
    Register(Register),
    Cluster(Cluster),
}

/// The name a containment-tree entry carries.
pub open spec fn register_cluster_name(rc: RegisterCluster) -> Seq<char> {
    match rc {
        RegisterCluster::Register(r) => r.name@,
        RegisterCluster::Cluster(c) => c.name@,
    }
}

/// The address offset a containment-tree entry carries.
pub open spec fn register_cluster_offset(rc: RegisterCluster) -> u32 {
    match rc {
        RegisterCluster::Register(r) => r.address_offset,
        RegisterCluster::Cluster(c) => c.address_offset,
    }
}

/// The two tags that stand for a register or a cluster.
pub open spec fn is_rc_tag(t: Seq<char>) -> bool {
    t == "register"@ || t == "cluster"@
}

/// The register/cluster children of a node, in order.
pub open spec fn rc_children_of(cs: Seq<NodeV>) -> Seq<NodeV>
    decreases cs.len(),
{
    if cs.len() == 0 {
        Seq::empty()
    } else if is_rc_tag(cs.last().name) {
        rc_children_of(cs.drop_last()).push(cs.last())
    } else {
        rc_children_of(cs.drop_last())
    }
}

/// Whether a node parses as the variant its tag names; any other tag is no
/// register/cluster at all.
pub open spec fn register_cluster_parses(n: NodeV) -> bool
    decreases n, 1int,
{
    if n.name == "register"@ {
        register_parses(n)
    } else if n.name == "cluster"@ {
        cluster_parses(n)
    } else {
        false
    }
}

/// A grammar-checked name and a readable `addressOffset` are required, and
/// every child tagged `register` or `cluster` must parse in turn.
pub open spec fn cluster_parses(n: NodeV) -> bool
    decreases n, 0int,
{
    &&& (child_text_opt(n, "name"@) matches Ok(Some(nm)) && valid_name(nm))
    &&& (child_text_opt(n, "description"@) is Ok)
    &&& (child_text_opt(n, "addressOffset"@) matches Ok(Some(t)) && spec_parse_u32(t) is Some)
    &&& (forall|k: int|
        0 <= k < n.children.len() && is_rc_tag((#[trigger] n.children[k]).name)
            ==> register_cluster_parses(n.children[k]))
}

/// `rc` is exactly what reading `n` gives.
pub open spec fn register_cluster_matches(n: NodeV, rc: RegisterCluster) -> bool
    decreases rc,
{
    match rc {
        RegisterCluster::Register(r) => n.name == "register"@ && register_matches(n, r),
        RegisterCluster::Cluster(c) => n.name == "cluster"@ && cluster_matches(n, c),
    }
}

/// `c` is exactly what reading `n` gives, child by child in order.
pub open spec fn cluster_matches(n: NodeV, c: Cluster) -> bool
    decreases c,
{
    &&& child_text_opt(n, "name"@) == Ok::<_, ()>(Some(c.name@))
    &&& (match c.description {
        Some(d) => child_text_opt(n, "description"@) == Ok::<_, ()>(Some(d@)),
        None => child_text_opt(n, "description"@) == Ok::<Option<Seq<char>>, ()>(None),
    })
    &&& (child_text_opt(n, "addressOffset"@) matches Ok(Some(t)) && spec_parse_u32(t) == Some(
        c.address_offset,
    ))
    &&& c.children@.len() == rc_children_of(n.children).len()
    &&& (forall|k: int|
        0 <= k < c.children@.len() ==> register_cluster_matches(
            rc_children_of(n.children)[k],
            #[trigger] c.children@[k],
        ))
}

/// The bit-range failure a register entry runs into; a cluster entry's
/// nested failures are not traced here.
pub open spec fn rc_bit_range_failure(n: NodeV) -> Option<InvalidBitRange> {
    if n.name == "register"@ {
        register_bit_range_failure(n)
    } else {
        None
    }
}

/// Well-formedness of a containment tree: every name satisfies the grammar.
pub open spec fn register_cluster_wf(rc: RegisterCluster) -> bool
    decreases rc, 1int,
{
    match rc {
        RegisterCluster::Register(r) => register_wf(r),
        RegisterCluster::Cluster(c) => cluster_wf(c),
    }
}

pub open spec fn cluster_wf(c: Cluster) -> bool
    decreases c, 0int,
{
    &&& valid_name(c.name@)
    &&& (forall|k: int|
        0 <= k < c.children@.len() ==> register_cluster_wf(#[trigger] c.children@[k]))
}

/// The exact node `encode` writes for one containment-tree entry.
pub open spec fn rc_node(rc: RegisterCluster) -> NodeV
    decreases rc, 1int,
{
    match rc {
        RegisterCluster::Register(r) => register_node(r),
        RegisterCluster::Cluster(c) => cluster_node(c),
    }
}

/// The exact node `encode` writes for a cluster: its scalar children in
/// schema order, then one encoded entry per contained register or cluster,
/// in order.
pub open spec fn cluster_node(c: Cluster) -> NodeV
    decreases c, 0int,
{
    NodeV {
        name: "cluster"@,
        attributes: Seq::empty(),
        children: ({
            let s0 = seq![text_node("name"@, c.name@)];
            let s1 = match c.description {
                Some(d) => s0.push(text_node("description"@, d@)),
                None => s0,
            };
            s1.push(text_node("addressOffset"@, hex8_str(c.address_offset)))
        }) + rc_nodes(c.children@),
        text: None,
    }
}

/// The encoded entries of a containment list, in order.
pub open spec fn rc_nodes(rcs: Seq<RegisterCluster>) -> Seq<NodeV>
    decreases rcs, 2int,
{
    if rcs.len() == 0 {
        Seq::empty()
    } else {
        rc_nodes(rcs.drop_last()).push(rc_node(rcs.last()))
    }
}

/// `rc_nodes` maps each entry to its encoded node and keeps the order.
pub proof fn lemma_rc_nodes(rcs: Seq<RegisterCluster>)
    ensures
        rc_nodes(rcs).len() == rcs.len(),
        forall|k: int| 0 <= k < rcs.len() ==> rc_nodes(rcs)[k] == rc_node(#[trigger] rcs[k]),
    decreases rcs.len(),
{
    if rcs.len() > 0 {
        lemma_rc_nodes(rcs.drop_last());
        assert forall|k: int| 0 <= k < rcs.len() implies rc_nodes(rcs)[k] == rc_node(
            rcs[k],
        ) by {
            if k < rcs.len() - 1 {
                assert(rcs.drop_last()[k] == rcs[k]);
            }
        }
    }
}

impl Clone for RegisterCluster {
    fn clone(&self) -> (r: RegisterCluster)
        decreases *self, 1int,
    {
        match self {
            RegisterCluster::Register(r) => RegisterCluster::Register(r.clone()),
            RegisterCluster::Cluster(c) => RegisterCluster::Cluster(c.clone()),
        }
    }
}

impl Clone for Cluster {
    fn clone(&self) -> (r: Cluster)
        decreases *self, 0int,
    {
        let mut children: Vec<RegisterCluster> = Vec::new();
        let mut i: usize = 0;
        while i < self.children.len()
            invariant
                i <= self.children.len(),
            decreases self.children.len() - i,
        {
            proof {
                assert(decreases_to!(*self => self.children));
                assert(decreases_to!(self.children => self.children@[i as int]));
            }
            children.push(self.children[i].clone());
            i += 1;
        }
        Cluster {
            name: self.name.clone(),
            description: match &self.description {
                Some(d) => Some(d.clone()),
                None => None,
            },
            address_offset: self.address_offset,
            children,
        }
    }
}

impl RegisterCluster {
    /// Classifies a node by tag name alone and reads the matching variant;
    /// any other tag is rejected, carrying the node and its tag.
    pub fn parse(tree: &Node) -> (r: Result<RegisterCluster, SvdError>)
        ensures
            r is Ok <==> register_cluster_parses(tree@),
            r matches Ok(rc) ==> register_cluster_matches(tree@, rc),
            !is_rc_tag(tree@.name) ==> (r matches Err(e) && e.context@.len() == 0 && (e.kind
                matches ErrorKind::RegisterCluster(RegisterClusterError::Invalid(nn, t)) && nn@
                == tree@ && t@ == tree@.name)),
            (match rc_bit_range_failure(tree@) {
                Some(k) => r matches Err(e) && (e.kind matches ErrorKind::BitRange(be) && be
                    matches BitRangeError::Invalid(nn, kk) && kk == k),
                None => true,
            }),
        decreases *tree, 1int,
    {
        if crate::tree::str_eq(tree.name.as_str(), "register") {
            match Register::parse(tree) {
                Ok(r) => Ok(RegisterCluster::Register(r)),
                Err(e) => Err(e),
            }
        } else if crate::tree::str_eq(tree.name.as_str(), "cluster") {
            match Cluster::parse(tree) {
                Ok(c) => Ok(RegisterCluster::Cluster(c)),
                Err(e) => Err(e),
            }
        } else {
            Err(
                SvdError::new(
                    ErrorKind::RegisterCluster(
                        RegisterClusterError::Invalid(tree.clone(), tree.name.clone()),
                    ),
                ),
            )
        }
    }

    /// Writes the matching variant's node.
    pub fn encode(&self) -> (r: Result<Node, SvdError>)
        requires
            register_cluster_wf(*self),
        ensures
            r is Ok,
            r matches Ok(node) ==> node@ == rc_node(*self),
            r matches Ok(node) ==> is_rc_tag(node@.name) && (node@.name == (match *self {
                RegisterCluster::Register(_) => "register"@,
                RegisterCluster::Cluster(_) => "cluster"@,
            })) && child_text_opt(node@, "name"@) == Ok::<_, ()>(
                Some(register_cluster_name(*self)),
            ) && (child_text_opt(node@, "addressOffset"@) matches Ok(Some(t)) && spec_parse_u32(t)
                == Some(register_cluster_offset(*self))),
        decreases *self, 1int,
    {
        match self {
            RegisterCluster::Register(r) => r.encode(),
            RegisterCluster::Cluster(c) => c.encode(),
        }
    }
}

impl Cluster {
    /// Reads a `cluster` node: its own scalar children, then every child
    /// tagged `register` or `cluster`, recursively and in order.
    pub fn parse(tree: &Node) -> (r: Result<Cluster, SvdError>)
        ensures
            r is Ok <==> cluster_parses(tree@),
            r matches Ok(c) ==> cluster_matches(tree@, c),
        decreases *tree, 0int,
    {
        let name = match tree.get_child_text("name") {
            Ok(v) => v,
            Err(e) => return Err(SvdError::new(ErrorKind::Parse(e))),
        };
        match check_name(name.as_str()) {
            Ok(_) => (),
            Err(e) => return Err(SvdError::new(ErrorKind::Name(e))),
        }
        let description = match tree.get_child_text_opt("description") {
            Ok(v) => v,
            Err(e) => return Err(SvdError::new(ErrorKind::Parse(e))),
        };
        let address_offset = match tree.get_child_u32("addressOffset") {
            Ok(v) => v,
            Err(e) => return Err(SvdError::new(ErrorKind::Parse(e))),
        };
        let ghost cs = tree@.children;
        let mut children: Vec<RegisterCluster> = Vec::new();
        let mut i: usize = 0;
        proof {
            lemma_children_view(tree.children@);
        }
        while i < tree.children.len()
            invariant
                i <= tree.children@.len(),
                cs == tree@.children,
                cs.len() == tree.children@.len(),
                forall|j: int| 0 <= j < cs.len() ==> cs[j] == node_view(
                    #[trigger] tree.children@[j],
                ),
                children@.len() == rc_children_of(cs.subrange(0, i as int)).len(),
                forall|k: int|
                    0 <= k < cs.subrange(0, i as int).len() && is_rc_tag(
                        (#[trigger] cs.subrange(0, i as int)[k]).name,
                    ) ==> register_cluster_parses(cs.subrange(0, i as int)[k]),
                forall|k: int|
                    0 <= k < children@.len() ==> register_cluster_matches(
                        rc_children_of(cs.subrange(0, i as int))[k],
                        #[trigger] children@[k],
                    ),
            decreases tree.children@.len() - i,
        {
            proof {
                assert(cs.subrange(0, i + 1).drop_last() =~= cs.subrange(0, i as int));
                assert(cs.subrange(0, i + 1).last() == cs[i as int]);
                assert(forall|k: int|
                    0 <= k < i ==> cs.subrange(0, i + 1)[k] == cs.subrange(0, i as int)[k]);
            }
            let c = &tree.children[i];
            if crate::tree::str_eq(c.name.as_str(), "register") || crate::tree::str_eq(
                c.name.as_str(),
                "cluster",
            ) {
                proof {
                    assert(decreases_to!(*tree => tree.children));
                    assert(decreases_to!(tree.children => tree.children@[i as int]));
                }
                match RegisterCluster::parse(c) {
                    Ok(rc) => children.push(rc),
                    Err(e) => {
                        return Err(
                            e.with_context(ErrorContext::ParsingRegisterCluster(i)).with_context(
                                ErrorContext::InCluster(name.clone()),
                            ),
                        );
                    },
                }
            }
            i += 1;
        }
        proof {
            assert(cs.subrange(0, cs.len() as int) =~= cs);
        }
        Ok(Cluster { name, description, address_offset, children })
    }

    /// Writes a `cluster` node: `name`, the description when present, the
    /// `addressOffset` in canonical hexadecimal, then each contained
    /// register or cluster in order.
    pub fn encode(&self) -> (r: Result<Node, SvdError>)
        requires
            cluster_wf(*self),
        ensures
            r is Ok,
            r matches Ok(node) ==> node@ == cluster_node(*self),
            r matches Ok(node) ==> node@.name == "cluster"@ && child_text_opt(node@, "name"@)
                == Ok::<_, ()>(Some(self.name@)) && (child_text_opt(node@, "addressOffset"@)
                matches Ok(Some(t)) && spec_parse_u32(t) == Some(self.address_offset)),
        decreases *self, 0int,
    {
        proof {
            reveal_strlit("name");
            reveal_strlit("description");
            reveal_strlit("addressOffset");
            assert("name"@.len() == 4);
            assert("description"@.len() == 11);
            assert("addressOffset"@.len() == 13);
        }
        let mut node = Node::text_element("cluster", None);
        node.push_text_child("name", self.name.clone());
        match &self.description {
            Some(d) => node.push_text_child("description", d.clone()),
            None => (),
        }
        node.push_text_child("addressOffset", format_u32_hex8(self.address_offset));
        let ghost off: int = if self.description is Some {
            2
        } else {
            1
        };
        let mut i: usize = 0;
        while i < self.children.len()
            invariant
                i <= self.children@.len(),
                forall|k: int|
                    0 <= k < self.children@.len() ==> register_cluster_wf(
                        #[trigger] self.children@[k],
                    ),
                node@.name == "cluster"@,
                node@.children.len() > off,
                off == (if self.description is Some {
                    2int
                } else {
                    1int
                }),
                node@.children[0] == text_node("name"@, self.name@),
                node@.children[off] == text_node("addressOffset"@, hex8_str(self.address_offset)),
                off == 2 ==> node@.children[1] == text_node(
                    "description"@,
                    (match self.description {
                        Some(d) => d@,
                        None => Seq::empty(),
                    }),
                ),
                node@.attributes == Seq::<(Seq<char>, Seq<char>)>::empty(),
                node@.text is None,
                node@.children.len() == off + 1 + i,
                forall|k: int|
                    0 <= k < i ==> node@.children[off + 1 + k] == rc_node(
                        #[trigger] self.children@[k],
                    ),
            decreases self.children@.len() - i,
        {
            proof {
                assert(decreases_to!(*self => self.children));
                assert(decreases_to!(self.children => self.children@[i as int]));
            }
            let c = match self.children[i].encode() {
                Ok(c) => c,
                Err(e) => return Err(e),
            };
            node.push_child(c);
            i += 1;
        }
        proof {
            lemma_first_child_at(node@.children, "name"@, 0);
            lemma_first_child_at(node@.children, "addressOffset"@, off);
            lemma_hex8_roundtrip(self.address_offset);
            lemma_rc_nodes(self.children@);
            assert forall|j: int|
                off + 1 <= j < node@.children.len() implies node@.children[j] == rc_nodes(
                self.children@,
            )[j - (off + 1)] by {
                let k = j - (off + 1);
                assert(node@.children[j] == rc_node(self.children@[k]));
                assert(rc_nodes(self.children@)[k] == rc_node(self.children@[k]));
            }
            assert(node@.children =~= ({
                let s0 = seq![text_node("name"@, self.name@)];
                let s1 = match self.description {
                    Some(d) => s0.push(text_node("description"@, d@)),
                    None => s0,
                };
                s1.push(text_node("addressOffset"@, hex8_str(self.address_offset)))
            }) + rc_nodes(self.children@));
            assert(node@ =~= cluster_node(*self));
        }
        Ok(node)
    }
}

} // verus!
