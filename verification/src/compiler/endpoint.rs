//! Endpoints: paths into interfaces, and the wires that channels come from.

use std::collections::VecDeque;

use vstd::prelude::*;

use crate::compiler::prelude::{ChannelTyp, ChannelTypView};
use crate::utils::string::opt_view;

verus! {

/// Endpoint's node.
#[derive(Debug, PartialEq, Eq, Hash)]
pub enum EndpointNode {
    /// Element of array.
    Index(usize),

    /// Field of struct: the name of the field, and its separator (`None` means `_`).
    Field(String, Option<String>),
}

/// Mathematical value of an endpoint node.
pub enum NodeView {
    /// Element of array.
    Index(usize),

    /// Field of struct, and its separator.
    Field(Seq<char>, Option<Seq<char>>),
}

impl View for EndpointNode {
    type V = NodeView;

    open spec fn view(&self) -> NodeView {
        match self {
            EndpointNode::Index(i) => NodeView::Index(*i),
            EndpointNode::Field(f, s) => NodeView::Field(f@, opt_view(*s)),
        }
    }
}

/// Copies an optional string.
pub fn clone_opt_string(s: &Option<String>) -> (r: Option<String>)
    ensures
        opt_view(r) == opt_view(*s),
{
    match s {
        Some(s) => Some(s.clone()),
        None => None,
    }
}

impl Clone for EndpointNode {
    fn clone(&self) -> (r: Self)
        ensures
            r@ == self@,
    {
        match self {
            EndpointNode::Index(i) => EndpointNode::Index(*i),
            EndpointNode::Field(f, s) => EndpointNode::Field(f.clone(), clone_opt_string(s)),
        }
    }
}

/// Views of the nodes of a path.
pub open spec fn nodes_view(s: Seq<EndpointNode>) -> Seq<NodeView> {
    s.map_values(|n: EndpointNode| n@)
}

/// Endpoint's path.
#[derive(Debug, PartialEq, Eq, Hash)]
pub struct EndpointPath {
    /// List of endpoint nodes.
    pub inner: VecDeque<EndpointNode>,
}

impl View for EndpointPath {
    type V = Seq<NodeView>;

    open spec fn view(&self) -> Seq<NodeView> {
        nodes_view(self.inner@)
    }
}

impl Default for EndpointPath {
    fn default() -> (r: Self)
        ensures
            r@ == Seq::<NodeView>::empty(),
    {
        let r = EndpointPath { inner: VecDeque::new() };
        assert(r@ =~= Seq::<NodeView>::empty());
        r
    }
}

impl Clone for EndpointPath {
    fn clone(&self) -> (r: Self)
        ensures
            r@ == self@,
    {
        let mut inner: VecDeque<EndpointNode> = VecDeque::new();
        let mut i: usize = 0;
        while i < self.inner.len()
            invariant
                i <= self.inner@.len(),
                nodes_view(inner@) == nodes_view(self.inner@).take(i as int),
            decreases self.inner@.len() - i,
        {
            let c = self.inner[i].clone();
            let ghost prev = inner@;
            inner.push_back(c);
            proof {
                assert(inner@ =~= prev.push(c));
                assert(nodes_view(inner@) =~= nodes_view(prev).push(c@));
                assert(nodes_view(self.inner@).take(i as int + 1) =~= nodes_view(self.inner@).take(i as int).push(self.inner@[i as int]@));
            }
            i = i + 1;
        }
        assert(nodes_view(self.inner@).take(self.inner@.len() as int) =~= nodes_view(self.inner@));
        EndpointPath { inner }
    }
}

impl EndpointPath {
    /// Creates a path from its nodes.
    pub fn from_nodes(nodes: Vec<EndpointNode>) -> (r: Self)
        ensures
            r@ == nodes_view(nodes@),
    {
        let mut r = EndpointPath::default();
        let mut i: usize = 0;
        while i < nodes.len()
            invariant
                i <= nodes@.len(),
                r@ == nodes_view(nodes@).take(i as int),
            decreases nodes@.len() - i,
        {
            r = r.append_node(nodes[i].clone());
            proof {
                assert(nodes_view(nodes@).take(i as int + 1) =~= nodes_view(nodes@).take(i as int).push(nodes[i as int]@));
            }
            i = i + 1;
        }
        assert(nodes_view(nodes@).take(nodes@.len() as int) =~= nodes_view(nodes@));
        r
    }

    /// Number of nodes.
    pub fn len(&self) -> (r: usize)
        ensures
            r == self@.len(),
    {
        self.inner.len()
    }

    /// Whether the path has no node.
    pub fn is_empty(&self) -> (r: bool)
        ensures
            r == (self@.len() == 0),
    {
        self.inner.len() == 0
    }

    /// Removes and returns the first node.
    pub fn pop_front(&mut self) -> (r: Option<EndpointNode>)
        ensures
            old(self)@.len() == 0 ==> r is None && final(self)@ == old(self)@,
            old(self)@.len() > 0 ==> r is Some && r->0@ == old(self)@[0] && final(self)@ == old(
                self,
            )@.drop_first(),
    {
        let r = self.inner.pop_front();
        proof {
            if old(self)@.len() > 0 {
                assert(self@ =~= old(self)@.drop_first());
            }
        }
        r
    }

    /// Adds a node at the front.
    pub fn push_front(&mut self, node: EndpointNode)
        ensures
            final(self)@ == seq![node@] + old(self)@,
    {
        self.inner.push_front(node);
        assert(self@ =~= seq![node@] + old(self)@);
    }

    /// Append other endpoint path to the path.
    pub fn append_path(&self, other: &EndpointPath) -> (r: Self)
        ensures
            r@ == self@ + other@,
    {
        let mut r = self.clone();
        let mut i: usize = 0;
        while i < other.inner.len()
            invariant
                i <= other@.len(),
                other@.len() == other.inner@.len(),
                r@ == self@ + other@.take(i as int),
            decreases other@.len() - i,
        {
            r = r.append_node(other.inner[i].clone());
            proof {
                assert(self@ + other@.take(i as int + 1) =~= (self@ + other@.take(i as int)).push(other@[i as int]));
            }
            i = i + 1;
        }
        assert(other@.take(other@.len() as int) =~= other@);
        r
    }

    /// Append node to endpoint path.
    pub fn append_node(&self, other: EndpointNode) -> (r: Self)
        ensures
            r@ == self@.push(other@),
    {
        let mut r = self.clone();
        let ghost v = r@;
        r.inner.push_back(other);
        assert(r@ =~= v.push(other@));
        r
    }

    /// Append `EndpointNode::Field` to the path.
    pub fn append_field_with_sep(&self, field: &str, sep: Option<String>) -> (r: Self)
        ensures
            r@ == self@.push(NodeView::Field(field@, opt_view(sep))),
    {
        self.append_node(EndpointNode::Field(String::from_str(field), sep))
    }

    /// Append `EndpointNode::Field` to the path with default separator.
    pub fn append_field(&self, field: &str) -> (r: Self)
        ensures
            r@ == self@.push(NodeView::Field(field@, None)),
    {
        self.append_field_with_sep(field, None)
    }

    /// Append `EndpointNode::Index` to the path.
    pub fn append_index(&self, index: usize) -> (r: Self)
        ensures
            r@ == self@.push(NodeView::Index(index)),
    {
        self.append_node(EndpointNode::Index(index))
    }
}

/// Appending paths is associative.
pub proof fn lemma_append_path_assoc(a: Seq<NodeView>, b: Seq<NodeView>, c: Seq<NodeView>)
    ensures
        (a + b) + c == a + (b + c),
{
    assert((a + b) + c =~= a + (b + c));
}

/// Wire's endpoint.
#[derive(Debug, PartialEq, Eq)]
pub enum Endpoint {
    /// Input interface.
    Input {
        /// Interface's endpoint path in the input.
        path: EndpointPath,
    },

    /// Submodule endpoint.
    Submodule {
        /// Submodule's index in the module's submodules.
        submodule_index: usize,

        /// Interface's endpoint path in the submodule.
        path: EndpointPath,
    },
}

/// Mathematical value of an endpoint.
pub enum EndpointView {
    /// Input interface, at a path.
    Input(Seq<NodeView>),

    /// Submodule's output, at a path.
    Submodule(usize, Seq<NodeView>),
}

impl View for Endpoint {
    type V = EndpointView;

    open spec fn view(&self) -> EndpointView {
        match self {
            Endpoint::Input { path } => EndpointView::Input(path@),
            Endpoint::Submodule { submodule_index, path } => EndpointView::Submodule(*submodule_index, path@),
        }
    }
}

impl Clone for Endpoint {
    fn clone(&self) -> (r: Self)
        ensures
            r@ == self@,
    {
        match self {
            Endpoint::Input { path } => Endpoint::Input { path: path.clone() },
            Endpoint::Submodule { submodule_index, path } => Endpoint::Submodule {
                submodule_index: *submodule_index,
                path: path.clone(),
            },
        }
    }
}

impl Endpoint {
    /// Creates a new endpoint on input.
    pub fn input(path: EndpointPath) -> (r: Self)
        ensures
            r@ == EndpointView::Input(path@),
    {
        Self::Input { path }
    }

    /// Creates a new endpoint on submodule.
    pub fn submodule(submodule_index: usize, path: EndpointPath) -> (r: Self)
        ensures
            r@ == EndpointView::Submodule(submodule_index, path@),
    {
        Self::Submodule { submodule_index, path }
    }

    /// Returns endpoint path.
    pub fn path(&self) -> (r: &EndpointPath)
        ensures
            r@ == match self@ {
                EndpointView::Input(p) => p,
                EndpointView::Submodule(_, p) => p,
            },
    {
        match self {
            Endpoint::Input { path } => path,
            Endpoint::Submodule { path, .. } => path,
        }
    }
}

/// Input/output channel.
#[derive(Debug, PartialEq, Eq)]
pub struct Channel {
    /// Channel's typ.
    pub typ: ChannelTyp,

    /// Channel's endpoint.
    pub endpoint: Endpoint,
}

/// Mathematical value of a channel.
pub struct ChannelView {
    /// Channel's type.
    pub typ: ChannelTypView,

    /// Channel's endpoint.
    pub endpoint: EndpointView,
}

impl View for Channel {
    type V = ChannelView;

    open spec fn view(&self) -> ChannelView {
        ChannelView { typ: self.typ@, endpoint: self.endpoint@ }
    }
}

impl Clone for Channel {
    fn clone(&self) -> (r: Self)
        ensures
            r@ == self@,
    {
        Channel { typ: self.typ.clone(), endpoint: self.endpoint.clone() }
    }
}

impl Channel {
    /// Returns channel type.
    pub fn typ(&self) -> (r: ChannelTyp)
        ensures
            r@ == self.typ@,
    {
        self.typ.clone()
    }

    /// Returns endpoint.
    pub fn endpoint(&self) -> (r: Endpoint)
        ensures
            r@ == self.endpoint@,
    {
        self.endpoint.clone()
    }
}

} // verus!
