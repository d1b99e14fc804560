//! The entity/edge vocabulary shared by the builder, the shrinker and the
//! renderers: a graph is an arena of nodes addressed by index, plus a list
//! of directed, kind-tagged edges between indices.

use vstd::prelude::*;

verus! {

/// How visible a module or type is to the rest of the program unit.
#[derive(Clone, Copy, Debug, PartialEq, Eq, Structural)]
pub enum Visibility {
    Public,
    Crate,
    Restricted,
    Private,
}

/// The kind tag of a type entity.
#[derive(Clone, Copy, Debug, PartialEq, Eq, Structural)]
pub enum TypeKind {
    Struct,
    Enum,
    Trait,
    Union,
}

/// The kind tag of a relation between two entities.
#[derive(Clone, Copy, Debug, PartialEq, Eq, Structural)]
pub enum EdgeKind {
    /// A module contains the target structurally.
    Owns,
    /// The source refers to the target through a use/import relation.
    Uses,
    /// The reference crosses the boundary of the program unit.
    Extern,
}

/// One program entity.
#[derive(Clone, Debug, PartialEq, Eq)]
pub enum Node {
    /// A named namespace of the program unit.
    Module { path: Vec<String>, is_root: bool, visibility: Visibility, is_test: bool },
    /// A type declared inside a module.
    Type { path: Vec<String>, kind: TypeKind, visibility: Visibility },
    /// A placeholder for an edge target that resolves to no entity of the
    /// program unit; it carries only a display label.
    Orphan { label: String },
}

/// The mathematical value of a `Node`: paths become sequences of
/// character sequences, labels become character sequences.
#[verifier::ext_equal]
pub enum NodeV {
    Module { path: Seq<Seq<char>>, is_root: bool, visibility: Visibility, is_test: bool },
    Type { path: Seq<Seq<char>>, kind: TypeKind, visibility: Visibility },
    Orphan { label: Seq<char> },
}

impl View for Node {
    type V = NodeV;

    open spec fn view(&self) -> NodeV {
        match self {
            Node::Module { path, is_root, visibility, is_test } => NodeV::Module {
                path: path.deep_view(),
                is_root: *is_root,
                visibility: *visibility,
                is_test: *is_test,
            },
            Node::Type { path, kind, visibility } => NodeV::Type {
                path: path.deep_view(),
                kind: *kind,
                visibility: *visibility,
            },
            Node::Orphan { label } => NodeV::Orphan { label: label@ },
        }
    }
}

impl DeepView for Node {
    type V = NodeV;

    open spec fn deep_view(&self) -> NodeV {
        self.view()
    }
}

impl NodeV {
    /// The qualified path of a module or type node; orphans have none.
    pub open spec fn path(self) -> Seq<Seq<char>> {
        match self {
            NodeV::Module { path, .. } => path,
            NodeV::Type { path, .. } => path,
            NodeV::Orphan { .. } => Seq::empty(),
        }
    }

    pub open spec fn is_module(self) -> bool {
        self is Module
    }

    pub open spec fn is_root_module(self) -> bool {
        match self {
            NodeV::Module { is_root, .. } => is_root,
            _ => false,
        }
    }
}

/// One directed, kind-tagged relation between the nodes at two indices.
#[derive(Clone, Copy, Debug, PartialEq, Eq, Structural)]
pub struct Edge {
    pub source: usize,
    pub target: usize,
    pub kind: EdgeKind,
}

/// The mathematical value of a `Graph`.
#[verifier::ext_equal]
pub struct GraphV {
    pub nodes: Seq<NodeV>,
    pub edges: Seq<Edge>,
}

/// An arena of nodes plus the directed edges between their indices.
///
/// A graph is built once by the builder; the shrinker derives a fresh,
/// smaller graph from it rather than mutating shared state.
#[derive(Clone, Debug, PartialEq, Eq)]
pub struct Graph {
    pub nodes: Vec<Node>,
    pub edges: Vec<Edge>,
}

impl View for Graph {
    type V = GraphV;

    open spec fn view(&self) -> GraphV {
        GraphV { nodes: self.nodes.deep_view(), edges: self.edges@ }
    }
}

impl GraphV {
    /// Every edge points at nodes that exist.
    pub open spec fn wf(self) -> bool {
        forall|k: int|
            0 <= k < self.edges.len() ==> (#[trigger] self.edges[k]).source < self.nodes.len()
                && self.edges[k].target < self.nodes.len()
    }

    pub open spec fn is_module_at(self, i: int) -> bool {
        0 <= i < self.nodes.len() && self.nodes[i].is_module()
    }

    pub open spec fn path_at(self, i: int) -> Seq<Seq<char>> {
        self.nodes[i].path()
    }

    /// No two module nodes share a qualified path.
    pub open spec fn unique_module_paths(self) -> bool {
        forall|i: int, j: int|
            #[trigger] self.is_module_at(i) && #[trigger] self.is_module_at(j) && i != j
                ==> self.path_at(i) != self.path_at(j)
    }

    /// The `is_root` flag is set on exactly one node.
    pub open spec fn unique_root(self) -> bool {
        (exists|i: int| 0 <= i < self.nodes.len() && (#[trigger] self.nodes[i]).is_root_module())
            && (forall|i: int, j: int|
            0 <= i < self.nodes.len() && 0 <= j < self.nodes.len()
                && (#[trigger] self.nodes[i]).is_root_module()
                && (#[trigger] self.nodes[j]).is_root_module() ==> i == j)
    }

    /// Every `Owns` edge goes from a lower to a higher node index: nodes
    /// stand in a topological order of ownership.  The builder produces
    /// graphs with this shape and the shrinker preserves it; the tree
    /// renderer relies on it.
    pub open spec fn owns_forward(self) -> bool {
        forall|k: int|
            0 <= k < self.edges.len() && (#[trigger] self.edges[k]).kind is Owns
                ==> self.edges[k].source < self.edges[k].target
    }
}

impl Graph {
    pub open spec fn wf(&self) -> bool {
        self@.wf()
    }
}

/// A copy of a qualified path, segment by segment.
pub fn clone_segments(v: &Vec<String>) -> (r: Vec<String>)
    ensures
        r@ == v@,
        r.deep_view() == v.deep_view(),
{
    let mut r: Vec<String> = Vec::new();
    let mut i: usize = 0;
    while i < v.len()
        invariant
            i <= v@.len(),
            r@ == v@.take(i as int),
        decreases v@.len() - i,
    {
        r.push(v[i].clone());
        assert(r@ =~= v@.take(i + 1));
        i = i + 1;
    }
    assert(r@ =~= v@);
    assert(r.deep_view() =~= v.deep_view());
    r
}

/// Whether two qualified paths hold the same segments.
pub fn path_eq(a: &Vec<String>, b: &Vec<String>) -> (r: bool)
    ensures
        r == (a.deep_view() == b.deep_view()),
{
    if a.len() != b.len() {
        assert(a.deep_view().len() != b.deep_view().len());
        return false;
    }
    let mut i: usize = 0;
    while i < a.len()
        invariant
            i <= a@.len(),
            a@.len() == b@.len(),
            forall|j: int| 0 <= j < i ==> a.deep_view()[j] == b.deep_view()[j],
        decreases a@.len() - i,
    {
        if a[i] != b[i] {
            assert(a.deep_view()[i as int] != b.deep_view()[i as int]);
            return false;
        }
        i = i + 1;
    }
    assert(a.deep_view() =~= b.deep_view());
    true
}

/// The qualified path stored in a node; orphans have none.
pub fn node_path(n: &Node) -> (r: Vec<String>)
    ensures
        r.deep_view() == n@.path(),
{
    match n {
        Node::Module { path, .. } => clone_segments(path),
        Node::Type { path, .. } => clone_segments(path),
        Node::Orphan { .. } => {
            let r: Vec<String> = Vec::new();
            assert(r.deep_view() =~= Seq::<Seq<char>>::empty());
            r
        },
    }
}

/// A copy of a node, field by field.
pub fn clone_node(n: &Node) -> (r: Node)
    ensures
        r@ == n@,
{
    match n {
        Node::Module { path, is_root, visibility, is_test } => Node::Module {
            path: clone_segments(path),
            is_root: *is_root,
            visibility: *visibility,
            is_test: *is_test,
        },
        Node::Type { path, kind, visibility } => Node::Type {
            path: clone_segments(path),
            kind: *kind,
            visibility: *visibility,
        },
        Node::Orphan { label } => Node::Orphan { label: label.clone() },
    }
}

/// Whether the node is a module whose qualified path equals `path`.
pub fn is_module_with_path(n: &Node, path: &Vec<String>) -> (r: bool)
    ensures
        r == (n@.is_module() && n@.path() == path.deep_view()),
{
    match n {
        Node::Module { path: p, .. } => path_eq(p, path),
        _ => false,
    }
}

} // verus!
