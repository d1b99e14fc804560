//! The graph renderer: a directed-graph description (node list plus
//! edge list) where every node carries a style distinguishing its kind
//! (and, for modules, its visibility) and every edge keeps its kind.
//! It is a direct structural projection of the shrunk graph: no
//! further filtering happens here.

use vstd::prelude::*;

use crate::graph::{Edge, Graph, Node, NodeV, Visibility};
use crate::options::{GeneralOptions, GraphOptions, ProjectOptions};
use crate::util::joined;

verus! {

/// What the graph command was asked to do.
#[derive(Clone, Debug, PartialEq, Eq)]
pub struct Options {
    pub general: GeneralOptions,
    pub project: ProjectOptions,
    pub graph: GraphOptions,
    pub with_uses: bool,
    pub with_externs: bool,
}

/// The style class of a rendered node.
#[derive(Clone, Copy, Debug, PartialEq, Eq, Structural)]
pub enum NodeStyle {
    Module { visibility: Visibility },
    Type,
    Orphan,
}

/// One rendered node: its display label and its style.
#[derive(Clone, Debug, PartialEq, Eq)]
pub struct NodeDesc {
    pub label: String,
    pub style: NodeStyle,
}

/// A directed-graph description, ready for a thin formatting layer.
#[derive(Clone, Debug, PartialEq, Eq)]
pub struct Diagram {
    pub nodes: Vec<NodeDesc>,
    pub edges: Vec<Edge>,
}

/// The label a node shows in the diagram: the dotted qualified path of
/// a module or type, an orphan's display label.
pub open spec fn spec_diagram_label(n: NodeV) -> Seq<char> {
    match n {
        NodeV::Module { path, .. } => joined(path),
        NodeV::Type { path, .. } => joined(path),
        NodeV::Orphan { label } => label,
    }
}

pub open spec fn spec_style(n: NodeV) -> NodeStyle {
    match n {
        NodeV::Module { visibility, .. } => NodeStyle::Module { visibility },
        NodeV::Type { .. } => NodeStyle::Type,
        NodeV::Orphan { .. } => NodeStyle::Orphan,
    }
}

/// The graph command: projects a shrunk graph into a node/edge list.
pub struct Command {
    pub options: Options,
}

impl Command {
    pub fn new(options: Options) -> (r: Command)
        ensures
            r.options == options,
    {
        Command { options }
    }

    /// One description per node, in index order, and every edge of the
    /// shrunk graph unchanged.
    pub fn run(&self, graph: &Graph, _start: usize) -> (r: Diagram)
        ensures
            r.nodes@.len() == graph@.nodes.len(),
            forall|k: int|
                0 <= k < graph@.nodes.len() ==> (#[trigger] r.nodes@[k]).label@
                    == spec_diagram_label(graph@.nodes[k]) && r.nodes@[k].style == spec_style(
                    graph@.nodes[k],
                ),
            r.edges@ == graph@.edges,
    {
        let mut nodes: Vec<NodeDesc> = Vec::new();
        let mut k: usize = 0;
        while k < graph.nodes.len()
            invariant
                k <= graph@.nodes.len(),
                nodes@.len() == k,
                forall|i: int|
                    0 <= i < k ==> (#[trigger] nodes@[i]).label@ == spec_diagram_label(
                        graph@.nodes[i],
                    ) && nodes@[i].style == spec_style(graph@.nodes[i]),
            decreases graph@.nodes.len() - k,
        {
            let n = &graph.nodes[k];
            let desc = match n {
                Node::Module { path, visibility, .. } => NodeDesc {
                    label: crate::util::join_path(path),
                    style: NodeStyle::Module { visibility: *visibility },
                },
                Node::Type { path, .. } => NodeDesc {
                    label: crate::util::join_path(path),
                    style: NodeStyle::Type,
                },
                Node::Orphan { label } => NodeDesc {
                    label: label.clone(),
                    style: NodeStyle::Orphan,
                },
            };
            nodes.push(desc);
            k = k + 1;
        }
        let mut edges: Vec<Edge> = Vec::new();
        let mut t: usize = 0;
        while t < graph.edges.len()
            invariant
                t <= graph@.edges.len(),
                edges@ == graph@.edges.take(t as int),
            decreases graph@.edges.len() - t,
        {
            edges.push(graph.edges[t]);
            proof {
                assert(edges@ =~= graph@.edges.take(t + 1));
            }
            t = t + 1;
        }
        proof {
            assert(edges@ =~= graph@.edges.take(graph@.edges.len() as int));
            assert(edges@ =~= graph@.edges);
        }
        Diagram { nodes, edges }
    }
}

} // verus!
