//! The tree renderer: an indented, ordered textual tree following
//! `Owns` edges only.  Children appear in edge order (the builder's
//! declaration order), each line carries the connector glyphs of its
//! nesting, and `Uses`/`Extern` edges are not drawn.

use vstd::prelude::*;
use vstd::string::StringExecFns;

use crate::graph::{Graph, GraphV, Node, NodeV};
use crate::options::{GeneralOptions, GraphOptions, ProjectOptions};

verus! {

/// What the tree command was asked to do.
#[derive(Clone, Debug, PartialEq, Eq)]
pub struct Options {
    pub general: GeneralOptions,
    pub project: ProjectOptions,
    pub graph: GraphOptions,
}

/// The text a node shows on its line: the last path segment of a
/// module or type, an orphan's display label.
pub open spec fn spec_label(n: NodeV) -> Seq<char> {
    match n {
        NodeV::Module { path, .. } => if path.len() == 0 {
            Seq::empty()
        } else {
            path.last()
        },
        NodeV::Type { path, .. } => if path.len() == 0 {
            Seq::empty()
        } else {
            path.last()
        },
        NodeV::Orphan { label } => label,
    }
}

/// The lines of the subtree rooted at `v`: its own line (`own` prefix
/// plus its label), then the subtrees of its owned children in edge
/// order, prefixed by `childp` plus a connector.
pub open spec fn subtree_lines(g: GraphV, v: int, own: Seq<char>, childp: Seq<char>) -> Seq<
    Seq<char>,
>
    decreases g.nodes.len() - v, g.edges.len() + 1,
    when 0 <= v < g.nodes.len() && g.wf() && g.owns_forward()
{
    seq![own + spec_label(g.nodes[v])] + children_lines(g, v, 0, childp)
}

/// The lines of the children of `v` listed by the edges at positions
/// `e` and beyond.
pub open spec fn children_lines(g: GraphV, v: int, e: int, childp: Seq<char>) -> Seq<Seq<char>>
    decreases g.nodes.len() - v, g.edges.len() - e,
    when 0 <= v < g.nodes.len() && g.wf() && g.owns_forward() && 0 <= e
{
    if e >= g.edges.len() {
        Seq::empty()
    } else {
        let rest = children_lines(g, v, e + 1, childp);
        let ed = g.edges[e];
        if ed.kind is Owns && ed.source == v {
            let last = !has_child_edge(g, v, e + 1);
            let conn = if last {
                "└── "@
            } else {
                "├── "@
            };
            let cont = if last {
                "    "@
            } else {
                "│   "@
            };
            subtree_lines(g, ed.target as int, childp + conn, childp + cont) + rest
        } else {
            rest
        }
    }
}

/// Whether any edge at position `e` or later is an `Owns` edge out of
/// `v`.
pub open spec fn has_child_edge(g: GraphV, v: int, e: int) -> bool {
    exists|t: int|
        e <= t < g.edges.len() && (#[trigger] g.edges[t]).kind is Owns && g.edges[t].source == v
}

/// Whether any edge at position `e` or later is an `Owns` edge out of
/// `v` (executable form).
fn more_child_edges(graph: &Graph, v: usize, e: usize) -> (r: bool)
    ensures
        r == has_child_edge(graph@, v as int, e as int),
{
    let mut t: usize = e;
    while t < graph.edges.len()
        invariant
            e <= t,
            forall|tt: int|
                e <= tt < t < graph@.edges.len() ==> !((#[trigger] graph@.edges[tt]).kind is Owns
                    && graph@.edges[tt].source == v),
            forall|tt: int|
                e <= tt < t && t >= graph@.edges.len() ==> !((
                #[trigger] graph@.edges[tt]).kind is Owns && graph@.edges[tt].source == v),
        decreases graph@.edges.len() - t,
    {
        let ed = graph.edges[t];
        match ed.kind {
            crate::graph::EdgeKind::Owns => {
                if ed.source == v {
                    return true;
                }
            },
            _ => {},
        }
        t = t + 1;
    }
    false
}

/// The label a node shows on its tree line.
fn node_label(n: &Node) -> (r: String)
    ensures
        r@ == spec_label(n@),
{
    match n {
        Node::Module { path, .. } => {
            if path.len() == 0 {
                String::new()
            } else {
                path[path.len() - 1].clone()
            }
        },
        Node::Type { path, .. } => {
            if path.len() == 0 {
                String::new()
            } else {
                path[path.len() - 1].clone()
            }
        },
        Node::Orphan { label } => label.clone(),
    }
}

/// Append the subtree rooted at `v` to `out`.
fn render_node(graph: &Graph, v: usize, own: String, childp: String, out: &mut Vec<String>)
    requires
        graph@.wf(),
        graph@.owns_forward(),
        v < graph@.nodes.len(),
    ensures
        final(out).deep_view() == old(out).deep_view() + subtree_lines(
            graph@,
            v as int,
            own@,
            childp@,
        ),
    decreases graph@.nodes.len() - v,
{
    let ghost base = out.deep_view();
    let ghost g = graph@;
    let label = node_label(&graph.nodes[v]);
    let mut line = own;
    line.append(label.as_str());
    out.push(line);
    proof {
        assert(out.deep_view() =~= base + seq![own@ + spec_label(g.nodes[v as int])]);
    }
    let mut e: usize = 0;
    while e < graph.edges.len()
        invariant
            g == graph@,
            g.wf(),
            g.owns_forward(),
            v < g.nodes.len(),
            e <= g.edges.len(),
            out.deep_view() + children_lines(g, v as int, e as int, childp@) == base
                + subtree_lines(g, v as int, own@, childp@),
        decreases g.edges.len() - e,
    {
        let ghost before = out.deep_view();
        let ed = graph.edges[e];
        let owns = match ed.kind {
            crate::graph::EdgeKind::Owns => true,
            _ => false,
        };
        if owns && ed.source == v {
            let last = !more_child_edges(graph, v, e + 1);
            let mut conn = childp.clone();
            let mut cont = childp.clone();
            if last {
                conn.append("└── ");
                cont.append("    ");
            } else {
                conn.append("├── ");
                cont.append("│   ");
            }
            render_node(graph, ed.target, conn, cont, out);
            proof {
                crate::builder::lemma_concat_assoc(
                    before,
                    subtree_lines(
                        g,
                        ed.target as int,
                        childp@ + (if last {
                            "└── "@
                        } else {
                            "├── "@
                        }),
                        childp@ + (if last {
                            "    "@
                        } else {
                            "│   "@
                        }),
                    ),
                    children_lines(g, v as int, e + 1, childp@),
                );
                assert(children_lines(g, v as int, e as int, childp@) == subtree_lines(
                    g,
                    ed.target as int,
                    childp@ + (if last {
                        "└── "@
                    } else {
                        "├── "@
                    }),
                    childp@ + (if last {
                        "    "@
                    } else {
                        "│   "@
                    }),
                ) + children_lines(g, v as int, e + 1, childp@));
            }
        } else {
            proof {
                assert(children_lines(g, v as int, e as int, childp@) == children_lines(
                    g,
                    v as int,
                    e + 1,
                    childp@,
                ));
            }
        }
        e = e + 1;
    }
    proof {
        assert(children_lines(g, v as int, g.edges.len() as int, childp@)
            =~= Seq::<Seq<char>>::empty());
        crate::builder::lemma_concat_empty(out.deep_view());
    }
}

/// Render the subtree under `start` as indented lines, one node per
/// line, children in edge order.
pub fn print(graph: &Graph, start: usize) -> (r: Vec<String>)
    requires
        graph@.wf(),
        graph@.owns_forward(),
        start < graph@.nodes.len(),
    ensures
        r.deep_view() == subtree_lines(
            graph@,
            start as int,
            Seq::<char>::empty(),
            Seq::<char>::empty(),
        ),
{
    let mut out: Vec<String> = Vec::new();
    render_node(graph, start, String::new(), String::new(), &mut out);
    proof {
        assert(Seq::<Seq<char>>::empty() + subtree_lines(
            graph@,
            start as int,
            Seq::<char>::empty(),
            Seq::<char>::empty(),
        ) =~= subtree_lines(graph@, start as int, Seq::<char>::empty(), Seq::<char>::empty()));
    }
    out
}

/// The tree command: renders a shrunk graph as indented lines.
pub struct Command {
    pub options: Options,
}

impl Command {
    pub fn new(options: Options) -> (r: Command)
        ensures
            r.options == options,
    {
        Command { options }
    }

    /// One line per node of the subtree under `start`, following `Owns`
    /// edges only, children in edge order.
    pub fn run(&self, graph: &Graph, start: usize) -> (r: Vec<String>)
        requires
            graph@.wf(),
            graph@.owns_forward(),
            start < graph@.nodes.len(),
        ensures
            r.deep_view() == subtree_lines(
                graph@,
                start as int,
                Seq::<char>::empty(),
                Seq::<char>::empty(),
            ),
    {
        print(graph, start)
    }
}

} // verus!
