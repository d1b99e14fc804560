//! The command front of the pipeline: build the full graph from a
//! unit's facts, resolve the focus path, shrink to the depth bound,
//! and render as a tree or as a graph description.

use vstd::prelude::*;

use crate::builder::{build_spec, lemma_builder_invariants, Builder};
use crate::diagram::{spec_diagram_label, spec_style, Diagram};
use crate::error::Error;
use crate::facts::UnitFacts;
use crate::graph::{clone_segments, GraphV};
use crate::options::{GeneralOptions, GraphOptions, ProjectOptions};
use crate::tree::subtree_lines;
use crate::util::{
    idx_of_node_with_path, joined, lemma_shrink_invariants, matches_path, rank, shrink_graph,
    shrink_spec,
};

verus! {

/// What a run produces: tree lines, or a node/edge description.
pub enum Output {
    Tree(Vec<String>),
    Graph(Diagram),
}

/// The two commands: print the unit as a tree, or as a graph.
#[derive(Clone, Debug, PartialEq, Eq)]
pub enum Command {
    Tree(crate::tree::Options),
    Graph(crate::diagram::Options),
}

/// The index the focus path resolves to; meaningful when exactly one
/// module node matches.
pub open spec fn focus_idx(g: GraphV, fp: Seq<Seq<char>>) -> int {
    choose|i: int| #[trigger] matches_path(g, i, fp)
}

impl Command {
    pub open spec fn spec_general_options(self) -> GeneralOptions {
        match self {
            Command::Tree(o) => o.general,
            Command::Graph(o) => o.general,
        }
    }

    pub open spec fn spec_project_options(self) -> ProjectOptions {
        match self {
            Command::Tree(o) => o.project,
            Command::Graph(o) => o.project,
        }
    }

    pub open spec fn spec_graph_options(self) -> GraphOptions {
        match self {
            Command::Tree(o) => o.graph,
            Command::Graph(o) => o.graph,
        }
    }

    /// Use-edges are drawn only by the graph command.
    pub open spec fn spec_with_uses(self) -> bool {
        match self {
            Command::Tree(_) => false,
            Command::Graph(o) => o.with_uses,
        }
    }

    pub open spec fn spec_with_externs(self) -> bool {
        match self {
            Command::Tree(_) => false,
            Command::Graph(o) => o.with_externs,
        }
    }

    /// The switches the builder reads; the focus path and the depth
    /// bound belong to the shrinker and are left out here.
    pub open spec fn spec_build_options(self) -> crate::builder::Options {
        crate::builder::Options {
            focus_on: None,
            max_depth: None,
            with_types: self.spec_graph_options().with_types,
            with_tests: self.spec_graph_options().with_tests,
            with_orphans: self.spec_graph_options().with_orphans,
            with_uses: self.spec_with_uses(),
            with_externs: self.spec_with_externs(),
        }
    }

    /// The focus path: the configured one, or the unit's own name.
    pub open spec fn spec_focus(self, facts: UnitFacts) -> Seq<Seq<char>> {
        match self.spec_graph_options().focus_on {
            Some(v) => v.deep_view(),
            None => seq![facts.name@],
        }
    }

    /// The hop bound: unbounded means every hop count fits below it.
    pub open spec fn spec_depth(self) -> int {
        match self.spec_graph_options().max_depth {
            Some(d) => d as int,
            None => usize::MAX as int,
        }
    }

    pub fn general_options(&self) -> (r: &GeneralOptions)
        ensures
            *r == self.spec_general_options(),
    {
        match self {
            Command::Tree(o) => &o.general,
            Command::Graph(o) => &o.general,
        }
    }

    pub fn project_options(&self) -> (r: &ProjectOptions)
        ensures
            *r == self.spec_project_options(),
    {
        match self {
            Command::Tree(o) => &o.project,
            Command::Graph(o) => &o.project,
        }
    }

    pub fn graph_options(&self) -> (r: &GraphOptions)
        ensures
            *r == self.spec_graph_options(),
    {
        match self {
            Command::Tree(o) => &o.graph,
            Command::Graph(o) => &o.graph,
        }
    }

    /// The builder configuration this command asks for: the graph
    /// options' switches, with use/extern edges only for the graph
    /// command.
    pub fn builder_options(&self) -> (r: crate::builder::Options)
        ensures
            r.max_depth == self.spec_graph_options().max_depth,
            r.with_types == self.spec_graph_options().with_types,
            r.with_tests == self.spec_graph_options().with_tests,
            r.with_orphans == self.spec_graph_options().with_orphans,
            r.with_uses == self.spec_with_uses(),
            r.with_externs == self.spec_with_externs(),
            match (r.focus_on, self.spec_graph_options().focus_on) {
                (Some(a), Some(b)) => a.deep_view() == b.deep_view(),
                (None, None) => true,
                _ => false,
            },
    {
        let go = self.graph_options();
        let focus_on: Option<Vec<String>> = match &go.focus_on {
            Some(v) => Some(clone_segments(v)),
            None => None,
        };
        let with_uses: bool = match self {
            Command::Tree(_) => false,
            Command::Graph(o) => o.with_uses,
        };
        let with_externs: bool = match self {
            Command::Tree(_) => false,
            Command::Graph(o) => o.with_externs,
        };
        crate::builder::Options {
            focus_on,
            max_depth: go.max_depth,
            with_types: go.with_types,
            with_tests: go.with_tests,
            with_orphans: go.with_orphans,
            with_uses,
            with_externs,
        }
    }

    /// The whole pipeline on one unit's facts: build, resolve the
    /// focus, shrink to the depth bound, render.  Fails exactly when
    /// the root is unresolved or the focus path matches no module.
    pub fn run(&self, facts: &UnitFacts) -> (r: Result<Output, Error>)
        ensures
            ({
                let gv = build_spec(*facts, self.spec_build_options());
                let fp = self.spec_focus(*facts);
                match r {
                    Err(Error::RootUnresolved(nm)) => !facts.root_ok() && nm == facts.name,
                    Err(Error::PathNotFound(p)) => facts.root_ok() && p@ == joined(fp) && (forall|
                        j: int,
                    |
                        !#[trigger] matches_path(gv, j, fp)),
                    Err(Error::AmbiguousPath(_)) => false,
                    Ok(out) => facts.root_ok() && (exists|i: int| #[trigger] matches_path(
                        gv,
                        i,
                        fp,
                    )) && ({
                        let i = focus_idx(gv, fp);
                        let sh = shrink_spec(gv, i, self.spec_depth());
                        let st = rank(gv, i, self.spec_depth(), i);
                        match out {
                            Output::Tree(lines) => self is Tree && lines.deep_view()
                                == subtree_lines(
                                sh,
                                st,
                                Seq::<char>::empty(),
                                Seq::<char>::empty(),
                            ),
                            Output::Graph(dg) => self is Graph && dg.nodes@.len()
                                == sh.nodes.len() && (forall|k: int|
                                0 <= k < sh.nodes.len() ==> (#[trigger] dg.nodes@[k]).label@
                                    == spec_diagram_label(sh.nodes[k]) && dg.nodes@[k].style
                                    == spec_style(sh.nodes[k])) && dg.edges@ == sh.edges,
                        }
                    }),
                }
            }),
    {
        let bopts = self.builder_options();
        // The builder reads only the five switches; hand it those.
        let nopts = crate::builder::Options {
            focus_on: None,
            max_depth: None,
            with_types: bopts.with_types,
            with_tests: bopts.with_tests,
            with_orphans: bopts.with_orphans,
            with_uses: bopts.with_uses,
            with_externs: bopts.with_externs,
        };
        proof {
            assert(nopts == self.spec_build_options());
        }
        let builder = Builder::new(nopts);
        let mut graph = match builder.build(facts) {
            Ok(g) => g,
            Err(e) => {
                return Err(e);
            },
        };
        proof {
            assert(graph.nodes.len() == graph@.nodes.len());
            lemma_builder_invariants(*facts, nopts);
        }
        let focus: Vec<String> = match &self.graph_options().focus_on {
            Some(v) => clone_segments(v),
            None => {
                let mut f: Vec<String> = Vec::new();
                f.push(facts.name.clone());
                proof {
                    assert(f.deep_view() =~= seq![facts.name@]);
                }
                f
            },
        };
        let start = match idx_of_node_with_path(&graph, &focus) {
            Ok(i) => i,
            Err(e) => {
                match &e {
                    Error::AmbiguousPath(_) => {
                        // Two module nodes with one path cannot occur
                        // in a built graph.
                        proof {
                            assert(false);
                        }
                    },
                    _ => {},
                }
                return Err(e);
            },
        };
        let depth = match self.graph_options().max_depth {
            Some(d) => d,
            None => usize::MAX,
        };
        proof {
            assert(matches_path(graph@, focus_idx(graph@, focus.deep_view()), focus.deep_view()));
            assert(focus_idx(graph@, focus.deep_view()) == start as int);
        }
        let new_start = shrink_graph(&mut graph, start, depth);
        proof {
            lemma_shrink_invariants(
                build_spec(*facts, self.spec_build_options()),
                start as int,
                depth as int,
            );
        }
        match self {
            Command::Tree(o) => {
                let command = crate::tree::Command::new(o.clone());
                let lines = command.run(&graph, new_start);
                Ok(Output::Tree(lines))
            },
            Command::Graph(o) => {
                let command = crate::diagram::Command::new(o.clone());
                let dg = command.run(&graph, new_start);
                Ok(Output::Graph(dg))
            },
        }
    }
}

} // verus!
