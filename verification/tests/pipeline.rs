use cargo_modules::builder::{Builder, Options};
use cargo_modules::diagram::{Diagram, NodeStyle};
use cargo_modules::error::Error;
use cargo_modules::facts::{ItemFact, ModuleFact, UnitFacts, UseFact};
use cargo_modules::generate::{Command, Output};
use cargo_modules::graph::{Edge, EdgeKind, Graph, Node, TypeKind, Visibility};
use cargo_modules::options::{GeneralOptions, GraphOptions, ProjectOptions};
use cargo_modules::runner::Runner;
use cargo_modules::util::{idx_of_node_with_path, shrink_graph};

fn s(text: &str) -> String {
    String::from(text)
}

fn path(segs: &[&str]) -> Vec<String> {
    segs.iter().map(|t| String::from(*t)).collect()
}

fn module(parent: Option<usize>, name: &str) -> ModuleFact {
    ModuleFact {
        parent,
        name: s(name),
        visibility: Visibility::Public,
        is_test: false,
        items: vec![],
        uses: vec![],
    }
}

fn opts(
    with_types: bool,
    with_tests: bool,
    with_orphans: bool,
    with_uses: bool,
    with_externs: bool,
) -> Options {
    Options {
        focus_on: None,
        max_depth: None,
        with_types,
        with_tests,
        with_orphans,
        with_uses,
        with_externs,
    }
}

/// Root unit `app` with modules `app`, `app::util`, `app::util::math`;
/// `app::util` uses `app::util::math`.
fn scenario_unit() -> UnitFacts {
    let mut util = module(Some(0), "util");
    util.uses.push(UseFact {
        target: path(&["app", "util", "math"]),
        is_external: false,
        label: s("app::util::math"),
    });
    UnitFacts {
        name: s("app"),
        modules: vec![module(None, "app"), util, module(Some(1), "math")],
    }
}

fn path_of_node(n: &Node) -> Vec<String> {
    match n {
        Node::Module { path, .. } => path.clone(),
        Node::Type { path, .. } => path.clone(),
        Node::Orphan { label } => vec![label.clone()],
    }
}

#[test]
fn builder_emits_each_module_once_with_one_root() {
    let facts = scenario_unit();
    let g = Builder::new(opts(false, true, false, false, false))
        .build(&facts)
        .unwrap();
    assert_eq!(g.nodes.len(), 3);
    let mut roots = 0;
    for (i, n) in g.nodes.iter().enumerate() {
        for (j, m) in g.nodes.iter().enumerate() {
            if i != j {
                assert_ne!(path_of_node(n), path_of_node(m));
            }
        }
        if let Node::Module { is_root: true, .. } = n {
            roots += 1;
            assert_eq!(i, 0);
        }
    }
    assert_eq!(roots, 1);
}

#[test]
fn resolver_roundtrip_on_every_module() {
    let facts = scenario_unit();
    let g = Builder::new(opts(false, true, false, false, false))
        .build(&facts)
        .unwrap();
    for (i, n) in g.nodes.iter().enumerate() {
        let p = path_of_node(n);
        assert_eq!(idx_of_node_with_path(&g, &p), Ok(i));
    }
}

#[test]
fn focus_depth_one_keeps_root_and_child() {
    let facts = scenario_unit();
    let mut g = Builder::new(opts(false, true, false, false, false))
        .build(&facts)
        .unwrap();
    let start = idx_of_node_with_path(&g, &path(&["app"])).unwrap();
    let ns = shrink_graph(&mut g, start, 1);
    assert_eq!(ns, 0);
    assert_eq!(g.nodes.len(), 2);
    assert_eq!(path_of_node(&g.nodes[0]), path(&["app"]));
    assert_eq!(path_of_node(&g.nodes[1]), path(&["app", "util"]));
    assert_eq!(
        g.edges,
        vec![Edge { source: 0, target: 1, kind: EdgeKind::Owns }]
    );
}

#[test]
fn unbounded_graph_with_uses_has_the_uses_edge() {
    let facts = scenario_unit();
    let g = Builder::new(opts(false, true, false, true, false))
        .build(&facts)
        .unwrap();
    assert_eq!(g.nodes.len(), 3);
    assert!(g.edges.contains(&Edge { source: 0, target: 1, kind: EdgeKind::Owns }));
    assert!(g.edges.contains(&Edge { source: 1, target: 2, kind: EdgeKind::Owns }));
    assert!(g.edges.contains(&Edge { source: 1, target: 2, kind: EdgeKind::Uses }));
    assert_eq!(g.edges.len(), 3);
}

fn external_use_unit() -> UnitFacts {
    let mut root = module(None, "app");
    root.uses.push(UseFact {
        target: path(&["serde"]),
        is_external: true,
        label: s("serde"),
    });
    UnitFacts { name: s("app"), modules: vec![root] }
}

#[test]
fn external_target_with_orphans_gives_orphan_and_extern_edge() {
    let facts = external_use_unit();
    let g = Builder::new(opts(false, true, true, true, true))
        .build(&facts)
        .unwrap();
    assert_eq!(g.nodes.len(), 2);
    assert_eq!(g.nodes[1], Node::Orphan { label: s("serde") });
    assert_eq!(
        g.edges,
        vec![Edge { source: 0, target: 1, kind: EdgeKind::Extern }]
    );
}

#[test]
fn external_target_without_orphans_gives_nothing() {
    let facts = external_use_unit();
    let g = Builder::new(opts(false, true, false, true, true))
        .build(&facts)
        .unwrap();
    assert_eq!(g.nodes.len(), 1);
    assert!(g.edges.is_empty());
}

#[test]
fn unresolved_internal_target_becomes_orphan_with_uses_edge() {
    let mut root = module(None, "app");
    root.uses.push(UseFact {
        target: path(&["app", "gone"]),
        is_external: false,
        label: s("app::gone"),
    });
    let facts = UnitFacts { name: s("app"), modules: vec![root] };
    let g = Builder::new(opts(false, true, true, true, false))
        .build(&facts)
        .unwrap();
    assert_eq!(g.nodes.len(), 2);
    assert_eq!(g.nodes[1], Node::Orphan { label: s("app::gone") });
    assert_eq!(
        g.edges,
        vec![Edge { source: 0, target: 1, kind: EdgeKind::Uses }]
    );
}

#[test]
fn focusing_on_missing_path_fails_naming_it() {
    let facts = scenario_unit();
    let g = Builder::new(opts(false, true, false, false, false))
        .build(&facts)
        .unwrap();
    let r = idx_of_node_with_path(&g, &path(&["app", "nope"]));
    assert_eq!(r, Err(Error::PathNotFound(s("app::nope"))));
}

#[test]
fn command_run_reports_missing_focus_path() {
    let cmd = Command::Tree(cargo_modules::tree::Options {
        general: GeneralOptions { verbose: false },
        project: ProjectOptions { manifest_dir: s(".") },
        graph: GraphOptions {
            focus_on: Some(path(&["app", "nope"])),
            max_depth: None,
            with_types: false,
            with_tests: true,
            with_orphans: false,
        },
    });
    let r = cmd.run(&scenario_unit());
    match r {
        Err(Error::PathNotFound(p)) => assert_eq!(p, s("app::nope")),
        _ => panic!("expected PathNotFound"),
    }
}

#[test]
fn shrink_is_idempotent_on_scenario() {
    let facts = scenario_unit();
    let g0 = Builder::new(opts(false, true, false, true, false))
        .build(&facts)
        .unwrap();
    let start = idx_of_node_with_path(&g0, &path(&["app"])).unwrap();
    let mut once = g0.clone();
    let ns1 = shrink_graph(&mut once, start, 1);
    let mut twice = once.clone();
    let ns2 = shrink_graph(&mut twice, ns1, 1);
    assert_eq!(once, twice);
    assert_eq!(ns1, ns2);
    let mut deeper = once.clone();
    let ns3 = shrink_graph(&mut deeper, ns1, 4);
    assert_eq!(once, deeper);
    assert_eq!(ns1, ns3);
}

#[test]
fn shrink_depth_is_monotone_on_scenario() {
    let facts = scenario_unit();
    let g0 = Builder::new(opts(false, true, false, true, false))
        .build(&facts)
        .unwrap();
    let start = idx_of_node_with_path(&g0, &path(&["app"])).unwrap();
    let mut prev_nodes: Vec<Vec<String>> = vec![];
    for depth in 0..4usize {
        let mut g = g0.clone();
        shrink_graph(&mut g, start, depth);
        let nodes: Vec<Vec<String>> = g.nodes.iter().map(path_of_node).collect();
        for p in &prev_nodes {
            assert!(nodes.contains(p));
        }
        prev_nodes = nodes;
    }
}

#[test]
fn unreachable_nodes_are_dropped() {
    // Focusing on a leaf with depth 0 keeps that node alone.
    let facts = scenario_unit();
    let mut g = Builder::new(opts(false, true, false, false, false))
        .build(&facts)
        .unwrap();
    let start = idx_of_node_with_path(&g, &path(&["app", "util", "math"])).unwrap();
    let ns = shrink_graph(&mut g, start, 0);
    assert_eq!(g.nodes.len(), 1);
    assert_eq!(ns, 0);
    assert_eq!(path_of_node(&g.nodes[0]), path(&["app", "util", "math"]));
    assert!(g.edges.is_empty());
}

fn all_on() -> Options {
    opts(true, true, true, true, true)
}

fn node_set(g: &Graph) -> Vec<Node> {
    g.nodes.clone()
}

fn edge_values(g: &Graph) -> Vec<(Node, Node, EdgeKind)> {
    g.edges
        .iter()
        .map(|e| (g.nodes[e.source].clone(), g.nodes[e.target].clone(), e.kind))
        .collect()
}

/// A unit that exercises every switch: a test module, a type, a
/// test-only type, an internal use, an unresolvable use, an external
/// use.
fn rich_unit() -> UnitFacts {
    let mut root = module(None, "app");
    root.items.push(ItemFact {
        name: s("Config"),
        kind: TypeKind::Struct,
        visibility: Visibility::Public,
        is_test: false,
    });
    root.items.push(ItemFact {
        name: s("Fixture"),
        kind: TypeKind::Struct,
        visibility: Visibility::Private,
        is_test: true,
    });
    root.uses.push(UseFact {
        target: path(&["app", "util"]),
        is_external: false,
        label: s("app::util"),
    });
    root.uses.push(UseFact {
        target: path(&["serde"]),
        is_external: true,
        label: s("serde"),
    });
    let mut util = module(Some(0), "util");
    util.uses.push(UseFact {
        target: path(&["app", "gone"]),
        is_external: false,
        label: s("app::gone"),
    });
    let mut tests = module(Some(0), "tests");
    tests.is_test = true;
    UnitFacts { name: s("app"), modules: vec![root, util, tests] }
}

fn assert_subset(facts: &UnitFacts, less: Options) {
    let full = Builder::new(all_on()).build(facts).unwrap();
    let small = Builder::new(less).build(facts).unwrap();
    let full_nodes = node_set(&full);
    for n in node_set(&small) {
        assert!(full_nodes.contains(&n));
    }
    let full_edges = edge_values(&full);
    for e in edge_values(&small) {
        assert!(full_edges.contains(&e));
    }
}

#[test]
fn disabling_types_gives_a_subset() {
    assert_subset(&rich_unit(), opts(false, true, true, true, true));
}

#[test]
fn disabling_tests_gives_a_subset() {
    assert_subset(&rich_unit(), opts(true, false, true, true, true));
}

#[test]
fn disabling_orphans_gives_a_subset() {
    assert_subset(&rich_unit(), opts(true, true, false, true, true));
}

#[test]
fn disabling_uses_gives_a_subset() {
    assert_subset(&rich_unit(), opts(true, true, true, false, true));
}

#[test]
fn disabling_externs_gives_a_subset() {
    assert_subset(&rich_unit(), opts(true, true, true, true, false));
}

#[test]
fn tree_lines_for_scenario() {
    let facts = scenario_unit();
    let cmd = Command::Tree(cargo_modules::tree::Options {
        general: GeneralOptions { verbose: false },
        project: ProjectOptions { manifest_dir: s(".") },
        graph: GraphOptions {
            focus_on: None,
            max_depth: None,
            with_types: false,
            with_tests: true,
            with_orphans: false,
        },
    });
    match cmd.run(&facts) {
        Ok(Output::Tree(lines)) => {
            assert_eq!(lines, vec![s("app"), s("└── util"), s("    └── math")]);
        }
        _ => panic!("expected tree output"),
    }
}

#[test]
fn tree_connectors_distinguish_last_sibling() {
    let facts = UnitFacts {
        name: s("app"),
        modules: vec![
            module(None, "app"),
            module(Some(0), "alpha"),
            module(Some(0), "beta"),
        ],
    };
    let mut runner = Runner::default();
    let lines = runner.run(&facts).unwrap();
    assert_eq!(lines, vec![s("app"), s("├── alpha"), s("└── beta")]);
}

#[test]
fn diagram_labels_and_styles() {
    let facts = scenario_unit();
    let cmd = Command::Graph(cargo_modules::diagram::Options {
        general: GeneralOptions { verbose: false },
        project: ProjectOptions { manifest_dir: s(".") },
        graph: GraphOptions {
            focus_on: None,
            max_depth: None,
            with_types: false,
            with_tests: true,
            with_orphans: false,
        },
        with_uses: true,
        with_externs: false,
    });
    match cmd.run(&facts) {
        Ok(Output::Graph(Diagram { nodes, edges })) => {
            assert_eq!(nodes.len(), 3);
            assert_eq!(nodes[0].label, s("app"));
            assert_eq!(nodes[1].label, s("app::util"));
            assert_eq!(nodes[2].label, s("app::util::math"));
            assert_eq!(
                nodes[0].style,
                NodeStyle::Module { visibility: Visibility::Public }
            );
            assert!(edges.contains(&Edge { source: 1, target: 2, kind: EdgeKind::Uses }));
        }
        _ => panic!("expected graph output"),
    }
}

#[test]
fn root_unresolved_for_empty_or_mismatched_unit() {
    let b = Builder::new(opts(false, true, false, false, false));
    let empty = UnitFacts { name: s("app"), modules: vec![] };
    assert_eq!(b.build(&empty), Err(Error::RootUnresolved(s("app"))));
    let misnamed = UnitFacts { name: s("app"), modules: vec![module(None, "other")] };
    assert_eq!(b.build(&misnamed), Err(Error::RootUnresolved(s("app"))));
    let parented = UnitFacts { name: s("app"), modules: vec![module(Some(0), "app")] };
    assert_eq!(b.build(&parented), Err(Error::RootUnresolved(s("app"))));
}

#[test]
fn malformed_and_duplicate_facts_are_skipped() {
    // A fact whose parent comes later, and a sibling repeating a path.
    let facts = UnitFacts {
        name: s("app"),
        modules: vec![
            module(None, "app"),
            module(Some(5), "broken"),
            module(Some(0), "util"),
            module(Some(0), "util"),
        ],
    };
    let g = Builder::new(opts(false, true, false, false, false))
        .build(&facts)
        .unwrap();
    assert_eq!(g.nodes.len(), 2);
    assert_eq!(path_of_node(&g.nodes[0]), path(&["app"]));
    assert_eq!(path_of_node(&g.nodes[1]), path(&["app", "util"]));
}

#[test]
fn test_only_entities_are_skipped_without_with_tests() {
    let facts = rich_unit();
    let g = Builder::new(opts(true, false, false, false, false))
        .build(&facts)
        .unwrap();
    for n in &g.nodes {
        match n {
            Node::Module { is_test, path, .. } => {
                assert!(!is_test, "test module kept: {:?}", path);
            }
            Node::Type { path, .. } => {
                assert_ne!(path.last().unwrap(), &s("Fixture"));
            }
            Node::Orphan { .. } => {}
        }
    }
    assert_eq!(g.nodes.len(), 3); // app, app::util, app::Config
}

#[test]
fn error_messages_name_the_identifier() {
    assert_eq!(
        Error::PathNotFound(s("app::nope")).message(),
        s("no module found for path: app::nope")
    );
    assert_eq!(
        Error::RootUnresolved(s("app")).message(),
        s("root unit could not be resolved: app")
    );
    assert_eq!(
        Error::AmbiguousPath(s("a::b")).message(),
        s("more than one module found for path: a::b")
    );
}

#[test]
fn builder_options_disable_uses_for_the_tree_command() {
    let graph_opts = GraphOptions {
        focus_on: Some(path(&["app", "util"])),
        max_depth: Some(2),
        with_types: true,
        with_tests: false,
        with_orphans: true,
    };
    let tree_cmd = Command::Tree(cargo_modules::tree::Options {
        general: GeneralOptions { verbose: true },
        project: ProjectOptions { manifest_dir: s(".") },
        graph: graph_opts.clone(),
    });
    let bo = tree_cmd.builder_options();
    assert_eq!(bo.focus_on, Some(path(&["app", "util"])));
    assert_eq!(bo.max_depth, Some(2));
    assert!(bo.with_types);
    assert!(!bo.with_tests);
    assert!(bo.with_orphans);
    assert!(!bo.with_uses);
    assert!(!bo.with_externs);
    let graph_cmd = Command::Graph(cargo_modules::diagram::Options {
        general: GeneralOptions { verbose: true },
        project: ProjectOptions { manifest_dir: s(".") },
        graph: graph_opts,
        with_uses: true,
        with_externs: true,
    });
    let bo2 = graph_cmd.builder_options();
    assert!(bo2.with_uses);
    assert!(bo2.with_externs);
    assert!(tree_cmd.general_options().verbose);
    assert_eq!(graph_cmd.project_options().manifest_dir, s("."));
    assert_eq!(graph_cmd.graph_options().max_depth, Some(2));
}

#[test]
fn orphan_start_is_a_valid_focus() {
    let facts = external_use_unit();
    let mut g = Builder::new(opts(false, true, true, true, true))
        .build(&facts)
        .unwrap();
    // node 1 is the orphan; shrinking from it at depth 0 keeps it alone
    let ns = shrink_graph(&mut g, 1, 0);
    assert_eq!(ns, 0);
    assert_eq!(g.nodes, vec![Node::Orphan { label: s("serde") }]);
    assert!(g.edges.is_empty());
}
