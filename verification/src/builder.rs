//! The graph builder: turns the semantic facts about a program unit into
//! the complete directed graph of its modules, types and use relations.
//!
//! The graph is laid out deterministically: first one `Module` node per
//! included module fact, in fact order; then the `Type` nodes of each
//! included module, in fact and declaration order; then one `Orphan`
//! node per unresolvable use target, in fact and declaration order.
//! Edges follow the same order: ownership edges between modules, then
//! ownership edges to types, then use/extern edges.

use vstd::prelude::*;

use crate::error::Error;
use crate::facts::{ItemFact, UnitFacts, UseFact};
use crate::graph::{Edge, EdgeKind, Graph, GraphV, Node, NodeV};

verus! {

/// What the builder includes, and what the shrinker later consumes
/// (`focus_on`, `max_depth`).
#[derive(Clone, Debug, PartialEq, Eq)]
pub struct Options {
    /// The path whose node the rendering is rooted at, as segments;
    /// the root unit's own name when absent.
    pub focus_on: Option<Vec<String>>,
    /// How many hops of the graph to keep; unbounded when absent.
    pub max_depth: Option<usize>,
    pub with_types: bool,
    pub with_tests: bool,
    pub with_orphans: bool,
    pub with_uses: bool,
    pub with_externs: bool,
}

pub proof fn lemma_concat_push<T>(a: Seq<T>, b: Seq<T>, x: T)
    ensures
        (a + b).push(x) == a + b.push(x),
{
    assert((a + b).push(x) =~= a + b.push(x));
}

pub proof fn lemma_concat_assoc<T>(a: Seq<T>, b: Seq<T>, c: Seq<T>)
    ensures
        (a + b) + c == a + (b + c),
{
    assert((a + b) + c =~= a + (b + c));
}

pub proof fn lemma_concat_empty<T>(a: Seq<T>)
    ensures
        a + Seq::<T>::empty() == a,
{
    assert(a + Seq::<T>::empty() =~= a);
}

pub proof fn lemma_push_singleton<T>(b: Seq<T>, x: T)
    ensures
        b.push(x) == b + seq![x],
{
    assert(b.push(x) =~= b + seq![x]);
}

/// The qualified path of module fact `i`: the root carries the unit's
/// name as its only segment, every other module appends its name to its
/// parent's path.  Malformed facts get the empty path.
pub open spec fn fact_path(facts: UnitFacts, i: int) -> Seq<Seq<char>>
    decreases i,
{
    if !(0 <= i < facts.modules@.len()) {
        Seq::empty()
    } else if i == 0 {
        seq![facts.modules@[0].name@]
    } else {
        match facts.modules@[i].parent {
            Some(p) => if p < i {
                fact_path(facts, p as int).push(facts.modules@[i].name@)
            } else {
                Seq::empty()
            },
            None => Seq::empty(),
        }
    }
}

/// Whether fact `i` enters the graph, given that `pre` lists the facts
/// below `i` that entered: its parent entered, it passes the test-only
/// filter, and no earlier entered fact has the same qualified path.
pub open spec fn take_fact(facts: UnitFacts, opts: Options, i: int, pre: Seq<int>) -> bool {
    0 <= i < facts.modules@.len() && (i == 0 || (match facts.modules@[i].parent {
        Some(p) => (p as int) < i && pre.contains(p as int) && (opts.with_tests
            || !facts.modules@[i].is_test) && !(exists|k: int|
            0 <= k < pre.len() && fact_path(facts, #[trigger] pre[k]) == fact_path(facts, i)),
        None => false,
    }))
}

/// The indices below `n` of the facts that enter the graph, in order.
pub open spec fn included_upto(facts: UnitFacts, opts: Options, n: int) -> Seq<int>
    decreases n,
{
    if n <= 0 {
        Seq::empty()
    } else {
        let pre = included_upto(facts, opts, n - 1);
        if take_fact(facts, opts, n - 1, pre) {
            pre.push(n - 1)
        } else {
            pre
        }
    }
}

pub open spec fn fact_included(facts: UnitFacts, opts: Options, i: int) -> bool {
    take_fact(facts, opts, i, included_upto(facts, opts, i))
}

/// The node index that fact `i` maps to, when it is included.
pub open spec fn node_of(facts: UnitFacts, opts: Options, i: int) -> int {
    included_upto(facts, opts, i).len() as int
}

pub open spec fn module_node(facts: UnitFacts, i: int) -> NodeV {
    NodeV::Module {
        path: fact_path(facts, i),
        is_root: i == 0,
        visibility: facts.modules@[i].visibility,
        is_test: facts.modules@[i].is_test,
    }
}

pub open spec fn module_nodes_upto(facts: UnitFacts, opts: Options, n: int) -> Seq<NodeV> {
    included_upto(facts, opts, n).map_values(|t: int| module_node(facts, t))
}

pub open spec fn module_count(facts: UnitFacts, opts: Options) -> int {
    included_upto(facts, opts, facts.modules@.len() as int).len() as int
}

/// One step of the module-node layout.
pub proof fn lemma_module_nodes_step(facts: UnitFacts, opts: Options, n: int)
    requires
        n >= 0,
    ensures
        fact_included(facts, opts, n) ==> module_nodes_upto(facts, opts, n + 1)
            == module_nodes_upto(facts, opts, n).push(module_node(facts, n)),
        !fact_included(facts, opts, n) ==> module_nodes_upto(facts, opts, n + 1)
            == module_nodes_upto(facts, opts, n),
{
    let pre = included_upto(facts, opts, n);
    if fact_included(facts, opts, n) {
        assert(included_upto(facts, opts, n + 1) == pre.push(n));
        let lhs = module_nodes_upto(facts, opts, n + 1);
        let rhs = module_nodes_upto(facts, opts, n).push(module_node(facts, n));
        assert forall|k: int| 0 <= k < lhs.len() implies lhs[k] == rhs[k] by {
            if k < pre.len() {
                assert(pre.push(n)[k] == pre[k]);
            } else {
                assert(pre.push(n)[k] == n);
            }
        }
        assert(lhs =~= rhs);
    } else {
        assert(included_upto(facts, opts, n + 1) == pre);
    }
}

pub open spec fn parent_of(facts: UnitFacts, i: int) -> int {
    match facts.modules@[i].parent {
        Some(p) => p as int,
        None => -1,
    }
}

/// The ownership edges among modules: one from each included non-root
/// module's parent to it, in fact order.
pub open spec fn module_edges_upto(facts: UnitFacts, opts: Options, n: int) -> Seq<Edge>
    decreases n,
{
    if n <= 0 {
        Seq::empty()
    } else {
        let pre = module_edges_upto(facts, opts, n - 1);
        if fact_included(facts, opts, n - 1) && n - 1 > 0 {
            pre.push(
                Edge {
                    source: node_of(facts, opts, parent_of(facts, n - 1)) as usize,
                    target: node_of(facts, opts, n - 1) as usize,
                    kind: EdgeKind::Owns,
                },
            )
        } else {
            pre
        }
    }
}

// ------------------------------------------------------------------
// Facts about the inclusion order.
// ------------------------------------------------------------------

/// Entered facts are listed in strictly increasing order, below `n`,
/// and there are at most `n` of them.
pub proof fn lemma_included_upto_elems(facts: UnitFacts, opts: Options, n: int)
    ensures
        n <= 0 ==> included_upto(facts, opts, n).len() == 0,
        n > 0 ==> included_upto(facts, opts, n).len() <= n,
        forall|k: int|
            0 <= k < included_upto(facts, opts, n).len() ==> 0 <= #[trigger] included_upto(
                facts,
                opts,
                n,
            )[k] < n,
        forall|k1: int, k2: int|
            0 <= k1 < k2 < included_upto(facts, opts, n).len() ==> included_upto(facts, opts, n)[k1]
                < included_upto(facts, opts, n)[k2],
    decreases n,
{
    if n > 0 {
        lemma_included_upto_elems(facts, opts, n - 1);
    }
}

pub proof fn lemma_included_upto_prefix(facts: UnitFacts, opts: Options, m: int, n: int)
    requires
        m <= n,
    ensures
        included_upto(facts, opts, m).is_prefix_of(included_upto(facts, opts, n)),
    decreases n - m,
{
    if m < n {
        lemma_included_upto_prefix(facts, opts, m, n - 1);
    }
}

pub proof fn lemma_included_upto_contains(facts: UnitFacts, opts: Options, n: int, i: int)
    requires
        0 <= i < n,
    ensures
        included_upto(facts, opts, n).contains(i) <==> fact_included(facts, opts, i),
    decreases n,
{
    lemma_included_upto_elems(facts, opts, n - 1);
    if i < n - 1 {
        lemma_included_upto_contains(facts, opts, n - 1, i);
        if take_fact(facts, opts, n - 1, included_upto(facts, opts, n - 1)) {
            assert(included_upto(facts, opts, n) == included_upto(facts, opts, n - 1).push(n - 1));
            assert(included_upto(facts, opts, n).contains(i) <==> included_upto(
                facts,
                opts,
                n - 1,
            ).contains(i) || i == n - 1) by {
                if included_upto(facts, opts, n - 1).contains(i) {
                    let k = choose|k: int|
                        0 <= k < included_upto(facts, opts, n - 1).len() && #[trigger] included_upto(
                            facts,
                            opts,
                            n - 1,
                        )[k] == i;
                    assert(included_upto(facts, opts, n)[k] == i);
                }
            }
        }
    } else {
        if fact_included(facts, opts, i) {
            assert(included_upto(facts, opts, n)[included_upto(facts, opts, n - 1).len() as int]
                == i);
        } else {
            if included_upto(facts, opts, n).contains(i) {
                let k = choose|k: int|
                    0 <= k < included_upto(facts, opts, n).len() && #[trigger] included_upto(
                        facts,
                        opts,
                        n,
                    )[k] == i;
                assert(included_upto(facts, opts, n - 1)[k] == i);
                assert(false);
            }
        }
    }
}

/// An included fact's node index is its position among the included
/// facts; positions and fact indices determine one another.
pub proof fn lemma_node_of(facts: UnitFacts, opts: Options, i: int, n: int)
    requires
        0 <= i < n,
        fact_included(facts, opts, i),
    ensures
        node_of(facts, opts, i) < included_upto(facts, opts, n).len(),
        included_upto(facts, opts, n)[node_of(facts, opts, i)] == i,
{
    assert(included_upto(facts, opts, i + 1) == included_upto(facts, opts, i).push(i));
    lemma_included_upto_prefix(facts, opts, i + 1, n);
    assert(included_upto(facts, opts, n)[node_of(facts, opts, i)] == included_upto(
        facts,
        opts,
        i + 1,
    )[node_of(facts, opts, i)]);
}

/// Conversely, the fact at position `k` has node index `k`.
pub proof fn lemma_position(facts: UnitFacts, opts: Options, n: int, k: int)
    requires
        0 <= k < included_upto(facts, opts, n).len(),
    ensures
        fact_included(facts, opts, included_upto(facts, opts, n)[k]),
        node_of(facts, opts, included_upto(facts, opts, n)[k]) == k,
        0 <= included_upto(facts, opts, n)[k] < n,
    decreases n,
{
    if n <= 0 {
    } else {
        let pre = included_upto(facts, opts, n - 1);
        lemma_included_upto_elems(facts, opts, n - 1);
        if take_fact(facts, opts, n - 1, pre) && k == pre.len() {
            assert(included_upto(facts, opts, n)[k] == n - 1);
        } else {
            lemma_position(facts, opts, n - 1, k);
        }
    }
}

/// No two included facts share a qualified path.
pub proof fn lemma_included_paths_distinct(facts: UnitFacts, opts: Options, i: int, j: int)
    requires
        fact_included(facts, opts, i),
        fact_included(facts, opts, j),
        i != j,
    ensures
        fact_path(facts, i) != fact_path(facts, j),
{
    let (lo, hi) = if i < j {
        (i, j)
    } else {
        (j, i)
    };
    assert(0 <= lo && hi > 0);
    lemma_included_upto_contains(facts, opts, hi, lo);
    let pre = included_upto(facts, opts, hi);
    let k = choose|k: int| 0 <= k < pre.len() && #[trigger] pre[k] == lo;
    assert(fact_path(facts, pre[k]) != fact_path(facts, hi));
}

// ------------------------------------------------------------------
// Type nodes and their ownership edges.
// ------------------------------------------------------------------

/// Whether a declared item becomes a `Type` node.
pub open spec fn item_ok(opts: Options, it: ItemFact) -> bool {
    opts.with_types && (opts.with_tests || !it.is_test)
}

pub open spec fn type_node(facts: UnitFacts, i: int, j: int) -> NodeV {
    NodeV::Type {
        path: fact_path(facts, i).push(facts.modules@[i].items@[j].name@),
        kind: facts.modules@[i].items@[j].kind,
        visibility: facts.modules@[i].items@[j].visibility,
    }
}

/// The `Type` nodes of the first `j` items of module fact `i`.
pub open spec fn type_nodes_upto(facts: UnitFacts, opts: Options, i: int, j: int) -> Seq<NodeV>
    decreases j,
{
    if j <= 0 {
        Seq::empty()
    } else {
        let pre = type_nodes_upto(facts, opts, i, j - 1);
        if item_ok(opts, facts.modules@[i].items@[j - 1]) {
            pre.push(type_node(facts, i, j - 1))
        } else {
            pre
        }
    }
}

/// The ownership edges from module fact `i` to its first `j` type nodes,
/// which are laid out from node index `base`.
pub open spec fn type_edges_upto(
    facts: UnitFacts,
    opts: Options,
    i: int,
    j: int,
    src: int,
    base: int,
) -> Seq<Edge>
    decreases j,
{
    if j <= 0 {
        Seq::empty()
    } else {
        let pre = type_edges_upto(facts, opts, i, j - 1, src, base);
        if item_ok(opts, facts.modules@[i].items@[j - 1]) {
            pre.push(
                Edge {
                    source: src as usize,
                    target: (base + type_nodes_upto(facts, opts, i, j - 1).len()) as usize,
                    kind: EdgeKind::Owns,
                },
            )
        } else {
            pre
        }
    }
}

/// All type nodes contributed by the facts below `n`.
pub open spec fn types_nodes_acc(facts: UnitFacts, opts: Options, n: int) -> Seq<NodeV>
    decreases n,
{
    if n <= 0 {
        Seq::empty()
    } else {
        let pre = types_nodes_acc(facts, opts, n - 1);
        if fact_included(facts, opts, n - 1) {
            pre + type_nodes_upto(facts, opts, n - 1, facts.modules@[n - 1].items@.len() as int)
        } else {
            pre
        }
    }
}

pub open spec fn types_edges_acc(facts: UnitFacts, opts: Options, n: int) -> Seq<Edge>
    decreases n,
{
    if n <= 0 {
        Seq::empty()
    } else {
        let pre = types_edges_acc(facts, opts, n - 1);
        if fact_included(facts, opts, n - 1) {
            pre + type_edges_upto(
                facts,
                opts,
                n - 1,
                facts.modules@[n - 1].items@.len() as int,
                node_of(facts, opts, n - 1),
                module_count(facts, opts) + types_nodes_acc(facts, opts, n - 1).len(),
            )
        } else {
            pre
        }
    }
}

// ------------------------------------------------------------------
// Use relations: `Uses`/`Extern` edges and `Orphan` nodes.
// ------------------------------------------------------------------

/// Whether a use target resolves to an included module of the unit.
pub open spec fn resolves(facts: UnitFacts, opts: Options, u: UseFact) -> bool {
    !u.is_external && exists|j: int|
        #[trigger] fact_included(facts, opts, j) && fact_path(facts, j) == u.target.deep_view()
}

/// The node index of the module a use target resolves to.  Included
/// modules have pairwise distinct paths, so the witness is unique.
pub open spec fn resolved_node(facts: UnitFacts, opts: Options, u: UseFact) -> int {
    node_of(
        facts,
        opts,
        choose|j: int|
            #[trigger] fact_included(facts, opts, j) && fact_path(facts, j)
                == u.target.deep_view(),
    )
}

/// The orphan node one use contributes, if any.
pub open spec fn use_nodes(facts: UnitFacts, opts: Options, u: UseFact) -> Seq<NodeV> {
    if u.is_external {
        if opts.with_externs && opts.with_orphans {
            seq![NodeV::Orphan { label: u.label@ }]
        } else {
            Seq::empty()
        }
    } else if resolves(facts, opts, u) {
        Seq::empty()
    } else if opts.with_orphans {
        seq![NodeV::Orphan { label: u.label@ }]
    } else {
        Seq::empty()
    }
}

/// The edge one use contributes, if any; a fresh orphan sits at `base`.
pub open spec fn use_edges(facts: UnitFacts, opts: Options, u: UseFact, src: int, base: int) -> Seq<
    Edge,
> {
    if u.is_external {
        if opts.with_externs && opts.with_orphans {
            seq![Edge { source: src as usize, target: base as usize, kind: EdgeKind::Extern }]
        } else {
            Seq::empty()
        }
    } else if resolves(facts, opts, u) {
        seq![
            Edge {
                source: src as usize,
                target: resolved_node(facts, opts, u) as usize,
                kind: EdgeKind::Uses,
            },
        ]
    } else if opts.with_orphans {
        seq![Edge { source: src as usize, target: base as usize, kind: EdgeKind::Uses }]
    } else {
        Seq::empty()
    }
}

pub open spec fn uses_nodes_upto(facts: UnitFacts, opts: Options, i: int, j: int) -> Seq<NodeV>
    decreases j,
{
    if j <= 0 {
        Seq::empty()
    } else {
        let pre = uses_nodes_upto(facts, opts, i, j - 1);
        pre + use_nodes(facts, opts, facts.modules@[i].uses@[j - 1])
    }
}

pub open spec fn uses_edges_upto(
    facts: UnitFacts,
    opts: Options,
    i: int,
    j: int,
    src: int,
    base: int,
) -> Seq<Edge>
    decreases j,
{
    if j <= 0 {
        Seq::empty()
    } else {
        let pre = uses_edges_upto(facts, opts, i, j - 1, src, base);
        pre + use_edges(
            facts,
            opts,
            facts.modules@[i].uses@[j - 1],
            src,
            base + uses_nodes_upto(facts, opts, i, j - 1).len(),
        )
    }
}

/// All orphan nodes contributed by the facts below `n`.
pub open spec fn uses_nodes_acc(facts: UnitFacts, opts: Options, n: int) -> Seq<NodeV>
    decreases n,
{
    if n <= 0 {
        Seq::empty()
    } else {
        let pre = uses_nodes_acc(facts, opts, n - 1);
        if fact_included(facts, opts, n - 1) && opts.with_uses {
            pre + uses_nodes_upto(facts, opts, n - 1, facts.modules@[n - 1].uses@.len() as int)
        } else {
            pre
        }
    }
}

/// The node index where the first orphan node goes.
pub open spec fn orphan_base(facts: UnitFacts, opts: Options) -> int {
    module_count(facts, opts) + types_nodes_acc(
        facts,
        opts,
        facts.modules@.len() as int,
    ).len()
}

pub open spec fn uses_edges_acc(facts: UnitFacts, opts: Options, n: int) -> Seq<Edge>
    decreases n,
{
    if n <= 0 {
        Seq::empty()
    } else {
        let pre = uses_edges_acc(facts, opts, n - 1);
        if fact_included(facts, opts, n - 1) && opts.with_uses {
            pre + uses_edges_upto(
                facts,
                opts,
                n - 1,
                facts.modules@[n - 1].uses@.len() as int,
                node_of(facts, opts, n - 1),
                orphan_base(facts, opts) + uses_nodes_acc(facts, opts, n - 1).len(),
            )
        } else {
            pre
        }
    }
}

/// The complete graph the builder produces for a unit's facts: module
/// nodes, then type nodes, then orphan nodes, with the edges in the
/// same phase order.
pub open spec fn build_spec(facts: UnitFacts, opts: Options) -> GraphV {
    let flen = facts.modules@.len() as int;
    GraphV {
        nodes: module_nodes_upto(facts, opts, flen) + types_nodes_acc(facts, opts, flen)
            + uses_nodes_acc(facts, opts, flen),
        edges: module_edges_upto(facts, opts, flen) + types_edges_acc(facts, opts, flen)
            + uses_edges_acc(facts, opts, flen),
    }
}

/// Nothing in the type phase is a module node.
pub proof fn lemma_type_nodes_not_modules(facts: UnitFacts, opts: Options, i: int, j: int)
    ensures
        forall|k: int|
            0 <= k < type_nodes_upto(facts, opts, i, j).len() ==> !(#[trigger] type_nodes_upto(
                facts,
                opts,
                i,
                j,
            )[k]).is_module(),
    decreases j,
{
    if j > 0 {
        lemma_type_nodes_not_modules(facts, opts, i, j - 1);
        let pre = type_nodes_upto(facts, opts, i, j - 1);
        let cur = type_nodes_upto(facts, opts, i, j);
        assert forall|k: int| 0 <= k < cur.len() implies !(#[trigger] cur[k]).is_module() by {
            if k < pre.len() {
                assert(cur[k] == pre[k]);
            } else {
                assert(cur[k] == type_node(facts, i, j - 1));
            }
        }
    }
}

pub proof fn lemma_types_acc_not_modules(facts: UnitFacts, opts: Options, n: int)
    ensures
        forall|k: int|
            0 <= k < types_nodes_acc(facts, opts, n).len() ==> !(#[trigger] types_nodes_acc(
                facts,
                opts,
                n,
            )[k]).is_module(),
    decreases n,
{
    if n > 0 {
        lemma_types_acc_not_modules(facts, opts, n - 1);
        lemma_type_nodes_not_modules(facts, opts, n - 1, facts.modules@[n - 1].items@.len() as int);
        let pre = types_nodes_acc(facts, opts, n - 1);
        let tail = type_nodes_upto(facts, opts, n - 1, facts.modules@[n - 1].items@.len() as int);
        let cur = types_nodes_acc(facts, opts, n);
        assert forall|k: int| 0 <= k < cur.len() implies !(#[trigger] cur[k]).is_module() by {
            if k < pre.len() {
                assert(cur[k] == pre[k]);
            } else {
                assert(cur[k] == tail[k - pre.len()]);
            }
        }
    }
}

/// Nothing in the use phase is a module node.
pub proof fn lemma_uses_nodes_not_modules(facts: UnitFacts, opts: Options, i: int, j: int)
    ensures
        forall|k: int|
            0 <= k < uses_nodes_upto(facts, opts, i, j).len() ==> !(#[trigger] uses_nodes_upto(
                facts,
                opts,
                i,
                j,
            )[k]).is_module(),
    decreases j,
{
    if j > 0 {
        lemma_uses_nodes_not_modules(facts, opts, i, j - 1);
        let pre = uses_nodes_upto(facts, opts, i, j - 1);
        let tail = use_nodes(facts, opts, facts.modules@[i].uses@[j - 1]);
        let cur = uses_nodes_upto(facts, opts, i, j);
        assert forall|k: int| 0 <= k < cur.len() implies !(#[trigger] cur[k]).is_module() by {
            if k < pre.len() {
                assert(cur[k] == pre[k]);
            } else {
                assert(cur[k] == tail[k - pre.len()]);
            }
        }
    }
}

pub proof fn lemma_uses_acc_not_modules(facts: UnitFacts, opts: Options, n: int)
    ensures
        forall|k: int|
            0 <= k < uses_nodes_acc(facts, opts, n).len() ==> !(#[trigger] uses_nodes_acc(
                facts,
                opts,
                n,
            )[k]).is_module(),
    decreases n,
{
    if n > 0 {
        lemma_uses_acc_not_modules(facts, opts, n - 1);
        lemma_uses_nodes_not_modules(facts, opts, n - 1, facts.modules@[n - 1].uses@.len() as int);
        let pre = uses_nodes_acc(facts, opts, n - 1);
        let tail = uses_nodes_upto(facts, opts, n - 1, facts.modules@[n - 1].uses@.len() as int);
        let cur = uses_nodes_acc(facts, opts, n);
        assert forall|k: int| 0 <= k < cur.len() implies !(#[trigger] cur[k]).is_module() by {
            if k < pre.len() {
                assert(cur[k] == pre[k]);
            } else {
                assert(cur[k] == tail[k - pre.len()]);
            }
        }
    }
}

// ------------------------------------------------------------------
// The executable builder.
// ------------------------------------------------------------------

/// The first module node whose qualified path equals `path`, if any.
fn find_module_with_path(nodes: &Vec<Node>, path: &Vec<String>) -> (r: Option<usize>)
    ensures
        match r {
            Some(k) => k < nodes@.len() && nodes.deep_view()[k as int].is_module()
                && nodes.deep_view()[k as int].path() == path.deep_view(),
            None => forall|k: int|
                0 <= k < nodes@.len() ==> !((#[trigger] nodes.deep_view()[k]).is_module()
                    && nodes.deep_view()[k].path() == path.deep_view()),
        },
{
    let mut k: usize = 0;
    while k < nodes.len()
        invariant
            k <= nodes@.len(),
            forall|k2: int|
                0 <= k2 < k ==> !((#[trigger] nodes.deep_view()[k2]).is_module()
                    && nodes.deep_view()[k2].path() == path.deep_view()),
        decreases nodes@.len() - k,
    {
        if crate::graph::is_module_with_path(&nodes[k], path) {
            return Some(k);
        }
        k = k + 1;
    }
    None
}

/// Builds the complete graph of one program unit from its semantic
/// facts.
pub struct Builder {
    pub options: Options,
}

impl Builder {
    pub fn new(options: Options) -> (r: Builder)
        ensures
            r.options == options,
    {
        Builder { options }
    }

    /// Produce the full graph of the unit: every module reachable from
    /// the root (deduplicated by qualified path), plus, as configured,
    /// type nodes, use/extern edges and orphan placeholders.  Fails
    /// exactly when the root module cannot be resolved; a malformed
    /// fact for a sub-item is skipped, never fatal.
    pub fn build(&self, facts: &UnitFacts) -> (r: Result<Graph, Error>)
        ensures
            match r {
                Ok(g) => facts.root_ok() && g@ == build_spec(*facts, self.options),
                Err(e) => !facts.root_ok() && e == Error::RootUnresolved(facts.name),
            },
    {
        let ghost opts = self.options;
        let flen = facts.modules.len();
        if flen == 0 {
            return Err(Error::RootUnresolved(facts.name.clone()));
        }
        match facts.modules[0].parent {
            Some(_) => {
                return Err(Error::RootUnresolved(facts.name.clone()));
            },
            None => {},
        }
        if facts.modules[0].name != facts.name {
            return Err(Error::RootUnresolved(facts.name.clone()));
        }
        let mut g = Graph { nodes: Vec::new(), edges: Vec::new() };
        let mut node_of_fact: Vec<Option<usize>> = Vec::new();

        // Phase 1: one `Module` node per included fact, with the
        // ownership edge from its parent.
        let mut i: usize = 0;
        while i < flen
            invariant
                opts == self.options,
                flen == facts.modules@.len(),
                i <= flen,
                node_of_fact@.len() == i,
                forall|j: int|
                    0 <= j < i ==> ((#[trigger] node_of_fact@[j]) is Some <==> fact_included(
                        *facts,
                        opts,
                        j,
                    )),
                forall|j: int|
                    0 <= j < i && node_of_fact@[j] is Some ==> node_of_fact@[j] == Some(
                        node_of(*facts, opts, j) as usize,
                    ),
                g.nodes.deep_view() == module_nodes_upto(*facts, opts, i as int),
                g.nodes@.len() == included_upto(*facts, opts, i as int).len(),
                g.edges@ == module_edges_upto(*facts, opts, i as int),
            decreases flen - i,
        {
            let ghost pre = included_upto(*facts, opts, i as int);
            proof {
                lemma_included_upto_elems(*facts, opts, i as int);
            }
            let mf = &facts.modules[i];
            if i == 0 {
                let mut c: Vec<String> = Vec::new();
                c.push(mf.name.clone());
                proof {
                    assert(c.deep_view() =~= fact_path(*facts, 0));
                    assert(take_fact(*facts, opts, 0, pre));
                }
                node_of_fact.push(Some(0));
                g.nodes.push(
                    Node::Module {
                        path: c,
                        is_root: true,
                        visibility: mf.visibility,
                        is_test: mf.is_test,
                    },
                );
                proof {
                    lemma_module_nodes_step(*facts, opts, i as int);
                    assert(included_upto(*facts, opts, 1) =~= pre.push(0));
                    assert(g.nodes.deep_view() =~= module_nodes_upto(*facts, opts, (i + 1) as int));
                    assert(g.edges@ =~= module_edges_upto(*facts, opts, (i + 1) as int));
                }
            } else {
                // Decide whether this fact enters, and compute its
                // qualified path from its parent's node.
                let mut keep: Option<(Vec<String>, usize)> = None;
                match mf.parent {
                    Some(p) => {
                        if p < i {
                            match node_of_fact[p] {
                                Some(pn) => {
                                    proof {
                                        lemma_node_of(*facts, opts, p as int, i as int);
                                    }
                                    if self.options.with_tests || !mf.is_test {
                                        let mut c = crate::graph::node_path(&g.nodes[pn]);
                                        c.push(mf.name.clone());
                                        proof {
                                            assert(g.nodes.deep_view()[pn as int] == module_node(
                                                *facts,
                                                pre[pn as int],
                                            ));
                                            assert(pre[node_of(*facts, opts, p as int)] == p as int);
                                            assert(c.deep_view() =~= fact_path(*facts, p as int).push(
                                                mf.name@,
                                            ));
                                            assert(c.deep_view() == fact_path(*facts, i as int));
                                        }
                                        match find_module_with_path(&g.nodes, &c) {
                                            Some(dup) => {
                                                proof {
                                                    let kd = dup as int;
                                                    assert(g.nodes.deep_view()[kd] == module_node(
                                                        *facts,
                                                        pre[kd],
                                                    ));
                                                    assert(fact_path(*facts, pre[kd]) == fact_path(
                                                        *facts,
                                                        i as int,
                                                    ));
                                                    assert(!take_fact(*facts, opts, i as int, pre));
                                                }
                                            },
                                            None => {
                                                proof {
                                                    assert forall|k: int|
                                                        0 <= k < pre.len() implies fact_path(
                                                        *facts,
                                                        #[trigger] pre[k],
                                                    ) != fact_path(*facts, i as int) by {
                                                        assert(g.nodes.deep_view()[k] == module_node(
                                                            *facts,
                                                            pre[k],
                                                        ));
                                                    }
                                                    assert(take_fact(*facts, opts, i as int, pre));
                                                }
                                                keep = Some((c, pn));
                                            },
                                        }
                                    } else {
                                        proof {
                                            assert(!take_fact(*facts, opts, i as int, pre));
                                        }
                                    }
                                },
                                None => {
                                    proof {
                                        if take_fact(*facts, opts, i as int, pre) {
                                            lemma_included_upto_contains(
                                                *facts,
                                                opts,
                                                i as int,
                                                p as int,
                                            );
                                        }
                                    }
                                },
                            }
                        } else {
                            proof {
                                assert(!take_fact(*facts, opts, i as int, pre));
                            }
                        }
                    },
                    None => {
                        proof {
                            assert(!take_fact(*facts, opts, i as int, pre));
                        }
                    },
                }
                match keep {
                    Some((c, pn)) => {
                        let idx = g.nodes.len();
                        node_of_fact.push(Some(idx));
                        g.nodes.push(
                            Node::Module {
                                path: c,
                                is_root: false,
                                visibility: mf.visibility,
                                is_test: mf.is_test,
                            },
                        );
                        g.edges.push(Edge { source: pn, target: idx, kind: EdgeKind::Owns });
                        proof {
                            assert(take_fact(*facts, opts, i as int, pre));
                            lemma_module_nodes_step(*facts, opts, i as int);
                            assert(included_upto(*facts, opts, i + 1) =~= pre.push(i as int));
                            assert(c.deep_view() == fact_path(*facts, i as int));
                            assert(g.nodes@[idx as int]@ == module_node(*facts, i as int));
                            assert(idx as int == pre.len());
                            assert(g.nodes.deep_view() =~= module_nodes_upto(
                                *facts,
                                opts,
                                (i + 1) as int,
                            ));
                            assert(g.edges@ =~= module_edges_upto(*facts, opts, (i + 1) as int));
                        }
                    },
                    None => {
                        node_of_fact.push(None);
                        proof {
                            lemma_module_nodes_step(*facts, opts, i as int);
                            assert(included_upto(*facts, opts, i + 1) =~= pre);
                            assert(g.nodes.deep_view() =~= module_nodes_upto(
                                *facts,
                                opts,
                                (i + 1) as int,
                            ));
                            assert(g.edges@ =~= module_edges_upto(*facts, opts, (i + 1) as int));
                        }
                    },
                }
            }
            i = i + 1;
        }

        // Phase 2: `Type` nodes of each included module, with their
        // ownership edges, in declaration order.
        let ghost mods_nodes = module_nodes_upto(*facts, opts, flen as int);
        let ghost mods_edges = module_edges_upto(*facts, opts, flen as int);
        let mods_len = g.nodes.len();
        let mut i: usize = 0;
        while i < flen
            invariant
                opts == self.options,
                flen == facts.modules@.len(),
                i <= flen,
                mods_len as int == module_count(*facts, opts),
                mods_nodes == module_nodes_upto(*facts, opts, flen as int),
                mods_edges == module_edges_upto(*facts, opts, flen as int),
                node_of_fact@.len() == flen,
                forall|j: int|
                    0 <= j < flen ==> ((#[trigger] node_of_fact@[j]) is Some <==> fact_included(
                        *facts,
                        opts,
                        j,
                    )),
                forall|j: int|
                    0 <= j < flen && node_of_fact@[j] is Some ==> node_of_fact@[j] == Some(
                        node_of(*facts, opts, j) as usize,
                    ),
                g.nodes.deep_view() == mods_nodes + types_nodes_acc(*facts, opts, i as int),
                g.edges@ == mods_edges + types_edges_acc(*facts, opts, i as int),
            decreases flen - i,
        {
            match node_of_fact[i] {
                Some(mn) => {
                    proof {
                        lemma_node_of(*facts, opts, i as int, flen as int);
                    }
                    let mf = &facts.modules[i];
                    let mut j: usize = 0;
                    while j < mf.items.len()
                        invariant
                            opts == self.options,
                            flen == facts.modules@.len(),
                            i < flen,
                            *mf == facts.modules@[i as int],
                            fact_included(*facts, opts, i as int),
                            mn as int == node_of(*facts, opts, i as int),
                            mn < mods_len,
                            mods_len as int == module_count(*facts, opts),
                            mods_nodes == module_nodes_upto(*facts, opts, flen as int),
                            mods_edges == module_edges_upto(*facts, opts, flen as int),
                            included_upto(*facts, opts, flen as int)[mn as int] == i as int,
                            j <= mf.items@.len(),
                            g.nodes.deep_view() == mods_nodes + types_nodes_acc(*facts, opts, i as int)
                                + type_nodes_upto(*facts, opts, i as int, j as int),
                            g.edges@ == mods_edges + types_edges_acc(*facts, opts, i as int)
                                + type_edges_upto(
                                *facts,
                                opts,
                                i as int,
                                j as int,
                                node_of(*facts, opts, i as int),
                                module_count(*facts, opts) + types_nodes_acc(
                                    *facts,
                                    opts,
                                    i as int,
                                ).len(),
                            ),
                        decreases mf.items@.len() - j,
                    {
                        let it = &mf.items[j];
                        if self.options.with_types && (self.options.with_tests || !it.is_test) {
                            proof {
                                assert(g.nodes.deep_view().len() == g.nodes@.len());
                                assert(mods_nodes.len() == module_count(*facts, opts));
                                assert(g.nodes.deep_view()[mn as int] == mods_nodes[mn as int]);
                                assert(mods_nodes[mn as int] == module_node(*facts, i as int));
                            }
                            let mut p = crate::graph::node_path(&g.nodes[mn]);
                            p.push(it.name.clone());
                            proof {
                                assert(p.deep_view() =~= fact_path(*facts, i as int).push(it.name@));
                            }
                            let t = g.nodes.len();
                            let ghost dv0 = g.nodes.deep_view();
                            let ghost de0 = g.edges@;
                            let ghost tn = type_node(*facts, i as int, j as int);
                            let ghost tacc = types_nodes_acc(*facts, opts, i as int);
                            let ghost tbase = module_count(*facts, opts) + tacc.len();
                            let ghost te = Edge {
                                source: node_of(*facts, opts, i as int) as usize,
                                target: (tbase + type_nodes_upto(*facts, opts, i as int, j as int).len()) as usize,
                                kind: EdgeKind::Owns,
                            };
                            g.nodes.push(
                                Node::Type { path: p, kind: it.kind, visibility: it.visibility },
                            );
                            g.edges.push(Edge { source: mn, target: t, kind: EdgeKind::Owns });
                            proof {
                                assert(item_ok(opts, facts.modules@[i as int].items@[j as int]));
                                assert(g.nodes@[t as int]@ == tn);
                                assert(g.nodes.deep_view() =~= dv0.push(tn));
                                assert(type_nodes_upto(*facts, opts, i as int, j + 1)
                                    == type_nodes_upto(*facts, opts, i as int, j as int).push(tn));
                                lemma_concat_push(
                                    mods_nodes + tacc,
                                    type_nodes_upto(*facts, opts, i as int, j as int),
                                    tn,
                                );
                                assert(g.nodes.deep_view() == mods_nodes + tacc + type_nodes_upto(
                                    *facts,
                                    opts,
                                    i as int,
                                    j + 1,
                                ));
                                assert(g.edges@ =~= de0.push(te));
                                assert(type_edges_upto(
                                    *facts,
                                    opts,
                                    i as int,
                                    j + 1,
                                    node_of(*facts, opts, i as int),
                                    tbase,
                                ) == type_edges_upto(
                                    *facts,
                                    opts,
                                    i as int,
                                    j as int,
                                    node_of(*facts, opts, i as int),
                                    tbase,
                                ).push(te));
                                lemma_concat_push(
                                    mods_edges + types_edges_acc(*facts, opts, i as int),
                                    type_edges_upto(
                                        *facts,
                                        opts,
                                        i as int,
                                        j as int,
                                        node_of(*facts, opts, i as int),
                                        tbase,
                                    ),
                                    te,
                                );
                                assert(g.edges@ == mods_edges + types_edges_acc(*facts, opts, i as int)
                                    + type_edges_upto(
                                    *facts,
                                    opts,
                                    i as int,
                                    j + 1,
                                    node_of(*facts, opts, i as int),
                                    tbase,
                                ));
                            }
                        } else {
                            proof {
                                assert(!item_ok(opts, facts.modules@[i as int].items@[j as int]));
                                assert(type_nodes_upto(*facts, opts, i as int, j + 1)
                                    == type_nodes_upto(*facts, opts, i as int, j as int));
                            }
                        }
                        j = j + 1;
                    }
                    proof {
                        lemma_concat_assoc(
                            mods_nodes,
                            types_nodes_acc(*facts, opts, i as int),
                            type_nodes_upto(
                                *facts,
                                opts,
                                i as int,
                                facts.modules@[i as int].items@.len() as int,
                            ),
                        );
                        assert(g.nodes.deep_view() =~= mods_nodes + types_nodes_acc(
                            *facts,
                            opts,
                            i + 1,
                        ));
                        lemma_concat_assoc(
                            mods_edges,
                            types_edges_acc(*facts, opts, i as int),
                            type_edges_upto(
                                *facts,
                                opts,
                                i as int,
                                facts.modules@[i as int].items@.len() as int,
                                node_of(*facts, opts, i as int),
                                module_count(*facts, opts) + types_nodes_acc(
                                    *facts,
                                    opts,
                                    i as int,
                                ).len(),
                            ),
                        );
                        assert(g.edges@ =~= mods_edges + types_edges_acc(*facts, opts, i + 1));
                    }
                },
                None => {
                    proof {
                        assert(types_nodes_acc(*facts, opts, i + 1) == types_nodes_acc(
                            *facts,
                            opts,
                            i as int,
                        ));
                        assert(types_edges_acc(*facts, opts, i + 1) == types_edges_acc(
                            *facts,
                            opts,
                            i as int,
                        ));
                    }
                },
            }
            i = i + 1;
        }

        // Phase 3: use relations: `Uses`/`Extern` edges, and `Orphan`
        // nodes for targets that resolve to nothing.
        let ghost types_all = types_nodes_acc(*facts, opts, flen as int);
        let ghost tedges_all = types_edges_acc(*facts, opts, flen as int);
        let types_end = g.nodes.len();
        let mut i: usize = 0;
        while i < flen
            invariant
                opts == self.options,
                flen == facts.modules@.len(),
                i <= flen,
                mods_len as int == module_count(*facts, opts),
                mods_nodes == module_nodes_upto(*facts, opts, flen as int),
                mods_edges == module_edges_upto(*facts, opts, flen as int),
                types_all == types_nodes_acc(*facts, opts, flen as int),
                tedges_all == types_edges_acc(*facts, opts, flen as int),
                types_end as int == orphan_base(*facts, opts),
                node_of_fact@.len() == flen,
                forall|j: int|
                    0 <= j < flen ==> ((#[trigger] node_of_fact@[j]) is Some <==> fact_included(
                        *facts,
                        opts,
                        j,
                    )),
                forall|j: int|
                    0 <= j < flen && node_of_fact@[j] is Some ==> node_of_fact@[j] == Some(
                        node_of(*facts, opts, j) as usize,
                    ),
                g.nodes.deep_view() == mods_nodes + types_all + uses_nodes_acc(*facts, opts, i as int),
                g.edges@ == mods_edges + tedges_all + uses_edges_acc(*facts, opts, i as int),
            decreases flen - i,
        {
            let include_uses = self.options.with_uses;
            match node_of_fact[i] {
                Some(mn) => {
                    if include_uses {
                        proof {
                            lemma_node_of(*facts, opts, i as int, flen as int);
                        }
                        let mf = &facts.modules[i];
                        let mut j: usize = 0;
                        while j < mf.uses.len()
                            invariant
                                opts == self.options,
                                self.options.with_uses,
                                flen == facts.modules@.len(),
                                i < flen,
                                *mf == facts.modules@[i as int],
                                fact_included(*facts, opts, i as int),
                                mn as int == node_of(*facts, opts, i as int),
                                mn < mods_len,
                                mods_len as int == module_count(*facts, opts),
                                mods_nodes == module_nodes_upto(*facts, opts, flen as int),
                                mods_edges == module_edges_upto(*facts, opts, flen as int),
                                types_all == types_nodes_acc(*facts, opts, flen as int),
                                tedges_all == types_edges_acc(*facts, opts, flen as int),
                                types_end as int == orphan_base(*facts, opts),
                                included_upto(*facts, opts, flen as int)[mn as int] == i as int,
                                j <= mf.uses@.len(),
                                g.nodes.deep_view() == mods_nodes + types_all + uses_nodes_acc(
                                    *facts,
                                    opts,
                                    i as int,
                                ) + uses_nodes_upto(*facts, opts, i as int, j as int),
                                g.edges@ == mods_edges + tedges_all + uses_edges_acc(
                                    *facts,
                                    opts,
                                    i as int,
                                ) + uses_edges_upto(
                                    *facts,
                                    opts,
                                    i as int,
                                    j as int,
                                    node_of(*facts, opts, i as int),
                                    orphan_base(*facts, opts) + uses_nodes_acc(
                                        *facts,
                                        opts,
                                        i as int,
                                    ).len(),
                                ),
                            decreases mf.uses@.len() - j,
                        {
                            let u = &mf.uses[j];
                            proof {
                                assert(g.nodes.deep_view().len() == g.nodes@.len());
                                assert(mods_nodes.len() == module_count(*facts, opts));
                            }
                            let ghost uu = facts.modules@[i as int].uses@[j as int];
                            let ghost dv0 = g.nodes.deep_view();
                            let ghost de0 = g.edges@;
                            let ghost src = node_of(*facts, opts, i as int);
                            let ghost abase = orphan_base(*facts, opts) + uses_nodes_acc(
                                *facts,
                                opts,
                                i as int,
                            ).len();
                            let ghost ubase = orphan_base(*facts, opts) + uses_nodes_acc(
                                *facts,
                                opts,
                                i as int,
                            ).len() + uses_nodes_upto(*facts, opts, i as int, j as int).len();
                            if u.is_external {
                                if self.options.with_externs && self.options.with_orphans {
                                    let t = g.nodes.len();
                                    g.nodes.push(Node::Orphan { label: u.label.clone() });
                                    g.edges.push(
                                        Edge { source: mn, target: t, kind: EdgeKind::Extern },
                                    );
                                    proof {
                                        assert(t as int == ubase);
                                        assert(use_nodes(*facts, opts, uu) =~= seq![
                                            NodeV::Orphan { label: uu.label@ },
                                        ]);
                                        assert(g.nodes.deep_view() =~= dv0.push(
                                            NodeV::Orphan { label: uu.label@ },
                                        ));
                                        assert(g.edges@ =~= de0.push(
                                            Edge {
                                                source: src as usize,
                                                target: ubase as usize,
                                                kind: EdgeKind::Extern,
                                            },
                                        ));
                                    }
                                }
                            } else {
                                match find_module_with_path(&g.nodes, &u.target) {
                                    Some(k) => {
                                        proof {
                                            lemma_types_acc_not_modules(*facts, opts, flen as int);
                                            lemma_uses_acc_not_modules(*facts, opts, i as int);
                                            lemma_uses_nodes_not_modules(
                                                *facts,
                                                opts,
                                                i as int,
                                                j as int,
                                            );
                                            assert(k < mods_len) by {
                                                if k >= mods_len {
                                                    let kd = k as int;
                                                    if kd < mods_len + types_all.len() {
                                                        assert(g.nodes.deep_view()[kd]
                                                            == types_all[kd - mods_len]);
                                                    } else if kd < mods_len + types_all.len()
                                                        + uses_nodes_acc(*facts, opts, i as int).len() {
                                                        assert(g.nodes.deep_view()[kd]
                                                            == uses_nodes_acc(*facts, opts, i as int)[kd
                                                            - mods_len - types_all.len()]);
                                                    } else {
                                                        assert(g.nodes.deep_view()[kd]
                                                            == uses_nodes_upto(*facts, opts, i as int, j as int)[kd
                                                            - mods_len - types_all.len()
                                                            - uses_nodes_acc(*facts, opts, i as int).len()]);
                                                    }
                                                }
                                            }
                                            assert(g.nodes.deep_view()[k as int] == mods_nodes[k as int]);
                                            lemma_position(*facts, opts, flen as int, k as int);
                                            let jf = included_upto(*facts, opts, flen as int)[k as int];
                                            assert(mods_nodes[k as int] == module_node(*facts, jf));
                                            assert(fact_path(*facts, jf) == uu.target.deep_view());
                                            assert(resolves(*facts, opts, uu));
                                            let jw = choose|jj: int|
                                                #[trigger] fact_included(*facts, opts, jj)
                                                    && fact_path(*facts, jj) == uu.target.deep_view();
                                            if jw != jf {
                                                lemma_included_paths_distinct(*facts, opts, jw, jf);
                                            }
                                            assert(resolved_node(*facts, opts, uu) == k as int);
                                        }
                                        g.edges.push(
                                            Edge { source: mn, target: k, kind: EdgeKind::Uses },
                                        );
                                        proof {
                                            assert(g.edges@ =~= de0.push(
                                                Edge {
                                                    source: src as usize,
                                                    target: resolved_node(*facts, opts, uu) as usize,
                                                    kind: EdgeKind::Uses,
                                                },
                                            ));
                                        }
                                    },
                                    None => {
                                        proof {
                                            assert(!resolves(*facts, opts, uu)) by {
                                                if resolves(*facts, opts, uu) {
                                                    let jw = choose|jj: int|
                                                        #[trigger] fact_included(*facts, opts, jj)
                                                            && fact_path(*facts, jj)
                                                            == uu.target.deep_view();
                                                    lemma_node_of(*facts, opts, jw, flen as int);
                                                    let kd = node_of(*facts, opts, jw);
                                                    assert(kd < mods_nodes.len());
                                                    assert(g.nodes.deep_view()[kd]
                                                        == mods_nodes[kd]);
                                                    assert(mods_nodes[kd] == module_node(
                                                        *facts,
                                                        included_upto(*facts, opts, flen as int)[kd],
                                                    ));
                                                    assert(mods_nodes[kd] == module_node(*facts, jw));
                                                    assert(g.nodes.deep_view()[kd].is_module()
                                                        && g.nodes.deep_view()[kd].path()
                                                        == uu.target.deep_view());
                                                }
                                            }
                                        }
                                        if self.options.with_orphans {
                                            let t = g.nodes.len();
                                            g.nodes.push(Node::Orphan { label: u.label.clone() });
                                            g.edges.push(
                                                Edge { source: mn, target: t, kind: EdgeKind::Uses },
                                            );
                                            proof {
                                                assert(t as int == ubase);
                                                assert(g.nodes.deep_view() =~= dv0.push(
                                                    NodeV::Orphan { label: uu.label@ },
                                                ));
                                                assert(g.edges@ =~= de0.push(
                                                    Edge {
                                                        source: src as usize,
                                                        target: ubase as usize,
                                                        kind: EdgeKind::Uses,
                                                    },
                                                ));
                                            }
                                        }
                                    },
                                }
                            }
                            proof {
                                let un = use_nodes(*facts, opts, uu);
                                let upre = uses_nodes_upto(*facts, opts, i as int, j as int);
                                let ue = use_edges(*facts, opts, uu, src, ubase);
                                let epre = uses_edges_upto(*facts, opts, i as int, j as int, src, abase);
                                assert(uses_nodes_upto(*facts, opts, i as int, j + 1) == upre + un);
                                assert(uses_edges_upto(*facts, opts, i as int, j + 1, src, abase)
                                    == epre + ue);
                                let hn = mods_nodes + types_all + uses_nodes_acc(*facts, opts, i as int);
                                let he = mods_edges + tedges_all + uses_edges_acc(*facts, opts, i as int);
                                if un.len() == 0 {
                                    lemma_concat_empty(upre);
                                    assert(upre + un =~= upre);
                                } else {
                                    assert(un =~= seq![NodeV::Orphan { label: uu.label@ }]);
                                    lemma_push_singleton(upre, NodeV::Orphan { label: uu.label@ });
                                    lemma_concat_push(hn, upre, NodeV::Orphan { label: uu.label@ });
                                    assert(upre + un =~= upre.push(NodeV::Orphan { label: uu.label@ }));
                                }
                                if ue.len() == 0 {
                                    lemma_concat_empty(epre);
                                    assert(epre + ue =~= epre);
                                } else {
                                    let e0 = ue[0];
                                    lemma_push_singleton(epre, e0);
                                    lemma_concat_push(he, epre, e0);
                                    assert(epre + ue =~= epre.push(e0));
                                }
                                lemma_concat_assoc(hn, upre, un);
                                lemma_concat_assoc(he, epre, ue);
                                assert(g.nodes.deep_view() =~= hn + uses_nodes_upto(
                                    *facts,
                                    opts,
                                    i as int,
                                    j + 1,
                                ));
                                assert(g.edges@ =~= he + uses_edges_upto(
                                    *facts,
                                    opts,
                                    i as int,
                                    j + 1,
                                    src,
                                    abase,
                                ));
                            }
                            j = j + 1;
                        }
                        proof {
                            lemma_concat_assoc(
                                mods_nodes + types_all,
                                uses_nodes_acc(*facts, opts, i as int),
                                uses_nodes_upto(
                                    *facts,
                                    opts,
                                    i as int,
                                    facts.modules@[i as int].uses@.len() as int,
                                ),
                            );
                            assert(g.nodes.deep_view() =~= mods_nodes + types_all + uses_nodes_acc(
                                *facts,
                                opts,
                                i + 1,
                            ));
                            lemma_concat_assoc(
                                mods_edges + tedges_all,
                                uses_edges_acc(*facts, opts, i as int),
                                uses_edges_upto(
                                    *facts,
                                    opts,
                                    i as int,
                                    facts.modules@[i as int].uses@.len() as int,
                                    node_of(*facts, opts, i as int),
                                    orphan_base(*facts, opts) + uses_nodes_acc(
                                        *facts,
                                        opts,
                                        i as int,
                                    ).len(),
                                ),
                            );
                            assert(g.edges@ =~= mods_edges + tedges_all + uses_edges_acc(
                                *facts,
                                opts,
                                i + 1,
                            ));
                        }
                    } else {
                        proof {
                            assert(uses_nodes_acc(*facts, opts, i + 1) == uses_nodes_acc(
                                *facts,
                                opts,
                                i as int,
                            ));
                            assert(uses_edges_acc(*facts, opts, i + 1) == uses_edges_acc(
                                *facts,
                                opts,
                                i as int,
                            ));
                        }
                    }
                },
                None => {
                    proof {
                        assert(uses_nodes_acc(*facts, opts, i + 1) == uses_nodes_acc(
                            *facts,
                            opts,
                            i as int,
                        ));
                        assert(uses_edges_acc(*facts, opts, i + 1) == uses_edges_acc(
                            *facts,
                            opts,
                            i as int,
                        ));
                    }
                },
            }
            i = i + 1;
        }
        proof {
            assert(g@ =~= build_spec(*facts, self.options));
        }
        Ok(g)
    }
}

// ------------------------------------------------------------------
// Structural invariants of every built graph.
// ------------------------------------------------------------------

pub proof fn lemma_module_edges_bounds(facts: UnitFacts, opts: Options, n: int)
    requires
        n <= usize::MAX,
    ensures
        forall|k: int|
            0 <= k < module_edges_upto(facts, opts, n).len() ==> (#[trigger] module_edges_upto(
                facts,
                opts,
                n,
            )[k]).source < module_edges_upto(facts, opts, n)[k].target && module_edges_upto(
                facts,
                opts,
                n,
            )[k].target < included_upto(facts, opts, n).len() && module_edges_upto(
                facts,
                opts,
                n,
            )[k].kind is Owns,
    decreases n,
{
    if n > 0 {
        lemma_module_edges_bounds(facts, opts, n - 1);
        lemma_included_upto_elems(facts, opts, n - 1);
        let pre = module_edges_upto(facts, opts, n - 1);
        let cur = module_edges_upto(facts, opts, n);
        if fact_included(facts, opts, n - 1) && n - 1 > 0 {
            let p = parent_of(facts, n - 1);
            assert(included_upto(facts, opts, n - 1).contains(p));
            lemma_included_upto_contains(facts, opts, n - 1, p);
            lemma_node_of(facts, opts, p, n - 1);
            assert(included_upto(facts, opts, n) == included_upto(facts, opts, n - 1).push(n - 1));
            let e = Edge {
                source: node_of(facts, opts, p) as usize,
                target: node_of(facts, opts, n - 1) as usize,
                kind: EdgeKind::Owns,
            };
            assert(cur == pre.push(e));
            assert(node_of(facts, opts, p) as usize == node_of(facts, opts, p));
            assert(node_of(facts, opts, n - 1) as usize == node_of(facts, opts, n - 1));
            assert forall|k: int| 0 <= k < cur.len() implies (#[trigger] cur[k]).source
                < cur[k].target && cur[k].target < included_upto(facts, opts, n).len()
                && cur[k].kind is Owns by {
                if k < pre.len() {
                    assert(cur[k] == pre[k]);
                } else {
                    assert(cur[k].target == node_of(facts, opts, n - 1) as usize);
                }
            }
        } else {
            if fact_included(facts, opts, n - 1) {
                assert(included_upto(facts, opts, n) == included_upto(facts, opts, n - 1).push(
                    n - 1,
                ));
            }
            assert forall|k: int| 0 <= k < cur.len() implies (#[trigger] cur[k]).source
                < cur[k].target && cur[k].target < included_upto(facts, opts, n).len()
                && cur[k].kind is Owns by {
                assert(cur[k] == pre[k]);
            }
        }
    }
}

pub proof fn lemma_type_edges_upto_bounds(
    facts: UnitFacts,
    opts: Options,
    i: int,
    j: int,
    src: int,
    base: int,
)
    requires
        0 <= src <= usize::MAX,
        0 <= base,
        base + type_nodes_upto(facts, opts, i, j).len() <= usize::MAX,
    ensures
        forall|k: int|
            0 <= k < type_edges_upto(facts, opts, i, j, src, base).len() ==> (
            #[trigger] type_edges_upto(facts, opts, i, j, src, base)[k]).source == src
                && base <= type_edges_upto(facts, opts, i, j, src, base)[k].target < base
                + type_nodes_upto(facts, opts, i, j).len() && type_edges_upto(
                facts,
                opts,
                i,
                j,
                src,
                base,
            )[k].kind is Owns,
    decreases j,
{
    if j > 0 {
        lemma_type_edges_upto_bounds(facts, opts, i, j - 1, src, base);
        let pre = type_edges_upto(facts, opts, i, j - 1, src, base);
        let cur = type_edges_upto(facts, opts, i, j, src, base);
        if item_ok(opts, facts.modules@[i].items@[j - 1]) {
            let t = base + type_nodes_upto(facts, opts, i, j - 1).len();
            assert(cur == pre.push(
                Edge { source: src as usize, target: t as usize, kind: EdgeKind::Owns },
            ));
            assert(src as usize == src);
            assert(t as usize == t);
        }
        assert forall|k: int| 0 <= k < cur.len() implies (#[trigger] cur[k]).source == src && base
            <= cur[k].target < base + type_nodes_upto(facts, opts, i, j).len()
            && cur[k].kind is Owns by {
            if k < pre.len() {
                assert(cur[k] == pre[k]);
            }
        }
    }
}

pub proof fn lemma_types_acc_len_mono(facts: UnitFacts, opts: Options, m: int, n: int)
    requires
        m <= n,
    ensures
        types_nodes_acc(facts, opts, m).len() <= types_nodes_acc(facts, opts, n).len(),
    decreases n - m,
{
    if m < n {
        lemma_types_acc_len_mono(facts, opts, m, n - 1);
    }
}

pub proof fn lemma_types_edges_acc_bounds(facts: UnitFacts, opts: Options, n: int)
    requires
        n <= facts.modules@.len(),
        module_count(facts, opts) + types_nodes_acc(facts, opts, n).len() <= usize::MAX,
    ensures
        forall|k: int|
            0 <= k < types_edges_acc(facts, opts, n).len() ==> (#[trigger] types_edges_acc(
                facts,
                opts,
                n,
            )[k]).source < module_count(facts, opts) && module_count(facts, opts)
                <= types_edges_acc(facts, opts, n)[k].target < module_count(facts, opts)
                + types_nodes_acc(facts, opts, n).len() && types_edges_acc(
                facts,
                opts,
                n,
            )[k].kind is Owns,
    decreases n,
{
    if n > 0 {
        lemma_types_acc_len_mono(facts, opts, n - 1, n);
        lemma_types_edges_acc_bounds(facts, opts, n - 1);
        let pre = types_edges_acc(facts, opts, n - 1);
        let cur = types_edges_acc(facts, opts, n);
        if fact_included(facts, opts, n - 1) {
            lemma_included_upto_elems(facts, opts, facts.modules@.len() as int);
            lemma_node_of(facts, opts, n - 1, facts.modules@.len() as int);
            let src = node_of(facts, opts, n - 1);
            let base = module_count(facts, opts) + types_nodes_acc(facts, opts, n - 1).len();
            let jlen = facts.modules@[n - 1].items@.len() as int;
            lemma_type_edges_upto_bounds(facts, opts, n - 1, jlen, src, base);
            assert forall|k: int| 0 <= k < cur.len() implies (#[trigger] cur[k]).source
                < module_count(facts, opts) && module_count(facts, opts) <= cur[k].target
                < module_count(facts, opts) + types_nodes_acc(facts, opts, n).len()
                && cur[k].kind is Owns by {
                if k < pre.len() {
                    assert(cur[k] == pre[k]);
                } else {
                    assert(cur[k] == type_edges_upto(facts, opts, n - 1, jlen, src, base)[k
                        - pre.len()]);
                }
            }
        } else {
            assert forall|k: int| 0 <= k < cur.len() implies (#[trigger] cur[k]).source
                < module_count(facts, opts) && module_count(facts, opts) <= cur[k].target
                < module_count(facts, opts) + types_nodes_acc(facts, opts, n).len()
                && cur[k].kind is Owns by {
                assert(cur[k] == pre[k]);
            }
        }
    }
}

pub proof fn lemma_uses_edges_upto_bounds(
    facts: UnitFacts,
    opts: Options,
    i: int,
    j: int,
    src: int,
    base: int,
)
    requires
        0 <= src <= usize::MAX,
        0 <= base,
        base + uses_nodes_upto(facts, opts, i, j).len() <= usize::MAX,
        module_count(facts, opts) <= usize::MAX,
    ensures
        forall|k: int|
            0 <= k < uses_edges_upto(facts, opts, i, j, src, base).len() ==> (
            #[trigger] uses_edges_upto(facts, opts, i, j, src, base)[k]).source == src && (
            uses_edges_upto(facts, opts, i, j, src, base)[k].target < module_count(facts, opts)
                || base <= uses_edges_upto(facts, opts, i, j, src, base)[k].target < base
                + uses_nodes_upto(facts, opts, i, j).len()) && !(uses_edges_upto(
                facts,
                opts,
                i,
                j,
                src,
                base,
            )[k].kind is Owns),
    decreases j,
{
    if j > 0 {
        lemma_uses_edges_upto_bounds(facts, opts, i, j - 1, src, base);
        let pre = uses_edges_upto(facts, opts, i, j - 1, src, base);
        let cur = uses_edges_upto(facts, opts, i, j, src, base);
        let uu = facts.modules@[i].uses@[j - 1];
        let ub = base + uses_nodes_upto(facts, opts, i, j - 1).len();
        assert(uses_nodes_upto(facts, opts, i, j) == uses_nodes_upto(facts, opts, i, j - 1)
            + use_nodes(facts, opts, uu));
        assert(cur == pre + use_edges(facts, opts, uu, src, ub));
        if resolves(facts, opts, uu) {
            let jw = choose|jj: int|
                #[trigger] fact_included(facts, opts, jj) && fact_path(facts, jj)
                    == uu.target.deep_view();
            lemma_node_of(facts, opts, jw, facts.modules@.len() as int);
            lemma_included_upto_elems(facts, opts, facts.modules@.len() as int);
            assert(resolved_node(facts, opts, uu) as usize == resolved_node(facts, opts, uu));
        } else {
            assert(src as usize == src);
            assert(ub as usize == ub || use_edges(facts, opts, uu, src, ub).len() == 0);
        }
        assert forall|k: int| 0 <= k < cur.len() implies (#[trigger] cur[k]).source == src && (
        cur[k].target < module_count(facts, opts) || base <= cur[k].target < base
            + uses_nodes_upto(facts, opts, i, j).len()) && !(cur[k].kind is Owns) by {
            if k < pre.len() {
                assert(cur[k] == pre[k]);
            }
        }
    }
}

pub proof fn lemma_uses_acc_len_mono(facts: UnitFacts, opts: Options, m: int, n: int)
    requires
        m <= n,
    ensures
        uses_nodes_acc(facts, opts, m).len() <= uses_nodes_acc(facts, opts, n).len(),
    decreases n - m,
{
    if m < n {
        lemma_uses_acc_len_mono(facts, opts, m, n - 1);
    }
}

pub proof fn lemma_uses_edges_acc_bounds(facts: UnitFacts, opts: Options, n: int)
    requires
        n <= facts.modules@.len(),
        module_count(facts, opts) <= usize::MAX,
        orphan_base(facts, opts) + uses_nodes_acc(facts, opts, n).len() <= usize::MAX,
    ensures
        forall|k: int|
            0 <= k < uses_edges_acc(facts, opts, n).len() ==> (#[trigger] uses_edges_acc(
                facts,
                opts,
                n,
            )[k]).source < module_count(facts, opts) && uses_edges_acc(facts, opts, n)[k].target
                < orphan_base(facts, opts) + uses_nodes_acc(facts, opts, n).len() && !(
            uses_edges_acc(facts, opts, n)[k].kind is Owns),
    decreases n,
{
    if n > 0 {
        lemma_uses_acc_len_mono(facts, opts, n - 1, n);
        lemma_uses_edges_acc_bounds(facts, opts, n - 1);
        let pre = uses_edges_acc(facts, opts, n - 1);
        let cur = uses_edges_acc(facts, opts, n);
        if fact_included(facts, opts, n - 1) && opts.with_uses {
            lemma_node_of(facts, opts, n - 1, facts.modules@.len() as int);
            let src = node_of(facts, opts, n - 1);
            let base = orphan_base(facts, opts) + uses_nodes_acc(facts, opts, n - 1).len();
            let jlen = facts.modules@[n - 1].uses@.len() as int;
            lemma_uses_edges_upto_bounds(facts, opts, n - 1, jlen, src, base);
            lemma_types_acc_len_mono(facts, opts, 0, facts.modules@.len() as int);
            assert forall|k: int| 0 <= k < cur.len() implies (#[trigger] cur[k]).source
                < module_count(facts, opts) && cur[k].target < orphan_base(facts, opts)
                + uses_nodes_acc(facts, opts, n).len() && !(cur[k].kind is Owns) by {
                if k < pre.len() {
                    assert(cur[k] == pre[k]);
                } else {
                    assert(cur[k] == uses_edges_upto(facts, opts, n - 1, jlen, src, base)[k
                        - pre.len()]);
                    assert(module_count(facts, opts) <= orphan_base(facts, opts));
                }
            }
        } else {
            assert forall|k: int| 0 <= k < cur.len() implies (#[trigger] cur[k]).source
                < module_count(facts, opts) && cur[k].target < orphan_base(facts, opts)
                + uses_nodes_acc(facts, opts, n).len() && !(cur[k].kind is Owns) by {
                assert(cur[k] == pre[k]);
            }
        }
    }
}

/// Every graph the builder produces is well formed: edges stay in
/// bounds, no two module nodes share a qualified path, exactly one node
/// carries `is_root` (the first one, for the unit itself), and
/// ownership edges go forward in the arena.
pub proof fn lemma_builder_invariants(facts: UnitFacts, opts: Options)
    requires
        facts.modules@.len() > 0,
        build_spec(facts, opts).nodes.len() <= usize::MAX,
    ensures
        build_spec(facts, opts).wf(),
        build_spec(facts, opts).unique_module_paths(),
        build_spec(facts, opts).unique_root(),
        build_spec(facts, opts).owns_forward(),
        build_spec(facts, opts).nodes.len() > 0,
        build_spec(facts, opts).nodes[0] == module_node(facts, 0),
        module_count(facts, opts) > 0,
{
    let g = build_spec(facts, opts);
    let flen = facts.modules@.len() as int;
    let pre = included_upto(facts, opts, flen);
    let mods = module_nodes_upto(facts, opts, flen);
    lemma_included_upto_elems(facts, opts, flen);
    lemma_included_upto_contains(facts, opts, flen, 0);
    assert(fact_included(facts, opts, 0));
    let k0 = choose|k: int| 0 <= k < pre.len() && #[trigger] pre[k] == 0;
    assert(pre[k0] == 0);
    assert(k0 == 0) by {
        if k0 > 0 {
            assert(pre[0] < pre[k0]);
        }
    }
    assert(g.nodes[0] == mods[0]);
    assert(mods[0] == module_node(facts, 0));
    lemma_types_acc_not_modules(facts, opts, flen);
    lemma_uses_acc_not_modules(facts, opts, flen);

    // Only the module region holds module nodes, and their paths are
    // pairwise distinct.
    assert forall|i: int, j: int|
        #[trigger] g.is_module_at(i) && #[trigger] g.is_module_at(j) && i != j implies g.path_at(i)
        != g.path_at(j) by {
        assert(i < mods.len() && j < mods.len()) by {
            if i >= mods.len() {
                if i < mods.len() + types_nodes_acc(facts, opts, flen).len() {
                    assert(g.nodes[i] == types_nodes_acc(facts, opts, flen)[i - mods.len()]);
                } else {
                    assert(g.nodes[i] == uses_nodes_acc(facts, opts, flen)[i - mods.len()
                        - types_nodes_acc(facts, opts, flen).len()]);
                }
            }
            if j >= mods.len() {
                if j < mods.len() + types_nodes_acc(facts, opts, flen).len() {
                    assert(g.nodes[j] == types_nodes_acc(facts, opts, flen)[j - mods.len()]);
                } else {
                    assert(g.nodes[j] == uses_nodes_acc(facts, opts, flen)[j - mods.len()
                        - types_nodes_acc(facts, opts, flen).len()]);
                }
            }
        }
        assert(g.nodes[i] == mods[i] && g.nodes[j] == mods[j]);
        lemma_position(facts, opts, flen, i);
        lemma_position(facts, opts, flen, j);
        lemma_included_paths_distinct(facts, opts, pre[i], pre[j]);
    }

    // Exactly one root: the module node of fact 0, at index 0.
    assert forall|i: int|
        0 <= i < g.nodes.len() && (#[trigger] g.nodes[i]).is_root_module() implies i == 0 by {
        if i >= mods.len() {
            if i < mods.len() + types_nodes_acc(facts, opts, flen).len() {
                assert(g.nodes[i] == types_nodes_acc(facts, opts, flen)[i - mods.len()]);
            } else {
                assert(g.nodes[i] == uses_nodes_acc(facts, opts, flen)[i - mods.len()
                    - types_nodes_acc(facts, opts, flen).len()]);
            }
        } else {
            assert(g.nodes[i] == mods[i]);
            lemma_position(facts, opts, flen, i);
            if pre[i] != 0 {
                assert(!g.nodes[i].is_root_module());
            }
        }
    }
    assert(g.nodes[0].is_root_module());
    assert(g.unique_root());

    // Edge bounds, and ownership edges go forward.
    assert(facts.modules@.len() <= usize::MAX) by {
        assert(facts.modules.len() == facts.modules@.len());
    }
    assert(g.nodes.len() == module_count(facts, opts) + types_nodes_acc(facts, opts, flen).len()
        + uses_nodes_acc(facts, opts, flen).len());
    lemma_module_edges_bounds(facts, opts, flen);
    lemma_types_edges_acc_bounds(facts, opts, flen);
    lemma_uses_edges_acc_bounds(facts, opts, flen);
    let me = module_edges_upto(facts, opts, flen);
    let te = types_edges_acc(facts, opts, flen);
    let ue = uses_edges_acc(facts, opts, flen);
    assert forall|k: int| 0 <= k < g.edges.len() implies (#[trigger] g.edges[k]).source
        < g.nodes.len() && g.edges[k].target < g.nodes.len() && (g.edges[k].kind is Owns
        ==> g.edges[k].source < g.edges[k].target) by {
        if k < me.len() {
            assert(g.edges[k] == me[k]);
        } else if k < me.len() + te.len() {
            assert(g.edges[k] == te[k - me.len()]);
        } else {
            assert(g.edges[k] == ue[k - me.len() - te.len()]);
        }
    }
}

// ------------------------------------------------------------------
// What the graph holds, by membership: the ground for the option
// monotonicity law.
// ------------------------------------------------------------------

/// Inclusion of module facts reads only the test switch.
pub proof fn lemma_included_congruent(facts: UnitFacts, o1: Options, o2: Options, n: int)
    requires
        o1.with_tests == o2.with_tests,
    ensures
        included_upto(facts, o1, n) == included_upto(facts, o2, n),
    decreases n,
{
    if n > 0 {
        lemma_included_congruent(facts, o1, o2, n - 1);
    }
}

pub proof fn lemma_fact_included_congruent(facts: UnitFacts, o1: Options, o2: Options, i: int)
    requires
        o1.with_tests == o2.with_tests,
    ensures
        fact_included(facts, o1, i) == fact_included(facts, o2, i),
{
    lemma_included_congruent(facts, o1, o2, i);
}

/// What the module region holds.
pub proof fn lemma_module_nodes_contains(facts: UnitFacts, opts: Options, n: int, x: NodeV)
    ensures
        module_nodes_upto(facts, opts, n).contains(x) <==> exists|i: int|
            0 <= i < n && #[trigger] fact_included(facts, opts, i) && x == module_node(facts, i),
{
    let mods = module_nodes_upto(facts, opts, n);
    lemma_included_upto_elems(facts, opts, n);
    if mods.contains(x) {
        let k = choose|k: int| 0 <= k < mods.len() && #[trigger] mods[k] == x;
        lemma_position(facts, opts, n, k);
        assert(fact_included(facts, opts, included_upto(facts, opts, n)[k]) && x == module_node(
            facts,
            included_upto(facts, opts, n)[k],
        ));
    }
    if exists|i: int|
        0 <= i < n && #[trigger] fact_included(facts, opts, i) && x == module_node(facts, i) {
        let i = choose|i: int|
            0 <= i < n && #[trigger] fact_included(facts, opts, i) && x == module_node(facts, i);
        lemma_node_of(facts, opts, i, n);
        assert(mods[node_of(facts, opts, i)] == x);
    }
}

/// What the type region holds, for one module's items.
pub proof fn lemma_type_nodes_upto_contains(facts: UnitFacts, opts: Options, i: int, j: int, x: NodeV)
    requires
        j <= facts.modules@[i].items@.len(),
    ensures
        type_nodes_upto(facts, opts, i, j).contains(x) <==> exists|jj: int|
            0 <= jj < j && jj < facts.modules@[i].items@.len() && #[trigger] item_ok(
                opts,
                facts.modules@[i].items@[jj],
            ) && x == type_node(facts, i, jj),
    decreases j,
{
    if j > 0 {
        lemma_type_nodes_upto_contains(facts, opts, i, j - 1, x);
        let pre = type_nodes_upto(facts, opts, i, j - 1);
        let cur = type_nodes_upto(facts, opts, i, j);
        if item_ok(opts, facts.modules@[i].items@[j - 1]) {
            assert(cur == pre.push(type_node(facts, i, j - 1)));
            if pre.contains(x) {
                let k = choose|k: int| 0 <= k < pre.len() && #[trigger] pre[k] == x;
                assert(cur[k] == x);
            }
            if x == type_node(facts, i, j - 1) {
                assert(cur[pre.len() as int] == x);
            }
            if cur.contains(x) && !pre.contains(x) && x != type_node(facts, i, j - 1) {
                let k = choose|k: int| 0 <= k < cur.len() && #[trigger] cur[k] == x;
                assert(pre[k] == x);
            }
        }
    }
}

/// What the whole type region holds.
pub proof fn lemma_types_acc_contains(facts: UnitFacts, opts: Options, n: int, x: NodeV)
    ensures
        types_nodes_acc(facts, opts, n).contains(x) <==> exists|i: int, jj: int|
            0 <= i < n && fact_included(facts, opts, i) && 0 <= jj < facts.modules@[i].items@.len()
                && #[trigger] item_ok(opts, #[trigger] facts.modules@[i].items@[jj]) && x
                == type_node(facts, i, jj),
    decreases n,
{
    if n > 0 {
        lemma_types_acc_contains(facts, opts, n - 1, x);
        let pre = types_nodes_acc(facts, opts, n - 1);
        let cur = types_nodes_acc(facts, opts, n);
        if fact_included(facts, opts, n - 1) {
            let tail = type_nodes_upto(
                facts,
                opts,
                n - 1,
                facts.modules@[n - 1].items@.len() as int,
            );
            lemma_type_nodes_upto_contains(
                facts,
                opts,
                n - 1,
                facts.modules@[n - 1].items@.len() as int,
                x,
            );
            assert(cur == pre + tail);
            if pre.contains(x) {
                let k = choose|k: int| 0 <= k < pre.len() && #[trigger] pre[k] == x;
                assert(cur[k] == x);
            }
            if tail.contains(x) {
                let k = choose|k: int| 0 <= k < tail.len() && #[trigger] tail[k] == x;
                assert(cur[pre.len() + k] == x);
            }
            if cur.contains(x) && !pre.contains(x) && !tail.contains(x) {
                let k = choose|k: int| 0 <= k < cur.len() && #[trigger] cur[k] == x;
                if k < pre.len() {
                    assert(pre[k] == x);
                } else {
                    assert(tail[k - pre.len()] == x);
                }
            }
        }
    }
}

/// Whether one use contributes an orphan node.
pub open spec fn orphan_of_use(facts: UnitFacts, opts: Options, i: int, jj: int, x: NodeV) -> bool {
    let u = facts.modules@[i].uses@[jj];
    x == (NodeV::Orphan { label: u.label@ }) && (if u.is_external {
        opts.with_externs && opts.with_orphans
    } else {
        !resolves(facts, opts, u) && opts.with_orphans
    })
}

pub proof fn lemma_uses_nodes_upto_contains(
    facts: UnitFacts,
    opts: Options,
    i: int,
    j: int,
    x: NodeV,
)
    requires
        j <= facts.modules@[i].uses@.len(),
    ensures
        uses_nodes_upto(facts, opts, i, j).contains(x) <==> exists|jj: int|
            0 <= jj < j && jj < facts.modules@[i].uses@.len() && #[trigger] orphan_of_use(
                facts,
                opts,
                i,
                jj,
                x,
            ),
    decreases j,
{
    if j > 0 {
        lemma_uses_nodes_upto_contains(facts, opts, i, j - 1, x);
        let pre = uses_nodes_upto(facts, opts, i, j - 1);
        let cur = uses_nodes_upto(facts, opts, i, j);
        let tail = use_nodes(facts, opts, facts.modules@[i].uses@[j - 1]);
        assert(cur == pre + tail);
        if pre.contains(x) {
            let k = choose|k: int| 0 <= k < pre.len() && #[trigger] pre[k] == x;
            assert(cur[k] == x);
        }
        if tail.contains(x) {
            assert(tail[0] == x);
            assert(cur[pre.len() as int] == x);
            assert(orphan_of_use(facts, opts, i, j - 1, x));
        }
        if orphan_of_use(facts, opts, i, j - 1, x) {
            assert(tail[0] == x);
        }
        if cur.contains(x) && !pre.contains(x) && !tail.contains(x) {
            let k = choose|k: int| 0 <= k < cur.len() && #[trigger] cur[k] == x;
            if k < pre.len() {
                assert(pre[k] == x);
            } else {
                assert(tail[k - pre.len()] == x);
            }
        }
    }
}

pub proof fn lemma_uses_acc_contains(facts: UnitFacts, opts: Options, n: int, x: NodeV)
    ensures
        uses_nodes_acc(facts, opts, n).contains(x) <==> exists|i: int, jj: int|
            0 <= i < n && fact_included(facts, opts, i) && opts.with_uses && 0 <= jj
                < facts.modules@[i].uses@.len() && #[trigger] orphan_of_use(facts, opts, i, jj, x),
    decreases n,
{
    if n > 0 {
        lemma_uses_acc_contains(facts, opts, n - 1, x);
        let pre = uses_nodes_acc(facts, opts, n - 1);
        let cur = uses_nodes_acc(facts, opts, n);
        if fact_included(facts, opts, n - 1) && opts.with_uses {
            let tail = uses_nodes_upto(facts, opts, n - 1, facts.modules@[n - 1].uses@.len() as int);
            lemma_uses_nodes_upto_contains(
                facts,
                opts,
                n - 1,
                facts.modules@[n - 1].uses@.len() as int,
                x,
            );
            assert(cur == pre + tail);
            if pre.contains(x) {
                let k = choose|k: int| 0 <= k < pre.len() && #[trigger] pre[k] == x;
                assert(cur[k] == x);
            }
            if tail.contains(x) {
                let k = choose|k: int| 0 <= k < tail.len() && #[trigger] tail[k] == x;
                assert(cur[pre.len() + k] == x);
            }
            if cur.contains(x) && !pre.contains(x) && !tail.contains(x) {
                let k = choose|k: int| 0 <= k < cur.len() && #[trigger] cur[k] == x;
                if k < pre.len() {
                    assert(pre[k] == x);
                } else {
                    assert(tail[k - pre.len()] == x);
                }
            }
        }
    }
}

/// The node list holds exactly the three regions.
pub proof fn lemma_build_nodes_contains(facts: UnitFacts, opts: Options, x: NodeV)
    ensures
        build_spec(facts, opts).nodes.contains(x) <==> (module_nodes_upto(
            facts,
            opts,
            facts.modules@.len() as int,
        ).contains(x) || types_nodes_acc(facts, opts, facts.modules@.len() as int).contains(x)
            || uses_nodes_acc(facts, opts, facts.modules@.len() as int).contains(x)),
{
    let flen = facts.modules@.len() as int;
    let a = module_nodes_upto(facts, opts, flen);
    let b = types_nodes_acc(facts, opts, flen);
    let c = uses_nodes_acc(facts, opts, flen);
    let all = build_spec(facts, opts).nodes;
    if all.contains(x) {
        let k = choose|k: int| 0 <= k < all.len() && #[trigger] all[k] == x;
        if k < a.len() {
            assert(a[k] == x);
        } else if k < a.len() + b.len() {
            assert(b[k - a.len()] == x);
        } else {
            assert(c[k - a.len() - b.len()] == x);
        }
    }
    if a.contains(x) {
        let k = choose|k: int| 0 <= k < a.len() && #[trigger] a[k] == x;
        assert(all[k] == x);
    }
    if b.contains(x) {
        let k = choose|k: int| 0 <= k < b.len() && #[trigger] b[k] == x;
        assert(all[a.len() + k] == x);
    }
    if c.contains(x) {
        let k = choose|k: int| 0 <= k < c.len() && #[trigger] c[k] == x;
        assert(all[a.len() + b.len() + k] == x);
    }
}

/// `o1` asks for no more than `o2`, with the same treatment of
/// test-only entities.
pub open spec fn asks_no_more(o1: Options, o2: Options) -> bool {
    o1.with_tests == o2.with_tests && (o1.with_types ==> o2.with_types) && (o1.with_orphans
        ==> o2.with_orphans) && (o1.with_uses ==> o2.with_uses) && (o1.with_externs
        ==> o2.with_externs)
}

/// Law: switching off `with_types`, `with_orphans`, `with_uses` or
/// `with_externs` (in any combination, with the test switch held
/// fixed) builds a graph whose nodes all appear in the fuller graph.
pub proof fn lemma_options_monotone_nodes(facts: UnitFacts, o1: Options, o2: Options)
    requires
        asks_no_more(o1, o2),
    ensures
        forall|x: NodeV|
            #[trigger] build_spec(facts, o1).nodes.contains(x) ==> build_spec(
                facts,
                o2,
            ).nodes.contains(x),
{
    let flen = facts.modules@.len() as int;
    assert forall|x: NodeV| #[trigger] build_spec(facts, o1).nodes.contains(x) implies build_spec(
        facts,
        o2,
    ).nodes.contains(x) by {
        lemma_build_nodes_contains(facts, o1, x);
        lemma_build_nodes_contains(facts, o2, x);
        lemma_included_congruent(facts, o1, o2, flen);
        lemma_module_nodes_contains(facts, o1, flen, x);
        lemma_module_nodes_contains(facts, o2, flen, x);
        lemma_types_acc_contains(facts, o1, flen, x);
        lemma_types_acc_contains(facts, o2, flen, x);
        lemma_uses_acc_contains(facts, o1, flen, x);
        lemma_uses_acc_contains(facts, o2, flen, x);
        assert forall|i: int| 0 <= i < flen implies #[trigger] fact_included(facts, o1, i)
            == fact_included(facts, o2, i) by {
            lemma_fact_included_congruent(facts, o1, o2, i);
        }
        if types_nodes_acc(facts, o1, flen).contains(x) {
            let (i, jj) = choose|i: int, jj: int|
                0 <= i < flen && fact_included(facts, o1, i) && 0 <= jj < facts.modules@[i].items@.len() && #[trigger] item_ok(o1, #[trigger] facts.modules@[i].items@[jj])
                    && x == type_node(facts, i, jj);
            assert(item_ok(o2, facts.modules@[i].items@[jj]));
        }
        if uses_nodes_acc(facts, o1, flen).contains(x) {
            let (i, jj) = choose|i: int, jj: int|
                0 <= i < flen && fact_included(facts, o1, i) && o1.with_uses && 0 <= jj
                    < facts.modules@[i].uses@.len() && #[trigger] orphan_of_use(
                    facts,
                    o1,
                    i,
                    jj,
                    x,
                );
            assert(orphan_of_use(facts, o2, i, jj, x)) by {
                let u = facts.modules@[i].uses@[jj];
                if !u.is_external {
                    assert(resolves(facts, o1, u) == resolves(facts, o2, u)) by {
                        if resolves(facts, o1, u) {
                            let w = choose|w: int|
                                #[trigger] fact_included(facts, o1, w) && fact_path(facts, w)
                                    == u.target.deep_view();
                            assert(fact_included(facts, o2, w));
                        }
                        if resolves(facts, o2, u) {
                            let w = choose|w: int|
                                #[trigger] fact_included(facts, o2, w) && fact_path(facts, w)
                                    == u.target.deep_view();
                            assert(fact_included(facts, o1, w));
                        }
                    }
                }
            }
        }
    }
}

/// The module and type phases read nothing but the test and type
/// switches.
pub proof fn lemma_module_edges_congruent(facts: UnitFacts, o1: Options, o2: Options, n: int)
    requires
        o1.with_tests == o2.with_tests,
    ensures
        module_edges_upto(facts, o1, n) == module_edges_upto(facts, o2, n),
    decreases n,
{
    lemma_included_congruent(facts, o1, o2, n);
    if n > 0 {
        lemma_module_edges_congruent(facts, o1, o2, n - 1);
        lemma_fact_included_congruent(facts, o1, o2, n - 1);
        lemma_included_congruent(facts, o1, o2, n - 1);
        if fact_included(facts, o1, n - 1) && n - 1 > 0 {
            lemma_included_congruent(facts, o1, o2, parent_of(facts, n - 1));
        }
    }
}

pub proof fn lemma_types_congruent(facts: UnitFacts, o1: Options, o2: Options, n: int)
    requires
        o1.with_tests == o2.with_tests,
        o1.with_types == o2.with_types,
    ensures
        types_nodes_acc(facts, o1, n) == types_nodes_acc(facts, o2, n),
        types_edges_acc(facts, o1, n) == types_edges_acc(facts, o2, n),
    decreases n,
{
    lemma_included_congruent(facts, o1, o2, facts.modules@.len() as int);
    if n > 0 {
        lemma_types_congruent(facts, o1, o2, n - 1);
        lemma_fact_included_congruent(facts, o1, o2, n - 1);
        lemma_included_congruent(facts, o1, o2, n - 1);
        if fact_included(facts, o1, n - 1) {
            let jlen = facts.modules@[n - 1].items@.len() as int;
            lemma_type_parts_congruent(facts, o1, o2, n - 1, jlen);
        }
    }
}

pub proof fn lemma_type_parts_congruent(
    facts: UnitFacts,
    o1: Options,
    o2: Options,
    i: int,
    j: int,
)
    requires
        o1.with_tests == o2.with_tests,
        o1.with_types == o2.with_types,
    ensures
        type_nodes_upto(facts, o1, i, j) == type_nodes_upto(facts, o2, i, j),
        forall|src: int, base: int|
            #[trigger] type_edges_upto(facts, o1, i, j, src, base) == type_edges_upto(
                facts,
                o2,
                i,
                j,
                src,
                base,
            ),
    decreases j,
{
    if j > 0 {
        lemma_type_parts_congruent(facts, o1, o2, i, j - 1);
        assert forall|src: int, base: int|
            #[trigger] type_edges_upto(facts, o1, i, j, src, base) == type_edges_upto(
                facts,
                o2,
                i,
                j,
                src,
                base,
            ) by {
            assert(type_edges_upto(facts, o1, i, j - 1, src, base) == type_edges_upto(
                facts,
                o2,
                i,
                j - 1,
                src,
                base,
            ));
        }
    }
}

/// When the use phase is off it contributes nothing.
pub proof fn lemma_uses_off_empty(facts: UnitFacts, opts: Options, n: int)
    requires
        !opts.with_uses,
    ensures
        uses_nodes_acc(facts, opts, n) == Seq::<NodeV>::empty(),
        uses_edges_acc(facts, opts, n) == Seq::<Edge>::empty(),
    decreases n,
{
    if n > 0 {
        lemma_uses_off_empty(facts, opts, n - 1);
    }
}

/// Law: switching off `with_uses` (the other switches held fixed)
/// builds a graph whose node list and edge list are prefixes of the
/// fuller graph's, so its node set and its edge set — edges read as
/// (source node, target node, kind) triples — are subsets of the
/// fuller graph's.
pub proof fn lemma_uses_off_prefix(facts: UnitFacts, o1: Options, o2: Options)
    requires
        !o1.with_uses,
        build_spec(facts, o1).nodes.len() <= usize::MAX,
        o1.with_tests == o2.with_tests,
        o1.with_types == o2.with_types,
        o1.with_orphans == o2.with_orphans,
        o1.with_externs == o2.with_externs,
    ensures
        build_spec(facts, o1).nodes.is_prefix_of(build_spec(facts, o2).nodes),
        build_spec(facts, o1).edges.is_prefix_of(build_spec(facts, o2).edges),
        forall|t: int|
            0 <= t < build_spec(facts, o1).edges.len() ==> #[trigger] build_spec(
                facts,
                o1,
            ).edges[t] == build_spec(facts, o2).edges[t] && build_spec(facts, o1).edges[t].source
                < module_count(facts, o1) + types_nodes_acc(
                facts,
                o1,
                facts.modules@.len() as int,
            ).len() && build_spec(facts, o1).edges[t].target < module_count(facts, o1)
                + types_nodes_acc(facts, o1, facts.modules@.len() as int).len(),
{
    let flen = facts.modules@.len() as int;
    lemma_included_congruent(facts, o1, o2, flen);
    lemma_module_edges_congruent(facts, o1, o2, flen);
    lemma_types_congruent(facts, o1, o2, flen);
    lemma_uses_off_empty(facts, o1, flen);
    let g1 = build_spec(facts, o1);
    let g2 = build_spec(facts, o2);
    assert(g1.nodes =~= module_nodes_upto(facts, o1, flen) + types_nodes_acc(facts, o1, flen));
    assert(g1.edges =~= module_edges_upto(facts, o1, flen) + types_edges_acc(facts, o1, flen));
    assert(g1.nodes.is_prefix_of(g2.nodes)) by {
        assert(g2.nodes =~= g1.nodes + uses_nodes_acc(facts, o2, flen));
        assert(g1.nodes =~= g2.nodes.subrange(0, g1.nodes.len() as int));
    }
    assert(g1.edges.is_prefix_of(g2.edges)) by {
        assert(g2.edges =~= g1.edges + uses_edges_acc(facts, o2, flen));
        assert(g1.edges =~= g2.edges.subrange(0, g1.edges.len() as int));
    }
    assert(facts.modules@.len() <= usize::MAX) by {
        assert(facts.modules.len() == facts.modules@.len());
    }
    lemma_module_edges_bounds(facts, o1, flen);
    lemma_included_upto_elems(facts, o1, flen);
    assert(module_count(facts, o1) + types_nodes_acc(facts, o1, flen).len() <= usize::MAX);
    lemma_types_edges_acc_bounds(facts, o1, flen);
    assert forall|t: int| 0 <= t < g1.edges.len() implies #[trigger] g1.edges[t] == g2.edges[t]
        && g1.edges[t].source < module_count(facts, o1) + types_nodes_acc(facts, o1, flen).len()
        && g1.edges[t].target < module_count(facts, o1) + types_nodes_acc(facts, o1, flen).len() by {
        let me = module_edges_upto(facts, o1, flen);
        if t < me.len() {
            assert(g1.edges[t] == me[t]);
        } else {
            assert(g1.edges[t] == types_edges_acc(facts, o1, flen)[t - me.len()]);
        }
    }
}

/// The unit's module facts bear pairwise distinct qualified paths, as
/// the hierarchy of a real program unit does.
pub open spec fn distinct_fact_paths(facts: UnitFacts) -> bool {
    forall|i: int, j: int|
        0 <= i < facts.modules@.len() && 0 <= j < facts.modules@.len() && i != j ==> fact_path(
            facts,
            i,
        ) != fact_path(facts, j)
}

/// With distinct fact paths, admitting test-only modules only grows
/// the included set.
pub proof fn lemma_included_tests_monotone(facts: UnitFacts, o1: Options, o2: Options, i: int)
    requires
        distinct_fact_paths(facts),
        o1.with_tests ==> o2.with_tests,
        fact_included(facts, o1, i),
    ensures
        fact_included(facts, o2, i),
    decreases i,
{
    if i > 0 {
        match facts.modules@[i].parent {
            Some(p) => {
                lemma_included_upto_contains(facts, o1, i, p as int);
                lemma_included_tests_monotone(facts, o1, o2, p as int);
                lemma_included_upto_contains(facts, o2, i, p as int);
                let pre2 = included_upto(facts, o2, i);
                lemma_included_upto_elems(facts, o2, i);
                assert(!(exists|k: int|
                    0 <= k < pre2.len() && fact_path(facts, #[trigger] pre2[k]) == fact_path(
                        facts,
                        i,
                    ))) by {
                    if exists|k: int|
                        0 <= k < pre2.len() && fact_path(facts, #[trigger] pre2[k]) == fact_path(
                            facts,
                            i,
                        ) {
                        let k = choose|k: int|
                            0 <= k < pre2.len() && fact_path(facts, #[trigger] pre2[k])
                                == fact_path(facts, i);
                        assert(fact_path(facts, pre2[k]) != fact_path(facts, i));
                    }
                }
            },
            None => {},
        }
    }
}

/// Law, test switch: for a unit with distinct module paths and with
/// orphan placeholders off, excluding test-only entities builds a
/// graph whose nodes all appear in the graph that includes them.
/// (With orphans on the law can fail: a use of a test-only module
/// turns into an orphan node, present only in the smaller graph.)
pub proof fn lemma_tests_monotone_nodes(facts: UnitFacts, o1: Options, o2: Options)
    requires
        distinct_fact_paths(facts),
        o1.with_tests ==> o2.with_tests,
        o1.with_types == o2.with_types,
        o1.with_orphans == o2.with_orphans,
        o1.with_uses == o2.with_uses,
        o1.with_externs == o2.with_externs,
        !o1.with_orphans,
    ensures
        forall|x: NodeV|
            #[trigger] build_spec(facts, o1).nodes.contains(x) ==> build_spec(
                facts,
                o2,
            ).nodes.contains(x),
{
    let flen = facts.modules@.len() as int;
    assert forall|x: NodeV| #[trigger] build_spec(facts, o1).nodes.contains(x) implies build_spec(
        facts,
        o2,
    ).nodes.contains(x) by {
        lemma_build_nodes_contains(facts, o1, x);
        lemma_build_nodes_contains(facts, o2, x);
        lemma_module_nodes_contains(facts, o1, flen, x);
        lemma_module_nodes_contains(facts, o2, flen, x);
        lemma_types_acc_contains(facts, o1, flen, x);
        lemma_types_acc_contains(facts, o2, flen, x);
        lemma_uses_acc_contains(facts, o1, flen, x);
        lemma_uses_acc_contains(facts, o2, flen, x);
        if module_nodes_upto(facts, o1, flen).contains(x) {
            let i = choose|i: int|
                0 <= i < flen && #[trigger] fact_included(facts, o1, i) && x == module_node(
                    facts,
                    i,
                );
            lemma_included_tests_monotone(facts, o1, o2, i);
        }
        if types_nodes_acc(facts, o1, flen).contains(x) {
            let (i, jj) = choose|i: int, jj: int|
                0 <= i < flen && fact_included(facts, o1, i) && 0 <= jj < facts.modules@[i].items@.len() && #[trigger] item_ok(o1, #[trigger] facts.modules@[i].items@[jj])
                    && x == type_node(facts, i, jj);
            lemma_included_tests_monotone(facts, o1, o2, i);
            assert(item_ok(o2, facts.modules@[i].items@[jj]));
        }
        if uses_nodes_acc(facts, o1, flen).contains(x) {
            let (i, jj) = choose|i: int, jj: int|
                0 <= i < flen && fact_included(facts, o1, i) && o1.with_uses && 0 <= jj
                    < facts.modules@[i].uses@.len() && #[trigger] orphan_of_use(
                    facts,
                    o1,
                    i,
                    jj,
                    x,
                );
            assert(false);
        }
    }
}

/// With orphans off, a module's uses contribute exactly the edges to
/// the targets that resolve.
pub proof fn lemma_uses_edges_no_orphans(
    facts: UnitFacts,
    opts: Options,
    i: int,
    j: int,
    src: int,
    base: int,
    e: Edge,
)
    requires
        !opts.with_orphans,
        j <= facts.modules@[i].uses@.len(),
    ensures
        uses_edges_upto(facts, opts, i, j, src, base).contains(e) <==> exists|jj: int|
            0 <= jj < j && #[trigger] resolves(facts, opts, facts.modules@[i].uses@[jj]) && e == (
            Edge {
                source: src as usize,
                target: resolved_node(facts, opts, facts.modules@[i].uses@[jj]) as usize,
                kind: EdgeKind::Uses,
            }),
    decreases j,
{
    if j > 0 {
        lemma_uses_edges_no_orphans(facts, opts, i, j - 1, src, base, e);
        let pre = uses_edges_upto(facts, opts, i, j - 1, src, base);
        let cur = uses_edges_upto(facts, opts, i, j, src, base);
        let u = facts.modules@[i].uses@[j - 1];
        let tail = use_edges(facts, opts, u, src, base + uses_nodes_upto(facts, opts, i, j - 1).len());
        assert(cur == pre + tail);
        if pre.contains(e) {
            let k = choose|k: int| 0 <= k < pre.len() && #[trigger] pre[k] == e;
            assert(cur[k] == e);
        }
        if tail.contains(e) {
            assert(tail[0] == e);
            assert(cur[pre.len() as int] == e);
        }
        if resolves(facts, opts, u) && e == (Edge {
            source: src as usize,
            target: resolved_node(facts, opts, u) as usize,
            kind: EdgeKind::Uses,
        }) {
            assert(tail[0] == e);
            assert(cur[pre.len() as int] == e);
        }
        if cur.contains(e) && !pre.contains(e) && !tail.contains(e) {
            let k = choose|k: int| 0 <= k < cur.len() && #[trigger] cur[k] == e;
            if k < pre.len() {
                assert(pre[k] == e);
            } else {
                assert(tail[k - pre.len()] == e);
            }
        }
    }
}

/// A resolving use always leaves its edge in the list, wherever the
/// orphan region starts.
pub proof fn lemma_resolved_edge_present(
    facts: UnitFacts,
    opts: Options,
    i: int,
    j: int,
    jj: int,
    src: int,
    base: int,
)
    requires
        0 <= jj < j <= facts.modules@[i].uses@.len(),
        resolves(facts, opts, facts.modules@[i].uses@[jj]),
    ensures
        uses_edges_upto(facts, opts, i, j, src, base).contains(
            Edge {
                source: src as usize,
                target: resolved_node(facts, opts, facts.modules@[i].uses@[jj]) as usize,
                kind: EdgeKind::Uses,
            },
        ),
    decreases j,
{
    let e = Edge {
        source: src as usize,
        target: resolved_node(facts, opts, facts.modules@[i].uses@[jj]) as usize,
        kind: EdgeKind::Uses,
    };
    let pre = uses_edges_upto(facts, opts, i, j - 1, src, base);
    let cur = uses_edges_upto(facts, opts, i, j, src, base);
    if jj == j - 1 {
        let u = facts.modules@[i].uses@[j - 1];
        let tail = use_edges(facts, opts, u, src, base + uses_nodes_upto(facts, opts, i, j - 1).len());
        assert(tail[0] == e);
        assert(cur[pre.len() as int] == e);
    } else {
        lemma_resolved_edge_present(facts, opts, i, j - 1, jj, src, base);
        let k = choose|k: int| 0 <= k < pre.len() && #[trigger] pre[k] == e;
        assert(cur[k] == e);
    }
}

pub proof fn lemma_uses_acc_edge_monotone(facts: UnitFacts, o1: Options, o2: Options, n: int, e: Edge)
    requires
        !o1.with_orphans,
        o1.with_tests == o2.with_tests,
        o1.with_uses == o2.with_uses,
        n <= facts.modules@.len(),
        uses_edges_acc(facts, o1, n).contains(e),
    ensures
        uses_edges_acc(facts, o2, n).contains(e),
    decreases n,
{
    lemma_included_congruent(facts, o1, o2, facts.modules@.len() as int);
    if n > 0 {
        let pre1 = uses_edges_acc(facts, o1, n - 1);
        let cur1 = uses_edges_acc(facts, o1, n);
        let pre2 = uses_edges_acc(facts, o2, n - 1);
        let cur2 = uses_edges_acc(facts, o2, n);
        lemma_fact_included_congruent(facts, o1, o2, n - 1);
        lemma_included_congruent(facts, o1, o2, n - 1);
        let jlen = facts.modules@[n - 1].uses@.len() as int;
        if fact_included(facts, o1, n - 1) && o1.with_uses {
            let src = node_of(facts, o1, n - 1);
            let base1 = orphan_base(facts, o1) + uses_nodes_acc(facts, o1, n - 1).len();
            let base2 = orphan_base(facts, o2) + uses_nodes_acc(facts, o2, n - 1).len();
            let tail1 = uses_edges_upto(facts, o1, n - 1, jlen, src, base1);
            let tail2 = uses_edges_upto(facts, o2, n - 1, jlen, src, base2);
            assert(cur1 == pre1 + tail1);
            assert(cur2 == pre2 + tail2);
            let k = choose|k: int| 0 <= k < cur1.len() && #[trigger] cur1[k] == e;
            if k < pre1.len() {
                assert(pre1.contains(e)) by {
                    assert(pre1[k] == e);
                }
                lemma_uses_acc_edge_monotone(facts, o1, o2, n - 1, e);
                let k2 = choose|k2: int| 0 <= k2 < pre2.len() && #[trigger] pre2[k2] == e;
                assert(cur2[k2] == e);
            } else {
                assert(tail1.contains(e)) by {
                    assert(tail1[k - pre1.len()] == e);
                }
                lemma_uses_edges_no_orphans(facts, o1, n - 1, jlen, src, base1, e);
                let jj = choose|jj: int|
                    0 <= jj < jlen && #[trigger] resolves(facts, o1, facts.modules@[n - 1].uses@[jj])
                        && e == (Edge {
                        source: src as usize,
                        target: resolved_node(facts, o1, facts.modules@[n - 1].uses@[jj]) as usize,
                        kind: EdgeKind::Uses,
                    });
                let u = facts.modules@[n - 1].uses@[jj];
                assert(resolves(facts, o2, u) && resolved_node(facts, o2, u) == resolved_node(
                    facts,
                    o1,
                    u,
                )) by {
                    let w = choose|w: int|
                        #[trigger] fact_included(facts, o1, w) && fact_path(facts, w)
                            == u.target.deep_view();
                    lemma_fact_included_congruent(facts, o1, o2, w);
                    let w1 = choose|w1: int|
                        #[trigger] fact_included(facts, o1, w1) && fact_path(facts, w1)
                            == u.target.deep_view();
                    let w2 = choose|w2: int|
                        #[trigger] fact_included(facts, o2, w2) && fact_path(facts, w2)
                            == u.target.deep_view();
                    lemma_fact_included_congruent(facts, o1, o2, w2);
                    if w1 != w2 {
                        lemma_included_paths_distinct(facts, o1, w1, w2);
                    }
                    lemma_included_congruent(facts, o1, o2, w1);
                }
                lemma_resolved_edge_present(facts, o2, n - 1, jlen, jj, src, base2);
                let k2 = choose|k2: int| 0 <= k2 < tail2.len() && #[trigger] tail2[k2] == e;
                assert(cur2[pre2.len() + k2] == e);
            }
        } else {
            lemma_uses_acc_edge_monotone(facts, o1, o2, n - 1, e);
            let k2 = choose|k2: int| 0 <= k2 < pre2.len() && #[trigger] pre2[k2] == e;
            assert(cur2[k2] == e);
        }
    }
}

/// Law, orphan switch and edges: with orphan placeholders off, every
/// edge of the built graph appears, with the same node indices, in
/// the graph built with them on: the module and type regions coincide,
/// and surviving use edges point at module nodes, which sit at the
/// same indices in both graphs.
pub proof fn lemma_orphans_off_edges(facts: UnitFacts, o1: Options, o2: Options)
    requires
        !o1.with_orphans,
        o1.with_tests == o2.with_tests,
        o1.with_types == o2.with_types,
        o1.with_uses == o2.with_uses,
    ensures
        forall|e: Edge|
            #[trigger] build_spec(facts, o1).edges.contains(e) ==> build_spec(
                facts,
                o2,
            ).edges.contains(e),
{
    let flen = facts.modules@.len() as int;
    lemma_module_edges_congruent(facts, o1, o2, flen);
    lemma_types_congruent(facts, o1, o2, flen);
    let me = module_edges_upto(facts, o1, flen);
    let te = types_edges_acc(facts, o1, flen);
    assert forall|e: Edge| #[trigger] build_spec(facts, o1).edges.contains(e) implies build_spec(
        facts,
        o2,
    ).edges.contains(e) by {
        let all1 = build_spec(facts, o1).edges;
        let all2 = build_spec(facts, o2).edges;
        let k = choose|k: int| 0 <= k < all1.len() && #[trigger] all1[k] == e;
        if k < me.len() + te.len() {
            assert(all2[k] == e);
        } else {
            assert(uses_edges_acc(facts, o1, flen).contains(e)) by {
                assert(uses_edges_acc(facts, o1, flen)[k - me.len() - te.len()] == e);
            }
            lemma_uses_acc_edge_monotone(facts, o1, o2, flen, e);
            let k2 = choose|k2: int|
                0 <= k2 < uses_edges_acc(facts, o2, flen).len() && #[trigger] uses_edges_acc(
                    facts,
                    o2,
                    flen,
                )[k2] == e;
            assert(all2[me.len() + te.len() + k2] == e);
        }
    }
}

} // verus!
