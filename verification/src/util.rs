//! The path resolver and the graph shrinker.
//!
//! The resolver maps a qualified path to the unique module node bearing
//! it.  The shrinker extracts the subgraph of all nodes within a hop
//! bound of a start node, counting every edge kind in either direction
//! as one hop, and keeps exactly the edges whose endpoints both survive.

use vstd::prelude::*;
use vstd::pervasive::VecAdditionalExecFns;
use vstd::string::StringExecFns;

use crate::error::Error;
use crate::graph::{Edge, Graph, GraphV, Node};

verus! {

/// The dotted rendering of a qualified path: segments joined by `::`.
pub open spec fn joined(segs: Seq<Seq<char>>) -> Seq<char>
    decreases segs.len(),
{
    if segs.len() == 0 {
        Seq::empty()
    } else if segs.len() == 1 {
        segs[0]
    } else {
        joined(segs.drop_last()) + "::"@ + segs.last()
    }
}

/// Join a path's segments with `::`, for diagnostics.
pub fn join_path(path: &Vec<String>) -> (r: String)
    ensures
        r@ == joined(path.deep_view()),
{
    let mut r = String::new();
    let mut i: usize = 0;
    while i < path.len()
        invariant
            i <= path@.len(),
            r@ == joined(path.deep_view().take(i as int)),
        decreases path@.len() - i,
    {
        if i > 0 {
            r.append("::");
        }
        r.append(path[i].as_str());
        proof {
            let dv = path.deep_view();
            assert(dv.take(i + 1).drop_last() =~= dv.take(i as int));
            assert(dv.take(i + 1).last() == dv[i as int]);
            assert(r@ =~= joined(dv.take(i + 1)));
        }
        i = i + 1;
    }
    proof {
        assert(path.deep_view().take(path@.len() as int) =~= path.deep_view());
    }
    r
}

/// Whether node `i` of the graph is a module bearing path `p`.
pub open spec fn matches_path(g: GraphV, i: int, p: Seq<Seq<char>>) -> bool {
    g.is_module_at(i) && g.nodes[i].path() == p
}

/// Find the index of the unique module node whose qualified path is
/// `path`.  Fails with `PathNotFound` when no module bears the path and
/// with `AmbiguousPath` when more than one does; both errors name the
/// dotted path.
pub fn idx_of_node_with_path(graph: &Graph, path: &Vec<String>) -> (r: Result<usize, Error>)
    ensures
        match r {
            Ok(i) => matches_path(graph@, i as int, path.deep_view()) && (forall|j: int|
                #[trigger] matches_path(graph@, j, path.deep_view()) ==> j == i),
            Err(e) => match e {
                Error::PathNotFound(p) => p@ == joined(path.deep_view()) && (forall|j: int|
                    !#[trigger] matches_path(graph@, j, path.deep_view())),
                Error::AmbiguousPath(p) => p@ == joined(path.deep_view()) && (exists|
                    j1: int,
                    j2: int,
                |
                    j1 != j2 && #[trigger] matches_path(graph@, j1, path.deep_view())
                        && #[trigger] matches_path(graph@, j2, path.deep_view())),
                _ => false,
            },
        },
{
    let n = graph.nodes.len();
    let mut first: Option<usize> = None;
    let mut k: usize = 0;
    while k < n
        invariant
            n == graph@.nodes.len(),
            k <= n,
            match first {
                Some(f) => f < k && matches_path(graph@, f as int, path.deep_view()) && (forall|
                    j: int,
                |
                    0 <= j < k && #[trigger] matches_path(graph@, j, path.deep_view()) ==> j
                        == f),
                None => forall|j: int|
                    0 <= j < k ==> !#[trigger] matches_path(graph@, j, path.deep_view()),
            },
        decreases n - k,
    {
        if crate::graph::is_module_with_path(&graph.nodes[k], path) {
            match first {
                Some(f) => {
                    // A second module with the same path: defended
                    // against, though a built graph never has one.
                    proof {
                        assert(f != k && matches_path(graph@, f as int, path.deep_view())
                            && matches_path(graph@, k as int, path.deep_view()));
                    }
                    return Err(Error::AmbiguousPath(join_path(path)));
                },
                None => {
                    first = Some(k);
                },
            }
        }
        k = k + 1;
    }
    match first {
        Some(f) => Ok(f),
        None => Err(Error::PathNotFound(join_path(path))),
    }
}

// ------------------------------------------------------------------
// The shrinker.
// ------------------------------------------------------------------

/// Whether node `v` lies within `k` hops of `s`, walking edges of any
/// kind in either direction.
pub open spec fn within(g: GraphV, s: int, k: int, v: int) -> bool
    decreases k,
{
    if k <= 0 {
        v == s
    } else {
        within(g, s, k - 1, v) || exists|t: int|
            0 <= t < g.edges.len() && (((#[trigger] g.edges[t]).source == v && within(
                g,
                s,
                k - 1,
                g.edges[t].target as int,
            )) || (g.edges[t].target == v && within(g, s, k - 1, g.edges[t].source as int)))
    }
}

/// Hop counts only grow the reachable set.
pub proof fn lemma_within_mono(g: GraphV, s: int, k1: int, k2: int, v: int)
    requires
        0 <= k1 <= k2,
        within(g, s, k1, v),
    ensures
        within(g, s, k2, v),
    decreases k2,
{
    if k1 < k2 {
        lemma_within_mono(g, s, k1, k2 - 1, v);
    }
}

/// Outside the node range nothing is reachable.
pub proof fn lemma_within_range(g: GraphV, s: int, k: int, v: int)
    requires
        g.wf(),
        0 <= s < g.nodes.len(),
        !(0 <= v < g.nodes.len()),
    ensures
        !within(g, s, k, v),
    decreases k,
{
    if k > 0 {
        lemma_within_range(g, s, k - 1, v);
    }
}

/// Once one more hop adds nothing, no number of further hops does.
pub proof fn lemma_within_stable(g: GraphV, s: int, r: int, k: int)
    requires
        0 <= r <= k,
        forall|v: int| #[trigger] within(g, s, r + 1, v) <==> within(g, s, r, v),
    ensures
        forall|v: int| #[trigger] within(g, s, k, v) <==> within(g, s, r, v),
    decreases k,
{
    if k > r {
        lemma_within_stable(g, s, r, k - 1);
        assert forall|v: int| #[trigger] within(g, s, k, v) implies within(g, s, r, v) by {
            if !within(g, s, k - 1, v) {
                let t = choose|t: int|
                    0 <= t < g.edges.len() && (((#[trigger] g.edges[t]).source == v && within(
                        g,
                        s,
                        k - 1,
                        g.edges[t].target as int,
                    )) || (g.edges[t].target == v && within(g, s, k - 1, g.edges[t].source as int)));
                assert(within(g, s, r + 1, v));
            }
        }
        assert forall|v: int| within(g, s, r, v) implies #[trigger] within(g, s, k, v) by {
            assert(within(g, s, k - 1, v));
        }
    }
}

/// The node indices kept by a shrink at depth `d`, below `n`, in order.
pub open spec fn kept_upto(g: GraphV, s: int, d: int, n: int) -> Seq<int>
    decreases n,
{
    if n <= 0 {
        Seq::empty()
    } else {
        let pre = kept_upto(g, s, d, n - 1);
        if within(g, s, d, n - 1) {
            pre.push(n - 1)
        } else {
            pre
        }
    }
}

pub open spec fn kept(g: GraphV, s: int, d: int) -> Seq<int> {
    kept_upto(g, s, d, g.nodes.len() as int)
}

/// The index a surviving node moves to.
pub open spec fn rank(g: GraphV, s: int, d: int, v: int) -> int {
    kept_upto(g, s, d, v).len() as int
}

/// The surviving edges, with both endpoints remapped to their ranks,
/// in the original edge order.
pub open spec fn shrunk_edges_upto(g: GraphV, s: int, d: int, m: int) -> Seq<Edge>
    decreases m,
{
    if m <= 0 {
        Seq::empty()
    } else {
        let pre = shrunk_edges_upto(g, s, d, m - 1);
        let e = g.edges[m - 1];
        if within(g, s, d, e.source as int) && within(g, s, d, e.target as int) {
            pre.push(
                Edge {
                    source: rank(g, s, d, e.source as int) as usize,
                    target: rank(g, s, d, e.target as int) as usize,
                    kind: e.kind,
                },
            )
        } else {
            pre
        }
    }
}

/// The subgraph of everything within `d` hops of `s`: exactly the
/// surviving nodes, in their original order, and every edge whose two
/// endpoints survive.
pub open spec fn shrink_spec(g: GraphV, s: int, d: int) -> GraphV {
    GraphV {
        nodes: kept(g, s, d).map_values(|v: int| g.nodes[v]),
        edges: shrunk_edges_upto(g, s, d, g.edges.len() as int),
    }
}

pub proof fn lemma_kept_elems(g: GraphV, s: int, d: int, n: int)
    ensures
        n <= 0 ==> kept_upto(g, s, d, n).len() == 0,
        n > 0 ==> kept_upto(g, s, d, n).len() <= n,
        forall|k: int|
            0 <= k < kept_upto(g, s, d, n).len() ==> 0 <= #[trigger] kept_upto(g, s, d, n)[k] < n,
        forall|k1: int, k2: int|
            0 <= k1 < k2 < kept_upto(g, s, d, n).len() ==> kept_upto(g, s, d, n)[k1] < kept_upto(
                g,
                s,
                d,
                n,
            )[k2],
    decreases n,
{
    if n > 0 {
        lemma_kept_elems(g, s, d, n - 1);
    }
}

pub proof fn lemma_kept_prefix(g: GraphV, s: int, d: int, m: int, n: int)
    requires
        m <= n,
    ensures
        kept_upto(g, s, d, m).is_prefix_of(kept_upto(g, s, d, n)),
    decreases n - m,
{
    if m < n {
        lemma_kept_prefix(g, s, d, m, n - 1);
    }
}

pub proof fn lemma_kept_contains(g: GraphV, s: int, d: int, n: int, v: int)
    requires
        0 <= v < n,
    ensures
        kept_upto(g, s, d, n).contains(v) <==> within(g, s, d, v),
    decreases n,
{
    lemma_kept_elems(g, s, d, n - 1);
    if v < n - 1 {
        lemma_kept_contains(g, s, d, n - 1, v);
        if within(g, s, d, n - 1) {
            assert(kept_upto(g, s, d, n) == kept_upto(g, s, d, n - 1).push(n - 1));
            assert(kept_upto(g, s, d, n).contains(v) <==> kept_upto(g, s, d, n - 1).contains(v)
                || v == n - 1) by {
                if kept_upto(g, s, d, n - 1).contains(v) {
                    let k = choose|k: int|
                        0 <= k < kept_upto(g, s, d, n - 1).len() && #[trigger] kept_upto(
                            g,
                            s,
                            d,
                            n - 1,
                        )[k] == v;
                    assert(kept_upto(g, s, d, n)[k] == v);
                }
            }
        }
    } else {
        if within(g, s, d, v) {
            assert(kept_upto(g, s, d, n)[kept_upto(g, s, d, n - 1).len() as int] == v);
        } else {
            if kept_upto(g, s, d, n).contains(v) {
                let k = choose|k: int|
                    0 <= k < kept_upto(g, s, d, n).len() && #[trigger] kept_upto(g, s, d, n)[k]
                        == v;
                assert(kept_upto(g, s, d, n - 1)[k] == v);
                assert(false);
            }
        }
    }
}

/// A surviving node's rank is its position among the kept indices.
pub proof fn lemma_kept_rank(g: GraphV, s: int, d: int, v: int, n: int)
    requires
        0 <= v < n,
        within(g, s, d, v),
    ensures
        rank(g, s, d, v) < kept_upto(g, s, d, n).len(),
        kept_upto(g, s, d, n)[rank(g, s, d, v)] == v,
{
    assert(kept_upto(g, s, d, v + 1) == kept_upto(g, s, d, v).push(v));
    lemma_kept_prefix(g, s, d, v + 1, n);
    assert(kept_upto(g, s, d, n)[rank(g, s, d, v)] == kept_upto(g, s, d, v + 1)[rank(g, s, d, v)]);
}

/// Conversely, the kept index at position `k` has rank `k`.
pub proof fn lemma_kept_position(g: GraphV, s: int, d: int, n: int, k: int)
    requires
        0 <= k < kept_upto(g, s, d, n).len(),
    ensures
        within(g, s, d, kept_upto(g, s, d, n)[k]),
        rank(g, s, d, kept_upto(g, s, d, n)[k]) == k,
        0 <= kept_upto(g, s, d, n)[k] < n,
    decreases n,
{
    if n <= 0 {
    } else {
        let pre = kept_upto(g, s, d, n - 1);
        lemma_kept_elems(g, s, d, n - 1);
        if within(g, s, d, n - 1) && k == pre.len() {
            assert(kept_upto(g, s, d, n)[k] == n - 1);
        } else {
            lemma_kept_position(g, s, d, n - 1, k);
        }
    }
}

/// One step of the kept-node layout.
pub proof fn lemma_kept_nodes_step(g: GraphV, s: int, d: int, n: int)
    requires
        n >= 0,
    ensures
        within(g, s, d, n) ==> kept_upto(g, s, d, n + 1).map_values(|u: int| g.nodes[u])
            == kept_upto(g, s, d, n).map_values(|u: int| g.nodes[u]).push(g.nodes[n]),
        !within(g, s, d, n) ==> kept_upto(g, s, d, n + 1).map_values(|u: int| g.nodes[u])
            == kept_upto(g, s, d, n).map_values(|u: int| g.nodes[u]),
{
    let pre = kept_upto(g, s, d, n);
    if within(g, s, d, n) {
        assert(kept_upto(g, s, d, n + 1) == pre.push(n));
        let lhs = kept_upto(g, s, d, n + 1).map_values(|u: int| g.nodes[u]);
        let rhs = pre.map_values(|u: int| g.nodes[u]).push(g.nodes[n]);
        assert forall|k: int| 0 <= k < lhs.len() implies lhs[k] == rhs[k] by {
            if k < pre.len() {
                assert(pre.push(n)[k] == pre[k]);
            } else {
                assert(pre.push(n)[k] == n);
            }
        }
        assert(lhs =~= rhs);
    } else {
        assert(kept_upto(g, s, d, n + 1) == pre);
    }
}

/// Prune the graph in place to the nodes within `max_depth` hops of
/// `start` (every hop bound is counted over all edge kinds, in either
/// direction), keeping exactly the edges whose endpoints both survive,
/// in their original order.  Returns the start node's new index.
pub fn shrink_graph(graph: &mut Graph, start: usize, max_depth: usize) -> (new_start: usize)
    requires
        old(graph)@.wf(),
        start < old(graph)@.nodes.len(),
    ensures
        final(graph)@ == shrink_spec(old(graph)@, start as int, max_depth as int),
        new_start as int == rank(old(graph)@, start as int, max_depth as int, start as int),
        new_start < final(graph)@.nodes.len(),
        final(graph)@.nodes[new_start as int] == old(graph)@.nodes[start as int],
{
    let ghost g0 = graph@;
    let ghost s = start as int;
    let ghost d = max_depth as int;
    let n = graph.nodes.len();
    let mut cur: Vec<bool> = Vec::new();
    let mut v: usize = 0;
    while v < n
        invariant
            cur@.len() == v,
            v <= n,
            forall|u: int| 0 <= u < v ==> !(#[trigger] cur@[u]),
        decreases n - v,
    {
        cur.push(false);
        v = v + 1;
    }
    cur.set(start, true);
    proof {
        assert(forall|u: int| 0 <= u < n ==> ((#[trigger] cur@[u]) <==> within(g0, s, 0, u)));
    }
    let mut round: usize = 0;
    let mut fixed = false;
    while round < max_depth && !fixed
        invariant
            g0 == graph@,
            g0.wf(),
            s == start as int,
            d == max_depth as int,
            n == g0.nodes.len(),
            start < n,
            cur@.len() == n,
            round <= max_depth,
            !fixed ==> forall|u: int|
                0 <= u < n ==> ((#[trigger] cur@[u]) <==> within(g0, s, round as int, u)),
            fixed ==> forall|u: int| 0 <= u < n ==> ((#[trigger] cur@[u]) <==> within(g0, s, d, u)),
        decreases max_depth - round + (if fixed { 0int } else { 1int }),
    {
        let mut next: Vec<bool> = Vec::new();
        let mut v2: usize = 0;
        while v2 < n
            invariant
                next@.len() == v2,
                v2 <= n,
                cur@.len() == n,
                forall|u: int| 0 <= u < v2 ==> #[trigger] next@[u] == cur@[u],
            decreases n - v2,
        {
            next.push(cur[v2]);
            v2 = v2 + 1;
        }
        let mut changed = false;
        let mut t: usize = 0;
        while t < graph.edges.len()
            invariant
                g0 == graph@,
                g0.wf(),
                n == g0.nodes.len(),
                cur@.len() == n,
                next@.len() == n,
                t <= g0.edges.len(),
                forall|u: int|
                    0 <= u < n ==> ((#[trigger] next@[u]) <==> (cur@[u] || exists|tt: int|
                        0 <= tt < t && (((#[trigger] g0.edges[tt]).source == u && cur@[g0.edges[tt].target as int]) || (g0.edges[tt].target == u && cur@[g0.edges[tt].source as int])))),
                !changed ==> forall|u: int| 0 <= u < n ==> #[trigger] next@[u] == cur@[u],
            decreases g0.edges.len() - t,
        {
            let e = graph.edges[t];
            if cur[e.source] && !next[e.target] {
                next.set(e.target, true);
                changed = true;
            }
            if cur[e.target] && !next[e.source] {
                next.set(e.source, true);
                changed = true;
            }
            t = t + 1;
            proof {
                assert forall|u: int| 0 <= u < n implies ((#[trigger] next@[u]) <==> (cur@[u]
                    || exists|tt: int|
                    0 <= tt < t && (((#[trigger] g0.edges[tt]).source == u && cur@[g0.edges[tt].target as int]) || (g0.edges[tt].target == u && cur@[g0.edges[tt].source as int])))) by {
                    if next@[u] && !cur@[u] {
                    }
                    if !next@[u] {
                    }
                }
            }
        }
        proof {
            assert forall|u: int| 0 <= u < n implies ((#[trigger] next@[u]) <==> within(
                g0,
                s,
                round + 1,
                u,
            )) by {
                if next@[u] {
                    if !cur@[u] {
                        let tt = choose|tt: int|
                            0 <= tt < g0.edges.len() && (((#[trigger] g0.edges[tt]).source == u
                                && cur@[g0.edges[tt].target as int]) || (g0.edges[tt].target == u
                                && cur@[g0.edges[tt].source as int]));
                        assert(within(g0, s, round + 1, u));
                    }
                }
                if within(g0, s, round + 1, u) && !within(g0, s, round as int, u) {
                    let tt = choose|tt: int|
                        0 <= tt < g0.edges.len() && (((#[trigger] g0.edges[tt]).source == u
                            && within(g0, s, round as int, g0.edges[tt].target as int)) || (
                        g0.edges[tt].target == u && within(
                            g0,
                            s,
                            round as int,
                            g0.edges[tt].source as int,
                        )));
                    assert(next@[u]);
                }
            }
        }
        if !changed {
            proof {
                assert forall|u: int| #[trigger] within(g0, s, round + 1, u) <==> within(
                    g0,
                    s,
                    round as int,
                    u,
                ) by {
                    if 0 <= u < n {
                        assert(next@[u] == cur@[u]);
                    } else {
                        lemma_within_range(g0, s, round + 1, u);
                        lemma_within_range(g0, s, round as int, u);
                    }
                }
                lemma_within_stable(g0, s, round as int, d);
            }
            fixed = true;
        } else {
            cur = next;
            round = round + 1;
        }
    }
    proof {
        assert(forall|u: int| 0 <= u < n ==> ((#[trigger] cur@[u]) <==> within(g0, s, d, u)));
    }

    // Keep the surviving nodes, in order, remembering each one's new
    // index.
    let mut new_nodes: Vec<Node> = Vec::new();
    let mut remap: Vec<Option<usize>> = Vec::new();
    let mut v3: usize = 0;
    while v3 < n
        invariant
            g0 == graph@,
            n == g0.nodes.len(),
            cur@.len() == n,
            forall|u: int| 0 <= u < n ==> ((#[trigger] cur@[u]) <==> within(g0, s, d, u)),
            v3 <= n,
            remap@.len() == v3,
            new_nodes.deep_view() == kept_upto(g0, s, d, v3 as int).map_values(
                |u: int| g0.nodes[u],
            ),
            new_nodes@.len() == kept_upto(g0, s, d, v3 as int).len(),
            forall|u: int|
                0 <= u < v3 ==> ((#[trigger] remap@[u]) is Some <==> within(g0, s, d, u)),
            forall|u: int|
                0 <= u < v3 && remap@[u] is Some ==> remap@[u] == Some(rank(g0, s, d, u) as usize),
        decreases n - v3,
    {
        let ghost pre = kept_upto(g0, s, d, v3 as int);
        proof {
            lemma_kept_elems(g0, s, d, v3 as int);
            lemma_kept_nodes_step(g0, s, d, v3 as int);
        }
        if cur[v3] {
            remap.push(Some(new_nodes.len()));
            let nn = crate::graph::clone_node(&graph.nodes[v3]);
            new_nodes.push(nn);
            proof {
                assert(kept_upto(g0, s, d, v3 + 1) == pre.push(v3 as int));
                assert(new_nodes.deep_view() =~= kept_upto(g0, s, d, v3 + 1).map_values(
                    |u: int| g0.nodes[u],
                ));
            }
        } else {
            remap.push(None);
            proof {
                assert(kept_upto(g0, s, d, v3 + 1) == pre);
            }
        }
        v3 = v3 + 1;
    }

    // Keep the edges whose endpoints both survive, remapped.
    let mut new_edges: Vec<Edge> = Vec::new();
    let mut t2: usize = 0;
    while t2 < graph.edges.len()
        invariant
            g0 == graph@,
            g0.wf(),
            n == g0.nodes.len(),
            cur@.len() == n,
            forall|u: int| 0 <= u < n ==> ((#[trigger] cur@[u]) <==> within(g0, s, d, u)),
            remap@.len() == n,
            forall|u: int| 0 <= u < n ==> ((#[trigger] remap@[u]) is Some <==> within(g0, s, d, u)),
            forall|u: int|
                0 <= u < n && remap@[u] is Some ==> remap@[u] == Some(rank(g0, s, d, u) as usize),
            t2 <= g0.edges.len(),
            new_edges@ == shrunk_edges_upto(g0, s, d, t2 as int),
        decreases g0.edges.len() - t2,
    {
        let e = graph.edges[t2];
        if cur[e.source] && cur[e.target] {
            match remap[e.source] {
                Some(a) => match remap[e.target] {
                    Some(b) => {
                        new_edges.push(Edge { source: a, target: b, kind: e.kind });
                        proof {
                            assert(new_edges@ =~= shrunk_edges_upto(g0, s, d, t2 + 1));
                        }
                    },
                    None => {
                        proof {
                            assert(false);
                        }
                    },
                },
                None => {
                    proof {
                        assert(false);
                    }
                },
            }
        } else {
            proof {
                assert(shrunk_edges_upto(g0, s, d, t2 + 1) == shrunk_edges_upto(
                    g0,
                    s,
                    d,
                    t2 as int,
                ));
            }
        }
        t2 = t2 + 1;
    }

    proof {
        lemma_within_mono(g0, s, 0, d, s);
        lemma_kept_rank(g0, s, d, s, n as int);
        lemma_kept_elems(g0, s, d, s);
        lemma_kept_elems(g0, s, d, n as int);
        assert(rank(g0, s, d, s) as usize == rank(g0, s, d, s));
    }
    let new_start = match remap[start] {
        Some(a) => a,
        None => {
            proof {
                assert(false);
            }
            0
        },
    };
    graph.nodes = new_nodes;
    graph.edges = new_edges;
    proof {
        assert(graph@ =~= shrink_spec(g0, s, d));
        assert(kept(g0, s, d)[rank(g0, s, d, s)] == s);
        assert(shrink_spec(g0, s, d).nodes[rank(g0, s, d, s)] == g0.nodes[kept(g0, s, d)[rank(
            g0,
            s,
            d,
            s,
        )]]);
        assert(shrink_spec(g0, s, d).nodes[new_start as int] == g0.nodes[s]);
    }
    new_start
}

/// Surviving earlier nodes keep earlier ranks.
pub proof fn lemma_rank_mono(g: GraphV, s: int, d: int, u: int, w: int)
    requires
        0 <= u < w,
        within(g, s, d, u),
    ensures
        rank(g, s, d, u) < rank(g, s, d, w),
{
    assert(kept_upto(g, s, d, u + 1) == kept_upto(g, s, d, u).push(u));
    lemma_kept_prefix(g, s, d, u + 1, w);
}

pub proof fn lemma_shrunk_edges_bounds(g: GraphV, s: int, d: int, m: int)
    requires
        g.wf(),
        0 <= s < g.nodes.len(),
        g.nodes.len() <= usize::MAX,
        0 <= m <= g.edges.len(),
    ensures
        forall|k: int|
            0 <= k < shrunk_edges_upto(g, s, d, m).len() ==> (#[trigger] shrunk_edges_upto(
                g,
                s,
                d,
                m,
            )[k]).source < kept(g, s, d).len() && shrunk_edges_upto(g, s, d, m)[k].target < kept(
                g,
                s,
                d,
            ).len() && (g.owns_forward() && shrunk_edges_upto(g, s, d, m)[k].kind is Owns
                ==> shrunk_edges_upto(g, s, d, m)[k].source < shrunk_edges_upto(
                g,
                s,
                d,
                m,
            )[k].target),
    decreases m,
{
    if m > 0 {
        lemma_shrunk_edges_bounds(g, s, d, m - 1);
        let pre = shrunk_edges_upto(g, s, d, m - 1);
        let cur = shrunk_edges_upto(g, s, d, m);
        let e = g.edges[m - 1];
        if within(g, s, d, e.source as int) && within(g, s, d, e.target as int) {
            lemma_kept_rank(g, s, d, e.source as int, g.nodes.len() as int);
            lemma_kept_rank(g, s, d, e.target as int, g.nodes.len() as int);
            lemma_kept_elems(g, s, d, e.source as int);
            lemma_kept_elems(g, s, d, e.target as int);
            if g.owns_forward() && e.kind is Owns {
                lemma_rank_mono(g, s, d, e.source as int, e.target as int);
            }
            assert forall|k: int| 0 <= k < cur.len() implies (#[trigger] cur[k]).source < kept(
                g,
                s,
                d,
            ).len() && cur[k].target < kept(g, s, d).len() && (g.owns_forward()
                && cur[k].kind is Owns ==> cur[k].source < cur[k].target) by {
                if k < pre.len() {
                    assert(cur[k] == pre[k]);
                } else {
                    assert(cur[k] == Edge {
                        source: rank(g, s, d, e.source as int) as usize,
                        target: rank(g, s, d, e.target as int) as usize,
                        kind: e.kind,
                    });
                }
            }
        } else {
            assert forall|k: int| 0 <= k < cur.len() implies (#[trigger] cur[k]).source < kept(
                g,
                s,
                d,
            ).len() && cur[k].target < kept(g, s, d).len() && (g.owns_forward()
                && cur[k].kind is Owns ==> cur[k].source < cur[k].target) by {
                assert(cur[k] == pre[k]);
            }
        }
    }
}

/// A shrunk graph is well formed, never larger than its source, and
/// keeps ownership edges pointing forward.
pub proof fn lemma_shrink_invariants(g: GraphV, s: int, d: int)
    requires
        g.wf(),
        0 <= s < g.nodes.len(),
        g.nodes.len() <= usize::MAX,
    ensures
        shrink_spec(g, s, d).wf(),
        g.owns_forward() ==> shrink_spec(g, s, d).owns_forward(),
        shrink_spec(g, s, d).nodes.len() <= g.nodes.len(),
{
    lemma_shrunk_edges_bounds(g, s, d, g.edges.len() as int);
    lemma_kept_elems(g, s, d, g.nodes.len() as int);
}

/// Law: resolving a module node's own qualified path finds exactly
/// that node.  In a graph with unique module paths, node `i` matches
/// its own path and nothing else does, so `idx_of_node_with_path` on
/// `path_at(i)` must return `Ok(i)`.
pub proof fn lemma_resolver_roundtrip(g: GraphV, i: int)
    requires
        g.unique_module_paths(),
        g.is_module_at(i),
    ensures
        matches_path(g, i, g.path_at(i)),
        forall|j: int| #[trigger] matches_path(g, j, g.path_at(i)) ==> j == i,
{
    assert forall|j: int| #[trigger] matches_path(g, j, g.path_at(i)) implies j == i by {
        assert(g.is_module_at(j));
    }
}

/// Law: raising the depth bound never drops a node: the kept index
/// set grows monotonically with `max_depth`.
pub proof fn lemma_shrink_monotone(g: GraphV, s: int, d1: int, d2: int)
    requires
        0 <= d1 <= d2,
    ensures
        forall|v: int| kept(g, s, d1).contains(v) ==> kept(g, s, d2).contains(v),
{
    let n = g.nodes.len() as int;
    assert forall|v: int| kept(g, s, d1).contains(v) implies kept(g, s, d2).contains(v) by {
        lemma_kept_elems(g, s, d1, n);
        let k = choose|k: int| 0 <= k < kept(g, s, d1).len() && #[trigger] kept(g, s, d1)[k] == v;
        lemma_kept_contains(g, s, d1, n, v);
        lemma_within_mono(g, s, d1, d2, v);
        lemma_kept_contains(g, s, d2, n, v);
    }
}

pub proof fn lemma_shrunk_edges_prefix(g: GraphV, s: int, d: int, m: int, n: int)
    requires
        m <= n,
    ensures
        shrunk_edges_upto(g, s, d, m).is_prefix_of(shrunk_edges_upto(g, s, d, n)),
    decreases n - m,
{
    if m < n {
        lemma_shrunk_edges_prefix(g, s, d, m, n - 1);
    }
}

/// An edge whose endpoints both survive appears, remapped, in the
/// shrunk edge list.
pub proof fn lemma_shrunk_edge_present(g: GraphV, s: int, d: int, t: int)
    requires
        g.wf(),
        0 <= s < g.nodes.len(),
        0 <= t < g.edges.len(),
        within(g, s, d, g.edges[t].source as int),
        within(g, s, d, g.edges[t].target as int),
    ensures
        exists|tt: int|
            0 <= tt < shrink_spec(g, s, d).edges.len() && #[trigger] shrink_spec(g, s, d).edges[tt]
                == (Edge {
                source: rank(g, s, d, g.edges[t].source as int) as usize,
                target: rank(g, s, d, g.edges[t].target as int) as usize,
                kind: g.edges[t].kind,
            }),
{
    let e = g.edges[t];
    let re = Edge {
        source: rank(g, s, d, e.source as int) as usize,
        target: rank(g, s, d, e.target as int) as usize,
        kind: e.kind,
    };
    assert(shrunk_edges_upto(g, s, d, t + 1) == shrunk_edges_upto(g, s, d, t).push(re));
    lemma_shrunk_edges_prefix(g, s, d, t + 1, g.edges.len() as int);
    let pos = shrunk_edges_upto(g, s, d, t).len() as int;
    assert(shrink_spec(g, s, d).edges[pos] == shrunk_edges_upto(g, s, d, t + 1)[pos]);
}

/// Hops survive shrinking: a node within `k` hops of the start stays
/// within `k` hops of the start's new index inside the shrunk graph,
/// as long as `k` does not exceed the pruning depth.
pub proof fn lemma_within_transfer(g: GraphV, s: int, d: int, k: int, v: int)
    requires
        g.wf(),
        0 <= s < g.nodes.len(),
        g.nodes.len() <= usize::MAX,
        0 <= k <= d,
        within(g, s, k, v),
    ensures
        within(shrink_spec(g, s, d), rank(g, s, d, s), k, rank(g, s, d, v)),
    decreases k,
{
    let h = shrink_spec(g, s, d);
    let s2 = rank(g, s, d, s);
    if k == 0 {
        assert(v == s);
    } else {
        if within(g, s, k - 1, v) {
            lemma_within_transfer(g, s, d, k - 1, v);
        } else {
            let t = choose|t: int|
                0 <= t < g.edges.len() && (((#[trigger] g.edges[t]).source == v && within(
                    g,
                    s,
                    k - 1,
                    g.edges[t].target as int,
                )) || (g.edges[t].target == v && within(g, s, k - 1, g.edges[t].source as int)));
            let e = g.edges[t];
            let u: int = if e.source == v {
                e.target as int
            } else {
                e.source as int
            };
            lemma_within_mono(g, s, k - 1, d, u);
            lemma_within_mono(g, s, k, d, v);
            lemma_within_transfer(g, s, d, k - 1, u);
            lemma_shrunk_edge_present(g, s, d, t);
            let tt = choose|tt: int|
                0 <= tt < h.edges.len() && #[trigger] h.edges[tt] == Edge {
                    source: rank(g, s, d, e.source as int) as usize,
                    target: rank(g, s, d, e.target as int) as usize,
                    kind: e.kind,
                };
            lemma_kept_elems(g, s, d, e.source as int);
            lemma_kept_elems(g, s, d, e.target as int);
            assert(within(h, s2, k, rank(g, s, d, v)));
        }
    }
}

pub proof fn lemma_kept_identity(h: GraphV, s2: int, d2: int, m: int)
    requires
        0 <= m <= h.nodes.len(),
        forall|j: int| 0 <= j < h.nodes.len() ==> within(h, s2, d2, j),
    ensures
        kept_upto(h, s2, d2, m) =~= Seq::new(m as nat, |i: int| i),
        kept_upto(h, s2, d2, m).len() == m,
    decreases m,
{
    if m > 0 {
        lemma_kept_identity(h, s2, d2, m - 1);
        assert(within(h, s2, d2, m - 1));
    }
}

pub proof fn lemma_shrunk_edges_identity(h: GraphV, s2: int, d2: int, m: int)
    requires
        h.wf(),
        h.nodes.len() <= usize::MAX,
        0 <= m <= h.edges.len(),
        forall|j: int| 0 <= j < h.nodes.len() ==> within(h, s2, d2, j),
    ensures
        shrunk_edges_upto(h, s2, d2, m) =~= h.edges.take(m),
    decreases m,
{
    if m > 0 {
        lemma_shrunk_edges_identity(h, s2, d2, m - 1);
        let e = h.edges[m - 1];
        assert(within(h, s2, d2, e.source as int));
        assert(within(h, s2, d2, e.target as int));
        lemma_kept_identity(h, s2, d2, e.source as int);
        lemma_kept_identity(h, s2, d2, e.target as int);
        assert(rank(h, s2, d2, e.source as int) == e.source as int);
        assert(rank(h, s2, d2, e.target as int) == e.target as int);
        assert(shrunk_edges_upto(h, s2, d2, m) == shrunk_edges_upto(h, s2, d2, m - 1).push(
            Edge { source: e.source, target: e.target, kind: e.kind },
        ));
        assert(Edge { source: e.source, target: e.target, kind: e.kind } == e);
        assert(h.edges.take(m) =~= h.edges.take(m - 1).push(e));
    }
}

/// Law: shrinking an already-shrunk graph again, from the same start
/// node and with the same or a larger depth bound, yields the
/// identical node and edge lists.
pub proof fn lemma_shrink_idempotent(g: GraphV, s: int, d1: int, d2: int)
    requires
        g.wf(),
        0 <= s < g.nodes.len(),
        g.nodes.len() <= usize::MAX,
        0 <= d1 <= d2,
    ensures
        shrink_spec(shrink_spec(g, s, d1), rank(g, s, d1, s), d2) == shrink_spec(g, s, d1),
{
    let h = shrink_spec(g, s, d1);
    let s2 = rank(g, s, d1, s);
    let n = g.nodes.len() as int;
    lemma_shrink_invariants(g, s, d1);
    lemma_within_mono(g, s, 0, d1, s);
    lemma_kept_rank(g, s, d1, s, n);
    lemma_kept_elems(g, s, d1, n);

    // Every node of the shrunk graph lies within `d2` hops of the new
    // start, inside the shrunk graph itself.
    assert forall|j: int| 0 <= j < h.nodes.len() implies within(h, s2, d2, j) by {
        lemma_kept_position(g, s, d1, n, j);
        let v = kept(g, s, d1)[j];
        lemma_within_transfer(g, s, d1, d1, v);
        lemma_within_mono(h, s2, d1, d2, j);
    }

    lemma_kept_identity(h, s2, d2, h.nodes.len() as int);
    let hh = shrink_spec(h, s2, d2);
    assert(hh.nodes =~= h.nodes) by {
        assert(kept(h, s2, d2) =~= Seq::new(h.nodes.len(), |i: int| i));
        assert forall|k: int| 0 <= k < h.nodes.len() implies hh.nodes[k] == h.nodes[k] by {
            assert(kept(h, s2, d2)[k] == k);
        }
    }
    lemma_shrunk_edges_identity(h, s2, d2, h.edges.len() as int);
    assert(hh.edges =~= h.edges) by {
        assert(h.edges.take(h.edges.len() as int) =~= h.edges);
    }
    assert(hh =~= h);
}

} // verus!
