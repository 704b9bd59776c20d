//! Query planning over the persisted tables: bounded call-graph traversal
//! and the grouped scans behind the map, dependency and hierarchy views.

use vstd::prelude::*;
use vstd::string::StrSliceExecFns;
use crate::graph::EdgeRecord;
use crate::text::{lemma_filter_push, lemma_filter_none, str_eq};

verus! {

/// The largest traversal depth a call-graph query may use.
pub const MAX_CALL_DEPTH: u32 = 5;

/// The default traversal depth of a call-graph query.
pub const DEFAULT_CALL_DEPTH: u32 = 2;

/// How many edges one node expansion may contribute.
pub const EXPANSION_CAP: usize = 100;

/// The depth a call-graph request resolves to: the requested depth when
/// given, else the default, capped at the maximum.
pub open spec fn effective_depth_of(requested: Option<u64>) -> u32 {
    let d = match requested {
        Some(v) => v,
        None => DEFAULT_CALL_DEPTH as u64,
    };
    if d > MAX_CALL_DEPTH as u64 {
        MAX_CALL_DEPTH
    } else {
        d as u32
    }
}

/// Resolve the depth of a call-graph request.
pub fn effective_depth(requested: Option<u64>) -> (r: u32)
    ensures
        r == effective_depth_of(requested),
        r <= MAX_CALL_DEPTH,
{
    let d: u64 = match requested {
        Some(v) => v,
        None => 2,
    };
    if d > 5 {
        5
    } else {
        d as u32
    }
}

/// One edge of a call-graph answer.
pub struct CallGraphEdge {
    pub from: String,
    pub to: String,
    pub source_file: String,
    pub source_line: u32,
    pub target_file: String,
    pub depth: u32,
}

/// Whether a stored edge expands the node `cur` in the requested
/// direction: towards callers it must target `cur` by raw or qualified
/// name; towards callees it must originate in `cur`.
pub open spec fn matches_node(e: EdgeRecord, cur: Seq<char>, callers: bool) -> bool {
    if callers {
        e.target_name@ == cur || e.target_qualified@ == cur
    } else {
        e.source_symbol@ == cur
    }
}

/// The predicate an edge must meet to expand the node `cur`.
pub open spec fn node_pred(cur: Seq<char>, callers: bool) -> spec_fn(EdgeRecord) -> bool {
    |e: EdgeRecord| matches_node(e, cur, callers)
}

/// The node a stored edge leads to in the requested direction.
pub open spec fn next_sym(e: EdgeRecord, callers: bool) -> Seq<char> {
    if callers {
        e.source_symbol@
    } else {
        e.target_name@
    }
}

/// Whether a name list holds `x`.
pub open spec fn str_in(s: Seq<String>, x: Seq<char>) -> bool {
    exists|i: int| 0 <= i < s.len() && (#[trigger] s[i])@ == x
}

/// Whether the stored edge at `j` discovers a new node from `cur`: it is
/// reported under the expansion cap and leads to a nonempty symbol not in
/// the visited set.
pub open spec fn discovered(
    edges: Seq<EdgeRecord>,
    cur: Seq<char>,
    callers: bool,
    visited: Seq<String>,
    j: int,
) -> bool {
    &&& 0 <= j < edges.len()
    &&& matches_node(edges[j], cur, callers)
    &&& edges.take(j).filter(node_pred(cur, callers)).len() < EXPANSION_CAP as int
    &&& next_sym(edges[j], callers).len() > 0
    &&& !str_in(visited, next_sym(edges[j], callers))
}

/// Whether one stored edge discovers a second-level node from the seed and
/// another matches that node under its own expansion cap.
pub open spec fn second_level_pair(
    edges: Seq<EdgeRecord>,
    seed: Seq<char>,
    callers: bool,
    j1: int,
    j2: int,
) -> bool {
    &&& 0 <= j1 < edges.len()
    &&& 0 <= j2 < edges.len()
    &&& matches_node(edges[j1], seed, callers)
    &&& edges.take(j1).filter(node_pred(seed, callers)).len() < EXPANSION_CAP as int
    &&& next_sym(edges[j1], callers) != seed
    &&& next_sym(edges[j1], callers).len() > 0
    &&& matches_node(edges[j2], next_sym(edges[j1], callers), callers)
    &&& edges.take(j2).filter(node_pred(next_sym(edges[j1], callers), callers)).len()
        < EXPANSION_CAP as int
}

/// Whether every stored edge matching `cur` under the expansion cap is
/// restated at depth `d` somewhere in `s`.
pub open spec fn node_fully_covered(
    edges: Seq<EdgeRecord>,
    cur: Seq<char>,
    callers: bool,
    d: u32,
    s: Seq<CallGraphEdge>,
) -> bool {
    forall|j: int|
        0 <= j < edges.len() && matches_node(#[trigger] edges[j], cur, callers) && edges.take(
            j,
        ).filter(node_pred(cur, callers)).len() < EXPANSION_CAP as int ==> covered(
            edges,
            cur,
            callers,
            d,
            s,
            0,
            j,
        )
}

/// Whether `o` is the answer edge that the stored edge `e` yields when it
/// expands the node `cur` at depth `d`.
pub open spec fn answer_edge(e: EdgeRecord, cur: Seq<char>, callers: bool, d: u32, o:
    CallGraphEdge) -> bool {
    matches_node(e, cur, callers) && o.from@ == (if callers {
        e.source_symbol@
    } else {
        cur
    }) && o.to@ == (if callers {
        cur
    } else {
        e.target_name@
    }) && o.source_file@ == e.source_file@ && o.source_line == e.source_line && o.target_file@
        == e.target_file@ && o.depth == d
}

/// Whether the answer edge `o` restates some stored edge as an expansion
/// of the node `cur` at depth `d`.
pub open spec fn provenance(
    edges: Seq<EdgeRecord>,
    cur: Seq<char>,
    callers: bool,
    d: u32,
    o: CallGraphEdge,
) -> bool {
    exists|j: int| 0 <= j < edges.len() && #[trigger] answer_edge(edges[j], cur, callers, d, o)
}

/// Whether the answer edge `o` restates some stored edge as an expansion
/// of some node at its own depth.
pub open spec fn any_provenance(edges: Seq<EdgeRecord>, callers: bool, o: CallGraphEdge) -> bool {
    exists|j: int, cur: Seq<char>|
        0 <= j < edges.len() && #[trigger] answer_edge(edges[j], cur, callers, o.depth, o)
}

/// Whether the stored edge at position `j` is restated at depth `d` by
/// some answer edge of `s` at or after position `lo`.
pub open spec fn covered(
    edges: Seq<EdgeRecord>,
    cur: Seq<char>,
    callers: bool,
    d: u32,
    s: Seq<CallGraphEdge>,
    lo: int,
    j: int,
) -> bool {
    exists|k: int| lo <= k < s.len() && #[trigger] answer_edge(edges[j], cur, callers, d, s[k])
}

proof fn lemma_covered_extend(
    edges: Seq<EdgeRecord>,
    cur: Seq<char>,
    callers: bool,
    d: u32,
    a: Seq<CallGraphEdge>,
    b: Seq<CallGraphEdge>,
    lo: int,
    j: int,
)
    requires
        0 <= lo,
        covered(edges, cur, callers, d, a, lo, j),
        b.len() >= a.len(),
        b.take(a.len() as int) == a,
    ensures
        covered(edges, cur, callers, d, b, lo, j),
{
    let k = choose|k: int|
        lo <= k < a.len() && #[trigger] answer_edge(edges[j], cur, callers, d, a[k]);
    assert(b.take(a.len() as int)[k] == a[k]);
    assert(b[k] == a[k]);
    assert(answer_edge(edges[j], cur, callers, d, b[k]));
}

/// Traverse the call graph from a seed symbol, breadth first, up to
/// `depth` levels: each level expands the previous level's nodes through
/// the matching `calls` edges (at most [`EXPANSION_CAP`] per node), a
/// visited set breaks cycles, and every answer edge carries its level.
///
/// Every answer edge lies on a level between 1 and `depth` and restates a
/// stored edge. The first level reports every stored edge matching the
/// seed up to the expansion cap; the second level reports, for every node
/// such an edge discovers, every stored edge matching that node up to its
/// own cap.
pub fn call_graph_bfs(edges: &Vec<EdgeRecord>, seed: &str, callers: bool, depth: u32) -> (r: Vec<
    CallGraphEdge,
>)
    ensures
        forall|k: int| 0 <= k < r@.len() ==> 1 <= (#[trigger] r@[k]).depth <= depth,
        forall|k: int| 0 <= k < r@.len() ==> any_provenance(edges@, callers, #[trigger] r@[k]),
        depth >= 1 ==> forall|j: int|
            0 <= j < edges@.len() && matches_node(#[trigger] edges@[j], seed@, callers)
                && edges@.take(j).filter(node_pred(seed@, callers)).len()
                < EXPANSION_CAP as int ==> covered(edges@, seed@, callers, 1, r@, 0, j),
        depth >= 2 ==> forall|j1: int, j2: int|
            #[trigger] second_level_pair(edges@, seed@, callers, j1, j2) ==> covered(
                edges@,
                next_sym(edges@[j1], callers),
                callers,
                2,
                r@,
                0,
                j2,
            ),
{
    let mut out: Vec<CallGraphEdge> = Vec::new();
    if depth == 0 {
        return out;
    }
    let mut visited: Vec<String> = Vec::new();
    visited.push(seed.to_owned());
    let ghost visited0 = visited@;
    let mut frontier: Vec<String> = Vec::new();
    let seed_string = seed.to_owned();
    expand_node(edges, &seed_string, callers, 1, &mut visited, &mut frontier, &mut out);
    proof {
        assert(seed_string@ == seed@);
        assert forall|k: int| 0 <= k < out@.len() implies 1 <= (#[trigger] out@[k]).depth
            <= 1 && any_provenance(edges@, callers, out@[k]) by {
            assert(provenance(edges@, seed@, callers, 1, out@[k]));
            let j = choose|j: int|
                0 <= j < edges@.len() && #[trigger] answer_edge(edges@[j], seed@, callers, 1,
                out@[k]);
            assert(out@[k].depth == 1);
            assert(answer_edge(edges@[j], seed@, callers, out@[k].depth, out@[k]));
        }
        assert forall|j1: int|
            0 <= j1 < edges@.len() && matches_node(#[trigger] edges@[j1], seed@, callers)
                && edges@.take(j1).filter(node_pred(seed@, callers)).len()
                < EXPANSION_CAP as int && next_sym(edges@[j1], callers) != seed@ && next_sym(
                edges@[j1],
                callers,
            ).len() > 0 implies str_in(frontier@, next_sym(edges@[j1], callers)) by {
            if str_in(visited0, next_sym(edges@[j1], callers)) {
                let i = choose|i: int|
                    0 <= i < visited0.len() && (#[trigger] visited0[i])@ == next_sym(
                        edges@[j1],
                        callers,
                    );
                assert(visited0[0]@ == seed@);
                assert(false);
            }
            assert(discovered(edges@, seed@, callers, visited0, j1));
        }
    }
    let ghost out0 = out@;
    let ghost l0 = out@.len() as int;
    let mut d: u32 = 1;
    while d < depth && frontier.len() > 0
        invariant
            1 <= d <= depth,
            l0 == out0.len(),
            out@.len() >= l0,
            out@.take(l0) == out0,
            forall|k: int| 0 <= k < out@.len() ==> 1 <= (#[trigger] out@[k]).depth <= d,
            forall|k: int|
                0 <= k < out@.len() ==> any_provenance(edges@, callers, #[trigger] out@[k]),
            d == 1 ==> forall|j1: int|
                0 <= j1 < edges@.len() && matches_node(#[trigger] edges@[j1], seed@, callers)
                    && edges@.take(j1).filter(node_pred(seed@, callers)).len()
                    < EXPANSION_CAP as int && next_sym(edges@[j1], callers) != seed@ && next_sym(
                    edges@[j1],
                    callers,
                ).len() > 0 ==> str_in(frontier@, next_sym(edges@[j1], callers)),
            d >= 2 ==> forall|j1: int, j2: int|
                #[trigger] second_level_pair(edges@, seed@, callers, j1, j2) ==> covered(
                    edges@,
                    next_sym(edges@[j1], callers),
                    callers,
                    2,
                    out@,
                    0,
                    j2,
                ),
        decreases depth - d,
    {
        let mut next_frontier: Vec<String> = Vec::new();
        let mut f: usize = 0;
        while f < frontier.len()
            invariant
                0 <= f <= frontier@.len(),
                1 <= d < depth,
                l0 == out0.len(),
                out@.len() >= l0,
                out@.take(l0) == out0,
                forall|k: int| 0 <= k < out@.len() ==> 1 <= (#[trigger] out@[k]).depth <= d + 1,
                forall|k: int|
                    0 <= k < out@.len() ==> any_provenance(edges@, callers, #[trigger] out@[k]),
                d == 1 ==> forall|j1: int|
                    0 <= j1 < edges@.len() && matches_node(#[trigger] edges@[j1], seed@, callers)
                        && edges@.take(j1).filter(node_pred(seed@, callers)).len()
                        < EXPANSION_CAP as int && next_sym(edges@[j1], callers) != seed@
                        && next_sym(edges@[j1], callers).len() > 0 ==> str_in(
                        frontier@,
                        next_sym(edges@[j1], callers),
                    ),
                d == 1 ==> forall|f2: int|
                    0 <= f2 < f ==> node_fully_covered(
                        edges@,
                        (#[trigger] frontier@[f2])@,
                        callers,
                        2,
                        out@,
                    ),
                d >= 2 ==> forall|j1: int, j2: int|
                    #[trigger] second_level_pair(edges@, seed@, callers, j1, j2) ==> covered(
                        edges@,
                        next_sym(edges@[j1], callers),
                        callers,
                        2,
                        out@,
                        0,
                        j2,
                    ),
            decreases frontier@.len() - f,
        {
            let ghost out_before = out@;
            let current = frontier[f].clone();
            expand_node(edges, &current, callers, d + 1, &mut visited, &mut next_frontier,
                &mut out);
            proof {
                let lb = out_before.len() as int;
                assert forall|k: int| 0 <= k < lb implies out@[k] == out_before[k] by {
                    assert(out@.take(lb)[k] == out_before[k]);
                }
                assert(out@.take(l0) =~= out0);
                assert forall|k: int| 0 <= k < out@.len() implies 1 <= (#[trigger] out@[k]).depth
                    <= d + 1 && any_provenance(edges@, callers, out@[k]) by {
                    if k < lb {
                        assert(out@[k] == out_before[k]);
                        assert(any_provenance(edges@, callers, out_before[k]));
                    } else {
                        assert(provenance(edges@, current@, callers, (d + 1) as u32, out@[k]));
                        let j = choose|j: int|
                            0 <= j < edges@.len() && #[trigger] answer_edge(edges@[j], current@,
                            callers, (d + 1) as u32, out@[k]);
                        assert(out@[k].depth == d + 1);
                        assert(answer_edge(edges@[j], current@, callers, out@[k].depth, out@[k]));
                    }
                }
                if d == 1 {
                    assert forall|f2: int| 0 <= f2 < f + 1 implies node_fully_covered(
                        edges@,
                        (#[trigger] frontier@[f2])@,
                        callers,
                        2,
                        out@,
                    ) by {
                        if f2 == f as int {
                            assert forall|j: int|
                                0 <= j < edges@.len() && matches_node(#[trigger] edges@[j],
                                    frontier@[f2]@, callers) && edges@.take(j).filter(
                                    node_pred(frontier@[f2]@, callers),
                                ).len() < EXPANSION_CAP as int implies covered(
                                edges@,
                                frontier@[f2]@,
                                callers,
                                2,
                                out@,
                                0,
                                j,
                            ) by {
                                assert(current@ == frontier@[f as int]@);
                                assert(covered(edges@, current@, callers, (d + 1) as u32, out@,
                                    lb, j));
                                let k = choose|k: int|
                                    lb <= k < out@.len() && #[trigger] answer_edge(edges@[j],
                                    current@, callers, (d + 1) as u32, out@[k]);
                                assert(answer_edge(edges@[j], frontier@[f2]@, callers, 2u32,
                                    out@[k]));
                            }
                        } else {
                            assert(node_fully_covered(edges@, frontier@[f2]@, callers, 2,
                                out_before));
                            lemma_node_fully_covered_extend(edges@, frontier@[f2]@, callers, 2,
                                out_before, out@);
                        }
                    }
                }
                if d >= 2 {
                    assert forall|j1: int, j2: int|
                        #[trigger] second_level_pair(edges@, seed@, callers, j1, j2) implies
                    covered(
                        edges@,
                        next_sym(edges@[j1], callers),
                        callers,
                        2,
                        out@,
                        0,
                        j2,
                    ) by {
                        assert(covered(edges@, next_sym(edges@[j1], callers), callers, 2,
                            out_before, 0, j2));
                        assert(out@.take(lb) =~= out_before);
                        lemma_covered_extend(edges@, next_sym(edges@[j1], callers), callers, 2,
                            out_before, out@, 0, j2);
                    }
                }
            }
            f = f + 1;
        }
        proof {
            if d == 1 {
                assert forall|j1: int, j2: int|
                    #[trigger] second_level_pair(edges@, seed@, callers, j1, j2) implies covered(
                    edges@,
                    next_sym(edges@[j1], callers),
                    callers,
                    2,
                    out@,
                    0,
                    j2,
                ) by {
                    assert(str_in(frontier@, next_sym(edges@[j1], callers)));
                    let f2 = choose|f2: int|
                        0 <= f2 < frontier@.len() && (#[trigger] frontier@[f2])@ == next_sym(
                            edges@[j1],
                            callers,
                        );
                    assert(node_fully_covered(edges@, frontier@[f2]@, callers, 2, out@));
                    assert(covered(edges@, frontier@[f2]@, callers, 2, out@, 0, j2));
                }
            }
        }
        frontier = next_frontier;
        d = d + 1;
    }
    proof {
        assert forall|j: int|
            0 <= j < edges@.len() && matches_node(#[trigger] edges@[j], seed@, callers)
                && edges@.take(j).filter(node_pred(seed@, callers)).len()
                < EXPANSION_CAP as int implies covered(edges@, seed@, callers, 1, out@, 0, j) by {
            lemma_covered_extend(edges@, seed@, callers, 1, out0, out@, 0, j);
        }
        if depth >= 2 {
            assert forall|j1: int, j2: int|
                #[trigger] second_level_pair(edges@, seed@, callers, j1, j2) implies covered(
                edges@,
                next_sym(edges@[j1], callers),
                callers,
                2,
                out@,
                0,
                j2,
            ) by {
                if d == 1 {
                    assert(frontier@.len() == 0);
                    assert(str_in(frontier@, next_sym(edges@[j1], callers)));
                    let i = choose|i: int|
                        0 <= i < frontier@.len() && (#[trigger] frontier@[i])@ == next_sym(
                            edges@[j1],
                            callers,
                        );
                    assert(false);
                }
            }
        }
    }
    out
}

proof fn lemma_node_fully_covered_extend(
    edges: Seq<EdgeRecord>,
    cur: Seq<char>,
    callers: bool,
    d: u32,
    a: Seq<CallGraphEdge>,
    b: Seq<CallGraphEdge>,
)
    requires
        node_fully_covered(edges, cur, callers, d, a),
        b.len() >= a.len(),
        b.take(a.len() as int) == a,
    ensures
        node_fully_covered(edges, cur, callers, d, b),
{
    assert forall|j: int|
        0 <= j < edges.len() && matches_node(#[trigger] edges[j], cur, callers) && edges.take(
            j,
        ).filter(node_pred(cur, callers)).len() < EXPANSION_CAP as int implies covered(
        edges,
        cur,
        callers,
        d,
        b,
        0,
        j,
    ) by {
        lemma_covered_extend(edges, cur, callers, d, a, b, 0, j);
    }
}

proof fn lemma_filter_take_mono<A>(s: Seq<A>, p: spec_fn(A) -> bool, i: int, j: int)
    requires
        0 <= i <= j <= s.len(),
    ensures
        s.take(i).filter(p).len() <= s.take(j).filter(p).len(),
    decreases j - i,
{
    if i < j {
        lemma_filter_take_mono(s, p, i, j - 1);
        assert(s.take(j) =~= s.take(j - 1).push(s[j - 1]));
        reveal(Seq::filter);
        assert(s.take(j - 1).push(s[j - 1]).drop_last() =~= s.take(j - 1));
    }
}

/// Expand one node: scan the stored edges in order, report every edge that
/// matches the node (up to [`EXPANSION_CAP`]) as an answer edge at depth
/// `d_out`, and queue each newly seen neighbour.
///
/// Previously collected answer edges, visited names and queued names are
/// kept unchanged; at most [`EXPANSION_CAP`] answer edges are added; the
/// reported edges are exactly the first matching stored edges up to the
/// cap; and every symbol a reported edge discovers (nonempty and not yet
/// visited) ends up queued.
fn expand_node(
    edges: &Vec<EdgeRecord>,
    current: &String,
    callers: bool,
    d_out: u32,
    visited: &mut Vec<String>,
    next_frontier: &mut Vec<String>,
    out: &mut Vec<CallGraphEdge>,
)
    requires
        d_out >= 1,
    ensures
        final(out)@.len() >= old(out)@.len(),
        final(out)@.len() <= old(out)@.len() + EXPANSION_CAP,
        final(out)@.take(old(out)@.len() as int) == old(out)@,
        final(visited)@.len() >= old(visited)@.len(),
        final(visited)@.take(old(visited)@.len() as int) == old(visited)@,
        final(next_frontier)@.len() >= old(next_frontier)@.len(),
        final(next_frontier)@.take(old(next_frontier)@.len() as int) == old(next_frontier)@,
        forall|k: int|
            old(out)@.len() <= k < final(out)@.len() ==> provenance(
                edges@,
                current@,
                callers,
                d_out,
                #[trigger] final(out)@[k],
            ),
        forall|j: int|
            0 <= j < edges@.len() && matches_node(#[trigger] edges@[j], current@, callers)
                && edges@.take(j).filter(node_pred(current@, callers)).len()
                < EXPANSION_CAP as int ==> covered(
                edges@,
                current@,
                callers,
                d_out,
                final(out)@,
                old(out)@.len() as int,
                j,
            ),
        forall|j: int|
            #[trigger] discovered(edges@, current@, callers, old(visited)@, j) ==> str_in(
                final(next_frontier)@,
                next_sym(edges@[j], callers),
            ),
        forall|k: int|
            old(next_frontier)@.len() <= k < final(next_frontier)@.len() ==> str_in(
                final(visited)@,
                (#[trigger] final(next_frontier)@[k])@,
            ) && !str_in(old(visited)@, final(next_frontier)@[k]@),
        forall|k1: int, k2: int|
            old(next_frontier)@.len() <= k1 < k2 < final(next_frontier)@.len() ==> (
            #[trigger] final(next_frontier)@[k1])@ != (#[trigger] final(next_frontier)@[k2])@,
{
    let ghost p = node_pred(current@, callers);
    let ghost base = out@.len() as int;
    let ghost vbase = visited@.len() as int;
    let ghost fbase = next_frontier@.len() as int;
    let mut matched: usize = 0;
    let mut j: usize = 0;
    proof {
        assert(edges@.take(0) =~= Seq::<EdgeRecord>::empty());
        assert(edges@.take(0).filter(p) =~= Seq::<EdgeRecord>::empty()) by {
            reveal(Seq::filter);
        };
        assert(out@.take(base) =~= old(out)@);
        assert(visited@.take(vbase) =~= old(visited)@);
        assert(next_frontier@.take(fbase) =~= old(next_frontier)@);
    }
    while j < edges.len() && matched < EXPANSION_CAP
        invariant
            0 <= j <= edges@.len(),
            d_out >= 1,
            p == node_pred(current@, callers),
            base == old(out)@.len(),
            vbase == old(visited)@.len(),
            fbase == old(next_frontier)@.len(),
            out@.len() == base + matched,
            out@.take(base) == old(out)@,
            visited@.len() >= vbase,
            visited@.take(vbase) == old(visited)@,
            next_frontier@.len() >= fbase,
            next_frontier@.take(fbase) == old(next_frontier)@,
            matched == edges@.take(j as int).filter(p).len(),
            matched <= EXPANSION_CAP,
            forall|k: int|
                vbase <= k < visited@.len() ==> str_in(
                    next_frontier@,
                    (#[trigger] visited@[k])@,
                ),
            forall|k: int|
                base <= k < out@.len() ==> provenance(
                    edges@,
                    current@,
                    callers,
                    d_out,
                    #[trigger] out@[k],
                ),
            forall|j2: int|
                0 <= j2 < j && matches_node(#[trigger] edges@[j2], current@, callers)
                    && edges@.take(j2).filter(p).len() < EXPANSION_CAP as int ==> covered(
                    edges@,
                    current@,
                    callers,
                    d_out,
                    out@,
                    base,
                    j2,
                ),
            forall|j2: int|
                0 <= j2 < j && #[trigger] discovered(edges@, current@, callers, old(visited)@,
                    j2) ==> str_in(next_frontier@, next_sym(edges@[j2], callers)),
            forall|k: int|
                fbase <= k < next_frontier@.len() ==> str_in(
                    visited@,
                    (#[trigger] next_frontier@[k])@,
                ) && !str_in(old(visited)@, next_frontier@[k]@),
            forall|k1: int, k2: int|
                fbase <= k1 < k2 < next_frontier@.len() ==> (#[trigger] next_frontier@[k1])@ != (
                #[trigger] next_frontier@[k2])@,
        decreases edges@.len() - j,
    {
        let e = &edges[j];
        let is_match = if callers {
            str_eq(e.target_name.as_str(), current.as_str()) || str_eq(
                e.target_qualified.as_str(),
                current.as_str(),
            )
        } else {
            str_eq(e.source_symbol.as_str(), current.as_str())
        };
        proof {
            assert(edges@.take(j as int + 1) =~= edges@.take(j as int).push(edges@[j as int]));
            reveal(Seq::filter);
            assert(edges@.take(j as int).push(edges@[j as int]).drop_last() =~= edges@.take(
                j as int,
            ));
            assert(is_match == p(edges@[j as int]));
        }
        if is_match {
            let next_name: &String = if callers {
                &e.source_symbol
            } else {
                &e.target_name
            };
            proof {
                assert(next_name@ == next_sym(edges@[j as int], callers));
            }
            let o = CallGraphEdge {
                from: if callers {
                    e.source_symbol.clone()
                } else {
                    current.clone()
                },
                to: if callers {
                    current.clone()
                } else {
                    e.target_name.clone()
                },
                source_file: e.source_file.clone(),
                source_line: e.source_line,
                target_file: e.target_file.clone(),
                depth: d_out,
            };
            proof {
                assert(answer_edge(edges@[j as int], current@, callers, d_out, o));
            }
            let ghost out_before = out@;
            out.push(o);
            matched = matched + 1;
            proof {
                assert forall|k: int| 0 <= k < out_before.len() implies out@[k]
                    == out_before[k] by {
                    assert(out@ == out_before.push(o));
                }
                assert(out@.take(base) =~= out_before.take(base));
                assert(out@[out@.len() - 1] == o);
                assert(answer_edge(edges@[j as int], current@, callers, d_out, out@[out@.len()
                    - 1]));
                assert forall|k: int| base <= k < out@.len() implies provenance(
                    edges@,
                    current@,
                    callers,
                    d_out,
                    #[trigger] out@[k],
                ) by {
                    if k < out@.len() - 1 {
                        assert(out@[k] == out_before[k]);
                        assert(provenance(edges@, current@, callers, d_out, out_before[k]));
                    } else {
                        assert(answer_edge(edges@[j as int], current@, callers, d_out, out@[k]));
                    }
                }
                assert forall|j2: int|
                    0 <= j2 < j + 1 && matches_node(#[trigger] edges@[j2], current@, callers)
                        && edges@.take(j2).filter(p).len() < EXPANSION_CAP as int implies covered(
                    edges@,
                    current@,
                    callers,
                    d_out,
                    out@,
                    base,
                    j2,
                ) by {
                    if j2 == j as int {
                        assert(answer_edge(edges@[j2], current@, callers, d_out, out@[out@.len()
                            - 1]));
                    } else {
                        assert(out@.take(out_before.len() as int) =~= out_before);
                        lemma_covered_extend(edges@, current@, callers, d_out, out_before, out@,
                            base, j2);
                    }
                }
            }
            if next_name.unicode_len() > 0 {
                let mut seen = false;
                let mut v: usize = 0;
                while v < visited.len()
                    invariant
                        0 <= v <= visited@.len(),
                        !seen ==> forall|k: int|
                            0 <= k < v ==> (#[trigger] visited@[k])@ != next_name@,
                        seen ==> str_in(visited@, next_name@),
                    decreases visited@.len() - v,
                {
                    if str_eq(visited[v].as_str(), next_name.as_str()) {
                        seen = true;
                    }
                    v = v + 1;
                }
                if !seen {
                    let ghost visited_before = visited@;
                    let ghost nf_before = next_frontier@;
                    visited.push(next_name.clone());
                    next_frontier.push(next_name.clone());
                    proof {
                        assert(visited@.take(vbase) =~= visited_before.take(vbase));
                        assert(next_frontier@.take(fbase) =~= nf_before.take(fbase));
                        assert(next_frontier@[next_frontier@.len() - 1]@ == next_name@);
                        assert(str_in(next_frontier@, next_name@));
                        assert(visited@[visited@.len() - 1]@ == next_name@);
                        assert(str_in(visited@, next_name@));
                        assert(!str_in(visited_before, next_name@)) by {
                            if str_in(visited_before, next_name@) {
                                let i = choose|i: int|
                                    0 <= i < visited_before.len() && (
                                    #[trigger] visited_before[i])@ == next_name@;
                                assert(false);
                            }
                        };
                        assert(!str_in(old(visited)@, next_name@)) by {
                            if str_in(old(visited)@, next_name@) {
                                let i = choose|i: int|
                                    0 <= i < old(visited)@.len() && (#[trigger] old(
                                        visited,
                                    )@[i])@ == next_name@;
                                assert(visited_before.take(vbase)[i] == old(visited)@[i]);
                                assert(visited_before[i]@ == next_name@);
                                assert(str_in(visited_before, next_name@));
                                assert(false);
                            }
                        };
                        assert forall|k: int|
                            fbase <= k < next_frontier@.len() implies str_in(
                            visited@,
                            (#[trigger] next_frontier@[k])@,
                        ) && !str_in(old(visited)@, next_frontier@[k]@) by {
                            if k < next_frontier@.len() - 1 {
                                assert(next_frontier@[k] == nf_before[k]);
                                assert(str_in(visited_before, nf_before[k]@));
                                let i = choose|i: int|
                                    0 <= i < visited_before.len() && (
                                    #[trigger] visited_before[i])@ == nf_before[k]@;
                                assert(visited@[i] == visited_before[i]);
                            }
                        }
                        assert forall|k1: int, k2: int|
                            fbase <= k1 < k2 < next_frontier@.len() implies (
                        #[trigger] next_frontier@[k1])@ != (#[trigger] next_frontier@[k2])@ by {
                            if k2 == next_frontier@.len() - 1 {
                                assert(next_frontier@[k1] == nf_before[k1]);
                                assert(str_in(visited_before, nf_before[k1]@));
                                if nf_before[k1]@ == next_name@ {
                                    assert(str_in(visited_before, next_name@));
                                    assert(false);
                                }
                            } else {
                                assert(next_frontier@[k1] == nf_before[k1]);
                                assert(next_frontier@[k2] == nf_before[k2]);
                            }
                        }
                        assert forall|k: int|
                            vbase <= k < visited@.len() implies str_in(
                            next_frontier@,
                            (#[trigger] visited@[k])@,
                        ) by {
                            if k < visited@.len() - 1 {
                                assert(visited@[k] == visited_before[k]);
                                assert(str_in(nf_before, visited_before[k]@));
                                let i = choose|i: int|
                                    0 <= i < nf_before.len() && (#[trigger] nf_before[i])@
                                        == visited_before[k]@;
                                assert(next_frontier@[i] == nf_before[i]);
                            } else {
                                assert(visited@[k]@ == next_name@);
                            }
                        }
                        assert forall|j2: int|
                            0 <= j2 < j + 1 && #[trigger] discovered(edges@, current@, callers,
                                old(visited)@, j2) implies str_in(
                            next_frontier@,
                            next_sym(edges@[j2], callers),
                        ) by {
                            if j2 < j as int {
                                assert(str_in(nf_before, next_sym(edges@[j2], callers)));
                                let i = choose|i: int|
                                    0 <= i < nf_before.len() && (#[trigger] nf_before[i])@
                                        == next_sym(edges@[j2], callers);
                                assert(next_frontier@[i] == nf_before[i]);
                            } else {
                                assert(str_in(next_frontier@, next_name@));
                            }
                        }
                    }
                } else {
                    proof {
                        assert forall|j2: int|
                            0 <= j2 < j + 1 && #[trigger] discovered(edges@, current@, callers,
                                old(visited)@, j2) implies str_in(
                            next_frontier@,
                            next_sym(edges@[j2], callers),
                        ) by {
                            if j2 == j as int {
                                let i = choose|i: int|
                                    0 <= i < visited@.len() && (#[trigger] visited@[i])@
                                        == next_name@;
                                if i < vbase {
                                    assert(visited@.take(vbase)[i] == visited@[i]);
                                    assert(old(visited)@[i]@ == next_name@);
                                    assert(str_in(old(visited)@, next_name@));
                                    assert(false);
                                } else {
                                    assert(str_in(next_frontier@, visited@[i]@));
                                }
                            }
                        }
                    }
                }
            } else {
                proof {
                    assert forall|j2: int|
                        0 <= j2 < j + 1 && #[trigger] discovered(edges@, current@, callers,
                            old(visited)@, j2) implies str_in(
                        next_frontier@,
                        next_sym(edges@[j2], callers),
                    ) by {
                        if j2 == j as int {
                            assert(next_sym(edges@[j2], callers).len() == 0);
                            assert(false);
                        }
                    }
                }
            }
        }
        j = j + 1;
    }
    proof {
        if j < edges@.len() {
            assert(matched == EXPANSION_CAP);
            assert forall|j2: int|
                0 <= j2 < edges@.len() && matches_node(#[trigger] edges@[j2], current@, callers)
                    && edges@.take(j2).filter(p).len() < EXPANSION_CAP as int implies covered(
                edges@,
                current@,
                callers,
                d_out,
                out@,
                base,
                j2,
            ) by {
                if j2 >= j as int {
                    lemma_filter_take_mono(edges@, p, j as int, j2);
                    assert(edges@.take(j2).filter(p).len() >= EXPANSION_CAP as int);
                    assert(false);
                }
            }
            assert forall|j2: int|
                #[trigger] discovered(edges@, current@, callers, old(visited)@, j2) implies
            str_in(next_frontier@, next_sym(edges@[j2], callers)) by {
                if j2 >= j as int {
                    lemma_filter_take_mono(edges@, p, j as int, j2);
                    assert(edges@.take(j2).filter(p).len() >= EXPANSION_CAP as int);
                    assert(false);
                }
            }
        }
    }
}

} // verus!

verus! {

/// An edge row read back from the edges table.
pub struct EdgeQueryResult {
    pub id: String,
    pub repo_id: String,
    pub source_file: String,
    pub source_symbol: String,
    pub source_line: u32,
    pub target_name: String,
    pub target_qualified: String,
    pub target_file: String,
    pub edge_type: String,
}

/// One import row of a dependency answer.
pub struct DepEntry {
    pub target: String,
    pub target_qualified: String,
    pub target_file: String,
    pub line: u32,
}

/// The imports of one source file.
pub struct DepGroup {
    pub file: String,
    pub imports: Vec<DepEntry>,
}

/// The import fields of an edge row.
pub open spec fn dep_info(e: EdgeQueryResult) -> (Seq<char>, Seq<char>, Seq<char>, u32) {
    (e.target_name@, e.target_qualified@, e.target_file@, e.source_line)
}

/// The fields of a dependency answer row.
pub open spec fn dep_view(d: DepEntry) -> (Seq<char>, Seq<char>, Seq<char>, u32) {
    (d.target@, d.target_qualified@, d.target_file@, d.line)
}

/// Whether one of the first `upto` rows originates in the file `f`.
pub open spec fn dep_file_present(es: Seq<EdgeQueryResult>, upto: int, f: Seq<char>) -> bool {
    exists|m: int| 0 <= m < upto && (#[trigger] es[m]).source_file@ == f
}

/// Whether some group carries the file key `f`.
pub open spec fn dep_group_present(groups: Seq<DepGroup>, f: Seq<char>) -> bool {
    exists|i: int| 0 <= i < groups.len() && (#[trigger] groups[i]).file@ == f
}

/// Group import edges by their source file, keeping row order within each
/// file; group order follows first appearance.
pub fn group_dependencies(rows: &Vec<EdgeQueryResult>) -> (r: Vec<DepGroup>)
    ensures
        forall|i: int, i2: int|
            0 <= i < i2 < r@.len() ==> (#[trigger] r@[i]).file@ != (#[trigger] r@[i2]).file@,
        forall|i: int|
            0 <= i < r@.len() ==> (#[trigger] r@[i]).imports@.map_values(
                |d: DepEntry| dep_view(d),
            ) == rows@.filter(|e: EdgeQueryResult| e.source_file@ == r@[i].file@).map_values(
                |e: EdgeQueryResult| dep_info(e),
            ),
        forall|m: int|
            0 <= m < rows@.len() ==> dep_group_present(r@, (#[trigger] rows@[m]).source_file@),
        forall|i: int|
            0 <= i < r@.len() ==> dep_file_present(
                rows@,
                rows@.len() as int,
                (#[trigger] r@[i]).file@,
            ),
{
    let mut out: Vec<DepGroup> = Vec::new();
    let mut k: usize = 0;
    proof {
        assert(rows@.take(0) =~= Seq::<EdgeQueryResult>::empty());
    }
    while k < rows.len()
        invariant
            0 <= k <= rows@.len(),
            forall|i: int, i2: int|
                0 <= i < i2 < out@.len() ==> (#[trigger] out@[i]).file@ != (
                #[trigger] out@[i2]).file@,
            forall|i: int|
                0 <= i < out@.len() ==> (#[trigger] out@[i]).imports@.map_values(
                    |d: DepEntry| dep_view(d),
                ) == rows@.take(k as int).filter(
                    |e: EdgeQueryResult| e.source_file@ == out@[i].file@,
                ).map_values(|e: EdgeQueryResult| dep_info(e)),
            forall|m: int|
                0 <= m < k ==> dep_group_present(out@, (#[trigger] rows@[m]).source_file@),
            forall|i: int|
                0 <= i < out@.len() ==> dep_file_present(
                    rows@,
                    k as int,
                    (#[trigger] out@[i]).file@,
                ),
        decreases rows@.len() - k,
    {
        let e = &rows[k];
        let entry = DepEntry {
            target: e.target_name.clone(),
            target_qualified: e.target_qualified.clone(),
            target_file: e.target_file.clone(),
            line: e.source_line,
        };
        let mut slot: usize = 0;
        let mut found = false;
        let mut i: usize = 0;
        while i < out.len()
            invariant
                0 <= i <= out@.len(),
                !found ==> forall|i2: int|
                    0 <= i2 < i ==> (#[trigger] out@[i2]).file@ != e.source_file@,
                found ==> slot < i && (slot as int) < out@.len() && out@[slot as int].file@
                    == e.source_file@,
                e == rows@[k as int],
            decreases out@.len() - i,
        {
            if !found && str_eq(out[i].file.as_str(), e.source_file.as_str()) {
                slot = i;
                found = true;
            }
            i = i + 1;
        }
        let ghost out_before = out@;
        if found {
            let ghost before = out@[slot as int].imports@;
            out[slot].imports.push(entry);
            proof {
                assert(out@[slot as int].imports@ == before.push(entry));
                assert(out@[slot as int].file@ == e.source_file@);
                assert(out@[slot as int].imports@.map_values(|d: DepEntry| dep_view(d))
                    =~= before.map_values(|d: DepEntry| dep_view(d)).push(dep_info(*e)));
            }
        } else {
            let group = DepGroup { file: e.source_file.clone(), imports: vec![entry] };
            proof {
                assert(group.imports@ =~= seq![entry]);
                assert(group.imports@.map_values(|d: DepEntry| dep_view(d)) =~= seq![
                    dep_info(*e),
                ]);
            }
            out.push(group);
            proof {
                assert(out@.drop_last() =~= out_before);
            }
        }
        proof {
            assert(rows@.take(k as int + 1) =~= rows@.take(k as int).push(rows@[k as int]));
            assert forall|i2: int| 0 <= i2 < out@.len() implies (
            #[trigger] out@[i2]).imports@.map_values(|d: DepEntry| dep_view(d)) == rows@.take(
                k as int + 1,
            ).filter(|e2: EdgeQueryResult| e2.source_file@ == out@[i2].file@).map_values(
                |e2: EdgeQueryResult| dep_info(e2),
            ) by {
                let pr = |e2: EdgeQueryResult| e2.source_file@ == out@[i2].file@;
                lemma_filter_push(rows@.take(k as int), pr, rows@[k as int]);
                if found {
                    if i2 == slot as int {
                        assert(pr(rows@[k as int]));
                        assert(rows@.take(k as int).filter(pr).push(rows@[k as int]).map_values(
                            |e2: EdgeQueryResult| dep_info(e2),
                        ) =~= rows@.take(k as int).filter(pr).map_values(
                            |e2: EdgeQueryResult| dep_info(e2),
                        ).push(dep_info(rows@[k as int])));
                    } else {
                        assert(out@[i2] == out_before[i2]);
                        if pr(rows@[k as int]) {
                            assert(out@[i2].file@ == e.source_file@ && out@[slot as int].file@
                                == e.source_file@);
                            assert(false);
                        }
                    }
                } else {
                    if i2 < out_before.len() {
                        assert(out@[i2] == out_before[i2]);
                        if pr(rows@[k as int]) {
                            assert(out@[i2].file@ == e.source_file@);
                            assert(false);
                        }
                    } else {
                        assert(i2 == out@.len() - 1);
                        assert(out@[i2].file@ == e.source_file@);
                        assert(pr(rows@[k as int]));
                        assert forall|m: int|
                            0 <= m < rows@.take(k as int).len() implies !pr(
                            #[trigger] rows@.take(k as int)[m],
                        ) by {
                            if pr(rows@.take(k as int)[m]) {
                                assert(dep_group_present(out_before, rows@[m].source_file@));
                                let i3 = choose|i3: int|
                                    0 <= i3 < out_before.len() && (#[trigger] out_before[i3]).file@
                                        == rows@[m].source_file@;
                                assert(out@[i3] == out_before[i3]);
                                assert(out@[i3].file@ == e.source_file@);
                                assert(false);
                            }
                        }
                        lemma_filter_none(rows@.take(k as int), pr);
                        assert(Seq::<EdgeQueryResult>::empty().push(rows@[k as int]).map_values(
                            |e2: EdgeQueryResult| dep_info(e2),
                        ) =~= seq![dep_info(rows@[k as int])]);
                    }
                }
            }
            assert forall|m: int| 0 <= m < k + 1 implies dep_group_present(
                out@,
                (#[trigger] rows@[m]).source_file@,
            ) by {
                if m == k as int {
                    if found {
                        assert(out@[slot as int].file@ == rows@[m].source_file@);
                    } else {
                        assert(out@[out@.len() - 1].file@ == rows@[m].source_file@);
                    }
                } else {
                    assert(dep_group_present(out_before, rows@[m].source_file@));
                    let i3 = choose|i3: int|
                        0 <= i3 < out_before.len() && (#[trigger] out_before[i3]).file@
                            == rows@[m].source_file@;
                    if found {
                        assert(out@[i3].file@ == out_before[i3].file@);
                    } else {
                        assert(out@[i3] == out_before[i3]);
                    }
                }
            }
            assert forall|i2: int| 0 <= i2 < out@.len() implies dep_file_present(
                rows@,
                k as int + 1,
                (#[trigger] out@[i2]).file@,
            ) by {
                if found {
                    assert(out@[i2].file@ == out_before[i2].file@);
                    assert(dep_file_present(rows@, k as int, out_before[i2].file@));
                } else {
                    if i2 < out_before.len() {
                        assert(out@[i2] == out_before[i2]);
                        assert(dep_file_present(rows@, k as int, out_before[i2].file@));
                    } else {
                        assert(out@[i2].file@ == rows@[k as int].source_file@);
                    }
                }
            }
        }
        k = k + 1;
    }
    proof {
        assert(rows@.take(rows@.len() as int) =~= rows@);
    }
    out
}

} // verus!

verus! {

/// One implementation row of a hierarchy answer.
pub struct HierEntry {
    pub implementor: String,
    pub file: String,
    pub line: u32,
}

/// The implementations recorded under one trait or interface key.
pub struct HierGroup {
    pub key: String,
    pub impls: Vec<HierEntry>,
}

/// The key an `implements` edge is grouped under: its qualified target
/// where known, else its raw spelling.
pub open spec fn hier_key(e: EdgeQueryResult) -> Seq<char> {
    if e.target_qualified@.len() == 0 {
        e.target_name@
    } else {
        e.target_qualified@
    }
}

/// The implementation fields of an edge row.
pub open spec fn hier_info(e: EdgeQueryResult) -> (Seq<char>, Seq<char>, u32) {
    (e.source_symbol@, e.source_file@, e.source_line)
}

/// The fields of a hierarchy answer row.
pub open spec fn hier_view(h: HierEntry) -> (Seq<char>, Seq<char>, u32) {
    (h.implementor@, h.file@, h.line)
}

/// Whether some group carries the key `f`.
pub open spec fn hier_group_present(groups: Seq<HierGroup>, f: Seq<char>) -> bool {
    exists|i: int| 0 <= i < groups.len() && (#[trigger] groups[i]).key@ == f
}

/// Whether one of the first `upto` rows is grouped under the key `f`.
pub open spec fn hier_key_present(es: Seq<EdgeQueryResult>, upto: int, f: Seq<char>) -> bool {
    exists|m: int| 0 <= m < upto && hier_key(#[trigger] es[m]) == f
}

/// Group implementation edges by their qualified-or-raw target, keeping
/// row order within each key; group order follows first appearance.
pub fn group_hierarchy(rows: &Vec<EdgeQueryResult>) -> (r: Vec<HierGroup>)
    ensures
        forall|i: int, i2: int|
            0 <= i < i2 < r@.len() ==> (#[trigger] r@[i]).key@ != (#[trigger] r@[i2]).key@,
        forall|i: int|
            0 <= i < r@.len() ==> (#[trigger] r@[i]).impls@.map_values(
                |h: HierEntry| hier_view(h),
            ) == rows@.filter(|e: EdgeQueryResult| hier_key(e) == r@[i].key@).map_values(
                |e: EdgeQueryResult| hier_info(e),
            ),
        forall|m: int|
            0 <= m < rows@.len() ==> hier_group_present(r@, hier_key(#[trigger] rows@[m])),
        forall|i: int|
            0 <= i < r@.len() ==> hier_key_present(
                rows@,
                rows@.len() as int,
                (#[trigger] r@[i]).key@,
            ),
{
    let mut out: Vec<HierGroup> = Vec::new();
    let mut k: usize = 0;
    proof {
        assert(rows@.take(0) =~= Seq::<EdgeQueryResult>::empty());
    }
    while k < rows.len()
        invariant
            0 <= k <= rows@.len(),
            forall|i: int, i2: int|
                0 <= i < i2 < out@.len() ==> (#[trigger] out@[i]).key@ != (
                #[trigger] out@[i2]).key@,
            forall|i: int|
                0 <= i < out@.len() ==> (#[trigger] out@[i]).impls@.map_values(
                    |h: HierEntry| hier_view(h),
                ) == rows@.take(k as int).filter(
                    |e: EdgeQueryResult| hier_key(e) == out@[i].key@,
                ).map_values(|e: EdgeQueryResult| hier_info(e)),
            forall|m: int|
                0 <= m < k ==> hier_group_present(out@, hier_key(#[trigger] rows@[m])),
            forall|i: int|
                0 <= i < out@.len() ==> hier_key_present(
                    rows@,
                    k as int,
                    (#[trigger] out@[i]).key@,
                ),
        decreases rows@.len() - k,
    {
        let e = &rows[k];
        let key: String = if e.target_qualified.unicode_len() == 0 {
            e.target_name.clone()
        } else {
            e.target_qualified.clone()
        };
        proof {
            assert(key@ == hier_key(rows@[k as int]));
        }
        let entry = HierEntry {
            implementor: e.source_symbol.clone(),
            file: e.source_file.clone(),
            line: e.source_line,
        };
        let mut slot: usize = 0;
        let mut found = false;
        let mut i: usize = 0;
        while i < out.len()
            invariant
                0 <= i <= out@.len(),
                !found ==> forall|i2: int| 0 <= i2 < i ==> (#[trigger] out@[i2]).key@ != key@,
                found ==> slot < i && (slot as int) < out@.len() && out@[slot as int].key@ == key@,
            decreases out@.len() - i,
        {
            if !found && str_eq(out[i].key.as_str(), key.as_str()) {
                slot = i;
                found = true;
            }
            i = i + 1;
        }
        let ghost out_before = out@;
        if found {
            let ghost before = out@[slot as int].impls@;
            out[slot].impls.push(entry);
            proof {
                assert(out@[slot as int].impls@ == before.push(entry));
                assert(out@[slot as int].key@ == key@);
                assert(out@[slot as int].impls@.map_values(|h: HierEntry| hier_view(h))
                    =~= before.map_values(|h: HierEntry| hier_view(h)).push(hier_info(*e)));
            }
        } else {
            let group = HierGroup { key: key.clone(), impls: vec![entry] };
            proof {
                assert(group.impls@ =~= seq![entry]);
                assert(group.impls@.map_values(|h: HierEntry| hier_view(h)) =~= seq![
                    hier_info(*e),
                ]);
            }
            out.push(group);
            proof {
                assert(out@.drop_last() =~= out_before);
            }
        }
        proof {
            assert(rows@.take(k as int + 1) =~= rows@.take(k as int).push(rows@[k as int]));
            assert forall|i2: int| 0 <= i2 < out@.len() implies (
            #[trigger] out@[i2]).impls@.map_values(|h: HierEntry| hier_view(h)) == rows@.take(
                k as int + 1,
            ).filter(|e2: EdgeQueryResult| hier_key(e2) == out@[i2].key@).map_values(
                |e2: EdgeQueryResult| hier_info(e2),
            ) by {
                let pr = |e2: EdgeQueryResult| hier_key(e2) == out@[i2].key@;
                lemma_filter_push(rows@.take(k as int), pr, rows@[k as int]);
                if found {
                    if i2 == slot as int {
                        assert(pr(rows@[k as int]));
                        assert(rows@.take(k as int).filter(pr).push(rows@[k as int]).map_values(
                            |e2: EdgeQueryResult| hier_info(e2),
                        ) =~= rows@.take(k as int).filter(pr).map_values(
                            |e2: EdgeQueryResult| hier_info(e2),
                        ).push(hier_info(rows@[k as int])));
                    } else {
                        assert(out@[i2] == out_before[i2]);
                        if pr(rows@[k as int]) {
                            assert(out@[i2].key@ == key@ && out@[slot as int].key@ == key@);
                            assert(false);
                        }
                    }
                } else {
                    if i2 < out_before.len() {
                        assert(out@[i2] == out_before[i2]);
                        if pr(rows@[k as int]) {
                            assert(out@[i2].key@ == key@);
                            assert(false);
                        }
                    } else {
                        assert(i2 == out@.len() - 1);
                        assert(out@[i2].key@ == key@);
                        assert(pr(rows@[k as int]));
                        assert forall|m: int|
                            0 <= m < rows@.take(k as int).len() implies !pr(
                            #[trigger] rows@.take(k as int)[m],
                        ) by {
                            if pr(rows@.take(k as int)[m]) {
                                assert(hier_group_present(out_before, hier_key(rows@[m])));
                                let i3 = choose|i3: int|
                                    0 <= i3 < out_before.len() && (#[trigger] out_before[i3]).key@
                                        == hier_key(rows@[m]);
                                assert(out@[i3] == out_before[i3]);
                                assert(out@[i3].key@ == key@);
                                assert(false);
                            }
                        }
                        lemma_filter_none(rows@.take(k as int), pr);
                        assert(Seq::<EdgeQueryResult>::empty().push(rows@[k as int]).map_values(
                            |e2: EdgeQueryResult| hier_info(e2),
                        ) =~= seq![hier_info(rows@[k as int])]);
                    }
                }
            }
            assert forall|m: int| 0 <= m < k + 1 implies hier_group_present(
                out@,
                hier_key(#[trigger] rows@[m]),
            ) by {
                if m == k as int {
                    if found {
                        assert(out@[slot as int].key@ == hier_key(rows@[m]));
                    } else {
                        assert(out@[out@.len() - 1].key@ == hier_key(rows@[m]));
                    }
                } else {
                    assert(hier_group_present(out_before, hier_key(rows@[m])));
                    let i3 = choose|i3: int|
                        0 <= i3 < out_before.len() && (#[trigger] out_before[i3]).key@ == hier_key(
                            rows@[m],
                        );
                    if found {
                        assert(out@[i3].key@ == out_before[i3].key@);
                    } else {
                        assert(out@[i3] == out_before[i3]);
                    }
                }
            }
            assert forall|i2: int| 0 <= i2 < out@.len() implies hier_key_present(
                rows@,
                k as int + 1,
                (#[trigger] out@[i2]).key@,
            ) by {
                if found {
                    assert(out@[i2].key@ == out_before[i2].key@);
                    assert(hier_key_present(rows@, k as int, out_before[i2].key@));
                } else {
                    if i2 < out_before.len() {
                        assert(out@[i2] == out_before[i2]);
                        assert(hier_key_present(rows@, k as int, out_before[i2].key@));
                    } else {
                        assert(out@[i2].key@ == hier_key(rows@[k as int]));
                    }
                }
            }
        }
        k = k + 1;
    }
    proof {
        assert(rows@.take(rows@.len() as int) =~= rows@);
    }
    out
}

} // verus!
