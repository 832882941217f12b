//! Weighted path finding over the tile grid: A* for the first step of a
//! route and multi-source Dijkstra distance maps.
//!
//! Both searches take a cost function that gives the traversal cost of a
//! tile (`None` for an impassable tile) and explore at most a fixed budget
//! of tiles.
use vstd::prelude::*;

use crate::ai::COST_BASE;
use crate::grid_vec::{abs_int, add_spec, chebyshev, dir8, is_king_dir, sub_spec, GridVec};

verus! {

/// Maximum number of tiles A* may expand before giving up.
pub const MAX_A_STAR_NODES: usize = 512;

/// Maximum number of tiles a Dijkstra flood may expand.
pub const MAX_DIJKSTRA_NODES: usize = 512;

/// Largest magnitude of a tile cost the searches accept: every path sum
/// over a full search budget stays inside `i32`.
pub const MAX_TILE_COST: i32 = 1_000_000;

/// Largest magnitude of a coordinate of a search endpoint or source, so
/// that every tile within the search budget and every heuristic value is
/// representable.
pub const PATH_COORD_LIMIT: i32 = 16_777_216;

/// Whether a point lies inside the coordinate window the searches accept.
pub open spec fn path_coord_ok(p: GridVec) -> bool {
    abs_int(p.x as int) <= PATH_COORD_LIMIT && abs_int(p.y as int) <= PATH_COORD_LIMIT
}

/// The cost function may be called on every tile and reports costs of
/// magnitude at most `MAX_TILE_COST`.
pub open spec fn cost_fn_ok<F: Fn(GridVec) -> Option<i32>>(cost_fn: F) -> bool {
    &&& forall|p: GridVec| #[trigger] call_requires(cost_fn, (p,))
    &&& forall|p: GridVec, r: Option<i32>|
        #[trigger] call_ensures(cost_fn, (p,), r) ==> match r {
            Some(c) => -MAX_TILE_COST <= c <= MAX_TILE_COST,
            None => true,
        }
}

/// `cost_fn` may report the tile `p` as passable.
pub open spec fn passable<F: Fn(GridVec) -> Option<i32>>(cost_fn: F, p: GridVec) -> bool {
    exists|c: i32| #[trigger] call_ensures(cost_fn, (p,), Some(c))
}

/// `a` and `b` are distinct tiles one king move apart.
pub open spec fn king_adjacent(a: GridVec, b: GridVec) -> bool {
    abs_int(b.x - a.x) <= 1 && abs_int(b.y - a.y) <= 1 && a != b
}

/// A walk of king moves in which every tile after the first is `goal` or
/// a tile that `cost_fn` may report as passable.
pub open spec fn is_walk<F: Fn(GridVec) -> Option<i32>>(cost_fn: F, goal: GridVec, path: Seq<GridVec>) -> bool {
    &&& forall|i: int| 0 <= i < path.len() - 1 ==> king_adjacent(#[trigger] path[i], path[i + 1])
    &&& forall|i: int| 0 < i < path.len() ==> (#[trigger] path[i] == goal || passable(cost_fn, path[i]))
}

/// Every call of `cost_fn` on a tile gives the same answer.
pub open spec fn cost_deterministic<F: Fn(GridVec) -> Option<i32>>(cost_fn: F) -> bool {
    forall|p: GridVec, r1: Option<i32>, r2: Option<i32>|
        #[trigger] call_ensures(cost_fn, (p,), r1) && #[trigger] call_ensures(cost_fn, (p,), r2) ==> r1 == r2
}

/// The assumptions under which A* finds cheapest routes: the cost of a
/// tile is a function of the tile, and every passable tile costs at least
/// `COST_BASE` (so the Chebyshev heuristic never overestimates).
pub open spec fn route_costs_ok<F: Fn(GridVec) -> Option<i32>>(cost_fn: F) -> bool {
    &&& cost_deterministic(cost_fn)
    &&& forall|p: GridVec, c: i32| #[trigger] call_ensures(cost_fn, (p,), Some(c)) ==> c >= COST_BASE
}

/// The cost of stepping onto tile `p`: `COST_BASE` for the goal, the
/// tile's cost otherwise.
pub open spec fn step_cost<F: Fn(GridVec) -> Option<i32>>(cost_fn: F, goal: GridVec, p: GridVec) -> int {
    if p == goal {
        COST_BASE as int
    } else {
        (choose|c: i32| call_ensures(cost_fn, (p,), Some(c))) as int
    }
}

/// The cost of a walk: the sum of the step costs of its tiles after the
/// first.
pub open spec fn walk_cost<F: Fn(GridVec) -> Option<i32>>(cost_fn: F, goal: GridVec, path: Seq<GridVec>) -> int
    decreases path.len(),
{
    if path.len() <= 1 {
        0
    } else {
        walk_cost(cost_fn, goal, path.drop_last()) + step_cost(cost_fn, goal, path.last())
    }
}

/// A walk from `start` to `t` (see `is_walk`).
pub open spec fn walk_between<F: Fn(GridVec) -> Option<i32>>(cost_fn: F, goal: GridVec, start: GridVec, t: GridVec, path: Seq<GridVec>) -> bool {
    &&& path.len() >= 1
    &&& path[0] == start
    &&& path.last() == t
    &&& is_walk(cost_fn, goal, path)
}

/// `d` is the first step of a cheapest walk from `start` to `goal`.
pub open spec fn cheapest_first_step<F: Fn(GridVec) -> Option<i32>>(cost_fn: F, start: GridVec, goal: GridVec, d: GridVec) -> bool {
    exists|path: Seq<GridVec>|
        #![trigger walk_between(cost_fn, goal, start, goal, path)]
        {
            &&& walk_between(cost_fn, goal, start, goal, path)
            &&& path.len() >= 2
            &&& path[1] == add_spec(start, d)
            &&& forall|q: Seq<GridVec>|
                #[trigger] walk_between(cost_fn, goal, start, goal, q) ==> walk_cost(cost_fn, goal, path) <= walk_cost(
                    cost_fn,
                    goal,
                    q,
                )
        }
}

/// The A* heuristic: Chebyshev distance to the goal in base steps.
pub open spec fn heur(p: GridVec, goal: GridVec) -> int {
    chebyshev(p, goal) * COST_BASE
}

/// Under the route assumptions a step costs at least `COST_BASE`, and the
/// reported cost when the tile is passable.
proof fn lemma_step_cost<F: Fn(GridVec) -> Option<i32>>(cost_fn: F, goal: GridVec, p: GridVec)
    requires
        route_costs_ok(cost_fn),
        p == goal || passable(cost_fn, p),
    ensures
        step_cost(cost_fn, goal, p) >= COST_BASE,
        p != goal ==> call_ensures(cost_fn, (p,), Some(step_cost(cost_fn, goal, p) as i32)),
{
    if p != goal {
        let c = choose|c: i32| call_ensures(cost_fn, (p,), Some(c));
        assert(call_ensures(cost_fn, (p,), Some(c)));
    }
}

/// A walk's cost covers the heuristic drop along it: from index `j` to
/// the end it costs at least `heur(path[j]) - heur(end)`, on top of the
/// cost up to `j`.
proof fn lemma_walk_heur<F: Fn(GridVec) -> Option<i32>>(cost_fn: F, goal: GridVec, path: Seq<GridVec>, j: int)
    requires
        route_costs_ok(cost_fn),
        is_walk(cost_fn, goal, path),
        0 <= j < path.len(),
    ensures
        walk_cost(cost_fn, goal, path) >= walk_cost(cost_fn, goal, path.take(j + 1)) + heur(path[j], goal) - heur(
            path.last(),
            goal,
        ),
    decreases path.len(),
{
    if j == path.len() - 1 {
        assert(path.take(j + 1) =~= path);
    } else {
        let p = path.drop_last();
        assert(is_walk(cost_fn, goal, p)) by {
            assert forall|i: int| 0 <= i < p.len() - 1 implies king_adjacent(#[trigger] p[i], p[i + 1]) by {
                assert(p[i] == path[i] && p[i + 1] == path[i + 1]);
            }
            assert forall|i: int| 0 < i < p.len() implies (#[trigger] p[i] == goal || passable(cost_fn, p[i])) by {
                assert(p[i] == path[i]);
            }
        }
        lemma_walk_heur(cost_fn, goal, p, j);
        assert(p.take(j + 1) =~= path.take(j + 1));
        let n = path.len();
        assert(king_adjacent(path[n - 2], path[n - 1]));
        assert(path[n - 1] == goal || passable(cost_fn, path[n - 1]));
        lemma_step_cost(cost_fn, goal, path[n - 1]);
        assert(p.last() == path[n - 2]);
        assert(heur(path[n - 2], goal) <= heur(path[n - 1], goal) + COST_BASE) by {
            assert(chebyshev(path[n - 2], goal) <= chebyshev(path[n - 1], goal) + 1);
            assert(chebyshev(path[n - 2], goal) * COST_BASE <= (chebyshev(path[n - 1], goal) + 1) * COST_BASE) by (nonlinear_arith)
                requires chebyshev(path[n - 2], goal) <= chebyshev(path[n - 1], goal) + 1;
        }
    }
}

/// A walk is non-negative in cost, and its prefixes cost no more.
proof fn lemma_walk_prefix<F: Fn(GridVec) -> Option<i32>>(cost_fn: F, goal: GridVec, path: Seq<GridVec>, j: int)
    requires
        route_costs_ok(cost_fn),
        is_walk(cost_fn, goal, path),
        0 <= j < path.len(),
    ensures
        walk_cost(cost_fn, goal, path.take(j + 1)) <= walk_cost(cost_fn, goal, path),
        walk_cost(cost_fn, goal, path.take(j + 1)) >= 0,
        j >= 1 ==> walk_cost(cost_fn, goal, path.take(j + 1)) == walk_cost(cost_fn, goal, path.take(j)) + step_cost(
            cost_fn,
            goal,
            path[j],
        ),
    decreases path.len(),
{
    if j >= 1 {
        assert(path.take(j + 1).drop_last() =~= path.take(j));
        assert(path.take(j + 1).last() == path[j]);
    }
    if j == path.len() - 1 {
        assert(path.take(j + 1) =~= path);
        if path.len() > 1 {
            let p = path.drop_last();
            assert(is_walk(cost_fn, goal, p)) by {
                assert forall|i: int| 0 <= i < p.len() - 1 implies king_adjacent(#[trigger] p[i], p[i + 1]) by {
                    assert(p[i] == path[i] && p[i + 1] == path[i + 1]);
                }
                assert forall|i: int| 0 < i < p.len() implies (#[trigger] p[i] == goal || passable(cost_fn, p[i])) by {
                    assert(p[i] == path[i]);
                }
            }
            lemma_walk_prefix(cost_fn, goal, p, p.len() - 1);
            assert(p.take(p.len() as int) =~= p);
            let n = path.len();
            assert(path[n - 1] == goal || passable(cost_fn, path[n - 1]));
            lemma_step_cost(cost_fn, goal, path[n - 1]);
        }
    } else {
        let p = path.drop_last();
        assert(is_walk(cost_fn, goal, p)) by {
            assert forall|i: int| 0 <= i < p.len() - 1 implies king_adjacent(#[trigger] p[i], p[i + 1]) by {
                assert(p[i] == path[i] && p[i + 1] == path[i + 1]);
            }
            assert forall|i: int| 0 < i < p.len() implies (#[trigger] p[i] == goal || passable(cost_fn, p[i])) by {
                assert(p[i] == path[i]);
            }
        }
        lemma_walk_prefix(cost_fn, goal, p, j);
        assert(p.take(j + 1) =~= path.take(j + 1));
        if j >= 1 {
            assert(p.take(j) =~= path.take(j));
        }
        let n = path.len();
        assert(path[n - 1] == goal || passable(cost_fn, path[n - 1]));
        lemma_step_cost(cost_fn, goal, path[n - 1]);
        lemma_walk_prefix(cost_fn, goal, p, p.len() - 1);
        assert(p.take(p.len() as int) =~= p);
    }
}

/// A tile discovered by a search, with its best known cost and the index
/// of the tile it was reached from.
#[derive(Clone, Copy)]
struct SearchNode {
    pos: GridVec,
    g: i32,
    parent: Option<usize>,
    closed: bool,
}

/// An entry of the open list: priority `f`, heuristic `h`, tile, and the
/// index of the tile's search node.
#[derive(Clone, Copy)]
struct OpenEntry {
    f: i32,
    h: i32,
    pos: GridVec,
    node: usize,
}

/// The order in which the open list is served: by `f`, then `h`, then
/// the tile (x before y).
spec fn entry_before(a: OpenEntry, b: OpenEntry) -> bool {
    a.f < b.f || (a.f == b.f && (a.h < b.h || (a.h == b.h && (a.pos.x < b.pos.x || (a.pos.x
        == b.pos.x && a.pos.y < b.pos.y)))))
}

/// Removes and returns an entry of the open list that no other entry
/// precedes.
fn pop_min(open: &mut Vec<OpenEntry>) -> (e: OpenEntry)
    requires
        old(open)@.len() > 0,
    ensures
        exists|k: int|
            0 <= k < old(open)@.len() && old(open)@[k] == e && final(open)@ == old(open)@.remove(k),
        forall|j: int| 0 <= j < old(open)@.len() ==> !entry_before(#[trigger] old(open)@[j], e),
{
    let mut best: usize = 0;
    let mut i: usize = 1;
    while i < open.len()
        invariant
            1 <= i <= open@.len(),
            best < open@.len(),
            forall|j: int| 0 <= j < i ==> !entry_before(#[trigger] open@[j], open@[best as int]),
        decreases open@.len() - i,
    {
        let a = open[i];
        let b = open[best];
        if a.f < b.f || (a.f == b.f && (a.h < b.h || (a.h == b.h && (a.pos.x < b.pos.x || (a.pos.x
            == b.pos.x && a.pos.y < b.pos.y))))) {
            best = i;
        }
        i = i + 1;
    }
    let e = open.remove(best);
    e
}

/// Index of the search node for tile `p`, if the tile was discovered.
fn find_node(nodes: &Vec<SearchNode>, p: GridVec) -> (r: Option<usize>)
    ensures
        match r {
            Some(i) => i < nodes@.len() && nodes@[i as int].pos == p,
            None => forall|i: int| 0 <= i < nodes@.len() ==> #[trigger] nodes@[i].pos != p,
        },
{
    let mut i: usize = 0;
    while i < nodes.len()
        invariant
            i <= nodes@.len(),
            forall|j: int| 0 <= j < i ==> #[trigger] nodes@[j].pos != p,
        decreases nodes@.len() - i,
    {
        if nodes[i].pos == p {
            return Some(i);
        }
        i = i + 1;
    }
    None
}

/// The A* search tree: the start tile heads it, every other node links to
/// an adjacent node it was reached from, is the goal or passable, lies
/// within `depth` moves of the start and has a cost of magnitude at most
/// `depth * MAX_TILE_COST`.
#[verifier::opaque]
spec fn tree_ok<F: Fn(GridVec) -> Option<i32>>(
    cost_fn: F,
    start: GridVec,
    goal: GridVec,
    nodes: Seq<SearchNode>,
    depth: int,
) -> bool {
    &&& nodes.len() >= 1
    &&& nodes[0].pos == start
    &&& forall|i: int|
        0 <= i < nodes.len() ==> match (#[trigger] nodes[i]).parent {
            Some(p) => p < nodes.len() && king_adjacent(nodes[p as int].pos, nodes[i].pos) && (
            nodes[i].pos == goal || passable(cost_fn, nodes[i].pos)),
            None => i == 0,
        }
    &&& forall|i: int|
        0 <= i < nodes.len() ==> abs_int((#[trigger] nodes[i]).pos.x - start.x) <= depth && abs_int(
            nodes[i].pos.y - start.y,
        ) <= depth && abs_int(nodes[i].g as int) <= depth * MAX_TILE_COST
}

/// Every open entry refers to a node.
spec fn open_ok(open: Seq<OpenEntry>, n: int) -> bool {
    forall|k: int| 0 <= k < open.len() ==> (#[trigger] open[k]).node < n
}

/// What the search tree invariant says of node `i`.
proof fn lemma_tree_node<F: Fn(GridVec) -> Option<i32>>(
    cost_fn: F,
    start: GridVec,
    goal: GridVec,
    nodes: Seq<SearchNode>,
    depth: int,
    i: int,
)
    requires
        tree_ok(cost_fn, start, goal, nodes, depth),
        0 <= i < nodes.len(),
    ensures
        nodes[0].pos == start,
        match nodes[i].parent {
            Some(p) => p < nodes.len() && king_adjacent(nodes[p as int].pos, nodes[i].pos) && (
            nodes[i].pos == goal || passable(cost_fn, nodes[i].pos)),
            None => i == 0,
        },
        abs_int(nodes[i].pos.x - start.x) <= depth,
        abs_int(nodes[i].pos.y - start.y) <= depth,
        abs_int(nodes[i].g as int) <= depth * MAX_TILE_COST,
{
    reveal(tree_ok);
}

/// The move that following parent links from node `i` for at most `fuel`
/// links finds: the step from `start` onto the first node on the way whose
/// parent stands on `start`; `None` when a node without a parent comes
/// first or the links run out.
spec fn chain_step(nodes: Seq<SearchNode>, i: int, start: GridVec, fuel: nat) -> Option<GridVec>
    decreases fuel,
{
    if fuel == 0 {
        None
    } else {
        match nodes[i].parent {
            None => None,
            Some(p) => if nodes[p as int].pos == start {
                Some(sub_spec(nodes[i].pos, start))
            } else {
                chain_step(nodes, p as int, start, (fuel - 1) as nat)
            },
        }
    }
}

/// How many search nodes are closed.
spec fn count_closed(s: Seq<SearchNode>) -> int
    decreases s.len(),
{
    if s.len() == 0 {
        0
    } else {
        count_closed(s.drop_last()) + if s.last().closed { 1int } else { 0int }
    }
}

/// Closing or changing one node changes the count by its flag.
proof fn lemma_count_update(s: Seq<SearchNode>, i: int, x: SearchNode)
    requires
        0 <= i < s.len(),
    ensures
        count_closed(s.update(i, x)) == count_closed(s) - (if s[i].closed { 1int } else { 0int }) + (if x.closed {
            1int
        } else {
            0int
        }),
    decreases s.len(),
{
    let t = s.update(i, x);
    if i == s.len() - 1 {
        assert(t.drop_last() =~= s.drop_last());
    } else {
        assert(t.drop_last() =~= s.drop_last().update(i, x));
        lemma_count_update(s.drop_last(), i, x);
    }
}

/// Adding a node adds its flag to the count.
proof fn lemma_count_push(s: Seq<SearchNode>, x: SearchNode)
    ensures
        count_closed(s.push(x)) == count_closed(s) + (if x.closed { 1int } else { 0int }),
{
    assert(s.push(x).drop_last() =~= s);
}

/// With an open node among them, fewer nodes are closed than there are
/// nodes.
proof fn lemma_count_bound(s: Seq<SearchNode>, i: int)
    requires
        0 <= i < s.len(),
        !s[i].closed,
    ensures
        0 <= count_closed(s) <= s.len() - 1,
    decreases s.len(),
{
    lemma_count_le(s.drop_last());
    if i < s.len() - 1 {
        lemma_count_bound(s.drop_last(), i);
    }
}

/// At most every node is closed.
proof fn lemma_count_le(s: Seq<SearchNode>)
    ensures
        0 <= count_closed(s) <= s.len(),
    decreases s.len(),
{
    if s.len() > 0 {
        lemma_count_le(s.drop_last());
    }
}

/// Node `i`'s cost is no more than any walk to its tile.
spec fn node_optimal<F: Fn(GridVec) -> Option<i32>>(cost_fn: F, start: GridVec, goal: GridVec, nodes: Seq<SearchNode>, i: int) -> bool {
    forall|q: Seq<GridVec>|
        #[trigger] walk_between(cost_fn, goal, start, nodes[i].pos, q) ==> nodes[i].g <= walk_cost(cost_fn, goal, q)
}

/// Tile `y` has a node no costlier than reaching it through node `i`.
spec fn relaxed_at<F: Fn(GridVec) -> Option<i32>>(cost_fn: F, goal: GridVec, nodes: Seq<SearchNode>, i: int, y: GridVec) -> bool {
    exists|j: int| 0 <= j < nodes.len() && nodes[j].pos == y && #[trigger] nodes[j].g <= nodes[i].g + step_cost(cost_fn, goal, y)
}

/// Every enterable neighbour of node `i` is relaxed.
spec fn neighbors_relaxed<F: Fn(GridVec) -> Option<i32>>(cost_fn: F, goal: GridVec, nodes: Seq<SearchNode>, i: int) -> bool {
    forall|y: GridVec|
        king_adjacent(nodes[i].pos, y) && (y == goal || passable(cost_fn, y)) ==> #[trigger] relaxed_at(cost_fn, goal, nodes, i, y)
}

/// Node `i` other than the start links to a closed parent, and its walk
/// extends the parent's by its own tile.
spec fn parent_ok(nodes: Seq<SearchNode>, walks: Seq<Seq<GridVec>>, i: int) -> bool {
    match nodes[i].parent {
        Some(p) => p < nodes.len() && nodes[p as int].closed && walks[i] == walks[p as int].push(nodes[i].pos),
        None => i == 0,
    }
}

/// Node `i`'s priority is no more than any walk to the goal costs.
spec fn node_promising<F: Fn(GridVec) -> Option<i32>>(cost_fn: F, start: GridVec, goal: GridVec, nodes: Seq<SearchNode>, i: int) -> bool {
    forall|q: Seq<GridVec>|
        #[trigger] walk_between(cost_fn, goal, start, goal, q) ==> nodes[i].g + heur(nodes[i].pos, goal) <= walk_cost(
            cost_fn,
            goal,
            q,
        )
}

/// Node `i` has an open entry with its exact priority.
spec fn has_exact_entry(nodes: Seq<SearchNode>, open: Seq<OpenEntry>, goal: GridVec, i: int) -> bool {
    exists|k: int| 0 <= k < open.len() && (#[trigger] open[k]).node == i && open[k].f == nodes[i].g + heur(nodes[i].pos, goal)
}

/// The A* bookkeeping under the route assumptions: `walks[i]` is a walk to
/// node `i`'s tile costing its `g`, linked through closed parents; tiles
/// are distinct; closed nodes are optimal and (but `expanding`) have
/// relaxed every neighbour; open nodes have an exact entry and no entry
/// promises less than its node; the goal is never closed; `explored`
/// nodes are closed; walks are no longer than the closed count allows; and
/// every closed node promised no more than the cheapest walk to the goal.
#[verifier::opaque]
spec fn route_inv<F: Fn(GridVec) -> Option<i32>>(
    cost_fn: F,
    start: GridVec,
    goal: GridVec,
    nodes: Seq<SearchNode>,
    open: Seq<OpenEntry>,
    walks: Seq<Seq<GridVec>>,
    explored: int,
    expanding: int,
) -> bool {
    &&& walks.len() == nodes.len()
    &&& nodes.len() >= 1
    &&& nodes[0].pos == start
    &&& nodes[0].g == 0
    &&& nodes[0].parent is None
    &&& walks[0] == seq![start]
    &&& forall|i: int|
        0 <= i < nodes.len() ==> walk_between(cost_fn, goal, start, (#[trigger] nodes[i]).pos, walks[i]) && walk_cost(
            cost_fn,
            goal,
            walks[i],
        ) == nodes[i].g
    &&& forall|i: int| 0 <= i < nodes.len() ==> #[trigger] parent_ok(nodes, walks, i)
    &&& forall|i: int, j: int|
        0 <= i < nodes.len() && 0 <= j < nodes.len() && i != j ==> (#[trigger] nodes[i]).pos != (#[trigger] nodes[j]).pos
    &&& forall|i: int| 0 <= i < nodes.len() && (#[trigger] nodes[i]).closed ==> node_optimal(cost_fn, start, goal, nodes, i)
    &&& forall|i: int|
        0 <= i < nodes.len() && (#[trigger] nodes[i]).closed && i != expanding ==> neighbors_relaxed(cost_fn, goal, nodes, i)
    &&& forall|i: int| 0 <= i < nodes.len() && !(#[trigger] nodes[i]).closed ==> has_exact_entry(nodes, open, goal, i)
    &&& forall|k: int|
        0 <= k < open.len() ==> (#[trigger] open[k]).node < nodes.len() && open[k].f >= nodes[open[k].node as int].g
            + heur(nodes[open[k].node as int].pos, goal)
    &&& forall|i: int| 0 <= i < nodes.len() && (#[trigger] nodes[i]).pos == goal ==> !nodes[i].closed
    &&& count_closed(nodes) == explored
    &&& forall|i: int|
        0 <= i < nodes.len() ==> (#[trigger] walks[i]).len() <= explored + (if nodes[i].closed { 0int } else { 1int })
    &&& forall|i: int| 0 <= i < nodes.len() && (#[trigger] nodes[i]).closed ==> node_promising(cost_fn, start, goal, nodes, i)
}

/// Following walk `q` from index `j`, where node `x` (closed, on `q[j]`)
/// costs no more than the walk so far: some later tile of `q` has an open
/// node costing no more than the walk up to it, or the walk's end has a
/// closed node.
proof fn lemma_first_open_from<F: Fn(GridVec) -> Option<i32>>(
    cost_fn: F,
    start: GridVec,
    goal: GridVec,
    nodes: Seq<SearchNode>,
    open: Seq<OpenEntry>,
    walks: Seq<Seq<GridVec>>,
    explored: int,
    q: Seq<GridVec>,
    j: int,
    x: int,
)
    requires
        route_costs_ok(cost_fn),
        route_inv(cost_fn, start, goal, nodes, open, walks, explored, -1),
        is_walk(cost_fn, goal, q),
        0 <= j < q.len(),
        0 <= x < nodes.len(),
        nodes[x].pos == q[j],
        nodes[x].closed,
        nodes[x].g <= walk_cost(cost_fn, goal, q.take(j + 1)),
    ensures
        (exists|jj: int, m: int|
            0 <= jj < q.len() && 0 <= m < nodes.len() && nodes[m].pos == q[jj] && !nodes[m].closed && nodes[m].g
                <= walk_cost(cost_fn, goal, q.take(jj + 1))) || (exists|m: int|
            0 <= m < nodes.len() && nodes[m].pos == q.last() && nodes[m].closed),
    decreases q.len() - j,
{
    reveal(route_inv);
    if j == q.len() - 1 {
        assert(nodes[x].pos == q.last());
    } else {
        let y = q[j + 1];
        assert(king_adjacent(q[j], q[j + 1]));
        assert(y == goal || passable(cost_fn, y));
        assert(neighbors_relaxed(cost_fn, goal, nodes, x));
        assert(relaxed_at(cost_fn, goal, nodes, x, y));
        let m = choose|m: int| 0 <= m < nodes.len() && nodes[m].pos == y && #[trigger] nodes[m].g <= nodes[x].g + step_cost(cost_fn, goal, y);
        lemma_walk_prefix(cost_fn, goal, q, j + 1);
        if !nodes[m].closed {
        } else {
            lemma_first_open_from(cost_fn, start, goal, nodes, open, walks, explored, q, j + 1, m);
        }
    }
}

/// Every walk from the start has a tile with an open node costing no more
/// than the walk up to it, or ends on a closed node.
proof fn lemma_first_open<F: Fn(GridVec) -> Option<i32>>(
    cost_fn: F,
    start: GridVec,
    goal: GridVec,
    nodes: Seq<SearchNode>,
    open: Seq<OpenEntry>,
    walks: Seq<Seq<GridVec>>,
    explored: int,
    t: GridVec,
    q: Seq<GridVec>,
)
    requires
        route_costs_ok(cost_fn),
        route_inv(cost_fn, start, goal, nodes, open, walks, explored, -1),
        walk_between(cost_fn, goal, start, t, q),
    ensures
        (exists|jj: int, m: int|
            0 <= jj < q.len() && 0 <= m < nodes.len() && nodes[m].pos == q[jj] && !nodes[m].closed && nodes[m].g
                <= walk_cost(cost_fn, goal, q.take(jj + 1))) || (exists|m: int|
            0 <= m < nodes.len() && nodes[m].pos == t && nodes[m].closed),
{
    reveal(route_inv);
    lemma_walk_prefix(cost_fn, goal, q, 0);
    if !nodes[0].closed {
        assert(nodes[0].pos == q[0]);
    } else {
        lemma_first_open_from(cost_fn, start, goal, nodes, open, walks, explored, q, 0, 0);
    }
}

/// The entry popped for an open node carries its exact priority, and the
/// node's cost is no more than any walk to its tile.
proof fn lemma_popped<F: Fn(GridVec) -> Option<i32>>(
    cost_fn: F,
    start: GridVec,
    goal: GridVec,
    nodes: Seq<SearchNode>,
    open: Seq<OpenEntry>,
    walks: Seq<Seq<GridVec>>,
    explored: int,
    w: int,
)
    requires
        route_costs_ok(cost_fn),
        route_inv(cost_fn, start, goal, nodes, open, walks, explored, -1),
        0 <= w < open.len(),
        forall|k: int| 0 <= k < open.len() ==> !entry_before(#[trigger] open[k], open[w]),
        !nodes[open[w].node as int].closed,
    ensures
        open[w].f == nodes[open[w].node as int].g + heur(nodes[open[w].node as int].pos, goal),
        node_optimal(cost_fn, start, goal, nodes, open[w].node as int),
        node_promising(cost_fn, start, goal, nodes, open[w].node as int),
{
    reveal(route_inv);
    let v = open[w].node as int;
    assert forall|q: Seq<GridVec>| #[trigger] walk_between(cost_fn, goal, start, goal, q) implies nodes[v].g + heur(
        nodes[v].pos,
        goal,
    ) <= walk_cost(cost_fn, goal, q) by {
        lemma_first_open(cost_fn, start, goal, nodes, open, walks, explored, goal, q);
        if exists|m: int| 0 <= m < nodes.len() && nodes[m].pos == goal && nodes[m].closed {
            let m = choose|m: int| 0 <= m < nodes.len() && nodes[m].pos == goal && nodes[m].closed;
            assert(!nodes[m].closed);
        } else {
            let (jj, m) = choose|jj: int, m: int|
                0 <= jj < q.len() && 0 <= m < nodes.len() && nodes[m].pos == q[jj] && !nodes[m].closed && nodes[m].g
                    <= walk_cost(cost_fn, goal, q.take(jj + 1));
            assert(has_exact_entry(nodes, open, goal, m));
            let km = choose|k: int| 0 <= k < open.len() && (#[trigger] open[k]).node == m && open[k].f == nodes[m].g + heur(nodes[m].pos, goal);
            assert(!entry_before(open[km], open[w]));
            lemma_walk_heur(cost_fn, goal, q, jj);
            assert(heur(q.last(), goal) == 0);
        }
    }
    assert(has_exact_entry(nodes, open, goal, v));
    let kv = choose|k: int| 0 <= k < open.len() && (#[trigger] open[k]).node == v && open[k].f == nodes[v].g + heur(nodes[v].pos, goal);
    assert(!entry_before(open[kv], open[w]));
    assert(open[w].f >= nodes[v].g + heur(nodes[v].pos, goal));
    assert forall|q: Seq<GridVec>| #[trigger] walk_between(cost_fn, goal, start, nodes[v].pos, q) implies nodes[v].g <= walk_cost(
        cost_fn,
        goal,
        q,
    ) by {
        lemma_first_open(cost_fn, start, goal, nodes, open, walks, explored, nodes[v].pos, q);
        if exists|m: int| 0 <= m < nodes.len() && nodes[m].pos == nodes[v].pos && nodes[m].closed {
            let m = choose|m: int| 0 <= m < nodes.len() && nodes[m].pos == nodes[v].pos && nodes[m].closed;
            assert(m == v);
        } else {
            let (jj, m) = choose|jj: int, m: int|
                0 <= jj < q.len() && 0 <= m < nodes.len() && nodes[m].pos == q[jj] && !nodes[m].closed && nodes[m].g
                    <= walk_cost(cost_fn, goal, q.take(jj + 1));
            assert(has_exact_entry(nodes, open, goal, m));
            let km = choose|k: int| 0 <= k < open.len() && (#[trigger] open[k]).node == m && open[k].f == nodes[m].g + heur(nodes[m].pos, goal);
            assert(!entry_before(open[km], open[w]));
            lemma_walk_heur(cost_fn, goal, q, jj);
        }
    }
}

/// Following parent links from node `i` finds the second tile of its walk.
proof fn lemma_chain_first<F: Fn(GridVec) -> Option<i32>>(
    cost_fn: F,
    start: GridVec,
    goal: GridVec,
    nodes: Seq<SearchNode>,
    open: Seq<OpenEntry>,
    walks: Seq<Seq<GridVec>>,
    explored: int,
    i: int,
    fuel: nat,
)
    requires
        route_inv(cost_fn, start, goal, nodes, open, walks, explored, -1),
        0 <= i < nodes.len(),
        walks[i].len() >= 2,
        fuel >= walks[i].len() - 1,
    ensures
        chain_step(nodes, i, start, fuel) == Some(sub_spec(walks[i][1], start)),
    decreases walks[i].len(),
{
    reveal(route_inv);
    assert(walk_between(cost_fn, goal, start, nodes[i].pos, walks[i]));
    assert(parent_ok(nodes, walks, i));
    match nodes[i].parent {
        Some(p) => {
            let p = p as int;
            assert(walks[i] == walks[p].push(nodes[i].pos));
            assert(walk_between(cost_fn, goal, start, nodes[p].pos, walks[p]));
            if walks[p].len() == 1 {
                assert(nodes[p].pos == start);
                assert(walks[i][1] == nodes[i].pos);
            } else {
                if p == 0 {
                    assert(walks[p].len() == 1);
                }
                assert(nodes[p].pos != nodes[0].pos);
                lemma_chain_first(cost_fn, start, goal, nodes, open, walks, explored, p, (fuel - 1) as nat);
                assert(walks[i][1] == walks[p][1]);
            }
        },
        None => {
            assert(i == 0);
        },
    }
}

/// A later state of the search: no node is lost or moved, costs only
/// fall, and closed nodes are untouched.
spec fn nodes_refined(before: Seq<SearchNode>, after: Seq<SearchNode>) -> bool {
    &&& after.len() >= before.len()
    &&& forall|i: int|
        0 <= i < before.len() ==> (#[trigger] after[i]).pos == before[i].pos && after[i].g <= before[i].g && (
        before[i].closed ==> after[i] == before[i])
}

/// A relaxed neighbour of a closed node stays relaxed as costs fall.
proof fn lemma_relaxed_refined<F: Fn(GridVec) -> Option<i32>>(
    cost_fn: F,
    goal: GridVec,
    before: Seq<SearchNode>,
    after: Seq<SearchNode>,
    i: int,
    y: GridVec,
)
    requires
        nodes_refined(before, after),
        0 <= i < before.len(),
        before[i].closed,
        relaxed_at(cost_fn, goal, before, i, y),
    ensures
        relaxed_at(cost_fn, goal, after, i, y),
{
    let j = choose|j: int| 0 <= j < before.len() && before[j].pos == y && #[trigger] before[j].g <= before[i].g + step_cost(cost_fn, goal, y);
    assert(after[i] == before[i]);
    assert(after[j].pos == y && after[j].g <= after[i].g + step_cost(cost_fn, goal, y));
}

/// The cost the search charges for entering `y` is its step cost, and
/// `y` may be entered.
proof fn lemma_step_cost_is<F: Fn(GridVec) -> Option<i32>>(cost_fn: F, goal: GridVec, y: GridVec, c: i32)
    requires
        route_costs_ok(cost_fn),
        y == goal ==> c == COST_BASE,
        y != goal ==> call_ensures(cost_fn, (y,), Some(c)),
    ensures
        step_cost(cost_fn, goal, y) == c,
        step_cost(cost_fn, goal, y) >= COST_BASE,
        y == goal || passable(cost_fn, y),
{
    if y != goal {
        let c2 = choose|c2: i32| call_ensures(cost_fn, (y,), Some(c2));
        assert(call_ensures(cost_fn, (y,), Some(c2)));
        assert(Some(c2) == Some(c));
    }
}

/// A tile the cost function reports impassable cannot be reported
/// passable.
proof fn lemma_blocked<F: Fn(GridVec) -> Option<i32>>(cost_fn: F, y: GridVec)
    requires
        route_costs_ok(cost_fn),
        call_ensures(cost_fn, (y,), None),
    ensures
        !passable(cost_fn, y),
{
    if passable(cost_fn, y) {
        let c = choose|c: i32| #[trigger] call_ensures(cost_fn, (y,), Some(c));
        assert(call_ensures(cost_fn, (y,), Some(c)));
    }
}

/// Extending a walk to `t` by a king move onto an enterable tile `y`
/// gives a walk to `y` that costs one more step.
proof fn lemma_walk_push<F: Fn(GridVec) -> Option<i32>>(
    cost_fn: F,
    start: GridVec,
    goal: GridVec,
    t: GridVec,
    w: Seq<GridVec>,
    y: GridVec,
)
    requires
        walk_between(cost_fn, goal, start, t, w),
        king_adjacent(t, y),
        y == goal || passable(cost_fn, y),
    ensures
        walk_between(cost_fn, goal, start, y, w.push(y)),
        walk_cost(cost_fn, goal, w.push(y)) == walk_cost(cost_fn, goal, w) + step_cost(cost_fn, goal, y),
{
    let w2 = w.push(y);
    assert(w2.drop_last() =~= w);
    assert forall|i: int| 0 <= i < w2.len() - 1 implies king_adjacent(#[trigger] w2[i], w2[i + 1]) by {
        if i < w.len() - 1 {
            assert(w2[i] == w[i] && w2[i + 1] == w[i + 1]);
        } else {
            assert(w2[i] == t);
        }
    }
    assert forall|i: int| 0 < i < w2.len() implies (#[trigger] w2[i] == goal || passable(cost_fn, w2[i])) by {
        if i < w.len() {
            assert(w2[i] == w[i]);
        }
    }
}

/// The search starts with the start tile open at its heuristic priority.
proof fn lemma_inv_init<F: Fn(GridVec) -> Option<i32>>(
    cost_fn: F,
    start: GridVec,
    goal: GridVec,
    nodes: Seq<SearchNode>,
    open: Seq<OpenEntry>,
)
    requires
        nodes == seq![SearchNode { pos: start, g: 0, parent: None, closed: false }],
        open.len() == 1,
        open[0].node == 0,
        open[0].f == heur(start, goal),
        start != goal,
    ensures
        route_inv(cost_fn, start, goal, nodes, open, seq![seq![start]], 0, -1),
{
    reveal(route_inv);
    let walks = seq![seq![start]];
    assert(walk_cost(cost_fn, goal, seq![start]) == 0);
    assert(walk_between(cost_fn, goal, start, start, seq![start]));
    assert(has_exact_entry(nodes, open, goal, 0)) by {
        assert(open[0].node == 0);
    }
    assert(nodes.drop_last() =~= Seq::<SearchNode>::empty());
    assert(count_closed(nodes.drop_last()) == 0);
    assert(count_closed(nodes) == 0);
    assert(parent_ok(nodes, walks, 0));
}

/// Dropping the popped entry of a closed node keeps the bookkeeping.
proof fn lemma_inv_drop_closed<F: Fn(GridVec) -> Option<i32>>(
    cost_fn: F,
    start: GridVec,
    goal: GridVec,
    nodes: Seq<SearchNode>,
    open: Seq<OpenEntry>,
    walks: Seq<Seq<GridVec>>,
    explored: int,
    w: int,
)
    requires
        route_inv(cost_fn, start, goal, nodes, open, walks, explored, -1),
        0 <= w < open.len(),
        open[w].node < nodes.len(),
        nodes[open[w].node as int].closed,
    ensures
        route_inv(cost_fn, start, goal, nodes, open.remove(w), walks, explored, -1),
{
    reveal(route_inv);
    let o2 = open.remove(w);
    assert forall|i: int| 0 <= i < nodes.len() && !(#[trigger] nodes[i]).closed implies has_exact_entry(nodes, o2, goal, i) by {
        assert(has_exact_entry(nodes, open, goal, i));
        let k = choose|k: int| 0 <= k < open.len() && (#[trigger] open[k]).node == i && open[k].f == nodes[i].g + heur(nodes[i].pos, goal);
        assert(k != w);
        if k < w {
            assert(o2[k] == open[k]);
        } else {
            assert(o2[k - 1] == open[k]);
        }
    }
    assert forall|k: int| 0 <= k < o2.len() implies (#[trigger] o2[k]).node < nodes.len() && o2[k].f >= nodes[o2[k].node as int].g
        + heur(nodes[o2[k].node as int].pos, goal) by {
        let kk = if k < w { k } else { k + 1 };
        assert(o2[k] == open[kk]);
    }
}

/// Closing the popped open node, which is not the goal, keeps the
/// bookkeeping, with that node now being expanded.
#[verifier::rlimit(40)]
proof fn lemma_inv_close<F: Fn(GridVec) -> Option<i32>>(
    cost_fn: F,
    start: GridVec,
    goal: GridVec,
    nodes: Seq<SearchNode>,
    open: Seq<OpenEntry>,
    walks: Seq<Seq<GridVec>>,
    explored: int,
    w: int,
)
    requires
        route_costs_ok(cost_fn),
        route_inv(cost_fn, start, goal, nodes, open, walks, explored, -1),
        0 <= w < open.len(),
        forall|k: int| 0 <= k < open.len() ==> !entry_before(#[trigger] open[k], open[w]),
        open[w].node < nodes.len(),
        !nodes[open[w].node as int].closed,
        nodes[open[w].node as int].pos != goal,
    ensures
        route_inv(
            cost_fn,
            start,
            goal,
            nodes.update(open[w].node as int, SearchNode { closed: true, ..nodes[open[w].node as int] }),
            open.remove(w),
            walks,
            explored + 1,
            open[w].node as int,
        ),
{
    let ci = open[w].node as int;
    lemma_popped(cost_fn, start, goal, nodes, open, walks, explored, w);
    reveal(route_inv);
    let n2 = nodes.update(ci, SearchNode { closed: true, ..nodes[ci] });
    let o2 = open.remove(w);
    lemma_count_update(nodes, ci, n2[ci]);
    assert(nodes_refined(nodes, n2)) by {
        assert forall|i: int| 0 <= i < nodes.len() implies (#[trigger] n2[i]).pos == nodes[i].pos && n2[i].g
            <= nodes[i].g && (nodes[i].closed ==> n2[i] == nodes[i]) by {
            if i != ci {
                assert(n2[i] == nodes[i]);
            }
        }
    }
    assert forall|i: int| 0 <= i < n2.len() implies walk_between(cost_fn, goal, start, (#[trigger] n2[i]).pos, walks[i])
        && walk_cost(cost_fn, goal, walks[i]) == n2[i].g by {
        assert(n2[i].pos == nodes[i].pos && n2[i].g == nodes[i].g);
    }
    assert forall|i: int| 0 <= i < n2.len() implies #[trigger] parent_ok(n2, walks, i) by {
        assert(parent_ok(nodes, walks, i));
        assert(n2[i].parent == nodes[i].parent && n2[i].pos == nodes[i].pos);
        match nodes[i].parent {
            Some(p) => {
                assert(nodes[p as int].closed);
                if p as int != ci {
                    assert(n2[p as int] == nodes[p as int]);
                }
            },
            None => {},
        }
    }
    assert forall|i: int, j: int| 0 <= i < n2.len() && 0 <= j < n2.len() && i != j implies (#[trigger] n2[i]).pos
        != (#[trigger] n2[j]).pos by {
        assert(n2[i].pos == nodes[i].pos && n2[j].pos == nodes[j].pos);
    }
    assert forall|i: int| 0 <= i < n2.len() && (#[trigger] n2[i]).closed implies node_optimal(cost_fn, start, goal, n2, i)
        && node_promising(cost_fn, start, goal, n2, i) by {
        assert(n2[i].pos == nodes[i].pos && n2[i].g == nodes[i].g);
        if i != ci {
            assert(nodes[i].closed);
            assert(node_optimal(cost_fn, start, goal, nodes, i));
            assert(node_promising(cost_fn, start, goal, nodes, i));
        }
        assert forall|q: Seq<GridVec>| #[trigger] walk_between(cost_fn, goal, start, n2[i].pos, q) implies n2[i].g
            <= walk_cost(cost_fn, goal, q) by {
            assert(walk_between(cost_fn, goal, start, nodes[i].pos, q));
        }
    }
    assert forall|i: int| 0 <= i < n2.len() && (#[trigger] n2[i]).closed && i != ci implies neighbors_relaxed(
        cost_fn,
        goal,
        n2,
        i,
    ) by {
        assert(n2[i] == nodes[i]);
        assert(neighbors_relaxed(cost_fn, goal, nodes, i));
        assert forall|y: GridVec| king_adjacent(n2[i].pos, y) && (y == goal || passable(cost_fn, y)) implies #[trigger] relaxed_at(
            cost_fn,
            goal,
            n2,
            i,
            y,
        ) by {
            assert(relaxed_at(cost_fn, goal, nodes, i, y));
            lemma_relaxed_refined(cost_fn, goal, nodes, n2, i, y);
        }
    }
    assert forall|i: int| 0 <= i < n2.len() && !(#[trigger] n2[i]).closed implies has_exact_entry(n2, o2, goal, i) by {
        assert(i != ci);
        assert(n2[i] == nodes[i]);
        assert(has_exact_entry(nodes, open, goal, i));
        let k = choose|k: int| 0 <= k < open.len() && (#[trigger] open[k]).node == i && open[k].f == nodes[i].g + heur(nodes[i].pos, goal);
        assert(k != w);
        if k < w {
            assert(o2[k] == open[k]);
        } else {
            assert(o2[k - 1] == open[k]);
        }
    }
    assert forall|k: int| 0 <= k < o2.len() implies (#[trigger] o2[k]).node < n2.len() && o2[k].f >= n2[o2[k].node as int].g
        + heur(n2[o2[k].node as int].pos, goal) by {
        let kk = if k < w { k } else { k + 1 };
        assert(o2[k] == open[kk]);
        assert(open[kk].node < nodes.len());
        let m = open[kk].node as int;
        assert(n2[m].g == nodes[m].g && n2[m].pos == nodes[m].pos);
    }
    assert forall|i: int| 0 <= i < n2.len() && (#[trigger] n2[i]).pos == goal implies !n2[i].closed by {
        if i != ci {
            assert(n2[i] == nodes[i]);
        }
    }
    assert forall|i: int| 0 <= i < n2.len() implies (#[trigger] walks[i]).len() <= explored + 1 + (if n2[i].closed {
        0int
    } else {
        1int
    }) by {
        if i != ci {
            assert(n2[i] == nodes[i]);
        }
    }
}

/// Discovering the new tile `y` from the expanded node `ci` keeps the
/// bookkeeping and relaxes `y`.
#[verifier::rlimit(40)]
proof fn lemma_inv_push<F: Fn(GridVec) -> Option<i32>>(
    cost_fn: F,
    start: GridVec,
    goal: GridVec,
    nodes: Seq<SearchNode>,
    open: Seq<OpenEntry>,
    walks: Seq<Seq<GridVec>>,
    explored: int,
    ci: int,
    y: GridVec,
    c: i32,
    new_g: i32,
    f: i32,
    h: i32,
)
    requires
        route_costs_ok(cost_fn),
        route_inv(cost_fn, start, goal, nodes, open, walks, explored, ci),
        0 <= ci < nodes.len(),
        nodes.len() <= usize::MAX,
        nodes[ci].closed,
        king_adjacent(nodes[ci].pos, y),
        forall|i: int| 0 <= i < nodes.len() ==> #[trigger] nodes[i].pos != y,
        y == goal ==> c == COST_BASE,
        y != goal ==> call_ensures(cost_fn, (y,), Some(c)),
        new_g == nodes[ci].g + c,
        f == new_g + heur(y, goal),
    ensures
        ({
            let n2 = nodes.push(SearchNode { pos: y, g: new_g, parent: Some(ci as usize), closed: false });
            &&& route_inv(
                cost_fn,
                start,
                goal,
                n2,
                open.push(OpenEntry { f, h, pos: y, node: nodes.len() as usize }),
                walks.push(walks[ci].push(y)),
                explored,
                ci,
            )
            &&& nodes_refined(nodes, n2)
            &&& relaxed_at(cost_fn, goal, n2, ci, y)
        }),
{
    reveal(route_inv);
    let n = nodes.len() as int;
    let x = SearchNode { pos: y, g: new_g, parent: Some(ci as usize), closed: false };
    let n2 = nodes.push(x);
    let e = OpenEntry { f, h, pos: y, node: nodes.len() as usize };
    let o2 = open.push(e);
    let w2 = walks.push(walks[ci].push(y));
    lemma_step_cost_is(cost_fn, goal, y, c);
    assert(walk_between(cost_fn, goal, start, nodes[ci].pos, walks[ci]));
    lemma_walk_push(cost_fn, start, goal, nodes[ci].pos, walks[ci], y);
    lemma_count_push(nodes, x);
    assert(n2[n] == x && w2[n] == walks[ci].push(y));
    assert(nodes_refined(nodes, n2)) by {
        assert forall|i: int| 0 <= i < nodes.len() implies (#[trigger] n2[i]).pos == nodes[i].pos && n2[i].g
            <= nodes[i].g && (nodes[i].closed ==> n2[i] == nodes[i]) by {
            assert(n2[i] == nodes[i]);
        }
    }
    assert forall|i: int| 0 <= i < n2.len() implies walk_between(cost_fn, goal, start, (#[trigger] n2[i]).pos, w2[i])
        && walk_cost(cost_fn, goal, w2[i]) == n2[i].g by {
        if i < n {
            assert(n2[i] == nodes[i] && w2[i] == walks[i]);
        }
    }
    assert forall|i: int| 0 <= i < n2.len() implies #[trigger] parent_ok(n2, w2, i) by {
        if i < n {
            assert(parent_ok(nodes, walks, i));
            assert(n2[i] == nodes[i] && w2[i] == walks[i]);
            match nodes[i].parent {
                Some(p) => {
                    assert(n2[p as int] == nodes[p as int] && w2[p as int] == walks[p as int]);
                },
                None => {},
            }
        } else {
            assert(n2[ci] == nodes[ci] && w2[ci] == walks[ci]);
        }
    }
    assert forall|i: int, j: int| 0 <= i < n2.len() && 0 <= j < n2.len() && i != j implies (#[trigger] n2[i]).pos
        != (#[trigger] n2[j]).pos by {
        if i < n {
            assert(n2[i] == nodes[i]);
        }
        if j < n {
            assert(n2[j] == nodes[j]);
        }
    }
    assert forall|i: int| 0 <= i < n2.len() && (#[trigger] n2[i]).closed implies node_optimal(cost_fn, start, goal, n2, i)
        && node_promising(cost_fn, start, goal, n2, i) && (i != ci ==> neighbors_relaxed(cost_fn, goal, n2, i)) by {
        assert(i < n);
        assert(n2[i] == nodes[i]);
        assert(node_optimal(cost_fn, start, goal, nodes, i));
        assert(node_promising(cost_fn, start, goal, nodes, i));
        if i != ci {
            assert(neighbors_relaxed(cost_fn, goal, nodes, i));
            assert forall|z: GridVec| king_adjacent(n2[i].pos, z) && (z == goal || passable(cost_fn, z)) implies #[trigger] relaxed_at(
                cost_fn,
                goal,
                n2,
                i,
                z,
            ) by {
                assert(relaxed_at(cost_fn, goal, nodes, i, z));
                lemma_relaxed_refined(cost_fn, goal, nodes, n2, i, z);
            }
        }
    }
    assert forall|i: int| 0 <= i < n2.len() && !(#[trigger] n2[i]).closed implies has_exact_entry(n2, o2, goal, i) by {
        if i < n {
            assert(n2[i] == nodes[i]);
            assert(has_exact_entry(nodes, open, goal, i));
            let k = choose|k: int| 0 <= k < open.len() && (#[trigger] open[k]).node == i && open[k].f == nodes[i].g + heur(nodes[i].pos, goal);
            assert(o2[k] == open[k]);
        } else {
            assert(o2[open.len() as int] == e);
        }
    }
    assert forall|k: int| 0 <= k < o2.len() implies (#[trigger] o2[k]).node < n2.len() && o2[k].f >= n2[o2[k].node as int].g
        + heur(n2[o2[k].node as int].pos, goal) by {
        if k < open.len() {
            assert(o2[k] == open[k]);
            assert(open[k].node < nodes.len());
            assert(n2[open[k].node as int] == nodes[open[k].node as int]);
        }
    }
    assert forall|i: int| 0 <= i < n2.len() && (#[trigger] n2[i]).pos == goal implies !n2[i].closed by {
        if i < n {
            assert(n2[i] == nodes[i]);
        }
    }
    assert forall|i: int| 0 <= i < n2.len() implies (#[trigger] w2[i]).len() <= explored + (if n2[i].closed {
        0int
    } else {
        1int
    }) by {
        if i < n {
            assert(n2[i] == nodes[i] && w2[i] == walks[i]);
        } else {
            assert(walks[ci].len() <= explored);
        }
    }
    assert(n2[n].pos == y && n2[n].g <= n2[ci].g + step_cost(cost_fn, goal, y));
}

/// Finding a cheaper way from the expanded node `ci` to the open node `j`
/// keeps the bookkeeping and relaxes its tile.
#[verifier::rlimit(40)]
proof fn lemma_inv_update<F: Fn(GridVec) -> Option<i32>>(
    cost_fn: F,
    start: GridVec,
    goal: GridVec,
    nodes: Seq<SearchNode>,
    open: Seq<OpenEntry>,
    walks: Seq<Seq<GridVec>>,
    explored: int,
    ci: int,
    j: int,
    c: i32,
    new_g: i32,
    f: i32,
    h: i32,
)
    requires
        route_costs_ok(cost_fn),
        route_inv(cost_fn, start, goal, nodes, open, walks, explored, ci),
        0 <= ci < nodes.len(),
        nodes.len() <= usize::MAX,
        nodes[ci].closed,
        0 <= j < nodes.len(),
        !nodes[j].closed,
        king_adjacent(nodes[ci].pos, nodes[j].pos),
        nodes[j].pos == goal ==> c == COST_BASE,
        nodes[j].pos != goal ==> call_ensures(cost_fn, (nodes[j].pos,), Some(c)),
        new_g == nodes[ci].g + c,
        new_g < nodes[j].g,
        f == new_g + heur(nodes[j].pos, goal),
    ensures
        ({
            let n2 = nodes.update(j, SearchNode { g: new_g, parent: Some(ci as usize), ..nodes[j] });
            &&& route_inv(
                cost_fn,
                start,
                goal,
                n2,
                open.push(OpenEntry { f, h, pos: nodes[j].pos, node: j as usize }),
                walks.update(j, walks[ci].push(nodes[j].pos)),
                explored,
                ci,
            )
            &&& nodes_refined(nodes, n2)
            &&& relaxed_at(cost_fn, goal, n2, ci, nodes[j].pos)
        }),
{
    reveal(route_inv);
    let y = nodes[j].pos;
    let x = SearchNode { g: new_g, parent: Some(ci as usize), ..nodes[j] };
    let n2 = nodes.update(j, x);
    let e = OpenEntry { f, h, pos: y, node: j as usize };
    let o2 = open.push(e);
    let w2 = walks.update(j, walks[ci].push(y));
    lemma_step_cost_is(cost_fn, goal, y, c);
    assert(walk_between(cost_fn, goal, start, nodes[ci].pos, walks[ci]));
    lemma_walk_push(cost_fn, start, goal, nodes[ci].pos, walks[ci], y);
    lemma_walk_prefix(cost_fn, goal, walks[ci], walks[ci].len() - 1);
    assert(walks[ci].take(walks[ci].len() as int) =~= walks[ci]);
    assert(j != ci);
    assert(j != 0);
    lemma_count_update(nodes, j, x);
    assert(n2[ci] == nodes[ci] && w2[ci] == walks[ci]);
    assert(nodes_refined(nodes, n2)) by {
        assert forall|i: int| 0 <= i < nodes.len() implies (#[trigger] n2[i]).pos == nodes[i].pos && n2[i].g
            <= nodes[i].g && (nodes[i].closed ==> n2[i] == nodes[i]) by {
            if i != j {
                assert(n2[i] == nodes[i]);
            }
        }
    }
    assert forall|i: int| 0 <= i < n2.len() implies walk_between(cost_fn, goal, start, (#[trigger] n2[i]).pos, w2[i])
        && walk_cost(cost_fn, goal, w2[i]) == n2[i].g by {
        if i != j {
            assert(n2[i] == nodes[i] && w2[i] == walks[i]);
        }
    }
    assert forall|i: int| 0 <= i < n2.len() implies #[trigger] parent_ok(n2, w2, i) by {
        if i != j {
            assert(parent_ok(nodes, walks, i));
            assert(n2[i] == nodes[i] && w2[i] == walks[i]);
            match nodes[i].parent {
                Some(p) => {
                    assert(nodes[p as int].closed);
                    assert(p as int != j);
                    assert(n2[p as int] == nodes[p as int] && w2[p as int] == walks[p as int]);
                },
                None => {},
            }
        }
    }
    assert forall|a: int, b: int| 0 <= a < n2.len() && 0 <= b < n2.len() && a != b implies (#[trigger] n2[a]).pos
        != (#[trigger] n2[b]).pos by {
        assert(n2[a].pos == nodes[a].pos && n2[b].pos == nodes[b].pos);
    }
    assert forall|i: int| 0 <= i < n2.len() && (#[trigger] n2[i]).closed implies node_optimal(cost_fn, start, goal, n2, i)
        && node_promising(cost_fn, start, goal, n2, i) && (i != ci ==> neighbors_relaxed(cost_fn, goal, n2, i)) by {
        assert(i != j);
        assert(n2[i] == nodes[i]);
        assert(node_optimal(cost_fn, start, goal, nodes, i));
        assert(node_promising(cost_fn, start, goal, nodes, i));
        if i != ci {
            assert(neighbors_relaxed(cost_fn, goal, nodes, i));
            assert forall|z: GridVec| king_adjacent(n2[i].pos, z) && (z == goal || passable(cost_fn, z)) implies #[trigger] relaxed_at(
                cost_fn,
                goal,
                n2,
                i,
                z,
            ) by {
                assert(relaxed_at(cost_fn, goal, nodes, i, z));
                lemma_relaxed_refined(cost_fn, goal, nodes, n2, i, z);
            }
        }
    }
    assert forall|i: int| 0 <= i < n2.len() && !(#[trigger] n2[i]).closed implies has_exact_entry(n2, o2, goal, i) by {
        if i != j {
            assert(n2[i] == nodes[i]);
            assert(has_exact_entry(nodes, open, goal, i));
            let k = choose|k: int| 0 <= k < open.len() && (#[trigger] open[k]).node == i && open[k].f == nodes[i].g + heur(nodes[i].pos, goal);
            assert(o2[k] == open[k]);
        } else {
            assert(o2[open.len() as int] == e);
        }
    }
    assert forall|k: int| 0 <= k < o2.len() implies (#[trigger] o2[k]).node < n2.len() && o2[k].f >= n2[o2[k].node as int].g
        + heur(n2[o2[k].node as int].pos, goal) by {
        if k < open.len() {
            assert(o2[k] == open[k]);
            assert(open[k].node < nodes.len());
            let m = open[k].node as int;
            assert(n2[m].pos == nodes[m].pos && n2[m].g <= nodes[m].g);
        }
    }
    assert forall|i: int| 0 <= i < n2.len() && (#[trigger] n2[i]).pos == goal implies !n2[i].closed by {
        if i != j {
            assert(n2[i] == nodes[i]);
        }
    }
    assert forall|i: int| 0 <= i < n2.len() implies (#[trigger] w2[i]).len() <= explored + (if n2[i].closed {
        0int
    } else {
        1int
    }) by {
        if i != j {
            assert(n2[i] == nodes[i] && w2[i] == walks[i]);
        } else {
            assert(walks[ci].len() <= explored);
        }
    }
    assert(n2[j].pos == y && n2[j].g <= n2[ci].g + step_cost(cost_fn, goal, y));
}

/// A tile already closed is relaxed from the expanded node `ci`: its node
/// is no costlier than any walk to it.
proof fn lemma_relaxed_via_closed<F: Fn(GridVec) -> Option<i32>>(
    cost_fn: F,
    start: GridVec,
    goal: GridVec,
    nodes: Seq<SearchNode>,
    open: Seq<OpenEntry>,
    walks: Seq<Seq<GridVec>>,
    explored: int,
    ci: int,
    j: int,
)
    requires
        route_inv(cost_fn, start, goal, nodes, open, walks, explored, ci),
        0 <= ci < nodes.len(),
        0 <= j < nodes.len(),
        nodes[j].closed,
        king_adjacent(nodes[ci].pos, nodes[j].pos),
        nodes[j].pos == goal || passable(cost_fn, nodes[j].pos),
    ensures
        relaxed_at(cost_fn, goal, nodes, ci, nodes[j].pos),
{
    reveal(route_inv);
    assert(walk_between(cost_fn, goal, start, nodes[ci].pos, walks[ci]));
    lemma_walk_push(cost_fn, start, goal, nodes[ci].pos, walks[ci], nodes[j].pos);
    assert(node_optimal(cost_fn, start, goal, nodes, j));
    assert(walk_between(cost_fn, goal, start, nodes[j].pos, walks[ci].push(nodes[j].pos)));
}

/// Once every neighbour of the expanded node is relaxed, the expansion is
/// complete.
proof fn lemma_inv_finish<F: Fn(GridVec) -> Option<i32>>(
    cost_fn: F,
    start: GridVec,
    goal: GridVec,
    nodes: Seq<SearchNode>,
    open: Seq<OpenEntry>,
    walks: Seq<Seq<GridVec>>,
    explored: int,
    ci: int,
)
    requires
        route_inv(cost_fn, start, goal, nodes, open, walks, explored, ci),
        0 <= ci < nodes.len(),
        forall|k2: int|
            0 <= k2 < 8 ==> ((add_spec(nodes[ci].pos, dir8(k2)) == goal || passable(cost_fn, add_spec(nodes[ci].pos, dir8(k2))))
                ==> relaxed_at(cost_fn, goal, nodes, ci, #[trigger] add_spec(nodes[ci].pos, dir8(k2)))),
    ensures
        route_inv(cost_fn, start, goal, nodes, open, walks, explored, -1),
{
    reveal(route_inv);
    assert forall|y: GridVec| king_adjacent(nodes[ci].pos, y) && (y == goal || passable(cost_fn, y)) implies #[trigger] relaxed_at(
        cost_fn,
        goal,
        nodes,
        ci,
        y,
    ) by {
        assert(chebyshev(nodes[ci].pos, y) == 1);
        lemma_adjacent_is_neighbor(nodes[ci].pos, y);
        let k2 = choose|i: int| 0 <= i < 8 && add_spec(nodes[ci].pos, #[trigger] dir8(i)) == y;
        assert(add_spec(nodes[ci].pos, dir8(k2)) == y);
    }
    assert(neighbors_relaxed(cost_fn, goal, nodes, ci));
}

/// With the open list exhausted, no walk leads from the start to the goal.
proof fn lemma_no_walk<F: Fn(GridVec) -> Option<i32>>(
    cost_fn: F,
    start: GridVec,
    goal: GridVec,
    nodes: Seq<SearchNode>,
    open: Seq<OpenEntry>,
    walks: Seq<Seq<GridVec>>,
    explored: int,
)
    requires
        route_costs_ok(cost_fn),
        route_inv(cost_fn, start, goal, nodes, open, walks, explored, -1),
        open.len() == 0,
    ensures
        forall|q: Seq<GridVec>| !#[trigger] walk_between(cost_fn, goal, start, goal, q),
{
    assert forall|q: Seq<GridVec>| #[trigger] walk_between(cost_fn, goal, start, goal, q) implies false by {
        lemma_first_open(cost_fn, start, goal, nodes, open, walks, explored, goal, q);
        reveal(route_inv);
        if exists|m: int| 0 <= m < nodes.len() && nodes[m].pos == goal && nodes[m].closed {
            let m = choose|m: int| 0 <= m < nodes.len() && nodes[m].pos == goal && nodes[m].closed;
            assert(!nodes[m].closed);
        } else {
            let (jj, m) = choose|jj: int, m: int|
                0 <= jj < q.len() && 0 <= m < nodes.len() && nodes[m].pos == q[jj] && !nodes[m].closed && nodes[m].g
                    <= walk_cost(cost_fn, goal, q.take(jj + 1));
            assert(has_exact_entry(nodes, open, goal, m));
        }
    }
}

/// The indices of the closed nodes, in order.
spec fn closed_indices(s: Seq<SearchNode>) -> Seq<int>
    decreases s.len(),
{
    if s.len() == 0 {
        Seq::empty()
    } else {
        closed_indices(s.drop_last()) + if s.last().closed { seq![s.len() - 1] } else { Seq::empty() }
    }
}

/// The closed indices are as many as the closed nodes, in range, closed
/// and strictly increasing.
proof fn lemma_closed_indices(s: Seq<SearchNode>)
    ensures
        closed_indices(s).len() == count_closed(s),
        forall|a: int|
            0 <= a < closed_indices(s).len() ==> 0 <= #[trigger] closed_indices(s)[a] < s.len() && s[closed_indices(
                s,
            )[a]].closed,
        forall|a: int, b: int|
            0 <= a < b < closed_indices(s).len() ==> #[trigger] closed_indices(s)[a] < #[trigger] closed_indices(s)[b],
    decreases s.len(),
{
    if s.len() > 0 {
        let t = s.drop_last();
        lemma_closed_indices(t);
        let ci = closed_indices(s);
        let ct = closed_indices(t);
        assert forall|a: int| 0 <= a < ci.len() implies 0 <= #[trigger] ci[a] < s.len() && s[ci[a]].closed by {
            if a < ct.len() {
                assert(ci[a] == ct[a]);
                assert(s[ct[a]] == t[ct[a]]);
            }
        }
        assert forall|a: int, b: int| 0 <= a < b < ci.len() implies #[trigger] ci[a] < #[trigger] ci[b] by {
            if b < ct.len() {
                assert(ci[a] == ct[a] && ci[b] == ct[b]);
            } else {
                assert(ci[a] == ct[a]);
            }
        }
    }
}

/// The tiles `tiles`, with walks `ws` from `start` to them, are distinct
/// and each promised (walk cost plus heuristic) no more than any walk from
/// `start` to `goal` costs.
pub open spec fn promising_tiles<F: Fn(GridVec) -> Option<i32>>(
    cost_fn: F,
    start: GridVec,
    goal: GridVec,
    tiles: Seq<GridVec>,
    ws: Seq<Seq<GridVec>>,
) -> bool {
    &&& ws.len() == tiles.len()
    &&& forall|a: int, b: int| 0 <= a < b < tiles.len() ==> #[trigger] tiles[a] != #[trigger] tiles[b]
    &&& forall|a: int| 0 <= a < tiles.len() ==> walk_between(cost_fn, goal, start, tiles[a], #[trigger] ws[a])
    &&& forall|a: int, q: Seq<GridVec>|
        0 <= a < tiles.len() && #[trigger] walk_between(cost_fn, goal, start, goal, q) ==> walk_cost(
            cost_fn,
            goal,
            #[trigger] ws[a],
        ) + heur(tiles[a], goal) <= walk_cost(cost_fn, goal, q)
}

/// A* used its whole budget: `MAX_A_STAR_NODES` distinct tiles each
/// promised no more than the cheapest walk to the goal, so each had to be
/// expanded before the goal could be settled.
pub open spec fn search_spent<F: Fn(GridVec) -> Option<i32>>(cost_fn: F, start: GridVec, goal: GridVec) -> bool {
    exists|tiles: Seq<GridVec>, ws: Seq<Seq<GridVec>>|
        tiles.len() == MAX_A_STAR_NODES && #[trigger] promising_tiles(cost_fn, start, goal, tiles, ws)
}

/// With `MAX_A_STAR_NODES` nodes closed, the search has spent its budget.
proof fn lemma_spent<F: Fn(GridVec) -> Option<i32>>(
    cost_fn: F,
    start: GridVec,
    goal: GridVec,
    nodes: Seq<SearchNode>,
    open: Seq<OpenEntry>,
    walks: Seq<Seq<GridVec>>,
    explored: int,
    expanding: int,
)
    requires
        route_inv(cost_fn, start, goal, nodes, open, walks, explored, expanding),
        explored == MAX_A_STAR_NODES,
    ensures
        search_spent(cost_fn, start, goal),
{
    reveal(route_inv);
    lemma_closed_indices(nodes);
    let idx = closed_indices(nodes);
    let n = MAX_A_STAR_NODES as int;
    let tiles = Seq::new(n as nat, |a: int| nodes[idx[a]].pos);
    let ws = Seq::new(n as nat, |a: int| walks[idx[a]]);
    assert forall|a: int, b: int| 0 <= a < b < tiles.len() implies #[trigger] tiles[a] != #[trigger] tiles[b] by {
        assert(idx[a] < idx[b]);
        assert(nodes[idx[a]].pos != nodes[idx[b]].pos);
    }
    assert forall|a: int| 0 <= a < tiles.len() implies walk_between(cost_fn, goal, start, tiles[a], #[trigger] ws[a]) by {
        assert(0 <= idx[a] < nodes.len());
        assert(walk_between(cost_fn, goal, start, nodes[idx[a]].pos, walks[idx[a]]));
    }
    assert forall|a: int, q: Seq<GridVec>|
        0 <= a < tiles.len() && #[trigger] walk_between(cost_fn, goal, start, goal, q) implies walk_cost(
        cost_fn,
        goal,
        #[trigger] ws[a],
    ) + heur(tiles[a], goal) <= walk_cost(cost_fn, goal, q) by {
        let i = idx[a];
        assert(0 <= i < nodes.len() && nodes[i].closed);
        assert(node_promising(cost_fn, start, goal, nodes, i));
        assert(walk_between(cost_fn, goal, start, nodes[i].pos, walks[i]));
    }
    assert(promising_tiles(cost_fn, start, goal, tiles, ws));
}

/// One king move from `a` and back: stepping from `a` by the offset to an
/// adjacent `b` lands on `b`.
proof fn lemma_add_sub_adjacent(a: GridVec, b: GridVec)
    requires
        king_adjacent(a, b),
    ensures
        add_spec(a, sub_spec(b, a)) == b,
{
}

/// A walk to the goal costs at least one base step.
proof fn lemma_walk_to_goal_cost<F: Fn(GridVec) -> Option<i32>>(cost_fn: F, start: GridVec, goal: GridVec, q: Seq<GridVec>)
    requires
        route_costs_ok(cost_fn),
        start != goal,
        walk_between(cost_fn, goal, start, goal, q),
    ensures
        walk_cost(cost_fn, goal, q) >= COST_BASE,
{
    let n = q.len() as int;
    assert(n >= 2);
    lemma_walk_prefix(cost_fn, goal, q, n - 1);
    lemma_walk_prefix(cost_fn, goal, q, n - 2);
    assert(q.take(n) =~= q);
    lemma_step_cost(cost_fn, goal, q[n - 1]);
}

/// Stepping straight onto an adjacent goal begins a cheapest walk.
proof fn lemma_direct_cheapest<F: Fn(GridVec) -> Option<i32>>(cost_fn: F, start: GridVec, goal: GridVec)
    requires
        route_costs_ok(cost_fn),
        chebyshev(start, goal) == 1,
    ensures
        cheapest_first_step(cost_fn, start, goal, sub_spec(goal, start)),
{
    let path = seq![start, goal];
    assert(king_adjacent(start, goal));
    assert(is_walk(cost_fn, goal, path));
    assert(walk_between(cost_fn, goal, start, goal, path));
    lemma_add_sub_adjacent(start, goal);
    assert(path.drop_last() =~= seq![start]);
    assert(walk_cost(cost_fn, goal, seq![start]) == 0);
    assert(path.last() == goal);
    assert(walk_cost(cost_fn, goal, path) == COST_BASE);
    assert forall|q: Seq<GridVec>| #[trigger] walk_between(cost_fn, goal, start, goal, q) implies walk_cost(cost_fn, goal, path)
        <= walk_cost(cost_fn, goal, q) by {
        lemma_walk_to_goal_cost(cost_fn, start, goal, q);
    }
}

/// When the goal's node is popped, following its links back gives the
/// first step of a cheapest walk.
proof fn lemma_goal_reached<F: Fn(GridVec) -> Option<i32>>(
    cost_fn: F,
    start: GridVec,
    goal: GridVec,
    nodes: Seq<SearchNode>,
    open: Seq<OpenEntry>,
    walks: Seq<Seq<GridVec>>,
    explored: int,
    w: int,
)
    requires
        route_costs_ok(cost_fn),
        route_inv(cost_fn, start, goal, nodes, open, walks, explored, -1),
        0 <= w < open.len(),
        forall|k: int| 0 <= k < open.len() ==> !entry_before(#[trigger] open[k], open[w]),
        open[w].node < nodes.len(),
        nodes[open[w].node as int].pos == goal,
        start != goal,
    ensures
        chain_step(nodes, open[w].node as int, start, nodes.len()) matches Some(d) && cheapest_first_step(
            cost_fn,
            start,
            goal,
            d,
        ),
{
    let ci = open[w].node as int;
    reveal(route_inv);
    assert(!nodes[ci].closed);
    lemma_popped(cost_fn, start, goal, nodes, open, walks, explored, w);
    lemma_count_bound(nodes, ci);
    let wk = walks[ci];
    assert(walk_between(cost_fn, goal, start, goal, wk));
    assert(wk.len() >= 2);
    lemma_chain_first(cost_fn, start, goal, nodes, open, walks, explored, ci, nodes.len());
    assert(king_adjacent(wk[0], wk[1]));
    lemma_add_sub_adjacent(start, wk[1]);
    let d = sub_spec(wk[1], start);
    assert forall|q: Seq<GridVec>| #[trigger] walk_between(cost_fn, goal, start, goal, q) implies walk_cost(cost_fn, goal, wk)
        <= walk_cost(cost_fn, goal, q) by {
        assert(walk_between(cost_fn, goal, start, nodes[ci].pos, q));
    }
    assert(cheapest_first_step(cost_fn, start, goal, d));
}

/// The neighbours `add_spec(current, dir8(k2))` for `k2 < k` of the
/// expanded node `ci` are relaxed where they may be entered.
spec fn processed_upto<F: Fn(GridVec) -> Option<i32>>(
    cost_fn: F,
    goal: GridVec,
    nodes: Seq<SearchNode>,
    ci: int,
    current: GridVec,
    k: int,
) -> bool {
    forall|k2: int|
        0 <= k2 < k ==> ((add_spec(current, dir8(k2)) == goal || passable(cost_fn, add_spec(current, dir8(k2))))
            ==> relaxed_at(cost_fn, goal, nodes, ci, #[trigger] add_spec(current, dir8(k2))))
}

/// After relaxing the `k`-th neighbour `y` of the expanded node `ci` at
/// cost `c`, the bookkeeping holds with the walks updated alike, and the
/// neighbours up to `k` are processed.
#[verifier::rlimit(40)]
proof fn lemma_after_relax<F: Fn(GridVec) -> Option<i32>>(
    cost_fn: F,
    start: GridVec,
    goal: GridVec,
    nodes: Seq<SearchNode>,
    open: Seq<OpenEntry>,
    post_nodes: Seq<SearchNode>,
    post_open: Seq<OpenEntry>,
    walks: Seq<Seq<GridVec>>,
    explored: int,
    ci: usize,
    current: GridVec,
    k: int,
    found: Option<usize>,
    y: GridVec,
    c: i32,
    new_g: i32,
    f: i32,
    h: i32,
) -> (walks2: Seq<Seq<GridVec>>)
    requires
        route_costs_ok(cost_fn),
        route_inv(cost_fn, start, goal, nodes, open, walks, explored, ci as int),
        ci < nodes.len(),
        nodes.len() <= usize::MAX,
        nodes[ci as int].closed,
        nodes[ci as int].pos == current,
        0 <= k < 8,
        y == add_spec(current, dir8(k)),
        king_adjacent(current, y),
        processed_upto(cost_fn, goal, nodes, ci as int, current, k),
        match found {
            Some(j) => j < nodes.len() && nodes[j as int].pos == y && !nodes[j as int].closed,
            None => forall|i: int| 0 <= i < nodes.len() ==> #[trigger] nodes[i].pos != y,
        },
        y == goal ==> c == COST_BASE,
        y != goal ==> call_ensures(cost_fn, (y,), Some(c)),
        new_g == nodes[ci as int].g + c,
        f == new_g + heur(y, goal),
        match found {
            Some(j) => if new_g < nodes[j as int].g {
                &&& post_nodes == nodes.update(j as int, SearchNode { g: new_g, parent: Some(ci), ..nodes[j as int] })
                &&& post_open == open.push(OpenEntry { f, h, pos: y, node: j })
            } else {
                &&& post_nodes == nodes
                &&& post_open == open
            },
            None => {
                &&& post_nodes == nodes.push(SearchNode { pos: y, g: new_g, parent: Some(ci), closed: false })
                &&& post_open == open.push(OpenEntry { f, h, pos: y, node: nodes.len() as usize })
            },
        },
    ensures
        route_inv(cost_fn, start, goal, post_nodes, post_open, walks2, explored, ci as int),
        processed_upto(cost_fn, goal, post_nodes, ci as int, current, k + 1),
{
    let walks2 = match found {
        Some(j) => if new_g < nodes[j as int].g {
            walks.update(j as int, walks[ci as int].push(y))
        } else {
            walks
        },
        None => walks.push(walks[ci as int].push(y)),
    };
    match found {
        Some(j) => {
            if new_g < nodes[j as int].g {
                lemma_inv_update(cost_fn, start, goal, nodes, open, walks, explored, ci as int, j as int, c, new_g, f, h);
            } else {
                lemma_step_cost_is(cost_fn, goal, y, c);
                assert(nodes[j as int].g <= nodes[ci as int].g + step_cost(cost_fn, goal, y));
                assert(relaxed_at(cost_fn, goal, nodes, ci as int, y));
                assert(nodes_refined(nodes, post_nodes)) by {
                    assert forall|i: int| 0 <= i < nodes.len() implies (#[trigger] post_nodes[i]).pos == nodes[i].pos
                        && post_nodes[i].g <= nodes[i].g && (nodes[i].closed ==> post_nodes[i] == nodes[i]) by {}
                }
            }
        },
        None => {
            lemma_inv_push(cost_fn, start, goal, nodes, open, walks, explored, ci as int, y, c, new_g, f, h);
        },
    }
    assert(relaxed_at(cost_fn, goal, post_nodes, ci as int, y));
    assert forall|k2: int|
        0 <= k2 < k + 1 && (add_spec(current, dir8(k2)) == goal || passable(cost_fn, add_spec(current, dir8(k2)))) implies relaxed_at(
        cost_fn,
        goal,
        post_nodes,
        ci as int,
        #[trigger] add_spec(current, dir8(k2)),
    ) by {
        if k2 < k {
            assert(relaxed_at(cost_fn, goal, nodes, ci as int, add_spec(current, dir8(k2))));
            lemma_relaxed_refined(cost_fn, goal, nodes, post_nodes, ci as int, add_spec(current, dir8(k2)));
        }
    }
    walks2
}

/// A neighbour that is already closed, or that may not be entered, needs
/// no relaxing: the neighbours up to `k` are processed.
proof fn lemma_skip_neighbor<F: Fn(GridVec) -> Option<i32>>(
    cost_fn: F,
    start: GridVec,
    goal: GridVec,
    nodes: Seq<SearchNode>,
    open: Seq<OpenEntry>,
    walks: Seq<Seq<GridVec>>,
    explored: int,
    ci: usize,
    current: GridVec,
    k: int,
    found: Option<usize>,
    y: GridVec,
    blocked: bool,
)
    requires
        route_costs_ok(cost_fn),
        route_inv(cost_fn, start, goal, nodes, open, walks, explored, ci as int),
        ci < nodes.len(),
        nodes[ci as int].pos == current,
        0 <= k < 8,
        y == add_spec(current, dir8(k)),
        king_adjacent(current, y),
        processed_upto(cost_fn, goal, nodes, ci as int, current, k),
        blocked ==> y != goal && call_ensures(cost_fn, (y,), None),
        !blocked ==> (found matches Some(j) && j < nodes.len() && nodes[j as int].pos == y && nodes[j as int].closed),
    ensures
        processed_upto(cost_fn, goal, nodes, ci as int, current, k + 1),
{
    if blocked {
        lemma_blocked(cost_fn, y);
    } else {
        let j = found->0;
        if y == goal || passable(cost_fn, y) {
            lemma_relaxed_via_closed(cost_fn, start, goal, nodes, open, walks, explored, ci as int, j as int);
        }
    }
}

/// Follows the search tree back from the goal node `gi` to the node
/// reached straight from `start`, and returns the move onto it.
fn first_step_toward<F: Fn(GridVec) -> Option<i32>>(
    nodes: &Vec<SearchNode>,
    gi: usize,
    start: GridVec,
    goal: GridVec,
    Ghost(cost_fn): Ghost<F>,
    Ghost(depth): Ghost<int>,
) -> (r: Option<GridVec>)
    requires
        gi < nodes@.len(),
        nodes@[gi as int].pos == goal,
        start != goal,
        path_coord_ok(start),
        0 <= depth <= MAX_A_STAR_NODES,
        tree_ok(cost_fn, start, goal, nodes@, depth),
    ensures
        r == chain_step(nodes@, gi as int, start, nodes@.len()),
        match r {
            Some(d) => is_king_dir(d) && exists|path: Seq<GridVec>|
                #![trigger is_walk(cost_fn, goal, path)]
                path.len() >= 2 && path[0] == start && path[1] == add_spec(start, d) && path.last()
                    == goal && is_walk(cost_fn, goal, path),
            None => true,
        },
{
    let mut i: usize = gi;
    let ghost mut path: Seq<GridVec> = seq![goal];
    let mut steps: usize = 0;
    while steps < nodes.len()
        invariant
            i < nodes@.len(),
            path.len() >= 1,
            path[0] == nodes@[i as int].pos,
            path.last() == goal,
            nodes@[i as int].pos != start,
            is_walk(cost_fn, goal, path),
            path_coord_ok(start),
            0 <= depth <= MAX_A_STAR_NODES,
            tree_ok(cost_fn, start, goal, nodes@, depth),
            steps <= nodes@.len(),
            chain_step(nodes@, gi as int, start, nodes@.len()) == chain_step(
                nodes@,
                i as int,
                start,
                (nodes@.len() - steps) as nat,
            ),
        decreases nodes@.len() - steps,
    {
        proof {
            lemma_tree_node(cost_fn, start, goal, nodes@, depth, i as int);
        }
        match nodes[i].parent {
            None => {
                return None;
            },
            Some(p) => {
                let node = nodes[i];
                assert(p < nodes@.len() && king_adjacent(nodes@[p as int].pos, node.pos) && (node.pos
                    == goal || passable(cost_fn, node.pos))) by {
                    assert(nodes@[i as int] == node);
                }
                if nodes[p].pos == start {
                    let d = node.pos - start;
                    proof {
                        let full = seq![start] + path;
                        assert(full[1] == node.pos);
                        assert(is_walk(cost_fn, goal, full)) by {
                            assert forall|k: int| 0 <= k < full.len() - 1 implies king_adjacent(
                                #[trigger] full[k],
                                full[k + 1],
                            ) by {
                                if k > 0 {
                                    assert(full[k] == path[k - 1]);
                                    assert(full[k + 1] == path[k]);
                                }
                            }
                            assert forall|k: int| 0 < k < full.len() implies (#[trigger] full[k] == goal
                                || passable(cost_fn, full[k])) by {
                                assert(full[k] == path[k - 1]);
                            }
                        }
                        assert(add_spec(start, d) == node.pos);
                    }
                    return Some(d);
                }
                proof {
                    let prev = path;
                    path = seq![nodes@[p as int].pos] + prev;
                    assert forall|k: int| 0 <= k < path.len() - 1 implies king_adjacent(
                        #[trigger] path[k],
                        path[k + 1],
                    ) by {
                        if k > 0 {
                            assert(path[k] == prev[k - 1]);
                            assert(path[k + 1] == prev[k]);
                        }
                    }
                    assert forall|k: int| 0 < k < path.len() implies (#[trigger] path[k] == goal
                        || passable(cost_fn, path[k])) by {
                        assert(path[k] == prev[k - 1]);
                    }
                }
                i = p;
            },
        }
        steps = steps + 1;
    }
    None
}

/// Marks node `ci` as expanded, leaving every tile, cost and link as it
/// was.
fn close_node(nodes: &mut Vec<SearchNode>, ci: usize)
    requires
        ci < old(nodes)@.len(),
    ensures
        final(nodes)@ == old(nodes)@.update(ci as int, SearchNode { closed: true, ..old(nodes)@[ci as int] }),
        final(nodes)@.len() == old(nodes)@.len(),
        final(nodes)@[ci as int].closed,
        forall|i: int|
            0 <= i < final(nodes)@.len() ==> (#[trigger] final(nodes)@[i]).pos == old(nodes)@[i].pos
                && final(nodes)@[i].parent == old(nodes)@[i].parent && final(nodes)@[i].g == old(
                nodes,
            )@[i].g,
{
    let mut cur = nodes[ci];
    cur.closed = true;
    nodes.set(ci, cur);
}

/// The search tree invariant depends only on tiles, costs and links, and
/// a bound on depth still holds of any larger depth.
proof fn lemma_tree_same_shape<F: Fn(GridVec) -> Option<i32>>(
    cost_fn: F,
    start: GridVec,
    goal: GridVec,
    before: Seq<SearchNode>,
    after: Seq<SearchNode>,
    depth: int,
    depth2: int,
)
    requires
        tree_ok(cost_fn, start, goal, before, depth),
        depth <= depth2,
        after.len() == before.len(),
        forall|i: int|
            0 <= i < after.len() ==> (#[trigger] after[i]).pos == before[i].pos && after[i].parent
                == before[i].parent && after[i].g == before[i].g,
    ensures
        tree_ok(cost_fn, start, goal, after, depth2),
{
    reveal(tree_ok);
    assert forall|i: int| 0 <= i < after.len() implies match (#[trigger] after[i]).parent {
        Some(p) => p < after.len() && king_adjacent(after[p as int].pos, after[i].pos) && (after[i].pos
            == goal || passable(cost_fn, after[i].pos)),
        None => i == 0,
    } by {
        assert(after[i].pos == before[i].pos);
        assert(match before[i].parent {
            Some(p) => p < before.len() && king_adjacent(before[p as int].pos, before[i].pos) && (
            before[i].pos == goal || passable(cost_fn, before[i].pos)),
            None => i == 0,
        });
        match after[i].parent {
            Some(p) => {
                assert(after[p as int].pos == before[p as int].pos);
            },
            None => {},
        }
    }
    assert forall|i: int| 0 <= i < after.len() implies abs_int((#[trigger] after[i]).pos.x - start.x)
        <= depth2 && abs_int(after[i].pos.y - start.y) <= depth2 && abs_int(after[i].g as int)
        <= depth2 * MAX_TILE_COST by {
        assert(after[i].pos == before[i].pos);
        assert(abs_int(before[i].g as int) <= depth * MAX_TILE_COST);
        assert(depth * MAX_TILE_COST <= depth2 * MAX_TILE_COST) by (nonlinear_arith)
            requires
                depth <= depth2,
        ;
    }
}

/// Records that tile `neighbor`, adjacent to the expanded node `ci`, can be
/// reached at cost `new_g`: a newly discovered tile gets a node, a known
/// open tile is relinked when the cost improves, and either way an open
/// entry is added.
#[verifier::rlimit(100)]
#[verifier::spinoff_prover]
fn relax<F: Fn(GridVec) -> Option<i32>>(
    nodes: &mut Vec<SearchNode>,
    open: &mut Vec<OpenEntry>,
    found: Option<usize>,
    ci: usize,
    neighbor: GridVec,
    new_g: i32,
    h: i32,
    f: i32,
    Ghost(cost_fn): Ghost<F>,
    Ghost(start): Ghost<GridVec>,
    Ghost(goal): Ghost<GridVec>,
    Ghost(depth): Ghost<int>,
)
    requires
        ci < old(nodes)@.len(),
        match found {
            Some(j) => j < old(nodes)@.len() && old(nodes)@[j as int].pos == neighbor,
            None => forall|i: int| 0 <= i < old(nodes)@.len() ==> #[trigger] old(nodes)@[i].pos != neighbor,
        },
        king_adjacent(old(nodes)@[ci as int].pos, neighbor),
        neighbor == goal || passable(cost_fn, neighbor),
        abs_int(neighbor.x - start.x) <= depth,
        abs_int(neighbor.y - start.y) <= depth,
        abs_int(new_g as int) <= depth * MAX_TILE_COST,
        tree_ok(cost_fn, start, goal, old(nodes)@, depth),
        open_ok(old(open)@, old(nodes)@.len() as int),
    ensures
        tree_ok(cost_fn, start, goal, final(nodes)@, depth),
        open_ok(final(open)@, final(nodes)@.len() as int),
        final(open)@.len() <= old(open)@.len() + 1,
        final(nodes)@.len() >= old(nodes)@.len(),
        final(nodes)@[ci as int] == old(nodes)@[ci as int],
        match found {
            Some(j) => if new_g < old(nodes)@[j as int].g {
                &&& final(nodes)@ == old(nodes)@.update(
                    j as int,
                    SearchNode { g: new_g, parent: Some(ci), ..old(nodes)@[j as int] },
                )
                &&& final(open)@ == old(open)@.push(OpenEntry { f, h, pos: neighbor, node: j })
            } else {
                &&& final(nodes)@ == old(nodes)@
                &&& final(open)@ == old(open)@
            },
            None => {
                &&& final(nodes)@ == old(nodes)@.push(
                    SearchNode { pos: neighbor, g: new_g, parent: Some(ci), closed: false },
                )
                &&& final(open)@ == old(open)@.push(
                    OpenEntry { f, h, pos: neighbor, node: old(nodes)@.len() as usize },
                )
            },
        },
{
    reveal(tree_ok);
    let ghost before = nodes@;
    match found {
        Some(j) => {
            if new_g < nodes[j].g {
                let mut n = nodes[j];
                n.g = new_g;
                n.parent = Some(ci);
                nodes.set(j, n);
                proof {
                    assert(j != ci);
                    assert forall|i: int| 0 <= i < nodes@.len() implies match (#[trigger] nodes@[i]).parent {
                        Some(p) => p < nodes@.len() && king_adjacent(nodes@[p as int].pos, nodes@[i].pos)
                            && (nodes@[i].pos == goal || passable(cost_fn, nodes@[i].pos)),
                        None => i == 0,
                    } by {
                        assert(nodes@[i].pos == before[i].pos);
                        if i != j {
                            assert(nodes@[i] == before[i]);
                            match nodes@[i].parent {
                                Some(p) => {
                                    assert(nodes@[p as int].pos == before[p as int].pos);
                                },
                                None => {},
                            }
                        } else {
                            assert(nodes@[ci as int] == before[ci as int]);
                        }
                    }
                    assert forall|i: int| 0 <= i < nodes@.len() implies abs_int(
                        (#[trigger] nodes@[i]).pos.x - start.x,
                    ) <= depth && abs_int(nodes@[i].pos.y - start.y) <= depth && abs_int(
                        nodes@[i].g as int,
                    ) <= depth * MAX_TILE_COST by {
                        if i != j {
                            assert(nodes@[i] == before[i]);
                        }
                    }
                }
                open.push(OpenEntry { f, h, pos: neighbor, node: j });
            }
        },
        None => {
            nodes.push(SearchNode { pos: neighbor, g: new_g, parent: Some(ci), closed: false });
            proof {
                assert forall|i: int| 0 <= i < nodes@.len() implies match (#[trigger] nodes@[i]).parent {
                    Some(p) => p < nodes@.len() && king_adjacent(nodes@[p as int].pos, nodes@[i].pos)
                        && (nodes@[i].pos == goal || passable(cost_fn, nodes@[i].pos)),
                    None => i == 0,
                } by {
                    if i < before.len() {
                        assert(nodes@[i] == before[i]);
                        match nodes@[i].parent {
                            Some(p) => {
                                assert(nodes@[p as int] == before[p as int]);
                            },
                            None => {},
                        }
                    } else {
                        assert(nodes@[ci as int] == before[ci as int]);
                    }
                }
                assert forall|i: int| 0 <= i < nodes@.len() implies abs_int(
                    (#[trigger] nodes@[i]).pos.x - start.x,
                ) <= depth && abs_int(nodes@[i].pos.y - start.y) <= depth && abs_int(
                    nodes@[i].g as int,
                ) <= depth * MAX_TILE_COST by {
                    if i < before.len() {
                        assert(nodes@[i] == before[i]);
                    }
                }
            }
            open.push(OpenEntry { f, h, pos: neighbor, node: nodes.len() - 1 });
        },
    }
}

/// Every cost `cost_fn` may report is at least 1.
pub open spec fn costs_positive<F: Fn(GridVec) -> Option<i32>>(cost_fn: F) -> bool {
    forall|p: GridVec, c: i32| #[trigger] call_ensures(cost_fn, (p,), Some(c)) ==> c >= 1
}

/// The open entry of the goal's node `j`, reached in one base step.
spec fn goal_entry(goal: GridVec, j: usize) -> OpenEntry {
    OpenEntry { f: COST_BASE, h: 0, pos: goal, node: j }
}

/// After the start's expansion toward an adjacent goal: node `j` is the
/// goal, reached from the start (node 0), its entry is open, and every
/// other open entry costs more.
spec fn goal_ready(nodes: Seq<SearchNode>, open: Seq<OpenEntry>, start: GridVec, goal: GridVec, j: usize) -> bool {
    &&& 0 < j < nodes.len()
    &&& nodes[0].pos == start
    &&& nodes[j as int].pos == goal
    &&& nodes[j as int].parent == Some(0usize)
    &&& open.contains(goal_entry(goal, j))
    &&& forall|k: int| 0 <= k < open.len() ==> (#[trigger] open[k]).f > COST_BASE || open[k] == goal_entry(goal, j)
}

/// A tile one king move from `a` is one of its eight neighbours.
proof fn lemma_adjacent_is_neighbor(a: GridVec, b: GridVec)
    requires
        chebyshev(a, b) == 1,
    ensures
        exists|i: int| 0 <= i < 8 && add_spec(a, #[trigger] dir8(i)) == b,
{
    let dx = b.x - a.x;
    let dy = b.y - a.y;
    let i: int = if dx == 0 && dy == 1 { 0 }
        else if dx == 1 && dy == 1 { 1 }
        else if dx == 1 && dy == 0 { 2 }
        else if dx == 1 && dy == -1 { 3 }
        else if dx == 0 && dy == -1 { 4 }
        else if dx == -1 && dy == -1 { 5 }
        else if dx == -1 && dy == 0 { 6 }
        else { 7 };
    assert(add_spec(a, dir8(i)) == b);
}

/// Finds the first step direction from `start` toward `goal` with a
/// weighted A* search (Chebyshev heuristic scaled by `COST_BASE`), where
/// `cost_fn` gives the cost of entering a tile or `None` when the tile is
/// impassable. The goal itself may always be entered, at cost `COST_BASE`.
///
/// Returns `None` when already at the goal and when no path is found
/// within `MAX_A_STAR_NODES` expansions. A returned step is a king move
/// that begins a walk to the goal through tiles the cost function reports
/// passable; when the goal is adjacent and passable the step goes
/// straight to it.
///
/// When the cost of a tile depends on the tile alone and every passable
/// tile costs at least `COST_BASE` (so the heuristic is admissible), a
/// returned step begins a cheapest walk to the goal, and `None` means
/// that no walk reaches the goal or that `MAX_A_STAR_NODES` distinct
/// tiles were as promising as the cheapest walk.
#[verifier::rlimit(40)]
pub fn a_star_first_step<F: Fn(GridVec) -> Option<i32>>(start: GridVec, goal: GridVec, cost_fn: F) -> (r: Option<GridVec>)
    requires
        path_coord_ok(start),
        path_coord_ok(goal),
        cost_fn_ok(cost_fn),
    ensures
        start == goal ==> r is None,
        (chebyshev(start, goal) == 1 && forall|res: Option<i32>|
            call_ensures(cost_fn, (goal,), res) ==> res is Some) ==> r == Some(sub_spec(goal, start)),
        chebyshev(start, goal) == 1 && costs_positive(cost_fn) ==> r == Some(sub_spec(goal, start)),
        match r {
            Some(d) => is_king_dir(d) && exists|path: Seq<GridVec>|
                #![trigger is_walk(cost_fn, goal, path)]
                path.len() >= 2 && path[0] == start && path[1] == add_spec(start, d) && path.last()
                    == goal && is_walk(cost_fn, goal, path),
            None => true,
        },
        route_costs_ok(cost_fn) ==> match r {
            Some(d) => cheapest_first_step(cost_fn, start, goal, d),
            None => start == goal || (forall|q: Seq<GridVec>| !#[trigger] walk_between(cost_fn, goal, start, goal, q))
                || search_spent(cost_fn, start, goal),
        },
{
    if start == goal {
        return None;
    }
    let start_dist = start.chebyshev_distance(goal);
    if start_dist == 1 {
        let goal_cost = cost_fn(goal);
        if goal_cost.is_some() {
            let d = goal - start;
            proof {
                let path = seq![start, goal];
                assert(is_walk(cost_fn, goal, path));
                if route_costs_ok(cost_fn) {
                    lemma_direct_cheapest(cost_fn, start, goal);
                }
            }
            return Some(d);
        }
    }
    let ghost adjacent_blocked = chebyshev(start, goal) == 1;
    assert(adjacent_blocked ==> !(forall|res: Option<i32>|
        call_ensures(cost_fn, (goal,), res) ==> res is Some));
    let h_start = start_dist * COST_BASE;
    let mut nodes: Vec<SearchNode> = Vec::new();
    nodes.push(SearchNode { pos: start, g: 0, parent: None, closed: false });
    let mut open: Vec<OpenEntry> = Vec::new();
    open.push(OpenEntry { f: h_start, h: h_start, pos: start, node: 0 });
    let mut explored: usize = 0;
    let dirs = GridVec::directions_8();
    proof {
        reveal(tree_ok);
    }
    let ghost special = chebyshev(start, goal) == 1 && costs_positive(cost_fn);
    let ghost mut jg: usize = 0;
    let ghost hyp = route_costs_ok(cost_fn);
    let ghost mut walks: Seq<Seq<GridVec>> = seq![seq![start]];
    proof {
        if hyp {
            lemma_inv_init(cost_fn, start, goal, nodes@, open@);
        }
    }
    while open.len() > 0
        invariant
            hyp == route_costs_ok(cost_fn),
            hyp ==> route_inv(cost_fn, start, goal, nodes@, open@, walks, explored as int, -1),
            path_coord_ok(start),
            path_coord_ok(goal),
            cost_fn_ok(cost_fn),
            start != goal,
            special == (chebyshev(start, goal) == 1 && costs_positive(cost_fn)),
            special ==> explored <= 1,
            special && explored == 0 ==> nodes@ == seq![SearchNode { pos: start, g: 0, parent: None, closed: false }]
                && open@.len() == 1 && open@[0].node == 0,
            special && explored == 1 ==> goal_ready(nodes@, open@, start, goal, jg),
            chebyshev(start, goal) == 1 ==> !(forall|res: Option<i32>|
                call_ensures(cost_fn, (goal,), res) ==> res is Some),
            forall|i: int| 0 <= i < 8 ==> #[trigger] dirs@[i] == dir8(i),
            explored < MAX_A_STAR_NODES,
            tree_ok(cost_fn, start, goal, nodes@, explored as int),
            open_ok(open@, nodes@.len() as int),
        decreases 9 * (MAX_A_STAR_NODES - explored) + open@.len(),
    {
        let ghost open_before = open@;
        let e = pop_min(&mut open);
        let ghost w = choose|k: int| 0 <= k < open_before.len() && open_before[k] == e && open@ == open_before.remove(k);
        proof {
            if special && explored == 1 {
                let ge = goal_entry(goal, jg);
                let q = choose|q: int| 0 <= q < open_before.len() && open_before[q] == ge;
                assert(!entry_before(open_before[q], e));
                let w = choose|w: int| 0 <= w < open_before.len() && open_before[w] == e;
                assert(open_before[w].f > COST_BASE || open_before[w] == ge);
                assert(e == ge);
                assert(e.node == jg);
            }
        }
        let ci = e.node;
        let current = nodes[ci].pos;
        if current == goal {
            let r = first_step_toward::<F>(&nodes, ci, start, goal, Ghost(cost_fn), Ghost(explored as int));
            proof {
                if hyp {
                    lemma_goal_reached(cost_fn, start, goal, nodes@, open_before, walks, explored as int, w);
                }
                if special {
                    if explored == 0 {
                        assert(nodes@[0].pos == start);
                    } else {
                        assert(ci == jg);
                        assert(chain_step(nodes@, jg as int, start, nodes@.len()) == Some(sub_spec(goal, start)));
                    }
                }
            }
            return r;
        }
        proof {
            if special {
                assert(explored == 0);
                assert(ci == 0);
            }
        }
        if nodes[ci].closed {
            proof {
                if hyp {
                    lemma_inv_drop_closed(cost_fn, start, goal, nodes@, open_before, walks, explored as int, w);
                }
            }
            continue;
        }
        let current_g = nodes[ci].g;
        let ghost before = nodes@;
        assert(abs_int(current.x - start.x) <= explored && abs_int(current.y - start.y) <= explored
            && abs_int(current_g as int) <= explored * MAX_TILE_COST) by {
            reveal(tree_ok);
            assert(before[ci as int].pos == current);
        }
        proof {
            if hyp {
                lemma_inv_close(cost_fn, start, goal, nodes@, open_before, walks, explored as int, w);
            }
        }
        close_node(&mut nodes, ci);
        proof {
            lemma_tree_same_shape(cost_fn, start, goal, before, nodes@, explored as int, explored + 1);
        }
        explored = explored + 1;
        if explored >= MAX_A_STAR_NODES {
            proof {
                if hyp {
                    lemma_spent(cost_fn, start, goal, nodes@, open@, walks, explored as int, ci as int);
                }
            }
            return None;
        }
        let open_len0 = open.len();
        let ghost mut goal_seen: bool = false;
        let mut k: usize = 0;
        while k < 8
            invariant
                hyp == route_costs_ok(cost_fn),
                hyp ==> route_inv(cost_fn, start, goal, nodes@, open@, walks, explored as int, ci as int),
                nodes@[ci as int].closed,
                nodes@[ci as int].g == current_g,
                hyp ==> processed_upto(cost_fn, goal, nodes@, ci as int, current, k as int),
                path_coord_ok(start),
                path_coord_ok(goal),
                cost_fn_ok(cost_fn),
                forall|i: int| 0 <= i < 8 ==> #[trigger] dirs@[i] == dir8(i),
                1 <= explored < MAX_A_STAR_NODES,
                ci < nodes@.len(),
                nodes@[ci as int].pos == current,
                abs_int(current.x - start.x) <= explored - 1,
                abs_int(current.y - start.y) <= explored - 1,
                abs_int(current_g as int) <= (explored - 1) * MAX_TILE_COST,
                tree_ok(cost_fn, start, goal, nodes@, explored as int),
                open_ok(open@, nodes@.len() as int),
                k <= 8,
                open@.len() <= open_len0 + k,
                special == (chebyshev(start, goal) == 1 && costs_positive(cost_fn)),
                special ==> explored == 1 && ci == 0 && current == start && current_g == 0,
                special ==> nodes@[0].pos == start,
                special ==> (goal_seen == exists|k2: int| 0 <= k2 < k && add_spec(start, #[trigger] dir8(k2)) == goal),
                special && !goal_seen ==> (forall|i: int| 0 <= i < nodes@.len() ==> #[trigger] nodes@[i].pos != goal)
                    && (forall|q: int| 0 <= q < open@.len() ==> (#[trigger] open@[q]).f > COST_BASE),
                special && goal_seen ==> goal_ready(nodes@, open@, start, goal, jg),
            decreases 8 - k,
        {
            let neighbor = current + dirs[k];
            let found = find_node(&nodes, neighbor);
            let is_closed = match found {
                Some(j) => nodes[j].closed,
                None => false,
            };
            proof {
                if special && neighbor == goal && !goal_seen {
                    assert(found is None);
                }
                assert(neighbor == add_spec(current, dir8(k as int)));
                assert(king_adjacent(current, neighbor));
                if hyp && is_closed {
                    lemma_skip_neighbor(cost_fn, start, goal, nodes@, open@, walks, explored as int, ci, current, k as int, found, neighbor, false);
                }
            }
            if !is_closed {
                let edge = if neighbor == goal {
                    Some(COST_BASE)
                } else {
                    cost_fn(neighbor)
                };
                if let Some(c) = edge {
                    let new_g = current_g + c;
                    let h = neighbor.chebyshev_distance(goal) * COST_BASE;
                    let f = new_g + h;
                    let ghost nodes_pre = nodes@;
                    let ghost open_pre = open@;
                    let len_pre = nodes.len();
                    proof {
                        if special && neighbor != goal {
                            assert(c >= 1);
                            assert(chebyshev(neighbor, goal) >= 1);
                            assert(f > COST_BASE);
                        }
                    }
                    relax::<F>(
                        &mut nodes,
                        &mut open,
                        found,
                        ci,
                        neighbor,
                        new_g,
                        h,
                        f,
                        Ghost(cost_fn),
                        Ghost(start),
                        Ghost(goal),
                        Ghost(explored as int),
                    );
                    proof {
                        if hyp {
                            walks = lemma_after_relax(
                                cost_fn,
                                start,
                                goal,
                                nodes_pre,
                                open_pre,
                                nodes@,
                                open@,
                                walks,
                                explored as int,
                                ci,
                                current,
                                k as int,
                                found,
                                neighbor,
                                c,
                                new_g,
                                f,
                                h,
                            );
                        }
                        if special {
                            if neighbor == goal && !goal_seen {
                                jg = len_pre;
                                goal_seen = true;
                                assert(nodes@[jg as int].pos == goal);
                                assert(open@[open@.len() - 1] == goal_entry(goal, jg));
                                assert forall|q: int| 0 <= q < open@.len() implies (#[trigger] open@[q]).f > COST_BASE
                                    || open@[q] == goal_entry(goal, jg) by {
                                    if q < open_pre.len() {
                                        assert(open@[q] == open_pre[q]);
                                    }
                                }
                            } else if neighbor == goal {
                                match found {
                                    Some(j) => {
                                        assert(nodes_pre[j as int].pos == goal);
                                    },
                                    None => {
                                        assert(nodes_pre[jg as int].pos == goal);
                                    },
                                }
                            } else if goal_seen {
                                match found {
                                    Some(j) => {
                                        assert(j != jg);
                                        assert(j != 0);
                                    },
                                    None => {},
                                }
                                assert forall|q: int| 0 <= q < open@.len() implies (#[trigger] open@[q]).f > COST_BASE
                                    || open@[q] == goal_entry(goal, jg) by {
                                    if q < open_pre.len() {
                                        assert(open@[q] == open_pre[q]);
                                    }
                                }
                                let q0 = choose|q: int| 0 <= q < open_pre.len() && open_pre[q] == goal_entry(goal, jg);
                                assert(open@[q0] == goal_entry(goal, jg));
                            } else {
                                assert forall|q: int| 0 <= q < open@.len() implies (#[trigger] open@[q]).f > COST_BASE by {
                                    if q < open_pre.len() {
                                        assert(open@[q] == open_pre[q]);
                                    }
                                }
                            }
                        }
                    }
                } else {
                    proof {
                        if hyp {
                            lemma_skip_neighbor(cost_fn, start, goal, nodes@, open@, walks, explored as int, ci, current, k as int, found, neighbor, true);
                        }
                    }
                }
            }
            k = k + 1;
        }
        proof {
            if special {
                lemma_adjacent_is_neighbor(start, goal);
                assert(goal_seen);
            }
            if hyp {
                lemma_inv_finish(cost_fn, start, goal, nodes@, open@, walks, explored as int, ci as int);
            }
        }
    }
    proof {
        if hyp {
            lemma_no_walk(cost_fn, start, goal, nodes@, open@, walks, explored as int);
        }
    }
    None
}

/// Whether `path` is a walk of king moves, each tile of which the
/// predicate `is_walkable` may accept, except that the final tile may be
/// `goal`.
pub open spec fn is_walkable_walk<W: Fn(GridVec) -> bool>(is_walkable: W, goal: GridVec, path: Seq<GridVec>) -> bool {
    &&& forall|i: int| 0 <= i < path.len() - 1 ==> king_adjacent(#[trigger] path[i], path[i + 1])
    &&& forall|i: int|
        0 < i < path.len() ==> (#[trigger] path[i] == goal || call_ensures(is_walkable, (path[i],), true))
}

/// A* over a plain walkability predicate: every walkable tile costs
/// `COST_BASE`, every other tile is impassable.
pub fn a_star_first_step_pub<W: Fn(GridVec) -> bool>(start: GridVec, goal: GridVec, is_walkable: W) -> (r: Option<GridVec>)
    requires
        path_coord_ok(start),
        path_coord_ok(goal),
        forall|p: GridVec| #[trigger] call_requires(is_walkable, (p,)),
    ensures
        start == goal ==> r is None,
        (chebyshev(start, goal) == 1 && forall|res: bool|
            call_ensures(is_walkable, (goal,), res) ==> res) ==> r == Some(sub_spec(goal, start)),
        match r {
            Some(d) => is_king_dir(d) && exists|path: Seq<GridVec>|
                #![trigger is_walkable_walk(is_walkable, goal, path)]
                path.len() >= 2 && path[0] == start && path[1] == add_spec(start, d) && path.last()
                    == goal && is_walkable_walk(is_walkable, goal, path),
            None => true,
        },
{
    let walkable = &is_walkable;
    let cost = move |pos: GridVec| -> (c: Option<i32>)
        requires
            call_requires(walkable, (pos,)),
        ensures
            match c {
                Some(v) => v == COST_BASE && call_ensures(walkable, (pos,), true),
                None => call_ensures(walkable, (pos,), false),
            },
        {
            if walkable(pos) {
                Some(COST_BASE)
            } else {
                None
            }
        };
    proof {
        assert forall|p: GridVec, res: Option<i32>| #[trigger] call_ensures(cost, (p,), res) implies match res {
            Some(c) => -MAX_TILE_COST <= c <= MAX_TILE_COST,
            None => true,
        } by {}
        assert forall|p: GridVec| #[trigger] call_requires(cost, (p,)) by {
            assert(call_requires(is_walkable, (p,)));
        }
        assert(chebyshev(start, goal) == 1 && (forall|res: bool|
            call_ensures(is_walkable, (goal,), res) ==> res) ==> forall|res: Option<i32>|
            call_ensures(cost, (goal,), res) ==> res is Some);
    }
    let r = a_star_first_step(start, goal, cost);
    proof {
        match r {
            Some(d) => {
                let path = choose|path: Seq<GridVec>|
                    path.len() >= 2 && path[0] == start && path[1] == add_spec(start, d) && path.last()
                        == goal && #[trigger] is_walk(cost, goal, path);
                assert forall|i: int| 0 < i < path.len() implies (#[trigger] path[i] == goal
                    || call_ensures(is_walkable, (path[i],), true)) by {
                    if path[i] != goal {
                        assert(passable(cost, path[i]));
                        let c = choose|c: i32| #[trigger] call_ensures(cost, (path[i],), Some(c));
                    }
                }
                assert(is_walkable_walk(is_walkable, goal, path));
            },
            None => {},
        }
    }
    r
}

/// Total of a sequence of step costs.
pub open spec fn cost_sum(costs: Seq<i32>) -> int
    decreases costs.len(),
{
    if costs.len() == 0 {
        0
    } else {
        cost_sum(costs.drop_last()) + costs.last()
    }
}

/// A walk of king moves from one of `sources`, in which the step onto
/// tile `path[i + 1]` costs `costs[i]`, a cost that `cost_fn` may report
/// for that tile.
pub open spec fn is_costed_walk<F: Fn(GridVec) -> Option<i32>>(
    cost_fn: F,
    sources: Seq<GridVec>,
    path: Seq<GridVec>,
    costs: Seq<i32>,
) -> bool
    decreases path.len(),
{
    if path.len() <= 1 {
        path.len() == 1 && sources.contains(path[0]) && costs.len() == 0
    } else {
        &&& costs.len() == path.len() - 1
        &&& is_costed_walk(cost_fn, sources, path.drop_last(), costs.drop_last())
        &&& king_adjacent(path[path.len() - 2], path.last())
        &&& call_ensures(cost_fn, (path.last(),), Some(costs.last()))
    }
}

/// Tile `p` is reached from one of `sources` by a costed walk of total
/// cost `d`.
pub open spec fn reached_at<F: Fn(GridVec) -> Option<i32>>(
    cost_fn: F,
    sources: Seq<GridVec>,
    p: GridVec,
    d: int,
) -> bool {
    exists|path: Seq<GridVec>, step_costs: Seq<i32>|
        #[trigger] is_costed_walk(cost_fn, sources, path, step_costs) && path.last() == p && cost_sum(
            step_costs,
        ) == d
}

/// Weighted distances from a set of source tiles, one entry per reached
/// tile.
pub struct DistanceMap {
    entries: Vec<(GridVec, i32)>,
}

/// No tile occurs twice among the entries.
pub open spec fn distinct_tiles(entries: Seq<(GridVec, i32)>) -> bool {
    forall|i: int, j: int|
        0 <= i < entries.len() && 0 <= j < entries.len() && i != j ==> #[trigger] entries[i].0
            != #[trigger] entries[j].0
}

impl DistanceMap {
    /// The (tile, distance) entries.
    pub closed spec fn pairs(&self) -> Seq<(GridVec, i32)> {
        self.entries@
    }

    /// Whether tile `p` has an entry.
    pub open spec fn has(&self, p: GridVec) -> bool {
        has_entry(self.pairs(), p)
    }

    /// Number of tiles reached.
    pub fn len(&self) -> (r: usize)
        ensures
            r == self.pairs().len(),
    {
        self.entries.len()
    }

    /// The distance recorded for `pos`, if it was reached.
    pub fn get(&self, pos: &GridVec) -> (r: Option<&i32>)
        ensures
            match r {
                Some(v) => exists|i: int|
                    0 <= i < self.pairs().len() && #[trigger] self.pairs()[i] == (*pos, *v),
                None => !self.has(*pos),
            },
    {
        let mut i: usize = 0;
        while i < self.entries.len()
            invariant
                i <= self.entries@.len(),
                forall|j: int| 0 <= j < i ==> #[trigger] self.entries@[j].0 != *pos,
            decreases self.entries@.len() - i,
        {
            if self.entries[i].0 == *pos {
                assert(self.pairs()[i as int] == (*pos, self.entries@[i as int].1));
                return Some(&self.entries[i].1);
            }
            i = i + 1;
        }
        None
    }

    /// Whether `pos` was reached.
    pub fn contains_key(&self, pos: &GridVec) -> (r: bool)
        ensures
            r == self.has(*pos),
    {
        let mut i: usize = 0;
        while i < self.entries.len()
            invariant
                i <= self.entries@.len(),
                forall|j: int| 0 <= j < i ==> #[trigger] self.entries@[j].0 != *pos,
            decreases self.entries@.len() - i,
        {
            if self.entries[i].0 == *pos {
                assert(self.pairs()[i as int].0 == *pos);
                return true;
            }
            i = i + 1;
        }
        false
    }
}

/// An entry of the Dijkstra frontier: a tentative distance for the tile
/// of node `node`.
#[derive(Clone, Copy)]
struct FloodEntry {
    d: i32,
    pos: GridVec,
    node: usize,
}

/// The order in which the frontier is served: by distance, then tile.
spec fn flood_before(a: FloodEntry, b: FloodEntry) -> bool {
    a.d < b.d || (a.d == b.d && (a.pos.x < b.pos.x || (a.pos.x == b.pos.x && a.pos.y < b.pos.y)))
}

/// Removes and returns a frontier entry that no other entry precedes.
fn pop_min_flood(open: &mut Vec<FloodEntry>) -> (e: FloodEntry)
    requires
        old(open)@.len() > 0,
    ensures
        exists|k: int|
            0 <= k < old(open)@.len() && old(open)@[k] == e && final(open)@ == old(open)@.remove(k),
        forall|j: int| 0 <= j < old(open)@.len() ==> !flood_before(#[trigger] old(open)@[j], e),
{
    let mut best: usize = 0;
    let mut i: usize = 1;
    while i < open.len()
        invariant
            1 <= i <= open@.len(),
            best < open@.len(),
            forall|j: int| 0 <= j < i ==> !flood_before(#[trigger] open@[j], open@[best as int]),
        decreases open@.len() - i,
    {
        let a = open[i];
        let b = open[best];
        if a.d < b.d || (a.d == b.d && (a.pos.x < b.pos.x || (a.pos.x == b.pos.x && a.pos.y < b.pos.y))) {
            best = i;
        }
        i = i + 1;
    }
    open.remove(best)
}

/// Index of the entry for tile `p`, if any.
fn find_entry(entries: &Vec<(GridVec, i32)>, p: GridVec) -> (r: Option<usize>)
    ensures
        match r {
            Some(i) => i < entries@.len() && entries@[i as int].0 == p,
            None => forall|i: int| 0 <= i < entries@.len() ==> #[trigger] entries@[i].0 != p,
        },
{
    let mut i: usize = 0;
    while i < entries.len()
        invariant
            i <= entries@.len(),
            forall|j: int| 0 <= j < i ==> #[trigger] entries@[j].0 != p,
        decreases entries@.len() - i,
    {
        if entries[i].0 == p {
            return Some(i);
        }
        i = i + 1;
    }
    None
}

/// The flood's bookkeeping: distinct tiles, every source present, each
/// recorded distance the cost of a walk (`paths[i]`, `costs[i]`) from a
/// source to its tile, sources at distance at most zero, and tiles and
/// distances within `depth` expansions of the sources.
#[verifier::opaque]
spec fn flood_ok<F: Fn(GridVec) -> Option<i32>>(
    cost_fn: F,
    sources: Seq<GridVec>,
    entries: Seq<(GridVec, i32)>,
    paths: Seq<Seq<GridVec>>,
    costs: Seq<Seq<i32>>,
    depth: int,
) -> bool {
    &&& paths.len() == entries.len()
    &&& costs.len() == entries.len()
    &&& distinct_tiles(entries)
    &&& forall|k: int| 0 <= k < sources.len() ==> has_entry(entries, #[trigger] sources[k])
    &&& forall|i: int|
        0 <= i < entries.len() ==> is_costed_walk(cost_fn, sources, #[trigger] paths[i], costs[i])
            && paths[i].last() == entries[i].0 && cost_sum(costs[i]) == entries[i].1
    &&& forall|i: int|
        0 <= i < entries.len() ==> abs_int((#[trigger] entries[i]).0.x as int) <= PATH_COORD_LIMIT
            + depth && abs_int(entries[i].0.y as int) <= PATH_COORD_LIMIT + depth && abs_int(
            entries[i].1 as int,
        ) <= depth * MAX_TILE_COST && (sources.contains(entries[i].0) ==> entries[i].1 <= 0)
}

/// Whether tile `p` has an entry.
pub open spec fn has_entry(entries: Seq<(GridVec, i32)>, p: GridVec) -> bool {
    exists|i: int| 0 <= i < entries.len() && (#[trigger] entries[i]).0 == p
}

/// Every frontier entry names an entry for its tile whose distance is no
/// larger than the entry's.
spec fn frontier_ok(open: Seq<FloodEntry>, entries: Seq<(GridVec, i32)>) -> bool {
    forall|k: int|
        0 <= k < open.len() ==> (#[trigger] open[k]).node < entries.len() && entries[open[k].node as int].0
            == open[k].pos && entries[open[k].node as int].1 <= open[k].d
}

/// What the flood bookkeeping says of entry `i`.
proof fn lemma_flood_entry<F: Fn(GridVec) -> Option<i32>>(
    cost_fn: F,
    sources: Seq<GridVec>,
    entries: Seq<(GridVec, i32)>,
    paths: Seq<Seq<GridVec>>,
    costs: Seq<Seq<i32>>,
    depth: int,
    i: int,
)
    requires
        flood_ok(cost_fn, sources, entries, paths, costs, depth),
        0 <= i < entries.len(),
    ensures
        paths.len() == entries.len(),
        costs.len() == entries.len(),
        is_costed_walk(cost_fn, sources, paths[i], costs[i]),
        paths[i].last() == entries[i].0,
        cost_sum(costs[i]) == entries[i].1,
        abs_int(entries[i].0.x as int) <= PATH_COORD_LIMIT + depth,
        abs_int(entries[i].0.y as int) <= PATH_COORD_LIMIT + depth,
        abs_int(entries[i].1 as int) <= depth * MAX_TILE_COST,
{
    reveal(flood_ok);
}

/// The flood bookkeeping still holds with a larger depth.
proof fn lemma_flood_deeper<F: Fn(GridVec) -> Option<i32>>(
    cost_fn: F,
    sources: Seq<GridVec>,
    entries: Seq<(GridVec, i32)>,
    paths: Seq<Seq<GridVec>>,
    costs: Seq<Seq<i32>>,
    depth: int,
    depth2: int,
)
    requires
        flood_ok(cost_fn, sources, entries, paths, costs, depth),
        0 <= depth <= depth2,
    ensures
        flood_ok(cost_fn, sources, entries, paths, costs, depth2),
{
    reveal(flood_ok);
    assert forall|i: int| 0 <= i < entries.len() implies abs_int((#[trigger] entries[i]).0.x as int)
        <= PATH_COORD_LIMIT + depth2 && abs_int(entries[i].0.y as int) <= PATH_COORD_LIMIT + depth2
        && abs_int(entries[i].1 as int) <= depth2 * MAX_TILE_COST && (sources.contains(entries[i].0)
        ==> entries[i].1 <= 0) by {
        assert(abs_int(entries[i].0.x as int) <= PATH_COORD_LIMIT + depth);
        assert(abs_int(entries[i].1 as int) <= depth * MAX_TILE_COST);
        assert(depth * MAX_TILE_COST <= depth2 * MAX_TILE_COST) by (nonlinear_arith)
            requires
                depth <= depth2,
        ;
    }
}

/// Extending a costed walk by one step adds that step's cost.
proof fn lemma_walk_extend<F: Fn(GridVec) -> Option<i32>>(
    cost_fn: F,
    sources: Seq<GridVec>,
    path: Seq<GridVec>,
    costs: Seq<i32>,
    next: GridVec,
    c: i32,
)
    requires
        is_costed_walk(cost_fn, sources, path, costs),
        king_adjacent(path.last(), next),
        call_ensures(cost_fn, (next,), Some(c)),
    ensures
        is_costed_walk(cost_fn, sources, path.push(next), costs.push(c)),
        cost_sum(costs.push(c)) == cost_sum(costs) + c,
        path.push(next).last() == next,
{
    assert(costs.push(c).drop_last() =~= costs);
    assert(path.push(next).drop_last() =~= path);
    if path.len() <= 1 {
        assert(path.len() == 1 && costs.len() == 0);
    }
    assert(costs.len() == path.len() - 1);
    assert(path.push(next)[path.push(next).len() - 2] == path.last());
}

/// Records that the tile `neighbor`, next to entry `ci`, is reached at
/// distance `new_d` by stepping on it at cost `c`: a new tile gets an
/// entry, a known tile is lowered when the distance improves, and either
/// way a frontier entry is added.
fn flood_relax<F: Fn(GridVec) -> Option<i32>>(
    entries: &mut Vec<(GridVec, i32)>,
    open: &mut Vec<FloodEntry>,
    ci: usize,
    neighbor: GridVec,
    c: i32,
    new_d: i32,
    Ghost(cost_fn): Ghost<F>,
    Ghost(sources): Ghost<Seq<GridVec>>,
    Ghost(paths): Ghost<Seq<Seq<GridVec>>>,
    Ghost(costs): Ghost<Seq<Seq<i32>>>,
    Ghost(depth): Ghost<int>,
) -> (r: Ghost<(Seq<Seq<GridVec>>, Seq<Seq<i32>>)>)
    requires
        flood_ok(cost_fn, sources, old(entries)@, paths, costs, depth),
        frontier_ok(old(open)@, old(entries)@),
        ci < old(entries)@.len(),
        new_d == old(entries)@[ci as int].1 + c,
        king_adjacent(old(entries)@[ci as int].0, neighbor),
        call_ensures(cost_fn, (neighbor,), Some(c)),
        abs_int(neighbor.x as int) <= PATH_COORD_LIMIT + depth,
        abs_int(neighbor.y as int) <= PATH_COORD_LIMIT + depth,
        abs_int(new_d as int) <= depth * MAX_TILE_COST,
    ensures
        flood_ok(cost_fn, sources, final(entries)@, r@.0, r@.1, depth),
        frontier_ok(final(open)@, final(entries)@),
        final(open)@.len() <= old(open)@.len() + 1,
        final(entries)@.len() >= old(entries)@.len(),
        final(entries)@[ci as int] == old(entries)@[ci as int],
        forall|j: int|
            0 <= j < old(entries)@.len() && (#[trigger] old(entries)@[j]).0 == neighbor ==> if new_d < old(
                entries,
            )@[j].1 {
                &&& final(entries)@ == old(entries)@.update(j, (neighbor, new_d))
                &&& final(open)@ == old(open)@.push(FloodEntry { d: new_d, pos: neighbor, node: j as usize })
            } else {
                &&& final(entries)@ == old(entries)@
                &&& final(open)@ == old(open)@
            },
        (forall|j: int| 0 <= j < old(entries)@.len() ==> (#[trigger] old(entries)@[j]).0 != neighbor) ==> {
            &&& final(entries)@ == old(entries)@.push((neighbor, new_d))
            &&& final(open)@ == old(open)@.push(FloodEntry { d: new_d, pos: neighbor, node: old(entries)@.len() as usize })
        },
{
    reveal(flood_ok);
    let ghost before = entries@;
    let found = find_entry(entries, neighbor);
    let ghost cpath = paths[ci as int];
    let ghost ccost = costs[ci as int];
    proof {
        lemma_walk_extend(cost_fn, sources, cpath, ccost, neighbor, c);
    }
    proof {
        if let Some(j) = found {
            assert forall|j2: int| 0 <= j2 < before.len() && (#[trigger] before[j2]).0 == neighbor implies j2 == j by {
                assert(distinct_tiles(before));
            }
        }
    }
    match found {
        Some(j) => {
            if new_d < entries[j].1 {
                entries.set(j, (neighbor, new_d));
                let ghost paths2 = paths.update(j as int, cpath.push(neighbor));
                let ghost costs2 = costs.update(j as int, ccost.push(c));
                proof {
                    assert(j != ci);
                    assert forall|i: int| 0 <= i < entries@.len() implies #[trigger] entries@[i].0 == before[i].0 by {
                        if i != j {
                            assert(entries@[i] == before[i]);
                        }
                    }
                    assert forall|k: int| 0 <= k < sources.len() implies has_entry(
                        entries@,
                        #[trigger] sources[k],
                    ) by {
                        assert(has_entry(before, sources[k]));
                        let i = choose|i: int| 0 <= i < before.len() && (#[trigger] before[i]).0 == sources[k];
                        assert(entries@[i].0 == before[i].0);
                    }
                    assert forall|i: int| 0 <= i < entries@.len() implies is_costed_walk(
                        cost_fn,
                        sources,
                        #[trigger] paths2[i],
                        costs2[i],
                    ) && paths2[i].last() == entries@[i].0 && cost_sum(costs2[i]) == entries@[i].1 by {
                        if i != j {
                            assert(entries@[i] == before[i]);
                        }
                    }
                    assert forall|i: int| 0 <= i < entries@.len() implies abs_int(
                        (#[trigger] entries@[i]).0.x as int,
                    ) <= PATH_COORD_LIMIT + depth && abs_int(entries@[i].0.y as int) <= PATH_COORD_LIMIT
                        + depth && abs_int(entries@[i].1 as int) <= depth * MAX_TILE_COST && (
                    sources.contains(entries@[i].0) ==> entries@[i].1 <= 0) by {
                        if i != j {
                            assert(entries@[i] == before[i]);
                        } else {
                            assert(entries@[i].1 < before[i].1);
                        }
                    }
                }
                open.push(FloodEntry { d: new_d, pos: neighbor, node: j });
                return Ghost((paths2, costs2));
            }
            Ghost((paths, costs))
        },
        None => {
            entries.push((neighbor, new_d));
            let ghost paths2 = paths.push(cpath.push(neighbor));
            let ghost costs2 = costs.push(ccost.push(c));
            proof {
                assert forall|k: int| 0 <= k < sources.len() implies has_entry(
                    entries@,
                    #[trigger] sources[k],
                ) by {
                    assert(has_entry(before, sources[k]));
                    let i = choose|i: int| 0 <= i < before.len() && (#[trigger] before[i]).0 == sources[k];
                    assert(entries@[i] == before[i]);
                }
                assert forall|i: int| 0 <= i < entries@.len() implies is_costed_walk(
                    cost_fn,
                    sources,
                    #[trigger] paths2[i],
                    costs2[i],
                ) && paths2[i].last() == entries@[i].0 && cost_sum(costs2[i]) == entries@[i].1 by {
                    if i < before.len() {
                        assert(entries@[i] == before[i]);
                    }
                }
                assert forall|i: int| 0 <= i < entries@.len() implies abs_int(
                    (#[trigger] entries@[i]).0.x as int,
                ) <= PATH_COORD_LIMIT + depth && abs_int(entries@[i].0.y as int) <= PATH_COORD_LIMIT
                    + depth && abs_int(entries@[i].1 as int) <= depth * MAX_TILE_COST && (
                sources.contains(entries@[i].0) ==> entries@[i].1 <= 0) by {
                    if i < before.len() {
                        assert(entries@[i] == before[i]);
                    } else if sources.contains(entries@[i].0) {
                        let k = choose|k: int| 0 <= k < sources.len() && sources[k] == neighbor;
                        assert(has_entry(before, sources[k]));
                        let m = choose|m: int| 0 <= m < before.len() && (#[trigger] before[m]).0 == sources[k];
                        assert(before[m].0 != neighbor);
                    }
                }
                assert(distinct_tiles(entries@)) by {
                    assert forall|a: int, b: int|
                        0 <= a < entries@.len() && 0 <= b < entries@.len() && a != b implies #[trigger] entries@[a].0
                        != #[trigger] entries@[b].0 by {
                        if a < before.len() && b < before.len() {
                            assert(entries@[a] == before[a]);
                            assert(entries@[b] == before[b]);
                        } else if a < before.len() {
                            assert(entries@[a] == before[a]);
                        } else {
                            assert(entries@[b] == before[b]);
                        }
                    }
                }
            }
            open.push(FloodEntry { d: new_d, pos: neighbor, node: entries.len() - 1 });
            Ghost((paths2, costs2))
        },
    }
}

/// The cost functions under which the flood settles true distances: the
/// cost of a tile depends on the tile alone and is never negative.
pub open spec fn flood_costs_ok<F: Fn(GridVec) -> Option<i32>>(cost_fn: F) -> bool {
    &&& cost_deterministic(cost_fn)
    &&& forall|p: GridVec, c: i32| #[trigger] call_ensures(cost_fn, (p,), Some(c)) ==> c >= 0
}

/// Entry `i` of `m` holds no more than any costed walk from a source to
/// its tile costs.
pub open spec fn entry_minimal<F: Fn(GridVec) -> Option<i32>>(
    cost_fn: F,
    sources: Seq<GridVec>,
    m: Seq<(GridVec, i32)>,
    i: int,
) -> bool {
    forall|path: Seq<GridVec>, cs: Seq<i32>|
        #[trigger] is_costed_walk(cost_fn, sources, path, cs) && path.last() == m[i].0 ==> m[i].1 <= cost_sum(cs)
}

/// Tile `y` has an entry in `m` of at most `bound`.
pub open spec fn reached_within(m: Seq<(GridVec, i32)>, y: GridVec, bound: int) -> bool {
    exists|j: int| 0 <= j < m.len() && m[j].0 == y && #[trigger] m[j].1 <= bound
}

/// Every king neighbour of entry `i`'s tile that `cost_fn` lets one enter
/// at cost `c` has an entry of at most entry `i`'s distance plus `c`.
pub open spec fn entry_spread<F: Fn(GridVec) -> Option<i32>>(cost_fn: F, m: Seq<(GridVec, i32)>, i: int) -> bool {
    forall|y: GridVec, c: i32|
        king_adjacent(m[i].0, y) && #[trigger] call_ensures(cost_fn, (y,), Some(c)) ==> reached_within(m, y, m[i].1 + c)
}

/// How many flags are set.
pub open spec fn count_true(s: Seq<bool>) -> int
    decreases s.len(),
{
    if s.len() == 0 {
        0
    } else {
        count_true(s.drop_last()) + if s.last() { 1int } else { 0int }
    }
}

/// Setting flag `i` to `x` changes the count by the difference.
proof fn lemma_count_true_update(s: Seq<bool>, i: int, x: bool)
    requires
        0 <= i < s.len(),
    ensures
        count_true(s.update(i, x)) == count_true(s) - (if s[i] { 1int } else { 0int }) + (if x { 1int } else { 0int }),
    decreases s.len(),
{
    let t = s.update(i, x);
    if i == s.len() - 1 {
        assert(t.drop_last() =~= s.drop_last());
    } else {
        assert(t.drop_last() =~= s.drop_last().update(i, x));
        lemma_count_true_update(s.drop_last(), i, x);
    }
}

/// Removing flag `i` takes it off the count.
proof fn lemma_count_true_remove(s: Seq<bool>, i: int)
    requires
        0 <= i < s.len(),
    ensures
        count_true(s.remove(i)) == count_true(s) - (if s[i] { 1int } else { 0int }),
    decreases s.len(),
{
    let t = s.remove(i);
    if i == s.len() - 1 {
        assert(t =~= s.drop_last());
    } else {
        assert(t.drop_last() =~= s.drop_last().remove(i));
        assert(t.last() == s.last());
        lemma_count_true_remove(s.drop_last(), i);
    }
}

/// Adding a flag adds it to the count.
proof fn lemma_count_true_push(s: Seq<bool>, x: bool)
    ensures
        count_true(s.push(x)) == count_true(s) + (if x { 1int } else { 0int }),
{
    assert(s.push(x).drop_last() =~= s);
}

/// The count lies between zero and the length.
proof fn lemma_count_true_bounds(s: Seq<bool>)
    ensures
        0 <= count_true(s) <= s.len(),
    decreases s.len(),
{
    if s.len() > 0 {
        lemma_count_true_bounds(s.drop_last());
    }
}

/// No flag set: the count is zero.
proof fn lemma_count_true_none(s: Seq<bool>)
    requires
        forall|i: int| 0 <= i < s.len() ==> !s[i],
    ensures
        count_true(s) == 0,
    decreases s.len(),
{
    if s.len() > 0 {
        lemma_count_true_none(s.drop_last());
    }
}

/// All flags set: the count is the length.
proof fn lemma_count_true_all(s: Seq<bool>)
    requires
        forall|i: int| 0 <= i < s.len() ==> s[i],
    ensures
        count_true(s) == s.len(),
    decreases s.len(),
{
    if s.len() > 0 {
        lemma_count_true_all(s.drop_last());
    }
}

/// Entry `i` has a frontier entry carrying its exact distance.
spec fn flood_exact(entries: Seq<(GridVec, i32)>, open: Seq<FloodEntry>, i: int) -> bool {
    exists|k: int| 0 <= k < open.len() && (#[trigger] open[k]).node == i && open[k].d == entries[i].1
}

/// The flood's settling bookkeeping under non-negative deterministic
/// costs: settled entries are minimal and (but `expanding`) have spread to
/// their neighbours; unsettled entries have an exact frontier entry;
/// distances are non-negative; frontier entries from the seeding are for
/// sources at distance zero, all others for tiles that are not sources,
/// and of those at most one per entry is exact and none for a settled
/// entry; and the re-expansions of settled entries together with the
/// seeding entries left number at most the sources.
#[verifier::opaque]
spec fn flood_inv<F: Fn(GridVec) -> Option<i32>>(
    cost_fn: F,
    sources: Seq<GridVec>,
    entries: Seq<(GridVec, i32)>,
    open: Seq<FloodEntry>,
    settled: Seq<bool>,
    seeded: Seq<bool>,
    expanding: int,
    reexp: int,
) -> bool {
    &&& settled.len() == entries.len()
    &&& seeded.len() == open.len()
    &&& forall|i: int| 0 <= i < entries.len() && #[trigger] settled[i] ==> entry_minimal(cost_fn, sources, entries, i)
    &&& forall|i: int| 0 <= i < entries.len() && #[trigger] settled[i] && i != expanding ==> entry_spread(cost_fn, entries, i)
    &&& forall|i: int| 0 <= i < entries.len() && !(#[trigger] settled[i]) ==> flood_exact(entries, open, i)
    &&& forall|i: int| 0 <= i < entries.len() ==> (#[trigger] entries[i]).1 >= 0
    &&& forall|k: int| 0 <= k < open.len() && #[trigger] seeded[k] ==> sources.contains(open[k].pos) && open[k].d == 0
    &&& forall|k: int| 0 <= k < open.len() && !(#[trigger] seeded[k]) ==> !sources.contains(open[k].pos)
    &&& forall|k: int|
        0 <= k < open.len() && !(#[trigger] seeded[k]) && settled[open[k].node as int] ==> open[k].d > entries[open[k].node as int].1
    &&& forall|k1: int, k2: int|
        0 <= k1 < open.len() && 0 <= k2 < open.len() && !(#[trigger] seeded[k1]) && !(#[trigger] seeded[k2]) && open[k1].node
            == open[k2].node && open[k1].d == entries[open[k1].node as int].1 && open[k2].d == entries[open[k2].node as int].1
            ==> k1 == k2
    &&& 0 <= reexp
    &&& reexp + count_true(seeded) <= sources.len()
}

/// A costed walk's prefixes are costed walks; each step is a king move
/// onto a tile at its reported cost; it starts on a source.
proof fn lemma_costed_prefix<F: Fn(GridVec) -> Option<i32>>(
    cost_fn: F,
    sources: Seq<GridVec>,
    path: Seq<GridVec>,
    cs: Seq<i32>,
    j: int,
)
    requires
        is_costed_walk(cost_fn, sources, path, cs),
        0 <= j < path.len(),
    ensures
        cs.len() == path.len() - 1,
        sources.contains(path[0]),
        is_costed_walk(cost_fn, sources, path.take(j + 1), cs.take(j)),
        j >= 1 ==> king_adjacent(path[j - 1], path[j]) && call_ensures(cost_fn, (path[j],), Some(cs[j - 1])),
        j >= 1 ==> cost_sum(cs.take(j)) == cost_sum(cs.take(j - 1)) + cs[j - 1],
    decreases path.len(),
{
    if path.len() == 1 {
        assert(path.take(1) =~= path);
        assert(cs.take(0) =~= cs);
    } else {
        lemma_costed_prefix(cost_fn, sources, path.drop_last(), cs.drop_last(), 0);
        assert(path.drop_last()[0] == path[0]);
        if j == path.len() - 1 {
            assert(path.take(j + 1) =~= path);
            assert(cs.take(j) =~= cs);
            assert(path[j - 1] == path[path.len() - 2]);
            assert(cs.take(j - 1) =~= cs.drop_last());
        } else {
            lemma_costed_prefix(cost_fn, sources, path.drop_last(), cs.drop_last(), j);
            assert(path.drop_last().take(j + 1) =~= path.take(j + 1));
            assert(cs.drop_last().take(j) =~= cs.take(j));
            if j >= 1 {
                assert(path.drop_last()[j - 1] == path[j - 1]);
                assert(path.drop_last()[j] == path[j]);
                assert(cs.drop_last()[j - 1] == cs[j - 1]);
                assert(cs.drop_last().take(j - 1) =~= cs.take(j - 1));
            }
        }
    }
    if j >= 1 {
        assert(cs.take(j).drop_last() =~= cs.take(j - 1));
    }
}

/// Under non-negative costs every prefix of a costed walk costs at least
/// zero.
proof fn lemma_costed_prefix_nonneg<F: Fn(GridVec) -> Option<i32>>(
    cost_fn: F,
    sources: Seq<GridVec>,
    path: Seq<GridVec>,
    cs: Seq<i32>,
    j: int,
)
    requires
        flood_costs_ok(cost_fn),
        is_costed_walk(cost_fn, sources, path, cs),
        0 <= j < path.len(),
    ensures
        0 <= cost_sum(cs.take(j)),
    decreases j,
{
    lemma_costed_prefix(cost_fn, sources, path, cs, j);
    if j == 0 {
        assert(cs.take(0) =~= Seq::<i32>::empty());
    } else {
        lemma_costed_prefix_nonneg(cost_fn, sources, path, cs, j - 1);
    }
}

/// Under non-negative costs a costed walk costs no less than any of its
/// prefixes, and nothing less than zero.
proof fn lemma_costed_monotone<F: Fn(GridVec) -> Option<i32>>(
    cost_fn: F,
    sources: Seq<GridVec>,
    path: Seq<GridVec>,
    cs: Seq<i32>,
    j: int,
)
    requires
        flood_costs_ok(cost_fn),
        is_costed_walk(cost_fn, sources, path, cs),
        0 <= j < path.len(),
    ensures
        0 <= cost_sum(cs.take(j)) <= cost_sum(cs),
    decreases path.len() - j,
{
    lemma_costed_prefix(cost_fn, sources, path, cs, j);
    lemma_costed_prefix_nonneg(cost_fn, sources, path, cs, j);
    if j < path.len() - 1 {
        lemma_costed_monotone(cost_fn, sources, path, cs, j + 1);
        lemma_costed_prefix(cost_fn, sources, path, cs, j + 1);
    } else {
        assert(cs.take(j) =~= cs);
    }
}

/// Following a costed walk from index `j`, where settled entry `x` (on
/// `wk[j]`) costs no more than the walk so far: some later tile has an
/// unsettled entry costing no more than the walk up to it, or the walk's
/// end has a settled entry.
proof fn lemma_first_unsettled_from<F: Fn(GridVec) -> Option<i32>>(
    cost_fn: F,
    sources: Seq<GridVec>,
    entries: Seq<(GridVec, i32)>,
    open: Seq<FloodEntry>,
    settled: Seq<bool>,
    seeded: Seq<bool>,
    reexp: int,
    wk: Seq<GridVec>,
    cs: Seq<i32>,
    j: int,
    x: int,
)
    requires
        flood_inv(cost_fn, sources, entries, open, settled, seeded, -1, reexp),
        is_costed_walk(cost_fn, sources, wk, cs),
        0 <= j < wk.len(),
        0 <= x < entries.len(),
        entries[x].0 == wk[j],
        settled[x],
        entries[x].1 <= cost_sum(cs.take(j)),
    ensures
        (exists|jj: int, m: int|
            0 <= jj < wk.len() && 0 <= m < entries.len() && entries[m].0 == wk[jj] && !settled[m] && entries[m].1
                <= cost_sum(cs.take(jj))) || (exists|m: int| 0 <= m < entries.len() && entries[m].0 == wk.last() && settled[m]),
    decreases wk.len() - j,
{
    reveal(flood_inv);
    if j == wk.len() - 1 {
        assert(entries[x].0 == wk.last());
    } else {
        lemma_costed_prefix(cost_fn, sources, wk, cs, j + 1);
        let y = wk[j + 1];
        let c = cs[j];
        assert(entry_spread(cost_fn, entries, x));
        assert(king_adjacent(entries[x].0, y));
        assert(call_ensures(cost_fn, (y,), Some(c)));
        assert(reached_within(entries, y, entries[x].1 + c));
        let m = choose|m: int| 0 <= m < entries.len() && entries[m].0 == y && #[trigger] entries[m].1 <= entries[x].1 + c;
        if !settled[m] {
            assert(entries[m].1 <= cost_sum(cs.take(j + 1)));
        } else {
            lemma_first_unsettled_from(cost_fn, sources, entries, open, settled, seeded, reexp, wk, cs, j + 1, m);
        }
    }
}

/// The entry popped for an unsettled entry at its exact distance is no
/// costlier than any costed walk to its tile.
proof fn lemma_flood_popped<F: Fn(GridVec) -> Option<i32>>(
    cost_fn: F,
    sources: Seq<GridVec>,
    entries: Seq<(GridVec, i32)>,
    open: Seq<FloodEntry>,
    paths: Seq<Seq<GridVec>>,
    costs: Seq<Seq<i32>>,
    depth: int,
    settled: Seq<bool>,
    seeded: Seq<bool>,
    reexp: int,
    w: int,
)
    requires
        flood_costs_ok(cost_fn),
        flood_ok(cost_fn, sources, entries, paths, costs, depth),
        flood_inv(cost_fn, sources, entries, open, settled, seeded, -1, reexp),
        frontier_ok(open, entries),
        0 <= w < open.len(),
        forall|k: int| 0 <= k < open.len() ==> !flood_before(#[trigger] open[k], open[w]),
        open[w].d == entries[open[w].node as int].1,
        !settled[open[w].node as int],
    ensures
        entry_minimal(cost_fn, sources, entries, open[w].node as int),
{
    let v = open[w].node as int;
    assert(v < entries.len());
    assert forall|wk: Seq<GridVec>, cs: Seq<i32>|
        #[trigger] is_costed_walk(cost_fn, sources, wk, cs) && wk.last() == entries[v].0 implies entries[v].1 <= cost_sum(cs) by {
        reveal(flood_ok);
        reveal(flood_inv);
        lemma_costed_prefix(cost_fn, sources, wk, cs, 0);
        let k0 = choose|k0: int| 0 <= k0 < sources.len() && sources[k0] == wk[0];
        assert(has_entry(entries, sources[k0]));
        let m0 = choose|m0: int| 0 <= m0 < entries.len() && (#[trigger] entries[m0]).0 == sources[k0];
        assert(entries[m0].1 <= 0);
        assert(cs.take(0) =~= Seq::<i32>::empty());
        let found_unsettled = exists|jj: int, m: int|
            0 <= jj < wk.len() && 0 <= m < entries.len() && entries[m].0 == wk[jj] && !settled[m] && entries[m].1
                <= cost_sum(cs.take(jj));
        if settled[m0] {
            lemma_first_unsettled_from(cost_fn, sources, entries, open, settled, seeded, reexp, wk, cs, 0, m0);
        }
        if found_unsettled || !settled[m0] {
            let (jj, m) = if !settled[m0] {
                (0int, m0)
            } else {
                choose|jj: int, m: int|
                    0 <= jj < wk.len() && 0 <= m < entries.len() && entries[m].0 == wk[jj] && !settled[m] && entries[m].1
                        <= cost_sum(cs.take(jj))
            };
            assert(entries[m].1 <= cost_sum(cs.take(jj)));
            lemma_costed_monotone(cost_fn, sources, wk, cs, jj);
            assert(flood_exact(entries, open, m));
            let km = choose|k: int| 0 <= k < open.len() && (#[trigger] open[k]).node == m && open[k].d == entries[m].1;
            assert(!flood_before(open[km], open[w]));
        } else {
            let m = choose|m: int| 0 <= m < entries.len() && entries[m].0 == wk.last() && settled[m];
            assert(distinct_tiles(entries));
            assert(m == v);
        }
    }
}

/// Settling the entry whose exact frontier entry was popped keeps the
/// bookkeeping, with that entry being expanded; a popped entry that was
/// already settled counts as a re-expansion.
#[verifier::rlimit(60)]
proof fn lemma_flood_settle<F: Fn(GridVec) -> Option<i32>>(
    cost_fn: F,
    sources: Seq<GridVec>,
    entries: Seq<(GridVec, i32)>,
    open: Seq<FloodEntry>,
    paths: Seq<Seq<GridVec>>,
    costs: Seq<Seq<i32>>,
    depth: int,
    settled: Seq<bool>,
    seeded: Seq<bool>,
    reexp: int,
    w: int,
)
    requires
        flood_costs_ok(cost_fn),
        flood_ok(cost_fn, sources, entries, paths, costs, depth),
        flood_inv(cost_fn, sources, entries, open, settled, seeded, -1, reexp),
        frontier_ok(open, entries),
        0 <= w < open.len(),
        forall|k: int| 0 <= k < open.len() ==> !flood_before(#[trigger] open[k], open[w]),
        open[w].d == entries[open[w].node as int].1,
    ensures
        ({
            let v = open[w].node as int;
            let r2 = reexp + if settled[v] { 1int } else { 0int };
            &&& flood_inv(cost_fn, sources, entries, open.remove(w), settled.update(v, true), seeded.remove(w), v, r2)
            &&& count_true(settled.update(v, true)) + r2 == count_true(settled) + reexp + 1
            &&& settled.len() == entries.len()
        }),
{
    let v = open[w].node as int;
    assert(v < entries.len());
    if !settled[v] {
        lemma_flood_popped(cost_fn, sources, entries, open, paths, costs, depth, settled, seeded, reexp, w);
    }
    reveal(flood_inv);
    reveal(flood_ok);
    let s2 = settled.update(v, true);
    let o2 = open.remove(w);
    let sd2 = seeded.remove(w);
    let r2 = reexp + if settled[v] { 1int } else { 0int };
    lemma_count_true_update(settled, v, true);
    lemma_count_true_remove(seeded, w);
    if settled[v] {
        assert(seeded[w]);
    }
    assert forall|k: int| 0 <= k < o2.len() implies o2[k] == open[if k < w { k } else { k + 1 }] && sd2[k] == seeded[if k < w {
        k
    } else {
        k + 1
    }] by {}
    assert forall|i: int| 0 <= i < entries.len() && #[trigger] s2[i] implies entry_minimal(cost_fn, sources, entries, i) by {
        if i != v {
            assert(settled[i]);
        }
    }
    assert forall|i: int| 0 <= i < entries.len() && #[trigger] s2[i] && i != v implies entry_spread(cost_fn, entries, i) by {
        assert(settled[i]);
    }
    assert forall|i: int| 0 <= i < entries.len() && !(#[trigger] s2[i]) implies flood_exact(entries, o2, i) by {
        assert(i != v && !settled[i]);
        assert(flood_exact(entries, open, i));
        let k = choose|k: int| 0 <= k < open.len() && (#[trigger] open[k]).node == i && open[k].d == entries[i].1;
        assert(k != w);
        if k < w {
            assert(o2[k] == open[k]);
        } else {
            assert(o2[k - 1] == open[k]);
        }
    }
    assert forall|k: int| 0 <= k < o2.len() && #[trigger] sd2[k] implies sources.contains(o2[k].pos) && o2[k].d == 0 by {
        let kk = if k < w { k } else { k + 1 };
        assert(seeded[kk] && o2[k] == open[kk]);
    }
    assert forall|k: int| 0 <= k < o2.len() && !(#[trigger] sd2[k]) implies !sources.contains(o2[k].pos) by {
        let kk = if k < w { k } else { k + 1 };
        assert(!seeded[kk] && o2[k] == open[kk]);
    }
    assert forall|k: int|
        0 <= k < o2.len() && !(#[trigger] sd2[k]) && s2[o2[k].node as int] implies o2[k].d > entries[o2[k].node as int].1 by {
        let kk = if k < w { k } else { k + 1 };
        assert(!seeded[kk] && o2[k] == open[kk]);
        assert(open[kk].node < entries.len());
        if open[kk].node as int != v || settled[v] {
        } else {
            assert(open[kk].pos == entries[v].0);
            assert(open[w].pos == entries[v].0);
            if seeded[w] {
                assert(sources.contains(open[w].pos));
            } else {
                assert(kk != w);
                assert(open[kk].d >= entries[v].1);
            }
        }
    }
    assert forall|k1: int, k2: int|
        0 <= k1 < o2.len() && 0 <= k2 < o2.len() && !(#[trigger] sd2[k1]) && !(#[trigger] sd2[k2]) && o2[k1].node == o2[k2].node
            && o2[k1].d == entries[o2[k1].node as int].1 && o2[k2].d == entries[o2[k2].node as int].1 implies k1 == k2 by {
        let kk1 = if k1 < w { k1 } else { k1 + 1 };
        let kk2 = if k2 < w { k2 } else { k2 + 1 };
        assert(o2[k1] == open[kk1] && o2[k2] == open[kk2] && sd2[k1] == seeded[kk1] && sd2[k2] == seeded[kk2]);
    }
}

/// The neighbours `add_spec(current, dir8(k2))` for `k2 < k` of settled
/// entry `ci` have entries within its distance plus their cost.
spec fn flood_processed<F: Fn(GridVec) -> Option<i32>>(
    cost_fn: F,
    m: Seq<(GridVec, i32)>,
    ci: int,
    current: GridVec,
    k: int,
) -> bool {
    forall|k2: int, c: i32|
        0 <= k2 < k && #[trigger] call_ensures(cost_fn, (add_spec(current, dir8(k2)),), Some(c)) ==> reached_within(
            m,
            add_spec(current, dir8(k2)),
            m[ci].1 + c,
        )
}

/// Entries only added or lowered keep every bound they met.
spec fn entries_lowered(before: Seq<(GridVec, i32)>, after: Seq<(GridVec, i32)>) -> bool {
    &&& after.len() >= before.len()
    &&& forall|i: int| 0 <= i < before.len() ==> (#[trigger] after[i]).0 == before[i].0 && after[i].1 <= before[i].1
}

/// A bound met before entries were lowered is still met.
proof fn lemma_reached_lowered(before: Seq<(GridVec, i32)>, after: Seq<(GridVec, i32)>, y: GridVec, bound: int)
    requires
        entries_lowered(before, after),
        reached_within(before, y, bound),
    ensures
        reached_within(after, y, bound),
{
    let j = choose|j: int| 0 <= j < before.len() && before[j].0 == y && #[trigger] before[j].1 <= bound;
    assert(after[j].0 == y && after[j].1 <= bound);
}

/// After relaxing the `k`-th neighbour `y` of the settled entry `ci`
/// (cost `c`), the bookkeeping holds with the flags extended alike and the
/// neighbours up to `k` are processed.
#[verifier::rlimit(80)]
proof fn lemma_flood_after_relax<F: Fn(GridVec) -> Option<i32>>(
    cost_fn: F,
    sources: Seq<GridVec>,
    entries: Seq<(GridVec, i32)>,
    open: Seq<FloodEntry>,
    post_entries: Seq<(GridVec, i32)>,
    post_open: Seq<FloodEntry>,
    paths: Seq<Seq<GridVec>>,
    costs: Seq<Seq<i32>>,
    depth: int,
    settled: Seq<bool>,
    seeded: Seq<bool>,
    reexp: int,
    ci: int,
    current: GridVec,
    k: int,
    y: GridVec,
    c: i32,
    new_d: i32,
) -> (flags: (Seq<bool>, Seq<bool>))
    requires
        flood_costs_ok(cost_fn),
        flood_ok(cost_fn, sources, entries, paths, costs, depth),
        flood_inv(cost_fn, sources, entries, open, settled, seeded, ci, reexp),
        frontier_ok(open, entries),
        0 <= ci < entries.len(),
        entries.len() <= usize::MAX,
        settled[ci],
        entries[ci].0 == current,
        0 <= k < 8,
        y == add_spec(current, dir8(k)),
        king_adjacent(current, y),
        call_ensures(cost_fn, (y,), Some(c)),
        new_d == entries[ci].1 + c,
        flood_processed(cost_fn, entries, ci, current, k),
        forall|j: int|
            0 <= j < entries.len() && (#[trigger] entries[j]).0 == y ==> if new_d < entries[j].1 {
                &&& post_entries == entries.update(j, (y, new_d))
                &&& post_open == open.push(FloodEntry { d: new_d, pos: y, node: j as usize })
            } else {
                &&& post_entries == entries
                &&& post_open == open
            },
        (forall|j: int| 0 <= j < entries.len() ==> (#[trigger] entries[j]).0 != y) ==> {
            &&& post_entries == entries.push((y, new_d))
            &&& post_open == open.push(FloodEntry { d: new_d, pos: y, node: entries.len() as usize })
        },
    ensures
        flood_inv(cost_fn, sources, post_entries, post_open, flags.0, flags.1, ci, reexp),
        flood_processed(cost_fn, post_entries, ci, current, k + 1),
        count_true(flags.0) == count_true(settled),
        entries_lowered(entries, post_entries),
        forall|i: int| 0 <= i < settled.len() ==> flags.0[i] == settled[i],
        settled.len() == entries.len(),
        flags.0.len() == post_entries.len(),
{
    reveal(flood_inv);
    reveal(flood_ok);
    let n = entries.len() as int;
    assert(entries[ci].1 >= 0);
    assert(c >= 0);
    let flags: (Seq<bool>, Seq<bool>) = if exists|j: int| 0 <= j < n && (#[trigger] entries[j]).0 == y {
        let j = choose|j: int| 0 <= j < n && (#[trigger] entries[j]).0 == y;
        if new_d < entries[j].1 {
            (settled, seeded.push(false))
        } else {
            (settled, seeded)
        }
    } else {
        (settled.push(false), seeded.push(false))
    };
    let s2 = flags.0;
    let sd2 = flags.1;
    if exists|j: int| 0 <= j < n && (#[trigger] entries[j]).0 == y {
        let j = choose|j: int| 0 <= j < n && (#[trigger] entries[j]).0 == y;
        if new_d < entries[j].1 {
            let e = FloodEntry { d: new_d, pos: y, node: j as usize };
            assert(post_entries == entries.update(j, (y, new_d)));
            assert(post_open == open.push(e));
            if settled[j] {
                lemma_walk_extend(cost_fn, sources, paths[ci], costs[ci], y, c);
                assert(entry_minimal(cost_fn, sources, entries, j));
                assert(is_costed_walk(cost_fn, sources, paths[ci].push(y), costs[ci].push(c)));
            }
            assert(!settled[j]);
            assert(j != ci);
            if sources.contains(y) {
                assert(entries[j].1 <= 0);
            }
            lemma_count_true_push(seeded, false);
            assert(entries_lowered(entries, post_entries)) by {
                assert forall|i: int| 0 <= i < n implies (#[trigger] post_entries[i]).0 == entries[i].0 && post_entries[i].1
                    <= entries[i].1 by {}
            }
            assert forall|i: int| 0 <= i < n && #[trigger] s2[i] implies entry_minimal(cost_fn, sources, post_entries, i) by {
                assert(i != j && post_entries[i] == entries[i]);
                assert(entry_minimal(cost_fn, sources, entries, i));
            }
            assert forall|i: int| 0 <= i < n && #[trigger] s2[i] && i != ci implies entry_spread(cost_fn, post_entries, i) by {
                assert(i != j && post_entries[i] == entries[i]);
                assert(entry_spread(cost_fn, entries, i));
                assert forall|z: GridVec, cz: i32| king_adjacent(post_entries[i].0, z) && #[trigger] call_ensures(cost_fn, (z,), Some(cz)) implies reached_within(
                    post_entries,
                    z,
                    post_entries[i].1 + cz,
                ) by {
                    lemma_reached_lowered(entries, post_entries, z, entries[i].1 + cz);
                }
            }
            assert forall|i: int| 0 <= i < n && !(#[trigger] s2[i]) implies flood_exact(post_entries, post_open, i) by {
                if i == j {
                    assert(post_open[open.len() as int] == e);
                } else {
                    assert(flood_exact(entries, open, i));
                    let kk = choose|kk: int| 0 <= kk < open.len() && (#[trigger] open[kk]).node == i && open[kk].d == entries[i].1;
                    assert(post_open[kk] == open[kk]);
                }
            }
            assert forall|i: int| 0 <= i < n implies (#[trigger] post_entries[i]).1 >= 0 by {}
            assert forall|q: int| 0 <= q < post_open.len() && #[trigger] sd2[q] implies sources.contains(post_open[q].pos)
                && post_open[q].d == 0 by {
                assert(q < open.len() && post_open[q] == open[q] && sd2[q] == seeded[q]);
            }
            assert forall|q: int| 0 <= q < post_open.len() && !(#[trigger] sd2[q]) implies !sources.contains(post_open[q].pos) by {
                if q < open.len() {
                    assert(post_open[q] == open[q] && sd2[q] == seeded[q]);
                }
            }
            assert forall|q: int|
                0 <= q < post_open.len() && !(#[trigger] sd2[q]) && s2[post_open[q].node as int] implies post_open[q].d
                    > post_entries[post_open[q].node as int].1 by {
                assert(q < open.len());
                assert(post_open[q] == open[q] && sd2[q] == seeded[q]);
                assert(open[q].node as int != j);
            }
            assert forall|q1: int, q2: int|
                0 <= q1 < post_open.len() && 0 <= q2 < post_open.len() && !(#[trigger] sd2[q1]) && !(#[trigger] sd2[q2])
                    && post_open[q1].node == post_open[q2].node && post_open[q1].d == post_entries[post_open[q1].node as int].1
                    && post_open[q2].d == post_entries[post_open[q2].node as int].1 implies q1 == q2 by {
                let last = open.len() as int;
                if q1 < last {
                    assert(post_open[q1] == open[q1] && sd2[q1] == seeded[q1]);
                }
                if q2 < last {
                    assert(post_open[q2] == open[q2] && sd2[q2] == seeded[q2]);
                }
                if q1 < last && post_open[q1].node as int == j {
                    assert(open[q1].d >= entries[j].1);
                }
                if q2 < last && post_open[q2].node as int == j {
                    assert(open[q2].d >= entries[j].1);
                }
            }
            assert(reached_within(post_entries, y, post_entries[ci].1 + c)) by {
                assert(post_entries[j].0 == y && post_entries[j].1 <= post_entries[ci].1 + c);
            }
        } else {
            assert(post_entries == entries && post_open == open);
            assert(entries_lowered(entries, post_entries)) by {
                assert forall|i: int| 0 <= i < n implies (#[trigger] post_entries[i]).0 == entries[i].0 && post_entries[i].1
                    <= entries[i].1 by {}
            }
            assert(reached_within(post_entries, y, post_entries[ci].1 + c)) by {
                assert(post_entries[j].0 == y && post_entries[j].1 <= post_entries[ci].1 + c);
            }
        }
    } else {
        let e = FloodEntry { d: new_d, pos: y, node: entries.len() as usize };
        assert(post_entries == entries.push((y, new_d)));
        assert(post_open == open.push(e));
        lemma_count_true_push(settled, false);
        lemma_count_true_push(seeded, false);
        assert(entries_lowered(entries, post_entries)) by {
            assert forall|i: int| 0 <= i < n implies (#[trigger] post_entries[i]).0 == entries[i].0 && post_entries[i].1
                <= entries[i].1 by {
                assert(post_entries[i] == entries[i]);
            }
        }
        assert forall|i: int| 0 <= i < post_entries.len() && #[trigger] s2[i] implies entry_minimal(cost_fn, sources, post_entries, i) by {
            assert(i < n && post_entries[i] == entries[i] && s2[i] == settled[i]);
            assert(entry_minimal(cost_fn, sources, entries, i));
        }
        assert forall|i: int| 0 <= i < post_entries.len() && #[trigger] s2[i] && i != ci implies entry_spread(cost_fn, post_entries, i) by {
            assert(i < n && post_entries[i] == entries[i] && s2[i] == settled[i]);
            assert(entry_spread(cost_fn, entries, i));
            assert forall|z: GridVec, cz: i32| king_adjacent(post_entries[i].0, z) && #[trigger] call_ensures(cost_fn, (z,), Some(cz)) implies reached_within(
                post_entries,
                z,
                post_entries[i].1 + cz,
            ) by {
                lemma_reached_lowered(entries, post_entries, z, entries[i].1 + cz);
            }
        }
        assert forall|i: int| 0 <= i < post_entries.len() && !(#[trigger] s2[i]) implies flood_exact(post_entries, post_open, i) by {
            if i == n {
                assert(post_open[open.len() as int] == e);
            } else {
                assert(post_entries[i] == entries[i] && s2[i] == settled[i]);
                assert(flood_exact(entries, open, i));
                let kk = choose|kk: int| 0 <= kk < open.len() && (#[trigger] open[kk]).node == i && open[kk].d == entries[i].1;
                assert(post_open[kk] == open[kk]);
            }
        }
        assert forall|i: int| 0 <= i < post_entries.len() implies (#[trigger] post_entries[i]).1 >= 0 by {
            if i < n {
                assert(post_entries[i] == entries[i]);
            }
        }
        if sources.contains(y) {
            let k0 = choose|k0: int| 0 <= k0 < sources.len() && sources[k0] == y;
            assert(has_entry(entries, sources[k0]));
            let m0 = choose|m0: int| 0 <= m0 < entries.len() && (#[trigger] entries[m0]).0 == sources[k0];
            assert(entries[m0].0 != y);
        }
        assert forall|q: int| 0 <= q < post_open.len() && #[trigger] sd2[q] implies sources.contains(post_open[q].pos)
            && post_open[q].d == 0 by {
            assert(q < open.len() && post_open[q] == open[q] && sd2[q] == seeded[q]);
        }
        assert forall|q: int| 0 <= q < post_open.len() && !(#[trigger] sd2[q]) implies !sources.contains(post_open[q].pos) by {
            if q < open.len() {
                assert(post_open[q] == open[q] && sd2[q] == seeded[q]);
            }
        }
        assert forall|q: int|
            0 <= q < post_open.len() && !(#[trigger] sd2[q]) && s2[post_open[q].node as int] implies post_open[q].d
                > post_entries[post_open[q].node as int].1 by {
            assert(q < open.len());
            assert(post_open[q] == open[q] && sd2[q] == seeded[q]);
            assert(open[q].node < n);
            assert(post_entries[open[q].node as int] == entries[open[q].node as int]);
            assert(s2[open[q].node as int] == settled[open[q].node as int]);
        }
        assert forall|q1: int, q2: int|
            0 <= q1 < post_open.len() && 0 <= q2 < post_open.len() && !(#[trigger] sd2[q1]) && !(#[trigger] sd2[q2])
                && post_open[q1].node == post_open[q2].node && post_open[q1].d == post_entries[post_open[q1].node as int].1
                && post_open[q2].d == post_entries[post_open[q2].node as int].1 implies q1 == q2 by {
            let last = open.len() as int;
            if q1 < last {
                assert(post_open[q1] == open[q1] && sd2[q1] == seeded[q1]);
                assert(open[q1].node < n);
                assert(post_entries[open[q1].node as int] == entries[open[q1].node as int]);
            }
            if q2 < last {
                assert(post_open[q2] == open[q2] && sd2[q2] == seeded[q2]);
                assert(open[q2].node < n);
                assert(post_entries[open[q2].node as int] == entries[open[q2].node as int]);
            }
        }
        assert(reached_within(post_entries, y, post_entries[ci].1 + c)) by {
            assert(post_entries[n].0 == y && post_entries[n].1 <= post_entries[ci].1 + c);
            assert(post_entries[ci] == entries[ci]);
        }
    }
    assert forall|k2: int, c2: i32|
        0 <= k2 < k + 1 && #[trigger] call_ensures(cost_fn, (add_spec(current, dir8(k2)),), Some(c2)) implies reached_within(
        post_entries,
        add_spec(current, dir8(k2)),
        post_entries[ci].1 + c2,
    ) by {
        assert(post_entries[ci] == entries[ci]);
        if k2 < k {
            lemma_reached_lowered(entries, post_entries, add_spec(current, dir8(k2)), entries[ci].1 + c2);
        } else {
            assert(Some(c2) == Some(c));
        }
    }
    flags
}

/// A neighbour the cost function reports impassable needs no relaxing.
proof fn lemma_flood_blocked<F: Fn(GridVec) -> Option<i32>>(
    cost_fn: F,
    m: Seq<(GridVec, i32)>,
    ci: int,
    current: GridVec,
    k: int,
)
    requires
        flood_costs_ok(cost_fn),
        0 <= k < 8,
        call_ensures(cost_fn, (add_spec(current, dir8(k)),), None),
        flood_processed(cost_fn, m, ci, current, k),
    ensures
        flood_processed(cost_fn, m, ci, current, k + 1),
{
    assert forall|k2: int, c2: i32|
        0 <= k2 < k + 1 && #[trigger] call_ensures(cost_fn, (add_spec(current, dir8(k2)),), Some(c2)) implies reached_within(
        m,
        add_spec(current, dir8(k2)),
        m[ci].1 + c2,
    ) by {
        if k2 == k {
            assert(None::<i32> == Some(c2));
        }
    }
}

/// Once every neighbour of the expanded entry is processed, it has
/// spread.
proof fn lemma_flood_finish<F: Fn(GridVec) -> Option<i32>>(
    cost_fn: F,
    sources: Seq<GridVec>,
    entries: Seq<(GridVec, i32)>,
    open: Seq<FloodEntry>,
    settled: Seq<bool>,
    seeded: Seq<bool>,
    reexp: int,
    ci: int,
)
    requires
        flood_inv(cost_fn, sources, entries, open, settled, seeded, ci, reexp),
        0 <= ci < entries.len(),
        flood_processed(cost_fn, entries, ci, entries[ci].0, 8),
    ensures
        flood_inv(cost_fn, sources, entries, open, settled, seeded, -1, reexp),
{
    reveal(flood_inv);
    let cur = entries[ci].0;
    assert forall|y: GridVec, c: i32| king_adjacent(cur, y) && #[trigger] call_ensures(cost_fn, (y,), Some(c)) implies reached_within(
        entries,
        y,
        entries[ci].1 + c,
    ) by {
        assert(chebyshev(cur, y) == 1);
        lemma_adjacent_is_neighbor(cur, y);
        let k2 = choose|i: int| 0 <= i < 8 && add_spec(cur, #[trigger] dir8(i)) == y;
        assert(call_ensures(cost_fn, (add_spec(cur, dir8(k2)),), Some(c)));
    }
    assert(entry_spread(cost_fn, entries, ci));
}

/// `settled` marks the entries of `m` whose distances are final: each is
/// the least cost of a costed walk from a source to its tile, and every
/// neighbour that may be entered from it has an entry within its distance
/// plus the step. Either every entry is settled, or the expansion budget
/// ran out: `MAX_DIJKSTRA_NODES - 1` expansions were made, each settling a
/// new entry except at most one per source listed.
pub open spec fn flood_settled<F: Fn(GridVec) -> Option<i32>>(
    cost_fn: F,
    sources: Seq<GridVec>,
    m: Seq<(GridVec, i32)>,
    settled: Seq<bool>,
) -> bool {
    &&& settled.len() == m.len()
    &&& forall|i: int|
        0 <= i < m.len() && #[trigger] settled[i] ==> entry_minimal(cost_fn, sources, m, i) && entry_spread(cost_fn, m, i)
    &&& (forall|i: int| 0 <= i < m.len() ==> #[trigger] settled[i]) || count_true(settled) + sources.len() + 1
        >= MAX_DIJKSTRA_NODES
}

/// The seeded flood: every entry unsettled with an exact seeding entry.
proof fn lemma_flood_init<F: Fn(GridVec) -> Option<i32>>(
    cost_fn: F,
    sources: Seq<GridVec>,
    entries: Seq<(GridVec, i32)>,
    open: Seq<FloodEntry>,
)
    requires
        open.len() == sources.len(),
        forall|k: int| 0 <= k < open.len() ==> (#[trigger] open[k]).d == 0 && open[k].pos == sources[k],
        forall|i: int| 0 <= i < entries.len() ==> (#[trigger] entries[i]).1 == 0 && flood_exact(entries, open, i),
    ensures
        flood_inv(
            cost_fn,
            sources,
            entries,
            open,
            Seq::new(entries.len(), |i: int| false),
            Seq::new(open.len(), |k: int| true),
            -1,
            0,
        ),
{
    reveal(flood_inv);
    let seeded = Seq::new(open.len(), |k: int| true);
    let settled = Seq::new(entries.len(), |i: int| false);
    lemma_count_true_all(seeded);
    assert forall|i: int| 0 <= i < entries.len() && !(#[trigger] settled[i]) implies flood_exact(entries, open, i) by {
        assert(entries[i].1 == 0);
    }
    assert forall|k: int| 0 <= k < open.len() && #[trigger] seeded[k] implies sources.contains(open[k].pos) && open[k].d == 0 by {
        assert(open[k].pos == sources[k]);
    }
}

/// Dropping a stale frontier entry keeps the bookkeeping.
proof fn lemma_flood_drop_stale<F: Fn(GridVec) -> Option<i32>>(
    cost_fn: F,
    sources: Seq<GridVec>,
    entries: Seq<(GridVec, i32)>,
    open: Seq<FloodEntry>,
    settled: Seq<bool>,
    seeded: Seq<bool>,
    reexp: int,
    w: int,
)
    requires
        flood_inv(cost_fn, sources, entries, open, settled, seeded, -1, reexp),
        frontier_ok(open, entries),
        0 <= w < open.len(),
        open[w].d > entries[open[w].node as int].1,
    ensures
        flood_inv(cost_fn, sources, entries, open.remove(w), settled, seeded.remove(w), -1, reexp),
{
    reveal(flood_inv);
    let o2 = open.remove(w);
    let sd2 = seeded.remove(w);
    lemma_count_true_remove(seeded, w);
    assert forall|k: int| 0 <= k < o2.len() implies o2[k] == open[if k < w { k } else { k + 1 }] && sd2[k] == seeded[if k < w {
        k
    } else {
        k + 1
    }] by {}
    assert forall|i: int| 0 <= i < entries.len() && !(#[trigger] settled[i]) implies flood_exact(entries, o2, i) by {
        assert(flood_exact(entries, open, i));
        let k = choose|k: int| 0 <= k < open.len() && (#[trigger] open[k]).node == i && open[k].d == entries[i].1;
        assert(k != w);
        if k < w {
            assert(o2[k] == open[k]);
        } else {
            assert(o2[k - 1] == open[k]);
        }
    }
    assert forall|k: int| 0 <= k < o2.len() && #[trigger] sd2[k] implies sources.contains(o2[k].pos) && o2[k].d == 0 by {
        let kk = if k < w { k } else { k + 1 };
        assert(seeded[kk] && o2[k] == open[kk]);
    }
    assert forall|k: int| 0 <= k < o2.len() && !(#[trigger] sd2[k]) implies !sources.contains(o2[k].pos) by {
        let kk = if k < w { k } else { k + 1 };
        assert(!seeded[kk] && o2[k] == open[kk]);
    }
    assert forall|k: int|
        0 <= k < o2.len() && !(#[trigger] sd2[k]) && settled[o2[k].node as int] implies o2[k].d > entries[o2[k].node as int].1 by {
        let kk = if k < w { k } else { k + 1 };
        assert(!seeded[kk] && o2[k] == open[kk]);
    }
    assert forall|k1: int, k2: int|
        0 <= k1 < o2.len() && 0 <= k2 < o2.len() && !(#[trigger] sd2[k1]) && !(#[trigger] sd2[k2]) && o2[k1].node == o2[k2].node
            && o2[k1].d == entries[o2[k1].node as int].1 && o2[k2].d == entries[o2[k2].node as int].1 implies k1 == k2 by {
        let kk1 = if k1 < w { k1 } else { k1 + 1 };
        let kk2 = if k2 < w { k2 } else { k2 + 1 };
        assert(o2[k1] == open[kk1] && o2[k2] == open[kk2] && sd2[k1] == seeded[kk1] && sd2[k2] == seeded[kk2]);
    }
}

/// When the frontier is empty or the budget is reached, the settled
/// entries are as `flood_settled` says.
proof fn lemma_flood_settled_result<F: Fn(GridVec) -> Option<i32>>(
    cost_fn: F,
    sources: Seq<GridVec>,
    entries: Seq<(GridVec, i32)>,
    open: Seq<FloodEntry>,
    settled: Seq<bool>,
    seeded: Seq<bool>,
    reexp: int,
    explored: int,
)
    requires
        flood_inv(cost_fn, sources, entries, open, settled, seeded, -1, reexp),
        explored == count_true(settled) + reexp,
        open.len() == 0 || explored + 1 >= MAX_DIJKSTRA_NODES,
    ensures
        exists|s: Seq<bool>| #[trigger] flood_settled(cost_fn, sources, entries, s),
{
    reveal(flood_inv);
    lemma_count_true_bounds(seeded);
    if open.len() == 0 {
        assert forall|i: int| 0 <= i < entries.len() implies #[trigger] settled[i] by {
            if !settled[i] {
                assert(flood_exact(entries, open, i));
            }
        }
    }
    assert(flood_settled(cost_fn, sources, entries, settled));
}

/// What a finished flood guarantees of its entries.
proof fn lemma_flood_result<F: Fn(GridVec) -> Option<i32>>(
    cost_fn: F,
    sources: Seq<GridVec>,
    entries: Seq<(GridVec, i32)>,
    paths: Seq<Seq<GridVec>>,
    costs: Seq<Seq<i32>>,
    depth: int,
)
    requires
        flood_ok(cost_fn, sources, entries, paths, costs, depth),
    ensures
        distinct_tiles(entries),
        forall|k: int| 0 <= k < sources.len() ==> has_entry(entries, #[trigger] sources[k]),
        forall|i: int|
            0 <= i < entries.len() ==> #[trigger] reached_at(cost_fn, sources, entries[i].0, entries[i].1 as int),
        forall|i: int|
            0 <= i < entries.len() && sources.contains((#[trigger] entries[i]).0) ==> entries[i].1 <= 0,
        0 <= depth <= MAX_DIJKSTRA_NODES ==> forall|i: int|
            0 <= i < entries.len() ==> abs_int((#[trigger] entries[i]).1 as int) <= MAX_DIJKSTRA_NODES
                * MAX_TILE_COST,
{
    reveal(flood_ok);
    assert forall|i: int| 0 <= depth <= MAX_DIJKSTRA_NODES && 0 <= i < entries.len() implies abs_int(
        (#[trigger] entries[i]).1 as int,
    ) <= MAX_DIJKSTRA_NODES * MAX_TILE_COST by {
        assert(depth * MAX_TILE_COST <= MAX_DIJKSTRA_NODES * MAX_TILE_COST) by (nonlinear_arith)
            requires
                depth <= MAX_DIJKSTRA_NODES,
        ;
    }
    assert forall|i: int| 0 <= i < entries.len() implies #[trigger] reached_at(
        cost_fn,
        sources,
        entries[i].0,
        entries[i].1 as int,
    ) by {
        assert(is_costed_walk(cost_fn, sources, paths[i], costs[i]));
    }
}

/// Multi-source Dijkstra flood: the weighted distance of each tile reached
/// from the nearest of `sources`, where `cost_fn` gives the cost of
/// entering a tile (`None` for an impassable tile). At most
/// `MAX_DIJKSTRA_NODES` tiles are expanded.
///
/// Every source is in the map, at distance zero unless a cheaper
/// (negative-cost) walk reached it; every recorded distance is the total
/// cost of a walk of king moves from a source to its tile, each step
/// entering a tile at a cost the cost function reports for it; no tile is
/// recorded twice.
///
/// When the cost of a tile depends on the tile alone and is never
/// negative, the tiles the flood settled hold the least cost of any walk
/// from the nearest source, every tile that may be entered next to a
/// settled tile is in the map within the settled distance plus its cost,
/// and every tile is settled unless the expansion budget ran out
/// (`flood_settled`).
pub fn dijkstra_map<F: Fn(GridVec) -> Option<i32>>(sources: &[GridVec], cost_fn: F) -> (r: DistanceMap)
    requires
        forall|k: int| 0 <= k < sources@.len() ==> path_coord_ok(#[trigger] sources@[k]),
        cost_fn_ok(cost_fn),
    ensures
        distinct_tiles(r.pairs()),
        forall|k: int| 0 <= k < sources@.len() ==> r.has(#[trigger] sources@[k]),
        forall|i: int|
            0 <= i < r.pairs().len() ==> #[trigger] reached_at(
                cost_fn,
                sources@,
                r.pairs()[i].0,
                r.pairs()[i].1 as int,
            ),
        forall|i: int|
            0 <= i < r.pairs().len() && sources@.contains((#[trigger] r.pairs()[i]).0) ==> r.pairs()[i].1
                <= 0,
        forall|i: int|
            0 <= i < r.pairs().len() ==> abs_int((#[trigger] r.pairs()[i]).1 as int) <= MAX_DIJKSTRA_NODES
                * MAX_TILE_COST,
        flood_costs_ok(cost_fn) ==> exists|settled: Seq<bool>| #[trigger] flood_settled(cost_fn, sources@, r.pairs(), settled),
{
    let mut entries: Vec<(GridVec, i32)> = Vec::new();
    let mut open: Vec<FloodEntry> = Vec::new();
    let ghost mut paths: Seq<Seq<GridVec>> = Seq::empty();
    let ghost mut costs: Seq<Seq<i32>> = Seq::empty();
    let mut s: usize = 0;
    while s < sources.len()
        invariant
            s <= sources@.len(),
            forall|k: int| 0 <= k < sources@.len() ==> path_coord_ok(#[trigger] sources@[k]),
            paths.len() == entries@.len(),
            costs.len() == entries@.len(),
            distinct_tiles(entries@),
            forall|k: int| 0 <= k < s ==> has_entry(entries@, #[trigger] sources@[k]),
            forall|i: int|
                0 <= i < entries@.len() ==> sources@.contains((#[trigger] entries@[i]).0) && entries@[i].1
                    == 0 && paths[i] == seq![entries@[i].0] && costs[i] == Seq::<i32>::empty(),
            frontier_ok(open@, entries@),
            open@.len() == s,
            forall|k: int| 0 <= k < open@.len() ==> (#[trigger] open@[k]).d == 0 && open@[k].pos == sources@[k],
            forall|i: int| 0 <= i < entries@.len() ==> #[trigger] flood_exact(entries@, open@, i),
        decreases sources@.len() - s,
    {
        let src = sources[s];
        let ghost before = entries@;
        let ghost open_pre = open@;
        match find_entry(&entries, src) {
            Some(j) => {
                open.push(FloodEntry { d: 0, pos: src, node: j });
                assert(has_entry(entries@, sources@[s as int]));
                assert forall|i: int| 0 <= i < entries@.len() implies #[trigger] flood_exact(entries@, open@, i) by {
                    assert(flood_exact(entries@, open_pre, i));
                    let k = choose|k: int| 0 <= k < open_pre.len() && (#[trigger] open_pre[k]).node == i && open_pre[k].d == entries@[i].1;
                    assert(open@[k] == open_pre[k]);
                }
            },
            None => {
                entries.push((src, 0));
                proof {
                    paths = paths.push(seq![src]);
                    costs = costs.push(Seq::<i32>::empty());
                    assert forall|k: int| 0 <= k <= s implies has_entry(entries@, #[trigger] sources@[k]) by {
                        if k < s {
                            assert(has_entry(before, sources@[k]));
                            let i = choose|i: int| 0 <= i < before.len() && (#[trigger] before[i]).0 == sources@[k];
                            assert(entries@[i] == before[i]);
                        } else {
                            assert(entries@[before.len() as int].0 == src);
                        }
                    }
                    assert forall|i: int|
                        0 <= i < entries@.len() implies sources@.contains((#[trigger] entries@[i]).0)
                            && entries@[i].1 == 0 && paths[i] == seq![entries@[i].0] && costs[i]
                            == Seq::<i32>::empty() by {
                        if i < before.len() {
                            assert(entries@[i] == before[i]);
                        } else {
                            assert(sources@[s as int] == src);
                        }
                    }
                    assert forall|a: int, b: int|
                        0 <= a < entries@.len() && 0 <= b < entries@.len() && a != b implies #[trigger] entries@[a].0
                        != #[trigger] entries@[b].0 by {
                        if a < before.len() {
                            assert(entries@[a] == before[a]);
                        }
                        if b < before.len() {
                            assert(entries@[b] == before[b]);
                        }
                    }
                }
                open.push(FloodEntry { d: 0, pos: src, node: entries.len() - 1 });
                assert forall|i: int| 0 <= i < entries@.len() implies #[trigger] flood_exact(entries@, open@, i) by {
                    if i < before.len() {
                        assert(flood_exact(before, open_pre, i));
                        let k = choose|k: int| 0 <= k < open_pre.len() && (#[trigger] open_pre[k]).node == i && open_pre[k].d == before[i].1;
                        assert(open@[k] == open_pre[k]);
                        assert(entries@[i] == before[i]);
                    } else {
                        assert(open@[open_pre.len() as int].node == i);
                    }
                }
            },
        }
        s = s + 1;
    }
    proof {
        reveal(flood_ok);
        assert forall|i: int| 0 <= i < entries@.len() implies is_costed_walk(
            cost_fn,
            sources@,
            #[trigger] paths[i],
            costs[i],
        ) && paths[i].last() == entries@[i].0 && cost_sum(costs[i]) == entries@[i].1 by {
            assert(sources@.contains(entries@[i].0));
        }
        assert forall|i: int| 0 <= i < entries@.len() implies abs_int(
            (#[trigger] entries@[i]).0.x as int,
        ) <= PATH_COORD_LIMIT + 0 && abs_int(entries@[i].0.y as int) <= PATH_COORD_LIMIT + 0 && abs_int(
            entries@[i].1 as int,
        ) <= 0 * MAX_TILE_COST && (sources@.contains(entries@[i].0) ==> entries@[i].1 <= 0) by {
            let k = choose|k: int| 0 <= k < sources@.len() && sources@[k] == entries@[i].0;
            assert(path_coord_ok(sources@[k]));
        }
        assert(flood_ok(cost_fn, sources@, entries@, paths, costs, 0));
    }
    let mut explored: usize = 0;
    let dirs = GridVec::directions_8();
    let ghost hyp = flood_costs_ok(cost_fn);
    let ghost mut settled: Seq<bool> = Seq::new(entries@.len(), |i: int| false);
    let ghost mut seeded: Seq<bool> = Seq::new(open@.len(), |k: int| true);
    let ghost mut reexp: int = 0;
    proof {
        lemma_flood_init(cost_fn, sources@, entries@, open@);
        lemma_count_true_bounds(settled);
        assert(count_true(settled) == 0) by {
            assert forall|i: int| 0 <= i < settled.len() implies !settled[i] by {}
            lemma_count_true_none(settled);
        }
    }
    while open.len() > 0
        invariant
            hyp == flood_costs_ok(cost_fn),
            hyp ==> flood_inv(cost_fn, sources@, entries@, open@, settled, seeded, -1, reexp),
            hyp ==> explored == count_true(settled) + reexp,
            hyp ==> settled.len() == entries@.len(),
            cost_fn_ok(cost_fn),
            forall|i: int| 0 <= i < 8 ==> #[trigger] dirs@[i] == dir8(i),
            explored < MAX_DIJKSTRA_NODES,
            flood_ok(cost_fn, sources@, entries@, paths, costs, explored as int),
            frontier_ok(open@, entries@),
        decreases 9 * (MAX_DIJKSTRA_NODES - explored) + open@.len(),
    {
        let ghost open_before = open@;
        let e = pop_min_flood(&mut open);
        let ghost w = choose|k: int| 0 <= k < open_before.len() && open_before[k] == e && open@ == open_before.remove(k);
        let d = e.d;
        let ci = e.node;
        let current = e.pos;
        if d > entries[ci].1 {
            proof {
                if hyp {
                    lemma_flood_drop_stale(cost_fn, sources@, entries@, open_before, settled, seeded, reexp, w);
                    seeded = seeded.remove(w);
                }
            }
            continue;
        }
        proof {
            lemma_flood_entry(cost_fn, sources@, entries@, paths, costs, explored as int, ci as int);
            lemma_flood_deeper(cost_fn, sources@, entries@, paths, costs, explored as int, explored + 1);
        }
        explored = explored + 1;
        if explored >= MAX_DIJKSTRA_NODES {
            proof {
                lemma_flood_result(cost_fn, sources@, entries@, paths, costs, explored as int);
                if hyp {
                    lemma_flood_settled_result(cost_fn, sources@, entries@, open_before, settled, seeded, reexp, explored - 1);
                }
            }
            let r = DistanceMap { entries };
            proof {
                if hyp {
                    let st = choose|st: Seq<bool>| flood_settled(cost_fn, sources@, r.entries@, st);
                    assert(flood_settled(cost_fn, sources@, r.pairs(), st));
                }
            }
            return r;
        }
        proof {
            if hyp {
                lemma_flood_settle(cost_fn, sources@, entries@, open_before, paths, costs, explored - 1, settled, seeded, reexp, w);
                let r2 = reexp + if settled[ci as int] { 1int } else { 0int };
                settled = settled.update(ci as int, true);
                seeded = seeded.remove(w);
                reexp = r2;
            }
        }
        let open_len0 = open.len();
        let mut k: usize = 0;
        while k < 8
            invariant
                cost_fn_ok(cost_fn),
                forall|i: int| 0 <= i < 8 ==> #[trigger] dirs@[i] == dir8(i),
                1 <= explored < MAX_DIJKSTRA_NODES,
                ci < entries@.len(),
                entries@[ci as int] == (current, d),
                abs_int(current.x as int) <= PATH_COORD_LIMIT + explored - 1,
                abs_int(current.y as int) <= PATH_COORD_LIMIT + explored - 1,
                abs_int(d as int) <= (explored - 1) * MAX_TILE_COST,
                flood_ok(cost_fn, sources@, entries@, paths, costs, explored as int),
                frontier_ok(open@, entries@),
                k <= 8,
                open@.len() <= open_len0 + k,
                hyp == flood_costs_ok(cost_fn),
                hyp ==> flood_inv(cost_fn, sources@, entries@, open@, settled, seeded, ci as int, reexp),
                hyp ==> explored == count_true(settled) + reexp,
                hyp ==> settled.len() == entries@.len(),
                hyp ==> settled[ci as int],
                hyp ==> flood_processed(cost_fn, entries@, ci as int, current, k as int),
            decreases 8 - k,
        {
            let neighbor = current + dirs[k];
            let ghost entries_pre = entries@;
            let ghost open_pre = open@;
            let n_pre = entries.len();
            proof {
                assert(neighbor == add_spec(current, dir8(k as int)));
            }
            match cost_fn(neighbor) {
                Some(c) => {
                    let new_d = d + c;
                    let g = flood_relax::<F>(
                        &mut entries,
                        &mut open,
                        ci,
                        neighbor,
                        c,
                        new_d,
                        Ghost(cost_fn),
                        Ghost(sources@),
                        Ghost(paths),
                        Ghost(costs),
                        Ghost(explored as int),
                    );
                    proof {
                        if hyp {
                            let fl = lemma_flood_after_relax(
                                cost_fn,
                                sources@,
                                entries_pre,
                                open_pre,
                                entries@,
                                open@,
                                paths,
                                costs,
                                explored as int,
                                settled,
                                seeded,
                                reexp,
                                ci as int,
                                current,
                                k as int,
                                neighbor,
                                c,
                                new_d,
                            );
                            settled = fl.0;
                            seeded = fl.1;
                        }
                        paths = g@.0;
                        costs = g@.1;
                    }
                },
                None => {
                    proof {
                        if hyp {
                            lemma_flood_blocked(cost_fn, entries@, ci as int, current, k as int);
                        }
                    }
                },
            }
            k = k + 1;
        }
        proof {
            if hyp {
                lemma_flood_finish(cost_fn, sources@, entries@, open@, settled, seeded, reexp, ci as int);
            }
        }
    }
    proof {
        lemma_flood_result(cost_fn, sources@, entries@, paths, costs, explored as int);
        if hyp {
            lemma_flood_settled_result(cost_fn, sources@, entries@, open@, settled, seeded, reexp, explored as int);
        }
    }
    let r = DistanceMap { entries };
    proof {
        if hyp {
            let st = choose|st: Seq<bool>| flood_settled(cost_fn, sources@, r.entries@, st);
            assert(flood_settled(cost_fn, sources@, r.pairs(), st));
        }
    }
    r
}

/// The distance recorded for `p` in `m`, or `dflt` when `p` has no entry.
pub open spec fn dist_at(m: Seq<(GridVec, i32)>, p: GridVec, dflt: int) -> int {
    if has_entry(m, p) {
        m[choose|i: int| 0 <= i < m.len() && (#[trigger] m[i]).0 == p].1 as int
    } else {
        dflt
    }
}

/// The flight score of neighbour `k`: twice its distance from the threat
/// (four base steps beyond the NPC's own distance when unrecorded) minus
/// its static tile cost (`COST_BASE` when unknown).
pub open spec fn flee_score(my_pos: GridVec, m: Seq<(GridVec, i32)>, static_costs: Seq<Option<i32>>, k: int) -> int {
    let my_dist = dist_at(m, my_pos, 0);
    let d = dist_at(m, add_spec(my_pos, dir8(k)), my_dist + COST_BASE * 4);
    let c = match static_costs[k] {
        Some(c) => c as int,
        None => COST_BASE as int,
    };
    d * 2 - c
}

/// The best flight direction among neighbours `k..8`, given the best so
/// far: an enterable neighbour replaces it when its score is strictly
/// higher, so ties go to the earlier direction.
pub open spec fn flee_scan(
    my_pos: GridVec,
    m: Seq<(GridVec, i32)>,
    enter: Seq<Option<i32>>,
    static_costs: Seq<Option<i32>>,
    k: int,
    best: Option<GridVec>,
    best_score: int,
) -> Option<GridVec>
    decreases 8 - k,
{
    if k >= 8 {
        best
    } else if enter[k] is Some && flee_score(my_pos, m, static_costs, k) > best_score {
        flee_scan(my_pos, m, enter, static_costs, k + 1, Some(dir8(k)), flee_score(my_pos, m, static_costs, k))
    } else {
        flee_scan(my_pos, m, enter, static_costs, k + 1, best, best_score)
    }
}

/// Whether every recorded distance of `m` is within the flood's bound.
pub open spec fn flood_bounded(m: Seq<(GridVec, i32)>) -> bool {
    forall|i: int| 0 <= i < m.len() ==> abs_int((#[trigger] m[i]).1 as int) <= MAX_DIJKSTRA_NODES * MAX_TILE_COST
}

/// Lookup in a distance map agrees with `dist_at`.
proof fn lemma_dist_at(m: Seq<(GridVec, i32)>, p: GridVec, v: i32, i: int)
    requires
        distinct_tiles(m),
        0 <= i < m.len(),
        m[i] == (p, v),
    ensures
        has_entry(m, p),
        forall|dflt: int| dist_at(m, p, dflt) == v,
{
    assert(m[i].0 == p);
    let j = choose|j: int| 0 <= j < m.len() && (#[trigger] m[j]).0 == p;
    assert(j == i);
}

/// How far neighbour `k` of `my_pos` is from the threat in the flood
/// `m`: its recorded distance, or four base steps beyond `my_pos`'s own
/// when it has none.
pub open spec fn flight_distance(my_pos: GridVec, m: Seq<(GridVec, i32)>, k: int) -> int {
    dist_at(m, add_spec(my_pos, dir8(k)), dist_at(m, my_pos, 0) + COST_BASE * 4)
}

/// The static cost of neighbour `k`: its known cost, `COST_BASE` when
/// unknown.
pub open spec fn hazard_cost(static_costs: Seq<Option<i32>>, k: int) -> int {
    match static_costs[k] {
        Some(c) => c as int,
        None => COST_BASE as int,
    }
}

/// Fleeing onto neighbour `a` is strictly better than onto `b`: twice the
/// distance from the threat, less the static cost, is higher.
pub open spec fn flight_better(my_pos: GridVec, m: Seq<(GridVec, i32)>, static_costs: Seq<Option<i32>>, a: int, b: int) -> bool {
    2 * flight_distance(my_pos, m, a) - hazard_cost(static_costs, a) > 2 * flight_distance(my_pos, m, b) - hazard_cost(
        static_costs,
        b,
    )
}

/// `r`, when a step, is the best enterable neighbour to flee onto: none
/// is strictly better, every earlier one is strictly worse (ties go to
/// the earlier direction), and of the neighbours as far from the threat
/// none has a lower static cost.
pub open spec fn best_flight(
    my_pos: GridVec,
    m: Seq<(GridVec, i32)>,
    enter: Seq<Option<i32>>,
    static_costs: Seq<Option<i32>>,
    r: Option<GridVec>,
) -> bool {
    r matches Some(d) ==> exists|j: int|
        #![trigger dir8(j)]
        {
            &&& 0 <= j < 8
            &&& d == dir8(j)
            &&& enter[j] is Some
            &&& forall|k: int| 0 <= k < 8 && #[trigger] enter[k] is Some ==> !flight_better(my_pos, m, static_costs, k, j)
            &&& forall|k: int| 0 <= k < j && #[trigger] enter[k] is Some ==> flight_better(my_pos, m, static_costs, j, k)
            &&& forall|k: int|
                0 <= k < 8 && #[trigger] enter[k] is Some && flight_distance(my_pos, m, k) == flight_distance(my_pos, m, j)
                    ==> hazard_cost(static_costs, j) <= hazard_cost(static_costs, k)
        }
}

/// The flight score of neighbour `k` written out: twice its distance
/// from the threat less its static cost.
spec fn flight_value(my_pos: GridVec, m: Seq<(GridVec, i32)>, static_costs: Seq<Option<i32>>, k: int) -> int {
    2 * flight_distance(my_pos, m, k) - hazard_cost(static_costs, k)
}

/// A recorded or defaulted distance lies within the flood's bound plus
/// the default's offset.
proof fn lemma_dist_at_bounded(m: Seq<(GridVec, i32)>, p: GridVec, dflt: int)
    requires
        flood_bounded(m),
    ensures
        has_entry(m, p) ==> abs_int(dist_at(m, p, dflt)) <= MAX_DIJKSTRA_NODES * MAX_TILE_COST,
        !has_entry(m, p) ==> dist_at(m, p, dflt) == dflt,
{
    if has_entry(m, p) {
        let i = choose|i: int| 0 <= i < m.len() && (#[trigger] m[i]).0 == p;
        assert(abs_int(m[i].1 as int) <= MAX_DIJKSTRA_NODES * MAX_TILE_COST);
    }
}

/// The scan from direction `k`, with the best of the directions before
/// it, ends on the best neighbour to flee onto.
proof fn lemma_flee_scan_best(
    my_pos: GridVec,
    m: Seq<(GridVec, i32)>,
    enter: Seq<Option<i32>>,
    static_costs: Seq<Option<i32>>,
    k: int,
    best: Option<GridVec>,
    best_score: int,
    best_j: int,
)
    requires
        0 <= k <= 8,
        enter.len() == 8,
        static_costs.len() == 8,
        forall|i: int| 0 <= i < 8 ==> flight_value(my_pos, m, static_costs, i) > i32::MIN,
        best is None ==> best_score == i32::MIN && forall|i: int| 0 <= i < k ==> #[trigger] enter[i] is None,
        best matches Some(d) ==> {
            &&& 0 <= best_j < k
            &&& d == dir8(best_j)
            &&& enter[best_j] is Some
            &&& best_score == flight_value(my_pos, m, static_costs, best_j)
            &&& forall|i: int| 0 <= i < k && #[trigger] enter[i] is Some ==> flight_value(my_pos, m, static_costs, i) <= best_score
            &&& forall|i: int| 0 <= i < best_j && #[trigger] enter[i] is Some ==> flight_value(my_pos, m, static_costs, i) < best_score
        },
    ensures
        best_flight(my_pos, m, enter, static_costs, flee_scan(my_pos, m, enter, static_costs, k, best, best_score)),
    decreases 8 - k,
{
    if k >= 8 {
        if let Some(d) = best {
            assert(d == dir8(best_j));
        }
    } else {
        let v = flight_value(my_pos, m, static_costs, k);
        assert(flee_score(my_pos, m, static_costs, k) == v);
        if enter[k] is Some && v > best_score {
            lemma_flee_scan_best(my_pos, m, enter, static_costs, k + 1, Some(dir8(k)), v, k);
        } else {
            lemma_flee_scan_best(my_pos, m, enter, static_costs, k + 1, best, best_score, best_j);
        }
    }
}

/// Flight picks the best enterable neighbour: twice the distance from the
/// threat less the static cost is highest there (the earliest direction
/// among equals), so among neighbours as far from the threat the chosen
/// one never has a higher static cost; there is a step whenever some
/// neighbour can be entered.
pub proof fn law_flee_scan_best(my_pos: GridVec, m: Seq<(GridVec, i32)>, enter: Seq<Option<i32>>, static_costs: Seq<Option<i32>>)
    requires
        path_coord_ok(my_pos),
        flood_bounded(m),
        enter.len() == 8,
        static_costs.len() == 8,
        forall|k: int| 0 <= k < 8 ==> match #[trigger] static_costs[k] {
            Some(c) => -MAX_TILE_COST <= c <= MAX_TILE_COST,
            None => true,
        },
    ensures
        best_flight(my_pos, m, enter, static_costs, flee_scan(my_pos, m, enter, static_costs, 0, None, i32::MIN as int)),
{
    assert forall|i: int| 0 <= i < 8 implies flight_value(my_pos, m, static_costs, i) > i32::MIN by {
        lemma_dist_at_bounded(m, my_pos, 0);
        lemma_dist_at_bounded(m, add_spec(my_pos, dir8(i)), dist_at(m, my_pos, 0) + COST_BASE * 4);
        assert(match static_costs[i] {
            Some(c) => -MAX_TILE_COST <= c <= MAX_TILE_COST,
            None => true,
        });
    }
    lemma_flee_scan_best(my_pos, m, enter, static_costs, 0, None, i32::MIN as int, 0);
}

/// Picks the flight step from the flood distances `threat_map`, what the
/// NPC's cost function gave for each neighbour (`enter`, in direction
/// order; `None` where it cannot go) and the static tile costs: among the
/// enterable neighbours, the one with the highest `flee_score`, the
/// earlier direction on ties. `None` when no neighbour can be entered.
pub fn pick_flee_step(my_pos: GridVec, threat_map: &DistanceMap, enter: &[Option<i32>], static_costs: &[Option<i32>]) -> (r: Option<GridVec>)
    requires
        path_coord_ok(my_pos),
        distinct_tiles(threat_map.pairs()),
        flood_bounded(threat_map.pairs()),
        enter@.len() == 8,
        static_costs@.len() == 8,
        forall|k: int| 0 <= k < 8 ==> match #[trigger] static_costs@[k] {
            Some(c) => -MAX_TILE_COST <= c <= MAX_TILE_COST,
            None => true,
        },
    ensures
        r == flee_scan(my_pos, threat_map.pairs(), enter@, static_costs@, 0, None, i32::MIN as int),
        match r {
            Some(d) => is_king_dir(d) && exists|k: int| 0 <= k < 8 && d == dir8(k) && #[trigger] enter@[k] is Some,
            None => forall|k: int| 0 <= k < 8 ==> #[trigger] enter@[k] is None,
        },
        best_flight(my_pos, threat_map.pairs(), enter@, static_costs@, r),
{
    let ghost m = threat_map.pairs();
    let ghost mut best_j: int = 0;
    let my_dist: i32 = match threat_map.get(&my_pos) {
        Some(d) => *d,
        None => 0,
    };
    proof {
        if threat_map.has(my_pos) {
            let i = choose|i: int| 0 <= i < m.len() && m[i] == (my_pos, my_dist);
            lemma_dist_at(m, my_pos, my_dist, i);
        }
    }
    assert(my_dist == dist_at(m, my_pos, 0));
    let dirs = GridVec::directions_8();
    let mut best_dir: Option<GridVec> = None;
    let mut best_score: i32 = i32::MIN;
    let mut k: usize = 0;
    while k < 8
        invariant
            path_coord_ok(my_pos),
            m == threat_map.pairs(),
            distinct_tiles(m),
            flood_bounded(m),
            enter@.len() == 8,
            static_costs@.len() == 8,
            forall|j: int| 0 <= j < 8 ==> match #[trigger] static_costs@[j] {
                Some(c) => -MAX_TILE_COST <= c <= MAX_TILE_COST,
                None => true,
            },
            forall|i: int| 0 <= i < 8 ==> #[trigger] dirs@[i] == dir8(i),
            my_dist == dist_at(m, my_pos, 0),
            abs_int(my_dist as int) <= MAX_DIJKSTRA_NODES * MAX_TILE_COST,
            k <= 8,
            best_dir is None ==> best_score == i32::MIN,
            flee_scan(my_pos, m, enter@, static_costs@, 0, None, i32::MIN as int) == flee_scan(
                my_pos,
                m,
                enter@,
                static_costs@,
                k as int,
                best_dir,
                best_score as int,
            ),
            match best_dir {
                Some(d) => is_king_dir(d) && exists|j: int| 0 <= j < k && d == dir8(j) && #[trigger] enter@[j] is Some,
                None => forall|j: int| 0 <= j < k ==> #[trigger] enter@[j] is None,
            },
            best_dir matches Some(d) ==> {
                &&& 0 <= best_j < k
                &&& d == dir8(best_j)
                &&& enter@[best_j] is Some
                &&& best_score == 2 * flight_distance(my_pos, m, best_j) - hazard_cost(static_costs@, best_j)
                &&& forall|i: int|
                    0 <= i < k && #[trigger] enter@[i] is Some ==> 2 * flight_distance(my_pos, m, i) - hazard_cost(
                        static_costs@,
                        i,
                    ) <= best_score
                &&& forall|i: int|
                    0 <= i < best_j && #[trigger] enter@[i] is Some ==> 2 * flight_distance(my_pos, m, i) - hazard_cost(
                        static_costs@,
                        i,
                    ) < best_score
            },
        decreases 8 - k,
    {
        let dir = dirs[k];
        let neighbor = my_pos + dir;
        if enter[k].is_some() {
            let neighbor_dist: i32 = match threat_map.get(&neighbor) {
                Some(d) => *d,
                None => my_dist + COST_BASE * 4,
            };
            proof {
                if threat_map.has(neighbor) {
                    let i = choose|i: int| 0 <= i < m.len() && m[i] == (neighbor, neighbor_dist);
                    lemma_dist_at(m, neighbor, neighbor_dist, i);
                    assert(abs_int(m[i].1 as int) <= MAX_DIJKSTRA_NODES * MAX_TILE_COST);
                }
            }
            assert(neighbor_dist == dist_at(m, add_spec(my_pos, dir8(k as int)), my_dist + COST_BASE * 4));
            let tile_c = match static_costs[k] {
                Some(c) => c,
                None => COST_BASE,
            };
            let score = neighbor_dist * 2 - tile_c;
            assert(score == flee_score(my_pos, m, static_costs@, k as int));
            assert(score == 2 * flight_distance(my_pos, m, k as int) - hazard_cost(static_costs@, k as int));
            if score > best_score {
                proof {
                    assert(is_king_dir(dir8(k as int)));
                    best_j = k as int;
                }
                best_score = score;
                best_dir = Some(dir);
            }
        }
        k = k + 1;
    }
    proof {
        if let Some(d) = best_dir {
            let j = best_j;
            assert(d == dir8(j));
            assert forall|k2: int| 0 <= k2 < 8 && #[trigger] enter@[k2] is Some implies !flight_better(my_pos, m, static_costs@, k2, j) by {}
            assert forall|k2: int| 0 <= k2 < j && #[trigger] enter@[k2] is Some implies flight_better(my_pos, m, static_costs@, j, k2) by {}
            assert(best_flight(my_pos, m, enter@, static_costs@, best_dir));
        }
    }
    best_dir
}

/// The direction in which to flee from `threat_pos`: floods Dijkstra
/// distances from the threat over `ai_cost` (the cost of a tile to this
/// NPC, `None` where it cannot go) and picks, among the neighbouring tiles
/// the NPC can enter, the one maximising twice its distance from the
/// threat minus its static tile cost (`static_cost`, `COST_BASE` when
/// unknown). A neighbour the flood did not reach counts as four base steps
/// further than the NPC's own tile. Ties go to the earlier direction.
///
/// Returns `None` exactly when no neighbouring tile can be entered. The
/// choice is `pick_flee_step` applied to the flood and to what the cost
/// functions answered for the neighbours; under deterministic
/// non-negative costs the flood's settled distances are the least walk
/// costs from the threat (`flood_settled`).
pub fn flee_direction<A: Fn(GridVec) -> Option<i32>, S: Fn(GridVec) -> Option<i32>>(
    my_pos: GridVec,
    threat_pos: GridVec,
    ai_cost: A,
    static_cost: S,
) -> (r: Option<GridVec>)
    requires
        path_coord_ok(my_pos),
        path_coord_ok(threat_pos),
        cost_fn_ok(ai_cost),
        cost_fn_ok(static_cost),
    ensures
        match r {
            Some(d) => is_king_dir(d) && passable(ai_cost, add_spec(my_pos, d)),
            None => forall|i: int| 0 <= i < 8 ==> call_ensures(ai_cost, (#[trigger] add_spec(my_pos, dir8(i)),), None),
        },
        exists|m: Seq<(GridVec, i32)>, enter: Seq<Option<i32>>, static_costs: Seq<Option<i32>>|
            #![trigger flee_scan(my_pos, m, enter, static_costs, 0, None, i32::MIN as int)]
            {
                &&& distinct_tiles(m)
                &&& has_entry(m, threat_pos)
                &&& forall|i: int| 0 <= i < m.len() ==> #[trigger] reached_at(&ai_cost, seq![threat_pos], m[i].0, m[i].1 as int)
                &&& flood_costs_ok(&ai_cost) ==> exists|st: Seq<bool>| #[trigger] flood_settled(&ai_cost, seq![threat_pos], m, st)
                &&& enter.len() == 8
                &&& static_costs.len() == 8
                &&& forall|k: int| 0 <= k < 8 ==> call_ensures(ai_cost, (add_spec(my_pos, dir8(k)),), #[trigger] enter[k])
                &&& forall|k: int| 0 <= k < 8 && (#[trigger] enter[k]) is Some ==> call_ensures(static_cost, (add_spec(my_pos, dir8(k)),), static_costs[k])
                &&& r == flee_scan(my_pos, m, enter, static_costs, 0, None, i32::MIN as int)
                &&& best_flight(my_pos, m, enter, static_costs, r)
            },
{
    let sources = [threat_pos];
    let threat_map = dijkstra_map(&sources, &ai_cost);
    proof {
        assert(sources@ == seq![threat_pos]);
        assert(sources@[0] == threat_pos);
    }
    let dirs = GridVec::directions_8();
    let mut enter: Vec<Option<i32>> = Vec::new();
    let mut statics: Vec<Option<i32>> = Vec::new();
    let mut k: usize = 0;
    while k < 8
        invariant
            path_coord_ok(my_pos),
            cost_fn_ok(ai_cost),
            cost_fn_ok(static_cost),
            forall|i: int| 0 <= i < 8 ==> #[trigger] dirs@[i] == dir8(i),
            k <= 8,
            enter@.len() == k,
            statics@.len() == k,
            forall|j: int| 0 <= j < k ==> call_ensures(ai_cost, (add_spec(my_pos, dir8(j)),), #[trigger] enter@[j]),
            forall|j: int| 0 <= j < k && (#[trigger] enter@[j]) is Some ==> call_ensures(static_cost, (add_spec(my_pos, dir8(j)),), statics@[j]),
            forall|j: int| 0 <= j < k ==> match #[trigger] statics@[j] {
                Some(c) => -MAX_TILE_COST <= c <= MAX_TILE_COST,
                None => true,
            },
        decreases 8 - k,
    {
        let neighbor = my_pos + dirs[k];
        let here = ai_cost(neighbor);
        let st = if here.is_some() {
            static_cost(neighbor)
        } else {
            None
        };
        enter.push(here);
        statics.push(st);
        k = k + 1;
    }
    let es = enter.as_slice();
    let ss = statics.as_slice();
    assert(es@ == enter@);
    assert(ss@ == statics@);
    let r = pick_flee_step(my_pos, &threat_map, es, ss);
    proof {
        match r {
            Some(d) => {
                let j = choose|j: int| 0 <= j < 8 && d == dir8(j) && #[trigger] es@[j] is Some;
                let c = enter@[j].unwrap();
                assert(call_ensures(ai_cost, (add_spec(my_pos, dir8(j)),), enter@[j]));
                assert(call_ensures(ai_cost, (add_spec(my_pos, d),), Some(c)));
                assert(passable(ai_cost, add_spec(my_pos, d)));
            },
            None => {
                assert forall|i: int| 0 <= i < 8 implies call_ensures(ai_cost, (#[trigger] add_spec(my_pos, dir8(i)),), None) by {
                    assert(es@[i] is None);
                    assert(call_ensures(ai_cost, (add_spec(my_pos, dir8(i)),), enter@[i]));
                }
            },
        }
        assert(has_entry(threat_map.pairs(), threat_pos) == threat_map.has(sources@[0]));
        let m = threat_map.pairs();
        assert forall|i: int| 0 <= i < m.len() implies #[trigger] reached_at(&ai_cost, seq![threat_pos], m[i].0, m[i].1 as int) by {
            assert(reached_at(&ai_cost, sources@, m[i].0, m[i].1 as int));
        }
        if flood_costs_ok(&ai_cost) {
            let st = choose|st: Seq<bool>| flood_settled(&ai_cost, sources@, m, st);
            assert(flood_settled(&ai_cost, seq![threat_pos], m, st));
        }
        assert(r == flee_scan(my_pos, m, enter@, statics@, 0, None, i32::MIN as int));
    }
    r
}
} // verus!
