//! Structural checks of a generated town: building spacing, buildings
//! clear of water and roads, reachable entrances, connected streets, and
//! no props standing in water. Reachability is a breadth-first flood from
//! every passable road tile.
use vstd::prelude::*;

use crate::gamemap::{in_rect, is_excluded_floor, props_listed, put_voxel, same_frame, GameMap, Voxel};
use crate::graphics::{props_is_wall, Floor, Props};
use crate::grid_vec::{abs_int, add_spec, chebyshev, dir4, gv, line_points, line_step, max_int, on_segment, GridVec};
use crate::rules::half_toward_zero;
use crate::town::{building_small, overlap, rects_overlap, Building};

verus! {

/// Largest map side the checks accept (keeps tile indices in range).
pub const MAX_CHECK_SIDE: i32 = 30000;

/// Road ground from which the reachability flood starts.
pub open spec fn is_road_floor(f: Option<Floor>) -> bool {
    f == Some(Floor::Dirt) || f == Some(Floor::DirtRoad) || f == Some(Floor::Sidewalk) || f == Some(
        Floor::Bridge,
    ) || f == Some(Floor::Alley)
}

/// Whether `(x, y)` lies on the `w` by `h` checking grid.
pub open spec fn in_grid(w: int, h: int, x: int, y: int) -> bool {
    0 <= x < w && 0 <= y < h
}

/// A flood start: a passable road tile of the checking grid.
pub open spec fn road_seed(m: &GameMap, blocking: Seq<Props>, w: int, h: int, x: int, y: int) -> bool {
    in_grid(w, h, x, y) && m.passable_at(blocking, x, y) && is_road_floor(m.voxel(x, y).floor)
}

/// The four cardinal neighbours of `(x, y)`: north, east, south, west.
pub open spec fn cardinal_neighbor(x: int, y: int, k: int) -> (int, int) {
    if k == 0 {
        (x, y + 1)
    } else if k == 1 {
        (x + 1, y)
    } else if k == 2 {
        (x, y - 1)
    } else {
        (x - 1, y)
    }
}

/// `s` holds every flood start.
pub open spec fn holds_roads(m: &GameMap, blocking: Seq<Props>, w: int, h: int, s: Set<(int, int)>) -> bool {
    forall|x: int, y: int| #[trigger] road_seed(m, blocking, w, h, x, y) ==> s.contains((x, y))
}

/// `s` is closed under cardinal steps onto passable tiles of the grid.
pub open spec fn closed_under_steps(m: &GameMap, blocking: Seq<Props>, w: int, h: int, s: Set<(int, int)>) -> bool {
    forall|x: int, y: int, k: int|
        #![trigger s.contains((x, y)), cardinal_neighbor(x, y, k)]
        s.contains((x, y)) && 0 <= k < 4 && in_grid(w, h, cardinal_neighbor(x, y, k).0, cardinal_neighbor(x, y, k).1)
            && m.passable_at(blocking, cardinal_neighbor(x, y, k).0, cardinal_neighbor(x, y, k).1)
            ==> s.contains(cardinal_neighbor(x, y, k))
}

/// `(x, y)` can be reached from the roads: it belongs to every set of
/// tiles that holds every passable road tile and is closed under cardinal
/// steps onto passable tiles of the grid.
pub open spec fn road_reachable(m: &GameMap, blocking: Seq<Props>, w: int, h: int, x: int, y: int) -> bool {
    forall|s: Set<(int, int)>|
        holds_roads(m, blocking, w, h, s) && closed_under_steps(m, blocking, w, h, s) ==> #[trigger] s.contains(
            (x, y),
        )
}

/// The index of `(x, y)` in a row-major `w`-wide grid.
pub open spec fn cell(w: int, x: int, y: int) -> int {
    y * w + x
}

/// Grid indices are in range and name one cell each.
proof fn lemma_cell(w: int, h: int, x: int, y: int)
    requires
        in_grid(w, h, x, y),
    ensures
        0 <= cell(w, x, y) < w * h,
        (cell(w, x, y)) / w == y,
        (cell(w, x, y)) % w == x,
{
    assert(0 <= y * w + x < w * h) by (nonlinear_arith)
        requires
            0 <= x < w,
            0 <= y < h,
    ;
    vstd::arithmetic::div_mod::lemma_fundamental_div_mod_converse(y * w + x, w, y, x);
}

/// The set of grid tiles marked in `marks`.
pub open spec fn marked_set(marks: Seq<bool>, w: int, h: int) -> Set<(int, int)> {
    Set::new(|p: (int, int)| in_grid(w, h, p.0, p.1) && marks[cell(w, p.0, p.1)])
}

/// Number of unmarked entries.
pub open spec fn unmarked(marks: Seq<bool>) -> nat
    decreases marks.len(),
{
    if marks.len() == 0 {
        0
    } else {
        unmarked(marks.drop_last()) + if marks.last() {
            0nat
        } else {
            1nat
        }
    }
}

/// Marking an unmarked entry leaves one fewer unmarked.
proof fn lemma_mark_one(marks: Seq<bool>, i: int)
    requires
        0 <= i < marks.len(),
        !marks[i],
    ensures
        unmarked(marks.update(i, true)) + 1 == unmarked(marks),
    decreases marks.len(),
{
    let m2 = marks.update(i, true);
    if i == marks.len() - 1 {
        assert(m2.drop_last() =~= marks.drop_last());
    } else {
        lemma_mark_one(marks.drop_last(), i);
        assert(m2.drop_last() =~= marks.drop_last().update(i, true));
    }
}

/// One more tile marked and queued keeps the flood's bookkeeping.
proof fn mark_preserves(
    map: &GameMap,
    blocking: Seq<Props>,
    wi: int,
    hi: int,
    before: Seq<bool>,
    after: Seq<bool>,
    qb: Seq<GridVec>,
    qa: Seq<GridVec>,
    p: GridVec,
    nb: GridVec,
    head: int,
    j: int,
)
    requires
        in_grid(wi, hi, nb.x as int, nb.y as int),
        in_grid(wi, hi, p.x as int, p.y as int),
        (nb.x as int, nb.y as int) == cardinal_neighbor(p.x as int, p.y as int, j),
        0 <= j < 4,
        map.passable_at(blocking, nb.x as int, nb.y as int),
        before.len() == wi * hi,
        after == before.update(cell(wi, nb.x as int, nb.y as int), true),
        qa == qb.push(nb),
        before[cell(wi, p.x as int, p.y as int)],
        forall|a: int, c: int| #[trigger] road_seed(map, blocking, wi, hi, a, c) ==> before[cell(wi, a, c)],
        forall|k: int|
            0 <= k < qb.len() ==> in_grid(wi, hi, (#[trigger] qb[k]).x as int, qb[k].y as int) && before[cell(
                wi,
                qb[k].x as int,
                qb[k].y as int,
            )],
        forall|a: int, c: int|
            in_grid(wi, hi, a, c) && #[trigger] before[cell(wi, a, c)] ==> exists|k: int| 0 <= k < qb.len() && qb[k] == gv(a, c),
        forall|sset: Set<(int, int)>|
            holds_roads(map, blocking, wi, hi, sset) && closed_under_steps(map, blocking, wi, hi, sset) ==> forall|a: int, c: int|
                in_grid(wi, hi, a, c) && #[trigger] before[cell(wi, a, c)] ==> sset.contains((a, c)),
    ensures
        forall|a: int, c: int| #[trigger] road_seed(map, blocking, wi, hi, a, c) ==> after[cell(wi, a, c)],
        forall|k: int|
            0 <= k < qa.len() ==> in_grid(wi, hi, (#[trigger] qa[k]).x as int, qa[k].y as int) && after[cell(
                wi,
                qa[k].x as int,
                qa[k].y as int,
            )],
        forall|a: int, c: int|
            in_grid(wi, hi, a, c) && #[trigger] after[cell(wi, a, c)] ==> exists|k: int| 0 <= k < qa.len() && qa[k] == gv(a, c),
        forall|sset: Set<(int, int)>|
            holds_roads(map, blocking, wi, hi, sset) && closed_under_steps(map, blocking, wi, hi, sset) ==> forall|a: int, c: int|
                in_grid(wi, hi, a, c) && #[trigger] after[cell(wi, a, c)] ==> sset.contains((a, c)),
        forall|a: int, c: int| in_grid(wi, hi, a, c) && #[trigger] before[cell(wi, a, c)] ==> after[cell(wi, a, c)],
{
    let ni = cell(wi, nb.x as int, nb.y as int);
    lemma_cell(wi, hi, nb.x as int, nb.y as int);
    assert forall|a: int, c: int| #[trigger] road_seed(map, blocking, wi, hi, a, c) implies after[cell(wi, a, c)] by {
        lemma_cell(wi, hi, a, c);
        assert(before[cell(wi, a, c)]);
    }
    assert forall|k: int| 0 <= k < qa.len() implies in_grid(wi, hi, (#[trigger] qa[k]).x as int, qa[k].y as int) && after[cell(
        wi,
        qa[k].x as int,
        qa[k].y as int,
    )] by {
        if k < qb.len() {
            assert(qa[k] == qb[k]);
            lemma_cell(wi, hi, qb[k].x as int, qb[k].y as int);
        }
    }
    assert forall|a: int, c: int| in_grid(wi, hi, a, c) && #[trigger] after[cell(wi, a, c)] implies exists|k: int|
        0 <= k < qa.len() && qa[k] == gv(a, c) by {
        lemma_cell(wi, hi, a, c);
        if cell(wi, a, c) == ni {
            assert(a == nb.x && c == nb.y);
            assert(qa[qb.len() as int] == gv(a, c));
        } else {
            assert(before[cell(wi, a, c)]);
            let k = choose|k: int| 0 <= k < qb.len() && qb[k] == gv(a, c);
            assert(qa[k] == qb[k]);
        }
    }
    assert forall|sset: Set<(int, int)>|
        holds_roads(map, blocking, wi, hi, sset) && closed_under_steps(map, blocking, wi, hi, sset) implies forall|a: int, c: int|
            in_grid(wi, hi, a, c) && #[trigger] after[cell(wi, a, c)] ==> sset.contains((a, c)) by {
        assert(sset.contains((p.x as int, p.y as int)));
        assert(sset.contains(cardinal_neighbor(p.x as int, p.y as int, j)));
        assert forall|a: int, c: int| in_grid(wi, hi, a, c) && #[trigger] after[cell(wi, a, c)] implies sset.contains((a, c)) by {
            lemma_cell(wi, hi, a, c);
            if cell(wi, a, c) == ni {
                assert(a == nb.x && c == nb.y);
            } else {
                assert(before[cell(wi, a, c)]);
            }
        }
    }
    assert forall|a: int, c: int| in_grid(wi, hi, a, c) && #[trigger] before[cell(wi, a, c)] implies after[cell(wi, a, c)] by {
        lemma_cell(wi, hi, a, c);
    }
}

/// Floods from every passable road tile of the `width` by `height` grid
/// across passable tiles by cardinal steps. Entry `y * width + x` of the
/// result tells whether `(x, y)` was reached; a tile is reached exactly
/// when it is reachable from the roads.
pub fn road_reachability(map: &GameMap, width: i32, height: i32, blocking: &[Props]) -> (r: Vec<bool>)
    requires
        map.wf(),
        0 <= width <= MAX_CHECK_SIDE,
        0 <= height <= MAX_CHECK_SIDE,
    ensures
        r@.len() == width * height,
        forall|x: int, y: int|
            in_grid(width as int, height as int, x, y) ==> (#[trigger] r@[cell(width as int, x, y)]
                <==> road_reachable(map, blocking@, width as int, height as int, x, y)),
{
    let w = width as usize;
    let ghost wi = width as int;
    let ghost hi = height as int;
    assert((w as int) * (height as int) <= 900_000_000) by (nonlinear_arith)
        requires
            w <= 30000,
            0 <= height <= 30000,
    ;
    let n = w * (height as usize);
    let mut reach: Vec<bool> = vec![false; n];
    let mut queue: Vec<GridVec> = Vec::new();
    proof {
        assert forall|a: int, c: int| in_grid(wi, hi, a, c) implies !#[trigger] reach@[cell(wi, a, c)] by {
            lemma_cell(wi, hi, a, c);
        }
    }
    let mut y: i32 = 0;
    while y < height
        invariant
            map.wf(),
            0 <= width <= MAX_CHECK_SIDE,
            0 <= height <= MAX_CHECK_SIDE,
            w == width,
            wi == width,
            hi == height,
            n == width * height,
            0 <= y <= height,
            reach@.len() == n,
            forall|a: int, c: int|
                in_grid(wi, hi, a, c) ==> (#[trigger] reach@[cell(wi, a, c)] <==> (c < y && road_seed(
                    map,
                    blocking@,
                    wi,
                    hi,
                    a,
                    c,
                ))),
            forall|k: int|
                0 <= k < queue@.len() ==> in_grid(wi, hi, (#[trigger] queue@[k]).x as int, queue@[k].y as int)
                    && reach@[cell(wi, queue@[k].x as int, queue@[k].y as int)],
            forall|a: int, c: int|
                in_grid(wi, hi, a, c) && #[trigger] reach@[cell(wi, a, c)] ==> exists|k: int|
                    0 <= k < queue@.len() && queue@[k] == gv(a, c),
        decreases height - y,
    {
        let mut x: i32 = 0;
        while x < width
            invariant
                map.wf(),
                0 <= width <= MAX_CHECK_SIDE,
                0 <= height <= MAX_CHECK_SIDE,
                w == width,
                wi == width,
                hi == height,
                n == width * height,
                0 <= y < height,
                0 <= x <= width,
                reach@.len() == n,
                forall|a: int, c: int|
                    in_grid(wi, hi, a, c) ==> (#[trigger] reach@[cell(wi, a, c)] <==> ((c < y || (c == y && a < x))
                        && road_seed(map, blocking@, wi, hi, a, c))),
                forall|k: int|
                    0 <= k < queue@.len() ==> in_grid(wi, hi, (#[trigger] queue@[k]).x as int, queue@[k].y as int)
                        && reach@[cell(wi, queue@[k].x as int, queue@[k].y as int)],
                forall|a: int, c: int|
                    in_grid(wi, hi, a, c) && #[trigger] reach@[cell(wi, a, c)] ==> exists|k: int|
                        0 <= k < queue@.len() && queue@[k] == gv(a, c),
            decreases width - x,
        {
            let pos = GridVec::new(x, y);
            let seed = match map.get_voxel_at(&pos) {
                Some(v) => {
                    let road = match v.floor {
                        Some(Floor::Dirt) | Some(Floor::DirtRoad) | Some(Floor::Sidewalk) | Some(Floor::Bridge)
                        | Some(Floor::Alley) => true,
                        _ => false,
                    };
                    road && map.is_passable(&pos, blocking)
                },
                None => false,
            };
            proof {
                lemma_cell(wi, hi, x as int, y as int);
            }
            let idx = (y as usize) * w + (x as usize);
            if seed {
                let ghost before = reach@;
                let ghost qb = queue@;
                reach.set(idx, true);
                queue.push(pos);
                proof {
                    assert forall|a: int, c: int| in_grid(wi, hi, a, c) implies (#[trigger] reach@[cell(wi, a, c)]
                        <==> ((c < y || (c == y && a < x + 1)) && road_seed(map, blocking@, wi, hi, a, c))) by {
                        lemma_cell(wi, hi, a, c);
                        if cell(wi, a, c) == idx {
                            assert(a == x && c == y);
                        } else {
                            assert(reach@[cell(wi, a, c)] == before[cell(wi, a, c)]);
                            assert(a != x || c != y);
                        }
                    }
                    assert forall|k: int| 0 <= k < queue@.len() implies in_grid(
                        wi,
                        hi,
                        (#[trigger] queue@[k]).x as int,
                        queue@[k].y as int,
                    ) && reach@[cell(wi, queue@[k].x as int, queue@[k].y as int)] by {
                        if k < qb.len() {
                            assert(queue@[k] == qb[k]);
                            lemma_cell(wi, hi, qb[k].x as int, qb[k].y as int);
                        }
                    }
                    assert forall|a: int, c: int| in_grid(wi, hi, a, c) && #[trigger] reach@[cell(wi, a, c)] implies exists|k: int|
                        0 <= k < queue@.len() && queue@[k] == gv(a, c) by {
                        lemma_cell(wi, hi, a, c);
                        if cell(wi, a, c) == idx {
                            assert(queue@[qb.len() as int] == gv(a, c));
                        } else {
                            assert(before[cell(wi, a, c)]);
                            let k = choose|k: int| 0 <= k < qb.len() && qb[k] == gv(a, c);
                            assert(queue@[k] == qb[k]);
                        }
                    }
                }
            } else {
                proof {
                    assert forall|a: int, c: int| in_grid(wi, hi, a, c) implies (#[trigger] reach@[cell(wi, a, c)]
                        <==> ((c < y || (c == y && a < x + 1)) && road_seed(map, blocking@, wi, hi, a, c))) by {
                        lemma_cell(wi, hi, a, c);
                        if a == x && c == y {
                            assert(!road_seed(map, blocking@, wi, hi, a, c));
                        }
                    }
                }
            }
            x = x + 1;
        }
        y = y + 1;
    }
    proof {
        assert forall|sset: Set<(int, int)>|
            holds_roads(map, blocking@, wi, hi, sset) && closed_under_steps(map, blocking@, wi, hi, sset) implies forall|a: int, c: int|
                in_grid(wi, hi, a, c) && #[trigger] reach@[cell(wi, a, c)] ==> sset.contains((a, c)) by {
            assert forall|a: int, c: int| in_grid(wi, hi, a, c) && #[trigger] reach@[cell(wi, a, c)] implies sset.contains(
                (a, c),
            ) by {
                assert(road_seed(map, blocking@, wi, hi, a, c));
            }
        }
    }
    let mut head: usize = 0;
    while head < queue.len()
        invariant
            map.wf(),
            0 <= width <= MAX_CHECK_SIDE,
            0 <= height <= MAX_CHECK_SIDE,
            w == width,
            wi == width,
            hi == height,
            n == width * height,
            reach@.len() == n,
            head <= queue@.len(),
            forall|a: int, c: int|
                #[trigger] road_seed(map, blocking@, wi, hi, a, c) ==> reach@[cell(wi, a, c)],
            forall|k: int|
                0 <= k < queue@.len() ==> in_grid(wi, hi, (#[trigger] queue@[k]).x as int, queue@[k].y as int)
                    && reach@[cell(wi, queue@[k].x as int, queue@[k].y as int)],
            forall|a: int, c: int|
                in_grid(wi, hi, a, c) && #[trigger] reach@[cell(wi, a, c)] ==> exists|k: int|
                    0 <= k < queue@.len() && queue@[k] == gv(a, c),
            forall|k: int, j: int|
                #![trigger queue@[k], cardinal_neighbor(queue@[k].x as int, queue@[k].y as int, j)]
                0 <= k < head && 0 <= j < 4 && in_grid(
                    wi,
                    hi,
                    cardinal_neighbor(queue@[k].x as int, queue@[k].y as int, j).0,
                    cardinal_neighbor(queue@[k].x as int, queue@[k].y as int, j).1,
                ) && map.passable_at(
                    blocking@,
                    cardinal_neighbor(queue@[k].x as int, queue@[k].y as int, j).0,
                    cardinal_neighbor(queue@[k].x as int, queue@[k].y as int, j).1,
                ) ==> reach@[cell(
                    wi,
                    cardinal_neighbor(queue@[k].x as int, queue@[k].y as int, j).0,
                    cardinal_neighbor(queue@[k].x as int, queue@[k].y as int, j).1,
                )],
            forall|sset: Set<(int, int)>|
                holds_roads(map, blocking@, wi, hi, sset) && closed_under_steps(map, blocking@, wi, hi, sset)
                    ==> forall|a: int, c: int|
                    in_grid(wi, hi, a, c) && #[trigger] reach@[cell(wi, a, c)] ==> sset.contains((a, c)),
        decreases 2 * unmarked(reach@) + queue@.len() - head,
    {
        let p = queue[head];
        proof {
            lemma_cell(wi, hi, p.x as int, p.y as int);
        }
        let nbs = p.cardinal_neighbors();
        let ghost unmarked_before = unmarked(reach@);
        let ghost queue_before = queue@.len();
        let mut j: usize = 0;
        while j < 4
            invariant
                map.wf(),
                0 <= width <= MAX_CHECK_SIDE,
                0 <= height <= MAX_CHECK_SIDE,
                w == width,
                wi == width,
                hi == height,
                n == width * height,
                reach@.len() == n,
                head < queue@.len(),
                p == queue@[head as int],
                in_grid(wi, hi, p.x as int, p.y as int),
                reach@[cell(wi, p.x as int, p.y as int)],
                forall|i: int| 0 <= i < 4 ==> #[trigger] nbs@[i] == add_spec(p, dir4(i)),
                j <= 4,
                2 * unmarked(reach@) + queue@.len() <= 2 * unmarked_before + queue_before,
                forall|a: int, c: int|
                    #[trigger] road_seed(map, blocking@, wi, hi, a, c) ==> reach@[cell(wi, a, c)],
                forall|k: int|
                    0 <= k < queue@.len() ==> in_grid(wi, hi, (#[trigger] queue@[k]).x as int, queue@[k].y as int)
                        && reach@[cell(wi, queue@[k].x as int, queue@[k].y as int)],
                forall|a: int, c: int|
                    in_grid(wi, hi, a, c) && #[trigger] reach@[cell(wi, a, c)] ==> exists|k: int|
                        0 <= k < queue@.len() && queue@[k] == gv(a, c),
                forall|k: int, i: int|
                    #![trigger queue@[k], cardinal_neighbor(queue@[k].x as int, queue@[k].y as int, i)]
                    0 <= k < head && 0 <= i < 4 && in_grid(
                        wi,
                        hi,
                        cardinal_neighbor(queue@[k].x as int, queue@[k].y as int, i).0,
                        cardinal_neighbor(queue@[k].x as int, queue@[k].y as int, i).1,
                    ) && map.passable_at(
                        blocking@,
                        cardinal_neighbor(queue@[k].x as int, queue@[k].y as int, i).0,
                        cardinal_neighbor(queue@[k].x as int, queue@[k].y as int, i).1,
                    ) ==> reach@[cell(
                        wi,
                        cardinal_neighbor(queue@[k].x as int, queue@[k].y as int, i).0,
                        cardinal_neighbor(queue@[k].x as int, queue@[k].y as int, i).1,
                    )],
                forall|i: int|
                    #![trigger cardinal_neighbor(p.x as int, p.y as int, i)]
                    0 <= i < j && in_grid(
                        wi,
                        hi,
                        cardinal_neighbor(p.x as int, p.y as int, i).0,
                        cardinal_neighbor(p.x as int, p.y as int, i).1,
                    ) && map.passable_at(
                        blocking@,
                        cardinal_neighbor(p.x as int, p.y as int, i).0,
                        cardinal_neighbor(p.x as int, p.y as int, i).1,
                    ) ==> reach@[cell(
                        wi,
                        cardinal_neighbor(p.x as int, p.y as int, i).0,
                        cardinal_neighbor(p.x as int, p.y as int, i).1,
                    )],
                forall|sset: Set<(int, int)>|
                    holds_roads(map, blocking@, wi, hi, sset) && closed_under_steps(map, blocking@, wi, hi, sset)
                        ==> forall|a: int, c: int|
                        in_grid(wi, hi, a, c) && #[trigger] reach@[cell(wi, a, c)] ==> sset.contains((a, c)),
            decreases 4 - j,
        {
            let nb = nbs[j];
            proof {
                assert(nb == add_spec(p, dir4(j as int)));
                assert((nb.x as int, nb.y as int) == cardinal_neighbor(p.x as int, p.y as int, j as int));
            }
            if nb.x >= 0 && nb.x < width && nb.y >= 0 && nb.y < height {
                proof {
                    lemma_cell(wi, hi, nb.x as int, nb.y as int);
                }
                let idx = (nb.y as usize) * w + (nb.x as usize);
                if !reach[idx] && map.is_passable(&nb, blocking) {
                    let ghost before = reach@;
                    let ghost qb = queue@;
                    reach.set(idx, true);
                    queue.push(nb);
                    proof {
                        lemma_mark_one(before, idx as int);
                        mark_preserves(map, blocking@, wi, hi, before, reach@, qb, queue@, p, nb, head as int, j as int);
                    }
                }
            }
            j = j + 1;
        }
        head = head + 1;
    }
    proof {
        assert forall|a: int, c: int| in_grid(wi, hi, a, c) implies (#[trigger] reach@[cell(wi, a, c)]
            <==> road_reachable(map, blocking@, wi, hi, a, c)) by {
            let ms = marked_set(reach@, wi, hi);
            assert(holds_roads(map, blocking@, wi, hi, ms)) by {
                assert forall|x: int, y: int| #[trigger] road_seed(map, blocking@, wi, hi, x, y) implies ms.contains((x, y)) by {
                    assert(reach@[cell(wi, x, y)]);
                }
            }
            assert(closed_under_steps(map, blocking@, wi, hi, ms)) by {
                assert forall|x: int, y: int, k: int|
                    #![trigger ms.contains((x, y)), cardinal_neighbor(x, y, k)]
                    ms.contains((x, y)) && 0 <= k < 4 && in_grid(wi, hi, cardinal_neighbor(x, y, k).0, cardinal_neighbor(x, y, k).1)
                        && map.passable_at(blocking@, cardinal_neighbor(x, y, k).0, cardinal_neighbor(x, y, k).1)
                        implies ms.contains(cardinal_neighbor(x, y, k)) by {
                    assert(reach@[cell(wi, x, y)]);
                    let q = choose|q: int| 0 <= q < queue@.len() && queue@[q] == gv(x, y);
                    assert(queue@[q].x == x && queue@[q].y == y);
                    assert(cardinal_neighbor(queue@[q].x as int, queue@[q].y as int, k) == cardinal_neighbor(x, y, k));
                }
            }
            if road_reachable(map, blocking@, wi, hi, a, c) {
                assert(ms.contains((a, c)));
            }
        }
    }
    reach
}

/// River water (shallow or deep).
pub open spec fn is_river_floor(f: Option<Floor>) -> bool {
    f == Some(Floor::ShallowWater) || f == Some(Floor::DeepWater)
}

/// `a` grown by one tile on every side overlaps `b`'s footprint.
pub open spec fn padded_overlap(a: Building, b: Building) -> bool {
    overlap(a.x - 1, a.y - 1, a.w + 2, a.h + 2, b.x as int, b.y as int, b.w as int, b.h as int)
}

/// No earlier building, grown by one tile, overlaps a later one.
pub open spec fn spaced(bs: Seq<Building>) -> bool {
    forall|i: int, j: int| 0 <= i < j < bs.len() ==> !padded_overlap(#[trigger] bs[i], #[trigger] bs[j])
}

/// `(x, y)` is a map tile of `b`'s rectangle whose ground is river water
/// (`river_only`) or is road, water or beach sand (otherwise).
pub open spec fn bad_tile(m: &GameMap, b: Building, river_only: bool, x: int, y: int) -> bool {
    &&& in_rect(b, x, y)
    &&& m.in_bounds(x, y)
    &&& if river_only {
        is_river_floor(m.voxel(x, y).floor)
    } else {
        is_excluded_floor(m.voxel(x, y).floor)
    }
}

/// No building of `bs` has a bad tile of the given kind.
pub open spec fn clear_ground(m: &GameMap, bs: Seq<Building>, river_only: bool) -> bool {
    forall|i: int, x: int, y: int| 0 <= i < bs.len() ==> !#[trigger] bad_tile(m, bs[i], river_only, x, y)
}

/// The entrance of `b`: the tile just below the middle of its bottom edge.
pub open spec fn entrance(b: Building) -> (int, int) {
    (b.x + half_toward_zero(b.w as int), b.y + b.h)
}

/// `b`'s entrance lies on the checking grid but cannot be reached from the
/// roads.
pub open spec fn entrance_cut(m: &GameMap, blocking: Seq<Props>, w: int, h: int, b: Building) -> bool {
    in_grid(w, h, entrance(b).0, entrance(b).1) && !road_reachable(m, blocking, w, h, entrance(b).0, entrance(b).1)
}

/// Every entrance on the checking grid can be reached from the roads.
pub open spec fn entrances_open(m: &GameMap, blocking: Seq<Props>, w: int, h: int, bs: Seq<Building>) -> bool {
    forall|i: int| 0 <= i < bs.len() ==> !entrance_cut(m, blocking, w, h, #[trigger] bs[i])
}

/// With two or more avenues on the grid: the middle of the first avenue is
/// reachable from the roads but the middle of the last is not.
pub open spec fn avenues_cut(m: &GameMap, blocking: Seq<Props>, w: int, h: int, ys: Seq<i32>) -> bool {
    &&& ys.len() >= 2
    &&& 0 <= ys[0] < h
    &&& 0 <= ys.last() < h
    &&& road_reachable(m, blocking, w, h, w / 2, ys[0] as int)
    &&& !road_reachable(m, blocking, w, h, w / 2, ys.last() as int)
}

/// The crossing of the cross street at `cx` with the first avenue lies on
/// the grid and is passable, but cannot be reached from the roads.
pub open spec fn cross_cut(m: &GameMap, blocking: Seq<Props>, w: int, h: int, ys: Seq<i32>, cx: int) -> bool {
    &&& ys.len() >= 1
    &&& 0 <= cx < w
    &&& 0 <= ys[0] < h
    &&& m.passable_at(blocking, cx, ys[0] as int)
    &&& !road_reachable(m, blocking, w, h, cx, ys[0] as int)
}

/// No cross street is cut off from the first avenue.
pub open spec fn crossings_open(m: &GameMap, blocking: Seq<Props>, w: int, h: int, ys: Seq<i32>, xs: Seq<i32>) -> bool {
    forall|k: int| 0 <= k < xs.len() ==> !cross_cut(m, blocking, w, h, ys, #[trigger] xs[k] as int)
}

/// A prop other than a wall stands on river water at `(x, y)`.
pub open spec fn prop_on_water(m: &GameMap, w: int, h: int, x: int, y: int) -> bool {
    &&& in_grid(w, h, x, y)
    &&& m.in_bounds(x, y)
    &&& is_river_floor(m.voxel(x, y).floor)
    &&& match m.voxel(x, y).props {
        Some(p) => !props_is_wall(p),
        None => false,
    }
}

/// No prop other than a wall stands on river water.
pub open spec fn dry_props(m: &GameMap, w: int, h: int) -> bool {
    forall|x: int, y: int| !#[trigger] prop_on_water(m, w, h, x, y)
}

/// The checks do not apply: no buildings, a map under 60 tiles on a side,
/// or no avenues.
pub open spec fn check_skipped(bs: Seq<Building>, ys: Seq<i32>, w: int, h: int) -> bool {
    bs.len() == 0 || w < 60 || h < 60 || ys.len() == 0
}

/// The first `k` checks pass (in order: spacing, river, entrances,
/// streets, excluded ground, props on water).
pub open spec fn checks_pass(
    m: &GameMap,
    blocking: Seq<Props>,
    bs: Seq<Building>,
    ys: Seq<i32>,
    xs: Seq<i32>,
    w: int,
    h: int,
    k: int,
) -> bool {
    &&& (k >= 1 ==> spaced(bs))
    &&& (k >= 2 ==> clear_ground(m, bs, true))
    &&& (k >= 3 ==> entrances_open(m, blocking, w, h, bs))
    &&& (k >= 4 ==> !avenues_cut(m, blocking, w, h, ys) && crossings_open(m, blocking, w, h, ys, xs))
    &&& (k >= 5 ==> clear_ground(m, bs, false))
    &&& (k >= 6 ==> dry_props(m, w, h))
}

/// The first structural defect found in a generated town.
#[derive(Clone, Copy, Debug, PartialEq, Eq)]
pub enum WorldDefect {
    /// Two buildings closer than one tile.
    Crowded { first: Building, second: Building },
    /// A building tile on river water.
    OnRiver { building: Building, x: i32, y: i32 },
    /// A building whose entrance cannot be reached from the roads.
    UnreachableEntrance { building: Building, x: i32, y: i32 },
    /// The last avenue cannot be reached from the first.
    AvenuesApart { first_y: i32, last_y: i32 },
    /// A cross street cut off from the first avenue.
    CrossStreetCut { cross_x: i32, avenue_y: i32 },
    /// A building tile on road, water or beach sand.
    OnExcludedGround { building: Building, x: i32, y: i32 },
    /// A prop standing in river water.
    PropInWater { x: i32, y: i32 },
}

/// The first pair `i < j` of buildings where `bs[i]`, grown by one tile,
/// overlaps `bs[j]`.
fn find_crowded(bs: &[Building]) -> (r: Option<(usize, usize)>)
    requires
        forall|i: int| 0 <= i < bs@.len() ==> building_small(#[trigger] bs@[i]),
    ensures
        match r {
            Some((i, j)) => i < j < bs@.len() && padded_overlap(bs@[i as int], bs@[j as int]),
            None => spaced(bs@),
        },
{
    let mut i: usize = 0;
    while i < bs.len()
        invariant
            i <= bs@.len(),
            forall|k: int| 0 <= k < bs@.len() ==> building_small(#[trigger] bs@[k]),
            forall|a: int, b: int| 0 <= a < i && a < b < bs@.len() ==> !padded_overlap(#[trigger] bs@[a], #[trigger] bs@[b]),
        decreases bs@.len() - i,
    {
        let a = bs[i];
        proof {
            assert(building_small(bs@[i as int]));
        }
        let mut j: usize = i + 1;
        while j < bs.len()
            invariant
                i < bs@.len(),
                i < j <= bs@.len(),
                a == bs@[i as int],
                building_small(a),
                forall|k: int| 0 <= k < bs@.len() ==> building_small(#[trigger] bs@[k]),
                forall|b: int| i < b < j ==> !padded_overlap(a, #[trigger] bs@[b]),
            decreases bs@.len() - j,
        {
            let b = bs[j];
            proof {
                assert(building_small(bs@[j as int]));
            }
            if rects_overlap(a.x - 1, a.y - 1, a.w + 2, a.h + 2, b.x, b.y, b.w, b.h) {
                return Some((i, j));
            }
            j = j + 1;
        }
        i = i + 1;
    }
    None
}

/// The first bad tile of `b`'s rectangle (row by row), of the kind that
/// `river_only` selects.
fn find_bad_tile(map: &GameMap, b: &Building, river_only: bool) -> (r: Option<GridVec>)
    requires
        map.wf(),
        building_small(*b),
    ensures
        match r {
            Some(p) => bad_tile(map, *b, river_only, p.x as int, p.y as int),
            None => forall|x: int, y: int| !#[trigger] bad_tile(map, *b, river_only, x, y),
        },
{
    let mut by = b.y;
    while by < b.y + b.h
        invariant
            map.wf(),
            building_small(*b),
            b.y <= by,
            by <= b.y + b.h || b.h <= 0,
            forall|x: int, y: int| y < by ==> !#[trigger] bad_tile(map, *b, river_only, x, y),
        decreases b.y + b.h - by,
    {
        let mut bx = b.x;
        while bx < b.x + b.w
            invariant
                map.wf(),
                building_small(*b),
                b.y <= by < b.y + b.h,
                bx >= b.x,
                forall|x: int, y: int| y < by ==> !#[trigger] bad_tile(map, *b, river_only, x, y),
                forall|x: int| x < bx ==> !#[trigger] bad_tile(map, *b, river_only, x, by as int),
            decreases b.x + b.w - bx,
        {
            let pos = GridVec::new(bx, by);
            match map.get_voxel_at(&pos) {
                Some(v) => {
                    let bad = if river_only {
                        match v.floor {
                            Some(Floor::ShallowWater) | Some(Floor::DeepWater) => true,
                            _ => false,
                        }
                    } else {
                        match v.floor {
                            Some(Floor::DirtRoad) | Some(Floor::ShallowWater) | Some(Floor::DeepWater)
                            | Some(Floor::BeachSand) => true,
                            _ => false,
                        }
                    };
                    if bad {
                        return Some(pos);
                    }
                },
                None => {},
            }
            bx = bx + 1;
        }
        by = by + 1;
    }
    None
}

/// Structural verification of a generated town, on the `width` by
/// `height` grid, with `blocking` the prop kinds that block movement.
/// Skipped (`Ok`) without buildings or avenues, or on a map under 60 tiles
/// on a side. Otherwise the checks run in order (building spacing,
/// buildings off the river, reachable entrances, connected streets,
/// buildings off excluded ground, no props in the river) and the first
/// failing one is reported.
#[verifier::loop_isolation(false)]
pub fn verify_world(
    map: &GameMap,
    buildings: &[Building],
    avenue_ys: &[i32],
    cross_xs: &[i32],
    width: i32,
    height: i32,
    blocking: &[Props],
) -> (r: Result<(), WorldDefect>)
    requires
        map.wf(),
        width <= MAX_CHECK_SIDE,
        height <= MAX_CHECK_SIDE,
        forall|i: int| 0 <= i < buildings@.len() ==> building_small(#[trigger] buildings@[i]),
    ensures
        r is Ok <==> (check_skipped(buildings@, avenue_ys@, width as int, height as int) || checks_pass(
            map,
            blocking@,
            buildings@,
            avenue_ys@,
            cross_xs@,
            width as int,
            height as int,
            6,
        )),
        r is Err ==> !check_skipped(buildings@, avenue_ys@, width as int, height as int),
        match r {
            Ok(_) => true,
            Err(WorldDefect::Crowded { first, second }) => exists|i: int, j: int|
                0 <= i < j < buildings@.len() && buildings@[i] == first && buildings@[j] == second
                    && #[trigger] padded_overlap(first, second),
            Err(WorldDefect::OnRiver { building, x, y }) => checks_pass(
                map,
                blocking@,
                buildings@,
                avenue_ys@,
                cross_xs@,
                width as int,
                height as int,
                1,
            ) && buildings@.contains(building) && bad_tile(map, building, true, x as int, y as int),
            Err(WorldDefect::UnreachableEntrance { building, x, y }) => checks_pass(
                map,
                blocking@,
                buildings@,
                avenue_ys@,
                cross_xs@,
                width as int,
                height as int,
                2,
            ) && buildings@.contains(building) && (x as int, y as int) == entrance(building) && entrance_cut(
                map,
                blocking@,
                width as int,
                height as int,
                building,
            ),
            Err(WorldDefect::AvenuesApart { first_y, last_y }) => checks_pass(
                map,
                blocking@,
                buildings@,
                avenue_ys@,
                cross_xs@,
                width as int,
                height as int,
                3,
            ) && avenues_cut(map, blocking@, width as int, height as int, avenue_ys@) && first_y
                == avenue_ys@[0] && last_y == avenue_ys@.last(),
            Err(WorldDefect::CrossStreetCut { cross_x, avenue_y }) => checks_pass(
                map,
                blocking@,
                buildings@,
                avenue_ys@,
                cross_xs@,
                width as int,
                height as int,
                3,
            ) && !avenues_cut(map, blocking@, width as int, height as int, avenue_ys@) && cross_xs@.contains(
                cross_x,
            ) && avenue_y == avenue_ys@[0] && cross_cut(
                map,
                blocking@,
                width as int,
                height as int,
                avenue_ys@,
                cross_x as int,
            ),
            Err(WorldDefect::OnExcludedGround { building, x, y }) => checks_pass(
                map,
                blocking@,
                buildings@,
                avenue_ys@,
                cross_xs@,
                width as int,
                height as int,
                4,
            ) && buildings@.contains(building) && bad_tile(map, building, false, x as int, y as int),
            Err(WorldDefect::PropInWater { x, y }) => checks_pass(
                map,
                blocking@,
                buildings@,
                avenue_ys@,
                cross_xs@,
                width as int,
                height as int,
                5,
            ) && prop_on_water(map, width as int, height as int, x as int, y as int),
        },
{
    if buildings.len() == 0 || width < 60 || height < 60 || avenue_ys.len() == 0 {
        return Ok(());
    }
    let ghost bs = buildings@;
    let ghost ys = avenue_ys@;
    let ghost xs = cross_xs@;
    let ghost wi = width as int;
    let ghost hi = height as int;
    // 1. Spacing.
    match find_crowded(buildings) {
        Some((i, j)) => {
            proof {
                assert(padded_overlap(bs[i as int], bs[j as int]));
            }
            return Err(WorldDefect::Crowded { first: buildings[i], second: buildings[j] });
        },
        None => {},
    }
    // 2. Off the river.
    let mut i: usize = 0;
    while i < buildings.len()
        invariant
            map.wf(),
            bs == buildings@,
            i <= bs.len(),
            forall|k: int| 0 <= k < bs.len() ==> building_small(#[trigger] bs[k]),
            forall|k: int, x: int, y: int| 0 <= k < i ==> !#[trigger] bad_tile(map, bs[k], true, x, y),
        decreases bs.len() - i,
    {
        let b = buildings[i];
        proof {
            assert(building_small(bs[i as int]));
        }
        match find_bad_tile(map, &b, true) {
            Some(p) => {
                proof {
                    assert(bs[i as int] == b);
                }
                return Err(WorldDefect::OnRiver { building: b, x: p.x, y: p.y });
            },
            None => {},
        }
        i = i + 1;
    }
    proof {
        assert(clear_ground(map, bs, true));
    }
    // 3. Reachable entrances.
    let reach = road_reachability(map, width, height, blocking);
    let w = width as usize;
    assert(wi * hi <= 900_000_000) by (nonlinear_arith)
        requires
            60 <= wi <= 30000,
            60 <= hi <= 30000,
    ;
    let mut i: usize = 0;
    while i < buildings.len()
        invariant
            map.wf(),
            bs == buildings@,
            60 <= width <= MAX_CHECK_SIDE,
            60 <= height <= MAX_CHECK_SIDE,
            wi == width,
            hi == height,
            w == width,
            i <= bs.len(),
            wi * hi <= 900_000_000,
            reach@.len() == wi * hi,
            forall|x: int, y: int|
                in_grid(wi, hi, x, y) ==> (#[trigger] reach@[cell(wi, x, y)] <==> road_reachable(
                    map,
                    blocking@,
                    wi,
                    hi,
                    x,
                    y,
                )),
            forall|k: int| 0 <= k < bs.len() ==> building_small(#[trigger] bs[k]),
            forall|k: int| 0 <= k < i ==> !entrance_cut(map, blocking@, wi, hi, #[trigger] bs[k]),
        decreases bs.len() - i,
    {
        let b = buildings[i];
        proof {
            assert(building_small(bs[i as int]));
        }
        let half = if b.w >= 0 {
            b.w / 2
        } else {
            -((-b.w) / 2)
        };
        let door_x = b.x + half;
        let door_y = b.y + b.h;
        proof {
            assert(bs[i as int] == b);
            assert((door_x as int, door_y as int) == entrance(b));
        }
        if door_x >= 0 && door_x < width && door_y >= 0 && door_y < height {
            proof {
                lemma_cell(wi, hi, door_x as int, door_y as int);
            }
            let idx = (door_y as usize) * w + (door_x as usize);
            if !reach[idx] {
                return Err(WorldDefect::UnreachableEntrance { building: b, x: door_x, y: door_y });
            }
        }
        i = i + 1;
    }
    // 4. Connected streets.
    let first_ay = avenue_ys[0];
    if avenue_ys.len() >= 2 {
        let last_ay = avenue_ys[avenue_ys.len() - 1];
        if first_ay >= 0 && first_ay < height && last_ay >= 0 && last_ay < height {
            let mid_x = width / 2;
            proof {
                lemma_cell(wi, hi, mid_x as int, first_ay as int);
                lemma_cell(wi, hi, mid_x as int, last_ay as int);
            }
            let start_idx = (first_ay as usize) * w + (mid_x as usize);
            let end_idx = (last_ay as usize) * w + (mid_x as usize);
            if reach[start_idx] && !reach[end_idx] {
                return Err(WorldDefect::AvenuesApart { first_y: first_ay, last_y: last_ay });
            }
        }
    }
    proof {
        assert(!avenues_cut(map, blocking@, wi, hi, ys));
    }
    let mut k: usize = 0;
    while k < cross_xs.len()
        invariant
            map.wf(),
            xs == cross_xs@,
            ys == avenue_ys@,
            ys.len() >= 1,
            first_ay == ys[0],
            60 <= width <= MAX_CHECK_SIDE,
            60 <= height <= MAX_CHECK_SIDE,
            wi == width,
            hi == height,
            w == width,
            k <= xs.len(),
            wi * hi <= 900_000_000,
            reach@.len() == wi * hi,
            forall|x: int, y: int|
                in_grid(wi, hi, x, y) ==> (#[trigger] reach@[cell(wi, x, y)] <==> road_reachable(
                    map,
                    blocking@,
                    wi,
                    hi,
                    x,
                    y,
                )),
            forall|q: int| 0 <= q < k ==> !cross_cut(map, blocking@, wi, hi, ys, #[trigger] xs[q] as int),
        decreases xs.len() - k,
    {
        let cx = cross_xs[k];
        if cx >= 0 && cx < width && first_ay >= 0 && first_ay < height {
            let pos = GridVec::new(cx, first_ay);
            if map.is_passable(&pos, blocking) {
                proof {
                    lemma_cell(wi, hi, cx as int, first_ay as int);
                }
                let idx = (first_ay as usize) * w + (cx as usize);
                if !reach[idx] {
                    proof {
                        assert(xs[k as int] == cx);
                    }
                    return Err(WorldDefect::CrossStreetCut { cross_x: cx, avenue_y: first_ay });
                }
            }
        }
        k = k + 1;
    }
    // 5. Off excluded ground.
    let mut i: usize = 0;
    while i < buildings.len()
        invariant
            map.wf(),
            bs == buildings@,
            i <= bs.len(),
            forall|k: int| 0 <= k < bs.len() ==> building_small(#[trigger] bs[k]),
            forall|k: int, x: int, y: int| 0 <= k < i ==> !#[trigger] bad_tile(map, bs[k], false, x, y),
        decreases bs.len() - i,
    {
        let b = buildings[i];
        proof {
            assert(building_small(bs[i as int]));
        }
        match find_bad_tile(map, &b, false) {
            Some(p) => {
                proof {
                    assert(bs[i as int] == b);
                }
                return Err(WorldDefect::OnExcludedGround { building: b, x: p.x, y: p.y });
            },
            None => {},
        }
        i = i + 1;
    }
    proof {
        assert(clear_ground(map, bs, false));
    }
    // 6. No props in the river.
    let mut y: i32 = 0;
    while y < height
        invariant
            map.wf(),
            0 <= y <= height,
            hi == height,
            wi == width,
            forall|a: int, c: int| c < y ==> !#[trigger] prop_on_water(map, wi, hi, a, c),
        decreases height - y,
    {
        let mut x: i32 = 0;
        while x < width
            invariant
                map.wf(),
                0 <= y < height,
                60 <= width,
                0 <= x <= width,
                hi == height,
                wi == width,
                forall|a: int, c: int| c < y ==> !#[trigger] prop_on_water(map, wi, hi, a, c),
                forall|a: int| a < x ==> !#[trigger] prop_on_water(map, wi, hi, a, y as int),
            decreases width - x,
        {
            let pos = GridVec::new(x, y);
            match map.get_voxel_at(&pos) {
                Some(v) => {
                    let water = match v.floor {
                        Some(Floor::ShallowWater) | Some(Floor::DeepWater) => true,
                        _ => false,
                    };
                    let loose = match v.props {
                        Some(p) => !p.is_wall(),
                        None => false,
                    };
                    if water && loose {
                        proof {
                            assert(prop_on_water(map, wi, hi, x as int, y as int));
                        }
                        return Err(WorldDefect::PropInWater { x, y });
                    }
                },
                None => {},
            }
            x = x + 1;
        }
        y = y + 1;
    }
    Ok(())
}

/// `v` with its movement-blocking props (walls excepted) removed and its
/// river water bridged.
pub open spec fn cleared(v: Voxel, blocking: Seq<Props>) -> Voxel {
    Voxel {
        floor: if is_river_floor(v.floor) {
            Some(Floor::Bridge)
        } else {
            v.floor
        },
        props: match v.props {
            Some(p) => if blocking.contains(p) && !props_is_wall(p) {
                None
            } else {
                Some(p)
            },
            None => None,
        },
    }
}

/// `(x, y)` is within one tile (Chebyshev) of `p`.
pub open spec fn near(p: GridVec, x: int, y: int) -> bool {
    abs_int(x - p.x) <= 1 && abs_int(y - p.y) <= 1
}

/// `(x, y)` is within one tile of some point of `path`.
pub open spec fn near_path(path: Seq<GridVec>, x: int, y: int) -> bool {
    exists|k: int| 0 <= k < path.len() && #[trigger] near(path[k], x, y)
}

/// `path` is the Bresenham line from `a` to `b` (as `GridVec::bresenham_line`
/// describes it): the points of `line_points(a, b)`, with the properties
/// those points have.
pub open spec fn is_line(a: GridVec, b: GridVec, path: Seq<GridVec>) -> bool {
    &&& path == line_points(a, b)
    &&& path.len() == max_int(abs_int(b.x - a.x), abs_int(b.y - a.y)) + 1
    &&& path[0] == a
    &&& path.last() == b
    &&& forall|i: int| 0 <= i < path.len() ==> #[trigger] on_segment(a, b, path[i])
    &&& forall|i: int| 0 <= i < path.len() - 1 ==> #[trigger] line_step(a, b, path[i], path[i + 1])
}

/// `u` comes before `t` in the search around `door`: nearer (Chebyshev),
/// or as near and earlier in row-major order.
pub open spec fn searched_before(door: GridVec, u: GridVec, t: GridVec) -> bool {
    ||| chebyshev(door, u) < chebyshev(door, t)
    ||| (chebyshev(door, u) == chebyshev(door, t) && (u.y < t.y || (u.y == t.y && u.x < t.x)))
}

/// `t` is where the gap from the unreachable `door` is cut to: the first
/// marked tile of the grid, at Chebyshev distance 1 to `max_r`, in the
/// search order around `door`.
pub open spec fn gap_target(marks: Seq<bool>, w: int, h: int, door: GridVec, t: GridVec, max_r: int) -> bool {
    &&& in_grid(w, h, t.x as int, t.y as int)
    &&& marks[cell(w, t.x as int, t.y as int)]
    &&& 1 <= chebyshev(door, t) <= max_r
    &&& forall|u: GridVec|
        in_grid(w, h, u.x as int, u.y as int) && #[trigger] marks[cell(w, u.x as int, u.y as int)]
            ==> !searched_before(door, u, t)
}

/// Exec form of `cleared`.
fn clear_voxel(v: Voxel, blocking: &[Props]) -> (r: Voxel)
    ensures
        r == cleared(v, blocking@),
{
    let floor = match v.floor {
        Some(Floor::ShallowWater) | Some(Floor::DeepWater) => Some(Floor::Bridge),
        other => other,
    };
    let props = match v.props {
        Some(p) => if props_listed(blocking, p) && !p.is_wall() {
            None
        } else {
            Some(p)
        },
        None => None,
    };
    Voxel { floor, props }
}

/// The first marked tile around the unmarked `door`, searching squares of
/// radius 1 to `max_r` row by row.
fn find_gap_target(marks: &Vec<bool>, door: GridVec, width: i32, height: i32, max_r: i32) -> (r: Option<GridVec>)
    requires
        0 <= width <= MAX_CHECK_SIDE,
        0 <= height <= MAX_CHECK_SIDE,
        0 <= max_r <= MAX_CHECK_SIDE,
        marks@.len() == width * height,
        in_grid(width as int, height as int, door.x as int, door.y as int),
        !marks@[cell(width as int, door.x as int, door.y as int)],
    ensures
        match r {
            Some(t) => gap_target(marks@, width as int, height as int, door, t, max_r as int),
            None => forall|u: GridVec|
                in_grid(width as int, height as int, u.x as int, u.y as int) && chebyshev(door, u) <= max_r
                    ==> !#[trigger] marks@[cell(width as int, u.x as int, u.y as int)],
        },
{
    let ghost wi = width as int;
    let ghost hi = height as int;
    let w = width as usize;
    assert(wi * hi <= 900_000_000) by (nonlinear_arith)
        requires
            0 <= wi <= 30000,
            0 <= hi <= 30000,
    ;
    let mut r: i32 = 1;
    while r <= max_r
        invariant
            0 <= width <= MAX_CHECK_SIDE,
            0 <= height <= MAX_CHECK_SIDE,
            0 <= max_r <= MAX_CHECK_SIDE,
            wi == width,
            hi == height,
            w == width,
            marks@.len() == wi * hi,
            wi * hi <= 900_000_000,
            in_grid(wi, hi, door.x as int, door.y as int),
            1 <= r <= max_r + 1,
            forall|u: GridVec|
                in_grid(wi, hi, u.x as int, u.y as int) && chebyshev(door, u) < r ==> !#[trigger] marks@[cell(
                    wi,
                    u.x as int,
                    u.y as int,
                )],
        decreases max_r + 1 - r,
    {
        let mut dy: i32 = -r;
        while dy <= r
            invariant
                0 <= width <= MAX_CHECK_SIDE,
                0 <= height <= MAX_CHECK_SIDE,
                0 <= max_r <= MAX_CHECK_SIDE,
                wi == width,
                hi == height,
                w == width,
                marks@.len() == wi * hi,
            wi * hi <= 900_000_000,
                in_grid(wi, hi, door.x as int, door.y as int),
                1 <= r <= max_r,
                -r <= dy <= r + 1,
                forall|u: GridVec|
                    in_grid(wi, hi, u.x as int, u.y as int) && chebyshev(door, u) < r ==> !#[trigger] marks@[cell(
                        wi,
                        u.x as int,
                        u.y as int,
                    )],
                forall|u: GridVec|
                    in_grid(wi, hi, u.x as int, u.y as int) && chebyshev(door, u) <= r && u.y < door.y + dy
                        ==> !#[trigger] marks@[cell(wi, u.x as int, u.y as int)],
            decreases r + 1 - dy,
        {
            let mut dx: i32 = -r;
            while dx <= r
                invariant
                    0 <= width <= MAX_CHECK_SIDE,
                    0 <= height <= MAX_CHECK_SIDE,
                    0 <= max_r <= MAX_CHECK_SIDE,
                    wi == width,
                    hi == height,
                    w == width,
                    marks@.len() == wi * hi,
            wi * hi <= 900_000_000,
                    in_grid(wi, hi, door.x as int, door.y as int),
                    1 <= r <= max_r,
                    -r <= dy <= r,
                    -r <= dx <= r + 1,
                    forall|u: GridVec|
                        in_grid(wi, hi, u.x as int, u.y as int) && chebyshev(door, u) < r ==> !#[trigger] marks@[cell(
                            wi,
                            u.x as int,
                            u.y as int,
                        )],
                    forall|u: GridVec|
                        in_grid(wi, hi, u.x as int, u.y as int) && chebyshev(door, u) <= r && u.y < door.y + dy
                            ==> !#[trigger] marks@[cell(wi, u.x as int, u.y as int)],
                    forall|u: GridVec|
                        in_grid(wi, hi, u.x as int, u.y as int) && chebyshev(door, u) <= r && u.y == door.y + dy
                            && u.x < door.x + dx ==> !#[trigger] marks@[cell(wi, u.x as int, u.y as int)],
                decreases r + 1 - dx,
            {
                let cx = door.x + dx;
                let cy = door.y + dy;
                if cx >= 0 && cx < width && cy >= 0 && cy < height {
                    proof {
                        lemma_cell(wi, hi, cx as int, cy as int);
                    }
                    let idx = (cy as usize) * w + (cx as usize);
                    if marks[idx] {
                        let t = GridVec::new(cx, cy);
                        proof {
                            assert(chebyshev(door, t) == r) by {
                                if chebyshev(door, t) < r {
                                    assert(!marks@[cell(wi, t.x as int, t.y as int)]);
                                }
                            }
                            assert forall|u: GridVec|
                                in_grid(wi, hi, u.x as int, u.y as int) && #[trigger] marks@[cell(
                                    wi,
                                    u.x as int,
                                    u.y as int,
                                )] implies !searched_before(door, u, t) by {
                                if searched_before(door, u, t) {
                                    if chebyshev(door, u) < r {
                                    } else if u.y < t.y {
                                    } else {
                                    }
                                }
                            }
                        }
                        return Some(t);
                    }
                }
                dx = dx + 1;
            }
            dy = dy + 1;
        }
        r = r + 1;
    }
    None
}

/// Clears every grid tile within one tile of a point of `path`: removes
/// props that block movement (walls excepted) and bridges river water.
fn clear_path(map: &mut GameMap, path: &Vec<GridVec>, width: i32, height: i32, blocking: &[Props])
    requires
        old(map).wf(),
        0 <= width <= MAX_CHECK_SIDE,
        0 <= height <= MAX_CHECK_SIDE,
        forall|k: int| 0 <= k < path@.len() ==> in_grid(width as int, height as int, (#[trigger] path@[k]).x as int, path@[k].y as int),
    ensures
        same_frame(final(map), old(map)),
        forall|x: int, y: int|
            final(map).in_bounds(x, y) ==> #[trigger] final(map).voxel(x, y) == if in_grid(width as int, height as int, x, y)
                && near_path(path@, x, y) {
                cleared(old(map).voxel(x, y), blocking@)
            } else {
                old(map).voxel(x, y)
            },
{
    let ghost pre = *map;
    let ghost wi = width as int;
    let ghost hi = height as int;
    let mut k: usize = 0;
    while k < path.len()
        invariant
            pre.wf(),
            same_frame(&*map, &pre),
            wi == width,
            hi == height,
            0 <= width <= MAX_CHECK_SIDE,
            0 <= height <= MAX_CHECK_SIDE,
            k <= path@.len(),
            forall|q: int| 0 <= q < path@.len() ==> in_grid(wi, hi, (#[trigger] path@[q]).x as int, path@[q].y as int),
            forall|x: int, y: int|
                map.in_bounds(x, y) ==> #[trigger] map.voxel(x, y) == if in_grid(wi, hi, x, y) && near_path(
                    path@.take(k as int),
                    x,
                    y,
                ) {
                    cleared(pre.voxel(x, y), blocking@)
                } else {
                    pre.voxel(x, y)
                },
        decreases path@.len() - k,
    {
        let s = path[k];
        let ghost done = path@.take(k as int);
        let mut wy: i32 = -1;
        while wy <= 1
            invariant
                pre.wf(),
                same_frame(&*map, &pre),
                wi == width,
                hi == height,
                0 <= width <= MAX_CHECK_SIDE,
                0 <= height <= MAX_CHECK_SIDE,
                in_grid(wi, hi, s.x as int, s.y as int),
                -1 <= wy <= 2,
                forall|x: int, y: int|
                    map.in_bounds(x, y) ==> #[trigger] map.voxel(x, y) == if in_grid(wi, hi, x, y) && (near_path(
                        done,
                        x,
                        y,
                    ) || (near(s, x, y) && y - s.y < wy)) {
                        cleared(pre.voxel(x, y), blocking@)
                    } else {
                        pre.voxel(x, y)
                    },
            decreases 2 - wy,
        {
            let mut wx: i32 = -1;
            while wx <= 1
                invariant
                    pre.wf(),
                    same_frame(&*map, &pre),
                    wi == width,
                    hi == height,
                    0 <= width <= MAX_CHECK_SIDE,
                    0 <= height <= MAX_CHECK_SIDE,
                    in_grid(wi, hi, s.x as int, s.y as int),
                    -1 <= wy <= 1,
                    -1 <= wx <= 2,
                    forall|x: int, y: int|
                        map.in_bounds(x, y) ==> #[trigger] map.voxel(x, y) == if in_grid(wi, hi, x, y) && (near_path(
                            done,
                            x,
                            y,
                        ) || (near(s, x, y) && y - s.y < wy) || (y - s.y == wy && -1 <= x - s.x < wx)) {
                            cleared(pre.voxel(x, y), blocking@)
                        } else {
                            pre.voxel(x, y)
                        },
                decreases 2 - wx,
            {
                let px = s.x + wx;
                let py = s.y + wy;
                if px >= 0 && px < width && py >= 0 && py < height {
                    let pos = GridVec::new(px, py);
                    match map.get_voxel_at(&pos) {
                        Some(v) => {
                            let nv = clear_voxel(*v, blocking);
                            put_voxel(map, px, py, nv);
                        },
                        None => {},
                    }
                }
                wx = wx + 1;
            }
            wy = wy + 1;
        }
        proof {
            assert forall|x: int, y: int| near_path(path@.take(k + 1), x, y) <==> (near_path(done, x, y) || near(s, x, y)) by {
                if near_path(path@.take(k + 1), x, y) {
                    let q = choose|q: int| 0 <= q < k + 1 && #[trigger] near(path@.take(k + 1)[q], x, y);
                    if q < k {
                        assert(near(done[q], x, y));
                    }
                }
                if near_path(done, x, y) {
                    let q = choose|q: int| 0 <= q < k && #[trigger] near(done[q], x, y);
                    assert(near(path@.take(k + 1)[q], x, y));
                }
                if near(s, x, y) {
                    assert(near(path@.take(k + 1)[k as int], x, y));
                }
            }
        }
        k = k + 1;
    }
    proof {
        assert(path@.take(path@.len() as int) =~= path@);
    }
}

/// The flood marks of the map: entry `cell(w, x, y)` tells whether
/// `(x, y)` is reachable from the roads.
pub open spec fn reach_marks(m: &GameMap, blocking: Seq<Props>, w: int, h: int) -> Seq<bool> {
    Seq::new((w * h) as nat, |i: int| road_reachable(m, blocking, w, h, i % w, i / w))
}

/// The door tile of `b` as a grid point.
pub open spec fn door_point(b: Building) -> GridVec {
    gv(entrance(b).0, entrance(b).1)
}

/// The connectivity repair does nothing: no buildings, no streets, or a
/// map under 30 tiles on a side.
pub open spec fn repair_skipped(bs: Seq<Building>, ys: Seq<i32>, xs: Seq<i32>, w: int, h: int) -> bool {
    bs.len() == 0 || (ys.len() == 0 && xs.len() == 0) || w < 30 || h < 30
}

/// The search radius for a gap: a third of the larger side, at least 20.
pub open spec fn gap_radius(w: int, h: int) -> int {
    max_int(max_int(w / 3, h / 3), 20)
}

/// `paths` holds, for each building, the line along which a gap was cut
/// from its door: empty unless the door is on the grid, unreachable from
/// the roads and has a reachable tile within the search radius; then a
/// line from the door to the first such tile in the search order.
pub open spec fn gap_lines(
    m: &GameMap,
    blocking: Seq<Props>,
    bs: Seq<Building>,
    w: int,
    h: int,
    paths: Seq<Seq<GridVec>>,
) -> bool {
    &&& paths.len() == bs.len()
    &&& forall|i: int|
        0 <= i < bs.len() ==> {
            let door = door_point(#[trigger] bs[i]);
            let cut = in_grid(w, h, door.x as int, door.y as int) && !road_reachable(
                m,
                blocking,
                w,
                h,
                door.x as int,
                door.y as int,
            );
            &&& (paths[i].len() > 0 ==> cut && exists|t: GridVec|
                gap_target(reach_marks(m, blocking, w, h), w, h, door, t, gap_radius(w, h)) && is_line(
                    door,
                    t,
                    paths[i],
                ))
            &&& (cut && (exists|t: GridVec| gap_target(reach_marks(m, blocking, w, h), w, h, door, t, gap_radius(w, h)))
                ==> paths[i].len() > 0)
        }
}

/// The map after cutting gaps along `paths` into `m`: every grid tile
/// within one tile of a line is cleared, the rest is unchanged.
pub open spec fn gaps_cut(m: &GameMap, blocking: Seq<Props>, w: int, h: int, paths: Seq<Seq<GridVec>>, x: int, y: int) -> Voxel {
    if in_grid(w, h, x, y) && exists|i: int| 0 <= i < paths.len() && #[trigger] near_path(paths[i], x, y) {
        cleared(m.voxel(x, y), blocking)
    } else {
        m.voxel(x, y)
    }
}

/// Makes sure every building can be reached from the streets: floods
/// from the passable road tiles; for each building whose door (the tile
/// below the middle of its bottom edge) lies on the grid but was not
/// reached, finds the nearest reached tile within a third of the larger
/// map side (at least 20) and cuts a three-tile-wide gap along the line
/// from the door to it, removing props that block movement (walls
/// excepted) and bridging river water. `blocking` lists the prop kinds
/// that block movement.
pub fn check_connectivity(
    map: &mut GameMap,
    buildings: &[Building],
    avenue_ys: &[i32],
    cross_xs: &[i32],
    width: i32,
    height: i32,
    blocking: &[Props],
)
    requires
        old(map).wf(),
        width <= MAX_CHECK_SIDE,
        height <= MAX_CHECK_SIDE,
        forall|i: int| 0 <= i < buildings@.len() ==> building_small(#[trigger] buildings@[i]),
    ensures
        same_frame(final(map), old(map)),
        repair_skipped(buildings@, avenue_ys@, cross_xs@, width as int, height as int) ==> final(map).voxels@
            == old(map).voxels@,
        !repair_skipped(buildings@, avenue_ys@, cross_xs@, width as int, height as int) ==> exists|
            paths: Seq<Seq<GridVec>>,
        |
            gap_lines(old(map), blocking@, buildings@, width as int, height as int, paths) && forall|x: int, y: int|
                final(map).in_bounds(x, y) ==> #[trigger] final(map).voxel(x, y) == gaps_cut(
                    old(map),
                    blocking@,
                    width as int,
                    height as int,
                    paths,
                    x,
                    y,
                ),
{
    if buildings.len() == 0 || (avenue_ys.len() == 0 && cross_xs.len() == 0) || width < 30 || height < 30 {
        return;
    }
    let ghost pre = *map;
    let ghost wi = width as int;
    let ghost hi = height as int;
    let ghost bs = buildings@;
    let reach = road_reachability(map, width, height, blocking);
    proof {
        assert(reach@ =~= reach_marks(&pre, blocking@, wi, hi)) by {
            assert forall|i: int| 0 <= i < wi * hi implies reach@[i] == reach_marks(&pre, blocking@, wi, hi)[i] by {
                assert(0 <= i / wi < hi) by (nonlinear_arith)
                    requires
                        0 <= i < wi * hi,
                        wi > 0,
                ;
                vstd::arithmetic::div_mod::lemma_fundamental_div_mod(i, wi);
                vstd::arithmetic::div_mod::lemma_mod_bound(i, wi);
                let (x, y) = (i % wi, i / wi);
                assert(in_grid(wi, hi, x, y));
                lemma_cell(wi, hi, x, y);
                assert(cell(wi, x, y) == i) by (nonlinear_arith)
                    requires
                        i == wi * y + x,
                        cell(wi, x, y) == y * wi + x,
                ;
                assert(reach@[cell(wi, x, y)] == road_reachable(&pre, blocking@, wi, hi, x, y));
            }
        }
    }
    let w = width as usize;
    assert(wi * hi <= 900_000_000) by (nonlinear_arith)
        requires
            0 <= wi <= 30000,
            0 <= hi <= 30000,
    ;
    let max_r = if width / 3 > height / 3 {
        width / 3
    } else {
        height / 3
    };
    let max_r = if max_r > 20 {
        max_r
    } else {
        20
    };
    let ghost mut paths: Seq<Seq<GridVec>> = Seq::empty();
    let mut i: usize = 0;
    while i < buildings.len()
        invariant
            pre.wf(),
            same_frame(&*map, &pre),
            bs == buildings@,
            30 <= width <= MAX_CHECK_SIDE,
            30 <= height <= MAX_CHECK_SIDE,
            wi == width,
            hi == height,
            w == width,
            max_r == gap_radius(wi, hi),
            wi * hi <= 900_000_000,
            reach@ == reach_marks(&pre, blocking@, wi, hi),
            i <= bs.len(),
            paths.len() == i,
            forall|k: int| 0 <= k < bs.len() ==> building_small(#[trigger] bs[k]),
            gap_lines(&pre, blocking@, bs.take(i as int), wi, hi, paths),
            forall|x: int, y: int|
                map.in_bounds(x, y) ==> #[trigger] map.voxel(x, y) == gaps_cut(&pre, blocking@, wi, hi, paths, x, y),
        decreases bs.len() - i,
    {
        let b = buildings[i];
        proof {
            assert(building_small(bs[i as int]));
            assert(bs[i as int] == b);
        }
        let half = if b.w >= 0 {
            b.w / 2
        } else {
            -((-b.w) / 2)
        };
        let door_x = b.x + half;
        let door_y = b.y + b.h;
        let door = GridVec::new(door_x, door_y);
        proof {
            assert(door == door_point(b));
        }
        let mut line: Vec<GridVec> = Vec::new();
        if door_x >= 0 && door_x < width && door_y >= 0 && door_y < height {
            proof {
                lemma_cell(wi, hi, door_x as int, door_y as int);
            }
            let idx = (door_y as usize) * w + (door_x as usize);
            if !reach[idx] {
                match find_gap_target(&reach, door, width, height, max_r) {
                    Some(t) => {
                        line = door.bresenham_line(t);
                        proof {
                            assert(is_line(door, t, line@));
                        }
                    },
                    None => {},
                }
            }
        }
        proof {
            if line@.len() > 0 {
                assert forall|k: int| 0 <= k < line@.len() implies in_grid(wi, hi, (#[trigger] line@[k]).x as int, line@[k].y as int) by {
                    assert(on_segment(door, line@.last(), line@[k]));
                }
            }
        }
        let ghost cur = *map;
        clear_path(map, &line, width, height, blocking);
        proof {
            let np = paths.push(line@);
            assert forall|x: int, y: int| map.in_bounds(x, y) implies #[trigger] map.voxel(x, y) == gaps_cut(
                &pre,
                blocking@,
                wi,
                hi,
                np,
                x,
                y,
            ) by {
                assert(cur.in_bounds(x, y));
                assert(cur.voxel(x, y) == gaps_cut(&pre, blocking@, wi, hi, paths, x, y));
                if exists|j: int| 0 <= j < paths.len() && #[trigger] near_path(paths[j], x, y) {
                    let j = choose|j: int| 0 <= j < paths.len() && #[trigger] near_path(paths[j], x, y);
                    assert(np[j] == paths[j]);
                }
                if near_path(line@, x, y) {
                    assert(np[i as int] == line@);
                }
                if exists|j: int| 0 <= j < np.len() && #[trigger] near_path(np[j], x, y) {
                    let j = choose|j: int| 0 <= j < np.len() && #[trigger] near_path(np[j], x, y);
                    if j < i {
                        assert(np[j] == paths[j]);
                    }
                }
            }
            assert(bs.take(i + 1) =~= bs.take(i as int).push(b));
            assert forall|j: int| 0 <= j < bs.take(i + 1).len() implies {
                let d = door_point(#[trigger] bs.take(i + 1)[j]);
                let cut = in_grid(wi, hi, d.x as int, d.y as int) && !road_reachable(&pre, blocking@, wi, hi, d.x as int, d.y as int);
                &&& (np[j].len() > 0 ==> cut && exists|t: GridVec|
                    gap_target(reach_marks(&pre, blocking@, wi, hi), wi, hi, d, t, gap_radius(wi, hi)) && is_line(d, t, np[j]))
                &&& (cut && (exists|t: GridVec| gap_target(reach_marks(&pre, blocking@, wi, hi), wi, hi, d, t, gap_radius(wi, hi)))
                    ==> np[j].len() > 0)
            } by {
                if j < i {
                    assert(bs.take(i + 1)[j] == bs.take(i as int)[j]);
                    assert(np[j] == paths[j]);
                } else {
                    assert(bs.take(i + 1)[j] == b);
                    assert(np[j] == line@);
                    if in_grid(wi, hi, door.x as int, door.y as int) {
                        lemma_cell(wi, hi, door.x as int, door.y as int);
                        assert(reach@[cell(wi, door.x as int, door.y as int)] == road_reachable(
                            &pre,
                            blocking@,
                            wi,
                            hi,
                            door.x as int,
                            door.y as int,
                        ));
                    }
                }
            }
            paths = np;
        }
        i = i + 1;
    }
    proof {
        assert(bs.take(bs.len() as int) =~= bs);
    }
}


/// How many times world generation is retried after a failed check.
pub const MAX_WORLD_RETRIES: u64 = 10;

/// The seed of generation attempt `attempt`: the requested seed first,
/// then shifted by 7919 per attempt (wrapping).
pub fn attempt_seed(seed: u64, attempt: u64) -> (r: u64)
    requires
        attempt <= MAX_WORLD_RETRIES,
    ensures
        r == if attempt == 0 { seed } else { vstd::wrapping::u64_specs::wrapping_add(seed, (attempt * 7919) as u64) },
{
    if attempt == 0 {
        seed
    } else {
        seed.wrapping_add(attempt * 7919)
    }
}

/// The attempt that follows attempt `attempt` of world generation: none
/// when the world passed its check or the retries are used up (the last
/// world is then kept).
pub fn next_attempt(attempt: u64, passed: bool) -> (r: Option<u64>)
    ensures
        r == if passed || attempt >= MAX_WORLD_RETRIES { None } else { Some((attempt + 1) as u64) },
{
    if passed || attempt >= MAX_WORLD_RETRIES {
        None
    } else {
        Some(attempt + 1)
    }
}

} // verus!
