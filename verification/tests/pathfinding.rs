use std::collections::HashSet;

use roguelike::ai::COST_BASE;
use roguelike::grid_vec::GridVec;
use roguelike::pathfinding::{a_star_first_step, a_star_first_step_pub, dijkstra_map, flee_direction};

/// Uniform-cost walkable tiles (every tile costs `COST_BASE`).
fn walkable(_: GridVec) -> Option<i32> {
    Some(COST_BASE)
}

/// A cost function with the given walls impassable and every other tile
/// at `COST_BASE`.
fn walls_to_cost(wall: &HashSet<GridVec>) -> impl Fn(GridVec) -> Option<i32> + '_ {
    move |pos| if wall.contains(&pos) { None } else { Some(COST_BASE) }
}

#[test]
fn a_star_adjacent_returns_direct_step() {
    let start = GridVec::new(5, 5);
    let goal = GridVec::new(6, 5);
    let step = a_star_first_step(start, goal, walkable);
    assert_eq!(step, Some(GridVec::new(1, 0)));
}

#[test]
fn a_star_straight_line_path() {
    let start = GridVec::new(0, 0);
    let goal = GridVec::new(5, 0);
    let step = a_star_first_step(start, goal, walkable);
    assert!(step.is_some(), "A* should find a step toward the goal");
    let s = step.unwrap();
    let new_pos = start + s;
    assert!(
        new_pos.chebyshev_distance(goal) < start.chebyshev_distance(goal),
        "First step should reduce Chebyshev distance to goal"
    );
}

#[test]
fn a_star_diagonal_path() {
    let start = GridVec::new(0, 0);
    let goal = GridVec::new(3, 3);
    let step = a_star_first_step(start, goal, walkable);
    assert_eq!(step, Some(GridVec::new(1, 1)));
}

#[test]
fn a_star_navigates_around_wall() {
    let start = GridVec::new(2, 3);
    let goal = GridVec::new(5, 3);
    let wall: HashSet<GridVec> = [
        GridVec::new(3, 2),
        GridVec::new(3, 3),
        GridVec::new(3, 4),
    ]
    .into_iter()
    .collect();

    let step = a_star_first_step(start, goal, walls_to_cost(&wall));
    assert!(step.is_some(), "A* should find a path around the wall");
    let s = step.unwrap();
    let next = start + s;
    assert!(!wall.contains(&next), "First step should not be into a wall");
}

#[test]
fn a_star_returns_none_when_unreachable() {
    let start = GridVec::new(0, 0);
    let goal = GridVec::new(10, 10);
    let step = a_star_first_step(start, goal, |pos| {
        // Block exactly the ring at Chebyshev distance 1 from goal.
        let d = pos.chebyshev_distance(goal);
        if d == 1 { None } else { Some(COST_BASE) }
    });
    assert!(step.is_none(), "Should return None when goal is surrounded");
}

#[test]
fn a_star_zero_distance_returns_none() {
    let pos = GridVec::new(5, 5);
    let step = a_star_first_step(pos, pos, walkable);
    assert_eq!(step, None, "No step needed when already at goal");
}

// ── Weighted A* tests ─────────────────────────────────────────

#[test]
fn a_star_prefers_low_cost_path() {
    // Two paths from (0,0) to (4,0):
    //   Direct (y=0): interior tiles cost 50 each (expensive / hazardous)
    //   Detour (y≠0): tiles cost BASE each (safe / covered)
    // A* should route through the cheaper detour.
    let start = GridVec::new(0, 0);
    let goal = GridVec::new(4, 0);
    let step = a_star_first_step(start, goal, |pos| {
        if pos.y == 0 && pos.x > 0 && pos.x < 4 {
            Some(50) // Hazardous corridor
        } else {
            Some(COST_BASE) // Safe detour
        }
    });
    assert!(step.is_some());
    let s = step.unwrap();
    // Should step off the y=0 line to avoid the expensive corridor.
    assert_ne!(s.y, 0, "Should detour around the hazardous corridor, got ({}, {})", s.x, s.y);
}

#[test]
fn a_star_uses_cover_bonus() {
    // y=2 has low cost (simulating cover near walls), y=0 has high cost.
    let start = GridVec::new(0, 1);
    let goal = GridVec::new(5, 1);
    let step = a_star_first_step(start, goal, |pos| {
        if pos.y == 2 { Some(5) } // "Covered" path
        else if pos.y == 0 { Some(20) } // Exposed path
        else { Some(COST_BASE) }
    });
    assert!(step.is_some());
    let s = step.unwrap();
    // Should prefer moving toward the cheaper (covered) y=2 row.
    assert!(s.y > 0, "Should prefer moving toward cover (y=2), got y={}", s.y);
}

// ── Dijkstra map tests ────────────────────────────────────────

#[test]
fn dijkstra_source_has_zero_distance() {
    let src = GridVec::new(5, 5);
    let map = dijkstra_map(&[src], walkable);
    assert_eq!(*map.get(&src).unwrap(), 0);
}

#[test]
fn dijkstra_distance_increases_outward() {
    let src = GridVec::new(5, 5);
    let map = dijkstra_map(&[src], walkable);
    // Adjacent tile should have distance == BASE (one step away).
    let adj = GridVec::new(6, 5);
    assert_eq!(*map.get(&adj).unwrap_or(&0), COST_BASE);
    // Two steps away should be 2*BASE.
    let far = GridVec::new(7, 5);
    assert_eq!(*map.get(&far).unwrap_or(&0), COST_BASE * 2);
}

#[test]
fn dijkstra_blocked_tiles_not_reached() {
    let src = GridVec::new(0, 0);
    // Surround the source with walls (block at distance 1).
    let map = dijkstra_map(&[src], |pos| {
        if pos == src { return Some(COST_BASE); }
        if pos.chebyshev_distance(src) == 1 { return None; }
        Some(COST_BASE)
    });
    // Source is reachable.
    assert!(map.contains_key(&src));
    // Tiles beyond the ring should NOT be reached.
    let beyond = GridVec::new(2, 0);
    assert!(!map.contains_key(&beyond), "Tiles beyond blocked ring should be unreachable");
}

#[test]
fn dijkstra_multi_source_picks_nearest() {
    let a = GridVec::new(0, 0);
    let b = GridVec::new(10, 0);
    let map = dijkstra_map(&[a, b], walkable);
    // Midpoint (5,0) should have distance 5*BASE from nearest source.
    let mid = GridVec::new(5, 0);
    assert_eq!(*map.get(&mid).unwrap_or(&0), 5 * COST_BASE);
}

#[test]
fn dijkstra_high_cost_tiles_have_larger_distance() {
    let src = GridVec::new(0, 0);
    let map = dijkstra_map(&[src], |pos| {
        if pos.y > 0 { Some(50) } // Expensive tiles north
        else { Some(COST_BASE) } // Cheap tiles along y=0
    });
    // (1,0) via cheap path: cost BASE
    // (0,1) via expensive path: cost 50
    let cheap = *map.get(&GridVec::new(1, 0)).unwrap_or(&0);
    let expensive = *map.get(&GridVec::new(0, 1)).unwrap_or(&0);
    assert!(expensive > cheap, "Expensive tiles should have larger Dijkstra distance");
}

// ── Tile cost module constants sanity check ───────────────────

#[test]
fn flee_moves_away_from_threat() {
    let me = GridVec::new(5, 5);
    let threat = GridVec::new(3, 5);
    let d = flee_direction(me, threat, walkable, walkable).unwrap();
    assert_eq!(d.x, 1);
}

#[test]
fn flee_trapped_returns_none() {
    let me = GridVec::new(5, 5);
    let blocked = |p: GridVec| if p == me { Some(COST_BASE) } else if p.chebyshev_distance(me) == 1 { None } else { Some(COST_BASE) };
    assert_eq!(flee_direction(me, GridVec::new(0, 0), blocked, walkable), None);
}

#[test]
fn dijkstra_distances_come_from_walks() {
    let map = dijkstra_map(&[GridVec::new(0, 0)], walkable);
    assert_eq!(*map.get(&GridVec::new(3, 2)).unwrap(), 3 * COST_BASE);
    assert!(map.len() <= 512 * 8 + 1);
}

#[test]
fn a_star_pub_walkability() {
    let step = a_star_first_step_pub(GridVec::new(0, 0), GridVec::new(0, 4), |p: GridVec| p.x != 0 || p.y == 0 || p.y == 4);
    let s = step.unwrap();
    assert_eq!(s.x.abs(), 1);
}

#[test]
fn a_star_steps_onto_an_adjacent_blocked_goal() {
    let goal = GridVec::new(6, 5);
    let cost = move |p: GridVec| if p == goal { None } else { Some(10) };
    assert_eq!(a_star_first_step(GridVec::new(5, 5), goal, cost), Some(GridVec::new(1, 0)));
}

#[test]
fn dijkstra_settles_the_cheapest_walk_around_a_costly_tile() {
    // (1,0) costs 100; the cheapest way from (0,0) to (2,0) goes over (1,1).
    let map = dijkstra_map(&[GridVec::new(0, 0)], |p: GridVec| {
        if p == GridVec::new(1, 0) { Some(100) } else { Some(COST_BASE) }
    });
    assert_eq!(*map.get(&GridVec::new(2, 0)).unwrap(), 2 * COST_BASE);
    assert_eq!(*map.get(&GridVec::new(1, 0)).unwrap(), 100);
}

#[test]
fn a_star_first_step_begins_a_cheapest_walk() {
    // Straight ahead costs 50 a tile; the detour over y = 1 is cheaper,
    // so the first step leaves the row.
    let start = GridVec::new(0, 0);
    let goal = GridVec::new(4, 0);
    let step = a_star_first_step(start, goal, |p: GridVec| {
        if p.y == 0 && p.x > 0 && p.x < 4 { Some(50) } else { Some(COST_BASE) }
    })
    .unwrap();
    assert_ne!(step.y, 0);
    assert_eq!(step.x, 1);
}

#[test]
fn a_star_reports_none_when_the_goal_is_walled_off() {
    let goal = GridVec::new(10, 10);
    let step = a_star_first_step(GridVec::new(0, 0), goal, |p: GridVec| {
        if p.chebyshev_distance(goal) == 1 { None } else { Some(COST_BASE) }
    });
    assert_eq!(step, None);
}
