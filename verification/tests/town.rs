use std::collections::HashSet;

use roguelike::town::{assign_zone, generate_buildings_bsp, ZONE_COMMERCIAL};

#[test]
fn bsp_buildings_do_not_overlap() {
    // BSP guarantees non-overlapping plots — verify no building footprints
    // intersect.
    let (buildings, _, _) = generate_buildings_bsp(400, 280, 42, &[60, 100, 140], &[80, 160, 240], 3, 2);
    for (i, a) in buildings.iter().enumerate() {
        for b in &buildings[i + 1..] {
            let overlaps = a.x < b.x + b.w && a.x + a.w > b.x
                && a.y < b.y + b.h && a.y + a.h > b.y;
            assert!(!overlaps,
                "Buildings at ({},{}) {}x{} and ({},{}) {}x{} overlap",
                a.x, a.y, a.w, a.h, b.x, b.y, b.w, b.h);
        }
    }
}

#[test]
fn bsp_zone_commercial_near_streets() {
    let avenue_ys = vec![50, 90];
    // Near avenue → commercial zone
    let zone = assign_zone(100, 52, 400, 280, &avenue_ys, 42);
    assert_eq!(zone, ZONE_COMMERCIAL,
        "Tiles near avenues should be commercial zones");
    // Far from avenue → not commercial
    let zone_far = assign_zone(100, 200, 400, 280, &avenue_ys, 42);
    assert_ne!(zone_far, ZONE_COMMERCIAL,
        "Tiles far from avenues should not be commercial zones");
}

#[test]
fn bsp_landmark_anchors_placed_first() {
    // On sufficiently large maps, landmark anchors (sheriff, saloon,
    // church) should be placed before BSP subdivision.
    let (buildings, _, _) = generate_buildings_bsp(200, 140, 42, &[60], &[80], 3, 2);
    // Expect at least the 3 anchors
    assert!(buildings.len() >= 3,
        "Large map should have at least 3 landmark anchor buildings, found {}",
        buildings.len());
    // Sheriff (kind=4), Saloon (kind=1), Church (kind=6) should appear
    let has_sheriff = buildings.iter().any(|b| b.kind == 4);
    let has_saloon = buildings.iter().any(|b| b.kind == 1);
    let has_church = buildings.iter().any(|b| b.kind == 6);
    assert!(has_sheriff, "Landmark anchors should include sheriff's office");
    assert!(has_saloon, "Landmark anchors should include saloon");
    assert!(has_church, "Landmark anchors should include church");
}

#[test]
fn lot_grid_partitioning_produces_multiple_buildings() {
    // The grid-based lot partitioning should produce more buildings
    // than the old single-building-per-lot approach. On a map with
    // multiple road grid cells, empty lots are subdivided into plots.
    let (buildings, _, _) = generate_buildings_bsp(
        400, 280, 42, &[60, 100, 140, 180], &[80, 160, 240, 320], 3, 2,
    );
    // With 4 avenues and 4 cross streets, there are many lots.
    // Each lot is partitioned into a grid of plots.
    assert!(
        buildings.len() >= 20,
        "Grid partitioning should produce dense building placement, found {} buildings",
        buildings.len()
    );
    // Verify building type variety — at least 4 distinct kinds
    let mut kinds: HashSet<u32> = HashSet::new();
    for b in &buildings {
        kinds.insert(b.kind);
    }
    assert!(
        kinds.len() >= 4,
        "Lots should have building variety, found only {} distinct kinds",
        kinds.len()
    );
}

#[test]
fn bsp_partition_leaves_are_within_apart_and_leaf_sized() {
    let mut root = roguelike::town::BspNode::new(0, 0, 200, 150);
    root.subdivide(42, 0, &[40, 100], &[60, 140]);
    assert!(!root.is_leaf());
    let mut leaves = Vec::new();
    root.collect_leaves(&mut leaves);
    assert!(!leaves.is_empty() && leaves.len() <= 128);
    for &(x, y, w, h) in &leaves {
        assert!(x >= 0 && y >= 0 && x + w <= 200 && y + h <= 150);
        assert!(w >= 14 && h >= 12);
    }
    for i in 0..leaves.len() {
        for j in i + 1..leaves.len() {
            let (a, b) = (leaves[i], leaves[j]);
            assert!(a.0 + a.2 <= b.0 || b.0 + b.2 <= a.0 || a.1 + a.3 <= b.1 || b.1 + b.3 <= a.1);
        }
    }
}

#[test]
fn bsp_node_too_small_to_split_stays_a_leaf() {
    let mut node = roguelike::town::BspNode::new(10, 10, 29, 25);
    node.subdivide(7, 0, &[], &[]);
    assert!(node.is_leaf());
    let mut deep = roguelike::town::BspNode::new(0, 0, 100, 100);
    deep.subdivide(7, 7, &[], &[]);
    assert!(deep.is_leaf());
}
