use roguelike::gamemap::{GameMap, Voxel};
use roguelike::graphics::{Floor, Props};
use roguelike::grid_vec::GridVec;
use roguelike::noise::noise2d;
use roguelike::streets::{
    bridge_avenue, lay_avenue, lay_cross_street, lay_streets, plan_avenues, plan_cross_streets, road_edge_tiles,
};

fn map_of(w: i32, h: i32, floor: Floor) -> GameMap {
    let row = vec![Voxel { floor: Some(floor), props: None }; w as usize];
    GameMap {
        width: w,
        height: h,
        voxels: vec![row; h as usize],
        fire_turns: Vec::new(),
        sand_cloud_turns: Vec::new(),
        sand_cloud_previous_floor: Vec::new(),
        faction_anchors: Vec::new(),
        occupancy: vec![vec![false; h as usize]; w as usize],
    }
}

fn value_noise(x: i32, y: i32, seed: u64) -> f64 {
    noise2d(x, y, seed) as f64 / u32::MAX as f64
}

/// A map with a winding river down the middle, built directly.
fn river_map(w: i32, h: i32) -> GameMap {
    let mut map = map_of(w, h, Floor::Sand);
    for y in 1..h - 1 {
        let cx = w / 2 + (y / 10) % 3 - 1;
        for x in 1..w - 1 {
            let d = (x - cx).abs();
            let f = if d < 3 {
                Some(Floor::DeepWater)
            } else if d < 6 {
                Some(Floor::ShallowWater)
            } else if d < 9 {
                Some(Floor::BeachSand)
            } else {
                continue;
            };
            map.voxels[y as usize][x as usize] = Voxel { floor: f, props: None };
        }
    }
    map.voxels[60][30] = Voxel { floor: Some(Floor::Sand), props: Some(Props::Wall) };
    map
}

fn avenue_curve(ay: i32, seed: u64, width: i32) -> Vec<i32> {
    let curve_seed = seed.wrapping_add(55500);
    let amp = 3.0 + value_noise(ay, 0, curve_seed) * 4.0;
    let freq = 0.015 + value_noise(0, ay, curve_seed) * 0.01;
    (0..width).map(|x| ((x as f64 * freq).sin() * amp) as i32).collect()
}

fn cross_curve(ci: i32, seed: u64, height: i32) -> Vec<i32> {
    let cross_seed = seed.wrapping_add(66666);
    let amp = 2.0 + value_noise(ci, 1, cross_seed) * 3.0;
    let freq = 0.02 + value_noise(1, ci, cross_seed) * 0.01;
    (0..height).map(|y| ((y as f64 * freq).sin() * amp) as i32).collect()
}

fn waterish(f: Option<Floor>) -> bool {
    matches!(f, Some(Floor::ShallowWater) | Some(Floor::DeepWater) | Some(Floor::Beach) | Some(Floor::BeachSand))
}

/// The street pass written directly with the float formulas.
fn reference_streets(map: &mut GameMap, width: i32, height: i32, seed: u64) -> (Vec<i32>, Vec<i32>, Vec<(i32, i32)>) {
    let spacing = 32 + (value_noise(0, 0, seed.wrapping_add(99900)) * 12.0) as i32;
    let mut ays = Vec::new();
    let mut ay = 40;
    while ay < height - 40 {
        ays.push(ay);
        ay += spacing;
    }
    let curve_seed = seed.wrapping_add(55500);
    for &ay in &ays {
        let amp = 3.0 + value_noise(ay, 0, curve_seed) * 4.0;
        let freq = 0.015 + value_noise(0, ay, curve_seed) * 0.01;
        for x in 1..width - 1 {
            let off = ((x as f64 * freq).sin() * amp) as i32;
            for sw in 1..=2 {
                for sign in [-1i32, 1] {
                    let y = ay + sign * (3 + sw) + off;
                    if y <= 0 || y >= height - 1 {
                        continue;
                    }
                    let v = &mut map.voxels[y as usize][x as usize];
                    if waterish(v.floor) {
                        continue;
                    }
                    *v = Voxel { floor: Some(Floor::Sidewalk), props: None };
                }
            }
            for hw in -3..=3 {
                let y = ay + hw + off;
                if y <= 0 || y >= height - 1 {
                    continue;
                }
                let v = &mut map.voxels[y as usize][x as usize];
                if waterish(v.floor) {
                    continue;
                }
                *v = Voxel { floor: Some(Floor::DirtRoad), props: None };
            }
        }
    }
    let cross_seed = seed.wrapping_add(66666);
    let cross_spacing = 28 + (value_noise(1, 1, seed.wrapping_add(99901)) * 14.0) as i32;
    let mut cxs = Vec::new();
    let mut cx = 40;
    let mut ci = 0;
    while cx < width - 40 {
        let jitter = (value_noise(ci, 0, cross_seed) * 10.0) as i32 - 5;
        let actual = (cx + jitter).clamp(2, width - 3);
        cxs.push(actual);
        let amp = 2.0 + value_noise(ci, 1, cross_seed) * 3.0;
        let freq = 0.02 + value_noise(1, ci, cross_seed) * 0.01;
        for y in 1..height - 1 {
            let off = ((y as f64 * freq).sin() * amp) as i32;
            for sign in [-1i32, 1] {
                let x = actual + sign * 3 + off;
                if x <= 0 || x >= width - 1 {
                    continue;
                }
                let v = &mut map.voxels[y as usize][x as usize];
                if waterish(v.floor) || v.floor == Some(Floor::Bridge) {
                    continue;
                }
                if !matches!(v.props, Some(Props::Wall) | Some(Props::StoneWall)) && v.floor != Some(Floor::DirtRoad) {
                    *v = Voxel { floor: Some(Floor::Sidewalk), props: None };
                }
            }
            for hw in -2..=2 {
                let x = actual + hw + off;
                if x <= 0 || x >= width - 1 {
                    continue;
                }
                let v = &mut map.voxels[y as usize][x as usize];
                if waterish(v.floor) || v.floor == Some(Floor::Bridge) {
                    continue;
                }
                if !matches!(v.props, Some(Props::Wall) | Some(Props::StoneWall)) {
                    *v = Voxel { floor: Some(Floor::DirtRoad), props: None };
                }
            }
        }
        cx += cross_spacing;
        ci += 1;
    }
    for &ay in &ays {
        let amp = 3.0 + value_noise(ay, 0, curve_seed) * 4.0;
        let freq = 0.015 + value_noise(0, ay, curve_seed) * 0.01;
        let mut crosses = vec![false; width as usize];
        for x in 1..width - 1 {
            let c = ay + ((x as f64 * freq).sin() * amp) as i32;
            for hw in -5..=5 {
                let y = c + hw;
                if y <= 0 || y >= height - 1 {
                    continue;
                }
                if matches!(map.voxels[y as usize][x as usize].floor, Some(Floor::ShallowWater) | Some(Floor::DeepWater)) {
                    crosses[x as usize] = true;
                    break;
                }
            }
        }
        for x in 1..width - 1 {
            if !crosses[x as usize] {
                continue;
            }
            let c = ay + ((x as f64 * freq).sin() * amp) as i32;
            for hw in -5..=5 {
                let y = c + hw;
                if y <= 0 || y >= height - 1 {
                    continue;
                }
                let v = &mut map.voxels[y as usize][x as usize];
                if matches!(v.floor, Some(Floor::ShallowWater) | Some(Floor::DeepWater) | Some(Floor::BeachSand)) {
                    *v = Voxel { floor: Some(Floor::Bridge), props: None };
                }
            }
        }
    }
    let mut edges = Vec::new();
    for y in 1..height - 1 {
        for x in 1..width - 1 {
            if map.voxels[y as usize][x as usize].floor != Some(Floor::Sidewalk) {
                continue;
            }
            let open = GridVec::new(x, y).cardinal_neighbors().iter().any(|n| {
                n.x >= 0 && n.x < width && n.y >= 0 && n.y < height && !matches!(
                    map.voxels[n.y as usize][n.x as usize].floor,
                    Some(Floor::DirtRoad) | Some(Floor::Sidewalk) | Some(Floor::Bridge)
                )
            });
            if open {
                edges.push((x, y));
            }
        }
    }
    for y in 0..height {
        for x in 0..width {
            if matches!(map.voxels[y as usize][x as usize].floor, Some(Floor::DirtRoad) | Some(Floor::Sidewalk) | Some(Floor::Bridge)) {
                map.occupancy[x as usize][y as usize] = true;
            }
        }
    }
    (ays, cxs, edges)
}

#[test]
fn avenue_plan_follows_the_spacing() {
    for seed in [0u64, 7, 42, 1234] {
        let spacing = 32 + (value_noise(0, 0, seed.wrapping_add(99900)) * 12.0) as i32;
        let ys = plan_avenues(280, seed);
        let mut expected = Vec::new();
        let mut ay = 40;
        while ay < 240 {
            expected.push(ay);
            ay += spacing;
        }
        assert_eq!(ys, expected, "seed {seed}");
        assert!((32..=44).contains(&spacing));
    }
    assert_eq!(plan_avenues(80, 3), Vec::<i32>::new());
}

#[test]
fn cross_street_plan_is_jittered_and_clamped() {
    for seed in [0u64, 9, 42] {
        let xs = plan_cross_streets(400, seed);
        let spacing = 28 + (value_noise(1, 1, seed.wrapping_add(99901)) * 14.0) as i32;
        let mut cx = 40;
        let mut ci = 0;
        let mut expected = Vec::new();
        while cx < 360 {
            let jitter = (value_noise(ci, 0, seed.wrapping_add(66666)) * 10.0) as i32 - 5;
            expected.push((cx + jitter).clamp(2, 397));
            cx += spacing;
            ci += 1;
        }
        assert_eq!(xs, expected, "seed {seed}");
    }
}

#[test]
fn one_straight_avenue_has_road_and_sidewalks() {
    let mut map = map_of(20, 30, Floor::Sand);
    map.voxels[10][5] = Voxel { floor: Some(Floor::ShallowWater), props: None };
    map.voxels[12][6] = Voxel { floor: Some(Floor::Sand), props: Some(Props::Barrel) };
    lay_avenue(&mut map, 10, &vec![0; 20], 20, 30);
    for x in 0..20usize {
        for y in 0..30usize {
            let v = map.voxels[y][x];
            let d = y as i32 - 10;
            if x == 0 || x == 19 {
                assert_eq!(v.floor, Some(Floor::Sand));
            } else if x == 5 && y == 10 {
                assert_eq!(v.floor, Some(Floor::ShallowWater));
            } else if d.abs() <= 3 {
                assert_eq!(v, Voxel { floor: Some(Floor::DirtRoad), props: None }, "({x},{y})");
            } else if d.abs() <= 5 {
                assert_eq!(v, Voxel { floor: Some(Floor::Sidewalk), props: None }, "({x},{y})");
            } else {
                assert_eq!(v.floor, Some(Floor::Sand));
            }
        }
    }
}

#[test]
fn cross_street_keeps_walls_bridges_and_avenue_roads() {
    let mut map = map_of(20, 12, Floor::Sand);
    map.voxels[3][10] = Voxel { floor: Some(Floor::Sand), props: Some(Props::Wall) };
    map.voxels[4][10] = Voxel { floor: Some(Floor::Bridge), props: None };
    map.voxels[5][7] = Voxel { floor: Some(Floor::DirtRoad), props: None };
    lay_cross_street(&mut map, 10, &vec![0; 12], 20, 12);
    assert_eq!(map.voxels[3][10].props, Some(Props::Wall));
    assert_eq!(map.voxels[4][10].floor, Some(Floor::Bridge));
    // The sidewalk does not overwrite an avenue's road.
    assert_eq!(map.voxels[5][7].floor, Some(Floor::DirtRoad));
    assert_eq!(map.voxels[6][7].floor, Some(Floor::Sidewalk));
    assert_eq!(map.voxels[6][13].floor, Some(Floor::Sidewalk));
    for x in 8..=12usize {
        assert_eq!(map.voxels[6][x].floor, Some(Floor::DirtRoad));
    }
    assert_eq!(map.voxels[0][10].floor, Some(Floor::Sand));
    assert_eq!(map.voxels[11][10].floor, Some(Floor::Sand));
    assert_eq!(map.voxels[6][6].floor, Some(Floor::Sand));
}

#[test]
fn bridge_spans_the_road_band_only_where_it_meets_water() {
    let mut map = map_of(20, 30, Floor::Sand);
    for y in 0..30usize {
        map.voxels[y][9] = Voxel { floor: Some(Floor::DeepWater), props: None };
        map.voxels[y][10] = Voxel { floor: Some(Floor::BeachSand), props: None };
    }
    // Beach sand alone does not make a crossing.
    map.voxels[15][3] = Voxel { floor: Some(Floor::BeachSand), props: None };
    bridge_avenue(&mut map, 15, &vec![0; 20], 20, 30);
    for y in 0..30usize {
        let band = (10..=20).contains(&y);
        let nine = if band { Some(Floor::Bridge) } else { Some(Floor::DeepWater) };
        assert_eq!(map.voxels[y][9].floor, nine, "row {y}");
        assert_eq!(map.voxels[y][10].floor, Some(Floor::BeachSand), "row {y}");
    }
    assert_eq!(map.voxels[15][3].floor, Some(Floor::BeachSand));
}

#[test]
fn road_edges_are_sidewalks_beside_open_ground() {
    let mut map = map_of(6, 5, Floor::Sand);
    for x in 1..5usize {
        map.voxels[2][x] = Voxel { floor: Some(Floor::Sidewalk), props: None };
        map.voxels[1][x] = Voxel { floor: Some(Floor::DirtRoad), props: None };
        map.voxels[3][x] = Voxel { floor: Some(Floor::DirtRoad), props: None };
    }
    // Only the ends of the sidewalk row touch sand.
    assert_eq!(road_edge_tiles(&map), vec![(1, 2), (4, 2)]);
}

#[test]
fn street_network_matches_the_street_pass() {
    for seed in [1u64, 42] {
        let (w, h) = (200, 160);
        let mut expected_map = river_map(w, h);
        let (eys, exs, eedges) = reference_streets(&mut expected_map, w, h, seed);
        let mut map = river_map(w, h);
        let ys = plan_avenues(h, seed);
        let xs = plan_cross_streets(w, seed);
        assert_eq!(ys, eys);
        assert_eq!(xs, exs);
        let acurves: Vec<Vec<i32>> = ys.iter().map(|&ay| avenue_curve(ay, seed, w)).collect();
        let ccurves: Vec<Vec<i32>> = (0..xs.len() as i32).map(|ci| cross_curve(ci, seed, h)).collect();
        let edges = lay_streets(&mut map, &ys, &acurves, &xs, &ccurves);
        assert_eq!(map.voxels, expected_map.voxels, "seed {seed}");
        assert_eq!(map.occupancy, expected_map.occupancy, "seed {seed}");
        assert_eq!(edges, eedges, "seed {seed}");
        assert!(map.voxels.iter().flatten().any(|v| v.floor == Some(Floor::Bridge)));
    }
}
