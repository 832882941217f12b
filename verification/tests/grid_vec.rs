use roguelike::grid_vec::GridVec;

#[test]
fn additive_identity() {
    let v = GridVec::new(3, -7);
    assert_eq!(v + GridVec::zero(), v);
    assert_eq!(GridVec::zero() + v, v);
}

#[test]
fn additive_inverse() {
    let v = GridVec::new(5, -3);
    assert_eq!(v + (-v), GridVec::zero());
}

#[test]
fn commutativity() {
    let a = GridVec::new(2, 3);
    let b = GridVec::new(-1, 7);
    assert_eq!(a + b, b + a);
}

#[test]
fn associativity() {
    let a = GridVec::new(1, 2);
    let b = GridVec::new(3, 4);
    let c = GridVec::new(5, 6);
    assert_eq!((a + b) + c, a + (b + c));
}

#[test]
fn sub_is_add_neg() {
    let a = GridVec::new(10, 20);
    let b = GridVec::new(3, 7);
    assert_eq!(a - b, a + (-b));
}

#[test]
fn manhattan_distance() {
    let a = GridVec::new(0, 0);
    let b = GridVec::new(3, 4);
    assert_eq!(a.manhattan_distance(b), 7);
    // Symmetric
    assert_eq!(b.manhattan_distance(a), 7);
}

#[test]
fn chebyshev_distance() {
    let a = GridVec::new(0, 0);
    let b = GridVec::new(3, 4);
    assert_eq!(a.chebyshev_distance(b), 4);
    assert_eq!(b.chebyshev_distance(a), 4);
}

#[test]
fn distance_squared() {
    let a = GridVec::new(0, 0);
    let b = GridVec::new(3, 4);
    assert_eq!(a.distance_squared(b), 25); // 3² + 4² = 25
}

#[test]
fn scalar_multiplication() {
    let v = GridVec::new(2, -3);
    assert_eq!(v * 3, GridVec::new(6, -9));
    let zero = 0;
    assert_eq!(v * zero, GridVec::zero());
}

#[test]
fn tuple_round_trip() {
    let v = GridVec::new(42, -17);
    let tuple: (i32, i32) = v.into();
    let back: GridVec = tuple.into();
    assert_eq!(v, back);
}

#[test]
fn directions_are_unit_length() {
    for dir in &GridVec::directions_4() {
        assert_eq!(dir.manhattan_distance(GridVec::zero()), 1);
    }
}

// ─── Dot product tests ──────────────────────────────────────
#[test]
fn dot_product_orthogonal_is_zero() {
    let a = GridVec::east();
    let b = GridVec::north();
    assert_eq!(a.dot(b), 0);
}

#[test]
fn dot_product_parallel_positive() {
    let a = GridVec::new(3, 4);
    assert_eq!(a.dot(a), 25); // 3² + 4² = 25
}

#[test]
fn dot_product_antiparallel_negative() {
    let a = GridVec::new(1, 0);
    let b = GridVec::new(-1, 0);
    assert!(a.dot(b) < 0);
}

#[test]
fn dot_product_commutative() {
    let a = GridVec::new(2, 5);
    let b = GridVec::new(-3, 7);
    assert_eq!(a.dot(b), b.dot(a));
}

// ─── Cross product tests ────────────────────────────────────
#[test]
fn cross_product_collinear_is_zero() {
    let a = GridVec::new(2, 4);
    let b = GridVec::new(1, 2);
    assert_eq!(a.cross(b), 0);
}

#[test]
fn cross_product_perpendicular() {
    let a = GridVec::east();
    let b = GridVec::north();
    assert_eq!(a.cross(b), 1); // counter-clockwise
}

#[test]
fn cross_product_anticommutative() {
    let a = GridVec::new(3, 1);
    let b = GridVec::new(-2, 5);
    assert_eq!(a.cross(b), -b.cross(a));
}

#[test]
fn cross_product_self_is_zero() {
    let v = GridVec::new(7, -3);
    assert_eq!(v.cross(v), 0);
}

// ─── King step tests ────────────────────────────────────────
#[test]
fn king_step_normalizes_large_vector() {
    let v = GridVec::new(10, -5);
    assert_eq!(v.king_step(), GridVec::new(1, -1));
}

#[test]
fn king_step_zero_stays_zero() {
    assert_eq!(GridVec::zero().king_step(), GridVec::zero());
}

#[test]
fn king_step_unit_stays_same() {
    for dir in &GridVec::directions_8() {
        assert_eq!(dir.king_step(), *dir);
    }
}

// ─── Rotation tests ─────────────────────────────────────────

#[test]
fn rotate_90_cw_cardinal_directions() {
    // N → E → S → W → N (clockwise cycle)
    assert_eq!(GridVec::north().rotate_90_cw(), GridVec::east());
    assert_eq!(GridVec::east().rotate_90_cw(), GridVec::south());
    assert_eq!(GridVec::south().rotate_90_cw(), GridVec::west());
    assert_eq!(GridVec::west().rotate_90_cw(), GridVec::north());
}

#[test]
fn rotate_90_ccw_cardinal_directions() {
    // N → W → S → E → N (counter-clockwise cycle)
    assert_eq!(GridVec::north().rotate_90_ccw(), GridVec::west());
    assert_eq!(GridVec::west().rotate_90_ccw(), GridVec::south());
    assert_eq!(GridVec::south().rotate_90_ccw(), GridVec::east());
    assert_eq!(GridVec::east().rotate_90_ccw(), GridVec::north());
}

#[test]
fn rotate_cyclic_group_order_4() {
    // R⁴ = I: four CW rotations return to original.
    let v = GridVec::new(3, -7);
    let r1 = v.rotate_90_cw();
    let r2 = r1.rotate_90_cw();
    let r3 = r2.rotate_90_cw();
    let r4 = r3.rotate_90_cw();
    assert_eq!(r4, v, "R⁴ should equal identity");
}

#[test]
fn rotate_cw_ccw_are_inverses() {
    let v = GridVec::new(5, -2);
    assert_eq!(v.rotate_90_cw().rotate_90_ccw(), v);
    assert_eq!(v.rotate_90_ccw().rotate_90_cw(), v);
}

#[test]
fn rotate_preserves_squared_magnitude() {
    // Rotation is an isometry: |Rv|² = |v|².
    let v = GridVec::new(3, 4);
    let origin = GridVec::zero();
    assert_eq!(
        v.distance_squared(origin),
        v.rotate_90_cw().distance_squared(origin)
    );
}

#[test]
fn rotate_zero_stays_zero() {
    assert_eq!(GridVec::zero().rotate_90_cw(), GridVec::zero());
    assert_eq!(GridVec::zero().rotate_90_ccw(), GridVec::zero());
}

// ─── MulAssign tests ────────────────────────────────────────

#[test]
fn mul_assign_scalar() {
    let mut v = GridVec::new(3, -4);
    v *= 2;
    assert_eq!(v, GridVec::new(6, -8));
}

#[test]
fn mul_assign_zero() {
    let mut v = GridVec::new(5, 7);
    v *= 0;
    assert_eq!(v, GridVec::zero());
}

// ─── Bresenham line tests ───────────────────────────────────

#[test]
fn bresenham_single_point() {
    let p = GridVec::new(5, 5);
    let line = p.bresenham_line(p);
    assert_eq!(line, vec![p]);
}

#[test]
fn bresenham_horizontal() {
    let a = GridVec::new(0, 0);
    let b = GridVec::new(4, 0);
    let line = a.bresenham_line(b);
    assert_eq!(line.len(), 5);
    assert_eq!(line[0], a);
    assert_eq!(line[4], b);
    // All points should have y=0.
    for p in &line {
        assert_eq!(p.y, 0);
    }
}

#[test]
fn bresenham_vertical() {
    let a = GridVec::new(3, 1);
    let b = GridVec::new(3, 5);
    let line = a.bresenham_line(b);
    assert_eq!(line.len(), 5);
    assert_eq!(line[0], a);
    assert_eq!(line[4], b);
    for p in &line {
        assert_eq!(p.x, 3);
    }
}

#[test]
fn bresenham_diagonal() {
    let a = GridVec::new(0, 0);
    let b = GridVec::new(3, 3);
    let line = a.bresenham_line(b);
    assert_eq!(line.len(), 4);
    for p in &line {
        assert_eq!(p.x, p.y, "Diagonal line should have x == y");
    }
}

#[test]
fn bresenham_negative_direction() {
    let a = GridVec::new(5, 5);
    let b = GridVec::new(2, 3);
    let line = a.bresenham_line(b);
    assert_eq!(line[0], a);
    assert_eq!(*line.last().unwrap(), b);
}

#[test]
fn bresenham_8_connected() {
    // Verify that consecutive points differ by at most 1 in each axis.
    let a = GridVec::new(0, 0);
    let b = GridVec::new(7, 3);
    let line = a.bresenham_line(b);
    for i in 1..line.len() {
        let dx = (line[i].x - line[i - 1].x).abs();
        let dy = (line[i].y - line[i - 1].y).abs();
        assert!(dx <= 1 && dy <= 1, "Step {i} not 8-connected: dx={dx}, dy={dy}");
    }
}

#[test]
fn bresenham_reverse_same_points() {
    // a→b and b→a should cover the same set of grid points.
    let a = GridVec::new(1, 2);
    let b = GridVec::new(8, 5);
    let forward = a.bresenham_line(b);
    let backward = b.bresenham_line(a);
    let mut fwd_set: Vec<GridVec> = forward.clone();
    let mut bwd_set: Vec<GridVec> = backward.clone();
    fwd_set.sort();
    bwd_set.sort();
    assert_eq!(fwd_set, bwd_set, "Forward and backward should cover same points");
}

// ─── Neighbor tests ─────────────────────────────────────────

#[test]
fn cardinal_neighbors_count() {
    let p = GridVec::new(5, 5);
    assert_eq!(p.cardinal_neighbors().len(), 4);
}

#[test]
fn cardinal_neighbors_at_distance_1() {
    let p = GridVec::new(5, 5);
    for n in &p.cardinal_neighbors() {
        assert_eq!(p.manhattan_distance(*n), 1);
    }
}

#[test]
fn all_neighbors_count() {
    let p = GridVec::new(5, 5);
    assert_eq!(p.all_neighbors().len(), 8);
}

#[test]
fn all_neighbors_at_chebyshev_distance_1() {
    let p = GridVec::new(5, 5);
    for n in &p.all_neighbors() {
        assert_eq!(p.chebyshev_distance(*n), 1);
    }
}

// ─── norm_squared tests ─────────────────────────────────────

#[test]
fn norm_squared_zero() {
    assert_eq!(GridVec::zero().norm_squared(), 0);
}

#[test]
fn norm_squared_unit_vectors() {
    for dir in &GridVec::directions_4() {
        assert_eq!(dir.norm_squared(), 1);
    }
}

#[test]
fn norm_squared_equals_dot_self() {
    let v = GridVec::new(3, 4);
    assert_eq!(v.norm_squared(), v.dot(v));
}

#[test]
fn norm_squared_equals_distance_squared_to_zero() {
    let v = GridVec::new(7, -2);
    assert_eq!(v.norm_squared(), v.distance_squared(GridVec::zero()));
}

#[test]
fn norm_squared_pythagorean() {
    let v = GridVec::new(3, 4);
    assert_eq!(v.norm_squared(), 25); // 3² + 4² = 25
}

// ─── is_zero tests ──────────────────────────────────────────

#[test]
fn is_zero_true_for_zero() {
    assert!(GridVec::zero().is_zero());
}

#[test]
fn is_zero_false_for_nonzero() {
    assert!(!GridVec::new(1, 0).is_zero());
    assert!(!GridVec::new(0, 1).is_zero());
    assert!(!GridVec::new(-1, -1).is_zero());
}

#[test]
fn is_zero_consistent_with_eq() {
    let v = GridVec::new(3, -7);
    assert_eq!(v.is_zero(), v == GridVec::zero());
}

#[test]
fn bresenham_both_directions_take_the_same_tiles() {
    let a = GridVec::new(0, 0);
    let b = GridVec::new(2, 1);
    assert_eq!(a.bresenham_line(b), vec![GridVec::new(0, 0), GridVec::new(1, 0), GridVec::new(2, 1)]);
    assert_eq!(b.bresenham_line(a), vec![GridVec::new(2, 1), GridVec::new(1, 0), GridVec::new(0, 0)]);
    let c = GridVec::new(-3, 7);
    let d = GridVec::new(4, -2);
    let mut back = d.bresenham_line(c);
    back.reverse();
    assert_eq!(c.bresenham_line(d), back);
}
