//! `GridVec`: a two-dimensional integer vector on the game grid.
//!
//! Vectors form an Abelian group under addition (the operators below are
//! defined where the components stay inside the coordinate range), carry
//! the Manhattan, Chebyshev and squared Euclidean metrics, the dot and
//! cross products, the quarter-turn rotations and the Bresenham line.
use vstd::prelude::*;

verus! {

/// The coordinate type of the game grid.
pub type CoordinateUnit = i32;

/// Absolute value over the integers.
pub open spec fn abs_int(v: int) -> int {
    if v < 0 { -v } else { v }
}

/// Maximum of two integers.
pub open spec fn max_int(a: int, b: int) -> int {
    if a >= b { a } else { b }
}

/// Sign of an integer: -1, 0 or 1.
pub open spec fn sign_int(v: int) -> int {
    if v > 0 { 1 } else if v < 0 { -1 } else { 0 }
}

/// Whether an integer fits in the coordinate type.
pub open spec fn fits_coord(v: int) -> bool {
    i32::MIN <= v <= i32::MAX
}

/// A 2D integer vector on the game grid.
#[derive(Clone, Copy, Debug, PartialEq, Eq, Structural, Hash, PartialOrd, Ord)]
pub struct GridVec {
    pub x: CoordinateUnit,
    pub y: CoordinateUnit,
}

/// The vector with the given components.
pub open spec fn gv(x: int, y: int) -> GridVec {
    GridVec { x: x as i32, y: y as i32 }
}

/// Manhattan (L1) distance between two points.
pub open spec fn manhattan(a: GridVec, b: GridVec) -> int {
    abs_int(a.x - b.x) + abs_int(a.y - b.y)
}

/// Chebyshev (L-infinity) distance between two points.
pub open spec fn chebyshev(a: GridVec, b: GridVec) -> int {
    max_int(abs_int(a.x - b.x), abs_int(a.y - b.y))
}

/// Squared Euclidean distance between two points.
pub open spec fn dist_sq(a: GridVec, b: GridVec) -> int {
    (a.x - b.x) * (a.x - b.x) + (a.y - b.y) * (a.y - b.y)
}

/// Dot product.
pub open spec fn dot_spec(a: GridVec, b: GridVec) -> int {
    a.x * b.x + a.y * b.y
}

/// Two-dimensional cross (perp-dot) product.
pub open spec fn cross_spec(a: GridVec, b: GridVec) -> int {
    a.x * b.y - a.y * b.x
}

/// Whether the component-wise sum stays inside the coordinate range.
pub open spec fn add_fits(a: GridVec, b: GridVec) -> bool {
    fits_coord(a.x + b.x) && fits_coord(a.y + b.y)
}

/// Whether the component-wise difference stays inside the coordinate range.
pub open spec fn sub_fits(a: GridVec, b: GridVec) -> bool {
    fits_coord(a.x - b.x) && fits_coord(a.y - b.y)
}

/// Whether the negation stays inside the coordinate range.
pub open spec fn neg_fits(a: GridVec) -> bool {
    a.x != i32::MIN && a.y != i32::MIN
}

/// Whether the scalar multiple stays inside the coordinate range.
pub open spec fn mul_fits(a: GridVec, k: int) -> bool {
    fits_coord(a.x * k) && fits_coord(a.y * k)
}

/// Component-wise sum.
pub open spec fn add_spec(a: GridVec, b: GridVec) -> GridVec {
    gv(a.x + b.x, a.y + b.y)
}

/// Component-wise difference.
pub open spec fn sub_spec(a: GridVec, b: GridVec) -> GridVec {
    gv(a.x - b.x, a.y - b.y)
}

/// Negation.
pub open spec fn neg_spec(a: GridVec) -> GridVec {
    gv(-a.x, -a.y)
}

/// Scalar multiple.
pub open spec fn mul_spec(a: GridVec, k: int) -> GridVec {
    gv(a.x * k, a.y * k)
}

/// Component-wise sign: the single king move that best follows `a`.
pub open spec fn king_step_spec(a: GridVec) -> GridVec {
    gv(sign_int(a.x as int), sign_int(a.y as int))
}

/// Quarter turn clockwise: (x, y) -> (y, -x).
pub open spec fn rot_cw(a: GridVec) -> GridVec {
    gv(a.y as int, -a.x)
}

/// Quarter turn counter-clockwise: (x, y) -> (-y, x).
pub open spec fn rot_ccw(a: GridVec) -> GridVec {
    gv(-a.y, a.x as int)
}

/// The eight unit directions, clockwise from north.
pub open spec fn dir8(i: int) -> GridVec {
    if i == 0 { gv(0, 1) }
    else if i == 1 { gv(1, 1) }
    else if i == 2 { gv(1, 0) }
    else if i == 3 { gv(1, -1) }
    else if i == 4 { gv(0, -1) }
    else if i == 5 { gv(-1, -1) }
    else if i == 6 { gv(-1, 0) }
    else { gv(-1, 1) }
}

/// The four cardinal directions, clockwise from north.
pub open spec fn dir4(i: int) -> GridVec {
    dir8(2 * i)
}

/// Whether `d` is one of the eight unit king moves.
pub open spec fn is_king_dir(d: GridVec) -> bool {
    -1 <= d.x <= 1 && -1 <= d.y <= 1 && !(d.x == 0 && d.y == 0)
}

/// The index of a king move in the clockwise direction list, or 8 when
/// `d` is not a king move.
pub open spec fn dir8_index(d: GridVec) -> int {
    if d == dir8(0) { 0 }
    else if d == dir8(1) { 1 }
    else if d == dir8(2) { 2 }
    else if d == dir8(3) { 3 }
    else if d == dir8(4) { 4 }
    else if d == dir8(5) { 5 }
    else if d == dir8(6) { 6 }
    else if d == dir8(7) { 7 }
    else { 8 }
}

/// The direction 45 degrees clockwise of the king step of `a`; north when
/// `a` is the zero vector.
pub open spec fn rot45_spec(a: GridVec) -> GridVec {
    let i = dir8_index(king_step_spec(a));
    if i < 8 { dir8((i + 1) % 8) } else { dir8(0) }
}

/// Whether `p` lies in the bounding box of the segment from `a` to `b`.
pub open spec fn on_segment(a: GridVec, b: GridVec, p: GridVec) -> bool {
    &&& (if a.x <= b.x { a.x <= p.x <= b.x } else { b.x <= p.x <= a.x })
    &&& (if a.y <= b.y { a.y <= p.y <= b.y } else { b.y <= p.y <= a.y })
}

/// Whether `q` follows `p` on the Bresenham line from `a` to `b`: one king
/// move towards `b`, advancing one unit along the major axis.
pub open spec fn line_step(a: GridVec, b: GridVec, p: GridVec, q: GridVec) -> bool {
    let sx: int = if a.x < b.x { 1 } else { -1 };
    let sy: int = if a.y < b.y { 1 } else { -1 };
    let dx = abs_int(b.x - a.x);
    let dy = abs_int(b.y - a.y);
    &&& (q.x - p.x == 0 || q.x - p.x == sx)
    &&& (q.y - p.y == 0 || q.y - p.y == sy)
    &&& (dx >= dy ==> q.x - p.x == sx)
    &&& (dx < dy ==> q.y - p.y == sy)
}

impl GridVec {
    /// The additive identity element: (0, 0).
    pub fn zero() -> (r: GridVec)
        ensures
            r == gv(0, 0),
    {
        GridVec { x: 0, y: 0 }
    }

    /// Unit vector pointing north: (0, 1).
    pub fn north() -> (r: GridVec)
        ensures
            r == dir8(0),
    {
        GridVec { x: 0, y: 1 }
    }

    /// Unit vector pointing north-east: (1, 1).
    pub fn northeast() -> (r: GridVec)
        ensures
            r == dir8(1),
    {
        GridVec { x: 1, y: 1 }
    }

    /// Unit vector pointing east: (1, 0).
    pub fn east() -> (r: GridVec)
        ensures
            r == dir8(2),
    {
        GridVec { x: 1, y: 0 }
    }

    /// Unit vector pointing south-east: (1, -1).
    pub fn southeast() -> (r: GridVec)
        ensures
            r == dir8(3),
    {
        GridVec { x: 1, y: -1 }
    }

    /// Unit vector pointing south: (0, -1).
    pub fn south() -> (r: GridVec)
        ensures
            r == dir8(4),
    {
        GridVec { x: 0, y: -1 }
    }

    /// Unit vector pointing south-west: (-1, -1).
    pub fn southwest() -> (r: GridVec)
        ensures
            r == dir8(5),
    {
        GridVec { x: -1, y: -1 }
    }

    /// Unit vector pointing west: (-1, 0).
    pub fn west() -> (r: GridVec)
        ensures
            r == dir8(6),
    {
        GridVec { x: -1, y: 0 }
    }

    /// Unit vector pointing north-west: (-1, 1).
    pub fn northwest() -> (r: GridVec)
        ensures
            r == dir8(7),
    {
        GridVec { x: -1, y: 1 }
    }

    /// All eight unit directions (Moore neighbourhood), clockwise from north.
    pub fn directions_8() -> (r: [GridVec; 8])
        ensures
            forall|i: int| 0 <= i < 8 ==> #[trigger] r@[i] == dir8(i),
    {
        [
            GridVec::north(),
            GridVec::northeast(),
            GridVec::east(),
            GridVec::southeast(),
            GridVec::south(),
            GridVec::southwest(),
            GridVec::west(),
            GridVec::northwest(),
        ]
    }

    /// The four cardinal directions (Von Neumann neighbourhood), clockwise
    /// from north.
    pub fn directions_4() -> (r: [GridVec; 4])
        ensures
            forall|i: int| 0 <= i < 4 ==> #[trigger] r@[i] == dir4(i),
    {
        [GridVec::north(), GridVec::east(), GridVec::south(), GridVec::west()]
    }

    /// Construct a new `GridVec`.
    pub fn new(x: CoordinateUnit, y: CoordinateUnit) -> (r: GridVec)
        ensures
            r.x == x,
            r.y == y,
    {
        GridVec { x, y }
    }

    /// Manhattan distance (L1 norm): |dx| + |dy|.
    pub fn manhattan_distance(self, other: GridVec) -> (r: CoordinateUnit)
        requires
            abs_int(self.x - other.x) + abs_int(self.y - other.y) <= i32::MAX,
        ensures
            r == manhattan(self, other),
    {
        let dx = abs_i32(self.x as i64 - other.x as i64);
        let dy = abs_i32(self.y as i64 - other.y as i64);
        dx + dy
    }

    /// Chebyshev distance (L-infinity norm): max(|dx|, |dy|).
    pub fn chebyshev_distance(self, other: GridVec) -> (r: CoordinateUnit)
        requires
            abs_int(self.x - other.x) <= i32::MAX,
            abs_int(self.y - other.y) <= i32::MAX,
        ensures
            r == chebyshev(self, other),
    {
        let dx = abs_i32(self.x as i64 - other.x as i64);
        let dy = abs_i32(self.y as i64 - other.y as i64);
        if dx >= dy { dx } else { dy }
    }

    /// Squared Euclidean distance: dx^2 + dy^2.
    pub fn distance_squared(self, other: GridVec) -> (r: CoordinateUnit)
        requires
            dist_sq(self, other) <= i32::MAX,
        ensures
            r == dist_sq(self, other),
    {
        let dx: i64 = self.x as i64 - other.x as i64;
        let dy: i64 = self.y as i64 - other.y as i64;
        proof {
            sum_of_squares_bounds(dx as int, dy as int, i32::MAX as int);
        }
        let s = dx * dx + dy * dy;
        s as i32
    }

    /// Squared length of this vector: x^2 + y^2.
    pub fn norm_squared(self) -> (r: CoordinateUnit)
        requires
            self.x * self.x + self.y * self.y <= i32::MAX,
        ensures
            r == self.x * self.x + self.y * self.y,
    {
        let x: i64 = self.x as i64;
        let y: i64 = self.y as i64;
        proof {
            sum_of_squares_bounds(x as int, y as int, i32::MAX as int);
        }
        let s = x * x + y * y;
        s as i32
    }

    /// Returns `true` if this vector is the zero (identity) element.
    pub fn is_zero(self) -> (r: bool)
        ensures
            r == (self == gv(0, 0)),
    {
        self.x == 0 && self.y == 0
    }

    /// Dot product: ax*bx + ay*by.
    pub fn dot(self, other: GridVec) -> (r: CoordinateUnit)
        requires
            fits_coord(self.x * other.x),
            fits_coord(self.y * other.y),
            fits_coord(dot_spec(self, other)),
        ensures
            r == dot_spec(self, other),
    {
        let a = self.x * other.x;
        let b = self.y * other.y;
        a + b
    }

    /// 2D cross product: ax*by - ay*bx (signed parallelogram area).
    pub fn cross(self, other: GridVec) -> (r: CoordinateUnit)
        requires
            fits_coord(self.x * other.y),
            fits_coord(self.y * other.x),
            fits_coord(cross_spec(self, other)),
        ensures
            r == cross_spec(self, other),
    {
        let a = self.x * other.y;
        let b = self.y * other.x;
        a - b
    }

    /// Normalizes to a unit king-move step: each component is its sign.
    pub fn king_step(self) -> (r: GridVec)
        ensures
            r == king_step_spec(self),
    {
        GridVec { x: signum_i32(self.x), y: signum_i32(self.y) }
    }

    /// 90 degree clockwise rotation: (x, y) -> (y, -x).
    pub fn rotate_90_cw(self) -> (r: GridVec)
        requires
            self.x != i32::MIN,
        ensures
            r == rot_cw(self),
    {
        GridVec { x: self.y, y: -self.x }
    }

    /// 90 degree counter-clockwise rotation: (x, y) -> (-y, x).
    pub fn rotate_90_ccw(self) -> (r: GridVec)
        requires
            self.y != i32::MIN,
        ensures
            r == rot_ccw(self),
    {
        GridVec { x: -self.y, y: self.x }
    }

    /// The next direction clockwise (by 45 degrees) after the king step of
    /// this vector; north for the zero vector.
    pub fn rotate_45_cw(self) -> (r: GridVec)
        ensures
            r == rot45_spec(self),
            is_king_dir(r),
    {
        let n = self.king_step();
        let dirs = GridVec::directions_8();
        let mut i: usize = 0;
        while i < 8
            invariant
                0 <= i <= 8,
                n == king_step_spec(self),
                forall|j: int| 0 <= j < 8 ==> #[trigger] dirs@[j] == dir8(j),
                forall|j: int| 0 <= j < i ==> dir8(j) != n,
            decreases 8 - i,
        {
            if dirs[i] == n {
                let next = if i == 7 { 0 } else { i + 1 };
                proof {
                    assert(dir8_index(n) == i as int);
                }
                return dirs[next];
            }
            i = i + 1;
        }
        proof {
            assert(dir8_index(n) == 8);
        }
        dirs[0]
    }

    /// Bresenham line from `self` to `other`, inclusive of both endpoints.
    ///
    /// The result starts at `self`, ends at `other`, has one point per unit
    /// of the major axis (`max(|dx|, |dy|) + 1` points), every step is a
    /// single king move that advances exactly one unit along the major
    /// axis towards `other`, and every point stays within one cell of the
    /// ideal segment measured along the minor axis.
    ///
    /// The points are those of `line_points`: the line is always traced
    /// from the endpoint that comes first (by x, then y) and reversed when
    /// `self` is the other one, so both directions cover the same points.
    pub fn bresenham_line(self, other: GridVec) -> (r: Vec<GridVec>)
        requires
            abs_int(other.x - self.x) <= i32::MAX,
            abs_int(other.y - self.y) <= i32::MAX,
        ensures
            r@.len() == max_int(abs_int(other.x - self.x), abs_int(other.y - self.y)) + 1,
            r@[0] == self,
            r@.last() == other,
            forall|i: int| 0 <= i < r@.len() ==> #[trigger] on_segment(self, other, r@[i]),
            forall|i: int| 0 <= i < r@.len() - 1 ==> #[trigger] line_step(self, other, r@[i], r@[i + 1]),
            r@ == line_points(self, other),
    {
        if self.x < other.x || (self.x == other.x && self.y <= other.y) {
            GridVec::bresenham_forward_impl(self, other)
        } else {
            let f = GridVec::bresenham_forward_impl(other, self);
            let n = f.len();
            let mut r: Vec<GridVec> = Vec::new();
            let mut i: usize = 0;
            while i < n
                invariant
                    n == f@.len(),
                    n >= 1,
                    i <= n,
                    r@ == f@.reverse().take(i as int),
                decreases n - i,
            {
                r.push(f[n - 1 - i]);
                proof {
                    assert(f@.reverse().take(i + 1) =~= f@.reverse().take(i as int).push(f@[n - 1 - i]));
                }
                i = i + 1;
            }
            proof {
                assert(f@.reverse().take(n as int) =~= f@.reverse());
                lemma_reverse_line(other, self, f@);
            }
            r
        }
    }
}

/// Whether `a` comes first among the two endpoints (by x, then y): the
/// endpoint a line is traced from.
pub open spec fn traced_first(a: GridVec, b: GridVec) -> bool {
    a.x < b.x || (a.x == b.x && a.y <= b.y)
}

/// The Bresenham state (x, y, error) after `n` steps from `a` towards `b`.
pub open spec fn bres_state(a: GridVec, b: GridVec, n: int) -> (int, int, int)
    decreases n,
{
    let dx = abs_int(b.x - a.x);
    let dy = abs_int(b.y - a.y);
    if n <= 0 {
        (a.x as int, a.y as int, dx - dy)
    } else {
        let st = bres_state(a, b, n - 1);
        let sx: int = if a.x < b.x { 1 } else { -1 };
        let sy: int = if a.y < b.y { 1 } else { -1 };
        let e2 = 2 * st.2;
        let x1 = if e2 > -dy { st.0 + sx } else { st.0 };
        let e1 = if e2 > -dy { st.2 - dy } else { st.2 };
        let y1 = if e2 < dx { st.1 + sy } else { st.1 };
        let e3 = if e2 < dx { e1 + dx } else { e1 };
        (x1, y1, e3)
    }
}

/// The points of the Bresenham line traced from `a` to `b`.
pub open spec fn bres_points(a: GridVec, b: GridVec) -> Seq<GridVec> {
    Seq::new(
        (max_int(abs_int(b.x - a.x), abs_int(b.y - a.y)) + 1) as nat,
        |i: int| gv(bres_state(a, b, i).0, bres_state(a, b, i).1),
    )
}

/// The points of the line from `a` to `b`: traced from the endpoint that
/// comes first, in order from `a`.
pub open spec fn line_points(a: GridVec, b: GridVec) -> Seq<GridVec> {
    if traced_first(a, b) {
        bres_points(a, b)
    } else {
        bres_points(b, a).reverse()
    }
}

/// Both directions of a line cover the same points, in reverse order.
pub proof fn law_line_symmetric(a: GridVec, b: GridVec)
    ensures
        line_points(b, a) == line_points(a, b).reverse(),
{
    if traced_first(a, b) && traced_first(b, a) {
        assert(a == b);
        assert(bres_points(a, b).reverse() =~= bres_points(a, b));
    } else if traced_first(a, b) {
        assert(bres_points(a, b).reverse() == line_points(b, a));
    } else {
        assert(bres_points(b, a).reverse().reverse() =~= bres_points(b, a));
    }
}

/// A line traced from `b` to `a`, reversed, is a line from `a` to `b`.
proof fn lemma_reverse_line(b: GridVec, a: GridVec, f: Seq<GridVec>)
    requires
        f.len() >= 1,
        f[0] == b,
        f.last() == a,
        forall|i: int| 0 <= i < f.len() ==> #[trigger] on_segment(b, a, f[i]),
        forall|i: int| 0 <= i < f.len() - 1 ==> #[trigger] line_step(b, a, f[i], f[i + 1]),
    ensures
        f.reverse()[0] == a,
        f.reverse().last() == b,
        forall|i: int| 0 <= i < f.len() ==> #[trigger] on_segment(a, b, f.reverse()[i]),
        forall|i: int| 0 <= i < f.len() - 1 ==> #[trigger] line_step(a, b, f.reverse()[i], f.reverse()[i + 1]),
{
    let r = f.reverse();
    let n = f.len();
    assert forall|i: int| 0 <= i < n implies #[trigger] on_segment(a, b, r[i]) by {
        assert(r[i] == f[n - 1 - i]);
        assert(on_segment(b, a, f[n - 1 - i]));
    }
    assert forall|i: int| 0 <= i < n - 1 implies #[trigger] line_step(a, b, r[i], r[i + 1]) by {
        let j = n - 2 - i;
        assert(r[i] == f[j + 1]);
        assert(r[i + 1] == f[j]);
        assert(line_step(b, a, f[j], f[j + 1]));
        assert(on_segment(b, a, f[j]));
        assert(on_segment(b, a, f[j + 1]));
    }
}

impl GridVec {
    /// Bresenham line traced from `a` to `b`.
    fn bresenham_forward_impl(a: GridVec, b: GridVec) -> (r: Vec<GridVec>)
        requires
            abs_int(b.x - a.x) <= i32::MAX,
            abs_int(b.y - a.y) <= i32::MAX,
        ensures
            r@.len() == max_int(abs_int(b.x - a.x), abs_int(b.y - a.y)) + 1,
            r@[0] == a,
            r@.last() == b,
            forall|i: int| 0 <= i < r@.len() ==> #[trigger] on_segment(a, b, r@[i]),
            forall|i: int| 0 <= i < r@.len() - 1 ==> #[trigger] line_step(a, b, r@[i], r@[i + 1]),
            r@ == bres_points(a, b),
    {
        let dx: i64 = abs_i64(b.x as i64 - a.x as i64);
        let dy: i64 = abs_i64(b.y as i64 - a.y as i64);
        let sx: i64 = if a.x < b.x { 1 } else { -1 };
        let sy: i64 = if a.y < b.y { 1 } else { -1 };
        let mut err: i64 = dx - dy;
        let mut cx: i64 = a.x as i64;
        let mut cy: i64 = a.y as i64;
        let ghost mut px: int = 0;
        let ghost mut py: int = 0;
        let ghost mut l: int = 0;
        let ghost x_major: bool = dx >= dy;
        let mut points: Vec<GridVec> = Vec::new();
        points.push(GridVec { x: a.x, y: a.y });
        proof {
            assert(on_segment(a, b, points@[0]));
        }
        while cx != b.x as i64 || cy != b.y as i64
            invariant
                dx == abs_int(b.x - a.x),
                dy == abs_int(b.y - a.y),
                dx <= i32::MAX,
                dy <= i32::MAX,
                sx == (if a.x < b.x { 1int } else { -1int }),
                sy == (if a.y < b.y { 1int } else { -1int }),
                x_major == (dx >= dy),
                0 <= px <= dx,
                0 <= py <= dy,
                cx == a.x + (if a.x < b.x { px } else { -px }),
                cy == a.y + (if a.y < b.y { py } else { -py }),
                l == dy * px - dx * py,
                err == dx - dy - l,
                x_major ==> (-dx < 2 * l < 2 * dx - dy || (dx == 0 && dy == 0)),
                x_major ==> points@.len() == px + 1,
                !x_major ==> -dy <= 2 * l < dy,
                !x_major ==> points@.len() == py + 1,
                points@.len() >= 1,
                points@[0] == a,
                points@.last() == gv(cx as int, cy as int),
                forall|i: int| 0 <= i < points@.len() ==> #[trigger] on_segment(a, b, points@[i]),
                forall|i: int| 0 <= i < points@.len() - 1 ==> #[trigger] line_step(a, b, points@[i], points@[i + 1]),
                bres_state(a, b, points@.len() - 1) == (cx as int, cy as int, err as int),
                forall|i: int| 0 <= i < points@.len() ==> #[trigger] points@[i] == gv(bres_state(a, b, i).0, bres_state(a, b, i).1),
            decreases (dx - px) + (dy - py),
        {
            proof {
                bresenham_progress(dx as int, dy as int, px, py, l, x_major);
            }
            let ghost prev = gv(cx as int, cy as int);
            proof {
                segment_point(a, b, px, py);
            }
            let e2: i64 = 2 * err;
            if e2 > -dy {
                err = err - dy;
                cx = cx + sx;
                proof {
                    lemma_mul_succ(dy as int, px);
                    px = px + 1;
                    l = l + dy;
                }
            }
            if e2 < dx {
                err = err + dx;
                cy = cy + sy;
                proof {
                    lemma_mul_succ(dx as int, py);
                    py = py + 1;
                    l = l - dx;
                }
            }
            let p = GridVec { x: cx as i32, y: cy as i32 };
            proof {
                segment_point(a, b, px, py);
            }
            proof {
                assert(bres_state(a, b, points@.len() as int) == (cx as int, cy as int, err as int));
            }
            points.push(p);
            proof {
                let n = points@.len();
                assert(points@[n - 2] == prev);
                assert(line_step(a, b, points@[n - 2], points@[n - 1]));
                assert forall|i: int| 0 <= i < points@.len() - 1 implies
                    #[trigger] line_step(a, b, points@[i], points@[i + 1]) by {
                    if i < n - 2 {
                        assert(points@[i] == old_prefix_elem(points@, i));
                    }
                }
            }
        }
        proof {
            if x_major {
                bresenham_done(dx as int, dy as int, px, py, l, true);
            } else {
                bresenham_done(dx as int, dy as int, px, py, l, false);
            }
            assert(points@ =~= bres_points(a, b));
        }
        points
    }

    /// The 4 cardinal (Von Neumann) neighbours, clockwise from north.
    pub fn cardinal_neighbors(self) -> (r: [GridVec; 4])
        requires
            i32::MIN < self.x < i32::MAX,
            i32::MIN < self.y < i32::MAX,
        ensures
            forall|i: int| 0 <= i < 4 ==> #[trigger] r@[i] == add_spec(self, dir4(i)),
    {
        let d = GridVec::directions_4();
        [self + d[0], self + d[1], self + d[2], self + d[3]]
    }

    /// All 8 (Moore) neighbours, clockwise from north.
    pub fn all_neighbors(self) -> (r: [GridVec; 8])
        requires
            i32::MIN < self.x < i32::MAX,
            i32::MIN < self.y < i32::MAX,
        ensures
            forall|i: int| 0 <= i < 8 ==> #[trigger] r@[i] == add_spec(self, dir8(i)),
    {
        let d = GridVec::directions_8();
        [
            self + d[0],
            self + d[1],
            self + d[2],
            self + d[3],
            self + d[4],
            self + d[5],
            self + d[6],
            self + d[7],
        ]
    }
}

/// |v| for a difference of two coordinates, as a coordinate.
fn abs_i32(v: i64) -> (r: i32)
    requires
        abs_int(v as int) <= i32::MAX,
    ensures
        r == abs_int(v as int),
{
    if v < 0 { (-v) as i32 } else { v as i32 }
}

/// The sign of a coordinate.
fn signum_i32(v: i32) -> (r: i32)
    ensures
        r == sign_int(v as int),
{
    if v > 0 { 1 } else if v < 0 { -1 } else { 0 }
}

/// Squares are non-negative, so each square of a bounded sum of squares
/// is bounded too.
proof fn sum_of_squares_bounds(a: int, b: int, bound: int)
    requires
        a * a + b * b <= bound,
    ensures
        0 <= a * a <= bound,
        0 <= b * b <= bound,
{
    assert(a * a >= 0) by (nonlinear_arith);
    assert(b * b >= 0) by (nonlinear_arith);
}

impl core::ops::Add for GridVec {
    type Output = GridVec;

    fn add(self, rhs: GridVec) -> (r: GridVec) {
        GridVec { x: self.x + rhs.x, y: self.y + rhs.y }
    }
}

impl vstd::std_specs::ops::AddSpecImpl for GridVec {
    open spec fn obeys_add_spec() -> bool {
        true
    }

    open spec fn add_req(self, rhs: GridVec) -> bool {
        add_fits(self, rhs)
    }

    open spec fn add_spec(self, rhs: GridVec) -> GridVec {
        add_spec(self, rhs)
    }
}

impl core::ops::Sub for GridVec {
    type Output = GridVec;

    fn sub(self, rhs: GridVec) -> (r: GridVec) {
        GridVec { x: self.x - rhs.x, y: self.y - rhs.y }
    }
}

impl vstd::std_specs::ops::SubSpecImpl for GridVec {
    open spec fn obeys_sub_spec() -> bool {
        true
    }

    open spec fn sub_req(self, rhs: GridVec) -> bool {
        sub_fits(self, rhs)
    }

    open spec fn sub_spec(self, rhs: GridVec) -> GridVec {
        sub_spec(self, rhs)
    }
}

impl core::ops::Neg for GridVec {
    type Output = GridVec;

    fn neg(self) -> (r: GridVec) {
        GridVec { x: -self.x, y: -self.y }
    }
}

impl vstd::std_specs::ops::NegSpecImpl for GridVec {
    open spec fn obeys_neg_spec() -> bool {
        true
    }

    open spec fn neg_req(self) -> bool {
        neg_fits(self)
    }

    open spec fn neg_spec(self) -> GridVec {
        neg_spec(self)
    }
}

/// Scalar multiplication: `grid_vec * scalar`.
impl core::ops::Mul<CoordinateUnit> for GridVec {
    type Output = GridVec;

    fn mul(self, scalar: CoordinateUnit) -> (r: GridVec) {
        GridVec { x: self.x * scalar, y: self.y * scalar }
    }
}

impl vstd::std_specs::ops::MulSpecImpl<CoordinateUnit> for GridVec {
    open spec fn obeys_mul_spec() -> bool {
        true
    }

    open spec fn mul_req(self, scalar: CoordinateUnit) -> bool {
        mul_fits(self, scalar as int)
    }

    open spec fn mul_spec(self, scalar: CoordinateUnit) -> GridVec {
        mul_spec(self, scalar as int)
    }
}

/// `a += b`. The trait method cannot carry a precondition, so components
/// that leave the coordinate range wrap around (two's complement).
impl core::ops::AddAssign for GridVec {
    fn add_assign(&mut self, rhs: GridVec)
        ensures
            final(self).x == vstd::wrapping::i32_specs::wrapping_add(old(self).x, rhs.x),
            final(self).y == vstd::wrapping::i32_specs::wrapping_add(old(self).y, rhs.y),
            add_fits(*old(self), rhs) ==> *final(self) == add_spec(*old(self), rhs),
    {
        self.x = self.x.wrapping_add(rhs.x);
        self.y = self.y.wrapping_add(rhs.y);
    }
}

/// `a -= b`; out-of-range components wrap around (two's complement).
impl core::ops::SubAssign for GridVec {
    fn sub_assign(&mut self, rhs: GridVec)
        ensures
            final(self).x == vstd::wrapping::i32_specs::wrapping_sub(old(self).x, rhs.x),
            final(self).y == vstd::wrapping::i32_specs::wrapping_sub(old(self).y, rhs.y),
            sub_fits(*old(self), rhs) ==> *final(self) == sub_spec(*old(self), rhs),
    {
        self.x = self.x.wrapping_sub(rhs.x);
        self.y = self.y.wrapping_sub(rhs.y);
    }
}

/// `a *= k`; out-of-range components wrap around (two's complement).
impl core::ops::MulAssign<CoordinateUnit> for GridVec {
    fn mul_assign(&mut self, scalar: CoordinateUnit)
        ensures
            final(self).x == vstd::wrapping::i32_specs::wrapping_mul(old(self).x, scalar),
            final(self).y == vstd::wrapping::i32_specs::wrapping_mul(old(self).y, scalar),
            mul_fits(*old(self), scalar as int) ==> *final(self) == mul_spec(*old(self), scalar as int),
    {
        proof {
            crop_of_fitting(old(self).x * scalar);
            crop_of_fitting(old(self).y * scalar);
        }
        self.x = self.x.wrapping_mul(scalar);
        self.y = self.y.wrapping_mul(scalar);
    }
}

/// Cropping a value that already fits leaves it unchanged.
proof fn crop_of_fitting(v: int)
    ensures
        fits_coord(v) ==> vstd::wrapping::i32_specs::signed_crop(v) == v,
{
    if fits_coord(v) {
        if v >= 0 {
            vstd::arithmetic::div_mod::lemma_small_mod(v as nat, 0x1_0000_0000nat);
        } else {
            vstd::arithmetic::div_mod::lemma_mod_add_multiples_vanish(v, 0x1_0000_0000int);
            vstd::arithmetic::div_mod::lemma_small_mod((v + 0x1_0000_0000) as nat, 0x1_0000_0000nat);
        }
    }
}

impl core::convert::From<(CoordinateUnit, CoordinateUnit)> for GridVec {
    fn from(t: (CoordinateUnit, CoordinateUnit)) -> (r: GridVec) {
        GridVec { x: t.0, y: t.1 }
    }
}

impl vstd::std_specs::convert::FromSpecImpl<(CoordinateUnit, CoordinateUnit)> for GridVec {
    open spec fn obeys_from_spec() -> bool {
        true
    }

    open spec fn from_spec(t: (CoordinateUnit, CoordinateUnit)) -> GridVec {
        GridVec { x: t.0, y: t.1 }
    }
}

impl core::convert::From<GridVec> for (CoordinateUnit, CoordinateUnit) {
    fn from(v: GridVec) -> (r: (CoordinateUnit, CoordinateUnit)) {
        (v.x, v.y)
    }
}

impl vstd::std_specs::convert::FromSpecImpl<GridVec> for (CoordinateUnit, CoordinateUnit) {
    open spec fn obeys_from_spec() -> bool {
        true
    }

    open spec fn from_spec(v: GridVec) -> (CoordinateUnit, CoordinateUnit) {
        (v.x, v.y)
    }
}

/// |v| for a difference of two coordinates.
fn abs_i64(v: i64) -> (r: i64)
    requires
        abs_int(v as int) <= i32::MAX,
    ensures
        r == abs_int(v as int),
{
    if v < 0 { -v } else { v }
}

/// Element access used to name a prefix element in proofs.
spec fn old_prefix_elem(s: Seq<GridVec>, i: int) -> GridVec {
    s[i]
}

proof fn lemma_mul_succ(a: int, b: int)
    ensures
        a * (b + 1) == a * b + a,
{
    assert(a * (b + 1) == a * b + a) by (nonlinear_arith);
}

/// A point reached after `px` steps along x and `py` along y lies on the
/// bounding box of the segment.
proof fn segment_point(a: GridVec, b: GridVec, px: int, py: int)
    requires
        0 <= px <= abs_int(b.x - a.x),
        0 <= py <= abs_int(b.y - a.y),
    ensures
        ({
            let cx = a.x + (if a.x < b.x { px } else { -px });
            let cy = a.y + (if a.y < b.y { py } else { -py });
            &&& fits_coord(cx)
            &&& fits_coord(cy)
            &&& on_segment(a, b, gv(cx, cy))
        }),
{
}

/// While the current point is not the end point, the Bresenham step keeps
/// the counters in range.
proof fn bresenham_progress(dx: int, dy: int, px: int, py: int, l: int, x_major: bool)
    requires
        0 <= dx,
        0 <= dy,
        0 <= px <= dx,
        0 <= py <= dy,
        !(px == dx && py == dy),
        l == dy * px - dx * py,
        x_major == (dx >= dy),
        x_major ==> (-dx < 2 * l < 2 * dx - dy || (dx == 0 && dy == 0)),
        !x_major ==> -dy <= 2 * l < dy,
    ensures
        x_major ==> px < dx && 2 * (dx - dy - l) > -dy,
        !x_major ==> py < dy && 2 * (dx - dy - l) < dx,
        2 * (dx - dy - l) > -dy ==> px < dx,
        2 * (dx - dy - l) < dx ==> py < dy,
        x_major ==> ({
            let l1 = if 2 * (dx - dy - l) > -dy { l + dy } else { l };
            let l2 = if 2 * (dx - dy - l) < dx { l1 - dx } else { l1 };
            -dx < 2 * l2 < 2 * dx - dy
        }),
        !x_major ==> ({
            let l1 = if 2 * (dx - dy - l) > -dy { l + dy } else { l };
            let l2 = if 2 * (dx - dy - l) < dx { l1 - dx } else { l1 };
            -dy <= 2 * l2 < dy
        }),
{
    if px == dx {
        assert(dy * dx - dx * py == dx * (dy - py)) by (nonlinear_arith);
        if dx > 0 {
            assert(dx * (dy - py) >= dx) by (nonlinear_arith)
                requires dx > 0, dy - py >= 1;
        }
    }
    if py == dy {
        assert(dy * px - dx * dy == dy * (px - dx)) by (nonlinear_arith);
        if dy > 0 {
            assert(dy * (px - dx) <= -dy) by (nonlinear_arith)
                requires dy > 0, px - dx <= -1;
        }
    }
}

/// When the loop stops, the number of points matches the major axis.
proof fn bresenham_done(dx: int, dy: int, px: int, py: int, l: int, x_major: bool)
    requires
        px == dx,
        py == dy,
        0 <= dx,
        0 <= dy,
        x_major == (dx >= dy),
    ensures
        max_int(dx, dy) == if x_major { px } else { py },
{
}

// ─── Laws of the vector algebra ───────────────────────────────────────

/// The zero vector is the additive identity: v + 0 == v == 0 + v.
pub proof fn law_additive_identity(v: GridVec)
    ensures
        add_spec(v, gv(0, 0)) == v,
        add_spec(gv(0, 0), v) == v,
{
}

/// Every vector whose negation is representable has an additive inverse:
/// v + (-v) == 0.
pub proof fn law_additive_inverse(v: GridVec)
    requires
        neg_fits(v),
    ensures
        add_fits(v, neg_spec(v)),
        add_spec(v, neg_spec(v)) == gv(0, 0),
{
}

/// Addition is commutative: a + b == b + a.
pub proof fn law_add_commutative(a: GridVec, b: GridVec)
    ensures
        add_fits(a, b) == add_fits(b, a),
        add_spec(a, b) == add_spec(b, a),
{
}

/// Addition is associative: (a + b) + c == a + (b + c), whenever every
/// intermediate sum is representable.
pub proof fn law_add_associative(a: GridVec, b: GridVec, c: GridVec)
    requires
        add_fits(a, b),
        add_fits(b, c),
        add_fits(add_spec(a, b), c),
    ensures
        add_fits(a, add_spec(b, c)),
        add_spec(add_spec(a, b), c) == add_spec(a, add_spec(b, c)),
{
}

/// Subtraction is addition of the inverse: a - b == a + (-b).
pub proof fn law_sub_is_add_neg(a: GridVec, b: GridVec)
    requires
        neg_fits(b),
        sub_fits(a, b),
    ensures
        add_fits(a, neg_spec(b)),
        sub_spec(a, b) == add_spec(a, neg_spec(b)),
{
}

/// Scaling by zero gives the zero vector.
pub proof fn law_mul_zero(v: GridVec)
    ensures
        mul_fits(v, 0),
        mul_spec(v, 0) == gv(0, 0),
{
}

/// The three distance metrics are symmetric and vanish exactly on equal
/// points.
pub proof fn law_distances_symmetric(a: GridVec, b: GridVec)
    ensures
        manhattan(a, b) == manhattan(b, a),
        chebyshev(a, b) == chebyshev(b, a),
        dist_sq(a, b) == dist_sq(b, a),
        manhattan(a, b) >= 0,
        chebyshev(a, b) >= 0,
        dist_sq(a, b) >= 0,
        (manhattan(a, b) == 0) == (a == b),
        (chebyshev(a, b) == 0) == (a == b),
{
    assert((a.x - b.x) * (a.x - b.x) == (b.x - a.x) * (b.x - a.x)) by (nonlinear_arith);
    assert((a.y - b.y) * (a.y - b.y) == (b.y - a.y) * (b.y - a.y)) by (nonlinear_arith);
    assert((a.x - b.x) * (a.x - b.x) >= 0) by (nonlinear_arith);
    assert((a.y - b.y) * (a.y - b.y) >= 0) by (nonlinear_arith);
}

/// The dot product is commutative, and the dot product of a vector with
/// itself is its squared length, which equals its squared distance from
/// the origin.
pub proof fn law_dot(a: GridVec, b: GridVec)
    ensures
        dot_spec(a, b) == dot_spec(b, a),
        dot_spec(a, a) == a.x * a.x + a.y * a.y,
        dist_sq(a, gv(0, 0)) == a.x * a.x + a.y * a.y,
{
    assert(a.x * b.x == b.x * a.x) by (nonlinear_arith);
    assert(a.y * b.y == b.y * a.y) by (nonlinear_arith);
}

/// The cross product is anti-commutative and vanishes on a vector with
/// itself.
pub proof fn law_cross(a: GridVec, b: GridVec)
    ensures
        cross_spec(a, b) == -cross_spec(b, a),
        cross_spec(a, a) == 0,
{
    assert(a.x * b.y == b.y * a.x) by (nonlinear_arith);
    assert(a.y * b.x == b.x * a.y) by (nonlinear_arith);
    assert(a.x * a.y == a.y * a.x) by (nonlinear_arith);
}

/// The king step of a king move is the move itself, the king step of zero
/// is zero, and the king step is idempotent.
pub proof fn law_king_step(v: GridVec, i: int)
    requires
        0 <= i < 8,
    ensures
        king_step_spec(dir8(i)) == dir8(i),
        king_step_spec(gv(0, 0)) == gv(0, 0),
        king_step_spec(king_step_spec(v)) == king_step_spec(v),
        king_step_spec(v) == gv(0, 0) || is_king_dir(king_step_spec(v)),
{
}

/// Quarter turns: clockwise and counter-clockwise undo each other, four
/// clockwise turns are the identity, a turn preserves the squared length,
/// and a clockwise turn maps each direction to the one two places
/// further clockwise (north -> east -> south -> west -> north).
pub proof fn law_rotations(v: GridVec, i: int)
    requires
        v.x != i32::MIN,
        v.y != i32::MIN,
        0 <= i < 8,
    ensures
        rot_ccw(rot_cw(v)) == v,
        rot_cw(rot_ccw(v)) == v,
        rot_cw(rot_cw(rot_cw(rot_cw(v)))) == v,
        dist_sq(rot_cw(v), gv(0, 0)) == dist_sq(v, gv(0, 0)),
        rot_cw(dir8(i)) == dir8((i + 2) % 8),
        rot_ccw(dir8(i)) == dir8((i + 6) % 8),
        rot_cw(gv(0, 0)) == gv(0, 0),
{
    assert((-v.x) * (-v.x) == v.x * v.x) by (nonlinear_arith);
}

/// The 45 degree rotation steps through the eight directions clockwise, so
/// eight steps return to the start and four steps reach the opposite
/// direction.
pub proof fn law_rotate_45_cycle(i: int)
    requires
        0 <= i < 8,
    ensures
        rot45_spec(dir8(i)) == dir8((i + 1) % 8),
        dir8((i + 4) % 8) == neg_spec(dir8(i)),
{
    assert(dir8_index(dir8(i)) == i);
}

/// Cardinal neighbours lie at Manhattan distance 1 and all eight
/// neighbours lie at Chebyshev distance 1.
pub proof fn law_neighbor_distances(p: GridVec, i: int, j: int)
    requires
        i32::MIN < p.x < i32::MAX,
        i32::MIN < p.y < i32::MAX,
        0 <= i < 4,
        0 <= j < 8,
    ensures
        manhattan(p, add_spec(p, dir4(i))) == 1,
        chebyshev(p, add_spec(p, dir8(j))) == 1,
        manhattan(dir4(i), gv(0, 0)) == 1,
        dir4(i).x * dir4(i).x + dir4(i).y * dir4(i).y == 1,
{
    if i == 0 {
        assert(dir4(i).x == 0 && dir4(i).y == 1);
    } else if i == 1 {
        assert(dir4(i).x == 1 && dir4(i).y == 0);
    } else if i == 2 {
        assert(dir4(i).x == 0 && dir4(i).y == -1);
    } else {
        assert(dir4(i).x == -1 && dir4(i).y == 0);
    }
}

} // verus!
