//! Town layout planning: binary space partitioning of the buildable area,
//! semantic zoning, landmark anchors and building footprint placement.
//!
//! Noise-driven choices use the exact noise fraction `hash / u32::MAX`
//! (see `noise`), so every decision is reproducible from the seed.
use vstd::prelude::*;

use crate::grid_vec::CoordinateUnit;
use crate::noise::{
    centered_offset6, fraction_below, fraction_scaled, noise2d, noise2d_spec, noise_below,
    noise_offset6, noise_scaled, NoiseSeed,
};

verus! {

/// Bound on planning inputs (map sizes, street coordinates): far beyond
/// any map, and small enough that sums of a few coordinates stay in `i32`.
pub open spec fn small(v: int) -> bool {
    -0x100_0000 <= v <= 0x100_0000
}

/// A rectangular building footprint.
#[derive(Clone, Copy, Debug, PartialEq, Eq, Structural)]
pub struct Building {
    pub x: CoordinateUnit,
    pub y: CoordinateUnit,
    pub w: CoordinateUnit,
    pub h: CoordinateUnit,
    /// 0=house, 1=saloon, 2=stable, 3=general store, 4=sheriff's office,
    /// 5=post office, 6=church, 7=bank, 8=hotel, 9=jail, 10=undertaker,
    /// 11=blacksmith.
    pub kind: u32,
}

/// A rectangle `(x, y, w, h)`.
pub type Rect = (CoordinateUnit, CoordinateUnit, CoordinateUnit, CoordinateUnit);

/// Number of distinct building types.
pub const BUILDING_TYPE_COUNT: u32 = 12;

/// Commercial zone: near the main streets.
pub const ZONE_COMMERCIAL: u32 = 0;
/// Residential zone: the outskirts.
pub const ZONE_RESIDENTIAL: u32 = 1;
/// Industrial zone: near the southern edge.
pub const ZONE_INDUSTRIAL: u32 = 2;

/// Axis-aligned overlap of two rectangles (touching edges do not overlap).
pub open spec fn overlap(ax: int, ay: int, aw: int, ah: int, bx: int, by: int, bw: int, bh: int) -> bool {
    ax < bx + bw && ax + aw > bx && ay < by + bh && ay + ah > by
}

/// Overlap of two rectangle tuples.
pub open spec fn rect_overlap(a: Rect, b: Rect) -> bool {
    overlap(a.0 as int, a.1 as int, a.2 as int, a.3 as int, b.0 as int, b.1 as int, b.2 as int, b.3 as int)
}

/// The footprint of a building.
pub open spec fn footprint(b: Building) -> Rect {
    (b.x, b.y, b.w, b.h)
}

/// Whether the rectangle's far edges are representable.
pub open spec fn rect_fits(x: int, y: int, w: int, h: int) -> bool {
    i32::MIN <= x + w <= i32::MAX && i32::MIN <= y + h <= i32::MAX
}

/// AABB overlap test between two rectangles.
pub fn rects_overlap(
    ax: CoordinateUnit,
    ay: CoordinateUnit,
    aw: CoordinateUnit,
    ah: CoordinateUnit,
    bx: CoordinateUnit,
    by: CoordinateUnit,
    bw: CoordinateUnit,
    bh: CoordinateUnit,
) -> (r: bool)
    requires
        rect_fits(ax as int, ay as int, aw as int, ah as int),
        rect_fits(bx as int, by as int, bw as int, bh as int),
    ensures
        r == overlap(ax as int, ay as int, aw as int, ah as int, bx as int, by as int, bw as int, bh as int),
{
    ax < bx + bw && ax + aw > bx && ay < by + bh && ay + ah > by
}

/// The footprint of `b` grown by a two-tile buffer on every side (room for
/// doors and entrance access).
pub open spec fn buffered(b: Building) -> (int, int, int, int) {
    (b.x - 2, b.y - 2, b.w + 4, b.h + 4)
}

/// Whether `b`'s coordinates are within the planning bound.
pub open spec fn building_small(b: Building) -> bool {
    small(b.x as int) && small(b.y as int) && small(b.w as int) && small(b.h as int)
}

/// Returns `true` if the rectangle overlaps any building footprint grown
/// by a two-tile buffer.
pub fn overlaps_any_building(
    rx: CoordinateUnit,
    ry: CoordinateUnit,
    rw: CoordinateUnit,
    rh: CoordinateUnit,
    buildings: &[Building],
) -> (r: bool)
    requires
        rect_fits(rx as int, ry as int, rw as int, rh as int),
        forall|i: int| 0 <= i < buildings@.len() ==> building_small(#[trigger] buildings@[i]),
    ensures
        r == exists|i: int| 0 <= i < buildings@.len() && {
            let e = buffered(#[trigger] buildings@[i]);
            overlap(rx as int, ry as int, rw as int, rh as int, e.0, e.1, e.2, e.3)
        },
{
    let mut i: usize = 0;
    while i < buildings.len()
        invariant
            i <= buildings@.len(),
            rect_fits(rx as int, ry as int, rw as int, rh as int),
            forall|k: int| 0 <= k < buildings@.len() ==> building_small(#[trigger] buildings@[k]),
            forall|k: int| 0 <= k < i ==> {
                let e = buffered(#[trigger] buildings@[k]);
                !overlap(rx as int, ry as int, rw as int, rh as int, e.0, e.1, e.2, e.3)
            },
        decreases buildings@.len() - i,
    {
        let b = buildings[i];
        proof {
            assert(building_small(buildings@[i as int]));
        }
        if rects_overlap(rx, ry, rw, rh, b.x - 2, b.y - 2, b.w + 4, b.h + 4) {
            return true;
        }
        i = i + 1;
    }
    false
}

/// Smallest distance from `cy` to one of the avenues, or `none` when there
/// are no avenues.
pub open spec fn min_avenue_dist(ys: Seq<i32>, cy: int, none: int) -> int
    decreases ys.len(),
{
    if ys.len() == 0 {
        none
    } else {
        let rest = min_avenue_dist(ys.drop_last(), cy, none);
        let d = if cy - ys.last() < 0 { ys.last() - cy } else { cy - ys.last() };
        if ys.len() == 1 { d } else if d < rest { d } else { rest }
    }
}

/// The zone of a point: commercial within 20 tiles of an avenue; in the
/// southern third, industrial when the noise fraction is below one half;
/// residential otherwise.
pub open spec fn zone_spec(cx: int, cy: int, height: int, ys: Seq<i32>, seed: u64) -> u32 {
    if min_avenue_dist(ys, cy, height) < 20 {
        ZONE_COMMERCIAL
    } else if cy > height * 2 / 3
        && fraction_below(noise2d_spec(cx as i32, cy as i32, vstd::wrapping::u64_specs::wrapping_add(seed, 55555)), 1, 2) {
        ZONE_INDUSTRIAL
    } else {
        ZONE_RESIDENTIAL
    }
}

/// Smallest distance from `cy` to an avenue, or `none` without avenues.
fn min_avenue_distance(avenue_ys: &[CoordinateUnit], cy: CoordinateUnit, none: CoordinateUnit) -> (r: i32)
    requires
        bounded(cy as int),
        forall|i: int| 0 <= i < avenue_ys@.len() ==> small(#[trigger] avenue_ys@[i] as int),
    ensures
        r == min_avenue_dist(avenue_ys@, cy as int, none as int),
{
    let mut dist: i32 = none;
    let mut i: usize = 0;
    while i < avenue_ys.len()
        invariant
            i <= avenue_ys@.len(),
            bounded(cy as int),
            forall|k: int| 0 <= k < avenue_ys@.len() ==> small(#[trigger] avenue_ys@[k] as int),
            dist == min_avenue_dist(avenue_ys@.take(i as int), cy as int, none as int),
        decreases avenue_ys@.len() - i,
    {
        let ay = avenue_ys[i];
        proof {
            assert(small(avenue_ys@[i as int] as int));
        }
        let d = if cy - ay < 0 { ay - cy } else { cy - ay };
        proof {
            assert(avenue_ys@.take(i as int + 1).drop_last() == avenue_ys@.take(i as int));
            assert(avenue_ys@.take(i as int + 1).last() == ay);
        }
        if i == 0 || d < dist {
            dist = d;
        }
        i = i + 1;
    }
    proof {
        assert(avenue_ys@.take(avenue_ys@.len() as int) == avenue_ys@);
    }
    dist
}

/// Assigns a semantic zone to a point by its position relative to the
/// avenues and the southern edge.
pub fn assign_zone(
    cx: CoordinateUnit,
    cy: CoordinateUnit,
    width: CoordinateUnit,
    height: CoordinateUnit,
    avenue_ys: &[CoordinateUnit],
    seed: NoiseSeed,
) -> (r: u32)
    requires
        bounded(cy as int),
        small(height as int),
        0 <= height,
        forall|i: int| 0 <= i < avenue_ys@.len() ==> small(#[trigger] avenue_ys@[i] as int),
    ensures
        r == zone_spec(cx as int, cy as int, height as int, avenue_ys@, seed),
{
    proof {
        assert(height >= 0 ==> (height * 2) / 3 == ((height * 2) as i32 / 3) as int);
    }
    let dist = min_avenue_distance(avenue_ys, cy, height);
    if dist < 20 {
        return ZONE_COMMERCIAL;
    }
    if cy > height * 2 / 3 {
        if noise_below(cx, cy, seed.wrapping_add(55555), 1, 2) {
            return ZONE_INDUSTRIAL;
        }
    }
    ZONE_RESIDENTIAL
}

/// The building kind a zone's palette gives for the noise hash `h`.
pub open spec fn zone_kind_spec(zone: u32, h: u32) -> u32 {
    if zone == ZONE_COMMERCIAL {
        if fraction_below(h, 20, 100) { 1 }
        else if fraction_below(h, 40, 100) { 3 }
        else if fraction_below(h, 55, 100) { 7 }
        else if fraction_below(h, 70, 100) { 4 }
        else if fraction_below(h, 85, 100) { 5 }
        else { 9 }
    } else if zone == ZONE_RESIDENTIAL {
        if fraction_below(h, 50, 100) { 0 }
        else if fraction_below(h, 70, 100) { 6 }
        else if fraction_below(h, 85, 100) { 8 }
        else { 5 }
    } else if zone == ZONE_INDUSTRIAL {
        if fraction_below(h, 30, 100) { 2 }
        else if fraction_below(h, 55, 100) { 11 }
        else if fraction_below(h, 75, 100) { 3 }
        else { 10 }
    } else {
        if fraction_below(h, 35, 100) { 1 }
        else if fraction_below(h, 60, 100) { 8 }
        else if fraction_below(h, 80, 100) { 0 }
        else { 1 }
    }
}

/// Whether the noise fraction of hash `h` is below `num / 100`.
fn below(h: u32, num: u64) -> (r: bool)
    requires
        num <= 100,
    ensures
        r == fraction_below(h, num as int, 100),
{
    (h as u64) * 100 < num * 0xFFFF_FFFFu64
}

/// Selects a building kind from a zone's palette, driven by the noise
/// hash `h` (commercial: saloons, stores, banks, the sheriff; residential:
/// houses, churches, hotels; industrial: stables, smithies, undertakers).
pub fn zone_building_kind(zone: u32, h: u32) -> (r: u32)
    ensures
        r == zone_kind_spec(zone, h),
        r < BUILDING_TYPE_COUNT,
{
    if zone == ZONE_COMMERCIAL {
        if below(h, 20) { 1 }
        else if below(h, 40) { 3 }
        else if below(h, 55) { 7 }
        else if below(h, 70) { 4 }
        else if below(h, 85) { 5 }
        else { 9 }
    } else if zone == ZONE_RESIDENTIAL {
        if below(h, 50) { 0 }
        else if below(h, 70) { 6 }
        else if below(h, 85) { 8 }
        else { 5 }
    } else if zone == ZONE_INDUSTRIAL {
        if below(h, 30) { 2 }
        else if below(h, 55) { 11 }
        else if below(h, 75) { 3 }
        else { 10 }
    } else {
        if below(h, 35) { 1 }
        else if below(h, 60) { 8 }
        else if below(h, 80) { 0 }
        else { 1 }
    }
}

/// Clamp of an integer to `[lo, hi]`.
pub open spec fn clamp_int(v: int, lo: int, hi: int) -> int {
    if v < lo { lo } else if v > hi { hi } else { v }
}

/// Clamp to `[lo, hi]`.
fn clamp_i32(v: i32, lo: i32, hi: i32) -> (r: i32)
    requires
        lo <= hi,
    ensures
        r == clamp_int(v as int, lo as int, hi as int),
{
    if v < lo { lo } else if v > hi { hi } else { v }
}

/// The landmark anchors: on maps of at least 60 x 40, a sheriff's office
/// near the centre, a saloon beside the first avenue (when there is one)
/// and a church toward the outskirts, each at a noise-jittered position.
pub open spec fn anchors_spec(width: int, height: int, seed: u64, ys: Seq<i32>) -> Seq<Building> {
    if width < 60 || height < 40 {
        Seq::empty()
    } else {
        let s = vstd::wrapping::u64_specs::wrapping_add(seed, 777888);
        let cx = width / 2;
        let cy = height / 2;
        let sheriff = Building {
            x: clamp_int(cx - 8 + fraction_scaled(noise2d_spec(1, 1, s), 10), 8, width - 20) as i32,
            y: clamp_int(cy - 4 + fraction_scaled(noise2d_spec(2, 2, s), 6), 8, height - 16) as i32,
            w: 12,
            h: 10,
            kind: 4,
        };
        let church = Building {
            x: clamp_int(width / 4 + fraction_scaled(noise2d_spec(5, 5, s), 15), 8, width - 16) as i32,
            y: clamp_int(height / 4 + fraction_scaled(noise2d_spec(6, 6, s), 10), 8, height - 14) as i32,
            w: 12,
            h: 10,
            kind: 6,
        };
        if ys.len() > 0 {
            let saloon = Building {
                x: clamp_int(cx + 20 + fraction_scaled(noise2d_spec(3, 3, s), 10), 8, width - 22) as i32,
                y: clamp_int(ys[0] + 6, 8, height - 14) as i32,
                w: 14,
                h: 10,
                kind: 1,
            };
            seq![sheriff, saloon, church]
        } else {
            seq![sheriff, church]
        }
    }
}

/// Pre-places the landmark anchor buildings that the partition works
/// around: a sheriff's office, a saloon on the main street and a church.
pub fn pre_place_landmark_anchors(
    width: CoordinateUnit,
    height: CoordinateUnit,
    seed: NoiseSeed,
    avenue_ys: &[CoordinateUnit],
) -> (r: Vec<Building>)
    requires
        small(width as int),
        small(height as int),
        forall|i: int| 0 <= i < avenue_ys@.len() ==> small(#[trigger] avenue_ys@[i] as int),
    ensures
        r@ == anchors_spec(width as int, height as int, seed, avenue_ys@),
{
    let mut anchors: Vec<Building> = Vec::new();
    if width < 60 || height < 40 {
        return anchors;
    }
    let anchor_seed = seed.wrapping_add(777888);
    let center_x = width / 2;
    let center_y = height / 2;

    let sx = clamp_i32(center_x - 8 + noise_scaled(1, 1, anchor_seed, 10), 8, width - 20);
    let sy = clamp_i32(center_y - 4 + noise_scaled(2, 2, anchor_seed, 6), 8, height - 16);
    anchors.push(Building { x: sx, y: sy, w: 12, h: 10, kind: 4 });

    if avenue_ys.len() > 0 {
        let first_avenue = avenue_ys[0];
        let sal_x = clamp_i32(center_x + 20 + noise_scaled(3, 3, anchor_seed, 10), 8, width - 22);
        let sal_y = clamp_i32(first_avenue + 6, 8, height - 14);
        anchors.push(Building { x: sal_x, y: sal_y, w: 14, h: 10, kind: 1 });
    }

    let cx = clamp_i32(width / 4 + noise_scaled(5, 5, anchor_seed, 15), 8, width - 16);
    let cy = clamp_i32(height / 4 + noise_scaled(6, 6, anchor_seed, 10), 8, height - 14);
    anchors.push(Building { x: cx, y: cy, w: 12, h: 10, kind: 6 });

    proof {
        let spec = anchors_spec(width as int, height as int, seed, avenue_ys@);
        assert(anchors@ =~= spec);
    }
    anchors
}

// ── Binary space partition ─────────────────────────────────────────────

/// Minimum width of a partition leaf.
pub const BSP_MIN_LEAF_W: CoordinateUnit = 14;
/// Minimum height of a partition leaf.
pub const BSP_MIN_LEAF_H: CoordinateUnit = 12;
/// Gap left between the two halves of a split (alleys and breathing room).
pub const BSP_PADDING: CoordinateUnit = 2;
/// Maximum partition depth.
pub const BSP_MAX_DEPTH: u32 = 7;

/// A node of the binary space partition: a rectangle, split into two
/// children or a leaf.
#[derive(Debug)]
pub struct BspNode {
    pub x: CoordinateUnit,
    pub y: CoordinateUnit,
    pub w: CoordinateUnit,
    pub h: CoordinateUnit,
    pub left: Option<Box<BspNode>>,
    pub right: Option<Box<BspNode>>,
}

/// Whether a rectangle has non-negative size and planning-bounded edges.
pub open spec fn rect_ok(x: int, y: int, w: int, h: int) -> bool {
    small(x) && small(y) && 0 <= w && 0 <= h && small(x + w) && small(y + h)
}

/// `|v|`.
pub open spec fn iabs(v: int) -> int {
    if v < 0 { -v } else { v }
}

/// The split coordinate after considering the streets in `ps` in order: a
/// street strictly inside `[lo, hi]` replaces the current choice when it
/// lies within the current distance to the midpoint plus 8.
pub open spec fn street_bias(ps: Seq<i32>, lo: int, hi: int, mid: int) -> int
    decreases ps.len(),
{
    if ps.len() == 0 {
        mid
    } else {
        let cur = street_bias(ps.drop_last(), lo, hi, mid);
        let p = ps.last() as int;
        if lo <= p <= hi && iabs(p - mid) < iabs(cur - mid) + 8 { p } else { cur }
    }
}

/// Wrapping seed offset.
pub open spec fn seed_plus(seed: u64, k: u64) -> u64 {
    vstd::wrapping::u64_specs::wrapping_add(seed, k)
}

/// How a node splits, if it does: the two child rectangles.
///
/// A node at depth below the maximum splits along an axis with room for
/// two minimum leaves plus padding (choosing by noise when both axes
/// qualify, favouring the longer one), at the midpoint pulled toward a
/// nearby street, jittered by noise and clamped to leave both halves at
/// least the minimum size.
pub open spec fn split_spec(
    x: int,
    y: int,
    w: int,
    h: int,
    seed: u64,
    depth: int,
    av: Seq<i32>,
    cr: Seq<i32>,
) -> Option<((int, int, int, int), (int, int, int, int))> {
    let can_h = h >= 12 * 2 + 2;
    let can_v = w >= 14 * 2 + 2;
    if depth >= 7 || (!can_h && !can_v) {
        None
    } else {
        let hs = noise2d_spec((x + depth) as i32, (y + depth) as i32, seed_plus(seed, (depth * 7919) as u64));
        let horizontal = if can_h && can_v {
            if h > w { fraction_below(hs, 7, 10) } else { fraction_below(hs, 3, 10) }
        } else {
            can_h
        };
        if horizontal {
            let lo = y + 12;
            let hi = y + h - 12 - 2;
            if lo > hi {
                None
            } else {
                let biased = street_bias(av, lo, hi, y + h / 2);
                let j = centered_offset6(noise2d_spec(x as i32, y as i32, seed_plus(seed, (33333 + depth) as u64)));
                let split = clamp_int(biased + j, lo, hi);
                let top_h = split - y;
                let bot_y = split + 2;
                let bot_h = y + h - bot_y;
                if top_h >= 12 && bot_h >= 12 {
                    Some(((x, y, w, top_h), (x, bot_y, w, bot_h)))
                } else {
                    None
                }
            }
        } else {
            let lo = x + 14;
            let hi = x + w - 14 - 2;
            if lo > hi {
                None
            } else {
                let biased = street_bias(cr, lo, hi, x + w / 2);
                let j = centered_offset6(noise2d_spec(y as i32, x as i32, seed_plus(seed, (44444 + depth) as u64)));
                let split = clamp_int(biased + j, lo, hi);
                let left_w = split - x;
                let right_x = split + 2;
                let right_w = x + w - right_x;
                if left_w >= 14 && right_w >= 14 {
                    Some(((x, y, left_w, h), (right_x, y, right_w, h)))
                } else {
                    None
                }
            }
        }
    }
}

/// The leaf rectangles of the partition of `(x, y, w, h)` started at
/// `depth`, left to right: the children of a split are partitioned with
/// the seed offset by 1 and 2 respectively, one level deeper.
pub open spec fn bsp_leaves(
    x: int,
    y: int,
    w: int,
    h: int,
    seed: u64,
    depth: int,
    av: Seq<i32>,
    cr: Seq<i32>,
) -> Seq<(int, int, int, int)>
    decreases 7 - depth,
{
    match split_spec(x, y, w, h, seed, depth, av, cr) {
        None => seq![(x, y, w, h)],
        Some((a, b)) => if depth < 7 {
            bsp_leaves(a.0, a.1, a.2, a.3, seed_plus(seed, 1), depth + 1, av, cr) + bsp_leaves(
                b.0,
                b.1,
                b.2,
                b.3,
                seed_plus(seed, 2),
                depth + 1,
                av,
                cr,
            )
        } else {
            seq![(x, y, w, h)]
        },
    }
}

/// The leaf rectangles of a tree, left to right.
pub open spec fn tree_leaves(n: BspNode) -> Seq<(int, int, int, int)>
    decreases n,
{
    if n.left.is_none() && n.right.is_none() {
        seq![(n.x as int, n.y as int, n.w as int, n.h as int)]
    } else {
        let l = match n.left {
            Some(c) => tree_leaves(*c),
            None => Seq::empty(),
        };
        let r = match n.right {
            Some(c) => tree_leaves(*c),
            None => Seq::empty(),
        };
        l + r
    }
}

/// Whether every leaf rectangle is well formed.
pub open spec fn leaves_ok(ls: Seq<(int, int, int, int)>) -> bool {
    forall|i: int| 0 <= i < ls.len() ==> rect_ok(#[trigger] ls[i].0, ls[i].1, ls[i].2, ls[i].3)
}

/// Whether every streets coordinate is within the planning bound.
pub open spec fn streets_small(ps: Seq<i32>) -> bool {
    forall|i: int| 0 <= i < ps.len() ==> small(#[trigger] ps[i] as int)
}

/// The street-biased split coordinate.
fn bias_toward_streets(ps: &[CoordinateUnit], lo: i32, hi: i32, mid: i32) -> (r: i32)
    requires
        streets_small(ps@),
        small(lo as int),
        small(hi as int),
        small(mid as int),
    ensures
        r == street_bias(ps@, lo as int, hi as int, mid as int),
        small(r as int),
{
    let mut cur = mid;
    let mut i: usize = 0;
    while i < ps.len()
        invariant
            i <= ps@.len(),
            streets_small(ps@),
            small(lo as int),
            small(hi as int),
            small(mid as int),
            cur == street_bias(ps@.take(i as int), lo as int, hi as int, mid as int),
            small(cur as int),
        decreases ps@.len() - i,
    {
        let p = ps[i];
        proof {
            assert(small(ps@[i as int] as int));
            assert(ps@.take(i as int + 1).drop_last() == ps@.take(i as int));
            assert(ps@.take(i as int + 1).last() == p);
        }
        let dp = if p - mid < 0 { mid - p } else { p - mid };
        let dc = if cur - mid < 0 { mid - cur } else { cur - mid };
        if p >= lo && p <= hi && dp < dc + 8 {
            cur = p;
        }
        i = i + 1;
    }
    proof {
        assert(ps@.take(ps@.len() as int) == ps@);
    }
    cur
}

/// The split of a node, computed.
fn compute_split(
    x: i32,
    y: i32,
    w: i32,
    h: i32,
    seed: NoiseSeed,
    depth: u32,
    avenue_ys: &[CoordinateUnit],
    cross_xs: &[CoordinateUnit],
) -> (r: Option<(Rect, Rect)>)
    requires
        rect_ok(x as int, y as int, w as int, h as int),
        depth <= 7,
        streets_small(avenue_ys@),
        streets_small(cross_xs@),
    ensures
        match r {
            None => split_spec(x as int, y as int, w as int, h as int, seed, depth as int, avenue_ys@, cross_xs@).is_none(),
            Some((a, b)) => split_spec(x as int, y as int, w as int, h as int, seed, depth as int, avenue_ys@, cross_xs@)
                == Some(((a.0 as int, a.1 as int, a.2 as int, a.3 as int), (b.0 as int, b.1 as int, b.2 as int, b.3 as int)))
                && rect_ok(a.0 as int, a.1 as int, a.2 as int, a.3 as int)
                && rect_ok(b.0 as int, b.1 as int, b.2 as int, b.3 as int),
        },
{
    if depth >= BSP_MAX_DEPTH {
        return None;
    }
    let can_split_h = h >= BSP_MIN_LEAF_H * 2 + BSP_PADDING;
    let can_split_v = w >= BSP_MIN_LEAF_W * 2 + BSP_PADDING;
    if !can_split_h && !can_split_v {
        return None;
    }
    let nx = x + depth as i32;
    let ny = y + depth as i32;
    let split_horizontal = if can_split_h && can_split_v {
        let dseed = seed.wrapping_add(depth as u64 * 7919);
        if h > w { noise_below(nx, ny, dseed, 7, 10) } else { noise_below(nx, ny, dseed, 3, 10) }
    } else {
        can_split_h
    };
    if split_horizontal {
        let min_y = y + BSP_MIN_LEAF_H;
        let max_y = y + h - BSP_MIN_LEAF_H - BSP_PADDING;
        if min_y > max_y {
            return None;
        }
        let mid_y = y + h / 2;
        let biased = bias_toward_streets(avenue_ys, min_y, max_y, mid_y);
        let jitter = noise_offset6(x, y, seed.wrapping_add(33333 + depth as u64));
        let split_y = clamp_i32(biased + jitter, min_y, max_y);
        let top_h = split_y - y;
        let bot_y = split_y + BSP_PADDING;
        let bot_h = (y + h) - bot_y;
        if top_h >= BSP_MIN_LEAF_H && bot_h >= BSP_MIN_LEAF_H {
            Some(((x, y, w, top_h), (x, bot_y, w, bot_h)))
        } else {
            None
        }
    } else {
        let min_x = x + BSP_MIN_LEAF_W;
        let max_x = x + w - BSP_MIN_LEAF_W - BSP_PADDING;
        if min_x > max_x {
            return None;
        }
        let mid_x = x + w / 2;
        let biased = bias_toward_streets(cross_xs, min_x, max_x, mid_x);
        let jitter = noise_offset6(y, x, seed.wrapping_add(44444 + depth as u64));
        let split_x = clamp_i32(biased + jitter, min_x, max_x);
        let left_w = split_x - x;
        let right_x = split_x + BSP_PADDING;
        let right_w = (x + w) - right_x;
        if left_w >= BSP_MIN_LEAF_W && right_w >= BSP_MIN_LEAF_W {
            Some(((x, y, left_w, h), (right_x, y, right_w, h)))
        } else {
            None
        }
    }
}

/// Builds the partition of a rectangle from `depth` on.
fn build_partition(
    x: i32,
    y: i32,
    w: i32,
    h: i32,
    seed: NoiseSeed,
    depth: u32,
    avenue_ys: &[CoordinateUnit],
    cross_xs: &[CoordinateUnit],
) -> (r: BspNode)
    requires
        rect_ok(x as int, y as int, w as int, h as int),
        depth <= 7,
        streets_small(avenue_ys@),
        streets_small(cross_xs@),
    ensures
        r.x == x && r.y == y && r.w == w && r.h == h,
        tree_leaves(r) == bsp_leaves(x as int, y as int, w as int, h as int, seed, depth as int, avenue_ys@, cross_xs@),
        leaves_ok(tree_leaves(r)),
    decreases 7 - depth,
{
    match compute_split(x, y, w, h, seed, depth, avenue_ys, cross_xs) {
        None => {
            let n = BspNode::new(x, y, w, h);
            proof {
                assert(tree_leaves(n) == seq![(x as int, y as int, w as int, h as int)]);
            }
            n
        },
        Some((a, b)) => {
            let left = build_partition(a.0, a.1, a.2, a.3, seed.wrapping_add(1), depth + 1, avenue_ys, cross_xs);
            let right = build_partition(b.0, b.1, b.2, b.3, seed.wrapping_add(2), depth + 1, avenue_ys, cross_xs);
            let n = BspNode { x, y, w, h, left: Some(Box::new(left)), right: Some(Box::new(right)) };
            proof {
                assert(tree_leaves(n) == tree_leaves(left) + tree_leaves(right));
            }
            n
        },
    }
}

/// Rectangle `r` lies within `outer`.
pub open spec fn rect_within(r: (int, int, int, int), outer: (int, int, int, int)) -> bool {
    outer.0 <= r.0 && r.0 + r.2 <= outer.0 + outer.2 && outer.1 <= r.1 && r.1 + r.3 <= outer.1 + outer.3
}

/// Rectangles `a` and `b` share no tile.
pub open spec fn rects_apart(a: (int, int, int, int), b: (int, int, int, int)) -> bool {
    a.0 + a.2 <= b.0 || b.0 + b.2 <= a.0 || a.1 + a.3 <= b.1 || b.1 + b.3 <= a.1
}

/// A split of a rectangle at least a leaf in size gives two halves within
/// it, apart from each other, each at least a leaf in size.
proof fn lemma_split_shape(x: int, y: int, w: int, h: int, seed: u64, depth: int, av: Seq<i32>, cr: Seq<i32>)
    requires
        w >= 14,
        h >= 12,
    ensures
        split_spec(x, y, w, h, seed, depth, av, cr) matches Some((a, b)) ==> {
            &&& rect_within(a, (x, y, w, h))
            &&& rect_within(b, (x, y, w, h))
            &&& rects_apart(a, b)
            &&& a.2 >= 14 && a.3 >= 12 && b.2 >= 14 && b.3 >= 12
        },
{
}

/// The partition laws: a rectangle at least a leaf in size (14 by 12)
/// partitioned from `depth` has between one and `2^(7 - depth)` leaves,
/// each within the rectangle and at least a leaf in size, no two of them
/// sharing a tile.
pub proof fn law_bsp_leaves(x: int, y: int, w: int, h: int, seed: u64, depth: int, av: Seq<i32>, cr: Seq<i32>)
    requires
        0 <= depth <= 7,
        w >= 14,
        h >= 12,
    ensures
        ({
            let ls = bsp_leaves(x, y, w, h, seed, depth, av, cr);
            &&& 1 <= ls.len() <= vstd::arithmetic::power2::pow2((7 - depth) as nat)
            &&& forall|i: int|
                0 <= i < ls.len() ==> rect_within(#[trigger] ls[i], (x, y, w, h)) && ls[i].2 >= 14 && ls[i].3 >= 12
            &&& forall|i: int, j: int| 0 <= i < j < ls.len() ==> rects_apart(#[trigger] ls[i], #[trigger] ls[j])
        }),
    decreases 7 - depth,
{
    let ls = bsp_leaves(x, y, w, h, seed, depth, av, cr);
    vstd::arithmetic::power2::lemma_pow2_pos((7 - depth) as nat);
    lemma_split_shape(x, y, w, h, seed, depth, av, cr);
    match split_spec(x, y, w, h, seed, depth, av, cr) {
        None => {},
        Some((a, b)) => {
            if depth < 7 {
                law_bsp_leaves(a.0, a.1, a.2, a.3, seed_plus(seed, 1), depth + 1, av, cr);
                law_bsp_leaves(b.0, b.1, b.2, b.3, seed_plus(seed, 2), depth + 1, av, cr);
                vstd::arithmetic::power2::lemma_pow2_unfold((7 - depth) as nat);
                let la = bsp_leaves(a.0, a.1, a.2, a.3, seed_plus(seed, 1), depth + 1, av, cr);
                let lb = bsp_leaves(b.0, b.1, b.2, b.3, seed_plus(seed, 2), depth + 1, av, cr);
                assert(ls == la + lb);
                assert forall|i: int| 0 <= i < ls.len() implies rect_within(#[trigger] ls[i], (x, y, w, h)) && ls[i].2
                    >= 14 && ls[i].3 >= 12 by {
                    if i < la.len() {
                        assert(ls[i] == la[i]);
                        assert(rect_within(la[i], a));
                    } else {
                        assert(ls[i] == lb[i - la.len()]);
                        assert(rect_within(lb[i - la.len()], b));
                    }
                }
                assert forall|i: int, j: int| 0 <= i < j < ls.len() implies rects_apart(#[trigger] ls[i], #[trigger] ls[j]) by {
                    if j < la.len() {
                        assert(ls[i] == la[i] && ls[j] == la[j]);
                    } else if i >= la.len() {
                        assert(ls[i] == lb[i - la.len()] && ls[j] == lb[j - la.len()]);
                    } else {
                        assert(ls[i] == la[i] && ls[j] == lb[j - la.len()]);
                        assert(rect_within(la[i], a));
                        assert(rect_within(lb[j - la.len()], b));
                    }
                }
            }
        },
    }
}

impl BspNode {
    /// A leaf node covering the given rectangle.
    pub fn new(x: CoordinateUnit, y: CoordinateUnit, w: CoordinateUnit, h: CoordinateUnit) -> (r: BspNode)
        ensures
            r.x == x && r.y == y && r.w == w && r.h == h,
            r.left.is_none() && r.right.is_none(),
    {
        BspNode { x, y, w, h, left: None, right: None }
    }

    /// Whether this node has no children.
    pub fn is_leaf(&self) -> (r: bool)
        ensures
            r == (self.left.is_none() && self.right.is_none()),
    {
        self.left.is_none() && self.right.is_none()
    }

    /// Recursively subdivides this leaf, biasing the splits toward the
    /// street network so buildings face the roads.
    pub fn subdivide(&mut self, seed: NoiseSeed, depth: u32, avenue_ys: &[CoordinateUnit], cross_xs: &[CoordinateUnit])
        requires
            old(self).left.is_none() && old(self).right.is_none(),
            rect_ok(old(self).x as int, old(self).y as int, old(self).w as int, old(self).h as int),
            depth <= 7,
            streets_small(avenue_ys@),
            streets_small(cross_xs@),
        ensures
            final(self).x == old(self).x && final(self).y == old(self).y,
            final(self).w == old(self).w && final(self).h == old(self).h,
            tree_leaves(*final(self)) == bsp_leaves(
                old(self).x as int,
                old(self).y as int,
                old(self).w as int,
                old(self).h as int,
                seed,
                depth as int,
                avenue_ys@,
                cross_xs@,
            ),
            leaves_ok(tree_leaves(*final(self))),
            (final(self).left.is_none() && final(self).right.is_none()) == split_spec(
                old(self).x as int,
                old(self).y as int,
                old(self).w as int,
                old(self).h as int,
                seed,
                depth as int,
                avenue_ys@,
                cross_xs@,
            ).is_none(),
            depth >= 7 || (old(self).h < 26 && old(self).w < 30) ==> final(self).left.is_none()
                && final(self).right.is_none(),
    {
        match compute_split(self.x, self.y, self.w, self.h, seed, depth, avenue_ys, cross_xs) {
            None => {
                proof {
                    assert(tree_leaves(*self) == seq![(self.x as int, self.y as int, self.w as int, self.h as int)]);
                }
            },
            Some((a, b)) => {
                let left = build_partition(a.0, a.1, a.2, a.3, seed.wrapping_add(1), depth + 1, avenue_ys, cross_xs);
                let right = build_partition(b.0, b.1, b.2, b.3, seed.wrapping_add(2), depth + 1, avenue_ys, cross_xs);
                self.left = Some(Box::new(left));
                self.right = Some(Box::new(right));
                proof {
                    assert(tree_leaves(*self) == tree_leaves(left) + tree_leaves(right));
                }
            },
        }
    }

    /// Appends the leaf rectangles of this tree, left to right.
    pub fn collect_leaves(&self, out: &mut Vec<Rect>)
        ensures
            final(out)@.len() == old(out)@.len() + tree_leaves(*self).len(),
            forall|i: int| 0 <= i < old(out)@.len() ==> #[trigger] final(out)@[i] == old(out)@[i],
            forall|i: int| 0 <= i < tree_leaves(*self).len() ==> {
                let l = #[trigger] tree_leaves(*self)[i];
                let o = final(out)@[old(out)@.len() + i];
                o.0 as int == l.0 && o.1 as int == l.1 && o.2 as int == l.2 && o.3 as int == l.3
            },
        decreases self,
    {
        if self.is_leaf() {
            out.push((self.x, self.y, self.w, self.h));
        } else {
            let ghost before = out@;
            let ghost ll = match &self.left { Some(c) => tree_leaves(**c), None => Seq::empty() };
            let ghost rl = match &self.right { Some(c) => tree_leaves(**c), None => Seq::empty() };
            match &self.left {
                Some(left) => left.collect_leaves(out),
                None => {},
            }
            let ghost mid = out@;
            match &self.right {
                Some(right) => right.collect_leaves(out),
                None => {},
            }
            proof {
                assert(tree_leaves(*self) == ll + rl);
                assert forall|i: int| 0 <= i < tree_leaves(*self).len() implies {
                    let l = #[trigger] tree_leaves(*self)[i];
                    let o = out@[before.len() + i];
                    o.0 as int == l.0 && o.1 as int == l.1 && o.2 as int == l.2 && o.3 as int == l.3
                } by {
                    if i < ll.len() {
                        assert(tree_leaves(*self)[i] == ll[i]);
                    } else {
                        assert(tree_leaves(*self)[i] == rl[i - ll.len()]);
                    }
                }
            }
        }
    }
}

/// Whether `s` is in non-decreasing order.
pub open spec fn sorted_coords(s: Seq<i32>) -> bool {
    forall|i: int, j: int| 0 <= i <= j < s.len() ==> s[i] <= s[j]
}

/// Sorts coordinates in non-decreasing order (insertion into a sorted
/// copy).
fn sort_coords(v: Vec<i32>) -> (r: Vec<i32>)
    ensures
        sorted_coords(r@),
        r@.to_multiset() == v@.to_multiset(),
        r@.len() == v@.len(),
        forall|i: int| 0 <= i < r@.len() ==> v@.contains(#[trigger] r@[i]),
{
    broadcast use vstd::seq_lib::to_multiset_insert, vstd::seq_lib::to_multiset_build;
    let mut out: Vec<i32> = Vec::new();
    let mut i: usize = 0;
    proof {
        assert(v@.take(0) =~= Seq::<i32>::empty());
        assert(out@.to_multiset() =~= v@.take(0).to_multiset());
    }
    while i < v.len()
        invariant
            i <= v@.len(),
            sorted_coords(out@),
            out@.to_multiset() == v@.take(i as int).to_multiset(),
            out@.len() == i,
            forall|k: int| 0 <= k < out@.len() ==> v@.contains(#[trigger] out@[k]),
        decreases v@.len() - i,
    {
        let x = v[i];
        let mut p: usize = 0;
        while p < out.len() && out[p] <= x
            invariant
                p <= out@.len(),
                forall|k: int| 0 <= k < p ==> out@[k] <= x,
            decreases out@.len() - p,
        {
            p = p + 1;
        }
        let ghost before = out@;
        out.insert(p, x);
        proof {
            assert(v@.take(i as int + 1) == v@.take(i as int).push(x));
            assert(out@ == before.insert(p as int, x));
            vstd::seq_lib::to_multiset_insert(before, p as int, x);
            vstd::seq_lib::to_multiset_build(v@.take(i as int), x);
            assert forall|a: int, b: int| 0 <= a <= b < out@.len() implies out@[a] <= out@[b] by {
                if b < p {
                } else if a > p {
                } else if a == p && b == p {
                } else if a == p {
                    assert(p < before.len() ==> before[p as int] > x);
                    assert(before[p as int] <= before[b - 1]);
                } else {
                    assert(out@[a] == before[a]);
                }
            }
            assert forall|k: int| 0 <= k < out@.len() implies v@.contains(#[trigger] out@[k]) by {
                if k < p {
                    assert(out@[k] == before[k]);
                } else if k == p {
                    assert(v@[i as int] == x);
                } else {
                    assert(out@[k] == before[k - 1]);
                }
            }
        }
        i = i + 1;
    }
    proof {
        assert(v@.take(v@.len() as int) == v@);
    }
    out
}

/// Bound on placed rectangles: eight times the input bound.
pub open spec fn bounded(v: int) -> bool {
    -0x800_0000 <= v <= 0x800_0000
}

/// Whether a rectangle's coordinates and far edges are bounded.
pub open spec fn rect_small(r: Rect) -> bool {
    bounded(r.0 as int) && bounded(r.1 as int) && bounded(r.2 as int) && bounded(r.3 as int)
        && bounded(r.0 + r.2) && bounded(r.1 + r.3)
}

/// The rectangle grown by one tile on every side.
pub open spec fn grown(r: (int, int, int, int)) -> (int, int, int, int) {
    (r.0 - 1, r.1 - 1, r.2 + 2, r.3 + 2)
}

/// Whether building `nb`'s footprint, grown by one tile on every side,
/// stays clear of rectangle `r`: the padding gap between buildings.
pub open spec fn keeps_gap(nb: Building, r: Rect) -> bool {
    let g = grown(rect_int(footprint(nb)));
    !overlap(g.0, g.1, g.2, g.3, r.0 as int, r.1 as int, r.2 as int, r.3 as int)
}

/// The invariant of the placement passes: every building's footprint is
/// among the placed rectangles, no building after the first `k` overlaps
/// an earlier one or comes within a tile of it, those buildings are at
/// least 4 x 4, every kind is a
/// valid building type and every placed rectangle is bounded.
pub open spec fn plan_ok(b: Seq<Building>, placed: Seq<Rect>, k: int) -> bool {
    &&& 0 <= k <= b.len()
    &&& forall|i: int| 0 <= i < b.len() ==> placed.contains(#[trigger] footprint(b[i]))
    &&& forall|i: int, j: int|
        0 <= i < j < b.len() && j >= k ==> !rect_overlap(#[trigger] footprint(b[i]), #[trigger] footprint(b[j]))
    &&& forall|i: int, j: int|
        0 <= i < j < b.len() && j >= k ==> #[trigger] keeps_gap(b[j], #[trigger] footprint(b[i]))
    &&& forall|i: int| k <= i < b.len() ==> (#[trigger] b[i]).w >= 4 && b[i].h >= 4
    &&& forall|i: int| 0 <= i < b.len() ==> (#[trigger] b[i]).kind < BUILDING_TYPE_COUNT
    &&& forall|m: int| 0 <= m < placed.len() ==> rect_small(#[trigger] placed[m])
}

/// The rectangle tuple as integers.
pub open spec fn rect_int(r: Rect) -> (int, int, int, int) {
    (r.0 as int, r.1 as int, r.2 as int, r.3 as int)
}

/// Adding a building whose grown footprint clears every placed rectangle
/// keeps the plan invariant.
proof fn lemma_add_building(b: Seq<Building>, placed: Seq<Rect>, k: int, nb: Building)
    requires
        plan_ok(b, placed, k),
        rect_small(footprint(nb)),
        nb.w >= 4,
        nb.h >= 4,
        nb.kind < BUILDING_TYPE_COUNT,
        forall|m: int| 0 <= m < placed.len() ==> {
            let g = grown(rect_int(footprint(nb)));
            !overlap(g.0, g.1, g.2, g.3, #[trigger] placed[m].0 as int, placed[m].1 as int, placed[m].2 as int, placed[m].3 as int)
        },
    ensures
        plan_ok(b.push(nb), placed.push(footprint(nb)), k),
{
    let b2 = b.push(nb);
    let p2 = placed.push(footprint(nb));
    assert forall|i: int| 0 <= i < b2.len() implies p2.contains(#[trigger] footprint(b2[i])) by {
        if i < b.len() {
            assert(placed.contains(footprint(b[i])));
            let m = choose|m: int| 0 <= m < placed.len() && placed[m] == footprint(b[i]);
            assert(p2[m] == footprint(b2[i]));
        } else {
            assert(p2[placed.len() as int] == footprint(b2[i]));
        }
    }
    assert forall|i: int, j: int|
        0 <= i < j < b2.len() && j >= k implies !rect_overlap(#[trigger] footprint(b2[i]), #[trigger] footprint(b2[j])) by {
        if j == b.len() {
            assert(placed.contains(footprint(b[i])));
            let m = choose|m: int| 0 <= m < placed.len() && placed[m] == footprint(b[i]);
            assert(b2[i] == b[i]);
            assert(b2[j] == nb);
        } else {
            assert(b2[i] == b[i]);
            assert(b2[j] == b[j]);
        }
    }
    assert forall|i: int, j: int|
        0 <= i < j < b2.len() && j >= k implies #[trigger] keeps_gap(b2[j], #[trigger] footprint(b2[i])) by {
        if j == b.len() {
            assert(placed.contains(footprint(b[i])));
            let m = choose|m: int| 0 <= m < placed.len() && placed[m] == footprint(b[i]);
            assert(b2[i] == b[i]);
            assert(b2[j] == nb);
        } else {
            assert(b2[i] == b[i]);
            assert(b2[j] == b[j]);
        }
    }
    assert forall|m: int| 0 <= m < p2.len() implies rect_small(#[trigger] p2[m]) by {
        if m < placed.len() {
            assert(p2[m] == placed[m]);
        }
    }
    assert forall|i: int| k <= i < b2.len() implies (#[trigger] b2[i]).w >= 4 && b2[i].h >= 4 by {
        if i < b.len() {
            assert(b2[i] == b[i]);
        }
    }
    assert forall|i: int| 0 <= i < b2.len() implies (#[trigger] b2[i]).kind < BUILDING_TYPE_COUNT by {
        if i < b.len() {
            assert(b2[i] == b[i]);
        }
    }
}

/// Reserving a bounded rectangle (a park) keeps the plan invariant.
proof fn lemma_add_reserved(b: Seq<Building>, placed: Seq<Rect>, k: int, r: Rect)
    requires
        plan_ok(b, placed, k),
        rect_small(r),
    ensures
        plan_ok(b, placed.push(r), k),
{
    let p2 = placed.push(r);
    assert forall|i: int| 0 <= i < b.len() implies p2.contains(#[trigger] footprint(b[i])) by {
        assert(placed.contains(footprint(b[i])));
        let m = choose|m: int| 0 <= m < placed.len() && placed[m] == footprint(b[i]);
        assert(p2[m] == footprint(b[i]));
    }
    assert forall|m: int| 0 <= m < p2.len() implies rect_small(#[trigger] p2[m]) by {
        if m < placed.len() {
            assert(p2[m] == placed[m]);
        }
    }
}

/// Whether the rectangle overlaps any placed rectangle.
fn overlaps_placed(x: i32, y: i32, w: i32, h: i32, placed: &Vec<Rect>) -> (r: bool)
    requires
        bounded(x as int / 2),
        bounded(y as int / 2),
        bounded(w as int / 2),
        bounded(h as int / 2),
        forall|m: int| 0 <= m < placed@.len() ==> rect_small(#[trigger] placed@[m]),
    ensures
        r == exists|m: int| 0 <= m < placed@.len() && overlap(
            x as int,
            y as int,
            w as int,
            h as int,
            #[trigger] placed@[m].0 as int,
            placed@[m].1 as int,
            placed@[m].2 as int,
            placed@[m].3 as int,
        ),
{
    let mut m: usize = 0;
    while m < placed.len()
        invariant
            m <= placed@.len(),
            bounded(x as int / 2),
            bounded(y as int / 2),
            bounded(w as int / 2),
            bounded(h as int / 2),
            forall|q: int| 0 <= q < placed@.len() ==> rect_small(#[trigger] placed@[q]),
            forall|q: int| 0 <= q < m ==> !overlap(
                x as int,
                y as int,
                w as int,
                h as int,
                #[trigger] placed@[q].0 as int,
                placed@[q].1 as int,
                placed@[q].2 as int,
                placed@[q].3 as int,
            ),
        decreases placed@.len() - m,
    {
        let p = placed[m];
        proof {
            assert(rect_small(placed@[m as int]));
        }
        if rects_overlap(x, y, w, h, p.0, p.1, p.2, p.3) {
            return true;
        }
        m = m + 1;
    }
    false
}

/// Whether the planning inputs are within bounds.
pub open spec fn plan_inputs(width: int, height: int, av: Seq<i32>, cr: Seq<i32>, ahw: int, chw: int) -> bool {
    &&& small(width)
    &&& small(height)
    &&& 0 <= width
    &&& 0 <= height
    &&& streets_small(av)
    &&& streets_small(cr)
    &&& 0 <= ahw <= 0x1000
    &&& 0 <= chw <= 0x1000
}

/// Whether a rectangle tuple is well formed.
pub open spec fn lot_ok(r: Rect) -> bool {
    rect_ok(r.0 as int, r.1 as int, r.2 as int, r.3 as int)
}

/// Whether the band `[lo, lo + len)` comes within `half + 1` of the
/// street at `p`.
pub open spec fn band_near(lo: int, len: int, p: int, half: int) -> bool {
    lo < p + half + 1 && lo + len > p - half - 1
}

/// Whether the band `[lo, lo + len)` comes within `half + 1` of one of
/// the streets.
pub open spec fn band_hits(lo: int, len: int, streets: Seq<i32>, half: int) -> bool {
    exists|i: int| 0 <= i < streets.len() && band_near(lo, len, #[trigger] streets[i] as int, half)
}

/// Whether the band `[lo, lo + len)` comes within `half + 1` of a street.
fn band_hits_street(lo: i32, len: i32, streets: &[CoordinateUnit], half: i32) -> (r: bool)
    requires
        bounded(lo as int),
        bounded(len as int),
        streets_small(streets@),
        0 <= half <= 0x1000,
    ensures
        r == band_hits(lo as int, len as int, streets@, half as int),
{
    let mut i: usize = 0;
    while i < streets.len()
        invariant
            i <= streets@.len(),
            bounded(lo as int),
            bounded(len as int),
            streets_small(streets@),
            0 <= half <= 0x1000,
            forall|j: int| 0 <= j < i ==> !band_near(lo as int, len as int, #[trigger] streets@[j] as int, half as int),
        decreases streets@.len() - i,
    {
        let p = streets[i];
        proof {
            assert(small(streets@[i as int] as int));
        }
        if lo < p + half + 1 && lo + len > p - half - 1 {
            assert(band_near(lo as int, len as int, streets@[i as int] as int, half as int));
            return true;
        }
        i = i + 1;
    }
    false
}

/// Whether the rectangle overlaps the footprint of one of the buildings.
pub open spec fn hits_buildings(bs: Seq<Building>, x: int, y: int, w: int, h: int) -> bool {
    exists|i: int| 0 <= i < bs.len() && {
        let f = #[trigger] footprint(bs[i]);
        overlap(x, y, w, h, f.0 as int, f.1 as int, f.2 as int, f.3 as int)
    }
}

/// Whether the rectangle overlaps one of the buildings.
fn overlaps_buildings(x: i32, y: i32, w: i32, h: i32, bs: &Vec<Building>) -> (r: bool)
    requires
        bounded(x as int),
        bounded(y as int),
        bounded(w as int),
        bounded(h as int),
        bounded(x + w),
        bounded(y + h),
        forall|i: int| 0 <= i < bs@.len() ==> rect_small(#[trigger] footprint(bs@[i])),
    ensures
        r == hits_buildings(bs@, x as int, y as int, w as int, h as int),
{
    let mut i: usize = 0;
    while i < bs.len()
        invariant
            i <= bs@.len(),
            bounded(x as int),
            bounded(y as int),
            bounded(w as int),
            bounded(h as int),
            bounded(x + w),
            bounded(y + h),
            forall|k: int| 0 <= k < bs@.len() ==> rect_small(#[trigger] footprint(bs@[k])),
            forall|k: int| 0 <= k < i ==> {
                let f = #[trigger] footprint(bs@[k]);
                !overlap(x as int, y as int, w as int, h as int, f.0 as int, f.1 as int, f.2 as int, f.3 as int)
            },
        decreases bs@.len() - i,
    {
        let a = bs[i];
        proof {
            assert(rect_small(footprint(bs@[i as int])));
        }
        if rects_overlap(x, y, w, h, a.x, a.y, a.w, a.h) {
            assert(footprint(bs@[i as int]) == (a.x, a.y, a.w, a.h));
            return true;
        }
        assert(footprint(bs@[i as int]) == (a.x, a.y, a.w, a.h));
        i = i + 1;
    }
    false
}

/// Where the footprint `[bx, bx + bw)` fits beside the cross streets from
/// index `i` on: left of street `i` when at least 4 tiles remain there,
/// else right of it within the leaf (from `lx`) when at least 4 tiles
/// remain, else the next street.
pub open spec fn fit_from(bx: int, bw: int, lx: int, cs: Seq<i32>, chw: int, i: int) -> Option<(i32, i32)>
    decreases cs.len() - i,
{
    if i < 0 || i >= cs.len() {
        None
    } else {
        let cx = cs[i] as int;
        let left_edge = cx - chw - 1;
        let left_w = if left_edge - bx < bw { left_edge - bx } else { bw };
        let right_x = cx + chw + 1;
        let right_w = if bx + bw - right_x < bw { bx + bw - right_x } else { bw };
        if left_edge > bx && left_w >= 4 {
            Some((bx as i32, left_w as i32))
        } else if right_x >= lx && right_x < bx + bw && right_w >= 4 {
            Some((right_x as i32, right_w as i32))
        } else {
            fit_from(bx, bw, lx, cs, chw, i + 1)
        }
    }
}

/// Shifts a footprint that straddles a cross street to one side of it:
/// left of the first street leaving at least 4 tiles, or else right of it
/// within the leaf, trying the streets in order.
fn fit_beside_cross(bx: i32, bw: i32, lx: i32, cross_xs: &[CoordinateUnit], chw: i32) -> (r: Option<(i32, i32)>)
    requires
        small(bx as int),
        small(lx as int),
        0 <= bw <= 30,
        lx <= bx,
        streets_small(cross_xs@),
        0 <= chw <= 0x1000,
    ensures
        r == fit_from(bx as int, bw as int, lx as int, cross_xs@, chw as int, 0),
        match r {
            Some((nx, nw)) => nw >= 4 && nw <= bw && lx <= nx && nx + nw <= bx + bw,
            None => true,
        },
{
    let mut i: usize = 0;
    while i < cross_xs.len()
        invariant
            i <= cross_xs@.len(),
            small(bx as int),
            small(lx as int),
            0 <= bw <= 30,
            lx <= bx,
            streets_small(cross_xs@),
            0 <= chw <= 0x1000,
            fit_from(bx as int, bw as int, lx as int, cross_xs@, chw as int, 0) == fit_from(
                bx as int,
                bw as int,
                lx as int,
                cross_xs@,
                chw as int,
                i as int,
            ),
        decreases cross_xs@.len() - i,
    {
        let cx = cross_xs[i];
        proof {
            assert(small(cross_xs@[i as int] as int));
        }
        let left_edge = cx - chw - 1;
        if left_edge > bx {
            let d = left_edge - bx;
            let left_w = if d < bw { d } else { bw };
            if left_w >= 4 {
                return Some((bx, left_w));
            }
        }
        let right_x = cx + chw + 1;
        if right_x >= lx && right_x < bx + bw {
            let d = bx + bw - right_x;
            let right_w = if d < bw { d } else { bw };
            if right_w >= 4 {
                return Some((right_x, right_w));
            }
        }
        i = i + 1;
    }
    None
}

/// The footprint offered in a leaf: inset by the padding, at most 30 x 24,
/// shifted beside the cross streets when it comes near one; `None` when
/// it is under 4 x 4 or cannot be shifted.
pub open spec fn leaf_box(leaf: Rect, cross_xs: Seq<i32>, chw: int) -> Option<Rect> {
    let (lx, ly, lw, lh) = leaf;
    let bx = lx + BSP_PADDING;
    let by = ly + BSP_PADDING;
    let bw = if lw - BSP_PADDING * 2 < 30 { lw - BSP_PADDING * 2 } else { 30 };
    let bh = if lh - BSP_PADDING * 2 < 24 { lh - BSP_PADDING * 2 } else { 24 };
    if bw < 4 || bh < 4 {
        None
    } else if band_hits(bx, bw, cross_xs, chw) {
        match fit_from(bx, bw, lx as int, cross_xs, chw, 0) {
            Some((nx, nw)) => Some((nx, by as i32, nw, bh as i32)),
            None => None,
        }
    } else {
        Some((bx as i32, by as i32, bw as i32, bh as i32))
    }
}

/// The first shrink step `s` (from `s` up to 3) at which the footprint,
/// shrunk by `2 s` in each dimension, is still at least 4 x 4 and, grown by
/// one tile, overlaps nothing placed; `None` when it falls under 4 x 4 or
/// no step is left.
pub open spec fn first_fit(placed: Seq<Rect>, r: Rect, s: int) -> Option<int>
    decreases 4 - s,
{
    if s >= 4 {
        None
    } else {
        let sw = r.2 - s * 2;
        let sh = r.3 - s * 2;
        if sw < 4 || sh < 4 {
            None
        } else if !hits_placed(placed, r.0 - 1, r.1 - 1, sw + 2, sh + 2) {
            Some(s)
        } else {
            first_fit(placed, r, s + 1)
        }
    }
}

/// The plan (buildings, placed, parks, open lots) after handling leaf
/// number `i`: nothing when the leaf comes near an avenue or overlaps an
/// anchor; an open lot when no footprint fits; a park for about a tenth of
/// the leaves (by noise at the leaf's centre); otherwise the largest
/// shrink of the footprint that keeps a one-tile gap, or an open lot.
pub open spec fn leaf_step(
    b: Seq<Building>,
    placed: Seq<Rect>,
    parks: Seq<Rect>,
    lots: Seq<Rect>,
    i: int,
    leaf: Rect,
    height: int,
    seed: u64,
    bsp_seed: u64,
    avenue_ys: Seq<i32>,
    cross_xs: Seq<i32>,
    ahw: int,
    chw: int,
    anchors: Seq<Building>,
) -> (Seq<Building>, Seq<Rect>, Seq<Rect>, Seq<Rect>) {
    let (lx, ly, lw, lh) = leaf;
    let cx = lx + lw / 2;
    let cy = ly + lh / 2;
    if band_hits(ly as int, lh as int, avenue_ys, ahw) || hits_buildings(anchors, lx as int, ly as int, lw as int, lh as int) {
        (b, placed, parks, lots)
    } else {
        match leaf_box(leaf, cross_xs, chw) {
            None => (b, placed, parks, lots.push(leaf)),
            Some(r) => if fraction_below(noise2d_spec(cx as i32, cy as i32, seed_plus(bsp_seed, 8888)), 1, 10) {
                (b, placed.push(r), parks.push(r), lots)
            } else {
                match first_fit(placed, r, 0) {
                    None => (b, placed, parks, lots.push(leaf)),
                    Some(s) => {
                        let nb = Building {
                            x: r.0,
                            y: r.1,
                            w: (r.2 - s * 2) as i32,
                            h: (r.3 - s * 2) as i32,
                            kind: kind_at(cx, cy, height, avenue_ys, seed, i as i32, (cx + cy) as i32, seed_plus(bsp_seed, 2222)),
                        };
                        (b.push(nb), placed.push(footprint(nb)), parks, lots)
                    },
                }
            },
        }
    }
}

/// Places one building (or park) in a partition leaf, the largest of up
/// to four sizes that keeps a one-tile gap to everything placed so far;
/// leaves that cannot hold one become open lots.
fn place_in_leaf(
    i: usize,
    leaf: Rect,
    width: i32,
    height: i32,
    seed: NoiseSeed,
    bsp_seed: NoiseSeed,
    avenue_ys: &[CoordinateUnit],
    cross_xs: &[CoordinateUnit],
    avenue_half_width: i32,
    cross_half_width: i32,
    anchors: &Vec<Building>,
    buildings: &mut Vec<Building>,
    placed: &mut Vec<Rect>,
    parks: &mut Vec<Rect>,
    open_lots: &mut Vec<Rect>,
    Ghost(k): Ghost<int>,
)
    requires
        plan_inputs(width as int, height as int, avenue_ys@, cross_xs@, avenue_half_width as int, cross_half_width as int),
        rect_ok(leaf.0 as int, leaf.1 as int, leaf.2 as int, leaf.3 as int),
        forall|a: int| 0 <= a < anchors@.len() ==> rect_small(#[trigger] footprint(anchors@[a])),
        plan_ok(old(buildings)@, old(placed)@, k),
        forall|m: int| 0 <= m < old(open_lots)@.len() ==> lot_ok(#[trigger] old(open_lots)@[m]),
    ensures
        plan_ok(final(buildings)@, final(placed)@, k),
        final(buildings)@.len() >= old(buildings)@.len(),
        final(buildings)@.take(old(buildings)@.len() as int) == old(buildings)@,
        forall|m: int| 0 <= m < final(open_lots)@.len() ==> lot_ok(#[trigger] final(open_lots)@[m]),
        (final(buildings)@, final(placed)@, final(parks)@, final(open_lots)@) == leaf_step(
            old(buildings)@,
            old(placed)@,
            old(parks)@,
            old(open_lots)@,
            i as int,
            leaf,
            height as int,
            seed,
            bsp_seed,
            avenue_ys@,
            cross_xs@,
            avenue_half_width as int,
            cross_half_width as int,
            anchors@,
        ),
{
    let (lx, ly, lw, lh) = leaf;
    let leaf_cx = lx + lw / 2;
    let leaf_cy = ly + lh / 2;
    proof {
        assert(old(buildings)@.take(old(buildings)@.len() as int) == old(buildings)@);
    }
    if band_hits_street(ly, lh, avenue_ys, avenue_half_width) {
        return;
    }
    if overlaps_buildings(lx, ly, lw, lh, anchors) {
        return;
    }
    let pad = BSP_PADDING;
    let bx = lx + pad;
    let by = ly + pad;
    let bw = if lw - pad * 2 < 30 { lw - pad * 2 } else { 30 };
    let bh = if lh - pad * 2 < 24 { lh - pad * 2 } else { 24 };
    if bw < 4 || bh < 4 {
        open_lots.push(leaf);
        return;
    }
    let on_cross = band_hits_street(bx, bw, cross_xs, cross_half_width);
    let (bx, bw) = if on_cross {
        match fit_beside_cross(bx, bw, lx, cross_xs, cross_half_width) {
            Some(fit) => fit,
            None => {
                open_lots.push(leaf);
                return;
            },
        }
    } else {
        (bx, bw)
    };
    if noise_below(leaf_cx, leaf_cy, bsp_seed.wrapping_add(8888), 1, 10) {
        parks.push((bx, by, bw, bh));
        proof {
            lemma_add_reserved(buildings@, placed@, k, (bx, by, bw, bh));
        }
        placed.push((bx, by, bw, bh));
        return;
    }
    let zone = assign_zone(leaf_cx, leaf_cy, width, height, avenue_ys, seed);
    let kind_hash = noise2d(i as i32, leaf_cx + leaf_cy, bsp_seed.wrapping_add(2222));
    let kind = zone_building_kind(zone, kind_hash);
    let mut shrink: i32 = 0;
    while shrink < 4
        invariant
            0 <= shrink <= 4,
            4 <= bw <= 30,
            4 <= bh <= 24,
            bounded(bx as int),
            bounded(by as int),
            bounded(bx + bw),
            bounded(by + bh),
            kind < BUILDING_TYPE_COUNT,
            plan_ok(buildings@, placed@, k),
            buildings@ == old(buildings)@,
            placed@ == old(placed)@,
            parks@ == old(parks)@,
            open_lots@ == old(open_lots)@,
            leaf_box(leaf, cross_xs@, cross_half_width as int) == Some((bx, by, bw, bh)),
            !fraction_below(noise2d_spec(leaf_cx, leaf_cy, seed_plus(bsp_seed, 8888)), 1, 10),
            kind == kind_at(
                leaf_cx as int,
                leaf_cy as int,
                height as int,
                avenue_ys@,
                seed,
                i as i32,
                (leaf_cx + leaf_cy) as i32,
                seed_plus(bsp_seed, 2222),
            ),
            first_fit(placed@, (bx, by, bw, bh), 0) == first_fit(placed@, (bx, by, bw, bh), shrink as int),
            forall|m: int| 0 <= m < open_lots@.len() ==> lot_ok(#[trigger] open_lots@[m]),
            leaf == (lx, ly, lw, lh),
            rect_ok(lx as int, ly as int, lw as int, lh as int),
            leaf_cx == lx + lw / 2,
            leaf_cy == ly + lh / 2,
            !band_hits(ly as int, lh as int, avenue_ys@, avenue_half_width as int),
            !hits_buildings(anchors@, lx as int, ly as int, lw as int, lh as int),
        ensures
            buildings@ == old(buildings)@,
            placed@ == old(placed)@,
            parks@ == old(parks)@,
            open_lots@ == old(open_lots)@,
            forall|m: int| 0 <= m < open_lots@.len() ==> lot_ok(#[trigger] open_lots@[m]),
            first_fit(placed@, (bx, by, bw, bh), 0) is None,
        decreases 4 - shrink,
    {
        let sw = bw - shrink * 2;
        let sh = bh - shrink * 2;
        if sw < 4 || sh < 4 {
            assert(first_fit(placed@, (bx, by, bw, bh), shrink as int) is None);
            break;
        }
        if !overlaps_placed(bx - 1, by - 1, sw + 2, sh + 2, placed) {
            let nb = Building { x: bx, y: by, w: sw, h: sh, kind };
            assert(first_fit(placed@, (bx, by, bw, bh), shrink as int) == Some(shrink as int));
            assert(footprint(nb) == (bx, by, sw, sh));
            proof {
                lemma_add_building(buildings@, placed@, k, nb);
                assert(buildings@.push(nb).take(buildings@.len() as int) == buildings@);
            }
            placed.push((bx, by, sw, sh));
            buildings.push(nb);
            proof {
                let ghost lcx = leaf.0 + leaf.2 / 2;
                let ghost lcy = leaf.1 + leaf.3 / 2;
                assert(lcx == leaf_cx);
                assert(lcy == leaf_cy);
                assert(nb == Building {
                    x: bx,
                    y: by,
                    w: (bw - shrink * 2) as i32,
                    h: (bh - shrink * 2) as i32,
                    kind: kind_at(lcx, lcy, height as int, avenue_ys@, seed, i as i32, (lcx + lcy) as i32, seed_plus(bsp_seed, 2222)),
                });
                assert(!band_hits(ly as int, lh as int, avenue_ys@, avenue_half_width as int));
                assert(!hits_buildings(anchors@, lx as int, ly as int, lw as int, lh as int));
            }
            return;
        }
        shrink = shrink + 1;
    }
    open_lots.push(leaf);
}

/// Whether the rectangle overlaps one of the placed rectangles.
pub open spec fn hits_placed(placed: Seq<Rect>, x: int, y: int, w: int, h: int) -> bool {
    exists|m: int| 0 <= m < placed.len() && overlap(
        x,
        y,
        w,
        h,
        #[trigger] placed[m].0 as int,
        placed[m].1 as int,
        placed[m].2 as int,
        placed[m].3 as int,
    )
}

/// The plan (buildings, placed rectangles) after offering building `nb`:
/// it is added, and its footprint reserved, when it is at least 4 x 4 and
/// its footprint grown by one tile overlaps nothing placed so far.
pub open spec fn place_step(b: Seq<Building>, placed: Seq<Rect>, nb: Building) -> (Seq<Building>, Seq<Rect>) {
    if nb.w >= 4 && nb.h >= 4 && !hits_placed(placed, nb.x - 1, nb.y - 1, nb.w + 2, nb.h + 2) {
        (b.push(nb), placed.push(footprint(nb)))
    } else {
        (b, placed)
    }
}

/// The kind of a building whose zone is taken at `(cx, cy)` and whose
/// pick within the zone comes from the noise at `(hx, hy)` under `hseed`.
pub open spec fn kind_at(cx: int, cy: int, height: int, ys: Seq<i32>, seed: u64, hx: i32, hy: i32, hseed: u64) -> u32 {
    zone_kind_spec(zone_spec(cx, cy, height, ys, seed), noise2d_spec(hx, hy, hseed))
}

/// Places a building at `(bx, by, bw, bh)` if it is at least 4 x 4 and
/// keeps a one-tile gap to everything placed; its kind comes from the zone
/// at `(cx, cy)` and the noise at `(hx, hy)` under `hseed`.
fn try_place(
    bx: i32,
    by: i32,
    bw: i32,
    bh: i32,
    cx: i32,
    cy: i32,
    hx: i32,
    hy: i32,
    hseed: NoiseSeed,
    width: i32,
    height: i32,
    seed: NoiseSeed,
    avenue_ys: &[CoordinateUnit],
    buildings: &mut Vec<Building>,
    placed: &mut Vec<Rect>,
    Ghost(k): Ghost<int>,
)
    requires
        small(height as int),
        0 <= height,
        streets_small(avenue_ys@),
        bounded(cy as int),
        bounded(bx as int),
        bounded(by as int),
        bounded(bw as int),
        bounded(bh as int),
        bounded(bx + bw),
        bounded(by + bh),
        plan_ok(old(buildings)@, old(placed)@, k),
    ensures
        plan_ok(final(buildings)@, final(placed)@, k),
        final(buildings)@.len() >= old(buildings)@.len(),
        final(buildings)@.take(old(buildings)@.len() as int) == old(buildings)@,
        (final(buildings)@, final(placed)@) == place_step(
            old(buildings)@,
            old(placed)@,
            Building {
                x: bx,
                y: by,
                w: bw,
                h: bh,
                kind: kind_at(cx as int, cy as int, height as int, avenue_ys@, seed, hx, hy, hseed),
            },
        ),
{
    proof {
        assert(old(buildings)@.take(old(buildings)@.len() as int) == old(buildings)@);
    }
    if bw < 4 || bh < 4 {
        return;
    }
    if overlaps_placed(bx - 1, by - 1, bw + 2, bh + 2, placed) {
        return;
    }
    let zone = assign_zone(cx, cy, width, height, avenue_ys, seed);
    let kind = zone_building_kind(zone, noise2d(hx, hy, hseed));
    let nb = Building { x: bx, y: by, w: bw, h: bh, kind };
    proof {
        lemma_add_building(buildings@, placed@, k, nb);
        assert(buildings@.push(nb).take(buildings@.len() as int) == buildings@);
    }
    placed.push((bx, by, bw, bh));
    buildings.push(nb);
}

/// The two halves of a leaf split across its longer side (the width
/// when it is strictly longer), one tile apart on each side of the
/// midpoint, when that side is at least 12 tiles.
pub open spec fn split_halves(leaf: Rect) -> Option<(Rect, Rect)> {
    let (lx, ly, lw, lh) = leaf;
    if lw > lh && lw >= 12 {
        let half = lw / 2;
        Some(((lx, ly, (half - 1) as i32, lh), ((lx + half + 1) as i32, ly, (lw - half - 1) as i32, lh)))
    } else if lh >= 12 {
        let half = lh / 2;
        Some(((lx, ly, lw, (half - 1) as i32), (lx, (ly + half + 1) as i32, lw, (lh - half - 1) as i32)))
    } else {
        None
    }
}

/// The building offered for half `si` of a split leaf: inset by the
/// padding, at most 30 x 24, its kind taken at the half's centre.
pub open spec fn half_building(half: Rect, si: int, height: int, ys: Seq<i32>, seed: u64, bsp_seed: u64) -> Building {
    let (sx, sy, sw, sh) = half;
    let cx = sx + sw / 2;
    let cy = sy + sh / 2;
    Building {
        x: (sx + BSP_PADDING) as i32,
        y: (sy + BSP_PADDING) as i32,
        w: (if sw - BSP_PADDING * 2 < 30 { sw - BSP_PADDING * 2 } else { 30 }) as i32,
        h: (if sh - BSP_PADDING * 2 < 24 { sh - BSP_PADDING * 2 } else { 24 }) as i32,
        kind: kind_at(cx, cy, height, ys, seed, (si + 100) as i32, (cx + cy) as i32, seed_plus(bsp_seed, 5555)),
    }
}

/// The plan after offering a building for each half of `leaf`, when the
/// leaf overlaps nothing placed and splits.
pub open spec fn split_step(
    b: Seq<Building>,
    placed: Seq<Rect>,
    leaf: Rect,
    height: int,
    ys: Seq<i32>,
    seed: u64,
    bsp_seed: u64,
) -> (Seq<Building>, Seq<Rect>) {
    if hits_placed(placed, leaf.0 as int, leaf.1 as int, leaf.2 as int, leaf.3 as int) {
        (b, placed)
    } else {
        match split_halves(leaf) {
            None => (b, placed),
            Some((h0, h1)) => {
                let s1 = place_step(b, placed, half_building(h0, 0, height, ys, seed, bsp_seed));
                place_step(s1.0, s1.1, half_building(h1, 1, height, ys, seed, bsp_seed))
            },
        }
    }
}

/// Splits a large, still unused leaf in two along its longer axis and
/// places a building in each half.
fn split_unused_leaf(
    leaf: Rect,
    width: i32,
    height: i32,
    seed: NoiseSeed,
    bsp_seed: NoiseSeed,
    avenue_ys: &[CoordinateUnit],
    buildings: &mut Vec<Building>,
    placed: &mut Vec<Rect>,
    Ghost(k): Ghost<int>,
)
    requires
        small(height as int),
        0 <= height,
        streets_small(avenue_ys@),
        rect_ok(leaf.0 as int, leaf.1 as int, leaf.2 as int, leaf.3 as int),
        plan_ok(old(buildings)@, old(placed)@, k),
    ensures
        plan_ok(final(buildings)@, final(placed)@, k),
        final(buildings)@.len() >= old(buildings)@.len(),
        final(buildings)@.take(old(buildings)@.len() as int) == old(buildings)@,
        (final(buildings)@, final(placed)@) == split_step(
            old(buildings)@,
            old(placed)@,
            leaf,
            height as int,
            avenue_ys@,
            seed,
            bsp_seed,
        ),
{
    let (lx, ly, lw, lh) = leaf;
    let threshold: i32 = 4 * 2 + BSP_PADDING * 2;
    proof {
        assert(old(buildings)@.take(old(buildings)@.len() as int) == old(buildings)@);
    }
    if lw < threshold && lh < threshold {
        return;
    }
    if overlaps_placed(lx, ly, lw, lh, placed) {
        return;
    }
    let (a, b): (Rect, Rect) = if lw > lh && lw >= threshold {
        let half = lw / 2;
        ((lx, ly, half - 1, lh), (lx + half + 1, ly, lw - half - 1, lh))
    } else if lh >= threshold {
        let half = lh / 2;
        ((lx, ly, lw, half - 1), (lx, ly + half + 1, lw, lh - half - 1))
    } else {
        return;
    };
    assert(split_halves(leaf) == Some((a, b)));
    let ghost b0 = buildings@;
    let ghost p0 = placed@;
    let mut si: i32 = 0;
    while si < 2
        invariant
            0 <= si <= 2,
            small(height as int),
            0 <= height,
            streets_small(avenue_ys@),
            rect_ok(a.0 as int, a.1 as int, a.2 as int, a.3 as int),
            rect_ok(b.0 as int, b.1 as int, b.2 as int, b.3 as int),
            plan_ok(buildings@, placed@, k),
            buildings@.len() >= old(buildings)@.len(),
            buildings@.take(old(buildings)@.len() as int) == old(buildings)@,
            b0 == old(buildings)@,
            p0 == old(placed)@,
            (buildings@, placed@) == if si == 0 {
                (b0, p0)
            } else if si == 1 {
                place_step(b0, p0, half_building(a, 0, height as int, avenue_ys@, seed, bsp_seed))
            } else {
                let s1 = place_step(b0, p0, half_building(a, 0, height as int, avenue_ys@, seed, bsp_seed));
                place_step(s1.0, s1.1, half_building(b, 1, height as int, avenue_ys@, seed, bsp_seed))
            },
        decreases 2 - si,
    {
        let (sx, sy, sw, sh) = if si == 0 { a } else { b };
        let pad = BSP_PADDING;
        let sbw = if sw - pad * 2 < 30 { sw - pad * 2 } else { 30 };
        let sbh = if sh - pad * 2 < 24 { sh - pad * 2 } else { 24 };
        let cx = sx + sw / 2;
        let cy = sy + sh / 2;
        let ghost before = buildings@;
        try_place(
            sx + pad,
            sy + pad,
            sbw,
            sbh,
            cx,
            cy,
            si + 100,
            cx + cy,
            bsp_seed.wrapping_add(5555),
            width,
            height,
            seed,
            avenue_ys,
            buildings,
            placed,
            Ghost(k),
        );
        proof {
            assert(buildings@.take(old(buildings)@.len() as int) == before.take(old(buildings)@.len() as int));
        }
        si = si + 1;
    }
}

/// The building offered for an open lot: inset by the padding, at most
/// 20 x 16, its kind taken at the lot's centre.
pub open spec fn lot_building(lot: Rect, height: int, ys: Seq<i32>, seed: u64, bsp_seed: u64) -> Building {
    let (lx, ly, lw, lh) = lot;
    let cx = lx + lw / 2;
    let cy = ly + lh / 2;
    Building {
        x: (lx + BSP_PADDING) as i32,
        y: (ly + BSP_PADDING) as i32,
        w: (if lw - BSP_PADDING * 2 < 20 { lw - BSP_PADDING * 2 } else { 20 }) as i32,
        h: (if lh - BSP_PADDING * 2 < 16 { lh - BSP_PADDING * 2 } else { 16 }) as i32,
        kind: kind_at(cx, cy, height, ys, seed, (cx + cy) as i32, cx as i32, seed_plus(bsp_seed, 9999)),
    }
}

/// Places a modest building (at most 20 x 16) in an open lot.
fn fill_open_lot(
    lot: Rect,
    width: i32,
    height: i32,
    seed: NoiseSeed,
    bsp_seed: NoiseSeed,
    avenue_ys: &[CoordinateUnit],
    buildings: &mut Vec<Building>,
    placed: &mut Vec<Rect>,
    Ghost(k): Ghost<int>,
)
    requires
        small(height as int),
        0 <= height,
        streets_small(avenue_ys@),
        rect_ok(lot.0 as int, lot.1 as int, lot.2 as int, lot.3 as int),
        plan_ok(old(buildings)@, old(placed)@, k),
    ensures
        plan_ok(final(buildings)@, final(placed)@, k),
        final(buildings)@.len() >= old(buildings)@.len(),
        final(buildings)@.take(old(buildings)@.len() as int) == old(buildings)@,
        (final(buildings)@, final(placed)@) == place_step(
            old(buildings)@,
            old(placed)@,
            lot_building(lot, height as int, avenue_ys@, seed, bsp_seed),
        ),
{
    let (lx, ly, lw, lh) = lot;
    let pad = BSP_PADDING;
    let bw = if lw - pad * 2 < 20 { lw - pad * 2 } else { 20 };
    let bh = if lh - pad * 2 < 16 { lh - pad * 2 } else { 16 };
    let cx = lx + lw / 2;
    let cy = ly + lh / 2;
    try_place(
        lx + pad,
        ly + pad,
        bw,
        bh,
        cx,
        cy,
        cx + cy,
        cx,
        bsp_seed.wrapping_add(9999),
        width,
        height,
        seed,
        avenue_ys,
        buildings,
        placed,
        Ghost(k),
    );
}

/// Half of `v`, rounded toward zero (as integer division does).
pub open spec fn half_toward_zero(v: int) -> int {
    if v >= 0 {
        v / 2
    } else {
        -((-v) / 2)
    }
}

/// The jitter of track `c`: -1, 0 or +1 by thirds of the noise at
/// `(c, other)`.
pub open spec fn track_jitter(c: int, other: i32, seed: u64) -> int {
    let j3 = (noise2d_spec(c as i32, other, seed) as int * 3) / 0xFFFF_FFFF;
    if j3 >= 2 {
        1
    } else {
        j3 - 1
    }
}

/// The size of a track that is not the last: the even share `base`
/// jittered, but at least 5.
pub open spec fn inner_track(c: int, base: int, other: i32, seed: u64) -> int {
    let v = base + track_jitter(c, other, seed);
    if v > 5 {
        v
    } else {
        5
    }
}

/// Where track `i` of `count` over `[start, start + total)` begins.
pub open spec fn track_start(start: int, total: int, count: int, other: i32, seed: u64, i: int) -> int
    decreases i,
{
    if i <= 0 {
        start
    } else {
        track_start(start, total, count, other, seed, i - 1) + inner_track(i - 1, total / count, other, seed)
    }
}

/// The size of track `i` of `count`: the last one takes what remains.
pub open spec fn track_len(start: int, total: int, count: int, other: i32, seed: u64, i: int) -> int {
    if i == count - 1 {
        start + total - track_start(start, total, count, other, seed, i)
    } else {
        inner_track(i, total / count, other, seed)
    }
}

/// Lays `count` tracks (columns or rows) over `[start, start + total)`:
/// every track but the last is the even share jittered by -1, 0 or +1
/// (by the noise at `(index, other)`) and at least 5 tiles; the last track
/// takes what remains. Returns the track starts and sizes.
fn lay_tracks(start: i32, total: i32, count: i32, other: i32, seed: NoiseSeed) -> (r: (Vec<i32>, Vec<i32>))
    requires
        1 <= count,
        5 * count <= total,
        -0x200_0000 <= start <= 0x200_0000,
        total <= 0x200_0000,
    ensures
        r.0@.len() == count,
        r.1@.len() == count,
        forall|i: int| 0 <= i < count ==> start <= #[trigger] r.0@[i] <= start + 2 * total,
        forall|i: int| 0 <= i < count ==> -total <= #[trigger] r.1@[i] <= total + 5,
        forall|i: int| 0 <= i < count ==> r.0@[i] + r.1@[i] <= start + 3 * total + 5,
        forall|i: int| 0 <= i < count ==> #[trigger] r.0@[i] == track_start(start as int, total as int, count as int, other, seed, i),
        forall|i: int| 0 <= i < count ==> #[trigger] r.1@[i] == track_len(start as int, total as int, count as int, other, seed, i),
{
    let base = total / count;
    proof {
        assert(count * base <= total) by (nonlinear_arith)
            requires base == total / count, count >= 1;
        assert(base >= 0) by (nonlinear_arith)
            requires base == total / count, count >= 1, total >= 0;
        assert(base <= total) by (nonlinear_arith)
            requires count * base <= total, count >= 1, base >= 0;
    }
    let mut starts: Vec<i32> = Vec::new();
    let mut sizes: Vec<i32> = Vec::new();
    let mut cur = start;
    let mut c: i32 = 0;
    while c < count
        invariant
            0 <= c <= count,
            1 <= count,
            5 * count <= total,
            -0x200_0000 <= start <= 0x200_0000,
            total <= 0x200_0000,
            0 <= base <= total,
            count * base <= total,
            starts@.len() == c,
            sizes@.len() == c,
            c < count ==> start <= cur,
            c < count ==> cur - start <= c * (base + 5),
            forall|i: int| 0 <= i < c ==> start <= #[trigger] starts@[i] <= start + 2 * total,
            forall|i: int| 0 <= i < c ==> -total <= #[trigger] sizes@[i] <= total + 5,
            forall|i: int| 0 <= i < c ==> starts@[i] + sizes@[i] <= start + 3 * total + 5,
            base == total / count,
            c < count ==> cur == track_start(start as int, total as int, count as int, other, seed, c as int),
            forall|i: int| 0 <= i < c ==> #[trigger] starts@[i] == track_start(start as int, total as int, count as int, other, seed, i),
            forall|i: int| 0 <= i < c ==> #[trigger] sizes@[i] == track_len(start as int, total as int, count as int, other, seed, i),
        decreases count - c,
    {
        proof {
            assert(c * (base + 5) <= count * (base + 5) - (base + 5)) by (nonlinear_arith)
                requires c < count, base + 5 >= 0;
            assert(count * (base + 5) == count * base + 5 * count) by (nonlinear_arith);
        }
        starts.push(cur);
        let size = if c == count - 1 {
            start + total - cur
        } else {
            let h = noise2d(c, other, seed);
            let j3 = ((h as u64) * 3) / 0xFFFF_FFFFu64;
            let jitter: i32 = if j3 >= 2 { 1 } else { j3 as i32 - 1 };
            if base + jitter > 5 { base + jitter } else { 5 }
        };
        sizes.push(size);
        cur = cur + size;
        proof {
            assert((c + 1) * (base + 5) == c * (base + 5) + base + 5) by (nonlinear_arith);
        }
        c = c + 1;
    }
    (starts, sizes)
}

/// The seed of the street-grid cell in avenue gap `yi` and cross-street
/// gap `xi`.
pub open spec fn cell_seed(bsp_seed: u64, yi: usize, xi: usize) -> u64 {
    let k = vstd::wrapping::u64_specs::wrapping_mul(
        vstd::wrapping::u64_specs::wrapping_add(vstd::wrapping::u64_specs::wrapping_mul(yi as u64, 1000), xi as u64),
        7,
    );
    seed_plus(bsp_seed, k)
}

/// The lot of a street-grid cell: `(left, top, width, height)` between
/// the avenues at `y0`, `y1` and the cross streets at `x0`, `x1`, inside
/// the sidewalks.
pub open spec fn cell_lot(y0: int, y1: int, x0: int, x1: int, ahw: int, chw: int) -> (int, int, int, int) {
    let top = y0 + ahw + 2;
    let left = x0 + chw + 2;
    (left, top, x1 - chw - 2 - left, y1 - ahw - 2 - top)
}

/// How many tracks of about 9 tiles (at least 5 each) a side of length
/// `n` holds: one when it is under 10.
pub open spec fn track_count(n: int) -> int {
    if n >= 10 {
        let by_target = if n / 9 > 1 { n / 9 } else { 1 };
        if by_target < n / 5 { by_target } else { n / 5 }
    } else {
        1
    }
}

/// The building offered for plot `(r, c)` of a cell's grid: the column
/// and row tracks of the lot `(left, top, lw, lh)` (laid by the noise
/// at `yi` and `xi` under the cell seed), less a one-tile gap before the
/// next plot, its kind taken at the plot's centre.
pub open spec fn grid_plot(
    r: int,
    c: int,
    lot: (int, int, int, int),
    yi: i32,
    xi: i32,
    lot_seed: u64,
    height: int,
    ys: Seq<i32>,
    seed: u64,
) -> Building {
    let (left, top, lw, lh) = lot;
    let cols = track_count(lw);
    let rows = track_count(lh);
    let px = track_start(left, lw, cols, yi, seed_plus(lot_seed, 111), c);
    let pw = track_len(left, lw, cols, yi, seed_plus(lot_seed, 111), c);
    let py = track_start(top, lh, rows, xi, seed_plus(lot_seed, 222), r);
    let ph = track_len(top, lh, rows, xi, seed_plus(lot_seed, 222), r);
    let gap_r = if c < cols - 1 { 1int } else { 0int };
    let gap_b = if r < rows - 1 { 1int } else { 0int };
    let cx = px + half_toward_zero(pw);
    let cy = py + half_toward_zero(ph);
    Building {
        x: px as i32,
        y: py as i32,
        w: (pw - gap_r) as i32,
        h: (ph - gap_b) as i32,
        kind: kind_at(cx, cy, height, ys, seed, (c + r * 7 + cx) as i32, cy as i32, seed_plus(lot_seed, 6666)),
    }
}

/// The plan after offering the plots `(r, 0)` to `(r, c - 1)` of row `r`.
pub open spec fn row_plan(
    st: (Seq<Building>, Seq<Rect>),
    r: int,
    c: int,
    lot: (int, int, int, int),
    yi: i32,
    xi: i32,
    lot_seed: u64,
    height: int,
    ys: Seq<i32>,
    seed: u64,
) -> (Seq<Building>, Seq<Rect>)
    decreases c,
{
    if c <= 0 {
        st
    } else {
        let prev = row_plan(st, r, c - 1, lot, yi, xi, lot_seed, height, ys, seed);
        place_step(prev.0, prev.1, grid_plot(r, c - 1, lot, yi, xi, lot_seed, height, ys, seed))
    }
}

/// The plan after offering every plot of rows `0` to `r - 1`, row by row.
pub open spec fn grid_plan(
    st: (Seq<Building>, Seq<Rect>),
    r: int,
    lot: (int, int, int, int),
    yi: i32,
    xi: i32,
    lot_seed: u64,
    height: int,
    ys: Seq<i32>,
    seed: u64,
) -> (Seq<Building>, Seq<Rect>)
    decreases r,
{
    if r <= 0 {
        st
    } else {
        let prev = grid_plan(st, r - 1, lot, yi, xi, lot_seed, height, ys, seed);
        row_plan(prev, r - 1, track_count(lot.2), lot, yi, xi, lot_seed, height, ys, seed)
    }
}

/// The plan after filling the street-grid cell: nothing when its lot is
/// under 5 tiles on a side or overlaps something placed; one building
/// inset by a tile (at least 4 x 4) when the lot is under 10 x 10;
/// otherwise every plot of the lot's grid, row by row.
pub open spec fn street_lot_step(
    b: Seq<Building>,
    placed: Seq<Rect>,
    yi: usize,
    xi: usize,
    lot: (int, int, int, int),
    bsp_seed: u64,
    height: int,
    ys: Seq<i32>,
    seed: u64,
) -> (Seq<Building>, Seq<Rect>) {
    let (left, top, lw, lh) = lot;
    let lot_seed = cell_seed(bsp_seed, yi, xi);
    let cx = left + lw / 2;
    let cy = top + lh / 2;
    if lw < 5 || lh < 5 || hits_placed(placed, left, top, lw, lh) {
        (b, placed)
    } else if lw < 10 && lh < 10 {
        place_step(
            b,
            placed,
            Building {
                x: (left + 1) as i32,
                y: (top + 1) as i32,
                w: (if lw - 2 > 4 { lw - 2 } else { 4 }) as i32,
                h: (if lh - 2 > 4 { lh - 2 } else { 4 }) as i32,
                kind: kind_at(cx, cy, height, ys, seed, left as i32, top as i32, seed_plus(lot_seed, 6666)),
            },
        )
    } else {
        grid_plan((b, placed), track_count(lh), lot, yi as i32, xi as i32, lot_seed, height, ys, seed)
    }
}

/// Fills one cell of the street grid (between consecutive avenues and
/// cross streets, inside the sidewalks) when nothing covers it yet: a
/// single building in a small lot, otherwise a jittered grid of plots
/// with one building each.
#[verifier::rlimit(100)]
#[verifier::spinoff_prover]
fn fill_street_lot(
    yi: usize,
    xi: usize,
    y0: i32,
    y1: i32,
    x0: i32,
    x1: i32,
    avenue_half_width: i32,
    cross_half_width: i32,
    width: i32,
    height: i32,
    seed: NoiseSeed,
    bsp_seed: NoiseSeed,
    avenue_ys: &[CoordinateUnit],
    buildings: &mut Vec<Building>,
    placed: &mut Vec<Rect>,
    Ghost(k): Ghost<int>,
)
    requires
        small(y0 as int),
        small(y1 as int),
        small(x0 as int),
        small(x1 as int),
        0 <= avenue_half_width <= 0x1000,
        0 <= cross_half_width <= 0x1000,
        small(height as int),
        0 <= height,
        streets_small(avenue_ys@),
        plan_ok(old(buildings)@, old(placed)@, k),
    ensures
        plan_ok(final(buildings)@, final(placed)@, k),
        final(buildings)@.len() >= old(buildings)@.len(),
        final(buildings)@.take(old(buildings)@.len() as int) == old(buildings)@,
        (final(buildings)@, final(placed)@) == street_lot_step(
            old(buildings)@,
            old(placed)@,
            yi,
            xi,
            cell_lot(y0 as int, y1 as int, x0 as int, x1 as int, avenue_half_width as int, cross_half_width as int),
            bsp_seed,
            height as int,
            avenue_ys@,
            seed,
        ),
{
    proof {
        assert(old(buildings)@.take(old(buildings)@.len() as int) == old(buildings)@);
    }
    let lot_top = y0 + avenue_half_width + 1 + 1;
    let lot_bot = y1 - avenue_half_width - 1 - 1;
    let lot_left = x0 + cross_half_width + 1 + 1;
    let lot_right = x1 - cross_half_width - 1 - 1;
    let lot_w = lot_right - lot_left;
    let lot_h = lot_bot - lot_top;
    if lot_w < 5 || lot_h < 5 {
        return;
    }
    if overlaps_placed(lot_left, lot_top, lot_w, lot_h, placed) {
        return;
    }
    let lot_seed = bsp_seed.wrapping_add((yi as u64).wrapping_mul(1000).wrapping_add(xi as u64).wrapping_mul(7));
    let lot_cx = lot_left + lot_w / 2;
    let lot_cy = lot_top + lot_h / 2;
    if lot_w < 10 && lot_h < 10 {
        let bw = if lot_w - 2 > 4 { lot_w - 2 } else { 4 };
        let bh = if lot_h - 2 > 4 { lot_h - 2 } else { 4 };
        try_place(
            lot_left + 1,
            lot_top + 1,
            bw,
            bh,
            lot_cx,
            lot_cy,
            lot_left,
            lot_top,
            lot_seed.wrapping_add(6666),
            width,
            height,
            seed,
            avenue_ys,
            buildings,
            placed,
            Ghost(k),
        );
        return;
    }
    let cols = if lot_w >= 10 {
        let by_target = if lot_w / 9 > 1 { lot_w / 9 } else { 1 };
        if by_target < lot_w / 5 { by_target } else { lot_w / 5 }
    } else {
        1
    };
    let rows = if lot_h >= 10 {
        let by_target = if lot_h / 9 > 1 { lot_h / 9 } else { 1 };
        if by_target < lot_h / 5 { by_target } else { lot_h / 5 }
    } else {
        1
    };
    let (col_xs, col_ws) = lay_tracks(lot_left, lot_w, cols, yi as i32, lot_seed.wrapping_add(111));
    let (row_ys, row_hs) = lay_tracks(lot_top, lot_h, rows, xi as i32, lot_seed.wrapping_add(222));
    let ghost lot = (lot_left as int, lot_top as int, lot_w as int, lot_h as int);
    let ghost b0 = buildings@;
    let ghost p0 = placed@;
    assert(lot == cell_lot(y0 as int, y1 as int, x0 as int, x1 as int, avenue_half_width as int, cross_half_width as int));
    assert(cols == track_count(lot_w as int));
    assert(rows == track_count(lot_h as int));
    let mut r: i32 = 0;
    while r < rows
        invariant
            0 <= r <= rows,
            1 <= rows,
            5 * rows <= lot_h,
            1 <= cols,
            5 * cols <= lot_w,
            lot_w <= 0x200_0000,
            lot_h <= 0x200_0000,
            -0x200_0000 <= lot_left <= 0x200_0000,
            -0x200_0000 <= lot_top <= 0x200_0000,
            lot_left + lot_w <= 0x100_0000,
            lot_top + lot_h <= 0x100_0000,
            col_xs@.len() == cols,
            col_ws@.len() == cols,
            row_ys@.len() == rows,
            row_hs@.len() == rows,
            forall|i: int| 0 <= i < cols ==> lot_left <= #[trigger] col_xs@[i] <= lot_left + 2 * lot_w,
            forall|i: int| 0 <= i < cols ==> -lot_w <= #[trigger] col_ws@[i] <= lot_w + 5,
            forall|i: int| 0 <= i < cols ==> col_xs@[i] + col_ws@[i] <= lot_left + 3 * lot_w + 5,
            forall|i: int| 0 <= i < rows ==> lot_top <= #[trigger] row_ys@[i] <= lot_top + 2 * lot_h,
            forall|i: int| 0 <= i < rows ==> -lot_h <= #[trigger] row_hs@[i] <= lot_h + 5,
            forall|i: int| 0 <= i < rows ==> row_ys@[i] + row_hs@[i] <= lot_top + 3 * lot_h + 5,
            small(height as int),
            0 <= height,
            streets_small(avenue_ys@),
            plan_ok(buildings@, placed@, k),
            buildings@.len() >= old(buildings)@.len(),
            buildings@.take(old(buildings)@.len() as int) == old(buildings)@,
            lot == (lot_left as int, lot_top as int, lot_w as int, lot_h as int),
            cols == track_count(lot_w as int),
            rows == track_count(lot_h as int),
            lot_seed == cell_seed(bsp_seed, yi, xi),
            forall|i: int| 0 <= i < cols ==> #[trigger] col_xs@[i] == track_start(lot_left as int, lot_w as int, cols as int, yi as i32, seed_plus(lot_seed, 111), i),
            forall|i: int| 0 <= i < cols ==> #[trigger] col_ws@[i] == track_len(lot_left as int, lot_w as int, cols as int, yi as i32, seed_plus(lot_seed, 111), i),
            forall|i: int| 0 <= i < rows ==> #[trigger] row_ys@[i] == track_start(lot_top as int, lot_h as int, rows as int, xi as i32, seed_plus(lot_seed, 222), i),
            forall|i: int| 0 <= i < rows ==> #[trigger] row_hs@[i] == track_len(lot_top as int, lot_h as int, rows as int, xi as i32, seed_plus(lot_seed, 222), i),
            (buildings@, placed@) == grid_plan((b0, p0), r as int, lot, yi as i32, xi as i32, lot_seed, height as int, avenue_ys@, seed),
        decreases rows - r,
    {
        let mut c: i32 = 0;
        while c < cols
            invariant
                0 <= r < rows,
                0 <= c <= cols,
                1 <= rows,
                5 * rows <= lot_h,
                1 <= cols,
                5 * cols <= lot_w,
                lot_w <= 0x200_0000,
                lot_h <= 0x200_0000,
                -0x200_0000 <= lot_left <= 0x200_0000,
                -0x200_0000 <= lot_top <= 0x200_0000,
                lot_left + lot_w <= 0x100_0000,
                lot_top + lot_h <= 0x100_0000,
                col_xs@.len() == cols,
                col_ws@.len() == cols,
                row_ys@.len() == rows,
                row_hs@.len() == rows,
                forall|i: int| 0 <= i < cols ==> lot_left <= #[trigger] col_xs@[i] <= lot_left + 2 * lot_w,
                forall|i: int| 0 <= i < cols ==> -lot_w <= #[trigger] col_ws@[i] <= lot_w + 5,
                forall|i: int| 0 <= i < cols ==> col_xs@[i] + col_ws@[i] <= lot_left + 3 * lot_w + 5,
                forall|i: int| 0 <= i < rows ==> lot_top <= #[trigger] row_ys@[i] <= lot_top + 2 * lot_h,
                forall|i: int| 0 <= i < rows ==> -lot_h <= #[trigger] row_hs@[i] <= lot_h + 5,
                forall|i: int| 0 <= i < rows ==> row_ys@[i] + row_hs@[i] <= lot_top + 3 * lot_h + 5,
                small(height as int),
                0 <= height,
                streets_small(avenue_ys@),
                plan_ok(buildings@, placed@, k),
                buildings@.len() >= old(buildings)@.len(),
                buildings@.take(old(buildings)@.len() as int) == old(buildings)@,
            lot == (lot_left as int, lot_top as int, lot_w as int, lot_h as int),
            cols == track_count(lot_w as int),
            rows == track_count(lot_h as int),
            lot_seed == cell_seed(bsp_seed, yi, xi),
            forall|i: int| 0 <= i < cols ==> #[trigger] col_xs@[i] == track_start(lot_left as int, lot_w as int, cols as int, yi as i32, seed_plus(lot_seed, 111), i),
            forall|i: int| 0 <= i < cols ==> #[trigger] col_ws@[i] == track_len(lot_left as int, lot_w as int, cols as int, yi as i32, seed_plus(lot_seed, 111), i),
            forall|i: int| 0 <= i < rows ==> #[trigger] row_ys@[i] == track_start(lot_top as int, lot_h as int, rows as int, xi as i32, seed_plus(lot_seed, 222), i),
            forall|i: int| 0 <= i < rows ==> #[trigger] row_hs@[i] == track_len(lot_top as int, lot_h as int, rows as int, xi as i32, seed_plus(lot_seed, 222), i),
                (buildings@, placed@) == row_plan(
                    grid_plan((b0, p0), r as int, lot, yi as i32, xi as i32, lot_seed, height as int, avenue_ys@, seed),
                    r as int,
                    c as int,
                    lot,
                    yi as i32,
                    xi as i32,
                    lot_seed,
                    height as int,
                    avenue_ys@,
                    seed,
                ),
            decreases cols - c,
        {
            let plot_x = col_xs[c as usize];
            let plot_y = row_ys[r as usize];
            let plot_w = col_ws[c as usize];
            let plot_h = row_hs[r as usize];
            let gap_r: i32 = if c < cols - 1 { 1 } else { 0 };
            let gap_b: i32 = if r < rows - 1 { 1 } else { 0 };
            let plot_cx = plot_x + plot_w / 2;
            let plot_cy = plot_y + plot_h / 2;
            let ghost before = buildings@;
            try_place(
                plot_x,
                plot_y,
                plot_w - gap_r,
                plot_h - gap_b,
                plot_cx,
                plot_cy,
                c + r * 7 + plot_cx,
                plot_cy,
                lot_seed.wrapping_add(6666),
                width,
                height,
                seed,
                avenue_ys,
                buildings,
                placed,
                Ghost(k),
            );
            proof {
                assert(buildings@.take(old(buildings)@.len() as int) == before.take(old(buildings)@.len() as int));
                assert(plot_cx == plot_x + half_toward_zero(plot_w as int));
                assert(plot_cy == plot_y + half_toward_zero(plot_h as int));
            }
            c = c + 1;
        }
        r = r + 1;
    }
}

/// The forest margin kept around the buildable area: 30 tiles, or an
/// eighth of the smaller map side, but at least 6.
pub open spec fn plan_margin(width: int, height: int) -> int {
    let a = if 30 < width / 8 { 30 } else { width / 8 };
    let b = if a < height / 8 { a } else { height / 8 };
    if b > 6 { b } else { 6 }
}

/// Whether the buildable area can hold a partition leaf.
pub open spec fn plan_has_room(width: int, height: int) -> bool {
    let m = plan_margin(width, height);
    width - m * 2 >= BSP_MIN_LEAF_W && height - m * 2 >= BSP_MIN_LEAF_H
}

/// The street-grid bounds along one axis, sorted: `margin`, the streets
/// and `far`.
fn grid_bounds_of(margin: i32, streets: &[CoordinateUnit], far: i32) -> (r: Vec<i32>)
    requires
        small(margin as int),
        small(far as int),
        streets_small(streets@),
    ensures
        grid_bounds(r@, margin as int, streets@, far as int),
        r@.len() == streets@.len() + 2,
        forall|t: int| 0 <= t < r@.len() ==> small(#[trigger] r@[t] as int),
{
    let mut raw: Vec<i32> = Vec::new();
    raw.push(margin);
    let mut q: usize = 0;
    while q < streets.len()
        invariant
            q <= streets@.len(),
            raw@.len() == q + 1,
            streets_small(streets@),
            small(margin as int),
            forall|t: int| 0 <= t < raw@.len() ==> small(#[trigger] raw@[t] as int),
            raw@ == seq![margin] + streets@.take(q as int),
        decreases streets@.len() - q,
    {
        proof {
            assert(small(streets@[q as int] as int));
        }
        raw.push(streets[q]);
        proof {
            assert(streets@.take(q + 1) =~= streets@.take(q as int).push(streets@[q as int]));
        }
        q = q + 1;
    }
    raw.push(far);
    proof {
        assert(streets@.take(streets@.len() as int) =~= streets@);
        assert(raw@ =~= seq![margin] + streets@ + seq![far]);
    }
    let r = sort_coords(raw);
    proof {
        assert forall|t: int| 0 <= t < r@.len() implies small(#[trigger] r@[t] as int) by {
            let e = r@[t];
            assert(raw@.contains(e));
        }
    }
    r
}

/// Fills every cell of the street grid between the sorted bounds, row
/// by row.
fn fill_street_grid(
    y_bounds: &Vec<i32>,
    x_bounds: &Vec<i32>,
    avenue_half_width: i32,
    cross_half_width: i32,
    width: i32,
    height: i32,
    seed: NoiseSeed,
    bsp_seed: NoiseSeed,
    avenue_ys: &[CoordinateUnit],
    buildings: &mut Vec<Building>,
    placed: &mut Vec<Rect>,
    Ghost(k): Ghost<int>,
)
    requires
        y_bounds@.len() >= 1,
        x_bounds@.len() >= 1,
        forall|t: int| 0 <= t < y_bounds@.len() ==> small(#[trigger] y_bounds@[t] as int),
        forall|t: int| 0 <= t < x_bounds@.len() ==> small(#[trigger] x_bounds@[t] as int),
        0 <= avenue_half_width <= 0x1000,
        0 <= cross_half_width <= 0x1000,
        small(height as int),
        0 <= height,
        streets_small(avenue_ys@),
        bsp_seed == seed_plus(seed, 11111),
        plan_ok(old(buildings)@, old(placed)@, k),
    ensures
        plan_ok(final(buildings)@, final(placed)@, k),
        final(buildings)@.len() >= old(buildings)@.len(),
        final(buildings)@.take(old(buildings)@.len() as int) == old(buildings)@,
        (final(buildings)@, final(placed)@) == street_pass(
            (old(buildings)@, old(placed)@),
            y_bounds@,
            x_bounds@,
            y_bounds@.len() - 1,
            avenue_half_width as int,
            cross_half_width as int,
            height as int,
            avenue_ys@,
            seed,
        ),
{
    let ghost s3 = (buildings@, placed@);
    let ghost b0 = buildings@;
    let ny = y_bounds.len() - 1;
    let nx = x_bounds.len() - 1;
    let mut yi: usize = 0;
    while yi < ny
        invariant
            yi <= ny,
            ny + 1 == y_bounds@.len(),
            nx + 1 == x_bounds@.len(),
            forall|t: int| 0 <= t < y_bounds@.len() ==> small(#[trigger] y_bounds@[t] as int),
            forall|t: int| 0 <= t < x_bounds@.len() ==> small(#[trigger] x_bounds@[t] as int),
            0 <= avenue_half_width <= 0x1000,
            0 <= cross_half_width <= 0x1000,
            small(height as int),
            0 <= height,
            streets_small(avenue_ys@),
            plan_ok(buildings@, placed@, k),
            buildings@.len() >= b0.len(),
            buildings@.take(b0.len() as int) == b0,
            bsp_seed == seed_plus(seed, 11111),
            (buildings@, placed@) == street_pass(s3, y_bounds@, x_bounds@, yi as int, avenue_half_width as int, cross_half_width as int, height as int, avenue_ys@, seed),
        decreases ny - yi,
    {
        let mut xi: usize = 0;
        while xi < nx
            invariant
                yi < ny,
                xi <= nx,
                ny + 1 == y_bounds@.len(),
                nx + 1 == x_bounds@.len(),
                forall|t: int| 0 <= t < y_bounds@.len() ==> small(#[trigger] y_bounds@[t] as int),
                forall|t: int| 0 <= t < x_bounds@.len() ==> small(#[trigger] x_bounds@[t] as int),
                0 <= avenue_half_width <= 0x1000,
                0 <= cross_half_width <= 0x1000,
                small(height as int),
                0 <= height,
                streets_small(avenue_ys@),
                plan_ok(buildings@, placed@, k),
                buildings@.len() >= b0.len(),
                buildings@.take(b0.len() as int) == b0,
                bsp_seed == seed_plus(seed, 11111),
                (buildings@, placed@) == street_row_pass(street_pass(s3, y_bounds@, x_bounds@, yi as int, avenue_half_width as int, cross_half_width as int, height as int, avenue_ys@, seed), y_bounds@, x_bounds@, yi as int, xi as int, avenue_half_width as int, cross_half_width as int, height as int, avenue_ys@, seed),
            decreases nx - xi,
        {
            let ghost before = buildings@;
            proof {
                assert(small(y_bounds@[yi as int] as int));
                assert(small(y_bounds@[yi as int + 1] as int));
                assert(small(x_bounds@[xi as int] as int));
                assert(small(x_bounds@[xi as int + 1] as int));
            }
            fill_street_lot(
                yi,
                xi,
                y_bounds[yi],
                y_bounds[yi + 1],
                x_bounds[xi],
                x_bounds[xi + 1],
                avenue_half_width,
                cross_half_width,
                width,
                height,
                seed,
                bsp_seed,
                avenue_ys,
                buildings,
                placed,
                Ghost(k),
            );
            proof {
                assert(buildings@.take(b0.len() as int) == before.take(b0.len() as int));
            }
            xi = xi + 1;
        }
        yi = yi + 1;
    }
}

/// The partition leaves of the buildable area, as rectangles.
pub open spec fn plan_leaves(width: int, height: int, seed: u64, av: Seq<i32>, cr: Seq<i32>) -> Seq<Rect> {
    let m = plan_margin(width, height);
    bsp_leaves(m, m, width - m * 2, height - m * 2, seed_plus(seed, 11111), 0, av, cr).map_values(
        |l: (int, int, int, int)| (l.0 as i32, l.1 as i32, l.2 as i32, l.3 as i32),
    )
}

/// The plan (buildings, placed, parks, open lots) after the first `n`
/// leaves have been handled, in order.
pub open spec fn leaf_pass(
    st: (Seq<Building>, Seq<Rect>, Seq<Rect>, Seq<Rect>),
    leaves: Seq<Rect>,
    n: int,
    height: int,
    seed: u64,
    av: Seq<i32>,
    cr: Seq<i32>,
    ahw: int,
    chw: int,
    anchors: Seq<Building>,
) -> (Seq<Building>, Seq<Rect>, Seq<Rect>, Seq<Rect>)
    decreases n,
{
    if n <= 0 {
        st
    } else {
        let p = leaf_pass(st, leaves, n - 1, height, seed, av, cr, ahw, chw, anchors);
        leaf_step(p.0, p.1, p.2, p.3, n - 1, leaves[n - 1], height, seed, seed_plus(seed, 11111), av, cr, ahw, chw, anchors)
    }
}

/// The plan (buildings, placed) after the first `n` leaves have been
/// offered for splitting, in order.
pub open spec fn split_pass(st: (Seq<Building>, Seq<Rect>), leaves: Seq<Rect>, n: int, height: int, av: Seq<i32>, seed: u64) -> (Seq<Building>, Seq<Rect>)
    decreases n,
{
    if n <= 0 {
        st
    } else {
        let p = split_pass(st, leaves, n - 1, height, av, seed);
        split_step(p.0, p.1, leaves[n - 1], height, av, seed, seed_plus(seed, 11111))
    }
}

/// The plan (buildings, placed) after the first `n` open lots have been
/// offered a building, in order.
pub open spec fn lot_pass(st: (Seq<Building>, Seq<Rect>), lots: Seq<Rect>, n: int, height: int, av: Seq<i32>, seed: u64) -> (Seq<Building>, Seq<Rect>)
    decreases n,
{
    if n <= 0 {
        st
    } else {
        let p = lot_pass(st, lots, n - 1, height, av, seed);
        place_step(p.0, p.1, lot_building(lots[n - 1], height, av, seed, seed_plus(seed, 11111)))
    }
}

/// The plan after filling the street-grid cells `(yi, 0)` to
/// `(yi, n - 1)` between the sorted bounds `yb` and `xb`.
pub open spec fn street_row_pass(
    st: (Seq<Building>, Seq<Rect>),
    yb: Seq<i32>,
    xb: Seq<i32>,
    yi: int,
    n: int,
    ahw: int,
    chw: int,
    height: int,
    av: Seq<i32>,
    seed: u64,
) -> (Seq<Building>, Seq<Rect>)
    decreases n,
{
    if n <= 0 {
        st
    } else {
        let p = street_row_pass(st, yb, xb, yi, n - 1, ahw, chw, height, av, seed);
        street_lot_step(
            p.0,
            p.1,
            yi as usize,
            (n - 1) as usize,
            cell_lot(yb[yi] as int, yb[yi + 1] as int, xb[n - 1] as int, xb[n] as int, ahw, chw),
            seed_plus(seed, 11111),
            height,
            av,
            seed,
        )
    }
}

/// The plan after filling every cell of the first `n` rows of the street
/// grid, row by row.
pub open spec fn street_pass(
    st: (Seq<Building>, Seq<Rect>),
    yb: Seq<i32>,
    xb: Seq<i32>,
    n: int,
    ahw: int,
    chw: int,
    height: int,
    av: Seq<i32>,
    seed: u64,
) -> (Seq<Building>, Seq<Rect>)
    decreases n,
{
    if n <= 0 {
        st
    } else {
        let p = street_pass(st, yb, xb, n - 1, ahw, chw, height, av, seed);
        street_row_pass(p, yb, xb, n - 1, xb.len() - 1, ahw, chw, height, av, seed)
    }
}

/// Whether `b` is the sorted list of the street-grid bounds along one
/// axis: the margin, the streets and the far margin.
pub open spec fn grid_bounds(b: Seq<i32>, margin: int, streets: Seq<i32>, far: int) -> bool {
    &&& sorted_coords(b)
    &&& b.to_multiset() == (seq![margin as i32] + streets + seq![far as i32]).to_multiset()
}

/// The result of the placement passes (buildings, parks, open lots) given
/// the sorted street-grid bounds `yb` and `xb`: the anchors, then a
/// building or park per partition leaf, then buildings on split unused
/// leaves, on open lots, and on the street grid's free cells.
pub open spec fn bsp_plan(
    width: int,
    height: int,
    seed: u64,
    av: Seq<i32>,
    cr: Seq<i32>,
    ahw: int,
    chw: int,
    yb: Seq<i32>,
    xb: Seq<i32>,
) -> (Seq<Building>, Seq<Rect>, Seq<Rect>) {
    let anchors = anchors_spec(width, height, seed, av);
    let leaves = plan_leaves(width, height, seed, av, cr);
    let st0 = (anchors, anchors.map_values(|b: Building| footprint(b)), Seq::<Rect>::empty(), Seq::<Rect>::empty());
    let s1 = leaf_pass(st0, leaves, leaves.len() as int, height, seed, av, cr, ahw, chw, anchors);
    let s2 = split_pass((s1.0, s1.1), leaves, leaves.len() as int, height, av, seed);
    let s3 = lot_pass(s2, s1.3, s1.3.len() as int, height, av, seed);
    let s4 = street_pass(s3, yb, xb, yb.len() - 1, ahw, chw, height, av, seed);
    (s4.0, s1.2, s1.3)
}

/// Generates building footprints by binary space partitioning.
///
///  1. Places the landmark anchors.
///  2. Partitions the buildable area, biasing splits toward the streets.
///  3. Places one building (or, for about a tenth, a park) per leaf that
///     is clear of the avenues and the anchors, shifting footprints off
///     cross streets and shrinking them until they keep a one-tile gap to
///     everything placed; leaves without room become open lots.
///  4. Splits large leaves that are still unused and builds on each half.
///  5. Fills the open lots with modest buildings.
///  6. Fills every cell of the street grid that nothing covers yet with a
///     jittered grid of plots.
///
/// Returns (buildings, parks, open lots), exactly as `bsp_plan` describes
/// the passes. The anchors come first; every later building is at least
/// 4 x 4 and keeps a one-tile gap to every building before it.
#[verifier::rlimit(100)]
#[verifier::spinoff_prover]
pub fn generate_buildings_bsp(
    width: CoordinateUnit,
    height: CoordinateUnit,
    seed: NoiseSeed,
    avenue_ys: &[CoordinateUnit],
    cross_xs: &[CoordinateUnit],
    avenue_half_width: CoordinateUnit,
    cross_half_width: CoordinateUnit,
) -> (r: (Vec<Building>, Vec<Rect>, Vec<Rect>))
    requires
        plan_inputs(width as int, height as int, avenue_ys@, cross_xs@, avenue_half_width as int, cross_half_width as int),
    ensures
        !plan_has_room(width as int, height as int) ==> r.0@.len() == 0 && r.1@.len() == 0 && r.2@.len() == 0,
        plan_has_room(width as int, height as int) ==> ({
            let anchors = anchors_spec(width as int, height as int, seed, avenue_ys@);
            &&& r.0@.len() >= anchors.len()
            &&& r.0@.take(anchors.len() as int) == anchors
            &&& forall|i: int| anchors.len() <= i < r.0@.len() ==> (#[trigger] r.0@[i]).w >= 4 && r.0@[i].h >= 4
        }),
        forall|i: int, j: int|
            0 <= i < j < r.0@.len() && j >= anchors_spec(width as int, height as int, seed, avenue_ys@).len()
                ==> !rect_overlap(#[trigger] footprint(r.0@[i]), #[trigger] footprint(r.0@[j])),
        forall|i: int, j: int|
            0 <= i < j < r.0@.len() && j >= anchors_spec(width as int, height as int, seed, avenue_ys@).len()
                ==> #[trigger] keeps_gap(r.0@[j], #[trigger] footprint(r.0@[i])),
        forall|i: int| 0 <= i < r.0@.len() ==> (#[trigger] r.0@[i]).kind < BUILDING_TYPE_COUNT,
        plan_has_room(width as int, height as int) ==> exists|yb: Seq<i32>, xb: Seq<i32>|
            #![trigger bsp_plan(width as int, height as int, seed, avenue_ys@, cross_xs@, avenue_half_width as int, cross_half_width as int, yb, xb)]
            {
                let m = plan_margin(width as int, height as int);
                &&& grid_bounds(yb, m, avenue_ys@, height - m)
                &&& grid_bounds(xb, m, cross_xs@, width - m)
                &&& (r.0@, r.1@, r.2@) == bsp_plan(
                    width as int,
                    height as int,
                    seed,
                    avenue_ys@,
                    cross_xs@,
                    avenue_half_width as int,
                    cross_half_width as int,
                    yb,
                    xb,
                )
            },
{
    let mut buildings: Vec<Building> = Vec::new();
    let mut parks: Vec<Rect> = Vec::new();
    let mut open_lots: Vec<Rect> = Vec::new();
    let bsp_seed = seed.wrapping_add(11111);

    let m1 = if 30 < width / 8 { 30 } else { width / 8 };
    let m2 = if m1 < height / 8 { m1 } else { height / 8 };
    let margin = if m2 > 6 { m2 } else { 6 };
    let build_w = width - margin * 2;
    let build_h = height - margin * 2;
    if build_w < BSP_MIN_LEAF_W || build_h < BSP_MIN_LEAF_H {
        return (buildings, parks, open_lots);
    }

    let anchors = pre_place_landmark_anchors(width, height, seed, avenue_ys);
    let ghost k: int = anchors@.len() as int;
    let mut placed: Vec<Rect> = Vec::new();
    let mut a: usize = 0;
    while a < anchors.len()
        invariant
            a <= anchors@.len(),
            anchors@ == anchors_spec(width as int, height as int, seed, avenue_ys@),
            plan_inputs(width as int, height as int, avenue_ys@, cross_xs@, avenue_half_width as int, cross_half_width as int),
            plan_has_room(width as int, height as int),
            buildings@ == anchors@.take(a as int),
            placed@.len() == a,
            forall|i: int| 0 <= i < a ==> #[trigger] placed@[i] == footprint(anchors@[i]),
            forall|i: int| 0 <= i < anchors@.len() ==> rect_small(#[trigger] footprint(anchors@[i])),
            forall|i: int| 0 <= i < anchors@.len() ==> (#[trigger] anchors@[i]).kind < BUILDING_TYPE_COUNT,
        decreases anchors@.len() - a,
    {
        let an = anchors[a];
        placed.push((an.x, an.y, an.w, an.h));
        buildings.push(an);
        proof {
            assert(anchors@.take(a as int + 1) == anchors@.take(a as int).push(an));
        }
        a = a + 1;
    }
    proof {
        assert(anchors@.take(k) == anchors@);
        assert forall|i: int| 0 <= i < buildings@.len() implies placed@.contains(#[trigger] footprint(buildings@[i])) by {
            assert(placed@[i] == footprint(buildings@[i]));
        }
        assert(plan_ok(buildings@, placed@, k));
        assert(placed@ =~= anchors@.map_values(|b: Building| footprint(b)));
        assert(margin == plan_margin(width as int, height as int));
        assert(bsp_seed == seed_plus(seed, 11111));
    }
    let ghost st0 = (buildings@, placed@, parks@, open_lots@);

    let mut root = BspNode::new(margin, margin, build_w, build_h);
    root.subdivide(bsp_seed, 0, avenue_ys, cross_xs);
    let mut leaves: Vec<Rect> = Vec::new();
    root.collect_leaves(&mut leaves);
    proof {
        assert forall|i: int| 0 <= i < leaves@.len() implies lot_ok(#[trigger] leaves@[i]) by {
            let l = tree_leaves(root)[i];
            assert(rect_ok(l.0, l.1, l.2, l.3));
        }
        assert(leaves@ =~= plan_leaves(width as int, height as int, seed, avenue_ys@, cross_xs@));
    }

    let mut i: usize = 0;
    while i < leaves.len()
        invariant
            i <= leaves@.len(),
            plan_inputs(width as int, height as int, avenue_ys@, cross_xs@, avenue_half_width as int, cross_half_width as int),
            forall|q: int| 0 <= q < leaves@.len() ==> lot_ok(#[trigger] leaves@[q]),
            forall|q: int| 0 <= q < anchors@.len() ==> rect_small(#[trigger] footprint(anchors@[q])),
            anchors@.len() == k,
            plan_ok(buildings@, placed@, k),
            buildings@.len() >= k,
            buildings@.take(k) == anchors@,
            forall|m: int| 0 <= m < open_lots@.len() ==> lot_ok(#[trigger] open_lots@[m]),
            anchors@ == anchors_spec(width as int, height as int, seed, avenue_ys@),
            bsp_seed == seed_plus(seed, 11111),
            leaves@ == plan_leaves(width as int, height as int, seed, avenue_ys@, cross_xs@),
            (buildings@, placed@, parks@, open_lots@) == leaf_pass(st0, leaves@, i as int, height as int, seed, avenue_ys@, cross_xs@, avenue_half_width as int, cross_half_width as int, anchors@),
        decreases leaves@.len() - i,
    {
        let ghost before = buildings@;
        place_in_leaf(
            i,
            leaves[i],
            width,
            height,
            seed,
            bsp_seed,
            avenue_ys,
            cross_xs,
            avenue_half_width,
            cross_half_width,
            &anchors,
            &mut buildings,
            &mut placed,
            &mut parks,
            &mut open_lots,
            Ghost(k),
        );
        proof {
            assert(buildings@.take(k) == before.take(k));
        }
        i = i + 1;
    }

    let ghost s1 = (buildings@, placed@, parks@, open_lots@);
    let mut i: usize = 0;
    while i < leaves.len()
        invariant
            i <= leaves@.len(),
            plan_inputs(width as int, height as int, avenue_ys@, cross_xs@, avenue_half_width as int, cross_half_width as int),
            forall|q: int| 0 <= q < leaves@.len() ==> lot_ok(#[trigger] leaves@[q]),
            plan_ok(buildings@, placed@, k),
            buildings@.len() >= k,
            buildings@.take(k) == anchors@,
            bsp_seed == seed_plus(seed, 11111),
            leaves@ == plan_leaves(width as int, height as int, seed, avenue_ys@, cross_xs@),
            parks@ == s1.2,
            open_lots@ == s1.3,
            (buildings@, placed@) == split_pass((s1.0, s1.1), leaves@, i as int, height as int, avenue_ys@, seed),
        decreases leaves@.len() - i,
    {
        let ghost before = buildings@;
        split_unused_leaf(leaves[i], width, height, seed, bsp_seed, avenue_ys, &mut buildings, &mut placed, Ghost(k));
        proof {
            assert(buildings@.take(k) == before.take(k));
        }
        i = i + 1;
    }

    let ghost s2 = (buildings@, placed@);
    let mut i: usize = 0;
    while i < open_lots.len()
        invariant
            i <= open_lots@.len(),
            plan_inputs(width as int, height as int, avenue_ys@, cross_xs@, avenue_half_width as int, cross_half_width as int),
            forall|m: int| 0 <= m < open_lots@.len() ==> lot_ok(#[trigger] open_lots@[m]),
            plan_ok(buildings@, placed@, k),
            buildings@.len() >= k,
            buildings@.take(k) == anchors@,
            bsp_seed == seed_plus(seed, 11111),
            parks@ == s1.2,
            open_lots@ == s1.3,
            (buildings@, placed@) == lot_pass(s2, open_lots@, i as int, height as int, avenue_ys@, seed),
        decreases open_lots@.len() - i,
    {
        let ghost before = buildings@;
        fill_open_lot(open_lots[i], width, height, seed, bsp_seed, avenue_ys, &mut buildings, &mut placed, Ghost(k));
        proof {
            assert(buildings@.take(k) == before.take(k));
        }
        i = i + 1;
    }

    let y_bounds = grid_bounds_of(margin, avenue_ys, height - margin);
    let x_bounds = grid_bounds_of(margin, cross_xs, width - margin);
    let ghost s3 = (buildings@, placed@);
    fill_street_grid(
        &y_bounds,
        &x_bounds,
        avenue_half_width,
        cross_half_width,
        width,
        height,
        seed,
        bsp_seed,
        avenue_ys,
        &mut buildings,
        &mut placed,
        Ghost(k),
    );
    proof {
        assert(buildings@.take(k) == anchors@);
    }
    proof {
        let m = plan_margin(width as int, height as int);
        assert(grid_bounds(y_bounds@, m, avenue_ys@, height - m));
        assert(grid_bounds(x_bounds@, m, cross_xs@, width - m));
        assert((buildings@, parks@, open_lots@) == bsp_plan(
            width as int,
            height as int,
            seed,
            avenue_ys@,
            cross_xs@,
            avenue_half_width as int,
            cross_half_width as int,
            y_bounds@,
            x_bounds@,
        ));
    }
    (buildings, parks, open_lots)
}

} // verus!
