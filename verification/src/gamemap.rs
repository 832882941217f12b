//! The game map: a grid of voxels (floor and prop per tile) with an
//! occupancy grid used during town generation, tile queries, and the
//! placement of building shells and furnishings.
use vstd::prelude::*;

use crate::ai::div_euclid_pos;
use crate::components::Faction;
use crate::graphics::{Floor, Props, RgbColor};
use crate::graphics::props_is_wall;
use crate::grid_vec::{abs_int, max_int, CoordinateUnit, GridVec};
use crate::noise::{fraction_scaled, noise2d_spec, noise_scaled, NoiseSeed};
use crate::town::{small, Building};

verus! {

/// Side length of a map chunk (tiles). Used for chunk-based spatial queries.
pub const CHUNK_SIZE: CoordinateUnit = 16;

/// One map tile: its ground and the object standing on it, if any.
#[derive(Clone, Copy, Debug, PartialEq, Eq, Structural)]
pub struct Voxel {
    pub floor: Option<Floor>,
    pub props: Option<Props>,
}

/// The game map: a 2D grid of voxels, stored row by row (`voxels[y][x]`),
/// and an occupancy grid stored column by column (`occupancy[x][y]`).
pub struct GameMap {
    pub width: CoordinateUnit,
    pub height: CoordinateUnit,
    pub voxels: Vec<Vec<Voxel>>,
    /// The world turn at which each burning tile was ignited.
    pub fire_turns: Vec<(GridVec, u32)>,
    /// The world turn at which each sand cloud tile was placed.
    pub sand_cloud_turns: Vec<(GridVec, u32)>,
    /// The floor each sand cloud tile had before the cloud.
    pub sand_cloud_previous_floor: Vec<(GridVec, Option<Floor>)>,
    /// Faction anchor buildings: (centre, faction, building name).
    pub faction_anchors: Vec<(GridVec, Faction, String)>,
    /// True where a road, river, beach or building already claimed the
    /// tile during generation.
    pub occupancy: Vec<Vec<bool>>,
}

/// Whether `(x, y)` lies on a `w` by `h` grid.
pub open spec fn on_grid(w: int, h: int, x: int, y: int) -> bool {
    0 <= x < w && 0 <= y < h
}

/// Water or beach ground.
pub open spec fn is_water_floor(f: Option<Floor>) -> bool {
    f == Some(Floor::ShallowWater) || f == Some(Floor::DeepWater) || f == Some(Floor::Beach) || f
        == Some(Floor::BeachSand)
}

/// Road, water or beach-sand ground, on which nothing may be built.
pub open spec fn is_excluded_floor(f: Option<Floor>) -> bool {
    f == Some(Floor::DirtRoad) || f == Some(Floor::ShallowWater) || f == Some(Floor::DeepWater) || f
        == Some(Floor::BeachSand)
}

/// Whether `f` is water or beach ground.
fn water_floor(f: Option<Floor>) -> (r: bool)
    ensures
        r == is_water_floor(f),
{
    match f {
        Some(Floor::ShallowWater) | Some(Floor::DeepWater) | Some(Floor::Beach) | Some(Floor::BeachSand) => true,
        _ => false,
    }
}

/// Whether `f` is road, water or beach-sand ground.
fn excluded_floor(f: Option<Floor>) -> (r: bool)
    ensures
        r == is_excluded_floor(f),
{
    match f {
        Some(Floor::DirtRoad) | Some(Floor::ShallowWater) | Some(Floor::DeepWater) | Some(Floor::BeachSand) => true,
        _ => false,
    }
}

/// Whether `p` is among `ps`.
fn slice_contains(ps: &[GridVec], p: GridVec) -> (r: bool)
    ensures
        r == ps@.contains(p),
{
    let mut i: usize = 0;
    while i < ps.len()
        invariant
            i <= ps@.len(),
            forall|j: int| 0 <= j < i ==> ps@[j] != p,
        decreases ps@.len() - i,
    {
        if ps[i] == p {
            assert(ps@[i as int] == p);
            return true;
        }
        i = i + 1;
    }
    false
}

/// An NPC as the enemy-sight overlay sees it: the tiles it sees, its
/// faction and where it stands.
pub struct Watcher {
    pub sees: Vec<GridVec>,
    pub faction: Option<Faction>,
    pub pos: GridVec,
}

/// Whether watcher `w`'s sight is shown: it is neither wildlife nor a
/// civilian, and the player can see it.
pub open spec fn sight_shown(w: &Watcher, visible: Option<Seq<GridVec>>) -> bool {
    &&& w.faction != Some(Faction::Wildlife)
    &&& w.faction != Some(Faction::Civilians)
    &&& match visible {
        Some(v) => v.contains(w.pos),
        None => false,
    }
}

/// Whether tile `t` is seen by a watcher whose sight is shown.
pub open spec fn enemy_sees(ws: Seq<Watcher>, visible: Option<Seq<GridVec>>, t: GridVec) -> bool {
    exists|i: int| 0 <= i < ws.len() && sight_shown(&ws[i], visible) && (#[trigger] ws[i].sees@).contains(t)
}

/// The red hue of a tile under enemy sight: red up by 40, green and blue
/// down by 10, saturating.
pub open spec fn sight_tint(c: RgbColor) -> RgbColor {
    RgbColor {
        r: if c.r + 40 > 255 { 255 } else { (c.r + 40) as u8 },
        g: if c.g < 10 { 0 } else { (c.g - 10) as u8 },
        b: if c.b < 10 { 0 } else { (c.b - 10) as u8 },
    }
}

/// The background of cell `(rx, ry)` after the overlay: tinted when the
/// player sees its tile (`bottom_left` plus the cell) and an enemy whose
/// sight is shown sees it too.
pub open spec fn sight_cell(
    old: RgbColor,
    bottom_left: GridVec,
    ws: Seq<Watcher>,
    visible: Option<Seq<GridVec>>,
    rx: int,
    ry: int,
) -> RgbColor {
    let t = GridVec { x: (bottom_left.x + rx) as i32, y: (bottom_left.y + ry) as i32 };
    let in_view = match visible {
        Some(v) => v.contains(t),
        None => false,
    };
    if in_view && enemy_sees(ws, visible, t) { sight_tint(old) } else { old }
}

/// Whether `p` is among `ps` (by a scan).
fn seq_has(ps: &[GridVec], p: GridVec) -> (r: bool)
    ensures
        r == ps@.contains(p),
{
    let mut i: usize = 0;
    while i < ps.len()
        invariant
            i <= ps@.len(),
            forall|j: int| 0 <= j < i ==> ps@[j] != p,
        decreases ps@.len() - i,
    {
        if ps[i] == p {
            assert(ps@[i as int] == p);
            return true;
        }
        i = i + 1;
    }
    false
}

/// Tints red the backgrounds of the cells whose tiles both the player and
/// a shown enemy see (`sight_cell`); `bg` is the view's background grid,
/// row by row from `bottom_left`.
pub fn tint_enemy_sight(bg: &mut Vec<Vec<RgbColor>>, bottom_left: GridVec, watchers: &[Watcher], visible: Option<&[GridVec]>)
    requires
        old(bg)@.len() <= 0x10000,
        forall|ry: int| 0 <= ry < old(bg)@.len() ==> (#[trigger] old(bg)@[ry])@.len() <= 0x10000,
        -0x4000_0000 <= bottom_left.x <= 0x4000_0000,
        -0x4000_0000 <= bottom_left.y <= 0x4000_0000,
    ensures
        final(bg)@.len() == old(bg)@.len(),
        forall|ry: int| 0 <= ry < final(bg)@.len() ==> (#[trigger] final(bg)@[ry])@.len() == old(bg)@[ry]@.len(),
        forall|ry: int, rx: int|
            0 <= ry < final(bg)@.len() && 0 <= rx < final(bg)@[ry]@.len() ==> (#[trigger] final(bg)@[ry]@[rx]) == sight_cell(
                old(bg)@[ry]@[rx],
                bottom_left,
                watchers@,
                match visible {
                    Some(v) => Some(v@),
                    None => None,
                },
                rx,
                ry,
            ),
{
    let ghost vis: Option<Seq<GridVec>> = match visible {
        Some(v) => Some(v@),
        None => None,
    };
    let ghost b0 = bg@;
    let mut ry: usize = 0;
    while ry < bg.len()
        invariant
            b0.len() <= 0x10000,
            forall|a: int| 0 <= a < b0.len() ==> (#[trigger] b0[a])@.len() <= 0x10000,
            -0x4000_0000 <= bottom_left.x <= 0x4000_0000,
            -0x4000_0000 <= bottom_left.y <= 0x4000_0000,
            vis == match visible {
                Some(v) => Some(v@),
                None => None,
            },
            bg@.len() == b0.len(),
            ry <= bg@.len(),
            forall|a: int| 0 <= a < bg@.len() ==> (#[trigger] bg@[a])@.len() == b0[a]@.len(),
            forall|a: int, c: int|
                0 <= a < ry && 0 <= c < bg@[a]@.len() ==> (#[trigger] bg@[a]@[c]) == sight_cell(
                    b0[a]@[c],
                    bottom_left,
                    watchers@,
                    vis,
                    c,
                    a,
                ),
            forall|a: int| ry <= a < bg@.len() ==> (#[trigger] bg@[a]) == b0[a],
        decreases b0.len() - ry,
    {
        let mut row = bg[ry].clone();
        assert(row@ == b0[ry as int]@);
        let mut rx: usize = 0;
        while rx < row.len()
            invariant
                row@.len() == b0[ry as int]@.len(),
                row@.len() <= 0x10000,
                ry < b0.len() <= 0x10000,
                -0x4000_0000 <= bottom_left.x <= 0x4000_0000,
                -0x4000_0000 <= bottom_left.y <= 0x4000_0000,
                vis == match visible {
                    Some(v) => Some(v@),
                    None => None,
                },
                rx <= row@.len(),
                forall|c: int| 0 <= c < rx ==> (#[trigger] row@[c]) == sight_cell(
                    b0[ry as int]@[c],
                    bottom_left,
                    watchers@,
                    vis,
                    c,
                    ry as int,
                ),
                forall|c: int| rx <= c < row@.len() ==> (#[trigger] row@[c]) == b0[ry as int]@[c],
            decreases row@.len() - rx,
        {
            let world = GridVec { x: bottom_left.x + rx as i32, y: bottom_left.y + ry as i32 };
            let in_view = match visible {
                Some(vt) => seq_has(vt, world),
                None => false,
            };
            let mut seen = false;
            if in_view {
                let mut i: usize = 0;
                while i < watchers.len()
                    invariant
                        i <= watchers@.len(),
                        seen == exists|j: int|
                            0 <= j < i && sight_shown(&watchers@[j], vis) && (#[trigger] watchers@[j].sees@).contains(world),
                        vis == match visible {
                            Some(v) => Some(v@),
                            None => None,
                        },
                    decreases watchers@.len() - i,
                {
                    let w = &watchers[i];
                    let shown = match w.faction {
                        Some(Faction::Wildlife) | Some(Faction::Civilians) => false,
                        _ => match visible {
                            Some(vt) => seq_has(vt, w.pos),
                            None => false,
                        },
                    };
                    if shown && seq_has(w.sees.as_slice(), world) {
                        seen = true;
                    }
                    proof {
                        assert(w == watchers@[i as int]);
                        if shown && w.sees@.contains(world) {
                            assert(sight_shown(&watchers@[i as int], vis) && watchers@[i as int].sees@.contains(world));
                        }
                    }
                    i = i + 1;
                }
            }
            let c = row[rx];
            if in_view && seen {
                let r = if c.r > 215 { 255 } else { c.r + 40 };
                let g = if c.g < 10 { 0 } else { c.g - 10 };
                let b = if c.b < 10 { 0 } else { c.b - 10 };
                row.set(rx, RgbColor { r, g, b });
            }
            proof {
                if in_view {
                    assert(enemy_sees(watchers@, vis, world) == seen);
                }
            }
            rx = rx + 1;
        }
        bg.set(ry, row);
        ry = ry + 1;
    }
}

impl GameMap {
    /// The grids have the map's dimensions.
    pub open spec fn wf(&self) -> bool {
        &&& 0 <= self.width
        &&& 0 <= self.height
        &&& self.voxels@.len() == self.height
        &&& forall|y: int| 0 <= y < self.height ==> (#[trigger] self.voxels@[y])@.len() == self.width
        &&& self.occupancy@.len() == self.width
        &&& forall|x: int| 0 <= x < self.width ==> (#[trigger] self.occupancy@[x])@.len() == self.height
    }

    /// The voxel at `(x, y)`.
    pub open spec fn voxel(&self, x: int, y: int) -> Voxel {
        self.voxels@[y]@[x]
    }

    /// Whether `(x, y)` is marked occupied.
    pub open spec fn occupied(&self, x: int, y: int) -> bool {
        self.occupancy@[x]@[y]
    }

    /// Whether `(x, y)` is on the map.
    pub open spec fn in_bounds(&self, x: int, y: int) -> bool {
        on_grid(self.width as int, self.height as int, x, y)
    }

    /// The voxel at `point`, or `None` off the map.
    pub fn get_voxel_at(&self, point: &GridVec) -> (r: Option<&Voxel>)
        requires
            self.voxels@.len() == self.height,
            forall|y: int| 0 <= y < self.height ==> (#[trigger] self.voxels@[y])@.len() == self.width,
        ensures
            match r {
                Some(v) => self.in_bounds(point.x as int, point.y as int) && *v == self.voxel(
                    point.x as int,
                    point.y as int,
                ),
                None => !self.in_bounds(point.x as int, point.y as int),
            },
    {
        let x = point.x;
        let y = point.y;
        if x >= 0 && x < self.width && y >= 0 && y < self.height {
            let row = &self.voxels[y as usize];
            Some(&row[x as usize])
        } else {
            None
        }
    }

    /// What cell `(rx, ry)` of a `w` by `h` view centred on `center` shows:
    /// the voxel of the world tile under it and whether that tile is lit
    /// (in `visible`, or always when no visibility set is given), or
    /// nothing off the map.
    pub open spec fn fog_cell(
        &self,
        center: GridVec,
        w: int,
        h: int,
        visible: Option<Seq<GridVec>>,
        rx: int,
        ry: int,
    ) -> Option<(Voxel, bool)> {
        let x = center.x - w / 2 + rx;
        let y = center.y - h / 2 + ry;
        if self.in_bounds(x, y) {
            Some(
                (
                    self.voxel(x, y),
                    match visible {
                        Some(v) => v.contains(GridVec { x: x as i32, y: y as i32 }),
                        None => true,
                    },
                ),
            )
        } else {
            None
        }
    }

    /// The view of the map drawn around `center`, `render_height` rows of
    /// `render_width` cells from the bottom-left corner: each cell holds the
    /// voxel under it and whether it is lit (visible tiles at full
    /// brightness, the rest dimmed), or nothing off the map.
    pub fn render_packet_with_fog(
        &self,
        center: &GridVec,
        render_width: u16,
        render_height: u16,
        visible_tiles: Option<&[GridVec]>,
    ) -> (r: Vec<Vec<Option<(Voxel, bool)>>>)
        requires
            self.wf(),
            -0x4000_0000 <= center.x <= 0x4000_0000,
            -0x4000_0000 <= center.y <= 0x4000_0000,
        ensures
            r@.len() == render_height,
            forall|ry: int| 0 <= ry < render_height ==> (#[trigger] r@[ry])@.len() == render_width,
            forall|ry: int, rx: int|
                0 <= ry < render_height && 0 <= rx < render_width ==> (#[trigger] r@[ry]@[rx]) == self.fog_cell(
                    *center,
                    render_width as int,
                    render_height as int,
                    match visible_tiles {
                        Some(v) => Some(v@),
                        None => None,
                    },
                    rx,
                    ry,
                ),
    {
        let w_radius = (render_width / 2) as i32;
        let h_radius = (render_height / 2) as i32;
        let left = center.x - w_radius;
        let bottom = center.y - h_radius;
        let ghost vis: Option<Seq<GridVec>> = match visible_tiles {
            Some(v) => Some(v@),
            None => None,
        };
        let mut grid: Vec<Vec<Option<(Voxel, bool)>>> = Vec::new();
        let mut ry: u16 = 0;
        while ry < render_height
            invariant
                self.wf(),
                -0x4000_0000 <= center.x <= 0x4000_0000,
                -0x4000_0000 <= center.y <= 0x4000_0000,
                left == center.x - render_width as int / 2,
                bottom == center.y - render_height as int / 2,
                vis == match visible_tiles {
                    Some(v) => Some(v@),
                    None => None,
                },
                ry <= render_height,
                grid@.len() == ry,
                forall|a: int| 0 <= a < ry ==> (#[trigger] grid@[a])@.len() == render_width,
                forall|a: int, b: int|
                    0 <= a < ry && 0 <= b < render_width ==> (#[trigger] grid@[a]@[b]) == self.fog_cell(
                        *center,
                        render_width as int,
                        render_height as int,
                        vis,
                        b,
                        a,
                    ),
            decreases render_height - ry,
        {
            let mut row: Vec<Option<(Voxel, bool)>> = Vec::new();
            let mut rx: u16 = 0;
            while rx < render_width
                invariant
                    self.wf(),
                    -0x4000_0000 <= center.x <= 0x4000_0000,
                    -0x4000_0000 <= center.y <= 0x4000_0000,
                    left == center.x - render_width as int / 2,
                    bottom == center.y - render_height as int / 2,
                    vis == match visible_tiles {
                        Some(v) => Some(v@),
                        None => None,
                    },
                    ry < render_height,
                    rx <= render_width,
                    row@.len() == rx,
                    forall|b: int| 0 <= b < rx ==> (#[trigger] row@[b]) == self.fog_cell(
                        *center,
                        render_width as int,
                        render_height as int,
                        vis,
                        b,
                        ry as int,
                    ),
                decreases render_width - rx,
            {
                let world_pos = GridVec { x: left + rx as i32, y: bottom + ry as i32 };
                let cell = match self.get_voxel_at(&world_pos) {
                    Some(v) => {
                        let lit = match visible_tiles {
                            Some(vt) => slice_contains(vt, world_pos),
                            None => true,
                        };
                        Some((*v, lit))
                    },
                    None => None,
                };
                row.push(cell);
                rx = rx + 1;
            }
            grid.push(row);
            ry = ry + 1;
        }
        grid
    }

    /// Marks the on-map tiles of the rectangle `[x, x + w) x [y, y + h)` as
    /// occupied.
    pub fn mark_occupied(&mut self, x: i32, y: i32, w: i32, h: i32)
        requires
            old(self).wf(),
            i32::MIN <= x + w <= i32::MAX,
            i32::MIN <= y + h <= i32::MAX,
        ensures
            final(self).wf(),
            final(self).width == old(self).width,
            final(self).height == old(self).height,
            final(self).voxels@ == old(self).voxels@,
            final(self).faction_anchors@ == old(self).faction_anchors@,
            forall|a: int, c: int|
                final(self).in_bounds(a, c) ==> #[trigger] final(self).occupied(a, c) == (old(self).occupied(
                    a,
                    c,
                ) || (x <= a < x + w && y <= c < y + h)),
    {
        let ghost before = *self;
        let mut iy = y;
        while iy < y + h
            invariant
                self.wf(),
                self.width == before.width,
                self.height == before.height,
                self.voxels@ == before.voxels@,
                self.faction_anchors@ == before.faction_anchors@,
                i32::MIN <= y + h <= i32::MAX,
                i32::MIN <= x + w <= i32::MAX,
                (h <= 0 && iy == y) || (y <= iy <= y + h),
                forall|a: int, c: int|
                    self.in_bounds(a, c) ==> #[trigger] self.occupied(a, c) == (before.occupied(a, c) || (x
                        <= a < x + w && y <= c < iy)),
            decreases y + h - iy,
        {
            let mut ix = x;
            while ix < x + w
                invariant
                    self.wf(),
                    self.width == before.width,
                    self.height == before.height,
                    self.voxels@ == before.voxels@,
                    self.faction_anchors@ == before.faction_anchors@,
                    y <= iy < y + h,
                    i32::MIN <= y + h <= i32::MAX,
                    i32::MIN <= x + w <= i32::MAX,
                    (w <= 0 && ix == x) || (x <= ix <= x + w),
                    forall|a: int, c: int|
                        self.in_bounds(a, c) ==> #[trigger] self.occupied(a, c) == (before.occupied(a, c) || (x
                            <= a < x + w && y <= c < iy) || (c == iy && x <= a < ix)),
                decreases x + w - ix,
            {
                if ix >= 0 && ix < self.width && iy >= 0 && iy < self.height {
                    let ghost pre = *self;
                    let ghost mid = self.occupancy@;
                    self.occupancy[ix as usize][iy as usize] = true;
                    proof {
                        assert forall|a: int, c: int| self.in_bounds(a, c) implies #[trigger] self.occupied(a, c)
                            == (before.occupied(a, c) || (x <= a < x + w && y <= c < iy) || (c == iy && x
                            <= a < ix + 1)) by {
                            assert(pre.occupied(a, c) == (before.occupied(a, c) || (x <= a < x + w && y
                                <= c < iy) || (c == iy && x <= a < ix)));
                            if a != ix {
                                assert(self.occupancy@[a] == mid[a]);
                            } else {
                                assert(self.occupancy@[a]@ == mid[a]@.update(iy as int, true));
                            }
                        }
                    }
                }
                ix = ix + 1;
            }
            iy = iy + 1;
        }
    }

    /// Whether any on-map tile of the rectangle `[x, x + w) x [y, y + h)` is
    /// occupied.
    pub fn is_occupied(&self, x: i32, y: i32, w: i32, h: i32) -> (r: bool)
        requires
            self.wf(),
            i32::MIN <= x + w <= i32::MAX,
            i32::MIN <= y + h <= i32::MAX,
        ensures
            r == exists|a: int, c: int|
                x <= a < x + w && y <= c < y + h && self.in_bounds(a, c) && #[trigger] self.occupied(a, c),
    {
        let mut iy = y;
        while iy < y + h
            invariant
                self.wf(),
                i32::MIN <= y + h <= i32::MAX,
                i32::MIN <= x + w <= i32::MAX,
                (h <= 0 && iy == y) || (y <= iy <= y + h),
                forall|a: int, c: int|
                    x <= a < x + w && y <= c < iy && self.in_bounds(a, c) ==> !#[trigger] self.occupied(a, c),
            decreases y + h - iy,
        {
            let mut ix = x;
            while ix < x + w
                invariant
                    self.wf(),
                    y <= iy < y + h,
                    i32::MIN <= x + w <= i32::MAX,
                    (w <= 0 && ix == x) || (x <= ix <= x + w),
                    forall|a: int, c: int|
                        x <= a < x + w && y <= c < iy && self.in_bounds(a, c) ==> !#[trigger] self.occupied(a, c),
                    forall|a: int| x <= a < ix && self.in_bounds(a, iy as int) ==> !#[trigger] self.occupied(a, iy as int),
                decreases x + w - ix,
            {
                if ix >= 0 && ix < self.width && iy >= 0 && iy < self.height {
                    if self.occupancy[ix as usize][iy as usize] {
                        assert(self.occupied(ix as int, iy as int));
                        return true;
                    }
                }
                ix = ix + 1;
            }
            assert forall|a: int, c: int|
                x <= a < x + w && y <= c < iy + 1 && self.in_bounds(a, c) implies !#[trigger] self.occupied(a, c) by {
                if c == iy {
                    assert(!self.occupied(a, iy as int));
                }
            }
            iy = iy + 1;
        }
        false
    }

    /// Whether any on-map tile of the rectangle is water or beach.
    pub fn is_water_occupied(&self, x: i32, y: i32, w: i32, h: i32) -> (r: bool)
        requires
            self.wf(),
            i32::MIN <= x + w <= i32::MAX,
            i32::MIN <= y + h <= i32::MAX,
        ensures
            r == exists|a: int, c: int|
                x <= a < x + w && y <= c < y + h && self.in_bounds(a, c) && #[trigger] self.water_at(a, c),
    {
        let mut iy = y;
        while iy < y + h
            invariant
                self.wf(),
                i32::MIN <= y + h <= i32::MAX,
                i32::MIN <= x + w <= i32::MAX,
                (h <= 0 && iy == y) || (y <= iy <= y + h),
                forall|a: int, c: int|
                    x <= a < x + w && y <= c < iy && self.in_bounds(a, c) ==> !#[trigger] self.water_at(a, c),
            decreases y + h - iy,
        {
            let mut ix = x;
            while ix < x + w
                invariant
                    self.wf(),
                    y <= iy < y + h,
                    i32::MIN <= x + w <= i32::MAX,
                    (w <= 0 && ix == x) || (x <= ix <= x + w),
                    forall|a: int, c: int|
                        x <= a < x + w && y <= c < iy && self.in_bounds(a, c) ==> !#[trigger] self.water_at(a, c),
                    forall|a: int| x <= a < ix && self.in_bounds(a, iy as int) ==> !#[trigger] self.water_at(a, iy as int),
                decreases x + w - ix,
            {
                if ix >= 0 && ix < self.width && iy >= 0 && iy < self.height {
                    if water_floor(self.voxels[iy as usize][ix as usize].floor) {
                        assert(self.water_at(ix as int, iy as int));
                        return true;
                    }
                }
                ix = ix + 1;
            }
            assert forall|a: int, c: int|
                x <= a < x + w && y <= c < iy + 1 && self.in_bounds(a, c) implies !#[trigger] self.water_at(a, c) by {
                if c == iy {
                    assert(!self.water_at(a, iy as int));
                }
            }
            iy = iy + 1;
        }
        false
    }

    /// Whether any on-map tile of the rectangle is a road, water or beach
    /// tile, where no building or landmark may stand.
    pub fn has_excluded_tile(&self, x: i32, y: i32, w: i32, h: i32) -> (r: bool)
        requires
            self.wf(),
            i32::MIN <= x + w <= i32::MAX,
            i32::MIN <= y + h <= i32::MAX,
        ensures
            r == exists|a: int, c: int|
                x <= a < x + w && y <= c < y + h && self.in_bounds(a, c) && #[trigger] self.excluded_at(a, c),
    {
        let mut iy = y;
        while iy < y + h
            invariant
                self.wf(),
                i32::MIN <= y + h <= i32::MAX,
                i32::MIN <= x + w <= i32::MAX,
                (h <= 0 && iy == y) || (y <= iy <= y + h),
                forall|a: int, c: int|
                    x <= a < x + w && y <= c < iy && self.in_bounds(a, c) ==> !#[trigger] self.excluded_at(a, c),
            decreases y + h - iy,
        {
            let mut ix = x;
            while ix < x + w
                invariant
                    self.wf(),
                    y <= iy < y + h,
                    i32::MIN <= x + w <= i32::MAX,
                    (w <= 0 && ix == x) || (x <= ix <= x + w),
                    forall|a: int, c: int|
                        x <= a < x + w && y <= c < iy && self.in_bounds(a, c) ==> !#[trigger] self.excluded_at(a, c),
                    forall|a: int| x <= a < ix && self.in_bounds(a, iy as int) ==> !#[trigger] self.excluded_at(a, iy as int),
                decreases x + w - ix,
            {
                if ix >= 0 && ix < self.width && iy >= 0 && iy < self.height {
                    if excluded_floor(self.voxels[iy as usize][ix as usize].floor) {
                        assert(self.excluded_at(ix as int, iy as int));
                        return true;
                    }
                }
                ix = ix + 1;
            }
            assert forall|a: int, c: int|
                x <= a < x + w && y <= c < iy + 1 && self.in_bounds(a, c) implies !#[trigger] self.excluded_at(a, c) by {
                if c == iy {
                    assert(!self.excluded_at(a, iy as int));
                }
            }
            iy = iy + 1;
        }
        false
    }

    /// Whether the tile at `(x, y)` is a bridge.
    pub open spec fn bridge_at(&self, x: int, y: int) -> bool {
        self.voxel(x, y).floor == Some(Floor::Bridge)
    }

    /// The bridge tile closest (in x) to the horizontal centre of the map:
    /// the first such tile in row-major order among those at the least
    /// distance, or `None` when the map has no bridge.
    pub fn find_bridge_center(&self) -> (r: Option<GridVec>)
        requires
            self.wf(),
        ensures
            match r {
                Some(p) => {
                    &&& self.in_bounds(p.x as int, p.y as int)
                    &&& self.bridge_at(p.x as int, p.y as int)
                    &&& forall|a: int, c: int|
                        self.in_bounds(a, c) && #[trigger] self.bridge_at(a, c) ==> abs_int(
                            p.x - self.width / 2,
                        ) <= abs_int(a - self.width / 2) && ((c < p.y || (c == p.y && a < p.x))
                            ==> abs_int(p.x - self.width / 2) < abs_int(a - self.width / 2))
                },
                None => forall|a: int, c: int| self.in_bounds(a, c) ==> !#[trigger] self.bridge_at(a, c),
            },
    {
        let target_x = self.width / 2;
        let mut best: Option<(i32, GridVec)> = None;
        let mut y: i32 = 0;
        while y < self.height
            invariant
                self.wf(),
                target_x == self.width / 2,
                0 <= y <= self.height,
                match best {
                    Some((d, p)) => {
                        &&& self.in_bounds(p.x as int, p.y as int)
                        &&& p.y < y
                        &&& self.bridge_at(p.x as int, p.y as int)
                        &&& d == abs_int(p.x - target_x)
                        &&& forall|a: int, c: int|
                            self.in_bounds(a, c) && c < y && #[trigger] self.bridge_at(a, c) ==> d <= abs_int(
                                a - target_x,
                            ) && ((c < p.y || (c == p.y && a < p.x)) ==> d < abs_int(a - target_x))
                    },
                    None => forall|a: int, c: int|
                        self.in_bounds(a, c) && c < y ==> !#[trigger] self.bridge_at(a, c),
                },
            decreases self.height - y,
        {
            let mut x: i32 = 0;
            while x < self.width
                invariant
                    self.wf(),
                    target_x == self.width / 2,
                    0 <= y < self.height,
                    0 <= x <= self.width,
                    match best {
                        Some((d, p)) => {
                            &&& self.in_bounds(p.x as int, p.y as int)
                            &&& (p.y < y || (p.y == y && p.x < x))
                            &&& self.bridge_at(p.x as int, p.y as int)
                            &&& d == abs_int(p.x - target_x)
                            &&& forall|a: int, c: int|
                                self.in_bounds(a, c) && (c < y || (c == y && a < x)) && #[trigger] self.bridge_at(
                                    a,
                                    c,
                                ) ==> d <= abs_int(a - target_x) && ((c < p.y || (c == p.y && a < p.x)) ==> d
                                    < abs_int(a - target_x))
                        },
                        None => forall|a: int, c: int|
                            self.in_bounds(a, c) && (c < y || (c == y && a < x)) ==> !#[trigger] self.bridge_at(
                                a,
                                c,
                            ),
                    },
                decreases self.width - x,
            {
                let row = &self.voxels[y as usize];
                let is_bridge = match row[x as usize].floor {
                    Some(Floor::Bridge) => true,
                    _ => false,
                };
                if is_bridge {
                    let dist = if x - target_x < 0 { target_x - x } else { x - target_x };
                    let better = match best {
                        None => true,
                        Some((d, _)) => dist < d,
                    };
                    if better {
                        best = Some((dist, GridVec::new(x, y)));
                    }
                }
                x = x + 1;
            }
            y = y + 1;
        }
        match best {
            Some((_, p)) => Some(p),
            None => None,
        }
    }

    /// The chunk coordinates `(cx, cy)` of every chunk that overlaps the
    /// viewport of the given size centred on `center`, row by row (each
    /// row left to right, rows bottom to top).
    pub fn active_chunks(&self, center: &GridVec, render_width: u16, render_height: u16) -> (r: Vec<
        (CoordinateUnit, CoordinateUnit),
    >)
        requires
            abs_int(center.x as int) <= i32::MAX - 0x8000,
            abs_int(center.y as int) <= i32::MAX - 0x8000,
        ensures
            ({
                let min_x = (center.x - render_width / 2) / CHUNK_SIZE as int;
                let max_x = (center.x + render_width / 2) / CHUNK_SIZE as int;
                let min_y = (center.y - render_height / 2) / CHUNK_SIZE as int;
                let max_y = (center.y + render_height / 2) / CHUNK_SIZE as int;
                let nx = max_x - min_x + 1;
                &&& r@.len() == (max_y + 1 - min_y) * nx
                &&& forall|i: int|
                    0 <= i < r@.len() ==> #[trigger] r@[i] == ((min_x + i % nx) as i32, (min_y + i / nx) as i32)
            }),
    {
        let w_radius = (render_width / 2) as CoordinateUnit;
        let h_radius = (render_height / 2) as CoordinateUnit;
        let min_x = div_euclid_pos(center.x - w_radius, CHUNK_SIZE);
        let max_x = div_euclid_pos(center.x + w_radius, CHUNK_SIZE);
        let min_y = div_euclid_pos(center.y - h_radius, CHUNK_SIZE);
        let max_y = div_euclid_pos(center.y + h_radius, CHUNK_SIZE);
        proof {
            vstd::arithmetic::div_mod::lemma_div_is_ordered(center.x - w_radius, center.x + w_radius, 16);
            vstd::arithmetic::div_mod::lemma_div_is_ordered(center.y - h_radius, center.y + h_radius, 16);
        }
        let ghost nx: int = max_x - min_x + 1;
        let mut chunks: Vec<(CoordinateUnit, CoordinateUnit)> = Vec::new();
        let mut cy = min_y;
        while cy <= max_y
            invariant
                min_x <= max_x,
                min_y <= cy <= max_y + 1,
                nx == max_x - min_x + 1,
                max_y < 0x1000_0000,
                min_y > -0x1000_0000,
                max_x < 0x1000_0000,
                min_x > -0x1000_0000,
                chunks@.len() == (cy - min_y) * nx,
                forall|i: int|
                    0 <= i < chunks@.len() ==> #[trigger] chunks@[i] == ((min_x + i % nx) as i32, (min_y + i
                        / nx) as i32),
            decreases max_y + 1 - cy,
        {
            let mut cx = min_x;
            while cx <= max_x
                invariant
                    min_x <= cx <= max_x + 1,
                    min_y <= cy <= max_y,
                    nx == max_x - min_x + 1,
                    max_y < 0x1000_0000,
                    min_y > -0x1000_0000,
                    max_x < 0x1000_0000,
                    min_x > -0x1000_0000,
                    chunks@.len() == (cy - min_y) * nx + (cx - min_x),
                    forall|i: int|
                        0 <= i < chunks@.len() ==> #[trigger] chunks@[i] == ((min_x + i % nx) as i32, (min_y
                            + i / nx) as i32),
                decreases max_x + 1 - cx,
            {
                proof {
                    let k = (cy - min_y) * nx + (cx - min_x);
                    vstd::arithmetic::div_mod::lemma_fundamental_div_mod_converse(
                        k,
                        nx,
                        cy - min_y,
                        cx - min_x,
                    );
                }
                chunks.push((cx, cy));
                cx = cx + 1;
            }
            proof {
                assert((cy - min_y) * nx + nx == (cy + 1 - min_y) * nx) by (nonlinear_arith);
            }
            cy = cy + 1;
        }
        assert(min_x == (center.x - render_width / 2) / CHUNK_SIZE as int);
        assert(max_x == (center.x + render_width / 2) / CHUNK_SIZE as int);
        assert(min_y == (center.y - render_height / 2) / CHUNK_SIZE as int);
        assert(max_y == (center.y + render_height / 2) / CHUNK_SIZE as int);
        chunks
    }

    /// Whether `(x, y)` can be walked on, given the prop kinds that block
    /// movement: on the map, not water, and free of blocking props.
    pub open spec fn passable_at(&self, blocking: Seq<Props>, x: int, y: int) -> bool {
        &&& self.in_bounds(x, y)
        &&& self.voxel(x, y).floor != Some(Floor::ShallowWater)
        &&& self.voxel(x, y).floor != Some(Floor::DeepWater)
        &&& match self.voxel(x, y).props {
            Some(p) => !blocking.contains(p),
            None => true,
        }
    }

    /// Whether `(x, y)` is a good spawn tile: passable, empty, and neither
    /// burning nor water.
    pub open spec fn spawnable_at(&self, blocking: Seq<Props>, x: int, y: int) -> bool {
        &&& self.passable_at(blocking, x, y)
        &&& self.voxel(x, y).props is None
        &&& self.voxel(x, y).floor != Some(Floor::Fire)
    }

    /// Whether the tile at `point` is passable: on the map, not water, and
    /// without a prop of a kind in `blocking` (the prop kinds that block
    /// movement).
    pub fn is_passable(&self, point: &GridVec, blocking: &[Props]) -> (r: bool)
        requires
            self.wf(),
        ensures
            r == self.passable_at(blocking@, point.x as int, point.y as int),
    {
        match self.get_voxel_at(point) {
            Some(v) => {
                let water = match v.floor {
                    Some(Floor::ShallowWater) | Some(Floor::DeepWater) => true,
                    _ => false,
                };
                if water {
                    return false;
                }
                match v.props {
                    Some(p) => !props_listed(blocking, p),
                    None => true,
                }
            },
            None => false,
        }
    }

    /// Whether the tile at `point` is suitable for spawning an entity:
    /// passable, with no prop, and not fire or water.
    pub fn is_spawnable(&self, point: &GridVec, blocking: &[Props]) -> (r: bool)
        requires
            self.wf(),
        ensures
            r == self.spawnable_at(blocking@, point.x as int, point.y as int),
    {
        if !self.is_passable(point, blocking) {
            return false;
        }
        match self.get_voxel_at(point) {
            Some(v) => v.props.is_none() && !(match v.floor {
                Some(Floor::Fire) | Some(Floor::DeepWater) | Some(Floor::ShallowWater) => true,
                _ => false,
            }),
            None => false,
        }
    }

    /// A spawnable tile near `center`: the search runs ring by ring
    /// (Chebyshev distance 0, 1, ... `radius`), each ring row by row, and
    /// returns the first spawnable tile; `None` when no tile within
    /// `radius` is spawnable.
    pub fn find_spawnable_near(&self, center: GridVec, radius: i32, blocking: &[Props]) -> (r: Option<GridVec>)
        requires
            self.wf(),
            abs_int(center.x as int) + radius <= i32::MAX,
            abs_int(center.y as int) + radius <= i32::MAX,
            radius < i32::MAX,
        ensures
            match r {
                Some(p) => {
                    &&& self.spawnable_at(blocking@, p.x as int, p.y as int)
                    &&& crate::grid_vec::chebyshev(p, center) <= radius
                    &&& forall|a: int, c: int|
                        #![trigger self.spawnable_at(blocking@, a, c)]
                        max_int(abs_int(a - center.x), abs_int(c - center.y)) < crate::grid_vec::chebyshev(p, center)
                            ==> !self.spawnable_at(blocking@, a, c)
                },
                None => forall|a: int, c: int|
                    #![trigger self.spawnable_at(blocking@, a, c)]
                    max_int(abs_int(a - center.x), abs_int(c - center.y)) <= radius ==> !self.spawnable_at(
                        blocking@,
                        a,
                        c,
                    ),
            },
    {
        let mut r: i32 = 0;
        while r <= radius
            invariant
                self.wf(),
                abs_int(center.x as int) + radius <= i32::MAX,
                abs_int(center.y as int) + radius <= i32::MAX,
                radius < i32::MAX,
                0 <= r <= radius + 1 || (radius < 0 && r == 0),
                forall|a: int, c: int|
                    #![trigger self.spawnable_at(blocking@, a, c)]
                    max_int(abs_int(a - center.x), abs_int(c - center.y)) < r ==> !self.spawnable_at(blocking@, a, c),
            decreases radius + 1 - r,
        {
            let mut dy: i32 = -r;
            while dy <= r
                invariant
                    self.wf(),
                    abs_int(center.x as int) + radius <= i32::MAX,
                    abs_int(center.y as int) + radius <= i32::MAX,
                    0 <= r <= radius,
                    radius < i32::MAX,
                    -r <= dy <= r + 1,
                    forall|a: int, c: int|
                        #![trigger self.spawnable_at(blocking@, a, c)]
                        max_int(abs_int(a - center.x), abs_int(c - center.y)) < r ==> !self.spawnable_at(blocking@, a, c),
                    forall|a: int, c: int|
                        #![trigger self.spawnable_at(blocking@, a, c)]
                        max_int(abs_int(a - center.x), abs_int(c - center.y)) == r && c - center.y < dy
                            ==> !self.spawnable_at(blocking@, a, c),
                decreases r + 1 - dy,
            {
                let mut dx: i32 = -r;
                while dx <= r
                    invariant
                        self.wf(),
                        abs_int(center.x as int) + radius <= i32::MAX,
                        abs_int(center.y as int) + radius <= i32::MAX,
                        0 <= r <= radius,
                        radius < i32::MAX,
                        -r <= dy <= r,
                        -r <= dx <= r + 1,
                        forall|a: int, c: int|
                            #![trigger self.spawnable_at(blocking@, a, c)]
                            max_int(abs_int(a - center.x), abs_int(c - center.y)) < r ==> !self.spawnable_at(blocking@, a, c),
                        forall|a: int, c: int|
                            #![trigger self.spawnable_at(blocking@, a, c)]
                            max_int(abs_int(a - center.x), abs_int(c - center.y)) == r && (c - center.y < dy || (c
                                - center.y == dy && a - center.x < dx)) ==> !self.spawnable_at(blocking@, a, c),
                    decreases r + 1 - dx,
                {
                    let on_ring = (if dx < 0 { -dx } else { dx }) == r || (if dy < 0 { -dy } else { dy }) == r;
                    if on_ring {
                        let pos = center + GridVec::new(dx, dy);
                        if self.is_spawnable(&pos, blocking) {
                            return Some(pos);
                        }
                    }
                    dx = dx + 1;
                }
                dy = dy + 1;
            }
            r = r + 1;
        }
        None
    }

    /// Whether the tile at `(x, y)` is water or beach.
    pub open spec fn water_at(&self, x: int, y: int) -> bool {
        is_water_floor(self.voxel(x, y).floor)
    }

    /// Whether the tile at `(x, y)` is road, water or beach sand.
    pub open spec fn excluded_at(&self, x: int, y: int) -> bool {
        is_excluded_floor(self.voxel(x, y).floor)
    }
}

/// Whether `set_prop` may put a prop on the tile `(x, y)`: on the map,
/// not yet claimed, not a wall, and not road, beach sand, water or bridge.
pub open spec fn prop_allowed(m: &GameMap, x: int, y: int) -> bool {
    &&& m.in_bounds(x, y)
    &&& !m.occupied(x, y)
    &&& m.voxel(x, y).props != Some(Props::Wall)
    &&& m.voxel(x, y).props != Some(Props::StoneWall)
    &&& !(m.voxel(x, y).floor == Some(Floor::DirtRoad) || m.voxel(x, y).floor == Some(Floor::BeachSand) || m.voxel(
        x,
        y,
    ).floor == Some(Floor::ShallowWater) || m.voxel(x, y).floor == Some(Floor::DeepWater) || m.voxel(
        x,
        y,
    ).floor == Some(Floor::Bridge))
}

/// The map differs from `old` at most in the voxels, which keep their
/// dimensions.
pub open spec fn same_frame(m: &GameMap, old: &GameMap) -> bool {
    &&& m.wf()
    &&& m.width == old.width
    &&& m.height == old.height
    &&& m.occupancy@ == old.occupancy@
    &&& m.faction_anchors@ == old.faction_anchors@
    &&& m.fire_turns@ == old.fire_turns@
    &&& m.sand_cloud_turns@ == old.sand_cloud_turns@
    &&& m.sand_cloud_previous_floor@ == old.sand_cloud_previous_floor@
}

/// Writes voxel `v` at the on-map tile `(x, y)`.
pub(crate) fn put_voxel(map: &mut GameMap, x: i32, y: i32, v: Voxel)
    requires
        old(map).wf(),
        old(map).in_bounds(x as int, y as int),
    ensures
        same_frame(final(map), old(map)),
        forall|a: int, c: int|
            final(map).in_bounds(a, c) ==> #[trigger] final(map).voxel(a, c) == if a == x && c == y {
                v
            } else {
                old(map).voxel(a, c)
            },
{
    let ghost pre = *map;
    map.voxels[y as usize][x as usize] = v;
    proof {
        assert forall|a: int, c: int| map.in_bounds(a, c) implies #[trigger] map.voxel(a, c) == if a == x
            && c == y {
            v
        } else {
            pre.voxel(a, c)
        } by {
            if c != y {
                assert(map.voxels@[c] == pre.voxels@[c]);
            } else {
                assert(map.voxels@[c]@ == pre.voxels@[c]@.update(x as int, v));
            }
        }
        assert forall|r: int| 0 <= r < map.height implies (#[trigger] map.voxels@[r])@.len() == map.width by {
            if r != y {
                assert(map.voxels@[r] == pre.voxels@[r]);
            }
        }
    }
}

/// Puts `prop` on the tile `(x, y)` if it is on the map, unclaimed, not a
/// wall, and not road, beach sand, water or bridge; otherwise leaves the
/// map unchanged.
pub fn set_prop(map: &mut GameMap, x: CoordinateUnit, y: CoordinateUnit, prop: Props)
    requires
        old(map).wf(),
    ensures
        same_frame(final(map), old(map)),
        forall|a: int, c: int|
            final(map).in_bounds(a, c) ==> #[trigger] final(map).voxel(a, c) == if a == x && c == y
                && prop_allowed(old(map), a, c) {
                Voxel { floor: old(map).voxel(a, c).floor, props: Some(prop) }
            } else {
                old(map).voxel(a, c)
            },
{
    if x < 0 || x >= map.width || y < 0 || y >= map.height {
        return;
    }
    if map.occupancy[x as usize][y as usize] {
        return;
    }
    let v = map.voxels[y as usize][x as usize];
    let wall = match v.props {
        Some(Props::Wall) | Some(Props::StoneWall) => true,
        _ => false,
    };
    let bad_floor = match v.floor {
        Some(Floor::DirtRoad) | Some(Floor::BeachSand) | Some(Floor::ShallowWater) | Some(Floor::DeepWater)
        | Some(Floor::Bridge) => true,
        _ => false,
    };
    if !wall && !bad_floor {
        put_voxel(map, x, y, Voxel { floor: v.floor, props: Some(prop) });
    }
}

/// Plain rectangular building.
pub const SHAPE_RECT: u32 = 0;
/// Rectangle with its corners cut off.
pub const SHAPE_ROUNDED: u32 = 1;
/// Rectangle with its top-right corner notched out.
pub const SHAPE_L: u32 = 2;
/// How far a rounded corner reaches along each edge.
pub const ROUNDED_CORNER_RADIUS: CoordinateUnit = 2;
/// The L notch spans this fraction (one over the divisor) of each side.
pub const L_SHAPE_NOTCH_DIVISOR: CoordinateUnit = 3;

/// Churches, banks and jails are built of stone.
pub open spec fn stone_kind(kind: u32) -> bool {
    kind == 6 || kind == 7 || kind == 9
}

/// The wall prop of a building kind.
pub open spec fn wall_prop_of(kind: u32) -> Props {
    if stone_kind(kind) {
        Props::StoneWall
    } else {
        Props::Wall
    }
}

/// The floor of a building kind.
pub open spec fn floor_of(kind: u32) -> Floor {
    if stone_kind(kind) {
        Floor::StoneFloor
    } else {
        Floor::WoodPlanks
    }
}

/// A building's coordinates are small enough for all placement arithmetic.
pub open spec fn building_in_range(b: Building) -> bool {
    small(b.x as int) && small(b.y as int) && 0 <= b.w && small(b.w as int) && 0 <= b.h && small(
        b.h as int,
    )
}

/// The shape a building gets with `seed`: buildings at least 8 by 8 take
/// the noise at `(x + y, w + h)` scaled to `[0, 3]`; smaller ones are
/// rectangles.
pub open spec fn building_shape(b: Building, seed: u64) -> u32 {
    if b.w >= 8 && b.h >= 8 {
        fraction_scaled(
            noise2d_spec((b.x + b.y) as i32, (b.w + b.h) as i32, vstd::wrapping::u64_specs::wrapping_add(seed, 77777)),
            3,
        ) as u32
    } else {
        SHAPE_RECT
    }
}

/// Left edge of the L notch.
pub open spec fn notch_x(b: Building) -> int {
    b.x + b.w - b.w / L_SHAPE_NOTCH_DIVISOR
}

/// Bottom edge of the L notch.
pub open spec fn notch_y(b: Building) -> int {
    b.y + b.h - b.h / L_SHAPE_NOTCH_DIVISOR
}

/// Whether `(x, y)` lies inside the building's bounding rectangle.
pub open spec fn in_rect(b: Building, x: int, y: int) -> bool {
    b.x <= x < b.x + b.w && b.y <= y < b.y + b.h
}

/// Whether `(x, y)` lies in the notch cut from an L-shaped building.
pub open spec fn in_notch(b: Building, shape: u32, x: int, y: int) -> bool {
    shape == SHAPE_L && x >= notch_x(b) && y >= notch_y(b)
}

/// Whether `(x, y)` is part of the building's footprint.
pub open spec fn in_footprint(b: Building, shape: u32, x: int, y: int) -> bool {
    in_rect(b, x, y) && !in_notch(b, shape, x, y)
}

/// Whether `(x, y)` is on the outer edge of the footprint.
pub open spec fn on_border(b: Building, shape: u32, x: int, y: int) -> bool {
    if shape == SHAPE_L {
        ||| x == b.x
        ||| (x == b.x + b.w - 1 && y < notch_y(b))
        ||| (x == notch_x(b) - 1 && y >= notch_y(b))
        ||| (y == b.y + b.h - 1 && x < notch_x(b))
        ||| (y == notch_y(b) - 1 && x >= notch_x(b))
        ||| y == b.y
    } else {
        x == b.x || x == b.x + b.w - 1 || y == b.y || y == b.y + b.h - 1
    }
}

/// Whether `(x, y)` is a front or back door (middle of the top or bottom
/// edge; the top door is dropped when the notch removes it).
pub open spec fn is_door(b: Building, shape: u32, x: int, y: int) -> bool {
    (y == b.y + b.h - 1 && x == b.x + b.w / 2 && (shape != SHAPE_L || x < notch_x(b))) || (y == b.y
        && x == b.x + b.w / 2)
}

/// Whether `(x, y)` is a side door (middle of the left or right edge) of
/// a building at least 9 tiles wide or tall.
pub open spec fn is_side_door(b: Building, shape: u32, x: int, y: int) -> bool {
    (b.w >= 9 || b.h >= 9) && ((x == b.x && y == b.y + b.h / 2) || (x == b.x + b.w - 1 && y == b.y
        + b.h / 2 && (shape != SHAPE_L || y < notch_y(b))))
}

/// Whether `(x, y)` lies in a cut-off corner of a rounded building.
pub open spec fn is_round_corner(b: Building, shape: u32, x: int, y: int) -> bool {
    shape == SHAPE_ROUNDED && (b.x + b.w - 1 - x < ROUNDED_CORNER_RADIUS || x - b.x
        < ROUNDED_CORNER_RADIUS) && (b.y + b.h - 1 - y < ROUNDED_CORNER_RADIUS || y - b.y
        < ROUNDED_CORNER_RADIUS)
}

/// Whether `(x, y)` is a wall tile of the building's outline: a border
/// tile of the footprint that is neither a door nor a cut corner.
pub open spec fn outline_wall(b: Building, shape: u32, x: int, y: int) -> bool {
    in_footprint(b, shape, x, y) && on_border(b, shape, x, y) && !is_door(b, shape, x, y)
        && !is_side_door(b, shape, x, y) && !is_round_corner(b, shape, x, y)
}

/// The shape of building `b` under `seed`.
fn shape_for(b: &Building, seed: NoiseSeed) -> (r: u32)
    requires
        building_in_range(*b),
    ensures
        r == building_shape(*b, seed),
{
    if b.w >= 8 && b.h >= 8 {
        let n = noise_scaled(b.x + b.y, b.w + b.h, seed.wrapping_add(77777), 3);
        n as u32
    } else {
        SHAPE_RECT
    }
}

/// Whether the tile `(x, y)` of building `b` (shape `shape`) is an outline
/// wall tile.
fn outline_wall_at(b: &Building, shape: u32, x: i32, y: i32) -> (r: bool)
    requires
        building_in_range(*b),
        in_rect(*b, x as int, y as int),
    ensures
        r == outline_wall(*b, shape, x as int, y as int),
{
    let notch_x_start = b.x + b.w - b.w / L_SHAPE_NOTCH_DIVISOR;
    let notch_y_start = b.y + b.h - b.h / L_SHAPE_NOTCH_DIVISOR;
    if shape == SHAPE_L && x >= notch_x_start && y >= notch_y_start {
        return false;
    }
    let is_border = if shape == SHAPE_L {
        let left_out = x == b.x;
        let right_out = x == b.x + b.w - 1 && y < notch_y_start;
        let right_notch_edge = x == notch_x_start - 1 && y >= notch_y_start;
        let top_out = y == b.y + b.h - 1 && x < notch_x_start;
        let top_notch_edge = y == notch_y_start - 1 && x >= notch_x_start;
        let bottom_out = y == b.y;
        left_out || right_out || right_notch_edge || top_out || top_notch_edge || bottom_out
    } else {
        x == b.x || x == b.x + b.w - 1 || y == b.y || y == b.y + b.h - 1
    };
    let is_door = (y == b.y + b.h - 1 && x == b.x + b.w / 2 && (shape != SHAPE_L || x < notch_x_start))
        || (y == b.y && x == b.x + b.w / 2);
    let is_side_door = if b.w >= 9 || b.h >= 9 {
        (x == b.x && y == b.y + b.h / 2) || (x == b.x + b.w - 1 && y == b.y + b.h / 2 && (shape
            != SHAPE_L || y < notch_y_start))
    } else {
        false
    };
    let corner_radius = ROUNDED_CORNER_RADIUS;
    let is_corner = if shape == SHAPE_ROUNDED {
        (b.x + b.w - 1 - x < corner_radius || x - b.x < corner_radius) && (b.y + b.h - 1 - y
            < corner_radius || y - b.y < corner_radius)
    } else {
        false
    };
    is_border && !is_door && !is_side_door && !is_corner
}

/// The voxel a tile of the footprint gets when the shell is laid: the
/// building's floor, with a wall on the outline and nothing elsewhere.
pub open spec fn shell_voxel(b: Building, shape: u32, x: int, y: int) -> Voxel {
    Voxel {
        floor: Some(floor_of(b.kind)),
        props: if outline_wall(b, shape, x, y) {
            Some(wall_prop_of(b.kind))
        } else {
            None
        },
    }
}

/// Lays the floor and outline walls of building `b` with shape `shape`
/// over every on-map tile of its footprint.
fn build_shell(map: &mut GameMap, b: &Building, shape: u32)
    requires
        old(map).wf(),
        building_in_range(*b),
    ensures
        same_frame(final(map), old(map)),
        forall|a: int, c: int|
            final(map).in_bounds(a, c) ==> #[trigger] final(map).voxel(a, c) == if in_footprint(
                *b,
                shape,
                a,
                c,
            ) {
                shell_voxel(*b, shape, a, c)
            } else {
                old(map).voxel(a, c)
            },
{
    let ghost orig = *map;
    let wall_prop = if b.kind == 6 || b.kind == 7 || b.kind == 9 {
        Props::StoneWall
    } else {
        Props::Wall
    };
    let floor = if b.kind == 6 || b.kind == 7 || b.kind == 9 {
        Floor::StoneFloor
    } else {
        Floor::WoodPlanks
    };
    let mut y = b.y;
    while y < b.y + b.h
        invariant
            building_in_range(*b),
            wall_prop == wall_prop_of(b.kind),
            floor == floor_of(b.kind),
            b.y <= y <= b.y + b.h,
            same_frame(map, &orig),
            forall|a: int, c: int|
                map.in_bounds(a, c) ==> #[trigger] map.voxel(a, c) == if in_footprint(*b, shape, a, c)
                    && c < y {
                    shell_voxel(*b, shape, a, c)
                } else {
                    orig.voxel(a, c)
                },
        decreases b.y + b.h - y,
    {
        let mut x = b.x;
        while x < b.x + b.w
            invariant
                building_in_range(*b),
                wall_prop == wall_prop_of(b.kind),
                floor == floor_of(b.kind),
                b.y <= y < b.y + b.h,
                b.x <= x <= b.x + b.w,
                same_frame(map, &orig),
                forall|a: int, c: int|
                    map.in_bounds(a, c) ==> #[trigger] map.voxel(a, c) == if in_footprint(*b, shape, a, c)
                        && (c < y || (c == y && a < x)) {
                        shell_voxel(*b, shape, a, c)
                    } else {
                        orig.voxel(a, c)
                    },
            decreases b.x + b.w - x,
        {
            if x >= 0 && x < map.width && y >= 0 && y < map.height {
                let wall = outline_wall_at(b, shape, x, y);
                let notch_x_start = b.x + b.w - b.w / L_SHAPE_NOTCH_DIVISOR;
                let notch_y_start = b.y + b.h - b.h / L_SHAPE_NOTCH_DIVISOR;
                if !(shape == SHAPE_L && x >= notch_x_start && y >= notch_y_start) {
                    let v = if wall {
                        Voxel { floor: Some(floor), props: Some(wall_prop) }
                    } else {
                        Voxel { floor: Some(floor), props: None }
                    };
                    let ghost pre = *map;
                    put_voxel(map, x, y, v);
                    proof {
                        assert forall|a: int, c: int| map.in_bounds(a, c) implies #[trigger] map.voxel(a, c)
                            == if in_footprint(*b, shape, a, c) && (c < y || (c == y && a < x + 1)) {
                            shell_voxel(*b, shape, a, c)
                        } else {
                            orig.voxel(a, c)
                        } by {
                            assert(pre.voxel(a, c) == if in_footprint(*b, shape, a, c) && (c < y || (c == y
                                && a < x)) {
                                shell_voxel(*b, shape, a, c)
                            } else {
                                orig.voxel(a, c)
                            });
                        }
                    }
                }
            }
            x = x + 1;
        }
        y = y + 1;
    }
}

/// `new` follows from `old` by furnishing building `b`: only tiles of
/// its bounding rectangle change, floors stay, and the building's walls
/// stay in place.
pub open spec fn furnishing_step(old: &GameMap, new: &GameMap, b: Building) -> bool {
    &&& same_frame(new, old)
    &&& forall|a: int, c: int|
        new.in_bounds(a, c) ==> {
            &&& (#[trigger] new.voxel(a, c)).floor == old.voxel(a, c).floor
            &&& (!in_rect(b, a, c) ==> new.voxel(a, c) == old.voxel(a, c))
            &&& (old.voxel(a, c).props == Some(wall_prop_of(b.kind)) ==> new.voxel(a, c).props == old.voxel(
                a,
                c,
            ).props)
        }
}

/// Furnishing steps compose.
proof fn lemma_furnishing_trans(m1: &GameMap, m2: &GameMap, m3: &GameMap, b: Building)
    requires
        furnishing_step(m1, m2, b),
        furnishing_step(m2, m3, b),
    ensures
        furnishing_step(m1, m3, b),
{
    assert forall|a: int, c: int| m3.in_bounds(a, c) implies {
        &&& (#[trigger] m3.voxel(a, c)).floor == m1.voxel(a, c).floor
        &&& (!in_rect(b, a, c) ==> m3.voxel(a, c) == m1.voxel(a, c))
        &&& (m1.voxel(a, c).props == Some(wall_prop_of(b.kind)) ==> m3.voxel(a, c).props == m1.voxel(
            a,
            c,
        ).props)
    } by {
        assert(m2.in_bounds(a, c));
        assert(m2.voxel(a, c).floor == m1.voxel(a, c).floor);
    }
}

/// Puts a furnishing prop on tile `(x, y)` of building `b`'s rectangle,
/// where `set_prop` allows it.
fn furnish_prop(map: &mut GameMap, b: &Building, Ghost(orig): Ghost<GameMap>, x: CoordinateUnit, y: CoordinateUnit, prop: Props)
    requires
        old(map).wf(),
        furnishing_step(&orig, old(map), *b),
        in_rect(*b, x as int, y as int),
    ensures
        final(map).wf(),
        furnishing_step(&orig, final(map), *b),
        same_frame(final(map), old(map)),
        forall|a: int, c: int|
            final(map).in_bounds(a, c) ==> #[trigger] final(map).voxel(a, c) == if a == x && c == y
                && prop_allowed(old(map), a, c) {
                Voxel { floor: old(map).voxel(a, c).floor, props: Some(prop) }
            } else {
                old(map).voxel(a, c)
            },
{
    let ghost pre = *map;
    set_prop(map, x, y, prop);
    proof {
        assert forall|a: int, c: int| map.in_bounds(a, c) implies {
            &&& (#[trigger] map.voxel(a, c)).floor == pre.voxel(a, c).floor
            &&& (!in_rect(*b, a, c) ==> map.voxel(a, c) == pre.voxel(a, c))
            &&& (pre.voxel(a, c).props == Some(wall_prop_of(b.kind)) ==> map.voxel(a, c).props == pre.voxel(
                a,
                c,
            ).props)
        } by {}
        lemma_furnishing_trans(&orig, &pre, map, *b);
    }
}

/// Builds a stretch of partition wall (`wall` is the building's wall prop)
/// on tile `(x, y)` of building `b`'s rectangle, when it is on the map.
fn furnish_wall(map: &mut GameMap, b: &Building, Ghost(orig): Ghost<GameMap>, x: CoordinateUnit, y: CoordinateUnit, wall: Props)
    requires
        old(map).wf(),
        furnishing_step(&orig, old(map), *b),
        in_rect(*b, x as int, y as int),
        wall == wall_prop_of(b.kind),
    ensures
        final(map).wf(),
        furnishing_step(&orig, final(map), *b),
        same_frame(final(map), old(map)),
        forall|a: int, c: int|
            final(map).in_bounds(a, c) ==> #[trigger] final(map).voxel(a, c) == if a == x && c == y {
                Voxel { floor: old(map).voxel(a, c).floor, props: Some(wall) }
            } else {
                old(map).voxel(a, c)
            },
{
    if x >= 0 && x < map.width && y >= 0 && y < map.height {
        let ghost pre = *map;
        let v = map.voxels[y as usize][x as usize];
        put_voxel(map, x, y, Voxel { floor: v.floor, props: Some(wall) });
        proof {
            assert forall|a: int, c: int| map.in_bounds(a, c) implies {
                &&& (#[trigger] map.voxel(a, c)).floor == pre.voxel(a, c).floor
                &&& (!in_rect(*b, a, c) ==> map.voxel(a, c) == pre.voxel(a, c))
                &&& (pre.voxel(a, c).props == Some(wall_prop_of(b.kind)) ==> map.voxel(a, c).props
                    == pre.voxel(a, c).props)
            } by {}
            lemma_furnishing_trans(&orig, &pre, map, *b);
        }
    }
}

/// One fitting of a building's interior: the tile, the prop, and whether
/// it is a stretch of partition wall (built whatever stands there) rather
/// than furniture (placed only where a prop may go).
pub type Fitting = (CoordinateUnit, CoordinateUnit, Props, bool);

/// Furniture `p` on tile `(x, y)`.
pub open spec fn fit(x: int, y: int, p: Props) -> Fitting {
    (x as i32, y as i32, p, false)
}

/// Partition wall on tile `(x, y)`.
pub open spec fn wall_fit(x: int, y: int) -> Fitting {
    (x as i32, y as i32, Props::Wall, true)
}

/// The fittings `mk(d)` for `d = start, start + step, ...` below `end`.
pub open spec fn stride(start: int, end: int, step: int, mk: spec_fn(int) -> Seq<Fitting>) -> Seq<Fitting>
    decreases if start < end { end - start } else { 0 },
{
    if step <= 0 || start >= end {
        Seq::empty()
    } else {
        mk(start) + stride(start + step, end, step, mk)
    }
}

/// A partition wall along row `y` from column `x0`, with a door gap at
/// offset `gap`.
pub open spec fn wall_mk(x0: int, y: int, gap: int) -> spec_fn(int) -> Seq<Fitting> {
    |d: int| if d != gap { seq![wall_fit(x0 + d, y)] } else { Seq::empty() }
}

/// Prop `p` along row `y` at column `x0 + d`.
pub open spec fn across_mk(x0: int, y: int, p: Props) -> spec_fn(int) -> Seq<Fitting> {
    |d: int| seq![fit(x0 + d, y, p)]
}

/// Prop `p` along column `x` at row `y0 + d`, and at column `x2` too when
/// `both` holds.
pub open spec fn down_mk(x: int, x2: int, both: bool, y0: int, p: Props) -> spec_fn(int) -> Seq<Fitting> {
    |d: int| seq![fit(x, y0 + d, p)] + if both { seq![fit(x2, y0 + d, p)] } else { Seq::empty() }
}

/// A saloon table with a chair on each side, at table column `col` of
/// table row `row`, when it fits inside the interior.
pub open spec fn table_mk(ix: int, iy: int, iw: int, ih: int, row: int) -> spec_fn(int) -> Seq<Fitting> {
    |col: int| {
        let tx = ix + 1 + col * 4;
        let ty = iy + 2 + row * 3;
        if tx + 1 < ix + iw && ty < iy + ih {
            seq![fit(tx, ty, Props::Table), fit(tx - 1, ty, Props::Chair), fit(tx + 1, ty, Props::Chair)]
        } else {
            Seq::empty()
        }
    }
}

/// A row of saloon tables.
pub open spec fn table_rows_mk(ix: int, iy: int, iw: int, ih: int, cols: int) -> spec_fn(int) -> Seq<Fitting> {
    |row: int| stride(0, cols, 1, table_mk(ix, iy, iw, ih, row))
}

/// The interior fittings of building `b` by kind, in the order they are
/// placed. The interior starts one tile in from the walls.
pub open spec fn fittings(b: Building) -> Seq<Fitting> {
    let ix = b.x + 1;
    let iy = b.y + 1;
    let iw = b.w - 2;
    let ih = b.h - 2;
    if b.kind == 0 {
        if iw >= 6 && ih >= 8 {
            let wr = ih / 2;
            stride(0, iw, 1, wall_mk(ix, iy + wr, iw / 2)) + seq![
                fit(ix + 2, iy + wr + 2, Props::Table),
                fit(ix + 1, iy + wr + 2, Props::Chair),
                fit(ix + 3, iy + wr + 2, Props::Chair),
                fit(ix + iw - 1, iy + 1, Props::Bench),
                fit(ix + iw - 2, iy + 1, Props::Bench),
                fit(ix, iy, Props::Barrel),
                fit(ix + iw - 1, iy, Props::Crate),
            ]
        } else if iw >= 4 && ih >= 4 {
            let wr = ih / 2;
            stride(0, iw, 1, wall_mk(ix, iy + wr, iw / 2)) + seq![
                fit(ix + 1, iy + wr + 1, Props::Table),
                fit(ix, iy + wr + 1, Props::Chair),
                fit(ix + iw - 1, iy, Props::Bench),
            ]
        } else if iw >= 2 && ih >= 2 {
            seq![fit(ix + 1, iy + 1, Props::Table), fit(ix, iy + 1, Props::Chair)]
        } else {
            Seq::empty()
        }
    } else if b.kind == 1 {
        if iw >= 6 && ih >= 5 {
            let bar_end = if iw < 8 { iw } else { 8 };
            seq![fit(ix, iy, Props::Piano)] + stride(2, bar_end, 1, across_mk(ix, iy, Props::Barrel)) + stride(
                0,
                (ih - 2) / 3,
                1,
                table_rows_mk(ix, iy, iw, ih, (iw - 1) / 4),
            )
        } else if iw >= 4 && ih >= 3 {
            seq![
                fit(ix, iy, Props::Piano),
                fit(ix + 2, iy + 1, Props::Table),
                fit(ix + 1, iy + 1, Props::Chair),
                fit(ix + 3, iy + 1, Props::Chair),
            ]
        } else {
            Seq::empty()
        }
    } else if b.kind == 2 {
        if iw >= 5 && ih >= 4 {
            stride(0, iw, 3, across_mk(ix, iy, Props::HitchingPost)) + stride(
                0,
                iw,
                2,
                across_mk(ix, iy + ih - 1, Props::HayBale),
            ) + seq![fit(ix + iw / 2, iy + ih / 2, Props::WaterTrough), fit(ix + iw - 1, iy + ih / 2, Props::Crate)]
        } else if iw >= 3 && ih >= 2 {
            seq![
                fit(ix, iy, Props::HitchingPost),
                fit(ix + 2, iy, Props::HitchingPost),
                fit(ix + 1, iy + ih - 1, Props::WaterTrough),
            ]
        } else {
            Seq::empty()
        }
    } else if b.kind == 3 {
        if iw >= 5 && ih >= 4 {
            stride(1, iw - 1, 1, across_mk(ix, iy + ih / 2, Props::Table)) + seq![
                fit(ix, iy, Props::Barrel),
                fit(ix, iy + 1, Props::Crate),
                fit(ix + iw - 1, iy, Props::Crate),
                fit(ix + iw - 1, iy + 1, Props::Barrel),
            ] + if ih >= 6 {
                seq![fit(ix, iy + ih - 1, Props::Crate), fit(ix + iw - 1, iy + ih - 1, Props::Barrel)]
            } else {
                Seq::empty()
            }
        } else if iw >= 3 && ih >= 2 {
            seq![fit(ix, iy, Props::Barrel), fit(ix + 1, iy, Props::Crate)]
        } else {
            Seq::empty()
        }
    } else if b.kind == 4 {
        if iw >= 5 && ih >= 4 {
            seq![
                fit(ix, iy + ih - 1, Props::Sign),
                fit(ix + 1, iy + ih - 1, Props::Sign),
                fit(ix + 2, iy + ih - 2, Props::Table),
                fit(ix + 1, iy + ih - 2, Props::Chair),
                fit(ix + 3, iy + ih - 2, Props::Chair),
            ] + stride(0, iw, 1, wall_mk(ix, iy + ih / 2, iw / 2)) + seq![
                fit(ix + iw - 1, iy, Props::Barrel),
                fit(ix, iy, Props::Bench),
            ]
        } else if iw >= 3 && ih >= 2 {
            seq![fit(ix + 1, iy, Props::Table), fit(ix, iy, Props::Chair)]
        } else {
            Seq::empty()
        }
    } else if b.kind == 5 {
        if iw >= 5 && ih >= 4 {
            stride(1, iw - 1, 1, across_mk(ix, iy + 2, Props::Table)) + seq![
                fit(ix, iy, Props::Crate),
                fit(ix + 1, iy, Props::Crate),
                fit(ix + iw - 1, iy, Props::Crate),
                fit(ix + iw / 2, iy + ih - 1, Props::Sign),
            ]
        } else if iw >= 3 && ih >= 2 {
            seq![fit(ix + 1, iy, Props::Table), fit(ix, iy, Props::Crate)]
        } else {
            Seq::empty()
        }
    } else if b.kind == 6 {
        if iw >= 5 && ih >= 5 {
            seq![
                fit(ix + iw / 2, iy, Props::Table),
                fit(ix + iw / 2 - 1, iy, Props::Sign),
                fit(ix + iw / 2 + 1, iy, Props::Sign),
            ] + stride(2, if ih < 8 { ih } else { 8 }, 1, down_mk(ix + 1, ix + iw - 2, iw >= 6, iy, Props::Bench))
        } else if iw >= 3 && ih >= 3 {
            seq![fit(ix + iw / 2, iy, Props::Table)] + stride(
                1,
                if ih < 4 { ih } else { 4 },
                1,
                down_mk(ix, ix, false, iy, Props::Bench),
            )
        } else {
            Seq::empty()
        }
    } else if b.kind == 7 {
        if iw >= 5 && ih >= 4 {
            stride(1, iw - 1, 1, across_mk(ix, iy + ih / 2, Props::Table)) + seq![
                fit(ix, iy, Props::Barrel),
                fit(ix + 1, iy, Props::Barrel),
                fit(ix, iy + 1, Props::Barrel),
                fit(ix + iw - 1, iy, Props::Crate),
                fit(ix + iw - 1, iy + ih - 1, Props::Crate),
                fit(ix + iw - 2, iy + ih - 1, Props::Crate),
            ]
        } else if iw >= 3 && ih >= 2 {
            seq![fit(ix + 1, iy, Props::Table), fit(ix, iy + ih - 1, Props::Barrel)]
        } else {
            Seq::empty()
        }
    } else if b.kind == 8 {
        if iw >= 5 && ih >= 4 {
            seq![fit(ix + 1, iy, Props::Table), fit(ix, iy, Props::Chair), fit(ix + 2, iy, Props::Chair)]
                + stride(2, ih, 2, down_mk(ix, ix + iw - 1, iw >= 6, iy, Props::Bench)) + seq![
                fit(ix + iw - 1, iy, Props::Barrel),
            ]
        } else if iw >= 3 && ih >= 2 {
            seq![fit(ix, iy, Props::Table), fit(ix + 1, iy, Props::Chair)]
        } else {
            Seq::empty()
        }
    } else if b.kind == 9 {
        if iw >= 5 && ih >= 4 {
            seq![fit(ix + 1, iy, Props::Table), fit(ix, iy, Props::Chair), fit(ix + 2, iy, Props::Sign)]
                + stride(0, if ih < 5 { ih } else { 5 }, 1, down_mk(ix + iw - 1, ix + iw - 1, false, iy, Props::Barrel))
                + seq![fit(ix + iw - 2, iy + ih - 1, Props::Barrel)]
        } else if iw >= 3 && ih >= 2 {
            seq![fit(ix, iy, Props::Sign), fit(ix + iw - 1, iy, Props::Barrel)]
        } else {
            Seq::empty()
        }
    } else if b.kind == 10 {
        if iw >= 5 && ih >= 4 {
            seq![fit(ix + 2, iy + 1, Props::Table), fit(ix + 2, iy + ih / 2, Props::Table)] + (if iw >= 7 {
                seq![fit(ix + 4, iy + 1, Props::Table)]
            } else {
                Seq::empty()
            }) + stride(0, ih, 2, down_mk(ix, ix, false, iy, Props::Crate)) + seq![
                fit(ix + iw - 1, iy + ih - 1, Props::Crate),
            ]
        } else if iw >= 3 && ih >= 2 {
            seq![fit(ix + 1, iy, Props::Table), fit(ix, iy + ih - 1, Props::Crate)]
        } else {
            Seq::empty()
        }
    } else {
        if iw >= 5 && ih >= 4 {
            seq![
                fit(ix + iw / 2, iy + ih / 2, Props::HitchingPost),
                fit(ix + iw / 2 + 1, iy + ih / 2, Props::Barrel),
                fit(ix, iy + ih - 1, Props::WaterTrough),
                fit(ix + iw - 1, iy, Props::Crate),
                fit(ix + iw - 1, iy + 1, Props::Crate),
                fit(ix, iy, Props::Barrel),
            ]
        } else if iw >= 3 && ih >= 2 {
            seq![fit(ix, iy, Props::HitchingPost), fit(ix + 1, iy + ih - 1, Props::Barrel)]
        } else {
            Seq::empty()
        }
    }
}

/// Whether a floor keeps props off (roads, beach sand, water, bridges).
pub open spec fn bare_floor(f: Option<Floor>) -> bool {
    f == Some(Floor::DirtRoad) || f == Some(Floor::BeachSand) || f == Some(Floor::ShallowWater) || f == Some(
        Floor::DeepWater,
    ) || f == Some(Floor::Bridge)
}

/// A tile holding `v` after fitting `f` on it: a wall is always built;
/// furniture goes only on an unclaimed tile that holds no wall and is not
/// bare floor.
pub open spec fn fit_tile(occupied: bool, v: Voxel, f: Fitting) -> Voxel {
    if f.3 || (!occupied && v.props != Some(Props::Wall) && v.props != Some(Props::StoneWall) && !bare_floor(
        v.floor,
    )) {
        Voxel { floor: v.floor, props: Some(f.2) }
    } else {
        v
    }
}

/// What tile `(a, c)`, holding `base` and claimed or not by `occupied`,
/// holds after the fittings `fits`, in order.
pub open spec fn fitted_tile(base: Voxel, occupied: bool, fits: Seq<Fitting>, a: int, c: int) -> Voxel
    decreases fits.len(),
{
    if fits.len() == 0 {
        base
    } else {
        let v = fitted_tile(base, occupied, fits.drop_last(), a, c);
        let f = fits.last();
        if f.0 == a && f.1 == c {
            fit_tile(occupied, v, f)
        } else {
            v
        }
    }
}

/// What tile `(a, c)` of `m` holds after the fittings `fits`, in order.
pub open spec fn fitted_voxel(m: &GameMap, fits: Seq<Fitting>, a: int, c: int) -> Voxel {
    fitted_tile(m.voxel(a, c), m.occupied(a, c), fits, a, c)
}

/// What tile `(a, c)` holds after building `b` is placed with `seed` on
/// map `m`: the shell (floor, and outline walls with door gaps) over the
/// footprint, then the interior fittings of the building's kind, then the
/// wall repair of the perimeter.
pub open spec fn placed_voxel(m: &GameMap, b: Building, seed: u64, a: int, c: int) -> Voxel {
    let shape = building_shape(b, seed);
    let v1 = if in_footprint(b, shape, a, c) {
        shell_voxel(b, shape, a, c)
    } else {
        m.voxel(a, c)
    };
    let v2 = fitted_tile(v1, m.occupied(a, c), fittings(b), a, c);
    if repair_wall(b, building_shape(b, 0), a, c) && !holds_wall(v2) {
        Voxel { floor: v2.floor, props: Some(wall_prop_of(b.kind)) }
    } else {
        v2
    }
}

/// Every fitting lies in building `b`'s rectangle, and every wall is of
/// the building's wall prop.
pub open spec fn fits_in(b: Building, fits: Seq<Fitting>) -> bool {
    forall|i: int|
        0 <= i < fits.len() ==> in_rect(b, (#[trigger] fits[i]).0 as int, fits[i].1 as int) && (fits[i].3
            ==> fits[i].2 == wall_prop_of(b.kind))
}

/// One more step of a stride.
proof fn lemma_stride_step(done: Seq<Fitting>, d: int, end: int, step: int, mk: spec_fn(int) -> Seq<Fitting>)
    requires
        step > 0,
        d < end,
    ensures
        (done + mk(d)) + stride(d + step, end, step, mk) == done + stride(d, end, step, mk),
{
    assert((done + mk(d)) + stride(d + step, end, step, mk) =~= done + (mk(d) + stride(d + step, end, step, mk)));
}

/// A stride past its end is empty.
proof fn lemma_stride_end(done: Seq<Fitting>, d: int, end: int, step: int, mk: spec_fn(int) -> Seq<Fitting>)
    requires
        d >= end,
    ensures
        done + stride(d, end, step, mk) == done,
{
    assert(done + stride(d, end, step, mk) =~= done);
}

/// Furnishes the interior of building `b` according to its kind: partition
/// walls, counters, tables and chairs, benches, barrels and crates, and the
/// like, scaled to the interior size.
///
/// The fittings of `fittings(b)` are placed in order: walls on every
/// on-map tile they name, furniture only where a prop may go at that
/// moment.
fn furnish_interior(map: &mut GameMap, b: &Building)
    requires
        old(map).wf(),
        building_in_range(*b),
    ensures
        final(map).wf(),
        furnishing_step(old(map), final(map), *b),
        same_frame(final(map), old(map)),
        forall|a: int, c: int|
            final(map).in_bounds(a, c) ==> #[trigger] final(map).voxel(a, c) == fitted_voxel(old(map), fittings(*b), a, c),
{
    let ghost orig = *map;
    let fits = interior_fittings(b);
    proof {
        assert(furnishing_step(&orig, map, *b));
    }
    let mut i: usize = 0;
    while i < fits.len()
        invariant
            map.wf(),
            i <= fits@.len(),
            building_in_range(*b),
            fits_in(*b, fits@),
            furnishing_step(&orig, map, *b),
            same_frame(map, &orig),
            forall|a: int, c: int|
                map.in_bounds(a, c) ==> #[trigger] map.voxel(a, c) == fitted_voxel(&orig, fits@.take(i as int), a, c),
        decreases fits@.len() - i,
    {
        let (x, y, p, wall) = fits[i];
        let ghost pre = *map;
        proof {
            assert(in_rect(*b, fits@[i as int].0 as int, fits@[i as int].1 as int));
        }
        if wall {
            furnish_wall(map, b, Ghost(orig), x, y, p);
        } else {
            furnish_prop(map, b, Ghost(orig), x, y, p);
        }
        proof {
            assert(fits@.take(i + 1).drop_last() =~= fits@.take(i as int));
            assert(fits@.take(i + 1).last() == fits@[i as int]);
            assert forall|a: int, c: int| map.in_bounds(a, c) implies #[trigger] map.voxel(a, c) == fitted_voxel(
                &orig,
                fits@.take(i + 1),
                a,
                c,
            ) by {
                assert(pre.in_bounds(a, c));
                assert(pre.occupied(a, c) == orig.occupied(a, c));
            }
        }
        i = i + 1;
    }
    proof {
        assert(fits@.take(fits@.len() as int) =~= fits@);
    }
}

/// The interior fittings of building `b`, in order (see `fittings`).
#[verifier::rlimit(100)]
#[verifier::spinoff_prover]
fn interior_fittings(b: &Building) -> (fits: Vec<Fitting>)
    requires
        building_in_range(*b),
    ensures
        fits@ == fittings(*b),
        fits_in(*b, fits@),
{
    let ix = b.x + 1;
    let iy = b.y + 1;
    let iw = b.w - 2;
    let ih = b.h - 2;
    let mut fits: Vec<Fitting> = Vec::new();
    match b.kind {
        0 => {
            if iw >= 6 && ih >= 8 {
                let wall_row = ih / 2;
                let ghost pre = fits@;
                let mut dx: i32 = 0;
                while dx < iw
                    invariant
                        building_in_range(*b),
                        ix == b.x + 1,
                        iy == b.y + 1,
                        iw == b.w - 2,
                        ih == b.h - 2,
                        fits_in(*b, fits@),
                        iw >= 6 && ih >= 8,
                        b.kind == 0,
                        wall_row == ih / 2,
                        0 <= dx <= iw,
                        fits@ + stride(dx as int, iw as int, 1, wall_mk(ix as int, (iy + wall_row) as int, (iw / 2) as int)) == pre + stride(0, iw as int, 1, wall_mk(ix as int, (iy + wall_row) as int, (iw / 2) as int)),
                    decreases iw - dx,
                {
                    let ghost before = fits@;
                    if dx != iw / 2 {
                        fits.push((ix + dx, iy + wall_row, Props::Wall, true));
                    }
                    proof {
                        assert(fits@ =~= before + (wall_mk(ix as int, (iy + wall_row) as int, (iw / 2) as int))(dx as int));
                        lemma_stride_step(before, dx as int, iw as int, 1, wall_mk(ix as int, (iy + wall_row) as int, (iw / 2) as int));
                    }
                    dx = dx + 1;
                }
                proof {
                    lemma_stride_end(fits@, dx as int, iw as int, 1, wall_mk(ix as int, (iy + wall_row) as int, (iw / 2) as int));
                }
                fits.push((ix + 2, iy + wall_row + 2, Props::Table, false));
                fits.push((ix + 1, iy + wall_row + 2, Props::Chair, false));
                fits.push((ix + 3, iy + wall_row + 2, Props::Chair, false));
                fits.push((ix + iw - 1, iy + 1, Props::Bench, false));
                fits.push((ix + iw - 2, iy + 1, Props::Bench, false));
                fits.push((ix, iy, Props::Barrel, false));
                fits.push((ix + iw - 1, iy, Props::Crate, false));
            } else if iw >= 4 && ih >= 4 {
                let wall_row = ih / 2;
                let ghost pre = fits@;
                let mut dx: i32 = 0;
                while dx < iw
                    invariant
                        building_in_range(*b),
                        ix == b.x + 1,
                        iy == b.y + 1,
                        iw == b.w - 2,
                        ih == b.h - 2,
                        fits_in(*b, fits@),
                        iw >= 4 && ih >= 4,
                        b.kind == 0,
                        wall_row == ih / 2,
                        0 <= dx <= iw,
                        fits@ + stride(dx as int, iw as int, 1, wall_mk(ix as int, (iy + wall_row) as int, (iw / 2) as int)) == pre + stride(0, iw as int, 1, wall_mk(ix as int, (iy + wall_row) as int, (iw / 2) as int)),
                    decreases iw - dx,
                {
                    let ghost before = fits@;
                    if dx != iw / 2 {
                        fits.push((ix + dx, iy + wall_row, Props::Wall, true));
                    }
                    proof {
                        assert(fits@ =~= before + (wall_mk(ix as int, (iy + wall_row) as int, (iw / 2) as int))(dx as int));
                        lemma_stride_step(before, dx as int, iw as int, 1, wall_mk(ix as int, (iy + wall_row) as int, (iw / 2) as int));
                    }
                    dx = dx + 1;
                }
                proof {
                    lemma_stride_end(fits@, dx as int, iw as int, 1, wall_mk(ix as int, (iy + wall_row) as int, (iw / 2) as int));
                }
                fits.push((ix + 1, iy + wall_row + 1, Props::Table, false));
                fits.push((ix, iy + wall_row + 1, Props::Chair, false));
                fits.push((ix + iw - 1, iy, Props::Bench, false));
            } else if iw >= 2 && ih >= 2 {
                fits.push((ix + 1, iy + 1, Props::Table, false));
                fits.push((ix, iy + 1, Props::Chair, false));
            }
        },
        1 => {
            if iw >= 6 && ih >= 5 {
                fits.push((ix, iy, Props::Piano, false));
                let bar_end = if iw < 8 { iw } else { 8 };
                let ghost pre = fits@;
                let mut dx: i32 = 2;
                while dx < bar_end
                    invariant
                        building_in_range(*b),
                        ix == b.x + 1,
                        iy == b.y + 1,
                        iw == b.w - 2,
                        ih == b.h - 2,
                        fits_in(*b, fits@),
                        iw >= 6 && ih >= 5,
                        bar_end <= iw,
                        2 <= dx,
                        fits@ + stride(dx as int, bar_end as int, 1, across_mk(ix as int, iy as int, Props::Barrel)) == pre + stride(2, bar_end as int, 1, across_mk(ix as int, iy as int, Props::Barrel)),
                    decreases bar_end - dx,
                {
                    let ghost before = fits@;
                    fits.push((ix + dx, iy, Props::Barrel, false));
                    proof {
                        assert(fits@ =~= before + (across_mk(ix as int, iy as int, Props::Barrel))(dx as int));
                        lemma_stride_step(before, dx as int, bar_end as int, 1, across_mk(ix as int, iy as int, Props::Barrel));
                    }
                    dx = dx + 1;
                }
                proof {
                    lemma_stride_end(fits@, dx as int, bar_end as int, 1, across_mk(ix as int, iy as int, Props::Barrel));
                }
                let rows = (ih - 2) / 3;
                let cols = (iw - 1) / 4;
                let ghost pre_rows = fits@;
                let mut row: i32 = 0;
                while row < rows
                    invariant
                        building_in_range(*b),
                        ix == b.x + 1,
                        iy == b.y + 1,
                        iw == b.w - 2,
                        ih == b.h - 2,
                        fits_in(*b, fits@),
                        iw >= 6 && ih >= 5,
                        rows == (ih - 2) / 3,
                        cols == (iw - 1) / 4,
                        0 <= row <= rows,
                        fits@ + stride(row as int, rows as int, 1, table_rows_mk(ix as int, iy as int, iw as int, ih as int, cols as int))
                            == pre_rows + stride(0, rows as int, 1, table_rows_mk(ix as int, iy as int, iw as int, ih as int, cols as int)),
                    decreases rows - row,
                {
                    let ghost row_start = fits@;
                    let mut col: i32 = 0;
                    while col < cols
                        invariant
                            building_in_range(*b),
                            ix == b.x + 1,
                            iy == b.y + 1,
                            iw == b.w - 2,
                            ih == b.h - 2,
                            fits_in(*b, fits@),
                            iw >= 6 && ih >= 5,
                            rows == (ih - 2) / 3,
                            cols == (iw - 1) / 4,
                            0 <= row < rows,
                            0 <= col <= cols,
                            fits@ + stride(col as int, cols as int, 1, table_mk(ix as int, iy as int, iw as int, ih as int, row as int))
                                == row_start + stride(0, cols as int, 1, table_mk(ix as int, iy as int, iw as int, ih as int, row as int)),
                        decreases cols - col,
                    {
                        let ghost before = fits@;
                        let tx = ix + 1 + col * 4;
                        let ty = iy + 2 + row * 3;
                        if tx + 1 < ix + iw && ty < iy + ih {
                            fits.push((tx, ty, Props::Table, false));
                            fits.push((tx - 1, ty, Props::Chair, false));
                            fits.push((tx + 1, ty, Props::Chair, false));
                        }
                        proof {
                            assert(fits@ =~= before + (table_mk(ix as int, iy as int, iw as int, ih as int, row as int))(col as int));
                            lemma_stride_step(before, col as int, cols as int, 1, table_mk(ix as int, iy as int, iw as int, ih as int, row as int));
                        }
                        col = col + 1;
                    }
                    proof {
                        lemma_stride_end(fits@, col as int, cols as int, 1, table_mk(ix as int, iy as int, iw as int, ih as int, row as int));
                        assert(fits@ == row_start + (table_rows_mk(ix as int, iy as int, iw as int, ih as int, cols as int))(row as int));
                        lemma_stride_step(row_start, row as int, rows as int, 1, table_rows_mk(ix as int, iy as int, iw as int, ih as int, cols as int));
                    }
                    row = row + 1;
                }
                proof {
                    lemma_stride_end(fits@, row as int, rows as int, 1, table_rows_mk(ix as int, iy as int, iw as int, ih as int, cols as int));
                }
            } else if iw >= 4 && ih >= 3 {
                fits.push((ix, iy, Props::Piano, false));
                fits.push((ix + 2, iy + 1, Props::Table, false));
                fits.push((ix + 1, iy + 1, Props::Chair, false));
                fits.push((ix + 3, iy + 1, Props::Chair, false));
            }
        },
        2 => {
            if iw >= 5 && ih >= 4 {
                let ghost pre = fits@;
                let mut dx: i32 = 0;
                while dx < iw
                    invariant
                        building_in_range(*b),
                        ix == b.x + 1,
                        iy == b.y + 1,
                        iw == b.w - 2,
                        ih == b.h - 2,
                        fits_in(*b, fits@),
                        iw >= 5 && ih >= 4,
                        0 <= dx,
                        fits@ + stride(dx as int, iw as int, 3, across_mk(ix as int, iy as int, Props::HitchingPost)) == pre + stride(0, iw as int, 3, across_mk(ix as int, iy as int, Props::HitchingPost)),
                    decreases iw + 3 - dx,
                {
                    let ghost before = fits@;
                    fits.push((ix + dx, iy, Props::HitchingPost, false));
                    proof {
                        assert(fits@ =~= before + (across_mk(ix as int, iy as int, Props::HitchingPost))(dx as int));
                        lemma_stride_step(before, dx as int, iw as int, 3, across_mk(ix as int, iy as int, Props::HitchingPost));
                    }
                    dx = dx + 3;
                }
                proof {
                    lemma_stride_end(fits@, dx as int, iw as int, 3, across_mk(ix as int, iy as int, Props::HitchingPost));
                }
                {
                let ghost pre = fits@;
                let mut dx: i32 = 0;
                while dx < iw
                    invariant
                        building_in_range(*b),
                        ix == b.x + 1,
                        iy == b.y + 1,
                        iw == b.w - 2,
                        ih == b.h - 2,
                        fits_in(*b, fits@),
                        iw >= 5 && ih >= 4,
                        0 <= dx,
                        fits@ + stride(dx as int, iw as int, 2, across_mk(ix as int, (iy + ih - 1) as int, Props::HayBale)) == pre + stride(0, iw as int, 2, across_mk(ix as int, (iy + ih - 1) as int, Props::HayBale)),
                    decreases iw + 2 - dx,
                {
                    let ghost before = fits@;
                    fits.push((ix + dx, iy + ih - 1, Props::HayBale, false));
                    proof {
                        assert(fits@ =~= before + (across_mk(ix as int, (iy + ih - 1) as int, Props::HayBale))(dx as int));
                        lemma_stride_step(before, dx as int, iw as int, 2, across_mk(ix as int, (iy + ih - 1) as int, Props::HayBale));
                    }
                    dx = dx + 2;
                }
                proof {
                    lemma_stride_end(fits@, dx as int, iw as int, 2, across_mk(ix as int, (iy + ih - 1) as int, Props::HayBale));
                }
                }
                fits.push((ix + iw / 2, iy + ih / 2, Props::WaterTrough, false));
                fits.push((ix + iw - 1, iy + ih / 2, Props::Crate, false));
            } else if iw >= 3 && ih >= 2 {
                fits.push((ix, iy, Props::HitchingPost, false));
                fits.push((ix + 2, iy, Props::HitchingPost, false));
                fits.push((ix + 1, iy + ih - 1, Props::WaterTrough, false));
            }
        },
        3 => {
            if iw >= 5 && ih >= 4 {
                let ghost pre = fits@;
                let mut dx: i32 = 1;
                while dx < iw - 1
                    invariant
                        building_in_range(*b),
                        ix == b.x + 1,
                        iy == b.y + 1,
                        iw == b.w - 2,
                        ih == b.h - 2,
                        fits_in(*b, fits@),
                        iw >= 5 && ih >= 4,
                        1 <= dx,
                        fits@ + stride(dx as int, iw - 1 as int, 1, across_mk(ix as int, (iy + ih / 2) as int, Props::Table)) == pre + stride(1, iw - 1 as int, 1, across_mk(ix as int, (iy + ih / 2) as int, Props::Table)),
                    decreases iw - 1 - dx,
                {
                    let ghost before = fits@;
                    fits.push((ix + dx, iy + ih / 2, Props::Table, false));
                    proof {
                        assert(fits@ =~= before + (across_mk(ix as int, (iy + ih / 2) as int, Props::Table))(dx as int));
                        lemma_stride_step(before, dx as int, iw - 1 as int, 1, across_mk(ix as int, (iy + ih / 2) as int, Props::Table));
                    }
                    dx = dx + 1;
                }
                proof {
                    lemma_stride_end(fits@, dx as int, iw - 1 as int, 1, across_mk(ix as int, (iy + ih / 2) as int, Props::Table));
                }
                fits.push((ix, iy, Props::Barrel, false));
                fits.push((ix, iy + 1, Props::Crate, false));
                fits.push((ix + iw - 1, iy, Props::Crate, false));
                fits.push((ix + iw - 1, iy + 1, Props::Barrel, false));
                if ih >= 6 {
                    fits.push((ix, iy + ih - 1, Props::Crate, false));
                    fits.push((ix + iw - 1, iy + ih - 1, Props::Barrel, false));
                }
            } else if iw >= 3 && ih >= 2 {
                fits.push((ix, iy, Props::Barrel, false));
                fits.push((ix + 1, iy, Props::Crate, false));
            }
        },
        4 => {
            if iw >= 5 && ih >= 4 {
                fits.push((ix, iy + ih - 1, Props::Sign, false));
                fits.push((ix + 1, iy + ih - 1, Props::Sign, false));
                fits.push((ix + 2, iy + ih - 2, Props::Table, false));
                fits.push((ix + 1, iy + ih - 2, Props::Chair, false));
                fits.push((ix + 3, iy + ih - 2, Props::Chair, false));
                let cell_wall_row = ih / 2;
                let ghost pre = fits@;
                let mut dx: i32 = 0;
                while dx < iw
                    invariant
                        building_in_range(*b),
                        ix == b.x + 1,
                        iy == b.y + 1,
                        iw == b.w - 2,
                        ih == b.h - 2,
                        fits_in(*b, fits@),
                        iw >= 5 && ih >= 4,
                        b.kind == 4,
                        cell_wall_row == ih / 2,
                        0 <= dx <= iw,
                        fits@ + stride(dx as int, iw as int, 1, wall_mk(ix as int, (iy + cell_wall_row) as int, (iw / 2) as int)) == pre + stride(0, iw as int, 1, wall_mk(ix as int, (iy + cell_wall_row) as int, (iw / 2) as int)),
                    decreases iw - dx,
                {
                    let ghost before = fits@;
                    if dx != iw / 2 {
                        fits.push((ix + dx, iy + cell_wall_row, Props::Wall, true));
                    }
                    proof {
                        assert(fits@ =~= before + (wall_mk(ix as int, (iy + cell_wall_row) as int, (iw / 2) as int))(dx as int));
                        lemma_stride_step(before, dx as int, iw as int, 1, wall_mk(ix as int, (iy + cell_wall_row) as int, (iw / 2) as int));
                    }
                    dx = dx + 1;
                }
                proof {
                    lemma_stride_end(fits@, dx as int, iw as int, 1, wall_mk(ix as int, (iy + cell_wall_row) as int, (iw / 2) as int));
                }
                fits.push((ix + iw - 1, iy, Props::Barrel, false));
                fits.push((ix, iy, Props::Bench, false));
            } else if iw >= 3 && ih >= 2 {
                fits.push((ix + 1, iy, Props::Table, false));
                fits.push((ix, iy, Props::Chair, false));
            }
        },
        5 => {
            if iw >= 5 && ih >= 4 {
                let ghost pre = fits@;
                let mut dx: i32 = 1;
                while dx < iw - 1
                    invariant
                        building_in_range(*b),
                        ix == b.x + 1,
                        iy == b.y + 1,
                        iw == b.w - 2,
                        ih == b.h - 2,
                        fits_in(*b, fits@),
                        iw >= 5 && ih >= 4,
                        1 <= dx,
                        fits@ + stride(dx as int, iw - 1 as int, 1, across_mk(ix as int, (iy + 2) as int, Props::Table)) == pre + stride(1, iw - 1 as int, 1, across_mk(ix as int, (iy + 2) as int, Props::Table)),
                    decreases iw - 1 - dx,
                {
                    let ghost before = fits@;
                    fits.push((ix + dx, iy + 2, Props::Table, false));
                    proof {
                        assert(fits@ =~= before + (across_mk(ix as int, (iy + 2) as int, Props::Table))(dx as int));
                        lemma_stride_step(before, dx as int, iw - 1 as int, 1, across_mk(ix as int, (iy + 2) as int, Props::Table));
                    }
                    dx = dx + 1;
                }
                proof {
                    lemma_stride_end(fits@, dx as int, iw - 1 as int, 1, across_mk(ix as int, (iy + 2) as int, Props::Table));
                }
                fits.push((ix, iy, Props::Crate, false));
                fits.push((ix + 1, iy, Props::Crate, false));
                fits.push((ix + iw - 1, iy, Props::Crate, false));
                fits.push((ix + iw / 2, iy + ih - 1, Props::Sign, false));
            } else if iw >= 3 && ih >= 2 {
                fits.push((ix + 1, iy, Props::Table, false));
                fits.push((ix, iy, Props::Crate, false));
            }
        },
        6 => {
            if iw >= 5 && ih >= 5 {
                fits.push((ix + iw / 2, iy, Props::Table, false));
                fits.push((ix + iw / 2 - 1, iy, Props::Sign, false));
                fits.push((ix + iw / 2 + 1, iy, Props::Sign, false));
                let last_row = if ih < 8 { ih } else { 8 };
                let ghost pre = fits@;
                let mut row: i32 = 2;
                while row < last_row
                    invariant
                        building_in_range(*b),
                        ix == b.x + 1,
                        iy == b.y + 1,
                        iw == b.w - 2,
                        ih == b.h - 2,
                        fits_in(*b, fits@),
                        iw >= 5 && ih >= 5,
                        last_row <= ih,
                        2 <= row,
                        fits@ + stride(row as int, last_row as int, 1, down_mk((ix + 1) as int, (ix + iw - 2) as int, iw >= 6, iy as int, Props::Bench)) == pre + stride(2, last_row as int, 1, down_mk((ix + 1) as int, (ix + iw - 2) as int, iw >= 6, iy as int, Props::Bench)),
                    decreases last_row - row,
                {
                    let ghost before = fits@;
                    fits.push((ix + 1, iy + row, Props::Bench, false));
                    if iw >= 6 {
                        fits.push((ix + iw - 2, iy + row, Props::Bench, false));
                    }
                    proof {
                        assert(fits@ =~= before + (down_mk((ix + 1) as int, (ix + iw - 2) as int, iw >= 6, iy as int, Props::Bench))(row as int));
                        lemma_stride_step(before, row as int, last_row as int, 1, down_mk((ix + 1) as int, (ix + iw - 2) as int, iw >= 6, iy as int, Props::Bench));
                    }
                    row = row + 1;
                }
                proof {
                    lemma_stride_end(fits@, row as int, last_row as int, 1, down_mk((ix + 1) as int, (ix + iw - 2) as int, iw >= 6, iy as int, Props::Bench));
                }
            } else if iw >= 3 && ih >= 3 {
                fits.push((ix + iw / 2, iy, Props::Table, false));
                let last_row = if ih < 4 { ih } else { 4 };
                let ghost pre = fits@;
                let mut row: i32 = 1;
                while row < last_row
                    invariant
                        building_in_range(*b),
                        ix == b.x + 1,
                        iy == b.y + 1,
                        iw == b.w - 2,
                        ih == b.h - 2,
                        fits_in(*b, fits@),
                        iw >= 3 && ih >= 3,
                        last_row <= ih,
                        1 <= row,
                        fits@ + stride(row as int, last_row as int, 1, down_mk(ix as int, ix as int, false, iy as int, Props::Bench)) == pre + stride(1, last_row as int, 1, down_mk(ix as int, ix as int, false, iy as int, Props::Bench)),
                    decreases last_row - row,
                {
                    let ghost before = fits@;
                    fits.push((ix, iy + row, Props::Bench, false));
                    proof {
                        assert(fits@ =~= before + (down_mk(ix as int, ix as int, false, iy as int, Props::Bench))(row as int));
                        lemma_stride_step(before, row as int, last_row as int, 1, down_mk(ix as int, ix as int, false, iy as int, Props::Bench));
                    }
                    row = row + 1;
                }
                proof {
                    lemma_stride_end(fits@, row as int, last_row as int, 1, down_mk(ix as int, ix as int, false, iy as int, Props::Bench));
                }
            }
        },
        7 => {
            if iw >= 5 && ih >= 4 {
                let ghost pre = fits@;
                let mut dx: i32 = 1;
                while dx < iw - 1
                    invariant
                        building_in_range(*b),
                        ix == b.x + 1,
                        iy == b.y + 1,
                        iw == b.w - 2,
                        ih == b.h - 2,
                        fits_in(*b, fits@),
                        iw >= 5 && ih >= 4,
                        1 <= dx,
                        fits@ + stride(dx as int, iw - 1 as int, 1, across_mk(ix as int, (iy + ih / 2) as int, Props::Table)) == pre + stride(1, iw - 1 as int, 1, across_mk(ix as int, (iy + ih / 2) as int, Props::Table)),
                    decreases iw - 1 - dx,
                {
                    let ghost before = fits@;
                    fits.push((ix + dx, iy + ih / 2, Props::Table, false));
                    proof {
                        assert(fits@ =~= before + (across_mk(ix as int, (iy + ih / 2) as int, Props::Table))(dx as int));
                        lemma_stride_step(before, dx as int, iw - 1 as int, 1, across_mk(ix as int, (iy + ih / 2) as int, Props::Table));
                    }
                    dx = dx + 1;
                }
                proof {
                    lemma_stride_end(fits@, dx as int, iw - 1 as int, 1, across_mk(ix as int, (iy + ih / 2) as int, Props::Table));
                }
                fits.push((ix, iy, Props::Barrel, false));
                fits.push((ix + 1, iy, Props::Barrel, false));
                fits.push((ix, iy + 1, Props::Barrel, false));
                fits.push((ix + iw - 1, iy, Props::Crate, false));
                fits.push((ix + iw - 1, iy + ih - 1, Props::Crate, false));
                fits.push((ix + iw - 2, iy + ih - 1, Props::Crate, false));
            } else if iw >= 3 && ih >= 2 {
                fits.push((ix + 1, iy, Props::Table, false));
                fits.push((ix, iy + ih - 1, Props::Barrel, false));
            }
        },
        8 => {
            if iw >= 5 && ih >= 4 {
                fits.push((ix + 1, iy, Props::Table, false));
                fits.push((ix, iy, Props::Chair, false));
                fits.push((ix + 2, iy, Props::Chair, false));
                let ghost pre = fits@;
                let mut row: i32 = 2;
                while row < ih
                    invariant
                        building_in_range(*b),
                        ix == b.x + 1,
                        iy == b.y + 1,
                        iw == b.w - 2,
                        ih == b.h - 2,
                        fits_in(*b, fits@),
                        iw >= 5 && ih >= 4,
                        2 <= row,
                        fits@ + stride(row as int, ih as int, 2, down_mk(ix as int, (ix + iw - 1) as int, iw >= 6, iy as int, Props::Bench)) == pre + stride(2, ih as int, 2, down_mk(ix as int, (ix + iw - 1) as int, iw >= 6, iy as int, Props::Bench)),
                    decreases ih + 2 - row,
                {
                    let ghost before = fits@;
                    fits.push((ix, iy + row, Props::Bench, false));
                    if iw >= 6 {
                        fits.push((ix + iw - 1, iy + row, Props::Bench, false));
                    }
                    proof {
                        assert(fits@ =~= before + (down_mk(ix as int, (ix + iw - 1) as int, iw >= 6, iy as int, Props::Bench))(row as int));
                        lemma_stride_step(before, row as int, ih as int, 2, down_mk(ix as int, (ix + iw - 1) as int, iw >= 6, iy as int, Props::Bench));
                    }
                    row = row + 2;
                }
                proof {
                    lemma_stride_end(fits@, row as int, ih as int, 2, down_mk(ix as int, (ix + iw - 1) as int, iw >= 6, iy as int, Props::Bench));
                }
                fits.push((ix + iw - 1, iy, Props::Barrel, false));
            } else if iw >= 3 && ih >= 2 {
                fits.push((ix, iy, Props::Table, false));
                fits.push((ix + 1, iy, Props::Chair, false));
            }
        },
        9 => {
            if iw >= 5 && ih >= 4 {
                fits.push((ix + 1, iy, Props::Table, false));
                fits.push((ix, iy, Props::Chair, false));
                fits.push((ix + 2, iy, Props::Sign, false));
                let last = if ih < 5 { ih } else { 5 };
                let ghost pre = fits@;
                let mut dy: i32 = 0;
                while dy < last
                    invariant
                        building_in_range(*b),
                        ix == b.x + 1,
                        iy == b.y + 1,
                        iw == b.w - 2,
                        ih == b.h - 2,
                        fits_in(*b, fits@),
                        iw >= 5 && ih >= 4,
                        last <= ih,
                        0 <= dy,
                        fits@ + stride(dy as int, last as int, 1, down_mk((ix + iw - 1) as int, (ix + iw - 1) as int, false, iy as int, Props::Barrel)) == pre + stride(0, last as int, 1, down_mk((ix + iw - 1) as int, (ix + iw - 1) as int, false, iy as int, Props::Barrel)),
                    decreases last - dy,
                {
                    let ghost before = fits@;
                    fits.push((ix + iw - 1, iy + dy, Props::Barrel, false));
                    proof {
                        assert(fits@ =~= before + (down_mk((ix + iw - 1) as int, (ix + iw - 1) as int, false, iy as int, Props::Barrel))(dy as int));
                        lemma_stride_step(before, dy as int, last as int, 1, down_mk((ix + iw - 1) as int, (ix + iw - 1) as int, false, iy as int, Props::Barrel));
                    }
                    dy = dy + 1;
                }
                proof {
                    lemma_stride_end(fits@, dy as int, last as int, 1, down_mk((ix + iw - 1) as int, (ix + iw - 1) as int, false, iy as int, Props::Barrel));
                }
                fits.push((ix + iw - 2, iy + ih - 1, Props::Barrel, false));
            } else if iw >= 3 && ih >= 2 {
                fits.push((ix, iy, Props::Sign, false));
                fits.push((ix + iw - 1, iy, Props::Barrel, false));
            }
        },
        10 => {
            if iw >= 5 && ih >= 4 {
                fits.push((ix + 2, iy + 1, Props::Table, false));
                fits.push((ix + 2, iy + ih / 2, Props::Table, false));
                if iw >= 7 {
                    fits.push((ix + 4, iy + 1, Props::Table, false));
                }
                let ghost pre = fits@;
                let mut dy: i32 = 0;
                while dy < ih
                    invariant
                        building_in_range(*b),
                        ix == b.x + 1,
                        iy == b.y + 1,
                        iw == b.w - 2,
                        ih == b.h - 2,
                        fits_in(*b, fits@),
                        iw >= 5 && ih >= 4,
                        0 <= dy,
                        fits@ + stride(dy as int, ih as int, 2, down_mk(ix as int, ix as int, false, iy as int, Props::Crate)) == pre + stride(0, ih as int, 2, down_mk(ix as int, ix as int, false, iy as int, Props::Crate)),
                    decreases ih + 2 - dy,
                {
                    let ghost before = fits@;
                    fits.push((ix, iy + dy, Props::Crate, false));
                    proof {
                        assert(fits@ =~= before + (down_mk(ix as int, ix as int, false, iy as int, Props::Crate))(dy as int));
                        lemma_stride_step(before, dy as int, ih as int, 2, down_mk(ix as int, ix as int, false, iy as int, Props::Crate));
                    }
                    dy = dy + 2;
                }
                proof {
                    lemma_stride_end(fits@, dy as int, ih as int, 2, down_mk(ix as int, ix as int, false, iy as int, Props::Crate));
                }
                fits.push((ix + iw - 1, iy + ih - 1, Props::Crate, false));
            } else if iw >= 3 && ih >= 2 {
                fits.push((ix + 1, iy, Props::Table, false));
                fits.push((ix, iy + ih - 1, Props::Crate, false));
            }
        },
        _ => {
            if iw >= 5 && ih >= 4 {
                fits.push((ix + iw / 2, iy + ih / 2, Props::HitchingPost, false));
                fits.push((ix + iw / 2 + 1, iy + ih / 2, Props::Barrel, false));
                fits.push((ix, iy + ih - 1, Props::WaterTrough, false));
                fits.push((ix + iw - 1, iy, Props::Crate, false));
                fits.push((ix + iw - 1, iy + 1, Props::Crate, false));
                fits.push((ix, iy, Props::Barrel, false));
            } else if iw >= 3 && ih >= 2 {
                fits.push((ix, iy, Props::HitchingPost, false));
                fits.push((ix + 1, iy + ih - 1, Props::Barrel, false));
            }
        },
    }
    assert(fits@ =~= fittings(*b));
    fits
}

/// Whether the repair pass treats `(x, y)` as a wall tile of building
/// `b` with shape `shape`: a footprint tile on the rectangle's edge or
/// along the notch, other than a door or a cut corner.
pub open spec fn repair_wall(b: Building, shape: u32, x: int, y: int) -> bool {
    &&& in_footprint(b, shape, x, y)
    &&& ((x == b.x || x == b.x + b.w - 1 || y == b.y || y == b.y + b.h - 1) || (shape == SHAPE_L && ((x
        == notch_x(b) - 1 && y >= notch_y(b)) || (y == notch_y(b) - 1 && x >= notch_x(b)))))
    &&& !is_door(b, shape, x, y)
    &&& !is_side_door(b, shape, x, y)
    &&& !is_round_corner(b, shape, x, y)
}

/// Whether a tile holds a wall.
pub open spec fn holds_wall(v: Voxel) -> bool {
    match v.props {
        Some(p) => props_is_wall(p),
        None => false,
    }
}

/// Repairs the wall perimeter of building `b`: every on-map wall tile of
/// its outline (the outline of the shape the building gets with seed 0)
/// that holds no wall gets the building's wall prop.
pub fn validate_building_walls(map: &mut GameMap, b: &Building)
    requires
        old(map).wf(),
        building_in_range(*b),
    ensures
        same_frame(final(map), old(map)),
        forall|a: int, c: int|
            final(map).in_bounds(a, c) ==> #[trigger] final(map).voxel(a, c) == if repair_wall(
                *b,
                building_shape(*b, 0),
                a,
                c,
            ) && !holds_wall(old(map).voxel(a, c)) {
                Voxel { floor: old(map).voxel(a, c).floor, props: Some(wall_prop_of(b.kind)) }
            } else {
                old(map).voxel(a, c)
            },
{
    let ghost orig = *map;
    let shape = shape_for(b, 0);
    let notch_x_start = b.x + b.w - b.w / L_SHAPE_NOTCH_DIVISOR;
    let notch_y_start = b.y + b.h - b.h / L_SHAPE_NOTCH_DIVISOR;
    let corner_radius = ROUNDED_CORNER_RADIUS;
    let wall_prop = if b.kind == 6 || b.kind == 7 || b.kind == 9 {
        Props::StoneWall
    } else {
        Props::Wall
    };
    let mut y = b.y;
    while y < b.y + b.h
        invariant
            building_in_range(*b),
            shape == building_shape(*b, 0),
            notch_x_start == notch_x(*b),
            notch_y_start == notch_y(*b),
            corner_radius == ROUNDED_CORNER_RADIUS,
            wall_prop == wall_prop_of(b.kind),
            b.y <= y <= b.y + b.h,
            same_frame(map, &orig),
            forall|a: int, c: int|
                map.in_bounds(a, c) ==> #[trigger] map.voxel(a, c) == if repair_wall(*b, shape, a, c)
                    && !holds_wall(orig.voxel(a, c)) && c < y {
                    Voxel { floor: orig.voxel(a, c).floor, props: Some(wall_prop_of(b.kind)) }
                } else {
                    orig.voxel(a, c)
                },
        decreases b.y + b.h - y,
    {
        let mut x = b.x;
        while x < b.x + b.w
            invariant
                building_in_range(*b),
                shape == building_shape(*b, 0),
                notch_x_start == notch_x(*b),
                notch_y_start == notch_y(*b),
                corner_radius == ROUNDED_CORNER_RADIUS,
                wall_prop == wall_prop_of(b.kind),
                b.y <= y < b.y + b.h,
                b.x <= x <= b.x + b.w,
                same_frame(map, &orig),
                forall|a: int, c: int|
                    map.in_bounds(a, c) ==> #[trigger] map.voxel(a, c) == if repair_wall(*b, shape, a, c)
                        && !holds_wall(orig.voxel(a, c)) && (c < y || (c == y && a < x)) {
                        Voxel { floor: orig.voxel(a, c).floor, props: Some(wall_prop_of(b.kind)) }
                    } else {
                        orig.voxel(a, c)
                    },
            decreases b.x + b.w - x,
        {
            if !(shape == SHAPE_L && x >= notch_x_start && y >= notch_y_start) {
                let is_border = x == b.x || x == b.x + b.w - 1 || y == b.y || y == b.y + b.h - 1;
                let is_l_border = if shape == SHAPE_L {
                    (x == notch_x_start - 1 && y >= notch_y_start) || (y == notch_y_start - 1 && x
                        >= notch_x_start)
                } else {
                    false
                };
                let is_door = (y == b.y + b.h - 1 && x == b.x + b.w / 2 && (shape != SHAPE_L || x
                    < notch_x_start)) || (y == b.y && x == b.x + b.w / 2);
                let is_side_door = if b.w >= 9 || b.h >= 9 {
                    (x == b.x && y == b.y + b.h / 2) || (x == b.x + b.w - 1 && y == b.y + b.h / 2 && (
                    shape != SHAPE_L || y < notch_y_start))
                } else {
                    false
                };
                let is_corner = if shape == SHAPE_ROUNDED {
                    (b.x + b.w - 1 - x < corner_radius || x - b.x < corner_radius) && (b.y + b.h - 1 - y
                        < corner_radius || y - b.y < corner_radius)
                } else {
                    false
                };
                if (is_border || is_l_border) && !is_door && !is_side_door && !is_corner {
                    if x >= 0 && x < map.width && y >= 0 && y < map.height {
                        let v = map.voxels[y as usize][x as usize];
                        let has_wall = match v.props {
                            Some(p) => p.is_wall(),
                            None => false,
                        };
                        if !has_wall {
                            let ghost pre = *map;
                            put_voxel(map, x, y, Voxel { floor: v.floor, props: Some(wall_prop) });
                            proof {
                                assert forall|a: int, c: int| map.in_bounds(a, c) implies #[trigger] map.voxel(
                                    a,
                                    c,
                                ) == if repair_wall(*b, shape, a, c) && !holds_wall(orig.voxel(a, c)) && (c
                                    < y || (c == y && a < x + 1)) {
                                    Voxel { floor: orig.voxel(a, c).floor, props: Some(wall_prop_of(b.kind)) }
                                } else {
                                    orig.voxel(a, c)
                                } by {
                                    assert(pre.voxel(a, c) == if repair_wall(*b, shape, a, c) && !holds_wall(
                                        orig.voxel(a, c),
                                    ) && (c < y || (c == y && a < x)) {
                                        Voxel {
                                            floor: orig.voxel(a, c).floor,
                                            props: Some(wall_prop_of(b.kind)),
                                        }
                                    } else {
                                        orig.voxel(a, c)
                                    });
                                }
                            }
                        }
                    }
                }
            }
            x = x + 1;
        }
        y = y + 1;
    }
}

/// Places building `b`: lays its floor and outline walls (shape chosen by
/// noise under `seed`), furnishes the interior by building kind, repairs
/// the wall perimeter, and marks its rectangle occupied.
///
/// Only tiles of the building's rectangle change; every on-map tile of the
/// footprint gets the building's floor (stone for churches, banks and
/// jails, wooden planks otherwise), and every on-map outline wall tile
/// holds the building's wall. Each tile ends up as `placed_voxel` says:
/// doors (middle of the top and bottom edges, and of the sides for
/// buildings at least 9 tiles across) are left open by the shell, and the
/// interior holds the fittings of the building's kind (`fittings`).
pub fn place_building(map: &mut GameMap, b: &Building, seed: NoiseSeed)
    requires
        old(map).wf(),
        building_in_range(*b),
    ensures
        final(map).wf(),
        final(map).width == old(map).width,
        final(map).height == old(map).height,
        final(map).faction_anchors@ == old(map).faction_anchors@,
        forall|a: int, c: int|
            final(map).in_bounds(a, c) ==> #[trigger] final(map).occupied(a, c) == (old(map).occupied(a, c)
                || in_rect(*b, a, c)),
        forall|a: int, c: int|
            final(map).in_bounds(a, c) && !in_rect(*b, a, c) ==> #[trigger] final(map).voxel(a, c) == old(
                map,
            ).voxel(a, c),
        forall|a: int, c: int|
            final(map).in_bounds(a, c) && in_footprint(*b, building_shape(*b, seed), a, c) ==> (
            #[trigger] final(map).voxel(a, c)).floor == Some(floor_of(b.kind)),
        forall|a: int, c: int|
            final(map).in_bounds(a, c) && outline_wall(*b, building_shape(*b, seed), a, c) ==> (
            #[trigger] final(map).voxel(a, c)).props == Some(wall_prop_of(b.kind)),
        forall|a: int, c: int|
            final(map).in_bounds(a, c) ==> #[trigger] final(map).voxel(a, c) == placed_voxel(old(map), *b, seed, a, c),
{
    let ghost m0 = *map;
    let shape = shape_for(b, seed);
    build_shell(map, b, shape);
    let ghost m1 = *map;
    furnish_interior(map, b);
    let ghost m2 = *map;
    validate_building_walls(map, b);
    let ghost m3 = *map;
    proof {
        assert forall|a: int, c: int| m3.in_bounds(a, c) implies {
            &&& (#[trigger] m3.voxel(a, c)).floor == m2.voxel(a, c).floor
            &&& (!in_rect(*b, a, c) ==> m3.voxel(a, c) == m2.voxel(a, c))
            &&& (m2.voxel(a, c).props == Some(wall_prop_of(b.kind)) ==> m3.voxel(a, c).props == m2.voxel(
                a,
                c,
            ).props)
        } by {
            assert(m3.voxel(a, c) == if repair_wall(*b, building_shape(*b, 0), a, c) && !holds_wall(m2.voxel(a, c)) {
                Voxel { floor: m2.voxel(a, c).floor, props: Some(wall_prop_of(b.kind)) }
            } else {
                m2.voxel(a, c)
            });
            if m2.voxel(a, c).props == Some(wall_prop_of(b.kind)) {
                assert(holds_wall(m2.voxel(a, c)));
            }
        }
        assert(furnishing_step(&m2, &m3, *b));
        lemma_furnishing_trans(&m1, &m2, &m3, *b);
    }
    map.mark_occupied(b.x, b.y, b.w, b.h);
    proof {
        assert forall|a: int, c: int| map.in_bounds(a, c) implies #[trigger] map.voxel(a, c) == placed_voxel(
            &m0,
            *b,
            seed,
            a,
            c,
        ) by {
            assert(m1.occupied(a, c) == m0.occupied(a, c));
            assert(m1.voxel(a, c) == if in_footprint(*b, shape, a, c) {
                shell_voxel(*b, shape, a, c)
            } else {
                m0.voxel(a, c)
            });
            assert(m2.voxel(a, c) == fitted_voxel(&m1, fittings(*b), a, c));
            assert(m3.voxel(a, c) == if repair_wall(*b, building_shape(*b, 0), a, c) && !holds_wall(m2.voxel(a, c)) {
                Voxel { floor: m2.voxel(a, c).floor, props: Some(wall_prop_of(b.kind)) }
            } else {
                m2.voxel(a, c)
            });
        }
        assert forall|a: int, c: int| map.in_bounds(a, c) && !in_rect(*b, a, c) implies #[trigger] map.voxel(
            a,
            c,
        ) == m0.voxel(a, c) by {
            assert(m1.voxel(a, c) == m0.voxel(a, c));
            assert(m3.voxel(a, c) == m1.voxel(a, c));
        }
        assert forall|a: int, c: int| map.in_bounds(a, c) && in_footprint(*b, shape, a, c) implies (
        #[trigger] map.voxel(a, c)).floor == Some(floor_of(b.kind)) by {
            assert(m1.voxel(a, c) == shell_voxel(*b, shape, a, c));
            assert(m3.voxel(a, c).floor == m1.voxel(a, c).floor);
        }
        assert forall|a: int, c: int| map.in_bounds(a, c) && outline_wall(*b, shape, a, c) implies (
        #[trigger] map.voxel(a, c)).props == Some(wall_prop_of(b.kind)) by {
            assert(m1.voxel(a, c) == shell_voxel(*b, shape, a, c));
            assert(m3.voxel(a, c).props == m1.voxel(a, c).props);
        }
    }
}

/// Whether `p` is one of the listed prop kinds.
pub fn props_listed(list: &[Props], p: Props) -> (r: bool)
    ensures
        r == list@.contains(p),
{
    let mut i: usize = 0;
    while i < list.len()
        invariant
            i <= list@.len(),
            forall|j: int| 0 <= j < i ==> list@[j] != p,
        decreases list@.len() - i,
    {
        if list[i] == p {
            assert(list@[i as int] == p);
            return true;
        }
        i = i + 1;
    }
    false
}

} // verus!
