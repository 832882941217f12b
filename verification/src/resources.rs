//! Shared game state: the spatial index of entities, the combat log,
//! particles, blood stains, collectible supplies, the per-tick random
//! source, sound events and the aiming cursor.
use vstd::prelude::*;

use crate::components::{Caliber, CollectibleKind, EntityId};
use crate::gamemap::GameMap;
use crate::graphics::{Floor, Props};
use crate::grid_vec::GridVec;
use std::collections::VecDeque;

verus! {

/// Spatial index: the entities standing on each tile.
///
/// Each tile appears at most once in `cells`; a tile whose last entity has
/// left keeps an empty list.
#[derive(Clone, Debug)]
pub struct SpatialIndex {
    pub cells: Vec<(GridVec, Vec<EntityId>)>,
}

/// Whether no tile appears twice.
pub open spec fn unique_tiles(cells: Seq<(GridVec, Vec<EntityId>)>) -> bool {
    forall|i: int, j: int|
        0 <= i < cells.len() && 0 <= j < cells.len() && i != j ==> #[trigger] cells[i].0 != #[trigger] cells[j].0
}

/// Whether `p` has an entry.
pub open spec fn has_tile(cells: Seq<(GridVec, Vec<EntityId>)>, p: GridVec) -> bool {
    exists|i: int| 0 <= i < cells.len() && #[trigger] cells[i].0 == p
}

/// The entities listed for tile `p` (empty when `p` has no entry).
pub open spec fn tile_entities(cells: Seq<(GridVec, Vec<EntityId>)>, p: GridVec) -> Seq<EntityId> {
    if has_tile(cells, p) {
        cells[choose|i: int| 0 <= i < cells.len() && #[trigger] cells[i].0 == p].1@
    } else {
        Seq::empty()
    }
}

/// Index of tile `p` among the entries, if any.
fn find_tile(cells: &Vec<(GridVec, Vec<EntityId>)>, p: GridVec) -> (r: Option<usize>)
    requires
        unique_tiles(cells@),
    ensures
        match r {
            Some(i) => i < cells@.len() && cells@[i as int].0 == p
                && tile_entities(cells@, p) == cells@[i as int].1@,
            None => !has_tile(cells@, p) && tile_entities(cells@, p) == Seq::<EntityId>::empty(),
        },
{
    let mut i: usize = 0;
    while i < cells.len()
        invariant
            i <= cells@.len(),
            unique_tiles(cells@),
            forall|j: int| 0 <= j < i ==> #[trigger] cells@[j].0 != p,
        decreases cells@.len() - i,
    {
        if cells[i].0 == p {
            proof {
                assert(has_tile(cells@, p));
                let c = choose|k: int| 0 <= k < cells@.len() && #[trigger] cells@[k].0 == p;
                assert(c == i);
            }
            return Some(i);
        }
        i = i + 1;
    }
    None
}

/// The entities in `s` other than `e`, in order.
pub open spec fn without_entity(s: Seq<EntityId>, e: EntityId) -> Seq<EntityId> {
    s.filter(other_than(e))
}

/// The predicate "is not `e`".
pub open spec fn other_than(e: EntityId) -> spec_fn(EntityId) -> bool {
    |x: EntityId| x != e
}

impl SpatialIndex {
    /// Whether every tile has at most one entry.
    pub open spec fn wf(&self) -> bool {
        unique_tiles(self.cells@)
    }

    /// The entities on tile `p`.
    pub open spec fn at(&self, p: GridVec) -> Seq<EntityId> {
        tile_entities(self.cells@, p)
    }

    /// Returns all entities occupying the given tile, or an empty slice.
    pub fn entities_at(&self, point: &GridVec) -> (r: &[EntityId])
        requires
            self.wf(),
        ensures
            r@ == self.at(*point),
    {
        match find_tile(&self.cells, *point) {
            Some(i) => self.cells[i].1.as_slice(),
            None => &[],
        }
    }

    /// Removes an entity from a specific tile; other tiles are unchanged.
    pub fn remove_entity(&mut self, point: &GridVec, entity: EntityId)
        requires
            old(self).wf(),
        ensures
            final(self).wf(),
            final(self).at(*point) == without_entity(old(self).at(*point), entity),
            forall|p: GridVec| p != *point ==> #[trigger] final(self).at(p) == old(self).at(p),
    {
        match find_tile(&self.cells, *point) {
            Some(i) => {
                let ghost before = self.cells@;
                let mut kept: Vec<EntityId> = Vec::new();
                let n = self.cells[i].1.len();
                let mut j: usize = 0;
                while j < n
                    invariant
                        self.cells@ == before,
                        i < before.len(),
                        n == before[i as int].1@.len(),
                        j <= n,
                        kept@ == without_entity(before[i as int].1@.take(j as int), entity),
                    decreases n - j,
                {
                    let e = self.cells[i].1[j];
                    proof {
                        let s = before[i as int].1@;
                        assert(s.take(j as int + 1) == s.take(j as int).push(e));
                        s.take(j as int).lemma_filter_push(e, other_than(entity));
                    }
                    if e != entity {
                        kept.push(e);
                    }
                    j = j + 1;
                }
                proof {
                    assert(before[i as int].1@.take(n as int) == before[i as int].1@);
                }
                let tile = self.cells[i].0;
                self.cells.set(i, (tile, kept));
                proof {
                    assert forall|p: GridVec| p != *point implies #[trigger] self.at(p) == old(self).at(p) by {
                        if has_tile(before, p) {
                            let c = choose|k: int| 0 <= k < before.len() && #[trigger] before[k].0 == p;
                            assert(self.cells@[c].0 == p);
                            assert(has_tile(self.cells@, p));
                        }
                        if has_tile(self.cells@, p) {
                            let c = choose|k: int| 0 <= k < self.cells@.len() && #[trigger] self.cells@[k].0 == p;
                            assert(before[c].0 == p);
                        }
                    }
                    assert(self.cells@[i as int].0 == *point);
                    assert(has_tile(self.cells@, *point));
                }
            },
            None => {
                proof {
                    assert(without_entity(Seq::<EntityId>::empty(), entity) == Seq::<EntityId>::empty());
                }
            },
        }
    }

    /// Adds an entity to a specific tile; other tiles are unchanged.
    pub fn add_entity(&mut self, point: GridVec, entity: EntityId)
        requires
            old(self).wf(),
        ensures
            final(self).wf(),
            final(self).at(point) == old(self).at(point).push(entity),
            forall|p: GridVec| p != point ==> #[trigger] final(self).at(p) == old(self).at(p),
    {
        let ghost before = self.cells@;
        match find_tile(&self.cells, point) {
            Some(i) => {
                let tile = self.cells[i].0;
                proof {
                    assert(tile == point);
                }
                let mut entry = (tile, Vec::new());
                core::mem::swap(&mut entry, &mut self.cells[i]);
                let mut list = entry.1;
                list.push(entity);
                self.cells.set(i, (point, list));
                proof {
                    assert forall|p: GridVec| p != point implies #[trigger] self.at(p) == old(self).at(p) by {
                        if has_tile(before, p) {
                            let c = choose|k: int| 0 <= k < before.len() && #[trigger] before[k].0 == p;
                            assert(self.cells@[c].0 == p);
                            assert(has_tile(self.cells@, p));
                        }
                        if has_tile(self.cells@, p) {
                            let c = choose|k: int| 0 <= k < self.cells@.len() && #[trigger] self.cells@[k].0 == p;
                            assert(before[c].0 == p);
                        }
                    }
                    assert(self.cells@[i as int].0 == point);
                    assert(has_tile(self.cells@, point));
                }
            },
            None => {
                let mut list = Vec::new();
                list.push(entity);
                self.cells.push((point, list));
                proof {
                    let n = before.len();
                    assert forall|p: GridVec| p != point implies #[trigger] self.at(p) == old(self).at(p) by {
                        if has_tile(before, p) {
                            let c = choose|k: int| 0 <= k < before.len() && #[trigger] before[k].0 == p;
                            assert(self.cells@[c].0 == p);
                            assert(has_tile(self.cells@, p));
                        }
                        if has_tile(self.cells@, p) {
                            let c = choose|k: int| 0 <= k < self.cells@.len() && #[trigger] self.cells@[k].0 == p;
                            assert(c != n);
                            assert(before[c].0 == p);
                        }
                    }
                    assert(self.cells@[n as int].0 == point);
                    assert(has_tile(self.cells@, point));
                    assert(Seq::<EntityId>::empty().push(entity) == seq![entity]);
                }
            },
        }
    }

    /// Moves an entity from one tile to another: it is removed from
    /// `from` and then appended to `to`.
    pub fn move_entity(&mut self, from: &GridVec, to: GridVec, entity: EntityId)
        requires
            old(self).wf(),
        ensures
            final(self).wf(),
            *from != to ==> final(self).at(*from) == without_entity(old(self).at(*from), entity),
            *from != to ==> final(self).at(to) == old(self).at(to).push(entity),
            *from == to ==> final(self).at(to) == without_entity(old(self).at(to), entity).push(entity),
            forall|p: GridVec| p != *from && p != to ==> #[trigger] final(self).at(p) == old(self).at(p),
    {
        self.remove_entity(from, entity);
        self.add_entity(to, entity);
    }

    /// Rebuilds the index from scratch: every entity is listed on the tile
    /// of its position, in the order given.
    pub fn rebuild(&mut self, entities: &[(EntityId, GridVec)])
        ensures
            final(self).wf(),
            forall|p: GridVec| #[trigger] final(self).at(p) == entities_on(entities@, p),
    {
        self.cells.clear();
        let mut i: usize = 0;
        while i < entities.len()
            invariant
                i <= entities@.len(),
                self.wf(),
                forall|p: GridVec| #[trigger] self.at(p) == entities_on(entities@.take(i as int), p),
            decreases entities@.len() - i,
        {
            let (e, pos) = entities[i];
            let ghost before = *self;
            self.add_entity(pos, e);
            proof {
                assert forall|p: GridVec| #[trigger] self.at(p) == entities_on(entities@.take(i + 1), p) by {
                    assert(entities@.take(i + 1).drop_last() =~= entities@.take(i as int));
                    assert(entities@.take(i + 1).last() == (e, pos));
                    assert(before.at(p) == entities_on(entities@.take(i as int), p));
                }
            }
            i = i + 1;
        }
        proof {
            assert(entities@.take(entities@.len() as int) =~= entities@);
        }
    }
}

/// The entities of `s` standing on tile `p`, in order.
pub open spec fn entities_on(s: Seq<(EntityId, GridVec)>, p: GridVec) -> Seq<EntityId> {
    s.filter_map(|e: (EntityId, GridVec)| if e.1 == p { Some(e.0) } else { None })
}

impl core::default::Default for SpatialIndex {
    /// An empty index.
    fn default() -> (r: SpatialIndex)
        ensures
            r.wf(),
            forall|p: GridVec| #[trigger] r.at(p) == Seq::<EntityId>::empty(),
    {
        SpatialIndex { cells: Vec::new() }
    }
}

/// Maximum number of messages retained in the combat log.
pub const MAX_COMBAT_LOG_MESSAGES: usize = 50;

/// Rolling history of combat messages, oldest first. Each message may
/// carry the world position it happened at, so that only events the
/// player can see are shown.
#[derive(Debug)]
pub struct CombatLog {
    pub messages: VecDeque<String>,
    /// The world position of each message; `None` means always shown.
    positions: VecDeque<Option<GridVec>>,
}

/// Keeps at most the newest `MAX_COMBAT_LOG_MESSAGES` entries of a log
/// that has just grown by one.
pub open spec fn trim_log<T>(s: Seq<T>) -> Seq<T> {
    if s.len() > MAX_COMBAT_LOG_MESSAGES { s.subrange(1, s.len() as int) } else { s }
}

/// The text of each message.
pub open spec fn texts(s: Seq<String>) -> Seq<Seq<char>> {
    s.map_values(|m: String| m@)
}

/// The last `n` elements of `s` (all of them when there are fewer).
pub open spec fn last_n<T>(s: Seq<T>, n: int) -> Seq<T> {
    if n >= s.len() { s } else { s.subrange(s.len() - n, s.len() as int) }
}

/// The texts of the messages that are untagged or tagged with a position
/// in `visible`, oldest first.
pub open spec fn visible_texts(
    msgs: Seq<String>,
    poss: Seq<Option<GridVec>>,
    visible: Seq<GridVec>,
) -> Seq<Seq<char>>
    decreases msgs.len(),
{
    if msgs.len() == 0 || poss.len() == 0 {
        Seq::empty()
    } else {
        let rest = visible_texts(msgs.drop_last(), poss.drop_last(), visible);
        match poss.last() {
            Some(p) => if visible.contains(p) { rest.push(msgs.last()@) } else { rest },
            None => rest.push(msgs.last()@),
        }
    }
}

impl CombatLog {
    /// Whether messages and positions are in step and within the bound.
    pub closed spec fn wf(&self) -> bool {
        &&& self.messages@.len() == self.positions@.len()
        &&& self.messages@.len() <= MAX_COMBAT_LOG_MESSAGES
    }

    /// The messages, oldest first.
    pub closed spec fn log(&self) -> Seq<String> {
        self.messages@
    }

    /// The position tag of each message.
    pub closed spec fn tags(&self) -> Seq<Option<GridVec>> {
        self.positions@
    }

    /// Appends a message with an optional position, dropping the oldest
    /// entry when the log is full.
    fn push_inner(&mut self, message: String, pos: Option<GridVec>)
        requires
            old(self).wf(),
        ensures
            final(self).wf(),
            final(self).log().len() <= MAX_COMBAT_LOG_MESSAGES,
            final(self).log().len() == final(self).tags().len(),
            final(self).log() == trim_log(old(self).log().push(message)),
            final(self).tags() == trim_log(old(self).tags().push(pos)),
    {
        self.messages.push_back(message);
        self.positions.push_back(pos);
        if self.messages.len() > MAX_COMBAT_LOG_MESSAGES {
            self.messages.pop_front();
            self.positions.pop_front();
        }
    }

    /// Adds a message that is always visible.
    pub fn push(&mut self, message: String)
        requires
            old(self).wf(),
        ensures
            final(self).wf(),
            final(self).log().len() <= MAX_COMBAT_LOG_MESSAGES,
            final(self).log().len() == final(self).tags().len(),
            final(self).log() == trim_log(old(self).log().push(message)),
            final(self).tags() == trim_log(old(self).tags().push(None)),
    {
        self.push_inner(message, None);
    }

    /// Adds a message tagged with a world position.
    pub fn push_at(&mut self, message: String, pos: GridVec)
        requires
            old(self).wf(),
        ensures
            final(self).wf(),
            final(self).log().len() <= MAX_COMBAT_LOG_MESSAGES,
            final(self).log().len() == final(self).tags().len(),
            final(self).log() == trim_log(old(self).log().push(message)),
            final(self).tags() == trim_log(old(self).tags().push(Some(pos))),
    {
        self.push_inner(message, Some(pos));
    }

    /// Adds a message with an optional position.
    pub fn push_opt(&mut self, message: String, pos: Option<GridVec>)
        requires
            old(self).wf(),
        ensures
            final(self).wf(),
            final(self).log().len() <= MAX_COMBAT_LOG_MESSAGES,
            final(self).log().len() == final(self).tags().len(),
            final(self).log() == trim_log(old(self).log().push(message)),
            final(self).tags() == trim_log(old(self).tags().push(pos)),
    {
        self.push_inner(message, pos);
    }

    /// Clears all entries.
    pub fn clear(&mut self)
        ensures
            final(self).wf(),
            final(self).log().len() == 0,
            final(self).tags().len() == 0,
    {
        self.messages.clear();
        self.positions.clear();
    }

    /// The texts of the most recent `n` messages, oldest first.
    pub fn recent(&self, n: usize) -> (r: Vec<&str>)
        ensures
            r@.map_values(|s: &str| s@) == last_n(texts(self.log()), n as int),
    {
        let len = self.messages.len();
        let start = if n >= len { 0 } else { len - n };
        let mut out: Vec<&str> = Vec::new();
        let mut i = start;
        while i < len
            invariant
                start <= i <= len,
                len == self.messages@.len(),
                start == (if n >= len { 0 } else { len - n }),
                out@.len() == i - start,
                forall|k: int| 0 <= k < out@.len() ==> #[trigger] out@[k]@ == self.messages@[start + k]@,
            decreases len - i,
        {
            out.push(self.messages[i].as_str());
            i = i + 1;
        }
        proof {
            assert(out@.map_values(|s: &str| s@) =~= last_n(texts(self.messages@), n as int));
        }
        out
    }

    /// The texts of the most recent `n` messages that are untagged or
    /// tagged with a position in `visible`, oldest first.
    pub fn recent_visible(&self, n: usize, visible: &[GridVec]) -> (r: Vec<&str>)
        requires
            self.wf(),
        ensures
            r@.map_values(|s: &str| s@)
                == last_n(visible_texts(self.log(), self.tags(), visible@), n as int),
    {
        let len = self.messages.len();
        let mut shown: Vec<&str> = Vec::new();
        let mut i: usize = 0;
        while i < len
            invariant
                i <= len,
                len == self.messages@.len(),
                self.wf(),
                shown@.map_values(|s: &str| s@) == visible_texts(
                    self.messages@.take(i as int),
                    self.positions@.take(i as int),
                    visible@,
                ),
            decreases len - i,
        {
            let keep = match self.positions[i] {
                Some(p) => contains_point(visible, p),
                None => true,
            };
            proof {
                let m = self.messages@.take(i as int + 1);
                let q = self.positions@.take(i as int + 1);
                assert(m.drop_last() == self.messages@.take(i as int));
                assert(q.drop_last() == self.positions@.take(i as int));
            }
            if keep {
                let ghost before = shown@;
                shown.push(self.messages[i].as_str());
                proof {
                    assert(shown@.map_values(|s: &str| s@) =~= before.map_values(|s: &str| s@).push(self.messages@[i as int]@));
                }
            }
            i = i + 1;
        }
        proof {
            assert(self.messages@.take(len as int) == self.messages@);
            assert(self.positions@.take(len as int) == self.positions@);
        }
        let total = shown.len();
        let start = if n >= total { 0 } else { total - n };
        let mut out: Vec<&str> = Vec::new();
        let mut j = start;
        while j < total
            invariant
                start <= j <= total,
                total == shown@.len(),
                start == (if n >= total { 0 } else { total - n }),
                out@.len() == j - start,
                forall|k: int| 0 <= k < out@.len() ==> #[trigger] out@[k] == shown@[start + k],
            decreases total - j,
        {
            out.push(shown[j]);
            j = j + 1;
        }
        proof {
            let sv = shown@.map_values(|s: &str| s@);
            assert(out@.map_values(|s: &str| s@) =~= last_n(sv, n as int));
        }
        out
    }
}

impl core::default::Default for CombatLog {
    /// An empty log.
    fn default() -> (r: CombatLog)
        ensures
            r.wf(),
            r.log().len() == 0,
    {
        CombatLog { messages: VecDeque::new(), positions: VecDeque::new() }
    }
}

/// Whether `p` occurs in `points`.
pub fn contains_point(points: &[GridVec], p: GridVec) -> (r: bool)
    ensures
        r == points@.contains(p),
{
    let mut i: usize = 0;
    while i < points.len()
        invariant
            i <= points@.len(),
            forall|j: int| 0 <= j < i ==> points@[j] != p,
        decreases points@.len() - i,
    {
        if points[i] == p {
            proof {
                assert(points@[i as int] == p);
            }
            return true;
        }
        i = i + 1;
    }
    false
}

/// Blood splatters: each stained tile with the turn its blood was placed.
#[derive(Clone, Debug)]
pub struct BloodMap {
    pub stains: Vec<(GridVec, u32)>,
}

/// Blood stains older than this many turns are removed.
pub const BLOOD_MAX_AGE: u32 = 20;

/// Whether a stain placed on `turn` is still fresh at `current_turn`.
pub open spec fn stain_fresh(current_turn: u32, turn: u32) -> bool {
    current_turn - turn <= BLOOD_MAX_AGE
}

/// The stains of `s` that are still fresh, in order.
pub open spec fn fresh_stains(s: Seq<(GridVec, u32)>, current_turn: u32) -> Seq<(GridVec, u32)> {
    s.filter(fresh_at(current_turn))
}

/// The predicate "the stain is still fresh at `current_turn`".
pub open spec fn fresh_at(current_turn: u32) -> spec_fn((GridVec, u32)) -> bool {
    |st: (GridVec, u32)| stain_fresh(current_turn, st.1)
}

/// `after` is `before` with a stain at `pos` from `turn`: the first stain
/// on that tile gets the new turn, or a new stain is appended.
pub open spec fn stained(before: Seq<(GridVec, u32)>, after: Seq<(GridVec, u32)>, pos: GridVec, turn: u32) -> bool {
    &&& (forall|i: int| 0 <= i < before.len() ==> #[trigger] before[i].0 != pos) ==> after == before.push(
        (pos, turn),
    )
    &&& (exists|i: int| 0 <= i < before.len() && #[trigger] before[i].0 == pos) ==> exists|i: int|
        0 <= i < before.len() && before[i].0 == pos && (forall|j: int| 0 <= j < i ==> #[trigger] before[j].0 != pos)
            && after == before.update(i, (pos, turn))
}

impl BloodMap {
    /// Records a blood stain at `pos` on `turn`, replacing the turn of an
    /// existing stain there.
    pub fn stain(&mut self, pos: GridVec, turn: u32)
        ensures
            stained(old(self).stains@, final(self).stains@, pos, turn),
    {
        let mut i: usize = 0;
        while i < self.stains.len()
            invariant
                i <= self.stains@.len(),
                self.stains@ == old(self).stains@,
                forall|j: int| 0 <= j < i ==> #[trigger] self.stains@[j].0 != pos,
            decreases self.stains@.len() - i,
        {
            if self.stains[i].0 == pos {
                self.stains.set(i, (pos, turn));
                return;
            }
            i = i + 1;
        }
        self.stains.push((pos, turn));
    }

    /// Removes the stains older than `BLOOD_MAX_AGE` turns (a stain from a
    /// later turn than `current_turn` counts as fresh).
    pub fn prune(&mut self, current_turn: u32)
        ensures
            final(self).stains@ == fresh_stains(old(self).stains@, current_turn),
    {
        let mut kept: Vec<(GridVec, u32)> = Vec::new();
        let n = self.stains.len();
        let mut i: usize = 0;
        while i < n
            invariant
                i <= n,
                n == old(self).stains@.len(),
                self.stains@ == old(self).stains@,
                kept@ == old(self).stains@.take(i as int).filter(fresh_at(current_turn)),
            decreases n - i,
        {
            let st = self.stains[i];
            proof {
                let s = old(self).stains@;
                assert(s.take(i as int + 1) == s.take(i as int).push(st));
                s.take(i as int).lemma_filter_push(st, fresh_at(current_turn));
            }
            let fresh = current_turn.saturating_sub(st.1) <= BLOOD_MAX_AGE;
            proof {
                assert(stain_fresh(current_turn, st.1) == fresh);
            }
            if fresh {
                kept.push(st);
            }
            i = i + 1;
        }
        proof {
            assert(old(self).stains@.take(n as int) == old(self).stains@);
        }
        self.stains = kept;
    }
}

impl core::default::Default for BloodMap {
    /// No stains.
    fn default() -> (r: BloodMap)
        ensures
            r.stains@.len() == 0,
    {
        BloodMap { stains: Vec::new() }
    }
}

/// Collectible supplies, tracked by quantity outside the inventory.
#[derive(Clone, Copy, Debug, PartialEq, Eq, Structural)]
pub struct Collectibles {
    /// Percussion caps (1 per round when reloading).
    pub caps: i32,
    /// .31 caliber lead bullets.
    pub bullets_31: i32,
    /// .36 caliber lead bullets.
    pub bullets_36: i32,
    /// .44 caliber lead bullets.
    pub bullets_44: i32,
    /// .50 caliber lead bullets.
    pub bullets_50: i32,
    /// .58 caliber lead bullets.
    pub bullets_58: i32,
    /// .577 caliber lead bullets.
    pub bullets_577: i32,
    /// .69 caliber lead bullets.
    pub bullets_69: i32,
    /// Black powder charges (1 per round when reloading).
    pub powder: i32,
}

/// The bullet count held for a caliber.
pub open spec fn bullets_of(c: Collectibles, caliber: Caliber) -> i32 {
    match caliber {
        Caliber::Cal31 => c.bullets_31,
        Caliber::Cal36 => c.bullets_36,
        Caliber::Cal44 => c.bullets_44,
        Caliber::Cal50 => c.bullets_50,
        Caliber::Cal58 => c.bullets_58,
        Caliber::Cal577 => c.bullets_577,
        Caliber::Cal69 => c.bullets_69,
    }
}

/// `c` with the bullet count for `caliber` replaced by `v`.
pub open spec fn with_bullets(c: Collectibles, caliber: Caliber, v: i32) -> Collectibles {
    match caliber {
        Caliber::Cal31 => Collectibles { bullets_31: v, ..c },
        Caliber::Cal36 => Collectibles { bullets_36: v, ..c },
        Caliber::Cal44 => Collectibles { bullets_44: v, ..c },
        Caliber::Cal50 => Collectibles { bullets_50: v, ..c },
        Caliber::Cal58 => Collectibles { bullets_58: v, ..c },
        Caliber::Cal577 => Collectibles { bullets_577: v, ..c },
        Caliber::Cal69 => Collectibles { bullets_69: v, ..c },
    }
}

/// Whether one round of the caliber can be reloaded: a matching bullet, a
/// cap and a powder charge are all available.
pub open spec fn reloadable(c: Collectibles, caliber: Caliber) -> bool {
    bullets_of(c, caliber) > 0 && c.caps > 0 && c.powder > 0
}

/// The pool after one round's supplies are used.
pub open spec fn after_reload(c: Collectibles, caliber: Caliber) -> Collectibles {
    let d = with_bullets(c, caliber, (bullets_of(c, caliber) - 1) as i32);
    Collectibles { caps: (c.caps - 1) as i32, powder: (c.powder - 1) as i32, ..d }
}

/// The quantity a pickup adds to the pool.
pub open spec fn pickup_amount(kind: CollectibleKind) -> i32 {
    match kind {
        CollectibleKind::Caps(n) => n,
        CollectibleKind::Bullets31(n) => n,
        CollectibleKind::Bullets36(n) => n,
        CollectibleKind::Bullets44(n) => n,
        CollectibleKind::Bullets50(n) => n,
        CollectibleKind::Bullets58(n) => n,
        CollectibleKind::Bullets577(n) => n,
        CollectibleKind::Bullets69(n) => n,
        CollectibleKind::Powder(n) => n,
    }
}

/// The current count of the supply a pickup adds to.
pub open spec fn pickup_target(c: Collectibles, kind: CollectibleKind) -> i32 {
    match kind {
        CollectibleKind::Caps(_) => c.caps,
        CollectibleKind::Bullets31(_) => c.bullets_31,
        CollectibleKind::Bullets36(_) => c.bullets_36,
        CollectibleKind::Bullets44(_) => c.bullets_44,
        CollectibleKind::Bullets50(_) => c.bullets_50,
        CollectibleKind::Bullets58(_) => c.bullets_58,
        CollectibleKind::Bullets577(_) => c.bullets_577,
        CollectibleKind::Bullets69(_) => c.bullets_69,
        CollectibleKind::Powder(_) => c.powder,
    }
}

/// The pool after a pickup.
pub open spec fn after_pickup(c: Collectibles, kind: CollectibleKind) -> Collectibles {
    match kind {
        CollectibleKind::Caps(n) => Collectibles { caps: (c.caps + n) as i32, ..c },
        CollectibleKind::Bullets31(n) => Collectibles { bullets_31: (c.bullets_31 + n) as i32, ..c },
        CollectibleKind::Bullets36(n) => Collectibles { bullets_36: (c.bullets_36 + n) as i32, ..c },
        CollectibleKind::Bullets44(n) => Collectibles { bullets_44: (c.bullets_44 + n) as i32, ..c },
        CollectibleKind::Bullets50(n) => Collectibles { bullets_50: (c.bullets_50 + n) as i32, ..c },
        CollectibleKind::Bullets58(n) => Collectibles { bullets_58: (c.bullets_58 + n) as i32, ..c },
        CollectibleKind::Bullets577(n) => Collectibles { bullets_577: (c.bullets_577 + n) as i32, ..c },
        CollectibleKind::Bullets69(n) => Collectibles { bullets_69: (c.bullets_69 + n) as i32, ..c },
        CollectibleKind::Powder(n) => Collectibles { powder: (c.powder + n) as i32, ..c },
    }
}

impl core::default::Default for Collectibles {
    /// The starting supplies: 10 caps, 10 .31 bullets and 10 powder
    /// charges.
    fn default() -> (r: Collectibles)
        ensures
            r == (Collectibles {
                caps: 10,
                bullets_31: 10,
                bullets_36: 0,
                bullets_44: 0,
                bullets_50: 0,
                bullets_58: 0,
                bullets_577: 0,
                bullets_69: 0,
                powder: 10,
            }),
    {
        Collectibles {
            caps: 10,
            bullets_31: 10,
            bullets_36: 0,
            bullets_44: 0,
            bullets_50: 0,
            bullets_58: 0,
            bullets_577: 0,
            bullets_69: 0,
            powder: 10,
        }
    }
}

impl Collectibles {
    /// The bullet count for the given caliber.
    pub fn bullets(&self, caliber: Caliber) -> (r: i32)
        ensures
            r == bullets_of(*self, caliber),
    {
        match caliber {
            Caliber::Cal31 => self.bullets_31,
            Caliber::Cal36 => self.bullets_36,
            Caliber::Cal44 => self.bullets_44,
            Caliber::Cal50 => self.bullets_50,
            Caliber::Cal58 => self.bullets_58,
            Caliber::Cal577 => self.bullets_577,
            Caliber::Cal69 => self.bullets_69,
        }
    }

    /// A mutable reference to the bullet count for the given caliber.
    pub fn bullets_mut(&mut self, caliber: Caliber) -> (r: &mut i32)
        ensures
            *r == bullets_of(*old(self), caliber),
            *final(self) == with_bullets(*old(self), caliber, *final(r)),
    {
        match caliber {
            Caliber::Cal31 => &mut self.bullets_31,
            Caliber::Cal36 => &mut self.bullets_36,
            Caliber::Cal44 => &mut self.bullets_44,
            Caliber::Cal50 => &mut self.bullets_50,
            Caliber::Cal58 => &mut self.bullets_58,
            Caliber::Cal577 => &mut self.bullets_577,
            Caliber::Cal69 => &mut self.bullets_69,
        }
    }

    /// Whether the pool holds enough to reload one round of the caliber.
    pub fn can_reload(&self, caliber: Caliber) -> (r: bool)
        ensures
            r == reloadable(*self, caliber),
    {
        self.bullets(caliber) > 0 && self.caps > 0 && self.powder > 0
    }

    /// Uses one round of reload supplies: one matching bullet, one cap and
    /// one powder charge.
    pub fn consume_reload(&mut self, caliber: Caliber)
        requires
            bullets_of(*old(self), caliber) > i32::MIN,
            old(self).caps > i32::MIN,
            old(self).powder > i32::MIN,
        ensures
            *final(self) == after_reload(*old(self), caliber),
    {
        let b = self.bullets_mut(caliber);
        *b = *b - 1;
        self.caps = self.caps - 1;
        self.powder = self.powder - 1;
    }

    /// Adds a collectible pickup to the pool.
    pub fn collect(&mut self, kind: CollectibleKind)
        requires
            i32::MIN <= pickup_target(*old(self), kind) + pickup_amount(kind) <= i32::MAX,
        ensures
            *final(self) == after_pickup(*old(self), kind),
    {
        match kind {
            CollectibleKind::Caps(n) => self.caps = self.caps + n,
            CollectibleKind::Bullets31(n) => self.bullets_31 = self.bullets_31 + n,
            CollectibleKind::Bullets36(n) => self.bullets_36 = self.bullets_36 + n,
            CollectibleKind::Bullets44(n) => self.bullets_44 = self.bullets_44 + n,
            CollectibleKind::Bullets50(n) => self.bullets_50 = self.bullets_50 + n,
            CollectibleKind::Bullets58(n) => self.bullets_58 = self.bullets_58 + n,
            CollectibleKind::Bullets577(n) => self.bullets_577 = self.bullets_577 + n,
            CollectibleKind::Bullets69(n) => self.bullets_69 = self.bullets_69 + n,
            CollectibleKind::Powder(n) => self.powder = self.powder + n,
        }
    }
}

/// Reloading never drives a supply negative: when `can_reload` holds, the
/// pool after `consume_reload` has one bullet, cap and powder less, and
/// every count that was non-negative stays non-negative.
pub proof fn law_reload_keeps_supplies(c: Collectibles, caliber: Caliber)
    requires
        reloadable(c, caliber),
    ensures
        bullets_of(after_reload(c, caliber), caliber) == bullets_of(c, caliber) - 1 >= 0,
        after_reload(c, caliber).caps == c.caps - 1 >= 0,
        after_reload(c, caliber).powder == c.powder - 1 >= 0,
        forall|other: Caliber| other != caliber ==> #[trigger] bullets_of(after_reload(c, caliber), other)
            == bullets_of(c, other),
{
}

/// Random source for gameplay, seeded by the map seed and the world tick,
/// so outcomes are reproducible yet vary from tick to tick.
#[derive(Clone, Copy, Debug, PartialEq, Eq, Structural)]
pub struct DynamicRng {
    /// Counter incremented each world turn.
    pub tick: u64,
}

/// Wrapping multiplication on `u64`.
pub open spec fn wmul(a: u64, b: u64) -> u64 {
    vstd::wrapping::u64_specs::wrapping_mul(a, b)
}

/// Wrapping addition on `u64`.
pub open spec fn wadd(a: u64, b: u64) -> u64 {
    vstd::wrapping::u64_specs::wrapping_add(a, b)
}

/// The 32-bit roll for `(map_seed, tick, key)`: a Knuth LCG step over the
/// seed and tick, offset by the key, then three xor-shift/multiply rounds.
#[verifier::opaque]
pub open spec fn roll_spec(map_seed: u64, tick: u64, key: u64) -> u32 {
    let seed = wadd(wmul(wadd(map_seed, tick), 6364136223846793005u64), key);
    let h1 = seed ^ (seed >> 16u64);
    let h2 = wmul(h1, 0x45d9f3bu64);
    let h3 = h2 ^ (h2 >> 16u64);
    let h4 = wmul(h3, 0x45d9f3bu64);
    let h5 = h4 ^ (h4 >> 16u64);
    h5 as u32
}

/// An index in `[0, len)` from a roll: the roll's fraction of `u32::MAX`
/// scaled by `len`, rounded down and reduced modulo `len`.
pub open spec fn index_from_roll(h: u32, len: int) -> int {
    if len == 0 { 0 } else { ((h * len) / 0xFFFF_FFFF) % len }
}

impl DynamicRng {
    /// The deterministic 32-bit roll for the given key at the current tick;
    /// `roll_bits / u32::MAX` is the roll as a fraction in `[0, 1]`.
    pub fn roll_bits(&self, map_seed: u64, key: u64) -> (r: u32)
        ensures
            r == roll_spec(map_seed, self.tick, key),
    {
        let seed = map_seed.wrapping_add(self.tick).wrapping_mul(6364136223846793005u64).wrapping_add(key);
        let mut h = seed;
        h = h ^ (h >> 16u64);
        h = h.wrapping_mul(0x45d9f3bu64);
        h = h ^ (h >> 16u64);
        h = h.wrapping_mul(0x45d9f3bu64);
        h = h ^ (h >> 16u64);
        proof {
            reveal(roll_spec);
        }
        h as u32
    }

    /// A random index in `[0, len)` (0 when `len` is 0).
    pub fn random_index(&self, map_seed: u64, key: u64, len: usize) -> (r: usize)
        ensures
            r == index_from_roll(roll_spec(map_seed, self.tick, key), len as int),
            len > 0 ==> r < len,
    {
        if len == 0 {
            return 0;
        }
        let h = self.roll_bits(map_seed, key) as u128;
        let l = len as u128;
        proof {
            assert(h * l <= 0xFFFF_FFFFu128 * 0xFFFF_FFFF_FFFF_FFFFu128) by (nonlinear_arith)
                requires h <= 0xFFFF_FFFF, l <= 0xFFFF_FFFF_FFFF_FFFF;
        }
        let scaled = (h * l) / 0xFFFF_FFFFu128;
        (scaled % l) as usize
    }

    /// Advances the tick counter by one (wrapping).
    pub fn advance(&mut self)
        ensures
            final(self).tick == wadd(old(self).tick, 1),
    {
        self.tick = self.tick.wrapping_add(1);
    }

    /// Resets the tick counter (on game restart).
    pub fn reset(&mut self)
        ensures
            final(self).tick == 0,
    {
        self.tick = 0;
    }
}

/// Audible events (gunshots, explosions) that show "!" indicators for a
/// few ticks: each entry is a position and its remaining ticks.
#[derive(Clone, Debug)]
pub struct SoundEvents {
    pub events: Vec<(GridVec, u32)>,
}

/// Maximum audible range (Chebyshev distance) for sound indicators.
pub const SOUND_RANGE: i32 = 20;

/// The events after one tick: every lifetime drops by one (not below zero)
/// and the events whose lifetime reaches zero are removed.
pub open spec fn decayed(s: Seq<(GridVec, u32)>) -> Seq<(GridVec, u32)>
    decreases s.len(),
{
    if s.len() == 0 {
        s
    } else {
        let rest = decayed(s.drop_last());
        let (p, life) = s.last();
        if life > 1 { rest.push((p, (life - 1) as u32)) } else { rest }
    }
}

impl SoundEvents {
    /// Records an audible event lasting three ticks.
    pub fn add(&mut self, pos: GridVec)
        ensures
            final(self).events@ == old(self).events@.push((pos, 3u32)),
    {
        self.events.push((pos, 3));
    }

    /// Ticks down lifetimes and removes expired events.
    pub fn tick(&mut self)
        ensures
            final(self).events@ == decayed(old(self).events@),
    {
        let mut kept: Vec<(GridVec, u32)> = Vec::new();
        let n = self.events.len();
        let mut i: usize = 0;
        while i < n
            invariant
                i <= n,
                n == old(self).events@.len(),
                self.events@ == old(self).events@,
                kept@ == decayed(old(self).events@.take(i as int)),
            decreases n - i,
        {
            let (p, life) = self.events[i];
            proof {
                let s = old(self).events@;
                assert(s.take(i as int + 1).drop_last() == s.take(i as int));
                assert(s.take(i as int + 1).last() == (p, life));
            }
            let left = life.saturating_sub(1);
            if left > 0 {
                kept.push((p, left));
            }
            i = i + 1;
        }
        proof {
            assert(old(self).events@.take(n as int) == old(self).events@);
        }
        self.events = kept;
    }
}

impl core::default::Default for SoundEvents {
    /// No events.
    fn default() -> (r: SoundEvents)
        ensures
            r.events@.len() == 0,
    {
        SoundEvents { events: Vec::new() }
    }
}

/// Frames per half-blink of the cursor.
pub const CURSOR_BLINK_HALF_PERIOD: u32 = 24;

/// The aiming cursor in world coordinates, with its blink animation state.
#[derive(Clone, Copy, Debug)]
pub struct CursorPosition {
    pub pos: GridVec,
    /// Frame counter for the blink animation.
    blink_frame: u32,
    /// Number of frames per half-blink cycle.
    blink_half_period: u32,
}

impl CursorPosition {
    /// The cursor's position.
    pub closed spec fn position(&self) -> GridVec {
        self.pos
    }

    /// The blink frame counter.
    pub closed spec fn frame(&self) -> u32 {
        self.blink_frame
    }

    /// Whether the blink period has its fixed value.
    pub closed spec fn wf(&self) -> bool {
        self.blink_half_period == CURSOR_BLINK_HALF_PERIOD
    }

    /// A cursor at the given world coordinate, at the start of its blink
    /// cycle.
    pub fn at(pos: GridVec) -> (r: CursorPosition)
        ensures
            r.wf(),
            r.position() == pos,
            r.frame() == 0,
    {
        CursorPosition { pos, blink_frame: 0, blink_half_period: CURSOR_BLINK_HALF_PERIOD }
    }

    /// Whether the cursor is drawn in this frame: visible during the first
    /// half of each blink cycle.
    pub fn blink_visible(&self) -> (r: bool)
        requires
            self.wf(),
        ensures
            r == ((self.frame() / CURSOR_BLINK_HALF_PERIOD) % 2 == 0),
    {
        (self.blink_frame / self.blink_half_period) % 2 == 0
    }

    /// The raw blink frame counter.
    pub fn blink_frame(&self) -> (r: u32)
        ensures
            r == self.frame(),
    {
        self.blink_frame
    }

    /// Moves the cursor by `delta` (each coordinate wrapping), keeping its
    /// blink state.
    pub fn shift_by(&mut self, delta: GridVec)
        ensures
            final(self).position() == crate::grid_vec::gv(
                vstd::wrapping::i32_specs::wrapping_add(old(self).position().x, delta.x) as int,
                vstd::wrapping::i32_specs::wrapping_add(old(self).position().y, delta.y) as int,
            ),
            final(self).frame() == old(self).frame(),
            old(self).wf() ==> final(self).wf(),
    {
        self.pos = GridVec::new(self.pos.x.wrapping_add(delta.x), self.pos.y.wrapping_add(delta.y));
    }

    /// Advances the blink counter by one frame (wrapping).
    pub fn tick_blink(&mut self)
        ensures
            final(self).frame() == vstd::wrapping::u32_specs::wrapping_add(old(self).frame(), 1),
            final(self).position() == old(self).position(),
            old(self).wf() ==> final(self).wf(),
    {
        self.blink_frame = self.blink_frame.wrapping_add(1);
    }
}

/// Which set of keys the game is listening to.
#[derive(Clone, Copy, Debug, PartialEq, Eq, Structural)]
pub enum InputMode {
    Game,
    Inventory,
    EscMenu,
}

/// Input mode, inventory selection, overlays and pending player actions.
#[derive(Clone, Copy, Debug)]
pub struct InputState {
    pub mode: InputMode,
    pub inv_selection: usize,
    pub help_visible: bool,
    pub welcome_visible: bool,
    pub quit_confirm: bool,
    /// Set when the player requests a reload.
    pub reload_pending: bool,
    /// Stamina cost for a pending dive action.
    pub dive_stamina_pending: i32,
    /// Stamina cost for a pending special ability action.
    pub ability_stamina_pending: i32,
    /// Pending water bucket splash: (inventory index, radius).
    pub water_bucket_pending: Option<(usize, i32)>,
}

impl core::default::Default for InputState {
    /// Game mode, nothing selected or pending, the welcome overlay shown.
    fn default() -> (r: InputState)
        ensures
            r == (InputState {
                mode: InputMode::Game,
                inv_selection: 0,
                help_visible: false,
                welcome_visible: true,
                quit_confirm: false,
                reload_pending: false,
                dive_stamina_pending: 0,
                ability_stamina_pending: 0,
                water_bucket_pending: None,
            }),
    {
        InputState {
            mode: InputMode::Game,
            inv_selection: 0,
            help_visible: false,
            welcome_visible: true,
            quit_confirm: false,
            reload_pending: false,
            dive_stamina_pending: 0,
            ability_stamina_pending: 0,
            water_bucket_pending: None,
        }
    }
}

/// The game map as a shared resource.
pub struct GameMapResource(pub GameMap);

/// `p` has an entry in the list.
pub open spec fn keyed<T>(s: Seq<(GridVec, T)>, p: GridVec) -> bool {
    exists|i: int| 0 <= i < s.len() && #[trigger] s[i].0 == p
}

/// No key appears twice in the list.
pub open spec fn keys_unique<T>(s: Seq<(GridVec, T)>) -> bool {
    forall|i: int, j: int| 0 <= i < s.len() && 0 <= j < s.len() && i != j ==> #[trigger] s[i].0 != #[trigger] s[j].0
}

/// The value listed for `p`.
pub open spec fn value_of<T>(s: Seq<(GridVec, T)>, p: GridVec) -> T {
    s[choose|i: int| 0 <= i < s.len() && #[trigger] s[i].0 == p].1
}

/// In a list without repeated keys, the value at an entry is the value of
/// its key.
proof fn lemma_value_at<T>(s: Seq<(GridVec, T)>, i: int)
    requires
        keys_unique(s),
        0 <= i < s.len(),
    ensures
        keyed(s, s[i].0),
        value_of(s, s[i].0) == s[i].1,
{
    let p = s[i].0;
    assert(keyed(s, p));
    let c = choose|k: int| 0 <= k < s.len() && #[trigger] s[k].0 == p;
    assert(s[c].0 == s[i].0);
}

/// Index of `p` in the list, if listed.
fn find_key<T>(list: &Vec<(GridVec, T)>, p: GridVec) -> (r: Option<usize>)
    requires
        keys_unique(list@),
    ensures
        match r {
            Some(i) => i < list@.len() && list@[i as int].0 == p,
            None => !keyed(list@, p),
        },
{
    let mut i: usize = 0;
    while i < list.len()
        invariant
            i <= list@.len(),
            forall|k: int| 0 <= k < i ==> #[trigger] list@[k].0 != p,
        decreases list@.len() - i,
    {
        if list[i].0 == p {
            return Some(i);
        }
        i = i + 1;
    }
    None
}

/// Sets the value of `p` to `v`, adding an entry when `p` has none.
fn upsert<T: Copy>(list: &mut Vec<(GridVec, T)>, p: GridVec, v: T)
    requires
        keys_unique(old(list)@),
    ensures
        keys_unique(final(list)@),
        forall|q: int| 0 <= q < old(list)@.len() && old(list)@[q].0 != p ==> #[trigger] final(list)@.contains(old(list)@[q]),
        forall|q: GridVec| #[trigger] keyed(final(list)@, q) == (keyed(old(list)@, q) || q == p),
        forall|q: GridVec| keyed(final(list)@, q) ==> #[trigger] value_of(final(list)@, q) == if q == p {
            v
        } else {
            value_of(old(list)@, q)
        },
{
    let ghost pre = list@;
    match find_key(list, p) {
        Some(i) => {
            list.set(i, (p, v));
            proof {
                assert forall|q: int| 0 <= q < pre.len() && pre[q].0 != p implies #[trigger] list@.contains(pre[q]) by {
                    assert(list@[q] == pre[q]);
                }
                assert forall|q: GridVec| #[trigger] keyed(list@, q) == (keyed(pre, q) || q == p) by {
                    if keyed(pre, q) {
                        let k = choose|k: int| 0 <= k < pre.len() && #[trigger] pre[k].0 == q;
                        assert(list@[k].0 == q);
                    }
                    if keyed(list@, q) {
                        let k = choose|k: int| 0 <= k < list@.len() && #[trigger] list@[k].0 == q;
                        assert(pre[k].0 == q || k == i);
                    }
                }
                assert forall|q: GridVec| keyed(list@, q) implies #[trigger] value_of(list@, q) == if q == p {
                    v
                } else {
                    value_of(pre, q)
                } by {
                    let k = choose|k: int| 0 <= k < list@.len() && #[trigger] list@[k].0 == q;
                    lemma_value_at(list@, k);
                    if q != p {
                        lemma_value_at(pre, k);
                    }
                }
            }
        },
        None => {
            list.push((p, v));
            proof {
                assert forall|q: int| 0 <= q < pre.len() && pre[q].0 != p implies #[trigger] list@.contains(pre[q]) by {
                    assert(list@[q] == pre[q]);
                }
                assert forall|q: GridVec| #[trigger] keyed(list@, q) == (keyed(pre, q) || q == p) by {
                    if keyed(pre, q) {
                        let k = choose|k: int| 0 <= k < pre.len() && #[trigger] pre[k].0 == q;
                        assert(list@[k].0 == q);
                    }
                    if q == p {
                        assert(list@[pre.len() as int].0 == p);
                    }
                }
                assert forall|q: GridVec| keyed(list@, q) implies #[trigger] value_of(list@, q) == if q == p {
                    v
                } else {
                    value_of(pre, q)
                } by {
                    let k = choose|k: int| 0 <= k < list@.len() && #[trigger] list@[k].0 == q;
                    lemma_value_at(list@, k);
                    if q != p {
                        lemma_value_at(pre, k);
                    }
                }
            }
        },
    }
}

/// Adds an entry `(p, v)` unless `p` already has one.
fn insert_absent<T: Copy>(list: &mut Vec<(GridVec, T)>, p: GridVec, v: T)
    requires
        keys_unique(old(list)@),
    ensures
        keys_unique(final(list)@),
        forall|q: GridVec| #[trigger] keyed(final(list)@, q) == (keyed(old(list)@, q) || q == p),
        forall|q: GridVec| keyed(final(list)@, q) ==> #[trigger] value_of(final(list)@, q) == if keyed(old(list)@, q) {
            value_of(old(list)@, q)
        } else {
            v
        },
{
    match find_key(list, p) {
        Some(_) => {},
        None => {
            upsert(list, p, v);
        },
    }
}

/// The tiles turned to sand cloud: each offset from `origin` whose tile is
/// on the map and not a timber wall.
pub open spec fn cloud_tile(m: &GameMap, origin: GridVec, offsets: Seq<(i32, i32)>, p: GridVec) -> bool {
    &&& exists|k: int|
        0 <= k < offsets.len() && p.x == origin.x + (#[trigger] offsets[k]).0 && p.y == origin.y + offsets[k].1
    &&& m.in_bounds(p.x as int, p.y as int)
    &&& m.voxel(p.x as int, p.y as int).props != Some(Props::Wall)
}

/// The sand cloud bookkeeping of the map has one entry per tile.
pub open spec fn clouds_wf(m: &GameMap) -> bool {
    keys_unique(m.sand_cloud_turns@) && keys_unique(m.sand_cloud_previous_floor@)
}

impl GameMapResource {
    /// Lays persistent sand cloud tiles around `origin` (gun smoke, thrown
    /// sand): each offset in `offsets` (the tiles inside the directional
    /// cloud shape, worked out by the caller) whose tile is on the map and
    /// not a timber wall gets a `SandCloud` floor. The first floor a tile
    /// had before any cloud is remembered, and the tile's cloud turn is
    /// set to `turn`.
    pub fn place_sand_cloud(&mut self, origin: GridVec, turn: u32, offsets: &[(i32, i32)])
        requires
            old(self).0.wf(),
            clouds_wf(&old(self).0),
            forall|k: int|
                0 <= k < offsets@.len() ==> i32::MIN <= origin.x + (#[trigger] offsets@[k]).0 <= i32::MAX && i32::MIN
                    <= origin.y + offsets@[k].1 <= i32::MAX,
        ensures
            ({
                let (m0, m1) = (&old(self).0, &final(self).0);
                &&& m1.wf()
                &&& clouds_wf(m1)
                &&& m1.width == m0.width
                &&& m1.height == m0.height
                &&& m1.occupancy@ == m0.occupancy@
                &&& m1.faction_anchors@ == m0.faction_anchors@
                &&& m1.fire_turns@ == m0.fire_turns@
                &&& forall|a: int, c: int|
                    m1.in_bounds(a, c) ==> #[trigger] m1.voxel(a, c) == if cloud_tile(
                        m0,
                        origin,
                        offsets@,
                        GridVec { x: a as i32, y: c as i32 },
                    ) {
                        crate::gamemap::Voxel { floor: Some(Floor::SandCloud), props: m0.voxel(a, c).props }
                    } else {
                        m0.voxel(a, c)
                    }
                &&& forall|p: GridVec|
                    #[trigger] keyed(m1.sand_cloud_turns@, p) == (keyed(m0.sand_cloud_turns@, p) || cloud_tile(
                        m0,
                        origin,
                        offsets@,
                        p,
                    ))
                &&& forall|p: GridVec|
                    keyed(m1.sand_cloud_turns@, p) ==> #[trigger] value_of(m1.sand_cloud_turns@, p) == if cloud_tile(
                        m0,
                        origin,
                        offsets@,
                        p,
                    ) {
                        turn
                    } else {
                        value_of(m0.sand_cloud_turns@, p)
                    }
                &&& forall|p: GridVec|
                    #[trigger] keyed(m1.sand_cloud_previous_floor@, p) == (keyed(m0.sand_cloud_previous_floor@, p)
                        || cloud_tile(m0, origin, offsets@, p))
                &&& forall|p: GridVec|
                    keyed(m1.sand_cloud_previous_floor@, p) ==> #[trigger] value_of(m1.sand_cloud_previous_floor@, p)
                        == if keyed(m0.sand_cloud_previous_floor@, p) {
                        value_of(m0.sand_cloud_previous_floor@, p)
                    } else {
                        m0.voxel(p.x as int, p.y as int).floor
                    }
            }),
    {
        let ghost m0 = self.0;
        let mut tiles: Vec<(GridVec, Option<Floor>)> = Vec::new();
        let mut k: usize = 0;
        while k < offsets.len()
            invariant
                self.0 == m0,
                m0.wf(),
                k <= offsets@.len(),
                forall|q: int|
                    0 <= q < offsets@.len() ==> i32::MIN <= origin.x + (#[trigger] offsets@[q]).0 <= i32::MAX && i32::MIN
                        <= origin.y + offsets@[q].1 <= i32::MAX,
                forall|q: int|
                    0 <= q < tiles@.len() ==> cloud_tile(&m0, origin, offsets@, #[trigger] tiles@[q].0) && tiles@[q].1
                        == m0.voxel(tiles@[q].0.x as int, tiles@[q].0.y as int).floor,
                forall|p: GridVec|
                    #![trigger cloud_tile(&m0, origin, offsets@, p)]
                    cloud_tile(&m0, origin, offsets@, p) && (exists|q: int|
                        0 <= q < k && p.x == origin.x + (#[trigger] offsets@[q]).0 && p.y == origin.y + offsets@[q].1)
                        ==> exists|t: int| 0 <= t < tiles@.len() && #[trigger] tiles@[t].0 == p,
            decreases offsets@.len() - k,
        {
            let (dx, dy) = offsets[k];
            let pos = GridVec { x: origin.x + dx, y: origin.y + dy };
            let ghost old_tiles = tiles@;
            match self.0.get_voxel_at(&pos) {
                Some(v) => {
                    let wall = match v.props {
                        Some(Props::Wall) => true,
                        _ => false,
                    };
                    if !wall {
                        tiles.push((pos, v.floor));
                        proof {
                            assert(cloud_tile(&m0, origin, offsets@, pos));
                            assert(tiles@[tiles@.len() - 1].0 == pos);
                        }
                    }
                },
                None => {},
            }
            proof {
                assert forall|p: GridVec|
                    #![trigger cloud_tile(&m0, origin, offsets@, p)]
                    cloud_tile(&m0, origin, offsets@, p) && (exists|q: int|
                        0 <= q < k + 1 && p.x == origin.x + (#[trigger] offsets@[q]).0 && p.y == origin.y + offsets@[q].1)
                        implies exists|t: int| 0 <= t < tiles@.len() && #[trigger] tiles@[t].0 == p by {
                    let q = choose|q: int|
                        0 <= q < k + 1 && p.x == origin.x + (#[trigger] offsets@[q]).0 && p.y == origin.y + offsets@[q].1;
                    if q == k {
                        assert(p == pos);
                        assert(tiles@[tiles@.len() - 1].0 == pos);
                    } else {
                        assert(exists|q2: int|
                            0 <= q2 < k && p.x == origin.x + (#[trigger] offsets@[q2]).0 && p.y == origin.y + offsets@[q2].1);
                        let t0 = choose|t0: int| 0 <= t0 < old_tiles.len() && #[trigger] old_tiles[t0].0 == p;
                        assert(tiles@[t0] == old_tiles[t0]);
                    }
                }
            }
            k = k + 1;
        }
        let mut t: usize = 0;
        while t < tiles.len()
            invariant
                m0.wf(),
                clouds_wf(&self.0),
                self.0.wf(),
                self.0.width == m0.width,
                self.0.height == m0.height,
                self.0.occupancy@ == m0.occupancy@,
                self.0.faction_anchors@ == m0.faction_anchors@,
                self.0.fire_turns@ == m0.fire_turns@,
                t <= tiles@.len(),
                forall|q: int|
                    0 <= q < tiles@.len() ==> cloud_tile(&m0, origin, offsets@, #[trigger] tiles@[q].0) && tiles@[q].1
                        == m0.voxel(tiles@[q].0.x as int, tiles@[q].0.y as int).floor,
                forall|a: int, c: int|
                    self.0.in_bounds(a, c) ==> #[trigger] self.0.voxel(a, c) == if exists|q: int|
                        0 <= q < t && #[trigger] tiles@[q].0 == (GridVec { x: a as i32, y: c as i32 }) {
                        crate::gamemap::Voxel { floor: Some(Floor::SandCloud), props: m0.voxel(a, c).props }
                    } else {
                        m0.voxel(a, c)
                    },
                forall|p: GridVec|
                    #[trigger] keyed(self.0.sand_cloud_turns@, p) == (keyed(m0.sand_cloud_turns@, p) || exists|q: int|
                        0 <= q < t && #[trigger] tiles@[q].0 == p),
                forall|p: GridVec|
                    keyed(self.0.sand_cloud_turns@, p) ==> #[trigger] value_of(self.0.sand_cloud_turns@, p) == if exists|q: int|
                        0 <= q < t && #[trigger] tiles@[q].0 == p {
                        turn
                    } else {
                        value_of(m0.sand_cloud_turns@, p)
                    },
                forall|p: GridVec|
                    #[trigger] keyed(self.0.sand_cloud_previous_floor@, p) == (keyed(m0.sand_cloud_previous_floor@, p)
                        || exists|q: int| 0 <= q < t && #[trigger] tiles@[q].0 == p),
                forall|p: GridVec|
                    keyed(self.0.sand_cloud_previous_floor@, p) ==> #[trigger] value_of(self.0.sand_cloud_previous_floor@, p)
                        == if keyed(m0.sand_cloud_previous_floor@, p) {
                        value_of(m0.sand_cloud_previous_floor@, p)
                    } else {
                        m0.voxel(p.x as int, p.y as int).floor
                    },
            decreases tiles@.len() - t,
        {
            let (pos, prev) = tiles[t];
            let ghost pre = self.0;
            insert_absent(&mut self.0.sand_cloud_previous_floor, pos, prev);
            let row = pos.y as usize;
            let col = pos.x as usize;
            let mut v = self.0.voxels[row][col];
            proof {
                assert(v == self.0.voxel(pos.x as int, pos.y as int));
                assert(self.0.voxel(pos.x as int, pos.y as int) == pre.voxel(pos.x as int, pos.y as int));
                assert(pre.in_bounds(pos.x as int, pos.y as int));
                assert(v.props == m0.voxel(pos.x as int, pos.y as int).props);
            }
            v.floor = Some(Floor::SandCloud);
            let ghost mid = self.0;
            crate::gamemap::put_voxel(&mut self.0, pos.x, pos.y, v);
            let ghost after = self.0;
            upsert(&mut self.0.sand_cloud_turns, pos, turn);
            proof {
                assert(tiles@[t as int].0 == pos);
                assert forall|a: int, c: int| self.0.in_bounds(a, c) implies #[trigger] self.0.voxel(a, c) == if exists|q: int|
                    0 <= q < t + 1 && #[trigger] tiles@[q].0 == (GridVec { x: a as i32, y: c as i32 }) {
                    crate::gamemap::Voxel { floor: Some(Floor::SandCloud), props: m0.voxel(a, c).props }
                } else {
                    m0.voxel(a, c)
                } by {
                    let g = GridVec { x: a as i32, y: c as i32 };
                    assert(self.0.voxel(a, c) == after.voxel(a, c));
                    assert(mid.voxel(a, c) == pre.voxel(a, c));
                    assert(pre.in_bounds(a, c) && after.in_bounds(a, c));
                    if a == pos.x && c == pos.y {
                        assert(g == pos);
                        assert(tiles@[t as int].0 == g);
                    } else {
                        assert(g != pos);
                        if exists|q: int| 0 <= q < t + 1 && #[trigger] tiles@[q].0 == g {
                            let q = choose|q: int| 0 <= q < t + 1 && #[trigger] tiles@[q].0 == g;
                            assert(q < t);
                        }
                    }
                }
                assert forall|p: GridVec|
                    #[trigger] keyed(self.0.sand_cloud_turns@, p) == (keyed(m0.sand_cloud_turns@, p) || exists|q: int|
                        0 <= q < t + 1 && #[trigger] tiles@[q].0 == p) by {
                    if p != pos && exists|q: int| 0 <= q < t + 1 && #[trigger] tiles@[q].0 == p {
                        let q = choose|q: int| 0 <= q < t + 1 && #[trigger] tiles@[q].0 == p;
                        assert(q < t);
                    }
                }
                assert forall|p: GridVec|
                    keyed(self.0.sand_cloud_turns@, p) implies #[trigger] value_of(self.0.sand_cloud_turns@, p) == if exists|q: int|
                        0 <= q < t + 1 && #[trigger] tiles@[q].0 == p {
                        turn
                    } else {
                        value_of(m0.sand_cloud_turns@, p)
                    } by {
                    if p != pos && exists|q: int| 0 <= q < t + 1 && #[trigger] tiles@[q].0 == p {
                        let q = choose|q: int| 0 <= q < t + 1 && #[trigger] tiles@[q].0 == p;
                        assert(q < t);
                    }
                }
                assert forall|p: GridVec|
                    #[trigger] keyed(self.0.sand_cloud_previous_floor@, p) == (keyed(m0.sand_cloud_previous_floor@, p)
                        || exists|q: int| 0 <= q < t + 1 && #[trigger] tiles@[q].0 == p) by {
                    if p != pos && exists|q: int| 0 <= q < t + 1 && #[trigger] tiles@[q].0 == p {
                        let q = choose|q: int| 0 <= q < t + 1 && #[trigger] tiles@[q].0 == p;
                        assert(q < t);
                    }
                }
                assert forall|p: GridVec|
                    keyed(self.0.sand_cloud_previous_floor@, p) implies #[trigger] value_of(self.0.sand_cloud_previous_floor@, p)
                        == if keyed(m0.sand_cloud_previous_floor@, p) {
                        value_of(m0.sand_cloud_previous_floor@, p)
                    } else {
                        m0.voxel(p.x as int, p.y as int).floor
                    } by {
                    if p == pos && !keyed(pre.sand_cloud_previous_floor@, p) {
                        assert(!keyed(m0.sand_cloud_previous_floor@, p));
                    }
                }
            }
            t = t + 1;
        }
        proof {
            assert forall|p: GridVec| (exists|q: int| 0 <= q < tiles@.len() && #[trigger] tiles@[q].0 == p) == cloud_tile(&m0, origin, offsets@, p) by {
                if cloud_tile(&m0, origin, offsets@, p) {
                    let q = choose|q: int|
                        0 <= q < offsets@.len() && p.x == origin.x + (#[trigger] offsets@[q]).0 && p.y == origin.y + offsets@[q].1;
                    assert(exists|q: int|
                        0 <= q < offsets@.len() && p.x == origin.x + (#[trigger] offsets@[q]).0 && p.y == origin.y + offsets@[q].1);
                }
            }
            assert forall|a: int, c: int| self.0.in_bounds(a, c) implies (exists|q: int|
                0 <= q < tiles@.len() && #[trigger] tiles@[q].0 == (GridVec { x: a as i32, y: c as i32 })) == cloud_tile(
                &m0,
                origin,
                offsets@,
                GridVec { x: a as i32, y: c as i32 },
            ) by {}
        }
    }
}

} // verus!
