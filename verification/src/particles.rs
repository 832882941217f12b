//! Combat particle animation: grenade blast rings and the fixed-rate tick
//! that delays, moves and expires particles.
use vstd::prelude::*;

use crate::grid_vec::{abs_int, gv, max_int, sign_int, GridVec};

verus! {

/// A particle: (position, remaining lifetime in ticks, delay in ticks before
/// it appears, whether it is sand or smoke, x velocity, y velocity).
pub type Particle = (GridVec, u32, u32, bool, i32, i32);

/// Maximum number of active combat particles.
pub const MAX_PARTICLES: usize = 1200;

/// Particles advance once every this many render frames.
pub const PARTICLE_TICK_INTERVAL: u32 = 3;

/// Visual radius of a blast ring.
pub const AOE_RADIUS: i32 = 3;

/// Ticks of delay per unit of distance from the blast centre.
pub const AOE_FRAMES_PER_RING: u32 = 2;

/// Active combat particles and the positions of sound indicators to draw
/// this frame.
pub struct SpellParticles {
    pub particles: Vec<Particle>,
    /// World positions where "!" sound indicators should appear this frame.
    pub sound_indicators: Vec<GridVec>,
    /// Render frames since the particles last advanced.
    frame_accumulator: u32,
}

/// The particle for offset `(dx, dy)` of ring `r` around `origin`, if the
/// offset lies on the ring (Chebyshev distance exactly `r`): it appears
/// after `(r - 1) * AOE_FRAMES_PER_RING` ticks and drifts outward.
pub open spec fn ring_particle(origin: GridVec, lifetime: u32, r: int, dx: int, dy: int) -> Option<Particle> {
    if max_int(abs_int(dx), abs_int(dy)) == r {
        Some(
            (
                gv(origin.x + dx, origin.y + dy),
                lifetime,
                ((r - 1) * AOE_FRAMES_PER_RING) as u32,
                false,
                sign_int(dx) as i32,
                sign_int(dy) as i32,
            ),
        )
    } else {
        None
    }
}

/// The cell indices of the `(2r + 1)` square around a blast, taken
/// column by column: index `k` is offset `(k / (2r + 1) - r, k % (2r + 1)
/// - r)`.
pub open spec fn square_cells(r: int) -> Seq<int> {
    Seq::new(((2 * r + 1) * (2 * r + 1)) as nat, |k: int| k)
}

/// The particle, if any, for cell index `k` of ring `r`.
pub open spec fn ring_cell(origin: GridVec, lifetime: u32, r: int) -> spec_fn(int) -> Option<Particle> {
    |k: int| ring_particle(origin, lifetime, r, k / (2 * r + 1) - r, k % (2 * r + 1) - r)
}

/// Ring `r` of a blast: the offsets of the `(2r + 1)` square taken column
/// by column (`dx` ascending, then `dy` ascending), keeping those on the
/// ring.
pub open spec fn blast_ring(origin: GridVec, lifetime: u32, r: int) -> Seq<Particle> {
    square_cells(r).filter_map(ring_cell(origin, lifetime, r))
}

/// Rings `1` to `r` of a blast, innermost first.
pub open spec fn blast_rings(origin: GridVec, lifetime: u32, r: int) -> Seq<Particle>
    decreases r,
{
    if r <= 0 {
        Seq::empty()
    } else {
        blast_rings(origin, lifetime, r - 1) + blast_ring(origin, lifetime, r)
    }
}

/// Whether a particle survives a tick: a delayed particle always does, a
/// visible one while it has more than one tick of life.
pub open spec fn particle_survives(p: Particle) -> bool {
    p.2 > 0 || p.1 > 1
}

/// A particle one tick later: a delayed particle counts its delay down;
/// a visible one moves by its velocity (while alive), loses a tick of
/// life, and stops drifting in its last ticks.
pub open spec fn particle_advanced(p: Particle) -> Particle {
    if p.2 > 0 {
        (p.0, p.1, (p.2 - 1) as u32, p.3, p.4, p.5)
    } else {
        let pos = if p.1 > 0 {
            gv(p.0.x + p.4, p.0.y + p.5)
        } else {
            p.0
        };
        let life: u32 = if p.1 > 0 { (p.1 - 1) as u32 } else { 0 };
        if life < 3 {
            (pos, life, p.2, p.3, 0, 0)
        } else {
            (pos, life, p.2, p.3, p.4, p.5)
        }
    }
}

/// The particles after one tick: survivors advanced, in order.
pub open spec fn particles_ticked(s: Seq<Particle>) -> Seq<Particle> {
    s.filter_map(
        |p: Particle|
            if particle_survives(p) {
                Some(particle_advanced(p))
            } else {
                None
            },
    )
}

/// A visible particle can move by its velocity without leaving `i32`.
pub open spec fn particle_can_move(p: Particle) -> bool {
    i32::MIN <= p.0.x + p.4 <= i32::MAX && i32::MIN <= p.0.y + p.5 <= i32::MAX
}

/// The filtered map of a prefix is a prefix of the filtered map.
proof fn lemma_filter_map_prefix<A, B>(s: Seq<A>, f: spec_fn(A) -> Option<B>, k: int)
    requires
        0 <= k <= s.len(),
    ensures
        s.take(k).filter_map(f) == s.filter_map(f).take(s.take(k).filter_map(f).len() as int),
        s.take(k).filter_map(f).len() <= s.filter_map(f).len(),
    decreases s.len() - k,
{
    if k < s.len() {
        let d = s.drop_last();
        assert(d.take(k) =~= s.take(k));
        lemma_filter_map_prefix(d, f, k);
        let p = s.take(k).filter_map(f);
        assert(s.filter_map(f) == match f(s.last()) {
            Some(v) => d.filter_map(f) + seq![v],
            None => d.filter_map(f),
        });
        assert(s.filter_map(f).take(p.len() as int) =~= d.filter_map(f).take(p.len() as int));
    } else {
        assert(s.take(k) =~= s);
    }
}

/// Extending the prefix by one element extends its filtered map by that
/// element's image, if any.
proof fn lemma_filter_map_step<A, B>(s: Seq<A>, f: spec_fn(A) -> Option<B>, k: int)
    requires
        0 <= k < s.len(),
    ensures
        s.take(k + 1).filter_map(f) == match f(s[k]) {
            Some(v) => s.take(k).filter_map(f) + seq![v],
            None => s.take(k).filter_map(f),
        },
{
    assert(s.take(k + 1).drop_last() =~= s.take(k));
    assert(s.take(k + 1).last() == s[k]);
}

/// The rings up to `r` begin the rings up to any larger `r2`.
proof fn lemma_rings_prefix(origin: GridVec, lifetime: u32, r: int, r2: int)
    requires
        0 <= r <= r2,
    ensures
        blast_rings(origin, lifetime, r).len() <= blast_rings(origin, lifetime, r2).len(),
        blast_rings(origin, lifetime, r2).take(blast_rings(origin, lifetime, r).len() as int) == blast_rings(
            origin,
            lifetime,
            r,
        ),
    decreases r2 - r,
{
    if r < r2 {
        lemma_rings_prefix(origin, lifetime, r, r2 - 1);
        let a = blast_rings(origin, lifetime, r2 - 1);
        let full = blast_rings(origin, lifetime, r2);
        assert(full == a + blast_ring(origin, lifetime, r2));
        assert(full.take(blast_rings(origin, lifetime, r).len() as int) =~= a.take(
            blast_rings(origin, lifetime, r).len() as int,
        ));
    } else {
        assert(blast_rings(origin, lifetime, r).take(blast_rings(origin, lifetime, r).len() as int)
            =~= blast_rings(origin, lifetime, r));
    }
}

/// The rings before ring `r` followed by the first `k` cells of ring `r`
/// begin the whole blast.
proof fn lemma_blast_prefix(origin: GridVec, lifetime: u32, r: int, k: int)
    requires
        1 <= r <= AOE_RADIUS,
        0 <= k <= square_cells(r).len(),
    ensures
        ({
            let p = blast_rings(origin, lifetime, r - 1) + square_cells(r).take(k).filter_map(
                ring_cell(origin, lifetime, r),
            );
            &&& p.len() <= blast_rings(origin, lifetime, AOE_RADIUS as int).len()
            &&& blast_rings(origin, lifetime, AOE_RADIUS as int).take(p.len() as int) == p
        }),
{
    let before = blast_rings(origin, lifetime, r - 1);
    let ring = blast_ring(origin, lifetime, r);
    let part = square_cells(r).take(k).filter_map(ring_cell(origin, lifetime, r));
    lemma_filter_map_prefix(square_cells(r), ring_cell(origin, lifetime, r), k);
    lemma_rings_prefix(origin, lifetime, r, AOE_RADIUS as int);
    let upto = blast_rings(origin, lifetime, r);
    let full = blast_rings(origin, lifetime, AOE_RADIUS as int);
    assert(upto == before + ring);
    let p = before + part;
    assert(upto.take(p.len() as int) =~= p);
    assert(full.take(p.len() as int) =~= upto.take(upto.len() as int).take(p.len() as int));
    assert(upto.take(upto.len() as int) =~= upto);
}

impl core::default::Default for SpellParticles {
    fn default() -> (r: SpellParticles)
        ensures
            r.particle_seq() == Seq::<Particle>::empty(),
            r.indicator_seq() == Seq::<GridVec>::empty(),
            r.accumulator() == 0,
    {
        SpellParticles { particles: Vec::new(), sound_indicators: Vec::new(), frame_accumulator: 0 }
    }
}

impl SpellParticles {
    /// Render frames since the particles last advanced.
    pub closed spec fn accumulator(&self) -> u32 {
        self.frame_accumulator
    }

    /// The active particles.
    pub closed spec fn particle_seq(&self) -> Seq<Particle> {
        self.particles@
    }

    /// The sound indicator positions.
    pub closed spec fn indicator_seq(&self) -> Seq<GridVec> {
        self.sound_indicators@
    }

    /// The frame counter stays below the tick interval.
    pub open spec fn wf(&self) -> bool {
        self.accumulator() < PARTICLE_TICK_INTERVAL
    }

    /// Adds an expanding ring of particles for a grenade blast at `origin`:
    /// rings 1 to 3 around it, outer rings appearing later and every
    /// particle drifting outward. Adding stops once `MAX_PARTICLES` are
    /// active.
    pub fn add_aoe(&mut self, origin: GridVec, lifetime: u32)
        requires
            abs_int(origin.x as int) <= i32::MAX - AOE_RADIUS,
            abs_int(origin.y as int) <= i32::MAX - AOE_RADIUS,
        ensures
            final(self).indicator_seq() == old(self).indicator_seq(),
            final(self).accumulator() == old(self).accumulator(),
            exists|n: int|
                0 <= n <= blast_rings(origin, lifetime, AOE_RADIUS as int).len() && final(self).particle_seq()
                    == old(self).particle_seq() + blast_rings(origin, lifetime, AOE_RADIUS as int).take(n) && (n
                    == blast_rings(origin, lifetime, AOE_RADIUS as int).len() || final(self).particle_seq().len()
                    >= MAX_PARTICLES),
    {
        let ghost base = self.particles@;
        let radius: i32 = AOE_RADIUS;
        let frames_per_ring: u32 = AOE_FRAMES_PER_RING;
        let mut r: i32 = 1;
        while r <= radius
            invariant
                1 <= r <= radius + 1,
                radius == AOE_RADIUS,
                frames_per_ring == AOE_FRAMES_PER_RING,
                abs_int(origin.x as int) <= i32::MAX - AOE_RADIUS,
                abs_int(origin.y as int) <= i32::MAX - AOE_RADIUS,
                self.sound_indicators@ == old(self).sound_indicators@,
                self.frame_accumulator == old(self).frame_accumulator,
                base == old(self).particles@,
                self.particles@ == base + blast_rings(origin, lifetime, r - 1),
            decreases radius + 1 - r,
        {
            let ghost n: int = 2 * r + 1;
            let ghost cells = square_cells(r as int);
            let ghost f = ring_cell(origin, lifetime, r as int);
            proof {
                assert((-r + r) * n == 0) by (nonlinear_arith);
                assert(cells.take(0) =~= Seq::<int>::empty());
                assert(Seq::<int>::empty().filter_map(f) =~= Seq::<Particle>::empty());
                assert(cells.take((-r + r) * n).filter_map(f) =~= Seq::<Particle>::empty());
                assert(self.particles@ =~= base + blast_rings(origin, lifetime, r - 1) + cells.take((-r + r)
                    * n).filter_map(f));
            }
            let mut dx: i32 = -r;
            while dx <= r
                invariant
                    1 <= r <= radius,
                    radius == AOE_RADIUS,
                    frames_per_ring == AOE_FRAMES_PER_RING,
                    abs_int(origin.x as int) <= i32::MAX - AOE_RADIUS,
                    abs_int(origin.y as int) <= i32::MAX - AOE_RADIUS,
                    -r <= dx <= r + 1,
                    n == 2 * r + 1,
                    cells == square_cells(r as int),
                    f == ring_cell(origin, lifetime, r as int),
                    self.sound_indicators@ == old(self).sound_indicators@,
                    self.frame_accumulator == old(self).frame_accumulator,
                    base == old(self).particles@,
                    self.particles@ == base + blast_rings(origin, lifetime, r - 1) + cells.take((dx + r) * n).filter_map(f),
                decreases r + 1 - dx,
            {
                let mut dy: i32 = -r;
                while dy <= r
                    invariant
                        1 <= r <= radius,
                        radius == AOE_RADIUS,
                        frames_per_ring == AOE_FRAMES_PER_RING,
                        abs_int(origin.x as int) <= i32::MAX - AOE_RADIUS,
                        abs_int(origin.y as int) <= i32::MAX - AOE_RADIUS,
                        -r <= dx <= r,
                        -r <= dy <= r + 1,
                        n == 2 * r + 1,
                        cells == square_cells(r as int),
                        f == ring_cell(origin, lifetime, r as int),
                        self.sound_indicators@ == old(self).sound_indicators@,
                        self.frame_accumulator == old(self).frame_accumulator,
                        base == old(self).particles@,
                        self.particles@ == base + blast_rings(origin, lifetime, r - 1) + cells.take(
                            (dx + r) * n + (dy + r),
                        ).filter_map(f),
                    decreases r + 1 - dy,
                {
                    let k: Ghost<int> = Ghost((dx + r) * n + (dy + r));
                    proof {
                        assert(0 <= k@ < n * n) by (nonlinear_arith)
                            requires
                                k@ == (dx + r) * n + (dy + r),
                                -r <= dx <= r,
                                -r <= dy <= r,
                                n == 2 * r + 1,
                        ;
                        vstd::arithmetic::div_mod::lemma_fundamental_div_mod_converse(k@, n, dx + r, dy + r);
                        lemma_filter_map_step(cells, f, k@);
                    }
                    let ax = if dx < 0 { -dx } else { dx };
                    let ay = if dy < 0 { -dy } else { dy };
                    let m = if ax >= ay { ax } else { ay };
                    if m == r {
                        if self.particles.len() >= MAX_PARTICLES {
                            proof {
                                lemma_blast_prefix(origin, lifetime, r as int, k@);
                            }
                            return;
                        }
                        let pos = origin + GridVec::new(dx, dy);
                        let delay = (r as u32 - 1) * frames_per_ring;
                        let vx: i32 = if dx > 0 { 1 } else if dx < 0 { -1 } else { 0 };
                        let vy: i32 = if dy > 0 { 1 } else if dy < 0 { -1 } else { 0 };
                        self.particles.push((pos, lifetime, delay, false, vx, vy));
                    }
                    dy = dy + 1;
                }
                proof {
                    assert((dx + r) * n + (r + 1 + r) == (dx + 1 + r) * n) by (nonlinear_arith)
                        requires
                            n == 2 * r + 1,
                    ;
                }
                dx = dx + 1;
            }
            proof {
                assert((r + 1 + r) * n == n * n) by (nonlinear_arith)
                    requires
                        n == 2 * r + 1,
                ;
                assert(cells.take(n * n) =~= cells);
            }
            r = r + 1;
        }
        proof {
            assert(blast_rings(origin, lifetime, AOE_RADIUS as int).take(
                blast_rings(origin, lifetime, AOE_RADIUS as int).len() as int,
            ) =~= blast_rings(origin, lifetime, AOE_RADIUS as int));
        }
    }

    /// Advances the animation by one render frame. Every
    /// `PARTICLE_TICK_INTERVAL` frames the particles tick: delayed ones count
    /// down, visible ones move, age and expire.
    pub fn tick(&mut self)
        requires
            old(self).wf(),
            forall|i: int|
                0 <= i < old(self).particle_seq().len() && (#[trigger] old(self).particle_seq()[i]).2 == 0
                    && old(self).particle_seq()[i].1 > 0 ==> particle_can_move(old(self).particle_seq()[i]),
        ensures
            final(self).wf(),
            final(self).indicator_seq() == old(self).indicator_seq(),
            old(self).accumulator() + 1 < PARTICLE_TICK_INTERVAL ==> final(self).accumulator()
                == old(self).accumulator() + 1 && final(self).particle_seq() == old(self).particle_seq(),
            old(self).accumulator() + 1 >= PARTICLE_TICK_INTERVAL ==> final(self).accumulator() == 0
                && final(self).particle_seq() == particles_ticked(old(self).particle_seq()),
    {
        self.frame_accumulator = self.frame_accumulator + 1;
        if self.frame_accumulator < PARTICLE_TICK_INTERVAL {
            return;
        }
        self.frame_accumulator = 0;
        let ghost f = |p: Particle|
            if particle_survives(p) {
                Some(particle_advanced(p))
            } else {
                None
            };
        let mut kept: Vec<Particle> = Vec::new();
        proof {
            assert forall|j: int|
                0 <= j < self.particles@.len() && (#[trigger] self.particles@[j]).2 == 0 && self.particles@[j].1
                    > 0 implies particle_can_move(self.particles@[j]) by {
                assert(old(self).particle_seq()[j] == self.particles@[j]);
            }
            assert(self.particles@.take(0) =~= Seq::<Particle>::empty());
        }
        let mut i: usize = 0;
        while i < self.particles.len()
            invariant
                i <= self.particles@.len(),
                f == (|p: Particle|
                    if particle_survives(p) {
                        Some(particle_advanced(p))
                    } else {
                        None
                    }),
                forall|j: int|
                    0 <= j < self.particles@.len() && (#[trigger] self.particles@[j]).2 == 0
                        && self.particles@[j].1 > 0 ==> particle_can_move(self.particles@[j]),
                kept@ == self.particles@.take(i as int).filter_map(f),
            decreases self.particles@.len() - i,
        {
            proof {
                lemma_filter_map_step(self.particles@, f, i as int);
            }
            let (pos, life, delay, is_sand, vx, vy) = self.particles[i];
            if delay > 0 {
                kept.push((pos, life, delay - 1, is_sand, vx, vy));
            } else {
                let new_pos = if life > 0 {
                    GridVec::new(pos.x + vx, pos.y + vy)
                } else {
                    pos
                };
                let new_life = life.saturating_sub(1);
                let (nvx, nvy) = if new_life < 3 {
                    (0i32, 0i32)
                } else {
                    (vx, vy)
                };
                if new_life > 0 {
                    kept.push((new_pos, new_life, delay, is_sand, nvx, nvy));
                }
            }
            i = i + 1;
        }
        proof {
            assert(self.particles@.take(self.particles@.len() as int) =~= self.particles@);
        }
        self.particles = kept;
    }
}

} // verus!
