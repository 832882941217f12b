use roguelike::grid_vec::GridVec;
use roguelike::particles::{SpellParticles, MAX_PARTICLES};

#[test]
fn blast_adds_three_rings() {
    let mut sp = SpellParticles::default();
    sp.add_aoe(GridVec::new(10, 10), 6);
    assert_eq!(sp.particles.len(), 8 + 16 + 24);
    // First particle: ring 1, offset (-1, -1), visible at once, drifting out.
    assert_eq!(sp.particles[0], (GridVec::new(9, 9), 6, 0, false, -1, -1));
    // Ring 2 particles wait two ticks, ring 3 particles four.
    assert_eq!(sp.particles[8], (GridVec::new(8, 8), 6, 2, false, -1, -1));
    assert_eq!(sp.particles[24], (GridVec::new(7, 7), 6, 4, false, -1, -1));
    // Column order: dx fixed, dy ascending.
    assert_eq!(sp.particles[1].0, GridVec::new(9, 10));
    assert_eq!(sp.particles[2].0, GridVec::new(9, 11));
    assert_eq!(sp.particles[3].0, GridVec::new(10, 9));
}

#[test]
fn blast_stops_at_particle_cap() {
    let mut sp = SpellParticles::default();
    for _ in 0..(MAX_PARTICLES / 48) {
        sp.add_aoe(GridVec::new(0, 0), 3);
    }
    assert_eq!(sp.particles.len(), 1200);
    sp.add_aoe(GridVec::new(0, 0), 3);
    assert_eq!(sp.particles.len(), 1200);
}

#[test]
fn tick_advances_every_third_frame() {
    let mut sp = SpellParticles::default();
    sp.particles.push((GridVec::new(0, 0), 5, 0, false, 1, 0));
    sp.particles.push((GridVec::new(3, 3), 2, 1, true, 0, 1));
    sp.particles.push((GridVec::new(7, 7), 1, 0, false, 1, 1));
    sp.tick();
    sp.tick();
    assert_eq!(sp.particles[0], (GridVec::new(0, 0), 5, 0, false, 1, 0));
    sp.tick();
    // Moving particle advanced; delayed one counted down; dying one gone.
    assert_eq!(sp.particles.len(), 2);
    assert_eq!(sp.particles[0], (GridVec::new(1, 0), 4, 0, false, 1, 0));
    assert_eq!(sp.particles[1], (GridVec::new(3, 3), 2, 0, true, 0, 1));
    sp.tick();
    sp.tick();
    sp.tick();
    // Life below three: the particle stops drifting.
    assert_eq!(sp.particles[0], (GridVec::new(2, 0), 3, 0, false, 1, 0));
    assert_eq!(sp.particles[1], (GridVec::new(3, 4), 1, 0, true, 0, 0));
}
