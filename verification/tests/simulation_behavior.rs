//! End-to-end behavior of the simulation step: impulse exchange,
//! boundary handling, spawning and determinism.

use particle_sim::fixed::FP_SCALE;
use particle_sim::geometry::{Particle, Rectangle};
use particle_sim::rng::rng_from_seed;
use particle_sim::simulation::{
    add_impulse, detect_particle_collissions, detect_static_collissions,
    resolve_particle_collisions, resolve_static_collisions, Simulation, Trail,
};
use particle_sim::simulation_factory::{
    brownian_motion_sim, collision_sim, generate_non_overlapping_particles, mixing_sim, GREEN, RED,
};
use particle_sim::collision_sim::{boundary_collision, circle_collissions, CollisionSimulation};
use particle_sim::simulation_information::SimulationInformation;
use particle_sim::vector2::Vector2;

const S: i64 = 100_000_000;

fn v(x: i64, y: i64) -> Vector2 {
    Vector2::new(x, y)
}

fn moving_particle(x: i64, y: i64, vx: i64, vy: i64, radius: i64, mass: i64) -> Particle {
    Particle { mass, position: v(x, y), velocity: v(vx, vy), radius, color: 0 }
}

fn total_momentum_x(ps: &[Particle]) -> i128 {
    ps.iter().map(|p| p.mass as i128 * p.velocity.x as i128).sum()
}

fn total_energy_x2(ps: &[Particle]) -> i128 {
    ps.iter()
        .map(|p| {
            let vx = p.velocity.x as i128;
            let vy = p.velocity.y as i128;
            p.mass as i128 * (vx * vx + vy * vy)
        })
        .sum()
}

/// Equal masses, head-on, perfectly elastic: the velocities swap.
#[test]
fn head_on_equal_masses_swap_velocities() {
    let mut ps = vec![
        moving_particle(0, 0, S, 0, 10_000_000, S),
        moving_particle(15_000_000, 0, -S, 0, 10_000_000, S),
    ];
    let collisions = detect_particle_collissions(&ps);
    assert_eq!(collisions.len(), 1);
    assert_eq!(collisions[0].penetration, 5_000_000);
    resolve_particle_collisions(&mut ps, &collisions, FP_SCALE);
    assert_eq!(ps[0].velocity, v(-S, 0));
    assert_eq!(ps[1].velocity, v(S, 0));
}

/// Momentum is preserved exactly on these inputs, and an elastic
/// impulse preserves the kinetic energy too.
#[test]
fn elastic_impulse_conserves_momentum_and_energy() {
    let mut ps = vec![
        moving_particle(0, 0, S, 0, 10_000_000, S),
        moving_particle(15_000_000, 0, -S, 0, 10_000_000, 3 * S),
    ];
    let momentum_before = total_momentum_x(&ps);
    let energy_before = total_energy_x2(&ps);
    let collisions = detect_particle_collissions(&ps);
    resolve_particle_collisions(&mut ps, &collisions, FP_SCALE);
    assert_eq!(ps[0].velocity, v(-2 * S, 0));
    assert_eq!(ps[1].velocity, v(0, 0));
    assert_eq!(total_momentum_x(&ps), momentum_before);
    assert_eq!(total_energy_x2(&ps), energy_before);
}

/// A fully inelastic impulse keeps momentum and dissipates energy.
#[test]
fn inelastic_impulse_dissipates_energy() {
    let mut ps = vec![
        moving_particle(0, 0, S, 0, 10_000_000, S),
        moving_particle(15_000_000, 0, -S, 0, 10_000_000, 3 * S),
    ];
    let momentum_before = total_momentum_x(&ps);
    let energy_before = total_energy_x2(&ps);
    let collisions = detect_particle_collissions(&ps);
    resolve_particle_collisions(&mut ps, &collisions, 0);
    assert_eq!(ps[0].velocity, v(-S / 2, 0));
    assert_eq!(ps[1].velocity, v(-S / 2, 0));
    assert_eq!(total_momentum_x(&ps), momentum_before);
    assert!(total_energy_x2(&ps) < energy_before);
}

/// A pair already separating receives no impulse.
#[test]
fn separating_pair_is_left_alone() {
    let mut a = moving_particle(0, 0, -S, 0, 10_000_000, S);
    let mut b = moving_particle(15_000_000, 0, S, 0, 10_000_000, S);
    let collisions = detect_particle_collissions(&vec![a, b]);
    assert_eq!(collisions.len(), 1);
    add_impulse(&mut a, &mut b, &collisions[0], FP_SCALE);
    assert_eq!(a.velocity, v(-S, 0));
    assert_eq!(b.velocity, v(S, 0));
}

/// Wall detection reports the four walls with exact penetrations.
#[test]
fn wall_detection_reports_penetration() {
    let boundary = Rectangle { min: v(0, 0), max: v(2 * S, S) };
    let ps = vec![moving_particle(S, 4_000_000, 0, -10_000_000, 5_000_000, S)];
    let collisions = detect_static_collissions(&ps, &boundary);
    assert_eq!(collisions.len(), 1);
    assert_eq!(collisions[0].index, 0);
    assert_eq!(collisions[0].normal, v(0, S));
    assert_eq!(collisions[0].penetration, 1_000_000);
}

/// A wall contact whose snapshot velocity already points back into the
/// interior receives no impulse: the particle keeps leaving the wall.
#[test]
fn separating_wall_contact_gets_no_impulse() {
    let boundary = Rectangle { min: v(0, 0), max: v(2 * S, S) };
    let mut ps = vec![moving_particle(S, 4_000_000, 0, 10_000_000, 5_000_000, S)];
    let collisions = detect_static_collissions(&ps, &boundary);
    assert_eq!(collisions.len(), 1);
    resolve_static_collisions(&mut ps, &collisions, 95_000_000);
    assert_eq!(ps[0].velocity, v(0, 10_000_000));
}

/// Boundary containment: a particle pushed through the floor is set
/// back exactly onto it by the positional correction.
#[test]
fn update_corrects_floor_penetration() {
    let boundary = Rectangle { min: v(0, 0), max: v(2 * S, S) };
    let mut sim = Simulation {
        window_width: 100,
        window_height: 100,
        view: boundary,
        particles: vec![moving_particle(S, 5_000_000, 0, 0, 5_000_000, S)],
        boundary,
        gravity: v(0, -S),
        restitution: 95_000_000,
        trails: Vec::new(),
    };
    sim.update(10_000_000);
    // one step of gravity sinks the particle 0.01 into the floor;
    // the correction puts it back to rest depth exactly
    assert_eq!(sim.particles[0].position.y, 5_000_000);
    assert_eq!(sim.particles[0].velocity.y, 9_500_000);
}

/// A single particle dropped on the floor stays contained and ends up
/// resting at the floor, never sinking below it.
#[test]
fn particle_settles_on_floor() {
    let boundary = Rectangle { min: v(0, 0), max: v(2 * S, S) };
    let mut sim = Simulation {
        window_width: 100,
        window_height: 100,
        view: boundary,
        particles: vec![moving_particle(S, 5_000_000, 0, 0, 5_000_000, S)],
        boundary,
        gravity: v(0, -S),
        restitution: 95_000_000,
        trails: Vec::new(),
    };
    for _ in 0..200 {
        sim.update(10_000_000);
        let p = sim.particles[0];
        assert!(p.position.y - p.radius >= 0, "sank below the floor");
        assert!(p.position.x == S, "drifted sideways");
    }
    let p = sim.particles[0];
    assert!(p.position.y <= 6_000_000, "did not come to rest near the floor");
    assert!(p.velocity.y.abs() <= 6_000_000, "kept bouncing hard");
}

/// Spawned populations never overlap.
#[test]
fn generated_particles_do_not_overlap() {
    let boundary = Rectangle { min: v(0, 0), max: v(S, S) };
    let mut rng = rng_from_seed(21);
    let ps = generate_non_overlapping_particles(boundary, 5_000_000, 20, 30, &mut rng);
    assert!(ps.len() <= 20);
    assert!(ps.len() >= 2);
    for i in 0..ps.len() {
        let p = ps[i];
        assert!(p.position.x - p.radius >= 0 && p.position.x + p.radius <= S);
        assert!(p.position.y - p.radius >= 0 && p.position.y + p.radius <= S);
        for j in i + 1..ps.len() {
            let q = ps[j];
            let dx = (p.position.x - q.position.x) as i128;
            let dy = (p.position.y - q.position.y) as i128;
            let rr = (p.radius + q.radius) as i128;
            assert!(dx * dx + dy * dy >= rr * rr, "particles {} and {} overlap", i, j);
        }
    }
}

#[test]
fn collision_scenario_builds_elastic_population() {
    let mut rng = rng_from_seed(42);
    let sim = collision_sim(&mut rng);
    assert!(sim.particles.len() <= 100);
    assert!(sim.particles.len() > 0);
    assert_eq!(sim.restitution, FP_SCALE);
    assert_eq!(sim.boundary.max, v(2 * S, S));
    assert_eq!(sim.gravity, v(0, -10_000_000));
    assert_eq!((sim.window_width, sim.window_height), (800, 400));
    for p in &sim.particles {
        assert_eq!(p.radius, 2_000_000);
        let vsq = (p.velocity.x as i128) * (p.velocity.x as i128) + (p.velocity.y as i128)
            * (p.velocity.y as i128);
        assert!(vsq <= 50_000_000i128 * 50_000_000i128);
    }
}

#[test]
fn mixing_scenario_builds_two_layers() {
    let mut rng = rng_from_seed(42);
    let sim = mixing_sim(&mut rng);
    assert!(sim.particles.len() >= 2);
    assert!(sim.particles.len() <= 600);
    assert_eq!(sim.gravity, v(0, 0));
    assert_eq!(sim.boundary.max, v(S, 2 * S));
    // the green top-half population comes first, the red bottom-half
    // population after it
    let first_red = sim.particles.iter().position(|p| p.color == RED).unwrap();
    assert!(first_red >= 1);
    for (k, p) in sim.particles.iter().enumerate() {
        assert_eq!(p.radius, 1_000_000);
        if k < first_red {
            assert_eq!(p.color, GREEN);
            assert!(p.position.y >= S + 1_000_000);
        } else {
            assert_eq!(p.color, RED);
            assert!(p.position.y < S - 1_000_000);
        }
    }
}

#[test]
fn brownian_scenario_places_heavy_tracer() {
    let mut rng = rng_from_seed(42);
    let thermal: Vec<Vector2> = (0..1000).map(|i| v((i % 7 - 3) * 1_000_000, (i % 5 - 2) * 1_000_000)).collect();
    let sim = brownian_motion_sim(&mut rng, &thermal).unwrap();
    let last = sim.particles[sim.particles.len() - 1];
    assert_eq!(last.radius, 5_000_000);
    assert_eq!(last.mass, 100 * S);
    assert_eq!(sim.trails.len(), 1);
    assert_eq!(sim.trails[0].index, sim.particles.len() - 1);
}

/// Determinism: the same seed and configuration give bit-identical
/// states after any number of steps.
#[test]
fn fixed_seed_runs_are_identical() {
    let mut rng1 = rng_from_seed(7);
    let mut sim1 = collision_sim(&mut rng1);
    let mut rng2 = rng_from_seed(7);
    let mut sim2 = collision_sim(&mut rng2);
    sim1.run(1_000_000, 50);
    sim2.run(1_000_000, 50);
    assert_eq!(sim1.particles.len(), sim2.particles.len());
    for (p, q) in sim1.particles.iter().zip(sim2.particles.iter()) {
        assert_eq!(p, q);
    }
}

/// The trail recorder keeps the newest 500 samples.
#[test]
fn trail_recorder_caps_history() {
    let boundary = Rectangle { min: v(0, 0), max: v(2 * S, S) };
    let mut sim = Simulation {
        window_width: 100,
        window_height: 100,
        view: boundary,
        particles: vec![moving_particle(S, S / 2, 0, 0, 5_000_000, S)],
        boundary,
        gravity: v(0, 0),
        restitution: FP_SCALE,
        trails: Vec::new(),
    };
    let mut info = SimulationInformation {
        trails: vec![Trail { index: 0, points: Vec::new() }],
    };
    for i in 0..502i64 {
        sim.particles[0].position.x = i;
        info.update(&sim);
    }
    assert_eq!(info.trails[0].points.len(), 500);
    assert_eq!(info.trails[0].points[0], v(2, S / 2));
    assert_eq!(info.trails[0].points[499], v(501, S / 2));
}

/// The reflect-with-damping prototype also swaps equal-mass head-on
/// velocities when fully elastic.
#[test]
fn prototype_reflection_resolves_head_on() {
    let mut ps = vec![
        moving_particle(0, 0, S, 0, 10_000_000, S),
        moving_particle(15_000_000, 0, -S, 0, 10_000_000, S),
    ];
    circle_collissions(&mut ps, FP_SCALE);
    assert_eq!(ps[0].velocity, v(-S, 0));
    assert_eq!(ps[1].velocity, v(S, 0));
}

/// The prototype wall bounce damps the normal velocity and sets a
/// sunken particle back onto the floor.
#[test]
fn prototype_wall_bounce_clamps_to_floor() {
    let boundary = Rectangle { min: v(0, 0), max: v(2 * S, S) };
    let mut p = moving_particle(S, 4_000_000, 0, -10_000_000, 5_000_000, S);
    boundary_collision(&mut p, boundary, 95_000_000);
    assert_eq!(p.velocity, v(0, 9_500_000));
    assert_eq!(p.position, v(S, 5_000_000));
}

/// The prototype bounce covers the ceiling too: a particle past the
/// top wall is reflected downward and set back under it.
#[test]
fn prototype_wall_bounce_has_ceiling() {
    let boundary = Rectangle { min: v(0, 0), max: v(2 * S, S) };
    let mut p = moving_particle(S, 98_000_000, 0, 10_000_000, 5_000_000, S);
    boundary_collision(&mut p, boundary, 95_000_000);
    assert_eq!(p.velocity, v(0, -9_500_000));
    assert_eq!(p.position, v(S, 95_000_000));
}

#[test]
fn prototype_simulation_spawns_and_steps() {
    let mut rng = rng_from_seed(9);
    let mut sim = CollisionSimulation::new();
    sim.initialize(&mut rng);
    assert_eq!(sim.circles.len(), 100);
    for p in &sim.circles {
        assert_eq!(p.radius, 2_000_000);
        assert!(p.mass > 0);
        assert!(2_000_001 <= p.position.x && p.position.x < 198_000_001);
        assert!(2_000_001 <= p.position.y && p.position.y < 100_000_000);
        let vsq = (p.velocity.x as i128) * (p.velocity.x as i128) + (p.velocity.y as i128)
            * (p.velocity.y as i128);
        assert!(vsq <= 10_000_000i128 * 10_000_000i128);
    }
    sim.update(1_000_000);
    assert_eq!(sim.circles.len(), 100);
}
