//! Scenario builders: particle populations spawned without overlap
//! inside a boundary, handed to the simulation core.

use vstd::prelude::*;
use crate::fixed::{clip128, fmul, fp_mul, FP_LIMIT, FP_SCALE};
use crate::geometry::{wf_particle, wf_rect, Particle, Rectangle};
use crate::simulation::{wf_particles, wf_sim, Simulation, Trail};
use crate::uniform_grid::{grid_covers, grid_sound, wf_grid, PlacementError, UniformGrid};
use crate::vector2::{dist_sq, Vector2};

verus! {

/// RGBA color tags used by the stock scenarios.
pub const GREEN: u32 = 0x00DD_D5FF;

pub const RED: u32 = 0xEC13_46FF;

/// The circle constant on the fixed-point grid.
pub const PI_FP: i64 = 314_159_265;

/// The mass of a disk of unit density: pi times the radius squared.
pub open spec fn disk_mass(r: i64) -> int {
    fmul(fmul(PI_FP as int, r as int), r as int)
}

pub fn disk_mass_fp(r: i64) -> (m: i64)
    ensures
        m as int == disk_mass(r),
{
    fp_mul(fp_mul(PI_FP, r), r)
}

/// No two particles of the list overlap.
pub open spec fn pairwise_non_overlapping(ps: Seq<Particle>) -> bool {
    forall|a: int, b: int|
        0 <= a < b < ps.len() ==> dist_sq(ps[a].position, ps[b].position) >= ((#[trigger] ps[a]).radius
            + (#[trigger] ps[b]).radius) * (ps[a].radius + ps[b].radius)
}

/// Every particle lies inside the boundary with a margin of its own
/// radius.
pub open spec fn placed_inside(b: Rectangle, ps: Seq<Particle>) -> bool {
    forall|k: int|
        0 <= k < ps.len() ==> {
            let p = #[trigger] ps[k];
            &&& b.min.x + p.radius <= p.position.x < b.max.x - p.radius
            &&& b.min.y + p.radius <= p.position.y < b.max.y - p.radius
        }
}

/// Squared distance does not depend on the order of its endpoints.
pub proof fn lemma_dist_sq_symm(a: Vector2, b: Vector2)
    ensures
        dist_sq(a, b) == dist_sq(b, a),
{
    assert(dist_sq(a, b) == dist_sq(b, a)) by (nonlinear_arith);
}

/// Spawn up to `count` resting particles of one radius, placed by
/// rejection sampling so that no two overlap; gives up early (with a
/// shorter list) once a position cannot be found within the attempt
/// budget.  The first placement samples against an empty population,
/// so with any positive budget at least one particle is spawned.
pub fn generate_non_overlapping_particles(
    boundary: Rectangle,
    particle_radius: i64,
    count: usize,
    max_attempts_per_particle: usize,
    rng: &mut rand_pcg::Pcg64Mcg,
) -> (particles: Vec<Particle>)
    requires
        wf_rect(boundary),
        0 < particle_radius,
        disk_mass(particle_radius) > 0,
        2 * particle_radius <= boundary.max.x - boundary.min.x,
        2 * particle_radius <= boundary.max.y - boundary.min.y,
        boundary.min.x + particle_radius < boundary.max.x - particle_radius,
        boundary.min.y + particle_radius < boundary.max.y - particle_radius,
        boundary.max.x - boundary.min.x <= 32_767 * (2 * particle_radius),
        boundary.max.y - boundary.min.y <= 32_767 * (2 * particle_radius),
    ensures
        particles@.len() <= count,
        count >= 1 && max_attempts_per_particle >= 1 ==> particles@.len() >= 1,
        wf_particles(particles@),
        pairwise_non_overlapping(particles@),
        placed_inside(boundary, particles@),
        forall|k: int|
            0 <= k < particles@.len() ==> {
                let p = #[trigger] particles@[k];
                &&& p.radius == particle_radius
                &&& p.mass as int == disk_mass(particle_radius)
                &&& p.velocity == (Vector2 { x: 0i64, y: 0i64 })
                &&& p.color == GREEN
            },
{
    let mass = disk_mass_fp(particle_radius);
    let mut particles: Vec<Particle> = Vec::new();
    let mut grid = UniformGrid::with_cell_size(boundary, 2 * particle_radius);
    loop
        invariant
            wf_rect(boundary),
            0 < particle_radius,
            mass as int == disk_mass(particle_radius),
            mass > 0,
            boundary.min.x + particle_radius < boundary.max.x - particle_radius,
            boundary.min.y + particle_radius < boundary.max.y - particle_radius,
            wf_grid(grid),
            grid.boundary == boundary,
            2 * particle_radius <= grid.cell_width,
            2 * particle_radius <= grid.cell_height,
            grid_covers(grid, particles@),
            grid_sound(grid, particles@),
            wf_particles(particles@),
            pairwise_non_overlapping(particles@),
            placed_inside(boundary, particles@),
            particles@.len() <= count,
            forall|k: int|
                0 <= k < particles@.len() ==> {
                    let p = #[trigger] particles@[k];
                    &&& p.radius == particle_radius
                    &&& p.mass as int == disk_mass(particle_radius)
                    &&& p.velocity == (Vector2 { x: 0i64, y: 0i64 })
                    &&& p.color == GREEN
                },
        decreases count - particles@.len(),
    {
        if particles.len() >= count {
            return particles;
        }
        let placed = grid.try_get_none_overlaping_position(
            particle_radius,
            &particles,
            max_attempts_per_particle,
            rng,
        );
        match placed {
            Ok(position) => {
                let particle = Particle {
                    position,
                    radius: particle_radius,
                    velocity: Vector2 { x: 0, y: 0 },
                    mass,
                    color: GREEN,
                };
                let ghost old_ps = particles@;
                let ghost old_grid = grid;
                let index = particles.len();
                particles.push(particle);
                grid.add_particle(index, &particle);
                proof {
                    let ci = crate::uniform_grid::cell_of(old_grid, particle.position);
                    crate::uniform_grid::lemma_cell_of_in_bounds(old_grid, particle.position);
                    assert(!old_grid.cells@[ci]@.contains(index)) by {
                        if old_grid.cells@[ci]@.contains(index) {
                            let m = choose|m: int|
                                0 <= m < old_grid.cells@[ci]@.len() && old_grid.cells@[ci]@[m]
                                    == index;
                            assert(old_grid.cells@[ci]@[m] < old_ps.len());
                        }
                    }
                    extend_grid_registration(old_grid, grid, old_ps, particle);
                    assert forall|a: int, b: int|
                        0 <= a < b < particles@.len() implies dist_sq(
                        particles@[a].position,
                        particles@[b].position,
                    ) >= ((#[trigger] particles@[a]).radius + (#[trigger] particles@[b]).radius)
                        * (particles@[a].radius + particles@[b].radius) by {
                        if b == old_ps.len() {
                            assert(dist_sq(position, old_ps[a].position) >= (particle_radius
                                + old_ps[a].radius) * (particle_radius + old_ps[a].radius));
                            lemma_dist_sq_symm(particles@[a].position, particles@[b].position);
                        }
                    }
                }
            },
            Err(_) => {
                proof {
                    if particles@.len() == 0 && max_attempts_per_particle >= 1 {
                        assert(particle_radius <= grid.cell_height);
                        assert(placed is Ok);
                    }
                }
                return particles;
            },
        }
    }
}

/// Adding a particle to the grid cell of its position keeps the grid's
/// registration exact for the extended list.
proof fn extend_grid_registration(
    g0: UniformGrid,
    g1: UniformGrid,
    ps: Seq<Particle>,
    p: Particle,
)
    requires
        wf_grid(g0),
        wf_grid(g1),
        grid_covers(g0, ps),
        grid_sound(g0, ps),
        g1.cells@.len() == g0.cells@.len(),
        g1.cell_width == g0.cell_width,
        g1.cell_height == g0.cell_height,
        g1.boundary == g0.boundary,
        g1.n_col == g0.n_col,
        g1.n_row == g0.n_row,
        g1.cells@[crate::uniform_grid::cell_of(g0, p.position)]@ == g0.cells@[
            crate::uniform_grid::cell_of(g0, p.position)
        ]@.push(ps.len() as usize),
        forall|ci: int|
            0 <= ci < g0.cells@.len() && ci != crate::uniform_grid::cell_of(g0, p.position)
                ==> g1.cells@[ci] == g0.cells@[ci],
        ps.len() < usize::MAX,
    ensures
        grid_covers(g1, ps.push(p)),
        grid_sound(g1, ps.push(p)),
{
    let ci = crate::uniform_grid::cell_of(g0, p.position);
    let ps1 = ps.push(p);
    crate::uniform_grid::lemma_cell_of_in_bounds(g0, p.position);
    assert forall|k: int|
        0 <= k < ps1.len() implies g1.cells@[crate::uniform_grid::cell_of(g1, ps1[k].position)]@
        .contains(k as usize) by {
        let cj = crate::uniform_grid::cell_of(g0, ps1[k].position);
        crate::uniform_grid::lemma_cell_of_in_bounds(g0, ps1[k].position);
        assert(crate::uniform_grid::cell_of(g1, ps1[k].position) == cj);
        if k < ps.len() {
            assert(g0.cells@[cj]@.contains(k as usize));
            let m = choose|m: int| 0 <= m < g0.cells@[cj]@.len() && g0.cells@[cj]@[m] == k as usize;
            if cj == ci {
                assert(g1.cells@[cj]@[m] == k as usize);
            } else {
                assert(g1.cells@[cj] == g0.cells@[cj]);
            }
        } else {
            assert(cj == ci);
            assert(g1.cells@[ci]@[g0.cells@[ci]@.len() as int] == ps.len() as usize);
        }
    }
    assert forall|cj: int, m: int|
        0 <= cj < g1.cells@.len() && 0 <= m < g1.cells@[cj]@.len() implies {
        &&& (#[trigger] g1.cells@[cj]@[m]) < ps1.len()
        &&& cj == crate::uniform_grid::cell_of(g1, ps1[g1.cells@[cj]@[m] as int].position)
    } by {
        if cj == ci {
            if m < g0.cells@[ci]@.len() {
                assert(g1.cells@[cj]@[m] == g0.cells@[cj]@[m]);
                assert(g0.cells@[cj]@[m] < ps.len());
            } else {
                assert(g1.cells@[cj]@[m] == ps.len() as usize);
            }
        } else {
            assert(g1.cells@[cj] == g0.cells@[cj]);
            assert(g0.cells@[cj]@[m] < ps.len());
        }
    }
}

/// Give every particle a random velocity: uniform direction in the
/// unit disk, scaled by `speed`, so no speed exceeds `speed`.  Nothing
/// but the velocities changes.
fn set_disk_velocities(particles: &mut Vec<Particle>, speed: i64, rng: &mut rand_pcg::Pcg64Mcg)
    requires
        wf_particles(old(particles)@),
        0 <= speed <= FP_LIMIT,
    ensures
        final(particles)@.len() == old(particles)@.len(),
        wf_particles(final(particles)@),
        forall|k: int|
            0 <= k < old(particles)@.len() ==> (#[trigger] final(particles)@[k]) == (Particle {
                velocity: final(particles)@[k].velocity,
                ..old(particles)@[k]
            }),
        forall|k: int|
            0 <= k < final(particles)@.len() ==> crate::vector2::norm_sq(
                (#[trigger] final(particles)@[k]).velocity,
            ) <= speed * speed,
    {
    let n = particles.len();
    let mut k: usize = 0;
    while k < n
        invariant
            0 <= k <= n,
            n == particles@.len(),
            particles@.len() == old(particles)@.len(),
            wf_particles(particles@),
            0 <= speed <= FP_LIMIT,
            forall|m: int|
                0 <= m < n ==> (#[trigger] particles@[m]) == (Particle {
                    velocity: particles@[m].velocity,
                    ..old(particles)@[m]
                }),
            forall|m: int|
                k <= m < n ==> (#[trigger] particles@[m]) == old(particles)@[m],
            forall|m: int|
                0 <= m < k ==> crate::vector2::norm_sq((#[trigger] particles@[m]).velocity)
                    <= speed * speed,
        decreases n - k,
    {
        let p = particles[k];
        let v = Vector2::random_in_disk_scaled(rng, speed);
        particles[k] = Particle { velocity: v, ..p };
        k = k + 1;
    }
}

/// A hundred identical circles bouncing elastically in a wide box
/// under weak gravity.
pub fn collision_sim(rng: &mut rand_pcg::Pcg64Mcg) -> (sim: Simulation)
    ensures
        wf_sim(sim),
        sim.boundary == (Rectangle {
            min: Vector2 { x: 0i64, y: 0i64 },
            max: Vector2 { x: 200_000_000i64, y: 100_000_000i64 },
        }),
        sim.view == sim.boundary,
        sim.window_width == 800,
        sim.window_height == 400,
        sim.gravity == (Vector2 { x: 0i64, y: -10_000_000i64 }),
        sim.restitution == FP_SCALE,
        1 <= sim.particles@.len() <= 100,
        pairwise_non_overlapping(sim.particles@),
        placed_inside(sim.boundary, sim.particles@),
        forall|k: int|
            0 <= k < sim.particles@.len() ==> (#[trigger] sim.particles@[k]).radius == 2_000_000
                && sim.particles@[k].mass as int == disk_mass(2_000_000),
        forall|k: int|
            0 <= k < sim.particles@.len() ==> crate::vector2::norm_sq(
                (#[trigger] sim.particles@[k]).velocity,
            ) <= 50_000_000 * 50_000_000,
{
    let boundary = Rectangle {
        min: Vector2 { x: 0, y: 0 },
        max: Vector2 { x: 200_000_000, y: 100_000_000 },
    };
    let mut particles = generate_non_overlapping_particles(boundary, 2_000_000, 100, 5, rng);
    set_disk_velocities(&mut particles, 50_000_000, rng);
    Simulation {
        window_width: 800,
        window_height: 400,
        particles,
        view: boundary,
        boundary,
        gravity: Vector2 { x: 0, y: -10_000_000 },
        restitution: FP_SCALE,
        trails: Vec::new(),
    }
}

/// Two same-sized populations, one spawned in the top half and one in
/// the bottom half of a tall box, mixing under elastic collisions and
/// no gravity.  The particle list is the green top-half population
/// followed by the red bottom-half population.
pub fn mixing_sim(rng: &mut rand_pcg::Pcg64Mcg) -> (sim: Simulation)
    ensures
        wf_sim(sim),
        sim.boundary == (Rectangle {
            min: Vector2 { x: 0i64, y: 0i64 },
            max: Vector2 { x: 100_000_000i64, y: 200_000_000i64 },
        }),
        sim.view == sim.boundary,
        sim.window_width == 400,
        sim.window_height == 800,
        sim.gravity == (Vector2 { x: 0i64, y: 0i64 }),
        sim.restitution == FP_SCALE,
        2 <= sim.particles@.len() <= 600,
        pairwise_non_overlapping(sim.particles@),
        placed_inside(sim.boundary, sim.particles@),
        forall|k: int|
            0 <= k < sim.particles@.len() ==> (#[trigger] sim.particles@[k]).radius == 1_000_000
                && sim.particles@[k].mass as int == disk_mass(1_000_000),
        forall|k: int|
            0 <= k < sim.particles@.len() ==> crate::vector2::norm_sq(
                (#[trigger] sim.particles@[k]).velocity,
            ) <= 50_000_000 * 50_000_000,
        exists|nt: int|
            {
                &&& 1 <= nt <= sim.particles@.len() - 1
                &&& placed_inside(
                    (Rectangle {
                        min: Vector2 { x: 0i64, y: 100_000_000i64 },
                        max: Vector2 { x: 100_000_000i64, y: 200_000_000i64 },
                    }),
                    #[trigger] sim.particles@.take(nt),
                )
                &&& placed_inside(
                    (Rectangle {
                        min: Vector2 { x: 0i64, y: 0i64 },
                        max: Vector2 { x: 100_000_000i64, y: 100_000_000i64 },
                    }),
                    sim.particles@.skip(nt),
                )
                &&& forall|k: int| 0 <= k < nt ==> (#[trigger] sim.particles@[k]).color == GREEN
                &&& forall|k: int|
                    nt <= k < sim.particles@.len() ==> (#[trigger] sim.particles@[k]).color == RED
            },
{
    let boundary = Rectangle {
        min: Vector2 { x: 0, y: 0 },
        max: Vector2 { x: 100_000_000, y: 200_000_000 },
    };
    let top_boundary = Rectangle {
        min: Vector2 { x: 0, y: 100_000_000 },
        max: Vector2 { x: 100_000_000, y: 200_000_000 },
    };
    let bottom_boundary = Rectangle {
        min: Vector2 { x: 0, y: 0 },
        max: Vector2 { x: 100_000_000, y: 100_000_000 },
    };
    let mut particles = generate_non_overlapping_particles(top_boundary, 1_000_000, 300, 5, rng);
    let ghost top = particles@;
    let bottom = generate_non_overlapping_particles(bottom_boundary, 1_000_000, 300, 5, rng);
    let nb = bottom.len();
    let mut k: usize = 0;
    while k < nb
        invariant
            0 <= k <= nb,
            nb == bottom@.len(),
            particles@ == top + bottom@.take(k as int).map_values(
                |p: Particle| Particle { color: RED, ..p },
            ),
            wf_particles(top),
            wf_particles(bottom@),
            pairwise_non_overlapping(top),
            pairwise_non_overlapping(bottom@),
            placed_inside(top_boundary, top),
            placed_inside(bottom_boundary, bottom@),
            top_boundary == (Rectangle {
                min: Vector2 { x: 0i64, y: 100_000_000i64 },
                max: Vector2 { x: 100_000_000i64, y: 200_000_000i64 },
            }),
            bottom_boundary == (Rectangle {
                min: Vector2 { x: 0i64, y: 0i64 },
                max: Vector2 { x: 100_000_000i64, y: 100_000_000i64 },
            }),
            top.len() <= 300,
            nb <= 300,
            forall|m: int| 0 <= m < top.len() ==> (#[trigger] top[m]).radius == 1_000_000,
            forall|m: int| 0 <= m < bottom@.len() ==> (#[trigger] bottom@[m]).radius == 1_000_000,
        decreases nb - k,
    {
        let q = bottom[k];
        particles.push(Particle { color: RED, ..q });
        proof {
            assert(bottom@.take(k + 1).map_values(|p: Particle| Particle { color: RED, ..p })
                =~= bottom@.take(k as int).map_values(
                |p: Particle| Particle { color: RED, ..p },
            ).push(Particle { color: RED, ..q }));
        }
        k = k + 1;
    }
    proof {
        assert(bottom@.take(nb as int) =~= bottom@);
        lemma_mixed_layout(top, bottom@.map_values(|p: Particle| Particle { color: RED, ..p }),
            top_boundary, bottom_boundary, particles@);
    }
    let ghost mixed = particles@;
    set_disk_velocities(&mut particles, 50_000_000, rng);
    proof {
        let nt = top.len() as int;
        let ps = particles@;
        let mapped = bottom@.map_values(|p: Particle| Particle { color: RED, ..p });
        assert forall|k: int|
            0 <= k < ps.len() implies (#[trigger] ps[k]).position == mixed[k].position && ps[k].radius
            == mixed[k].radius && ps[k].color == mixed[k].color && ps[k].mass
            == mixed[k].mass by {
            assert(ps[k] == (Particle { velocity: ps[k].velocity, ..mixed[k] }));
        }
        assert(placed_inside(top_boundary, ps.take(nt))) by {
            assert forall|k: int| 0 <= k < nt implies {
                let p = #[trigger] ps.take(nt)[k];
                &&& top_boundary.min.x + p.radius <= p.position.x < top_boundary.max.x - p.radius
                &&& top_boundary.min.y + p.radius <= p.position.y < top_boundary.max.y - p.radius
            } by {
                assert(ps.take(nt)[k] == ps[k]);
                assert(mixed[k] == top[k]);
            }
        }
        assert(placed_inside(bottom_boundary, ps.skip(nt))) by {
            assert forall|k: int| 0 <= k < ps.skip(nt).len() implies {
                let p = #[trigger] ps.skip(nt)[k];
                &&& bottom_boundary.min.x + p.radius <= p.position.x < bottom_boundary.max.x
                    - p.radius
                &&& bottom_boundary.min.y + p.radius <= p.position.y < bottom_boundary.max.y
                    - p.radius
            } by {
                assert(ps.skip(nt)[k] == ps[nt + k]);
                assert(mixed[nt + k] == mapped[k]);
                assert(mapped[k] == (Particle { color: RED, ..bottom@[k] }));
            }
        }
        assert forall|k: int| 0 <= k < nt implies (#[trigger] ps[k]).color == GREEN by {
            assert(mixed[k] == top[k]);
        }
        assert forall|k: int| nt <= k < ps.len() implies (#[trigger] ps[k]).color == RED by {
            assert(mixed[k] == mapped[k - nt]);
            assert(mapped[k - nt] == (Particle { color: RED, ..bottom@[k - nt] }));
        }
        assert forall|k: int|
            0 <= k < ps.len() implies (#[trigger] ps[k]).radius == 1_000_000 && ps[k].mass as int
            == disk_mass(1_000_000) by {
            if k < nt {
                assert(mixed[k] == top[k]);
            } else {
                assert(mixed[k] == mapped[k - nt]);
                assert(mapped[k - nt] == (Particle { color: RED, ..bottom@[k - nt] }));
            }
        }
        assert(1 <= nt <= ps.len() - 1);
    }
    Simulation {
        window_width: 400,
        window_height: 800,
        particles,
        view: boundary,
        boundary,
        gravity: Vector2 { x: 0, y: 0 },
        restitution: FP_SCALE,
        trails: Vec::new(),
    }
}

/// Particles spawned in two stacked, disjoint regions neither overlap
/// within their region nor across the seam, and all lie inside the
/// union box.
proof fn lemma_mixed_layout(
    top: Seq<Particle>,
    bottom: Seq<Particle>,
    top_boundary: Rectangle,
    bottom_boundary: Rectangle,
    all: Seq<Particle>,
)
    requires
        all == top + bottom,
        wf_rect(top_boundary),
        wf_rect(bottom_boundary),
        pairwise_non_overlapping(top),
        pairwise_non_overlapping(bottom),
        placed_inside(top_boundary, top),
        placed_inside(bottom_boundary, bottom),
        top_boundary.min.x == bottom_boundary.min.x,
        top_boundary.max.x == bottom_boundary.max.x,
        top_boundary.min.y == bottom_boundary.max.y,
        forall|m: int| 0 <= m < top.len() ==> (#[trigger] top[m]).radius >= 0,
        forall|m: int| 0 <= m < bottom.len() ==> (#[trigger] bottom[m]).radius >= 0,
    ensures
        pairwise_non_overlapping(all),
        placed_inside(
            Rectangle {
                min: bottom_boundary.min,
                max: Vector2 { x: top_boundary.max.x, y: top_boundary.max.y },
            },
            all,
        ),
{
    let na = top.len() as int;
    assert forall|a: int, b: int|
        0 <= a < b < all.len() implies dist_sq(all[a].position, all[b].position) >= ((
    #[trigger] all[a]).radius + (#[trigger] all[b]).radius) * (all[a].radius + all[b].radius) by {
        if b < na {
        } else if a >= na {
            assert(all[a] == bottom[a - na] && all[b] == bottom[b - na]);
        } else {
            let pa = top[a];
            let pb = bottom[b - na];
            assert(pa.position.y >= top_boundary.min.y + pa.radius);
            assert(pb.position.y < bottom_boundary.max.y - pb.radius);
            assert(dist_sq(pa.position, pb.position) >= (pa.radius + pb.radius) * (pa.radius
                + pb.radius)) by (nonlinear_arith)
                requires
                    pa.position.y - pb.position.y > pa.radius + pb.radius,
                    pa.radius + pb.radius >= 0,
                    dist_sq(pa.position, pb.position) == (pa.position.x - pb.position.x) * (
                    pa.position.x - pb.position.x) + (pa.position.y - pb.position.y) * (
                    pa.position.y - pb.position.y),
            ;
        }
    }
    let union_rect = Rectangle {
        min: bottom_boundary.min,
        max: Vector2 { x: top_boundary.max.x, y: top_boundary.max.y },
    };
    assert forall|k: int| 0 <= k < all.len() implies {
        let p = #[trigger] all[k];
        &&& union_rect.min.x + p.radius <= p.position.x < union_rect.max.x - p.radius
        &&& union_rect.min.y + p.radius <= p.position.y < union_rect.max.y - p.radius
    } by {
        if k < na {
            assert(all[k] == top[k]);
        } else {
            assert(all[k] == bottom[k - na]);
        }
    }
}

/// A thousand light particles with supplied thermal velocities and one
/// heavy tracer a hundred times their mass, whose path is recorded.
/// The tracer's spot is found by rejection sampling; when no spot is
/// free within the budget, the error says so and no simulation is
/// built.  Exhaustion is the only possible failure: the tracer's
/// radius always fits the grid's cells.
pub fn brownian_motion_sim(
    rng: &mut rand_pcg::Pcg64Mcg,
    thermal_velocities: &Vec<Vector2>,
) -> (r: Result<Simulation, PlacementError>)
    ensures
        r matches Ok(sim) ==> {
            &&& wf_sim(sim)
            &&& sim.boundary == (Rectangle {
                min: Vector2 { x: 0i64, y: 0i64 },
                max: Vector2 { x: 200_000_000i64, y: 100_000_000i64 },
            })
            &&& sim.view == sim.boundary
            &&& sim.gravity == (Vector2 { x: 0i64, y: 0i64 })
            &&& sim.restitution == FP_SCALE
            &&& 1 <= sim.particles@.len() <= 1001
            &&& pairwise_non_overlapping(sim.particles@)
            &&& placed_inside(sim.boundary, sim.particles@)
            &&& sim.particles@.last().radius == 5_000_000
            &&& sim.particles@.last().mass == 10_000_000_000i64
            &&& sim.trails@.len() == 1
            &&& sim.trails@[0].index as int == sim.particles@.len() - 1
            &&& sim.trails@[0].points@ == Seq::<Vector2>::empty()
        },
        r is Err ==> r == Err::<Simulation, PlacementError>(PlacementError::PlacementExhausted),
{
    let boundary = Rectangle {
        min: Vector2 { x: 0, y: 0 },
        max: Vector2 { x: 200_000_000, y: 100_000_000 },
    };
    let mut particles = generate_non_overlapping_particles(boundary, 500_000, 1000, 10, rng);
    let n = particles.len();
    let mut k: usize = 0;
    while k < n
        invariant
            0 <= k <= n,
            n == particles@.len(),
            wf_rect(boundary),
            wf_particles(particles@),
            pairwise_non_overlapping(particles@),
            placed_inside(boundary, particles@),
            forall|m: int| 0 <= m < n ==> (#[trigger] particles@[m]).radius == 500_000,
            forall|m: int| 0 <= m < n ==> (#[trigger] particles@[m]).position == particles@[m].position,
        decreases n - k,
    {
        let p = particles[k];
        let v: Vector2 = if k < thermal_velocities.len() {
            let t = thermal_velocities[k];
            Vector2 { x: clip128(t.x as i128), y: clip128(t.y as i128) }
        } else {
            Vector2 { x: 0, y: 0 }
        };
        let ghost before = particles@;
        particles[k] = Particle { mass: FP_SCALE, velocity: v, ..p };
        proof {
            assert forall|a: int, b: int|
                0 <= a < b < particles@.len() implies dist_sq(
                particles@[a].position,
                particles@[b].position,
            ) >= ((#[trigger] particles@[a]).radius + (#[trigger] particles@[b]).radius) * (
            particles@[a].radius + particles@[b].radius) by {
                assert(particles@[a].position == before[a].position && particles@[a].radius
                    == before[a].radius);
                assert(particles@[b].position == before[b].position && particles@[b].radius
                    == before[b].radius);
            }
        }
        k = k + 1;
    }
    let mut grid = UniformGrid::with_cell_size(boundary, 10_000_000);
    let mut i: usize = 0;
    while i < n
        invariant
            0 <= i <= n,
            n == particles@.len(),
            wf_grid(grid),
            grid.boundary == boundary,
            grid.cell_width >= 10_000_000,
            grid.cell_height >= 10_000_000,
            wf_particles(particles@),
            grid_covers(grid, particles@.take(i as int)),
            grid_sound(grid, particles@.take(i as int)),
        decreases n - i,
    {
        let ghost old_grid = grid;
        let p = particles[i];
        grid.add_particle(i, &p);
        proof {
            let ci = crate::uniform_grid::cell_of(old_grid, p.position);
            crate::uniform_grid::lemma_cell_of_in_bounds(old_grid, p.position);
            assert(!old_grid.cells@[ci]@.contains(i)) by {
                if old_grid.cells@[ci]@.contains(i) {
                    let m = choose|m: int|
                        0 <= m < old_grid.cells@[ci]@.len() && old_grid.cells@[ci]@[m] == i;
                    assert(old_grid.cells@[ci]@[m] < particles@.take(i as int).len());
                }
            }
            extend_grid_registration(old_grid, grid, particles@.take(i as int), p);
            assert(particles@.take(i + 1) =~= particles@.take(i as int).push(p));
        }
        i = i + 1;
    }
    proof {
        assert(particles@.take(n as int) =~= particles@);
    }
    match grid.try_get_none_overlaping_position(5_000_000, &particles, 1000, rng) {
        Ok(position) => {
            let ghost old_ps = particles@;
            let index = particles.len();
            let big = Particle {
                mass: 10_000_000_000,
                position,
                velocity: Vector2 { x: 0, y: 0 },
                radius: 5_000_000,
                color: RED,
            };
            particles.push(big);
            proof {
                assert forall|a: int, b: int|
                    0 <= a < b < particles@.len() implies dist_sq(
                    particles@[a].position,
                    particles@[b].position,
                ) >= ((#[trigger] particles@[a]).radius + (#[trigger] particles@[b]).radius) * (
                particles@[a].radius + particles@[b].radius) by {
                    if b == old_ps.len() {
                        assert(dist_sq(position, old_ps[a].position) >= (5_000_000
                            + old_ps[a].radius) * (5_000_000 + old_ps[a].radius));
                        lemma_dist_sq_symm(particles@[a].position, particles@[b].position);
                    }
                }
            }
            let mut trails: Vec<Trail> = Vec::new();
            trails.push(Trail { index, points: Vec::new() });
            Ok(
                Simulation {
                    window_width: 500,
                    window_height: 500,
                    particles,
                    view: boundary,
                    boundary,
                    gravity: Vector2 { x: 0, y: 0 },
                    restitution: FP_SCALE,
                    trails,
                },
            )
        },
        Err(e) => {
            proof {
                assert(e == PlacementError::PlacementExhausted);
            }
            Err(e)
        },
    }
}

} // verus!
