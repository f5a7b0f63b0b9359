//! The simulation core: integration under gravity, collision detection,
//! impulse-based resolution and positional correction, in a fixed order
//! per step.

use vstd::prelude::*;
use crate::fixed::{
    clip, clip128, clip64, fdiv, fmul, fp_add, fp_div, fp_mul, fp_sub, isqrt128,
    lemma_mul_magnitude, lemma_square_nonneg, sqrt_floor, tdiv, tdiv128, FP_LIMIT, FP_SCALE,
};
use crate::geometry::{wf_particle, wf_rect, Particle, ParticleCollision, Rectangle, StaticCollision};
use crate::vector2::{dist_sq, dot_raw, in_range, unit_toward, unit_x, unit_y, vclip, Vector2};

verus! {

/// A capped position history of one particle, kept for visualization.
pub struct Trail {
    pub index: usize,
    pub points: Vec<Vector2>,
}

/// The simulation: a particle population inside a boundary, with
/// gravity and a restitution coefficient, advanced step by step by
/// `update`.
pub struct Simulation {
    pub window_width: u32,
    pub window_height: u32,
    pub view: Rectangle,
    pub particles: Vec<Particle>,
    pub boundary: Rectangle,
    pub gravity: Vector2,
    pub restitution: i64,
    pub trails: Vec<Trail>,
}

/// Restitution between 0 (inelastic) and 1 (elastic), on the fixed-point
/// scale.
pub open spec fn wf_restitution(e: i64) -> bool {
    0 <= e <= FP_SCALE
}

pub open spec fn wf_particles(ps: Seq<Particle>) -> bool {
    forall|k: int| 0 <= k < ps.len() ==> wf_particle(#[trigger] ps[k])
}

pub open spec fn wf_sim(s: Simulation) -> bool {
    &&& wf_rect(s.boundary)
    &&& in_range(s.gravity)
    &&& wf_restitution(s.restitution)
    &&& wf_particles(s.particles@)
}

/// One Euler step: gravity accelerates the velocity, then the new
/// velocity moves the position.
pub open spec fn integrate_particle(p: Particle, g: Vector2, dt: i64) -> Particle {
    let v = vclip(
        p.velocity.x + fmul(g.x as int, dt as int),
        p.velocity.y + fmul(g.y as int, dt as int),
    );
    let pos = vclip(
        p.position.x + fmul(v.x as int, dt as int),
        p.position.y + fmul(v.y as int, dt as int),
    );
    Particle { position: pos, velocity: v, ..p }
}

pub open spec fn integrate_all(ps: Seq<Particle>, g: Vector2, dt: i64) -> Seq<Particle> {
    ps.map(|k: int, p: Particle| integrate_particle(p, g, dt))
}

/// Phase one of a step: move every particle under gravity.
fn integrate(particles: &mut Vec<Particle>, gravity: Vector2, dt: i64)
    requires
        wf_particles(old(particles)@),
    ensures
        final(particles)@ == integrate_all(old(particles)@, gravity, dt),
        wf_particles(final(particles)@),
{
    let n = particles.len();
    let mut k: usize = 0;
    while k < n
        invariant
            0 <= k <= n,
            n == particles.len(),
            wf_particles(old(particles)@),
            particles@.len() == old(particles)@.len(),
            forall|m: int|
                k <= m < n ==> particles@[m] == old(particles)@[m],
            forall|m: int|
                0 <= m < k ==> particles@[m] == integrate_particle(
                    old(particles)@[m],
                    gravity,
                    dt,
                ),
            forall|m: int| 0 <= m < k ==> wf_particle(#[trigger] particles@[m]),
        decreases n - k,
    {
        let p = particles[k];
        let v = p.velocity.add(gravity.scale(dt));
        let pos = p.position.add(v.scale(dt));
        particles[k] = Particle { position: pos, velocity: v, ..p };
        k = k + 1;
    }
}

/// The two circles touch: centers no farther apart than the radii sum.
pub open spec fn pair_touching(p: Particle, q: Particle) -> bool {
    dist_sq(p.position, q.position) <= (p.radius + q.radius) * (p.radius + q.radius)
}

/// A detectable contact: touching, with distinct centers (coincident
/// centers give the contact no direction and are skipped).
pub open spec fn pair_hit(p: Particle, q: Particle) -> bool {
    pair_touching(p, q) && p.position != q.position
}

/// The contact record for the pair `(i, j)`, from current positions and
/// velocities.
pub open spec fn pair_collision(ps: Seq<Particle>, i: int, j: int) -> ParticleCollision {
    let p = ps[i];
    let q = ps[j];
    let dx = p.position.x - q.position.x;
    let dy = p.position.y - q.position.y;
    ParticleCollision {
        i: i as usize,
        j: j as usize,
        normal: vclip(unit_x(dx, dy), unit_y(dx, dy)),
        penetration: (p.radius + q.radius - sqrt_floor(dist_sq(p.position, q.position))) as i64,
        velocity1: p.velocity,
        velocity2: q.velocity,
    }
}

/// Contacts of particle `i` with the particles after it, ascending.
pub open spec fn row_collisions(ps: Seq<Particle>, i: int, j: int) -> Seq<ParticleCollision>
    decreases ps.len() - j,
{
    if j < 0 || j >= ps.len() {
        Seq::empty()
    } else {
        let rest = row_collisions(ps, i, j + 1);
        if pair_hit(ps[i], ps[j]) {
            seq![pair_collision(ps, i, j)] + rest
        } else {
            rest
        }
    }
}

pub open spec fn collisions_from(ps: Seq<Particle>, i: int) -> Seq<ParticleCollision>
    decreases ps.len() - i,
{
    if i < 0 || i >= ps.len() {
        Seq::empty()
    } else {
        row_collisions(ps, i, i + 1) + collisions_from(ps, i + 1)
    }
}

/// Every touching unordered pair, in ascending index order.
pub open spec fn detect_pairs_spec(ps: Seq<Particle>) -> Seq<ParticleCollision> {
    collisions_from(ps, 0)
}

/// What resolution needs of a pair contact record.
pub open spec fn pair_collision_valid(c: ParticleCollision, ps: Seq<Particle>) -> bool {
    &&& c.i < c.j < ps.len()
    &&& -FP_SCALE <= c.normal.x <= FP_SCALE
    &&& -FP_SCALE <= c.normal.y <= FP_SCALE
    &&& 0 <= c.penetration <= 2 * FP_LIMIT
    &&& in_range(c.velocity1)
    &&& in_range(c.velocity2)
}

pub open spec fn pair_collisions_valid(cs: Seq<ParticleCollision>, ps: Seq<Particle>) -> bool {
    forall|k: int| 0 <= k < cs.len() ==> pair_collision_valid(#[trigger] cs[k], ps)
}

/// Phase two of a step: find every touching pair, brute force.
pub fn detect_particle_collissions(particles: &Vec<Particle>) -> (collisions: Vec<
    ParticleCollision,
>)
    requires
        wf_particles(particles@),
    ensures
        collisions@ == detect_pairs_spec(particles@),
        pair_collisions_valid(collisions@, particles@),
{
    let ghost ps = particles@;
    let n = particles.len();
    let mut out: Vec<ParticleCollision> = Vec::new();
    let mut i: usize = 0;
    while i < n
        invariant
            0 <= i <= n,
            n == ps.len(),
            ps == particles@,
            wf_particles(ps),
            out@ + collisions_from(ps, i as int) == detect_pairs_spec(ps),
            pair_collisions_valid(out@, ps),
        decreases n - i,
    {
        let mut j: usize = i + 1;
        proof {
            assert(collisions_from(ps, i as int) == row_collisions(ps, i as int, i + 1)
                + collisions_from(ps, i + 1));
            assert(out@ + (row_collisions(ps, i as int, i + 1) + collisions_from(ps, i + 1))
                =~= (out@ + row_collisions(ps, i as int, i + 1)) + collisions_from(ps, i + 1));
        }
        while j < n
            invariant
                i < j <= n,
                i < n,
                n == ps.len(),
                ps == particles@,
                wf_particles(ps),
                (out@ + row_collisions(ps, i as int, j as int)) + collisions_from(ps, i + 1)
                    == detect_pairs_spec(ps),
                pair_collisions_valid(out@, ps),
            decreases n - j,
        {
            let p = particles[i];
            let q = particles[j];
            let dx: i128 = p.position.x as i128 - q.position.x as i128;
            let dy: i128 = p.position.y as i128 - q.position.y as i128;
            let rr: i128 = p.radius as i128 + q.radius as i128;
            proof {
                lemma_mul_magnitude(dx as int, dx as int, 0x40_0000_0000_0000, 0x40_0000_0000_0000);
                lemma_mul_magnitude(dy as int, dy as int, 0x40_0000_0000_0000, 0x40_0000_0000_0000);
                lemma_mul_magnitude(rr as int, rr as int, 0x40_0000_0000_0000, 0x40_0000_0000_0000);
                lemma_square_nonneg(dx as int);
                lemma_square_nonneg(dy as int);
            }
            let ghost rj = row_collisions(ps, i as int, j as int);
            if dx * dx + dy * dy <= rr * rr && !(dx == 0 && dy == 0) {
                let d128: u128 = isqrt128((dx * dx + dy * dy) as u128);
                proof {
                    assert(d128 as int <= rr as int) by (nonlinear_arith)
                        requires
                            0 <= d128 as int,
                            0 <= rr as int,
                            (d128 as int) * (d128 as int) <= (dx as int) * (dx as int) + (dy
                                as int) * (dy as int),
                            (dx as int) * (dx as int) + (dy as int) * (dy as int) <= (rr as int)
                                * (rr as int),
                    ;
                }
                let d: i64 = d128 as u64 as i64;
                let normal = unit_toward(dx as i64, dy as i64);
                let c = ParticleCollision {
                    i,
                    j,
                    normal,
                    penetration: p.radius + q.radius - d,
                    velocity1: p.velocity,
                    velocity2: q.velocity,
                };
                proof {
                    assert(c == pair_collision(ps, i as int, j as int));
                    assert(rj == seq![pair_collision(ps, i as int, j as int)] + row_collisions(
                        ps,
                        i as int,
                        j + 1,
                    ));
                    assert((out@ + rj) =~= (out@ + seq![c]) + row_collisions(ps, i as int, j + 1));
                }
                out.push(c);
            } else {
                proof {
                    assert(rj == row_collisions(ps, i as int, j + 1));
                }
            }
            j = j + 1;
        }
        proof {
            assert(row_collisions(ps, i as int, n as int) == Seq::<ParticleCollision>::empty());
            assert(out@ + row_collisions(ps, i as int, n as int) =~= out@);
        }
        i = i + 1;
    }
    proof {
        assert(collisions_from(ps, n as int) == Seq::<ParticleCollision>::empty());
        assert(out@ + collisions_from(ps, n as int) =~= out@);
    }
    out
}

/// The four possible wall contact normals, each pointing into the
/// interior.
pub open spec fn normal_down() -> Vector2 {
    Vector2 { x: 0i64, y: -100_000_000i64 }
}

pub open spec fn normal_left() -> Vector2 {
    Vector2 { x: -100_000_000i64, y: 0i64 }
}

pub open spec fn normal_up() -> Vector2 {
    Vector2 { x: 0i64, y: 100_000_000i64 }
}

pub open spec fn normal_right() -> Vector2 {
    Vector2 { x: 100_000_000i64, y: 0i64 }
}

/// The wall contacts of one particle, tested in the fixed order top,
/// right, bottom, left.  A particle in a corner registers against both
/// of its walls.
pub open spec fn wall_collisions(p: Particle, k: int, b: Rectangle) -> Seq<StaticCollision> {
    let top: Seq<StaticCollision> = if p.position.y + p.radius > b.max.y {
        seq![
            StaticCollision {
                index: k as usize,
                normal: normal_down(),
                penetration: (p.position.y + p.radius - b.max.y) as i64,
                velocity: p.velocity,
            },
        ]
    } else {
        Seq::empty()
    };
    let right: Seq<StaticCollision> = if p.position.x + p.radius > b.max.x {
        seq![
            StaticCollision {
                index: k as usize,
                normal: normal_left(),
                penetration: (p.position.x + p.radius - b.max.x) as i64,
                velocity: p.velocity,
            },
        ]
    } else {
        Seq::empty()
    };
    let bottom: Seq<StaticCollision> = if p.position.y - p.radius < b.min.y {
        seq![
            StaticCollision {
                index: k as usize,
                normal: normal_up(),
                penetration: (b.min.y - (p.position.y - p.radius)) as i64,
                velocity: p.velocity,
            },
        ]
    } else {
        Seq::empty()
    };
    let left: Seq<StaticCollision> = if p.position.x - p.radius < b.min.x {
        seq![
            StaticCollision {
                index: k as usize,
                normal: normal_right(),
                penetration: (b.min.x - (p.position.x - p.radius)) as i64,
                velocity: p.velocity,
            },
        ]
    } else {
        Seq::empty()
    };
    ((top + right) + bottom) + left
}

pub open spec fn static_from(ps: Seq<Particle>, b: Rectangle, k: int) -> Seq<StaticCollision>
    decreases ps.len() - k,
{
    if k < 0 || k >= ps.len() {
        Seq::empty()
    } else {
        wall_collisions(ps[k], k, b) + static_from(ps, b, k + 1)
    }
}

/// Every particle-wall contact, particles in index order, walls in the
/// fixed order top, right, bottom, left.
pub open spec fn detect_static_spec(ps: Seq<Particle>, b: Rectangle) -> Seq<StaticCollision> {
    static_from(ps, b, 0)
}

/// What resolution and correction need of a wall contact record.
pub open spec fn static_collision_valid(c: StaticCollision, ps: Seq<Particle>) -> bool {
    &&& c.index < ps.len()
    &&& (c.normal == normal_down() || c.normal == normal_left() || c.normal == normal_up()
        || c.normal == normal_right())
    &&& 0 < c.penetration <= 3 * FP_LIMIT
    &&& in_range(c.velocity)
}

pub open spec fn static_collisions_valid(cs: Seq<StaticCollision>, ps: Seq<Particle>) -> bool {
    forall|k: int| 0 <= k < cs.len() ==> static_collision_valid(#[trigger] cs[k], ps)
}

/// Phase two, boundary side: test every particle against the four
/// walls.
pub fn detect_static_collissions(particles: &Vec<Particle>, boundary: &Rectangle) -> (collisions:
    Vec<StaticCollision>)
    requires
        wf_particles(particles@),
        wf_rect(*boundary),
    ensures
        collisions@ == detect_static_spec(particles@, *boundary),
        static_collisions_valid(collisions@, particles@),
{
    let ghost ps = particles@;
    let ghost b = *boundary;
    let n = particles.len();
    let mut out: Vec<StaticCollision> = Vec::new();
    let mut k: usize = 0;
    while k < n
        invariant
            0 <= k <= n,
            n == ps.len(),
            ps == particles@,
            b == *boundary,
            wf_particles(ps),
            wf_rect(b),
            out@ + static_from(ps, b, k as int) == detect_static_spec(ps, b),
            static_collisions_valid(out@, ps),
        decreases n - k,
    {
        let p = particles[k];
        let ghost before = out@;
        let ghost walls = wall_collisions(ps[k as int], k as int, b);
        if p.position.y + p.radius > boundary.max.y {
            out.push(StaticCollision {
                index: k,
                normal: Vector2 { x: 0, y: -FP_SCALE },
                penetration: (p.position.y + p.radius) - boundary.max.y,
                velocity: p.velocity,
            });
        }
        if p.position.x + p.radius > boundary.max.x {
            out.push(StaticCollision {
                index: k,
                normal: Vector2 { x: -FP_SCALE, y: 0 },
                penetration: (p.position.x + p.radius) - boundary.max.x,
                velocity: p.velocity,
            });
        }
        if p.position.y - p.radius < boundary.min.y {
            out.push(StaticCollision {
                index: k,
                normal: Vector2 { x: 0, y: FP_SCALE },
                penetration: boundary.min.y - (p.position.y - p.radius),
                velocity: p.velocity,
            });
        }
        if p.position.x - p.radius < boundary.min.x {
            out.push(StaticCollision {
                index: k,
                normal: Vector2 { x: FP_SCALE, y: 0 },
                penetration: boundary.min.x - (p.position.x - p.radius),
                velocity: p.velocity,
            });
        }
        proof {
            assert(out@ =~= before + walls);
            assert(static_from(ps, b, k as int) == walls + static_from(ps, b, k + 1));
            assert(before + (walls + static_from(ps, b, k + 1)) =~= (before + walls)
                + static_from(ps, b, k + 1));
        }
        k = k + 1;
    }
    proof {
        assert(static_from(ps, b, n as int) == Seq::<StaticCollision>::empty());
        assert(out@ + static_from(ps, b, n as int) =~= out@);
    }
    out
}

/// The reduced mass of the two-body problem, on the fixed-point grid.
pub open spec fn reduced_mass(m1: i64, m2: i64) -> int {
    clip(tdiv(m1 * m2, m1 + m2))
}

fn reduced_mass_fp(m1: i64, m2: i64) -> (r: i64)
    requires
        0 < m1,
        0 < m2,
    ensures
        r as int == reduced_mass(m1, m2),
{
    proof {
        lemma_mul_magnitude(m1 as int, m2 as int, 0x8000_0000_0000_0000, 0x8000_0000_0000_0000);
    }
    clip128(tdiv128((m1 as i128) * (m2 as i128), m1 as i128 + m2 as i128))
}

/// The velocities after the impulse for one pair contact:
/// mass-weighted, scaled by the restitution, applied only when the pair
/// approaches along the contact normal.  Coincident centers leave the
/// velocities unchanged.
pub open spec fn impulse_velocities(
    p1: Particle,
    p2: Particle,
    v1s: Vector2,
    v2s: Vector2,
    e: i64,
) -> (Vector2, Vector2) {
    let dx = p2.position.x - p1.position.x;
    let dy = p2.position.y - p1.position.y;
    if dx == 0 && dy == 0 {
        (p1.velocity, p2.velocity)
    } else {
        let nx = unit_x(dx, dy);
        let ny = unit_y(dx, dy);
        let cc = clip(tdiv((v1s.x - v2s.x) * nx + (v1s.y - v2s.y) * ny, FP_SCALE as int));
        if cc <= 0 {
            (p1.velocity, p2.velocity)
        } else {
            let f = fmul(FP_SCALE + e, reduced_mass(p1.mass, p2.mass));
            let jimp = fmul(f, cc);
            let w1 = vclip(
                p1.velocity.x - tdiv(nx * jimp, p1.mass as int),
                p1.velocity.y - tdiv(ny * jimp, p1.mass as int),
            );
            let w2 = vclip(
                p2.velocity.x + tdiv(nx * jimp, p2.mass as int),
                p2.velocity.y + tdiv(ny * jimp, p2.mass as int),
            );
            (w1, w2)
        }
    }
}

/// Phase three, one contact: the impulse along the recomputed normal,
/// using the snapshot velocities of the contact record.
pub fn add_impulse(
    p1: &mut Particle,
    p2: &mut Particle,
    collision: &ParticleCollision,
    restitution: i64,
)
    requires
        wf_particle(*old(p1)),
        wf_particle(*old(p2)),
        in_range(collision.velocity1),
        in_range(collision.velocity2),
        wf_restitution(restitution),
    ensures
        *final(p1) == (Particle {
            velocity: impulse_velocities(
                *old(p1),
                *old(p2),
                collision.velocity1,
                collision.velocity2,
                restitution,
            ).0,
            ..*old(p1)
        }),
        *final(p2) == (Particle {
            velocity: impulse_velocities(
                *old(p1),
                *old(p2),
                collision.velocity1,
                collision.velocity2,
                restitution,
            ).1,
            ..*old(p2)
        }),
        wf_particle(*final(p1)),
        wf_particle(*final(p2)),
{
    let dx: i64 = p2.position.x - p1.position.x;
    let dy: i64 = p2.position.y - p1.position.y;
    if dx == 0 && dy == 0 {
        return ;
    }
    let n = unit_toward(dx, dy);
    let relx: i128 = collision.velocity1.x as i128 - collision.velocity2.x as i128;
    let rely: i128 = collision.velocity1.y as i128 - collision.velocity2.y as i128;
    proof {
        lemma_mul_magnitude(relx as int, n.x as int, 0x40_0000_0000_0000, 100_000_000);
        lemma_mul_magnitude(rely as int, n.y as int, 0x40_0000_0000_0000, 100_000_000);
    }
    let cc: i64 = clip128(tdiv128(relx * (n.x as i128) + rely * (n.y as i128), FP_SCALE as i128));
    if cc <= 0 {
        return ;
    }
    let mu = reduced_mass_fp(p1.mass, p2.mass);
    let f = fp_mul(FP_SCALE + restitution, mu);
    let jimp = fp_mul(f, cc);
    proof {
        lemma_mul_magnitude(n.x as int, jimp as int, 100_000_000, 0x20_0000_0000_0000);
        lemma_mul_magnitude(n.y as int, jimp as int, 100_000_000, 0x20_0000_0000_0000);
    }
    let d1x: i128 = tdiv128((n.x as i128) * (jimp as i128), p1.mass as i128);
    let d1y: i128 = tdiv128((n.y as i128) * (jimp as i128), p1.mass as i128);
    let d2x: i128 = tdiv128((n.x as i128) * (jimp as i128), p2.mass as i128);
    let d2y: i128 = tdiv128((n.y as i128) * (jimp as i128), p2.mass as i128);
    p1.velocity = Vector2 {
        x: clip128(p1.velocity.x as i128 - d1x),
        y: clip128(p1.velocity.y as i128 - d1y),
    };
    p2.velocity = Vector2 {
        x: clip128(p2.velocity.x as i128 + d2x),
        y: clip128(p2.velocity.y as i128 + d2y),
    };
}

pub open spec fn apply_impulse(ps: Seq<Particle>, c: ParticleCollision, e: i64) -> Seq<Particle> {
    let p1 = ps[c.i as int];
    let p2 = ps[c.j as int];
    let w = impulse_velocities(p1, p2, c.velocity1, c.velocity2, e);
    ps.update(c.i as int, Particle { velocity: w.0, ..p1 }).update(
        c.j as int,
        Particle { velocity: w.1, ..p2 },
    )
}

/// The pair impulses, applied in detection order.
pub open spec fn resolve_pairs_spec(
    ps: Seq<Particle>,
    cs: Seq<ParticleCollision>,
    e: i64,
) -> Seq<Particle>
    decreases cs.len(),
{
    if cs.len() == 0 {
        ps
    } else {
        resolve_pairs_spec(apply_impulse(ps, cs[0], e), cs.drop_first(), e)
    }
}

/// Phase three of a step: apply every pair impulse, in detection order,
/// each from the snapshot velocities in its contact record.
pub fn resolve_particle_collisions(
    particles: &mut Vec<Particle>,
    collisions: &Vec<ParticleCollision>,
    restitution: i64,
)
    requires
        wf_particles(old(particles)@),
        pair_collisions_valid(collisions@, old(particles)@),
        wf_restitution(restitution),
    ensures
        final(particles)@ == resolve_pairs_spec(old(particles)@, collisions@, restitution),
        final(particles)@.len() == old(particles)@.len(),
        wf_particles(final(particles)@),
{
    let ghost cs = collisions@;
    let ghost total = resolve_pairs_spec(old(particles)@, cs, restitution);
    proof {
        assert(cs.skip(0) =~= cs);
    }
    let m = collisions.len();
    let mut k: usize = 0;
    while k < m
        invariant
            0 <= k <= m,
            m == cs.len(),
            cs == collisions@,
            particles@.len() == old(particles)@.len(),
            wf_particles(particles@),
            pair_collisions_valid(cs, particles@),
            wf_restitution(restitution),
            resolve_pairs_spec(particles@, cs.skip(k as int), restitution) == total,
        decreases m - k,
    {
        let ghost before = particles@;
        let c = collisions[k];
        let mut a = particles[c.i];
        let mut b = particles[c.j];
        add_impulse(&mut a, &mut b, &c, restitution);
        particles[c.i] = a;
        particles[c.j] = b;
        proof {
            assert(particles@ =~= apply_impulse(before, c, restitution));
            assert(cs.skip(k as int)[0] == cs[k as int]);
            assert(cs.skip(k as int).drop_first() =~= cs.skip(k + 1));
        }
        k = k + 1;
    }
    proof {
        assert(cs.skip(m as int) =~= Seq::<ParticleCollision>::empty());
    }
}

/// The velocity after a wall impulse: the normal component, scaled by
/// one plus the restitution, is removed (a reflection with damping).
pub open spec fn static_resolved_velocity(v: Vector2, n: Vector2, vs: Vector2, e: i64) -> Vector2 {
    let cc = clip(tdiv(dot_raw(n, vs), FP_SCALE as int));
    let f = fmul(FP_SCALE + e, cc);
    vclip(v.x - tdiv(n.x * f, FP_SCALE as int), v.y - tdiv(n.y * f, FP_SCALE as int))
}

/// The wall is an infinite-mass impulse partner: the impulse applies
/// only while the snapshot velocity still points into the wall; a
/// contact already separating along the interior normal is skipped.
pub open spec fn apply_static_impulse(ps: Seq<Particle>, c: StaticCollision, e: i64) -> Seq<
    Particle,
> {
    let p = ps[c.index as int];
    if dot_raw(c.normal, c.velocity) >= 0 {
        ps
    } else {
        ps.update(
            c.index as int,
            Particle {
                velocity: static_resolved_velocity(p.velocity, c.normal, c.velocity, e),
                ..p
            },
        )
    }
}

pub open spec fn resolve_static_spec(
    ps: Seq<Particle>,
    cs: Seq<StaticCollision>,
    e: i64,
) -> Seq<Particle>
    decreases cs.len(),
{
    if cs.len() == 0 {
        ps
    } else {
        resolve_static_spec(apply_static_impulse(ps, cs[0], e), cs.drop_first(), e)
    }
}

/// Phase four of a step: reflect velocities off the walls, in detection
/// order, each from the snapshot velocity in its contact record; a
/// contact whose snapshot velocity no longer approaches the wall gets
/// no impulse.
pub fn resolve_static_collisions(
    particles: &mut Vec<Particle>,
    collisions: &Vec<StaticCollision>,
    restitution: i64,
)
    requires
        wf_particles(old(particles)@),
        static_collisions_valid(collisions@, old(particles)@),
        wf_restitution(restitution),
    ensures
        final(particles)@ == resolve_static_spec(old(particles)@, collisions@, restitution),
        final(particles)@.len() == old(particles)@.len(),
        wf_particles(final(particles)@),
{
    let ghost cs = collisions@;
    let ghost total = resolve_static_spec(old(particles)@, cs, restitution);
    proof {
        assert(cs.skip(0) =~= cs);
    }
    let m = collisions.len();
    let mut k: usize = 0;
    while k < m
        invariant
            0 <= k <= m,
            m == cs.len(),
            cs == collisions@,
            particles@.len() == old(particles)@.len(),
            wf_particles(particles@),
            static_collisions_valid(cs, particles@),
            wf_restitution(restitution),
            resolve_static_spec(particles@, cs.skip(k as int), restitution) == total,
        decreases m - k,
    {
        let ghost before = particles@;
        let c = collisions[k];
        let p = particles[c.index];
        proof {
            lemma_mul_magnitude(c.normal.x as int, c.velocity.x as int, 100_000_000, 0x20_0000_0000_0000);
            lemma_mul_magnitude(c.normal.y as int, c.velocity.y as int, 100_000_000, 0x20_0000_0000_0000);
        }
        let d: i128 = (c.normal.x as i128) * (c.velocity.x as i128) + (c.normal.y as i128) * (
        c.velocity.y as i128);
        if d < 0 {
            let cc: i64 = clip128(tdiv128(d, FP_SCALE as i128));
            let f = fp_mul(FP_SCALE + restitution, cc);
            proof {
                lemma_mul_magnitude(c.normal.x as int, f as int, 100_000_000, 0x20_0000_0000_0000);
                lemma_mul_magnitude(c.normal.y as int, f as int, 100_000_000, 0x20_0000_0000_0000);
            }
            let dx: i128 = tdiv128((c.normal.x as i128) * (f as i128), FP_SCALE as i128);
            let dy: i128 = tdiv128((c.normal.y as i128) * (f as i128), FP_SCALE as i128);
            let w = Vector2 { x: clip128(p.velocity.x as i128 - dx), y: clip128(
                p.velocity.y as i128 - dy,
            ) };
            particles[c.index] = Particle { velocity: w, ..p };
            proof {
                assert(w == static_resolved_velocity(p.velocity, c.normal, c.velocity, restitution));
                assert(particles@ =~= apply_static_impulse(before, c, restitution));
            }
        } else {
            proof {
                assert(particles@ =~= apply_static_impulse(before, c, restitution));
            }
        }
        proof {
            assert(cs.skip(k as int)[0] == cs[k as int]);
            assert(cs.skip(k as int).drop_first() =~= cs.skip(k + 1));
        }
        k = k + 1;
    }
    proof {
        assert(cs.skip(m as int) =~= Seq::<StaticCollision>::empty());
    }
}

/// The position after a wall correction: pushed out along the wall
/// normal by the full penetration (the wall absorbs none of it).
pub open spec fn apply_static_correction(ps: Seq<Particle>, c: StaticCollision) -> Seq<Particle> {
    let p = ps[c.index as int];
    let pos = vclip(
        p.position.x + tdiv(c.normal.x * c.penetration, FP_SCALE as int),
        p.position.y + tdiv(c.normal.y * c.penetration, FP_SCALE as int),
    );
    ps.update(c.index as int, Particle { position: pos, ..p })
}

pub open spec fn correct_static_spec(ps: Seq<Particle>, cs: Seq<StaticCollision>) -> Seq<Particle>
    decreases cs.len(),
{
    if cs.len() == 0 {
        ps
    } else {
        correct_static_spec(apply_static_correction(ps, cs[0]), cs.drop_first())
    }
}

/// Phase five of a step: push every penetrating particle back out of
/// its wall, in detection order.
pub fn correct_static_positions(particles: &mut Vec<Particle>, collisions: &Vec<StaticCollision>)
    requires
        wf_particles(old(particles)@),
        static_collisions_valid(collisions@, old(particles)@),
    ensures
        final(particles)@ == correct_static_spec(old(particles)@, collisions@),
        final(particles)@.len() == old(particles)@.len(),
        wf_particles(final(particles)@),
{
    let ghost cs = collisions@;
    let ghost total = correct_static_spec(old(particles)@, cs);
    proof {
        assert(cs.skip(0) =~= cs);
    }
    let m = collisions.len();
    let mut k: usize = 0;
    while k < m
        invariant
            0 <= k <= m,
            m == cs.len(),
            cs == collisions@,
            particles@.len() == old(particles)@.len(),
            wf_particles(particles@),
            static_collisions_valid(cs, particles@),
            correct_static_spec(particles@, cs.skip(k as int)) == total,
        decreases m - k,
    {
        let ghost before = particles@;
        let c = collisions[k];
        let p = particles[c.index];
        proof {
            lemma_mul_magnitude(c.normal.x as int, c.penetration as int, 100_000_000, 0x60_0000_0000_0000);
            lemma_mul_magnitude(c.normal.y as int, c.penetration as int, 100_000_000, 0x60_0000_0000_0000);
        }
        let dx: i128 = tdiv128((c.normal.x as i128) * (c.penetration as i128), FP_SCALE as i128);
        let dy: i128 = tdiv128((c.normal.y as i128) * (c.penetration as i128), FP_SCALE as i128);
        let pos = Vector2 { x: clip128(p.position.x as i128 + dx), y: clip128(
            p.position.y as i128 + dy,
        ) };
        particles[c.index] = Particle { position: pos, ..p };
        proof {
            assert(particles@ =~= apply_static_correction(before, c));
            assert(cs.skip(k as int)[0] == cs[k as int]);
            assert(cs.skip(k as int).drop_first() =~= cs.skip(k + 1));
        }
        k = k + 1;
    }
    proof {
        assert(cs.skip(m as int) =~= Seq::<StaticCollision>::empty());
    }
}

/// The positions after one pair correction: the penetration, split by
/// inverse mass, pushes the two centers apart along the contact normal.
pub open spec fn apply_pair_correction(ps: Seq<Particle>, c: ParticleCollision) -> Seq<Particle> {
    if c.penetration <= 0 {
        ps
    } else {
        let p1 = ps[c.i as int];
        let p2 = ps[c.j as int];
        let cm = fmul(c.penetration as int, reduced_mass(p1.mass, p2.mass));
        let cx = fmul(c.normal.x as int, cm);
        let cy = fmul(c.normal.y as int, cm);
        let pos1 = vclip(
            p1.position.x + fdiv(cx, p1.mass as int),
            p1.position.y + fdiv(cy, p1.mass as int),
        );
        let pos2 = vclip(
            p2.position.x - fdiv(cx, p2.mass as int),
            p2.position.y - fdiv(cy, p2.mass as int),
        );
        ps.update(c.i as int, Particle { position: pos1, ..p1 }).update(
            c.j as int,
            Particle { position: pos2, ..p2 },
        )
    }
}

pub open spec fn correct_pairs_spec(ps: Seq<Particle>, cs: Seq<ParticleCollision>) -> Seq<Particle>
    decreases cs.len(),
{
    if cs.len() == 0 {
        ps
    } else {
        correct_pairs_spec(apply_pair_correction(ps, cs[0]), cs.drop_first())
    }
}

/// Phase six of a step: separate every penetrating pair, splitting the
/// correction by inverse mass.
pub fn correct_particle_positions(
    particles: &mut Vec<Particle>,
    collisions: &Vec<ParticleCollision>,
)
    requires
        wf_particles(old(particles)@),
        pair_collisions_valid(collisions@, old(particles)@),
    ensures
        final(particles)@ == correct_pairs_spec(old(particles)@, collisions@),
        final(particles)@.len() == old(particles)@.len(),
        wf_particles(final(particles)@),
{
    let ghost cs = collisions@;
    let ghost total = correct_pairs_spec(old(particles)@, cs);
    proof {
        assert(cs.skip(0) =~= cs);
    }
    let m = collisions.len();
    let mut k: usize = 0;
    while k < m
        invariant
            0 <= k <= m,
            m == cs.len(),
            cs == collisions@,
            particles@.len() == old(particles)@.len(),
            wf_particles(particles@),
            pair_collisions_valid(cs, particles@),
            correct_pairs_spec(particles@, cs.skip(k as int)) == total,
        decreases m - k,
    {
        let ghost before = particles@;
        let c = collisions[k];
        if c.penetration > 0 {
            let p1 = particles[c.i];
            let p2 = particles[c.j];
            let mu = reduced_mass_fp(p1.mass, p2.mass);
            let cm = fp_mul(c.penetration, mu);
            let cx = fp_mul(c.normal.x, cm);
            let cy = fp_mul(c.normal.y, cm);
            let pos1 = Vector2 {
                x: fp_add(p1.position.x, fp_div(cx, p1.mass)),
                y: fp_add(p1.position.y, fp_div(cy, p1.mass)),
            };
            let pos2 = Vector2 {
                x: fp_sub(p2.position.x, fp_div(cx, p2.mass)),
                y: fp_sub(p2.position.y, fp_div(cy, p2.mass)),
            };
            particles[c.i] = Particle { position: pos1, ..p1 };
            particles[c.j] = Particle { position: pos2, ..p2 };
            proof {
                assert(particles@ =~= apply_pair_correction(before, c));
            }
        } else {
            proof {
                assert(particles@ =~= apply_pair_correction(before, c));
            }
        }
        proof {
            assert(cs.skip(k as int)[0] == cs[k as int]);
            assert(cs.skip(k as int).drop_first() =~= cs.skip(k + 1));
        }
        k = k + 1;
    }
    proof {
        assert(cs.skip(m as int) =~= Seq::<ParticleCollision>::empty());
    }
}

/// One full step: integrate, detect, resolve pair and wall impulses,
/// then correct wall and pair penetrations, in that fixed order.  The
/// pair corrections run after the wall pass, so one can push a
/// particle marginally back past a wall; such an overshoot is
/// transient, and the next step's wall correction restores containment
/// (see `lemma_wall_correction_restores`).
pub open spec fn step_particles(
    ps: Seq<Particle>,
    b: Rectangle,
    g: Vector2,
    e: i64,
    dt: i64,
) -> Seq<Particle> {
    let ps1 = integrate_all(ps, g, dt);
    let pcs = detect_pairs_spec(ps1);
    let scs = detect_static_spec(ps1, b);
    let ps2 = resolve_pairs_spec(ps1, pcs, e);
    let ps3 = resolve_static_spec(ps2, scs, e);
    let ps4 = correct_static_spec(ps3, scs);
    correct_pairs_spec(ps4, pcs)
}

impl Simulation {
    /// Advance the simulation by `dt`.  The new particle state is a
    /// pure function of the old state, so runs with equal starting
    /// states stay identical step for step.
    pub fn update(&mut self, dt: i64)
        requires
            wf_sim(*old(self)),
        ensures
            wf_sim(*final(self)),
            final(self).particles@ == step_particles(
                old(self).particles@,
                old(self).boundary,
                old(self).gravity,
                old(self).restitution,
                dt,
            ),
            final(self).particles@.len() == old(self).particles@.len(),
            final(self).boundary == old(self).boundary,
            final(self).gravity == old(self).gravity,
            final(self).restitution == old(self).restitution,
            final(self).view == old(self).view,
            final(self).window_width == old(self).window_width,
            final(self).window_height == old(self).window_height,
            final(self).trails == old(self).trails,
    {
        integrate(&mut self.particles, self.gravity, dt);
        let p_collisions = detect_particle_collissions(&self.particles);
        let s_collisions = detect_static_collissions(&self.particles, &self.boundary);
        resolve_particle_collisions(&mut self.particles, &p_collisions, self.restitution);
        resolve_static_collisions(&mut self.particles, &s_collisions, self.restitution);
        correct_static_positions(&mut self.particles, &s_collisions);
        correct_particle_positions(&mut self.particles, &p_collisions);
    }
}

/// The particle state after `n` fixed steps.
pub open spec fn run_spec(
    ps: Seq<Particle>,
    b: Rectangle,
    g: Vector2,
    e: i64,
    dt: i64,
    n: nat,
) -> Seq<Particle>
    decreases n,
{
    if n == 0 {
        ps
    } else {
        run_spec(step_particles(ps, b, g, e, dt), b, g, e, dt, (n - 1) as nat)
    }
}

/// Running one step more means stepping the state reached so far.
pub proof fn lemma_run_spec_snoc(
    ps: Seq<Particle>,
    b: Rectangle,
    g: Vector2,
    e: i64,
    dt: i64,
    n: nat,
)
    ensures
        run_spec(ps, b, g, e, dt, n + 1) == step_particles(run_spec(ps, b, g, e, dt, n), b, g, e, dt),
    decreases n,
{
    if n == 0 {
        assert(run_spec(ps, b, g, e, dt, 1) == run_spec(step_particles(ps, b, g, e, dt), b, g, e, dt, 0));
        assert(run_spec(step_particles(ps, b, g, e, dt), b, g, e, dt, 0) == step_particles(ps, b, g, e, dt));
    } else {
        lemma_run_spec_snoc(step_particles(ps, b, g, e, dt), b, g, e, dt, (n - 1) as nat);
        assert(run_spec(ps, b, g, e, dt, n + 1) == run_spec(step_particles(ps, b, g, e, dt), b, g, e, dt, n));
    }
}

/// Determinism: each step is a function of the state alone, so two
/// runs of the same length from equal states, with equal boundary,
/// gravity, restitution and time step, end in equal states.
pub proof fn lemma_run_deterministic(
    ps1: Seq<Particle>,
    ps2: Seq<Particle>,
    b: Rectangle,
    g: Vector2,
    e: i64,
    dt: i64,
    n: nat,
)
    requires
        ps1 == ps2,
    ensures
        run_spec(ps1, b, g, e, dt, n) == run_spec(ps2, b, g, e, dt, n),
{
}

/// A wall's positional correction lands the particle exactly on the
/// wall margin, and leaves the other axis alone: the boundary
/// containment guarantee, one contact at a time.
pub proof fn lemma_wall_correction_restores(ps: Seq<Particle>, c: StaticCollision, b: Rectangle)
    requires
        wf_particles(ps),
        wf_rect(b),
        c.index < ps.len(),
        2 * ps[c.index as int].radius <= b.max.x - b.min.x,
        2 * ps[c.index as int].radius <= b.max.y - b.min.y,
        c.normal == normal_up() ==> c.penetration == b.min.y - (ps[c.index as int].position.y
            - ps[c.index as int].radius) && c.penetration > 0,
        c.normal == normal_down() ==> c.penetration == ps[c.index as int].position.y + ps[
            c.index as int
        ].radius - b.max.y && c.penetration > 0,
        c.normal == normal_right() ==> c.penetration == b.min.x - (ps[c.index as int].position.x
            - ps[c.index as int].radius) && c.penetration > 0,
        c.normal == normal_left() ==> c.penetration == ps[c.index as int].position.x + ps[
            c.index as int
        ].radius - b.max.x && c.penetration > 0,
    ensures
        ({
            let p = ps[c.index as int];
            let q = apply_static_correction(ps, c)[c.index as int];
            &&& (c.normal == normal_up() ==> q.position.y == b.min.y + p.radius && q.position.x
                == p.position.x)
            &&& (c.normal == normal_down() ==> q.position.y == b.max.y - p.radius && q.position.x
                == p.position.x)
            &&& (c.normal == normal_right() ==> q.position.x == b.min.x + p.radius && q.position.y
                == p.position.y)
            &&& (c.normal == normal_left() ==> q.position.x == b.max.x - p.radius && q.position.y
                == p.position.y)
        }),
{
    let p = ps[c.index as int];
    let pen = c.penetration as int;
    if c.normal == normal_up() || c.normal == normal_down() || c.normal == normal_right()
        || c.normal == normal_left() {
        assert(pen > 0);
        crate::fixed::lemma_tdiv_multiple(pen, FP_SCALE as int);
        assert(tdiv(100_000_000 * pen, 100_000_000) == pen);
        assert(tdiv(0 * pen, FP_SCALE as int) == 0) by {
            assert(0 * pen == 0) by (nonlinear_arith);
            vstd::arithmetic::div_mod::lemma_div_of0(FP_SCALE as int);
        }
        assert((-100_000_000) * pen == -(100_000_000 * pen)) by (nonlinear_arith);
    }
}

impl Simulation {
    /// Advance by `steps` fixed steps: the catch-up loop a host frame
    /// loop runs when frame time has accumulated.
    pub fn run(&mut self, dt: i64, steps: usize)
        requires
            wf_sim(*old(self)),
        ensures
            wf_sim(*final(self)),
            final(self).particles@ == run_spec(
                old(self).particles@,
                old(self).boundary,
                old(self).gravity,
                old(self).restitution,
                dt,
                steps as nat,
            ),
            final(self).boundary == old(self).boundary,
            final(self).gravity == old(self).gravity,
            final(self).restitution == old(self).restitution,
            final(self).view == old(self).view,
            final(self).window_width == old(self).window_width,
            final(self).window_height == old(self).window_height,
            final(self).trails == old(self).trails,
    {
        let ghost ps0 = self.particles@;
        let ghost b = self.boundary;
        let ghost g = self.gravity;
        let ghost e = self.restitution;
        let mut i: usize = 0;
        while i < steps
            invariant
                0 <= i <= steps,
                wf_sim(*self),
                self.particles@ == run_spec(ps0, b, g, e, dt, i as nat),
                self.boundary == b,
                self.gravity == g,
                self.restitution == e,
                self.view == old(self).view,
                self.window_width == old(self).window_width,
                self.window_height == old(self).window_height,
                self.trails == old(self).trails,
                b == old(self).boundary,
                g == old(self).gravity,
                e == old(self).restitution,
                ps0 == old(self).particles@,
            decreases steps - i,
        {
            self.update(dt);
            proof {
                lemma_run_spec_snoc(ps0, b, g, e, dt, i as nat);
            }
            i = i + 1;
        }
    }
}

} // verus!
