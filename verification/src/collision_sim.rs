//! The early collision prototype: no impulse bookkeeping, just a
//! damped reflection of each partner's velocity at the contact, and
//! per-particle wall bounces folded into the integration loop.  The
//! impulse-based `simulation` module supersedes it; this variant keeps
//! the reflect-with-damping response.

use vstd::prelude::*;
use crate::fixed::{clip, clip128, fp_mul, lemma_mul_magnitude, tdiv, tdiv128, FP_SCALE};
use crate::geometry::{wf_particle, wf_rect, Particle, ParticleCollision, Rectangle};
use crate::simulation::{
    detect_pairs_spec, detect_particle_collissions, integrate_particle, pair_collisions_valid,
    static_resolved_velocity, wf_particles, wf_restitution,
};
use crate::vector2::{in_range, vclip, Vector2};

verus! {

/// Reflect `v` off a plane with unit normal `n`, keeping the
/// tangential part and returning the normal part scaled by the
/// restitution: the equal-and-opposite wall response.
pub fn reflect_with_damping(v: Vector2, n: Vector2, restitution: i64) -> (r: Vector2)
    requires
        in_range(v),
        -FP_SCALE <= n.x <= FP_SCALE,
        -FP_SCALE <= n.y <= FP_SCALE,
        wf_restitution(restitution),
    ensures
        r == static_resolved_velocity(v, n, v, restitution),
        in_range(r),
{
    proof {
        lemma_mul_magnitude(n.x as int, v.x as int, 100_000_000, 0x20_0000_0000_0000);
        lemma_mul_magnitude(n.y as int, v.y as int, 100_000_000, 0x20_0000_0000_0000);
    }
    let cc: i64 = clip128(tdiv128(
        (n.x as i128) * (v.x as i128) + (n.y as i128) * (v.y as i128),
        FP_SCALE as i128,
    ));
    let f = fp_mul(FP_SCALE + restitution, cc);
    proof {
        lemma_mul_magnitude(n.x as int, f as int, 100_000_000, 0x20_0000_0000_0000);
        lemma_mul_magnitude(n.y as int, f as int, 100_000_000, 0x20_0000_0000_0000);
    }
    let dx: i128 = tdiv128((n.x as i128) * (f as i128), FP_SCALE as i128);
    let dy: i128 = tdiv128((n.y as i128) * (f as i128), FP_SCALE as i128);
    Vector2 { x: clip128(v.x as i128 - dx), y: clip128(v.y as i128 - dy) }
}

/// One contact resolved by damped reflection of both partners, using
/// their live velocities; a pair already separating is left alone.
pub open spec fn apply_reflect(ps: Seq<Particle>, c: ParticleCollision, e: i64) -> Seq<Particle> {
    let p1 = ps[c.i as int];
    let p2 = ps[c.j as int];
    let n = vclip(-c.normal.x, -c.normal.y);
    let s = clip(
        tdiv(
            (p2.velocity.x - p1.velocity.x) * n.x + (p2.velocity.y - p1.velocity.y) * n.y,
            FP_SCALE as int,
        ),
    );
    if s >= 0 {
        ps
    } else {
        ps.update(
            c.i as int,
            Particle { velocity: static_resolved_velocity(p1.velocity, n, p1.velocity, e), ..p1 },
        ).update(
            c.j as int,
            Particle {
                velocity: static_resolved_velocity(p2.velocity, c.normal, p2.velocity, e),
                ..p2
            },
        )
    }
}

pub open spec fn reflect_pairs_spec(
    ps: Seq<Particle>,
    cs: Seq<ParticleCollision>,
    e: i64,
) -> Seq<Particle>
    decreases cs.len(),
{
    if cs.len() == 0 {
        ps
    } else {
        reflect_pairs_spec(apply_reflect(ps, cs[0], e), cs.drop_first(), e)
    }
}

/// Detect all touching pairs and resolve each by damped reflection, in
/// detection order, on live velocities.
pub fn circle_collissions(circles: &mut Vec<Particle>, restitution: i64)
    requires
        wf_particles(old(circles)@),
        wf_restitution(restitution),
    ensures
        final(circles)@ == reflect_pairs_spec(
            old(circles)@,
            detect_pairs_spec(old(circles)@),
            restitution,
        ),
        final(circles)@.len() == old(circles)@.len(),
        wf_particles(final(circles)@),
{
    let collisions = detect_particle_collissions(circles);
    let ghost cs = collisions@;
    let ghost total = reflect_pairs_spec(circles@, cs, restitution);
    proof {
        assert(cs.skip(0) =~= cs);
    }
    let m = collisions.len();
    let mut k: usize = 0;
    while k < m
        invariant
            0 <= k <= m,
            m == cs.len(),
            cs == collisions@,
            circles@.len() == old(circles)@.len(),
            wf_particles(circles@),
            pair_collisions_valid(cs, circles@),
            wf_restitution(restitution),
            reflect_pairs_spec(circles@, cs.skip(k as int), restitution) == total,
        decreases m - k,
    {
        let ghost before = circles@;
        let c = collisions[k];
        let p1 = circles[c.i];
        let p2 = circles[c.j];
        let n = Vector2 { x: -c.normal.x, y: -c.normal.y };
        proof {
            lemma_mul_magnitude(
                p2.velocity.x - p1.velocity.x,
                n.x as int,
                0x40_0000_0000_0000,
                100_000_000,
            );
            lemma_mul_magnitude(
                p2.velocity.y - p1.velocity.y,
                n.y as int,
                0x40_0000_0000_0000,
                100_000_000,
            );
        }
        let s: i64 = clip128(tdiv128(
            (p2.velocity.x as i128 - p1.velocity.x as i128) * (n.x as i128) + (p2.velocity.y
                as i128 - p1.velocity.y as i128) * (n.y as i128),
            FP_SCALE as i128,
        ));
        if s < 0 {
            let w1 = reflect_with_damping(p1.velocity, n, restitution);
            let w2 = reflect_with_damping(p2.velocity, c.normal, restitution);
            circles[c.i] = Particle { velocity: w1, ..p1 };
            circles[c.j] = Particle { velocity: w2, ..p2 };
        }
        proof {
            assert(circles@ =~= apply_reflect(before, c, restitution));
            assert(cs.skip(k as int)[0] == cs[k as int]);
            assert(cs.skip(k as int).drop_first() =~= cs.skip(k + 1));
        }
        k = k + 1;
    }
    proof {
        assert(cs.skip(m as int) =~= Seq::<ParticleCollision>::empty());
    }
}

/// The wall bounces of the early prototype, folded left to right over
/// bottom, right, left and top wall: within one grid unit of a wall
/// the velocity is reflected with damping, and a particle past the
/// wall is set back onto it.  On this grid the prototype's tiny rest
/// threshold is the integer zero itself, so no separate velocity snap
/// is needed.
pub open spec fn boundary_bounce(p: Particle, b: Rectangle, e: i64) -> Particle {
    let p1 = if p.position.y - p.radius - b.min.y < 1 {
        Particle {
            velocity: static_resolved_velocity(
                p.velocity,
                crate::simulation::normal_up(),
                p.velocity,
                e,
            ),
            position: Vector2 {
                x: p.position.x,
                y: if p.position.y - p.radius < b.min.y {
                    crate::fixed::clip64(b.min.y + p.radius)
                } else {
                    p.position.y
                },
            },
            ..p
        }
    } else {
        p
    };
    let p2 = if b.max.x - (p1.position.x + p1.radius) < 1 {
        Particle {
            velocity: static_resolved_velocity(
                p1.velocity,
                crate::simulation::normal_left(),
                p1.velocity,
                e,
            ),
            position: Vector2 {
                x: if b.max.x - (p1.position.x + p1.radius) < 0 {
                    crate::fixed::clip64(b.max.x - p1.radius)
                } else {
                    p1.position.x
                },
                y: p1.position.y,
            },
            ..p1
        }
    } else {
        p1
    };
    let p3 = if p2.position.x - p2.radius - b.min.x < 1 {
        Particle {
            velocity: static_resolved_velocity(
                p2.velocity,
                crate::simulation::normal_right(),
                p2.velocity,
                e,
            ),
            position: Vector2 {
                x: if p2.position.x - p2.radius < b.min.x {
                    crate::fixed::clip64(b.min.x + p2.radius)
                } else {
                    p2.position.x
                },
                y: p2.position.y,
            },
            ..p2
        }
    } else {
        p2
    };
    if b.max.y - (p3.position.y + p3.radius) < 1 {
        Particle {
            velocity: static_resolved_velocity(
                p3.velocity,
                crate::simulation::normal_down(),
                p3.velocity,
                e,
            ),
            position: Vector2 {
                x: p3.position.x,
                y: if b.max.y - (p3.position.y + p3.radius) < 0 {
                    crate::fixed::clip64(b.max.y - p3.radius)
                } else {
                    p3.position.y
                },
            },
            ..p3
        }
    } else {
        p3
    }
}

/// Bounce one particle off the walls it presses against.
pub fn boundary_collision(c: &mut Particle, boundery: Rectangle, restitution: i64)
    requires
        wf_particle(*old(c)),
        wf_rect(boundery),
        wf_restitution(restitution),
    ensures
        *final(c) == boundary_bounce(*old(c), boundery, restitution),
        wf_particle(*final(c)),
{
    if c.position.y - c.radius - boundery.min.y < 1 {
        c.velocity = reflect_with_damping(
            c.velocity,
            Vector2 { x: 0, y: FP_SCALE },
            restitution,
        );
        if c.position.y - c.radius < boundery.min.y {
            c.position.y = clip128(boundery.min.y as i128 + c.radius as i128);
        }
    }
    if boundery.max.x - (c.position.x + c.radius) < 1 {
        c.velocity = reflect_with_damping(
            c.velocity,
            Vector2 { x: -FP_SCALE, y: 0 },
            restitution,
        );
        if boundery.max.x - (c.position.x + c.radius) < 0 {
            c.position.x = clip128(boundery.max.x as i128 - c.radius as i128);
        }
    }
    if c.position.x - c.radius - boundery.min.x < 1 {
        c.velocity = reflect_with_damping(
            c.velocity,
            Vector2 { x: FP_SCALE, y: 0 },
            restitution,
        );
        if c.position.x - c.radius < boundery.min.x {
            c.position.x = clip128(boundery.min.x as i128 + c.radius as i128);
        }
    }
    if boundery.max.y - (c.position.y + c.radius) < 1 {
        c.velocity = reflect_with_damping(
            c.velocity,
            Vector2 { x: 0, y: -FP_SCALE },
            restitution,
        );
        if boundery.max.y - (c.position.y + c.radius) < 0 {
            c.position.y = clip128(boundery.max.y as i128 - c.radius as i128);
        }
    }
}

pub struct CollisionSimulation {
    pub window_width: u32,
    pub window_height: u32,
    pub view: Rectangle,
    pub circles: Vec<Particle>,
    pub boundary: Rectangle,
    pub restitution: i64,
}

pub open spec fn wf_collision_sim(s: CollisionSimulation) -> bool {
    &&& wf_rect(s.boundary)
    &&& wf_restitution(s.restitution)
    &&& wf_particles(s.circles@)
}

/// The gravity the prototype hardcoded.
pub open spec fn prototype_gravity() -> Vector2 {
    Vector2 { x: 0i64, y: -10_000_000i64 }
}

impl CollisionSimulation {
    pub fn new() -> (s: CollisionSimulation)
        ensures
            wf_collision_sim(s),
            s.window_width == 800,
            s.window_height == 400,
            s.circles@.len() == 0,
            s.boundary == (Rectangle {
                min: Vector2 { x: 0i64, y: 0i64 },
                max: Vector2 { x: 200_000_000i64, y: 100_000_000i64 },
            }),
            s.view == s.boundary,
            s.restitution == 95_000_000i64,
    {
        CollisionSimulation {
            window_width: 800,
            window_height: 400,
            circles: Vec::new(),
            view: Rectangle {
                min: Vector2 { x: 0, y: 0 },
                max: Vector2 { x: 200_000_000, y: 100_000_000 },
            },
            boundary: Rectangle {
                min: Vector2 { x: 0, y: 0 },
                max: Vector2 { x: 200_000_000, y: 100_000_000 },
            },
            restitution: 95_000_000,
        }
    }

    /// Fill the box with a hundred circles at random positions, with
    /// random slow velocities.  Spawn positions may overlap; the first
    /// steps push overlapping circles apart.
    pub fn initialize(&mut self, rng: &mut rand_pcg::Pcg64Mcg)
        requires
            wf_collision_sim(*old(self)),
            old(self).boundary == (Rectangle {
                min: Vector2 { x: 0i64, y: 0i64 },
                max: Vector2 { x: 200_000_000i64, y: 100_000_000i64 },
            }),
        ensures
            wf_collision_sim(*final(self)),
            final(self).circles@.len() == 100,
            final(self).boundary == old(self).boundary,
            final(self).restitution == old(self).restitution,
            forall|k: int|
                0 <= k < 100 ==> {
                    let p = #[trigger] final(self).circles@[k];
                    &&& p.radius == 2_000_000
                    &&& p.mass as int == crate::simulation_factory::disk_mass(2_000_000)
                    &&& 2_000_001 <= p.position.x < 198_000_001
                    &&& 2_000_001 <= p.position.y < 100_000_000
                    &&& crate::vector2::norm_sq(p.velocity) <= 10_000_000 * 10_000_000
                },
    {
        let radius: i64 = 2_000_000;
        let mass = crate::simulation_factory::disk_mass_fp(radius);
        let mut circles: Vec<Particle> = Vec::new();
        while circles.len() < 100
        invariant
            wf_particles(circles@),
            circles@.len() <= 100,
            forall|k: int|
                0 <= k < circles@.len() ==> {
                    let p = #[trigger] circles@[k];
                    &&& p.radius == 2_000_000
                    &&& p.mass as int == crate::simulation_factory::disk_mass(2_000_000)
                    &&& 2_000_001 <= p.position.x < 198_000_001
                    &&& 2_000_001 <= p.position.y < 100_000_000
                    &&& crate::vector2::norm_sq(p.velocity) <= 10_000_000 * 10_000_000
                },
            mass as int == crate::simulation_factory::disk_mass(2_000_000),
            radius == 2_000_000,
        decreases 100 - circles@.len(),
        {
            let position = Vector2::random_in_rectangle(
                rng,
                2_000_001,
                198_000_001,
                2_000_001,
                100_000_000,
            );
            let velocity = Vector2::random_in_disk_scaled(rng, 10_000_000);
            let ghost prev = circles@;
            let p = Particle {
                mass,
                position,
                velocity,
                radius,
                color: crate::simulation_factory::GREEN,
            };
            circles.push(p);
            proof {
                assert(wf_particle(p));
                assert forall|m: int| 0 <= m < circles@.len() implies wf_particle(
                    #[trigger] circles@[m],
                ) && circles@[m] == (if m < prev.len() {
                    prev[m]
                } else {
                    p
                }) by {
                    if m < prev.len() {
                        assert(circles@[m] == prev[m]);
                    } else {
                        assert(circles@[m] == p);
                    }
                }
            }
        }
        self.circles = circles;
    }

    /// One prototype step: resolve contacts by damped reflection, then
    /// bounce each circle off the walls and integrate it under the
    /// hardcoded gravity.
    pub fn update(&mut self, dt: i64)
        requires
            wf_collision_sim(*old(self)),
        ensures
            wf_collision_sim(*final(self)),
            final(self).circles@ == reflect_pairs_spec(
                old(self).circles@,
                detect_pairs_spec(old(self).circles@),
                old(self).restitution,
            ).map(
                |k: int, p: Particle|
                    integrate_particle(
                        boundary_bounce(p, old(self).boundary, old(self).restitution),
                        prototype_gravity(),
                        dt,
                    ),
            ),
            final(self).boundary == old(self).boundary,
            final(self).restitution == old(self).restitution,
            final(self).view == old(self).view,
    {
        let gravity = Vector2 { x: 0, y: -10_000_000 };
        circle_collissions(&mut self.circles, self.restitution);
        let ghost mid = self.circles@;
        let n = self.circles.len();
        let mut k: usize = 0;
        while k < n
            invariant
                0 <= k <= n,
                n == self.circles@.len(),
                self.circles@.len() == mid.len(),
                wf_particles(self.circles@),
                wf_rect(self.boundary),
                wf_restitution(self.restitution),
                gravity == prototype_gravity(),
                forall|m: int| k <= m < n ==> self.circles@[m] == mid[m],
                forall|m: int|
                    0 <= m < k ==> self.circles@[m] == integrate_particle(
                        boundary_bounce(mid[m], self.boundary, self.restitution),
                        prototype_gravity(),
                        dt,
                    ),
                self.boundary == old(self).boundary,
                self.restitution == old(self).restitution,
                self.view == old(self).view,
                self.window_width == old(self).window_width,
                self.window_height == old(self).window_height,
            decreases n - k,
        {
            let mut p = self.circles[k];
            boundary_collision(&mut p, self.boundary, self.restitution);
            let v = p.velocity.add(gravity.scale(dt));
            let pos = p.position.add(v.scale(dt));
            self.circles[k] = Particle { position: pos, velocity: v, ..p };
            k = k + 1;
        }
    }
}

} // verus!
