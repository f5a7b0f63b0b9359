//! Geometry primitives: particles, rectangles and transient collision
//! records.

use vstd::prelude::*;
use crate::fixed::{lemma_mul_magnitude, FP_LIMIT, FP_SCALE};
use crate::vector2::{dist_sq, in_range, Vector2};

verus! {

/// A circle with mass: the moving body of the simulation.  The color is
/// an RGBA tag that only the renderer interprets.
#[derive(Clone, Copy, Debug, Default, PartialEq, Eq, Structural)]
pub struct Particle {
    pub mass: i64,
    pub position: Vector2,
    pub velocity: Vector2,
    pub radius: i64,
    pub color: u32,
}

/// Positive mass and radius, and every coordinate on the representable
/// grid.  Constructors establish this and every step preserves it.
pub open spec fn wf_particle(p: Particle) -> bool {
    &&& 0 < p.mass <= FP_LIMIT
    &&& 0 < p.radius <= FP_LIMIT
    &&& in_range(p.position)
    &&& in_range(p.velocity)
}

impl Particle {
    /// The two circles overlap: their centers are strictly closer than
    /// the sum of the radii.
    pub fn collides(self, other: &Particle) -> (r: bool)
        requires
            wf_particle(self),
            wf_particle(*other),
        ensures
            r == (dist_sq(self.position, other.position) < (self.radius + other.radius) * (
            self.radius + other.radius)),
    {
        let dx: i128 = self.position.x as i128 - other.position.x as i128;
        let dy: i128 = self.position.y as i128 - other.position.y as i128;
        let rr: i128 = self.radius as i128 + other.radius as i128;
        proof {
            lemma_mul_magnitude(dx as int, dx as int, 0x40_0000_0000_0000, 0x40_0000_0000_0000);
            lemma_mul_magnitude(dy as int, dy as int, 0x40_0000_0000_0000, 0x40_0000_0000_0000);
            lemma_mul_magnitude(rr as int, rr as int, 0x40_0000_0000_0000, 0x40_0000_0000_0000);
        }
        dx * dx + dy * dy < rr * rr
    }
}

/// An axis-aligned rectangle given by two corners.
#[derive(Clone, Copy, Debug, Default, PartialEq, Eq, Structural)]
pub struct Rectangle {
    pub min: Vector2,
    pub max: Vector2,
}

/// Corners on the grid and not inverted.
pub open spec fn wf_rect(r: Rectangle) -> bool {
    &&& in_range(r.min)
    &&& in_range(r.max)
    &&& r.min.x <= r.max.x
    &&& r.min.y <= r.max.y
}

impl Rectangle {
    pub fn width(self) -> (w: i64)
        requires
            wf_rect(self),
        ensures
            w == self.max.x - self.min.x,
    {
        self.max.x - self.min.x
    }

    pub fn height(self) -> (h: i64)
        requires
            wf_rect(self),
        ensures
            h == self.max.y - self.min.y,
    {
        self.max.y - self.min.y
    }

    pub fn contains(&self, point: Vector2) -> (r: bool)
        ensures
            r == (self.min.x <= point.x <= self.max.x && self.min.y <= point.y <= self.max.y),
    {
        point.x >= self.min.x && point.x <= self.max.x && point.y >= self.min.y && point.y
            <= self.max.y
    }
}

/// A contact between two particles, found during one step and consumed
/// in the same step.  `normal` points from particle `j` to particle `i`;
/// the velocities are the pre-resolution snapshots.
#[derive(Clone, Copy, Debug, PartialEq, Eq, Structural)]
pub struct ParticleCollision {
    pub i: usize,
    pub j: usize,
    pub normal: Vector2,
    pub penetration: i64,
    pub velocity1: Vector2,
    pub velocity2: Vector2,
}

/// A contact between a particle and a boundary wall.  `normal` points
/// into the interior; `velocity` is the pre-resolution snapshot.
#[derive(Clone, Copy, Debug, PartialEq, Eq, Structural)]
pub struct StaticCollision {
    pub index: usize,
    pub normal: Vector2,
    pub penetration: i64,
    pub velocity: Vector2,
}

} // verus!
