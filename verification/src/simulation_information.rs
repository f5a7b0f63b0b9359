//! Observation of a running simulation: capped position histories of
//! chosen particles, for trail visualization.  Pure observation, no
//! feedback into the core.

use vstd::prelude::*;
use crate::simulation::{Simulation, Trail};
use crate::vector2::Vector2;

verus! {

/// The longest history kept per tracked particle.
pub const TRAIL_CAP: usize = 500;

/// A tracked particle's history after one more sample: the new point
/// appended, the oldest point dropped once the cap is passed.
pub open spec fn trail_points_after(pts: Seq<Vector2>, p: Vector2) -> Seq<Vector2> {
    let q = pts.push(p);
    if q.len() > TRAIL_CAP {
        q.drop_first()
    } else {
        q
    }
}

pub struct SimulationInformation {
    pub trails: Vec<Trail>,
}

impl SimulationInformation {
    /// Record the current position of every tracked particle.
    pub fn update(&mut self, sim: &Simulation)
        requires
            forall|t: int|
                0 <= t < old(self).trails@.len() ==> (#[trigger] old(self).trails@[t]).index
                    < sim.particles@.len(),
        ensures
            final(self).trails@.len() == old(self).trails@.len(),
            forall|t: int|
                0 <= t < old(self).trails@.len() ==> {
                    &&& (#[trigger] final(self).trails@[t]).index == old(self).trails@[t].index
                    &&& final(self).trails@[t].points@ == trail_points_after(
                        old(self).trails@[t].points@,
                        sim.particles@[old(self).trails@[t].index as int].position,
                    )
                },
    {
        let n = self.trails.len();
        let mut t: usize = 0;
        while t < n
            invariant
                0 <= t <= n,
                n == self.trails@.len(),
                self.trails@.len() == old(self).trails@.len(),
                forall|m: int|
                    0 <= m < old(self).trails@.len() ==> (#[trigger] old(self).trails@[m]).index
                        < sim.particles@.len(),
                forall|m: int|
                    t <= m < n ==> (#[trigger] self.trails@[m]) == old(self).trails@[m],
                forall|m: int|
                    0 <= m < t ==> {
                        &&& (#[trigger] self.trails@[m]).index == old(self).trails@[m].index
                        &&& self.trails@[m].points@ == trail_points_after(
                            old(self).trails@[m].points@,
                            sim.particles@[old(self).trails@[m].index as int].position,
                        )
                    },
            decreases n - t,
        {
            let index = self.trails[t].index;
            let position = sim.particles[index].position;
            self.trails[t].points.push(position);
            if self.trails[t].points.len() > TRAIL_CAP {
                self.trails[t].points.remove(0);
            }
            t = t + 1;
        }
    }
}

} // verus!
