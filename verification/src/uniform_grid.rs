//! Uniform spatial grid: a rectangular domain cut into equal cells,
//! each holding the indices of the particles whose centers fall in it.
//! Neighbor queries over the 3x3 block around a cell form the collision
//! broad phase.

use vstd::prelude::*;
use vstd::arithmetic::div_mod::{
    lemma_div_is_ordered, lemma_div_multiples_vanish, lemma_div_nonincreasing,
    lemma_div_plus_one, lemma_div_pos_is_pos,
};
use crate::fixed::{lemma_mul_magnitude, FP_LIMIT};
use crate::geometry::{wf_rect, Particle, Rectangle};
use crate::rng::rng_range;
use crate::simulation::wf_particles;
use crate::vector2::{dist_sq, Vector2};

verus! {

/// Why a non-overlapping position could not be handed out.
#[derive(Clone, Copy, Debug, PartialEq, Eq, Structural)]
pub enum PlacementError {
    /// The requested radius does not fit the grid's cells.
    RadiusTooLarge,
    /// No free position was found within the attempt budget.
    PlacementExhausted,
}

pub struct UniformGrid {
    pub cells: Vec<Vec<usize>>,
    pub cell_width: i64,
    pub cell_height: i64,
    pub boundary: Rectangle,
    pub n_col: usize,
    pub n_row: usize,
}

/// Cap on the cell count per axis, so that cell bookkeeping fits every
/// machine word size.
pub const GRID_MAX_CELLS_PER_AXIS: i64 = 32_767;

pub open spec fn wf_grid(g: UniformGrid) -> bool {
    &&& wf_rect(g.boundary)
    &&& 1 <= g.cell_width <= 0x40_0000_0000_0000
    &&& 1 <= g.cell_height <= 0x40_0000_0000_0000
    &&& 1 <= g.n_col <= GRID_MAX_CELLS_PER_AXIS
    &&& 1 <= g.n_row <= GRID_MAX_CELLS_PER_AXIS
    &&& g.cells@.len() == g.n_col * g.n_row
}

/// Which of `n` buckets of width `w` starting at `lo` holds `v`,
/// clamped to the valid range.
pub open spec fn bucket(v: int, lo: int, w: int, n: int) -> int {
    if v <= lo {
        0
    } else {
        let c = (v - lo) / w;
        if c >= n {
            n - 1
        } else {
            c
        }
    }
}

/// The column of the cell holding a point with the given x coordinate;
/// out-of-domain points are clamped to the nearest valid column.
pub open spec fn col_of(g: UniformGrid, x: int) -> int {
    bucket(x, g.boundary.min.x as int, g.cell_width as int, g.n_col as int)
}

pub open spec fn row_of(g: UniformGrid, y: int) -> int {
    bucket(y, g.boundary.min.y as int, g.cell_height as int, g.n_row as int)
}

pub open spec fn cell_index(g: UniformGrid, col: int, row: int) -> int {
    col * g.n_row + row
}

/// The flat index of the cell holding the given position.
pub open spec fn cell_of(g: UniformGrid, pos: Vector2) -> int {
    cell_index(g, col_of(g, pos.x as int), row_of(g, pos.y as int))
}

pub proof fn lemma_col_of_in_bounds(g: UniformGrid, x: int)
    requires
        wf_grid(g),
    ensures
        0 <= col_of(g, x) < g.n_col,
        0 <= row_of(g, x) < g.n_row,
{
    if x > g.boundary.min.x {
        lemma_div_pos_is_pos(x - g.boundary.min.x, g.cell_width as int);
    }
    if x > g.boundary.min.y {
        lemma_div_pos_is_pos(x - g.boundary.min.y, g.cell_height as int);
    }
}

pub proof fn lemma_cell_of_in_bounds(g: UniformGrid, pos: Vector2)
    requires
        wf_grid(g),
    ensures
        0 <= cell_of(g, pos) < g.cells@.len(),
{
    lemma_col_of_in_bounds(g, pos.x as int);
    lemma_col_of_in_bounds(g, pos.y as int);
    let c = col_of(g, pos.x as int);
    let r = row_of(g, pos.y as int);
    assert(c * g.n_row + r < g.n_col * g.n_row) by (nonlinear_arith)
        requires
            0 <= c,
            c <= g.n_col - 1,
            0 <= r < g.n_row,
    ;
    assert(0 <= c * g.n_row + r) by (nonlinear_arith)
        requires
            0 <= c,
            0 <= r,
            0 <= g.n_row,
    ;
}

/// Every live particle index is registered in the cell of its position.
pub open spec fn grid_covers(g: UniformGrid, ps: Seq<Particle>) -> bool {
    forall|k: int|
        0 <= k < ps.len() ==> g.cells@[cell_of(g, ps[k].position)]@.contains(k as usize)
}

/// Every registered index is a live particle, registered in the cell of
/// its own position.
pub open spec fn grid_sound(g: UniformGrid, ps: Seq<Particle>) -> bool {
    forall|ci: int, m: int|
        0 <= ci < g.cells@.len() && 0 <= m < g.cells@[ci]@.len() ==> {
            &&& (#[trigger] g.cells@[ci]@[m]) < ps.len()
            &&& ci == cell_of(g, ps[g.cells@[ci]@[m] as int].position)
        }
}

impl UniformGrid {
    /// Cut `boundary` into cells of at least `cell_size` on each side:
    /// as many full cells as fit, and at least one per axis.
    pub fn with_cell_size(boundary: Rectangle, cell_size: i64) -> (g: UniformGrid)
        requires
            wf_rect(boundary),
            boundary.min.x < boundary.max.x,
            boundary.min.y < boundary.max.y,
            1 <= cell_size,
            boundary.max.x - boundary.min.x <= GRID_MAX_CELLS_PER_AXIS * cell_size,
            boundary.max.y - boundary.min.y <= GRID_MAX_CELLS_PER_AXIS * cell_size,
        ensures
            wf_grid(g),
            g.boundary == boundary,
            g.n_col as int == if (boundary.max.x - boundary.min.x) / (cell_size as int) >= 1 {
                (boundary.max.x - boundary.min.x) / (cell_size as int)
            } else {
                1
            },
            g.n_row as int == if (boundary.max.y - boundary.min.y) / (cell_size as int) >= 1 {
                (boundary.max.y - boundary.min.y) / (cell_size as int)
            } else {
                1
            },
            g.cell_width as int == if (boundary.max.x - boundary.min.x) / (cell_size as int) >= 1 {
                (boundary.max.x - boundary.min.x) / ((boundary.max.x - boundary.min.x) / (
                cell_size as int))
            } else {
                boundary.max.x - boundary.min.x
            },
            g.cell_height as int == if (boundary.max.y - boundary.min.y) / (cell_size as int)
                >= 1 {
                (boundary.max.y - boundary.min.y) / ((boundary.max.y - boundary.min.y) / (
                cell_size as int))
            } else {
                boundary.max.y - boundary.min.y
            },
            cell_size <= boundary.max.x - boundary.min.x ==> g.cell_width >= cell_size,
            cell_size <= boundary.max.y - boundary.min.y ==> g.cell_height >= cell_size,
            forall|ci: int| 0 <= ci < g.cells@.len() ==> (#[trigger] g.cells@[ci])@.len() == 0,
    {
        let width: i64 = boundary.max.x - boundary.min.x;
        let height: i64 = boundary.max.y - boundary.min.y;
        proof {
            lemma_div_pos_is_pos(width as int, cell_size as int);
            lemma_div_pos_is_pos(height as int, cell_size as int);
            lemma_div_is_ordered(
                width as int,
                GRID_MAX_CELLS_PER_AXIS * cell_size,
                cell_size as int,
            );
            lemma_div_is_ordered(
                height as int,
                GRID_MAX_CELLS_PER_AXIS * cell_size,
                cell_size as int,
            );
            lemma_div_multiples_vanish(GRID_MAX_CELLS_PER_AXIS as int, cell_size as int);
        }
        let qx: i64 = ((width as u64) / (cell_size as u64)) as i64;
        let qy: i64 = ((height as u64) / (cell_size as u64)) as i64;
        let n_col: usize = if qx >= 1 {
            qx as usize
        } else {
            1
        };
        let n_row: usize = if qy >= 1 {
            qy as usize
        } else {
            1
        };
        let cell_width: i64 = if qx >= 1 {
            proof {
                lemma_div_pos_is_pos(width as int, qx as int);
                lemma_div_nonincreasing(width as int, qx as int);
                lemma_cell_at_least(width as int, cell_size as int);
                vstd::arithmetic::div_mod::lemma_fundamental_div_mod(width as int, cell_size as int);
                assert(width >= cell_size) by (nonlinear_arith)
                    requires
                        width as int == cell_size as int * (width as int / cell_size as int)
                            + width as int % cell_size as int,
                        width as int / cell_size as int >= 1,
                        width as int % cell_size as int >= 0,
                        cell_size >= 1,
                ;
            }
            ((width as u64) / (qx as u64)) as i64
        } else {
            width
        };
        let cell_height: i64 = if qy >= 1 {
            proof {
                lemma_div_pos_is_pos(height as int, qy as int);
                lemma_div_nonincreasing(height as int, qy as int);
                lemma_cell_at_least(height as int, cell_size as int);
                vstd::arithmetic::div_mod::lemma_fundamental_div_mod(height as int, cell_size as int);
                assert(height >= cell_size) by (nonlinear_arith)
                    requires
                        height as int == cell_size as int * (height as int / cell_size as int)
                            + height as int % cell_size as int,
                        height as int / cell_size as int >= 1,
                        height as int % cell_size as int >= 0,
                        cell_size >= 1,
                ;
            }
            ((height as u64) / (qy as u64)) as i64
        } else {
            height
        };
        proof {
            assert(n_col * n_row <= 0x4000_0000int) by (nonlinear_arith)
                requires
                    0 <= n_col <= 32_767,
                    0 <= n_row <= 32_767,
            ;
        }
        let total: usize = n_col * n_row;
        let mut cells: Vec<Vec<usize>> = Vec::new();
        while cells.len() < total
            invariant
                cells@.len() <= total,
                forall|ci: int| 0 <= ci < cells@.len() ==> (#[trigger] cells@[ci])@.len() == 0,
            decreases total - cells.len(),
        {
            cells.push(Vec::new());
        }
        UniformGrid { cells, cell_width, cell_height, boundary, n_col, n_row }
    }

    /// Cut `boundary` into cells able to hold the largest particle of
    /// the list (twice its radius), or into one cell spanning the
    /// smaller dimension when the list is empty: the counts and sizes
    /// are exactly those of `with_cell_size` at seed `seed_cell_size`.
    pub fn new(boundary: Rectangle, particles: &Vec<Particle>) -> (g: UniformGrid)
        requires
            wf_rect(boundary),
            wf_particles(particles@),
            boundary.min.x < boundary.max.x,
            boundary.min.y < boundary.max.y,
            particles@.len() > 0 ==> boundary.max.x - boundary.min.x
                <= GRID_MAX_CELLS_PER_AXIS * 2 * max_radius(particles@),
            particles@.len() > 0 ==> boundary.max.y - boundary.min.y
                <= GRID_MAX_CELLS_PER_AXIS * 2 * max_radius(particles@),
            particles@.len() == 0 ==> boundary.max.x - boundary.min.x
                <= GRID_MAX_CELLS_PER_AXIS * (boundary.max.y - boundary.min.y),
            particles@.len() == 0 ==> boundary.max.y - boundary.min.y
                <= GRID_MAX_CELLS_PER_AXIS * (boundary.max.x - boundary.min.x),
        ensures
            wf_grid(g),
            g.boundary == boundary,
            forall|ci: int| 0 <= ci < g.cells@.len() ==> (#[trigger] g.cells@[ci])@.len() == 0,
            particles@.len() > 0 && 2 * max_radius(particles@) <= boundary.max.x - boundary.min.x
                ==> g.cell_width >= 2 * max_radius(particles@),
            particles@.len() > 0 && 2 * max_radius(particles@) <= boundary.max.y - boundary.min.y
                ==> g.cell_height >= 2 * max_radius(particles@),
            ({
                let s = seed_cell_size(boundary, particles@);
                let w = boundary.max.x - boundary.min.x;
                let h = boundary.max.y - boundary.min.y;
                &&& g.n_col as int == if w / s >= 1 {
                    w / s
                } else {
                    1
                }
                &&& g.n_row as int == if h / s >= 1 {
                    h / s
                } else {
                    1
                }
                &&& g.cell_width as int == if w / s >= 1 {
                    w / (w / s)
                } else {
                    w
                }
                &&& g.cell_height as int == if h / s >= 1 {
                    h / (h / s)
                } else {
                    h
                }
            }),
    {
        let width: i64 = boundary.max.x - boundary.min.x;
        let height: i64 = boundary.max.y - boundary.min.y;
        let cell_size_min: i64 = if particles.len() > 0 {
            let r = max_radius_fp(particles);
            2 * r
        } else {
            if width < height {
                width
            } else {
                height
            }
        };
        proof {
            if particles@.len() > 0 {
                let w = boundary.max.x - boundary.min.x;
                let h = boundary.max.y - boundary.min.y;
                assert(w <= GRID_MAX_CELLS_PER_AXIS * cell_size_min && h
                    <= GRID_MAX_CELLS_PER_AXIS * cell_size_min) by (nonlinear_arith)
                    requires
                        w <= GRID_MAX_CELLS_PER_AXIS * 2 * max_radius(particles@),
                        h <= GRID_MAX_CELLS_PER_AXIS * 2 * max_radius(particles@),
                        cell_size_min as int == 2 * max_radius(particles@),
                        GRID_MAX_CELLS_PER_AXIS == 32_767i64,
                ;
            } else {
                let w = boundary.max.x - boundary.min.x;
                let h = boundary.max.y - boundary.min.y;
                assert(w <= GRID_MAX_CELLS_PER_AXIS * cell_size_min && h
                    <= GRID_MAX_CELLS_PER_AXIS * cell_size_min) by (nonlinear_arith)
                    requires
                        w == boundary.max.x - boundary.min.x,
                        h == boundary.max.y - boundary.min.y,
                        w <= GRID_MAX_CELLS_PER_AXIS * h,
                        h <= GRID_MAX_CELLS_PER_AXIS * w,
                        1 <= w,
                        1 <= h,
                        w < h ==> cell_size_min == w,
                        w >= h ==> cell_size_min == h,
                        GRID_MAX_CELLS_PER_AXIS == 32_767i64,
                ;
            }
            assert(cell_size_min as int == seed_cell_size(boundary, particles@));
        }
        UniformGrid::with_cell_size(boundary, cell_size_min)
    }
}

/// The cell size that the particle-list constructor seeds the grid
/// with: twice the largest radius present, or the boundary's smaller
/// dimension when the list is empty.
pub open spec fn seed_cell_size(boundary: Rectangle, ps: Seq<Particle>) -> int {
    if ps.len() > 0 {
        2 * max_radius(ps)
    } else if boundary.max.x - boundary.min.x < boundary.max.y - boundary.min.y {
        boundary.max.x - boundary.min.x
    } else {
        boundary.max.y - boundary.min.y
    }
}

/// The largest radius in the list (zero when empty).
pub open spec fn max_radius(ps: Seq<Particle>) -> int
    decreases ps.len(),
{
    if ps.len() == 0 {
        0
    } else {
        let rest = max_radius(ps.drop_first());
        if ps[0].radius >= rest {
            ps[0].radius as int
        } else {
            rest
        }
    }
}

fn max_radius_fp(particles: &Vec<Particle>) -> (r: i64)
    requires
        wf_particles(particles@),
        particles@.len() > 0,
    ensures
        r == max_radius(particles@),
        0 < r <= FP_LIMIT,
{
    let ghost ps = particles@;
    let mut r: i64 = 0;
    let mut k: usize = 0;
    proof {
        lemma_max_radius_prefix(ps, 0);
    }
    while k < particles.len()
        invariant
            0 <= k <= ps.len(),
            ps == particles@,
            ps.len() > 0,
            wf_particles(ps),
            r == max_radius(ps.take(k as int)),
            0 <= r <= FP_LIMIT,
        decreases ps.len() - k,
    {
        proof {
            lemma_max_radius_step(ps, k as int);
        }
        if particles[k].radius > r {
            r = particles[k].radius;
        }
        k = k + 1;
    }
    proof {
        assert(ps.take(ps.len() as int) =~= ps);
    }
    r
}

proof fn lemma_max_radius_prefix(ps: Seq<Particle>, k: int)
    ensures
        max_radius(ps.take(0)) == 0,
{
    assert(ps.take(0) =~= Seq::<Particle>::empty());
}

/// Extending a prefix by one particle takes the maximum with its
/// radius.
proof fn lemma_max_radius_step(ps: Seq<Particle>, k: int)
    requires
        0 <= k < ps.len(),
    ensures
        max_radius(ps.take(k + 1)) == if ps[k].radius as int >= max_radius(ps.take(k)) {
            ps[k].radius as int
        } else {
            max_radius(ps.take(k))
        },
    decreases k,
{
    if k == 0 {
        assert(ps.take(1).drop_first() =~= Seq::<Particle>::empty());
        assert(ps.take(0) =~= Seq::<Particle>::empty());
    } else {
        lemma_max_radius_step(ps.drop_first(), k - 1);
        assert(ps.take(k + 1).drop_first() =~= ps.drop_first().take(k));
        assert(ps.take(k).drop_first() =~= ps.drop_first().take(k - 1));
        assert(max_radius(ps.take(k + 1)) == if ps.take(k + 1)[0].radius as int >= max_radius(
            ps.take(k + 1).drop_first(),
        ) {
            ps.take(k + 1)[0].radius as int
        } else {
            max_radius(ps.take(k + 1).drop_first())
        });
        if max_radius(ps.take(k)) == ps.take(k)[0].radius as int
            && ps.take(k)[0].radius as int >= max_radius(ps.take(k).drop_first()) {
        }
    }
}

/// When at least one cell of size `s` fits in `w`, the actual cell
/// width `w / (w / s)` is at least `s`.
proof fn lemma_cell_at_least(w: int, s: int)
    requires
        1 <= s,
        1 <= w / s,
    ensures
        w / (w / s) >= s,
{
    let q = w / s;
    vstd::arithmetic::div_mod::lemma_fundamental_div_mod(w, s);
    assert(w >= s) by (nonlinear_arith)
        requires
            w == s * (w / s) + w % s,
            w / s >= 1,
            w % s >= 0,
            s >= 1,
    ;
    vstd::arithmetic::div_mod::lemma_fundamental_div_mod(w, s);
    assert(w >= q * s);
    assert(q * s == s * q) by (nonlinear_arith);
    lemma_div_is_ordered(s * q, w, q);
    lemma_div_multiples_vanish(s, q);
}

/// The cell coordinates are inside the grid.
pub open spec fn cell_ok(g: UniformGrid, col: int, row: int) -> bool {
    0 <= col < g.n_col && 0 <= row < g.n_row
}

/// `e` is registered in one of the nine cells around the cell of `pos`.
pub open spec fn in_close_cells(g: UniformGrid, pos: Vector2, e: usize) -> bool {
    exists|c: int, r: int|
        #![trigger cell_ok(g, c, r)]
        col_of(g, pos.x as int) - 1 <= c <= col_of(g, pos.x as int) + 1 && row_of(g, pos.y as int)
            - 1 <= r <= row_of(g, pos.y as int) + 1 && cell_ok(g, c, r) && g.cells@[cell_index(
            g,
            c,
            r,
        )]@.contains(e)
}

impl UniformGrid {
    /// The column and row of the cell holding `position`.
    pub fn get_cell_indices(&self, position: Vector2) -> (r: (usize, usize))
        requires
            wf_grid(*self),
            crate::vector2::in_range(position),
        ensures
            r.0 as int == col_of(*self, position.x as int),
            r.1 as int == row_of(*self, position.y as int),
            r.0 < self.n_col,
            r.1 < self.n_row,
    {
        let col: usize = if position.x <= self.boundary.min.x {
            0
        } else {
            let q: u64 = ((position.x - self.boundary.min.x) as u64) / (self.cell_width as u64);
            if q >= self.n_col as u64 {
                self.n_col - 1
            } else {
                q as usize
            }
        };
        let row: usize = if position.y <= self.boundary.min.y {
            0
        } else {
            let q: u64 = ((position.y - self.boundary.min.y) as u64) / (self.cell_height as u64);
            if q >= self.n_row as u64 {
                self.n_row - 1
            } else {
                q as usize
            }
        };
        (col, row)
    }

    /// The flat index of the cell at the given coordinates.
    pub fn get_cell_index(&self, col: usize, row: usize) -> (ci: usize)
        requires
            wf_grid(*self),
            col < self.n_col,
            row < self.n_row,
        ensures
            ci as int == cell_index(*self, col as int, row as int),
            ci < self.cells@.len(),
    {
        proof {
            assert(col * self.n_row + row < self.n_col * self.n_row) by (nonlinear_arith)
                requires
                    0 <= col,
                    col + 1 <= self.n_col,
                    0 <= row < self.n_row,
            ;
            assert(self.n_col * self.n_row <= 0x4000_0000int) by (nonlinear_arith)
                requires
                    0 <= self.n_col <= 32_767,
                    0 <= self.n_row <= 32_767,
            ;
        }
        col * self.n_row + row
    }

    /// The flat cell index when the coordinates are inside the grid.
    pub fn get_cell_index_safe(&self, col: i64, row: i64) -> (r: Option<usize>)
        requires
            wf_grid(*self),
        ensures
            r is Some <==> cell_ok(*self, col as int, row as int),
            cell_ok(*self, col as int, row as int) ==> r.unwrap() as int == cell_index(
                *self,
                col as int,
                row as int,
            ) && r.unwrap() < self.cells@.len(),
    {
        if col < 0 || row < 0 {
            return None;
        }
        if (col as u64) < (self.n_col as u64) && (row as u64) < (self.n_row as u64) {
            Some(self.get_cell_index(col as usize, row as usize))
        } else {
            None
        }
    }

    /// Register a particle index in the cell of its position.  Cells
    /// are sets of indices: registering an index already present in
    /// its cell leaves the grid unchanged, so insertion is idempotent
    /// and no cell holds duplicates.
    pub fn add_particle(&mut self, index: usize, particle: &Particle)
        requires
            wf_grid(*old(self)),
            crate::vector2::in_range(particle.position),
        ensures
            wf_grid(*final(self)),
            final(self).cells@.len() == old(self).cells@.len(),
            old(self).cells@[cell_of(*old(self), particle.position)]@.contains(index)
                ==> final(self).cells@[cell_of(*old(self), particle.position)] == old(
                self,
            ).cells@[cell_of(*old(self), particle.position)],
            !old(self).cells@[cell_of(*old(self), particle.position)]@.contains(index)
                ==> final(self).cells@[cell_of(*old(self), particle.position)]@ == old(
                self,
            ).cells@[cell_of(*old(self), particle.position)]@.push(index),
            forall|ci: int|
                0 <= ci < old(self).cells@.len() && ci != cell_of(*old(self), particle.position)
                    ==> final(self).cells@[ci] == old(self).cells@[ci],
            final(self).cell_width == old(self).cell_width,
            final(self).cell_height == old(self).cell_height,
            final(self).boundary == old(self).boundary,
            final(self).n_col == old(self).n_col,
            final(self).n_row == old(self).n_row,
    {
        let (col, row) = self.get_cell_indices(particle.position);
        let ci = self.get_cell_index(col, row);
        if !contains_index(&self.cells[ci], index) {
            self.cells[ci].push(index);
        }
    }
}

pub proof fn lemma_cell_index_bounds(g: UniformGrid, c: int, r: int)
    requires
        wf_grid(g),
        cell_ok(g, c, r),
    ensures
        0 <= cell_index(g, c, r) < g.cells@.len(),
{
    assert(c * g.n_row + r < g.n_col * g.n_row) by (nonlinear_arith)
        requires
            0 <= c,
            c + 1 <= g.n_col,
            0 <= r < g.n_row,
    ;
    assert(0 <= c * g.n_row + r) by (nonlinear_arith)
        requires
            0 <= c,
            0 <= r,
            0 <= g.n_row,
    ;
}

/// `e` is in one of the first `t` cells of the 3x3 block around
/// `(col, row)`, enumerated column-major.
pub open spec fn near_upto(g: UniformGrid, col: int, row: int, t: int, e: usize) -> bool {
    exists|u: int|
        #![trigger (u / 3)]
        0 <= u < t && cell_ok(g, col + u / 3 - 1, row + u % 3 - 1) && g.cells@[cell_index(
            g,
            col + u / 3 - 1,
            row + u % 3 - 1,
        )]@.contains(e)
}

/// Linear membership test.
fn contains_index(v: &Vec<usize>, e: usize) -> (r: bool)
    ensures
        r == v@.contains(e),
{
    let mut m: usize = 0;
    while m < v.len()
        invariant
            0 <= m <= v@.len(),
            forall|i: int| 0 <= i < m ==> v@[i] != e,
        decreases v@.len() - m,
    {
        if v[m] == e {
            return true;
        }
        m = m + 1;
    }
    false
}

impl UniformGrid {
    /// The broad-phase candidate set: all indices registered in the
    /// 3x3 block of cells around the cell of `position`, without
    /// duplicates.
    pub fn get_close_colliders(&self, position: Vector2) -> (result: Vec<usize>)
        requires
            wf_grid(*self),
            crate::vector2::in_range(position),
        ensures
            forall|e: usize| result@.contains(e) <==> in_close_cells(*self, position, e),
            forall|a: int, b: int| 0 <= a < b < result@.len() ==> result@[a] != result@[b],
    {
        let (col, row) = self.get_cell_indices(position);
        let ghost gcol = col_of(*self, position.x as int);
        let ghost grow = row_of(*self, position.y as int);
        let mut out: Vec<usize> = Vec::new();
        let mut t: usize = 0;
        while t < 9
            invariant
                0 <= t <= 9,
                wf_grid(*self),
                col as int == gcol,
                row as int == grow,
                0 <= gcol < self.n_col,
                0 <= grow < self.n_row,
                forall|e: usize| out@.contains(e) <==> near_upto(*self, gcol, grow, t as int, e),
                forall|a: int, b: int| 0 <= a < b < out@.len() ==> out@[a] != out@[b],
            decreases 9 - t,
        {
            let dc: i64 = (t as i64) / 3 - 1;
            let dr: i64 = (t as i64) % 3 - 1;
            let ghost tt = t as int;
            proof {
                assert(dc as int == tt / 3 - 1 && dr as int == tt % 3 - 1) by (nonlinear_arith)
                    requires
                        0 <= tt < 9,
                        dc as int == (tt as int) / 3 - 1,
                        dr as int == (tt as int) % 3 - 1,
                ;
            }
            match self.get_cell_index_safe(col as i64 + dc, row as i64 + dr) {
                Some(ci) => {
                    proof {
                        lemma_cell_index_bounds(*self, gcol + tt / 3 - 1, grow + tt % 3 - 1);
                        assert((col as i64 + dc) as int == gcol + tt / 3 - 1);
                        assert((row as i64 + dr) as int == grow + tt % 3 - 1);
                        assert(ci as int == cell_index(*self, gcol + tt / 3 - 1, grow + tt % 3 - 1));
                    }
                    let ghost cells0 = self.cells@[ci as int]@;
                    let mut m: usize = 0;
                    while m < self.cells[ci].len()
                        invariant
                            0 <= m <= cells0.len(),
                            wf_grid(*self),
                            ci < self.cells@.len(),
                            cells0 == self.cells@[ci as int]@,
                            ci as int == cell_index(*self, gcol + tt / 3 - 1, grow + tt % 3 - 1),
                            cell_ok(*self, gcol + tt / 3 - 1, grow + tt % 3 - 1),
                            0 <= tt < 9,
                            forall|e: usize|
                                out@.contains(e) <==> near_upto(*self, gcol, grow, tt, e) || (
                                exists|i: int| 0 <= i < m && cells0[i] == e),
                            forall|a: int, b: int| 0 <= a < b < out@.len() ==> out@[a] != out@[b],
                        decreases cells0.len() - m,
                    {
                        let ghost prev = out@;
                        let e = self.cells[ci][m];
                        let had = contains_index(&out, e);
                        if !had {
                            out.push(e);
                        }
                        proof {
                            if !had {
                                assert forall|x: usize| out@.contains(x) implies prev.contains(x)
                                    || x == e by {
                                    let ii = choose|ii: int|
                                        0 <= ii < out@.len() && out@[ii] == x;
                                    if ii < prev.len() {
                                        assert(prev[ii] == x);
                                    }
                                }
                                assert forall|x: usize| prev.contains(x) implies out@.contains(
                                    x,
                                ) by {
                                    let ii = choose|ii: int|
                                        0 <= ii < prev.len() && prev[ii] == x;
                                    assert(out@[ii] == x);
                                }
                                assert(out@[prev.len() as int] == e);
                                assert(out@.contains(e));
                            }
                            assert forall|x: usize| out@.contains(x) implies near_upto(
                                *self,
                                gcol,
                                grow,
                                tt,
                                x,
                            ) || (exists|i: int| 0 <= i < m + 1 && cells0[i] == x) by {
                                if prev.contains(x) {
                                    if !near_upto(*self, gcol, grow, tt, x) {
                                        let i = choose|i: int|
                                            0 <= i < m && cells0[i] == x;
                                        assert(0 <= i < m + 1 && cells0[i] == x);
                                    }
                                } else {
                                    assert(x == e);
                                    assert(cells0[m as int] == x);
                                }
                            }
                            assert forall|x: usize|
                                near_upto(*self, gcol, grow, tt, x) || (exists|i: int|
                                    0 <= i < m + 1 && cells0[i] == x) implies out@.contains(
                                x,
                            ) by {
                                if near_upto(*self, gcol, grow, tt, x) {
                                    assert(prev.contains(x));
                                } else {
                                    let i = choose|i: int|
                                        0 <= i < m + 1 && cells0[i] == x;
                                    if i < m {
                                        assert(prev.contains(x));
                                    } else {
                                        assert(x == e);
                                    }
                                }
                            }
                        }
                        m = m + 1;
                    }
                    proof {
                        assert forall|e: usize|
                            out@.contains(e) implies near_upto(*self, gcol, grow, tt + 1, e) by {
                            if near_upto(*self, gcol, grow, tt, e) {
                                let u = choose|u: int|
                                    #![trigger (u / 3)]
                                    0 <= u < tt && cell_ok(
                                        *self,
                                        gcol + u / 3 - 1,
                                        grow + u % 3 - 1,
                                    ) && self.cells@[cell_index(
                                        *self,
                                        gcol + u / 3 - 1,
                                        grow + u % 3 - 1,
                                    )]@.contains(e);
                                assert(0 <= u < tt + 1);
                            } else {
                                let i = choose|i: int| 0 <= i < cells0.len() && cells0[i] == e;
                                assert(cells0.contains(e));
                                assert(cell_ok(*self, gcol + tt / 3 - 1, grow + tt % 3 - 1)
                                    && self.cells@[cell_index(
                                    *self,
                                    gcol + tt / 3 - 1,
                                    grow + tt % 3 - 1,
                                )]@.contains(e));
                            }
                        }
                        assert forall|e: usize|
                            near_upto(*self, gcol, grow, tt + 1, e) implies out@.contains(e) by {
                            let u = choose|u: int|
                                #![trigger (u / 3)]
                                0 <= u < tt + 1 && cell_ok(*self, gcol + u / 3 - 1, grow + u % 3
                                    - 1) && self.cells@[cell_index(
                                    *self,
                                    gcol + u / 3 - 1,
                                    grow + u % 3 - 1,
                                )]@.contains(e);
                            if u < tt {
                                assert(near_upto(*self, gcol, grow, tt, e));
                            } else {
                                let i = choose|i: int|
                                    0 <= i < cells0.len() && cells0[i] == e;
                            }
                        }
                    }
                },
                None => {
                    proof {
                        assert forall|e: usize|
                            out@.contains(e) implies near_upto(*self, gcol, grow, tt + 1, e) by {
                            let u = choose|u: int|
                                #![trigger (u / 3)]
                                0 <= u < tt && cell_ok(*self, gcol + u / 3 - 1, grow + u % 3 - 1)
                                    && self.cells@[cell_index(
                                    *self,
                                    gcol + u / 3 - 1,
                                    grow + u % 3 - 1,
                                )]@.contains(e);
                            assert(0 <= u < tt + 1);
                        }
                        assert forall|e: usize|
                            near_upto(*self, gcol, grow, tt + 1, e) implies out@.contains(e) by {
                            let u = choose|u: int|
                                #![trigger (u / 3)]
                                0 <= u < tt + 1 && cell_ok(*self, gcol + u / 3 - 1, grow + u % 3
                                    - 1) && self.cells@[cell_index(
                                    *self,
                                    gcol + u / 3 - 1,
                                    grow + u % 3 - 1,
                                )]@.contains(e);
                            assert(u < tt);
                            assert(near_upto(*self, gcol, grow, tt, e));
                        }
                    }
                },
            }
            t = t + 1;
        }
        proof {
            assert forall|e: usize|
                out@.contains(e) implies in_close_cells(*self, position, e) by {
                let u = choose|u: int|
                    #![trigger (u / 3)]
                    0 <= u < 9 && cell_ok(*self, gcol + u / 3 - 1, grow + u % 3 - 1)
                        && self.cells@[cell_index(*self, gcol + u / 3 - 1, grow + u % 3 - 1)]@
                        .contains(e);
                let c = gcol + u / 3 - 1;
                let r = grow + u % 3 - 1;
                assert(0 <= u / 3 <= 2 && 0 <= u % 3 <= 2) by (nonlinear_arith)
                    requires
                        0 <= u < 9,
                ;
                assert(gcol - 1 <= c <= gcol + 1 && grow - 1 <= r <= grow + 1 && cell_ok(
                    *self,
                    c,
                    r,
                ) && self.cells@[cell_index(*self, c, r)]@.contains(e));
            }
            assert forall|e: usize|
                in_close_cells(*self, position, e) implies out@.contains(e) by {
                let (c, r): (int, int) = choose|c: int, r: int|
                    #![trigger cell_ok(*self, c, r)]
                    gcol - 1 <= c <= gcol + 1 && grow - 1 <= r <= grow + 1 && cell_ok(*self, c, r)
                        && self.cells@[cell_index(*self, c, r)]@.contains(e);
                let u = (c - gcol + 1) * 3 + (r - grow + 1);
                assert(u / 3 == c - gcol + 1 && u % 3 == r - grow + 1) by (nonlinear_arith)
                    requires
                        u == (c - gcol + 1) * 3 + (r - grow + 1),
                        0 <= c - gcol + 1 <= 2,
                        0 <= r - grow + 1 <= 2,
                ;
                assert(0 <= u < 9 && cell_ok(*self, gcol + u / 3 - 1, grow + u % 3 - 1)
                    && self.cells@[cell_index(*self, gcol + u / 3 - 1, grow + u % 3 - 1)]@
                    .contains(e));
                assert(near_upto(*self, gcol, grow, 9, e));
            }
        }
        out
    }
}

/// Points at most one bucket width apart land in the same or in
/// adjacent buckets.
proof fn lemma_bucket_close(v1: int, v2: int, lo: int, w: int, n: int)
    requires
        1 <= w,
        1 <= n,
        v1 - v2 <= w,
    ensures
        bucket(v1, lo, w, n) <= bucket(v2, lo, w, n) + 1,
{
    let a1 = v1 - lo;
    let a2 = v2 - lo;
    if a1 <= 0 {
        if a2 > 0 {
            lemma_div_pos_is_pos(a2, w);
        }
    } else {
        if a2 <= 0 {
            lemma_div_is_ordered(a1, w, w);
            vstd::arithmetic::div_mod::lemma_div_by_self(w);
        } else {
            lemma_div_is_ordered(a1, a2 + w, w);
            lemma_div_plus_one(a2, w);
            lemma_div_pos_is_pos(a2, w);
        }
    }
}

/// The broad phase misses no true contact: a particle that overlaps a
/// disk of radius `radius` at `pos` is registered in one of the nine
/// cells around the cell of `pos`, provided the cells are large enough
/// for the two radii together.
pub proof fn lemma_broad_phase_superset(
    g: UniformGrid,
    ps: Seq<Particle>,
    pos: Vector2,
    radius: i64,
    k: int,
)
    requires
        wf_grid(g),
        grid_covers(g, ps),
        0 <= k < ps.len(),
        0 <= radius,
        0 <= ps[k].radius,
        radius + ps[k].radius <= g.cell_width,
        radius + ps[k].radius <= g.cell_height,
        dist_sq(pos, ps[k].position) <= (radius + ps[k].radius) * (radius + ps[k].radius),
    ensures
        in_close_cells(g, pos, k as usize),
{
    let q = ps[k].position;
    let rr = radius + ps[k].radius;
    let dx = pos.x - q.x;
    let dy = pos.y - q.y;
    assert(-rr <= dx <= rr && -rr <= dy <= rr) by (nonlinear_arith)
        requires
            dx * dx + dy * dy <= rr * rr,
            0 <= rr,
            dx == pos.x - q.x,
            dy == pos.y - q.y,
            dist_sq(pos, q) == dx * dx + dy * dy,
    ;
    lemma_bucket_close(pos.x as int, q.x as int, g.boundary.min.x as int, g.cell_width as int, g.n_col as int);
    lemma_bucket_close(q.x as int, pos.x as int, g.boundary.min.x as int, g.cell_width as int, g.n_col as int);
    lemma_bucket_close(pos.y as int, q.y as int, g.boundary.min.y as int, g.cell_height as int, g.n_row as int);
    lemma_bucket_close(q.y as int, pos.y as int, g.boundary.min.y as int, g.cell_height as int, g.n_row as int);
    lemma_col_of_in_bounds(g, pos.x as int);
    lemma_col_of_in_bounds(g, pos.y as int);
    lemma_col_of_in_bounds(g, q.x as int);
    lemma_col_of_in_bounds(g, q.y as int);
    let c = col_of(g, q.x as int);
    let r = row_of(g, q.y as int);
    assert(g.cells@[cell_index(g, c, r)]@.contains(k as usize));
    assert(cell_ok(g, c, r));
    assert(col_of(g, pos.x as int) - 1 <= c <= col_of(g, pos.x as int) + 1);
    assert(row_of(g, pos.y as int) - 1 <= r <= row_of(g, pos.y as int) + 1);
}

/// No particle of the list overlaps a disk of radius `radius` at
/// `position`.
pub open spec fn spot_is_free(
    position: Vector2,
    radius: i64,
    ps: Seq<Particle>,
) -> bool {
    forall|k: int|
        0 <= k < ps.len() ==> dist_sq(position, #[trigger] ps[k].position) >= (radius
            + ps[k].radius) * (radius + ps[k].radius)
}

/// Broad-phase overlap check: sound and complete thanks to the grid's
/// cell-size invariant.
pub fn position_is_free(
    grid: &UniformGrid,
    position: Vector2,
    radius: i64,
    particles: &Vec<Particle>,
) -> (free: bool)
    requires
        wf_grid(*grid),
        grid_covers(*grid, particles@),
        grid_sound(*grid, particles@),
        wf_particles(particles@),
        crate::vector2::in_range(position),
        0 <= radius,
        forall|k: int|
            0 <= k < particles@.len() ==> radius + (#[trigger] particles@[k]).radius
                <= grid.cell_width && radius + particles@[k].radius <= grid.cell_height,
    ensures
        free == spot_is_free(position, radius, particles@),
{
    let ghost ps = particles@;
    let n = particles.len();
    let neighbours = grid.get_close_colliders(position);
    proof {
        assert forall|i: int| 0 <= i < neighbours@.len() implies neighbours@[i] < ps.len() by {
            let e = neighbours@[i];
            assert(neighbours@.contains(e));
            assert(in_close_cells(*grid, position, e));
            let (c, r): (int, int) = choose|c: int, r: int|
                #![trigger cell_ok(*grid, c, r)]
                col_of(*grid, position.x as int) - 1 <= c <= col_of(*grid, position.x as int) + 1
                    && row_of(*grid, position.y as int) - 1 <= r <= row_of(
                    *grid,
                    position.y as int,
                ) + 1 && cell_ok(*grid, c, r) && grid.cells@[cell_index(*grid, c, r)]@.contains(e);
            lemma_cell_index_bounds(*grid, c, r);
            let ci = cell_index(*grid, c, r);
            let mm = choose|mm: int| 0 <= mm < grid.cells@[ci]@.len() && grid.cells@[ci]@[mm] == e;
            assert(grid.cells@[ci]@[mm] < ps.len());
        }
    }
    let mut m: usize = 0;
    while m < neighbours.len()
        invariant
            0 <= m <= neighbours@.len(),
            wf_grid(*grid),
            grid_sound(*grid, ps),
            wf_particles(ps),
            ps == particles@,
            crate::vector2::in_range(position),
            0 <= radius,
            forall|k: int|
                0 <= k < ps.len() ==> radius + (#[trigger] ps[k]).radius <= grid.cell_width
                    && radius + ps[k].radius <= grid.cell_height,
            forall|e: usize| neighbours@.contains(e) <==> in_close_cells(*grid, position, e),
            forall|i: int|
                0 <= i < m ==> dist_sq(position, ps[neighbours@[i] as int].position) >= (radius
                    + ps[neighbours@[i] as int].radius) * (radius + ps[neighbours@[i] as int].radius),
            forall|i: int| 0 <= i < neighbours@.len() ==> neighbours@[i] < ps.len(),
        decreases neighbours@.len() - m,
    {
        let idx = neighbours[m];
        let q = particles[idx];
        let dx: i128 = position.x as i128 - q.position.x as i128;
        let dy: i128 = position.y as i128 - q.position.y as i128;
        let rr: i128 = radius as i128 + q.radius as i128;
        proof {
            lemma_mul_magnitude(dx as int, dx as int, 0x40_0000_0000_0000, 0x40_0000_0000_0000);
            lemma_mul_magnitude(dy as int, dy as int, 0x40_0000_0000_0000, 0x40_0000_0000_0000);
            lemma_mul_magnitude(rr as int, rr as int, 0x40_0000_0000_0000, 0x40_0000_0000_0000);
        }
        if dx * dx + dy * dy < rr * rr {
            proof {
                assert(!spot_is_free(position, radius, ps));
            }
            return false;
        }
        m = m + 1;
    }
    proof {
        assert forall|k: int|
            0 <= k < ps.len() implies dist_sq(position, #[trigger] ps[k].position) >= (radius
                + ps[k].radius) * (radius + ps[k].radius) by {
            if dist_sq(position, ps[k].position) < (radius + ps[k].radius) * (radius
                + ps[k].radius) {
                lemma_broad_phase_superset(*grid, ps, position, radius, k);
                assert(neighbours@.contains(k as usize));
                let i = choose|i: int| 0 <= i < neighbours@.len() && neighbours@[i] == k as usize;
                assert(ps.len() == n);
                assert(neighbours@[i] as int == k);
                assert(dist_sq(position, ps[neighbours@[i] as int].position) >= (radius
                    + ps[neighbours@[i] as int].radius) * (radius + ps[neighbours@[i] as int].radius));
            }
        }
    }
    true
}

impl UniformGrid {
    /// Rejection-sample a position for a new particle of the given
    /// radius: uniform inside the boundary shrunk by the radius, and
    /// overlapping no particle registered in the grid.  Fails with
    /// `RadiusTooLarge` when the radius does not fit a cell, and with
    /// `PlacementExhausted` when every sampled position in the budget
    /// was taken.
    pub fn try_get_none_overlaping_position(
        &self,
        particle_radius: i64,
        particles: &Vec<Particle>,
        max_attempts_per_particle: usize,
        rng: &mut rand_pcg::Pcg64Mcg,
    ) -> (r: Result<Vector2, PlacementError>)
        requires
            wf_grid(*self),
            grid_covers(*self, particles@),
            grid_sound(*self, particles@),
            wf_particles(particles@),
            0 < particle_radius,
            self.boundary.min.x + particle_radius < self.boundary.max.x - particle_radius,
            self.boundary.min.y + particle_radius < self.boundary.max.y - particle_radius,
            forall|k: int|
                0 <= k < particles@.len() ==> particle_radius + (#[trigger] particles@[k]).radius
                    <= self.cell_width && particle_radius + particles@[k].radius
                    <= self.cell_height,
        ensures
            r matches Ok(pos) ==> {
                &&& self.boundary.min.x + particle_radius <= pos.x < self.boundary.max.x
                    - particle_radius
                &&& self.boundary.min.y + particle_radius <= pos.y < self.boundary.max.y
                    - particle_radius
                &&& spot_is_free(pos, particle_radius, particles@)
            },
            r == Err::<Vector2, PlacementError>(PlacementError::RadiusTooLarge)
                <==> particle_radius > self.cell_height,
            particles@.len() == 0 && max_attempts_per_particle >= 1 && particle_radius
                <= self.cell_height ==> r is Ok,
            max_attempts_per_particle == 0 && particle_radius <= self.cell_height ==> r
                == Err::<Vector2, PlacementError>(PlacementError::PlacementExhausted),
    {
        if particle_radius > self.cell_height {
            return Err(PlacementError::RadiusTooLarge);
        }
        let lo = Vector2 {
            x: self.boundary.min.x + particle_radius,
            y: self.boundary.min.y + particle_radius,
        };
        let hi = Vector2 {
            x: self.boundary.max.x - particle_radius,
            y: self.boundary.max.y - particle_radius,
        };
        let mut attempt: usize = 0;
        while attempt < max_attempts_per_particle
            invariant
                wf_grid(*self),
                grid_covers(*self, particles@),
                grid_sound(*self, particles@),
                wf_particles(particles@),
                0 < particle_radius <= self.cell_height,
                lo.x == self.boundary.min.x + particle_radius,
                lo.y == self.boundary.min.y + particle_radius,
                hi.x == self.boundary.max.x - particle_radius,
                hi.y == self.boundary.max.y - particle_radius,
                lo.x < hi.x,
                lo.y < hi.y,
                forall|k: int|
                    0 <= k < particles@.len() ==> particle_radius + (
                    #[trigger] particles@[k]).radius <= self.cell_width && particle_radius
                        + particles@[k].radius <= self.cell_height,
                particles@.len() == 0 ==> attempt == 0,
            decreases max_attempts_per_particle - attempt,
        {
            let position = Vector2::random_min_max(rng, lo, hi);
            if position_is_free(self, position, particle_radius, particles) {
                return Ok(position);
            }
            proof {
                assert(particles@.len() > 0);
            }
            attempt = attempt + 1;
        }
        Err(PlacementError::PlacementExhausted)
    }
}

} // verus!
