//! Vector arithmetic, geometry and grid behavior on concrete values.
//! All quantities are fixed-point with 1e8 units per world unit.

use particle_sim::fixed::{fp_add, fp_div, fp_mul, FP_SCALE};
use particle_sim::geometry::{Particle, Rectangle};
use particle_sim::rng::rng_from_seed;
use particle_sim::uniform_grid::{PlacementError, UniformGrid};
use particle_sim::vector2::{dot, Vector2};

const S: i64 = 100_000_000;

fn v(x: i64, y: i64) -> Vector2 {
    Vector2::new(x, y)
}

fn particle(x: i64, y: i64, radius: i64) -> Particle {
    Particle { mass: S, position: v(x, y), velocity: v(0, 0), radius, color: 0 }
}

#[test]
fn fixed_point_ops() {
    assert_eq!(FP_SCALE, S);
    assert_eq!(fp_add(3 * S, 4 * S), 7 * S);
    assert_eq!(fp_mul(2 * S, 3 * S), 6 * S);
    assert_eq!(fp_mul(S / 2, S / 2), S / 4);
    assert_eq!(fp_div(S, 2 * S), S / 2);
    // rounding is toward zero
    assert_eq!(fp_div(1, 3 * S), 0);
    assert_eq!(fp_mul(-3, S / 2), -1);
}

#[test]
fn vector_arithmetic() {
    let a = v(S, 2 * S);
    let b = v(3 * S, 4 * S);
    assert_eq!(a.add(b), v(4 * S, 6 * S));
    assert_eq!(b.sub(a), v(2 * S, 2 * S));
    assert_eq!(a.neg(), v(-S, -2 * S));
    assert_eq!(a.scale(S / 2), v(S / 2, S));
    assert_eq!(dot(a, b), 11 * S);
}

#[test]
fn vector_length() {
    let a = v(3 * S, 4 * S);
    assert_eq!(a.length(), 5 * S);
    assert_eq!(a.length_squared(), 25 * S);
    assert_eq!(v(0, 0).length(), 0);
}

#[test]
fn vector_normalized() {
    let n = v(3 * S, 4 * S).normalized();
    assert_eq!(n, v(60_000_000, 80_000_000));
    let m = v(0, -7 * S).normalized();
    assert_eq!(m, v(0, -S));
}

#[test]
fn vector_reflect() {
    let r = v(S, -S).reflect(v(0, S));
    assert_eq!(r, v(S, S));
}

#[test]
fn vector_lerp() {
    let mid = Vector2::lerp(v(0, 0), v(S, 2 * S), S / 2);
    assert_eq!(mid, v(S / 2, S));
    let start = Vector2::lerp(v(5, 7), v(S, S), 0);
    assert_eq!(start, v(5, 7));
}

#[test]
fn random_vectors_stay_in_bounds() {
    let mut rng = rng_from_seed(11);
    for _ in 0..50 {
        let p = Vector2::random_min_max(&mut rng, v(0, 0), v(S, 2 * S));
        assert!(0 <= p.x && p.x < S);
        assert!(0 <= p.y && p.y < 2 * S);
        let q = Vector2::random_in_square(&mut rng, -S, S);
        assert!(-S <= q.x && q.x < S);
        assert!(-S <= q.y && q.y < S);
        let d = Vector2::random_in_disk(&mut rng);
        assert!((d.x as i128) * (d.x as i128) + (d.y as i128) * (d.y as i128) < (S as i128) * (S as i128));
        let w = Vector2::random_in_disk_scaled(&mut rng, 50_000_000);
        let wsq = (w.x as i128) * (w.x as i128) + (w.y as i128) * (w.y as i128);
        assert!(wsq <= 50_000_000i128 * 50_000_000i128);
    }
}

#[test]
fn rectangle_queries() {
    let rect = Rectangle { min: v(0, 0), max: v(2 * S, S) };
    assert_eq!(rect.width(), 2 * S);
    assert_eq!(rect.height(), S);
    assert!(rect.contains(v(S, S / 2)));
    assert!(rect.contains(v(0, 0)));
    assert!(!rect.contains(v(S, 2 * S)));
}

#[test]
fn particle_overlap() {
    let a = particle(0, 0, 10_000_000);
    let b = particle(15_000_000, 0, 10_000_000);
    let c = particle(30_000_000, 0, 10_000_000);
    assert!(a.collides(&b));
    assert!(!a.collides(&c));
    // touching exactly is not a strict overlap
    let d = particle(20_000_000, 0, 10_000_000);
    assert!(!a.collides(&d));
}

#[test]
fn grid_cell_layout() {
    let boundary = Rectangle { min: v(0, 0), max: v(2 * S, S) };
    let grid = UniformGrid::with_cell_size(boundary, 25_000_000);
    assert_eq!(grid.n_col, 8);
    assert_eq!(grid.n_row, 4);
    assert_eq!(grid.cell_width, 25_000_000);
    assert_eq!(grid.cell_height, 25_000_000);
    let (col, row) = grid.get_cell_indices(v(30_000_000, 60_000_000));
    assert_eq!((col, row), (1, 2));
    // out-of-domain points clamp to the border cells
    let (col, row) = grid.get_cell_indices(v(-S, 9 * S));
    assert_eq!((col, row), (0, 3));
}

#[test]
fn grid_close_colliders_superset() {
    let boundary = Rectangle { min: v(0, 0), max: v(2 * S, S) };
    let mut grid = UniformGrid::with_cell_size(boundary, 25_000_000);
    let near = particle(30_000_000, 30_000_000, 10_000_000);
    let far = particle(180_000_000, 80_000_000, 10_000_000);
    grid.add_particle(0, &near);
    grid.add_particle(1, &far);
    // a query point overlapping `near` sees it in the candidate set
    let candidates = grid.get_close_colliders(v(35_000_000, 30_000_000));
    assert!(candidates.contains(&0));
    assert!(!candidates.contains(&1));
}

#[test]
fn grid_insertion_is_idempotent() {
    let boundary = Rectangle { min: v(0, 0), max: v(2 * S, S) };
    let mut grid = UniformGrid::with_cell_size(boundary, 25_000_000);
    let p = particle(30_000_000, 30_000_000, 10_000_000);
    grid.add_particle(0, &p);
    grid.add_particle(0, &p);
    let (col, row) = grid.get_cell_indices(p.position);
    let ci = grid.get_cell_index(col, row);
    assert_eq!(grid.cells[ci], vec![0]);
}

#[test]
fn grid_from_particles_matches_seeded_layout() {
    // largest radius 0.125 seeds 0.25 cells: the same layout as the
    // explicit 0.25 seed
    let boundary = Rectangle { min: v(0, 0), max: v(2 * S, S) };
    let ps = vec![
        particle(30_000_000, 30_000_000, 10_000_000),
        particle(S, S / 2, 12_500_000),
    ];
    let grid = UniformGrid::new(boundary, &ps);
    assert_eq!(grid.n_col, 8);
    assert_eq!(grid.n_row, 4);
    assert_eq!(grid.cell_width, 25_000_000);
    assert_eq!(grid.cell_height, 25_000_000);
    // an empty list seeds with the smaller dimension
    let empty: Vec<Particle> = Vec::new();
    let grid = UniformGrid::new(boundary, &empty);
    assert_eq!(grid.n_col, 2);
    assert_eq!(grid.n_row, 1);
    assert_eq!(grid.cell_width, S);
    assert_eq!(grid.cell_height, S);
}

#[test]
fn placement_zero_attempts_exhausts() {
    let boundary = Rectangle { min: v(0, 0), max: v(2 * S, S) };
    let grid = UniformGrid::with_cell_size(boundary, 10_000_000);
    let particles: Vec<Particle> = Vec::new();
    let mut rng = rng_from_seed(4);
    let r = grid.try_get_none_overlaping_position(5_000_000, &particles, 0, &mut rng);
    assert_eq!(r, Err(PlacementError::PlacementExhausted));
}

#[test]
fn placement_radius_too_large() {
    let boundary = Rectangle { min: v(0, 0), max: v(S, S) };
    let grid = UniformGrid::with_cell_size(boundary, 10_000_000);
    let particles: Vec<Particle> = Vec::new();
    let mut rng = rng_from_seed(3);
    let r = grid.try_get_none_overlaping_position(12_000_000, &particles, 5, &mut rng);
    assert_eq!(r, Err(PlacementError::RadiusTooLarge));
}

#[test]
fn placement_exhausted_when_no_room() {
    // a 0.2 x 0.2 box with one radius-0.05 particle dead center:
    // every admissible sample is within 0.1 of the center
    let boundary = Rectangle { min: v(0, 0), max: v(20_000_000, 20_000_000) };
    let mut grid = UniformGrid::with_cell_size(boundary, 10_000_000);
    let center = particle(10_000_000, 10_000_000, 5_000_000);
    let particles = vec![center];
    grid.add_particle(0, &center);
    let mut rng = rng_from_seed(5);
    let r = grid.try_get_none_overlaping_position(5_000_000, &particles, 64, &mut rng);
    assert_eq!(r, Err(PlacementError::PlacementExhausted));
}

#[test]
fn placement_found_in_open_space() {
    let boundary = Rectangle { min: v(0, 0), max: v(2 * S, S) };
    let grid = UniformGrid::with_cell_size(boundary, 10_000_000);
    let particles: Vec<Particle> = Vec::new();
    let mut rng = rng_from_seed(8);
    let r = grid.try_get_none_overlaping_position(5_000_000, &particles, 5, &mut rng);
    let pos = r.unwrap();
    assert!(5_000_000 <= pos.x && pos.x < 2 * S - 5_000_000);
    assert!(5_000_000 <= pos.y && pos.y < S - 5_000_000);
}
