use particle_mesh::effects::{
    GravityWell, MouseMode, MouseState, Shockwave, ShockwaveManager, MAX_SHOCKWAVES,
};
use particle_mesh::fixed::{floor_div, isqrt, mul_div};
use particle_mesh::physics::{apply_gravity_well, apply_mouse_influence, apply_shockwave};
use particle_mesh::point::Point;
use particle_mesh::rng::Rng;
use particle_mesh::spatial_grid::SpatialGrid;
use particle_mesh::triangulation::{
    build_buffers, generate_ghost_points, triangulate, TriangulationBuffers,
};
use particle_mesh::Simulation;

fn at_rest(x: i64, y: i64) -> Point {
    Point { x, y, z: 0, base_x: x, base_y: y, vx: 0, vy: 0, dx: 0, dy: 0 }
}

#[test]
fn rng_zero_seed_becomes_one() {
    let mut a = Rng::new(0);
    let mut b = Rng::new(1);
    assert_eq!(a.next(), 270369);
    assert_eq!(b.next(), 270369);
}

#[test]
fn rng_scaled_stays_in_bound() {
    let mut r = Rng::new(42);
    for _ in 0..1000 {
        assert!(r.next_scaled(1000) < 1000);
    }
}

#[test]
fn rng_draw_never_reaches_its_bound() {
    // The first state after this seed is u32::MAX.
    let mut r = Rng::new(1_584_200_935);
    let mut probe = r.clone();
    assert_eq!(probe.next(), u32::MAX);
    assert_eq!(r.next_scaled(1000), 999);
    let sim = Simulation::new(800_000, 600_000, 3, 1_584_200_935);
    let mut sim = sim;
    sim.triangulate();
    assert!(sim.get_point_vertices()[0] < 800_000);
}

#[test]
fn fixed_helpers() {
    assert_eq!(isqrt(99), 9);
    assert_eq!(isqrt(100), 10);
    assert_eq!(isqrt(0), 0);
    assert_eq!(mul_div(-7, 3, 2), -10);
    assert_eq!(mul_div(7, 3, 2), 10);
    assert_eq!(floor_div(-1, 1000), -1);
    assert_eq!(floor_div(1999, 1000), 1);
}

#[test]
fn mouse_mode_codes() {
    assert_eq!(MouseMode::from_u32(0), MouseMode::Push);
    assert_eq!(MouseMode::from_u32(1), MouseMode::Pull);
    assert_eq!(MouseMode::from_u32(2), MouseMode::Swirl);
    assert_eq!(MouseMode::from_u32(7), MouseMode::Push);
}

#[test]
fn shockwave_strength_is_clamped() {
    assert_eq!(Shockwave::new(0, 0, 600_000).strength, 500_000);
    assert_eq!(Shockwave::new(0, 0, -5).strength, 0);
    let mut w = Shockwave::new(10, 20, 100_000);
    w.update();
    assert_eq!(w.radius, 12_000);
    assert_eq!(w.strength, 96_000);
    assert!(w.is_active());
}

#[test]
fn shockwave_capacity_evicts_oldest() {
    let mut m = ShockwaveManager::new();
    for i in 0..11i64 {
        m.add(i * 1000, 0, 100_000);
    }
    assert_eq!(m.iter().len(), MAX_SHOCKWAVES);
    assert_eq!(m.iter()[0].x, 1000);
    assert_eq!(m.iter()[9].x, 10_000);
}

#[test]
fn shockwave_decays_and_is_pruned() {
    let mut m = ShockwaveManager::new();
    m.add(0, 0, 500_000);
    let mut last = 500_000;
    let mut ticks = 0;
    while !m.iter().is_empty() {
        m.update();
        ticks += 1;
        if let Some(w) = m.iter().first() {
            assert!(w.strength < last);
            assert!(w.strength > 500);
            last = w.strength;
        }
        assert!(ticks <= 170);
    }
    assert!(ticks > 100);
    assert_eq!(m.max_radius(60_000), 0);
}

#[test]
fn shockwave_max_radius() {
    let mut m = ShockwaveManager::new();
    m.add(0, 0, 100_000);
    m.update();
    m.add(0, 0, 100_000);
    assert_eq!(m.max_radius(60_000), 72_000);
}

#[test]
fn gravity_well_constructors() {
    let a = GravityWell::attract(1, 2);
    let mut r = GravityWell::repel(3, 4);
    assert_eq!(a.strength, 3);
    assert_eq!(r.strength, -5);
    r.set_position(7, 8);
    assert_eq!((r.x, r.y, r.strength), (7, 8, -5));
}

#[test]
fn mouse_velocity_is_smoothed_and_decays() {
    let mut m = MouseState::new();
    m.update(10_000, 0, true, 150_000, 80_000, 1);
    assert_eq!(m.vx, 4000);
    assert_eq!(m.mode, MouseMode::Pull);
    m.update(20_000, 0, true, 150_000, 80_000, 0);
    assert_eq!(m.vx, 6400);
    m.update(20_000, 0, false, 150_000, 80_000, 0);
    assert_eq!(m.vx, 5760);
    assert_eq!(m.prev_x, 20_000);
    let s = MouseState { vx: 3000, vy: 4000, ..MouseState::new() };
    assert_eq!(s.speed(), 5000);
}

#[test]
fn spring_step_rejoins_rest_position() {
    let mut p = Point { x: 5_000, y: 7_000, z: 0, base_x: 1_000, base_y: 2_000, vx: 0, vy: 0, dx: 300, dy: -200 };
    p.apply_spring(60, 920);
    assert_eq!(p.dx, 55);
    assert_eq!(p.dy, -460);
    assert_eq!(p.x, p.base_x + p.dx);
    assert_eq!(p.y, p.base_y + p.dy);
}

#[test]
fn drift_wraps_once_past_the_far_edge() {
    let mut p = Point { vx: 500, vy: -500, ..at_rest(999_990, 10) };
    p.update_position(10_000, 10_000, 1_000_000, 1_000_000);
    assert_eq!(p.base_x, 49_990);
    assert_eq!(p.base_y, 950_010);
    assert!(p.base_x >= 0 && p.base_x < 1_000_000);
}

#[test]
fn drift_without_wrap() {
    let mut p = Point { vx: 500, vy: 250, ..at_rest(1000, 1000) };
    p.update_position(16, 1000, 800_000, 600_000);
    assert_eq!(p.base_x, 1008);
    assert_eq!(p.base_y, 1004);
}

#[test]
fn rescale_keeps_velocity() {
    let mut p = Point { vx: 100, dx: 5, ..at_rest(400_000, 300_000) };
    p.scale(1_600_000, 800_000, 300_000, 600_000);
    assert_eq!((p.x, p.base_x, p.y, p.base_y), (800_000, 800_000, 150_000, 150_000));
    assert_eq!((p.vx, p.dx), (100, 5));
}

#[test]
fn height_at_center() {
    assert_eq!(Point::calculate_height(0, 400_000, 300_000, 800_000, 600_000, 600), 300);
    assert_eq!(Point::calculate_height(1000, 0, 0, 800_000, 600_000, 1000), 700);
    assert_eq!(Point::calculate_height(-1000, 0, 0, 800_000, 600_000, 1000), 0);
}

#[test]
fn random_points_lie_in_bounds() {
    let mut r = Rng::new(42);
    for _ in 0..200 {
        let p = Point::new_random(&mut r, 800_000, 600_000);
        assert!(p.x >= 0 && p.x < 800_000 && p.y >= 0 && p.y < 600_000);
        assert!(p.vx >= -500 && p.vx < 500 && p.vy >= -500 && p.vy < 500);
        assert_eq!((p.base_x, p.base_y, p.dx, p.dy), (p.x, p.y, 0, 0));
    }
}

#[test]
fn grid_shape() {
    let g = SpatialGrid::new(800_000, 600_000, 150_000);
    assert_eq!(g.cell_size(), 150_000);
    let small = SpatialGrid::new(800_000, 600_000, 10);
    assert_eq!(small.cell_size(), 1000);
}

#[test]
fn grid_query_has_no_false_negatives() {
    let mut g = SpatialGrid::new(800_000, 600_000, 50_000);
    let pts: Vec<(i64, i64)> = (0..400i64)
        .map(|i| ((i * 37_017) % 800_000, (i * 91_331) % 600_000))
        .collect();
    for (i, (x, y)) in pts.iter().enumerate() {
        g.insert(i, *x, *y);
    }
    let (cx, cy, r) = (400_000i64, 300_000i64, 120_000i64);
    let got = g.query_radius(cx, cy, r);
    for (i, (x, y)) in pts.iter().enumerate() {
        let d = (x - cx) * (x - cx) + (y - cy) * (y - cy);
        if d <= r * r {
            assert!(got.contains(&i));
        }
    }
    assert!(got.len() < pts.len());
}

#[test]
fn grid_query_at_cell_boundary() {
    let mut g = SpatialGrid::new(800_000, 600_000, 50_000);
    g.insert(7, 100_000, 0);
    let got = g.query_radius(50_000, 0, 50_000);
    assert!(got.contains(&7));
}

#[test]
fn grid_query_reaches_points_beyond_the_edge() {
    let mut g = SpatialGrid::new(800_000, 600_000, 50_000);
    g.insert(3, 900_000, 650_000);
    assert!(g.query_radius(900_000, 650_000, 1_000).contains(&3));
    g.clear();
    assert!(g.query_radius(900_000, 650_000, 1_000).is_empty());
}

fn pointer_at_origin(mode: u32) -> MouseState {
    let mut m = MouseState::new();
    m.update(0, 0, true, 150_000, 80_000, mode);
    m
}

#[test]
fn pointer_push_value() {
    let mut pts = vec![at_rest(100_000, 0)];
    let mut g = SpatialGrid::new(1_000_000, 1_000_000, 150_000);
    g.insert(0, 100_000, 0);
    apply_mouse_influence(&mut pts, &pointer_at_origin(0), 300, &g);
    assert_eq!(pts[0].dx, 1664);
    assert_eq!(pts[0].dy, 0);
    assert_eq!(pts[0].x, 100_000);
}

#[test]
fn pointer_pull_and_swirl() {
    let mut g = SpatialGrid::new(1_000_000, 1_000_000, 150_000);
    g.insert(0, 100_000, 0);
    let mut pull = vec![at_rest(100_000, 0)];
    apply_mouse_influence(&mut pull, &pointer_at_origin(1), 300, &g);
    assert_eq!(pull[0].dx, -832);
    let mut swirl = vec![at_rest(100_000, 0)];
    apply_mouse_influence(&mut swirl, &pointer_at_origin(2), 300, &g);
    assert_eq!(swirl[0].dx, 332);
    assert_eq!(swirl[0].dy, 1164);
}

#[test]
fn pointer_out_of_bounds_does_nothing() {
    let mut pts = vec![at_rest(100_000, 0)];
    let mut g = SpatialGrid::new(1_000_000, 1_000_000, 150_000);
    g.insert(0, 100_000, 0);
    let mut m = MouseState::new();
    m.update(0, 0, false, 150_000, 80_000, 0);
    apply_mouse_influence(&mut pts, &m, 300, &g);
    assert_eq!(pts[0].dx, 0);
}

#[test]
fn gravity_value_and_min_distance() {
    let mut pts = vec![at_rest(100_000, 0), at_rest(5_000, 0)];
    let mut g = SpatialGrid::new(1_000_000, 1_000_000, 150_000);
    g.insert(0, 100_000, 0);
    g.insert(1, 5_000, 0);
    apply_gravity_well(&mut pts, &GravityWell::attract(0, 0), &g);
    assert_eq!(pts[0].dx, -300);
    assert_eq!(pts[1].dx, -375);
}

#[test]
fn shockwave_push_value() {
    let mut pts = vec![at_rest(30_000, 0), at_rest(200_000, 0)];
    let mut g = SpatialGrid::new(1_000_000, 1_000_000, 150_000);
    g.insert(0, 30_000, 0);
    g.insert(1, 200_000, 0);
    apply_shockwave(&mut pts, &Shockwave::new(0, 0, 500_000), &g);
    assert_eq!(pts[0].dx, 37_500);
    assert_eq!(pts[1].dx, 0);
}

#[test]
fn ghost_points_near_a_corner() {
    let pts = vec![at_rest(10_000, 10_000), at_rest(500_000, 300_000)];
    let ghosts = generate_ghost_points(&pts, 1_000_000, 600_000);
    assert_eq!(ghosts.len(), 3);
    assert_eq!(ghosts[0], (1_010_000, 10_000, 0));
    assert_eq!(ghosts[1], (10_000, 610_000, 0));
    assert_eq!(ghosts[2], (1_010_000, 610_000, 0));
}

#[test]
fn buffers_from_one_triangle() {
    let pts = vec![Point { z: 30, ..at_rest(0, 0) }, at_rest(3, 0), at_rest(0, 3)];
    let verts = vec![(0, 0, 30), (3, 0, 0), (0, 3, 0)];
    let mut b = TriangulationBuffers::new();
    build_buffers(&pts, &verts, &vec![0, 1, 2], &mut b);
    assert_eq!(b.triangle_count(), 1);
    assert_eq!(&b.triangle_vertices[0..6], &[0, 0, 10, 1, 1, 1]);
    assert_eq!(b.stroke_vertices, vec![0, 0, 3, 0, 3, 0, 0, 3, 0, 3, 0, 0]);
    assert_eq!(b.point_vertices, vec![0, 0, 3, 0, 0, 3]);
    assert_eq!(b.stroke_vertex_count(), 6);
}

#[test]
fn triangulation_buffer_lengths() {
    let mut r = Rng::new(7);
    let pts: Vec<Point> = (0..50).map(|_| Point::new_random(&mut r, 800_000, 600_000)).collect();
    let mut b = TriangulationBuffers::new();
    let n = triangulate(&pts, 800_000, 600_000, &mut b);
    assert!(n >= 1);
    assert_eq!(b.triangle_vertices.len(), n * 18);
    assert_eq!(b.stroke_vertices.len(), n * 12);
    assert_eq!(b.point_vertices.len(), 100);
}

#[test]
fn triangulation_of_three_points() {
    let pts = vec![at_rest(400_000, 300_000), at_rest(401_000, 300_000), at_rest(402_000, 300_000)];
    let mut b = TriangulationBuffers::new();
    let n = triangulate(&pts, 800_000, 600_000, &mut b);
    assert!(n >= 1);
    assert_eq!(b.triangle_vertices.len(), n * 18);
}

#[test]
fn end_to_end_tick() {
    let mut sim = Simulation::new(800_000, 600_000, 100, 42);
    let n = sim.tick(16, 1000, 400_000, 300_000, true, 150_000, 80_000, 0);
    assert_eq!(sim.get_point_count(), 100);
    assert!(sim.get_triangle_count() >= 1);
    assert_eq!(n, sim.get_triangle_count());
    assert_eq!(sim.get_point_vertices().len(), 200);
    assert_eq!(sim.get_stroke_vertex_count(), n * 6);
    assert_eq!(sim.get_buffer_sizes(), (n * 18, n * 12, 200));
}

fn drive(sim: &mut Simulation) -> usize {
    sim.set_physics_params(80, 900, 500);
    sim.trigger_shockwave(200_000, 200_000, 300_000);
    sim.set_gravity_well(600_000, 400_000, true, false);
    let mut n = 0;
    for i in 0..30i64 {
        n = sim.tick(16, 1500, 300_000 + i * 4000, 300_000, i % 7 != 0, 120_000, 90_000, (i % 3) as u32);
        if i == 10 {
            sim.update_gravity_well_position(500_000, 100_000);
            sim.trigger_shockwave(700_000, 500_000, 600_000);
        }
    }
    n
}

#[test]
fn identical_runs_give_identical_buffers() {
    let mut a = Simulation::new(800_000, 600_000, 120, 9);
    let mut b = Simulation::new(800_000, 600_000, 120, 9);
    assert_eq!(drive(&mut a), drive(&mut b));
    assert_eq!(a.get_triangle_vertices(), b.get_triangle_vertices());
    assert_eq!(a.get_stroke_vertices(), b.get_stroke_vertices());
    assert_eq!(a.get_point_vertices(), b.get_point_vertices());
}

#[test]
fn inputs_are_clamped() {
    let mut sim = Simulation::new(0, 1_000_000_000, 1, 0);
    assert_eq!(sim.get_point_count(), 3);
    sim.set_point_count(20_000, 5);
    assert_eq!(sim.get_point_count(), 10_000);
    sim.set_point_count(10, 5);
    assert_eq!(sim.get_point_count(), 10);
    sim.set_noise_params(0, 5000);
    assert_eq!(sim.get_noise_scale(), 100);
    let n = sim.tick(1_000_000, 1_000_000, i64::MAX, i64::MIN, true, i64::MAX, i64::MAX, 9);
    assert_eq!(sim.get_point_vertices().len(), 20);
    assert_eq!(sim.get_triangle_vertices().len(), n * 18);
}

#[test]
fn set_point_count_grows_from_seed() {
    let mut a = Simulation::new(800_000, 600_000, 5, 1);
    a.set_point_count(8, 3);
    let mut b = Simulation::new(800_000, 600_000, 5, 1);
    b.set_point_count(8, 3);
    a.triangulate();
    b.triangulate();
    assert_eq!(a.get_point_vertices(), b.get_point_vertices());
    assert_eq!(a.get_point_count(), 8);
}

#[test]
fn resize_scales_points() {
    let mut sim = Simulation::new(800_000, 600_000, 10, 4);
    sim.triangulate();
    let before = sim.get_point_vertices().clone();
    sim.resize(1_600_000, 600_000);
    sim.triangulate();
    let after = sim.get_point_vertices();
    assert_eq!(after[0], before[0] * 2);
    assert_eq!(after[1], before[1]);
}

#[test]
fn heights_from_samples() {
    let mut sim = Simulation::new(800_000, 600_000, 4, 4);
    let pos = sim.height_sample_positions(1);
    assert_eq!(pos.len(), 3);
    sim.apply_height_samples(1, &vec![5000, -5000, 0]);
    sim.triangulate();
    assert!(sim.get_triangle_count() >= 1);
}

#[test]
fn triangles_tile_the_anchored_rectangle() {
    // Away from the edges, so that no particle gets ghosts and the hull is
    // the rectangle of the corner anchors.
    let pts: Vec<Point> = (0..40i64)
        .map(|i| at_rest(200_000 + (i * 37_019) % 400_000, 150_000 + (i * 71_993) % 300_000))
        .collect();
    let mut b = TriangulationBuffers::new();
    let n = triangulate(&pts, 800_000, 600_000, &mut b);
    let v = &b.triangle_vertices;
    let mut twice_area: i128 = 0;
    for t in 0..n {
        let o = t * 18;
        let (x0, y0) = (v[o] as i128, v[o + 1] as i128);
        let (x1, y1) = (v[o + 6] as i128, v[o + 7] as i128);
        let (x2, y2) = (v[o + 12] as i128, v[o + 13] as i128);
        twice_area += ((x1 - x0) * (y2 - y0) - (x2 - x0) * (y1 - y0)).abs();
    }
    assert_eq!(twice_area, 2 * 802_000 * 602_000);
}
