//! Determinism: the simulation's state after any call depends on its state
//! before and the call's arguments alone, so two simulations created alike
//! and driven by the same calls hold the same buffers.
use vstd::prelude::*;
use crate::effects::{GravityWell, MouseState, Shockwave};
use crate::fixed::clamp;
use crate::physics::{gravity_pass, mouse_boost, mouse_pass, GRAVITY_WELL_MAX_RANGE};
use crate::point::{Point, MAX_DELTA_TIME, MAX_SPEED};
use crate::simulation::{
    count_set, created, forced, frame_stepped, heights_applied, lemma_wf_grid, mouse_reported,
    noise_set, physics_set, resized, same_settings, stepped, ticked_sim, triangulated,
    wave_triggered, waves_pass, well_set, Simulation,
};
use crate::spatial_grid::SpatialGrid;

verus! {

/// Grids with the same shape and contents.
pub open spec fn same_grid(a: SpatialGrid, b: SpatialGrid) -> bool {
    &&& a.cells() == b.cells()
    &&& a.cols() == b.cols()
    &&& a.rows() == b.rows()
    &&& a.cell() == b.cell()
    &&& a.extent_x() == b.extent_x()
    &&& a.extent_y() == b.extent_y()
}

/// `a` and `b` are in the same state: everything a later call reads or
/// returns is equal.
pub open spec fn same_state(a: Simulation, b: Simulation) -> bool {
    &&& a.points() == b.points()
    &&& same_settings(a, b)
    &&& same_grid(*a.grid(), *b.grid())
    &&& a.buffers().triangle_vertices@ == b.buffers().triangle_vertices@
    &&& a.buffers().stroke_vertices@ == b.buffers().stroke_vertices@
    &&& a.buffers().point_vertices@ == b.buffers().point_vertices@
}

proof fn lemma_waves_pass_same_grid(ps: Seq<Point>, ws: Seq<Shockwave>, ga: SpatialGrid, gb: SpatialGrid)
    requires
        same_grid(ga, gb),
    ensures
        waves_pass(ps, ws, ga) == waves_pass(ps, ws, gb),
    decreases ws.len(),
{
    if ws.len() > 0 {
        lemma_waves_pass_same_grid(ps, ws.drop_last(), ga, gb);
    }
}

proof fn lemma_forced_same_grid(
    ps: Seq<Point>,
    m: MouseState,
    influence: int,
    well: Option<GravityWell>,
    ws: Seq<Shockwave>,
    ga: SpatialGrid,
    gb: SpatialGrid,
)
    requires
        same_grid(ga, gb),
    ensures
        forced(ps, m, influence, well, ws, ga) == forced(ps, m, influence, well, ws, gb),
{
    let a = if m.in_canvas {
        mouse_pass(ps, ga.gathered(m.x as int, m.y as int, m.radius as int), m, mouse_boost(m, influence))
    } else {
        ps
    };
    let b = match well {
        Some(w) => gravity_pass(a, ga.gathered(w.x as int, w.y as int, GRAVITY_WELL_MAX_RANGE as int), w),
        None => a,
    };
    lemma_waves_pass_same_grid(b, ws, ga, gb);
}

/// Determinism of a frame: two simulations in the same state are in the
/// same state again after the same `update_points`.
pub proof fn lemma_frame_deterministic(
    a0: Simulation,
    a1: Simulation,
    b0: Simulation,
    b1: Simulation,
    delta_time: i64,
    speed: i64,
)
    requires
        a0.wf(),
        b0.wf(),
        same_state(a0, b0),
        frame_stepped(a0, a1, delta_time, speed),
        frame_stepped(b0, b1, delta_time, speed),
    ensures
        same_state(a1, b1),
{
    let ga = *a1.grid();
    let gb = *b1.grid();
    lemma_wf_grid(a1);
    lemma_wf_grid(b1);
    assert(ga.cols() == gb.cols() && ga.rows() == gb.rows());
    assert(same_grid(ga, gb));
    let ps = stepped(
        a0.points(),
        clamp(delta_time as int, 0, MAX_DELTA_TIME as int),
        clamp(speed as int, 0, MAX_SPEED as int),
        a0.extent_x(),
        a0.extent_y(),
        a0.spring_back(),
        a0.damping(),
    );
    lemma_forced_same_grid(
        ps,
        a0.mouse(),
        a0.velocity_influence(),
        a0.gravity_well(),
        a1.shockwaves(),
        ga,
        gb,
    );
}

/// Determinism of a tick: two simulations in the same state, given the same
/// `tick`, return the same triangle count and are in the same state again,
/// with the same buffers.
pub proof fn lemma_tick_deterministic(
    a0: Simulation,
    a1: Simulation,
    ra: usize,
    b0: Simulation,
    b1: Simulation,
    rb: usize,
    delta_time: i64,
    speed: i64,
    mouse_x: i64,
    mouse_y: i64,
    mouse_in_canvas: bool,
    mouse_radius: i64,
    mouse_strength: i64,
    mouse_mode: u32,
)
    requires
        same_state(a0, b0),
        ticked_sim(
            a0,
            a1,
            delta_time,
            speed,
            mouse_x,
            mouse_y,
            mouse_in_canvas,
            mouse_radius,
            mouse_strength,
            mouse_mode,
            ra,
        ),
        ticked_sim(
            b0,
            b1,
            delta_time,
            speed,
            mouse_x,
            mouse_y,
            mouse_in_canvas,
            mouse_radius,
            mouse_strength,
            mouse_mode,
            rb,
        ),
    ensures
        same_state(a1, b1),
        ra == rb,
{
    let (ma, fa) = choose|m: Simulation, f: Simulation|
        mouse_reported(a0, m, mouse_x, mouse_y, mouse_in_canvas, mouse_radius, mouse_strength, mouse_mode)
            && #[trigger] frame_stepped(m, f, delta_time, speed) && triangulated(f, a1, ra);
    let (mb, fb) = choose|m: Simulation, f: Simulation|
        mouse_reported(b0, m, mouse_x, mouse_y, mouse_in_canvas, mouse_radius, mouse_strength, mouse_mode)
            && #[trigger] frame_stepped(m, f, delta_time, speed) && triangulated(f, b1, rb);
    assert(same_state(ma, mb));
    lemma_frame_deterministic(ma, fa, mb, fb, delta_time, speed);
}

/// Determinism of `set_mouse_state`.
pub proof fn lemma_mouse_deterministic(
    a0: Simulation,
    a1: Simulation,
    b0: Simulation,
    b1: Simulation,
    x: i64,
    y: i64,
    in_canvas: bool,
    radius: i64,
    strength: i64,
    mode: u32,
)
    requires
        same_state(a0, b0),
        mouse_reported(a0, a1, x, y, in_canvas, radius, strength, mode),
        mouse_reported(b0, b1, x, y, in_canvas, radius, strength, mode),
    ensures
        same_state(a1, b1),
{
}

/// Determinism of `triangulate`: the same particles and size give the same
/// triangle count and buffers.
pub proof fn lemma_triangulate_deterministic(
    a0: Simulation,
    a1: Simulation,
    ra: usize,
    b0: Simulation,
    b1: Simulation,
    rb: usize,
)
    requires
        same_state(a0, b0),
        triangulated(a0, a1, ra),
        triangulated(b0, b1, rb),
    ensures
        same_state(a1, b1),
        ra == rb,
{
}

/// Determinism of `set_noise_params`: same state and same call, same state.
pub proof fn lemma_noise_deterministic(
    a0: Simulation,
    a1: Simulation,
    b0: Simulation,
    b1: Simulation,
    noise_scale: i64,
    height_intensity: i64,
)
    requires
        same_state(a0, b0),
        noise_set(a0, a1, noise_scale, height_intensity),
        noise_set(b0, b1, noise_scale, height_intensity),
    ensures
        same_state(a1, b1),
{
}

/// Determinism of `apply_height_samples`.
pub proof fn lemma_heights_deterministic(
    a0: Simulation,
    a1: Simulation,
    b0: Simulation,
    b1: Simulation,
    from: usize,
    samples: Seq<i64>,
)
    requires
        same_state(a0, b0),
        heights_applied(a0, a1, from, samples),
        heights_applied(b0, b1, from, samples),
    ensures
        same_state(a1, b1),
{
    assert(a1.points() =~= b1.points());
}

/// Determinism of `set_physics_params`.
pub proof fn lemma_physics_deterministic(
    a0: Simulation,
    a1: Simulation,
    b0: Simulation,
    b1: Simulation,
    spring_back: i64,
    damping: i64,
    velocity_influence: i64,
)
    requires
        same_state(a0, b0),
        physics_set(a0, a1, spring_back, damping, velocity_influence),
        physics_set(b0, b1, spring_back, damping, velocity_influence),
    ensures
        same_state(a1, b1),
{
}

/// Determinism of `trigger_shockwave`.
pub proof fn lemma_trigger_deterministic(
    a0: Simulation,
    a1: Simulation,
    b0: Simulation,
    b1: Simulation,
    x: i64,
    y: i64,
    strength: i64,
)
    requires
        same_state(a0, b0),
        wave_triggered(a0, a1, x, y, strength),
        wave_triggered(b0, b1, x, y, strength),
    ensures
        same_state(a1, b1),
{
}

/// Determinism of `set_gravity_well` and `update_gravity_well_position`:
/// the well each places depends on the call and the old well alone.
pub proof fn lemma_well_deterministic(
    a0: Simulation,
    a1: Simulation,
    b0: Simulation,
    b1: Simulation,
    well: Option<GravityWell>,
)
    requires
        same_state(a0, b0),
        well_set(a0, a1, well),
        well_set(b0, b1, well),
    ensures
        same_state(a1, b1),
{
}

/// Determinism of `resize`.
pub proof fn lemma_resize_deterministic(
    a0: Simulation,
    a1: Simulation,
    b0: Simulation,
    b1: Simulation,
    new_width: i64,
    new_height: i64,
)
    requires
        same_state(a0, b0),
        resized(a0, a1, new_width, new_height),
        resized(b0, b1, new_width, new_height),
    ensures
        same_state(a1, b1),
{
    assert(a1.points() =~= b1.points());
}

/// Determinism of `set_point_count`.
pub proof fn lemma_count_deterministic(
    a0: Simulation,
    a1: Simulation,
    b0: Simulation,
    b1: Simulation,
    count: usize,
    seed: u32,
)
    requires
        same_state(a0, b0),
        count_set(a0, a1, count, seed),
        count_set(b0, b1, count, seed),
    ensures
        same_state(a1, b1),
{
}

/// Determinism of creation: two simulations created with the same arguments
/// are in the same state.
pub proof fn lemma_creation_deterministic(
    a: Simulation,
    b: Simulation,
    width: i64,
    height: i64,
    point_count: usize,
    seed: u32,
)
    requires
        created(a, width, height, point_count, seed),
        created(b, width, height, point_count, seed),
    ensures
        same_state(a, b),
{
    let ga = *a.grid();
    let gb = *b.grid();
    assert(ga.cols() == gb.cols() && ga.rows() == gb.rows());
    assert forall|i: int| 0 <= i < ga.cells().len() implies ga.cells()[i] =~= gb.cells()[i] by {
        assert(ga.cells()[i].len() == 0);
        assert(gb.cells()[i].len() == 0);
    }
    assert(ga.cells() =~= gb.cells());
    assert(a.buffers().triangle_vertices@ =~= b.buffers().triangle_vertices@);
    assert(a.buffers().stroke_vertices@ =~= b.buffers().stroke_vertices@);
    assert(a.buffers().point_vertices@ =~= b.buffers().point_vertices@);
}

} // verus!
