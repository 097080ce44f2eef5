//! The simulation: owns every particle and effect and runs one frame at a
//! time (drift and spring, grid rebuild, forces, triangulation).
use vstd::prelude::*;
use crate::effects::{
    max_reach, reported, resting_mouse, spawned as spawned_wave, surviving, GravityWell, MouseState,
    Shockwave, ShockwaveManager, DEFAULT_MOUSE_RADIUS, MAX_MOUSE_STRENGTH, MAX_SHOCKWAVES,
    SHOCKWAVE_WAVE_WIDTH,
};
use crate::fixed::{abs, clamp, sq_dist, COORD_LIMIT, PERMILLE};
use crate::physics::{
    alike, all_bounded, apply_gravity_well, apply_mouse_influence, apply_shockwave, gravity_kick,
    gravity_pass, lemma_gravity_pass_distinct, lemma_kicks_are_local, lemma_mouse_pass_distinct,
    lemma_wave_pass_distinct, mouse_boost, mouse_kick, mouse_pass, ring_outer, wave_kick, wave_pass,
    GRAVITY_WELL_MAX_RANGE, MAX_VELOCITY_INFLUENCE,
};
use crate::point::{
    drifted, random_point, scaled, spring_step, state_after, static_height, valid_dimension, Point,
    MAX_DELTA_TIME, MAX_DIMENSION, MAX_HEIGHT_INTENSITY, MAX_SPEED, MIN_DIMENSION,
};
use crate::rng::{seeded, Rng, STATE_SPAN};
use crate::spatial_grid::{
    axis_cells, bucket, floored_cell, lemma_gathered_distinct, lemma_gathered_from_cells,
    lemma_query_finds_near, SpatialGrid,
};
use crate::triangulation::{
    mesh_triangles, mesh_vertices, point_buffer, stroke_buffer, triangle_buffer, triangles_ok,
    TriangulationBuffers,
};

verus! {

/// Fewest and most particles.
pub const MIN_POINT_COUNT: usize = 3;

pub const MAX_POINT_COUNT: usize = 10_000;

/// Physics defaults, in thousandths.
pub const DEFAULT_SPRING_BACK: i64 = 60;

pub const DEFAULT_DAMPING: i64 = 920;

pub const DEFAULT_VELOCITY_INFLUENCE: i64 = 300;

/// Noise scale, in millionths of the inverse pixel, and its range.
pub const DEFAULT_NOISE_SCALE: i64 = 3000;

pub const MIN_NOISE_SCALE: i64 = 100;

pub const MAX_NOISE_SCALE: i64 = 1_000_000;

/// Height intensity, in thousandths.
pub const DEFAULT_HEIGHT_INTENSITY: i64 = 600;

/// Smallest grid cell the simulation uses.
pub const MIN_CELL_SIZE: i64 = 50_000;

/// The grid is reshaped only when its size or cell drifts further than this.
pub const GRID_TOLERANCE: i64 = 1000;

/// The `n` particles drawn one after another from generator state `s`.
pub open spec fn spawned(s: u32, n: nat, w: int, h: int) -> Seq<Point>
    decreases n,
{
    if n == 0 {
        Seq::empty()
    } else {
        spawned(s, (n - 1) as nat, w, h).push(random_point(state_after(s, (4 * (n - 1)) as nat), w, h))
    }
}

/// Every particle of `ps` within a `w` by `h` field.
pub open spec fn all_wf(ps: Seq<Point>, w: int, h: int) -> bool {
    forall|i: int| 0 <= i < ps.len() ==> (#[trigger] ps[i]).wf(w, h)
}

/// Every particle after one frame's drift, wrap and spring step.
pub open spec fn stepped(
    ps: Seq<Point>,
    dt: int,
    speed: int,
    w: int,
    h: int,
    spring: int,
    damping: int,
) -> Seq<Point> {
    ps.map_values(|p: Point| spring_step(drifted(p, dt, speed, w, h), spring, damping))
}

/// Reach of the farthest-acting effect, at least `MIN_CELL_SIZE`: the grid's
/// cell size.
pub open spec fn governing_reach(m: MouseState, ws: Seq<Shockwave>, well: Option<GravityWell>) -> int {
    let waves = max_reach(ws, SHOCKWAVE_WAVE_WIDTH as int);
    let a = if m.radius > waves {
        m.radius as int
    } else {
        waves
    };
    let b = if well is Some && GRAVITY_WELL_MAX_RANGE > a {
        GRAVITY_WELL_MAX_RANGE as int
    } else {
        a
    };
    if b < MIN_CELL_SIZE {
        MIN_CELL_SIZE as int
    } else {
        b
    }
}

/// Whether a grid must be reshaped for a `w` by `h` field and cells of `cell`.
pub open spec fn grid_drifted(g: SpatialGrid, w: int, h: int, cell: int) -> bool {
    abs(g.extent_x() - w) > GRID_TOLERANCE || abs(g.extent_y() - h) > GRID_TOLERANCE || abs(
        g.cell() - cell,
    ) > GRID_TOLERANCE
}

/// Cells of a `cols` by `rows` grid with cells of side `cell` after the
/// first `n` of `ps` were put in it, emptied first, in index order.
pub open spec fn bucketed(cols: int, rows: int, cell: int, ps: Seq<Point>, n: int) -> Seq<Seq<usize>>
    decreases n,
{
    if n <= 0 {
        Seq::new((cols * rows) as nat, |i: int| Seq::<usize>::empty())
    } else {
        let c = bucketed(cols, rows, cell, ps, n - 1);
        let k = bucket(ps[n - 1].y as int, cell, rows) * cols + bucket(ps[n - 1].x as int, cell, cols);
        c.update(k, c[k].push((n - 1) as usize))
    }
}

proof fn lemma_bucketed_holds(cols: int, rows: int, cell: int, ps: Seq<Point>, n: int)
    requires
        cols >= 1,
        rows >= 1,
        cell >= 1,
        0 <= n <= ps.len(),
        n <= usize::MAX + 1,
    ensures
        bucketed(cols, rows, cell, ps, n).len() == cols * rows,
        forall|c: int, j: int|
            0 <= c < cols * rows && 0 <= j < bucketed(cols, rows, cell, ps, n)[c].len() ==> (
            #[trigger] bucketed(cols, rows, cell, ps, n)[c][j]) < n,
        forall|i: int|
            0 <= i < n ==> bucketed(cols, rows, cell, ps, n)[bucket(ps[i].y as int, cell, rows) * cols
                + bucket(ps[i].x as int, cell, cols)].contains(#[trigger] (i as usize)),
        forall|c: int|
            0 <= c < cols * rows ==> (#[trigger] bucketed(cols, rows, cell, ps, n)[c]).no_duplicates(),
        forall|c: int, j: int|
            0 <= c < cols * rows && 0 <= j < bucketed(cols, rows, cell, ps, n)[c].len() ==> key_of(
                cols,
                rows,
                cell,
                ps,
                #[trigger] bucketed(cols, rows, cell, ps, n)[c][j],
            ) == c,
    decreases n,
{
    if n > 0 {
        lemma_bucketed_holds(cols, rows, cell, ps, n - 1);
        let prev = bucketed(cols, rows, cell, ps, n - 1);
        let p = ps[n - 1];
        let bx = bucket(p.x as int, cell, cols);
        let by = bucket(p.y as int, cell, rows);
        let k = by * cols + bx;
        assert(0 <= k < cols * rows) by (nonlinear_arith)
            requires
                0 <= bx < cols,
                0 <= by < rows,
                k == by * cols + bx,
        ;
        let cur = bucketed(cols, rows, cell, ps, n);
        assert(cur == prev.update(k, prev[k].push((n - 1) as usize)));
        assert forall|c: int, j: int|
            0 <= c < cols * rows && 0 <= j < cur[c].len() implies #[trigger] cur[c][j] < n by {
            if c == k && j == prev[k].len() {
            } else {
                assert(cur[c][j] == prev[c][j]);
            }
        }
        assert forall|i: int| 0 <= i < n implies cur[bucket(ps[i].y as int, cell, rows) * cols
            + bucket(ps[i].x as int, cell, cols)].contains(#[trigger] (i as usize)) by {
            let ki = bucket(ps[i].y as int, cell, rows) * cols + bucket(ps[i].x as int, cell, cols);
            assert(0 <= ki < cols * rows) by (nonlinear_arith)
                requires
                    0 <= bucket(ps[i].x as int, cell, cols) < cols,
                    0 <= bucket(ps[i].y as int, cell, rows) < rows,
                    ki == bucket(ps[i].y as int, cell, rows) * cols + bucket(ps[i].x as int, cell, cols),
            ;
            if i == n - 1 {
                assert(cur[k][prev[k].len() as int] == (n - 1) as usize);
            } else {
                let j = choose|j: int| 0 <= j < prev[ki].len() && prev[ki][j] == i as usize;
                assert(cur[ki][j] == i as usize);
            }
        }
        assert(key_of(cols, rows, cell, ps, (n - 1) as usize) == k);
        assert forall|c: int| 0 <= c < cols * rows implies (#[trigger] cur[c]).no_duplicates() by {
            if c == k {
                assert forall|x: int, y: int|
                    0 <= x < cur[c].len() && 0 <= y < cur[c].len() && x != y implies cur[c][x]
                    != cur[c][y] by {
                    if x < prev[k].len() && y < prev[k].len() {
                        assert(prev[k].no_duplicates());
                    } else if x < prev[k].len() {
                        assert(prev[k][x] < n - 1);
                    } else {
                        assert(prev[k][y] < n - 1);
                    }
                }
            }
        }
        assert forall|c: int, j: int|
            0 <= c < cols * rows && 0 <= j < cur[c].len() implies key_of(
            cols,
            rows,
            cell,
            ps,
            #[trigger] cur[c][j],
        ) == c by {
            if c == k && j == prev[k].len() {
            } else {
                assert(cur[c][j] == prev[c][j]);
            }
        }
    }
}

/// The cell of a `cols` by `rows` grid with cells of side `cell` that holds
/// particle `e` of `ps`.
pub open spec fn key_of(cols: int, rows: int, cell: int, ps: Seq<Point>, e: usize) -> int {
    bucket(ps[e as int].y as int, cell, rows) * cols + bucket(ps[e as int].x as int, cell, cols)
}

/// Broad and narrow phase together: over a grid filled with `ps`, each
/// kernel's pass through the grid equals its kick applied to every particle
/// once, for the pointer, the gravity well and a shockwave alike.
pub proof fn lemma_grid_passes_exact(
    g: SpatialGrid,
    ps: Seq<Point>,
    m: MouseState,
    boost: int,
    well: GravityWell,
    wave: Shockwave,
)
    requires
        g.wf(),
        g.cells() == bucketed(g.cols(), g.rows(), g.cell(), ps, ps.len() as int),
        ps.len() <= usize::MAX,
        m.wf(),
        wave.wf(),
    ensures
        mouse_pass(ps, g.gathered(m.x as int, m.y as int, m.radius as int), m, boost)
            == ps.map_values(|p: Point| mouse_kick(p, m, boost)),
        gravity_pass(ps, g.gathered(well.x as int, well.y as int, GRAVITY_WELL_MAX_RANGE as int), well)
            == ps.map_values(|p: Point| gravity_kick(p, well)),
        wave_pass(ps, g.gathered(wave.x as int, wave.y as int, ring_outer(wave)), wave)
            == ps.map_values(|p: Point| wave_kick(p, wave)),
{
    let (cols, rows, cell) = (g.cols(), g.rows(), g.cell());
    lemma_bucketed_holds(cols, rows, cell, ps, ps.len() as int);
    let owner = |e: usize| key_of(cols, rows, cell, ps, e);
    lemma_gathered_distinct(g, m.x as int, m.y as int, m.radius as int, owner);
    lemma_gathered_distinct(g, well.x as int, well.y as int, GRAVITY_WELL_MAX_RANGE as int, owner);
    lemma_gathered_distinct(g, wave.x as int, wave.y as int, ring_outer(wave), owner);
    let lm = g.gathered(m.x as int, m.y as int, m.radius as int);
    let lg = g.gathered(well.x as int, well.y as int, GRAVITY_WELL_MAX_RANGE as int);
    let lw = g.gathered(wave.x as int, wave.y as int, ring_outer(wave));
    lemma_filtered_query_exact(g, ps, m.x as int, m.y as int, m.radius as int);
    lemma_filtered_query_exact(g, ps, well.x as int, well.y as int, GRAVITY_WELL_MAX_RANGE as int);
    lemma_filtered_query_exact(g, ps, wave.x as int, wave.y as int, ring_outer(wave));
    assert forall|k: int| 0 <= k < lm.len() implies (#[trigger] lm[k] as int) < ps.len() by {
        assert(lm.contains(lm[k]));
    }
    assert forall|k: int| 0 <= k < lg.len() implies (#[trigger] lg[k] as int) < ps.len() by {
        assert(lg.contains(lg[k]));
    }
    assert forall|k: int| 0 <= k < lw.len() implies (#[trigger] lw[k] as int) < ps.len() by {
        assert(lw.contains(lw[k]));
    }
    lemma_mouse_pass_distinct(ps, lm, m, boost);
    lemma_gravity_pass_distinct(ps, lg, well);
    lemma_wave_pass_distinct(ps, lw, wave);
    assert forall|i: int| 0 <= i < ps.len() implies mouse_pass(ps, lm, m, boost)[i] == mouse_kick(
        #[trigger] ps[i],
        m,
        boost,
    ) && gravity_pass(ps, lg, well)[i] == gravity_kick(ps[i], well) && wave_pass(ps, lw, wave)[i]
        == wave_kick(ps[i], wave) by {
        lemma_kicks_are_local(ps[i], m, boost, well, wave);
        let u = i as usize;
        assert(u as int == i);
    }
    assert(mouse_pass(ps, lm, m, boost) =~= ps.map_values(|p: Point| mouse_kick(p, m, boost)));
    assert(gravity_pass(ps, lg, well) =~= ps.map_values(|p: Point| gravity_kick(p, well)));
    assert(wave_pass(ps, lw, wave) =~= ps.map_values(|p: Point| wave_kick(p, wave)));
}

/// Broad phase then narrow phase: in a grid filled with `ps`, the candidates
/// a query over radius `r` gathers, kept when within `r` by exact distance,
/// are exactly the particles within `r`.
pub proof fn lemma_filtered_query_exact(g: SpatialGrid, ps: Seq<Point>, cx: int, cy: int, r: int)
    requires
        g.wf(),
        g.cells() == bucketed(g.cols(), g.rows(), g.cell(), ps, ps.len() as int),
        ps.len() <= usize::MAX,
        0 <= r,
    ensures
        forall|i: usize|
            (g.gathered(cx, cy, r).contains(i) && i < ps.len() && sq_dist(
                ps[i as int].x as int,
                ps[i as int].y as int,
                cx,
                cy,
            ) <= r * r) <==> (i < ps.len() && sq_dist(
                ps[i as int].x as int,
                ps[i as int].y as int,
                cx,
                cy,
            ) <= r * r),
        forall|i: usize| #[trigger] g.gathered(cx, cy, r).contains(i) ==> i < ps.len(),
{
    lemma_bucketed_holds(g.cols(), g.rows(), g.cell(), ps, ps.len() as int);
    assert forall|i: usize|
        i < ps.len() && sq_dist(ps[i as int].x as int, ps[i as int].y as int, cx, cy) <= r
            * r implies #[trigger] g.gathered(cx, cy, r).contains(i) by {
        let ii = i as int;
        assert(g.cells()[g.cell_of(ps[ii].x as int, ps[ii].y as int)].contains((ii as usize)));
        lemma_query_finds_near(&g, i, ps[ii].x as int, ps[ii].y as int, cx, cy, r);
    }
    assert forall|i: usize| #[trigger] g.gathered(cx, cy, r).contains(i) implies i < ps.len() by {
        lemma_gathered_from_cells(g, cx, cy, r, i);
    }
}

/// Every shockwave of `ws`, oldest first, applied to `ps`.
pub open spec fn waves_pass(ps: Seq<Point>, ws: Seq<Shockwave>, g: SpatialGrid) -> Seq<Point>
    decreases ws.len(),
{
    if ws.len() == 0 {
        ps
    } else {
        let w = ws.last();
        wave_pass(waves_pass(ps, ws.drop_last(), g), g.gathered(w.x as int, w.y as int, ring_outer(w)), w)
    }
}

/// The pointer, then the gravity well, then every shockwave applied to `ps`,
/// each to the candidates the grid gathers for it.
pub open spec fn forced(
    ps: Seq<Point>,
    m: MouseState,
    influence: int,
    well: Option<GravityWell>,
    ws: Seq<Shockwave>,
    g: SpatialGrid,
) -> Seq<Point> {
    let a = if m.in_canvas {
        mouse_pass(ps, g.gathered(m.x as int, m.y as int, m.radius as int), m, mouse_boost(m, influence))
    } else {
        ps
    };
    let b = match well {
        Some(w) => gravity_pass(a, g.gathered(w.x as int, w.y as int, GRAVITY_WELL_MAX_RANGE as int), w),
        None => a,
    };
    waves_pass(b, ws, g)
}

/// `p` with a static height from a noise sample clamped to `[-1000, 1000]`.
pub open spec fn with_height(p: Point, sample: int, w: int, h: int, intensity: int) -> Point {
    Point {
        z: static_height(
            clamp(sample, -1000, 1000),
            p.base_x as int,
            p.base_y as int,
            w,
            h,
            intensity,
        ) as i64,
        ..p
    }
}

/// After a frame's drift and spring step every particle is drawn exactly at
/// its rest position plus its displacement.
pub proof fn lemma_step_rejoins(
    ps: Seq<Point>,
    dt: int,
    speed: int,
    w: int,
    h: int,
    spring: int,
    damping: int,
)
    requires
        valid_dimension(w),
        valid_dimension(h),
        0 <= dt <= MAX_DELTA_TIME,
        0 <= speed <= MAX_SPEED,
        0 <= spring <= PERMILLE,
        0 <= damping <= PERMILLE,
        all_wf(ps, w, h),
    ensures
        forall|i: int|
            0 <= i < ps.len() ==> {
                let q = #[trigger] stepped(ps, dt, speed, w, h, spring, damping)[i];
                q.x == q.base_x + q.dx && q.y == q.base_y + q.dy
            },
{
    assert forall|i: int| 0 <= i < ps.len() implies {
        let q = #[trigger] stepped(ps, dt, speed, w, h, spring, damping)[i];
        q.x == q.base_x + q.dx && q.y == q.base_y + q.dy
    } by {
        let p = ps[i];
        assert(p.wf(w, h));
        let d = drifted(p, dt, speed, w, h);
        assert(0 <= d.base_x <= w && 0 <= d.base_y <= h);
        let q = spring_step(d, spring, damping);
        assert(abs(q.dx as int) <= crate::point::MAX_DISPLACEMENT);
    }
}

/// What every well-formed simulation keeps: its size in range, between
/// `MIN_POINT_COUNT` and `MAX_POINT_COUNT` particles, each resting inside
/// the field, and every parameter in its range.
pub proof fn lemma_wf_bounds(s: Simulation)
    requires
        s.wf(),
    ensures
        valid_dimension(s.extent_x()),
        valid_dimension(s.extent_y()),
        MIN_POINT_COUNT <= s.points().len() <= MAX_POINT_COUNT,
        all_wf(s.points(), s.extent_x(), s.extent_y()),
        s.mouse().wf(),
        0 <= s.spring_back() <= PERMILLE,
        0 <= s.damping() <= PERMILLE,
        0 <= s.velocity_influence() <= MAX_VELOCITY_INFLUENCE,
        MIN_NOISE_SCALE <= s.noise_scale() <= MAX_NOISE_SCALE,
        0 <= s.height_intensity() <= MAX_HEIGHT_INTENSITY,
        forall|i: int| 0 <= i < s.shockwaves().len() ==> (#[trigger] s.shockwaves()[i]).wf(),
        s.shockwaves().len() <= MAX_SHOCKWAVES,
{
    assert forall|i: int| 0 <= i < s.shockwaves().len() implies (#[trigger] s.shockwaves()[i]).wf() by {
        assert(s.shockwaves.wf());
    }
}

/// A frame in which no force acts (pointer outside, no well, no shockwave
/// left) leaves every particle drawn at its rest position plus its
/// displacement.
pub proof fn lemma_quiet_frame_rejoins(a: Simulation, b: Simulation, delta_time: i64, speed: i64)
    requires
        a.wf(),
        frame_stepped(a, b, delta_time, speed),
        !a.mouse().in_canvas,
        a.gravity_well() is None,
        b.shockwaves().len() == 0,
    ensures
        forall|i: int|
            0 <= i < b.points().len() ==> (#[trigger] b.points()[i]).x == b.points()[i].base_x
                + b.points()[i].dx && b.points()[i].y == b.points()[i].base_y + b.points()[i].dy,
{
    lemma_wf_bounds(a);
    let dt = clamp(delta_time as int, 0, MAX_DELTA_TIME as int);
    let sp = clamp(speed as int, 0, MAX_SPEED as int);
    lemma_step_rejoins(a.points(), dt, sp, a.extent_x(), a.extent_y(), a.spring_back(), a.damping());
    let ps = stepped(a.points(), dt, sp, a.extent_x(), a.extent_y(), a.spring_back(), a.damping());
    assert(waves_pass(ps, b.shockwaves(), *b.grid()) == ps);
    assert(b.points() == ps);
}

/// The grid of a well-formed simulation is well formed.
pub proof fn lemma_wf_grid(s: Simulation)
    requires
        s.wf(),
    ensures
        s.grid().wf(),
{
}

/// Every particle drawn at creation, or when the count grows, starts at rest
/// inside the field: in `[0, w) x [0, h)`, with no displacement.
pub proof fn lemma_spawned_in_field(s: u32, n: nat, w: int, h: int)
    requires
        valid_dimension(w),
        valid_dimension(h),
    ensures
        forall|i: int|
            0 <= i < n ==> {
                let p = #[trigger] spawned(s, n, w, h)[i];
                &&& 0 <= p.x < w
                &&& 0 <= p.y < h
                &&& p.x == p.base_x && p.y == p.base_y
                &&& p.dx == 0 && p.dy == 0
            },
    decreases n,
{
    if n > 0 {
        lemma_spawned_in_field(s, (n - 1) as nat, w, h);
        lemma_spawned_len(s, (n - 1) as nat, w, h);
        let t = state_after(s, (4 * (n - 1)) as nat);
        let a = state_after(t, 1) as int;
        let b = state_after(t, 2) as int;
        assert(0 <= a * w / (STATE_SPAN as int) < w) by (nonlinear_arith)
            requires
                0 <= a < STATE_SPAN,
                w >= 1,
        ;
        assert(0 <= b * h / (STATE_SPAN as int) < h) by (nonlinear_arith)
            requires
                0 <= b < STATE_SPAN,
                h >= 1,
        ;
        assert forall|i: int| 0 <= i < n implies {
            let p = #[trigger] spawned(s, n, w, h)[i];
            &&& 0 <= p.x < w
            &&& 0 <= p.y < h
            &&& p.x == p.base_x && p.y == p.base_y
            &&& p.dx == 0 && p.dy == 0
        } by {
            if i < n - 1 {
                assert(spawned(s, n, w, h)[i] == spawned(s, (n - 1) as nat, w, h)[i]);
            }
        }
    }
}

pub proof fn lemma_spawned_len(s: u32, n: nat, w: int, h: int)
    ensures
        spawned(s, n, w, h).len() == n,
    decreases n,
{
    if n > 0 {
        lemma_spawned_len(s, (n - 1) as nat, w, h);
    }
}

pub proof fn lemma_state_after_add(s: u32, a: nat, b: nat)
    ensures
        state_after(s, a + b) == state_after(state_after(s, a), b),
    decreases b,
{
    if b > 0 {
        lemma_state_after_add(s, a, (b - 1) as nat);
        assert((a + b - 1) as nat == a + (b - 1) as nat);
    }
}

proof fn lemma_grid_fits(w: int, h: int, cell: int)
    requires
        0 <= w <= MAX_DIMENSION,
        0 <= h <= MAX_DIMENSION,
        cell >= MIN_CELL_SIZE,
    ensures
        axis_cells(w, floored_cell(cell)) * axis_cells(h, floored_cell(cell)) <= usize::MAX,
{
    let a = axis_cells(w, cell);
    let b = axis_cells(h, cell);
    if w > 0 {
        assert((w - 1) / cell <= 2000) by (nonlinear_arith)
            requires
                0 <= w - 1 < MAX_DIMENSION,
                cell >= MIN_CELL_SIZE,
        ;
    }
    if h > 0 {
        assert((h - 1) / cell <= 2000) by (nonlinear_arith)
            requires
                0 <= h - 1 < MAX_DIMENSION,
                cell >= MIN_CELL_SIZE,
        ;
    }
    assert(a * b <= 2001 * 2001) by (nonlinear_arith)
        requires
            1 <= a <= 2001,
            1 <= b <= 2001,
    ;
}

/// The whole simulation state, owned by one caller.
pub struct Simulation {
    points: Vec<Point>,
    width: i64,
    height: i64,
    rng: Rng,
    buffers: TriangulationBuffers,
    noise_scale: i64,
    height_intensity: i64,
    mouse: MouseState,
    spring_back: i64,
    damping: i64,
    velocity_influence: i64,
    shockwaves: ShockwaveManager,
    gravity_well: Option<GravityWell>,
    grid: SpatialGrid,
}

impl Simulation {
    pub closed spec fn points(&self) -> Seq<Point> {
        self.points@
    }

    pub closed spec fn extent_x(&self) -> int {
        self.width as int
    }

    pub closed spec fn extent_y(&self) -> int {
        self.height as int
    }

    pub closed spec fn rng(&self) -> Rng {
        self.rng
    }

    pub closed spec fn buffers(&self) -> &TriangulationBuffers {
        &self.buffers
    }

    pub closed spec fn noise_scale(&self) -> int {
        self.noise_scale as int
    }

    pub closed spec fn height_intensity(&self) -> int {
        self.height_intensity as int
    }

    pub closed spec fn mouse(&self) -> MouseState {
        self.mouse
    }

    pub closed spec fn spring_back(&self) -> int {
        self.spring_back as int
    }

    pub closed spec fn damping(&self) -> int {
        self.damping as int
    }

    pub closed spec fn velocity_influence(&self) -> int {
        self.velocity_influence as int
    }

    pub closed spec fn shockwaves(&self) -> Seq<Shockwave> {
        self.shockwaves.waves()
    }

    pub closed spec fn gravity_well(&self) -> Option<GravityWell> {
        self.gravity_well
    }

    pub closed spec fn grid(&self) -> &SpatialGrid {
        &self.grid
    }

    /// The invariant every call keeps: the size within range, between
    /// `MIN_POINT_COUNT` and `MAX_POINT_COUNT` particles, each at rest within
    /// the field and within the coordinate limits, the pointer, the
    /// shockwaves, the well and the grid well formed, and every parameter in
    /// its range.
    pub closed spec fn wf(&self) -> bool {
        &&& valid_dimension(self.width as int)
        &&& valid_dimension(self.height as int)
        &&& MIN_POINT_COUNT <= self.points@.len() <= MAX_POINT_COUNT
        &&& forall|i: int|
            0 <= i < self.points@.len() ==> (#[trigger] self.points@[i]).wf(
                self.width as int,
                self.height as int,
            )
        &&& self.mouse.wf()
        &&& 0 <= self.spring_back <= PERMILLE
        &&& 0 <= self.damping <= PERMILLE
        &&& 0 <= self.velocity_influence <= MAX_VELOCITY_INFLUENCE
        &&& MIN_NOISE_SCALE <= self.noise_scale <= MAX_NOISE_SCALE
        &&& 0 <= self.height_intensity <= MAX_HEIGHT_INTENSITY
        &&& self.shockwaves.wf()
        &&& (self.gravity_well matches Some(w) ==> w.wf())
        &&& self.grid.wf()
        &&& self.grid.extent_x() <= MAX_DIMENSION
        &&& self.grid.extent_y() <= MAX_DIMENSION
    }
}

/// `b` has `a`'s size, generator, parameters and gravity well.
pub open spec fn same_params(a: Simulation, b: Simulation) -> bool {
    &&& b.extent_x() == a.extent_x()
    &&& b.extent_y() == a.extent_y()
    &&& b.rng().state() == a.rng().state()
    &&& b.spring_back() == a.spring_back()
    &&& b.damping() == a.damping()
    &&& b.velocity_influence() == a.velocity_influence()
    &&& b.noise_scale() == a.noise_scale()
    &&& b.height_intensity() == a.height_intensity()
    &&& b.gravity_well() == a.gravity_well()
}

/// `b` has `a`'s size, generator, pointer, parameters and effects.
pub open spec fn same_settings(a: Simulation, b: Simulation) -> bool {
    &&& same_params(a, b)
    &&& b.mouse() == a.mouse()
    &&& b.shockwaves() == a.shockwaves()
}

/// `r` is what `Simulation::new(width, height, point_count, seed)` returns.
pub open spec fn created(r: Simulation, width: i64, height: i64, point_count: usize, seed: u32) -> bool {
    let count = clamp(point_count as int, MIN_POINT_COUNT as int, MAX_POINT_COUNT as int);
    &&& r.wf()
    &&& r.extent_x() == clamp(width as int, MIN_DIMENSION as int, MAX_DIMENSION as int)
    &&& r.extent_y() == clamp(height as int, MIN_DIMENSION as int, MAX_DIMENSION as int)
    &&& r.points() == spawned(seeded(seed), count as nat, r.extent_x(), r.extent_y())
    &&& r.rng().state() == state_after(seeded(seed), (4 * count) as nat)
    &&& r.shockwaves() == Seq::<Shockwave>::empty()
    &&& r.gravity_well() is None
    &&& r.mouse() == resting_mouse()
    &&& r.spring_back() == DEFAULT_SPRING_BACK
    &&& r.damping() == DEFAULT_DAMPING
    &&& r.velocity_influence() == DEFAULT_VELOCITY_INFLUENCE
    &&& r.noise_scale() == DEFAULT_NOISE_SCALE
    &&& r.height_intensity() == DEFAULT_HEIGHT_INTENSITY
    &&& r.grid().fresh(r.extent_x() as i64, r.extent_y() as i64, DEFAULT_MOUSE_RADIUS)
    &&& r.buffers().triangle_vertices@.len() == 0
    &&& r.buffers().stroke_vertices@.len() == 0
    &&& r.buffers().point_vertices@.len() == 0
}

/// `b` has `a`'s particles, size, generator, grid and buffers.
pub open spec fn keeps_world(a: Simulation, b: Simulation) -> bool {
    &&& b.points() == a.points()
    &&& b.extent_x() == a.extent_x()
    &&& b.extent_y() == a.extent_y()
    &&& b.rng().state() == a.rng().state()
    &&& b.grid() == a.grid()
    &&& b.buffers() == a.buffers()
}

/// `b` has `a`'s pointer, shockwaves and gravity well.
pub open spec fn keeps_effects(a: Simulation, b: Simulation) -> bool {
    &&& b.mouse() == a.mouse()
    &&& b.shockwaves() == a.shockwaves()
    &&& b.gravity_well() == a.gravity_well()
}

/// `b` has `a`'s spring, damping, velocity influence and height parameters.
pub open spec fn keeps_tuning(a: Simulation, b: Simulation) -> bool {
    &&& b.spring_back() == a.spring_back()
    &&& b.damping() == a.damping()
    &&& b.velocity_influence() == a.velocity_influence()
    &&& b.noise_scale() == a.noise_scale()
    &&& b.height_intensity() == a.height_intensity()
}

/// `b` is `a` after `set_noise_params(noise_scale, height_intensity)`.
pub open spec fn noise_set(a: Simulation, b: Simulation, noise_scale: i64, height_intensity: i64) -> bool {
    &&& b.wf()
    &&& keeps_world(a, b)
    &&& keeps_effects(a, b)
    &&& b.spring_back() == a.spring_back()
    &&& b.damping() == a.damping()
    &&& b.velocity_influence() == a.velocity_influence()
    &&& b.noise_scale() == clamp(noise_scale as int, MIN_NOISE_SCALE as int, MAX_NOISE_SCALE as int)
    &&& b.height_intensity() == clamp(height_intensity as int, 0, MAX_HEIGHT_INTENSITY as int)
}

/// `b` is `a` after `apply_height_samples(from, samples)`.
pub open spec fn heights_applied(a: Simulation, b: Simulation, from: usize, samples: Seq<i64>) -> bool {
    &&& b.wf()
    &&& keeps_effects(a, b)
    &&& keeps_tuning(a, b)
    &&& b.extent_x() == a.extent_x()
    &&& b.extent_y() == a.extent_y()
    &&& b.rng().state() == a.rng().state()
    &&& b.grid() == a.grid()
    &&& b.buffers() == a.buffers()
    &&& b.points().len() == a.points().len()
    &&& forall|i: int|
        0 <= i < a.points().len() ==> #[trigger] b.points()[i] == (if from <= i < from + samples.len() {
            with_height(
                a.points()[i],
                samples[i - from] as int,
                a.extent_x(),
                a.extent_y(),
                a.height_intensity(),
            )
        } else {
            a.points()[i]
        })
}

/// `b` is `a` after `set_physics_params(spring_back, damping, velocity_influence)`.
pub open spec fn physics_set(
    a: Simulation,
    b: Simulation,
    spring_back: i64,
    damping: i64,
    velocity_influence: i64,
) -> bool {
    &&& b.wf()
    &&& keeps_world(a, b)
    &&& keeps_effects(a, b)
    &&& b.noise_scale() == a.noise_scale()
    &&& b.height_intensity() == a.height_intensity()
    &&& b.spring_back() == clamp(spring_back as int, 0, PERMILLE as int)
    &&& b.damping() == clamp(damping as int, 0, PERMILLE as int)
    &&& b.velocity_influence() == clamp(velocity_influence as int, 0, MAX_VELOCITY_INFLUENCE as int)
}

/// `b` is `a` after `trigger_shockwave(x, y, strength)`.
pub open spec fn wave_triggered(a: Simulation, b: Simulation, x: i64, y: i64, strength: i64) -> bool {
    &&& b.wf()
    &&& keeps_world(a, b)
    &&& keeps_tuning(a, b)
    &&& b.mouse() == a.mouse()
    &&& b.gravity_well() == a.gravity_well()
    &&& b.shockwaves() == (if a.shockwaves().len() >= MAX_SHOCKWAVES {
        a.shockwaves().subrange(1, a.shockwaves().len() as int)
    } else {
        a.shockwaves()
    }).push(
        spawned_wave(
            clamp(x as int, -COORD_LIMIT as int, COORD_LIMIT as int) as i64,
            clamp(y as int, -COORD_LIMIT as int, COORD_LIMIT as int) as i64,
            strength,
        ),
    )
}

/// `b` is `a` with gravity well `well`.
pub open spec fn well_set(a: Simulation, b: Simulation, well: Option<GravityWell>) -> bool {
    &&& b.wf()
    &&& keeps_world(a, b)
    &&& keeps_tuning(a, b)
    &&& b.mouse() == a.mouse()
    &&& b.shockwaves() == a.shockwaves()
    &&& b.gravity_well() == well
}

/// The well `set_gravity_well(x, y, active, attract)` places.
pub open spec fn placed_well(x: i64, y: i64, active: bool, attract: bool) -> Option<GravityWell> {
    if active {
        let cx = clamp(x as int, -COORD_LIMIT as int, COORD_LIMIT as int) as i64;
        let cy = clamp(y as int, -COORD_LIMIT as int, COORD_LIMIT as int) as i64;
        Some(
            if attract {
                GravityWell { x: cx, y: cy, strength: crate::effects::GRAVITY_WELL_ATTRACT_STRENGTH }
            } else {
                GravityWell { x: cx, y: cy, strength: crate::effects::GRAVITY_WELL_REPEL_STRENGTH }
            },
        )
    } else {
        None
    }
}

/// Well `w` after `update_gravity_well_position(x, y)`.
pub open spec fn moved_well(w: Option<GravityWell>, x: i64, y: i64) -> Option<GravityWell> {
    match w {
        Some(w) => Some(
            GravityWell {
                x: clamp(x as int, -COORD_LIMIT as int, COORD_LIMIT as int) as i64,
                y: clamp(y as int, -COORD_LIMIT as int, COORD_LIMIT as int) as i64,
                strength: w.strength,
            },
        ),
        None => None,
    }
}

/// `b` is `a` after `resize(new_width, new_height)`.
pub open spec fn resized(a: Simulation, b: Simulation, new_width: i64, new_height: i64) -> bool {
    &&& b.wf()
    &&& keeps_effects(a, b)
    &&& keeps_tuning(a, b)
    &&& b.rng().state() == a.rng().state()
    &&& b.grid() == a.grid()
    &&& b.buffers() == a.buffers()
    &&& b.extent_x() == clamp(new_width as int, MIN_DIMENSION as int, MAX_DIMENSION as int)
    &&& b.extent_y() == clamp(new_height as int, MIN_DIMENSION as int, MAX_DIMENSION as int)
    &&& b.points().len() == a.points().len()
    &&& forall|i: int|
        0 <= i < a.points().len() ==> #[trigger] b.points()[i] == (Point {
            x: scaled(a.points()[i].x as int, b.extent_x(), a.extent_x()) as i64,
            y: scaled(a.points()[i].y as int, b.extent_y(), a.extent_y()) as i64,
            base_x: scaled(a.points()[i].base_x as int, b.extent_x(), a.extent_x()) as i64,
            base_y: scaled(a.points()[i].base_y as int, b.extent_y(), a.extent_y()) as i64,
            ..a.points()[i]
        })
}

/// `b` is `a` after `set_point_count(count, seed)`.
pub open spec fn count_set(a: Simulation, b: Simulation, count: usize, seed: u32) -> bool {
    let c = clamp(count as int, MIN_POINT_COUNT as int, MAX_POINT_COUNT as int);
    let added = if a.points().len() < c {
        c - a.points().len()
    } else {
        0
    };
    &&& b.wf()
    &&& keeps_effects(a, b)
    &&& keeps_tuning(a, b)
    &&& b.extent_x() == a.extent_x()
    &&& b.extent_y() == a.extent_y()
    &&& b.grid() == a.grid()
    &&& b.buffers() == a.buffers()
    &&& b.rng().state() == state_after(seeded(seed), (4 * added) as nat)
    &&& b.points() == if a.points().len() < c {
        a.points() + spawned(seeded(seed), added as nat, a.extent_x(), a.extent_y())
    } else {
        a.points().subrange(0, c)
    }
}

/// `b` is `a` after `set_mouse_state(x, y, in_canvas, radius, strength, mode)`.
pub open spec fn mouse_reported(
    a: Simulation,
    b: Simulation,
    x: i64,
    y: i64,
    in_canvas: bool,
    radius: i64,
    strength: i64,
    mode: u32,
) -> bool {
    &&& b.wf()
    &&& b.mouse() == reported(
        a.mouse(),
        clamp(x as int, -COORD_LIMIT as int, COORD_LIMIT as int) as i64,
        clamp(y as int, -COORD_LIMIT as int, COORD_LIMIT as int) as i64,
        in_canvas,
        clamp(radius as int, 0, COORD_LIMIT as int) as i64,
        clamp(strength as int, 0, MAX_MOUSE_STRENGTH as int) as i64,
        mode,
    )
    &&& same_params(a, b)
    &&& b.shockwaves() == a.shockwaves()
    &&& b.points() == a.points()
    &&& b.grid() == a.grid()
    &&& b.buffers() == a.buffers()
}

/// `b` is `a` after `update_points(delta_time, speed)`.
pub open spec fn frame_stepped(a: Simulation, b: Simulation, delta_time: i64, speed: i64) -> bool {
    let ps = stepped(
        a.points(),
        clamp(delta_time as int, 0, MAX_DELTA_TIME as int),
        clamp(speed as int, 0, MAX_SPEED as int),
        a.extent_x(),
        a.extent_y(),
        a.spring_back(),
        a.damping(),
    );
    let g = *b.grid();
    let reach = governing_reach(a.mouse(), b.shockwaves(), a.gravity_well());
    let reshaped = grid_drifted(*a.grid(), a.extent_x(), a.extent_y(), reach);
    &&& b.wf()
    &&& b.points().len() == a.points().len()
    &&& b.shockwaves() == surviving(a.shockwaves())
    &&& same_params(a, b)
    &&& b.mouse() == a.mouse()
    &&& b.buffers() == a.buffers()
    &&& g.cells() == bucketed(g.cols(), g.rows(), g.cell(), ps, ps.len() as int)
    &&& g.cell() == (if reshaped { reach } else { a.grid().cell() })
    &&& g.extent_x() == (if reshaped { a.extent_x() } else { a.grid().extent_x() })
    &&& g.extent_y() == (if reshaped { a.extent_y() } else { a.grid().extent_y() })
    &&& b.points() == forced(ps, a.mouse(), a.velocity_influence(), a.gravity_well(), b.shockwaves(), g)
}

/// `b` is `a` after `triangulate()` returned `r`.
pub open spec fn triangulated(a: Simulation, b: Simulation, r: usize) -> bool {
    let vs = mesh_vertices(a.points(), a.extent_x(), a.extent_y());
    let tris = mesh_triangles(a.points(), a.extent_x(), a.extent_y());
    &&& b.wf()
    &&& b.points() == a.points()
    &&& same_settings(a, b)
    &&& b.grid() == a.grid()
    &&& triangles_ok(tris, vs.len() as int)
    &&& r == tris.len() / 3
    &&& b.buffers().triangle_vertices@ == triangle_buffer(vs, tris, r as int)
    &&& b.buffers().stroke_vertices@ == stroke_buffer(vs, tris, r as int)
    &&& b.buffers().point_vertices@ == point_buffer(a.points(), a.points().len() as int)
    &&& b.buffers().triangle_vertices@.len() == 18 * r
    &&& b.buffers().stroke_vertices@.len() == 12 * r
    &&& b.buffers().point_vertices@.len() == 2 * a.points().len()
}

/// `b` is `a` after a `tick` with these arguments returned `r`.
pub open spec fn ticked_sim(
    a: Simulation,
    b: Simulation,
    delta_time: i64,
    speed: i64,
    mouse_x: i64,
    mouse_y: i64,
    mouse_in_canvas: bool,
    mouse_radius: i64,
    mouse_strength: i64,
    mouse_mode: u32,
    r: usize,
) -> bool {
    exists|m: Simulation, f: Simulation|
        mouse_reported(a, m, mouse_x, mouse_y, mouse_in_canvas, mouse_radius, mouse_strength, mouse_mode)
            && #[trigger] frame_stepped(m, f, delta_time, speed) && triangulated(f, b, r)
}

impl Simulation {
    /// A simulation of `point_count` particles (clamped to
    /// `[MIN_POINT_COUNT, MAX_POINT_COUNT]`) drawn from `seed`, in a `width` by
    /// `height` field (each clamped to `[MIN_DIMENSION, MAX_DIMENSION]`), with
    /// default parameters, no effects and empty buffers. Heights start at zero;
    /// see `apply_height_samples`.
    pub fn new(width: i64, height: i64, point_count: usize, seed: u32) -> (r: Simulation)
        ensures
            created(r, width, height, point_count, seed),
    {
        let w = clamp_dimension(width);
        let h = clamp_dimension(height);
        let count = clamp_count(point_count);
        let mut rng = Rng::new(seed);
        let mut points: Vec<Point> = Vec::new();
        grow(&mut points, &mut rng, count, w, h);
        proof {
            lemma_spawned_len(seeded(seed), count as nat, w as int, h as int);
        }
        assert(Seq::<Point>::empty() + spawned(seeded(seed), count as nat, w as int, h as int)
            =~= spawned(seeded(seed), count as nat, w as int, h as int));
        proof {
            lemma_grid_fits(w as int, h as int, DEFAULT_MOUSE_RADIUS as int);
        }
        let grid = SpatialGrid::new(w, h, DEFAULT_MOUSE_RADIUS);
        Simulation {
            points,
            width: w,
            height: h,
            rng,
            buffers: TriangulationBuffers::new(),
            noise_scale: DEFAULT_NOISE_SCALE,
            height_intensity: DEFAULT_HEIGHT_INTENSITY,
            mouse: MouseState::new(),
            spring_back: DEFAULT_SPRING_BACK,
            damping: DEFAULT_DAMPING,
            velocity_influence: DEFAULT_VELOCITY_INFLUENCE,
            shockwaves: ShockwaveManager::new(),
            gravity_well: None,
            grid,
        }
    }

    /// Stores the noise scale (millionths, clamped to `[MIN_NOISE_SCALE,
    /// MAX_NOISE_SCALE]`) and height intensity (thousandths, clamped to
    /// `[0, MAX_HEIGHT_INTENSITY]`) that heights are computed with. Heights
    /// change when new samples are applied.
    pub fn set_noise_params(&mut self, noise_scale: i64, height_intensity: i64)
        requires
            old(self).wf(),
        ensures
            noise_set(*old(self), *final(self), noise_scale, height_intensity),
    {
        self.noise_scale = clamp_i64(noise_scale, MIN_NOISE_SCALE, MAX_NOISE_SCALE);
        self.height_intensity = clamp_i64(height_intensity, 0, MAX_HEIGHT_INTENSITY);
    }

    /// Rest positions of the particles from index `from` on: where their
    /// noise samples are taken.
    pub fn height_sample_positions(&self, from: usize) -> (r: Vec<(i64, i64)>)
        requires
            self.wf(),
        ensures
            r@.len() == (if from < self.points().len() {
                self.points().len() - from
            } else {
                0
            }),
            forall|k: int|
                0 <= k < r@.len() ==> #[trigger] r@[k] == (
                    self.points()[from + k].base_x,
                    self.points()[from + k].base_y,
                ),
    {
        let mut out: Vec<(i64, i64)> = Vec::new();
        let n = self.points.len();
        let start = if from < n { from } else { n };
        let mut i = start;
        while i < n
            invariant
                n == self.points@.len(),
                start <= i <= n,
                start == (if from < n { from } else { n }),
                out@.len() == i - start,
                forall|k: int|
                    0 <= k < out@.len() ==> #[trigger] out@[k] == (
                        self.points@[start + k].base_x,
                        self.points@[start + k].base_y,
                    ),
            decreases n - i,
        {
            out.push((self.points[i].base_x, self.points[i].base_y));
            i += 1;
        }
        out
    }

    /// Sets the height of the particles from index `from` on, one per noise
    /// sample (thousandths, clamped to `[-1000, 1000]`), from their rest
    /// positions, the field's size and the height intensity.
    pub fn apply_height_samples(&mut self, from: usize, samples: &Vec<i64>)
        requires
            old(self).wf(),
        ensures
            heights_applied(*old(self), *final(self), from, samples@),
    {
        apply_samples(&mut self.points, from, samples, self.width, self.height, self.height_intensity);
    }

    /// Records a pointer report; position clamped to `COORD_LIMIT`, radius to
    /// `[0, COORD_LIMIT]`, strength to `[0, MAX_MOUSE_STRENGTH]`; `mode` 1 is
    /// Pull, 2 Swirl, anything else Push.
    pub fn set_mouse_state(
        &mut self,
        x: i64,
        y: i64,
        in_canvas: bool,
        radius: i64,
        strength: i64,
        mode: u32,
    )
        requires
            old(self).wf(),
        ensures
            mouse_reported(*old(self), *final(self), x, y, in_canvas, radius, strength, mode),
    {
        self.mouse.update(
            clamp_i64(x, -COORD_LIMIT, COORD_LIMIT),
            clamp_i64(y, -COORD_LIMIT, COORD_LIMIT),
            in_canvas,
            clamp_i64(radius, 0, COORD_LIMIT),
            clamp_i64(strength, 0, MAX_MOUSE_STRENGTH),
            mode,
        );
    }

    /// Sets the spring constant and damping (thousandths, each clamped to
    /// `[0, 1000]`) and the pointer's velocity influence (thousandths,
    /// clamped to `[0, MAX_VELOCITY_INFLUENCE]`).
    pub fn set_physics_params(&mut self, spring_back: i64, damping: i64, velocity_influence: i64)
        requires
            old(self).wf(),
        ensures
            physics_set(*old(self), *final(self), spring_back, damping, velocity_influence),
    {
        self.spring_back = clamp_i64(spring_back, 0, PERMILLE);
        self.damping = clamp_i64(damping, 0, PERMILLE);
        self.velocity_influence = clamp_i64(velocity_influence, 0, MAX_VELOCITY_INFLUENCE);
    }

    /// Starts a shockwave at `(x, y)` (clamped to `COORD_LIMIT`), dropping
    /// the oldest when `MAX_SHOCKWAVES` are alive.
    pub fn trigger_shockwave(&mut self, x: i64, y: i64, strength: i64)
        requires
            old(self).wf(),
        ensures
            wave_triggered(*old(self), *final(self), x, y, strength),
    {
        self.shockwaves.add(
            clamp_i64(x, -COORD_LIMIT, COORD_LIMIT),
            clamp_i64(y, -COORD_LIMIT, COORD_LIMIT),
            strength,
        );
    }

    /// Places an attracting or repelling well at `(x, y)` (clamped to
    /// `COORD_LIMIT`), or removes the well.
    pub fn set_gravity_well(&mut self, x: i64, y: i64, active: bool, attract: bool)
        requires
            old(self).wf(),
        ensures
            well_set(*old(self), *final(self), placed_well(x, y, active, attract)),
    {
        if active {
            let cx = clamp_i64(x, -COORD_LIMIT, COORD_LIMIT);
            let cy = clamp_i64(y, -COORD_LIMIT, COORD_LIMIT);
            self.gravity_well = Some(
                if attract {
                    GravityWell::attract(cx, cy)
                } else {
                    GravityWell::repel(cx, cy)
                },
            );
        } else {
            self.gravity_well = None;
        }
    }

    /// Moves the well, if there is one, to `(x, y)` (clamped to `COORD_LIMIT`).
    pub fn update_gravity_well_position(&mut self, x: i64, y: i64)
        requires
            old(self).wf(),
        ensures
            well_set(*old(self), *final(self), moved_well(old(self).gravity_well(), x, y)),
    {
        let cx = clamp_i64(x, -COORD_LIMIT, COORD_LIMIT);
        let cy = clamp_i64(y, -COORD_LIMIT, COORD_LIMIT);
        if let Some(mut w) = self.gravity_well {
            w.set_position(cx, cy);
            self.gravity_well = Some(w);
        }
    }

    /// Resizes the field (each side clamped to `[MIN_DIMENSION,
    /// MAX_DIMENSION]`), scaling every particle's position and rest position
    /// by the change.
    pub fn resize(&mut self, new_width: i64, new_height: i64)
        requires
            old(self).wf(),
        ensures
            resized(*old(self), *final(self), new_width, new_height),
    {
        let w = clamp_dimension(new_width);
        let h = clamp_dimension(new_height);
        scale_all(&mut self.points, w, self.width, h, self.height);
        self.width = w;
        self.height = h;
    }

    /// Re-seeds the generator with `seed`, then draws new particles until
    /// there are `count` (clamped to `[MIN_POINT_COUNT, MAX_POINT_COUNT]`),
    /// or drops the newest ones down to it.
    pub fn set_point_count(&mut self, count: usize, seed: u32)
        requires
            old(self).wf(),
        ensures
            count_set(*old(self), *final(self), count, seed),
    {
        let c = clamp_count(count);
        self.rng = Rng::new(seed);
        grow(&mut self.points, &mut self.rng, c, self.width, self.height);
        proof {
            if old(self).points@.len() < c {
                let added = (c - old(self).points@.len()) as nat;
                lemma_spawned_len(seeded(seed), added, self.width as int, self.height as int);
                assert(self.points@.len() == c);
            } else {
                assert(self.points@.len() == old(self).points@.len());
            }
        }
        self.points.truncate(c);
        proof {
            if old(self).points@.len() < c {
                assert(self.points() == old(self).points() + spawned(
                    seeded(seed),
                    (c - old(self).points@.len()) as nat,
                    old(self).extent_x(),
                    old(self).extent_y(),
                ));
            } else {
                assert(self.points() == old(self).points().subrange(0, c as int));
            }
        }
    }
}

impl Simulation {
    /// One frame: ticks the shockwaves (dropping spent ones), drifts, wraps
    /// and springs every particle (`delta_time` in milliseconds and `speed`
    /// in thousandths, each clamped to `[0, 10000]`), rebuilds the grid with
    /// cells as wide as the farthest-acting effect, then applies the pointer,
    /// the well and each shockwave through the grid.
    pub fn update_points(&mut self, delta_time: i64, speed: i64)
        requires
            old(self).wf(),
        ensures
            frame_stepped(*old(self), *final(self), delta_time, speed),
    {
        let dt = clamp_i64(delta_time, 0, MAX_DELTA_TIME);
        let sp = clamp_i64(speed, 0, MAX_SPEED);
        self.shockwaves.update();
        step_all(&mut self.points, dt, sp, self.width, self.height, self.spring_back, self.damping);
        let reach = reach_of(&self.mouse, &self.shockwaves, &self.gravity_well);
        proof {
            assert(reach <= crate::spatial_grid::QUERY_LIMIT) by {
                assert(self.mouse.radius <= COORD_LIMIT);
                assert(max_reach(self.shockwaves.waves(), SHOCKWAVE_WAVE_WIDTH as int)
                    <= crate::effects::SHOCKWAVE_BUDGET + COORD_LIMIT) by {
                    lemma_max_reach_bound(self.shockwaves.waves());
                }
            }
        }
        rebuild_grid(&mut self.grid, &self.points, self.width, self.height, reach);
        let ghost stepped_points = self.points@;
        apply_forces(
            &mut self.points,
            &self.mouse,
            self.velocity_influence,
            &self.gravity_well,
            self.shockwaves.iter(),
            &self.grid,
        );
        assert forall|i: int| 0 <= i < self.points@.len() implies (#[trigger] self.points@[i]).wf(
            self.width as int,
            self.height as int,
        ) by {
            assert(stepped_points[i].wf(self.width as int, self.height as int));
        }
    }

    /// Triangulates the particles with their ghosts and corner anchors,
    /// rebuilds the three buffers and returns the number of triangles.
    pub fn triangulate(&mut self) -> (r: usize)
        requires
            old(self).wf(),
        ensures
            triangulated(*old(self), *final(self), r),
    {
        proof {
            assert forall|i: int| 0 <= i < self.points@.len() implies
                (#[trigger] self.points@[i]).bounded() by {
                assert(self.points@[i].wf(self.width as int, self.height as int));
            }
        }
        crate::triangulation::triangulate(&self.points, self.width, self.height, &mut self.buffers)
    }

    /// Filled-triangle buffer: per vertex x, y, average height, centroid y,
    /// centroid x, centroid y.
    pub fn get_triangle_vertices(&self) -> (r: &Vec<i64>)
        ensures
            r@ == self.buffers().triangle_vertices@,
    {
        &self.buffers.triangle_vertices
    }

    /// Stroke buffer: per edge x1, y1, x2, y2.
    pub fn get_stroke_vertices(&self) -> (r: &Vec<i64>)
        ensures
            r@ == self.buffers().stroke_vertices@,
    {
        &self.buffers.stroke_vertices
    }

    /// Point-marker buffer: per particle x, y.
    pub fn get_point_vertices(&self) -> (r: &Vec<i64>)
        ensures
            r@ == self.buffers().point_vertices@,
    {
        &self.buffers.point_vertices
    }

    pub fn get_triangle_count(&self) -> (r: usize)
        ensures
            r == self.buffers().triangle_vertices@.len() / 18,
    {
        self.buffers.triangle_count()
    }

    pub fn get_stroke_vertex_count(&self) -> (r: usize)
        ensures
            r == self.buffers().stroke_vertices@.len() / 2,
    {
        self.buffers.stroke_vertex_count()
    }

    pub fn get_point_count(&self) -> (r: usize)
        ensures
            r == self.points().len(),
    {
        self.points.len()
    }

    /// Noise scale, in millionths of the inverse pixel.
    pub fn get_noise_scale(&self) -> (r: i64)
        ensures
            r == self.noise_scale(),
    {
        self.noise_scale
    }

    /// Lengths of the filled-triangle, stroke and point-marker buffers.
    pub fn get_buffer_sizes(&self) -> (r: (usize, usize, usize))
        ensures
            r == (
                self.buffers().triangle_vertices@.len() as usize,
                self.buffers().stroke_vertices@.len() as usize,
                self.buffers().point_vertices@.len() as usize,
            ),
    {
        (
            self.buffers.triangle_vertices.len(),
            self.buffers.stroke_vertices.len(),
            self.buffers.point_vertices.len(),
        )
    }

    /// A pointer report, one frame and a triangulation in one call; returns
    /// the number of triangles.
    pub fn tick(
        &mut self,
        delta_time: i64,
        speed: i64,
        mouse_x: i64,
        mouse_y: i64,
        mouse_in_canvas: bool,
        mouse_radius: i64,
        mouse_strength: i64,
        mouse_mode: u32,
    ) -> (r: usize)
        requires
            old(self).wf(),
        ensures
            ticked_sim(
                *old(self),
                *final(self),
                delta_time,
                speed,
                mouse_x,
                mouse_y,
                mouse_in_canvas,
                mouse_radius,
                mouse_strength,
                mouse_mode,
                r,
            ),
            final(self).wf(),
            final(self).points().len() == old(self).points().len(),
            final(self).buffers().triangle_vertices@.len() == 18 * r,
            final(self).buffers().stroke_vertices@.len() == 12 * r,
            final(self).buffers().point_vertices@.len() == 2 * old(self).points().len(),
    {
        self.set_mouse_state(
            mouse_x,
            mouse_y,
            mouse_in_canvas,
            mouse_radius,
            mouse_strength,
            mouse_mode,
        );
        let ghost reported_state = *self;
        self.update_points(delta_time, speed);
        let ghost stepped_state = *self;
        let r = self.triangulate();
        assert(frame_stepped(reported_state, stepped_state, delta_time, speed));
        r
    }
}

proof fn lemma_max_reach_bound(ws: Seq<Shockwave>)
    requires
        forall|i: int| 0 <= i < ws.len() ==> (#[trigger] ws[i]).wf(),
    ensures
        0 <= max_reach(ws, SHOCKWAVE_WAVE_WIDTH as int) <= crate::effects::SHOCKWAVE_BUDGET + COORD_LIMIT,
    decreases ws.len(),
{
    if ws.len() > 0 {
        assert forall|i: int| 0 <= i < ws.drop_last().len() implies (#[trigger] ws.drop_last()[i]).wf() by {
            assert(ws[i].wf());
        }
        lemma_max_reach_bound(ws.drop_last());
        assert(ws[ws.len() - 1].wf());
    }
}

/// Sets the height of the particles from index `from` on, one per sample.
fn apply_samples(points: &mut Vec<Point>, from: usize, samples: &Vec<i64>, w: i64, h: i64, intensity: i64)
    requires
        valid_dimension(w as int),
        valid_dimension(h as int),
        0 <= intensity <= MAX_HEIGHT_INTENSITY,
        all_wf(old(points)@, w as int, h as int),
    ensures
        final(points)@.len() == old(points)@.len(),
        all_wf(final(points)@, w as int, h as int),
        forall|i: int|
            0 <= i < old(points)@.len() ==> #[trigger] final(points)@[i] == (if from <= i < from
                + samples@.len() {
                with_height(old(points)@[i], samples@[i - from] as int, w as int, h as int, intensity as int)
            } else {
                old(points)@[i]
            }),
{
    let n = points.len();
    let mut k: usize = 0;
    while k < samples.len()
        invariant
            n == points@.len(),
            valid_dimension(w as int),
            valid_dimension(h as int),
            0 <= intensity <= MAX_HEIGHT_INTENSITY,
            k <= samples@.len(),
            forall|i: int| 0 <= i < n ==> (#[trigger] points@[i]).wf(w as int, h as int),
            forall|i: int|
                0 <= i < n ==> #[trigger] points@[i] == (if from <= i < from + k {
                    with_height(
                        old(points)@[i],
                        samples@[i - from] as int,
                        w as int,
                        h as int,
                        intensity as int,
                    )
                } else {
                    old(points)@[i]
                }),
        decreases samples@.len() - k,
    {
        if from < n && k < n - from {
            let i = from + k;
            let sample = clamp_i64(samples[k], -1000, 1000);
            let mut p = points[i];
            p.regenerate_height(sample, w, h, intensity);
            points.set(i, p);
        }
        k += 1;
    }
}

/// Scales every particle from a `old_w` by `old_h` field to a `w` by `h` one.
fn scale_all(points: &mut Vec<Point>, w: i64, old_w: i64, h: i64, old_h: i64)
    requires
        valid_dimension(w as int),
        valid_dimension(h as int),
        valid_dimension(old_w as int),
        valid_dimension(old_h as int),
        all_wf(old(points)@, old_w as int, old_h as int),
    ensures
        final(points)@.len() == old(points)@.len(),
        all_wf(final(points)@, w as int, h as int),
        forall|i: int|
            0 <= i < old(points)@.len() ==> #[trigger] final(points)@[i] == (Point {
                x: scaled(old(points)@[i].x as int, w as int, old_w as int) as i64,
                y: scaled(old(points)@[i].y as int, h as int, old_h as int) as i64,
                base_x: scaled(old(points)@[i].base_x as int, w as int, old_w as int) as i64,
                base_y: scaled(old(points)@[i].base_y as int, h as int, old_h as int) as i64,
                ..old(points)@[i]
            }),
{
    let n = points.len();
    let mut i: usize = 0;
    while i < n
        invariant
            n == points@.len(),
            i <= n,
            valid_dimension(w as int),
            valid_dimension(h as int),
            valid_dimension(old_w as int),
            valid_dimension(old_h as int),
            forall|j: int|
                0 <= j < n ==> #[trigger] points@[j] == (if j < i {
                    Point {
                        x: scaled(old(points)@[j].x as int, w as int, old_w as int) as i64,
                        y: scaled(old(points)@[j].y as int, h as int, old_h as int) as i64,
                        base_x: scaled(old(points)@[j].base_x as int, w as int, old_w as int) as i64,
                        base_y: scaled(old(points)@[j].base_y as int, h as int, old_h as int) as i64,
                        ..old(points)@[j]
                    }
                } else {
                    old(points)@[j]
                }),
            forall|j: int|
                0 <= j < n ==> (#[trigger] points@[j]).wf(
                    (if j < i { w } else { old_w }) as int,
                    (if j < i { h } else { old_h }) as int,
                ),
        decreases n - i,
    {
        let mut p = points[i];
        p.scale(w, old_w, h, old_h);
        points.set(i, p);
        i += 1;
    }
}

/// One frame's drift, wrap and spring step for every particle.
fn step_all(
    points: &mut Vec<Point>,
    dt: i64,
    speed: i64,
    w: i64,
    h: i64,
    spring: i64,
    damping: i64,
)
    requires
        valid_dimension(w as int),
        valid_dimension(h as int),
        0 <= dt <= MAX_DELTA_TIME,
        0 <= speed <= MAX_SPEED,
        0 <= spring <= PERMILLE,
        0 <= damping <= PERMILLE,
        all_wf(old(points)@, w as int, h as int),
    ensures
        final(points)@ == stepped(
            old(points)@,
            dt as int,
            speed as int,
            w as int,
            h as int,
            spring as int,
            damping as int,
        ),
        all_wf(final(points)@, w as int, h as int),
{
    let n = points.len();
    let mut i: usize = 0;
    while i < n
        invariant
            n == points@.len(),
            i <= n,
            valid_dimension(w as int),
            valid_dimension(h as int),
            0 <= dt <= MAX_DELTA_TIME,
            0 <= speed <= MAX_SPEED,
            0 <= spring <= PERMILLE,
            0 <= damping <= PERMILLE,
            forall|j: int| 0 <= j < n ==> (#[trigger] points@[j]).wf(w as int, h as int),
            forall|j: int|
                0 <= j < n ==> #[trigger] points@[j] == (if j < i {
                    spring_step(
                        drifted(old(points)@[j], dt as int, speed as int, w as int, h as int),
                        spring as int,
                        damping as int,
                    )
                } else {
                    old(points)@[j]
                }),
        decreases n - i,
    {
        let mut p = points[i];
        p.update_position(dt, speed, w, h);
        p.apply_spring(spring, damping);
        points.set(i, p);
        i += 1;
    }
    assert(points@ =~= stepped(
        old(points)@,
        dt as int,
        speed as int,
        w as int,
        h as int,
        spring as int,
        damping as int,
    ));
}

/// Reach of the farthest-acting effect, at least `MIN_CELL_SIZE`.
fn reach_of(mouse: &MouseState, waves: &ShockwaveManager, well: &Option<GravityWell>) -> (r: i64)
    requires
        mouse.wf(),
        waves.wf(),
    ensures
        r == governing_reach(*mouse, waves.waves(), *well),
        MIN_CELL_SIZE <= r,
{
    let ring = waves.max_radius(SHOCKWAVE_WAVE_WIDTH);
    let a = if mouse.radius > ring { mouse.radius } else { ring };
    let b = if well.is_some() && GRAVITY_WELL_MAX_RANGE > a { GRAVITY_WELL_MAX_RANGE } else { a };
    if b < MIN_CELL_SIZE {
        MIN_CELL_SIZE
    } else {
        b
    }
}

/// Empties the grid, reshaping it first when its size or cell drifted past
/// `GRID_TOLERANCE`, and puts every particle in it.
fn rebuild_grid(grid: &mut SpatialGrid, points: &Vec<Point>, w: i64, h: i64, reach: i64)
    requires
        old(grid).wf(),
        valid_dimension(w as int),
        valid_dimension(h as int),
        MIN_CELL_SIZE <= reach <= crate::spatial_grid::QUERY_LIMIT,
        old(grid).extent_x() <= MAX_DIMENSION,
        old(grid).extent_y() <= MAX_DIMENSION,
        all_bounded(points@),
    ensures
        final(grid).wf(),
        final(grid).extent_x() <= MAX_DIMENSION,
        final(grid).extent_y() <= MAX_DIMENSION,
        grid_drifted(*old(grid), w as int, h as int, reach as int) ==> final(grid).cell() == reach
            && final(grid).extent_x() == w && final(grid).extent_y() == h,
        !grid_drifted(*old(grid), w as int, h as int, reach as int) ==> final(grid).cell()
            == old(grid).cell() && final(grid).extent_x() == old(grid).extent_x()
            && final(grid).extent_y() == old(grid).extent_y(),
        final(grid).cells() == bucketed(
            final(grid).cols(),
            final(grid).rows(),
            final(grid).cell(),
            points@,
            points@.len() as int,
        ),
{
    let gw = grid.width();
    let gh = grid.height();
    let gc = grid.cell_size();
    let dw = if gw > w { gw - w } else { w - gw };
    let dh = if gh > h { gh - h } else { h - gh };
    let dc = if gc > reach { gc - reach } else { reach - gc };
    if dw > GRID_TOLERANCE || dh > GRID_TOLERANCE || dc > GRID_TOLERANCE {
        proof {
            lemma_grid_fits(w as int, h as int, reach as int);
        }
        grid.resize(w, h, reach);
    } else {
        grid.clear();
    }
    let ghost cols = grid.cols();
    let ghost rows = grid.rows();
    let ghost cell = grid.cell();
    assert forall|i: int| 0 <= i < grid.cells().len() implies grid.cells()[i] =~= Seq::<usize>::empty() by {
        assert(grid.cells()[i].len() == 0);
    }
    assert(grid.cells() =~= bucketed(cols, rows, cell, points@, 0));
    let n = points.len();
    let mut i: usize = 0;
    while i < n
        invariant
            n == points@.len(),
            i <= n,
            all_bounded(points@),
            grid.wf(),
            grid.cols() == cols,
            grid.rows() == rows,
            grid.cell() == cell,
            grid.extent_x() <= MAX_DIMENSION,
            grid.extent_y() <= MAX_DIMENSION,
            grid_drifted(*old(grid), w as int, h as int, reach as int) ==> grid.cell() == reach
                && grid.extent_x() == w && grid.extent_y() == h,
            !grid_drifted(*old(grid), w as int, h as int, reach as int) ==> grid.cell()
                == old(grid).cell() && grid.extent_x() == old(grid).extent_x()
                && grid.extent_y() == old(grid).extent_y(),
            grid.cells() == bucketed(cols, rows, cell, points@, i as int),
        decreases n - i,
    {
        assert(points@[i as int].bounded());
        grid.insert(i, points[i].x, points[i].y);
        i += 1;
    }
}

/// The pointer, the well and every shockwave, in that order, applied through
/// the grid.
fn apply_forces(
    points: &mut Vec<Point>,
    mouse: &MouseState,
    influence: i64,
    well: &Option<GravityWell>,
    waves: &Vec<Shockwave>,
    grid: &SpatialGrid,
)
    requires
        all_bounded(old(points)@),
        mouse.wf(),
        0 <= influence <= MAX_VELOCITY_INFLUENCE,
        well matches Some(w) ==> w.wf(),
        forall|k: int| 0 <= k < waves@.len() ==> (#[trigger] waves@[k]).wf(),
        grid.wf(),
    ensures
        all_bounded(final(points)@),
        alike(final(points)@, old(points)@),
        final(points)@ == forced(old(points)@, *mouse, influence as int, *well, waves@, *grid),
{
    let ghost start = points@;
    apply_mouse_influence(points, mouse, influence, grid);
    if let Some(w) = well {
        apply_gravity_well(points, w, grid);
    }
    let ghost mid = points@;
    let mut k: usize = 0;
    while k < waves.len()
        invariant
            k <= waves@.len(),
            forall|j: int| 0 <= j < waves@.len() ==> (#[trigger] waves@[j]).wf(),
            grid.wf(),
            all_bounded(points@),
            alike(points@, start),
            points@ == waves_pass(mid, waves@.subrange(0, k as int), *grid),
        decreases waves@.len() - k,
    {
        assert(waves@[k as int].wf());
        apply_shockwave(points, &waves[k], grid);
        assert(waves@.subrange(0, k + 1).drop_last() =~= waves@.subrange(0, k as int));
        k += 1;
    }
    assert(waves@.subrange(0, k as int) =~= waves@);
}

/// Draws particles from `rng` and appends them until there are `count`.
fn grow(points: &mut Vec<Point>, rng: &mut Rng, count: usize, w: i64, h: i64)
    requires
        valid_dimension(w as int),
        valid_dimension(h as int),
        count <= MAX_POINT_COUNT,
        all_wf(old(points)@, w as int, h as int),
    ensures
        final(points)@ == if old(points)@.len() < count {
            old(points)@ + spawned(old(rng).state(), (count - old(points)@.len()) as nat, w as int, h as int)
        } else {
            old(points)@
        },
        final(rng).state() == state_after(
            old(rng).state(),
            (4 * (final(points)@.len() - old(points)@.len())) as nat,
        ),
        all_wf(final(points)@, w as int, h as int),
{
    let ghost start = points@;
    let ghost s0 = rng.state();
    assert(start + spawned(s0, 0, w as int, h as int) =~= start);
    while points.len() < count
        invariant
            valid_dimension(w as int),
            valid_dimension(h as int),
            count <= MAX_POINT_COUNT,
            start.len() <= points@.len(),
            points@.len() <= (if start.len() < count {
                count as int
            } else {
                start.len() as int
            }),
            points@ == start + spawned(s0, (points@.len() - start.len()) as nat, w as int, h as int),
            rng.state() == state_after(s0, (4 * (points@.len() - start.len())) as nat),
            all_wf(points@, w as int, h as int),
        decreases count - points@.len(),
    {
        let ghost k = (points@.len() - start.len()) as nat;
        let p = Point::new_random(rng, w, h);
        proof {
            lemma_state_after_add(s0, 4 * k, 4);
            assert((4 * k + 4) as nat == 4 * (k + 1));
        }
        points.push(p);
        assert(points@ =~= start + spawned(s0, k + 1, w as int, h as int));
    }
}

fn clamp_i64(v: i64, lo: i64, hi: i64) -> (r: i64)
    requires
        lo <= hi,
    ensures
        r == clamp(v as int, lo as int, hi as int),
{
    if v < lo {
        lo
    } else if v > hi {
        hi
    } else {
        v
    }
}

fn clamp_dimension(v: i64) -> (r: i64)
    ensures
        r == clamp(v as int, MIN_DIMENSION as int, MAX_DIMENSION as int),
        valid_dimension(r as int),
{
    clamp_i64(v, MIN_DIMENSION, MAX_DIMENSION)
}

fn clamp_count(n: usize) -> (r: usize)
    ensures
        r == clamp(n as int, MIN_POINT_COUNT as int, MAX_POINT_COUNT as int),
{
    if n < MIN_POINT_COUNT {
        MIN_POINT_COUNT
    } else if n > MAX_POINT_COUNT {
        MAX_POINT_COUNT
    } else {
        n
    }
}

} // verus!
