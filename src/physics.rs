//! Force kernels: pointer, gravity well and shockwave.
//!
//! Each kernel gathers candidate particles from the spatial grid (broad
//! phase), checks the exact distance (narrow phase), and adds to the
//! particles' displacement, never to their position.
use vstd::prelude::*;
use crate::effects::{
    GravityWell, MouseMode, MouseState, Shockwave, MAX_MOUSE_STRENGTH, SHOCKWAVE_WAVE_WIDTH,
};
use crate::fixed::{
    abs, clamp, clamp_to, dist_sq, div_trunc, isqrt, isqrt_of, mul_div, sq_dist, COORD_LIMIT,
};
use crate::point::{Point, MAX_DISPLACEMENT};
use crate::spatial_grid::SpatialGrid;

verus! {

/// Particles closer than this squared distance to a force's centre are
/// skipped: one pixel.
pub const MIN_DIST_SQ: i64 = 1_000_000;

/// Gravity acts up to this distance.
pub const GRAVITY_WELL_MAX_RANGE: i64 = 1_000_000;

/// Closer than this, gravity acts as if at this distance.
pub const GRAVITY_WELL_MIN_DIST: i64 = 20_000;

/// Gravity force is `strength * GRAVITY_SCALE / dist`, in sub-pixel units.
pub const GRAVITY_SCALE: i64 = 10_000_000;

/// Largest pointer velocity influence, in thousandths.
pub const MAX_VELOCITY_INFLUENCE: i64 = 10_000;

/// Largest pointer boost, in thousandths.
pub const BOOST_LIMIT: i64 = 42_949_673_960;

/// `amount` along the axis component `c` of a vector of length `dist`.
pub open spec fn along(c: int, amount: int, dist: int) -> int {
    div_trunc(c * amount, dist)
}

/// A displacement after adding `delta`, kept within `MAX_DISPLACEMENT`.
pub open spec fn nudged(d: int, delta: int) -> int {
    clamp(d + delta, -MAX_DISPLACEMENT as int, MAX_DISPLACEMENT as int)
}

/// `p` with `(ddx, ddy)` added to its displacement.
pub open spec fn kicked(p: Point, ddx: int, ddy: int) -> Point {
    Point { dx: nudged(p.dx as int, ddx) as i64, dy: nudged(p.dy as int, ddy) as i64, ..p }
}

/// Smoothstep `t^2 (3 - 2t)` in thousandths.
pub open spec fn smoothstep(t: int) -> int {
    t * t * (3000 - 2 * t) / 1_000_000
}

/// Pointer strength boost from its speed, in thousandths.
pub open spec fn velocity_boost(speed: int, influence: int) -> int {
    1000 + speed * influence / 1000
}

/// The boost of pointer `m` with velocity influence `influence`.
pub open spec fn mouse_boost(m: MouseState, influence: int) -> int {
    velocity_boost(isqrt_of(m.vx * m.vx + m.vy * m.vy), influence)
}

/// Push of the pointer, in sub-pixel units: strength times falloff times
/// boost times eight hundredths.
pub open spec fn pointer_push(strength: int, falloff: int, boost: int) -> int {
    strength * falloff / 1000 * boost / 1000 * 8 / 100
}

/// What the pointer does to one particle.
pub open spec fn mouse_kick(p: Point, m: MouseState, boost: int) -> Point {
    let dx = p.x - m.x;
    let dy = p.y - m.y;
    let dsq = dx * dx + dy * dy;
    if dsq >= m.radius * m.radius || dsq < MIN_DIST_SQ {
        p
    } else {
        let dist = isqrt_of(dsq);
        let t = 1000 - dist * 1000 / (m.radius as int);
        let push = pointer_push(m.strength as int, smoothstep(t), boost);
        match m.mode {
            MouseMode::Push => kicked(p, along(dx, push, dist), along(dy, push, dist)),
            MouseMode::Pull => kicked(p, -along(dx, push / 2, dist), -along(dy, push / 2, dist)),
            MouseMode::Swirl => kicked(
                p,
                along(-dy, push * 7 / 10, dist) + along(dx, push / 5, dist),
                along(dx, push * 7 / 10, dist) + along(dy, push / 5, dist),
            ),
        }
    }
}

/// What the gravity well does to one particle.
pub open spec fn gravity_kick(p: Point, w: GravityWell) -> Point {
    let dx = w.x - p.x;
    let dy = w.y - p.y;
    let dsq = dx * dx + dy * dy;
    if dsq > GRAVITY_WELL_MAX_RANGE * GRAVITY_WELL_MAX_RANGE {
        p
    } else {
        let dist = if dsq < GRAVITY_WELL_MIN_DIST * GRAVITY_WELL_MIN_DIST {
            GRAVITY_WELL_MIN_DIST as int
        } else {
            isqrt_of(dsq)
        };
        let force = div_trunc(w.strength * GRAVITY_SCALE, dist);
        kicked(p, along(dx, force, dist), along(dy, force, dist))
    }
}

/// Inner edge of a wave's ring.
pub open spec fn ring_inner(w: Shockwave) -> int {
    if w.radius - SHOCKWAVE_WAVE_WIDTH > 0 {
        w.radius - SHOCKWAVE_WAVE_WIDTH
    } else {
        0
    }
}

/// Outer edge of a wave's ring.
pub open spec fn ring_outer(w: Shockwave) -> int {
    w.radius + SHOCKWAVE_WAVE_WIDTH
}

/// What a shockwave does to one particle.
pub open spec fn wave_kick(p: Point, w: Shockwave) -> Point {
    let dx = p.x - w.x;
    let dy = p.y - w.y;
    let dsq = dx * dx + dy * dy;
    if dsq < ring_inner(w) * ring_inner(w) || dsq > ring_outer(w) * ring_outer(w) || dsq
        < MIN_DIST_SQ {
        p
    } else {
        let dist = isqrt_of(dsq);
        let ring = abs(dist - w.radius);
        if ring < SHOCKWAVE_WAVE_WIDTH {
            let falloff = 1000 - ring * 1000 / (SHOCKWAVE_WAVE_WIDTH as int);
            let push = w.strength * falloff * 15 / 100_000;
            kicked(p, along(dx, push, dist), along(dy, push, dist))
        } else {
            p
        }
    }
}

/// Narrow phase: each kick leaves a particle beyond its effect's reach as it
/// is, so a superset of candidates acts exactly on the particles in reach.
pub proof fn lemma_kicks_are_local(p: Point, m: MouseState, boost: int, well: GravityWell, wave: Shockwave)
    ensures
        sq_dist(p.x as int, p.y as int, m.x as int, m.y as int) >= m.radius * m.radius
            ==> mouse_kick(p, m, boost) == p,
        sq_dist(p.x as int, p.y as int, well.x as int, well.y as int) > GRAVITY_WELL_MAX_RANGE
            * GRAVITY_WELL_MAX_RANGE ==> gravity_kick(p, well) == p,
        sq_dist(p.x as int, p.y as int, wave.x as int, wave.y as int) > ring_outer(wave)
            * ring_outer(wave) ==> wave_kick(p, wave) == p,
{
    let (ax, ay) = (well.x - p.x, well.y - p.y);
    assert(ax * ax == (p.x - well.x) * (p.x - well.x)) by (nonlinear_arith)
        requires
            ax == well.x - p.x,
    ;
    assert(ay * ay == (p.y - well.y) * (p.y - well.y)) by (nonlinear_arith)
        requires
            ay == well.y - p.y,
    ;
}

/// The particles after the pointer acted on those listed in `idxs`, in
/// order; indices past the end are skipped.
pub open spec fn mouse_pass(ps: Seq<Point>, idxs: Seq<usize>, m: MouseState, boost: int) -> Seq<
    Point,
>
    decreases idxs.len(),
{
    if idxs.len() == 0 {
        ps
    } else {
        let prev = mouse_pass(ps, idxs.drop_last(), m, boost);
        let i = idxs.last() as int;
        if i < prev.len() {
            prev.update(i, mouse_kick(prev[i], m, boost))
        } else {
            prev
        }
    }
}

/// The particles after the well acted on those listed in `idxs`.
pub open spec fn gravity_pass(ps: Seq<Point>, idxs: Seq<usize>, w: GravityWell) -> Seq<Point>
    decreases idxs.len(),
{
    if idxs.len() == 0 {
        ps
    } else {
        let prev = gravity_pass(ps, idxs.drop_last(), w);
        let i = idxs.last() as int;
        if i < prev.len() {
            prev.update(i, gravity_kick(prev[i], w))
        } else {
            prev
        }
    }
}

/// The particles after a wave acted on those listed in `idxs`.
pub open spec fn wave_pass(ps: Seq<Point>, idxs: Seq<usize>, w: Shockwave) -> Seq<Point>
    decreases idxs.len(),
{
    if idxs.len() == 0 {
        ps
    } else {
        let prev = wave_pass(ps, idxs.drop_last(), w);
        let i = idxs.last() as int;
        if i < prev.len() {
            prev.update(i, wave_kick(prev[i], w))
        } else {
            prev
        }
    }
}

/// `a` and `b` differ at most in their displacement.
pub open spec fn same_but_displacement(a: Point, b: Point) -> bool {
    a.x == b.x && a.y == b.y && a.z == b.z && a.base_x == b.base_x && a.base_y == b.base_y && a.vx
        == b.vx && a.vy == b.vy
}

/// Two particle lists alike but for displacements.
pub open spec fn alike(a: Seq<Point>, b: Seq<Point>) -> bool {
    a.len() == b.len() && forall|i: int|
        0 <= i < a.len() ==> same_but_displacement(#[trigger] a[i], b[i])
}

/// A pass over a list that names each particle at most once applies the
/// kick exactly to the particles it names.
pub proof fn lemma_mouse_pass_distinct(ps: Seq<Point>, idxs: Seq<usize>, m: MouseState, boost: int)
    requires
        idxs.no_duplicates(),
        ps.len() <= usize::MAX,
        forall|k: int| 0 <= k < idxs.len() ==> (#[trigger] idxs[k] as int) < ps.len(),
    ensures
        mouse_pass(ps, idxs, m, boost).len() == ps.len(),
        forall|i: int|
            0 <= i < ps.len() ==> #[trigger] mouse_pass(ps, idxs, m, boost)[i] == (if idxs.contains(
                i as usize,
            ) {
                mouse_kick(ps[i], m, boost)
            } else {
                ps[i]
            }),
    decreases idxs.len(),
{
    if idxs.len() > 0 {
        let rest = idxs.drop_last();
        assert forall|x: int, y: int|
            0 <= x < rest.len() && 0 <= y < rest.len() && x != y implies rest[x] != rest[y] by {
            assert(rest[x] == idxs[x] && rest[y] == idxs[y]);
        }
        assert forall|k: int| 0 <= k < rest.len() implies (#[trigger] rest[k] as int) < ps.len() by {
            assert(rest[k] == idxs[k]);
        }
        lemma_mouse_pass_distinct(ps, rest, m, boost);
        let last = idxs.last();
        assert(!rest.contains(last)) by {
            if rest.contains(last) {
                let j = choose|j: int| 0 <= j < rest.len() && rest[j] == last;
                assert(idxs[j] == idxs[idxs.len() - 1]);
            }
        }
        assert((idxs[idxs.len() - 1] as int) < ps.len());
        assert forall|i: int| 0 <= i < ps.len() implies #[trigger] mouse_pass(ps, idxs, m, boost)[i]
            == (if idxs.contains(i as usize) {
            mouse_kick(ps[i], m, boost)
        } else {
            ps[i]
        }) by {
            if i == last as int {
                assert(idxs[idxs.len() - 1] == i as usize);
            } else {
                if idxs.contains(i as usize) {
                    let j = choose|j: int| 0 <= j < idxs.len() && idxs[j] == i as usize;
                    assert(j < rest.len());
                    assert(rest[j] == i as usize);
                }
                if rest.contains(i as usize) {
                    let j = choose|j: int| 0 <= j < rest.len() && rest[j] == i as usize;
                    assert(idxs[j] == i as usize);
                }
            }
        }
    }
}

/// A pass over a list that names each particle at most once applies the
/// kick exactly to the particles it names.
pub proof fn lemma_gravity_pass_distinct(ps: Seq<Point>, idxs: Seq<usize>, w: GravityWell)
    requires
        idxs.no_duplicates(),
        ps.len() <= usize::MAX,
        forall|k: int| 0 <= k < idxs.len() ==> (#[trigger] idxs[k] as int) < ps.len(),
    ensures
        gravity_pass(ps, idxs, w).len() == ps.len(),
        forall|i: int|
            0 <= i < ps.len() ==> #[trigger] gravity_pass(ps, idxs, w)[i] == (if idxs.contains(
                i as usize,
            ) {
                gravity_kick(ps[i], w)
            } else {
                ps[i]
            }),
    decreases idxs.len(),
{
    if idxs.len() > 0 {
        let rest = idxs.drop_last();
        assert forall|x: int, y: int|
            0 <= x < rest.len() && 0 <= y < rest.len() && x != y implies rest[x] != rest[y] by {
            assert(rest[x] == idxs[x] && rest[y] == idxs[y]);
        }
        assert forall|k: int| 0 <= k < rest.len() implies (#[trigger] rest[k] as int) < ps.len() by {
            assert(rest[k] == idxs[k]);
        }
        lemma_gravity_pass_distinct(ps, rest, w);
        let last = idxs.last();
        assert(!rest.contains(last)) by {
            if rest.contains(last) {
                let j = choose|j: int| 0 <= j < rest.len() && rest[j] == last;
                assert(idxs[j] == idxs[idxs.len() - 1]);
            }
        }
        assert((idxs[idxs.len() - 1] as int) < ps.len());
        assert forall|i: int| 0 <= i < ps.len() implies #[trigger] gravity_pass(ps, idxs, w)[i]
            == (if idxs.contains(i as usize) {
            gravity_kick(ps[i], w)
        } else {
            ps[i]
        }) by {
            if i == last as int {
                assert(idxs[idxs.len() - 1] == i as usize);
            } else {
                if idxs.contains(i as usize) {
                    let j = choose|j: int| 0 <= j < idxs.len() && idxs[j] == i as usize;
                    assert(j < rest.len());
                    assert(rest[j] == i as usize);
                }
                if rest.contains(i as usize) {
                    let j = choose|j: int| 0 <= j < rest.len() && rest[j] == i as usize;
                    assert(idxs[j] == i as usize);
                }
            }
        }
    }
}

/// A pass over a list that names each particle at most once applies the
/// kick exactly to the particles it names.
pub proof fn lemma_wave_pass_distinct(ps: Seq<Point>, idxs: Seq<usize>, w: Shockwave)
    requires
        idxs.no_duplicates(),
        ps.len() <= usize::MAX,
        forall|k: int| 0 <= k < idxs.len() ==> (#[trigger] idxs[k] as int) < ps.len(),
    ensures
        wave_pass(ps, idxs, w).len() == ps.len(),
        forall|i: int|
            0 <= i < ps.len() ==> #[trigger] wave_pass(ps, idxs, w)[i] == (if idxs.contains(
                i as usize,
            ) {
                wave_kick(ps[i], w)
            } else {
                ps[i]
            }),
    decreases idxs.len(),
{
    if idxs.len() > 0 {
        let rest = idxs.drop_last();
        assert forall|x: int, y: int|
            0 <= x < rest.len() && 0 <= y < rest.len() && x != y implies rest[x] != rest[y] by {
            assert(rest[x] == idxs[x] && rest[y] == idxs[y]);
        }
        assert forall|k: int| 0 <= k < rest.len() implies (#[trigger] rest[k] as int) < ps.len() by {
            assert(rest[k] == idxs[k]);
        }
        lemma_wave_pass_distinct(ps, rest, w);
        let last = idxs.last();
        assert(!rest.contains(last)) by {
            if rest.contains(last) {
                let j = choose|j: int| 0 <= j < rest.len() && rest[j] == last;
                assert(idxs[j] == idxs[idxs.len() - 1]);
            }
        }
        assert((idxs[idxs.len() - 1] as int) < ps.len());
        assert forall|i: int| 0 <= i < ps.len() implies #[trigger] wave_pass(ps, idxs, w)[i]
            == (if idxs.contains(i as usize) {
            wave_kick(ps[i], w)
        } else {
            ps[i]
        }) by {
            if i == last as int {
                assert(idxs[idxs.len() - 1] == i as usize);
            } else {
                if idxs.contains(i as usize) {
                    let j = choose|j: int| 0 <= j < idxs.len() && idxs[j] == i as usize;
                    assert(j < rest.len());
                    assert(rest[j] == i as usize);
                }
                if rest.contains(i as usize) {
                    let j = choose|j: int| 0 <= j < rest.len() && rest[j] == i as usize;
                    assert(idxs[j] == i as usize);
                }
            }
        }
    }
}

/// Every particle within the bounds that hold whatever the simulation's size.
pub open spec fn all_bounded(ps: Seq<Point>) -> bool {
    forall|i: int| 0 <= i < ps.len() ==> (#[trigger] ps[i]).bounded()
}

/// Applies the pointer to the particles near it. Nothing happens while the
/// pointer is outside the bounds.
pub fn apply_mouse_influence(
    points: &mut Vec<Point>,
    mouse: &MouseState,
    velocity_influence: i64,
    grid: &SpatialGrid,
)
    requires
        all_bounded(old(points)@),
        mouse.wf(),
        0 <= velocity_influence <= MAX_VELOCITY_INFLUENCE,
        grid.wf(),
    ensures
        all_bounded(final(points)@),
        alike(final(points)@, old(points)@),
        final(points)@ == (if mouse.in_canvas {
            mouse_pass(
                old(points)@,
                grid.gathered(mouse.x as int, mouse.y as int, mouse.radius as int),
                *mouse,
                mouse_boost(*mouse, velocity_influence as int),
            )
        } else {
            old(points)@
        }),
{
    if !mouse.in_canvas {
        return ;
    }
    let speed = mouse.speed();
    proof {
        assert(speed * velocity_influence <= 0x1_0000_0000 * MAX_VELOCITY_INFLUENCE)
            by (nonlinear_arith)
            requires
                0 <= speed <= 0x1_0000_0000,
                0 <= velocity_influence <= MAX_VELOCITY_INFLUENCE,
        ;
        assert(speed * velocity_influence / 1000 <= 0x1_0000_0000 * 10) by (nonlinear_arith)
            requires
                0 <= speed * velocity_influence <= 0x1_0000_0000 * MAX_VELOCITY_INFLUENCE,
        ;
    }
    let boost = 1000 + (speed as i64) * velocity_influence / 1000;
    let near = grid.query_radius(mouse.x, mouse.y, mouse.radius);
    let ghost start = points@;
    let mut k: usize = 0;
    while k < near.len()
        invariant
            k <= near@.len(),
            mouse.wf(),
            1000 <= boost <= BOOST_LIMIT,
            all_bounded(points@),
            alike(points@, start),
            points@ == mouse_pass(start, near@.subrange(0, k as int), *mouse, boost as int),
        decreases near@.len() - k,
    {
        let i = near[k];
        assert(near@.subrange(0, k + 1).drop_last() =~= near@.subrange(0, k as int));
        if i < points.len() {
            let q = mouse_kick_one(&points[i], mouse, boost);
            points.set(i, q);
        }
        k += 1;
    }
    assert(near@.subrange(0, k as int) =~= near@);
}

/// Applies the gravity well to the particles within its range.
pub fn apply_gravity_well(points: &mut Vec<Point>, well: &GravityWell, grid: &SpatialGrid)
    requires
        all_bounded(old(points)@),
        well.wf(),
        grid.wf(),
    ensures
        all_bounded(final(points)@),
        alike(final(points)@, old(points)@),
        final(points)@ == gravity_pass(
            old(points)@,
            grid.gathered(well.x as int, well.y as int, GRAVITY_WELL_MAX_RANGE as int),
            *well,
        ),
{
    let near = grid.query_radius(well.x, well.y, GRAVITY_WELL_MAX_RANGE);
    let ghost start = points@;
    let mut k: usize = 0;
    while k < near.len()
        invariant
            k <= near@.len(),
            well.wf(),
            all_bounded(points@),
            alike(points@, start),
            points@ == gravity_pass(start, near@.subrange(0, k as int), *well),
        decreases near@.len() - k,
    {
        let i = near[k];
        assert(near@.subrange(0, k + 1).drop_last() =~= near@.subrange(0, k as int));
        if i < points.len() {
            let q = gravity_kick_one(&points[i], well);
            points.set(i, q);
        }
        k += 1;
    }
    assert(near@.subrange(0, k as int) =~= near@);
}

/// Applies one shockwave to the particles in its ring.
pub fn apply_shockwave(points: &mut Vec<Point>, wave: &Shockwave, grid: &SpatialGrid)
    requires
        all_bounded(old(points)@),
        wave.wf(),
        grid.wf(),
    ensures
        all_bounded(final(points)@),
        alike(final(points)@, old(points)@),
        final(points)@ == wave_pass(
            old(points)@,
            grid.gathered(wave.x as int, wave.y as int, ring_outer(*wave)),
            *wave,
        ),
{
    let near = grid.query_radius(wave.x, wave.y, wave.radius + SHOCKWAVE_WAVE_WIDTH);
    let ghost start = points@;
    let mut k: usize = 0;
    while k < near.len()
        invariant
            k <= near@.len(),
            wave.wf(),
            all_bounded(points@),
            alike(points@, start),
            points@ == wave_pass(start, near@.subrange(0, k as int), *wave),
        decreases near@.len() - k,
    {
        let i = near[k];
        assert(near@.subrange(0, k + 1).drop_last() =~= near@.subrange(0, k as int));
        if i < points.len() {
            let q = wave_kick_one(&points[i], wave);
            points.set(i, q);
        }
        k += 1;
    }
    assert(near@.subrange(0, k as int) =~= near@);
}

/// `c * amount / dist`, rounded toward zero.
fn along_exec(c: i64, amount: i64, dist: i64) -> (r: i128)
    requires
        abs(c as int) <= 2 * COORD_LIMIT,
        abs(amount as int) <= 0x1000_0000_0000_0000,
        dist >= 1,
    ensures
        r == along(c as int, amount as int, dist as int),
        abs(r as int) <= 2 * COORD_LIMIT * 0x1000_0000_0000_0000,
{
    proof {
        crate::fixed::lemma_mul_abs_bound(
            c as int,
            amount as int,
            2 * COORD_LIMIT as int,
            0x1000_0000_0000_0000,
        );
    }
    mul_div(c as i128, amount as i128, dist as i128)
}

/// `p` with `(ddx, ddy)` added to its displacement.
fn kick(p: &Point, ddx: i128, ddy: i128) -> (r: Point)
    requires
        p.bounded(),
        abs(ddx as int) <= 4 * COORD_LIMIT * 0x1000_0000_0000_0000,
        abs(ddy as int) <= 4 * COORD_LIMIT * 0x1000_0000_0000_0000,
    ensures
        r == kicked(*p, ddx as int, ddy as int),
        r.bounded(),
        same_but_displacement(r, *p),
{
    let dx = clamp_to(p.dx as i128 + ddx, MAX_DISPLACEMENT);
    let dy = clamp_to(p.dy as i128 + ddy, MAX_DISPLACEMENT);
    Point { dx, dy, ..*p }
}

/// Distance from a squared distance of at least `MIN_DIST_SQ`.
fn dist_of(dsq: u64) -> (r: i64)
    requires
        MIN_DIST_SQ <= dsq <= 8 * COORD_LIMIT * COORD_LIMIT,
    ensures
        r == isqrt_of(dsq as int),
        1000 <= r <= 0x1_0000_0000,
        r * r <= dsq,
{
    let d = isqrt(dsq);
    proof {
        assert(d >= 1000) by (nonlinear_arith)
            requires
                dsq >= 1_000_000,
                (dsq as int) < (d + 1) * (d + 1),
                d >= 0,
        ;
    }
    d as i64
}

fn mouse_kick_one(p: &Point, m: &MouseState, boost: i64) -> (r: Point)
    requires
        p.bounded(),
        m.wf(),
        1000 <= boost <= BOOST_LIMIT,
    ensures
        r == mouse_kick(*p, *m, boost as int),
        r.bounded(),
        same_but_displacement(r, *p),
{
    let dsq = dist_sq(p.x, p.y, m.x, m.y);
    let rad = m.radius;
    proof {
        assert(rad * rad <= COORD_LIMIT * COORD_LIMIT) by (nonlinear_arith)
            requires
                0 <= rad <= COORD_LIMIT,
        ;
    }
    let rsq = (rad * rad) as u64;
    if dsq >= rsq || dsq < MIN_DIST_SQ as u64 {
        return *p;
    }
    let dist = dist_of(dsq);
    let dx = p.x - m.x;
    let dy = p.y - m.y;
    proof {
        assert(dist < rad) by (nonlinear_arith)
            requires
                dist * dist <= dsq,
                dsq < rad * rad,
                dist >= 0,
                rad >= 0,
        ;
        assert(0 <= dist * 1000 / (rad as int) < 1000) by (nonlinear_arith)
            requires
                0 <= dist < rad,
        ;
    }
    let t = 1000 - dist * 1000 / rad;
    proof {
        assert(0 <= t * t <= 1_000_000) by (nonlinear_arith)
            requires
                0 < t <= 1000,
        ;
        assert(0 <= t * t * (3000 - 2 * t) <= 3_000_000_000) by (nonlinear_arith)
            requires
                0 < t <= 1000,
                0 <= t * t <= 1_000_000,
        ;
    }
    let falloff = t * t * (3000 - 2 * t) / 1_000_000;
    proof {
        assert(falloff <= 3000);
        assert(0 <= m.strength * falloff <= MAX_MOUSE_STRENGTH * 3000) by (nonlinear_arith)
            requires
                0 <= m.strength <= MAX_MOUSE_STRENGTH,
                0 <= falloff <= 3000,
        ;
        let a = m.strength * falloff / 1000;
        assert(0 <= a <= MAX_MOUSE_STRENGTH * 3) by (nonlinear_arith)
            requires
                0 <= m.strength * falloff <= MAX_MOUSE_STRENGTH * 3000,
                a == m.strength * falloff / 1000,
        ;
        assert(0 <= a * boost <= MAX_MOUSE_STRENGTH * 3 * BOOST_LIMIT) by (nonlinear_arith)
            requires
                0 <= a <= MAX_MOUSE_STRENGTH * 3,
                1000 <= boost <= BOOST_LIMIT,
        ;
    }
    let push = m.strength * falloff / 1000 * boost / 1000 * 8 / 100;
    match m.mode {
        MouseMode::Push => {
            let ax = along_exec(dx, push, dist);
            let ay = along_exec(dy, push, dist);
            kick(p, ax, ay)
        },
        MouseMode::Pull => {
            let ax = along_exec(dx, push / 2, dist);
            let ay = along_exec(dy, push / 2, dist);
            kick(p, -ax, -ay)
        },
        MouseMode::Swirl => {
            let tx = along_exec(-dy, push * 7 / 10, dist);
            let ty = along_exec(dx, push * 7 / 10, dist);
            let ox = along_exec(dx, push / 5, dist);
            let oy = along_exec(dy, push / 5, dist);
            kick(p, tx + ox, ty + oy)
        },
    }
}

fn gravity_kick_one(p: &Point, w: &GravityWell) -> (r: Point)
    requires
        p.bounded(),
        w.wf(),
    ensures
        r == gravity_kick(*p, *w),
        r.bounded(),
        same_but_displacement(r, *p),
{
    let dsq = dist_sq(w.x, w.y, p.x, p.y);
    if dsq > (GRAVITY_WELL_MAX_RANGE * GRAVITY_WELL_MAX_RANGE) as u64 {
        return *p;
    }
    let dist = if dsq < (GRAVITY_WELL_MIN_DIST * GRAVITY_WELL_MIN_DIST) as u64 {
        GRAVITY_WELL_MIN_DIST
    } else {
        dist_of(dsq)
    };
    let f = w.strength * GRAVITY_SCALE;
    let force = if f >= 0 { f / dist } else { -((-f) / dist) };
    proof {
        assert(abs(force as int) <= 50_000_000) by (nonlinear_arith)
            requires
                abs(f as int) <= 50_000_000,
                dist >= 1,
                force == div_trunc(f as int, dist as int),
        ;
    }
    let dx = w.x - p.x;
    let dy = w.y - p.y;
    let ax = along_exec(dx, force, dist);
    let ay = along_exec(dy, force, dist);
    kick(p, ax, ay)
}

fn wave_kick_one(p: &Point, w: &Shockwave) -> (r: Point)
    requires
        p.bounded(),
        w.wf(),
    ensures
        r == wave_kick(*p, *w),
        r.bounded(),
        same_but_displacement(r, *p),
{
    let dsq = dist_sq(p.x, p.y, w.x, w.y);
    let inner = if w.radius - SHOCKWAVE_WAVE_WIDTH > 0 {
        w.radius - SHOCKWAVE_WAVE_WIDTH
    } else {
        0
    };
    let outer = w.radius + SHOCKWAVE_WAVE_WIDTH;
    proof {
        assert(w.radius <= 300_000_000);
        assert(inner * inner <= 400_000_000 * 400_000_000) by (nonlinear_arith)
            requires
                0 <= inner <= 400_000_000,
        ;
        assert(outer * outer <= 400_000_000 * 400_000_000) by (nonlinear_arith)
            requires
                0 <= outer <= 400_000_000,
        ;
    }
    if dsq < (inner * inner) as u64 || dsq > (outer * outer) as u64 || dsq < MIN_DIST_SQ as u64 {
        return *p;
    }
    let dist = dist_of(dsq);
    let ring = if dist >= w.radius { dist - w.radius } else { w.radius - dist };
    if ring >= SHOCKWAVE_WAVE_WIDTH {
        return *p;
    }
    proof {
        assert(0 <= ring * 1000 / (SHOCKWAVE_WAVE_WIDTH as int) <= 1000) by (nonlinear_arith)
            requires
                0 <= ring < SHOCKWAVE_WAVE_WIDTH,
        ;
    }
    let falloff = 1000 - ring * 1000 / SHOCKWAVE_WAVE_WIDTH;
    proof {
        assert(0 <= w.strength * falloff <= 500_000_000) by (nonlinear_arith)
            requires
                0 <= w.strength <= 500_000,
                0 <= falloff <= 1000,
        ;
    }
    let push = w.strength * falloff * 15 / 100_000;
    let dx = p.x - w.x;
    let dy = p.y - w.y;
    let ax = along_exec(dx, push, dist);
    let ay = along_exec(dy, push, dist);
    kick(p, ax, ay)
}

} // verus!
