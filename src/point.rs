//! A single particle: drift, wrap, spring-back and static height.
use vstd::prelude::*;
use crate::fixed::{
    abs, clamp, clamp_to, div_trunc, is_isqrt, isqrt, isqrt_of, mul_div, COORD_LIMIT, PERMILLE,
};
use crate::rng::{xorshift, Rng, STATE_SPAN};

verus! {

/// Largest drift speed on each axis, in sub-pixel units per second.
pub const BASE_VELOCITY: i64 = 500;

/// Largest displacement a particle may carry on each axis.
pub const MAX_DISPLACEMENT: i64 = 900_000_000;

/// Smallest and largest simulation width or height, in sub-pixel units.
pub const MIN_DIMENSION: i64 = 1000;

pub const MAX_DIMENSION: i64 = 100_000_000;

/// Largest height intensity, in thousandths.
pub const MAX_HEIGHT_INTENSITY: i64 = 2000;

/// Largest frame time, in milliseconds, and largest speed, in thousandths.
pub const MAX_DELTA_TIME: i64 = 10_000;

pub const MAX_SPEED: i64 = 10_000;

/// Falloff of the height at the corners, in thousandths.
pub const HEIGHT_FALLOFF: i64 = 300;

/// Width and height accepted by the simulation.
pub open spec fn valid_dimension(v: int) -> bool {
    MIN_DIMENSION <= v <= MAX_DIMENSION
}

/// A particle.
#[derive(Clone, Copy)]
pub struct Point {
    /// Rendered position: rest position plus displacement after each step.
    pub x: i64,
    pub y: i64,
    /// Static height, in thousandths.
    pub z: i64,
    /// Rest position; drifts and wraps around the bounds.
    pub base_x: i64,
    pub base_y: i64,
    /// Drift velocity, in sub-pixel units per second; fixed at creation.
    pub vx: i64,
    pub vy: i64,
    /// Displacement accumulated from interactions.
    pub dx: i64,
    pub dy: i64,
}

/// Drift of one frame along an axis.
pub open spec fn drift(v: int, speed: int, dt: int) -> int {
    div_trunc(v * speed * dt, PERMILLE * 1000)
}

/// A rest coordinate `b` brought back into `[0, extent]`: one wrap in each
/// direction, then, for a frame that drifted further than the whole extent,
/// held at the edge.
pub open spec fn wrapped(b: int, extent: int) -> int {
    let b1 = if b < 0 {
        b + extent
    } else {
        b
    };
    let b2 = if b1 > extent {
        b1 - extent
    } else {
        b1
    };
    clamp(b2, 0, extent)
}

/// Displacement after one spring step: pulled back toward the rest position,
/// then damped, then kept within `MAX_DISPLACEMENT`.
pub open spec fn sprung(d: int, pos: int, base: int, spring: int, damping: int) -> int {
    let pulled = d + div_trunc((0 - (pos - base)) * spring, PERMILLE as int);
    clamp(
        div_trunc(pulled * damping, PERMILLE as int),
        -MAX_DISPLACEMENT as int,
        MAX_DISPLACEMENT as int,
    )
}

/// A coordinate scaled by `num / den`, kept within `COORD_LIMIT`.
pub open spec fn scaled(v: int, num: int, den: int) -> int {
    clamp(div_trunc(v * num, den), -COORD_LIMIT as int, COORD_LIMIT as int)
}

/// Static height from a noise sample (thousandths, in `[-1000, 1000]`) at
/// distance `dist` from the centre of a field whose corners are `max_dist`
/// away: the sample mapped to `[0, 1000]`, times a falloff that drops by
/// `HEIGHT_FALLOFF` thousandths from the centre to the corners, times the
/// intensity.
pub open spec fn height_of(sample: int, intensity: int, dist: int, max_dist: int) -> int {
    let norm = (sample + 1000) / 2;
    let t = dist * HEIGHT_FALLOFF / max_dist;
    let falloff = 1000 - (if t > HEIGHT_FALLOFF {
        HEIGHT_FALLOFF as int
    } else {
        t
    });
    norm * falloff / 1000 * intensity / 1000
}

/// The height of the particle at `(x, y)` in a `width` by `height` field.
pub open spec fn static_height(
    sample: int,
    x: int,
    y: int,
    width: int,
    height: int,
    intensity: int,
) -> int {
    let cx = width / 2;
    let cy = height / 2;
    let max_dist = isqrt_of(cx * cx + cy * cy);
    let dist = isqrt_of((x - cx) * (x - cx) + (y - cy) * (y - cy));
    height_of(sample, intensity, dist, max_dist)
}

/// The generator state `k` steps after `s`.
pub open spec fn state_after(s: u32, k: nat) -> u32
    decreases k,
{
    if k == 0 {
        s
    } else {
        xorshift(state_after(s, (k - 1) as nat))
    }
}

/// The particle `Point::new_random` draws from generator state `s`.
pub open spec fn random_point(s: u32, width: int, height: int) -> Point {
    let x = (state_after(s, 1) as int * width / (STATE_SPAN as int)) as i64;
    let y = (state_after(s, 2) as int * height / (STATE_SPAN as int)) as i64;
    let vx = (state_after(s, 3) as int * (2 * BASE_VELOCITY) / (STATE_SPAN as int)
        - BASE_VELOCITY) as i64;
    let vy = (state_after(s, 4) as int * (2 * BASE_VELOCITY) / (STATE_SPAN as int)
        - BASE_VELOCITY) as i64;
    Point { x, y, z: 0, base_x: x, base_y: y, vx, vy, dx: 0, dy: 0 }
}

/// A particle after one spring step.
pub open spec fn spring_step(p: Point, spring: int, damping: int) -> Point {
    let dx = sprung(p.dx as int, p.x as int, p.base_x as int, spring, damping);
    let dy = sprung(p.dy as int, p.y as int, p.base_y as int, spring, damping);
    Point { x: (p.base_x + dx) as i64, y: (p.base_y + dy) as i64, dx: dx as i64, dy: dy as i64, ..p }
}

/// A particle after one frame's drift and wrap.
pub open spec fn drifted(p: Point, dt: int, speed: int, width: int, height: int) -> Point {
    Point {
        base_x: wrapped(p.base_x + drift(p.vx as int, speed, dt), width) as i64,
        base_y: wrapped(p.base_y + drift(p.vy as int, speed, dt), height) as i64,
        ..p
    }
}

/// A rest coordinate that one frame's drift carried past an edge, by no more
/// than the extent, is wrapped once, across that edge, into `[0, extent)`.
pub proof fn lemma_wrap_returns(b: int, extent: int)
    requires
        valid_dimension(extent),
        -extent <= b < 2 * extent,
        b < 0 || b > extent,
    ensures
        0 <= wrapped(b, extent) < extent,
        wrapped(b, extent) == (if b < 0 {
            b + extent
        } else {
            b - extent
        }),
{
}

/// A rest coordinate that stayed within `[0, extent]` is left where it is.
pub proof fn lemma_wrap_keeps(b: int, extent: int)
    requires
        valid_dimension(extent),
        0 <= b <= extent,
    ensures
        wrapped(b, extent) == b,
{
}

impl Point {
    /// Bounds every particle keeps inside a `width` by `height` simulation.
    pub open spec fn wf(&self, width: int, height: int) -> bool {
        &&& self.bounded()
        &&& self.base_x <= width
        &&& self.base_y <= height
    }

    /// Bounds that hold whatever the simulation's size.
    pub open spec fn bounded(&self) -> bool {
        &&& 0 <= self.base_x <= MAX_DIMENSION
        &&& 0 <= self.base_y <= MAX_DIMENSION
        &&& abs(self.x as int) <= COORD_LIMIT
        &&& abs(self.y as int) <= COORD_LIMIT
        &&& abs(self.dx as int) <= MAX_DISPLACEMENT
        &&& abs(self.dy as int) <= MAX_DISPLACEMENT
        &&& abs(self.vx as int) <= BASE_VELOCITY
        &&& abs(self.vy as int) <= BASE_VELOCITY
        &&& 0 <= self.z <= MAX_HEIGHT_INTENSITY
    }

    /// A particle at rest at a random position in `[0, width) x [0, height)`,
    /// with a random drift in `[-BASE_VELOCITY, BASE_VELOCITY)` on each axis
    /// and height zero. Draws, in order, x, y, vx and vy.
    pub fn new_random(rng: &mut Rng, width: i64, height: i64) -> (r: Point)
        requires
            valid_dimension(width as int),
            valid_dimension(height as int),
        ensures
            r.wf(width as int, height as int),
            r == random_point(old(rng).state(), width as int, height as int),
            final(rng).state() == state_after(old(rng).state(), 4),
            final(rng).state() == xorshift(xorshift(xorshift(xorshift(old(rng).state())))),
            r.x == r.base_x && r.y == r.base_y,
            0 <= r.x < width && 0 <= r.y < height,
            -BASE_VELOCITY <= r.vx < BASE_VELOCITY && -BASE_VELOCITY <= r.vy < BASE_VELOCITY,
            r.dx == 0 && r.dy == 0 && r.z == 0,
            r.x == xorshift(old(rng).state()) as int * width / (STATE_SPAN as int),
            r.y == xorshift(xorshift(old(rng).state())) as int * height / (STATE_SPAN as int),
            r.vx == xorshift(xorshift(xorshift(old(rng).state()))) as int * (2 * BASE_VELOCITY)
                / (STATE_SPAN as int) - BASE_VELOCITY,
            r.vy == final(rng).state() as int * (2 * BASE_VELOCITY) / (STATE_SPAN as int)
                - BASE_VELOCITY,
    {
        proof {
            reveal_with_fuel(state_after, 5);
        }
        let x = rng.next_scaled(width as u32) as i64;
        let y = rng.next_scaled(height as u32) as i64;
        let vx = rng.next_scaled((2 * BASE_VELOCITY) as u32) as i64 - BASE_VELOCITY;
        let vy = rng.next_scaled((2 * BASE_VELOCITY) as u32) as i64 - BASE_VELOCITY;
        Point { x, y, z: 0, base_x: x, base_y: y, vx, vy, dx: 0, dy: 0 }
    }

    /// Static height of the particle at `(x, y)` for a noise `sample` in
    /// thousandths; see `height_of`.
    pub fn calculate_height(
        sample: i64,
        x: i64,
        y: i64,
        width: i64,
        height: i64,
        intensity: i64,
    ) -> (r: i64)
        requires
            -1000 <= sample <= 1000,
            abs(x as int) <= COORD_LIMIT,
            abs(y as int) <= COORD_LIMIT,
            valid_dimension(width as int),
            valid_dimension(height as int),
            0 <= intensity <= MAX_HEIGHT_INTENSITY,
        ensures
            r == static_height(
                sample as int,
                x as int,
                y as int,
                width as int,
                height as int,
                intensity as int,
            ),
            0 <= r <= MAX_HEIGHT_INTENSITY,
    {
        let cx = width / 2;
        let cy = height / 2;
        let max_dist = isqrt(crate::fixed::dist_sq(cx, cy, 0, 0)) as i64;
        let dist = isqrt(crate::fixed::dist_sq(x, y, cx, cy)) as i64;
        proof {
            assert(max_dist >= 1) by (nonlinear_arith)
                requires
                    cx >= 500,
                    is_isqrt(cx * cx + cy * cy, max_dist as int),
            ;
            assert((cx - 0) * (cx - 0) + (cy - 0) * (cy - 0) == cx * cx + cy * cy);
            let di = dist as int;
            let mi = max_dist as int;
            assert(di * 300 / mi >= 0) by (nonlinear_arith)
                requires
                    di >= 0,
                    mi >= 1,
            ;
        }
        let norm = (sample + 1000) / 2;
        let t0 = dist * HEIGHT_FALLOFF / max_dist;
        let t = if t0 > HEIGHT_FALLOFF { HEIGHT_FALLOFF } else { t0 };
        let falloff = 1000 - t;
        proof {
            assert(0 <= norm * falloff <= 1_000_000) by (nonlinear_arith)
                requires
                    0 <= norm <= 1000,
                    700 <= falloff <= 1000,
            ;
            let a = norm * falloff / 1000;
            assert(0 <= a <= 1000) by (nonlinear_arith)
                requires
                    0 <= norm * falloff <= 1_000_000,
                    a == norm * falloff / 1000,
            ;
            assert(0 <= a * intensity / 1000 <= MAX_HEIGHT_INTENSITY) by (nonlinear_arith)
                requires
                    0 <= a <= 1000,
                    0 <= intensity <= MAX_HEIGHT_INTENSITY,
            ;
        }
        norm * falloff / 1000 * intensity / 1000
    }

    /// Recomputes the height at the rest position from a noise `sample`.
    pub fn regenerate_height(&mut self, sample: i64, width: i64, height: i64, intensity: i64)
        requires
            old(self).wf(width as int, height as int),
            -1000 <= sample <= 1000,
            valid_dimension(width as int),
            valid_dimension(height as int),
            0 <= intensity <= MAX_HEIGHT_INTENSITY,
        ensures
            final(self).wf(width as int, height as int),
            *final(self) == (Point {
                z: static_height(
                    sample as int,
                    old(self).base_x as int,
                    old(self).base_y as int,
                    width as int,
                    height as int,
                    intensity as int,
                ) as i64,
                ..*old(self)
            }),
    {
        self.z = Point::calculate_height(sample, self.base_x, self.base_y, width, height, intensity);
    }

    /// Drifts the rest position by one frame and wraps it into the bounds;
    /// `delta_time` in milliseconds, `speed` in thousandths.
    pub fn update_position(&mut self, delta_time: i64, speed: i64, width: i64, height: i64)
        requires
            old(self).wf(width as int, height as int),
            valid_dimension(width as int),
            valid_dimension(height as int),
            0 <= delta_time <= MAX_DELTA_TIME,
            0 <= speed <= MAX_SPEED,
        ensures
            final(self).wf(width as int, height as int),
            *final(self) == drifted(*old(self), delta_time as int, speed as int, width as int, height as int),
            *final(self) == (Point {
                base_x: wrapped(
                    old(self).base_x + drift(old(self).vx as int, speed as int, delta_time as int),
                    width as int,
                ) as i64,
                base_y: wrapped(
                    old(self).base_y + drift(old(self).vy as int, speed as int, delta_time as int),
                    height as int,
                ) as i64,
                ..*old(self)
            }),
    {
        let mx = drift_step(self.vx, speed, delta_time);
        let my = drift_step(self.vy, speed, delta_time);
        self.base_x = wrap(self.base_x + mx, width);
        self.base_y = wrap(self.base_y + my, height);
    }

    /// One damped spring step toward the rest position; afterwards the
    /// rendered position is the rest position plus the displacement.
    /// `spring_back` and `damping` in thousandths.
    pub fn apply_spring(&mut self, spring_back: i64, damping: i64)
        requires
            old(self).bounded(),
            0 <= spring_back <= PERMILLE,
            0 <= damping <= PERMILLE,
        ensures
            *final(self) == spring_step(*old(self), spring_back as int, damping as int),
            final(self).dx == sprung(
                old(self).dx as int,
                old(self).x as int,
                old(self).base_x as int,
                spring_back as int,
                damping as int,
            ),
            final(self).dy == sprung(
                old(self).dy as int,
                old(self).y as int,
                old(self).base_y as int,
                spring_back as int,
                damping as int,
            ),
            final(self).x == final(self).base_x + final(self).dx,
            final(self).y == final(self).base_y + final(self).dy,
            final(self).base_x == old(self).base_x,
            final(self).base_y == old(self).base_y,
            final(self).vx == old(self).vx && final(self).vy == old(self).vy,
            final(self).z == old(self).z,
            final(self).bounded(),
    {
        self.dx = spring_axis(self.dx, self.x, self.base_x, spring_back, damping);
        self.dy = spring_axis(self.dy, self.y, self.base_y, spring_back, damping);
        self.x = self.base_x + self.dx;
        self.y = self.base_y + self.dy;
    }

    /// Rescales positions and rest positions by `new_width / old_width` and
    /// `new_height / old_height`; velocities and displacements are kept.
    pub fn scale(&mut self, new_width: i64, old_width: i64, new_height: i64, old_height: i64)
        requires
            old(self).wf(old_width as int, old_height as int),
            valid_dimension(new_width as int),
            valid_dimension(old_width as int),
            valid_dimension(new_height as int),
            valid_dimension(old_height as int),
        ensures
            final(self).wf(new_width as int, new_height as int),
            *final(self) == (Point {
                x: scaled(old(self).x as int, new_width as int, old_width as int) as i64,
                y: scaled(old(self).y as int, new_height as int, old_height as int) as i64,
                base_x: scaled(old(self).base_x as int, new_width as int, old_width as int) as i64,
                base_y: scaled(old(self).base_y as int, new_height as int, old_height as int)
                    as i64,
                ..*old(self)
            }),
    {
        self.x = scale_coord(self.x, new_width, old_width);
        self.y = scale_coord(self.y, new_height, old_height);
        let bx = scale_coord(self.base_x, new_width, old_width);
        let by = scale_coord(self.base_y, new_height, old_height);
        proof {
            lemma_scale_in_range(self.base_x as int, new_width as int, old_width as int);
            lemma_scale_in_range(self.base_y as int, new_height as int, old_height as int);
        }
        self.base_x = bx;
        self.base_y = by;
    }
}

proof fn lemma_scale_in_range(v: int, num: int, den: int)
    requires
        0 <= v <= den,
        MIN_DIMENSION <= den,
        0 <= num <= MAX_DIMENSION,
    ensures
        0 <= scaled(v, num, den) <= num,
{
    assert(0 <= v * num / den <= num) by (nonlinear_arith)
        requires
            0 <= v <= den,
            den >= 1,
            0 <= num,
    ;
}

fn drift_step(v: i64, speed: i64, dt: i64) -> (r: i64)
    requires
        abs(v as int) <= BASE_VELOCITY,
        0 <= speed <= MAX_SPEED,
        0 <= dt <= MAX_DELTA_TIME,
    ensures
        r == drift(v as int, speed as int, dt as int),
        abs(r as int) <= 50_000,
{
    proof {
        assert(abs(v * speed) <= BASE_VELOCITY * MAX_SPEED) by (nonlinear_arith)
            requires
                abs(v as int) <= BASE_VELOCITY,
                0 <= speed <= MAX_SPEED,
        ;
        assert(abs(v * speed * dt) <= BASE_VELOCITY * MAX_SPEED * MAX_DELTA_TIME)
            by (nonlinear_arith)
            requires
                abs(v * speed) <= BASE_VELOCITY * MAX_SPEED,
                0 <= dt <= MAX_DELTA_TIME,
        ;
        let m = abs(v * speed * dt);
        assert(m / 1_000_000 <= 50_000) by (nonlinear_arith)
            requires
                0 <= m <= BASE_VELOCITY * MAX_SPEED * MAX_DELTA_TIME,
        ;
    }
    let p = v * speed * dt;
    if p >= 0 {
        p / 1_000_000
    } else {
        -((-p) / 1_000_000)
    }
}

fn wrap(b: i64, extent: i64) -> (r: i64)
    requires
        -50_000 <= b <= extent + 50_000,
        valid_dimension(extent as int),
    ensures
        r == wrapped(b as int, extent as int),
        0 <= r <= extent,
{
    let mut v = b;
    if v < 0 {
        v = v + extent;
    }
    if v > extent {
        v = v - extent;
    }
    if v < 0 {
        0
    } else if v > extent {
        extent
    } else {
        v
    }
}

fn spring_axis(d: i64, pos: i64, base: i64, spring: i64, damping: i64) -> (r: i64)
    requires
        abs(d as int) <= MAX_DISPLACEMENT,
        abs(pos as int) <= COORD_LIMIT,
        abs(base as int) <= COORD_LIMIT,
        0 <= spring <= PERMILLE,
        0 <= damping <= PERMILLE,
    ensures
        r == sprung(d as int, pos as int, base as int, spring as int, damping as int),
        abs(r as int) <= MAX_DISPLACEMENT,
{
    let pull = mul_div((0 - (pos - base)) as i128, spring as i128, PERMILLE as i128);
    proof {
        assert(abs(((0 - (pos - base)) as i128) * (spring as i128)) <= 2 * COORD_LIMIT * PERMILLE)
            by (nonlinear_arith)
            requires
                abs(pos - base) <= 2 * COORD_LIMIT,
                0 <= spring <= PERMILLE,
        ;
    }
    let pulled = d as i128 + pull;
    let damped = mul_div(pulled, damping as i128, PERMILLE as i128);
    clamp_to(damped, MAX_DISPLACEMENT)
}

fn scale_coord(v: i64, num: i64, den: i64) -> (r: i64)
    requires
        abs(v as int) <= COORD_LIMIT,
        valid_dimension(num as int),
        valid_dimension(den as int),
    ensures
        r == scaled(v as int, num as int, den as int),
{
    let s = mul_div(v as i128, num as i128, den as i128);
    clamp_to(s, COORD_LIMIT)
}

} // verus!
