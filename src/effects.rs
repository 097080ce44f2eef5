//! Interactive effects: shockwaves, the gravity well and the pointer.
use vstd::prelude::*;
use crate::fixed::{abs, clamp, div_trunc, is_isqrt, isqrt, isqrt_of, COORD_LIMIT};

verus! {

/// Most shockwaves alive at once.
pub const MAX_SHOCKWAVES: usize = 10;

/// Strongest shockwave, in thousandths.
pub const MAX_SHOCKWAVE_STRENGTH: i64 = 500_000;

/// A shockwave is active while its strength (thousandths) is above this.
pub const SHOCKWAVE_THRESHOLD: i64 = 500;

/// Strength kept per tick, in thousandths.
pub const SHOCKWAVE_DECAY: i64 = 960;

/// Ring growth per tick, in sub-pixel units.
pub const SHOCKWAVE_SPEED: i64 = 12_000;

/// Half-width of a shockwave's ring, in sub-pixel units.
pub const SHOCKWAVE_WAVE_WIDTH: i64 = 60_000;

/// Bound on `20 * radius + SHOCKWAVE_SPEED * strength` over a wave's life:
/// each tick adds `20 * SHOCKWAVE_SPEED` to the radius term and takes at least
/// that much off the strength term while the wave is active.
pub const SHOCKWAVE_BUDGET: i64 = 6_000_000_000;

/// Gravity well strength when attracting.
pub const GRAVITY_WELL_ATTRACT_STRENGTH: i64 = 3;

/// Gravity well strength when repelling.
pub const GRAVITY_WELL_REPEL_STRENGTH: i64 = -5;

/// Strongest pointer, in thousandths.
pub const MAX_MOUSE_STRENGTH: i64 = 1_000_000;

/// Pointer radius and strength before the host reports any.
pub const DEFAULT_MOUSE_RADIUS: i64 = 150_000;

pub const DEFAULT_MOUSE_STRENGTH: i64 = 80_000;

/// An expanding ring that pushes particles outward.
#[derive(Clone, Copy)]
pub struct Shockwave {
    pub x: i64,
    pub y: i64,
    /// Ring radius, in sub-pixel units.
    pub radius: i64,
    /// Strength, in thousandths.
    pub strength: i64,
    /// Ring growth per tick.
    pub speed: i64,
}

/// A fresh shockwave at `(x, y)`.
pub open spec fn spawned(x: i64, y: i64, strength: i64) -> Shockwave {
    Shockwave {
        x,
        y,
        radius: 0,
        strength: clamp(strength as int, 0, MAX_SHOCKWAVE_STRENGTH as int) as i64,
        speed: SHOCKWAVE_SPEED,
    }
}

/// A shockwave one tick later: grown by its speed, strength decayed.
pub open spec fn ticked(w: Shockwave) -> Shockwave {
    Shockwave {
        radius: (w.radius + w.speed) as i64,
        strength: (w.strength * SHOCKWAVE_DECAY / 1000) as i64,
        ..w
    }
}

pub open spec fn active(w: Shockwave) -> bool {
    w.strength > SHOCKWAVE_THRESHOLD
}

/// A shockwave after `k` ticks.
pub open spec fn ticked_n(w: Shockwave, k: nat) -> Shockwave
    decreases k,
{
    if k == 0 {
        w
    } else {
        ticked(ticked_n(w, (k - 1) as nat))
    }
}

/// Ticks after which no shockwave of a legal strength is still active:
/// seventeen ticks at least halve the strength, and ten halvings take the
/// strongest wave below the threshold.
pub const SHOCKWAVE_LIFETIME: u64 = 170;

proof fn lemma_strength_falls(w: Shockwave, k: nat)
    requires
        0 <= w.strength <= MAX_SHOCKWAVE_STRENGTH,
    ensures
        0 <= ticked_n(w, k).strength <= w.strength,
        ticked_n(w, k).strength <= SHOCKWAVE_THRESHOLD || ticked_n(w, k).strength <= w.strength
            - 20 * k,
    decreases k,
{
    if k > 0 {
        lemma_strength_falls(w, (k - 1) as nat);
        let s = ticked_n(w, (k - 1) as nat).strength as int;
        assert(0 <= s * 960 / 1000 <= s) by (nonlinear_arith)
            requires
                s >= 0,
        ;
        if s > SHOCKWAVE_THRESHOLD {
            assert(s * 960 / 1000 <= s - 20) by (nonlinear_arith)
                requires
                    s > 500,
            ;
        }
    }
}

/// `b` to the power `e`.
pub open spec fn power(b: int, e: nat) -> int
    decreases e,
{
    if e == 0 {
        1
    } else {
        b * power(b, (e - 1) as nat)
    }
}

proof fn lemma_ticked_n_add(w: Shockwave, a: nat, b: nat)
    ensures
        ticked_n(w, a + b) == ticked_n(ticked_n(w, a), b),
    decreases b,
{
    if b > 0 {
        lemma_ticked_n_add(w, a, (b - 1) as nat);
        assert((a + b - 1) as nat == a + (b - 1) as nat);
    }
}

/// After `j` ticks the strength is at most `0.96^j` of what it was.
proof fn lemma_decay_bound(w: Shockwave, j: nat)
    requires
        0 <= w.strength <= MAX_SHOCKWAVE_STRENGTH,
    ensures
        ticked_n(w, j).strength * power(100, j) <= power(96, j) * w.strength,
        power(100, j) > 0,
    decreases j,
{
    if j > 0 {
        lemma_decay_bound(w, (j - 1) as nat);
        lemma_strength_falls(w, (j - 1) as nat);
        let s = ticked_n(w, (j - 1) as nat).strength as int;
        let t = ticked_n(w, j).strength as int;
        let p = power(100, (j - 1) as nat);
        let q = power(96, (j - 1) as nat);
        let s0 = w.strength as int;
        assert(0 <= s * 960 / 1000 <= s) by (nonlinear_arith)
            requires
                s >= 0,
        ;
        assert(t == s * 960 / 1000);
        assert(t * 100 <= 96 * s) by (nonlinear_arith)
            requires
                s >= 0,
                t == s * 960 / 1000,
        ;
        assert(t * (100 * p) <= (96 * q) * s0) by (nonlinear_arith)
            requires
                t * 100 <= 96 * s,
                s * p <= q * s0,
                p > 0,
                t >= 0,
        ;
    }
}

/// Seventeen ticks at least halve a shockwave's strength.
proof fn lemma_halves(w: Shockwave)
    requires
        0 <= w.strength <= MAX_SHOCKWAVE_STRENGTH,
    ensures
        2 * ticked_n(w, 17).strength <= w.strength,
{
    lemma_decay_bound(w, 17);
    reveal_with_fuel(power, 18);
    let p = power(100, 17);
    let q = power(96, 17);
    assert(p == 100_000_000_000_000_000_000_000_000_000_000_00);
    assert(2 * q <= p);
    let t = ticked_n(w, 17).strength as int;
    let s0 = w.strength as int;
    assert(2 * t <= s0) by (nonlinear_arith)
        requires
            t * p <= q * s0,
            2 * q <= p,
            p > 0,
            s0 >= 0,
    ;
}

/// After `17 m` ticks the strength is at most `2^-m` of what it was.
proof fn lemma_blocks(w: Shockwave, m: nat)
    requires
        0 <= w.strength <= MAX_SHOCKWAVE_STRENGTH,
    ensures
        power(2, m) * ticked_n(w, 17 * m).strength <= w.strength,
        0 <= ticked_n(w, 17 * m).strength <= w.strength,
    decreases m,
{
    if m > 0 {
        lemma_blocks(w, (m - 1) as nat);
        let v = ticked_n(w, (17 * (m - 1)) as nat);
        lemma_halves(v);
        lemma_ticked_n_add(w, (17 * (m - 1)) as nat, 17);
        assert((17 * (m - 1)) as nat + 17 == 17 * m);
        lemma_strength_falls(v, 17);
        let a = power(2, (m - 1) as nat);
        let sv = v.strength as int;
        let t = ticked_n(w, 17 * m).strength as int;
        assert(power(2, m) == 2 * a);
        lemma_power_two_positive((m - 1) as nat);
        assert(2 * a * t <= w.strength) by (nonlinear_arith)
            requires
                2 * t <= sv,
                a * sv <= w.strength,
                a >= 0,
                t >= 0,
        ;
    }
}

proof fn lemma_power_two_positive(m: nat)
    ensures
        power(2, m) >= 1,
    decreases m,
{
    if m > 0 {
        lemma_power_two_positive((m - 1) as nat);
    }
}

/// A shockwave's strength never grows from one tick to the next, drops
/// strictly while it is active, and whatever legal strength it started with,
/// it is inactive after `SHOCKWAVE_LIFETIME` ticks, so `update` prunes it.
pub proof fn lemma_wave_expires(w: Shockwave, k: nat)
    requires
        0 <= w.strength <= MAX_SHOCKWAVE_STRENGTH,
    ensures
        ticked_n(w, k + 1).strength <= ticked_n(w, k).strength,
        active(ticked_n(w, k)) ==> ticked_n(w, k + 1).strength < ticked_n(w, k).strength,
        k >= SHOCKWAVE_LIFETIME ==> !active(ticked_n(w, k)),
{
    if k >= SHOCKWAVE_LIFETIME {
        lemma_blocks(w, 10);
        reveal_with_fuel(power, 11);
        assert(power(2, 10) == 1024);
        assert(17 * 10nat == 170nat);
        let v = ticked_n(w, 170);
        assert(1024 * v.strength <= MAX_SHOCKWAVE_STRENGTH);
        assert(v.strength <= SHOCKWAVE_THRESHOLD);
        lemma_ticked_n_add(w, 170, (k - 170) as nat);
        assert(170 + (k - 170) as nat == k);
        lemma_strength_falls(v, (k - 170) as nat);
    }
    lemma_strength_falls(w, k);
    lemma_strength_falls(w, k + 1);
    let s = ticked_n(w, k).strength as int;
    assert(ticked_n(w, k + 1) == ticked(ticked_n(w, k)));
    if s > SHOCKWAVE_THRESHOLD {
        assert(s * 960 / 1000 <= s - 20) by (nonlinear_arith)
            requires
                s > 500,
        ;
    }
    assert(0 <= s * 960 / 1000 <= s) by (nonlinear_arith)
        requires
            s >= 0,
    ;
}

impl Shockwave {
    pub open spec fn wf(&self) -> bool {
        &&& abs(self.x as int) <= COORD_LIMIT
        &&& abs(self.y as int) <= COORD_LIMIT
        &&& self.speed == SHOCKWAVE_SPEED
        &&& 0 <= self.strength <= MAX_SHOCKWAVE_STRENGTH
        &&& 0 <= self.radius
        &&& 20 * self.radius + SHOCKWAVE_SPEED * self.strength <= SHOCKWAVE_BUDGET
    }

    /// A shockwave at `(x, y)` with radius zero and `strength` clamped to
    /// `[0, MAX_SHOCKWAVE_STRENGTH]`.
    pub fn new(x: i64, y: i64, strength: i64) -> (r: Shockwave)
        requires
            abs(x as int) <= COORD_LIMIT,
            abs(y as int) <= COORD_LIMIT,
        ensures
            r == spawned(x, y, strength),
            r.wf(),
    {
        let s = if strength < 0 {
            0
        } else if strength > MAX_SHOCKWAVE_STRENGTH {
            MAX_SHOCKWAVE_STRENGTH
        } else {
            strength
        };
        Shockwave { x, y, radius: 0, strength: s, speed: SHOCKWAVE_SPEED }
    }

    /// Expands the ring by its speed and decays its strength.
    pub fn update(&mut self)
        requires
            old(self).wf(),
        ensures
            *final(self) == ticked(*old(self)),
            active(*old(self)) || old(self).radius == 0 ==> final(self).wf(),
            final(self).strength <= old(self).strength,
            active(*old(self)) ==> final(self).strength < old(self).strength,
    {
        proof {
            let s = self.strength as int;
            assert(s * 960 / 1000 <= s) by (nonlinear_arith)
                requires
                    s >= 0,
            ;
            assert(0 <= s * 960 / 1000) by (nonlinear_arith)
                requires
                    s >= 0,
            ;
            if s > SHOCKWAVE_THRESHOLD {
                assert(s * 960 / 1000 <= s - 20) by (nonlinear_arith)
                    requires
                        s > 500,
                ;
            }
        }
        self.radius = self.radius + self.speed;
        self.strength = self.strength * SHOCKWAVE_DECAY / 1000;
    }

    /// Whether the wave still acts on particles.
    pub fn is_active(&self) -> (r: bool)
        ensures
            r == active(*self),
    {
        self.strength > SHOCKWAVE_THRESHOLD
    }
}

/// What `ShockwaveManager::update` leaves of `ws`: every wave ticked, the
/// inactive ones dropped, order kept.
pub open spec fn surviving(ws: Seq<Shockwave>) -> Seq<Shockwave>
    decreases ws.len(),
{
    if ws.len() == 0 {
        ws
    } else {
        let rest = surviving(ws.drop_last());
        let w = ticked(ws.last());
        if active(w) {
            rest.push(w)
        } else {
            rest
        }
    }
}

/// Widest reach among `ws`: the largest `radius + wave_width`, or zero.
pub open spec fn max_reach(ws: Seq<Shockwave>, wave_width: int) -> int
    decreases ws.len(),
{
    if ws.len() == 0 {
        0
    } else {
        let rest = max_reach(ws.drop_last(), wave_width);
        let here = ws.last().radius + wave_width;
        if here > rest {
            here
        } else {
            rest
        }
    }
}

/// The live shockwaves, oldest first, at most `MAX_SHOCKWAVES` of them.
pub struct ShockwaveManager {
    waves: Vec<Shockwave>,
}

impl ShockwaveManager {
    /// The waves, oldest first.
    pub closed spec fn waves(&self) -> Seq<Shockwave> {
        self.waves@
    }

    pub open spec fn wf(&self) -> bool {
        &&& self.waves().len() <= MAX_SHOCKWAVES
        &&& forall|i: int|
            0 <= i < self.waves().len() ==> {
                let w = #[trigger] self.waves()[i];
                w.wf() && (active(w) || w.radius == 0)
            }
    }

    pub fn new() -> (r: ShockwaveManager)
        ensures
            r.wf(),
            r.waves() == Seq::<Shockwave>::empty(),
    {
        ShockwaveManager { waves: Vec::new() }
    }

    /// Adds a wave at `(x, y)`, first dropping the oldest when full.
    pub fn add(&mut self, x: i64, y: i64, strength: i64)
        requires
            old(self).wf(),
            abs(x as int) <= COORD_LIMIT,
            abs(y as int) <= COORD_LIMIT,
        ensures
            final(self).wf(),
            final(self).waves() == (if old(self).waves().len() >= MAX_SHOCKWAVES {
                old(self).waves().subrange(1, old(self).waves().len() as int)
            } else {
                old(self).waves()
            }).push(spawned(x, y, strength)),
    {
        if self.waves.len() >= MAX_SHOCKWAVES {
            self.waves.remove(0);
        }
        let w = Shockwave::new(x, y, strength);
        self.waves.push(w);
    }

    /// Ticks every wave and drops those that are no longer active.
    pub fn update(&mut self)
        requires
            old(self).wf(),
        ensures
            final(self).wf(),
            final(self).waves() == surviving(old(self).waves()),
            forall|i: int|
                0 <= i < final(self).waves().len() ==> active(#[trigger] final(self).waves()[i]),
    {
        let mut kept: Vec<Shockwave> = Vec::new();
        let n = self.waves.len();
        let mut i: usize = 0;
        while i < n
            invariant
                n == self.waves@.len(),
                i <= n,
                self.wf(),
                kept@ == surviving(self.waves@.subrange(0, i as int)),
                kept@.len() <= i,
                forall|j: int|
                    0 <= j < kept@.len() ==> (#[trigger] kept@[j]).wf() && active(kept@[j]),
            decreases n - i,
        {
            let mut w = self.waves[i];
            assert(self.waves@[i as int].wf());
            w.update();
            assert(self.waves@.subrange(0, i + 1).drop_last() =~= self.waves@.subrange(0, i as int));
            if w.is_active() {
                kept.push(w);
            }
            i += 1;
        }
        assert(self.waves@.subrange(0, n as int) =~= self.waves@);
        self.waves = kept;
    }

    /// The live waves, oldest first.
    pub fn iter(&self) -> (r: &Vec<Shockwave>)
        ensures
            r@ == self.waves(),
    {
        &self.waves
    }

    /// The widest reach among the waves: the largest `radius + wave_width`,
    /// or zero when there is none.
    pub fn max_radius(&self, wave_width: i64) -> (r: i64)
        requires
            self.wf(),
            0 <= wave_width <= COORD_LIMIT,
        ensures
            r == max_reach(self.waves(), wave_width as int),
    {
        let mut best: i64 = 0;
        let mut i: usize = 0;
        while i < self.waves.len()
            invariant
                self.wf(),
                0 <= wave_width <= COORD_LIMIT,
                i <= self.waves@.len(),
                best == max_reach(self.waves@.subrange(0, i as int), wave_width as int),
                0 <= best <= SHOCKWAVE_BUDGET + COORD_LIMIT,
            decreases self.waves@.len() - i,
        {
            assert(self.waves@[i as int].wf());
            let here = self.waves[i].radius + wave_width;
            assert(self.waves@.subrange(0, i + 1).drop_last() =~= self.waves@.subrange(0, i as int));
            if here > best {
                best = here;
            }
            i += 1;
        }
        assert(self.waves@.subrange(0, i as int) =~= self.waves@);
        best
    }
}

/// A point that attracts (positive strength) or repels (negative) particles.
#[derive(Clone, Copy)]
pub struct GravityWell {
    pub x: i64,
    pub y: i64,
    pub strength: i64,
}

impl GravityWell {
    pub open spec fn wf(&self) -> bool {
        &&& abs(self.x as int) <= COORD_LIMIT
        &&& abs(self.y as int) <= COORD_LIMIT
        &&& (self.strength == GRAVITY_WELL_ATTRACT_STRENGTH || self.strength
            == GRAVITY_WELL_REPEL_STRENGTH)
    }

    /// An attracting well at `(x, y)`.
    pub fn attract(x: i64, y: i64) -> (r: GravityWell)
        ensures
            r == (GravityWell { x, y, strength: GRAVITY_WELL_ATTRACT_STRENGTH }),
    {
        GravityWell { x, y, strength: GRAVITY_WELL_ATTRACT_STRENGTH }
    }

    /// A repelling well at `(x, y)`.
    pub fn repel(x: i64, y: i64) -> (r: GravityWell)
        ensures
            r == (GravityWell { x, y, strength: GRAVITY_WELL_REPEL_STRENGTH }),
    {
        GravityWell { x, y, strength: GRAVITY_WELL_REPEL_STRENGTH }
    }

    /// Moves the well, keeping its strength.
    pub fn set_position(&mut self, x: i64, y: i64)
        ensures
            *final(self) == (GravityWell { x, y, strength: old(self).strength }),
    {
        self.x = x;
        self.y = y;
    }
}

/// How the pointer acts on particles near it.
#[derive(Clone, Copy, PartialEq, Eq, Structural, Debug)]
pub enum MouseMode {
    Push,
    Pull,
    Swirl,
}

pub open spec fn mode_of(code: u32) -> MouseMode {
    if code == 1 {
        MouseMode::Pull
    } else if code == 2 {
        MouseMode::Swirl
    } else {
        MouseMode::Push
    }
}

impl MouseMode {
    /// `1` is Pull, `2` is Swirl, anything else Push.
    pub fn from_u32(value: u32) -> (r: MouseMode)
        ensures
            r == mode_of(value),
    {
        match value {
            1 => MouseMode::Pull,
            2 => MouseMode::Swirl,
            _ => MouseMode::Push,
        }
    }
}

/// Smoothed pointer velocity after a move of `delta` while in bounds.
pub open spec fn blended(delta: int, v: int) -> int {
    div_trunc(delta * 4 + v * 6, 10)
}

/// Pointer velocity after a report from outside the bounds.
pub open spec fn decayed(v: int) -> int {
    div_trunc(v * 9, 10)
}

/// Pointer `m` after a report of `(x, y)`.
pub open spec fn reported(
    m: MouseState,
    x: i64,
    y: i64,
    in_canvas: bool,
    radius: i64,
    strength: i64,
    mode: u32,
) -> MouseState {
    MouseState {
        x,
        y,
        prev_x: m.x,
        prev_y: m.y,
        vx: (if in_canvas {
            blended(x - m.x, m.vx as int)
        } else {
            decayed(m.vx as int)
        }) as i64,
        vy: (if in_canvas {
            blended(y - m.y, m.vy as int)
        } else {
            decayed(m.vy as int)
        }) as i64,
        in_canvas,
        radius,
        strength,
        mode: mode_of(mode),
    }
}

/// The pointer before the host reports any position.
pub open spec fn resting_mouse() -> MouseState {
    MouseState {
        x: 0,
        y: 0,
        prev_x: 0,
        prev_y: 0,
        vx: 0,
        vy: 0,
        in_canvas: false,
        radius: DEFAULT_MOUSE_RADIUS,
        strength: DEFAULT_MOUSE_STRENGTH,
        mode: MouseMode::Push,
    }
}

/// The pointer: position, smoothed velocity and how it acts.
pub struct MouseState {
    pub x: i64,
    pub y: i64,
    pub prev_x: i64,
    pub prev_y: i64,
    /// Smoothed velocity, in sub-pixel units per report.
    pub vx: i64,
    pub vy: i64,
    pub in_canvas: bool,
    /// Reach, in sub-pixel units.
    pub radius: i64,
    /// Strength, in thousandths.
    pub strength: i64,
    pub mode: MouseMode,
}

impl MouseState {
    pub open spec fn wf(&self) -> bool {
        &&& abs(self.x as int) <= COORD_LIMIT
        &&& abs(self.y as int) <= COORD_LIMIT
        &&& abs(self.prev_x as int) <= COORD_LIMIT
        &&& abs(self.prev_y as int) <= COORD_LIMIT
        &&& abs(self.vx as int) <= 2 * COORD_LIMIT
        &&& abs(self.vy as int) <= 2 * COORD_LIMIT
        &&& 0 <= self.radius <= COORD_LIMIT
        &&& 0 <= self.strength <= MAX_MOUSE_STRENGTH
    }

    /// A pointer at rest at the origin, outside the bounds, in Push mode.
    pub fn new() -> (r: MouseState)
        ensures
            r.wf(),
            r == resting_mouse(),
            r.x == 0 && r.y == 0 && r.prev_x == 0 && r.prev_y == 0,
            r.vx == 0 && r.vy == 0,
            !r.in_canvas,
            r.radius == DEFAULT_MOUSE_RADIUS,
            r.strength == DEFAULT_MOUSE_STRENGTH,
            r.mode == MouseMode::Push,
    {
        MouseState {
            x: 0,
            y: 0,
            prev_x: 0,
            prev_y: 0,
            vx: 0,
            vy: 0,
            in_canvas: false,
            radius: DEFAULT_MOUSE_RADIUS,
            strength: DEFAULT_MOUSE_STRENGTH,
            mode: MouseMode::Push,
        }
    }

    /// Records a pointer report. The velocity blends the new move in (four
    /// tenths) while in bounds, and decays by a tenth otherwise.
    pub fn update(
        &mut self,
        x: i64,
        y: i64,
        in_canvas: bool,
        radius: i64,
        strength: i64,
        mode: u32,
    )
        requires
            old(self).wf(),
            abs(x as int) <= COORD_LIMIT,
            abs(y as int) <= COORD_LIMIT,
            0 <= radius <= COORD_LIMIT,
            0 <= strength <= MAX_MOUSE_STRENGTH,
        ensures
            final(self).wf(),
            *final(self) == reported(*old(self), x, y, in_canvas, radius, strength, mode),
            final(self).prev_x == old(self).x,
            final(self).prev_y == old(self).y,
            final(self).x == x,
            final(self).y == y,
            final(self).in_canvas == in_canvas,
            final(self).radius == radius,
            final(self).strength == strength,
            final(self).mode == mode_of(mode),
            final(self).vx == (if in_canvas {
                blended(x - old(self).x, old(self).vx as int)
            } else {
                decayed(old(self).vx as int)
            }),
            final(self).vy == (if in_canvas {
                blended(y - old(self).y, old(self).vy as int)
            } else {
                decayed(old(self).vy as int)
            }),
    {
        self.prev_x = self.x;
        self.prev_y = self.y;
        self.x = x;
        self.y = y;
        self.in_canvas = in_canvas;
        self.radius = radius;
        self.strength = strength;
        if in_canvas {
            self.vx = smooth(x - self.prev_x, self.vx);
            self.vy = smooth(y - self.prev_y, self.vy);
        } else {
            self.vx = decay(self.vx);
            self.vy = decay(self.vy);
        }
        self.mode = MouseMode::from_u32(mode);
    }

    /// Magnitude of the smoothed velocity, rounded down.
    pub fn speed(&self) -> (r: u64)
        requires
            self.wf(),
        ensures
            is_isqrt(self.vx * self.vx + self.vy * self.vy, r as int),
            r == isqrt_of(self.vx * self.vx + self.vy * self.vy),
            r <= 0x1_0000_0000,
    {
        let ax = if self.vx >= 0 { self.vx as u64 } else { (-self.vx) as u64 };
        let ay = if self.vy >= 0 { self.vy as u64 } else { (-self.vy) as u64 };
        proof {
            assert(ax * ax <= 4_000_000_000_000_000_000u64) by (nonlinear_arith)
                requires
                    ax <= 2_000_000_000u64,
            ;
            assert(ay * ay <= 4_000_000_000_000_000_000u64) by (nonlinear_arith)
                requires
                    ay <= 2_000_000_000u64,
            ;
            assert(ax * ax == self.vx * self.vx) by (nonlinear_arith)
                requires
                    ax == abs(self.vx as int),
            ;
            assert(ay * ay == self.vy * self.vy) by (nonlinear_arith)
                requires
                    ay == abs(self.vy as int),
            ;
        }
        isqrt(ax * ax + ay * ay)
    }
}

fn smooth(delta: i64, v: i64) -> (r: i64)
    requires
        abs(delta as int) <= 2 * COORD_LIMIT,
        abs(v as int) <= 2 * COORD_LIMIT,
    ensures
        r == blended(delta as int, v as int),
        abs(r as int) <= 2 * COORD_LIMIT,
{
    let s = delta * 4 + v * 6;
    proof {
        let si = s as int;
        let q = abs(si) / 10;
        assert(q <= 2 * COORD_LIMIT) by (nonlinear_arith)
            requires
                abs(si) <= 20 * COORD_LIMIT,
                q == abs(si) / 10,
        ;
    }
    if s >= 0 {
        s / 10
    } else {
        -((-s) / 10)
    }
}

fn decay(v: i64) -> (r: i64)
    requires
        abs(v as int) <= 2 * COORD_LIMIT,
    ensures
        r == decayed(v as int),
        abs(r as int) <= 2 * COORD_LIMIT,
{
    let s = v * 9;
    proof {
        let si = s as int;
        let q = abs(si) / 10;
        assert(q <= 2 * COORD_LIMIT) by (nonlinear_arith)
            requires
                abs(si) <= 18 * COORD_LIMIT,
                q == abs(si) / 10,
        ;
    }
    if s >= 0 {
        s / 10
    } else {
        -((-s) / 10)
    }
}

} // verus!
