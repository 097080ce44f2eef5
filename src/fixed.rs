//! Fixed-point arithmetic shared by the whole simulation.
use vstd::prelude::*;

verus! {

/// Sub-pixel units per pixel: every length in the library is in these units.
pub const UNIT: i64 = 1000;

/// Denominator of every ratio written in thousandths.
pub const PERMILLE: i64 = 1000;

/// Largest magnitude of any position the simulation accepts or produces.
pub const COORD_LIMIT: i64 = 1_000_000_000;

/// Bound on the operands of `mul_div`.
pub const OPERAND_LIMIT: i128 = 0x1000_0000_0000_0000;

/// Integer division rounding toward zero, as Rust's `/` does.
pub open spec fn div_trunc(a: int, d: int) -> int {
    if a >= 0 {
        a / d
    } else {
        -((-a) / d)
    }
}

/// Magnitude of an integer.
pub open spec fn abs(a: int) -> int {
    if a >= 0 {
        a
    } else {
        -a
    }
}

/// `a` limited to the closed range `[lo, hi]`.
pub open spec fn clamp(a: int, lo: int, hi: int) -> int {
    if a < lo {
        lo
    } else if a > hi {
        hi
    } else {
        a
    }
}

/// `r` is the integer square root of `n`.
pub open spec fn is_isqrt(n: int, r: int) -> bool {
    0 <= r && r * r <= n && n < (r + 1) * (r + 1)
}

/// The integer square root of a non-negative `n`.
pub open spec fn isqrt_of(n: int) -> int {
    choose|r: int| #[trigger] is_isqrt(n, r)
}

pub proof fn lemma_isqrt_unique(n: int, a: int, b: int)
    requires
        is_isqrt(n, a),
        is_isqrt(n, b),
    ensures
        a == b,
{
    if a < b {
        assert((a + 1) * (a + 1) <= b * b) by (nonlinear_arith)
            requires
                0 <= a < b,
        ;
    }
    if b < a {
        assert((b + 1) * (b + 1) <= a * a) by (nonlinear_arith)
            requires
                0 <= b < a,
        ;
    }
}

pub proof fn lemma_isqrt_of(n: int, r: int)
    requires
        is_isqrt(n, r),
    ensures
        isqrt_of(n) == r,
{
    lemma_isqrt_unique(n, isqrt_of(n), r);
}

pub proof fn lemma_mul_abs_bound(a: int, b: int, la: int, lb: int)
    requires
        abs(a) <= la,
        abs(b) <= lb,
    ensures
        abs(a * b) <= la * lb,
{
    assert(abs(a * b) == abs(a) * abs(b)) by (nonlinear_arith);
    assert(abs(a) * abs(b) <= la * lb) by (nonlinear_arith)
        requires
            0 <= abs(a) <= la,
            0 <= abs(b) <= lb,
    ;
}

pub proof fn lemma_div_trunc_bound(a: int, d: int)
    requires
        d >= 1,
    ensures
        abs(div_trunc(a, d)) <= abs(a),
{
    let m = abs(a);
    assert(0 <= m / d <= m) by (nonlinear_arith)
        requires
            m >= 0,
            d >= 1,
    ;
}

/// `a * b / c`, rounding toward zero, computed without overflow.
pub fn mul_div(a: i128, b: i128, c: i128) -> (r: i128)
    requires
        abs(a as int) <= OPERAND_LIMIT,
        abs(b as int) <= OPERAND_LIMIT,
        1 <= c,
    ensures
        r == div_trunc(a * b, c as int),
        abs(r as int) <= abs(a * b),
{
    proof {
        lemma_mul_abs_bound(a as int, b as int, OPERAND_LIMIT as int, OPERAND_LIMIT as int);
        lemma_div_trunc_bound(a * b, c as int);
    }
    let p = a * b;
    if p >= 0 {
        p / c
    } else {
        let q = (-p) / c;
        -q
    }
}

/// Integer square root: the largest `r` with `r * r <= n`.
pub fn isqrt(n: u64) -> (r: u64)
    ensures
        is_isqrt(n as int, r as int),
        r == isqrt_of(n as int),
        r <= 0x1_0000_0000,
{
    let mut lo: u64 = 0;
    let mut hi: u64 = 0x1_0000_0000;
    proof {
        assert(hi * hi > 0xffff_ffff_ffff_ffffu64) by (nonlinear_arith)
            requires
                hi == 0x1_0000_0000u64,
        ;
    }
    while hi - lo > 1
        invariant
            lo < hi <= 0x1_0000_0000,
            lo * lo <= n,
            (n as int) < hi * hi,
        decreases hi - lo,
    {
        let mid = lo + (hi - lo) / 2;
        proof {
            assert(mid * mid <= 0x1_0000_0000u64 * 0x1_0000_0000u64) by (nonlinear_arith)
                requires
                    mid <= 0x1_0000_0000u64,
            ;
        }
        let sq: u128 = (mid as u128) * (mid as u128);
        if sq <= n as u128 {
            lo = mid;
        } else {
            hi = mid;
        }
    }
    assert(hi == lo + 1);
    proof {
        lemma_isqrt_of(n as int, lo as int);
    }
    lo
}

/// Floor division by a positive divisor.
pub fn floor_div(a: i64, d: i64) -> (r: i64)
    requires
        d >= 1,
        a > i64::MIN,
    ensures
        r == (a as int) / (d as int),
        a >= 0 ==> 0 <= r <= a,
        a < 0 ==> a <= r < 0,
{
    if a >= 0 {
        proof {
            let ai = a as int;
            let di = d as int;
            assert(0 <= ai / di <= ai) by (nonlinear_arith)
                requires
                    ai >= 0,
                    di >= 1,
            ;
        }
        a / d
    } else {
        let q = (-a - 1) / d;
        proof {
            let m: int = -(a as int) - 1;
            let di: int = d as int;
            let qi: int = q as int;
            assert(-qi - 1 == (a as int) / di) by (nonlinear_arith)
                requires
                    m == -(a as int) - 1,
                    m >= 0,
                    di >= 1,
                    qi == m / di,
            ;
            assert(0 <= qi <= m) by (nonlinear_arith)
                requires
                    m >= 0,
                    di >= 1,
                    qi == m / di,
            ;
        }
        -q - 1
    }
}

} // verus!

verus! {

/// Squared distance between `(ax, ay)` and `(bx, by)`.
pub open spec fn sq_dist(ax: int, ay: int, bx: int, by: int) -> int {
    (ax - bx) * (ax - bx) + (ay - by) * (ay - by)
}

/// The squared distance between two positions within `COORD_LIMIT`.
pub fn dist_sq(ax: i64, ay: i64, bx: i64, by: i64) -> (r: u64)
    requires
        abs(ax as int) <= COORD_LIMIT,
        abs(ay as int) <= COORD_LIMIT,
        abs(bx as int) <= COORD_LIMIT,
        abs(by as int) <= COORD_LIMIT,
    ensures
        r == sq_dist(ax as int, ay as int, bx as int, by as int),
        r <= 8 * COORD_LIMIT * COORD_LIMIT,
{
    let dx = ax - bx;
    let dy = ay - by;
    let ux = if dx >= 0 { dx as u64 } else { (-dx) as u64 };
    let uy = if dy >= 0 { dy as u64 } else { (-dy) as u64 };
    proof {
        assert(ux * ux <= 4 * COORD_LIMIT * COORD_LIMIT) by (nonlinear_arith)
            requires
                ux <= 2 * COORD_LIMIT,
        ;
        assert(uy * uy <= 4 * COORD_LIMIT * COORD_LIMIT) by (nonlinear_arith)
            requires
                uy <= 2 * COORD_LIMIT,
        ;
        assert(ux * ux == dx * dx) by (nonlinear_arith)
            requires
                ux == abs(dx as int),
        ;
        assert(uy * uy == dy * dy) by (nonlinear_arith)
            requires
                uy == abs(dy as int),
        ;
    }
    ux * ux + uy * uy
}

/// `a` limited to `[-limit, limit]`, narrowed to `i64`.
pub fn clamp_to(a: i128, limit: i64) -> (r: i64)
    requires
        limit >= 0,
    ensures
        r == clamp(a as int, -limit as int, limit as int),
{
    if a < -(limit as i128) {
        -limit
    } else if a > limit as i128 {
        limit
    } else {
        a as i64
    }
}

} // verus!
