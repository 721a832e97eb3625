use vstd::prelude::*;

verus! {

/// Full-scale amplitude: a sample value of `ONE` stands for 1.0, `-ONE` for -1.0.
pub const ONE: i64 = 32767;

/// Angles are measured in turns, with `TURN` steps to one full turn.
pub const TURN: u64 = 65536;

/// Half a turn, in angle steps.
pub const HALF_TURN: u64 = 32768;

/// Clamps `x` into `[lo, hi]`.
pub open spec fn clamp(x: int, lo: int, hi: int) -> int {
    if x < lo {
        lo
    } else if x > hi {
        hi
    } else {
        x
    }
}

/// Division rounding toward zero, as integer division does on machine integers.
pub open spec fn tdiv(x: int, y: int) -> int {
    if x >= 0 {
        if y > 0 { x / y } else { -(x / (-y)) }
    } else {
        if y > 0 { -((-x) / y) } else { (-x) / (-y) }
    }
}

/// Sine of the first half turn, `q` in `[0, HALF_TURN]`, by the rational
/// approximation `16 b / (5 H^2 - 4 b)` with `b = q (H - q)`.
pub open spec fn half_sine(q: int) -> int {
    let h = HALF_TURN as int;
    let b = q * (h - q);
    (ONE as int) * 16 * b / (5 * h * h - 4 * b)
}

/// Fixed-point sine of an angle `q` in `[0, TURN)` steps: odd about the half turn.
pub open spec fn sine_of_angle(q: int) -> int {
    if q <= HALF_TURN as int {
        half_sine(q)
    } else {
        -half_sine(q - HALF_TURN as int)
    }
}

/// The angle reached after `tick` samples at `freq_mhz` millihertz and
/// `rate` samples per second, in `[0, TURN)` steps.
pub open spec fn angle_at(tick: int, freq_mhz: int, rate: int) -> int {
    let p = 1000 * rate;
    ((tick * freq_mhz) % p) * (TURN as int) / p
}

proof fn lemma_half_sine_bounds(q: int)
    requires
        0 <= q <= HALF_TURN as int,
    ensures
        0 <= half_sine(q) <= ONE as int,
{
    let h = HALF_TURN as int;
    let b = q * (h - q);
    assert(0 <= b) by (nonlinear_arith)
        requires 0 <= q <= h, b == q * (h - q);
    assert(4 * b <= h * h) by (nonlinear_arith)
        requires b == q * (h - q);
    let d = 5 * h * h - 4 * b;
    assert(d >= h * h);
    assert(h * h > 0) by (nonlinear_arith)
        requires h == 32768;
    let n = (ONE as int) * 16 * b;
    assert(0 <= n) by (nonlinear_arith)
        requires n == (ONE as int) * 16 * b, 0 <= b;
    assert(n <= (ONE as int) * d) by (nonlinear_arith)
        requires n == (ONE as int) * 16 * b, 20 * b <= 5 * h * h, d == 5 * h * h - 4 * b;
    assert(n / d <= ONE as int) by (nonlinear_arith)
        requires n <= (ONE as int) * d, d > 0;
    assert(0 <= n / d) by (nonlinear_arith)
        requires 0 <= n, d > 0;
}

pub proof fn lemma_sine_bounds(q: int)
    requires
        0 <= q < TURN as int,
    ensures
        -(ONE as int) <= sine_of_angle(q) <= ONE as int,
{
    if q <= HALF_TURN as int {
        lemma_half_sine_bounds(q);
    } else {
        lemma_half_sine_bounds(q - HALF_TURN as int);
    }
}

/// Bounds a product by the bounds of its factors.
pub proof fn lemma_mul_within(a: int, b: int, ma: int, mb: int)
    requires
        -ma <= a <= ma,
        -mb <= b <= mb,
    ensures
        -(ma * mb) <= a * b <= ma * mb,
{
    assert(-(ma * mb) <= a * b <= ma * mb) by (nonlinear_arith)
        requires -ma <= a <= ma, -mb <= b <= mb;
}

/// A quotient by a positive divisor is no larger than the dividend.
pub proof fn lemma_div_within(x: int, d: int)
    requires
        x >= 0,
        d >= 1,
    ensures
        0 <= x / d <= x,
{
    assert(0 <= x / d <= x) by (nonlinear_arith)
        requires x >= 0, d >= 1;
}

/// A quotient rounded toward zero of something within `y * m` of zero, by `y`,
/// is within `m` of zero.
pub proof fn lemma_tdiv_within(x: int, y: int, m: int)
    requires
        y >= 1,
        m >= 0,
        -(y * m) <= x <= y * m,
    ensures
        -m <= tdiv(x, y) <= m,
{
    if x >= 0 {
        assert(x / y <= m) by (nonlinear_arith)
            requires y >= 1, x <= y * m, x >= 0;
        lemma_div_within(x, y);
    } else {
        assert((-x) / y <= m) by (nonlinear_arith)
            requires y >= 1, -x <= y * m, -x >= 0;
        lemma_div_within(-x, y);
    }
}

/// Quotient of `x` by `y` rounded toward zero.
pub fn div_toward_zero(x: i128, y: i128) -> (r: i128)
    requires
        y != 0,
        x > i128::MIN,
        y > i128::MIN,
    ensures
        r == tdiv(x as int, y as int),
        x >= 0 ==> -x <= r <= x,
        x < 0 ==> x <= r <= -x,
{
    let ax: i128 = if x >= 0 { x } else { -x };
    let ay: i128 = if y >= 0 { y } else { -y };
    let q: i128 = ax / ay;
    proof {
        lemma_div_within(ax as int, ay as int);
    }
    if (x >= 0) == (y > 0) || q == 0 {
        q
    } else {
        -q
    }
}

/// Clamps `x` into `[lo, hi]`.
pub fn clamp_i128(x: i128, lo: i128, hi: i128) -> (r: i128)
    requires
        lo <= hi,
    ensures
        r == clamp(x as int, lo as int, hi as int),
{
    if x < lo {
        lo
    } else if x > hi {
        hi
    } else {
        x
    }
}

/// Fixed-point sine of an angle given in `TURN` steps per turn.
pub fn sine(q: u64) -> (r: i64)
    requires
        q < TURN,
    ensures
        r == sine_of_angle(q as int),
        -ONE <= r <= ONE,
{
    proof {
        lemma_sine_bounds(q as int);
    }
    let (x, neg) = if q <= HALF_TURN {
        (q, false)
    } else {
        (q - HALF_TURN, true)
    };
    assert(x * (HALF_TURN - x) <= HALF_TURN * HALF_TURN) by (nonlinear_arith)
        requires x <= HALF_TURN;
    let b: u64 = x * (HALF_TURN - x);
    assert(b <= HALF_TURN * HALF_TURN) by (nonlinear_arith)
        requires b == x * (HALF_TURN - x), x <= HALF_TURN;
    assert(4 * b <= HALF_TURN * HALF_TURN) by (nonlinear_arith)
        requires b == x * (HALF_TURN - x);
    let n: u64 = (ONE as u64) * 16 * b;
    let d: u64 = 5 * HALF_TURN * HALF_TURN - 4 * b;
    let v: i64 = (n / d) as i64;
    proof {
        lemma_half_sine_bounds(x as int);
    }
    if neg {
        -v
    } else {
        v
    }
}

/// The angle reached after `tick` samples of a tone at `freq_mhz` millihertz
/// played at `rate` samples per second.
pub fn angle(tick: u32, freq_mhz: u32, rate: u32) -> (r: u64)
    requires
        rate > 0,
    ensures
        r == angle_at(tick as int, freq_mhz as int, rate as int),
        r < TURN,
{
    let p: u64 = 1000 * (rate as u64);
    assert((tick as u64) * (freq_mhz as u64) <= u32::MAX * u32::MAX) by (nonlinear_arith);
    let n: u64 = (tick as u64) * (freq_mhz as u64);
    let m: u64 = n % p;
    assert(m * TURN < p * TURN) by (nonlinear_arith)
        requires m < p;
    let r: u64 = m * TURN / p;
    assert(r < TURN) by (nonlinear_arith)
        requires r as int == (m as int) * (TURN as int) / (p as int), m < p, p > 0;
    r
}

} // verus!
