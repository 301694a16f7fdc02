//! Counters, wall-clock time, the randomness boundary, and small integer
//! helpers shared by both game variants.
use rand::seq::SliceRandom;
use rand::Rng;
use vstd::prelude::*;

verus! {

/// Used to count items: hands out `count` and steps it by `increment`.
pub struct Counter {
    pub count: u64,
    pub increment: u64,
}

impl Counter {
    pub fn new(initial: u64, increment: u64) -> (c: Counter)
        ensures
            c.count == initial,
            c.increment == increment,
    {
        Counter { count: initial, increment }
    }

    pub fn current(&self) -> (r: &u64)
        ensures
            r == self.count,
    {
        &self.count
    }

    /// Returns the current count and advances it by the increment,
    /// saturating at the top of the range rather than wrapping.
    pub fn tick(&mut self) -> (r: u64)
        ensures
            r == old(self).count,
            final(self).count == if old(self).count + old(self).increment <= u64::MAX {
                (old(self).count + old(self).increment) as u64
            } else {
                u64::MAX
            },
            final(self).increment == old(self).increment,
    {
        let count = self.count;
        self.count = self.count.saturating_add(self.increment);
        count
    }
}

/// Relies on std::time::SystemTime::now: milliseconds since the Unix epoch.
/// Nothing can be promised of the clock's reading; a clock before the
/// epoch reads as zero rather than failing.
#[verifier::external_body]
pub fn time_milliseconds() -> u64 {
    let start = std::time::SystemTime::now();
    match start.duration_since(std::time::UNIX_EPOCH) {
        Ok(d) => d.as_secs().saturating_mul(1000).saturating_add(d.subsec_millis() as u64),
        Err(_) => 0,
    }
}

/// Relies on rand::Rng::gen_range: a uniform draw from the half-open range.
/// Only the range bound holds of every outcome.
#[verifier::external_body]
pub fn rand_u64(lo: u64, hi: u64) -> (r: u64)
    requires
        lo < hi,
    ensures
        lo <= r < hi,
{
    rand::thread_rng().gen_range(lo..hi)
}

/// Relies on rand::Rng::gen_range: a uniform draw from the half-open range.
/// Only the range bound holds of every outcome.
#[verifier::external_body]
pub fn rand_i64(lo: i64, hi: i64) -> (r: i64)
    requires
        lo < hi,
    ensures
        lo <= r < hi,
{
    rand::thread_rng().gen_range(lo..hi)
}

/// Relies on rand::Rng::gen_range: a uniform index below `n`.
#[verifier::external_body]
pub fn rand_index(n: usize) -> (r: usize)
    requires
        n >= 1,
    ensures
        r < n,
{
    rand::thread_rng().gen_range(0..n)
}

/// Relies on rand::Rng::gen: a fair coin flip; nothing holds of the outcome.
#[verifier::external_body]
pub fn rand_bool() -> bool {
    rand::thread_rng().gen::<bool>()
}

/// Relies on rand::seq::SliceRandom::shuffle: a permutation of the slice, so
/// the multiset of elements is unchanged.
#[verifier::external_body]
pub fn shuffle_pairs(v: &mut Vec<(u64, u64)>)
    ensures
        final(v)@.to_multiset() == old(v)@.to_multiset(),
        final(v)@.len() == old(v)@.len(),
{
    v.shuffle(&mut rand::thread_rng())
}

/// Integer square root: the greatest `r` with `r * r <= m`.
pub fn int_sqrt(m: u64) -> (r: u64)
    ensures
        r * r <= m,
        m < (r + 1) * (r + 1),
        r == spec_sqrt(m as nat),
{
    let mut lo: u64 = 0;
    let mut hi: u64 = 4294967296; // 2^32, whose square is past the range of m
    proof {
        assert(m < 4294967296u64 * 4294967296) by (nonlinear_arith);
    }
    while hi - lo > 1
        invariant
            lo < hi,
            hi <= 4294967296,
            lo * lo <= m,
            m < hi * hi,
        decreases hi - lo,
    {
        let mid: u64 = lo + (hi - lo) / 2;
        proof {
            assert(mid * mid <= 18446744065119617025u64) by (nonlinear_arith)
                requires mid <= 4294967295u64;
        }
        if mid * mid <= m {
            lo = mid;
        } else {
            hi = mid;
        }
    }
    proof {
        lemma_sqrt_unique(m as nat, lo as nat);
    }
    lo
}

/// Integer cube root: the greatest `r` with `r * r * r <= m`.
pub fn int_cbrt(m: u64) -> (r: u64)
    ensures
        r * r * r <= m,
        m < (r + 1) * (r + 1) * (r + 1),
        r == spec_cbrt(m as nat),
{
    let mut lo: u64 = 0;
    let mut hi: u64 = 2642246; // its cube is past the range of m
    proof {
        assert((2642246 as int) * 2642246 * 2642246 == 18446745128696702936) by (nonlinear_arith);
    }
    while hi - lo > 1
        invariant
            lo < hi,
            hi <= 2642246,
            lo * lo * lo <= m,
            (m as int) < (hi as int) * (hi as int) * (hi as int),
        decreases hi - lo,
    {
        let mid: u64 = lo + (hi - lo) / 2;
        proof {
            assert(mid * mid <= 2642245u64 * 2642245) by (nonlinear_arith)
                requires mid <= 2642245u64;
            assert(mid * mid * mid <= 18446724184312856125u64) by (nonlinear_arith)
                requires mid <= 2642245u64;
        }
        if mid * mid * mid <= m {
            lo = mid;
        } else {
            hi = mid;
        }
    }
    proof {
        lemma_cbrt_unique(m as nat, lo as nat);
    }
    lo
}

/// An integer clamped into the unsigned 64-bit range.
pub open spec fn spec_sat_u64(v: int) -> u64 {
    if v > u64::MAX {
        u64::MAX
    } else if v < 0 {
        0
    } else {
        v as u64
    }
}

/// Saturating addition with an exact specification.
pub fn sat_add_u64(a: u64, b: u64) -> (r: u64)
    ensures
        r == spec_sat_u64(a + b),
{
    a.saturating_add(b)
}

/// Saturating multiplication with an exact specification.
pub fn sat_mul_u64(a: u64, b: u64) -> (r: u64)
    ensures
        r == spec_sat_u64(a * b),
{
    match a.checked_mul(b) {
        Some(r) => r,
        None => u64::MAX,
    }
}

/// Scaled division `v * num / den` with the quotient of the magnitudes and
/// the sign applied afterwards, so the rounding is always towards zero.
pub open spec fn spec_scale_div(v: int, num: int, den: int) -> int
    recommends
        den > 0,
{
    let p = v * num;
    if p >= 0 {
        p / den
    } else {
        -((-p) / den)
    }
}

/// Exact scaled division on machine integers.
pub fn scale_div(v: i64, num: i64, den: i64) -> (r: i64)
    requires
        den > 0,
        -2_000_000_000 <= v <= 2_000_000_000,
        -2_000_000_000 <= num <= 2_000_000_000,
    ensures
        r == spec_scale_div(v as int, num as int, den as int),
        -4_000_000_000_000_000_000 <= r <= 4_000_000_000_000_000_000,
{
    proof {
        assert((v as i128) * (num as i128) == v * num && -4_000_000_000_000_000_000 <= v * num
            <= 4_000_000_000_000_000_000) by (nonlinear_arith)
            requires -2_000_000_000 <= v <= 2_000_000_000, -2_000_000_000 <= num <= 2_000_000_000;
    }
    let p: i128 = (v as i128) * (num as i128);
    let q: i128 = if p >= 0 {
        let q0 = p / (den as i128);
        proof {
            vstd::arithmetic::div_mod::lemma_div_of0(den as int);
            vstd::arithmetic::div_mod::lemma_div_is_ordered(0, p as int, den as int);
            vstd::arithmetic::div_mod::lemma_div_is_ordered_by_denominator(p as int, 1, den as int);
            assert((p as int) / 1 == p as int);
        }
        q0
    } else {
        let q0 = (-p) / (den as i128);
        proof {
            vstd::arithmetic::div_mod::lemma_div_of0(den as int);
            vstd::arithmetic::div_mod::lemma_div_is_ordered(0, -p as int, den as int);
            vstd::arithmetic::div_mod::lemma_div_is_ordered_by_denominator(
                -p as int,
                1,
                den as int,
            );
            assert((-p as int) / 1 == -p as int);
        }
        -q0
    };
    q as i64
}

/// Half a turn in milliradians: the fixed-point engine's value of pi.
pub const PI_MRAD: i64 = 3142;

/// A full turn in milliradians.
pub const TWO_PI_MRAD: i64 = 6284;

/// An angle reduced into `[0, TWO_PI_MRAD)`.
pub open spec fn spec_angle_mod(x: int) -> int {
    if x >= 0 {
        x % 6284
    } else if (-x) % 6284 == 0 {
        0
    } else {
        6284 - (-x) % 6284
    }
}

/// The sine on `[0, PI_MRAD]`, scaled to thousandths: the quadratic
/// approximation `16 t (pi - t) / (5 pi^2 - 4 t (pi - t))`, which is exact
/// at zero, the right angle and the half turn and within two thousandths
/// everywhere between.
pub open spec fn spec_sin_half(t: int) -> int {
    16000 * t * (3142 - t) / (49360820 - 4 * t * (3142 - t))
}

/// The sine of an angle in milliradians, scaled to thousandths.
pub open spec fn spec_sin_milli(x: int) -> int {
    let m = spec_angle_mod(x);
    if m < 3142 {
        spec_sin_half(m)
    } else {
        -spec_sin_half(m - 3142)
    }
}

/// The cosine of an angle in milliradians, scaled to thousandths: the sine
/// a quarter turn ahead.
pub open spec fn spec_cos_milli(x: int) -> int {
    spec_sin_milli(x + 1571)
}

/// Reduces an angle into one period, matching `spec_angle_mod`.
fn angle_mod(x: i64) -> (r: i64)
    requires
        x > i64::MIN,
    ensures
        r == spec_angle_mod(x as int),
        0 <= r < 6284,
{
    if x >= 0 {
        x % 6284
    } else {
        let m = (-(x + 1) + 1) % 6284;
        proof {
            assert(m == (-x) % 6284);
        }
        if m == 0 {
            0
        } else {
            6284 - m
        }
    }
}

/// The product `t * (pi - t)` stays within a quarter square of pi.
proof fn lemma_sin_product_bounds(t: int)
    requires
        0 <= t <= 3142,
    ensures
        0 <= t * (3142 - t) <= 2468041,
{
    assert(0 <= t * (3142 - t) <= 2468041) by (nonlinear_arith)
        requires 0 <= t <= 3142;
}

/// The sine on the half turn, exactly its specification and within the
/// scaled unit range.
fn sin_half(t: i64) -> (r: i64)
    requires
        0 <= t <= 3142,
    ensures
        r == spec_sin_half(t as int),
        0 <= r <= 1000,
{
    proof {
        lemma_sin_product_bounds(t as int);
    }
    let y: i64 = t * (3142 - t);
    let num: i64 = 16000 * y;
    let den: i64 = 49360820 - 4 * y;
    proof {
        assert(16000 * ((t as int) * (3142 - t)) == 16000 * (t as int) * (3142 - t))
            by (nonlinear_arith);
        assert(4 * ((t as int) * (3142 - t)) == 4 * (t as int) * (3142 - t)) by (nonlinear_arith);
        assert(num <= 1000 * den) by (nonlinear_arith)
            requires num == 16000 * y, den == 49360820 - 4 * y, 0 <= y <= 2468041;
        vstd::arithmetic::div_mod::lemma_div_is_ordered(0, num as int, den as int);
        vstd::arithmetic::div_mod::lemma_div_is_ordered(num as int, 1000 * den, den as int);
        vstd::arithmetic::div_mod::lemma_div_multiples_vanish(1000, den as int);
        assert(den * 1000 == 1000 * den) by (nonlinear_arith);
    }
    num / den
}

/// The sine of an angle in milliradians, scaled to thousandths, exact
/// against its fixed-point specification.
pub fn sin_milli(x: i64) -> (r: i64)
    requires
        x > i64::MIN,
    ensures
        r == spec_sin_milli(x as int),
        -1000 <= r <= 1000,
{
    let m = angle_mod(x);
    if m < 3142 {
        sin_half(m)
    } else {
        -sin_half(m - 3142)
    }
}

/// The cosine of an angle in milliradians, scaled to thousandths.
pub fn cos_milli(x: i64) -> (r: i64)
    requires
        -1_000_000_000 <= x <= 1_000_000_000,
    ensures
        r == spec_cos_milli(x as int),
        -1000 <= r <= 1000,
{
    sin_milli(x + 1571)
}

/// The offset `(x, y)` rotated by an angle in milliradians: the rotation
/// matrix over the fixed-point sine and cosine, rounded towards zero.
pub open spec fn spec_rot_x(x: int, y: int, dir: int) -> int {
    spec_scale_div(x, spec_cos_milli(dir), 1000) - spec_scale_div(y, spec_sin_milli(dir), 1000)
}

pub open spec fn spec_rot_y(x: int, y: int, dir: int) -> int {
    spec_scale_div(x, spec_sin_milli(dir), 1000) + spec_scale_div(y, spec_cos_milli(dir), 1000)
}

/// Rotates an offset by a facing angle, exactly per the fixed-point
/// rotation matrix; a zero offset stays zero.
pub fn rotate_offset_milli(x: i64, y: i64, dir_mrad: i64) -> (r: (i64, i64))
    requires
        -1_000_000 <= x <= 1_000_000,
        -1_000_000 <= y <= 1_000_000,
        -1_000_000_000 <= dir_mrad <= 1_000_000_000,
    ensures
        r.0 == spec_rot_x(x as int, y as int, dir_mrad as int),
        r.1 == spec_rot_y(x as int, y as int, dir_mrad as int),
        -2_000_002 <= r.0 <= 2_000_002,
        -2_000_002 <= r.1 <= 2_000_002,
        x == 0 && y == 0 ==> r.0 == 0 && r.1 == 0,
{
    let c = cos_milli(dir_mrad);
    let sn = sin_milli(dir_mrad);
    let xc = scale_div(x, c, 1000);
    let xs = scale_div(x, sn, 1000);
    let yc = scale_div(y, c, 1000);
    let ys = scale_div(y, sn, 1000);
    proof {
        lemma_scale_div_bound(x as int, c as int, 1000, 1_000_000);
        lemma_scale_div_bound(x as int, sn as int, 1000, 1_000_000);
        lemma_scale_div_bound(y as int, c as int, 1000, 1_000_000);
        lemma_scale_div_bound(y as int, sn as int, 1000, 1_000_000);
        if x == 0 && y == 0 {
            assert(0int * (c as int) == 0) by (nonlinear_arith);
            assert(0int * (sn as int) == 0) by (nonlinear_arith);
            vstd::arithmetic::div_mod::lemma_div_of0(1000);
            assert(spec_scale_div(0, c as int, 1000) == 0);
            assert(spec_scale_div(0, sn as int, 1000) == 0);
        }
    }
    (xc - ys, xs + yc)
}

/// A value scaled by at most a thousand thousandths keeps its magnitude
/// bound plus one.
pub proof fn lemma_scale_div_bound(v: int, num: int, den: int, bound: int)
    requires
        den > 0,
        -bound <= v <= bound,
        -den <= num <= den,
        bound >= 0,
    ensures
        -(bound + 1) <= spec_scale_div(v, num, den) <= bound + 1,
{
    assert(-(bound * den) <= v * num <= bound * den) by (nonlinear_arith)
        requires -bound <= v <= bound, -den <= num <= den, bound >= 0, den > 0;
    let p = v * num;
    if p >= 0 {
        vstd::arithmetic::div_mod::lemma_div_is_ordered(0, p, den);
        vstd::arithmetic::div_mod::lemma_div_is_ordered(p, bound * den, den);
        vstd::arithmetic::div_mod::lemma_div_multiples_vanish(bound, den);
        assert(den * bound == bound * den) by (nonlinear_arith);
    } else {
        vstd::arithmetic::div_mod::lemma_div_is_ordered(0, -p, den);
        vstd::arithmetic::div_mod::lemma_div_is_ordered(-p, bound * den, den);
        vstd::arithmetic::div_mod::lemma_div_multiples_vanish(bound, den);
        assert(den * bound == bound * den) by (nonlinear_arith);
    }
}

/// A random scatter offset: a uniform angle and a uniform distance of 1.5
/// to 3.5 cells, rounded towards zero to a cell offset; each component is
/// bounded by four cells.
pub fn random_scatter_offset() -> (r: (i64, i64))
    ensures
        -4 <= r.0 <= 4,
        -4 <= r.1 <= 4,
{
    let angle = rand_i64(0, TWO_PI_MRAD);
    let dist = rand_i64(1500, 3500);
    let c = cos_milli(angle);
    let sn = sin_milli(angle);
    let dx = scale_div(c, dist, 1_000_000);
    let dy = scale_div(sn, dist, 1_000_000);
    proof {
        lemma_scatter_bound(c as int, dist as int);
        lemma_scatter_bound(sn as int, dist as int);
    }
    (dx, dy)
}

/// A scaled trig value times a distance below 3.5 cells stays below four
/// cells after scaling down.
proof fn lemma_scatter_bound(c: int, dist: int)
    requires
        -1000 <= c <= 1000,
        0 <= dist < 3500,
    ensures
        -4 <= spec_scale_div(c, dist, 1_000_000) <= 4,
{
    assert(-3_500_000 < c * dist < 3_500_000) by (nonlinear_arith)
        requires -1000 <= c <= 1000, 0 <= dist < 3500;
    let p = c * dist;
    if p >= 0 {
        vstd::arithmetic::div_mod::lemma_div_is_ordered(0, p, 1_000_000);
        vstd::arithmetic::div_mod::lemma_div_is_ordered(p, 4_000_000, 1_000_000);
        assert(4_000_000int / 1_000_000 == 4) by (nonlinear_arith);
    } else {
        vstd::arithmetic::div_mod::lemma_div_is_ordered(0, -p, 1_000_000);
        vstd::arithmetic::div_mod::lemma_div_is_ordered(-p, 4_000_000, 1_000_000);
        assert(4_000_000int / 1_000_000 == 4) by (nonlinear_arith);
    }
}

/// A uniformly random element of the list, or nothing from an empty list.
pub fn random_sample<T>(v: &Vec<T>) -> (r: Option<&T>)
    ensures
        match r {
            None => v@.len() == 0,
            Some(e) => exists|i: int| 0 <= i < v@.len() && e == &v@[i],
        },
{
    if v.len() == 0 {
        None
    } else {
        let i = rand_index(v.len());
        Some(&v[i])
    }
}

/// The integer square root, defined by stepping up from zero.
pub open spec fn spec_sqrt(m: nat) -> nat
    decreases m,
{
    if m == 0 {
        0
    } else {
        let c = spec_sqrt((m - 1) as nat);
        if (c + 1) * (c + 1) <= m {
            c + 1
        } else {
            c
        }
    }
}

/// The defined square root brackets its argument.
pub proof fn lemma_spec_sqrt_bounds(m: nat)
    ensures
        spec_sqrt(m) * spec_sqrt(m) <= m,
        m < (spec_sqrt(m) + 1) * (spec_sqrt(m) + 1),
    decreases m,
{
    if m > 0 {
        lemma_spec_sqrt_bounds((m - 1) as nat);
        let c = spec_sqrt((m - 1) as nat);
        if (c + 1) * (c + 1) <= m {
            assert(spec_sqrt(m) == c + 1);
            assert(m <= (c + 1) * (c + 1));
            assert(m < (c + 2) * (c + 2)) by (nonlinear_arith)
                requires m <= (c + 1) * (c + 1), c >= 0;
            assert(m < (spec_sqrt(m) + 1) * (spec_sqrt(m) + 1)) by (nonlinear_arith)
                requires m < (c + 2) * (c + 2), spec_sqrt(m) == c + 1;
            assert(spec_sqrt(m) * spec_sqrt(m) <= m) by (nonlinear_arith)
                requires (c + 1) * (c + 1) <= m, spec_sqrt(m) == c + 1;
        } else {
            assert(spec_sqrt(m) == c);
            assert(spec_sqrt(m) * spec_sqrt(m) <= m) by (nonlinear_arith)
                requires c * c <= m, spec_sqrt(m) == c;
            assert(m < (spec_sqrt(m) + 1) * (spec_sqrt(m) + 1)) by (nonlinear_arith)
                requires m < (c + 1) * (c + 1), spec_sqrt(m) == c;
        }
    } else {
        assert(spec_sqrt(m) == 0);
        assert(0 * 0 <= m && m < (0 + 1) * (0 + 1)) by (nonlinear_arith)
            requires m == 0;
        assert(spec_sqrt(m) * spec_sqrt(m) <= m) by (nonlinear_arith)
            requires m == 0, spec_sqrt(m) == 0;
        assert(m < (spec_sqrt(m) + 1) * (spec_sqrt(m) + 1)) by (nonlinear_arith)
            requires m == 0, spec_sqrt(m) == 0;
    }
}

/// Square roots are unique within their brackets.
pub proof fn lemma_sqrt_unique(m: nat, r: nat)
    requires
        r * r <= m,
        m < (r + 1) * (r + 1),
    ensures
        r == spec_sqrt(m),
{
    lemma_spec_sqrt_bounds(m);
    let s = spec_sqrt(m);
    if r < s {
        assert((r + 1) * (r + 1) <= s * s) by (nonlinear_arith)
            requires r + 1 <= s;
    }
    if s < r {
        assert((s + 1) * (s + 1) <= r * r) by (nonlinear_arith)
            requires s + 1 <= r;
    }
}

/// The integer cube root, defined by stepping up from zero.
pub open spec fn spec_cbrt(m: nat) -> nat
    decreases m,
{
    if m == 0 {
        0
    } else {
        let c = spec_cbrt((m - 1) as nat);
        if (c + 1) * (c + 1) * (c + 1) <= m {
            c + 1
        } else {
            c
        }
    }
}

/// The defined cube root brackets its argument.
pub proof fn lemma_spec_cbrt_bounds(m: nat)
    ensures
        spec_cbrt(m) * spec_cbrt(m) * spec_cbrt(m) <= m,
        m < (spec_cbrt(m) + 1) * (spec_cbrt(m) + 1) * (spec_cbrt(m) + 1),
    decreases m,
{
    if m > 0 {
        lemma_spec_cbrt_bounds((m - 1) as nat);
        let c = spec_cbrt((m - 1) as nat);
        if (c + 1) * (c + 1) * (c + 1) <= m {
            assert(spec_cbrt(m) == c + 1);
            assert(m <= (c + 1) * (c + 1) * (c + 1));
            assert(m < (c + 2) * (c + 2) * (c + 2)) by (nonlinear_arith)
                requires m <= (c + 1) * (c + 1) * (c + 1), c >= 0;
            assert(spec_cbrt(m) * spec_cbrt(m) * spec_cbrt(m) <= m) by (nonlinear_arith)
                requires (c + 1) * (c + 1) * (c + 1) <= m, spec_cbrt(m) == c + 1;
            assert(m < (spec_cbrt(m) + 1) * (spec_cbrt(m) + 1) * (spec_cbrt(m) + 1))
                by (nonlinear_arith)
                requires m < (c + 2) * (c + 2) * (c + 2), spec_cbrt(m) == c + 1;
        } else {
            assert(spec_cbrt(m) == c);
            assert(spec_cbrt(m) * spec_cbrt(m) * spec_cbrt(m) <= m) by (nonlinear_arith)
                requires c * c * c <= m, spec_cbrt(m) == c;
            assert(m < (spec_cbrt(m) + 1) * (spec_cbrt(m) + 1) * (spec_cbrt(m) + 1))
                by (nonlinear_arith)
                requires m < (c + 1) * (c + 1) * (c + 1), spec_cbrt(m) == c;
        }
    } else {
        assert(spec_cbrt(m) == 0);
        assert(spec_cbrt(m) * spec_cbrt(m) * spec_cbrt(m) <= m) by (nonlinear_arith)
            requires m == 0, spec_cbrt(m) == 0;
        assert(m < (spec_cbrt(m) + 1) * (spec_cbrt(m) + 1) * (spec_cbrt(m) + 1))
            by (nonlinear_arith)
            requires m == 0, spec_cbrt(m) == 0;
    }
}

/// Cube roots are unique within their brackets.
pub proof fn lemma_cbrt_unique(m: nat, r: nat)
    requires
        r * r * r <= m,
        m < (r + 1) * (r + 1) * (r + 1),
    ensures
        r == spec_cbrt(m),
{
    lemma_spec_cbrt_bounds(m);
    let s = spec_cbrt(m);
    if r < s {
        assert((r + 1) * (r + 1) * (r + 1) <= s * s * s) by (nonlinear_arith)
            requires r + 1 <= s;
    }
    if s < r {
        assert((s + 1) * (s + 1) * (s + 1) <= r * r * r) by (nonlinear_arith)
            requires s + 1 <= r;
    }
}

/// The product of two values from the unsigned 64-bit range fits the
/// unsigned 128-bit range.
pub proof fn lemma_u64_prod_fits(x: u128, y: u128)
    requires
        x <= 18446744073709551615,
        y <= 18446744073709551615,
    ensures
        x * y <= 340282366920938463426481119284349108225,
{
    assert(x * y <= 340282366920938463426481119284349108225) by (nonlinear_arith)
        requires 0 <= x <= 18446744073709551615, 0 <= y <= 18446744073709551615;
}

/// The reduced angle is periodic in whole turns.
pub proof fn lemma_angle_mod_period(x: int)
    ensures
        spec_angle_mod(x + 6284) == spec_angle_mod(x),
{
    if x >= 0 {
        vstd::arithmetic::div_mod::lemma_mod_multiples_vanish(1, x, 6284);
    } else if x >= -6284 {
        if x == -6284 {
            assert(spec_angle_mod(x + 6284) == 0) by {
                vstd::arithmetic::div_mod::lemma_small_mod(0nat, 6284nat);
            }
            assert((-x) % 6284 == 0) by {
                assert(6284int % 6284 == 0) by {
                    vstd::arithmetic::div_mod::lemma_mod_self_0(6284);
                }
            }
        } else {
            assert(0 <= x + 6284 < 6284);
            vstd::arithmetic::div_mod::lemma_small_mod((x + 6284) as nat, 6284nat);
            assert(0 < -x < 6284);
            vstd::arithmetic::div_mod::lemma_small_mod((-x) as nat, 6284nat);
        }
    } else {
        vstd::arithmetic::div_mod::lemma_mod_multiples_vanish(1, -x - 6284, 6284);
        assert((-x) % 6284 == (-(x + 6284)) % 6284);
    }
}

/// The fixed-point sine is periodic in whole turns.
pub proof fn lemma_sin_period(x: int)
    ensures
        spec_sin_milli(x + 6284) == spec_sin_milli(x),
{
    lemma_angle_mod_period(x);
}

/// A scaled division result stays within any bound on the product.
pub proof fn lemma_scale_div_abs(v: int, num: int, den: int, b: int)
    requires
        den > 0,
        b >= 0,
        -b <= v * num <= b,
    ensures
        -b <= spec_scale_div(v, num, den) <= b,
{
    let p = v * num;
    if p >= 0 {
        vstd::arithmetic::div_mod::lemma_div_is_ordered(0, p, den);
        vstd::arithmetic::div_mod::lemma_div_is_ordered_by_denominator(p, 1, den);
        assert(p / 1 == p);
    } else {
        vstd::arithmetic::div_mod::lemma_div_is_ordered(0, -p, den);
        vstd::arithmetic::div_mod::lemma_div_is_ordered_by_denominator(-p, 1, den);
        assert((-p) / 1 == -p);
    }
}

} // verus!
