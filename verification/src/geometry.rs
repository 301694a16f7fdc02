//! Fixed-point geometry: 3-vectors, axis-aligned rects, rays, and exact
//! rational ray parameters. Coordinates are integers in milli-units
//! (1000 to a world unit), so every test here is exact.
use vstd::prelude::*;

verus! {

/// Bound on position coordinates (milli-units).
pub const COORD_LIMIT: i64 = 1_000_000_000;

/// Bound on rect size components (milli-units).
pub const SIZE_LIMIT: i64 = 1_000_000;

/// A 3-vector of milli-unit coordinates.
#[derive(Clone, Copy, Debug, PartialEq, Eq, Structural)]
pub struct Vector {
    pub x: i64,
    pub y: i64,
    pub z: i64,
}

impl Vector {
    /// All components within the given magnitude bound.
    pub open spec fn bounded(&self, limit: i64) -> bool {
        -limit <= self.x <= limit && -limit <= self.y <= limit && -limit <= self.z <= limit
    }

    #[inline]
    pub fn new(x: i64, y: i64, z: i64) -> (v: Vector)
        ensures
            v == (Vector { x, y, z }),
    {
        Vector { x, y, z }
    }

    #[inline]
    pub fn scalar(v: i64) -> (r: Vector)
        ensures
            r == (Vector { x: v, y: v, z: v }),
    {
        Vector::new(v, v, v)
    }

    #[inline]
    pub fn zero() -> (r: Vector)
        ensures
            r == (Vector { x: 0i64, y: 0i64, z: 0i64 }),
    {
        Vector::new(0, 0, 0)
    }

    #[inline]
    pub fn copy_from(&mut self, other: &Vector)
        ensures
            *final(self) == *other,
    {
        self.x = other.x;
        self.y = other.y;
        self.z = other.z;
    }

    #[inline]
    pub fn set(&mut self, x: i64, y: i64, z: i64)
        ensures
            *final(self) == (Vector { x, y, z }),
    {
        self.x = x;
        self.y = y;
        self.z = z;
    }

    /// Adds `other * mult` componentwise.
    #[inline]
    pub fn add(&mut self, other: &Vector, mult: i64)
        requires
            i64::MIN <= old(self).x + other.x * mult <= i64::MAX,
            i64::MIN <= old(self).y + other.y * mult <= i64::MAX,
            i64::MIN <= old(self).z + other.z * mult <= i64::MAX,
            i64::MIN <= other.x * mult <= i64::MAX,
            i64::MIN <= other.y * mult <= i64::MAX,
            i64::MIN <= other.z * mult <= i64::MAX,
        ensures
            final(self).x == old(self).x + other.x * mult,
            final(self).y == old(self).y + other.y * mult,
            final(self).z == old(self).z + other.z * mult,
    {
        self.x = self.x + other.x * mult;
        self.y = self.y + other.y * mult;
        self.z = self.z + other.z * mult;
    }

    /// The squared magnitude, exact.
    pub fn magnitude_sq(&self) -> (r: i64)
        requires
            self.bounded(COORD_LIMIT as i64),
        ensures
            r == self.x * self.x + self.y * self.y + self.z * self.z,
    {
        proof {
            assert(self.x * self.x <= 1_000_000_000i64 * 1_000_000_000) by (nonlinear_arith)
                requires -1_000_000_000 <= self.x <= 1_000_000_000;
            assert(self.x * self.x >= 0) by (nonlinear_arith);
            assert(self.y * self.y <= 1_000_000_000i64 * 1_000_000_000) by (nonlinear_arith)
                requires -1_000_000_000 <= self.y <= 1_000_000_000;
            assert(self.y * self.y >= 0) by (nonlinear_arith);
            assert(self.z * self.z <= 1_000_000_000i64 * 1_000_000_000) by (nonlinear_arith)
                requires -1_000_000_000 <= self.z <= 1_000_000_000;
            assert(self.z * self.z >= 0) by (nonlinear_arith);
        }
        self.x * self.x + self.y * self.y + self.z * self.z
    }

    /// The squared distance to `other`, exact.
    pub fn distance_sq(&self, other: &Vector) -> (r: i128)
        requires
            self.bounded(COORD_LIMIT as i64),
            other.bounded(COORD_LIMIT as i64),
        ensures
            r == (self.x - other.x) * (self.x - other.x) + (self.y - other.y) * (self.y
                - other.y) + (self.z - other.z) * (self.z - other.z),
    {
        let dx = (self.x - other.x) as i128;
        let dy = (self.y - other.y) as i128;
        let dz = (self.z - other.z) as i128;
        proof {
            assert(dx * dx <= 2_000_000_000i128 * 2_000_000_000 && dx * dx >= 0)
                by (nonlinear_arith)
                requires -2_000_000_000 <= dx <= 2_000_000_000;
            assert(dy * dy <= 2_000_000_000i128 * 2_000_000_000 && dy * dy >= 0)
                by (nonlinear_arith)
                requires -2_000_000_000 <= dy <= 2_000_000_000;
            assert(dz * dz <= 2_000_000_000i128 * 2_000_000_000 && dz * dz >= 0)
                by (nonlinear_arith)
                requires -2_000_000_000 <= dz <= 2_000_000_000;
        }
        dx * dx + dy * dy + dz * dz
    }

    /// Index by axis: 0 is x, 1 is y, 2 is z.
    pub fn index(&self, index: usize) -> (r: i64)
        requires
            index < 3,
        ensures
            index == 0 ==> r == self.x,
            index == 1 ==> r == self.y,
            index == 2 ==> r == self.z,
    {
        if index == 0 {
            self.x
        } else if index == 1 {
            self.y
        } else {
            self.z
        }
    }
}

/// An axis-aligned box given by its centre and its size along each axis.
#[derive(Clone, Copy, Debug, PartialEq, Eq, Structural)]
pub struct Rect {
    pub center: Vector,
    pub size: Vector,
}

/// One quarter turn about the z axis: the centre offset (x, y) becomes
/// (-y, x) and the x and y extents swap.
pub open spec fn spec_rotate_once(r: Rect) -> Rect {
    Rect {
        center: Vector { x: (-r.center.y) as i64, y: r.center.x, z: r.center.z },
        size: Vector { x: r.size.y, y: r.size.x, z: r.size.z },
    }
}

/// `n` quarter turns.
pub open spec fn spec_rotate(r: Rect, n: nat) -> Rect
    decreases n,
{
    if n == 0 {
        r
    } else {
        spec_rotate_once(spec_rotate(r, (n - 1) as nat))
    }
}

impl Rect {
    /// Sizes are non-negative and everything is within the fixed-point
    /// bounds, so extents and volumes stay in range.
    pub open spec fn wf(&self) -> bool {
        &&& self.center.bounded(COORD_LIMIT as i64)
        &&& 0 <= self.size.x <= SIZE_LIMIT
        &&& 0 <= self.size.y <= SIZE_LIMIT
        &&& 0 <= self.size.z <= SIZE_LIMIT
    }

    pub fn new(center: Vector, size: Vector) -> (r: Rect)
        ensures
            r == (Rect { center, size }),
    {
        Rect { center, size }
    }

    pub fn copy_from(&mut self, other: &Rect)
        ensures
            *final(self) == *other,
    {
        self.center.copy_from(&other.center);
        self.size.copy_from(&other.size);
    }

    pub open spec fn spec_x_upper(&self, offset: int) -> int {
        self.center.x + self.size.x / 2 + offset
    }

    pub open spec fn spec_x_lower(&self, offset: int) -> int {
        self.center.x - self.size.x / 2 + offset
    }

    pub open spec fn spec_y_upper(&self, offset: int) -> int {
        self.center.y + self.size.y / 2 + offset
    }

    pub open spec fn spec_y_lower(&self, offset: int) -> int {
        self.center.y - self.size.y / 2 + offset
    }

    pub open spec fn spec_z_upper(&self, offset: int) -> int {
        self.center.z + self.size.z / 2 + offset
    }

    pub open spec fn spec_z_lower(&self, offset: int) -> int {
        self.center.z - self.size.z / 2 + offset
    }

    pub fn x_upper_extent(&self, offset: i64) -> (r: i64)
        requires
            self.wf(),
            -COORD_LIMIT <= offset <= COORD_LIMIT,
        ensures
            r == self.spec_x_upper(offset as int),
    {
        self.center.x + self.size.x / 2 + offset
    }

    pub fn x_lower_extent(&self, offset: i64) -> (r: i64)
        requires
            self.wf(),
            -COORD_LIMIT <= offset <= COORD_LIMIT,
        ensures
            r == self.spec_x_lower(offset as int),
    {
        self.center.x - self.size.x / 2 + offset
    }

    pub fn y_upper_extent(&self, offset: i64) -> (r: i64)
        requires
            self.wf(),
            -COORD_LIMIT <= offset <= COORD_LIMIT,
        ensures
            r == self.spec_y_upper(offset as int),
    {
        self.center.y + self.size.y / 2 + offset
    }

    pub fn y_lower_extent(&self, offset: i64) -> (r: i64)
        requires
            self.wf(),
            -COORD_LIMIT <= offset <= COORD_LIMIT,
        ensures
            r == self.spec_y_lower(offset as int),
    {
        self.center.y - self.size.y / 2 + offset
    }

    pub fn z_upper_extent(&self, offset: i64) -> (r: i64)
        requires
            self.wf(),
            -COORD_LIMIT <= offset <= COORD_LIMIT,
        ensures
            r == self.spec_z_upper(offset as int),
    {
        self.center.z + self.size.z / 2 + offset
    }

    pub fn z_lower_extent(&self, offset: i64) -> (r: i64)
        requires
            self.wf(),
            -COORD_LIMIT <= offset <= COORD_LIMIT,
        ensures
            r == self.spec_z_lower(offset as int),
    {
        self.center.z - self.size.z / 2 + offset
    }

    /// Rotates the rect by the given number of quarter turns.
    pub fn rotate(&mut self, rotation: &u8)
        requires
            old(self).center.x > i64::MIN,
            old(self).center.y > i64::MIN,
        ensures
            *final(self) == spec_rotate(*old(self), *rotation as nat),
    {
        let n = *rotation;
        let mut i: u8 = 0;
        while i < n
            invariant
                *self == spec_rotate(*old(self), i as nat),
                self.center.x > i64::MIN,
                self.center.y > i64::MIN,
                i <= n,
            decreases n - i,
        {
            proof {
                assert(spec_rotate(*old(self), (i + 1) as nat) == spec_rotate_once(
                    spec_rotate(*old(self), i as nat),
                ));
            }
            // Rotate center: (x, y) becomes (-y, x).
            let cx = self.center.x;
            self.center.x = -self.center.y;
            self.center.y = cx;
            // Swap size: (w, h) becomes (h, w).
            let sx = self.size.x;
            self.size.x = self.size.y;
            self.size.y = sx;
            i += 1;
        }
    }

    /// Separating-axis overlap on all three axes, with the rects placed at
    /// the given offsets; all comparisons strict, so touching is no overlap.
    pub open spec fn spec_intersects(a: Rect, b: Rect, a_off: Vector, b_off: Vector) -> bool {
        &&& a.spec_x_upper(a_off.x as int) > b.spec_x_lower(b_off.x as int)
        &&& a.spec_x_lower(a_off.x as int) < b.spec_x_upper(b_off.x as int)
        &&& a.spec_y_upper(a_off.y as int) > b.spec_y_lower(b_off.y as int)
        &&& a.spec_y_lower(a_off.y as int) < b.spec_y_upper(b_off.y as int)
        &&& a.spec_z_upper(a_off.z as int) > b.spec_z_lower(b_off.z as int)
        &&& a.spec_z_lower(a_off.z as int) < b.spec_z_upper(b_off.z as int)
    }

    pub fn intersects(&self, other: &Rect, offset: &Vector, other_offset: &Vector) -> (r: bool)
        requires
            self.wf(),
            other.wf(),
            offset.bounded(COORD_LIMIT as i64),
            other_offset.bounded(COORD_LIMIT as i64),
        ensures
            r == Rect::spec_intersects(*self, *other, *offset, *other_offset),
    {
        self.x_upper_extent(offset.x) > other.x_lower_extent(other_offset.x)
            && self.x_lower_extent(offset.x) < other.x_upper_extent(other_offset.x)
            && self.y_upper_extent(offset.y) > other.y_lower_extent(other_offset.y)
            && self.y_lower_extent(offset.y) < other.y_upper_extent(other_offset.y)
            && self.z_upper_extent(offset.z) > other.z_lower_extent(other_offset.z)
            && self.z_lower_extent(offset.z) < other.z_upper_extent(other_offset.z)
    }

    /// Whether a point lies strictly inside the rect placed at `offset`.
    pub open spec fn spec_contains_point(a: Rect, point: Vector, offset: Vector) -> bool {
        &&& point.x < a.spec_x_upper(offset.x as int)
        &&& point.x > a.spec_x_lower(offset.x as int)
        &&& point.y < a.spec_y_upper(offset.y as int)
        &&& point.y > a.spec_y_lower(offset.y as int)
        &&& point.z < a.spec_z_upper(offset.z as int)
        &&& point.z > a.spec_z_lower(offset.z as int)
    }

    pub fn contains_point(&self, other: &Vector, offset: &Vector) -> (r: bool)
        requires
            self.wf(),
            offset.bounded(COORD_LIMIT as i64),
        ensures
            r == Rect::spec_contains_point(*self, *other, *offset),
    {
        other.x < self.x_upper_extent(offset.x) && other.x > self.x_lower_extent(offset.x)
            && other.y < self.y_upper_extent(offset.y) && other.y > self.y_lower_extent(offset.y)
            && other.z < self.z_upper_extent(offset.z) && other.z > self.z_lower_extent(offset.z)
    }

    /// The product of the three size components.
    pub fn volume(&self) -> (r: i64)
        requires
            self.wf(),
        ensures
            r == self.size.x * self.size.y * self.size.z,
            0 <= r <= 1_000_000_000_000_000_000,
    {
        proof {
            assert(self.size.x * self.size.y <= 1_000_000i64 * 1_000_000 && 0 <= self.size.x
                * self.size.y) by (nonlinear_arith)
                requires 0 <= self.size.x <= 1_000_000, 0 <= self.size.y <= 1_000_000;
            assert((self.size.x * self.size.y) * self.size.z <= 1_000_000_000_000i64 * 1_000_000
                && 0 <= (self.size.x * self.size.y) * self.size.z) by (nonlinear_arith)
                requires 0 <= self.size.x * self.size.y <= 1_000_000_000_000i64, 0 <= self.size.z <= 1_000_000;
        }
        self.size.x * self.size.y * self.size.z
    }
}

/// Rotating a rect four quarter turns yields the original rect.
pub proof fn lemma_rotate_four(r: Rect)
    requires
        r.wf(),
    ensures
        spec_rotate(r, 4) == r,
{
    assert(spec_rotate(r, 0) == r);
    assert(spec_rotate(r, 1) == spec_rotate_once(spec_rotate(r, 0)));
    assert(spec_rotate(r, 2) == spec_rotate_once(spec_rotate(r, 1)));
    assert(spec_rotate(r, 3) == spec_rotate_once(spec_rotate(r, 2)));
    assert(spec_rotate(r, 4) == spec_rotate_once(spec_rotate(r, 3)));
}

/// Rect intersection is symmetric in the two rects.
pub proof fn lemma_intersects_symmetric(a: Rect, b: Rect, a_off: Vector, b_off: Vector)
    ensures
        Rect::spec_intersects(a, b, a_off, b_off) == Rect::spec_intersects(b, a, b_off, a_off),
{
}

/// Rect intersection is reflexive on rects whose half-extents are positive,
/// that is, whose sizes are at least two milli-units on every axis.
pub proof fn lemma_intersects_reflexive(a: Rect, off: Vector)
    requires
        a.size.x >= 2,
        a.size.y >= 2,
        a.size.z >= 2,
    ensures
        Rect::spec_intersects(a, a, off, off),
{
}

/// A ray: an origin, a direction, and a length bound in milli-units.
#[derive(Clone, Copy, Debug)]
pub struct Ray {
    /// The origin point of the ray.
    pub origin: Vector,
    /// Which direction the ray extends in.
    pub dir: Vector,
    /// How far the ray reaches, in milli-units.
    pub length: i64,
}

impl Ray {
    pub open spec fn wf(&self) -> bool {
        &&& self.origin.bounded(2_000_000_000i64)
        &&& self.dir.bounded(4_000_000_000i64)
        &&& !(self.dir.x == 0 && self.dir.y == 0 && self.dir.z == 0)
        &&& 0 <= self.length <= COORD_LIMIT
    }

    pub fn new(origin: Vector, dir: Vector, length: i64) -> (r: Ray)
        ensures
            r == (Ray { origin, dir, length }),
    {
        Ray { origin, dir, length }
    }

    pub fn origin(&self) -> (r: &Vector)
        ensures
            r == self.origin,
    {
        &self.origin
    }

    pub fn dir(&self) -> (r: &Vector)
        ensures
            r == self.dir,
    {
        &self.dir
    }

    pub fn length(&self) -> (r: i64)
        ensures
            r == self.length,
    {
        self.length
    }
}

/// An exact rational ray parameter `num / den`, with `den > 0`.
#[derive(Clone, Copy, Debug)]
pub struct Frac {
    pub num: i64,
    pub den: i64,
}


/// The product of two values from the 64-bit range fits the 128-bit range.
pub proof fn lemma_i64_prod_fits_pub(x: i128, y: i128)
    requires
        -9223372036854775808 <= x <= 9223372036854775807,
        -9223372036854775808 <= y <= 9223372036854775807,
    ensures
        -85070591730234615865843651857942052864 <= x * y
            <= 85070591730234615865843651857942052864,
{
    lemma_i64_prod_fits(x, y);
}

/// The product of two values from the 64-bit range fits the 128-bit range.
proof fn lemma_i64_prod_fits(x: i128, y: i128)
    requires
        -9223372036854775808 <= x <= 9223372036854775807,
        -9223372036854775808 <= y <= 9223372036854775807,
    ensures
        -85070591730234615865843651857942052864 <= x * y
            <= 85070591730234615865843651857942052864,
{
    assert(-85070591730234615865843651857942052864 <= x * y
        <= 85070591730234615865843651857942052864) by (nonlinear_arith)
        requires
            -9223372036854775808 <= x <= 9223372036854775807,
            -9223372036854775808 <= y <= 9223372036854775807;
}

/// `a <= b` on rationals with positive denominators, by cross-multiplying.
pub open spec fn frac_le(a: Frac, b: Frac) -> bool {
    a.num * b.den <= b.num * a.den
}

/// `a < b` on rationals with positive denominators.
pub open spec fn frac_lt(a: Frac, b: Frac) -> bool {
    a.num * b.den < b.num * a.den
}

impl Frac {
    pub open spec fn wf(&self) -> bool {
        self.den > 0
    }

    pub fn zero() -> (r: Frac)
        ensures
            r == (Frac { num: 0i64, den: 1i64 }),
    {
        Frac { num: 0, den: 1 }
    }

    /// Exact comparison by cross-multiplying in a wide type.
    pub fn le(&self, other: &Frac) -> (r: bool)
        ensures
            r == frac_le(*self, *other),
    {
        proof {
            lemma_i64_prod_fits(self.num as i128, other.den as i128);
            lemma_i64_prod_fits(other.num as i128, self.den as i128);
        }
        (self.num as i128) * (other.den as i128) <= (other.num as i128) * (self.den as i128)
    }

    /// Exact strict comparison by cross-multiplying in a wide type.
    pub fn lt(&self, other: &Frac) -> (r: bool)
        ensures
            r == frac_lt(*self, *other),
    {
        proof {
            lemma_i64_prod_fits(self.num as i128, other.den as i128);
            lemma_i64_prod_fits(other.num as i128, self.den as i128);
        }
        (self.num as i128) * (other.den as i128) < (other.num as i128) * (self.den as i128)
    }

}

/// Spec-level rational as an (numerator, denominator) pair of integers with
/// a positive denominator.
pub open spec fn fle(a: (int, int), b: (int, int)) -> bool {
    a.0 * b.1 <= b.0 * a.1
}

pub open spec fn flt(a: (int, int), b: (int, int)) -> bool {
    a.0 * b.1 < b.0 * a.1
}

pub open spec fn fmax(a: (int, int), b: (int, int)) -> (int, int) {
    if fle(a, b) {
        b
    } else {
        a
    }
}

pub open spec fn fmin(a: (int, int), b: (int, int)) -> (int, int) {
    if fle(a, b) {
        a
    } else {
        b
    }
}

/// On an axis where the ray moves, the parameter at which it enters the
/// slab `[mn, mx]`: the smaller of `(mn - o) / d` and `(mx - o) / d`,
/// written with a positive denominator.
pub open spec fn axis_lo(o: int, d: int, mn: int, mx: int) -> (int, int)
    recommends
        d != 0,
        mn <= mx,
{
    if d > 0 {
        (mn - o, d)
    } else {
        (o - mx, -d)
    }
}

/// The parameter at which the ray leaves the slab `[mn, mx]`.
pub open spec fn axis_hi(o: int, d: int, mn: int, mx: int) -> (int, int)
    recommends
        d != 0,
        mn <= mx,
{
    if d > 0 {
        (mx - o, d)
    } else {
        (o - mn, -d)
    }
}

/// Folds one axis into the running (entry, exit) parameter pair: an axis the
/// ray does not move along constrains nothing.
pub open spec fn spec_merge_axis(
    acc: Option<((int, int), (int, int))>,
    o: int,
    d: int,
    mn: int,
    mx: int,
) -> Option<((int, int), (int, int))> {
    if d == 0 {
        acc
    } else {
        let lo = axis_lo(o, d, mn, mx);
        let hi = axis_hi(o, d, mn, mx);
        match acc {
            None => Some((lo, hi)),
            Some((l, h)) => Some((fmax(l, lo), fmin(h, hi))),
        }
    }
}

/// The slab algorithm on exact rationals: the entry parameter `tmin` is the
/// greatest per-axis entry, the exit parameter `tmax` the least per-axis
/// exit, and the ray hits exactly when `tmax > tmin` and `tmax > 0`; the
/// result is then `tmin`. An axis the ray does not move along admits a hit
/// only with the origin strictly inside that slab.
pub open spec fn spec_slab(rect: Rect, off: Vector, ray: Ray) -> Option<(int, int)> {
    let mnx = rect.spec_x_lower(off.x as int);
    let mxx = rect.spec_x_upper(off.x as int);
    let mny = rect.spec_y_lower(off.y as int);
    let mxy = rect.spec_y_upper(off.y as int);
    let mnz = rect.spec_z_lower(off.z as int);
    let mxz = rect.spec_z_upper(off.z as int);
    if (ray.dir.x == 0 && !(mnx < ray.origin.x < mxx)) || (ray.dir.y == 0 && !(mny < ray.origin.y
        < mxy)) || (ray.dir.z == 0 && !(mnz < ray.origin.z < mxz)) {
        None
    } else {
        let acc = spec_merge_axis(
            spec_merge_axis(
                spec_merge_axis(None, ray.origin.x as int, ray.dir.x as int, mnx, mxx),
                ray.origin.y as int,
                ray.dir.y as int,
                mny,
                mxy,
            ),
            ray.origin.z as int,
            ray.dir.z as int,
            mnz,
            mxz,
        );
        match acc {
            None => None,
            Some((tmin, tmax)) => if flt(tmin, tmax) && flt((0, 1), tmax) {
                Some(tmin)
            } else {
                None
            },
        }
    }
}

/// The view of a running exec (entry, exit) pair as spec rationals.
pub open spec fn acc_view(a: Option<(Frac, Frac)>) -> Option<((int, int), (int, int))> {
    match a {
        None => None,
        Some((l, h)) => Some((((l.num as int, l.den as int)), ((h.num as int, h.den as int)))),
    }
}


/// One exec step of the slab fold, exactly `spec_merge_axis`.
fn merge_axis(acc: Option<(Frac, Frac)>, o: i64, d: i64, mn: i64, mx: i64) -> (r: Option<
    (Frac, Frac),
>)
    requires
        -4_000_000_000 <= o <= 4_000_000_000,
        -4_000_000_000 <= d <= 4_000_000_000,
        -4_000_000_000 <= mn <= 4_000_000_000,
        -4_000_000_000 <= mx <= 4_000_000_000,
    ensures
        acc_view(r) == spec_merge_axis(acc_view(acc), o as int, d as int, mn as int, mx as int),
{
    if d == 0 {
        acc
    } else {
        let lo: Frac;
        let hi: Frac;
        if d > 0 {
            lo = Frac { num: mn - o, den: d };
            hi = Frac { num: mx - o, den: d };
        } else {
            lo = Frac { num: o - mx, den: -d };
            hi = Frac { num: o - mn, den: -d };
        }
        match acc {
            None => Some((lo, hi)),
            Some((l, h)) => {
                let nl = if l.le(&lo) {
                    lo
                } else {
                    l
                };
                let nh = if h.le(&hi) {
                    h
                } else {
                    hi
                };
                Some((nl, nh))
            },
        }
    }
}

impl Rect {
    /// Checks if the ray intersects this rectangle, placed at `offset`, and
    /// returns the exact entry parameter as a fraction of the direction
    /// vector's length: the slab algorithm on exact rationals.
    pub fn intersects_ray(&self, r: &Ray, offset: &Vector) -> (res: Option<Frac>)
        requires
            self.wf(),
            r.wf(),
            offset.bounded(COORD_LIMIT as i64),
        ensures
            match res {
                None => spec_slab(*self, *offset, *r) is None,
                Some(f) => spec_slab(*self, *offset, *r) == Some((f.num as int, f.den as int))
                    && f.den > 0,
            },
    {
        let mnx = self.x_lower_extent(offset.x);
        let mxx = self.x_upper_extent(offset.x);
        let mny = self.y_lower_extent(offset.y);
        let mxy = self.y_upper_extent(offset.y);
        let mnz = self.z_lower_extent(offset.z);
        let mxz = self.z_upper_extent(offset.z);

        // An axis the ray does not move along admits a hit only with the
        // origin strictly inside that slab.
        if r.dir.x == 0 && !(mnx < r.origin.x && r.origin.x < mxx) {
            return None;
        }
        if r.dir.y == 0 && !(mny < r.origin.y && r.origin.y < mxy) {
            return None;
        }
        if r.dir.z == 0 && !(mnz < r.origin.z && r.origin.z < mxz) {
            return None;
        }

        let acc = merge_axis(None, r.origin.x, r.dir.x, mnx, mxx);
        let acc = merge_axis(acc, r.origin.y, r.dir.y, mny, mxy);
        let acc = merge_axis(acc, r.origin.z, r.dir.z, mnz, mxz);

        match acc {
            None => None,
            Some((tmin, tmax)) => {
                let zero = Frac::zero();
                if tmin.lt(&tmax) && zero.lt(&tmax) {
                    Some(tmin)
                } else {
                    None
                }
            },
        }
    }
}

/// The denominators stay positive through the slab fold, and when the
/// origin lies strictly inside every slab the running entry parameter is
/// negative and the exit parameter positive.
proof fn lemma_merge_axis_inside(
    acc: Option<((int, int), (int, int))>,
    o: int,
    d: int,
    mn: int,
    mx: int,
)
    requires
        mn < o < mx,
        match acc {
            None => true,
            Some((l, h)) => l.0 < 0 && l.1 > 0 && h.0 > 0 && h.1 > 0,
        },
    ensures
        match spec_merge_axis(acc, o, d, mn, mx) {
            None => spec_merge_axis(acc, o, d, mn, mx) == acc,
            Some((l, h)) => l.0 < 0 && l.1 > 0 && h.0 > 0 && h.1 > 0,
        },
{
}

/// For any ray whose origin lies strictly inside the box, the slab
/// algorithm yields a hit, and the entry parameter is at most zero.
pub proof fn lemma_origin_inside_hit(rect: Rect, off: Vector, ray: Ray)
    requires
        rect.wf(),
        ray.wf(),
        Rect::spec_contains_point(rect, ray.origin, off),
    ensures
        spec_slab(rect, off, ray) is Some,
        (spec_slab(rect, off, ray)->0).0 <= 0,
{
    let mnx = rect.spec_x_lower(off.x as int);
    let mxx = rect.spec_x_upper(off.x as int);
    let mny = rect.spec_y_lower(off.y as int);
    let mxy = rect.spec_y_upper(off.y as int);
    let mnz = rect.spec_z_lower(off.z as int);
    let mxz = rect.spec_z_upper(off.z as int);
    let a1 = spec_merge_axis(None, ray.origin.x as int, ray.dir.x as int, mnx, mxx);
    let a2 = spec_merge_axis(a1, ray.origin.y as int, ray.dir.y as int, mny, mxy);
    let a3 = spec_merge_axis(a2, ray.origin.z as int, ray.dir.z as int, mnz, mxz);
    lemma_merge_axis_inside(None, ray.origin.x as int, ray.dir.x as int, mnx, mxx);
    lemma_merge_axis_inside(a1, ray.origin.y as int, ray.dir.y as int, mny, mxy);
    lemma_merge_axis_inside(a2, ray.origin.z as int, ray.dir.z as int, mnz, mxz);
    // The direction is not the zero vector, so at least one axis was folded.
    assert(a3 is Some);
    let (tmin, tmax) = a3->0;
    assert(tmin.0 * tmax.1 < tmax.0 * tmin.1) by (nonlinear_arith)
        requires
            tmin.0 < 0,
            tmin.1 > 0,
            tmax.0 > 0,
            tmax.1 > 0;
    assert(flt((0, 1), tmax)) by (nonlinear_arith)
        requires
            tmax.0 > 0,
            tmax.1 > 0;
}

impl DeepView for Vector {
    type V = Vector;

    open spec fn deep_view(&self) -> Vector {
        *self
    }
}

impl crate::incremental_value::IncrementalValueInner for Vector {
    fn eq_value(&self, other: &Self) -> (r: bool)
        ensures
            r == (self.deep_view() == other.deep_view()),
    {
        self.x == other.x && self.y == other.y && self.z == other.z
    }

    fn duplicate(&self) -> (r: Self)
        ensures
            r.deep_view() == self.deep_view(),
    {
        *self
    }
}

impl DeepView for Rect {
    type V = Rect;

    open spec fn deep_view(&self) -> Rect {
        *self
    }
}

impl crate::incremental_value::IncrementalValueInner for Rect {
    fn eq_value(&self, other: &Self) -> (r: bool)
        ensures
            r == (self.deep_view() == other.deep_view()),
    {
        self.center.x == other.center.x && self.center.y == other.center.y && self.center.z
            == other.center.z && self.size.x == other.size.x && self.size.y == other.size.y
            && self.size.z == other.size.z
    }

    fn duplicate(&self) -> (r: Self)
        ensures
            r.deep_view() == self.deep_view(),
    {
        *self
    }
}

impl crate::incremental_value::IncrementalValueDiffInner<i64> for Vector {
    /// Euclidean distance at least the threshold; on squared fixed-point
    /// distances the `>=` test is exact for a positive threshold, and a
    /// threshold at or below zero always counts as reached.
    open spec fn diff_at_least(&self, other: &Self, max_diff: &i64) -> bool {
        if *max_diff <= 0 {
            true
        } else {
            (self.x - other.x) * (self.x - other.x) + (self.y - other.y) * (self.y - other.y) + (
            self.z - other.z) * (self.z - other.z) >= *max_diff * *max_diff
        }
    }

    open spec fn diff_wf(&self, other: &Self, max_diff: &i64) -> bool {
        self.bounded(COORD_LIMIT as i64) && other.bounded(COORD_LIMIT as i64)
    }

    fn is_changed(&self, other: &Self, max_diff: &i64) -> (r: bool)
        ensures
            r == self.diff_at_least(other, max_diff),
    {
        if *max_diff <= 0 {
            true
        } else {
            let d2 = self.distance_sq(other);
            let eps = *max_diff as i128;
            proof {
                lemma_i64_prod_fits(eps, eps);
            }
            d2 >= eps * eps
        }
    }
}

} // verus!
