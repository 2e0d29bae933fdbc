//! Exact length quantities and integer helpers shared by the whole engine.

use vstd::prelude::*;
use vstd::std_specs::ops::{AddSpec, SubSpec};
use vstd::std_specs::ops::{DivSpec, MulSpec, NegSpec};

verus! {

pub const PICOMETERS_PER_NANOMETER: i128 = 1_000;

pub const PICOMETERS_PER_MICROMETER: i128 = 1_000_000;

pub const PICOMETERS_PER_MILLIMETER: i128 = 1_000_000_000;

pub const PICOMETERS_PER_METER: i128 = 1_000_000_000_000;

/// Largest magnitude of a coordinate of anything in the simulated world
/// (2^61 pm, about 2300 km); motion stops at this edge.
pub const WORLD_LIMIT: i128 = 0x2000_0000_0000_0000;

/// Floor of the square root of a natural number.
pub open spec fn is_isqrt(n: int, r: int) -> bool {
    0 <= r && r * r <= n < (r + 1) * (r + 1)
}

/// Integer square root, rounded down.
pub fn isqrt(n: u128) -> (r: u128)
    ensures
        is_isqrt(n as int, r as int),
{
    let mut lo: u128 = 0;
    let mut hi: u128 = 0x1_0000_0000_0000_0000;
    assert(hi * hi > n) by (nonlinear_arith)
        requires
            hi == 0x1_0000_0000_0000_0000u128,
            n <= u128::MAX,
    ;
    while hi - lo > 1
        invariant
            lo < hi <= 0x1_0000_0000_0000_0000u128,
            lo * lo <= n,
            n < hi * hi,
        decreases hi - lo,
    {
        let mid: u128 = lo + (hi - lo) / 2;
        assert(mid * mid < 0x1_0000_0000_0000_0000_0000_0000_0000_0000int) by (nonlinear_arith)
            requires
                mid < 0x1_0000_0000_0000_0000u128,
        ;
        if mid * mid <= n {
            lo = mid;
        } else {
            hi = mid;
        }
    }
    assert(hi == lo + 1);
    lo
}

/// The floor of the square root of a natural number.
pub open spec fn isqrt_spec(n: int) -> int
    decreases n,
{
    if n <= 0 {
        0
    } else {
        let r = isqrt_spec(n - 1);
        if (r + 1) * (r + 1) <= n {
            r + 1
        } else {
            r
        }
    }
}

pub proof fn lemma_isqrt_spec(n: int)
    requires
        n >= 0,
    ensures
        is_isqrt(n, isqrt_spec(n)),
    decreases n,
{
    if n > 0 {
        lemma_isqrt_spec(n - 1);
        let r = isqrt_spec(n - 1);
        assert((r + 1) * (r + 1) + 1 <= (r + 2) * (r + 2)) by (nonlinear_arith)
            requires
                r >= 0,
        ;
    }
}

pub proof fn lemma_isqrt_unique(n: int, r: int)
    requires
        is_isqrt(n, r),
    ensures
        isqrt_spec(n) == r,
{
    let s = isqrt_spec(n);
    lemma_isqrt_spec(n);
    if s < r {
        assert((s + 1) * (s + 1) <= r * r) by (nonlinear_arith)
            requires
                0 <= s,
                s + 1 <= r,
        ;
    } else if s > r {
        assert((r + 1) * (r + 1) <= s * s) by (nonlinear_arith)
            requires
                0 <= r,
                r + 1 <= s,
        ;
    }
}

/// Integer square root of a non-negative `i128`, rounded down.
pub fn exact_isqrt(n: i128) -> (r: i128)
    requires
        n >= 0,
    ensures
        r == isqrt_spec(n as int),
        is_isqrt(n as int, r as int),
        0 <= r < 0x1_0000_0000_0000_0000,
{
    let s = isqrt(n as u128);
    proof {
        lemma_isqrt_unique(n as int, s as int);
        assert(s < 0x1_0000_0000_0000_0000u128) by (nonlinear_arith)
            requires
                s * s <= n,
                n <= i128::MAX,
        ;
    }
    s as i128
}

/// `x` limited to the closed interval `[lo, hi]`.
pub open spec fn clamp_spec(x: int, lo: int, hi: int) -> int {
    if x < lo {
        lo
    } else if x > hi {
        hi
    } else {
        x
    }
}

/// Quotient rounded toward zero, as Rust's `/` on signed integers.
pub open spec fn div_trunc(a: int, b: int) -> int {
    if a >= 0 {
        a / b
    } else {
        -((-a) / b)
    }
}

/// `a / b` rounded toward zero, for a positive divisor.
pub fn div_toward_zero(a: i128, b: i128) -> (q: i128)
    requires
        b > 0,
        a > i128::MIN,
    ensures
        q == div_trunc(a as int, b as int),
{
    if a >= 0 {
        a / b
    } else {
        let m: i128 = -a;
        -(m / b)
    }
}

/// An exact signed length, counted in picometres.
#[derive(Clone, Copy, Debug, PartialEq, Eq, PartialOrd, Ord, Hash, Structural)]
pub struct Distance(pub i128);

impl View for Distance {
    type V = int;

    open spec fn view(&self) -> int {
        self.0 as int
    }
}

/// Whether `v` fits in the representation of a `Distance`.
pub open spec fn fits(v: int) -> bool {
    i128::MIN <= v <= i128::MAX
}

impl Distance {
    pub fn from_picometers(pm: i128) -> (r: Distance)
        ensures
            r@ == pm,
    {
        Distance(pm)
    }

    pub fn from_nanometers(nm: i128) -> (r: Distance)
        requires
            fits(nm * 1_000),
        ensures
            r@ == nm * 1_000,
    {
        Distance(nm * PICOMETERS_PER_NANOMETER)
    }

    pub fn from_micrometers(um: i128) -> (r: Distance)
        requires
            fits(um * 1_000_000),
        ensures
            r@ == um * 1_000_000,
    {
        Distance(um * PICOMETERS_PER_MICROMETER)
    }

    pub fn from_millimeters(mm: i128) -> (r: Distance)
        requires
            fits(mm * 1_000_000_000),
        ensures
            r@ == mm * 1_000_000_000,
    {
        Distance(mm * PICOMETERS_PER_MILLIMETER)
    }

    pub fn from_meters(m: i128) -> (r: Distance)
        requires
            fits(m * 1_000_000_000_000),
        ensures
            r@ == m * 1_000_000_000_000,
    {
        Distance(m * PICOMETERS_PER_METER)
    }

    pub fn as_picometers(&self) -> (r: i128)
        ensures
            r == self@,
    {
        self.0
    }

    pub fn zero() -> (r: Distance)
        ensures
            r@ == 0,
    {
        Distance(0)
    }

    pub fn abs(&self) -> (r: Distance)
        requires
            self@ > i128::MIN,
        ensures
            r@ == (if self@ < 0 { -self@ } else { self@ }),
    {
        if self.0 < 0 {
            Distance(-self.0)
        } else {
            *self
        }
    }
}

impl core::ops::Add for Distance {
    type Output = Distance;

    fn add(self, rhs: Distance) -> (r: Distance) {
        Distance(self.0 + rhs.0)
    }
}

impl vstd::std_specs::ops::AddSpecImpl for Distance {
    open spec fn obeys_add_spec() -> bool {
        true
    }

    open spec fn add_req(self, rhs: Distance) -> bool {
        fits(self@ + rhs@)
    }

    open spec fn add_spec(self, rhs: Distance) -> Distance {
        Distance((self@ + rhs@) as i128)
    }
}

impl core::ops::Sub for Distance {
    type Output = Distance;

    fn sub(self, rhs: Distance) -> (r: Distance) {
        Distance(self.0 - rhs.0)
    }
}

impl vstd::std_specs::ops::SubSpecImpl for Distance {
    open spec fn obeys_sub_spec() -> bool {
        true
    }

    open spec fn sub_req(self, rhs: Distance) -> bool {
        fits(self@ - rhs@)
    }

    open spec fn sub_spec(self, rhs: Distance) -> Distance {
        Distance((self@ - rhs@) as i128)
    }
}

impl core::ops::Neg for Distance {
    type Output = Distance;

    fn neg(self) -> (r: Distance) {
        Distance(-self.0)
    }
}

impl vstd::std_specs::ops::NegSpecImpl for Distance {
    open spec fn obeys_neg_spec() -> bool {
        true
    }

    open spec fn neg_req(self) -> bool {
        self@ > i128::MIN
    }

    open spec fn neg_spec(self) -> Distance {
        Distance((-self@) as i128)
    }
}

impl core::ops::Mul<i128> for Distance {
    type Output = Distance;

    fn mul(self, rhs: i128) -> (r: Distance) {
        Distance(self.0 * rhs)
    }
}

impl vstd::std_specs::ops::MulSpecImpl<i128> for Distance {
    open spec fn obeys_mul_spec() -> bool {
        true
    }

    open spec fn mul_req(self, rhs: i128) -> bool {
        fits(self@ * rhs)
    }

    open spec fn mul_spec(self, rhs: i128) -> Distance {
        Distance((self@ * rhs) as i128)
    }
}

impl core::ops::Div<i128> for Distance {
    type Output = Distance;

    /// Division rounds toward zero.
    fn div(self, rhs: i128) -> (r: Distance) {
        if self.0 >= 0 {
            if rhs > 0 {
                Distance(self.0 / rhs)
            } else {
                let m: i128 = -rhs;
                Distance(-(self.0 / m))
            }
        } else {
            let a: i128 = -self.0;
            if rhs > 0 {
                Distance(-(a / rhs))
            } else {
                let m: i128 = -rhs;
                Distance(a / m)
            }
        }
    }
}

impl vstd::std_specs::ops::DivSpecImpl<i128> for Distance {
    open spec fn obeys_div_spec() -> bool {
        true
    }

    open spec fn div_req(self, rhs: i128) -> bool {
        rhs != 0 && self@ > i128::MIN && rhs > i128::MIN
    }

    open spec fn div_spec(self, rhs: i128) -> Distance {
        if rhs > 0 {
            Distance(div_trunc(self@, rhs as int) as i128)
        } else {
            Distance(div_trunc(-self@, -rhs) as i128)
        }
    }
}

/// A point in space: three exact coordinates.
#[derive(Clone, Copy, Debug, PartialEq, Eq, Hash, Structural)]
pub struct Position3D {
    pub x: Distance,
    pub y: Distance,
    pub z: Distance,
}

/// Whether every coordinate of `p` lies within the simulated world.
pub open spec fn in_world(p: Position3D) -> bool {
    -WORLD_LIMIT <= p.x@ <= WORLD_LIMIT && -WORLD_LIMIT <= p.y@ <= WORLD_LIMIT && -WORLD_LIMIT
        <= p.z@ <= WORLD_LIMIT
}

/// Squared Euclidean distance between two points, in square picometres.
pub open spec fn dist_sq(a: Position3D, b: Position3D) -> int {
    (a.x@ - b.x@) * (a.x@ - b.x@) + (a.y@ - b.y@) * (a.y@ - b.y@) + (a.z@ - b.z@) * (a.z@
        - b.z@)
}

/// Largest coordinate gap that `distance_to` can measure (2^62 pm).
pub const GAP_LIMIT: i128 = 0x4000_0000_0000_0000;

/// Whether two points are close enough, coordinate by coordinate, for their
/// squared distance to be held in 128 bits.
pub open spec fn measurable(a: Position3D, b: Position3D) -> bool {
    -GAP_LIMIT <= a.x@ - b.x@ <= GAP_LIMIT && -GAP_LIMIT <= a.y@ - b.y@ <= GAP_LIMIT && -GAP_LIMIT
        <= a.z@ - b.z@ <= GAP_LIMIT
}

proof fn lemma_square_bound(d: int)
    requires
        -GAP_LIMIT <= d <= GAP_LIMIT,
    ensures
        0 <= d * d <= GAP_LIMIT * GAP_LIMIT,
{
    assert(0 <= d * d <= GAP_LIMIT * GAP_LIMIT) by (nonlinear_arith)
        requires
            -GAP_LIMIT <= d <= GAP_LIMIT,
    ;
}

/// Squared distance between two measurable points, computed exactly.
pub fn distance_squared(a: &Position3D, b: &Position3D) -> (r: u128)
    requires
        measurable(*a, *b),
    ensures
        r == dist_sq(*a, *b),
{
    let dx: i128 = a.x.0 - b.x.0;
    let dy: i128 = a.y.0 - b.y.0;
    let dz: i128 = a.z.0 - b.z.0;
    proof {
        lemma_square_bound(dx as int);
        lemma_square_bound(dy as int);
        lemma_square_bound(dz as int);
    }
    let sx: u128 = (dx * dx) as u128;
    let sy: u128 = (dy * dy) as u128;
    let sz: u128 = (dz * dz) as u128;
    sx + sy + sz
}

/// Any two points of the world are close enough to measure.
pub proof fn lemma_world_points_measurable(a: Position3D, b: Position3D)
    requires
        in_world(a),
        in_world(b),
    ensures
        measurable(a, b),
{
}

impl Position3D {
    pub fn new(x: Distance, y: Distance, z: Distance) -> (r: Position3D)
        ensures
            r == (Position3D { x, y, z }),
    {
        Position3D { x, y, z }
    }

    pub fn zero() -> (r: Position3D)
        ensures
            r.x@ == 0 && r.y@ == 0 && r.z@ == 0,
    {
        Position3D { x: Distance(0), y: Distance(0), z: Distance(0) }
    }

    /// Euclidean distance to `other`, rounded down to a whole picometre.
    pub fn distance_to(&self, other: &Position3D) -> (r: Distance)
        requires
            measurable(*self, *other),
        ensures
            is_isqrt(dist_sq(*self, *other), r@),
    {
        let sq = distance_squared(self, other);
        let root = isqrt(sq);
        assert(root < 0x1_0000_0000_0000_0000u128) by (nonlinear_arith)
            requires
                root * root <= sq,
                sq <= u128::MAX,
        ;
        Distance(root as i128)
    }
}

impl core::ops::Add for Position3D {
    type Output = Position3D;

    fn add(self, rhs: Position3D) -> (r: Position3D) {
        Position3D { x: self.x + rhs.x, y: self.y + rhs.y, z: self.z + rhs.z }
    }
}

impl vstd::std_specs::ops::AddSpecImpl for Position3D {
    open spec fn obeys_add_spec() -> bool {
        true
    }

    open spec fn add_req(self, rhs: Position3D) -> bool {
        fits(self.x@ + rhs.x@) && fits(self.y@ + rhs.y@) && fits(self.z@ + rhs.z@)
    }

    open spec fn add_spec(self, rhs: Position3D) -> Position3D {
        Position3D {
            x: Distance((self.x@ + rhs.x@) as i128),
            y: Distance((self.y@ + rhs.y@) as i128),
            z: Distance((self.z@ + rhs.z@) as i128),
        }
    }
}

impl core::ops::Sub for Position3D {
    type Output = Position3D;

    fn sub(self, rhs: Position3D) -> (r: Position3D) {
        Position3D { x: self.x - rhs.x, y: self.y - rhs.y, z: self.z - rhs.z }
    }
}

impl vstd::std_specs::ops::SubSpecImpl for Position3D {
    open spec fn obeys_sub_spec() -> bool {
        true
    }

    open spec fn sub_req(self, rhs: Position3D) -> bool {
        fits(self.x@ - rhs.x@) && fits(self.y@ - rhs.y@) && fits(self.z@ - rhs.z@)
    }

    open spec fn sub_spec(self, rhs: Position3D) -> Position3D {
        Position3D {
            x: Distance((self.x@ - rhs.x@) as i128),
            y: Distance((self.y@ - rhs.y@) as i128),
            z: Distance((self.z@ - rhs.z@) as i128),
        }
    }
}

/// Adding and then removing the same length gives back the first
/// length exactly: no rounding ever enters `Distance` arithmetic.
pub proof fn lemma_add_sub_exact(a: Distance, b: Distance)
    requires
        fits(a@ + b@),
    ensures
        a.add_spec(b).sub_req(b),
        a.add_spec(b).sub_spec(b) == a,
{
}

} // verus!
