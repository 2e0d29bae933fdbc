//! Integer three-vectors for velocities, directions and surface normals.

use vstd::prelude::*;
use crate::units::{div_trunc, clamp_spec, isqrt, is_isqrt, isqrt_spec, exact_isqrt};

verus! {

/// Fixed-point scale of a direction: a component of `UNIT` stands for 1.
pub const UNIT: i64 = 1_000_000;

/// Largest magnitude of a component handed to `direction_of` (2^100).
pub const DIRECTION_INPUT_LIMIT: i128 = 0x10_0000_0000_0000_0000_0000_0000;

#[derive(Clone, Copy, Debug, PartialEq, Eq, Hash, Structural)]
pub struct Vector3 {
    pub x: i64,
    pub y: i64,
    pub z: i64,
}

pub open spec fn dot(a: Vector3, b: Vector3) -> int {
    a.x * b.x + a.y * b.y + a.z * b.z
}

pub open spec fn abs_spec(v: int) -> int {
    if v < 0 {
        -v
    } else {
        v
    }
}

pub open spec fn max3(a: int, b: int, c: int) -> int {
    if a >= b && a >= c {
        a
    } else if b >= c {
        b
    } else {
        c
    }
}

/// A nonzero vector whose components lie within `[-UNIT, UNIT]`.
pub open spec fn is_direction(d: Vector3) -> bool {
    -UNIT <= d.x <= UNIT && -UNIT <= d.y <= UNIT && -UNIT <= d.z <= UNIT && !(d.x == 0 && d.y
        == 0 && d.z == 0)
}

/// `v` scaled so that its largest component has magnitude `UNIT`
/// (each component rounded toward zero).
pub open spec fn direction_spec(x: int, y: int, z: int) -> Vector3 {
    let m = max3(abs_spec(x), abs_spec(y), abs_spec(z));
    Vector3 {
        x: div_trunc(x * UNIT, m) as i64,
        y: div_trunc(y * UNIT, m) as i64,
        z: div_trunc(z * UNIT, m) as i64,
    }
}

/// The value of `v` limited to the range of `i64`.
pub open spec fn saturate_spec(v: int) -> i64 {
    clamp_spec(v, i64::MIN as int, i64::MAX as int) as i64
}

pub fn saturate(v: i128) -> (r: i64)
    ensures
        r == saturate_spec(v as int),
{
    if v < i64::MIN as i128 {
        i64::MIN
    } else if v > i64::MAX as i128 {
        i64::MAX
    } else {
        v as i64
    }
}

pub fn abs128(v: i128) -> (r: i128)
    requires
        v > i128::MIN,
    ensures
        r == abs_spec(v as int),
{
    if v < 0 {
        -v
    } else {
        v
    }
}

proof fn lemma_scaled_component(c: int, m: int)
    requires
        0 < m,
        abs_spec(c) <= m,
    ensures
        -UNIT <= div_trunc(c * UNIT, m) <= UNIT,
        abs_spec(c) == m ==> abs_spec(div_trunc(c * UNIT, m)) == UNIT,
{
    let u = UNIT as int;
    if c >= 0 {
        assert(c * u <= m * u) by (nonlinear_arith)
            requires
                0 <= c <= m,
                u > 0,
        ;
        assert(c * u >= 0) by (nonlinear_arith)
            requires
                0 <= c,
                u > 0,
        ;
        vstd::arithmetic::div_mod::lemma_div_is_ordered(c * u, m * u, m);
        vstd::arithmetic::div_mod::lemma_div_by_multiple(u, m);
        assert(m * u == u * m) by (nonlinear_arith);
        vstd::arithmetic::div_mod::lemma_div_pos_is_pos(c * u, m);
    } else {
        let a = -c;
        assert(a * u <= m * u) by (nonlinear_arith)
            requires
                0 < a <= m,
                u > 0,
        ;
        assert(a * u > 0) by (nonlinear_arith)
            requires
                0 < a,
                u > 0,
        ;
        assert(c * u == -(a * u)) by (nonlinear_arith)
            requires
                a == -c,
        ;
        vstd::arithmetic::div_mod::lemma_div_is_ordered(a * u, m * u, m);
        vstd::arithmetic::div_mod::lemma_div_by_multiple(u, m);
        assert(m * u == u * m) by (nonlinear_arith);
        vstd::arithmetic::div_mod::lemma_div_pos_is_pos(a * u, m);
    }
}

/// The direction of a nonzero vector, scaled so that its largest component
/// is `UNIT` in magnitude; `None` for the zero vector.
pub fn direction_of(x: i128, y: i128, z: i128) -> (r: Option<Vector3>)
    requires
        -DIRECTION_INPUT_LIMIT <= x <= DIRECTION_INPUT_LIMIT,
        -DIRECTION_INPUT_LIMIT <= y <= DIRECTION_INPUT_LIMIT,
        -DIRECTION_INPUT_LIMIT <= z <= DIRECTION_INPUT_LIMIT,
    ensures
        r is None <==> (x == 0 && y == 0 && z == 0),
        r matches Some(d) ==> d == direction_spec(x as int, y as int, z as int) && is_direction(d),
{
    let ax = abs128(x);
    let ay = abs128(y);
    let az = abs128(z);
    let m: i128 = if ax >= ay && ax >= az {
        ax
    } else if ay >= az {
        ay
    } else {
        az
    };
    if m == 0 {
        return None;
    }
    let u = UNIT as i128;
    proof {
        lemma_scaled_component(x as int, m as int);
        lemma_scaled_component(y as int, m as int);
        lemma_scaled_component(z as int, m as int);
    }
    let dx = crate::units::div_toward_zero(x * u, m);
    let dy = crate::units::div_toward_zero(y * u, m);
    let dz = crate::units::div_toward_zero(z * u, m);
    Some(Vector3 { x: dx as i64, y: dy as i64, z: dz as i64 })
}

/// `u` rescaled to Euclidean length `UNIT`: each component
/// `u_i * UNIT / floor(sqrt(u.u))`, rounded toward zero, so the length is
/// `UNIT` up to rounding.
pub open spec fn unit_spec(u: Vector3) -> Vector3 {
    let s = isqrt_spec(dot(u, u));
    Vector3 {
        x: div_trunc(u.x * UNIT, s) as i64,
        y: div_trunc(u.y * UNIT, s) as i64,
        z: div_trunc(u.z * UNIT, s) as i64,
    }
}

proof fn lemma_component_below_root(c: int, t: int, s: int)
    requires
        0 <= c * c <= t,
        0 <= s,
        t < (s + 1) * (s + 1),
    ensures
        abs_spec(c) <= s,
{
    if abs_spec(c) > s {
        assert(c * c >= (s + 1) * (s + 1)) by (nonlinear_arith)
            requires
                abs_spec(c) >= s + 1,
                s >= 0,
                abs_spec(c) == (if c < 0 { -c } else { c }),
        ;
    }
}

/// A direction rescaled to Euclidean length `UNIT`, as `unit_spec`.
pub fn unit_of(u: &Vector3) -> (r: Vector3)
    requires
        is_direction(*u),
    ensures
        r == unit_spec(*u),
        is_direction(r),
{
    assert(0 <= u.x * u.x <= 1_000_000_000_000) by (nonlinear_arith)
        requires
            -1_000_000 <= u.x <= 1_000_000,
    ;
    assert(0 <= u.y * u.y <= 1_000_000_000_000) by (nonlinear_arith)
        requires
            -1_000_000 <= u.y <= 1_000_000,
    ;
    assert(0 <= u.z * u.z <= 1_000_000_000_000) by (nonlinear_arith)
        requires
            -1_000_000 <= u.z <= 1_000_000,
    ;
    let t: i128 = (u.x as i128) * (u.x as i128) + (u.y as i128) * (u.y as i128) + (u.z as i128) * (u.z as i128);
    let s = exact_isqrt(t);
    proof {
        lemma_component_below_root(u.x as int, t as int, s as int);
        lemma_component_below_root(u.y as int, t as int, s as int);
        lemma_component_below_root(u.z as int, t as int, s as int);
        let m = max3(abs_spec(u.x as int), abs_spec(u.y as int), abs_spec(u.z as int));
        assert(m >= 1);
        assert(t <= 3 * m * m) by (nonlinear_arith)
            requires
                t == u.x * u.x + u.y * u.y + u.z * u.z,
                abs_spec(u.x as int) <= m,
                abs_spec(u.y as int) <= m,
                abs_spec(u.z as int) <= m,
                abs_spec(u.x as int) == (if u.x < 0 { -u.x } else { u.x as int }),
                abs_spec(u.y as int) == (if u.y < 0 { -u.y } else { u.y as int }),
                abs_spec(u.z as int) == (if u.z < 0 { -u.z } else { u.z as int }),
        ;
        assert(1 <= s <= 2 * m) by (nonlinear_arith)
            requires
                s * s <= t,
                t <= 3 * m * m,
                t >= 1,
                t < (s + 1) * (s + 1),
                s >= 0,
                m >= 1,
        ;
        assert(m * UNIT >= s) by (nonlinear_arith)
            requires
                s <= 2 * m,
                m >= 1,
        ;
        if abs_spec(u.x as int) == m {
            lemma_big_component(u.x as int, s as int, m);
        } else if abs_spec(u.y as int) == m {
            lemma_big_component(u.y as int, s as int, m);
        } else {
            lemma_big_component(u.z as int, s as int, m);
        }
        lemma_scaled_component(u.x as int, s as int);
        lemma_scaled_component(u.y as int, s as int);
        lemma_scaled_component(u.z as int, s as int);
    }
    let ux = crate::units::div_toward_zero((u.x as i128) * (UNIT as i128), s);
    let uy = crate::units::div_toward_zero((u.y as i128) * (UNIT as i128), s);
    let uz = crate::units::div_toward_zero((u.z as i128) * (UNIT as i128), s);
    Vector3 { x: ux as i64, y: uy as i64, z: uz as i64 }
}

proof fn lemma_big_component(c: int, s: int, m: int)
    requires
        abs_spec(c) == m,
        m * UNIT >= s,
        s >= 1,
    ensures
        div_trunc(c * UNIT, s) != 0,
{
    let a = abs_spec(c) * UNIT;
    vstd::arithmetic::div_mod::lemma_div_is_ordered(s, a, s);
    vstd::arithmetic::div_mod::lemma_div_by_self(s);
    assert(c * UNIT == (if c < 0 { -a } else { a })) by (nonlinear_arith)
        requires
            a == abs_spec(c) * UNIT,
            abs_spec(c) == (if c < 0 { -c } else { c }),
    ;
}

/// Dot product of two vectors, exact.
pub fn dot_exact(a: &Vector3, b: &Vector3) -> (r: i128)
    requires
        -0x100000 <= b.x <= 0x100000,
        -0x100000 <= b.y <= 0x100000,
        -0x100000 <= b.z <= 0x100000,
    ensures
        r == dot(*a, *b),
        -0x80_0000_0000_0000_0000_0000 <= r <= 0x80_0000_0000_0000_0000_0000,
{
    proof {
        lemma_small_product(a.x as int, b.x as int);
        lemma_small_product(a.y as int, b.y as int);
        lemma_small_product(a.z as int, b.z as int);
    }
    (a.x as i128) * (b.x as i128) + (a.y as i128) * (b.y as i128) + (a.z as i128) * (b.z as i128)
}

proof fn lemma_small_product(a: int, b: int)
    requires
        i64::MIN <= a <= i64::MAX,
        -0x100000 <= b <= 0x100000,
    ensures
        -0x8_0000_0000_0000_0000_0000 <= a * b <= 0x8_0000_0000_0000_0000_0000,
{
    assert(-0x8_0000_0000_0000_0000_0000 <= a * b <= 0x8_0000_0000_0000_0000_0000)
        by (nonlinear_arith)
        requires
            -0x8000_0000_0000_0000 <= a <= 0x8000_0000_0000_0000,
            -0x100000 <= b <= 0x100000,
    ;
}

/// Specular reflection of `v` about the plane with normal `n`:
/// `v - 2 (v.n) n / (n.n)`, each component rounded toward zero and held
/// in the range of `i64`.
pub open spec fn reflect_spec(v: Vector3, n: Vector3) -> Vector3 {
    let k = 2 * dot(v, n);
    let nn = dot(n, n);
    Vector3 {
        x: saturate_spec(v.x - div_trunc(k * n.x, nn)),
        y: saturate_spec(v.y - div_trunc(k * n.y, nn)),
        z: saturate_spec(v.z - div_trunc(k * n.z, nn)),
    }
}

/// Size bounds on a direction and its squared length.
pub proof fn lemma_direction_bounds(d: Vector3)
    requires
        is_direction(d),
    ensures
        1 <= dot(d, d) <= 3_000_000_000_000,
        0 <= d.x * d.x <= 1_000_000_000_000,
        0 <= d.y * d.y <= 1_000_000_000_000,
        0 <= d.z * d.z <= 1_000_000_000_000,
{
    assert(0 <= d.x * d.x <= 1_000_000_000_000) by (nonlinear_arith)
        requires
            -1_000_000 <= d.x <= 1_000_000,
    ;
    assert(0 <= d.y * d.y <= 1_000_000_000_000) by (nonlinear_arith)
        requires
            -1_000_000 <= d.y <= 1_000_000,
    ;
    assert(0 <= d.z * d.z <= 1_000_000_000_000) by (nonlinear_arith)
        requires
            -1_000_000 <= d.z <= 1_000_000,
    ;
    if d.x != 0 {
        assert(d.x * d.x >= 1) by (nonlinear_arith)
            requires
                d.x != 0,
        ;
    } else if d.y != 0 {
        assert(d.y * d.y >= 1) by (nonlinear_arith)
            requires
                d.y != 0,
        ;
    } else {
        assert(d.z * d.z >= 1) by (nonlinear_arith)
            requires
                d.z != 0,
        ;
    }
}

fn reflect_component(v: i64, k: i128, n: i64, nn: i128) -> (r: i64)
    requires
        -0x100_0000_0000_0000_0000_0000 <= k <= 0x100_0000_0000_0000_0000_0000,
        -UNIT <= n <= UNIT,
        nn > 0,
    ensures
        r == saturate_spec(v - div_trunc(k * n, nn as int)),
{
    assert(-0x1000_0000_0000_0000_0000_0000_0000 <= k * n <= 0x1000_0000_0000_0000_0000_0000_0000)
        by (nonlinear_arith)
        requires
            -0x100_0000_0000_0000_0000_0000 <= k <= 0x100_0000_0000_0000_0000_0000,
            -1_000_000 <= n <= 1_000_000,
    ;
    let q = crate::units::div_toward_zero(k * (n as i128), nn);
    proof {
        vstd::arithmetic::div_mod::lemma_div_is_ordered(
            abs_spec(k * n),
            0x1000_0000_0000_0000_0000_0000_0000,
            nn as int,
        );
        vstd::arithmetic::div_mod::lemma_div_is_ordered(1, nn as int, 0x1000_0000_0000_0000_0000_0000_0000);
        vstd::arithmetic::div_mod::lemma_div_pos_is_pos(abs_spec(k * n), nn as int);
        vstd::arithmetic::div_mod::lemma_div_by_self(nn as int);
    }
    saturate((v as i128) - q)
}

/// Specular reflection of a velocity about a surface normal.
pub fn reflect(v: &Vector3, n: &Vector3) -> (r: Vector3)
    requires
        is_direction(*n),
    ensures
        r == reflect_spec(*v, *n),
{
    proof {
        lemma_direction_bounds(*n);
    }
    let vn = dot_exact(v, n);
    let nn = dot_exact(n, n);
    let k = 2 * vn;
    Vector3 {
        x: reflect_component(v.x, k, n.x, nn),
        y: reflect_component(v.y, k, n.y, nn),
        z: reflect_component(v.z, k, n.z, nn),
    }
}

/// Euclidean length of `v`, rounded down.
pub fn length(v: &Vector3) -> (r: u64)
    ensures
        is_isqrt(dot(*v, *v), r as int),
{
    assert(0 <= v.x * v.x <= 0x4000_0000_0000_0000_0000_0000_0000_0000) by (nonlinear_arith)
        requires
            i64::MIN <= v.x <= i64::MAX,
    ;
    assert(0 <= v.y * v.y <= 0x4000_0000_0000_0000_0000_0000_0000_0000) by (nonlinear_arith)
        requires
            i64::MIN <= v.y <= i64::MAX,
    ;
    assert(0 <= v.z * v.z <= 0x4000_0000_0000_0000_0000_0000_0000_0000) by (nonlinear_arith)
        requires
            i64::MIN <= v.z <= i64::MAX,
    ;
    let sx = ((v.x as i128) * (v.x as i128)) as u128;
    let sy = ((v.y as i128) * (v.y as i128)) as u128;
    let sz = ((v.z as i128) * (v.z as i128)) as u128;
    let root = isqrt(sx + sy + sz);
    assert(root < 0x1_0000_0000_0000_0000u128) by (nonlinear_arith)
        requires
            root * root <= sx + sy + sz,
            sx + sy + sz <= u128::MAX,
    ;
    root as u64
}

} // verus!

verus! {

/// `v` held at `u128::MAX`.
pub open spec fn min_spec_u128(v: int) -> int {
    if v > u128::MAX {
        u128::MAX as int
    } else {
        v
    }
}

/// `v` held at `u64::MAX`.
pub open spec fn min_u64(v: int) -> u64 {
    if v > u64::MAX {
        u64::MAX
    } else {
        v as u64
    }
}

} // verus!
