//! Mirror surface geometry: outward normals and ray intersections.
//!
//! Geometry is computed in nanometres inside the optical domain, a cube of
//! half-width `OPTICS_LIMIT` around the origin; rays or surfaces outside it
//! report no intersection.

use vstd::prelude::*;
use crate::world::{World, EntityRecord};
use crate::components::{Position, OpticalMaterial, ThermalState, EntityType, AMBIENT};
use crate::units::{in_world, Distance, Position3D, div_trunc, div_toward_zero, isqrt_spec, lemma_isqrt_spec, exact_isqrt};
use crate::vector::{
    Vector3, UNIT, dot, is_direction, direction_of, direction_spec, DIRECTION_INPUT_LIMIT, unit_spec, unit_of, lemma_direction_bounds,
};

verus! {

/// Half-width of the optical domain, in nanometres (2^36 nm, about 68 m).
pub const OPTICS_LIMIT: i128 = 0x10_0000_0000;

/// Largest radius or semi-axis a traced surface may have, in nanometres.
pub const RADIUS_LIMIT: i128 = 0x20_0000_0000;

/// A ray counts as parallel to a plane when the cosine between its
/// direction and the plane's unit normal is below `1 / PARALLEL_INVERSE`
/// (10^-6). With the normal at length `UNIT` = 10^6 that is
/// `|n.d| < |d|`.
pub const PARALLEL_INVERSE: i128 = 1_000_000;

/// Scale applied to the gradient of an ellipsoid before it is normalized
/// (2^78), which keeps about 40 bits at a surface of metre size.
pub const GRADIENT_SCALE: i128 = 0x4000_0000_0000_0000_0000;

/// Half-width, in picometres, of the cube in which normals are computed
/// (2^46 pm, about 70 m, which holds the optical domain).
pub const NORMAL_LIMIT: i128 = 0x4000_0000_0000;

/// Smallest ellipsoid semi-axis for which a normal is computed, in
/// picometres (2^13 pm, about 8 nm).
pub const AXIS_MIN: i128 = 0x2000;

/// Largest ellipsoid semi-axis for which a normal is computed, in
/// picometres (2^47 pm).
pub const AXIS_MAX: i128 = 0x8000_0000_0000;

/// A point in nanometres.
#[derive(Clone, Copy, Debug, PartialEq, Eq, Structural)]
pub struct NanoPoint {
    pub x: i128,
    pub y: i128,
    pub z: i128,
}

pub open spec fn nm_spec(d: Distance) -> int {
    div_trunc(d@, 1000)
}

pub open spec fn to_nano_spec(p: Position3D) -> NanoPoint {
    NanoPoint { x: nm_spec(p.x) as i128, y: nm_spec(p.y) as i128, z: nm_spec(p.z) as i128 }
}

pub open spec fn in_optics(p: NanoPoint) -> bool {
    -OPTICS_LIMIT <= p.x <= OPTICS_LIMIT && -OPTICS_LIMIT <= p.y <= OPTICS_LIMIT && -OPTICS_LIMIT
        <= p.z <= OPTICS_LIMIT
}

pub open spec fn from_nano_spec(p: NanoPoint) -> Position3D {
    Position3D {
        x: Distance((p.x * 1000) as i128),
        y: Distance((p.y * 1000) as i128),
        z: Distance((p.z * 1000) as i128),
    }
}

fn nanometers(d: Distance) -> (r: i128)
    ensures
        r == nm_spec(d),
{
    d.0 / 1000
}

/// A point converted to nanometres, rounding toward zero.
pub fn to_nano(p: &Position3D) -> (r: NanoPoint)
    ensures
        r == to_nano_spec(*p),
{
    NanoPoint { x: nanometers(p.x), y: nanometers(p.y), z: nanometers(p.z) }
}

fn from_nano(p: &NanoPoint) -> (r: Position3D)
    requires
        in_optics(*p),
    ensures
        r == from_nano_spec(*p),
        crate::units::in_world(r),
{
    Position3D { x: Distance(p.x * 1000), y: Distance(p.y * 1000), z: Distance(p.z * 1000) }
}

pub open spec fn ndot(a: NanoPoint, d: Vector3) -> int {
    a.x * d.x + a.y * d.y + a.z * d.z
}

pub open spec fn nsq(a: NanoPoint) -> int {
    a.x * a.x + a.y * a.y + a.z * a.z
}

pub open spec fn nsub(a: NanoPoint, b: NanoPoint) -> NanoPoint {
    NanoPoint { x: (a.x - b.x) as i128, y: (a.y - b.y) as i128, z: (a.z - b.z) as i128 }
}

/// Intersection of a ray with a surface: where it strikes and how far
/// along the ray that is.
#[derive(Clone, Copy, Debug, PartialEq, Eq, Structural)]
pub struct SurfaceHit {
    pub point: Position3D,
    pub distance: Distance,
}

/// Nearest positive intersection of the ray `o + t d` with the sphere of
/// radius `r` about `c`, all in nanometres. With `oc = o - c`,
/// `h = oc.d`, `a = d.d` and `q = h^2 - a (oc.oc - r^2)`, the ray meets the
/// sphere when `q >= 0`. The roots are `t = (-h -/+ sqrt q) / a`; the
/// nearest strictly positive one is taken (the far root when the ray starts
/// inside the sphere). The distance is `(-h - sqrt q) / sqrt a`.
pub open spec fn sphere_hit_spec(o: NanoPoint, d: Vector3, c: NanoPoint, r: int) -> Option<(int, NanoPoint)> {
    let oc = nsub(o, c);
    let h = ndot(oc, d);
    let a = dot(d, d);
    let q = h * h - a * (nsq(oc) - r * r);
    if q < 0 {
        None
    } else {
        let near = -h - isqrt_spec(q);
        let num = if near > 0 { near } else { -h + isqrt_spec(q) };
        if num <= 0 {
            None
        } else {
            let p = NanoPoint {
                x: (o.x + div_trunc(d.x * num, a)) as i128,
                y: (o.y + div_trunc(d.y * num, a)) as i128,
                z: (o.z + div_trunc(d.z * num, a)) as i128,
            };
            if in_optics(p) {
                Some((num / isqrt_spec(a), p))
            } else {
                None
            }
        }
    }
}

/// Nearest positive intersection of the ray `o + t d` with the plane
/// through the origin with normal `n` (of length `UNIT`, see `unit_spec`):
/// `t = -(n.o) / (n.d)`, rejected when the ray is parallel to the plane
/// (`|n.d| < |d|`, a cosine below 10^-6) or `t` is not positive. The
/// distance is `t |d|`.
pub open spec fn plane_hit_spec(o: NanoPoint, d: Vector3, n: Vector3) -> Option<(int, NanoPoint)> {
    let den0 = dot(n, d);
    let num0 = -ndot(o, n);
    let den = if den0 < 0 { -den0 } else { den0 };
    let num = if den0 < 0 { -num0 } else { num0 };
    if den < isqrt_spec(dot(d, d)) || num <= 0 {
        None
    } else {
        let p = NanoPoint {
            x: (o.x + div_trunc(d.x * num, den)) as i128,
            y: (o.y + div_trunc(d.y * num, den)) as i128,
            z: (o.z + div_trunc(d.z * num, den)) as i128,
        };
        if in_optics(p) {
            Some((num * isqrt_spec(dot(d, d)) / den, p))
        } else {
            None
        }
    }
}


/// Bound on a product of a coordinate gap and a direction component.
proof fn lemma_gap_times_dir(g: int, c: int)
    requires
        -0x20_0000_0000 <= g <= 0x20_0000_0000,
        -1_000_000 <= c <= 1_000_000,
    ensures
        -0x20_0000_0000 * 1_000_000 <= g * c <= 0x20_0000_0000 * 1_000_000,
{
    assert(-0x20_0000_0000 * 1_000_000 <= g * c <= 0x20_0000_0000 * 1_000_000) by (nonlinear_arith)
        requires
            -0x20_0000_0000 <= g <= 0x20_0000_0000,
            -1_000_000 <= c <= 1_000_000,
    ;
}

proof fn lemma_gap_square(g: int)
    requires
        -0x20_0000_0000 <= g <= 0x20_0000_0000,
    ensures
        0 <= g * g <= 0x20_0000_0000 * 0x20_0000_0000,
{
    assert(0 <= g * g <= 0x20_0000_0000 * 0x20_0000_0000) by (nonlinear_arith)
        requires
            -0x20_0000_0000 <= g <= 0x20_0000_0000,
    ;
}

/// Point `o + d * num / den` (each component rounded toward zero), if it
/// lies in the optical domain.
fn point_along(o: &NanoPoint, d: &Vector3, num: i128, den: i128) -> (r: Option<NanoPoint>)
    requires
        in_optics(*o),
        is_direction(*d),
        0 < num <= 0x1_0000_0000_0000_0000_0000,
        den > 0,
    ensures
        r == ({
            let p = NanoPoint {
                x: (o.x + div_trunc(d.x * num, den as int)) as i128,
                y: (o.y + div_trunc(d.y * num, den as int)) as i128,
                z: (o.z + div_trunc(d.z * num, den as int)) as i128,
            };
            if in_optics(p) {
                Some(p)
            } else {
                None
            }
        }),
{
    proof {
        lemma_step_bound(d.x as int, num as int, den as int);
        lemma_step_bound(d.y as int, num as int, den as int);
        lemma_step_bound(d.z as int, num as int, den as int);
    }
    let x = o.x + div_toward_zero((d.x as i128) * num, den);
    let y = o.y + div_toward_zero((d.y as i128) * num, den);
    let z = o.z + div_toward_zero((d.z as i128) * num, den);
    let p = NanoPoint { x, y, z };
    if -OPTICS_LIMIT <= x && x <= OPTICS_LIMIT && -OPTICS_LIMIT <= y && y <= OPTICS_LIMIT
        && -OPTICS_LIMIT <= z && z <= OPTICS_LIMIT {
        Some(p)
    } else {
        None
    }
}

proof fn lemma_step_bound(c: int, num: int, den: int)
    requires
        -1_000_000 <= c <= 1_000_000,
        0 < num <= 0x1_0000_0000_0000_0000_0000,
        den > 0,
    ensures
        -0x10_0000_0000_0000_0000_0000_0000 <= c * num <= 0x10_0000_0000_0000_0000_0000_0000,
        -0x10_0000_0000_0000_0000_0000_0000 <= div_trunc(c * num, den) <= 0x10_0000_0000_0000_0000_0000_0000,
{
    assert(-0x10_0000_0000_0000_0000_0000_0000 <= c * num <= 0x10_0000_0000_0000_0000_0000_0000)
        by (nonlinear_arith)
        requires
            -1_000_000 <= c <= 1_000_000,
            0 < num <= 0x1_0000_0000_0000_0000_0000,
    ;
    let x = c * num;
    if x >= 0 {
        vstd::arithmetic::div_mod::lemma_div_is_ordered_by_denominator(x, 1, den);
        vstd::arithmetic::div_mod::lemma_div_pos_is_pos(x, den);
    } else {
        vstd::arithmetic::div_mod::lemma_div_is_ordered_by_denominator(-x, 1, den);
        vstd::arithmetic::div_mod::lemma_div_pos_is_pos(-x, den);
    }
}

/// Nearest positive intersection with a sphere, as `sphere_hit_spec`.
pub fn ray_sphere_hit(o: &NanoPoint, d: &Vector3, c: &NanoPoint, r: i128) -> (res: Option<(i128, NanoPoint)>)
    requires
        in_optics(*o),
        in_optics(*c),
        is_direction(*d),
        0 <= r <= RADIUS_LIMIT,
    ensures
        res matches Some((dist, p)) ==> sphere_hit_spec(*o, *d, *c, r as int) == Some((dist as int, p)),
        res is None ==> sphere_hit_spec(*o, *d, *c, r as int) is None,
{
    let ocx = o.x - c.x;
    let ocy = o.y - c.y;
    let ocz = o.z - c.z;
    let oc = NanoPoint { x: ocx, y: ocy, z: ocz };
    proof {
        lemma_gap_times_dir(ocx as int, d.x as int);
        lemma_gap_times_dir(ocy as int, d.y as int);
        lemma_gap_times_dir(ocz as int, d.z as int);
        lemma_gap_square(ocx as int);
        lemma_gap_square(ocy as int);
        lemma_gap_square(ocz as int);
        lemma_gap_square(r as int);
        lemma_direction_bounds(*d);
    }
    let h: i128 = ocx * (d.x as i128) + ocy * (d.y as i128) + ocz * (d.z as i128);
    let a: i128 = (d.x as i128) * (d.x as i128) + (d.y as i128) * (d.y as i128) + (d.z as i128) * (d.z as i128);
    let cc: i128 = ocx * ocx + ocy * ocy + ocz * ocz - r * r;
    proof {
        assert(h * h <= 0x400_0000_0000_0000_0000_0000_0000_0000) by (nonlinear_arith)
            requires
                -3 * 0x20_0000_0000 * 1_000_000 <= h <= 3 * 0x20_0000_0000 * 1_000_000,
        ;
        assert(h * h >= 0) by (nonlinear_arith);
        assert(-0x400_0000_0000_0000_0000_0000_0000_0000 <= a * cc <= 0x400_0000_0000_0000_0000_0000_0000_0000)
            by (nonlinear_arith)
            requires
                1 <= a <= 3_000_000_000_000,
                -0x20_0000_0000 * 0x20_0000_0000 <= cc <= 3 * 0x20_0000_0000 * 0x20_0000_0000,
        ;
    }
    let q: i128 = h * h - a * cc;
    assert(oc == nsub(*o, *c));
    if q < 0 {
        return None;
    }
    let s = exact_isqrt(q);
    let near: i128 = -h - s;
    let num: i128 = if near > 0 { near } else { -h + s };
    if num <= 0 {
        return None;
    }
    match point_along(o, d, num, a) {
        None => None,
        Some(p) => {
            let sa = exact_isqrt(a);
            proof {
                assert(sa >= 1) by (nonlinear_arith)
                    requires
                        a >= 1,
                        a < (sa + 1) * (sa + 1),
                        sa >= 0,
                ;
            }
            Some((num / sa, p))
        },
    }
}

/// Nearest positive intersection with a plane through the origin, as
/// `plane_hit_spec`.
pub fn ray_plane_hit(o: &NanoPoint, d: &Vector3, n: &Vector3) -> (res: Option<(i128, NanoPoint)>)
    requires
        in_optics(*o),
        is_direction(*d),
        is_direction(*n),
    ensures
        res matches Some((dist, p)) ==> plane_hit_spec(*o, *d, *n) == Some((dist as int, p)),
        res is None ==> plane_hit_spec(*o, *d, *n) is None,
{
    proof {
        lemma_gap_times_dir(o.x as int, n.x as int);
        lemma_gap_times_dir(o.y as int, n.y as int);
        lemma_gap_times_dir(o.z as int, n.z as int);
        assert(-1_000_000_000_000 <= n.x * d.x <= 1_000_000_000_000) by (nonlinear_arith)
            requires
                -1_000_000 <= n.x <= 1_000_000,
                -1_000_000 <= d.x <= 1_000_000,
        ;
        assert(-1_000_000_000_000 <= n.y * d.y <= 1_000_000_000_000) by (nonlinear_arith)
            requires
                -1_000_000 <= n.y <= 1_000_000,
                -1_000_000 <= d.y <= 1_000_000,
        ;
        assert(-1_000_000_000_000 <= n.z * d.z <= 1_000_000_000_000) by (nonlinear_arith)
            requires
                -1_000_000 <= n.z <= 1_000_000,
                -1_000_000 <= d.z <= 1_000_000,
        ;
        lemma_direction_bounds(*d);
    }
    let den0: i128 = (n.x as i128) * (d.x as i128) + (n.y as i128) * (d.y as i128) + (n.z as i128) * (d.z as i128);
    let num0: i128 = -(o.x * (n.x as i128) + o.y * (n.y as i128) + o.z * (n.z as i128));
    let den: i128 = if den0 < 0 { -den0 } else { den0 };
    let num: i128 = if den0 < 0 { -num0 } else { num0 };
    let a: i128 = (d.x as i128) * (d.x as i128) + (d.y as i128) * (d.y as i128) + (d.z as i128) * (d.z as i128);
    let sd = exact_isqrt(a);
    assert(sd >= 1) by (nonlinear_arith)
        requires
            a >= 1,
            a < (sd + 1) * (sd + 1),
            sd >= 0,
    ;
    if den < sd || num <= 0 {
        return None;
    }
    match point_along(o, d, num, den) {
        None => None,
        Some(p) => {
            let sa = exact_isqrt(a);
            proof {
                assert(sa <= 2_000_000) by (nonlinear_arith)
                    requires
                        sa * sa <= a,
                        a <= 3_000_000_000_000,
                        sa >= 0,
                ;
                assert(num * sa <= 0x1_0000_0000_0000_0000_0000 * 2_000_000) by (nonlinear_arith)
                    requires
                        0 < num <= 0x1_0000_0000_0000_0000_0000,
                        0 <= sa <= 2_000_000,
                ;
                assert(num * sa >= 0) by (nonlinear_arith)
                    requires
                        0 < num,
                        0 <= sa,
                ;
            }
            Some((num * sa / den, p))
        },
    }
}

} // verus!

verus! {

/// Semi-axes of an ellipsoid.
#[derive(Clone, Copy, Debug, PartialEq, Eq, Structural)]
pub struct SemiAxes {
    pub x: Distance,
    pub y: Distance,
    pub z: Distance,
}

/// Shape of a mirror surface.
#[derive(Clone, Copy, Debug, PartialEq, Eq, Structural)]
pub enum SurfaceGeometry {
    Ellipsoid { semi_axes: SemiAxes, focus1: Position3D, focus2: Position3D },
    Spherical { radius: Distance, center: Position3D },
    Planar { normal: Vector3 },
}

/// A rotation as a unit quaternion, each component scaled by `UNIT`.
#[derive(Clone, Copy, Debug, PartialEq, Eq, Structural)]
pub struct Orientation {
    pub w: i64,
    pub x: i64,
    pub y: i64,
    pub z: i64,
}

impl Orientation {
    pub fn identity() -> (r: Orientation)
        ensures
            r == (Orientation { w: UNIT, x: 0, y: 0, z: 0 }),
    {
        Orientation { w: UNIT, x: 0, y: 0, z: 0 }
    }
}

/// The reflecting surface of a mirror.
#[derive(Clone, Copy, Debug, PartialEq, Eq, Structural)]
pub struct MirrorSurface {
    pub geometry: SurfaceGeometry,
    pub orientation: Orientation,
    pub radius: Distance,
}

pub open spec fn max_axis(s: SemiAxes) -> int {
    crate::vector::max3(s.x@, s.y@, s.z@)
}

/// A sphere intersection in nanometres turned into a `SurfaceHit`.
pub open spec fn as_surface_hit(h: Option<(int, NanoPoint)>) -> Option<SurfaceHit> {
    match h {
        Some((dist, p)) => Some(SurfaceHit { point: from_nano_spec(p), distance: Distance((dist * 1000) as i128) }),
        None => None,
    }
}

/// Intersection with the sphere of radius `radius` about `center`, when
/// both lie in the optical domain.
pub open spec fn sphere_surface_hit(o: NanoPoint, d: Vector3, center: Position3D, radius: Distance) -> Option<SurfaceHit> {
    let c = to_nano_spec(center);
    let r = nm_spec(radius);
    if in_optics(c) && 0 <= r <= RADIUS_LIMIT {
        as_surface_hit(sphere_hit_spec(o, d, c, r))
    } else {
        None
    }
}

/// Nearest positive intersection of a ray with a surface. A sphere uses
/// the quadratic discriminant test, a plane the parametric solution, and
/// an ellipsoid is approximated by the sphere about its first focus whose
/// radius is its largest semi-axis.
pub open spec fn intersection_spec(g: SurfaceGeometry, origin: Position3D, dir: Vector3) -> Option<SurfaceHit> {
    let o = to_nano_spec(origin);
    if !is_direction(dir) || !in_optics(o) {
        None
    } else {
        match g {
            SurfaceGeometry::Spherical { radius, center } => sphere_surface_hit(o, dir, center, radius),
            SurfaceGeometry::Planar { normal } => {
                if is_direction(normal) {
                    as_surface_hit(plane_hit_spec(o, dir, unit_spec(normal)))
                } else {
                    None
                }
            },
            SurfaceGeometry::Ellipsoid { semi_axes, focus1, .. } => sphere_surface_hit(
                o,
                dir,
                focus1,
                Distance(max_axis(semi_axes) as i128),
            ),
        }
    }
}

/// Whether every coordinate of `p` lies within `NORMAL_LIMIT` picometres.
pub open spec fn in_normal_domain(p: Position3D) -> bool {
    -NORMAL_LIMIT <= p.x@ <= NORMAL_LIMIT && -NORMAL_LIMIT <= p.y@ <= NORMAL_LIMIT && -NORMAL_LIMIT
        <= p.z@ <= NORMAL_LIMIT
}

/// Gradient of the ellipsoid's implicit quadric at offset `(px, py, pz)`
/// from its centre, all in picometres: each component
/// `p_i * GRADIENT_SCALE / a_i^2`, rounded toward zero.
pub open spec fn gradient_spec(px: int, py: int, pz: int, ax: int, ay: int, az: int) -> (int, int, int) {
    (
        div_trunc(px * GRADIENT_SCALE, ax * ax),
        div_trunc(py * GRADIENT_SCALE, ay * ay),
        div_trunc(pz * GRADIENT_SCALE, az * az),
    )
}

pub open spec fn nonzero3(v: (int, int, int)) -> bool {
    !(v.0 == 0 && v.1 == 0 && v.2 == 0)
}

pub open spec fn axis_ok(a: int) -> bool {
    AXIS_MIN <= a <= AXIS_MAX
}

/// Outward unit normal at `point`, scaled to Euclidean length `UNIT` (up
/// to rounding, see `unit_spec`), computed from picometre coordinates:
/// radial from the centre for a sphere, the fixed normal for a plane, and
/// the normalized gradient of the quadric for an ellipsoid (centred on its
/// first focus). `None` where the normal is undefined (at the centre, or a
/// zero normal or semi-axis out of range) or the points leave the cube of
/// half-width `NORMAL_LIMIT`.
pub open spec fn normal_spec(g: SurfaceGeometry, point: Position3D) -> Option<Vector3> {
    if !in_normal_domain(point) {
        None
    } else {
        match g {
            SurfaceGeometry::Spherical { center, .. } => {
                let vx = point.x@ - center.x@;
                let vy = point.y@ - center.y@;
                let vz = point.z@ - center.z@;
                if in_normal_domain(center) && !(vx == 0 && vy == 0 && vz == 0) {
                    Some(unit_spec(direction_spec(vx, vy, vz)))
                } else {
                    None
                }
            },
            SurfaceGeometry::Planar { normal } => {
                if is_direction(normal) {
                    Some(unit_spec(normal))
                } else {
                    None
                }
            },
            SurfaceGeometry::Ellipsoid { semi_axes, focus1, .. } => {
                let gr = gradient_spec(
                    point.x@ - focus1.x@,
                    point.y@ - focus1.y@,
                    point.z@ - focus1.z@,
                    semi_axes.x@,
                    semi_axes.y@,
                    semi_axes.z@,
                );
                if in_normal_domain(focus1) && axis_ok(semi_axes.x@) && axis_ok(semi_axes.y@) && axis_ok(
                    semi_axes.z@,
                ) && nonzero3(gr) {
                    Some(unit_spec(direction_spec(gr.0, gr.1, gr.2)))
                } else {
                    None
                }
            },
        }
    }
}

fn in_normal_domain_exec(p: &Position3D) -> (r: bool)
    ensures
        r == in_normal_domain(*p),
{
    -NORMAL_LIMIT <= p.x.0 && p.x.0 <= NORMAL_LIMIT && -NORMAL_LIMIT <= p.y.0 && p.y.0 <= NORMAL_LIMIT
        && -NORMAL_LIMIT <= p.z.0 && p.z.0 <= NORMAL_LIMIT
}

fn in_optics_exec(p: &NanoPoint) -> (r: bool)
    ensures
        r == in_optics(*p),
{
    -OPTICS_LIMIT <= p.x && p.x <= OPTICS_LIMIT && -OPTICS_LIMIT <= p.y && p.y <= OPTICS_LIMIT
        && -OPTICS_LIMIT <= p.z && p.z <= OPTICS_LIMIT
}

fn is_direction_exec(d: &Vector3) -> (r: bool)
    ensures
        r == is_direction(*d),
{
    -UNIT <= d.x && d.x <= UNIT && -UNIT <= d.y && d.y <= UNIT && -UNIT <= d.z && d.z <= UNIT
        && !(d.x == 0 && d.y == 0 && d.z == 0)
}

fn to_surface_hit(h: Option<(i128, NanoPoint)>) -> (r: Option<SurfaceHit>)
    requires
        h matches Some((dist, p)) ==> in_optics(p) && 0 <= dist <= 0x1_0000_0000_0000_0000_0000_0000,
    ensures
        r == as_surface_hit(match h {
            Some((dist, p)) => Some((dist as int, p)),
            None => None,
        }),
        r matches Some(s) ==> crate::units::in_world(s.point),
{
    match h {
        Some((dist, p)) => Some(SurfaceHit { point: from_nano(&p), distance: Distance(dist * 1000) }),
        None => None,
    }
}

fn sphere_surface(o: &NanoPoint, d: &Vector3, center: &Position3D, radius: Distance) -> (r: Option<SurfaceHit>)
    requires
        in_optics(*o),
        is_direction(*d),
    ensures
        r == sphere_surface_hit(*o, *d, *center, radius),
        r matches Some(s) ==> crate::units::in_world(s.point),
{
    let c = to_nano(center);
    let rad = nanometers(radius);
    if !in_optics_exec(&c) || rad < 0 || rad > RADIUS_LIMIT {
        return None;
    }
    let h = ray_sphere_hit(o, d, &c, rad);
    proof {
        if let Some((dist, p)) = h {
            lemma_sphere_distance_bound(*o, *d, c, rad as int);
        }
    }
    to_surface_hit(h)
}

proof fn lemma_sphere_distance_bound(o: NanoPoint, d: Vector3, c: NanoPoint, r: int)
    requires
        in_optics(o),
        in_optics(c),
        is_direction(d),
        0 <= r <= RADIUS_LIMIT,
        sphere_hit_spec(o, d, c, r) is Some,
    ensures
        sphere_hit_spec(o, d, c, r) matches Some((dist, p)) ==> 0 <= dist <= 0x1_0000_0000_0000_0000_0000_0000
            && in_optics(p),
{
    let oc = nsub(o, c);
    let h = ndot(oc, d);
    let a = dot(d, d);
    let q = h * h - a * (nsq(oc) - r * r);
    let s = isqrt_spec(q);
    let near = -h - s;
    let num = if near > 0 { near } else { -h + s };
    lemma_direction_bounds(d);
    lemma_gap_times_dir(oc.x as int, d.x as int);
    lemma_gap_times_dir(oc.y as int, d.y as int);
    lemma_gap_times_dir(oc.z as int, d.z as int);
    lemma_isqrt_spec(q);
    let sa = isqrt_spec(a);
    lemma_isqrt_spec(a);
    assert(sa >= 1) by (nonlinear_arith)
        requires
            a >= 1,
            a < (sa + 1) * (sa + 1),
            sa >= 0,
    ;
    lemma_gap_square(oc.x as int);
    lemma_gap_square(oc.y as int);
    lemma_gap_square(oc.z as int);
    lemma_gap_square(r);
    assert(q <= i128::MAX) by (nonlinear_arith)
        requires
            -3 * 0x20_0000_0000 * 1_000_000 <= h <= 3 * 0x20_0000_0000 * 1_000_000,
            1 <= a <= 3_000_000_000_000,
            -0x20_0000_0000 * 0x20_0000_0000 <= nsq(oc) - r * r <= 3 * 0x20_0000_0000 * 0x20_0000_0000,
            q == h * h - a * (nsq(oc) - r * r),
    ;
    assert(s < 0x1_0000_0000_0000_0000) by (nonlinear_arith)
        requires
            s * s <= q,
            q <= i128::MAX,
            s >= 0,
    ;
    assert(num <= 3 * 0x20_0000_0000 * 1_000_000 + 0x1_0000_0000_0000_0000);
    vstd::arithmetic::div_mod::lemma_div_is_ordered_by_denominator(num, 1, sa);
    vstd::arithmetic::div_mod::lemma_div_pos_is_pos(num, sa);
}

proof fn lemma_plane_distance_bound(o: NanoPoint, d: Vector3, n: Vector3)
    requires
        in_optics(o),
        is_direction(d),
        is_direction(n),
        plane_hit_spec(o, d, n) is Some,
    ensures
        plane_hit_spec(o, d, n) matches Some((dist, p)) ==> 0 <= dist <= 0x1_0000_0000_0000_0000_0000_0000
            && in_optics(p),
{
    let den0 = dot(n, d);
    let num0 = -ndot(o, n);
    let den = if den0 < 0 { -den0 } else { den0 };
    let num = if den0 < 0 { -num0 } else { num0 };
    lemma_direction_bounds(d);
    lemma_gap_times_dir(o.x as int, n.x as int);
    lemma_gap_times_dir(o.y as int, n.y as int);
    lemma_gap_times_dir(o.z as int, n.z as int);
    let a = dot(d, d);
    let sa = isqrt_spec(a);
    lemma_isqrt_spec(a);
    assert(sa <= 2_000_000) by (nonlinear_arith)
        requires
            sa * sa <= a,
            a <= 3_000_000_000_000,
            sa >= 0,
    ;
    assert(sa >= 1) by (nonlinear_arith)
        requires
            a >= 1,
            a < (sa + 1) * (sa + 1),
            sa >= 0,
    ;
    assert(0 <= num * sa <= 3 * 0x20_0000_0000 * 1_000_000 * 2_000_000) by (nonlinear_arith)
        requires
            0 < num <= 3 * 0x20_0000_0000 * 1_000_000,
            0 <= sa <= 2_000_000,
    ;
    vstd::arithmetic::div_mod::lemma_div_is_ordered_by_denominator(num * sa, 1, den);
    vstd::arithmetic::div_mod::lemma_div_pos_is_pos(num * sa, den);
}

fn max_distance(a: Distance, b: Distance, c: Distance) -> (r: Distance)
    ensures
        r@ == crate::vector::max3(a@, b@, c@),
{
    if a.0 >= b.0 && a.0 >= c.0 {
        a
    } else if b.0 >= c.0 {
        b
    } else {
        c
    }
}

fn gradient_component(p: i128, a: i128) -> (r: i128)
    requires
        -2 * NORMAL_LIMIT <= p <= 2 * NORMAL_LIMIT,
        axis_ok(a as int),
    ensures
        r == div_trunc(p * GRADIENT_SCALE, a * a),
        -DIRECTION_INPUT_LIMIT <= r <= DIRECTION_INPUT_LIMIT,
{
    assert(-2 * NORMAL_LIMIT * GRADIENT_SCALE <= p * GRADIENT_SCALE <= 2 * NORMAL_LIMIT * GRADIENT_SCALE)
        by (nonlinear_arith)
        requires
            -2 * NORMAL_LIMIT <= p <= 2 * NORMAL_LIMIT,
            GRADIENT_SCALE > 0,
    ;
    assert(AXIS_MIN * AXIS_MIN <= a * a <= AXIS_MAX * AXIS_MAX) by (nonlinear_arith)
        requires
            AXIS_MIN <= a <= AXIS_MAX,
            AXIS_MIN > 0,
    ;
    let x = p * GRADIENT_SCALE;
    let aa = a * a;
    proof {
        let lim = 2 * NORMAL_LIMIT * GRADIENT_SCALE;
        let m = AXIS_MIN * AXIS_MIN;
        vstd::arithmetic::div_mod::lemma_div_is_ordered_by_denominator(lim, m, aa as int);
        assert(lim / m == 0x8_0000_0000_0000_0000_0000_0000) by {
            vstd::arithmetic::div_mod::lemma_fundamental_div_mod_converse(lim, m, 0x8_0000_0000_0000_0000_0000_0000, 0);
        }
        if x >= 0 {
            vstd::arithmetic::div_mod::lemma_div_is_ordered(x as int, lim, aa as int);
            vstd::arithmetic::div_mod::lemma_div_pos_is_pos(x as int, aa as int);
        } else {
            vstd::arithmetic::div_mod::lemma_div_is_ordered(-x, lim, aa as int);
            vstd::arithmetic::div_mod::lemma_div_pos_is_pos(-x, aa as int);
        }
    }
    div_toward_zero(x, aa)
}

impl SurfaceGeometry {
    /// Outward normal at `point`, as `normal_spec`.
    pub fn normal_at(&self, point: &Position3D) -> (r: Option<Vector3>)
        ensures
            r == normal_spec(*self, *point),
            r matches Some(n) ==> is_direction(n),
    {
        if !in_normal_domain_exec(point) {
            return None;
        }
        match self {
            SurfaceGeometry::Spherical { center, .. } => {
                if !in_normal_domain_exec(center) {
                    return None;
                }
                match direction_of(point.x.0 - center.x.0, point.y.0 - center.y.0, point.z.0 - center.z.0) {
                    Some(u) => Some(unit_of(&u)),
                    None => None,
                }
            },
            SurfaceGeometry::Planar { normal } => {
                if is_direction_exec(normal) {
                    Some(unit_of(normal))
                } else {
                    None
                }
            },
            SurfaceGeometry::Ellipsoid { semi_axes, focus1, .. } => {
                let ax = semi_axes.x.0;
                let ay = semi_axes.y.0;
                let az = semi_axes.z.0;
                if !in_normal_domain_exec(focus1) || ax < AXIS_MIN || ax > AXIS_MAX || ay < AXIS_MIN || ay > AXIS_MAX
                    || az < AXIS_MIN || az > AXIS_MAX {
                    return None;
                }
                let gx = gradient_component(point.x.0 - focus1.x.0, ax);
                let gy = gradient_component(point.y.0 - focus1.y.0, ay);
                let gz = gradient_component(point.z.0 - focus1.z.0, az);
                match direction_of(gx, gy, gz) {
                    Some(u) => Some(unit_of(&u)),
                    None => None,
                }
            },
        }
    }

    /// Nearest positive intersection of the ray from `ray_origin` along
    /// `ray_direction`, as `intersection_spec`.
    pub fn ray_intersection(&self, ray_origin: &Position3D, ray_direction: &Vector3) -> (r: Option<SurfaceHit>)
        ensures
            r == intersection_spec(*self, *ray_origin, *ray_direction),
            r matches Some(h) ==> crate::units::in_world(h.point),
    {
        let o = to_nano(ray_origin);
        if !is_direction_exec(ray_direction) || !in_optics_exec(&o) {
            return None;
        }
        match self {
            SurfaceGeometry::Spherical { radius, center } => sphere_surface(&o, ray_direction, center, *radius),
            SurfaceGeometry::Planar { normal } => {
                if !is_direction_exec(normal) {
                    return None;
                }
                let unit_normal = unit_of(normal);
                let h = ray_plane_hit(&o, ray_direction, &unit_normal);
                proof {
                    if h is Some {
                        lemma_plane_distance_bound(o, *ray_direction, unit_normal);
                    }
                }
                to_surface_hit(h)
            },
            SurfaceGeometry::Ellipsoid { semi_axes, focus1, .. } => {
                let r = max_distance(semi_axes.x, semi_axes.y, semi_axes.z);
                sphere_surface(&o, ray_direction, focus1, r)
            },
        }
    }
}

/// The collecting mirror around the plasma.
#[derive(Clone, Copy, Debug, PartialEq, Eq, Structural)]
pub struct CollectorMirrorSpec {
    pub position: Position3D,
    pub semi_major_axis: Distance,
    pub semi_minor_axis: Distance,
    pub focal_length: Distance,
}

/// A spherical projection mirror.
#[derive(Clone, Copy, Debug, PartialEq, Eq, Structural)]
pub struct MirrorSpec {
    pub id: u32,
    pub position: Position3D,
    pub radius: Distance,
    pub curvature_radius: Distance,
}

/// The mirrors of the optical system.
pub struct OpticalSystemConfig {
    pub collector_mirror: CollectorMirrorSpec,
    pub projection_mirrors: Vec<MirrorSpec>,
}

impl OpticalSystemConfig {
    pub open spec fn wf(&self) -> bool {
        &&& in_world(self.collector_mirror.position)
        &&& forall|k: int| 0 <= k < self.projection_mirrors@.len() ==> in_world(#[trigger] self.projection_mirrors@[k].position)
    }
}

impl Default for OpticalSystemConfig {
    /// A collector of semi-axes 0.3 m and 0.2 m with 0.5 m focal length at
    /// the origin, and two projection mirrors.
    fn default() -> (r: OpticalSystemConfig)
        ensures
            r.wf(),
            r.collector_mirror == (CollectorMirrorSpec {
                position: Position3D { x: Distance(0), y: Distance(0), z: Distance(0) },
                semi_major_axis: Distance(300_000_000_000),
                semi_minor_axis: Distance(200_000_000_000),
                focal_length: Distance(500_000_000_000),
            }),
            r.projection_mirrors@ == seq![
                MirrorSpec {
                    id: 1,
                    position: Position3D { x: Distance(1_000_000_000_000), y: Distance(0), z: Distance(0) },
                    radius: Distance(200_000_000_000),
                    curvature_radius: Distance(2_000_000_000_000),
                },
                MirrorSpec {
                    id: 2,
                    position: Position3D {
                        x: Distance(2_000_000_000_000),
                        y: Distance(500_000_000_000),
                        z: Distance(0),
                    },
                    radius: Distance(150_000_000_000),
                    curvature_radius: Distance(3_000_000_000_000),
                },
            ],
    {
        let mirrors = vec![
            MirrorSpec {
                id: 1,
                position: Position3D { x: Distance(1_000_000_000_000), y: Distance(0), z: Distance(0) },
                radius: Distance(200_000_000_000),
                curvature_radius: Distance(2_000_000_000_000),
            },
            MirrorSpec {
                id: 2,
                position: Position3D {
                    x: Distance(2_000_000_000_000),
                    y: Distance(500_000_000_000),
                    z: Distance(0),
                },
                radius: Distance(150_000_000_000),
                curvature_radius: Distance(3_000_000_000_000),
            },
        ];
        OpticalSystemConfig {
            collector_mirror: CollectorMirrorSpec {
                position: Position3D { x: Distance(0), y: Distance(0), z: Distance(0) },
                semi_major_axis: Distance(300_000_000_000),
                semi_minor_axis: Distance(200_000_000_000),
                focal_length: Distance(500_000_000_000),
            },
            projection_mirrors: mirrors,
        }
    }
}

/// Heat capacity of the collector, 5000 J/K, in microjoules per kelvin.
pub const COLLECTOR_HEAT_CAPACITY: u64 = 5_000_000_000;

/// Heat capacity of a projection mirror, 2000 J/K.
pub const PROJECTION_HEAT_CAPACITY: u64 = 2_000_000_000;

/// The entity of the collector: an ellipsoid whose first focus is the
/// origin and second focus lies on +X at the focal length.
pub open spec fn collector_record(c: CollectorMirrorSpec) -> EntityRecord {
    EntityRecord {
        position: Some(Position(c.position)),
        mirror: Some(
            MirrorSurface {
                geometry: SurfaceGeometry::Ellipsoid {
                    semi_axes: SemiAxes { x: c.semi_major_axis, y: c.semi_minor_axis, z: c.semi_minor_axis },
                    focus1: Position3D { x: Distance(0), y: Distance(0), z: Distance(0) },
                    focus2: Position3D { x: c.focal_length, y: Distance(0), z: Distance(0) },
                },
                orientation: Orientation { w: UNIT, x: 0, y: 0, z: 0 },
                radius: c.semi_major_axis,
            },
        ),
        material: Some(OpticalMaterial { reflectivity: 700_000, absorption: 300_000 }),
        thermal: Some(ThermalState { temperature: AMBIENT, heat_energy: 0, heat_capacity: COLLECTOR_HEAT_CAPACITY }),
        kind: Some(EntityType::Mirror),
        ..empty_record()
    }
}

/// The entity of a projection mirror: a sphere of its curvature radius
/// about its position.
pub open spec fn projection_record(m: MirrorSpec) -> EntityRecord {
    EntityRecord {
        position: Some(Position(m.position)),
        mirror: Some(
            MirrorSurface {
                geometry: SurfaceGeometry::Spherical { radius: m.curvature_radius, center: m.position },
                orientation: Orientation { w: UNIT, x: 0, y: 0, z: 0 },
                radius: m.radius,
            },
        ),
        material: Some(OpticalMaterial { reflectivity: 700_000, absorption: 300_000 }),
        thermal: Some(ThermalState { temperature: AMBIENT, heat_energy: 0, heat_capacity: PROJECTION_HEAT_CAPACITY }),
        kind: Some(EntityType::Mirror),
        ..empty_record()
    }
}

pub open spec fn empty_record() -> EntityRecord {
    EntityRecord {
        id: 0,
        position: None,
        velocity: None,
        mass: None,
        thermal: None,
        shape: None,
        lifetime: None,
        material: None,
        kind: None,
        droplet: None,
        laser: None,
        photon: None,
        mirror: None,
        cooling: None,
    }
}

/// Whether `e` is `template` under some identity.
pub open spec fn same_but_id(e: EntityRecord, template: EntityRecord) -> bool {
    e == EntityRecord { id: e.id, ..template }
}

/// Creates the mirrors: the collector first, then each projection mirror
/// in order, all with a Bragg coating and at ambient temperature.
pub fn spawn_optical_system(world: &mut World, config: &OpticalSystemConfig)
    requires
        old(world).wf(),
        config.wf(),
    ensures
        final(world).wf(),
        final(world).entities@.subrange(0, old(world).entities@.len() as int) == old(world).entities@,
        old(world).next_id + config.projection_mirrors@.len() + 1 <= u64::MAX ==> {
            &&& final(world).entities@.len() == old(world).entities@.len() + 1 + config.projection_mirrors@.len()
            &&& same_but_id(final(world).entities@[old(world).entities@.len() as int], collector_record(config.collector_mirror))
            &&& forall|k: int|
                0 <= k < config.projection_mirrors@.len() ==> same_but_id(
                    #[trigger] final(world).entities@[old(world).entities@.len() + 1 + k],
                    projection_record(config.projection_mirrors@[k]),
                )
        },
{
    let c = config.collector_mirror;
    let mut rec = EntityRecord::empty();
    rec.position = Some(Position(c.position));
    rec.mirror = Some(
        MirrorSurface {
            geometry: SurfaceGeometry::Ellipsoid {
                semi_axes: SemiAxes { x: c.semi_major_axis, y: c.semi_minor_axis, z: c.semi_minor_axis },
                focus1: Position3D::zero(),
                focus2: Position3D { x: c.focal_length, y: Distance(0), z: Distance(0) },
            },
            orientation: Orientation::identity(),
            radius: c.semi_major_axis,
        },
    );
    rec.material = Some(OpticalMaterial::bragg_mirror());
    rec.thermal = Some(ThermalState::new(AMBIENT, COLLECTOR_HEAT_CAPACITY));
    rec.kind = Some(EntityType::Mirror);
    let ghost start = world.entities@;
    let ghost start_id = world.next_id;
    let _ = world.spawn(rec);
    proof {
        assert(world.entities@.subrange(0, start.len() as int) =~= start);
    }
    let n = config.projection_mirrors.len();
    let mut i: usize = 0;
    while i < n
        invariant
            world.wf(),
            config.wf(),
            n == config.projection_mirrors@.len(),
            i <= n,
            start == old(world).entities@,
            start_id == old(world).next_id,
            world.entities@.subrange(0, start.len() as int) == start,
            world.entities@.len() >= start.len(),
            start_id + n + 1 <= u64::MAX ==> {
                &&& world.entities@.len() == start.len() + 1 + i
                &&& world.next_id == start_id + 1 + i
                &&& same_but_id(world.entities@[start.len() as int], collector_record(c))
                &&& forall|k: int|
                    0 <= k < i ==> same_but_id(
                        #[trigger] world.entities@[start.len() + 1 + k],
                        projection_record(config.projection_mirrors@[k]),
                    )
            },
            c == config.collector_mirror,
        decreases n - i,
    {
        let m = config.projection_mirrors[i];
        assert(in_world(config.projection_mirrors@[i as int].position));
        let mut rec = EntityRecord::empty();
        rec.position = Some(Position(m.position));
        rec.mirror = Some(
            MirrorSurface {
                geometry: SurfaceGeometry::Spherical { radius: m.curvature_radius, center: m.position },
                orientation: Orientation::identity(),
                radius: m.radius,
            },
        );
        rec.material = Some(OpticalMaterial::bragg_mirror());
        rec.thermal = Some(ThermalState::new(AMBIENT, PROJECTION_HEAT_CAPACITY));
        rec.kind = Some(EntityType::Mirror);
        let ghost before = world.entities@;
        let _ = world.spawn(rec);
        proof {
            assert(world.entities@.subrange(0, start.len() as int) =~= start) by {
                assert forall|m: int| 0 <= m < start.len() implies world.entities@[m] == start[m] by {
                    assert(before.subrange(0, start.len() as int)[m] == start[m]);
                }
            }
            if start_id + n + 1 <= u64::MAX {
                assert forall|k: int| 0 <= k < i + 1 implies same_but_id(
                    #[trigger] world.entities@[start.len() + 1 + k],
                    projection_record(config.projection_mirrors@[k]),
                ) by {
                    if k < i {
                        assert(world.entities@[start.len() + 1 + k] == before[start.len() + 1 + k]);
                    }
                }
                assert(world.entities@[start.len() as int] == before[start.len() as int]);
            }
        }
        i = i + 1;
    }
}

} // verus!
