//! Laser-droplet collisions, the droplet state machine, photon emission,
//! motion and expiry.

use vstd::prelude::*;
use crate::units::{Distance, Position3D, in_world, dist_sq, distance_squared, div_trunc, div_toward_zero, isqrt_spec, exact_isqrt, WORLD_LIMIT};
use crate::vector::{Vector3, UNIT, dot, is_direction, saturate, saturate_spec};
use crate::components::{CollisionShape, Lifetime, Position, Velocity};
use crate::source::{DropletState, LaserBeam, DROPLET_RADIUS_LIMIT};
use crate::raytracing::{PhotonPacket, PLANCK_TIMES_LIGHT_SPEED, EUV_WAVELENGTH, photon_energy};
use crate::world::{World, EntityRecord, record_ok, kept};
use crate::units::clamp_spec;
use crate::random::random_between;

verus! {

/// Bounds on a collision shape that keep its arithmetic exact.
pub open spec fn shape_ok(s: CollisionShape) -> bool {
    match s {
        CollisionShape::Sphere { radius } => 0 <= radius@ <= DROPLET_RADIUS_LIMIT,
        CollisionShape::Disk { radius, thickness } => 0 <= radius@ <= 2 * DROPLET_RADIUS_LIMIT && 0
            <= thickness@ <= DROPLET_RADIUS_LIMIT,
        CollisionShape::Ray { .. } => true,
    }
}

/// Whether a point-like laser focus at `laser` lies in the sphere of
/// radius `radius` about `droplet`.
pub open spec fn sphere_contains(laser: Position3D, droplet: Position3D, radius: int) -> bool {
    radius >= 0 && dist_sq(laser, droplet) <= radius * radius
}

/// Whether `laser` lies in the disk about `droplet` whose flat faces are
/// perpendicular to X: axial offset at most half the thickness, radial
/// offset at most the radius.
pub open spec fn disk_contains(laser: Position3D, droplet: Position3D, radius: int, thickness: int) -> bool {
    let dx = laser.x@ - droplet.x@;
    let dy = laser.y@ - droplet.y@;
    let dz = laser.z@ - droplet.z@;
    radius >= 0 && 2 * (if dx < 0 { -dx } else { dx }) <= thickness && dy * dy + dz * dz <= radius * radius
}

proof fn lemma_world_gap_square(d: int)
    requires
        -2 * WORLD_LIMIT <= d <= 2 * WORLD_LIMIT,
    ensures
        0 <= d * d <= 4 * WORLD_LIMIT * WORLD_LIMIT,
{
    assert(0 <= d * d <= 4 * WORLD_LIMIT * WORLD_LIMIT) by (nonlinear_arith)
        requires
            -2 * WORLD_LIMIT <= d <= 2 * WORLD_LIMIT,
    ;
}

/// `d * d` compared with `v`, for `d` of any size.
fn square_at_least(d: i128, v: u128) -> (r: bool)
    requires
        d >= 0,
    ensures
        r == (v <= d * d),
{
    if d >= 0x1_0000_0000_0000_0000 {
        assert(d * d >= 0x1_0000_0000_0000_0000 * 0x1_0000_0000_0000_0000) by (nonlinear_arith)
            requires
                d >= 0x1_0000_0000_0000_0000,
        ;
        true
    } else {
        assert(d * d < 0x1_0000_0000_0000_0000 * 0x1_0000_0000_0000_0000) by (nonlinear_arith)
            requires
                0 <= d < 0x1_0000_0000_0000_0000,
        ;
        let du = d as u128;
        v <= du * du
    }
}

/// Sphere hit test between a laser focus and a droplet, both in the world.
pub fn ray_sphere_intersection(laser_pos: Position3D, droplet_pos: Position3D, radius: Distance) -> (hit: bool)
    requires
        in_world(laser_pos),
        in_world(droplet_pos),
    ensures
        hit == sphere_contains(laser_pos, droplet_pos, radius@),
{
    if radius.0 < 0 {
        return false;
    }
    let sq = distance_squared(&laser_pos, &droplet_pos);
    square_at_least(radius.0, sq)
}

/// Disk hit test between a laser focus and a flattened droplet, both in
/// the world.
pub fn ray_disk_intersection(laser_pos: Position3D, droplet_pos: Position3D, radius: Distance, thickness: Distance) -> (hit: bool)
    requires
        in_world(laser_pos),
        in_world(droplet_pos),
    ensures
        hit == disk_contains(laser_pos, droplet_pos, radius@, thickness@),
{
    if radius.0 < 0 {
        return false;
    }
    let dx: i128 = laser_pos.x.0 - droplet_pos.x.0;
    let dy: i128 = laser_pos.y.0 - droplet_pos.y.0;
    let dz: i128 = laser_pos.z.0 - droplet_pos.z.0;
    let adx: i128 = if dx < 0 { -dx } else { dx };
    if 2 * adx > thickness.0 {
        return false;
    }
    proof {
        lemma_world_gap_square(dy as int);
        lemma_world_gap_square(dz as int);
    }
    let sq: u128 = ((dy * dy) as u128) + ((dz * dz) as u128);
    square_at_least(radius.0, sq)
}

/// The droplet state machine. A spherical droplet struck by a pre-pulse
/// flattens into a disk of twice its radius and a quarter of its radius in
/// thickness; a flattened droplet struck by a main pulse turns to plasma;
/// every other combination leaves the droplet as it was.
pub open spec fn transition(state: DropletState, shape: CollisionShape, is_prepulse: bool) -> (DropletState, CollisionShape) {
    match (state, is_prepulse) {
        (DropletState::Spherical, true) => (
            DropletState::Pancaked,
            match shape {
                CollisionShape::Sphere { radius } => CollisionShape::Disk {
                    radius: Distance((radius@ * 2) as i128),
                    thickness: Distance(div_trunc(radius@, 4) as i128),
                },
                _ => shape,
            },
        ),
        (DropletState::Pancaked, false) => (DropletState::Plasma, shape),
        _ => (state, shape),
    }
}

/// Applies the state machine to a droplet struck by a pulse.
pub fn apply_transition(state: DropletState, shape: CollisionShape, is_prepulse: bool) -> (r: (DropletState, CollisionShape))
    requires
        shape_ok(shape),
    ensures
        r == transition(state, shape, is_prepulse),
        shape_ok(r.1),
{
    match (state, is_prepulse) {
        (DropletState::Spherical, true) => {
            let new_shape = match shape {
                CollisionShape::Sphere { radius } => CollisionShape::Disk {
                    radius: Distance(radius.0 * 2),
                    thickness: Distance(radius.0 / 4),
                },
                _ => shape,
            };
            (DropletState::Pancaked, new_shape)
        },
        (DropletState::Pancaked, false) => (DropletState::Plasma, shape),
        _ => (state, shape),
    }
}

/// A spherical droplet struck by a pre-pulse always becomes a pancake of
/// twice the radius and a quarter of the radius in thickness, and a main
/// pulse never changes a droplet that is still spherical.
pub proof fn lemma_prepulse_flattens(radius: Distance, shape: CollisionShape)
    ensures
        transition(DropletState::Spherical, CollisionShape::Sphere { radius }, true) == (
            DropletState::Pancaked,
            CollisionShape::Disk {
                radius: Distance((radius@ * 2) as i128),
                thickness: Distance(div_trunc(radius@, 4) as i128),
            },
        ),
        transition(DropletState::Spherical, shape, false) == (DropletState::Spherical, shape),
{
}

/// Debris is terminal, and no pulse ever brings a droplet back to an
/// earlier stage.
pub proof fn lemma_debris_is_terminal(shape: CollisionShape, is_prepulse: bool)
    ensures
        transition(DropletState::Debris, shape, is_prepulse).0 == DropletState::Debris,
        transition(DropletState::Plasma, shape, is_prepulse).0 == DropletState::Plasma,
{
}

/// Number of photon packets emitted by one plasma.
pub const PACKET_COUNT: u64 = 1000;

/// Lifetime of a plasma before it collapses, in picoseconds (10 us).
pub const PLASMA_LIFETIME: u64 = 10_000_000;

/// Backstop lifetime of a photon packet, in picoseconds (100 us).
pub const PHOTON_LIFETIME: u64 = 100_000_000;

/// Speed of light in micrometres per second.
pub const LIGHT_SPEED: i128 = 300_000_000_000_000;

/// Photons in each packet of a plasma struck by a pulse of `power` watts:
/// the EUV energy, 2 % of the power (`power * 2e19` zeptojoules), divided
/// by the exact photon energy `h c / lambda` (that is, multiplied by
/// `lambda / (h c)` in picometres and zeptojoule-picometres), rounded down,
/// then shared among the packets; held at `u64::MAX`.
pub open spec fn photons_per_packet(power: int) -> u64 {
    crate::vector::min_u64(
        (power * 20_000_000_000_000_000_000 * EUV_WAVELENGTH / (PLANCK_TIMES_LIGHT_SPEED as int)) / (
        PACKET_COUNT as int),
    )
}

fn packet_photons(power: u64) -> (r: u64)
    ensures
        r == photons_per_packet(power as int),
{
    // 2e19 * 13500 / (198_780_000 * 1000) reduces to 45e14 / 3313.
    let n: u128 = (power as u128) * 4_500_000_000_000_000 / 3313;
    proof {
        let a: int = power as int * 4_500_000_000_000_000;
        let x: int = power as int * 20_000_000_000_000_000_000 * 13_500;
        assert(x == 60_000_000 * a);
        assert(x >= 0);
        vstd::arithmetic::div_mod::lemma_div_denominator(x, 198_780_000, 1000);
        assert(198_780_000 * 1000 == 60_000_000 * 3313);
        vstd::arithmetic::div_mod::lemma_div_multiples_vanish_quotient(60_000_000, a, 3313);
    }
    if n > u64::MAX as u128 {
        u64::MAX
    } else {
        n as u64
    }
}

/// Velocity of a photon travelling along `d` at the speed of light:
/// `d * c / |d|`, each component rounded toward zero.
pub open spec fn photon_velocity_spec(d: Vector3) -> Vector3 {
    let n = isqrt_spec(dot(d, d));
    Vector3 {
        x: saturate_spec(div_trunc(d.x * LIGHT_SPEED, n)),
        y: saturate_spec(div_trunc(d.y * LIGHT_SPEED, n)),
        z: saturate_spec(div_trunc(d.z * LIGHT_SPEED, n)),
    }
}

fn light_component(c: i64, n: i128) -> (r: i64)
    requires
        -UNIT <= c <= UNIT,
        n >= 1,
    ensures
        r == saturate_spec(div_trunc(c * LIGHT_SPEED, n as int)),
{
    assert(-1_000_000 * LIGHT_SPEED <= c * LIGHT_SPEED <= 1_000_000 * LIGHT_SPEED) by (nonlinear_arith)
        requires
            -1_000_000 <= c <= 1_000_000,
    ;
    saturate(div_toward_zero((c as i128) * LIGHT_SPEED, n))
}

/// Velocity of a photon emitted along `d`.
pub fn photon_velocity(d: &Vector3) -> (r: Velocity)
    requires
        is_direction(*d),
    ensures
        r.0 == photon_velocity_spec(*d),
{
    proof {
        crate::vector::lemma_direction_bounds(*d);
    }
    let a: i128 = (d.x as i128) * (d.x as i128) + (d.y as i128) * (d.y as i128) + (d.z as i128) * (d.z as i128);
    let n = exact_isqrt(a);
    assert(n >= 1) by (nonlinear_arith)
        requires
            a >= 1,
            a < (n + 1) * (n + 1),
            n >= 0,
    ;
    Velocity(
        Vector3 {
            x: light_component(d.x, n),
            y: light_component(d.y, n),
            z: light_component(d.z, n),
        },
    )
}

/// Whether a candidate drawn from the cube `[-UNIT, UNIT]^3` lies in the
/// spherical shell between radii `UNIT / 2` and `UNIT`.
pub fn in_emission_shell(d: &Vector3) -> (r: bool)
    requires
        -UNIT <= d.x <= UNIT,
        -UNIT <= d.y <= UNIT,
        -UNIT <= d.z <= UNIT,
    ensures
        r == (250_000_000_000 <= dot(*d, *d) <= 1_000_000_000_000),
{
    assert(0 <= d.x * d.x <= 1_000_000_000_000) by (nonlinear_arith)
        requires
            -1_000_000 <= d.x <= 1_000_000,
    ;
    assert(0 <= d.y * d.y <= 1_000_000_000_000) by (nonlinear_arith)
        requires
            -1_000_000 <= d.y <= 1_000_000,
    ;
    assert(0 <= d.z * d.z <= 1_000_000_000_000) by (nonlinear_arith)
        requires
            -1_000_000 <= d.z <= 1_000_000,
    ;
    let r2: i128 = (d.x as i128) * (d.x as i128) + (d.y as i128) * (d.y as i128) + (d.z as i128) * (d.z as i128);
    r2 >= 250_000_000_000 && r2 <= 1_000_000_000_000
}

/// Draws up to this many candidates for an emission direction.
pub const DIRECTION_ATTEMPTS: u32 = 64;

/// An emission direction drawn uniformly from the spherical shell between
/// radii `UNIT / 2` and `UNIT`, hence isotropic: candidates are drawn
/// uniformly from the enclosing cube and those outside the shell are drawn
/// again (the inner bound keeps the rounding of short vectors small). After
/// `DIRECTION_ATTEMPTS` rejections (probability below 2^-60) the +Z axis
/// is used.
pub fn random_direction() -> (d: Vector3)
    ensures
        is_direction(d),
        250_000_000_000 <= dot(d, d) <= 1_000_000_000_000,
{
    let mut attempt: u32 = 0;
    while attempt < DIRECTION_ATTEMPTS
        decreases DIRECTION_ATTEMPTS - attempt,
    {
        let x = random_between(-UNIT, UNIT);
        let y = random_between(-UNIT, UNIT);
        let z = random_between(-UNIT, UNIT);
        let d = Vector3 { x, y, z };
        if in_emission_shell(&d) {
            assert(!(x == 0 && y == 0 && z == 0)) by (nonlinear_arith)
                requires
                    x * x + y * y + z * z >= 250_000_000_000,
            ;
            return d;
        }
        attempt = attempt + 1;
    }
    let d = Vector3 { x: 0, y: 0, z: UNIT };
    assert(dot(d, d) == 1_000_000_000_000) by (nonlinear_arith)
        requires
            d.x == 0 && d.y == 0 && d.z == 1_000_000,
    ;
    d
}

/// A freshly emitted photon packet at `pos` holding `count` photons.
pub open spec fn is_emitted_packet(e: EntityRecord, pos: Position3D, count: u64) -> bool {
    &&& e.position == Some(Position(pos))
    &&& e.photon == Some(
        PhotonPacket {
            photon_count: count,
            wavelength: Distance(EUV_WAVELENGTH),
            energy_per_photon: photon_energy(EUV_WAVELENGTH as int) as u64,
            bounces: 0,
        },
    )
    &&& e.lifetime == Some(Lifetime { remaining: PHOTON_LIFETIME })
    &&& e.velocity matches Some(v) && is_emission_velocity(v)
}

/// Whether `v` is the light-speed velocity along some emission direction
/// that `random_direction` can return.
pub open spec fn is_emission_velocity(v: Velocity) -> bool {
    exists|d: Vector3|
        is_direction(d) && 250_000_000_000 <= dot(d, d) <= 1_000_000_000_000 && v.0 == #[trigger] photon_velocity_spec(d)
}

/// Emits `PACKET_COUNT` photon packets isotropically from a plasma at
/// `plasma_position` struck by a pulse of `laser_power` watts. Each packet
/// moves at the speed of light and carries `photons_per_packet` photons
/// and a backstop lifetime. Existing entities are untouched; fewer packets
/// appear only once the world has run out of identities.
pub fn spawn_photon_packets(world: &mut World, plasma_position: Position3D, laser_power: u64)
    requires
        old(world).wf(),
        in_world(plasma_position),
    ensures
        final(world).wf(),
        final(world).next_id == old(world).next_id + (final(world).entities@.len() - old(world).entities@.len()),
        old(world).next_id + PACKET_COUNT <= u64::MAX ==> final(world).entities@.len() == old(world).entities@.len()
            + PACKET_COUNT,
        old(world).entities@.len() <= final(world).entities@.len() <= old(world).entities@.len()
            + PACKET_COUNT,
        final(world).entities@.subrange(0, old(world).entities@.len() as int) == old(world).entities@,
        forall|k: int|
            old(world).entities@.len() <= k < final(world).entities@.len() ==> is_emitted_packet(
                #[trigger] final(world).entities@[k],
                plasma_position,
                photons_per_packet(laser_power as int),
            ),
        final(world).next_id >= old(world).next_id,
{
    let count = packet_photons(laser_power);
    let ghost start = world.entities@;
    let mut k: u64 = 0;
    while k < PACKET_COUNT
        invariant
            world.wf(),
            start.len() <= world.entities@.len() <= start.len() + k,
            world.entities@.subrange(0, start.len() as int) == start,
            forall|m: int|
                start.len() <= m < world.entities@.len() ==> is_emitted_packet(
                    #[trigger] world.entities@[m],
                    plasma_position,
                    count,
                ),
            world.next_id >= old(world).next_id,
            world.next_id - old(world).next_id == world.entities@.len() - start.len(),
            world.entities@.len() - start.len() == k || world.next_id == u64::MAX,
            start == old(world).entities@,
            k <= PACKET_COUNT,
            in_world(plasma_position),
        decreases PACKET_COUNT - k,
    {
        let dir = random_direction();
        let velocity = photon_velocity(&dir);
        assert(is_emission_velocity(velocity));
        let mut rec = EntityRecord::empty();
        rec.position = Some(Position(plasma_position));
        rec.velocity = Some(velocity);
        rec.photon = Some(PhotonPacket::new(count));
        rec.lifetime = Some(Lifetime::new(PHOTON_LIFETIME));
        let ghost before = world.entities@;
        let _ = world.spawn(rec);
        proof {
            assert forall|m: int| start.len() <= m < world.entities@.len() implies is_emitted_packet(
                #[trigger] world.entities@[m],
                plasma_position,
                count,
            ) by {
                if m < before.len() {
                    assert(world.entities@[m] == before[m]);
                }
            }
            assert(world.entities@.subrange(0, start.len() as int) =~= start) by {
                assert forall|m: int| 0 <= m < start.len() implies world.entities@[m] == start[m] by {
                    assert(before.subrange(0, start.len() as int)[m] == start[m]);
                }
            }
        }
        k = k + 1;
    }
}

/// Position of a droplet stage in the sequence Spherical, Pancaked,
/// Plasma, Debris.
pub open spec fn stage(s: DropletState) -> int {
    match s {
        DropletState::Spherical => 0,
        DropletState::Pancaked => 1,
        DropletState::Plasma => 2,
        DropletState::Debris => 3,
    }
}

/// The state machine only moves forward, one stage per pulse at most.
pub proof fn lemma_transition_forward(s: DropletState, shape: CollisionShape, is_prepulse: bool)
    ensures
        stage(s) <= stage(transition(s, shape, is_prepulse).0) <= stage(s) + 1,
{
}

/// How the laser-droplet pass may change an entity: a droplet's stage only
/// moves forward, a beam only goes from unfired to fired, and nothing else
/// but a droplet's shape and lifetime changes.
pub open spec fn interaction_step(before: EntityRecord, after: EntityRecord) -> bool {
    &&& after.id == before.id
    &&& after.position == before.position
    &&& after.velocity == before.velocity
    &&& after.mass == before.mass
    &&& after.thermal == before.thermal
    &&& after.material == before.material
    &&& after.kind == before.kind
    &&& after.photon == before.photon
    &&& after.mirror == before.mirror
    &&& after.cooling == before.cooling
    &&& (before.droplet is None ==> after.droplet is None && after.shape == before.shape && after.lifetime
        == before.lifetime)
    &&& (before.droplet matches Some(s) ==> after.droplet matches Some(t) && stage(s) <= stage(t))
    &&& (before.laser is None ==> after.laser is None)
    &&& (before.laser matches Some(b) ==> after.laser matches Some(a) && a.power == b.power
        && a.is_prepulse == b.is_prepulse && (b.has_fired ==> a.has_fired))
}

/// Whether the laser focus at `laser` strikes the droplet shape `shape` at
/// `droplet`.
pub open spec fn strikes(laser: Position3D, droplet: Position3D, shape: CollisionShape) -> bool {
    match shape {
        CollisionShape::Sphere { radius } => sphere_contains(laser, droplet, radius@),
        CollisionShape::Disk { radius, thickness } => disk_contains(laser, droplet, radius@, thickness@),
        CollisionShape::Ray { .. } => false,
    }
}

fn shape_hit(laser: Position3D, droplet: Position3D, shape: CollisionShape) -> (hit: bool)
    requires
        in_world(laser),
        in_world(droplet),
    ensures
        hit == strikes(laser, droplet, shape),
{
    match shape {
        CollisionShape::Sphere { radius } => ray_sphere_intersection(laser, droplet, radius),
        CollisionShape::Disk { radius, thickness } => ray_disk_intersection(laser, droplet, radius, thickness),
        CollisionShape::Ray { .. } => false,
    }
}

/// Whether `e` is a droplet that a beam focused at `laser` strikes.
pub open spec fn is_target(e: EntityRecord, laser: Position3D) -> bool {
    match (e.position, e.droplet, e.shape, e.kind) {
        (Some(p), Some(_), Some(shape), Some(_)) => strikes(laser, p.0, shape),
        _ => false,
    }
}

/// Whether entity `i` of `s` is a beam that has not fired yet.
pub open spec fn is_live_beam(s: Seq<EntityRecord>, i: int) -> bool {
    s[i].position is Some && (s[i].laser matches Some(b) && !b.has_fired)
}

/// Whether `j` is the first droplet other than `i` struck by beam `i`.
pub open spec fn is_first_target(s: Seq<EntityRecord>, i: int, j: int) -> bool {
    &&& 0 <= j < s.len()
    &&& j != i
    &&& is_target(s[j], s[i].position.unwrap().0)
    &&& forall|k: int| 0 <= k < j && k != i ==> !is_target(#[trigger] s[k], s[i].position.unwrap().0)
}

/// Whether beam `i` strikes no droplet.
pub open spec fn misses_all(s: Seq<EntityRecord>, i: int) -> bool {
    forall|k: int| 0 <= k < s.len() && k != i ==> !is_target(#[trigger] s[k], s[i].position.unwrap().0)
}

/// Whether beam `i` striking droplet `j` turns it to plasma.
pub open spec fn ignites(s: Seq<EntityRecord>, i: int, j: int) -> bool {
    s[j].droplet == Some(DropletState::Pancaked) && !s[i].laser.unwrap().is_prepulse
}

/// The entities after beam `i` strikes droplet `j`: the beam is marked
/// fired and the droplet follows the state machine, receiving the plasma
/// lifetime when it ignites.
pub open spec fn after_strike(s: Seq<EntityRecord>, i: int, j: int) -> Seq<EntityRecord> {
    let e = s[i];
    let d = s[j];
    let beam = e.laser.unwrap();
    let t = transition(d.droplet.unwrap(), d.shape.unwrap(), beam.is_prepulse);
    let struck = EntityRecord {
        droplet: Some(t.0),
        shape: Some(t.1),
        lifetime: if ignites(s, i, j) { Some(Lifetime { remaining: PLASMA_LIFETIME }) } else { d.lifetime },
        ..d
    };
    s.update(i, EntityRecord { laser: Some(LaserBeam { has_fired: true, ..beam }), ..e }).update(j, struck)
}

/// Fires beam `i`, if it is a beam that has not fired: the first droplet it
/// strikes (in entity order) takes the hit. Returns that droplet and
/// whether it ignited; `None`, with nothing changed, when `i` is no live
/// beam or the beam strikes nothing.
pub fn fire_beam(world: &mut World, i: usize) -> (struck: Option<(usize, bool)>)
    requires
        old(world).wf(),
        i < old(world).entities@.len(),
    ensures
        final(world).wf(),
        final(world).next_id == old(world).next_id,
        struck matches Some((j, ignited)) ==> is_live_beam(old(world).entities@, i as int) && is_first_target(
            old(world).entities@,
            i as int,
            j as int,
        ) && final(world).entities@ == after_strike(old(world).entities@, i as int, j as int) && ignited == ignites(
            old(world).entities@,
            i as int,
            j as int,
        ),
        struck is None ==> final(world).entities@ == old(world).entities@ && (is_live_beam(old(world).entities@, i as int)
            ==> misses_all(old(world).entities@, i as int)),
        forall|k: int|
            0 <= k < old(world).entities@.len() ==> interaction_step(
                old(world).entities@[k],
                #[trigger] final(world).entities@[k],
            ),
{
    let e = world.entities[i];
    let ghost s = world.entities@;
    assert(record_ok(s[i as int]));
    let (lpos, beam) = match (e.position, e.laser) {
        (Some(p), Some(b)) => {
            if b.has_fired {
                return None;
            }
            (p, b)
        },
        _ => {
            return None;
        },
    };
    let n = world.entities.len();
    let mut j: usize = 0;
    while j < n
        invariant
            n == world.entities@.len(),
            world.entities@ == s,
            world.wf(),
            j <= n,
            i < n,
            e == s[i as int],
            e.position == Some(lpos),
            e.laser == Some(beam),
            !beam.has_fired,
            in_world(lpos.0),
            world.next_id == old(world).next_id,
            s == old(world).entities@,
            forall|k: int| 0 <= k < j && k != i ==> !is_target(#[trigger] s[k], lpos.0),
        decreases n - j,
    {
        if j != i {
            let d = world.entities[j];
            assert(record_ok(s[j as int]));
            if let (Some(dpos), Some(state), Some(shape), Some(_kind)) = (d.position, d.droplet, d.shape, d.kind) {
                if shape_hit(lpos.0, dpos.0, shape) {
                    let fired = EntityRecord { laser: Some(LaserBeam { has_fired: true, ..beam }), ..e };
                    world.entities.set(i, fired);
                    let (new_state, new_shape) = apply_transition(state, shape, beam.is_prepulse);
                    proof {
                        lemma_transition_forward(state, shape, beam.is_prepulse);
                    }
                    let ignited = state == DropletState::Pancaked && !beam.is_prepulse;
                    let mut changed = EntityRecord { droplet: Some(new_state), shape: Some(new_shape), ..d };
                    if ignited {
                        changed.lifetime = Some(Lifetime::new(PLASMA_LIFETIME));
                    }
                    world.entities.set(j, changed);
                    proof {
                        assert(world.entities@ =~= after_strike(s, i as int, j as int));
                    }
                    return Some((j, ignited));
                }
            }
        }
        j = j + 1;
    }
    None
}

proof fn lemma_first_target_unique(s: Seq<EntityRecord>, i: int, j1: int, j2: int)
    requires
        is_first_target(s, i, j1),
        is_first_target(s, i, j2),
    ensures
        j1 == j2,
{
    if j1 < j2 {
        assert(!is_target(s[j1], s[i].position.unwrap().0));
    } else if j2 < j1 {
        assert(!is_target(s[j2], s[i].position.unwrap().0));
    }
}

/// The droplet that beam `i` strikes, if `i` is a live beam that strikes one.
pub open spec fn beam_target(s: Seq<EntityRecord>, i: int) -> Option<int> {
    if is_live_beam(s, i) && exists|j: int| is_first_target(s, i, j) {
        Some(choose|j: int| is_first_target(s, i, j))
    } else {
        None
    }
}

/// Entities after firing beam `i`, and the plasma it ignites (position
/// and pulse power), if any.
pub open spec fn beam_step(s: Seq<EntityRecord>, i: int) -> (Seq<EntityRecord>, Option<(Position3D, u64)>) {
    match beam_target(s, i) {
        Some(j) => (
            after_strike(s, i, j),
            if ignites(s, i, j) {
                Some((s[j].position.unwrap().0, s[i].laser.unwrap().power))
            } else {
                None
            },
        ),
        None => (s, None),
    }
}

/// Entities after firing the first `n` entities' beams in entity order,
/// and the plasmas ignited, in order.
pub open spec fn beams_pass(s: Seq<EntityRecord>, n: nat) -> (Seq<EntityRecord>, Seq<(Position3D, u64)>)
    decreases n,
{
    if n == 0 {
        (s, Seq::empty())
    } else {
        let prev = beams_pass(s, (n - 1) as nat);
        let step = beam_step(prev.0, n - 1);
        (
            step.0,
            match step.1 {
                Some(ev) => prev.1.push(ev),
                None => prev.1,
            },
        )
    }
}

/// A spherical droplet that is the first target of a live pre-pulse beam
/// is flattened by that beam into a disk of twice its radius and a quarter
/// of its radius in thickness, stays where it is, and the beam is marked
/// fired; a main pulse leaves a spherical droplet as it was and ignites
/// nothing.
pub proof fn lemma_beam_step_on_sphere(s: Seq<EntityRecord>, i: int, j: int, radius: Distance)
    requires
        0 <= i < s.len(),
        is_live_beam(s, i),
        is_first_target(s, i, j),
        s[j].droplet == Some(DropletState::Spherical),
        s[j].shape == Some(CollisionShape::Sphere { radius }),
    ensures
        beam_step(s, i).0[i].laser.unwrap().has_fired,
        beam_step(s, i).0[j].position == s[j].position,
        s[i].laser.unwrap().is_prepulse ==> beam_step(s, i).0[j].droplet == Some(DropletState::Pancaked)
            && beam_step(s, i).0[j].shape == Some(
            CollisionShape::Disk {
                radius: Distance((radius@ * 2) as i128),
                thickness: Distance(div_trunc(radius@, 4) as i128),
            },
        ),
        !s[i].laser.unwrap().is_prepulse ==> beam_step(s, i).0[j].droplet == Some(DropletState::Spherical)
            && beam_step(s, i).0[j].shape == s[j].shape && beam_step(s, i).0[j].lifetime == s[j].lifetime
            && beam_step(s, i).1 is None,
{
    lemma_first_target_unique(s, i, j, choose|k: int| is_first_target(s, i, k));
}

/// Index of packet `m` of the `k`-th plasma, after `n` entities.
pub open spec fn packet_slot(n: int, k: int, m: int) -> int {
    n + k * PACKET_COUNT + m
}

/// What the laser-droplet pass does to the entities `e0` (next identity
/// `id0`): the beams are fired in entity order (`beams_pass`), then each
/// ignited plasma, in order, emits `PACKET_COUNT` packets at its position
/// with `photons_per_packet` of its pulse's power (all of them whenever
/// identities remain).
pub open spec fn interaction_pass(e0: Seq<EntityRecord>, id0: u64, e1: Seq<EntityRecord>, id1: u64) -> bool {
    let n = e0.len();
    let pass = beams_pass(e0, n);
    &&& e1.len() >= n
    &&& e1.subrange(0, n as int) == pass.0
    &&& id1 == id0 + (e1.len() - n)
    &&& id0 + PACKET_COUNT * pass.1.len() <= u64::MAX ==> {
        &&& e1.len() == n + PACKET_COUNT * pass.1.len()
        &&& forall|k: int, m: int|
            #![trigger packet_slot(n as int, k, m)]
            0 <= k < pass.1.len() && 0 <= m < PACKET_COUNT ==> is_emitted_packet(
                e1[packet_slot(n as int, k, m)],
                pass.1[k].0,
                photons_per_packet(pass.1[k].1 as int),
            )
    }
}

/// Resolves laser-droplet collisions. Each beam, in entity order, is fired
/// as `fire_beam` does: the first droplet it strikes takes the hit and
/// follows the state machine (`beams_pass`). Once all beams are resolved,
/// each ignited plasma, in order, emits `PACKET_COUNT` photon packets at
/// its position with `photons_per_packet` of its pulse's power.
pub fn laser_droplet_interaction_system(world: &mut World)
    requires
        old(world).wf(),
    ensures
        final(world).wf(),
        interaction_pass(old(world).entities@, old(world).next_id, final(world).entities@, final(world).next_id),
        forall|k: int|
            0 <= k < old(world).entities@.len() ==> interaction_step(
                old(world).entities@[k],
                #[trigger] final(world).entities@[k],
            ),
{
    let n = world.entities.len();
    let ghost start = world.entities@;
    let mut plasmas: Vec<(Position3D, u64)> = Vec::new();
    let mut i: usize = 0;
    while i < n
        invariant
            world.wf(),
            world.entities@.len() == n,
            world.next_id == old(world).next_id,
            start.len() == n,
            start == old(world).entities@,
            i <= n,
            (world.entities@, plasmas@) == beams_pass(start, i as nat),
            forall|k: int| 0 <= k < n ==> interaction_step(start[k], #[trigger] world.entities@[k]),
            forall|k: int| 0 <= k < plasmas@.len() ==> in_world(#[trigger] plasmas@[k].0),
        decreases n - i,
    {
        let ghost before = world.entities@;
        let ghost events = plasmas@;
        let power = match world.entities[i].laser {
            Some(b) => b.power,
            None => 0,
        };
        match fire_beam(world, i) {
            Some((j, ignited)) => {
                proof {
                    lemma_first_target_unique(before, i as int, j as int, choose|j: int| is_first_target(before, i as int, j));
                    assert(beam_target(before, i as int) == Some(j as int));
                }
                if ignited {
                    let p = world.entities[j].position;
                    assert(record_ok(world.entities@[j as int]));
                    assert(p == before[j as int].position);
                    if let Some(pos) = p {
                        plasmas.push((pos.0, power));
                    }
                }
            },
            None => {
                proof {
                    if is_live_beam(before, i as int) {
                        assert(!exists|j: int| is_first_target(before, i as int, j));
                    }
                }
            },
        }
        proof {
            assert forall|k: int| 0 <= k < n implies interaction_step(start[k], #[trigger] world.entities@[k]) by {
                assert(interaction_step(start[k], before[k]));
                assert(interaction_step(before[k], world.entities@[k]));
            }
            assert(beams_pass(start, (i + 1) as nat).0 == beam_step(beams_pass(start, i as nat).0, i as int).0);
        }
        i = i + 1;
    }
    let ghost pass_world = world.entities@;
    let m = plasmas.len();
    let mut p: usize = 0;
    while p < m
        invariant
            world.wf(),
            world.entities@.len() >= n,
            start.len() == n,
            start == old(world).entities@,
            m == plasmas@.len(),
            p <= m,
            (pass_world, plasmas@) == beams_pass(start, n as nat),
            world.entities@.subrange(0, n as int) == pass_world,
            world.next_id == old(world).next_id + (world.entities@.len() - n),
            forall|k: int| 0 <= k < n ==> interaction_step(start[k], #[trigger] world.entities@[k]),
            forall|k: int| 0 <= k < plasmas@.len() ==> in_world(#[trigger] plasmas@[k].0),
            old(world).next_id + PACKET_COUNT * m <= u64::MAX ==> {
                &&& world.entities@.len() == n + PACKET_COUNT * p
                &&& forall|k: int, mm: int|
                    #![trigger packet_slot(n as int, k, mm)]
                    0 <= k < p && 0 <= mm < PACKET_COUNT ==> is_emitted_packet(
                        world.entities@[packet_slot(n as int, k, mm)],
                        plasmas@[k].0,
                        photons_per_packet(plasmas@[k].1 as int),
                    )
            },
        decreases m - p,
    {
        let (pos, power) = plasmas[p];
        let ghost before = world.entities@;
        spawn_photon_packets(world, pos, power);
        proof {
            assert forall|k: int| 0 <= k < n implies interaction_step(start[k], #[trigger] world.entities@[k]) by {
                assert(world.entities@.subrange(0, before.len() as int)[k] == before[k]);
            }
            assert(world.entities@.subrange(0, n as int) =~= pass_world) by {
                assert forall|k: int| 0 <= k < n implies world.entities@[k] == pass_world[k] by {
                    assert(world.entities@.subrange(0, before.len() as int)[k] == before[k]);
                    assert(before.subrange(0, n as int)[k] == pass_world[k]);
                }
            }
            if old(world).next_id + PACKET_COUNT * m <= u64::MAX {
                assert(PACKET_COUNT * p + PACKET_COUNT <= PACKET_COUNT * m);
                assert forall|k: int, mm: int|
                    #![trigger packet_slot(n as int, k, mm)]
                    0 <= k < p + 1 && 0 <= mm < PACKET_COUNT implies is_emitted_packet(
                        world.entities@[packet_slot(n as int, k, mm)],
                        plasmas@[k].0,
                        photons_per_packet(plasmas@[k].1 as int),
                    ) by {
                    if k < p {
                        assert(world.entities@.subrange(0, before.len() as int)[packet_slot(n as int, k, mm)]
                            == before[packet_slot(n as int, k, mm)]);
                    } else {
                        assert(packet_slot(n as int, k, mm) == before.len() + mm);
                        assert(is_emitted_packet(
                            world.entities@[before.len() + mm],
                            pos,
                            photons_per_packet(power as int),
                        ));
                    }
                }
            }
        }
        p = p + 1;
    }
}

/// A plasma whose lifetime has run out collapses into debris.
pub open spec fn after_plasma_check(e: EntityRecord) -> EntityRecord {
    if e.droplet == Some(DropletState::Plasma) && (e.lifetime matches Some(l) && l.remaining == 0) {
        EntityRecord { droplet: Some(DropletState::Debris), ..e }
    } else {
        e
    }
}

/// Turns every plasma droplet whose lifetime has reached zero into debris.
pub fn plasma_to_debris_system(world: &mut World)
    requires
        old(world).wf(),
    ensures
        final(world).wf(),
        final(world).next_id == old(world).next_id,
        final(world).entities@ == Seq::new(
            old(world).entities@.len(),
            |k: int| after_plasma_check(old(world).entities@[k]),
        ),
{
    let n = world.entities.len();
    let mut i: usize = 0;
    while i < n
        invariant
            world.wf(),
            world.next_id == old(world).next_id,
            world.entities@.len() == n,
            old(world).entities@.len() == n,
            i <= n,
            forall|k: int| 0 <= k < i ==> world.entities@[k] == after_plasma_check(old(world).entities@[k]),
            forall|k: int| i <= k < n ==> world.entities@[k] == old(world).entities@[k],
        decreases n - i,
    {
        let e = world.entities[i];
        assert(record_ok(world.entities@[i as int]));
        if e.droplet == Some(DropletState::Plasma) {
            if let Some(l) = e.lifetime {
                if l.remaining == 0 {
                    world.entities.set(i, EntityRecord { droplet: Some(DropletState::Debris), ..e });
                }
            }
        }
        i = i + 1;
    }
    assert(world.entities@ =~= Seq::new(n as nat, |k: int| after_plasma_check(old(world).entities@[k])));
}

/// One coordinate after moving at `v` micrometres per second for `dt`
/// picoseconds: `v * dt / 10^6` picometres (rounded toward zero), stopping
/// at the edge of the world.
pub open spec fn moved(p: int, v: int, dt: int) -> int {
    clamp_spec(p + div_trunc(v * dt, 1_000_000), -WORLD_LIMIT as int, WORLD_LIMIT as int)
}

pub open spec fn after_motion(e: EntityRecord, dt: int) -> EntityRecord {
    match (e.position, e.velocity) {
        (Some(p), Some(v)) => EntityRecord {
            position: Some(
                Position(
                    Position3D {
                        x: Distance(moved(p.0.x@, v.0.x as int, dt) as i128),
                        y: Distance(moved(p.0.y@, v.0.y as int, dt) as i128),
                        z: Distance(moved(p.0.z@, v.0.z as int, dt) as i128),
                    },
                ),
            ),
            ..e
        },
        _ => e,
    }
}

fn move_coordinate(p: Distance, v: i64, dt: u64) -> (r: Distance)
    requires
        -WORLD_LIMIT <= p@ <= WORLD_LIMIT,
    ensures
        r@ == moved(p@, v as int, dt as int),
        -WORLD_LIMIT <= r@ <= WORLD_LIMIT,
{
    assert(-0x8000_0000_0000_0000 * 0xFFFF_FFFF_FFFF_FFFF <= v * dt <= 0x7FFF_FFFF_FFFF_FFFF * 0xFFFF_FFFF_FFFF_FFFF)
        by (nonlinear_arith)
        requires
            i64::MIN <= v <= i64::MAX,
            0 <= dt <= u64::MAX,
    ;
    let prod: i128 = (v as i128) * (dt as i128);
    let step = div_toward_zero(prod, 1_000_000);
    proof {
        if prod >= 0 {
            vstd::arithmetic::div_mod::lemma_div_is_ordered_by_denominator(prod as int, 1, 1_000_000);
            vstd::arithmetic::div_mod::lemma_div_pos_is_pos(prod as int, 1_000_000);
        } else {
            vstd::arithmetic::div_mod::lemma_div_is_ordered_by_denominator(-prod, 1, 1_000_000);
            vstd::arithmetic::div_mod::lemma_div_pos_is_pos(-prod, 1_000_000);
        }
        assert(-0x8000_0000_0000_0000 * 0xFFFF_FFFF_FFFF_FFFF / 1_000_000 <= step);
    }
    let q: i128 = p.0 + step;
    if q < -WORLD_LIMIT {
        Distance(-WORLD_LIMIT)
    } else if q > WORLD_LIMIT {
        Distance(WORLD_LIMIT)
    } else {
        Distance(q)
    }
}

/// Moves every entity that has a velocity by velocity times `dt`.
pub fn physics_movement_system(world: &mut World, dt: u64)
    requires
        old(world).wf(),
    ensures
        final(world).wf(),
        final(world).next_id == old(world).next_id,
        final(world).entities@ == Seq::new(
            old(world).entities@.len(),
            |k: int| after_motion(old(world).entities@[k], dt as int),
        ),
{
    let n = world.entities.len();
    let mut i: usize = 0;
    while i < n
        invariant
            world.wf(),
            world.next_id == old(world).next_id,
            world.entities@.len() == n,
            old(world).entities@.len() == n,
            i <= n,
            forall|k: int| 0 <= k < i ==> world.entities@[k] == after_motion(old(world).entities@[k], dt as int),
            forall|k: int| i <= k < n ==> world.entities@[k] == old(world).entities@[k],
        decreases n - i,
    {
        let e = world.entities[i];
        assert(record_ok(world.entities@[i as int]));
        if let (Some(p), Some(v)) = (e.position, e.velocity) {
            let moved_to = Position3D {
                x: move_coordinate(p.0.x, v.0.x, dt),
                y: move_coordinate(p.0.y, v.0.y, dt),
                z: move_coordinate(p.0.z, v.0.z, dt),
            };
            world.entities.set(i, EntityRecord { position: Some(Position(moved_to)), ..e });
        }
        i = i + 1;
    }
    assert(world.entities@ =~= Seq::new(n as nat, |k: int| after_motion(old(world).entities@[k], dt as int)));
}

/// An entity after `dt` picoseconds are counted off its lifetime.
pub open spec fn after_lifetime(e: EntityRecord, dt: int) -> EntityRecord {
    match e.lifetime {
        Some(l) => EntityRecord {
            lifetime: Some(Lifetime { remaining: if l.remaining > dt { (l.remaining - dt) as u64 } else { 0 } }),
            ..e
        },
        None => e,
    }
}

/// Whether an entity outlives a tick of `dt` picoseconds: it has no
/// lifetime, or more than `dt` of it left.
pub open spec fn survives(e: EntityRecord, dt: int) -> bool {
    match e.lifetime {
        Some(l) => l.remaining > dt,
        None => true,
    }
}

/// Counts `dt` off every lifetime and destroys the entities whose lifetime
/// runs out, after the pass.
pub fn lifetime_system(world: &mut World, dt: u64)
    requires
        old(world).wf(),
    ensures
        final(world).wf(),
        final(world).next_id == old(world).next_id,
        final(world).entities@ == kept(
            Seq::new(old(world).entities@.len(), |k: int| after_lifetime(old(world).entities@[k], dt as int)),
            Seq::new(old(world).entities@.len(), |k: int| survives(old(world).entities@[k], dt as int)),
        ),
{
    let n = world.entities.len();
    let mut keep: Vec<bool> = Vec::new();
    let mut i: usize = 0;
    while i < n
        invariant
            world.wf(),
            world.next_id == old(world).next_id,
            world.entities@.len() == n,
            old(world).entities@.len() == n,
            i <= n,
            keep@.len() == i,
            forall|k: int| 0 <= k < i ==> world.entities@[k] == after_lifetime(old(world).entities@[k], dt as int),
            forall|k: int| 0 <= k < i ==> keep@[k] == survives(old(world).entities@[k], dt as int),
            forall|k: int| i <= k < n ==> world.entities@[k] == old(world).entities@[k],
        decreases n - i,
    {
        let mut e = world.entities[i];
        assert(record_ok(world.entities@[i as int]));
        match e.lifetime {
            Some(l) => {
                let mut left = l;
                let expired = left.tick(dt);
                e.lifetime = Some(left);
                world.entities.set(i, e);
                keep.push(!expired);
            },
            None => {
                keep.push(true);
            },
        }
        i = i + 1;
    }
    proof {
        assert(world.entities@ =~= Seq::new(n as nat, |k: int| after_lifetime(old(world).entities@[k], dt as int)));
        assert(keep@ =~= Seq::new(n as nat, |k: int| survives(old(world).entities@[k], dt as int)));
    }
    world.retain(&keep);
}

/// An entity after `n` lifetime passes of `dt` picoseconds each.
pub open spec fn aged(e: EntityRecord, dt: int, n: nat) -> EntityRecord
    decreases n,
{
    if n == 0 {
        e
    } else {
        after_lifetime(aged(e, dt, (n - 1) as nat), dt)
    }
}

proof fn lemma_aged_remaining(e: EntityRecord, dt: int, n: nat)
    requires
        dt > 0,
        e.lifetime is Some,
        forall|m: nat| m < n ==> survives(#[trigger] aged(e, dt, m), dt),
    ensures
        aged(e, dt, n).lifetime is Some,
        aged(e, dt, n).lifetime.unwrap().remaining == e.lifetime.unwrap().remaining - n * dt,
        e.lifetime.unwrap().remaining > n * dt || n == 0,
    decreases n,
{
    if n > 0 {
        let p = (n - 1) as nat;
        assert forall|m: nat| m < p implies survives(#[trigger] aged(e, dt, m), dt) by {
            assert(m < n);
        }
        lemma_aged_remaining(e, dt, p);
        assert(survives(aged(e, dt, p), dt));
        assert(p * dt + dt == n * dt) by (nonlinear_arith)
            requires
                p + 1 == n,
        ;
    }
}

/// Every entity with a lifetime is eventually destroyed: it survives at
/// most `remaining / dt` lifetime passes, so within `n` passes, for any `n`
/// with `n * dt >= remaining`, one of them removes it.
pub proof fn lemma_lifetime_runs_out(e: EntityRecord, dt: nat, n: nat)
    requires
        dt > 0,
        n >= 1,
        e.lifetime matches Some(l) && n * dt >= l.remaining,
    ensures
        exists|m: nat| m < n && !survives(#[trigger] aged(e, dt as int, m), dt as int),
{
    if forall|m: nat| m < n ==> survives(#[trigger] aged(e, dt as int, m), dt as int) {
        lemma_aged_remaining(e, dt as int, n);
    }
}

} // verus!
