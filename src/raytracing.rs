//! Photon packets and their transport through the mirror optics.

use vstd::prelude::*;
use crate::units::{Distance, Position3D, in_world, dist_sq};
use crate::vector::{Vector3, is_direction, direction_of, reflect, reflect_spec};
use crate::components::{Position, Velocity, OpticalMaterial, ThermalState, PPM, heat_rise};
use crate::optics::{SurfaceHit, intersection_spec, normal_spec};
use crate::world::{World, EntityRecord, record_ok, kept, lemma_kept_from, lemma_kept_flag};
use crate::random::random_between;

verus! {

/// Planck's constant times the speed of light, in zeptojoule-picometres
/// (6.626e-34 J s x 3e8 m/s).
pub const PLANCK_TIMES_LIGHT_SPEED: u64 = 198_780_000;

/// EUV wavelength, 13.5 nm, in picometres.
pub const EUV_WAVELENGTH: i128 = 13_500;

/// Energy of one photon of the given wavelength, `h c / lambda`, in whole
/// zeptojoules (rounded down: 14724 zJ at 13.5 nm, against 14724.44 zJ).
/// Photon counts are computed from the exact quotient, not from this.
pub open spec fn photon_energy(wavelength_pm: int) -> int {
    PLANCK_TIMES_LIGHT_SPEED as int / wavelength_pm
}

/// Most reflections a photon packet may make.
pub const MAX_BOUNCES: u32 = 15;

/// A bundle of EUV photons traced as one ray.
#[derive(Clone, Copy, Debug, PartialEq, Eq, Structural)]
pub struct PhotonPacket {
    pub photon_count: u64,
    /// Wavelength of the photons.
    pub wavelength: Distance,
    /// Energy of each photon in zeptojoules, rounded down to a whole one.
    pub energy_per_photon: u64,
    /// Specular reflections so far.
    pub bounces: u32,
}

impl PhotonPacket {
    pub const MAX_BOUNCES: u32 = MAX_BOUNCES;

    /// A fresh packet of `photon_count` photons at 13.5 nm.
    pub fn new(photon_count: u64) -> (r: PhotonPacket)
        ensures
            r.photon_count == photon_count,
            r.wavelength@ == EUV_WAVELENGTH,
            r.energy_per_photon == photon_energy(EUV_WAVELENGTH as int),
            r.bounces == 0,
    {
        PhotonPacket {
            photon_count,
            wavelength: Distance(EUV_WAVELENGTH),
            energy_per_photon: PLANCK_TIMES_LIGHT_SPEED / (EUV_WAVELENGTH as u64),
            bounces: 0,
        }
    }

    /// Energy of the whole packet, in zeptojoules.
    pub fn total_energy(&self) -> (r: u128)
        ensures
            r == self.photon_count * self.energy_per_photon,
    {
        assert(self.photon_count * self.energy_per_photon <= u128::MAX) by (nonlinear_arith)
            requires
                self.photon_count <= u64::MAX,
                self.energy_per_photon <= u64::MAX,
        ;
        (self.photon_count as u128) * (self.energy_per_photon as u128)
    }
}

/// Hits closer than this are ignored, so that a packet does not strike the
/// surface it has just left again (1 um, in picometres).
pub const MIN_HIT_DISTANCE: i128 = 1_000_000;

/// Packets farther than this from the origin are discarded (20 m, in pm).
pub const MAX_DISTANCE: i128 = 20_000_000_000_000;

/// Running counts of the ray tracer.
#[derive(Clone, Copy, Debug, PartialEq, Eq, Structural)]
pub struct RayTracingStatistics {
    pub total_reflections: u64,
    pub total_absorptions: u64,
    pub active_photon_packets: u64,
    /// Mean bounce count of the live packets, in thousandths.
    pub average_bounces: u64,
}

impl Default for RayTracingStatistics {
    fn default() -> (r: RayTracingStatistics)
        ensures
            r == (RayTracingStatistics {
                total_reflections: 0,
                total_absorptions: 0,
                active_photon_packets: 0,
                average_bounces: 0,
            }),
    {
        RayTracingStatistics {
            total_reflections: 0,
            total_absorptions: 0,
            active_photon_packets: 0,
            average_bounces: 0,
        }
    }
}

/// Energy a mirror absorbs from a packet, in nanojoules: the packet's
/// energy (zeptojoules) times the absorption (parts per million), held at
/// `u64::MAX`.
pub open spec fn absorbed_energy(p: PhotonPacket, m: OpticalMaterial) -> u64 {
    crate::vector::min_u64(p.photon_count * p.energy_per_photon * m.absorption / 1_000_000_000_000_000_000)
}

fn absorbed(p: &PhotonPacket, m: &OpticalMaterial) -> (r: u64)
    requires
        m.wf(),
    ensures
        r == absorbed_energy(*p, *m),
{
    let total = p.total_energy();
    let d: u128 = 1_000_000_000_000_000_000;
    let q = total / d;
    let rem = total % d;
    let a = m.absorption as u128;
    proof {
        assert(q <= 0x1_0000_0000_0000_0000_0000_0000) by {
            vstd::arithmetic::div_mod::lemma_div_is_ordered(total as int, u128::MAX as int, d as int);
        }
        assert(q * a <= 0x1_0000_0000_0000_0000_0000_0000 * 1_000_000) by (nonlinear_arith)
            requires
                q <= 0x1_0000_0000_0000_0000_0000_0000,
                a <= 1_000_000,
        ;
        assert(rem * a <= 1_000_000_000_000_000_000 * 1_000_000) by (nonlinear_arith)
            requires
                rem < 1_000_000_000_000_000_000,
                a <= 1_000_000,
        ;
        vstd::arithmetic::div_mod::lemma_fundamental_div_mod(total as int, d as int);
        assert(total * a == (rem * a) + (q * a) * d) by (nonlinear_arith)
            requires
                total == d * q + rem,
        ;
        vstd::arithmetic::div_mod::lemma_hoist_over_denominator(rem * a, q * a, d as nat);
        assert(rem * a >= 0) by (nonlinear_arith)
            requires
                rem >= 0,
                a >= 0,
        ;
    }
    let v: u128 = q * a + (rem * a) / d;
    if v > u64::MAX as u128 {
        u64::MAX
    } else {
        v as u64
    }
}

/// How the tracing pass may change an entity: identity kept and no heat
/// ever taken away.
pub open spec fn heat_not_lost(before: EntityRecord, after: EntityRecord) -> bool {
    &&& after.id == before.id
    &&& (before.thermal matches Some(t) ==> after.thermal matches Some(u) && u.heat_energy
        >= t.heat_energy && u.heat_capacity == t.heat_capacity)
    &&& (before.thermal is None ==> after.thermal is None)
}

/// Whether `e` is some entity of `olds` that has lost no heat.
pub open spec fn descends_from(olds: Seq<EntityRecord>, e: EntityRecord) -> bool {
    exists|i: int| 0 <= i < olds.len() && heat_not_lost(olds[i], e)
}

/// Mirror struck first by a ray: the index among the entities, the hit and
/// the surface normal there.
pub struct Strike {
    pub index: usize,
    pub hit: SurfaceHit,
    pub normal: Vector3,
}

/// Where the ray from `origin` along `dir` strikes entity `m`, with the
/// normal there, when `m` is a mirror (surface, coating and heat state), the
/// hit lies farther than `MIN_HIT_DISTANCE` and the normal is defined.
pub open spec fn usable_hit(m: EntityRecord, origin: Position3D, dir: Vector3) -> Option<(SurfaceHit, Vector3)> {
    match (m.position, m.mirror, m.material, m.thermal) {
        (Some(_), Some(s), Some(_), Some(_)) => match intersection_spec(s.geometry, origin, dir) {
            Some(h) => if h.distance@ > MIN_HIT_DISTANCE {
                match normal_spec(s.geometry, h.point) {
                    Some(n) => Some((h, n)),
                    None => None,
                }
            } else {
                None
            },
            None => None,
        },
        _ => None,
    }
}

/// Nearest mirror surface struck by the ray from `origin` along `dir`,
/// ignoring hits closer than `MIN_HIT_DISTANCE` and surfaces without a
/// normal at the hit; ties go to the mirror met first. Entity `skip` (the
/// packet itself) is not considered.
#[verifier::rlimit(50)]
pub fn nearest_strike(world: &World, origin: &Position3D, dir: &Vector3, skip: usize) -> (r: Option<Strike>)
    requires
        world.wf(),
    ensures
        r matches Some(s) ==> {
            &&& s.index < world.entities@.len()
            &&& s.index != skip
            &&& usable_hit(world.entities@[s.index as int], *origin, *dir) == Some((s.hit, s.normal))
            &&& is_direction(s.normal)
            &&& in_world(s.hit.point)
            &&& forall|j: int|
                0 <= j < world.entities@.len() && j != skip ==> (#[trigger] usable_hit(
                    world.entities@[j],
                    *origin,
                    *dir,
                ) matches Some(h) ==> s.hit.distance@ <= h.0.distance@ && (j < s.index ==> s.hit.distance@
                    < h.0.distance@))
        },
        r is None ==> forall|j: int|
            0 <= j < world.entities@.len() && j != skip ==> (#[trigger] usable_hit(world.entities@[j], *origin, *dir)) is None,
{
    let n = world.entities.len();
    let mut best: Option<Strike> = None;
    let mut j: usize = 0;
    while j < n
        invariant
            n == world.entities@.len(),
            world.wf(),
            j <= n,
            best matches Some(s) ==> {
                &&& s.index < j
                &&& s.index != skip
                &&& usable_hit(world.entities@[s.index as int], *origin, *dir) == Some((s.hit, s.normal))
                &&& is_direction(s.normal)
                &&& in_world(s.hit.point)
                &&& forall|k: int|
                    0 <= k < j && k != skip ==> (#[trigger] usable_hit(world.entities@[k], *origin, *dir) matches Some(
                        h,
                    ) ==> s.hit.distance@ <= h.0.distance@ && (k < s.index ==> s.hit.distance@ < h.0.distance@))
            },
            best is None ==> forall|k: int|
                0 <= k < j && k != skip ==> (#[trigger] usable_hit(world.entities@[k], *origin, *dir)) is None,
        decreases n - j,
    {
        let m = world.entities[j];
        if j != skip {
            if let (Some(_p), Some(surface), Some(_mat), Some(_t)) = (m.position, m.mirror, m.material, m.thermal) {
                if let Some(h) = surface.geometry.ray_intersection(origin, dir) {
                    let closer = match &best {
                        Some(b) => h.distance.0 < b.hit.distance.0,
                        None => true,
                    };
                    if h.distance.0 > MIN_HIT_DISTANCE {
                        if let Some(normal) = surface.geometry.normal_at(&h.point) {
                            if closer {
                                best = Some(Strike { index: j, hit: h, normal });
                            }
                        }
                    }
                }
            }
        }
        j = j + 1;
    }
    best
}

/// What becomes of a packet that strikes a mirror.
#[derive(Clone, Copy, Debug, PartialEq, Eq, Structural)]
pub enum Scatter {
    /// Reflected: the packet's new position, velocity and state.
    Reflected { position: Position3D, velocity: Velocity, packet: PhotonPacket },
    /// Absorbed: the heat, in nanojoules, handed to the mirror.
    Absorbed { energy: u64 },
}

/// Outcome of a strike for a uniform draw in `[0, PPM)`: when the draw
/// falls below the reflectivity the packet moves to the hit point, its
/// velocity is reflected specularly about the normal and it counts one
/// more bounce; otherwise the mirror absorbs `absorbed_energy`.
pub open spec fn scatter_spec(
    packet: PhotonPacket,
    velocity: Velocity,
    hit: SurfaceHit,
    normal: Vector3,
    material: OpticalMaterial,
    draw: int,
) -> Scatter {
    if draw < material.reflectivity {
        Scatter::Reflected {
            position: hit.point,
            velocity: Velocity(reflect_spec(velocity.0, normal)),
            packet: PhotonPacket { bounces: (packet.bounces + 1) as u32, ..packet },
        }
    } else {
        Scatter::Absorbed { energy: absorbed_energy(packet, material) }
    }
}

/// Resolves a strike for the given draw, as `scatter_spec`.
pub fn scatter(
    packet: &PhotonPacket,
    velocity: &Velocity,
    hit: &SurfaceHit,
    normal: &Vector3,
    material: &OpticalMaterial,
    draw: u32,
) -> (r: Scatter)
    requires
        is_direction(*normal),
        material.wf(),
        packet.bounces < MAX_BOUNCES,
    ensures
        r == scatter_spec(*packet, *velocity, *hit, *normal, *material, draw as int),
{
    if material.interact(draw) {
        Scatter::Reflected {
            position: hit.point,
            velocity: Velocity(reflect(&velocity.0, normal)),
            packet: PhotonPacket { bounces: packet.bounces + 1, ..*packet },
        }
    } else {
        Scatter::Absorbed { energy: absorbed(packet, material) }
    }
}

fn saturating_increment(v: u64) -> (r: u64)
    ensures
        r == crate::vector::min_u64(v + 1),
{
    if v == u64::MAX {
        v
    } else {
        v + 1
    }
}

/// Direction along which a packet moving at `v` is traced.
pub open spec fn trace_direction(v: Velocity) -> Option<Vector3> {
    if v.0.x == 0 && v.0.y == 0 && v.0.z == 0 {
        None
    } else {
        Some(crate::vector::direction_spec(v.0.x as int, v.0.y as int, v.0.z as int))
    }
}

/// Whether entity `j` holds the nearest usable hit of the ray, the first
/// one among equally near hits.
pub open spec fn is_nearest(s: Seq<EntityRecord>, origin: Position3D, dir: Vector3, skip: int, j: int) -> bool {
    &&& 0 <= j < s.len()
    &&& j != skip
    &&& usable_hit(s[j], origin, dir) is Some
    &&& forall|k: int|
        0 <= k < s.len() && k != skip ==> (#[trigger] usable_hit(s[k], origin, dir) matches Some(h) ==> usable_hit(
            s[j],
            origin,
            dir,
        ).unwrap().0.distance@ <= h.0.distance@ && (k < j ==> usable_hit(s[j], origin, dir).unwrap().0.distance@
            < h.0.distance@))
}

proof fn lemma_nearest_unique(s: Seq<EntityRecord>, origin: Position3D, dir: Vector3, skip: int, j1: int, j2: int)
    requires
        is_nearest(s, origin, dir, skip, j1),
        is_nearest(s, origin, dir, skip, j2),
    ensures
        j1 == j2,
{
    let _ = usable_hit(s[j1], origin, dir);
    let _ = usable_hit(s[j2], origin, dir);
}

/// The entity whose surface the ray strikes first, if any.
pub open spec fn strike_of(s: Seq<EntityRecord>, origin: Position3D, dir: Vector3, skip: int) -> Option<int> {
    if exists|j: int| is_nearest(s, origin, dir, skip, j) {
        Some(choose|j: int| is_nearest(s, origin, dir, skip, j))
    } else {
        None
    }
}

/// Whether `energy` nanojoules can be added to `t` within its representation.
pub open spec fn heat_fits(t: ThermalState, energy: int) -> bool {
    t.heat_energy + energy <= i64::MAX && t.temperature <= u128::MAX - 0x100_0000_0000_0000_0000_0000
}

/// Mirror `m` after absorbing `energy` nanojoules, as `add_heat` records it
/// (heat that would not fit the representation is not recorded).
pub open spec fn heated(m: EntityRecord, energy: u64) -> EntityRecord {
    match m.thermal {
        Some(t) => if heat_fits(t, energy as int) {
            EntityRecord {
                thermal: Some(
                    ThermalState {
                        temperature: (t.temperature + heat_rise(energy as int, t.heat_capacity as int)) as u128,
                        heat_energy: (t.heat_energy + energy) as i64,
                        heat_capacity: t.heat_capacity,
                    },
                ),
                ..m
            }
        } else {
            m
        },
        None => m,
    }
}

/// Tracing of entity `i` for a uniform draw `draw`: the entities after it,
/// whether `i` is kept, and the reflections and absorptions it counts. A
/// packet at the bounce limit is dropped; one that strikes no mirror is
/// kept unchanged; one that strikes follows `scatter_spec`, moving and
/// turning when reflected, or heating the struck mirror and being dropped
/// when absorbed. Anything else is kept unchanged.
pub open spec fn trace_one(s: Seq<EntityRecord>, i: int, draw: int) -> (Seq<EntityRecord>, bool, int, int) {
    let e = s[i];
    match (e.position, e.velocity, e.photon) {
        (Some(pos), Some(vel), Some(p)) => if p.bounces >= MAX_BOUNCES {
            (s, false, 0, 0)
        } else {
            match trace_direction(vel) {
                None => (s, true, 0, 0),
                Some(dir) => match strike_of(s, pos.0, dir, i) {
                    None => (s, true, 0, 0),
                    Some(j) => {
                        let h = usable_hit(s[j], pos.0, dir).unwrap();
                        match scatter_spec(p, vel, h.0, h.1, s[j].material.unwrap(), draw) {
                            Scatter::Reflected { position, velocity, packet } => (
                                s.update(
                                    i,
                                    EntityRecord {
                                        position: Some(Position(position)),
                                        velocity: Some(velocity),
                                        photon: Some(packet),
                                        ..e
                                    },
                                ),
                                true,
                                1,
                                0,
                            ),
                            Scatter::Absorbed { energy } => (s.update(j, heated(s[j], energy)), false, 0, 1),
                        }
                    },
                },
            }
        },
        _ => (s, true, 0, 0),
    }
}

/// Tracing of the first `n` entities in order with the given draws: the
/// entities after it, which of them are kept, and the reflections and
/// absorptions counted.
pub open spec fn trace_pass(s: Seq<EntityRecord>, draws: Seq<int>, n: nat) -> (Seq<EntityRecord>, Seq<bool>, int, int)
    decreases n,
{
    if n == 0 {
        (s, Seq::empty(), 0, 0)
    } else {
        let prev = trace_pass(s, draws, (n - 1) as nat);
        let st = trace_one(prev.0, n - 1, draws[n - 1]);
        (st.0, prev.1.push(st.1), prev.2 + st.2, prev.3 + st.3)
    }
}

proof fn lemma_trace_prefix(s: Seq<EntityRecord>, draws: Seq<int>, d: int, n: nat)
    requires
        n <= draws.len(),
    ensures
        trace_pass(s, draws.push(d), n) == trace_pass(s, draws, n),
        trace_pass(s, draws, n).1.len() == n,
        trace_pass(s, draws, n).2 >= 0,
        trace_pass(s, draws, n).3 >= 0,
    decreases n,
{
    if n > 0 {
        lemma_trace_prefix(s, draws, d, (n - 1) as nat);
        assert(draws.push(d)[n - 1] == draws[n - 1]);
    }
}

/// Traces entity `i` of the world, as `trace_one` for the draw it makes.
fn trace_entity(world: &mut World, i: usize) -> (r: (bool, bool, bool, Ghost<int>))
    requires
        old(world).wf(),
        i < old(world).entities@.len(),
    ensures
        final(world).wf(),
        final(world).next_id == old(world).next_id,
        0 <= r.3@ < PPM,
        trace_one(old(world).entities@, i as int, r.3@) == (
            final(world).entities@,
            r.0,
            if r.1 { 1int } else { 0int },
            if r.2 { 1int } else { 0int },
        ),
        forall|k: int|
            0 <= k < old(world).entities@.len() ==> heat_not_lost(
                old(world).entities@[k],
                #[trigger] final(world).entities@[k],
            ),
{
    let ghost s = world.entities@;
    let e = world.entities[i];
    assert(record_ok(s[i as int]));
    if let (Some(pos), Some(vel), Some(packet)) = (e.position, e.velocity, e.photon) {
        if packet.bounces >= MAX_BOUNCES {
            return (false, false, false, Ghost(0));
        }
        let dir = match direction_of(vel.0.x as i128, vel.0.y as i128, vel.0.z as i128) {
            Some(d) => d,
            None => {
                return (true, false, false, Ghost(0));
            },
        };
        assert(trace_direction(vel) == Some(dir));
        let strike = match nearest_strike(world, &pos.0, &dir, i) {
            Some(st) => st,
            None => {
                proof {
                    assert(!exists|j: int| is_nearest(s, pos.0, dir, i as int, j));
                }
                return (true, false, false, Ghost(0));
            },
        };
        proof {
            assert(is_nearest(s, pos.0, dir, i as int, strike.index as int));
            lemma_nearest_unique(
                s,
                pos.0,
                dir,
                i as int,
                strike.index as int,
                choose|j: int| is_nearest(s, pos.0, dir, i as int, j),
            );
        }
        let mirror = world.entities[strike.index];
        assert(record_ok(s[strike.index as int]));
        let material = mirror.material.unwrap();
        let draw = random_between(0, (PPM - 1) as i64);
        match scatter(&packet, &vel, &strike.hit, &strike.normal, &material, draw as u32) {
            Scatter::Reflected { position, velocity, packet: bounced } => {
                world.entities.set(
                    i,
                    EntityRecord { position: Some(Position(position)), velocity: Some(velocity), photon: Some(bounced), ..e },
                );
                (true, true, false, Ghost(draw as int))
            },
            Scatter::Absorbed { energy } => {
                let mut heat = mirror.thermal.unwrap();
                if heat.heat_energy as i128 + energy as i128 <= i64::MAX as i128 && heat.temperature <= u128::MAX
                    - 0x100_0000_0000_0000_0000_0000 {
                    proof {
                        vstd::arithmetic::div_mod::lemma_div_is_ordered_by_denominator(
                            energy * 1000,
                            1,
                            heat.heat_capacity as int,
                        );
                        vstd::arithmetic::div_mod::lemma_div_pos_is_pos(energy * 1000, heat.heat_capacity as int);
                    }
                    heat.add_heat(energy);
                    world.entities.set(strike.index, EntityRecord { thermal: Some(heat), ..mirror });
                }
                (false, false, true, Ghost(draw as int))
            },
        }
    } else {
        (true, false, false, Ghost(0))
    }
}

/// Whether tracing the entities `s0` with the uniform draws `draws` (one
/// per entity, each in `[0, PPM)`) and then destroying the packets not
/// kept gives `s1`, with the counters of `st0` raised to those of `st1`.
pub open spec fn traced_with(
    s0: Seq<EntityRecord>,
    st0: RayTracingStatistics,
    s1: Seq<EntityRecord>,
    st1: RayTracingStatistics,
    draws: Seq<int>,
) -> bool {
    &&& draws.len() == s0.len()
    &&& forall|k: int| 0 <= k < draws.len() ==> 0 <= #[trigger] draws[k] < PPM
    &&& ({
        let r = trace_pass(s0, draws, s0.len());
        &&& s1 == kept(r.0, r.1)
        &&& st1.total_reflections == crate::vector::min_u64(st0.total_reflections + r.2)
        &&& st1.total_absorptions == crate::vector::min_u64(st0.total_absorptions + r.3)
    })
}

/// Whether some uniform draws trace `s0` into `s1` (see `traced_with`).
pub open spec fn traced(s0: Seq<EntityRecord>, st0: RayTracingStatistics, s1: Seq<EntityRecord>, st1: RayTracingStatistics) -> bool {
    exists|draws: Seq<int>| #[trigger] traced_with(s0, st0, s1, st1, draws)
}

/// Transports photon packets for one tick, tracing each entity in order
/// as `trace_one` with its own uniform draw in `[0, PPM)`; packets that
/// are not kept are destroyed after the pass. Whatever the draws, each
/// packet at the bounce limit is destroyed, each packet that strikes
/// nothing is kept unchanged, and each packet that strikes is either
/// reflected (kept, moved and turned, one more bounce) or absorbed
/// (destroyed, the struck mirror heated by `absorbed_energy`). The
/// reflection and absorption counters rise by the numbers of each.
pub fn photon_mirror_interaction_system(world: &mut World, stats: &mut RayTracingStatistics)
    requires
        old(world).wf(),
    ensures
        final(world).wf(),
        final(world).next_id == old(world).next_id,
        exists|draws: Seq<int>|
            #[trigger] traced_with(old(world).entities@, *old(stats), final(world).entities@, *final(stats), draws),
        forall|k: int|
            0 <= k < final(world).entities@.len() ==> descends_from(
                old(world).entities@,
                #[trigger] final(world).entities@[k],
            ),
        final(stats).active_photon_packets == old(stats).active_photon_packets,
        final(stats).average_bounces == old(stats).average_bounces,
        final(stats).total_reflections >= old(stats).total_reflections,
        final(stats).total_absorptions >= old(stats).total_absorptions,
{
    let n = world.entities.len();
    let ghost start = world.entities@;
    let ghost mut draws: Seq<int> = Seq::empty();
    let mut keep: Vec<bool> = Vec::new();
    let mut i: usize = 0;
    while i < n
        invariant
            world.wf(),
            n == world.entities@.len(),
            n == start.len(),
            start == old(world).entities@,
            i <= n,
            draws.len() == i,
            world.next_id == old(world).next_id,
            forall|k: int| 0 <= k < draws.len() ==> 0 <= #[trigger] draws[k] < PPM,
            ({
                let r = trace_pass(start, draws, i as nat);
                &&& world.entities@ == r.0
                &&& keep@ == r.1
                &&& stats.total_reflections == crate::vector::min_u64(old(stats).total_reflections + r.2)
                &&& stats.total_absorptions == crate::vector::min_u64(old(stats).total_absorptions + r.3)
            }),
            forall|k: int| 0 <= k < n ==> heat_not_lost(start[k], #[trigger] world.entities@[k]),
            stats.active_photon_packets == old(stats).active_photon_packets,
            stats.average_bounces == old(stats).average_bounces,
        decreases n - i,
    {
        let ghost before = world.entities@;
        proof {
            lemma_trace_prefix(start, draws, 0, i as nat);
        }
        let (kept_it, reflected, absorbed, draw) = trace_entity(world, i);
        if reflected {
            stats.total_reflections = saturating_increment(stats.total_reflections);
        }
        if absorbed {
            stats.total_absorptions = saturating_increment(stats.total_absorptions);
        }
        keep.push(kept_it);
        proof {
            lemma_trace_prefix(start, draws, draw@, i as nat);
            draws = draws.push(draw@);
            assert(draws[i as int] == draw@);
            assert forall|k: int| 0 <= k < n implies heat_not_lost(start[k], #[trigger] world.entities@[k]) by {
                assert(heat_not_lost(start[k], before[k]));
                assert(heat_not_lost(before[k], world.entities@[k]));
            }
        }
        i = i + 1;
    }
    proof {
        lemma_trace_prefix(start, draws, 0, n as nat);
    }
    let ghost mid = world.entities@;
    world.retain(&keep);
    assert(world.entities@ == kept(mid, keep@));
    proof {
        assert forall|k: int| 0 <= k < world.entities@.len() implies descends_from(
            old(world).entities@,
            #[trigger] world.entities@[k],
        ) by {
            lemma_kept_from(mid, keep@, k);
            let i = choose|i: int| 0 <= i < mid.len() && mid[i] == kept(mid, keep@)[k];
            assert(heat_not_lost(start[i], mid[i]));
            assert(heat_not_lost(old(world).entities@[i], world.entities@[k]));
        }
        assert(traced_with(old(world).entities@, *old(stats), world.entities@, *stats, draws));
    }
}

/// Bounce limit, one packet at a time: a packet at the limit is dropped
/// untraced, and a traced packet gains at most one bounce.
pub proof fn lemma_trace_one_bounces(s: Seq<EntityRecord>, i: int, draw: int)
    requires
        0 <= i < s.len(),
        s[i].photon is Some,
    ensures
        s[i].photon.unwrap().bounces >= MAX_BOUNCES && s[i].position is Some && s[i].velocity is Some
            ==> !trace_one(s, i, draw).1 && trace_one(s, i, draw).0 == s,
        trace_one(s, i, draw).0[i].photon matches Some(p) ==> p.bounces <= s[i].photon.unwrap().bounces + 1,
{
}

/// Energy accounting, one packet at a time: when a packet is absorbed the
/// struck mirror's heat rises by exactly `absorbed_energy` (whenever it
/// fits the representation) and no other entity changes.
pub proof fn lemma_trace_one_absorbs(s: Seq<EntityRecord>, i: int, draw: int)
    requires
        0 <= i < s.len(),
        trace_one(s, i, draw).3 == 1,
    ensures
        ({
            let e = s[i];
            let pos = e.position.unwrap();
            let vel = e.velocity.unwrap();
            let dir = trace_direction(vel).unwrap();
            let j = strike_of(s, pos.0, dir, i).unwrap();
            let t = s[j].thermal.unwrap();
            let energy = absorbed_energy(e.photon.unwrap(), s[j].material.unwrap());
            &&& !trace_one(s, i, draw).1
            &&& trace_one(s, i, draw).0 == s.update(j, heated(s[j], energy))
            &&& s[j].thermal is Some && heat_fits(t, energy as int) ==> trace_one(s, i, draw).0[j].thermal.unwrap().heat_energy
                == t.heat_energy + energy
        }),
{
}

/// After the cleanup pass no kept packet is at the bounce limit or farther
/// than `MAX_DISTANCE` from the origin.
pub proof fn lemma_cleanup_leaves_no_spent_packets(s: Seq<EntityRecord>, k: int)
    requires
        0 <= k < kept(s, Seq::new(s.len(), |m: int| !discarded(s[m]))).len(),
    ensures
        !discarded(kept(s, Seq::new(s.len(), |m: int| !discarded(s[m])))[k]),
{
    let flags = Seq::new(s.len(), |m: int| !discarded(s[m]));
    lemma_kept_flag(s, flags, k);
}

/// Whether a packet escapes the optics or has used up its bounces.
pub open spec fn discarded(e: EntityRecord) -> bool {
    match (e.position, e.photon) {
        (Some(pos), Some(p)) => dist_sq(pos.0, Position3D { x: Distance(0), y: Distance(0), z: Distance(0) })
            > MAX_DISTANCE * MAX_DISTANCE || p.bounces >= MAX_BOUNCES,
        _ => false,
    }
}

/// Destroys every packet farther than `MAX_DISTANCE` from the origin or
/// at the bounce limit, whether or not it struck anything this tick.
pub fn photon_cleanup_system(world: &mut World)
    requires
        old(world).wf(),
    ensures
        final(world).wf(),
        final(world).next_id == old(world).next_id,
        final(world).entities@ == kept(
            old(world).entities@,
            Seq::new(old(world).entities@.len(), |k: int| !discarded(old(world).entities@[k])),
        ),
{
    let n = world.entities.len();
    let origin = Position3D { x: Distance(0), y: Distance(0), z: Distance(0) };
    let mut keep: Vec<bool> = Vec::new();
    let mut i: usize = 0;
    while i < n
        invariant
            world.wf(),
            world.entities@ == old(world).entities@,
            n == world.entities@.len(),
            i <= n,
            keep@.len() == i,
            origin == (Position3D { x: Distance(0), y: Distance(0), z: Distance(0) }),
            forall|k: int| 0 <= k < i ==> keep@[k] == !discarded(old(world).entities@[k]),
        decreases n - i,
    {
        let e = world.entities[i];
        assert(record_ok(world.entities@[i as int]));
        let mut gone = false;
        if let (Some(pos), Some(p)) = (e.position, e.photon) {
            proof {
                crate::units::lemma_world_points_measurable(pos.0, origin);
            }
            let sq = crate::units::distance_squared(&pos.0, &origin);
            gone = sq > 400_000_000_000_000_000_000_000_000u128 || p.bounces >= MAX_BOUNCES;
        }
        keep.push(!gone);
        i = i + 1;
    }
    assert(keep@ =~= Seq::new(n as nat, |k: int| !discarded(old(world).entities@[k])));
    world.retain(&keep);
}

/// Number of photon packets among `s`.
pub open spec fn packet_count(s: Seq<EntityRecord>) -> int
    decreases s.len(),
{
    if s.len() == 0 {
        0
    } else {
        packet_count(s.drop_last()) + if s.last().photon is Some { 1int } else { 0int }
    }
}

/// Sum of the bounce counts of the photon packets among `s`.
pub open spec fn bounce_total(s: Seq<EntityRecord>) -> int
    decreases s.len(),
{
    if s.len() == 0 {
        0
    } else {
        bounce_total(s.drop_last()) + match s.last().photon {
            Some(p) => p.bounces as int,
            None => 0int,
        }
    }
}

/// What recounting the packets of `s` does to the statistics `st0`.
pub open spec fn ray_stats_step(s: Seq<EntityRecord>, st0: RayTracingStatistics, st1: RayTracingStatistics) -> bool {
    &&& st1.active_photon_packets == packet_count(s)
    &&& packet_count(s) > 0 ==> st1.average_bounces == bounce_total(s) * 1000 / packet_count(s)
    &&& packet_count(s) == 0 ==> st1.average_bounces == st0.average_bounces
    &&& st1.total_reflections == st0.total_reflections
    &&& st1.total_absorptions == st0.total_absorptions
}

/// Recounts the live packets and their mean bounce count (in thousandths);
/// the mean is kept as it was when no packet is alive.
pub fn raytracing_statistics_system(world: &World, stats: &mut RayTracingStatistics)
    requires
        world.wf(),
    ensures
        final(stats).active_photon_packets == packet_count(world.entities@),
        packet_count(world.entities@) > 0 ==> final(stats).average_bounces == bounce_total(world.entities@) * 1000
            / packet_count(world.entities@),
        packet_count(world.entities@) == 0 ==> final(stats).average_bounces == old(stats).average_bounces,
        final(stats).total_reflections == old(stats).total_reflections,
        final(stats).total_absorptions == old(stats).total_absorptions,
{
    let n = world.entities.len();
    let mut count: u64 = 0;
    let mut total: u128 = 0;
    let mut i: usize = 0;
    while i < n
        invariant
            world.wf(),
            n == world.entities@.len(),
            i <= n,
            count == packet_count(world.entities@.take(i as int)),
            total == bounce_total(world.entities@.take(i as int)),
            count <= i,
            total <= count * 15,
        decreases n - i,
    {
        proof {
            assert(world.entities@.take(i + 1).drop_last() == world.entities@.take(i as int));
            assert(world.entities@.take(i + 1).last() == world.entities@[i as int]);
            assert(record_ok(world.entities@[i as int]));
        }
        if let Some(p) = world.entities[i].photon {
            count = count + 1;
            total = total + p.bounces as u128;
        }
        i = i + 1;
    }
    assert(world.entities@.take(n as int) == world.entities@);
    stats.active_photon_packets = count;
    if count > 0 {
        let avg: u128 = total * 1000 / (count as u128);
        proof {
            vstd::arithmetic::div_mod::lemma_div_is_ordered((total * 1000) as int, count * 15000, count as int);
            vstd::arithmetic::div_mod::lemma_div_multiples_vanish(15000, count as int);
            assert(count * 15000 == count as int * 15000);
        }
        stats.average_bounces = avg as u64;
    }
}

} // verus!
