//! Droplet generation, laser targeting and the simulation clock.

use vstd::prelude::*;
use crate::units::{Distance, Position3D, in_world, dist_sq};
use crate::vector::{Vector3, UNIT, saturate_spec, saturate};
use crate::units::div_trunc;
use crate::components::{Mass, Velocity, Position, ThermalState, CollisionShape, EntityType, Lifetime, AMBIENT};
use crate::world::{World, EntityRecord, record_ok};

verus! {

/// Life stages of a tin droplet.
#[derive(Clone, Copy, Debug, PartialEq, Eq, Structural)]
pub enum DropletState {
    /// Initial spherical droplet.
    Spherical,
    /// Flattened by the pre-pulse.
    Pancaked,
    /// Ionized plasma, emitting EUV light.
    Plasma,
    /// Solid debris after the plasma collapses.
    Debris,
}

/// Droplet generator settings.
#[derive(Clone, Copy, Debug, PartialEq, Eq, Structural)]
pub struct DropletGeneratorConfig {
    /// Generation frequency in hertz.
    pub frequency: u64,
    /// Time between droplets in picoseconds.
    pub period: u64,
    /// Nominal launch speed in micrometres per second.
    pub velocity: i64,
    /// Standard deviation of the launch-speed jitter, micrometres per second.
    pub velocity_jitter: u64,
    /// Droplet mass.
    pub mass: Mass,
    /// Initial droplet radius.
    pub radius: Distance,
    /// Where droplets appear.
    pub spawn_position: Position3D,
    /// Launch direction, scaled by `UNIT`.
    pub spawn_direction: Vector3,
}

/// Largest droplet radius the generator accepts (2^60 pm).
pub const DROPLET_RADIUS_LIMIT: i128 = 0x1000_0000_0000_0000;

impl DropletGeneratorConfig {
    pub open spec fn wf(&self) -> bool {
        &&& self.period > 0
        &&& 0 <= self.radius@ <= DROPLET_RADIUS_LIMIT
        &&& in_world(self.spawn_position)
        &&& -UNIT <= self.spawn_direction.x <= UNIT
        &&& -UNIT <= self.spawn_direction.y <= UNIT
        &&& -UNIT <= self.spawn_direction.z <= UNIT
    }
}

impl Default for DropletGeneratorConfig {
    /// 50 kHz droplets of 30 um radius launched at 100 m/s (jitter 0.5 m/s)
    /// along +X from 50 mm before the focus.
    fn default() -> (r: DropletGeneratorConfig)
        ensures
            r == DropletGeneratorConfig::default_spec(),
            r.wf(),
    {
        DropletGeneratorConfig {
            frequency: 50_000,
            period: 20_000_000,
            velocity: 100_000_000,
            velocity_jitter: 500_000,
            mass: Mass(5_000_000),
            radius: Distance(30_000_000),
            spawn_position: Position3D {
                x: Distance(-50_000_000_000),
                y: Distance(0),
                z: Distance(0),
            },
            spawn_direction: Vector3 { x: UNIT, y: 0, z: 0 },
        }
    }
}

impl DropletGeneratorConfig {
    pub open spec fn default_spec() -> DropletGeneratorConfig {
        DropletGeneratorConfig {
            frequency: 50_000,
            period: 20_000_000,
            velocity: 100_000_000,
            velocity_jitter: 500_000,
            mass: Mass(5_000_000),
            radius: Distance(30_000_000),
            spawn_position: Position3D {
                x: Distance(-50_000_000_000i128),
                y: Distance(0),
                z: Distance(0),
            },
            spawn_direction: Vector3 { x: UNIT, y: 0, z: 0 },
        }
    }
}

/// Timing state of the droplet generator.
#[derive(Clone, Copy, Debug, PartialEq, Eq, Structural)]
pub struct DropletGeneratorState {
    /// Time accumulated toward the next droplet, in picoseconds.
    pub time_accumulator: u64,
    /// Droplets launched so far (held at `u64::MAX`).
    pub droplet_count: u64,
}

impl Default for DropletGeneratorState {
    fn default() -> (r: DropletGeneratorState)
        ensures
            r == (DropletGeneratorState { time_accumulator: 0, droplet_count: 0 }),
    {
        DropletGeneratorState { time_accumulator: 0, droplet_count: 0 }
    }
}

/// Droplets due when `dt` more picoseconds are added to accumulator `acc`.
pub open spec fn droplets_due(acc: int, dt: int, period: int) -> int {
    (acc + dt) / period
}

impl DropletGeneratorState {
    /// Adds `dt` picoseconds to the accumulator and takes out one period
    /// for every droplet that is due, counting them; returns how many are
    /// due. Periods are never skipped: a long tick launches several.
    pub fn advance(&mut self, period: u64, dt: u64) -> (due: u64)
        requires
            period > 0,
        ensures
            due == crate::vector::min_u64(
                droplets_due(old(self).time_accumulator as int, dt as int, period as int),
            ),
            final(self).time_accumulator == (old(self).time_accumulator + dt) % (period as int),
            final(self).droplet_count == crate::vector::min_u64(
                old(self).droplet_count as int + droplets_due(
                    old(self).time_accumulator as int,
                    dt as int,
                    period as int,
                ),
            ),
    {
        let total: u128 = (self.time_accumulator as u128) + (dt as u128);
        let due128: u128 = total / (period as u128);
        self.time_accumulator = (total % (period as u128)) as u64;
        let count: u128 = (self.droplet_count as u128) + due128;
        self.droplet_count = if count > u64::MAX as u128 {
            u64::MAX
        } else {
            count as u64
        };
        if due128 > u64::MAX as u128 {
            return u64::MAX;
        }
        due128 as u64
    }
}

/// The generator after one tick of `dt` picoseconds.
pub open spec fn advance_spec(s: DropletGeneratorState, period: int, dt: int) -> DropletGeneratorState {
    DropletGeneratorState {
        time_accumulator: ((s.time_accumulator + dt) % period) as u64,
        droplet_count: crate::vector::min_u64(s.droplet_count + droplets_due(s.time_accumulator as int, dt, period)),
    }
}

/// The generator after `n` ticks of `dt` picoseconds each.
pub open spec fn advance_ticks(s: DropletGeneratorState, period: int, dt: int, n: nat) -> DropletGeneratorState
    decreases n,
{
    if n == 0 {
        s
    } else {
        advance_spec(advance_ticks(s, period, dt, (n - 1) as nat), period, dt)
    }
}

/// Throughput: periods are caught up, never skipped. From a fresh
/// generator, `n` ticks of `dt` picoseconds launch exactly
/// `floor(n dt / period)` droplets and leave `n dt mod period` accumulated,
/// whatever the tick length.
pub proof fn lemma_generator_throughput(period: nat, dt: nat, n: nat)
    requires
        period > 0,
        n * dt <= u64::MAX,
    ensures
        advance_ticks(DropletGeneratorState { time_accumulator: 0, droplet_count: 0 }, period as int, dt as int, n)
            == (DropletGeneratorState {
            time_accumulator: (((n * dt) as int) % (period as int)) as u64,
            droplet_count: (((n * dt) as int) / (period as int)) as u64,
        }),
    decreases n,
{
    let p = period as int;
    if n > 0 {
        let m = (n - 1) as nat;
        assert(m * dt <= n * dt) by (nonlinear_arith)
            requires
                m + 1 == n,
        ;
        lemma_generator_throughput(period, dt, m);
        let a: int = (m * dt) as int;
        assert(a + dt == n * dt) by (nonlinear_arith)
            requires
                m + 1 == n,
                a == m * dt,
        ;
        vstd::arithmetic::div_mod::lemma_fundamental_div_mod(a, p);
        vstd::arithmetic::div_mod::lemma_mod_bound(a, p);
        vstd::arithmetic::div_mod::lemma_hoist_over_denominator(a % p + dt, a / p, period);
        assert(a % p + dt + (a / p) * p == a + dt) by (nonlinear_arith)
            requires
                a == p * (a / p) + a % p,
        ;
        vstd::arithmetic::div_mod::lemma_add_mod_noop(a, dt as int, p);
        vstd::arithmetic::div_mod::lemma_mod_twice(a, p);
                vstd::arithmetic::div_mod::lemma_add_mod_noop(a % p, dt as int, p);
        vstd::arithmetic::div_mod::lemma_div_is_ordered_by_denominator((n * dt) as int, 1, p);
        vstd::arithmetic::div_mod::lemma_div_pos_is_pos((n * dt) as int, p);
        vstd::arithmetic::div_mod::lemma_div_pos_is_pos(a, p);
        vstd::arithmetic::div_mod::lemma_div_pos_is_pos(a % p + dt, p);
    } else {
        assert(n * dt == 0) by (nonlinear_arith)
            requires
                n == 0,
        ;
        vstd::arithmetic::div_mod::lemma_basic_div(0, p);
        vstd::arithmetic::div_mod::lemma_small_mod(0, period);
    }
}

/// Launch velocity of a droplet: the configured direction times the
/// nominal speed plus the jitter sample, each component divided by `UNIT`
/// (rounded toward zero) and held in the range of `i64`.
pub open spec fn launch_velocity(dir: Vector3, speed: int, jitter: int) -> Vector3 {
    Vector3 {
        x: saturate_spec(div_trunc(dir.x * (speed + jitter), UNIT as int)),
        y: saturate_spec(div_trunc(dir.y * (speed + jitter), UNIT as int)),
        z: saturate_spec(div_trunc(dir.z * (speed + jitter), UNIT as int)),
    }
}

fn launch_component(d: i64, s: i128) -> (r: i64)
    requires
        -UNIT <= d <= UNIT,
        -0x1_0000_0000_0000_0000 <= s <= 0x1_0000_0000_0000_0000,
    ensures
        r == saturate_spec(div_trunc(d * s, UNIT as int)),
{
    assert(-0x1_0000_0000_0000_0000 * 1_000_000 <= d * s <= 0x1_0000_0000_0000_0000 * 1_000_000)
        by (nonlinear_arith)
        requires
            -1_000_000 <= d <= 1_000_000,
            -0x1_0000_0000_0000_0000 <= s <= 0x1_0000_0000_0000_0000,
    ;
    saturate(crate::units::div_toward_zero((d as i128) * s, UNIT as i128))
}

/// Velocity of a droplet launched along `dir` at `speed + jitter`.
pub fn droplet_velocity(dir: &Vector3, speed: i64, jitter: i64) -> (r: Velocity)
    requires
        -UNIT <= dir.x <= UNIT,
        -UNIT <= dir.y <= UNIT,
        -UNIT <= dir.z <= UNIT,
    ensures
        r.0 == launch_velocity(*dir, speed as int, jitter as int),
{
    let s: i128 = (speed as i128) + (jitter as i128);
    Velocity(
        Vector3 {
            x: launch_component(dir.x, s),
            y: launch_component(dir.y, s),
            z: launch_component(dir.z, s),
        },
    )
}

/// A laser pulse.
#[derive(Clone, Copy, Debug, PartialEq, Eq, Structural)]
pub struct LaserBeam {
    /// Power in watts.
    pub power: u64,
    /// Pre-pulse (true) or main pulse (false).
    pub is_prepulse: bool,
    /// Whether the pulse has already struck a droplet.
    pub has_fired: bool,
}

impl LaserBeam {
    pub const PRE_PULSE_POWER: u64 = 1_000;

    pub const MAIN_PULSE_POWER: u64 = 20_000;
}

/// Laser targeting: focal point, sensor delay and cooldown in picoseconds.
#[derive(Clone, Copy, Debug, PartialEq, Eq, Structural)]
pub struct LaserTargetingSystem {
    pub focal_point: Position3D,
    pub sensor_delay: u64,
    pub cooldown: u64,
}

impl Default for LaserTargetingSystem {
    fn default() -> (r: LaserTargetingSystem)
        ensures
            r.focal_point.x@ == 0 && r.focal_point.y@ == 0 && r.focal_point.z@ == 0,
            r.sensor_delay == 1_000_000,
            r.cooldown == 0,
    {
        LaserTargetingSystem {
            focal_point: Position3D::zero(),
            sensor_delay: 1_000_000,
            cooldown: 0,
        }
    }
}

/// Simulated time: total and current tick length, in picoseconds.
#[derive(Clone, Copy, Debug, PartialEq, Eq, Structural)]
pub struct SimulationTime {
    pub total: u64,
    pub delta: u64,
}

impl Default for SimulationTime {
    fn default() -> (r: SimulationTime)
        ensures
            r == (SimulationTime { total: 0, delta: 1_000_000 }),
    {
        SimulationTime { total: 0, delta: 1_000_000 }
    }
}

impl SimulationTime {
    /// Starts a tick of `delta` picoseconds.
    pub fn tick(&mut self, delta: u64)
        requires
            old(self).total + delta <= u64::MAX,
        ensures
            final(self).delta == delta,
            final(self).total == old(self).total + delta,
    {
        self.delta = delta;
        self.total = self.total + delta;
    }
}

/// Heat capacity of a droplet, 0.001 J/K, in microjoules per kelvin.
pub const DROPLET_HEAT_CAPACITY: u64 = 1_000;

/// The jitter sample for the `k`-th droplet of a tick: missing samples
/// count as no jitter.
pub open spec fn jitter_at(jitters: Seq<i64>, k: int) -> int {
    if 0 <= k < jitters.len() {
        jitters[k] as int
    } else {
        0
    }
}

/// A freshly launched droplet.
pub open spec fn is_new_droplet(e: EntityRecord, config: DropletGeneratorConfig, jitter: int) -> bool {
    &&& e.position == Some(Position(config.spawn_position))
    &&& e.velocity == Some(Velocity(launch_velocity(config.spawn_direction, config.velocity as int, jitter)))
    &&& e.mass == Some(config.mass)
    &&& e.droplet == Some(DropletState::Spherical)
    &&& e.shape == Some(CollisionShape::Sphere { radius: config.radius })
    &&& e.kind == Some(EntityType::TinDroplet)
    &&& e.thermal == Some(
        ThermalState { temperature: AMBIENT, heat_energy: 0, heat_capacity: DROPLET_HEAT_CAPACITY },
    )
}

fn jitter_sample(jitters: &Vec<i64>, k: u64) -> (r: i64)
    ensures
        r == jitter_at(jitters@, k as int),
{
    if k < jitters.len() as u64 {
        jitters[k as usize]
    } else {
        0
    }
}

/// What one generator pass does to the entities `e0` (next identity
/// `id0`) and the generator state `s0`, as `droplet_generator_system`
/// states it.
pub open spec fn generator_step(
    e0: Seq<EntityRecord>,
    id0: u64,
    e1: Seq<EntityRecord>,
    id1: u64,
    s0: DropletGeneratorState,
    s1: DropletGeneratorState,
    config: DropletGeneratorConfig,
    dt: int,
    jitters: Seq<i64>,
) -> bool {
    let due = droplets_due(s0.time_accumulator as int, dt, config.period as int);
    &&& s1.time_accumulator == (s0.time_accumulator + dt) % (config.period as int)
    &&& s1.droplet_count == crate::vector::min_u64(s0.droplet_count + due)
    &&& e1.len() >= e0.len()
    &&& e1.subrange(0, e0.len() as int) == e0
    &&& id1 == id0 + (e1.len() - e0.len())
    &&& (e1.len() - e0.len() == crate::vector::min_u64(due) || id0 + due > u64::MAX)
    &&& forall|k: int|
        e0.len() <= k < e1.len() ==> is_new_droplet(#[trigger] e1[k], config, jitter_at(jitters, k - e0.len()))
}

/// What one targeting pass does to the entities `e0` (next identity
/// `id0`) and the targeting state `t0`, as `laser_targeting_system`
/// states it.
pub open spec fn targeting_step(
    e0: Seq<EntityRecord>,
    id0: u64,
    e1: Seq<EntityRecord>,
    id1: u64,
    t0: LaserTargetingSystem,
    t1: LaserTargetingSystem,
    dt: int,
) -> bool {
    &&& t1.focal_point == t0.focal_point
    &&& t1.sensor_delay == t0.sensor_delay
    &&& e1.len() >= e0.len()
    &&& e1.subrange(0, e0.len() as int) == e0
    &&& id1 == id0 + (e1.len() - e0.len())
    &&& t0.cooldown > 0 ==> e1 == e0 && t1.cooldown == (if t0.cooldown > dt {
        (t0.cooldown - dt) as u64
    } else {
        0
    })
    &&& t0.cooldown == 0 ==> t1.cooldown == cooldown_after(pulses_for(e0, t0.focal_point), t0.sensor_delay, 0)
    &&& t0.cooldown == 0 && id0 + e0.len() <= u64::MAX ==> ({
        let pulses = pulses_for(e0, t0.focal_point);
        &&& e1.len() == e0.len() + pulses.len()
        &&& forall|k: int| 0 <= k < pulses.len() ==> is_pulse(#[trigger] e1[e0.len() + k], pulses[k].0, pulses[k].1)
    })
}

/// Launches the droplets that fall due in a tick of `dt` picoseconds:
/// one per whole period accumulated, several in one tick when the tick is
/// longer than the period. The `k`-th droplet of the tick gets launch-speed
/// jitter `jitters[k]` (no jitter when the sample is missing); every droplet
/// starts spherical at the spawn position, at ambient temperature.
pub fn droplet_generator_system(
    world: &mut World,
    dt: u64,
    config: &DropletGeneratorConfig,
    state: &mut DropletGeneratorState,
    jitters: &Vec<i64>,
)
    requires
        old(world).wf(),
        config.wf(),
    ensures
        final(world).wf(),
        final(state).time_accumulator == (old(state).time_accumulator + dt) % (config.period as int),
        final(state).droplet_count == crate::vector::min_u64(
            old(state).droplet_count as int + droplets_due(
                old(state).time_accumulator as int,
                dt as int,
                config.period as int,
            ),
        ),
        generator_step(
            old(world).entities@,
            old(world).next_id,
            final(world).entities@,
            final(world).next_id,
            *old(state),
            *final(state),
            *config,
            dt as int,
            jitters@,
        ),
        final(world).entities@.subrange(0, old(world).entities@.len() as int) == old(world).entities@,
        final(world).next_id == old(world).next_id + (final(world).entities@.len() - old(world).entities@.len()),
        final(world).entities@.len() - old(world).entities@.len() == crate::vector::min_u64(
            droplets_due(old(state).time_accumulator as int, dt as int, config.period as int),
        ) || old(world).next_id + droplets_due(old(state).time_accumulator as int, dt as int, config.period as int)
            > u64::MAX,
        forall|k: int|
            old(world).entities@.len() <= k < final(world).entities@.len() ==> is_new_droplet(
                #[trigger] final(world).entities@[k],
                *config,
                jitter_at(jitters@, k - old(world).entities@.len()),
            ),
{
    let due = state.advance(config.period, dt);
    let ghost start = world.entities@;
    let base = world.entities.len();
    let mut k: u64 = 0;
    while k < due
        invariant
            world.wf(),
            config.wf(),
            base == start.len(),
            k <= due,
            start == old(world).entities@,
            world.entities@.len() >= start.len(),
            world.entities@.subrange(0, start.len() as int) == start,
            world.entities@.len() - start.len() == world.next_id - old(world).next_id,
            world.entities@.len() - start.len() == k || world.next_id == u64::MAX,
            world.entities@.len() - start.len() <= k,
            forall|m: int|
                start.len() <= m < world.entities@.len() ==> is_new_droplet(
                    #[trigger] world.entities@[m],
                    *config,
                    jitter_at(jitters@, m - start.len()),
                ),
        decreases due - k,
    {
        let jitter = jitter_sample(jitters, (world.entities.len() - base) as u64);
        let mut rec = EntityRecord::empty();
        rec.position = Some(Position(config.spawn_position));
        rec.velocity = Some(droplet_velocity(&config.spawn_direction, config.velocity, jitter));
        rec.mass = Some(config.mass);
        rec.droplet = Some(DropletState::Spherical);
        rec.shape = Some(CollisionShape::Sphere { radius: config.radius });
        rec.kind = Some(EntityType::TinDroplet);
        rec.thermal = Some(ThermalState::new(AMBIENT, DROPLET_HEAT_CAPACITY));
        let ghost before = world.entities@;
        let _ = world.spawn(rec);
        proof {
            assert forall|m: int| start.len() <= m < world.entities@.len() implies is_new_droplet(
                #[trigger] world.entities@[m],
                *config,
                jitter_at(jitters@, m - start.len()),
            ) by {
                if m < before.len() {
                    assert(world.entities@[m] == before[m]);
                }
            }
            assert(world.entities@.subrange(0, start.len() as int) =~= start) by {
                assert forall|m: int| 0 <= m < start.len() implies world.entities@[m] == start[m] by {
                    assert(before.subrange(0, start.len() as int)[m] == start[m]);
                }
            }
        }
        k = k + 1;
    }
}

/// Droplets within this distance of the focal point are targeted (1 mm).
pub const TARGET_RADIUS: i128 = 1_000_000_000;

/// Cooldown after a pre-pulse, in picoseconds (5 us).
pub const PULSE_INTERVAL: u64 = 5_000_000;

/// Lifetime of a laser pulse entity, in picoseconds (10 us).
pub const PULSE_LIFETIME: u64 = 10_000_000;

impl LaserTargetingSystem {
    pub open spec fn wf(&self) -> bool {
        in_world(self.focal_point)
    }
}

/// Whether a droplet at `pos` lies within the targeting radius of the focus.
pub open spec fn in_target(pos: Position3D, focal: Position3D) -> bool {
    dist_sq(pos, focal) < TARGET_RADIUS * TARGET_RADIUS
}

/// The pulse the targeting fires at entity `e`, if any: a pre-pulse at a
/// spherical droplet and a main pulse at a flattened one, within range.
pub open spec fn pulse_for(e: EntityRecord, focal: Position3D) -> Option<(Position3D, bool)> {
    match (e.position, e.droplet) {
        (Some(p), Some(DropletState::Spherical)) => if in_target(p.0, focal) {
            Some((p.0, true))
        } else {
            None
        },
        (Some(p), Some(DropletState::Pancaked)) => if in_target(p.0, focal) {
            Some((p.0, false))
        } else {
            None
        },
        _ => None,
    }
}

/// Pulses fired at the entities of `s`, in order.
pub open spec fn pulses_for(s: Seq<EntityRecord>, focal: Position3D) -> Seq<(Position3D, bool)>
    decreases s.len(),
{
    if s.len() == 0 {
        Seq::empty()
    } else {
        let rest = pulses_for(s.drop_last(), focal);
        match pulse_for(s.last(), focal) {
            Some(p) => rest.push(p),
            None => rest,
        }
    }
}

/// The laser-pulse entity fired at `pos`.
pub open spec fn is_pulse(e: EntityRecord, pos: Position3D, is_prepulse: bool) -> bool {
    &&& e.position == Some(Position(pos))
    &&& e.laser == Some(
        LaserBeam {
            power: if is_prepulse { LaserBeam::PRE_PULSE_POWER } else { LaserBeam::MAIN_PULSE_POWER },
            is_prepulse,
            has_fired: false,
        },
    )
    &&& e.kind == Some(EntityType::LaserBeam)
    &&& e.lifetime == Some(Lifetime { remaining: PULSE_LIFETIME })
}

/// Cooldown left after firing `pulses`: that of the last pulse fired, or
/// `current` when none was.
pub open spec fn cooldown_after(pulses: Seq<(Position3D, bool)>, sensor_delay: u64, current: u64) -> u64 {
    if pulses.len() == 0 {
        current
    } else if pulses.last().1 {
        PULSE_INTERVAL
    } else {
        sensor_delay
    }
}

/// Spawns a one-shot laser pulse at `target_pos`.
pub fn spawn_laser_pulse(world: &mut World, target_pos: Position3D, is_prepulse: bool) -> (r: Option<u64>)
    requires
        old(world).wf(),
        in_world(target_pos),
    ensures
        final(world).wf(),
        r is Some ==> final(world).entities@.len() == old(world).entities@.len() + 1 && is_pulse(
            final(world).entities@.last(),
            target_pos,
            is_prepulse,
        ) && final(world).next_id == old(world).next_id + 1,
        r is None ==> final(world).entities@ == old(world).entities@ && old(world).next_id == u64::MAX
            && final(world).next_id == old(world).next_id,
        final(world).entities@.subrange(0, old(world).entities@.len() as int) == old(world).entities@,
{
    let power = if is_prepulse {
        LaserBeam::PRE_PULSE_POWER
    } else {
        LaserBeam::MAIN_PULSE_POWER
    };
    let mut rec = EntityRecord::empty();
    rec.position = Some(Position(target_pos));
    rec.laser = Some(LaserBeam { power, is_prepulse, has_fired: false });
    rec.kind = Some(EntityType::LaserBeam);
    rec.lifetime = Some(Lifetime::new(PULSE_LIFETIME));
    let r = world.spawn(rec);
    proof {
        assert(world.entities@.subrange(0, old(world).entities@.len() as int) =~= old(world).entities@);
    }
    r
}

/// Fires the laser. While the cooldown runs, it only counts down by `dt`.
/// Otherwise every droplet within range of the focal point gets a pulse: a
/// pre-pulse for a spherical droplet (then a short inter-pulse cooldown), a
/// main pulse for a flattened one (then the sensor delay as cooldown).
pub fn laser_targeting_system(world: &mut World, dt: u64, targeting: &mut LaserTargetingSystem)
    requires
        old(world).wf(),
        old(targeting).wf(),
    ensures
        final(world).wf(),
        final(targeting).wf(),
        targeting_step(
            old(world).entities@,
            old(world).next_id,
            final(world).entities@,
            final(world).next_id,
            *old(targeting),
            *final(targeting),
            dt as int,
        ),
        final(targeting).focal_point == old(targeting).focal_point,
        final(targeting).sensor_delay == old(targeting).sensor_delay,
        old(targeting).cooldown > 0 ==> final(world).entities@ == old(world).entities@
            && final(targeting).cooldown == (if old(targeting).cooldown > dt {
                old(targeting).cooldown - dt
            } else {
                0
            }),
        old(targeting).cooldown == 0 ==> final(targeting).cooldown == cooldown_after(
            pulses_for(old(world).entities@, old(targeting).focal_point),
            old(targeting).sensor_delay,
            0,
        ),
        final(world).entities@.subrange(0, old(world).entities@.len() as int) == old(world).entities@,
        old(targeting).cooldown == 0 && old(world).next_id + old(world).entities@.len() <= u64::MAX ==> ({
            let pulses = pulses_for(old(world).entities@, old(targeting).focal_point);
            &&& final(world).entities@.len() == old(world).entities@.len() + pulses.len()
            &&& forall|k: int|
                0 <= k < pulses.len() ==> is_pulse(
                    #[trigger] final(world).entities@[old(world).entities@.len() + k],
                    pulses[k].0,
                    pulses[k].1,
                )
        }),
{
    if targeting.cooldown > 0 {
        if targeting.cooldown > dt {
            targeting.cooldown = targeting.cooldown - dt;
        } else {
            targeting.cooldown = 0;
        }
        proof {
            assert(world.entities@.subrange(0, old(world).entities@.len() as int) =~= old(world).entities@);
        }
        return;
    }
    let n = world.entities.len();
    let ghost start = world.entities@;
    let focal = targeting.focal_point;
    let mut i: usize = 0;
    while i < n
        invariant
            world.wf(),
            in_world(focal),
            focal == old(targeting).focal_point,
            targeting.focal_point == focal,
            targeting.sensor_delay == old(targeting).sensor_delay,
            start == old(world).entities@,
            n == start.len(),
            i <= n,
            world.entities@.len() >= n,
            world.entities@.subrange(0, n as int) == start,
            targeting.cooldown == cooldown_after(pulses_for(start.take(i as int), focal), targeting.sensor_delay, 0),
            world.next_id >= old(world).next_id,
            world.next_id - old(world).next_id == world.entities@.len() - n,
            old(world).next_id + n <= u64::MAX ==> ({
                let pulses = pulses_for(start.take(i as int), focal);
                &&& world.entities@.len() == n + pulses.len()
                &&& forall|k: int|
                    0 <= k < pulses.len() ==> is_pulse(#[trigger] world.entities@[n + k], pulses[k].0, pulses[k].1)
            }),
            pulses_for(start.take(i as int), focal).len() <= i,
        decreases n - i,
    {
        let e = world.entities[i];
        proof {
            assert(e == start[i as int]);
            assert(record_ok(world.entities@[i as int]));
            assert(start.take(i + 1).drop_last() == start.take(i as int));
            assert(start.take(i + 1).last() == start[i as int]);
        }
        let ghost before = world.entities@;
        if let (Some(p), Some(state)) = (e.position, e.droplet) {
            proof {
                crate::units::lemma_world_points_measurable(p.0, focal);
            }
            let sq = crate::units::distance_squared(&p.0, &focal);
            if sq < 1_000_000_000_000_000_000u128 {
                match state {
                    DropletState::Spherical => {
                        let _ = spawn_laser_pulse(world, p.0, true);
                        targeting.cooldown = PULSE_INTERVAL;
                    },
                    DropletState::Pancaked => {
                        let _ = spawn_laser_pulse(world, p.0, false);
                        targeting.cooldown = targeting.sensor_delay;
                    },
                    _ => {},
                }
            }
        }
        proof {
            assert(world.entities@.subrange(0, n as int) =~= start) by {
                assert forall|m: int| 0 <= m < n implies world.entities@[m] == start[m] by {
                    assert(world.entities@.subrange(0, before.len() as int)[m] == before[m]);
                    assert(before.subrange(0, n as int)[m] == start[m]);
                }
            }
            let prev = pulses_for(start.take(i as int), focal);
            assert(pulses_for(start.take(i + 1), focal) == (match pulse_for(start[i as int], focal) {
                Some(q) => prev.push(q),
                None => prev,
            }));
            let pulses = pulses_for(start.take(i + 1), focal);
            if old(world).next_id + n <= u64::MAX {
                assert forall|k: int| 0 <= k < pulses.len() implies is_pulse(
                    #[trigger] world.entities@[n + k],
                    pulses[k].0,
                    pulses[k].1,
                ) by {
                    let prev = pulses_for(start.take(i as int), focal);
                    if k < prev.len() {
                        assert(world.entities@.subrange(0, before.len() as int)[n + k] == before[n + k]);
                    }
                }
            }
        }
        i = i + 1;
    }
    proof {
        assert(start.take(n as int) == start);
    }
}

} // verus!
