//! The tick driver: runs every system once per tick in a fixed order and
//! publishes snapshots of the statistics.

use vstd::prelude::*;
use std::collections::VecDeque;
use crate::world::{World, EntityRecord};
use crate::source::{
    SimulationTime, DropletGeneratorConfig, DropletGeneratorState, LaserTargetingSystem, DropletState,
    droplet_generator_system, laser_targeting_system, droplets_due,
};
use crate::interactions::{
    laser_droplet_interaction_system, physics_movement_system, plasma_to_debris_system, lifetime_system,
};
use crate::raytracing::{
    RayTracingStatistics, photon_mirror_interaction_system, photon_cleanup_system, raytracing_statistics_system,
};
use crate::thermal::{
    ThermalStatistics, ThermalAlert, thermal_dissipation_system, thermal_warning_system, thermal_statistics_system,
};
use crate::optics::{OpticalSystemConfig, spawn_optical_system};
use crate::source::{generator_step, targeting_step};
use crate::interactions::{interaction_pass, after_motion, after_plasma_check, after_lifetime, survives};
use crate::raytracing::{traced, discarded, ray_stats_step};
use crate::thermal::{after_dissipation, alerts_for, thermal_stats_step};
use crate::world::kept;

verus! {

/// Run settings: tick length and total duration in picoseconds, and the
/// number of droplets of an unattended burst.
#[derive(Clone, Copy, Debug, PartialEq, Eq, Structural)]
pub struct SimulationConfig {
    pub tick_duration: u64,
    pub total_duration: u64,
    pub burst_count: u32,
}

impl Default for SimulationConfig {
    /// Ticks of 1 us for 2 ms.
    fn default() -> (r: SimulationConfig)
        ensures
            r == (SimulationConfig { tick_duration: 1_000_000, total_duration: 2_000_000_000, burst_count: 100 }),
    {
        SimulationConfig { tick_duration: 1_000_000, total_duration: 2_000_000_000, burst_count: 100 }
    }
}

/// A read-only copy of the figures a front end shows.
#[derive(Clone, Copy, Debug, PartialEq, Eq, Structural)]
pub struct SimulationState {
    pub is_running: bool,
    pub tick_count: u64,
    /// Simulated time in picoseconds.
    pub simulation_time: u64,
    pub droplet_count: u64,
    pub plasma_count: u64,
    pub active_photons: u64,
    pub total_reflections: u64,
    pub total_absorptions: u64,
    /// Mean bounce count of the live packets, in thousandths.
    pub average_bounces: u64,
    /// Temperatures in microkelvin.
    pub max_temperature: u128,
    pub avg_temperature: u128,
    /// Heat in nanojoules.
    pub total_heat_energy: i128,
}

impl Default for SimulationState {
    /// Figures before the first tick: nothing has happened, at ambient.
    fn default() -> (r: SimulationState)
        ensures
            r == (SimulationState {
                is_running: false,
                tick_count: 0,
                simulation_time: 0,
                droplet_count: 0,
                plasma_count: 0,
                active_photons: 0,
                total_reflections: 0,
                total_absorptions: 0,
                average_bounces: 0,
                max_temperature: crate::components::AMBIENT,
                avg_temperature: crate::components::AMBIENT,
                total_heat_energy: 0,
            }),
    {
        SimulationState {
            is_running: false,
            tick_count: 0,
            simulation_time: 0,
            droplet_count: 0,
            plasma_count: 0,
            active_photons: 0,
            total_reflections: 0,
            total_absorptions: 0,
            average_bounces: 0,
            max_temperature: crate::components::AMBIENT,
            avg_temperature: crate::components::AMBIENT,
            total_heat_energy: 0,
        }
    }
}

/// A simulation instance: the entity store and the state of every system.
pub struct Simulation {
    pub world: World,
    pub time: SimulationTime,
    pub generator_config: DropletGeneratorConfig,
    pub generator: DropletGeneratorState,
    pub targeting: LaserTargetingSystem,
    pub ray_stats: RayTracingStatistics,
    pub thermal_stats: ThermalStatistics,
    pub tick_count: u64,
}

/// Number of droplets in plasma among `s`.
pub open spec fn plasma_count(s: Seq<EntityRecord>) -> int
    decreases s.len(),
{
    if s.len() == 0 {
        0
    } else {
        plasma_count(s.drop_last()) + if s.last().droplet == Some(DropletState::Plasma) { 1int } else { 0int }
    }
}

/// Entities after the motion pass.
pub open spec fn moved_all(s: Seq<EntityRecord>, dt: int) -> Seq<EntityRecord> {
    Seq::new(s.len(), |k: int| after_motion(s[k], dt))
}

/// Entities after the plasma-collapse pass.
pub open spec fn collapsed_all(s: Seq<EntityRecord>) -> Seq<EntityRecord> {
    Seq::new(s.len(), |k: int| after_plasma_check(s[k]))
}

/// Entities after the packet cleanup pass.
pub open spec fn cleaned_all(s: Seq<EntityRecord>) -> Seq<EntityRecord> {
    kept(s, Seq::new(s.len(), |k: int| !discarded(s[k])))
}

/// Entities after the dissipation pass.
pub open spec fn dissipated_all(s: Seq<EntityRecord>, dt: int) -> Seq<EntityRecord> {
    Seq::new(s.len(), |k: int| after_dissipation(s[k], dt))
}

/// Entities after the lifetime pass.
pub open spec fn expired_all(s: Seq<EntityRecord>, dt: int) -> Seq<EntityRecord> {
    kept(Seq::new(s.len(), |k: int| after_lifetime(s[k], dt)), Seq::new(s.len(), |k: int| survives(s[k], dt)))
}

/// One tick from `a` to `b`, as the composition of the systems in their
/// fixed order: generation (to `w1`), targeting (to `w2`), laser-droplet
/// interaction (to `w3`), motion, plasma collapse, ray tracing (to `w6`,
/// counters `r6`), packet cleanup, dissipation (after which `alerts` are
/// raised), lifetime expiry, and the statistics of the result.
pub open spec fn tick_chain(
    a: Simulation,
    b: Simulation,
    dt: int,
    jitters: Seq<i64>,
    alerts: Seq<ThermalAlert>,
    w1: Seq<EntityRecord>,
    i1: u64,
    w2: Seq<EntityRecord>,
    i2: u64,
    w3: Seq<EntityRecord>,
    i3: u64,
    w6: Seq<EntityRecord>,
    r6: RayTracingStatistics,
) -> bool {
    &&& generator_step(a.world.entities@, a.world.next_id, w1, i1, a.generator, b.generator, a.generator_config, dt, jitters)
    &&& targeting_step(w1, i1, w2, i2, a.targeting, b.targeting, dt)
    &&& interaction_pass(w2, i2, w3, i3)
    &&& traced(collapsed_all(moved_all(w3, dt)), a.ray_stats, w6, r6)
    &&& alerts == alerts_for(dissipated_all(cleaned_all(w6), dt))
    &&& b.world.entities@ == expired_all(dissipated_all(cleaned_all(w6), dt), dt)
    &&& b.world.next_id == i3
    &&& ray_stats_step(b.world.entities@, r6, b.ray_stats)
    &&& thermal_stats_step(b.world.entities@, a.thermal_stats, b.thermal_stats)
}

impl Simulation {
    pub open spec fn wf(&self) -> bool {
        &&& self.world.wf()
        &&& self.generator_config.wf()
        &&& self.targeting.wf()
    }

    /// A simulation at time zero whose world holds the mirrors of `optics`.
    pub fn new(
        generator_config: DropletGeneratorConfig,
        optics: &OpticalSystemConfig,
        targeting: LaserTargetingSystem,
    ) -> (r: Simulation)
        requires
            generator_config.wf(),
            optics.wf(),
            targeting.wf(),
        ensures
            r.wf(),
            r.time == (SimulationTime { total: 0, delta: 1_000_000 }),
            r.generator == (DropletGeneratorState { time_accumulator: 0, droplet_count: 0 }),
            r.generator_config == generator_config,
            r.targeting == targeting,
            r.tick_count == 0,
            optics.projection_mirrors@.len() < u64::MAX ==> {
                &&& r.world.entities@.len() == 1 + optics.projection_mirrors@.len()
                &&& crate::optics::same_but_id(r.world.entities@[0], crate::optics::collector_record(optics.collector_mirror))
                &&& forall|k: int|
                    0 <= k < optics.projection_mirrors@.len() ==> crate::optics::same_but_id(
                        #[trigger] r.world.entities@[1 + k],
                        crate::optics::projection_record(optics.projection_mirrors@[k]),
                    )
            },
    {
        let mut world = World::new();
        spawn_optical_system(&mut world, optics);
        Simulation {
            world,
            time: SimulationTime::default(),
            generator_config,
            generator: DropletGeneratorState::default(),
            targeting,
            ray_stats: RayTracingStatistics::default(),
            thermal_stats: ThermalStatistics::default(),
            tick_count: 0,
        }
    }

    /// Whether the simulated time has reached `total_duration` picoseconds,
    /// which ends a run.
    pub fn is_finished(&self, total_duration: u64) -> (r: bool)
        ensures
            r == (self.time.total >= total_duration),
    {
        self.time.total >= total_duration
    }

    /// How many droplets the next tick of `dt` picoseconds launches, so that
    /// the host can draw one jitter sample for each.
    pub fn droplets_due(&self, dt: u64) -> (r: u64)
        requires
            self.wf(),
        ensures
            r == crate::vector::min_u64(
                droplets_due(self.generator.time_accumulator as int, dt as int, self.generator_config.period as int),
            ),
    {
        let mut probe = self.generator;
        probe.advance(self.generator_config.period, dt)
    }

    /// Advances the simulation by one tick of `dt` picoseconds, running in
    /// order: generation, targeting, laser-droplet interaction, motion,
    /// plasma collapse, ray tracing, packet cleanup, dissipation, thermal
    /// warnings, lifetime expiry and statistics. `jitters` holds the launch
    /// jitter of each droplet launched this tick. Returns the thermal alerts.
    pub fn tick(&mut self, dt: u64, jitters: &Vec<i64>) -> (alerts: Vec<ThermalAlert>)
        requires
            old(self).wf(),
            old(self).time.total + dt <= u64::MAX,
        ensures
            final(self).wf(),
            final(self).time.total == old(self).time.total + dt,
            final(self).time.delta == dt,
            final(self).tick_count == crate::vector::min_u64(old(self).tick_count + 1),
            final(self).generator_config == old(self).generator_config,
            final(self).targeting.focal_point == old(self).targeting.focal_point,
            final(self).targeting.sensor_delay == old(self).targeting.sensor_delay,
            final(self).ray_stats.active_photon_packets == crate::raytracing::packet_count(final(self).world.entities@),
            crate::thermal::thermal_count(final(self).world.entities@) > 0 ==> final(self).thermal_stats.max_temperature
                == crate::thermal::thermal_max(final(self).world.entities@),
            final(self).ray_stats.total_reflections >= old(self).ray_stats.total_reflections,
            final(self).ray_stats.total_absorptions >= old(self).ray_stats.total_absorptions,
            exists|w1: Seq<EntityRecord>, i1: u64, w2: Seq<EntityRecord>, i2: u64, w3: Seq<EntityRecord>, i3: u64,
                w6: Seq<EntityRecord>, r6: RayTracingStatistics|
                #[trigger] tick_chain(*old(self), *final(self), dt as int, jitters@, alerts@, w1, i1, w2, i2, w3, i3, w6, r6),
            final(self).generator.time_accumulator == (old(self).generator.time_accumulator + dt)
                % (old(self).generator_config.period as int),
            final(self).generator.droplet_count == crate::vector::min_u64(
                old(self).generator.droplet_count as int + droplets_due(
                    old(self).generator.time_accumulator as int,
                    dt as int,
                    old(self).generator_config.period as int,
                ),
            ),
    {
        self.time.tick(dt);
        droplet_generator_system(&mut self.world, dt, &self.generator_config, &mut self.generator, jitters);
        let ghost w1 = self.world.entities@;
        let ghost i1 = self.world.next_id;
        laser_targeting_system(&mut self.world, dt, &mut self.targeting);
        let ghost w2 = self.world.entities@;
        let ghost i2 = self.world.next_id;
        laser_droplet_interaction_system(&mut self.world);
        let ghost w3 = self.world.entities@;
        let ghost i3 = self.world.next_id;
        physics_movement_system(&mut self.world, dt);
        plasma_to_debris_system(&mut self.world);
        proof {
            assert(self.world.entities@ =~= collapsed_all(moved_all(w3, dt as int)));
        }
        photon_mirror_interaction_system(&mut self.world, &mut self.ray_stats);
        let ghost w6 = self.world.entities@;
        let ghost r6 = self.ray_stats;
        photon_cleanup_system(&mut self.world);
        thermal_dissipation_system(&mut self.world, dt);
        let alerts = thermal_warning_system(&self.world);
        lifetime_system(&mut self.world, dt);
        raytracing_statistics_system(&self.world, &mut self.ray_stats);
        thermal_statistics_system(&self.world, &mut self.thermal_stats);
        if self.tick_count < u64::MAX {
            self.tick_count = self.tick_count + 1;
        }
        assert(tick_chain(*old(self), *self, dt as int, jitters@, alerts@, w1, i1, w2, i2, w3, i3, w6, r6));
        alerts
    }

    /// The current figures.
    pub fn snapshot(&self) -> (r: SimulationState)
        ensures
            r.tick_count == self.tick_count,
            r.simulation_time == self.time.total,
            r.is_running == (self.time.total > 0),
            r.droplet_count == self.generator.droplet_count,
            r.plasma_count == crate::vector::min_u64(plasma_count(self.world.entities@)),
            r.active_photons == self.ray_stats.active_photon_packets,
            r.total_reflections == self.ray_stats.total_reflections,
            r.total_absorptions == self.ray_stats.total_absorptions,
            r.average_bounces == self.ray_stats.average_bounces,
            r.max_temperature == self.thermal_stats.max_temperature,
            r.avg_temperature == self.thermal_stats.avg_temperature,
            r.total_heat_energy == self.thermal_stats.total_heat_energy,
    {
        let n = self.world.entities.len();
        let mut plasma: u64 = 0;
        let mut i: usize = 0;
        while i < n
            invariant
                n == self.world.entities@.len(),
                i <= n,
                plasma == crate::vector::min_u64(plasma_count(self.world.entities@.take(i as int))),
            decreases n - i,
        {
            proof {
                assert(self.world.entities@.take(i + 1).drop_last() == self.world.entities@.take(i as int));
                assert(self.world.entities@.take(i + 1).last() == self.world.entities@[i as int]);
                lemma_plasma_count_nonneg(self.world.entities@.take(i as int));
            }
            if self.world.entities[i].droplet == Some(DropletState::Plasma) && plasma < u64::MAX {
                plasma = plasma + 1;
            }
            i = i + 1;
        }
        assert(self.world.entities@.take(n as int) == self.world.entities@);
        SimulationState {
            is_running: self.time.total > 0,
            tick_count: self.tick_count,
            simulation_time: self.time.total,
            droplet_count: self.generator.droplet_count,
            plasma_count: plasma,
            active_photons: self.ray_stats.active_photon_packets,
            total_reflections: self.ray_stats.total_reflections,
            total_absorptions: self.ray_stats.total_absorptions,
            average_bounces: self.ray_stats.average_bounces,
            max_temperature: self.thermal_stats.max_temperature,
            avg_temperature: self.thermal_stats.avg_temperature,
            total_heat_energy: self.thermal_stats.total_heat_energy,
        }
    }
}

proof fn lemma_plasma_count_nonneg(s: Seq<EntityRecord>)
    ensures
        plasma_count(s) >= 0,
    decreases s.len(),
{
    if s.len() > 0 {
        lemma_plasma_count_nonneg(s.drop_last());
    }
}

/// Recent history of the headline figures, for charts: at most
/// `max_points` samples of each, the oldest dropped first.
pub struct StatsHistory {
    /// Simulated time of each sample, in picoseconds.
    pub time_points: VecDeque<u64>,
    pub photon_counts: VecDeque<u64>,
    /// Temperatures in microkelvin.
    pub max_temps: VecDeque<u128>,
    pub avg_temps: VecDeque<u128>,
    pub max_points: usize,
}

/// `s` with `v` appended, its oldest element dropped first when it already
/// holds `cap` elements or more.
pub open spec fn appended<T>(s: Seq<T>, cap: int, v: T) -> Seq<T> {
    if s.len() >= cap && s.len() > 0 {
        s.subrange(1, s.len() as int).push(v)
    } else {
        s.push(v)
    }
}

impl StatsHistory {
    pub open spec fn wf(&self) -> bool {
        &&& self.photon_counts@.len() == self.time_points@.len()
        &&& self.max_temps@.len() == self.time_points@.len()
        &&& self.avg_temps@.len() == self.time_points@.len()
    }

    pub fn new(capacity: usize) -> (r: StatsHistory)
        ensures
            r.wf(),
            r.time_points@.len() == 0,
            r.max_points == capacity,
    {
        StatsHistory {
            time_points: VecDeque::with_capacity(capacity),
            photon_counts: VecDeque::with_capacity(capacity),
            max_temps: VecDeque::with_capacity(capacity),
            avg_temps: VecDeque::with_capacity(capacity),
            max_points: capacity,
        }
    }

    /// Appends one sample of each figure.
    pub fn push(&mut self, time: u64, photons: u64, max_temp: u128, avg_temp: u128)
        requires
            old(self).wf(),
        ensures
            final(self).wf(),
            final(self).max_points == old(self).max_points,
            final(self).time_points@ == appended(old(self).time_points@, old(self).max_points as int, time),
            final(self).photon_counts@ == appended(old(self).photon_counts@, old(self).max_points as int, photons),
            final(self).max_temps@ == appended(old(self).max_temps@, old(self).max_points as int, max_temp),
            final(self).avg_temps@ == appended(old(self).avg_temps@, old(self).max_points as int, avg_temp),
    {
        if self.time_points.len() >= self.max_points {
            self.time_points.pop_front();
            self.photon_counts.pop_front();
            self.max_temps.pop_front();
            self.avg_temps.pop_front();
        }
        self.time_points.push_back(time);
        self.photon_counts.push_back(photons);
        self.max_temps.push_back(max_temp);
        self.avg_temps.push_back(avg_temp);
    }
}

/// Bounce limit: in every state of a well-formed simulation (which `new`
/// establishes and `tick` preserves) no photon packet has bounced more than
/// `MAX_BOUNCES` times, and every packet carries a lifetime, so by
/// `lemma_lifetime_runs_out` each one is destroyed within finitely many
/// ticks.
pub proof fn lemma_bounce_limit(sim: Simulation)
    requires
        sim.wf(),
    ensures
        forall|k: int|
            0 <= k < sim.world.entities@.len() ==> ((#[trigger] sim.world.entities@[k]).photon matches Some(p)
                ==> p.bounces <= crate::raytracing::MAX_BOUNCES && sim.world.entities@[k].lifetime is Some),
{
    assert forall|k: int| 0 <= k < sim.world.entities@.len() implies ((#[trigger] sim.world.entities@[k]).photon matches Some(p)
        ==> p.bounces <= crate::raytracing::MAX_BOUNCES && sim.world.entities@[k].lifetime is Some) by {
        assert(crate::world::record_ok(sim.world.entities@[k]));
    }
}

} // verus!
