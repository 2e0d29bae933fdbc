use lithos::optics::OpticalSystemConfig;
use lithos::profiler::{Profiler, SystemTiming};
use lithos::raytracing::{
    photon_cleanup_system, photon_mirror_interaction_system, raytracing_statistics_system, PhotonPacket,
    RayTracingStatistics,
};
use lithos::sim::{Simulation, SimulationConfig};
use lithos::source::{DropletGeneratorConfig, LaserTargetingSystem};
use lithos::thermal::{thermal_statistics_system, thermal_warning_system, AlertLevel, ThermalStatistics};
use lithos::components::{Lifetime, Position, ThermalState, Velocity, AMBIENT};
use lithos::units::{Distance, Position3D};
use lithos::world::{EntityRecord, World};
use lithos::optics::SurfaceHit;
use lithos::raytracing::{scatter, Scatter};
use lithos::vector::Vector3;

#[test]
fn simulation_ticks_keep_packets_within_the_bounce_limit() {
    let mut sim = Simulation::new(
        DropletGeneratorConfig::default(),
        &OpticalSystemConfig::default(),
        LaserTargetingSystem::default(),
    );
    let dt = SimulationConfig::default().tick_duration;
    for _ in 0..600 {
        let due = sim.droplets_due(dt);
        let jitters = vec![0i64; due as usize];
        sim.tick(dt, &jitters);
        for e in sim.world.entities.iter() {
            if let Some(p) = e.photon {
                assert!(p.bounces <= PhotonPacket::MAX_BOUNCES);
                assert!(e.lifetime.is_some());
            }
        }
    }
    let snap = sim.snapshot();
    assert_eq!(snap.tick_count, 600);
    assert_eq!(snap.simulation_time, 600_000_000);
    assert_eq!(snap.droplet_count, 30);
}

fn packet_towards_mirror(bounces: u32) -> EntityRecord {
    let mut rec = EntityRecord::empty();
    rec.position = Some(Position(Position3D::new(Distance::from_meters(-3), Distance::zero(), Distance::zero())));
    rec.velocity = Some(Velocity::new(300_000_000_000_000, 0, 0));
    let mut p = PhotonPacket::new(1_000_000_000_000);
    p.bounces = bounces;
    rec.photon = Some(p);
    rec.lifetime = Some(Lifetime::new(100_000_000));
    rec
}

fn plane_mirror(reflectivity: u32, absorption: u32) -> EntityRecord {
    let mut rec = EntityRecord::empty();
    rec.position = Some(Position(Position3D::zero()));
    rec.mirror = Some(lithos::optics::MirrorSurface {
        geometry: lithos::optics::SurfaceGeometry::Planar { normal: lithos::vector::Vector3 { x: 1_000_000, y: 0, z: 0 } },
        orientation: lithos::optics::Orientation::identity(),
        radius: Distance::from_meters(1),
    });
    rec.material = Some(lithos::components::OpticalMaterial { reflectivity, absorption });
    rec.thermal = Some(ThermalState::new(AMBIENT, 1_000_000));
    rec
}

#[test]
fn perfect_mirror_reflects_packet() {
    let mut world = World::new();
    world.spawn(plane_mirror(1_000_000, 0)).unwrap();
    world.spawn(packet_towards_mirror(0)).unwrap();
    let mut stats = RayTracingStatistics::default();
    photon_mirror_interaction_system(&mut world, &mut stats);
    assert_eq!(stats.total_reflections, 1);
    let p = world.entities[1];
    assert_eq!(p.photon.unwrap().bounces, 1);
    assert_eq!(p.position.unwrap().0, Position3D::zero());
    assert_eq!(p.velocity.unwrap(), Velocity::new(-300_000_000_000_000, 0, 0));
}

#[test]
fn black_mirror_absorbs_packet_energy() {
    let mut world = World::new();
    world.spawn(plane_mirror(0, 1_000_000)).unwrap();
    world.spawn(packet_towards_mirror(0)).unwrap();
    let mut stats = RayTracingStatistics::default();
    photon_mirror_interaction_system(&mut world, &mut stats);
    assert_eq!(stats.total_absorptions, 1);
    assert_eq!(world.len(), 1);
    // 10^12 photons x 14724 zJ = 14.724 uJ.
    assert_eq!(world.entities[0].thermal.unwrap().heat_energy, 14_724);
    let mut tstats = ThermalStatistics::default();
    thermal_statistics_system(&world, &mut tstats);
    assert_eq!(tstats.total_heat_energy, 14_724);
    assert_eq!(tstats.max_temperature, AMBIENT + 14);
}

#[test]
fn packet_at_bounce_limit_is_destroyed() {
    let mut world = World::new();
    world.spawn(plane_mirror(1_000_000, 0)).unwrap();
    world.spawn(packet_towards_mirror(15)).unwrap();
    let mut stats = RayTracingStatistics::default();
    photon_mirror_interaction_system(&mut world, &mut stats);
    assert_eq!(world.len(), 1);
    assert_eq!(stats.total_reflections, 0);
}

#[test]
fn escaped_packets_are_cleaned_up_and_counted() {
    let mut world = World::new();
    world.spawn(packet_towards_mirror(2)).unwrap();
    let mut far = packet_towards_mirror(0);
    far.position = Some(Position(Position3D::new(Distance::from_meters(21), Distance::zero(), Distance::zero())));
    world.spawn(far).unwrap();
    photon_cleanup_system(&mut world);
    assert_eq!(world.len(), 1);
    let mut stats = RayTracingStatistics::default();
    raytracing_statistics_system(&world, &mut stats);
    assert_eq!(stats.active_photon_packets, 1);
    assert_eq!(stats.average_bounces, 2_000);
}

#[test]
fn hot_bodies_raise_alerts() {
    let mut world = World::new();
    let mut warm = EntityRecord::empty();
    warm.thermal = Some(ThermalState::new(450_000_000, 1_000));
    let mut hot = EntityRecord::empty();
    hot.thermal = Some(ThermalState::new(650_000_000, 1_000));
    world.spawn(warm).unwrap();
    world.spawn(hot).unwrap();
    let alerts = thermal_warning_system(&world);
    assert_eq!(alerts.len(), 2);
    assert_eq!(alerts[0].level, AlertLevel::Warning);
    assert_eq!(alerts[1].level, AlertLevel::Critical);
    let mut stats = ThermalStatistics::default();
    thermal_statistics_system(&world, &mut stats);
    assert_eq!(stats.max_temperature, 650_000_000);
    assert_eq!(stats.avg_temperature, 550_000_000);
}

#[test]
fn profiler_records_and_reports_longest_first() {
    let mut profiler = Profiler::new();
    profiler.start_frame();
    profiler.record_system("movement", 10);
    profiler.record_system("tracing", 50);
    profiler.record_system("movement", 30);
    let report = profiler.report();
    assert_eq!(report.total_frames, 1);
    assert_eq!(report.total_time, 90);
    assert_eq!(report.systems[0].name, "tracing");
    assert_eq!(report.systems[1].name, "movement");
    assert_eq!(report.systems[1].call_count, 2);
    assert_eq!(report.systems[1].min_duration, 10);
    assert_eq!(report.systems[1].max_duration, 30);
    assert_eq!(report.systems[1].avg_duration(), 20);
    profiler.reset();
    assert_eq!(profiler.timings.len(), 0);
    let fresh = SystemTiming::new("idle".to_string());
    assert_eq!(fresh.avg_duration(), 0);
}

#[test]
fn stats_history_keeps_the_latest_samples() {
    let mut h = lithos::sim::StatsHistory::new(2);
    h.push(1, 10, 300, 295);
    h.push(2, 20, 310, 296);
    h.push(3, 30, 320, 297);
    assert_eq!(h.time_points.iter().copied().collect::<Vec<u64>>(), vec![2, 3]);
    assert_eq!(h.photon_counts.iter().copied().collect::<Vec<u64>>(), vec![20, 30]);
    assert_eq!(h.max_temps.len(), 2);
}

#[test]
fn initial_state_is_at_ambient() {
    let s = lithos::sim::SimulationState::default();
    assert!(!s.is_running);
    assert_eq!(s.max_temperature, AMBIENT);
    assert_eq!(s.avg_temperature, AMBIENT);
}

#[test]
fn g_force_along_an_axis() {
    let a = lithos::components::Acceleration::from_g_force(1000, &lithos::vector::Vector3 { x: 0, y: 0, z: -1_000_000 });
    assert_eq!(a.0, lithos::vector::Vector3 { x: 0, y: 0, z: -9_810_000 });
    assert_eq!(lithos::components::Acceleration::zero().0, lithos::vector::Vector3 { x: 0, y: 0, z: 0 });
}

#[test]
fn scatter_reflects_below_reflectivity_and_absorbs_otherwise() {
    let packet = PhotonPacket::new(1_000_000_000_000);
    let velocity = Velocity::new(300_000_000_000_000, 0, 0);
    let hit = SurfaceHit { point: Position3D::zero(), distance: Distance::from_meters(3) };
    let normal = Vector3 { x: -1_000_000, y: 0, z: 0 };
    let material = lithos::components::OpticalMaterial::bragg_mirror();
    match scatter(&packet, &velocity, &hit, &normal, &material, 699_999) {
        Scatter::Reflected { position, velocity, packet: p } => {
            assert_eq!(position, Position3D::zero());
            assert_eq!(velocity, Velocity::new(-300_000_000_000_000, 0, 0));
            assert_eq!(p.bounces, 1);
        }
        Scatter::Absorbed { .. } => panic!("expected a reflection"),
    }
    // 14.724 uJ x 30 % = 4417 nJ, rounded down.
    assert_eq!(scatter(&packet, &velocity, &hit, &normal, &material, 700_000), Scatter::Absorbed { energy: 4_417 });
}

#[test]
fn test_photon_packet_energy() {
    let packet = PhotonPacket::new(1_000_000_000_000);
    assert!(packet.total_energy() > 0);
    assert_eq!(packet.bounces, 0);
}

#[test]
fn run_ends_at_the_configured_duration() {
    let mut sim = Simulation::new(
        DropletGeneratorConfig::default(),
        &OpticalSystemConfig::default(),
        LaserTargetingSystem::default(),
    );
    assert!(!sim.is_finished(2_000_000));
    sim.tick(1_000_000, &vec![]);
    sim.tick(1_000_000, &vec![]);
    assert!(sim.is_finished(2_000_000));
    assert_eq!(sim.world.entities[0].mirror.unwrap().radius, Distance::from_millimeters(300));
}
