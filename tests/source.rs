use lithos::components::{CollisionShape, Velocity};
use lithos::interactions::{
    apply_transition, fire_beam, laser_droplet_interaction_system, physics_movement_system, plasma_to_debris_system,
    lifetime_system, ray_sphere_intersection, ray_disk_intersection, spawn_photon_packets, PACKET_COUNT,
};
use lithos::raytracing::PhotonPacket;
use lithos::source::{
    droplet_generator_system, laser_targeting_system, DropletGeneratorConfig, DropletGeneratorState, DropletState,
    LaserBeam, LaserTargetingSystem, SimulationTime,
};
use lithos::units::{Distance, Position3D};
use lithos::world::{EntityRecord, World};

#[test]
fn test_ray_sphere_intersection() {
    let laser_pos = Position3D::new(Distance::zero(), Distance::zero(), Distance::zero());
    let droplet_pos = Position3D::new(Distance::from_micrometers(20), Distance::zero(), Distance::zero());
    let radius = Distance::from_micrometers(30);
    assert!(ray_sphere_intersection(laser_pos, droplet_pos, radius));
}

#[test]
fn test_ray_sphere_miss() {
    let laser_pos = Position3D::zero();
    let droplet_pos = Position3D::new(Distance::from_millimeters(1), Distance::zero(), Distance::zero());
    let radius = Distance::from_micrometers(30);
    assert!(!ray_sphere_intersection(laser_pos, droplet_pos, radius));
}

#[test]
fn disk_hit_depends_on_thickness_and_radius() {
    let droplet = Position3D::zero();
    let r = Distance::from_micrometers(60);
    let t = Distance::from_micrometers(8);
    let near = Position3D::new(Distance::from_micrometers(4), Distance::from_micrometers(50), Distance::zero());
    assert!(ray_disk_intersection(near, droplet, r, t));
    let thick = Position3D::new(Distance::from_micrometers(5), Distance::zero(), Distance::zero());
    assert!(!ray_disk_intersection(thick, droplet, r, t));
    let wide = Position3D::new(Distance::zero(), Distance::from_micrometers(61), Distance::zero());
    assert!(!ray_disk_intersection(wide, droplet, r, t));
}

#[test]
fn test_droplet_period() {
    let config = DropletGeneratorConfig::default();
    assert_eq!(config.period, 20_000_000);
    assert_eq!(config.frequency, 50_000);
}

#[test]
fn test_laser_power_levels() {
    assert_eq!(LaserBeam::PRE_PULSE_POWER, 1_000);
    assert_eq!(LaserBeam::MAIN_PULSE_POWER, 20_000);
}

#[test]
fn test_simulation_runs() {
    let mut world = World::new();
    let mut time = SimulationTime::default();
    let config = DropletGeneratorConfig::default();
    let mut state = DropletGeneratorState::default();
    for _ in 0..100 {
        time.tick(1_000_000);
        droplet_generator_system(&mut world, time.delta, &config, &mut state, &vec![]);
    }
    assert!(state.droplet_count > 0);
}

#[test]
fn generator_throughput_over_one_hundred_microseconds() {
    let mut world = World::new();
    let config = DropletGeneratorConfig::default();
    let mut state = DropletGeneratorState::default();
    for _ in 0..100 {
        droplet_generator_system(&mut world, 1_000_000, &config, &mut state, &vec![]);
    }
    assert!(state.droplet_count >= 1);
    assert!(state.droplet_count <= 5);
    assert_eq!(world.len() as u64, state.droplet_count);
    assert_eq!(state.time_accumulator, 0);
}

#[test]
fn long_tick_catches_up() {
    let mut world = World::new();
    let config = DropletGeneratorConfig::default();
    let mut state = DropletGeneratorState::default();
    droplet_generator_system(&mut world, 65_000_000, &config, &mut state, &vec![250_000, -250_000]);
    assert_eq!(state.droplet_count, 3);
    assert_eq!(state.time_accumulator, 5_000_000);
    assert_eq!(world.len(), 3);
    assert_eq!(world.entities[0].velocity, Some(Velocity::new(100_250_000, 0, 0)));
    assert_eq!(world.entities[1].velocity, Some(Velocity::new(99_750_000, 0, 0)));
    assert_eq!(world.entities[2].velocity, Some(Velocity::new(100_000_000, 0, 0)));
    assert_eq!(world.entities[0].droplet, Some(DropletState::Spherical));
}

#[test]
fn prepulse_flattens_and_main_pulse_on_sphere_is_ignored() {
    let sphere = CollisionShape::Sphere { radius: Distance::from_micrometers(30) };
    let (s, shape) = apply_transition(DropletState::Spherical, sphere, true);
    assert_eq!(s, DropletState::Pancaked);
    assert_eq!(shape, CollisionShape::Disk { radius: Distance::from_micrometers(60), thickness: Distance::from_picometers(7_500_000) });
    let (s2, shape2) = apply_transition(DropletState::Spherical, sphere, false);
    assert_eq!(s2, DropletState::Spherical);
    assert_eq!(shape2, sphere);
    let (s3, _) = apply_transition(DropletState::Pancaked, shape, false);
    assert_eq!(s3, DropletState::Plasma);
    let (s4, _) = apply_transition(DropletState::Debris, shape, false);
    assert_eq!(s4, DropletState::Debris);
}

fn droplet_at(pos: Position3D) -> EntityRecord {
    let mut rec = EntityRecord::empty();
    rec.position = Some(lithos::components::Position(pos));
    rec.droplet = Some(DropletState::Spherical);
    rec.shape = Some(CollisionShape::Sphere { radius: Distance::from_micrometers(30) });
    rec.kind = Some(lithos::components::EntityType::TinDroplet);
    rec
}

#[test]
fn targeting_then_interaction_drive_the_state_machine() {
    let mut world = World::new();
    let near = Position3D::new(Distance::from_micrometers(20), Distance::zero(), Distance::zero());
    world.spawn(droplet_at(near)).unwrap();
    let mut targeting = LaserTargetingSystem::default();

    laser_targeting_system(&mut world, 1_000_000, &mut targeting);
    assert_eq!(world.len(), 2);
    assert_eq!(world.entities[1].laser.unwrap().is_prepulse, true);
    assert_eq!(targeting.cooldown, 5_000_000);

    laser_droplet_interaction_system(&mut world);
    assert_eq!(world.entities[0].droplet, Some(DropletState::Pancaked));
    assert!(world.entities[1].laser.unwrap().has_fired);

    // Cooldown counts down without firing.
    laser_targeting_system(&mut world, 5_000_000, &mut targeting);
    assert_eq!(targeting.cooldown, 0);
    assert_eq!(world.len(), 2);

    laser_targeting_system(&mut world, 1_000_000, &mut targeting);
    assert_eq!(world.len(), 3);
    assert_eq!(world.entities[2].laser.unwrap().is_prepulse, false);
    assert_eq!(targeting.cooldown, targeting.sensor_delay);

    laser_droplet_interaction_system(&mut world);
    assert_eq!(world.entities[0].droplet, Some(DropletState::Plasma));
    assert_eq!(world.entities[0].lifetime.unwrap().remaining, 10_000_000);
    assert_eq!(world.len() as u64, 3 + PACKET_COUNT);

    // The plasma collapses once its lifetime has run out.
    let mut rec = world.entities[0];
    rec.lifetime = Some(lithos::components::Lifetime::new(0));
    world.entities[0] = rec;
    plasma_to_debris_system(&mut world);
    assert_eq!(world.entities[0].droplet, Some(DropletState::Debris));
}

#[test]
fn far_droplet_is_not_targeted() {
    let mut world = World::new();
    let far = Position3D::new(Distance::from_millimeters(2), Distance::zero(), Distance::zero());
    world.spawn(droplet_at(far)).unwrap();
    let mut targeting = LaserTargetingSystem::default();
    laser_targeting_system(&mut world, 1_000_000, &mut targeting);
    assert_eq!(world.len(), 1);
    assert_eq!(targeting.cooldown, 0);
}

#[test]
fn photon_packets_are_emitted_in_many_directions() {
    let mut world = World::new();
    spawn_photon_packets(&mut world, Position3D::zero(), LaserBeam::MAIN_PULSE_POWER);
    assert_eq!(world.len() as u64, PACKET_COUNT);
    // 20 kW x 2 % / 14724 zJ per photon, over 1000 packets.
    let expected = PhotonPacket::new(27_165_710_836_100_211);
    assert_eq!(world.entities[0].photon, Some(expected));
    let first = world.entities[0].velocity;
    assert!(world.entities.iter().any(|e| e.velocity != first));
    for e in world.entities.iter() {
        let speed = e.velocity.unwrap().speed() as i64;
        assert!((speed - 300_000_000_000_000).abs() < 2_000_000_000);
    }
}

#[test]
fn motion_and_expiry() {
    let mut world = World::new();
    let mut rec = EntityRecord::empty();
    rec.position = Some(lithos::components::Position(Position3D::zero()));
    rec.velocity = Some(Velocity::new(100_000_000, 0, -1));
    rec.lifetime = Some(lithos::components::Lifetime::new(1_500_000));
    world.spawn(rec).unwrap();
    physics_movement_system(&mut world, 1_000_000);
    // 100 m/s for 1 us is 100 um.
    assert_eq!(world.entities[0].position.unwrap().0.x, Distance::from_micrometers(100));
    assert_eq!(world.entities[0].position.unwrap().0.z, Distance::from_picometers(-1));
    lifetime_system(&mut world, 1_000_000);
    assert_eq!(world.len(), 1);
    lifetime_system(&mut world, 1_000_000);
    assert_eq!(world.len(), 0);
}

#[test]
fn beam_hits_only_the_first_droplet_it_strikes() {
    let mut world = World::new();
    world.spawn(droplet_at(Position3D::zero())).unwrap();
    world.spawn(droplet_at(Position3D::new(Distance::from_micrometers(10), Distance::zero(), Distance::zero()))).unwrap();
    let mut beam = EntityRecord::empty();
    beam.position = Some(lithos::components::Position(Position3D::new(Distance::from_micrometers(5), Distance::zero(), Distance::zero())));
    beam.laser = Some(LaserBeam { power: LaserBeam::PRE_PULSE_POWER, is_prepulse: true, has_fired: false });
    world.spawn(beam).unwrap();
    assert_eq!(fire_beam(&mut world, 2), Some((0, false)));
    assert_eq!(world.entities[0].droplet, Some(DropletState::Pancaked));
    assert_eq!(world.entities[1].droplet, Some(DropletState::Spherical));
    assert!(world.entities[2].laser.unwrap().has_fired);
    // A fired beam does nothing more; a droplet is no beam.
    assert_eq!(fire_beam(&mut world, 2), None);
    assert_eq!(fire_beam(&mut world, 1), None);
}

#[test]
fn photons_per_packet_follow_the_exact_photon_energy() {
    let mut world = World::new();
    spawn_photon_packets(&mut world, Position3D::zero(), 1000);
    assert_eq!(world.entities[0].photon.unwrap().photon_count, 1_358_285_541_805_010);
}

#[test]
fn emission_shell_bounds() {
    use_shell();
}

fn use_shell() {
    let inside = lithos::vector::Vector3 { x: 600_000, y: 0, z: 0 };
    let too_short = lithos::vector::Vector3 { x: 400_000, y: 0, z: 0 };
    let too_long = lithos::vector::Vector3 { x: 800_000, y: 800_000, z: 0 };
    assert!(lithos::interactions::in_emission_shell(&inside));
    assert!(!lithos::interactions::in_emission_shell(&too_short));
    assert!(!lithos::interactions::in_emission_shell(&too_long));
}
