use lithos::components::{Lifetime, Mass, OpticalMaterial, ThermalState, Velocity, AMBIENT};
use lithos::thermal::{dissipate, CoolingSystem};

#[test]
fn test_thermal_state() {
    // 293.15 K with 1000 J/K; 1 kJ raises it by 1 K.
    let mut thermal = ThermalState::new(293_150_000, 1_000_000_000);
    thermal.add_heat(1_000_000_000_000);
    assert_eq!(thermal.temperature, 294_150_000);
}

#[test]
fn test_velocity_speed() {
    // 3 m/s and 4 m/s, in micrometres per second.
    let vel = Velocity::new(3_000_000, 4_000_000, 0);
    assert_eq!(vel.speed(), 5_000_000);
}

#[test]
fn add_heat_raises_energy_by_exactly_the_argument() {
    let mut thermal = ThermalState::new(AMBIENT, 5_000_000_000);
    thermal.add_heat(120_000_000);
    assert_eq!(thermal.heat_energy, 120_000_000);
    thermal.add_heat(7);
    assert_eq!(thermal.heat_energy, 120_000_007);
    assert_eq!(thermal.temperature, AMBIENT + 24);
}

#[test]
fn test_cooling_system() {
    let cooling = CoolingSystem::active_cooling(1000);
    assert_eq!(cooling.cooling_power, 1000);
    assert!(cooling.efficiency > 0);
}

#[test]
fn test_thermal_dissipation() {
    let mut thermal = ThermalState::new(400_000_000, 1_000_000_000);
    thermal.heat_energy = 107_000_000_000_000;
    let delta_temp = thermal.temperature - AMBIENT;
    assert!(delta_temp > 100_000_000);
}

#[test]
fn dissipation_converges_to_ambient_without_undershoot() {
    // 10 J above ambient in a 1 J/K body, settled at 303.15 K.
    let mut thermal = ThermalState { temperature: AMBIENT + 10_000_000, heat_energy: 10_000_000_000, heat_capacity: 1_000_000 };
    let cooling = Some(CoolingSystem::active_cooling(1000));
    let mut last = thermal.temperature;
    let mut ticks = 0;
    while thermal.temperature > AMBIENT && ticks < 100_000 {
        dissipate(&mut thermal, cooling, 1_000_000);
        assert!(thermal.temperature <= last);
        assert!(thermal.temperature >= AMBIENT);
        last = thermal.temperature;
        ticks += 1;
    }
    assert_eq!(thermal.temperature, AMBIENT);
}

#[test]
fn natural_convection_removes_heat() {
    let mut thermal = ThermalState { temperature: AMBIENT + 1_000_000, heat_energy: 1_000_000_000, heat_capacity: 1_000_000_000 };
    dissipate(&mut thermal, None, 1_000_000);
    // delta 1 K x 1 % x 1000 J/K x 1 us = 10 uJ, rounded up in nJ.
    assert_eq!(thermal.heat_energy, 1_000_000_000 - 10_000);
}

#[test]
fn body_below_ambient_is_left_alone() {
    let mut thermal = ThermalState::new(AMBIENT - 5, 1_000);
    let before = thermal;
    dissipate(&mut thermal, None, 1_000_000);
    assert_eq!(thermal, before);
}

#[test]
fn lifetime_counts_down_and_expires() {
    let mut l = Lifetime::new(10);
    assert!(!l.tick(4));
    assert_eq!(l.remaining, 6);
    assert!(l.tick(6));
    assert_eq!(l.remaining, 0);
}

#[test]
fn reflect_or_absorb_follows_the_draw() {
    let m = OpticalMaterial::bragg_mirror();
    assert!(m.interact(0));
    assert!(m.interact(699_999));
    assert!(!m.interact(700_000));
    assert!(!m.interact(999_999));
}

#[test]
fn mass_units() {
    assert_eq!(Mass::from_grams(2).0, 2_000_000_000_000);
    assert_eq!(Mass::from_micrograms(5).0, 5_000_000);
}

#[test]
fn passive_cooling_defaults() {
    let c = CoolingSystem::passive_cooling();
    assert_eq!(c.cooling_power, 100);
    assert_eq!(c.efficiency, 500_000);
    assert_eq!(CoolingSystem::default().cooling_power, 1000);
}
