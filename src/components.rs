//! Attributes that entities carry.

use vstd::prelude::*;
use crate::units::{Distance, Position3D};
use crate::vector::{Vector3, dot, length as vector_length};
use crate::units::is_isqrt;

verus! {

/// Ambient temperature, 293.15 K, in microkelvin.
pub const AMBIENT: u128 = 293_150_000;

/// Where an entity is.
#[derive(Clone, Copy, Debug, PartialEq, Eq, Structural)]
pub struct Position(pub Position3D);

/// Velocity in micrometres per second.
#[derive(Clone, Copy, Debug, PartialEq, Eq, Structural)]
pub struct Velocity(pub Vector3);

impl Velocity {
    /// A velocity from its components in micrometres per second.
    pub fn new(x: i64, y: i64, z: i64) -> (r: Velocity)
        ensures
            r.0 == (Vector3 { x, y, z }),
    {
        Velocity(Vector3 { x, y, z })
    }

    pub fn zero() -> (r: Velocity)
        ensures
            r.0 == (Vector3 { x: 0, y: 0, z: 0 }),
    {
        Velocity(Vector3 { x: 0, y: 0, z: 0 })
    }

    /// Speed in micrometres per second, rounded down.
    pub fn speed(&self) -> (r: u64)
        ensures
            is_isqrt(dot(self.0, self.0), r as int),
    {
        vector_length(&self.0)
    }
}

/// Mass in picograms.
#[derive(Clone, Copy, Debug, PartialEq, Eq, Structural)]
pub struct Mass(pub u64);

impl Mass {
    pub fn from_grams(g: u64) -> (r: Mass)
        requires
            g * 1_000_000_000_000 <= u64::MAX,
        ensures
            r.0 == g * 1_000_000_000_000,
    {
        Mass(g * 1_000_000_000_000)
    }

    pub fn from_micrograms(ug: u64) -> (r: Mass)
        requires
            ug * 1_000_000 <= u64::MAX,
        ensures
            r.0 == ug * 1_000_000,
    {
        Mass(ug * 1_000_000)
    }
}

/// Heat held by a body: temperature in microkelvin, heat energy in
/// nanojoules, heat capacity in microjoules per kelvin.
#[derive(Clone, Copy, Debug, PartialEq, Eq, Structural)]
pub struct ThermalState {
    pub temperature: u128,
    pub heat_energy: i64,
    pub heat_capacity: u64,
}

/// Temperature rise, in microkelvin, from `joules` nanojoules of heat in a
/// body of capacity `capacity` microjoules per kelvin (rounded down).
pub open spec fn heat_rise(joules: int, capacity: int) -> int {
    joules * 1000 / capacity
}

impl ThermalState {
    pub open spec fn wf(&self) -> bool {
        self.heat_capacity > 0
    }

    /// Whether `add_heat(joules)` stays within the representation.
    pub open spec fn can_add(&self, joules: int) -> bool {
        self.heat_energy + joules <= i64::MAX && self.temperature + heat_rise(joules, self.heat_capacity as int)
            <= u128::MAX
    }

    pub fn new(initial_temp: u128, heat_capacity: u64) -> (r: ThermalState)
        requires
            heat_capacity > 0,
        ensures
            r.wf(),
            r == (ThermalState { temperature: initial_temp, heat_energy: 0, heat_capacity }),
    {
        ThermalState { temperature: initial_temp, heat_energy: 0, heat_capacity }
    }

    /// Adds `joules` nanojoules of heat, raising the temperature at once.
    pub fn add_heat(&mut self, joules: u64)
        requires
            old(self).wf(),
            old(self).can_add(joules as int),
        ensures
            final(self).wf(),
            final(self).heat_energy == old(self).heat_energy + joules,
            final(self).temperature == old(self).temperature + heat_rise(
                joules as int,
                old(self).heat_capacity as int,
            ),
            final(self).heat_capacity == old(self).heat_capacity,
    {
        let rise: u128 = (joules as u128) * 1000 / (self.heat_capacity as u128);
        self.heat_energy = ((self.heat_energy as i128) + (joules as i128)) as i64;
        self.temperature = self.temperature + rise;
    }
}

/// Heat-energy accounting: `add_heat` raises the recorded heat by exactly
/// the energy it is given, so absorbed energy never decreases the total.
pub proof fn lemma_add_heat_conserves(before: ThermalState, after: ThermalState, joules: u64)
    requires
        before.wf(),
        before.can_add(joules as int),
        after.heat_energy == before.heat_energy + joules,
        after.temperature == before.temperature + heat_rise(joules as int, before.heat_capacity as int),
        after.heat_capacity == before.heat_capacity,
    ensures
        after.heat_energy - before.heat_energy == joules,
        after.heat_energy >= before.heat_energy,
        after.temperature >= before.temperature,
{
    vstd::arithmetic::div_mod::lemma_div_pos_is_pos(joules * 1000, before.heat_capacity as int);
}

/// Acceleration in micrometres per second squared.
#[derive(Clone, Copy, Debug, PartialEq, Eq, Structural)]
pub struct Acceleration(pub Vector3);

/// Standard gravity, 9.81 m/s^2, per thousandth of a g, in um/s^2.
pub const MILLI_G: i128 = 9_810;

/// Acceleration of `g` thousandths of a g along `d`: each component
/// `d_i * g * MILLI_G / |d|`, rounded toward zero and held in `i64`.
pub open spec fn g_force_spec(g: int, d: Vector3) -> Vector3 {
    let n = crate::units::isqrt_spec(dot(d, d));
    Vector3 {
        x: crate::vector::saturate_spec(crate::units::div_trunc(d.x * g * MILLI_G, n)),
        y: crate::vector::saturate_spec(crate::units::div_trunc(d.y * g * MILLI_G, n)),
        z: crate::vector::saturate_spec(crate::units::div_trunc(d.z * g * MILLI_G, n)),
    }
}

fn g_component(c: i64, g: i64, n: i128) -> (r: i64)
    requires
        -crate::vector::UNIT <= c <= crate::vector::UNIT,
        n >= 1,
    ensures
        r == crate::vector::saturate_spec(crate::units::div_trunc(c * g * MILLI_G, n as int)),
{
    assert(-0x1_0000_0000_0000_0000_0000_0000_0000 <= c * g * MILLI_G <= 0x1_0000_0000_0000_0000_0000_0000_0000)
        by (nonlinear_arith)
        requires
            -1_000_000 <= c <= 1_000_000,
            i64::MIN <= g <= i64::MAX,
    ;
    crate::vector::saturate(crate::units::div_toward_zero((c as i128) * (g as i128) * MILLI_G, n))
}

impl Acceleration {
    pub fn zero() -> (r: Acceleration)
        ensures
            r.0 == (Vector3 { x: 0, y: 0, z: 0 }),
    {
        Acceleration(Vector3 { x: 0, y: 0, z: 0 })
    }

    /// `g` thousandths of standard gravity along the direction `direction`.
    pub fn from_g_force(g: i64, direction: &Vector3) -> (r: Acceleration)
        requires
            crate::vector::is_direction(*direction),
        ensures
            r.0 == g_force_spec(g as int, *direction),
    {
        proof {
            crate::vector::lemma_direction_bounds(*direction);
        }
        let d = direction;
        let a: i128 = (d.x as i128) * (d.x as i128) + (d.y as i128) * (d.y as i128) + (d.z as i128) * (d.z as i128);
        let n = crate::units::exact_isqrt(a);
        assert(n >= 1) by (nonlinear_arith)
            requires
                a >= 1,
                a < (n + 1) * (n + 1),
                n >= 0,
        ;
        Acceleration(
            Vector3 { x: g_component(d.x, g, n), y: g_component(d.y, g, n), z: g_component(d.z, g, n) },
        )
    }
}

/// Shape used for collision tests.
#[derive(Clone, Copy, Debug, PartialEq, Eq, Structural)]
pub enum CollisionShape {
    Sphere { radius: Distance },
    Disk { radius: Distance, thickness: Distance },
    Ray { origin: Position3D, direction: Vector3, length: Distance },
}

/// What an entity stands for.
#[derive(Clone, Copy, Debug, PartialEq, Eq, Structural)]
pub enum EntityType {
    TinDroplet,
    Photon,
    PhotonPacket { count: u64 },
    Mirror,
    LaserBeam,
    WaferStage,
    ReticleStage,
    Debris,
}

/// Time an entity has left, in picoseconds.
#[derive(Clone, Copy, Debug, PartialEq, Eq, Structural)]
pub struct Lifetime {
    pub remaining: u64,
}

impl Lifetime {
    pub fn new(picoseconds: u64) -> (r: Lifetime)
        ensures
            r.remaining == picoseconds,
    {
        Lifetime { remaining: picoseconds }
    }

    /// Counts `delta` picoseconds off; true once no time is left.
    pub fn tick(&mut self, delta: u64) -> (expired: bool)
        ensures
            final(self).remaining == (if old(self).remaining > delta {
                old(self).remaining - delta
            } else {
                0
            }),
            expired == (final(self).remaining == 0),
    {
        if self.remaining > delta {
            self.remaining = self.remaining - delta;
        } else {
            self.remaining = 0;
        }
        self.remaining == 0
    }
}

/// One million parts per million: probability one.
pub const PPM: u32 = 1_000_000;

/// Reflectivity and absorption of a mirror coating, in parts per million.
#[derive(Clone, Copy, Debug, PartialEq, Eq, Structural)]
pub struct OpticalMaterial {
    pub reflectivity: u32,
    pub absorption: u32,
}

impl OpticalMaterial {
    pub open spec fn wf(&self) -> bool {
        self.reflectivity <= PPM && self.absorption <= PPM
    }

    /// Multilayer Bragg coating: 70 % reflective, 30 % absorbing.
    pub fn bragg_mirror() -> (r: OpticalMaterial)
        ensures
            r.wf(),
            r.reflectivity == 700_000,
            r.absorption == 300_000,
    {
        OpticalMaterial { reflectivity: 700_000, absorption: 300_000 }
    }

    /// Reflect-or-absorb decision for a uniform draw in `[0, PPM)`: the
    /// packet is reflected exactly when the draw falls below the
    /// reflectivity, which happens with probability `reflectivity / PPM`.
    pub fn interact(&self, draw: u32) -> (reflects: bool)
        ensures
            reflects == (draw < self.reflectivity),
    {
        draw < self.reflectivity
    }
}

} // verus!
