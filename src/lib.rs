//! Deterministic fixed-timestep core of an EUV light-source simulation:
//! droplet generation, laser targeting, the droplet state machine, mirror
//! optics with photon-packet transport, and the thermal load on mirrors.
//!
//! Every quantity is held in exact integer units: lengths in picometres,
//! time in picoseconds, velocities in micrometres per second, energies in
//! nanojoules, temperatures in microkelvin.

pub mod units;
pub mod vector;
pub mod components;
pub mod thermal;
pub mod optics;
pub mod source;
pub mod raytracing;
pub mod world;
pub mod interactions;
mod random;
pub mod sim;
pub mod profiler;
