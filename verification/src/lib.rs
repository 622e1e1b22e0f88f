//! A tick-driven scheduler for a small set of DC motors.
//!
//! Clients submit jobs (direction, power, duration) for a specific motor;
//! each motor executes its jobs strictly in submission order while the
//! motors advance together on a shared fixed tick. Actuation hardware is
//! reached through the [`motor::AnyMotor`] capability, so the engine is
//! generic over the concrete wiring.

pub mod controller;
pub mod intake;
pub mod job;
pub mod laws;
pub mod motor;
