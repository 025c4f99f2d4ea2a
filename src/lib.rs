//! A fixed-time-step simulation of circular particles that fall under constant
//! gravity inside a rectangular domain centred on the world origin.
//!
//! All lengths are fixed-point integers counting millionths of a world unit
//! (see [`fixed::SCALE`]); time steps are exact fractions of a second.
pub mod fixed;
pub mod model;
pub mod generator;
pub mod stepper;

pub use fixed::{PADDING, SCALE};
pub use model::{Color, Domain, Particle, PhysicsConfig, PhysicsError, TimeStep, Vec2};
pub use generator::generate;
pub use stepper::{advance, resolve_collision, step};
