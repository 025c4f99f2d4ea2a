//! The data of the simulation: particles, the domain, the time step and the
//! physical constants.
use vstd::prelude::*;

verus! {

/// A point or a vector in world coordinates, in millionths of a world unit.
/// The y axis grows downward, as on a screen.
#[derive(Clone, Copy, Debug, PartialEq, Eq, Structural)]
pub struct Vec2 {
    pub x: i64,
    pub y: i64,
}

/// A display colour, carried along for the renderer and never changed by the
/// simulation.
#[derive(Clone, Copy, Debug, PartialEq, Eq, Structural)]
pub struct Color {
    pub r: u8,
    pub g: u8,
    pub b: u8,
}

/// A circular point mass.
#[derive(Clone, Copy, Debug, PartialEq, Eq, Structural)]
pub struct Particle {
    /// Centre, relative to the centre of the domain.
    pub position: Vec2,
    /// Velocity, in fixed-point units per second.
    pub velocity: Vec2,
    /// Radius in whole world units.
    pub radius: u32,
    pub color: Color,
}

/// The state of a particle that changes from step to step, as integers.
pub struct Motion {
    pub x: int,
    pub y: int,
    pub vx: int,
    pub vy: int,
}

impl Particle {
    pub open spec fn motion(&self) -> Motion {
        Motion {
            x: self.position.x as int,
            y: self.position.y as int,
            vx: self.velocity.x as int,
            vy: self.velocity.y as int,
        }
    }
}

/// The rectangle the particles live in, in whole world units, centred on the
/// world origin.
#[derive(Clone, Copy, Debug, PartialEq, Eq, Structural)]
pub struct Domain {
    pub width: u32,
    pub height: u32,
}

impl Domain {
    /// A domain with no area, on which the half-bound size is meaningless.
    pub open spec fn is_degenerate(&self) -> bool {
        self.width == 0 || self.height == 0
    }
}

/// The duration of one step: `num / den` seconds.
#[derive(Clone, Copy, Debug, PartialEq, Eq, Structural)]
pub struct TimeStep {
    pub num: u32,
    pub den: u32,
}

impl TimeStep {
    /// A positive duration.
    pub open spec fn wf(&self) -> bool {
        self.num >= 1 && self.den >= 1
    }

    /// One sixtieth of a second.
    pub fn sixtieth() -> (r: TimeStep)
        ensures
            r.num == 1 && r.den == 60,
            r.wf(),
    {
        TimeStep { num: 1, den: 60 }
    }
}

/// The physical constants of the simulation.
#[derive(Clone, Copy, Debug, PartialEq, Eq, Structural)]
pub struct PhysicsConfig {
    /// Downward acceleration, in world units per second squared.
    pub gravity: i64,
    /// Factor applied to a velocity component on a bounce, in thousandths:
    /// 1000 keeps the speed (a perfectly elastic bounce), less loses energy.
    /// The damped velocity is rounded toward zero, so a bounce with a factor
    /// below 1000 stops that axis instead of reversing it when the velocity
    /// times the factor is under 1000 fixed-point units.
    pub damp_permille: u32,
}

impl PhysicsConfig {
    /// Gravity of 300 world units per second squared, elastic bounces.
    pub fn standard() -> (r: PhysicsConfig)
        ensures
            r.gravity == 300 && r.damp_permille == 1000,
    {
        PhysicsConfig { gravity: 300, damp_permille: 1000 }
    }
}

/// Why a request was refused.
#[derive(Clone, Copy, Debug, PartialEq, Eq, Structural)]
pub enum PhysicsError {
    /// The generator cannot lay particles out with these parameters.
    InvalidParameter,
    /// The domain has a zero width or height.
    DegenerateDomain,
    /// A particle would leave the range of the fixed-point representation.
    OutOfRange,
}

} // verus!
