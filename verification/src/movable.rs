//! Kinematic state of one entity and its two-phase integration.

use vstd::prelude::*;
use crate::vec3::{SpecVec3, Vec3};

verus! {

/// Position, velocity and constant acceleration of one entity.
#[derive(Clone, Copy, Debug, PartialEq, Eq, Structural)]
pub struct Movable {
    pub position: Vec3,
    pub velocity: Vec3,
    pub acceleration: Vec3,
}

/// The mathematical state that a [`Movable`] stands for.
pub struct SpecMovable {
    pub position: SpecVec3,
    pub velocity: SpecVec3,
    pub acceleration: SpecVec3,
}

impl View for Movable {
    type V = SpecMovable;

    open spec fn view(&self) -> SpecMovable {
        SpecMovable {
            position: self.position@,
            velocity: self.velocity@,
            acceleration: self.acceleration@,
        }
    }
}

impl SpecMovable {
    /// Whether every component can be stored in a [`Movable`].
    pub open spec fn fits(self) -> bool {
        self.position.fits() && self.velocity.fits() && self.acceleration.fits()
    }

    /// First phase of a tick: the velocity gains the acceleration over `dt`.
    pub open spec fn accelerated(self, dt: int) -> SpecMovable {
        SpecMovable { velocity: self.velocity.advanced(self.acceleration, dt), ..self }
    }

    /// Second phase of a tick: the position gains the velocity over `dt`.
    pub open spec fn moved(self, dt: int) -> SpecMovable {
        SpecMovable { position: self.position.advanced(self.velocity, dt), ..self }
    }

    /// A whole tick: first the velocity is advanced, then the position by the new velocity.
    pub open spec fn stepped(self, dt: int) -> SpecMovable {
        self.accelerated(dt).moved(dt)
    }

    /// Whether both phases of a tick give states that can be stored.
    pub open spec fn step_fits(self, dt: int) -> bool {
        self.accelerated(dt).fits() && self.stepped(dt).fits()
    }
}

impl Movable {
    /// An entity at `position` with the given velocity and acceleration.
    pub fn new(position: Vec3, velocity: Vec3, acceleration: Vec3) -> (m: Movable)
        ensures
            m == (Movable { position, velocity, acceleration }),
    {
        Movable { position, velocity, acceleration }
    }

    /// First phase of a tick, in place.
    pub fn apply_acceleration(&mut self, dt: u64)
        requires
            old(self)@.accelerated(dt as int).fits(),
        ensures
            final(self)@ == old(self)@.accelerated(dt as int),
    {
        match self.velocity.checked_advance(self.acceleration, dt) {
            Some(velocity) => {
                self.velocity = velocity;
            },
            None => {},
        }
    }

    /// Second phase of a tick, in place.
    pub fn apply_velocity(&mut self, dt: u64)
        requires
            old(self)@.moved(dt as int).fits(),
        ensures
            final(self)@ == old(self)@.moved(dt as int),
    {
        match self.position.checked_advance(self.velocity, dt) {
            Some(position) => {
                self.position = position;
            },
            None => {},
        }
    }

    /// The state after a whole tick, where both of its phases can be stored.
    pub fn checked_step(&self, dt: u64) -> (r: Option<Movable>)
        ensures
            self@.step_fits(dt as int) ==> r.is_some() && r.unwrap()@ == self@.stepped(dt as int),
            !self@.step_fits(dt as int) ==> r.is_none(),
    {
        match self.velocity.checked_advance(self.acceleration, dt) {
            None => None,
            Some(velocity) => match self.position.checked_advance(velocity, dt) {
                None => None,
                Some(position) => Some(
                    Movable { position, velocity, acceleration: self.acceleration },
                ),
            },
        }
    }
}

/// One tick is semi-implicit: the velocity gains the acceleration first, and the
/// position then gains the velocity that results, not the one the tick began with.
pub proof fn law_integration_order(m: SpecMovable, dt: int)
    ensures
        m.stepped(dt).velocity == m.velocity.advanced(m.acceleration, dt),
        m.stepped(dt).position == m.position.advanced(
            m.velocity.advanced(m.acceleration, dt),
            dt,
        ),
        m.stepped(dt).acceleration == m.acceleration,
{
}

/// A tick of no duration changes nothing.
pub proof fn law_zero_tick(m: SpecMovable)
    ensures
        m.stepped(0) == m,
{
}

} // verus!
