//! Three-component vectors of fixed-point scalars.

use vstd::prelude::*;
use crate::fixed::{checked_advance, fits, scaled};

verus! {

/// A vector whose components count millionths.
#[derive(Clone, Copy, Debug, PartialEq, Eq, Structural)]
pub struct Vec3 {
    pub x: i64,
    pub y: i64,
    pub z: i64,
}

/// The mathematical vector that a [`Vec3`] stands for: its components are unbounded.
pub struct SpecVec3 {
    pub x: int,
    pub y: int,
    pub z: int,
}

impl View for Vec3 {
    type V = SpecVec3;

    open spec fn view(&self) -> SpecVec3 {
        SpecVec3 { x: self.x as int, y: self.y as int, z: self.z as int }
    }
}

impl SpecVec3 {
    /// Whether every component can be stored in a [`Vec3`].
    pub open spec fn fits(self) -> bool {
        fits(self.x) && fits(self.y) && fits(self.z)
    }

    /// This vector after changing at `rate` per second for `dt` microseconds.
    pub open spec fn advanced(self, rate: SpecVec3, dt: int) -> SpecVec3 {
        SpecVec3 {
            x: self.x + scaled(rate.x, dt),
            y: self.y + scaled(rate.y, dt),
            z: self.z + scaled(rate.z, dt),
        }
    }
}

impl Vec3 {
    /// The vector with the given components.
    pub fn new(x: i64, y: i64, z: i64) -> (v: Vec3)
        ensures
            v == (Vec3 { x, y, z }),
    {
        Vec3 { x, y, z }
    }

    /// The vector with all components zero.
    pub fn zero() -> (v: Vec3)
        ensures
            v == (Vec3 { x: 0, y: 0, z: 0 }),
    {
        Vec3 { x: 0, y: 0, z: 0 }
    }

    /// This vector after changing at `rate` per second for `dt` microseconds, where
    /// every component of that can be stored.
    pub fn checked_advance(self, rate: Vec3, dt: u64) -> (r: Option<Vec3>)
        ensures
            self@.advanced(rate@, dt as int).fits() ==> r.is_some() && r.unwrap()@
                == self@.advanced(rate@, dt as int),
            !self@.advanced(rate@, dt as int).fits() ==> r.is_none(),
    {
        match checked_advance(self.x, rate.x, dt) {
            None => None,
            Some(x) => match checked_advance(self.y, rate.y, dt) {
                None => None,
                Some(y) => match checked_advance(self.z, rate.z, dt) {
                    None => None,
                    Some(z) => Some(Vec3 { x, y, z }),
                },
            },
        }
    }
}

} // verus!
