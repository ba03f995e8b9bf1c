//! Simulation core of a side-scrolling avoider game, in exact fixed-point arithmetic.
//!
//! A player falls under gravity and jumps on a trigger; a fixed pool of pipes
//! scrolls towards it at a growing speed, and a pipe that has left the view is put
//! back at the far end of the pool. Work that needs resources waits at a loading
//! gate until all of them are loaded.
//!
//! Every length, angle and duration is an integer count of millionths (of a world
//! unit, of a radian, of a second), so that a run is reproducible bit for bit and
//! every step has a contract over the integers.
//!
//! - [`fixed`]: scalars and their advance over time;
//! - [`vec3`], [`movable`]: vectors, and the kinematic state of one entity;
//! - [`world`]: the world and the steps that act on the player and on motion;
//! - [`pipes`]: the pool of pipes and its recycling;
//! - [`tick`]: the steps of one tick in their order;
//! - [`bootstrap`]: the world as a run begins;
//! - [`loading`]: the loading gate.

pub mod bootstrap;
pub mod fixed;
pub mod loading;
pub mod movable;
pub mod pipes;
pub mod tick;
pub mod vec3;
pub mod world;
