//! The world of one run: the player, the pool of pipes, and the steps of a tick.

use vstd::prelude::*;
use crate::fixed::{
    divide, fits, law_quotient_is_monotone, law_quotient_is_odd, quotient,
};
use crate::movable::{Movable, SpecMovable};
use crate::vec3::{SpecVec3, Vec3};

verus! {

/// Vertical speed that a jump gives the player.
pub const UP_SPEED: i64 = 500_000_000;

/// Vertical acceleration of the player.
pub const GRAVITY: i64 = -2_000_000_000;

/// Tilt of the player when it rises at `UP_SPEED`.
pub const ANGLE_AMPLITUDE: i64 = 800_000;

/// A quarter turn, to the nearest millionth of a radian: the steepest tilt either way.
pub const HALF_PI: i64 = 1_570_796;

/// The player, its tilt, the pool of pipes and the boundary they are recycled at.
#[derive(Clone, Debug, PartialEq, Eq)]
pub struct World {
    pub player: Movable,
    /// Tilt of the player about the viewing axis.
    pub rotation: i64,
    pub pipes: Vec<Movable>,
    /// A pipe whose `x` is below this has left the view.
    pub left_border: i64,
}

/// The mathematical state that a [`World`] stands for.
pub struct SpecWorld {
    pub player: SpecMovable,
    pub rotation: int,
    pub pipes: Seq<SpecMovable>,
    pub left_border: int,
}

impl View for World {
    type V = SpecWorld;

    open spec fn view(&self) -> SpecWorld {
        SpecWorld {
            player: self.player@,
            rotation: self.rotation as int,
            pipes: self.pipes@.map_values(|m: Movable| m@),
            left_border: self.left_border as int,
        }
    }
}

/// The tilt shown for a vertical speed: proportional to it, `ANGLE_AMPLITUDE` at
/// `UP_SPEED`, rounded towards zero and held within a quarter turn either way.
pub open spec fn tilt(vertical_speed: int) -> int {
    let raw = quotient(vertical_speed * ANGLE_AMPLITUDE, UP_SPEED as int);
    if raw < -HALF_PI {
        -HALF_PI
    } else if raw > HALF_PI {
        HALF_PI as int
    } else {
        raw
    }
}

impl SpecWorld {
    /// Whether every scalar of the state can be stored.
    pub open spec fn fits(self) -> bool {
        &&& self.player.fits()
        &&& fits(self.rotation)
        &&& fits(self.left_border)
        &&& forall|i: int| 0 <= i < self.pipes.len() ==> (#[trigger] self.pipes[i]).fits()
    }

    /// The jump trigger: while it is active the player's vertical speed is `UP_SPEED`,
    /// whatever it was.
    pub open spec fn jumped(self, pressed: bool) -> SpecWorld {
        if pressed {
            SpecWorld {
                player: SpecMovable {
                    velocity: SpecVec3 { y: UP_SPEED as int, ..self.player.velocity },
                    ..self.player
                },
                ..self
            }
        } else {
            self
        }
    }

    /// First phase of the integration, on the player and on every pipe.
    pub open spec fn accelerated(self, dt: int) -> SpecWorld {
        SpecWorld {
            player: self.player.accelerated(dt),
            pipes: self.pipes.map_values(|m: SpecMovable| m.accelerated(dt)),
            ..self
        }
    }

    /// Second phase of the integration, on the player and on every pipe.
    pub open spec fn moved(self, dt: int) -> SpecWorld {
        SpecWorld {
            player: self.player.moved(dt),
            pipes: self.pipes.map_values(|m: SpecMovable| m.moved(dt)),
            ..self
        }
    }

    /// The tilt is derived anew from the player's vertical speed.
    pub open spec fn rotated(self) -> SpecWorld {
        SpecWorld { rotation: tilt(self.player.velocity.y), ..self }
    }
}

/// Sets the player's vertical speed to `UP_SPEED` while the jump trigger is active.
pub fn jump(world: &mut World, pressed: bool)
    ensures
        final(world)@ == old(world)@.jumped(pressed),
        pressed ==> final(world).player.velocity.y == UP_SPEED,
        !pressed ==> *final(world) == *old(world),
{
    if pressed {
        world.player.velocity.y = UP_SPEED;
    }
}

/// Derives the player's tilt from its vertical speed.
pub fn rotate(world: &mut World)
    ensures
        final(world)@ == old(world)@.rotated(),
        final(world).rotation == tilt(old(world).player.velocity.y as int),
        -HALF_PI <= final(world).rotation <= HALF_PI,
{
    let speed: i128 = world.player.velocity.y as i128;
    let amplitude: i128 = ANGLE_AMPLITUDE as i128;
    assert(-0x8000_0000_0000_0000 * 800_000 <= speed * amplitude <= 0x8000_0000_0000_0000
        * 800_000) by (nonlinear_arith)
        requires
            -0x8000_0000_0000_0000 <= speed < 0x8000_0000_0000_0000,
            amplitude == 800_000,
    ;
    let raw: i128 = divide(speed * amplitude, UP_SPEED as i128);
    if raw < -(HALF_PI as i128) {
        world.rotation = -HALF_PI;
    } else if raw > HALF_PI as i128 {
        world.rotation = HALF_PI;
    } else {
        world.rotation = raw as i64;
    }
}

/// First phase of the integration: every velocity gains its acceleration over `dt`.
pub fn apply_acceleration(world: &mut World, dt: u64)
    requires
        old(world)@.accelerated(dt as int).fits(),
    ensures
        final(world)@ == old(world)@.accelerated(dt as int),
        final(world).pipes.len() == old(world).pipes.len(),
        final(world).player@.velocity == old(world).player@.velocity.advanced(
            old(world).player@.acceleration,
            dt as int,
        ),
        forall|i: int|
            0 <= i < old(world).pipes.len() ==> (#[trigger] final(world).pipes[i])@.velocity
                == old(world).pipes[i]@.velocity.advanced(
                old(world).pipes[i]@.acceleration,
                dt as int,
            ),
{
    let ghost before = old(world)@;
    world.player.apply_acceleration(dt);
    let count: usize = world.pipes.len();
    let mut i: usize = 0;
    while i < count
        invariant
            i <= count,
            count == world.pipes.len(),
            before.pipes.len() == count,
            before.accelerated(dt as int).fits(),
            world.player@ == before.player.accelerated(dt as int),
            world.rotation == before.rotation,
            world.left_border == before.left_border,
            forall|j: int| 0 <= j < i ==> (#[trigger] world.pipes[j])@ == before.pipes[j].accelerated(dt as int),
            forall|j: int| i <= j < count ==> (#[trigger] world.pipes[j])@ == before.pipes[j],
        decreases count - i,
    {
        let mut pipe: Movable = world.pipes[i];
        assert(before.accelerated(dt as int).pipes[i as int].fits());
        pipe.apply_acceleration(dt);
        world.pipes.set(i, pipe);
        i += 1;
    }
    assert(world@.pipes =~= before.accelerated(dt as int).pipes);
    assert forall|i: int| 0 <= i < count implies (#[trigger] world.pipes[i])@.velocity
        == old(world).pipes[i]@.velocity.advanced(old(world).pipes[i]@.acceleration, dt as int) by {
        assert(before.pipes[i] == old(world).pipes[i]@);
    }
}

/// Second phase of the integration: every position gains its velocity over `dt`.
pub fn apply_velocity(world: &mut World, dt: u64)
    requires
        old(world)@.moved(dt as int).fits(),
    ensures
        final(world)@ == old(world)@.moved(dt as int),
        final(world).pipes.len() == old(world).pipes.len(),
        final(world).player@.position == old(world).player@.position.advanced(
            old(world).player@.velocity,
            dt as int,
        ),
        forall|i: int|
            0 <= i < old(world).pipes.len() ==> (#[trigger] final(world).pipes[i])@.position
                == old(world).pipes[i]@.position.advanced(old(world).pipes[i]@.velocity, dt as int),
{
    let ghost before = old(world)@;
    world.player.apply_velocity(dt);
    let count: usize = world.pipes.len();
    let mut i: usize = 0;
    while i < count
        invariant
            i <= count,
            count == world.pipes.len(),
            before.pipes.len() == count,
            before.moved(dt as int).fits(),
            world.player@ == before.player.moved(dt as int),
            world.rotation == before.rotation,
            world.left_border == before.left_border,
            forall|j: int| 0 <= j < i ==> (#[trigger] world.pipes[j])@ == before.pipes[j].moved(dt as int),
            forall|j: int| i <= j < count ==> (#[trigger] world.pipes[j])@ == before.pipes[j],
        decreases count - i,
    {
        let mut pipe: Movable = world.pipes[i];
        assert(before.moved(dt as int).pipes[i as int].fits());
        pipe.apply_velocity(dt);
        world.pipes.set(i, pipe);
        i += 1;
    }
    assert(world@.pipes =~= before.moved(dt as int).pipes);
    assert forall|i: int| 0 <= i < count implies (#[trigger] world.pipes[i])@.position
        == old(world).pipes[i]@.position.advanced(old(world).pipes[i]@.velocity, dt as int) by {
        assert(before.pipes[i] == old(world).pipes[i]@);
    }
}

/// The two phases of the integration, one after the other, are semi-implicit for
/// the player and for every pipe: each velocity gains its acceleration over `dt`,
/// and each position then gains the velocity that results, not the one the tick
/// began with. No acceleration changes.
pub proof fn law_world_integration_order(world: SpecWorld, dt: int)
    ensures
        world.accelerated(dt).moved(dt).player == world.player.stepped(dt),
        world.accelerated(dt).moved(dt).pipes.len() == world.pipes.len(),
        forall|i: int|
            #![trigger world.accelerated(dt).moved(dt).pipes[i]]
            0 <= i < world.pipes.len() ==> {
                let before = world.pipes[i];
                let after = world.accelerated(dt).moved(dt).pipes[i];
                &&& after.velocity == before.velocity.advanced(before.acceleration, dt)
                &&& after.position == before.position.advanced(
                    before.velocity.advanced(before.acceleration, dt),
                    dt,
                )
                &&& after.acceleration == before.acceleration
            },
{
}

/// The tilt never passes a quarter turn either way, and is a quarter turn exactly
/// from 981.7475 units a second on: upward when the player rises that fast,
/// downward when it falls that fast.
pub proof fn law_tilt_is_held(vertical_speed: int)
    ensures
        -HALF_PI <= tilt(vertical_speed) <= HALF_PI,
        tilt(vertical_speed) == HALF_PI <==> vertical_speed >= 981_747_500,
        tilt(vertical_speed) == -HALF_PI <==> vertical_speed <= -981_747_500,
{
}

/// Rising and falling tilt the player alike: the tilt of the opposite vertical
/// speed is the opposite tilt.
pub proof fn law_tilt_is_odd(vertical_speed: int)
    ensures
        tilt(-vertical_speed) == -tilt(vertical_speed),
{
    law_quotient_is_odd(vertical_speed * ANGLE_AMPLITUDE, UP_SPEED as int);
}

/// A greater vertical speed never gives a smaller tilt.
pub proof fn law_tilt_is_monotone(slower: int, faster: int)
    requires
        slower <= faster,
    ensures
        tilt(slower) <= tilt(faster),
{
    law_quotient_is_monotone(
        slower * ANGLE_AMPLITUDE,
        faster * ANGLE_AMPLITUDE,
        UP_SPEED as int,
    );
}

} // verus!
