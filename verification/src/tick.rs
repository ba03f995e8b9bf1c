//! One tick of the simulation: its steps in their fixed order.

use vstd::prelude::*;
use crate::movable::Movable;
use crate::pipes::{
    evenly_spaced, farthest_position, gone_before, law_motion_keeps_spacing,
    law_recycling_keeps_spacing, lemma_recycled_fits, move_alike, recycled, reuse_pipes,
    PIPE_GAP,
};
use crate::world::{
    apply_acceleration, apply_velocity, jump, rotate, tilt, SpecWorld, World, HALF_PI, UP_SPEED,
};

verus! {

impl SpecWorld {
    /// The world one tick of `dt` microseconds later: the jump trigger is applied,
    /// then velocities are advanced, then positions by the new velocities, then the
    /// tilt is derived, and at last the pipes that left the view are recycled.
    pub open spec fn ticked(self, pressed: bool, dt: int) -> SpecWorld {
        self.jumped(pressed).accelerated(dt).moved(dt).rotated().recycled()
    }

    /// Whether a tick can be taken: the pool holds a pipe, and the state after each
    /// step of the tick can be stored.
    pub open spec fn can_tick(self, pressed: bool, dt: int) -> bool {
        &&& self.pipes.len() > 0
        &&& self.jumped(pressed).accelerated(dt).fits()
        &&& self.jumped(pressed).accelerated(dt).moved(dt).fits()
        &&& self.ticked(pressed, dt).fits()
    }
}

/// Advances the world by one tick of `dt` microseconds.
pub fn tick(world: &mut World, pressed: bool, dt: u64)
    requires
        old(world)@.can_tick(pressed, dt as int),
    ensures
        final(world)@ == old(world)@.ticked(pressed, dt as int),
        final(world).pipes.len() == old(world).pipes.len(),
        evenly_spaced(old(world)@.pipes) && move_alike(old(world)@.pipes) ==> evenly_spaced(
            final(world)@.pipes,
        ) && move_alike(final(world)@.pipes),
{
    proof {
        if evenly_spaced(world@.pipes) && move_alike(world@.pipes) {
            law_tick_keeps_spacing(world@, pressed, dt as int);
        }
    }
    jump(world, pressed);
    apply_acceleration(world, dt);
    apply_velocity(world, dt);
    rotate(world);
    assert(world.pipes.len() == world@.pipes.len());
    reuse_pipes(world);
}

/// Whether a tick can be taken: tells so without changing the world.
pub fn can_tick(world: &World, pressed: bool, dt: u64) -> (ok: bool)
    ensures
        ok == world@.can_tick(pressed, dt as int),
{
    let count: usize = world.pipes.len();
    if count == 0 {
        return false;
    }
    let mut player: Movable = world.player;
    if pressed {
        player.velocity.y = UP_SPEED;
    }
    let ghost faster = world@.jumped(pressed).accelerated(dt as int);
    let ghost further = faster.moved(dt as int);
    let ghost left = world.left_border as int;
    assert(player@ == world@.jumped(pressed).player);
    if player.checked_step(dt).is_none() {
        return false;
    }
    let mut far_x: i64 = 0;
    let mut gone: usize = 0;
    let mut i: usize = 0;
    while i < count
        invariant
            i <= count,
            count == world.pipes.len(),
            faster == world@.jumped(pressed).accelerated(dt as int),
            further == faster.moved(dt as int),
            left == world.left_border,
            forall|j: int| 0 <= j < i ==> (#[trigger] world.pipes[j])@.step_fits(dt as int),
            i > 0 ==> far_x == farthest_position(further.pipes.take(i as int)).x,
            gone == gone_before(further.pipes, left, i as int),
            gone <= i,
        decreases count - i,
    {
        proof {
            assert(world@.pipes[i as int] == world.pipes[i as int]@);
            assert(faster.pipes[i as int] == world.pipes[i as int]@.accelerated(dt as int));
            assert(further.pipes[i as int] == world.pipes[i as int]@.stepped(dt as int));
            assert(further.pipes.take(i + 1).drop_last() =~= further.pipes.take(i as int));
            assert(further.pipes.take(i + 1).last() == further.pipes[i as int]);
        }
        match world.pipes[i].checked_step(dt) {
            None => {
                return false;
            },
            Some(next) => {
                if i == 0 || next.position.x >= far_x {
                    far_x = next.position.x;
                }
                if next.position.x < world.left_border {
                    gone += 1;
                }
            },
        }
        i += 1;
    }
    proof {
        assert(further.pipes.take(count as int) =~= further.pipes);
        assert forall|j: int| 0 <= j < count implies (#[trigger] faster.pipes[j]).fits() && (
        #[trigger] further.pipes[j]).fits() by {
            assert(world.pipes[j]@.step_fits(dt as int));
            assert(world@.pipes[j] == world.pipes[j]@);
        }
        assert(faster.fits());
        assert(further.fits());
        lemma_recycled_fits(further.pipes, left);
        assert(-HALF_PI <= tilt(further.player.velocity.y) <= HALF_PI);
        assert(world@.ticked(pressed, dt as int).pipes == recycled(further.pipes, left));
    }
    if gone == 0 {
        true
    } else {
        (far_x as i128) + (gone as i128) * (PIPE_GAP as i128) <= i64::MAX as i128
    }
}

/// Advances the world by one tick of `dt` microseconds where that can be done, and
/// tells whether it was; where it cannot, the world stays as it is.
pub fn try_tick(world: &mut World, pressed: bool, dt: u64) -> (done: bool)
    ensures
        done == old(world)@.can_tick(pressed, dt as int),
        done ==> final(world)@ == old(world)@.ticked(pressed, dt as int),
        !done ==> *final(world) == *old(world),
        final(world).pipes.len() == old(world).pipes.len(),
        evenly_spaced(old(world)@.pipes) && move_alike(old(world)@.pipes) ==> evenly_spaced(
            final(world)@.pipes,
        ) && move_alike(final(world)@.pipes),
{
    if can_tick(world, pressed, dt) {
        tick(world, pressed, dt);
        true
    } else {
        false
    }
}

/// The world after one tick for each of `inputs`, which give for each tick whether
/// the jump trigger is active and how many microseconds it lasts.
pub open spec fn after_ticks(world: SpecWorld, inputs: Seq<(bool, int)>) -> SpecWorld
    decreases inputs.len(),
{
    if inputs.len() == 0 {
        world
    } else {
        after_ticks(world, inputs.drop_last()).ticked(inputs.last().0, inputs.last().1)
    }
}

/// Within a tick the steps come in a fixed order. The player's velocity is that
/// after the jump trigger advanced by the acceleration, its position is advanced by
/// that new velocity, and its tilt is that of the new vertical speed. Each pipe is
/// advanced in the same way, and keeps the place it is advanced to unless that
/// lies left of the border.
pub proof fn law_tick_order(world: SpecWorld, pressed: bool, dt: int)
    ensures
        world.ticked(pressed, dt).player == world.jumped(pressed).player.stepped(dt),
        world.ticked(pressed, dt).player.acceleration == world.player.acceleration,
        world.ticked(pressed, dt).rotation == tilt(
            world.jumped(pressed).player.stepped(dt).velocity.y,
        ),
        world.ticked(pressed, dt).left_border == world.left_border,
        world.ticked(pressed, dt).pipes.len() == world.pipes.len(),
        forall|i: int|
            #![trigger world.ticked(pressed, dt).pipes[i]]
            0 <= i < world.pipes.len() ==> {
                let before = world.pipes[i];
                let after = world.ticked(pressed, dt).pipes[i];
                &&& after.velocity == before.stepped(dt).velocity
                &&& after.acceleration == before.acceleration
                &&& before.stepped(dt).position.x >= world.left_border ==> after.position
                    == before.stepped(dt).position
            },
{
}

/// A tick keeps a pool evenly spaced whose pipes move alike, and its pipes go on
/// moving alike.
pub proof fn law_tick_keeps_spacing(world: SpecWorld, pressed: bool, dt: int)
    requires
        world.pipes.len() > 0,
        evenly_spaced(world.pipes),
        move_alike(world.pipes),
    ensures
        world.ticked(pressed, dt).pipes.len() == world.pipes.len(),
        evenly_spaced(world.ticked(pressed, dt).pipes),
        move_alike(world.ticked(pressed, dt).pipes),
{
    let faster = world.jumped(pressed).accelerated(dt);
    law_motion_keeps_spacing(world.pipes, dt);
    law_motion_keeps_spacing(faster.pipes, dt);
    law_recycling_keeps_spacing(faster.moved(dt).pipes, world.left_border);
}

/// However many ticks are taken, and whatever their inputs, a pool that began
/// evenly spaced with its pipes moving alike is evenly spaced after them: at no
/// time do two pipes share a place, or lie closer or farther than a gap apart.
pub proof fn law_spacing_lasts(world: SpecWorld, inputs: Seq<(bool, int)>)
    requires
        world.pipes.len() > 0,
        evenly_spaced(world.pipes),
        move_alike(world.pipes),
    ensures
        after_ticks(world, inputs).pipes.len() == world.pipes.len(),
        evenly_spaced(after_ticks(world, inputs).pipes),
        move_alike(after_ticks(world, inputs).pipes),
    decreases inputs.len(),
{
    if inputs.len() > 0 {
        law_spacing_lasts(world, inputs.drop_last());
        law_tick_keeps_spacing(
            after_ticks(world, inputs.drop_last()),
            inputs.last().0,
            inputs.last().1,
        );
    }
}

} // verus!
