//! The pool of pipes: a fixed number of them, moved back to the right once they
//! have left the view on the left.

use vstd::prelude::*;
use crate::fixed::fits;
use crate::movable::{Movable, SpecMovable};
use crate::vec3::{SpecVec3, Vec3};
use crate::world::{SpecWorld, World};

verus! {

/// Number of pipes in the pool.
pub const PIPE_COUNT: usize = 10;

/// Distance along `x` between one pipe and the next.
pub const PIPE_GAP: i64 = 500_000_000;

/// Speed at which the pipes first approach the player.
pub const PIPE_START_SPEED: i64 = 100_000_000;

/// Speed that the pipes have gained after `PIPE_TIME_TO_MAX` seconds.
pub const PIPE_MAX_SPEED: i64 = 1_000_000_000;

/// Seconds over which the pipes go from `PIPE_START_SPEED` to `PIPE_MAX_SPEED`.
pub const PIPE_TIME_TO_MAX: i64 = 60;

/// How far beyond the edge of the window a pipe enters and leaves the view.
pub const BORDER_MARGIN: i64 = 100_000_000;

/// The heights of the pipes are drawn from zero up to, and not including, this.
pub const PIPE_HEIGHT_SPREAD: i64 = 1_000_000;

/// Position of the pipe farthest to the right: of the last such pipe, where several
/// share the greatest `x`.
pub open spec fn farthest_position(pipes: Seq<SpecMovable>) -> SpecVec3
    decreases pipes.len(),
{
    if pipes.len() <= 1 {
        pipes[0].position
    } else {
        let before = farthest_position(pipes.drop_last());
        if pipes.last().position.x >= before.x {
            pipes.last().position
        } else {
            before
        }
    }
}

/// How many of the first `n` pipes lie left of `left`.
pub open spec fn gone_before(pipes: Seq<SpecMovable>, left: int, n: int) -> int
    decreases n,
{
    if n <= 0 {
        0
    } else {
        gone_before(pipes, left, n - 1) + if pipes[n - 1].position.x < left {
            1int
        } else {
            0int
        }
    }
}

/// The pool after recycling: a pipe left of `left` takes the farthest position, moved
/// right by one gap for itself and by one more for each such pipe before it in the
/// pool; every other pipe, and every velocity and acceleration, stays as it is.
pub open spec fn recycled(pipes: Seq<SpecMovable>, left: int) -> Seq<SpecMovable> {
    let far = farthest_position(pipes);
    Seq::new(
        pipes.len(),
        |i: int|
            if pipes[i].position.x < left {
                SpecMovable {
                    position: SpecVec3 {
                        x: far.x + (gone_before(pipes, left, i) + 1) * PIPE_GAP,
                        ..far
                    },
                    ..pipes[i]
                }
            } else {
                pipes[i]
            },
    )
}

impl SpecWorld {
    /// The world after the pipes that have left the view were recycled.
    pub open spec fn recycled(self) -> SpecWorld {
        SpecWorld { pipes: recycled(self.pipes, self.left_border), ..self }
    }
}

/// Moves every pipe that lies left of the world's left border to the right end of
/// the pool, one gap beyond the pipe that was farthest until then.
pub fn reuse_pipes(world: &mut World)
    requires
        old(world).pipes.len() > 0,
        old(world)@.recycled().fits(),
    ensures
        final(world)@ == old(world)@.recycled(),
        final(world).pipes.len() == old(world).pipes.len(),
        evenly_spaced(old(world)@.pipes) ==> evenly_spaced(final(world)@.pipes),
        staying_pipes_differ(old(world)@.pipes, old(world).left_border as int) ==> all_differ(
            final(world)@.pipes,
        ),
{
    proof {
        if evenly_spaced(world@.pipes) {
            law_recycling_keeps_spacing(world@.pipes, world.left_border as int);
        }
        if staying_pipes_differ(world@.pipes, world.left_border as int) {
            law_recycling_keeps_pipes_different(world@.pipes, world.left_border as int);
        }
    }
    let ghost before = old(world)@;
    let count: usize = world.pipes.len();
    let mut farther: Vec3 = world.pipes[0].position;
    let mut i: usize = 1;
    assert(before.pipes.take(1).len() == 1);
    while i < count
        invariant
            1 <= i <= count,
            count == world.pipes.len(),
            world@ == before,
            farther@ == farthest_position(before.pipes.take(i as int)),
        decreases count - i,
    {
        let position: Vec3 = world.pipes[i].position;
        assert(before.pipes.take(i + 1).drop_last() =~= before.pipes.take(i as int));
        assert(before.pipes.take(i + 1).last() == before.pipes[i as int]);
        if position.x >= farther.x {
            farther = position;
        }
        i += 1;
    }
    assert(before.pipes.take(count as int) =~= before.pipes);
    let ghost far = farther@;
    let left: i64 = world.left_border;
    i = 0;
    while i < count
        invariant
            i <= count,
            count == world.pipes.len(),
            before.pipes.len() == count,
            before.recycled().fits(),
            far == farthest_position(before.pipes),
            left == before.left_border,
            world.left_border == before.left_border,
            world.rotation == before.rotation,
            world.player@ == before.player,
            farther@ == (SpecVec3 {
                x: far.x + gone_before(before.pipes, left as int, i as int) * PIPE_GAP,
                ..far
            }),
            forall|j: int|
                0 <= j < i ==> (#[trigger] world.pipes[j])@ == recycled(
                    before.pipes,
                    left as int,
                )[j],
            forall|j: int| i <= j < count ==> (#[trigger] world.pipes[j])@ == before.pipes[j],
        decreases count - i,
    {
        let mut pipe: Movable = world.pipes[i];
        if pipe.position.x < left {
            assert(before.recycled().pipes[i as int].fits());
            farther.x = farther.x + PIPE_GAP;
            pipe.position = farther;
            world.pipes.set(i, pipe);
        }
        i += 1;
    }
    assert(world@.pipes =~= before.recycled().pipes);
}

/// The farthest position is that of a pipe of the pool, and no pipe lies right of it.
pub proof fn lemma_farthest_is_reached(pipes: Seq<SpecMovable>) -> (k: int)
    requires
        pipes.len() > 0,
    ensures
        0 <= k < pipes.len(),
        pipes[k].position == farthest_position(pipes),
        forall|i: int|
            0 <= i < pipes.len() ==> (#[trigger] pipes[i]).position.x <= farthest_position(
                pipes,
            ).x,
    decreases pipes.len(),
{
    if pipes.len() == 1 {
        0
    } else {
        let rest = pipes.drop_last();
        let k = lemma_farthest_is_reached(rest);
        assert forall|i: int| 0 <= i < pipes.len() implies (#[trigger] pipes[i]).position.x
            <= farthest_position(pipes).x by {
            if i < rest.len() {
                assert(rest[i] == pipes[i]);
            }
        }
        if pipes.last().position.x >= farthest_position(rest).x {
            pipes.len() - 1
        } else {
            assert(rest[k] == pipes[k]);
            k
        }
    }
}

/// The greatest `x` of the pool is the `x` of the farthest position.
pub proof fn lemma_farthest_x(pipes: Seq<SpecMovable>, greatest: int)
    requires
        forall|i: int| 0 <= i < pipes.len() ==> (#[trigger] pipes[i]).position.x <= greatest,
        exists|i: int| 0 <= i < pipes.len() && (#[trigger] pipes[i]).position.x == greatest,
    ensures
        farthest_position(pipes).x == greatest,
{
    let k = lemma_farthest_is_reached(pipes);
    assert(pipes[k].position.x <= greatest);
}

/// Counting the pipes that are gone never counts down, counts a pipe at most once,
/// and counts each pipe that is gone.
pub proof fn lemma_gone_before_grows(pipes: Seq<SpecMovable>, left: int, a: int, b: int)
    requires
        0 <= a <= b,
    ensures
        0 <= gone_before(pipes, left, a) <= gone_before(pipes, left, b),
        gone_before(pipes, left, a) <= a,
        gone_before(pipes, left, b) - gone_before(pipes, left, a) <= b - a,
        a < b && (#[trigger] pipes[a]).position.x < left ==> gone_before(pipes, left, a)
            < gone_before(pipes, left, b),
    decreases a + b,
{
    if a < b {
        lemma_gone_before_grows(pipes, left, a, b - 1);
    } else if a > 0 {
        lemma_gone_before_grows(pipes, left, a - 1, a - 1);
    }
}

/// Every count below the number of pipes that are gone is the count before one of them.
pub proof fn lemma_gone_before_reaches(pipes: Seq<SpecMovable>, left: int, n: int, r: int) -> (i:
    int)
    requires
        0 <= r < gone_before(pipes, left, n),
    ensures
        0 <= i < n,
        pipes[i].position.x < left,
        gone_before(pipes, left, i) == r,
    decreases n,
{
    if r < gone_before(pipes, left, n - 1) {
        lemma_gone_before_reaches(pipes, left, n - 1, r)
    } else {
        n - 1
    }
}

/// Pipes that leave the view in the same pass never share a place. The first of
/// them is put one gap beyond the farthest pipe, and each further one a gap beyond
/// the one put before it.
pub proof fn law_recycled_pipes_stack(pipes: Seq<SpecMovable>, left: int, i: int, j: int)
    requires
        0 <= i < j < pipes.len(),
        pipes[i].position.x < left,
        pipes[j].position.x < left,
    ensures
        recycled(pipes, left)[i].position.x >= farthest_position(pipes).x + PIPE_GAP,
        recycled(pipes, left)[j].position.x >= recycled(pipes, left)[i].position.x + PIPE_GAP,
        (forall|k: int| 0 <= k < i ==> (#[trigger] pipes[k]).position.x >= left) ==> recycled(
            pipes,
            left,
        )[i].position.x == farthest_position(pipes).x + PIPE_GAP,
        (forall|k: int| i < k < j ==> (#[trigger] pipes[k]).position.x >= left) ==> recycled(
            pipes,
            left,
        )[j].position.x == recycled(pipes, left)[i].position.x + PIPE_GAP,
{
    lemma_gone_before_grows(pipes, left, 0, i);
    lemma_gone_before_grows(pipes, left, i, j);
    if forall|k: int| 0 <= k < i ==> (#[trigger] pipes[k]).position.x >= left {
        lemma_none_gone(pipes, left, 0, i);
    }
    if forall|k: int| i < k < j ==> (#[trigger] pipes[k]).position.x >= left {
        lemma_none_gone(pipes, left, i + 1, j);
    }
}

/// Where exactly two pipes have left the view, the one that comes first in the pool
/// is put one gap beyond the farthest pipe and the other two gaps beyond it: never
/// both at the same place.
pub proof fn law_two_recycled_pipes(pipes: Seq<SpecMovable>, left: int, first: int, second: int)
    requires
        0 <= first < second < pipes.len(),
        forall|k: int|
            0 <= k < pipes.len() ==> ((#[trigger] pipes[k]).position.x < left <==> k == first || k
                == second),
    ensures
        recycled(pipes, left)[first].position.x == farthest_position(pipes).x + PIPE_GAP,
        recycled(pipes, left)[second].position.x == farthest_position(pipes).x + 2 * PIPE_GAP,
        forall|k: int|
            0 <= k < pipes.len() && k != first && k != second ==> (#[trigger] recycled(
                pipes,
                left,
            )[k]) == pipes[k],
{
    law_recycled_pipes_stack(pipes, left, first, second);
}

/// Whether no two pipes that lie at or right of `left` share an `x`.
pub open spec fn staying_pipes_differ(pipes: Seq<SpecMovable>, left: int) -> bool {
    forall|i: int, j: int|
        #![trigger pipes[i], pipes[j]]
        0 <= i < pipes.len() && 0 <= j < pipes.len() && i != j && pipes[i].position.x >= left
            && pipes[j].position.x >= left ==> pipes[i].position.x != pipes[j].position.x
}

/// Whether no two pipes of the pool share an `x`.
pub open spec fn all_differ(pipes: Seq<SpecMovable>) -> bool {
    forall|i: int, j: int|
        #![trigger pipes[i], pipes[j]]
        0 <= i < pipes.len() && 0 <= j < pipes.len() && i != j ==> pipes[i].position.x
            != pipes[j].position.x
}

/// Recycling never puts two pipes at the same place: where the pipes that stay lie
/// at different places, all pipes do afterwards, however many were recycled.
pub proof fn law_recycling_keeps_pipes_different(pipes: Seq<SpecMovable>, left: int)
    requires
        pipes.len() > 0,
        staying_pipes_differ(pipes, left),
    ensures
        all_differ(recycled(pipes, left)),
{
    let after = recycled(pipes, left);
    let k = lemma_farthest_is_reached(pipes);
    assert forall|i: int, j: int|
        #![trigger after[i], after[j]]
        0 <= i < after.len() && 0 <= j < after.len() && i != j implies after[i].position.x
        != after[j].position.x by {
        assert(pipes[i].position.x <= farthest_position(pipes).x);
        assert(pipes[j].position.x <= farthest_position(pipes).x);
        lemma_gone_before_grows(pipes, left, 0, i);
        lemma_gone_before_grows(pipes, left, 0, j);
        if i < j {
            lemma_gone_before_grows(pipes, left, i, j);
        } else {
            lemma_gone_before_grows(pipes, left, j, i);
        }
    }
}

/// Where no pipe from `a` up to `b` is gone, the count does not move between them.
pub proof fn lemma_none_gone(pipes: Seq<SpecMovable>, left: int, a: int, b: int)
    requires
        0 <= a <= b,
        forall|k: int| a <= k < b ==> (#[trigger] pipes[k]).position.x >= left,
    ensures
        gone_before(pipes, left, b) == gone_before(pipes, left, a),
    decreases b - a,
{
    if a < b {
        lemma_none_gone(pipes, left, a, b - 1);
    }
}

/// Whether two pipes lie at least a gap from each other along `x`.
pub open spec fn apart(a: SpecMovable, b: SpecMovable) -> bool {
    a.position.x + PIPE_GAP <= b.position.x || b.position.x + PIPE_GAP <= a.position.x
}

/// Whether some pipe of the pool lies at `x`.
pub open spec fn has_pipe_at(pipes: Seq<SpecMovable>, x: int) -> bool {
    exists|j: int| 0 <= j < pipes.len() && (#[trigger] pipes[j]).position.x == x
}

/// Whether the pipes, taken from left to right, are exactly one gap apart: no two
/// are closer than a gap, and every pipe but the farthest has one a gap to its right.
pub open spec fn evenly_spaced(pipes: Seq<SpecMovable>) -> bool {
    &&& forall|i: int, j: int|
        0 <= i < pipes.len() && 0 <= j < pipes.len() && i != j ==> #[trigger] apart(
            pipes[i],
            pipes[j],
        )
    &&& forall|i: int|
        0 <= i < pipes.len() ==> (#[trigger] pipes[i]).position.x == farthest_position(pipes).x
            || has_pipe_at(pipes, pipes[i].position.x + PIPE_GAP)
}

/// The place `gaps` gaps to the right of `x`.
pub open spec fn gaps_right_of(x: int, gaps: int) -> int {
    x + gaps * PIPE_GAP
}

/// An evenly spaced pool is a ladder: every pipe lies a whole number of gaps left
/// of the farthest, and a pipe lies on every rung between the two. With no two
/// pipes closer than a gap, neighbours are then exactly one gap apart.
pub proof fn law_even_spacing_is_a_ladder(pipes: Seq<SpecMovable>, i: int) -> (rungs: int)
    requires
        evenly_spaced(pipes),
        0 <= i < pipes.len(),
    ensures
        rungs >= 0,
        gaps_right_of(pipes[i].position.x, rungs) == farthest_position(pipes).x,
        forall|gaps: int|
            0 <= gaps <= rungs ==> has_pipe_at(
                pipes,
                #[trigger] gaps_right_of(pipes[i].position.x, gaps),
            ),
    decreases farthest_position(pipes).x - pipes[i].position.x,
{
    let k = lemma_farthest_is_reached(pipes);
    let here = pipes[i].position.x;
    if here == farthest_position(pipes).x {
        assert(gaps_right_of(here, 0) == here);
        0
    } else {
        assert(has_pipe_at(pipes, here + PIPE_GAP));
        let next = choose|j: int|
            0 <= j < pipes.len() && (#[trigger] pipes[j]).position.x == here + PIPE_GAP;
        let above = law_even_spacing_is_a_ladder(pipes, next);
        assert forall|gaps: int| 0 <= gaps <= above + 1 implies has_pipe_at(
            pipes,
            #[trigger] gaps_right_of(here, gaps),
        ) by {
            if gaps == 0 {
                assert(gaps_right_of(here, 0) == here);
            } else {
                assert(gaps_right_of(here, gaps) == gaps_right_of(here + PIPE_GAP, gaps - 1));
            }
        }
        above + 1
    }
}

/// Whether all pipes of the pool have the same velocity and the same acceleration.
pub open spec fn move_alike(pipes: Seq<SpecMovable>) -> bool {
    forall|i: int|
        0 <= i < pipes.len() ==> (#[trigger] pipes[i]).velocity == pipes[0].velocity
            && pipes[i].acceleration == pipes[0].acceleration
}

/// Where a recycled pipe is put: at least one gap, and at most as many gaps as
/// pipes are gone, beyond the farthest; a pipe that is not gone stays.
proof fn lemma_recycled_place(pipes: Seq<SpecMovable>, left: int, i: int)
    requires
        0 <= i < pipes.len(),
    ensures
        recycled(pipes, left).len() == pipes.len(),
        recycled(pipes, left)[i].velocity == pipes[i].velocity,
        recycled(pipes, left)[i].acceleration == pipes[i].acceleration,
        pipes[i].position.x >= left ==> recycled(pipes, left)[i] == pipes[i],
        pipes[i].position.x < left ==> {
            &&& recycled(pipes, left)[i].position.x == farthest_position(pipes).x + (gone_before(
                pipes,
                left,
                i,
            ) + 1) * PIPE_GAP
            &&& 0 <= gone_before(pipes, left, i) < gone_before(pipes, left, pipes.len() as int)
        },
{
    lemma_gone_before_grows(pipes, left, 0, i);
    lemma_gone_before_grows(pipes, left, i, pipes.len() as int);
}

/// After recycling, the farthest pipe lies as many gaps beyond the one that was
/// farthest as pipes were gone.
proof fn lemma_recycled_farthest(pipes: Seq<SpecMovable>, left: int)
    requires
        pipes.len() > 0,
    ensures
        farthest_position(recycled(pipes, left)).x == farthest_position(pipes).x + gone_before(
            pipes,
            left,
            pipes.len() as int,
        ) * PIPE_GAP,
{
    let after = recycled(pipes, left);
    let count = pipes.len() as int;
    let total = gone_before(pipes, left, count);
    let greatest = farthest_position(pipes).x + total * PIPE_GAP;
    let k = lemma_farthest_is_reached(pipes);
    lemma_gone_before_grows(pipes, left, 0, count);
    assert forall|i: int| 0 <= i < count implies (#[trigger] after[i]).position.x <= greatest by {
        lemma_recycled_place(pipes, left, i);
        assert(pipes[i].position.x <= farthest_position(pipes).x);
    }
    if total == 0 {
        lemma_recycled_place(pipes, left, k);
        assert(after[k].position.x == greatest);
    } else {
        let last = lemma_gone_before_reaches(pipes, left, count, total - 1);
        lemma_recycled_place(pipes, left, last);
        assert(after[last].position.x == greatest);
    }
    lemma_farthest_x(after, greatest);
}

/// Recycling keeps a pool that is evenly spaced evenly spaced, however many of its
/// pipes have left the view, and changes no velocity or acceleration.
pub proof fn law_recycling_keeps_spacing(pipes: Seq<SpecMovable>, left: int)
    requires
        pipes.len() > 0,
        evenly_spaced(pipes),
    ensures
        evenly_spaced(recycled(pipes, left)),
        move_alike(pipes) ==> move_alike(recycled(pipes, left)),
        recycled(pipes, left).len() == pipes.len(),
{
    let after = recycled(pipes, left);
    let far = farthest_position(pipes);
    let count = pipes.len() as int;
    let total = gone_before(pipes, left, count);
    let k = lemma_farthest_is_reached(pipes);
    lemma_recycled_farthest(pipes, left);
    lemma_gone_before_grows(pipes, left, 0, count);
    assert forall|i: int, j: int| 0 <= i < count && 0 <= j < count && i != j implies #[trigger] apart(
        after[i],
        after[j],
    ) by {
        assert(apart(pipes[i], pipes[j]));
        lemma_recycled_place(pipes, left, i);
        lemma_recycled_place(pipes, left, j);
        assert(pipes[i].position.x <= far.x);
        assert(pipes[j].position.x <= far.x);
        if i < j {
            lemma_gone_before_grows(pipes, left, i, j);
        } else {
            lemma_gone_before_grows(pipes, left, j, i);
        }
    }
    assert forall|i: int| 0 <= i < count implies (#[trigger] after[i]).position.x
        == farthest_position(after).x || has_pipe_at(after, after[i].position.x + PIPE_GAP) by {
        lemma_recycled_place(pipes, left, i);
        if pipes[i].position.x < left {
            let rank = gone_before(pipes, left, i);
            if rank + 1 < total {
                let next = lemma_gone_before_reaches(pipes, left, count, rank + 1);
                lemma_recycled_place(pipes, left, next);
                assert(after[next].position.x == after[i].position.x + PIPE_GAP);
            }
        } else if pipes[i].position.x == far.x {
            if total > 0 {
                let first = lemma_gone_before_reaches(pipes, left, count, 0);
                lemma_recycled_place(pipes, left, first);
                assert(after[first].position.x == after[i].position.x + PIPE_GAP);
            }
        } else {
            assert(has_pipe_at(pipes, pipes[i].position.x + PIPE_GAP));
            let next = choose|j: int|
                0 <= j < pipes.len() && (#[trigger] pipes[j]).position.x == pipes[i].position.x
                    + PIPE_GAP;
            lemma_recycled_place(pipes, left, next);
            assert(after[next].position.x == after[i].position.x + PIPE_GAP);
        }
    }
    if move_alike(pipes) {
        assert forall|i: int| 0 <= i < count implies (#[trigger] after[i]).velocity
            == after[0].velocity && after[i].acceleration == after[0].acceleration by {
            lemma_recycled_place(pipes, left, i);
            lemma_recycled_place(pipes, left, 0);
            assert(pipes[i].velocity == pipes[0].velocity);
        }
    }
}

/// Moving every pipe by the same distance along `x` keeps the pool evenly spaced.
pub proof fn lemma_shift_keeps_spacing(
    pipes: Seq<SpecMovable>,
    shifted: Seq<SpecMovable>,
    shift: int,
)
    requires
        pipes.len() > 0,
        evenly_spaced(pipes),
        shifted.len() == pipes.len(),
        forall|i: int|
            0 <= i < pipes.len() ==> (#[trigger] shifted[i]).position.x == pipes[i].position.x
                + shift,
    ensures
        evenly_spaced(shifted),
{
    let k = lemma_farthest_is_reached(pipes);
    let far = farthest_position(pipes);
    assert(shifted[k].position.x == far.x + shift);
    assert forall|i: int| 0 <= i < shifted.len() implies (#[trigger] shifted[i]).position.x
        <= far.x + shift by {
        assert(pipes[i].position.x <= far.x);
    }
    lemma_farthest_x(shifted, far.x + shift);
    assert forall|i: int, j: int|
        0 <= i < pipes.len() && 0 <= j < pipes.len() && i != j implies #[trigger] apart(
        shifted[i],
        shifted[j],
    ) by {
        assert(apart(pipes[i], pipes[j]));
    }
    assert forall|i: int| 0 <= i < pipes.len() implies (#[trigger] shifted[i]).position.x
        == farthest_position(shifted).x || has_pipe_at(
        shifted,
        shifted[i].position.x + PIPE_GAP,
    ) by {
        if pipes[i].position.x != far.x {
            assert(has_pipe_at(pipes, pipes[i].position.x + PIPE_GAP));
            let next = choose|j: int|
                0 <= j < pipes.len() && (#[trigger] pipes[j]).position.x == pipes[i].position.x
                    + PIPE_GAP;
            assert(shifted[next].position.x == shifted[i].position.x + PIPE_GAP);
        }
    }
}

/// Both phases of the integration keep a pool evenly spaced whose pipes move alike,
/// and its pipes go on moving alike.
pub proof fn law_motion_keeps_spacing(pipes: Seq<SpecMovable>, dt: int)
    requires
        pipes.len() > 0,
        evenly_spaced(pipes),
        move_alike(pipes),
    ensures
        evenly_spaced(pipes.map_values(|m: SpecMovable| m.accelerated(dt))),
        move_alike(pipes.map_values(|m: SpecMovable| m.accelerated(dt))),
        evenly_spaced(pipes.map_values(|m: SpecMovable| m.moved(dt))),
        move_alike(pipes.map_values(|m: SpecMovable| m.moved(dt))),
{
    let faster = pipes.map_values(|m: SpecMovable| m.accelerated(dt));
    let further = pipes.map_values(|m: SpecMovable| m.moved(dt));
    let shift = further[0].position.x - pipes[0].position.x;
    assert forall|i: int| 0 <= i < pipes.len() implies (#[trigger] further[i]).position.x
        == pipes[i].position.x + shift by {
        assert(pipes[i].velocity == pipes[0].velocity);
    }
    lemma_shift_keeps_spacing(pipes, faster, 0);
    lemma_shift_keeps_spacing(pipes, further, shift);
    assert forall|i: int| 0 <= i < pipes.len() implies (#[trigger] faster[i]).velocity
        == faster[0].velocity && faster[i].acceleration == faster[0].acceleration by {
        assert(pipes[i].velocity == pipes[0].velocity && pipes[i].acceleration
            == pipes[0].acceleration);
    }
    assert forall|i: int| 0 <= i < pipes.len() implies (#[trigger] further[i]).velocity
        == further[0].velocity && further[i].acceleration == further[0].acceleration by {
        assert(pipes[i].velocity == pipes[0].velocity && pipes[i].acceleration
            == pipes[0].acceleration);
    }
}

/// A pool that can be stored can still be stored after recycling exactly if the
/// place of the last pipe that is put back can be.
pub proof fn lemma_recycled_fits(pipes: Seq<SpecMovable>, left: int)
    requires
        pipes.len() > 0,
        forall|i: int| 0 <= i < pipes.len() ==> (#[trigger] pipes[i]).fits(),
    ensures
        (forall|i: int| 0 <= i < pipes.len() ==> (#[trigger] recycled(pipes, left)[i]).fits())
            <==> (gone_before(pipes, left, pipes.len() as int) == 0 || fits(
            farthest_position(pipes).x + gone_before(pipes, left, pipes.len() as int) * PIPE_GAP,
        )),
{
    let after = recycled(pipes, left);
    let far = farthest_position(pipes);
    let count = pipes.len() as int;
    let total = gone_before(pipes, left, count);
    let k = lemma_farthest_is_reached(pipes);
    assert(pipes[k].fits());
    lemma_gone_before_grows(pipes, left, 0, count);
    if total == 0 || fits(far.x + total * PIPE_GAP) {
        assert forall|i: int| 0 <= i < count implies (#[trigger] after[i]).fits() by {
            lemma_gone_before_grows(pipes, left, 0, i);
            lemma_gone_before_grows(pipes, left, i, count);
            assert(pipes[i].fits());
        }
    }
    if total > 0 && !fits(far.x + total * PIPE_GAP) {
        let last = lemma_gone_before_reaches(pipes, left, count, total - 1);
        assert(!after[last].fits());
    }
}

} // verus!
