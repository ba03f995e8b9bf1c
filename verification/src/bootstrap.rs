//! The world as a run begins: the player at rest at the origin, and the pipes laid
//! out to the right of the view.

use rand::Rng;
use vstd::prelude::*;
use crate::fixed::UNIT;
use crate::movable::{Movable, SpecMovable};
use crate::pipes::{
    apart, evenly_spaced, farthest_position, has_pipe_at, lemma_farthest_x, move_alike, BORDER_MARGIN,
    PIPE_COUNT, PIPE_GAP, PIPE_HEIGHT_SPREAD, PIPE_MAX_SPEED, PIPE_START_SPEED,
    PIPE_TIME_TO_MAX,
};
use crate::vec3::{SpecVec3, Vec3};
use crate::world::{SpecWorld, World, GRAVITY};

verus! {

/// Where pipes enter: half the window to the right of the origin, and a margin.
pub open spec fn right_border(window_width: int) -> int {
    window_width * UNIT / 2 + BORDER_MARGIN
}

/// Where pipes leave: half the window to the left of the origin, and a margin.
pub open spec fn left_border(window_width: int) -> int {
    -(window_width * UNIT / 2) - BORDER_MARGIN
}

/// The player as a run begins: at rest at the origin, under gravity.
pub open spec fn initial_player() -> SpecMovable {
    SpecMovable {
        position: SpecVec3 { x: 0, y: 0, z: 0 },
        velocity: SpecVec3 { x: 0, y: 0, z: 0 },
        acceleration: SpecVec3 { x: 0, y: GRAVITY as int, z: 0 },
    }
}

/// The pipe with the given index as a run begins: that many gaps right of `right`,
/// at the given height, moving left at the start speed and gaining speed at the
/// rate that takes it to the maximal speed in the time set for that.
pub open spec fn initial_pipe(right: int, index: int, height: int) -> SpecMovable {
    SpecMovable {
        position: SpecVec3 { x: right + index * PIPE_GAP, y: height, z: 0 },
        velocity: SpecVec3 { x: -PIPE_START_SPEED, y: 0, z: 0 },
        acceleration: SpecVec3 {
            x: -((PIPE_MAX_SPEED - PIPE_START_SPEED) / (PIPE_TIME_TO_MAX as int)),
            y: 0,
            z: 0,
        },
    }
}

/// The world as a run begins in a window of the given width, with one pipe for each
/// of the given heights.
pub open spec fn initial_world(window_width: int, heights: Seq<int>) -> SpecWorld {
    SpecWorld {
        player: initial_player(),
        rotation: 0,
        pipes: Seq::new(
            heights.len(),
            |i: int| initial_pipe(right_border(window_width), i, heights[i]),
        ),
        left_border: left_border(window_width),
    }
}

/// The heights of the pipes of a pool, in order.
pub open spec fn heights_of(pipes: Seq<SpecMovable>) -> Seq<int> {
    pipes.map_values(|m: SpecMovable| m.position.y)
}

impl World {
    /// The world as a run begins in a window `window_width` world units wide, with
    /// one pipe for each of the given heights.
    pub fn new(window_width: u32, heights: &Vec<i64>) -> (world: World)
        requires
            right_border(window_width as int) + heights.len() * PIPE_GAP <= i64::MAX,
        ensures
            world@ == initial_world(window_width as int, heights@.map_values(|h: i64| h as int)),
    {
        let half: i64 = (window_width as i64) * (UNIT / 2);
        let right: i64 = half + BORDER_MARGIN;
        let velocity = Vec3 { x: -PIPE_START_SPEED, y: 0, z: 0 };
        let acceleration = Vec3 {
            x: -((PIPE_MAX_SPEED - PIPE_START_SPEED) / PIPE_TIME_TO_MAX),
            y: 0,
            z: 0,
        };
        let mut pipes: Vec<Movable> = Vec::new();
        let mut x: i64 = right;
        let mut i: usize = 0;
        while i < heights.len()
            invariant
                i <= heights.len(),
                pipes.len() == i,
                right == right_border(window_width as int),
                x == right + i * PIPE_GAP,
                right + heights.len() * PIPE_GAP <= i64::MAX,
                velocity@ == initial_pipe(0, 0, 0).velocity,
                acceleration@ == initial_pipe(0, 0, 0).acceleration,
                forall|j: int|
                    0 <= j < i ==> (#[trigger] pipes[j])@ == initial_pipe(
                        right as int,
                        j,
                        heights[j] as int,
                    ),
            decreases heights.len() - i,
        {
            pipes.push(
                Movable { position: Vec3 { x, y: heights[i], z: 0 }, velocity, acceleration },
            );
            x = x + PIPE_GAP;
            i += 1;
        }
        let world = World {
            player: Movable {
                position: Vec3 { x: 0, y: 0, z: 0 },
                velocity: Vec3 { x: 0, y: 0, z: 0 },
                acceleration: Vec3 { x: 0, y: GRAVITY, z: 0 },
            },
            rotation: 0,
            pipes,
            left_border: -half - BORDER_MARGIN,
        };
        assert(world@.pipes =~= initial_world(
            window_width as int,
            heights@.map_values(|h: i64| h as int),
        ).pipes);
        world
    }
}

/// As a run begins the pipes are evenly spaced and move alike.
pub proof fn law_initial_spacing(window_width: int, heights: Seq<int>)
    ensures
        evenly_spaced(initial_world(window_width, heights).pipes),
        move_alike(initial_world(window_width, heights).pipes),
{
    let pipes = initial_world(window_width, heights).pipes;
    let right = right_border(window_width);
    if pipes.len() > 0 {
        let last = pipes.len() - 1;
        assert(pipes[last].position.x == right + last * PIPE_GAP);
        lemma_farthest_x(pipes, right + last * PIPE_GAP);
        assert forall|i: int, j: int|
            0 <= i < pipes.len() && 0 <= j < pipes.len() && i != j implies #[trigger] apart(
            pipes[i],
            pipes[j],
        ) by {}
        assert forall|i: int| 0 <= i < pipes.len() implies (#[trigger] pipes[i]).position.x
            == farthest_position(pipes).x || has_pipe_at(pipes, pipes[i].position.x + PIPE_GAP) by {
            if i < last {
                assert(pipes[i + 1].position.x == pipes[i].position.x + PIPE_GAP);
            }
        }
    }
}

/// A number drawn at random by `rand::Rng::gen_range`, on the generator that
/// `rand::thread_rng` hands to this thread, from the half-open range from `low` to
/// `high`. Trusted: the number lies in that range. Which number comes is left open,
/// and two draws may differ.
#[verifier::external_body]
fn random_between(low: i64, high: i64) -> (drawn: i64)
    requires
        low < high,
    ensures
        low <= drawn < high,
{
    rand::thread_rng().gen_range(low..high)
}

/// Sets up a run in a window `window_width` world units wide: the player at rest at
/// the origin, and `PIPE_COUNT` pipes one gap apart from the right border on, each at
/// a height drawn at random from zero up to `PIPE_HEIGHT_SPREAD`.
pub fn startup(window_width: u32) -> (world: World)
    ensures
        world.pipes.len() == PIPE_COUNT,
        forall|i: int|
            0 <= i < PIPE_COUNT ==> 0 <= (#[trigger] world.pipes[i]).position.y
                < PIPE_HEIGHT_SPREAD,
        world@ == initial_world(window_width as int, heights_of(world@.pipes)),
        evenly_spaced(world@.pipes),
        move_alike(world@.pipes),
{
    let mut heights: Vec<i64> = Vec::new();
    let mut i: usize = 0;
    while i < PIPE_COUNT
        invariant
            i <= PIPE_COUNT,
            heights.len() == i,
            forall|j: int| 0 <= j < i ==> 0 <= #[trigger] heights[j] < PIPE_HEIGHT_SPREAD,
        decreases PIPE_COUNT - i,
    {
        let height: i64 = random_between(0, PIPE_HEIGHT_SPREAD);
        heights.push(height);
        i += 1;
    }
    let world = World::new(window_width, &heights);
    assert(heights_of(world@.pipes) =~= heights@.map_values(|h: i64| h as int));
    proof {
        law_initial_spacing(window_width as int, heights_of(world@.pipes));
    }
    assert forall|i: int| 0 <= i < PIPE_COUNT implies 0 <= (#[trigger] world.pipes[i]).position.y
        < PIPE_HEIGHT_SPREAD by {
        assert(world@.pipes[i] == world.pipes[i]@);
        assert(world.pipes[i]@.position.y == heights[i]);
    }
    world
}

} // verus!
