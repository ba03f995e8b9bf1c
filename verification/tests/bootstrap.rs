use flappy::bootstrap::startup;
use flappy::fixed::UNIT;
use flappy::movable::Movable;
use flappy::pipes::{
    BORDER_MARGIN, PIPE_COUNT, PIPE_GAP, PIPE_HEIGHT_SPREAD, PIPE_MAX_SPEED, PIPE_START_SPEED,
    PIPE_TIME_TO_MAX,
};
use flappy::vec3::Vec3;
use flappy::world::{World, GRAVITY};

#[test]
fn new_world_lays_the_pipes_out_from_the_right_border() {
    let heights: Vec<i64> = vec![5, -6, 7];
    let world = World::new(1280, &heights);
    let right: i64 = 640 * UNIT + BORDER_MARGIN;
    assert_eq!(right, 740 * UNIT);
    assert_eq!(world.left_border, -740 * UNIT);
    assert_eq!(world.rotation, 0);
    assert_eq!(
        world.player,
        Movable::new(Vec3::zero(), Vec3::zero(), Vec3::new(0, GRAVITY, 0))
    );
    assert_eq!(world.pipes.len(), 3);
    let velocity = Vec3::new(-PIPE_START_SPEED, 0, 0);
    let acceleration = Vec3::new(-15 * UNIT, 0, 0);
    assert_eq!(world.pipes[0], Movable::new(Vec3::new(right, 5, 0), velocity, acceleration));
    assert_eq!(
        world.pipes[1],
        Movable::new(Vec3::new(right + PIPE_GAP, -6, 0), velocity, acceleration)
    );
    assert_eq!(
        world.pipes[2],
        Movable::new(Vec3::new(right + 2 * PIPE_GAP, 7, 0), velocity, acceleration)
    );
}

#[test]
fn pipes_reach_the_maximal_speed_in_the_time_set() {
    let heights: Vec<i64> = vec![0];
    let world = World::new(1280, &heights);
    let ramp: i64 = -world.pipes[0].acceleration.x;
    assert_eq!(PIPE_START_SPEED + ramp * PIPE_TIME_TO_MAX, PIPE_MAX_SPEED);
}

#[test]
fn new_world_with_an_odd_width_and_no_pipes() {
    let heights: Vec<i64> = Vec::new();
    let world = World::new(3, &heights);
    assert_eq!(world.left_border, -1_500_000 - BORDER_MARGIN);
    assert_eq!(world.pipes.len(), 0);
    let narrow = World::new(0, &heights);
    assert_eq!(narrow.left_border, -BORDER_MARGIN);
}

#[test]
fn new_world_in_the_widest_window() {
    let heights: Vec<i64> = vec![0, 0];
    let world = World::new(u32::MAX, &heights);
    let half: i64 = (u32::MAX as i64) * (UNIT / 2);
    assert_eq!(world.left_border, -half - BORDER_MARGIN);
    assert_eq!(world.pipes[1].position.x, half + BORDER_MARGIN + PIPE_GAP);
}

#[test]
fn startup_sets_the_player_at_rest_under_gravity() {
    let world = startup(1280);
    assert_eq!(
        world.player,
        Movable::new(Vec3::zero(), Vec3::zero(), Vec3::new(0, GRAVITY, 0))
    );
    assert_eq!(world.rotation, 0);
    assert_eq!(world.left_border, -740 * UNIT);
}

#[test]
fn startup_lays_out_ten_pipes_a_gap_apart() {
    let world = startup(1280);
    assert_eq!(world.pipes.len(), 10);
    assert_eq!(PIPE_COUNT, 10);
    let mut i: usize = 0;
    while i < PIPE_COUNT {
        let pipe = world.pipes[i];
        assert_eq!(pipe.position.x, 740 * UNIT + (i as i64) * PIPE_GAP);
        assert_eq!(pipe.position.z, 0);
        assert_eq!(pipe.velocity, Vec3::new(-100 * UNIT, 0, 0));
        assert_eq!(pipe.acceleration, Vec3::new(-15 * UNIT, 0, 0));
        i += 1;
    }
}

#[test]
fn startup_draws_heights_below_one_unit() {
    assert_eq!(PIPE_HEIGHT_SPREAD, UNIT);
    let mut round: u32 = 0;
    let mut seen_different = false;
    let mut first: Option<i64> = None;
    while round < 50 {
        let world = startup(1280);
        let mut i: usize = 0;
        while i < PIPE_COUNT {
            let height: i64 = world.pipes[i].position.y;
            assert!(0 <= height);
            assert!(height < PIPE_HEIGHT_SPREAD);
            match first {
                None => first = Some(height),
                Some(value) => {
                    if value != height {
                        seen_different = true;
                    }
                }
            }
            i += 1;
        }
        round += 1;
    }
    assert!(seen_different);
}
