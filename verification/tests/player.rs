use engine::camera::{do_updates, move_camera, update_camera};
use engine::player::{
    accelerate, corner_hitbox, decay, sweep, Direction, Player, JUMP_IMPULSE, SPAWN_ACCELERATION,
    SPAWN_MAX_VELOCITY, VELOCITY_UNIT,
};
use engine::world::World;

/// Noise 0 everywhere: solid at every world height of -2 and below.
fn flat(_seed: u32, _x: isize, _y: isize) -> i32 {
    0
}

/// Noise -1.0 everywhere: nothing is solid.
fn empty(_seed: u32, _x: isize, _y: isize) -> i32 {
    -1000
}

fn ground_world() -> World {
    World::generate((4, 4), 7, 3, &flat)
}

fn sky_world() -> World {
    World::generate((4, 4), 7, 3, &empty)
}

fn point() -> Vec<(isize, isize)> {
    vec![(0, 0)]
}

#[test]
fn spawn_gives_an_agent_at_rest() {
    let player = Player::spawn((3, -4), point());
    assert_eq!(player.health, 100);
    assert_eq!(player.coords, (3, -4));
    assert_eq!(player.velocity, (0, 0));
    assert_eq!(player.max_velocity, 50 * VELOCITY_UNIT);
    assert_eq!(player.acceleration_speed, 5 * VELOCITY_UNIT);
    assert_eq!(player.deceleration_unit, 20);
    assert!(!player.running);
    assert_eq!(player.hitbox, vec![(0, 0)]);
}

#[test]
fn walking_right_from_rest_adds_the_acceleration() {
    let mut player = Player::spawn((0, 0), point());
    player.walk(Direction::Right);
    assert_eq!(player.velocity, (SPAWN_ACCELERATION, 0));
    assert_eq!(player.velocity.0, 5000);
    assert_eq!(player.coords, (0, 0));
}

#[test]
fn walking_in_each_direction() {
    let mut player = Player::spawn((0, 0), point());
    player.walk(Direction::Left);
    assert_eq!(player.velocity, (-5000, 0));
    player.walk(Direction::Up);
    assert_eq!(player.velocity, (-5000, 5000));
    player.walk(Direction::Down);
    player.walk(Direction::Down);
    assert_eq!(player.velocity, (-5000, -5000));
    player.walk(Direction::Right);
    assert_eq!(player.velocity, (0, -5000));
}

#[test]
fn a_walking_agent_stops_accelerating_at_its_maximum() {
    let mut player = Player::spawn((0, 0), point());
    for _ in 0..10 {
        player.walk(Direction::Right);
    }
    assert_eq!(player.velocity.0, SPAWN_MAX_VELOCITY);
    player.walk(Direction::Right);
    assert_eq!(player.velocity.0, 50000);

    player.velocity = (49999, 0);
    player.walk(Direction::Right);
    assert_eq!(player.velocity.0, 54999);
    player.walk(Direction::Right);
    assert_eq!(player.velocity.0, 54999);
}

#[test]
fn the_maximum_holds_toward_the_negative_side() {
    let mut player = Player::spawn((0, 0), point());
    player.velocity = (-50000, -50000);
    player.walk(Direction::Left);
    player.walk(Direction::Down);
    assert_eq!(player.velocity, (-50000, -50000));
    player.velocity = (-49999, 0);
    player.walk(Direction::Left);
    assert_eq!(player.velocity.0, -54999);
    // Walking against the motion is never capped.
    player.velocity = (80000, 0);
    player.walk(Direction::Left);
    assert_eq!(player.velocity.0, 75000);
}

#[test]
fn a_running_agent_is_not_capped() {
    let mut player = Player::spawn((0, 0), point());
    player.running = true;
    for _ in 0..12 {
        player.walk(Direction::Right);
    }
    assert_eq!(player.velocity.0, 60000);
    player.velocity = (-70000, 0);
    player.walk(Direction::Left);
    assert_eq!(player.velocity.0, -75000);
}

#[test]
fn velocity_stays_in_range() {
    assert_eq!(accelerate(i64::MAX - 3, true, 5000, 50000, true), i64::MAX);
    assert_eq!(accelerate(i64::MIN + 3, false, 5000, 50000, true), i64::MIN);
    assert_eq!(accelerate(i64::MIN, false, 5000, 50000, false), i64::MIN);
    let mut player = Player::spawn((0, 0), point());
    player.velocity = (0, i64::MAX - 1);
    player.jump();
    assert_eq!(player.velocity.1, i64::MAX);
}

#[test]
fn jump_adds_the_impulse() {
    let mut player = Player::spawn((0, 0), point());
    player.jump();
    assert_eq!(player.velocity, (0, JUMP_IMPULSE));
    assert_eq!(player.velocity.1, 300000);
    player.jump();
    assert_eq!(player.velocity.1, 600000);
}

#[test]
fn decay_takes_one_part_in_the_unit() {
    assert_eq!(decay(5000, 20), 4750);
    assert_eq!(decay(-5000, 20), -4750);
    assert_eq!(decay(19, 20), 19);
    assert_eq!(decay(-19, 20), -19);
    assert_eq!(decay(20, 20), 19);
    assert_eq!(decay(0, 20), 0);
    assert_eq!(decay(1000, 1), 0);
    assert_eq!(decay(i64::MIN, 1), 0);
}

#[test]
fn sweep_through_open_sky_reaches_the_target() {
    let world = sky_world();
    assert_eq!(sweep(&world, &point(), (0, 0), (3, 5)), (3, 5));
    assert_eq!(sweep(&world, &point(), (0, 0), (-3, -5)), (-3, -5));
    assert_eq!(sweep(&world, &point(), (2, 2), (6, 2)), (6, 2));
    assert_eq!(sweep(&world, &point(), (2, 2), (2, -3)), (2, -3));
    assert_eq!(sweep(&world, &point(), (1, 1), (1, 1)), (1, 1));
}

#[test]
fn sweep_stops_above_the_ground() {
    let world = ground_world();
    // Falling from height 3: heights 2 to -1 are free, -2 and below are solid.
    assert_eq!(sweep(&world, &point(), (0, 3), (0, -12)), (0, -1));
    // Already on the ground.
    assert_eq!(sweep(&world, &point(), (0, -1), (0, -5)), (0, -1));
}

#[test]
fn sweep_moves_both_axes_together() {
    let world = ground_world();
    // Steps (1, 0), (2, -1), (3, -2), (4, -3): the last two are solid.
    assert_eq!(sweep(&world, &point(), (0, 1), (4, -3)), (2, -1));
    // The shorter axis stays at its end: steps (1, 1), (2, 1), (3, 1).
    assert_eq!(sweep(&world, &point(), (0, 0), (3, 1)), (3, 1));
}

#[test]
fn sweep_takes_a_later_free_step() {
    // Solid only at world height -5.
    let sample = |_seed: u32, _x: isize, y: isize| -> i32 {
        if y == -5 {
            1000
        } else {
            -1000
        }
    };
    let world = World::generate((4, 4), 7, 3, &sample);
    assert!(world.check_collision(vec![(0, -5)], (4, 4)));
    assert!(!world.check_collision(vec![(0, -4), (0, -6)], (4, 4)));
    assert_eq!(sweep(&world, &point(), (0, -3), (0, -6)), (0, -6));
    assert_eq!(sweep(&world, &point(), (0, -3), (0, -5)), (0, -4));
}

#[test]
fn sweep_tests_every_point_of_the_hitbox() {
    let world = ground_world();
    let feet = vec![(0, 0), (0, -3)];
    // The lower point reaches the ground at height -2 when the agent is at 1.
    assert_eq!(sweep(&world, &feet, (0, 5), (0, -5)), (0, 2));
    // Without points nothing collides.
    assert_eq!(sweep(&world, &Vec::new(), (0, 5), (0, -5)), (0, -5));
}

#[test]
fn sweep_passes_through_to_a_free_step_beyond_the_chunks() {
    // The chunks end above height -16: the last step of the path is free.
    let world = ground_world();
    assert_eq!(sweep(&world, &point(), (0, -1), (0, -16)), (0, -16));
    assert_eq!(sweep(&world, &point(), (0, -1), (0, -15)), (0, -1));
}

#[test]
fn sweep_outside_the_chunks_is_free() {
    let world = ground_world();
    assert_eq!(sweep(&world, &point(), (100, 0), (100, -30)), (100, -30));
}

#[test]
fn update_location_moves_by_a_tenth_of_the_velocity() {
    let world = sky_world();
    let mut player = Player::spawn((0, 0), point());
    player.velocity = (30000, 200000);
    player.update_location(&world, (4, 4));
    assert_eq!(player.coords, (3, 20));
    assert_eq!(player.velocity, (28500, 190000));
}

#[test]
fn a_free_path_ends_at_position_plus_scaled_velocity() {
    let world = sky_world();
    let mut player = Player::spawn((0, 0), point());
    player.velocity = (20 * VELOCITY_UNIT, -40 * VELOCITY_UNIT);
    player.update_location(&world, (4, 4));
    assert_eq!(player.coords, (2, -4));
    assert_eq!(player.velocity, (19 * VELOCITY_UNIT, -38 * VELOCITY_UNIT));
}

#[test]
fn an_agent_at_rest_does_not_move() {
    for world in [sky_world(), ground_world()].iter() {
        for start in [(0, 10), (0, -1), (0, -5), (100, 100)].iter() {
            let mut player = Player::spawn(*start, point());
            player.update_location(world, (4, 4));
            assert_eq!(player.coords, *start);
            assert_eq!(player.velocity, (0, 0));
        }
    }
}

#[test]
fn update_location_rounds_the_step_toward_zero() {
    let world = sky_world();
    let mut player = Player::spawn((0, 0), point());
    player.velocity = (9999, -9999);
    player.update_location(&world, (4, 4));
    assert_eq!(player.coords, (0, 0));
    assert_eq!(player.velocity, (9500, -9500));
    player.velocity = (-19999, 10000);
    player.update_location(&world, (4, 4));
    assert_eq!(player.coords, (-1, 1));
}

#[test]
fn a_falling_agent_lands_on_the_ground() {
    // Deep enough that the next tick's target, 14 below the ground, is solid.
    let world = World::generate((4, 4), 7, 5, &flat);
    let mut player = Player::spawn((0, 10), point());
    player.velocity = (0, -150000);
    player.update_location(&world, (4, 4));
    assert_eq!(player.coords, (0, -1));
    assert_eq!(player.velocity, (0, -142500));
    player.update_location(&world, (4, 4));
    assert_eq!(player.coords, (0, -1));
}

#[test]
fn update_location_keeps_the_other_fields() {
    let world = ground_world();
    let mut player = Player::spawn((0, 10), vec![(0, 0), (1, 0)]);
    player.velocity = (0, -150000);
    player.running = true;
    player.health = 42;
    player.update_location(&world, (4, 4));
    assert_eq!(player.health, 42);
    assert!(player.running);
    assert_eq!(player.max_velocity, 50000);
    assert_eq!(player.acceleration_speed, 5000);
    assert_eq!(player.deceleration_unit, 20);
    assert_eq!(player.hitbox, vec![(0, 0), (1, 0)]);
}

#[test]
fn the_target_is_limited_to_the_range_of_a_coordinate() {
    let world = sky_world();
    let mut player = Player::spawn((isize::MAX - 2, isize::MIN + 2), point());
    player.velocity = (50000, -50000);
    player.update_location(&world, (4, 4));
    assert_eq!(player.coords, (isize::MAX, isize::MIN));
}

#[test]
fn the_camera_creeps_inside_the_dead_zone() {
    assert_eq!(move_camera(0, 10), 1);
    assert_eq!(move_camera(0, -3), -1);
    assert_eq!(move_camera(5, 29), 6);
    assert_eq!(move_camera(5, -19), 4);
    assert_eq!(move_camera(7, 7), 7);
}

#[test]
fn the_camera_covers_a_part_of_a_longer_distance() {
    assert_eq!(move_camera(0, 25), 1);
    assert_eq!(move_camera(0, 100), 4);
    assert_eq!(move_camera(0, 49), 1);
    assert_eq!(move_camera(0, 50), 2);
    assert_eq!(move_camera(0, -60), -2);
    assert_eq!(move_camera(-10, -35), -11);
    assert_eq!(move_camera(isize::MIN, isize::MAX), isize::MIN + (usize::MAX / 25) as isize);
}

#[test]
fn update_camera_moves_each_axis_by_itself() {
    let player = Player::spawn((100, -3), point());
    let mut camera = (0, 0);
    update_camera(&mut camera, &player);
    assert_eq!(camera, (4, -1));
}

#[test]
fn the_camera_reaches_the_agent() {
    let player = Player::spawn((300, -170), point());
    let mut camera = (0, 0);
    for _ in 0..400 {
        update_camera(&mut camera, &player);
    }
    assert_eq!(camera, (300, -170));
}

#[test]
fn do_updates_moves_the_agent_then_the_camera() {
    let world = ground_world();
    let mut player = Player::spawn((0, 10), point());
    player.velocity = (0, -150000);
    let mut camera = (0, 10);
    do_updates(&mut camera, &mut player, &world, (4, 4));
    assert_eq!(player.coords, (0, -1));
    assert_eq!(camera, (0, 9));
}

#[test]
fn corner_hitbox_names_the_four_corners() {
    assert_eq!(corner_hitbox(4, 3), vec![(0, 0), (3, 0), (0, -2), (3, -2)]);
    assert_eq!(corner_hitbox(1, 1), vec![(0, 0), (0, 0), (0, 0), (0, 0)]);
    assert_eq!(corner_hitbox(0, 0), vec![(0, 0), (0, 0), (0, 0), (0, 0)]);
    assert_eq!(corner_hitbox(0, 5), vec![(0, 0), (0, 0), (0, -4), (0, -4)]);
    let most = isize::MAX as usize;
    assert_eq!(
        corner_hitbox(most, most),
        vec![(0, 0), (isize::MAX - 1, 0), (0, -(isize::MAX - 1)), (isize::MAX - 1, -(isize::MAX - 1))]
    );
}

#[test]
fn a_running_agent_gains_the_acceleration_above_its_maximum() {
    let mut player = Player::spawn((0, 0), point());
    player.running = true;
    player.velocity = (SPAWN_MAX_VELOCITY + 7, -SPAWN_MAX_VELOCITY - 7);
    player.walk(Direction::Right);
    assert_eq!(player.velocity, (SPAWN_MAX_VELOCITY + 7 + SPAWN_ACCELERATION, -SPAWN_MAX_VELOCITY - 7));
    player.walk(Direction::Down);
    assert_eq!(player.velocity.1, -SPAWN_MAX_VELOCITY - 7 - SPAWN_ACCELERATION);
}
