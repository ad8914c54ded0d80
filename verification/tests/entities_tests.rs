//! Tests for the entity types: poolballs, golfballs, blackholes and
//! goalzones (1.0 == 1_000_000 raw units).

use poolsim::blackhole::Blackhole;
use poolsim::golfball::Golfball;
use poolsim::goalzone::Goalzone;
use poolsim::math::{calc_magnitude, Vec2, SCALE};
use poolsim::physics::calculate_gravity;
use poolsim::poolball::{BallType, Poolball};

const S: i64 = SCALE;

#[test]
fn test_is_spagettified() {
    let bh = Blackhole::new(Vec2::new(0, 0), S, S, 3 * S);
    let pb1 = Poolball::new(Vec2::new(S, 0), BallType::Red);
    let pb2 = Poolball::new(Vec2::new(-S, 0), BallType::Red);
    let pb3 = Poolball::new(Vec2::new(0, S), BallType::Red);
    let pb4 = Poolball::new(Vec2::new(0, -S), BallType::Red);
    let pb5 = Poolball::new(Vec2::new(2_100_000, 0), BallType::Red);
    let pb6 = Poolball::new(Vec2::new(0, 2_100_000), BallType::Red);
    assert!(bh.is_spagettified(&pb1));
    assert!(bh.is_spagettified(&pb2));
    assert!(bh.is_spagettified(&pb3));
    assert!(bh.is_spagettified(&pb4));
    assert!(!bh.is_spagettified(&pb5));
    assert!(!bh.is_spagettified(&pb6));
}

#[test]
fn test_reach() {
    // Inside range, should succeed
    let ball = Poolball::new(Vec2::new(0, 0), BallType::Red);
    let goalzone = Goalzone::new(Vec2::new(0, 0));
    assert!(goalzone.reached_goal(&ball));

    // Outside of range should fail
    let goalzone = Goalzone::new(Vec2::new(10 * S, 10 * S));
    assert!(!goalzone.reached_goal(&ball));
}

#[test]
fn golfball_test_update() {
    let mut ball = Golfball::new(Vec2::new(0, 0), Vec2::new(S, S));
    ball.update(Vec2::new(S, S), S);
    assert_eq!(ball.velocity, Vec2::new(2 * S, 2 * S));
    assert_eq!(ball.position, Vec2::new(S, S));
}

#[test]
fn poolball_test_update() {
    let mut ball = Poolball::new(Vec2::new(0, 0), BallType::Red);
    ball.set_velocity(Vec2::new(S, S));
    ball.update(S);
    assert_eq!(ball.position, Vec2::new(S, S));
}

#[test]
fn test_update_velocity() {
    let mut ball = Poolball::new(Vec2::new(0, 0), BallType::Red);
    ball.update_velocity(Vec2::new(S, S), S);
    assert_eq!(ball.velocity, Vec2::new(S, S));
}

#[test]
fn test_set_velocity() {
    let mut ball = Poolball::new(Vec2::new(0, 0), BallType::Red);
    let new_velocity = Vec2::new(S, S);
    ball.set_velocity(new_velocity);
    assert_eq!(ball.velocity, new_velocity);
}

#[test]
fn test_is_stationary() {
    let mut ball = Poolball::new(Vec2::new(0, 0), BallType::Red);
    assert!(ball.is_stationary());
    ball.set_velocity(Vec2::new(S, S));
    assert!(!ball.is_stationary());
}

#[test]
fn test_get_value() {
    let white = Poolball::new(Vec2::new(0, 0), BallType::White);
    let red = Poolball::new(Vec2::new(0, 0), BallType::Red);
    let blue = Poolball::new(Vec2::new(0, 0), BallType::Blue);

    assert_eq!(white.get_value(), -100);
    assert_eq!(red.get_value(), 10);
    assert_eq!(blue.get_value(), 30);
}

#[test]
fn plain_entities_hold_their_fields() {
    let planet = poolsim::planet::Planet {
        position: Vec2::new(500_000, 500_000),
        radius: 10_000,
        mass: 100_000,
        reach: 300_000,
    };
    assert_eq!(planet.position, Vec2::new(500_000, 500_000));
    assert_eq!(planet.reach, 300_000);

    let mode = poolsim::arrow::ShootingMode::Rotate;
    assert_eq!(mode, poolsim::arrow::ShootingMode::Rotate);
    assert_ne!(mode, poolsim::arrow::ShootingMode::Power);
}

#[test]
fn force_well_pulls_only_within_reach() {
    // A body inside the well's reach (but outside its capture radius)
    // accelerates straight toward the well; beyond the reach the well
    // contributes nothing.
    let well = Blackhole::new(Vec2::new(500_000, 500_000), 100_000, 10_000, 300_000);
    let holes = vec![well];

    let near = Poolball::new(Vec2::new(500_000, 300_000), BallType::Red);
    let acc = calculate_gravity(&holes, &near);
    assert_eq!(acc, Vec2::new(0, 2_500_000));
    assert!(acc.y > 0);
    assert!(!well.is_spagettified(&near));

    let far = Poolball::new(Vec2::new(500_000, 100_000), BallType::Red);
    let acc_far = calculate_gravity(&holes, &far);
    assert_eq!(acc_far, Vec2::new(0, 0));
    assert_eq!(calc_magnitude(acc_far), 0);
}
