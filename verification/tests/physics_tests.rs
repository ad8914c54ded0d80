//! Tests for the collision math and the force accumulator, on fixed-point
//! values (1.0 == 1_000_000 raw units).

use poolsim::blackhole::Blackhole;
use poolsim::math::{calc_magnitude, Vec2, SCALE};
use poolsim::physics::{
    ball_ball_collision, ball_wall_collision, calculate_gravity, friction, gravity_acc,
    time_to_ball_ball_collision, time_to_wall_collision, FRICTION,
};
use poolsim::poolball::{BallType, Poolball};

const S: i64 = SCALE;

#[test]
fn test_magnitude() {
    let vector = Vec2::new(S, S);
    let magnitude = calc_magnitude(vector);
    assert_eq!(magnitude, 1_414_213);

    let vector2 = Vec2::new(S, 2 * S);
    let magnitude2 = calc_magnitude(vector2);
    assert_eq!(magnitude2, 2_236_067);

    let vector3 = Vec2::new(2 * S, 0);
    let magnitude3 = calc_magnitude(vector3);
    assert_eq!(magnitude3, 2 * S);
}

#[test]
fn test_gravity_acc() {
    let acceleration = gravity_acc(S, S);
    assert_eq!(acceleration, S);
    let acceleration = gravity_acc(S, 2 * S);
    assert_eq!(acceleration, 250_000);
    let acceleration = gravity_acc(2_500_000, 2 * S);
    assert_eq!(acceleration, 625_000);
}

#[test]
fn test_calculate_gravity() {
    let blackholes = vec![
        Blackhole::new(Vec2::new(0, 0), S, S, S),
        Blackhole::new(Vec2::new(0, S), S, S, S),
    ];
    let ball = Poolball::new(Vec2::new(S, S), BallType::Red);
    let acc_vector = calculate_gravity(&blackholes, &ball);
    let acc_len = calc_magnitude(acc_vector) as f64 / S as f64;
    let expected_len =
        (1.0 / (8.0_f64).sqrt()) * ((-1.0 - (8.0_f64).sqrt()).hypot(-1.0));
    assert!(acc_len - expected_len < 0.001);
}

#[test]
fn test_calculate_gravity_reach() {
    let blackholes = vec![
        Blackhole::new(Vec2::new(0, 0), S, S, 0),
        Blackhole::new(Vec2::new(0, S), S, S, 0),
    ];
    let ball = Poolball::new(Vec2::new(S, S), BallType::Red);
    let acc_vector = calculate_gravity(&blackholes, &ball);
    assert_eq!(acc_vector, Vec2::new(0, 0));
}

#[test]
fn test_friction() {
    let ball = Poolball::new(Vec2::new(S, S), BallType::Red);
    assert_eq!(friction(&ball), Vec2::new(0, 0));

    let mut ball2 = Poolball::new(Vec2::new(S, S), BallType::Red);
    ball2.velocity = Vec2::new(S, 0);
    assert_eq!(Vec2::new(-FRICTION, 0), friction(&ball2));
}

#[test]
fn test_check_collision_simple() {
    let mut ball1 = Poolball::new(Vec2::new(0, 0), BallType::Red);
    ball1.radius = S;
    let mut ball2 = Poolball::new(Vec2::new(3 * S, 0), BallType::Red);
    ball2.radius = S;

    ball1.velocity = Vec2::new(S, 0);
    let collision_time = time_to_ball_ball_collision(&ball1, &ball2);

    assert_eq!(collision_time, Some(S));

    let mut ball1 = Poolball::new(Vec2::new(0, 0), BallType::Red);
    ball1.radius = S;
    let mut ball2 = Poolball::new(Vec2::new(4 * S, 0), BallType::Red);
    ball2.radius = S;

    ball1.velocity = Vec2::new(S, 0);

    let collision_time = time_to_ball_ball_collision(&ball1, &ball2);

    assert_eq!(collision_time, Some(2 * S));
}

#[test]
fn test_check_collision_advanced() {
    let mut ball1 = Poolball::new(Vec2::new(0, 0), BallType::Red);
    ball1.radius = S;
    let mut ball2 = Poolball::new(Vec2::new(4 * S, 0), BallType::Red);
    ball2.radius = S;

    ball1.set_velocity(Vec2::new(S, S));
    ball2.set_velocity(Vec2::new(-S, S));

    let collision_time = time_to_ball_ball_collision(&ball1, &ball2);

    assert_eq!(collision_time, Some(S));
}

#[test]
fn test_simpl_ball_ball_collision_calculation() {
    let mut ball1 = Poolball::new(Vec2::new(0, 0), BallType::Red);
    ball1.mass = S;
    ball1.velocity = Vec2::new(S, 0);

    let mut ball2 = Poolball::new(Vec2::new(4 * S, 0), BallType::Red);
    ball2.mass = S;
    ball2.velocity = Vec2::new(-S, 0);

    ball_ball_collision(&mut ball1, &mut ball2);
    assert_eq!(ball1.velocity, Vec2::new(-S, 0));
    assert_eq!(ball2.velocity, Vec2::new(S, 0));
}

#[test]
fn test_diagonal_ball_ball_collision_calculation() {
    let mut ball1 = Poolball::new(Vec2::new(0, 0), BallType::Red);
    ball1.mass = S;
    ball1.velocity = Vec2::new(S, S);

    let mut ball2 = Poolball::new(Vec2::new(4 * S, 0), BallType::Red);
    ball2.mass = S;
    ball2.velocity = Vec2::new(-S, S);

    ball_ball_collision(&mut ball1, &mut ball2);
    assert_eq!(ball1.velocity, Vec2::new(-S, S));
    assert_eq!(ball2.velocity, Vec2::new(S, S));
}

#[test]
fn test_time_to_wall_collision() {
    let mut ball = Poolball::new(Vec2::new(400_000, 500_000), BallType::Red);
    ball.radius = 100_000;
    ball.velocity = Vec2::new(S, 0);
    assert_eq!(time_to_wall_collision(&ball), Some(500_000));
    ball.position = Vec2::new(600_000, 500_000);
    ball.velocity = Vec2::new(-S, 0);
    assert_eq!(time_to_wall_collision(&ball), Some(500_000));
    ball.position = Vec2::new(500_000, 400_000);
    ball.velocity = Vec2::new(0, S);
    assert_eq!(time_to_wall_collision(&ball), Some(500_000));
    ball.position = Vec2::new(500_000, 600_000);
    ball.velocity = Vec2::new(0, -S);
    assert_eq!(time_to_wall_collision(&ball), Some(500_000));
    ball.position = Vec2::new(400_000, 400_000);
    ball.velocity = Vec2::new(S, S);
    assert_eq!(time_to_wall_collision(&ball), Some(500_000));
    ball.position = Vec2::new(600_000, 500_000);
    ball.velocity = Vec2::new(-2 * S, 0);
    assert_eq!(time_to_wall_collision(&ball), Some(250_000))
}

#[test]
fn test_ball_wall_collision() {
    let mut ball = Poolball::new(Vec2::new(900_000, 500_000), BallType::Red);
    ball.radius = 100_000;
    ball.velocity = Vec2::new(S, 0);
    ball_wall_collision(&mut ball);
    assert_eq!(ball.velocity, Vec2::new(-S, 0));
    ball.position = Vec2::new(500_000, 900_000);
    ball.velocity = Vec2::new(0, S);
    ball_wall_collision(&mut ball);
    assert_eq!(ball.velocity, Vec2::new(0, -S));
    ball.position = Vec2::new(500_000, 100_000);
    ball.velocity = Vec2::new(0, -S);
    ball_wall_collision(&mut ball);
    assert_eq!(ball.velocity, Vec2::new(0, S));
    ball.position = Vec2::new(100_000, 900_000);
    ball.velocity = Vec2::new(-S, 0);
    ball_wall_collision(&mut ball);
    assert_eq!(ball.velocity, Vec2::new(S, 0));
}

#[test]
fn head_on_pair_scenario_swaps_velocities() {
    // Two unit-mass bodies at (0,0) and (4,0), radius 1, moving toward each
    // other at speed 1: contact after exactly 1.0, velocities swapped.
    let mut a = Poolball::new(Vec2::new(0, 0), BallType::Red);
    a.radius = S;
    a.mass = S;
    a.velocity = Vec2::new(S, 0);
    let mut b = Poolball::new(Vec2::new(4 * S, 0), BallType::Red);
    b.radius = S;
    b.mass = S;
    b.velocity = Vec2::new(-S, 0);

    let t = time_to_ball_ball_collision(&a, &b);
    assert_eq!(t, Some(S));

    a.update(S);
    b.update(S);
    assert_eq!(calc_magnitude(b.position.sub(a.position)), 2 * S);

    ball_ball_collision(&mut a, &mut b);
    assert_eq!(a.velocity, Vec2::new(-S, 0));
    assert_eq!(b.velocity, Vec2::new(S, 0));
}

#[test]
fn pair_time_translates_to_exact_contact() {
    // After advancing both bodies by the computed time, their distance is
    // the sum of the radii (up to fixed-point rounding).
    let mut a = Poolball::new(Vec2::new(0, 0), BallType::Red);
    a.radius = S;
    a.velocity = Vec2::new(S, S);
    let mut b = Poolball::new(Vec2::new(4 * S, 0), BallType::Red);
    b.radius = S;
    b.velocity = Vec2::new(-S, S);

    let t = time_to_ball_ball_collision(&a, &b).unwrap();
    a.update(t);
    b.update(t);
    let dist = calc_magnitude(b.position.sub(a.position));
    assert_eq!(dist, 2 * S);

    // A skewed, non-exact configuration stays within rounding tolerance.
    let mut c = Poolball::new(Vec2::new(0, 0), BallType::Red);
    c.radius = S;
    c.velocity = Vec2::new(S, 500_000);
    let mut d = Poolball::new(Vec2::new(3_100_000, 1_700_000), BallType::Red);
    d.radius = S;

    let t = time_to_ball_ball_collision(&c, &d).unwrap();
    c.update(t);
    d.update(t);
    let dist = calc_magnitude(d.position.sub(c.position));
    assert!((dist - 2 * S).abs() <= 10_000, "distance at contact: {}", dist);
}

#[test]
fn non_approaching_pairs_never_collide() {
    // Moving apart: infinite collision time.
    let mut a = Poolball::new(Vec2::new(0, 0), BallType::Red);
    a.velocity = Vec2::new(-S, 0);
    let mut b = Poolball::new(Vec2::new(4 * S, 0), BallType::Red);
    b.velocity = Vec2::new(S, 0);
    assert_eq!(time_to_ball_ball_collision(&a, &b), None);

    // Equal velocities (zero relative motion): infinite collision time.
    a.velocity = Vec2::new(S, 250_000);
    b.velocity = Vec2::new(S, 250_000);
    assert_eq!(time_to_ball_ball_collision(&a, &b), None);

    // A body at rest sees no wall.
    let resting = Poolball::new(Vec2::new(500_000, 500_000), BallType::Red);
    assert_eq!(time_to_wall_collision(&resting), None);
}

#[test]
fn pair_collision_conserves_momentum_and_energy() {
    // An oblique collision with rounding in the normal: momentum is exact,
    // kinetic energy within fixed-point tolerance.
    let mut a = Poolball::new(Vec2::new(0, 0), BallType::Red);
    a.velocity = Vec2::new(S, 0);
    let mut b = Poolball::new(Vec2::new(S, S), BallType::Red);

    let m = a.mass as i128;
    let px0 = m * (a.velocity.x as i128) + m * (b.velocity.x as i128);
    let py0 = m * (a.velocity.y as i128) + m * (b.velocity.y as i128);
    let energy = |v: Vec2| (v.x as i128) * (v.x as i128) + (v.y as i128) * (v.y as i128);
    let e0 = energy(a.velocity) + energy(b.velocity);

    ball_ball_collision(&mut a, &mut b);

    let px1 = m * (a.velocity.x as i128) + m * (b.velocity.x as i128);
    let py1 = m * (a.velocity.y as i128) + m * (b.velocity.y as i128);
    let e1 = energy(a.velocity) + energy(b.velocity);

    assert_eq!(px0, px1);
    assert_eq!(py0, py1);
    assert!((e1 - e0).abs() <= e0 / 100, "energy drift: {} of {}", e1 - e0, e0);
}

#[test]
fn wall_scenario_reflects_horizontal_velocity() {
    // A body at (0.4, 0.5), radius 0.1, moving right at speed 1: the wall is
    // reached after 0.5, and the bounce negates the x velocity only.
    let mut ball = Poolball::new(Vec2::new(400_000, 500_000), BallType::Red);
    ball.radius = 100_000;
    ball.velocity = Vec2::new(S, 0);

    let t = time_to_wall_collision(&ball);
    assert_eq!(t, Some(500_000));

    ball.update(500_000);
    assert_eq!(ball.position, Vec2::new(900_000, 500_000));

    ball_wall_collision(&mut ball);
    assert_eq!(ball.velocity, Vec2::new(-S, 0));
    assert_eq!(calc_magnitude(ball.velocity), S);
}
