//! Tests for the frame stepper: event-ordered micro-stepping, scoring,
//! captures and the cue-ball lifecycle (1.0 == 1_000_000 raw units).

use poolsim::game::{CollisionPair, Game, UpdateOutcome};
use poolsim::goalzone::Goalzone;
use poolsim::blackhole::Blackhole;
use poolsim::math::{Vec2, SCALE};
use poolsim::poolball::{BallType, Poolball};

const S: i64 = SCALE;

fn two_opposed_balls() -> Vec<Poolball> {
    let mut a = Poolball::new(Vec2::new(200_000, 500_000), BallType::Red);
    a.set_velocity(Vec2::new(S, 0));
    let mut b = Poolball::new(Vec2::new(800_000, 500_000), BallType::Blue);
    b.set_velocity(Vec2::new(-S, 0));
    // A cue ball parked out of everyone's path keeps the match running.
    let white = Poolball::new(Vec2::new(500_000, 900_000), BallType::White);
    vec![a, b, white]
}

#[test]
fn frame_resolves_events_in_time_order() {
    // Two balls rushing at each other: within one 1-second frame they
    // collide mid-table, bounce off their walls, and close in again.
    let mut game = Game::new(two_opposed_balls(), Vec::new(), Vec::new());
    let report = game.update(S);

    assert_eq!(report.outcome, UpdateOutcome::Running);
    assert_eq!(report.micro_steps, 3);
    assert!(!report.step_cap_hit);

    let balls = game.balls();
    assert_eq!(balls.len(), 3);
    assert_eq!(balls[0].position, Vec2::new(240_000, 500_000));
    assert_eq!(balls[1].position, Vec2::new(760_000, 500_000));
    // Friction has taken 0.01 off each speed by the end of the frame.
    assert_eq!(balls[0].velocity, Vec2::new(990_000, 0));
    assert_eq!(balls[1].velocity, Vec2::new(-990_000, 0));
    assert_eq!(game.score(), 0);
    assert!(!game.is_game_over());
}

#[test]
fn stepper_leaves_no_overlap() {
    // At every frame boundary no two balls overlap by more than the
    // fixed-point tolerance of one raw unit per coordinate.
    let mut game = Game::new(two_opposed_balls(), Vec::new(), Vec::new());
    for _ in 0..5 {
        game.update(S / 4);
        let balls = game.balls();
        for i in 0..balls.len() {
            for j in (i + 1)..balls.len() {
                let dx = (balls[i].position.x - balls[j].position.x) as i128;
                let dy = (balls[i].position.y - balls[j].position.y) as i128;
                let rr = (balls[i].radius + balls[j].radius) as i128;
                assert!(
                    dx * dx + dy * dy >= (rr - 10) * (rr - 10),
                    "overlap: {} {}",
                    dx,
                    dy
                );
            }
        }
    }
}

#[test]
fn earliest_event_is_scheduled_first() {
    // The scan returns the pair event at 0.29, earlier than any wall hit.
    let game = Game::new(two_opposed_balls(), Vec::new(), Vec::new());
    let ev: CollisionPair = game.get_first_collision_pair().unwrap();
    assert_eq!(ev.first, 0);
    assert_eq!(ev.second, Some(1));
    assert_eq!(ev.time, 290_000);
}

#[test]
fn lone_ball_schedules_wall_event() {
    // A single moving ball has no pair events: the earliest event is its
    // wall hit, at distance-over-speed.
    let mut a = Poolball::new(Vec2::new(400_000, 500_000), BallType::White);
    a.set_velocity(Vec2::new(S, 0));
    let game = Game::new(vec![a], Vec::new(), Vec::new());
    let ev = game.get_first_collision_pair().unwrap();
    assert_eq!(ev.first, 0);
    assert_eq!(ev.second, None);
    assert_eq!(ev.time, 590_000);

    // A fully resting table schedules nothing.
    let resting = Poolball::new(Vec2::new(400_000, 500_000), BallType::White);
    let idle = Game::new(vec![resting], Vec::new(), Vec::new());
    assert!(idle.get_first_collision_pair().is_none());
}

#[test]
fn cue_in_goal_with_no_score_ends_match() {
    // A cue ball holed while the score cannot cover a respawn ends the
    // match, and further frames change nothing.
    let white = Poolball::new(Vec2::new(500_000, 500_000), BallType::White);
    let zones = vec![Goalzone::new(Vec2::new(500_000, 500_000))];
    let mut game = Game::new(vec![white], Vec::new(), zones);

    let report = game.update(S);
    assert_eq!(report.outcome, UpdateOutcome::GameOver);
    assert!(game.is_game_over());
    assert_eq!(game.score(), -100);
    assert_eq!(game.balls().len(), 0);

    let again = game.update(S);
    assert_eq!(again.outcome, UpdateOutcome::GameOver);
    assert_eq!(again.micro_steps, 0);
    assert_eq!(game.score(), -100);
    assert_eq!(game.balls().len(), 0);
}

#[test]
fn cue_respawns_on_positive_score() {
    // A red ball holed puts the score at +10; with no cue ball left, a new
    // one appears at the fixed respawn position, at rest.
    let red = Poolball::new(Vec2::new(500_000, 500_000), BallType::Red);
    let zones = vec![Goalzone::new(Vec2::new(500_000, 500_000))];
    let mut game = Game::new(vec![red], Vec::new(), zones);

    let report = game.update(S);
    assert_eq!(report.outcome, UpdateOutcome::Running);
    assert_eq!(game.score(), 10);
    let balls = game.balls();
    assert_eq!(balls.len(), 1);
    assert!(matches!(balls[0].ball_type, BallType::White));
    assert_eq!(balls[0].position, Vec2::new(100_000, 100_000));
    assert!(balls[0].is_stationary());
    assert!(!game.is_game_over());
}

#[test]
fn blackhole_captures_ball_without_scoring() {
    // A ball drifting into a well's capture radius disappears; the score is
    // untouched.
    let ball = Poolball::new(Vec2::new(500_000, 500_000), BallType::Red);
    let white = Poolball::new(Vec2::new(900_000, 900_000), BallType::White);
    let holes = vec![Blackhole::new(Vec2::new(500_000, 500_000), 100_000, 10_000, 300_000)];
    let mut game = Game::new(vec![ball, white], holes, Vec::new());

    game.update(S);
    assert_eq!(game.balls().len(), 1);
    assert!(matches!(game.balls()[0].ball_type, BallType::White));
    assert_eq!(game.score(), 0);
    assert!(!game.is_game_over());
    assert_eq!(game.blackholes().len(), 1);
    assert_eq!(game.goalzones().len(), 0);
}
