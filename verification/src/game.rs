//! The frame stepper: the game state owning all balls, blackholes and
//! goalzones, and the per-frame update that advances the simulation by an
//! exact time budget, resolving every wall and pair collision inside the
//! budget in time order.
//!
//! `update` mirrors the spec function [`update_s`] exactly: scan for the
//! earliest event, advance every ball to that instant, resolve, repeat until
//! the budget is spent (or the micro-step cap is hit, which is reported, not
//! fatal), then apply friction, gravity, captures, goal scoring and the
//! cue-ball lifecycle.

use crate::blackhole::{Blackhole, HoleModel};
use crate::goalzone::{Goalzone, ZoneModel};
use crate::math::{fadd_s, fx_add, fx_ok, vzero_s, Vec2, Vec2Model, FX_MAX};
use crate::physics::{
    ball_ball_collision, ball_wall_collision, calculate_gravity, calculate_gravity_s, friction,
    friction_s, holes_v, opt_time_v, pair_resolve_s, pair_time_s, time_to_ball_ball_collision,
    time_to_wall_collision, wall_resolve_s, wall_time_s,
};
use crate::poolball::{
    ball_accelerated_s, ball_advanced_s, ball_value_s, BallModel, BallType, Poolball, MASS,
    RADIUS,
};
use vstd::prelude::*;

verus! {

/// Upper bound on micro-steps resolved within one frame; a pathological
/// configuration that exceeds it is reported rather than spun on.
pub const STEP_CAP: u32 = 1000;

/// X coordinate of the respawn position of a new cue ball (0.1).
pub const WHITE_SPAWN_X: i64 = 100_000;

/// Y coordinate of the respawn position of a new cue ball (0.1).
pub const WHITE_SPAWN_Y: i64 = 100_000;

/// Whether a frame left the match running or ended it.
#[derive(Clone, Copy, Debug, PartialEq, Eq, Structural)]
pub enum UpdateOutcome {
    Running,
    GameOver,
}

/// What one `update` call did: the outcome, the number of collision
/// micro-steps resolved, and whether the step cap cut the frame short.
#[derive(Clone, Copy, Debug)]
pub struct FrameReport {
    pub outcome: UpdateOutcome,
    pub micro_steps: u32,
    pub step_cap_hit: bool,
}

/// One scheduled collision: the involved ball, optionally a second ball
/// (`None` means a wall collision), and the non-negative time to contact.
#[derive(Clone, Copy, Debug)]
pub struct CollisionPair {
    pub first: usize,
    pub second: Option<usize>,
    pub time: i64,
}

/// Model of a [`CollisionPair`].
pub struct EventModel {
    pub first: int,
    pub second: Option<int>,
    pub time: int,
}

/// Model of the whole game state.
pub struct GameModel {
    pub balls: Seq<BallModel>,
    pub blackholes: Seq<HoleModel>,
    pub goalzones: Seq<ZoneModel>,
    pub score: int,
    pub game_over: bool,
}

/// Model view of a vector of balls.
pub open spec fn balls_v(s: Seq<Poolball>) -> Seq<BallModel> {
    s.map_values(|b: Poolball| b@)
}

/// Model view of a vector of goalzones.
pub open spec fn zones_v(s: Seq<Goalzone>) -> Seq<ZoneModel> {
    s.map_values(|z: Goalzone| z@)
}

/// Indexing the model view is viewing the indexed element.
pub proof fn lemma_balls_v_index(s: Seq<Poolball>, k: int)
    requires
        0 <= k < s.len(),
    ensures
        balls_v(s)[k] == s[k]@,
        balls_v(s).len() == s.len(),
{
}

/// Indexing the model view is viewing the indexed element.
pub proof fn lemma_holes_v_index(s: Seq<Blackhole>, k: int)
    requires
        0 <= k < s.len(),
    ensures
        holes_v(s)[k] == s[k]@,
        holes_v(s).len() == s.len(),
{
}

/// Indexing the model view is viewing the indexed element.
pub proof fn lemma_zones_v_index(s: Seq<Goalzone>, k: int)
    requires
        0 <= k < s.len(),
    ensures
        zones_v(s)[k] == s[k]@,
        zones_v(s).len() == s.len(),
{
}

/// Every ball in the collection is well-formed.
pub open spec fn all_balls_valid_s(s: Seq<BallModel>) -> bool {
    forall|i: int| 0 <= i < s.len() ==> (#[trigger] s[i]).valid()
}

/// Every hole in the collection is well-formed.
pub open spec fn all_holes_valid_s(s: Seq<HoleModel>) -> bool {
    forall|i: int| 0 <= i < s.len() ==> (#[trigger] s[i]).valid()
}

/// Every zone in the collection is well-formed.
pub open spec fn all_zones_valid_s(s: Seq<ZoneModel>) -> bool {
    forall|i: int| 0 <= i < s.len() ==> (#[trigger] s[i]).valid()
}

/// Whether a white (cue) ball is present.
pub open spec fn has_white_s(balls: Seq<BallModel>) -> bool {
    exists|i: int| 0 <= i < balls.len() && (#[trigger] balls[i]).ball_type == BallType::White
}

impl GameModel {
    /// Well-formedness of the whole state; once the match is over, no cue
    /// ball remains and the score is non-positive.
    pub open spec fn valid(self) -> bool {
        &&& all_balls_valid_s(self.balls)
        &&& all_holes_valid_s(self.blackholes)
        &&& all_zones_valid_s(self.goalzones)
        &&& fx_ok(self.score)
        &&& self.game_over ==> (!has_white_s(self.balls) && self.score <= 0)
    }
}

/// Model view of an optional index.
pub open spec fn opt_idx_v(o: Option<usize>) -> Option<int> {
    match o {
        None => None,
        Some(j) => Some(j as int),
    }
}

/// Model view of an optional collision pair.
pub open spec fn cp_view(o: Option<CollisionPair>) -> Option<EventModel> {
    match o {
        None => None,
        Some(c) => Some(
            EventModel { first: c.first as int, second: opt_idx_v(c.second), time: c.time as int },
        ),
    }
}

/// The candidate replaces the best event found so far exactly when it is
/// finite and strictly earlier (ties keep the earlier-scanned event).
pub open spec fn consider_s(
    best: Option<EventModel>,
    first: int,
    second: Option<int>,
    t: Option<int>,
) -> Option<EventModel> {
    match t {
        None => best,
        Some(tv) => match best {
            None => Some(EventModel { first, second, time: tv }),
            Some(e) => if tv < e.time {
                Some(EventModel { first, second, time: tv })
            } else {
                best
            },
        },
    }
}

/// Fold of the pair candidates `(i, j), (i, j+1), ...` into the best event.
pub open spec fn scan_pairs_s(
    balls: Seq<BallModel>,
    i: int,
    j: int,
    best: Option<EventModel>,
) -> Option<EventModel>
    decreases balls.len() - j,
{
    if j < 0 || j >= balls.len() {
        best
    } else {
        scan_pairs_s(balls, i, j + 1, consider_s(best, i, Some(j), pair_time_s(balls[i], balls[j])))
    }
}

/// Fold of all candidates from ball `i` on: ball `i`'s wall event, its
/// pairs with every later ball, then the rest.
pub open spec fn scan_from_s(balls: Seq<BallModel>, i: int, best: Option<EventModel>) -> Option<
    EventModel,
>
    decreases balls.len() - i,
{
    if i < 0 || i >= balls.len() {
        best
    } else {
        let with_wall = consider_s(best, i, None, wall_time_s(balls[i]));
        let with_pairs = scan_pairs_s(balls, i, i + 1, with_wall);
        scan_from_s(balls, i + 1, with_pairs)
    }
}

/// The earliest collision event over every ball's wall time and every
/// pair's collision time; ties go to the first-scanned candidate.
pub open spec fn scan_s(balls: Seq<BallModel>) -> Option<EventModel> {
    scan_from_s(balls, 0, None)
}

/// Every ball advanced along its velocity by `t`.
pub open spec fn advance_all_s(balls: Seq<BallModel>, t: int) -> Seq<BallModel> {
    balls.map_values(|b: BallModel| ball_advanced_s(b, t))
}

/// The collection after resolving one event: a wall bounce for the single
/// ball, or the elastic pair resolution for both involved balls.
pub open spec fn resolve_event_s(balls: Seq<BallModel>, e: EventModel) -> Seq<BallModel> {
    match e.second {
        None => balls.update(e.first, wall_resolve_s(balls[e.first])),
        Some(j) => {
            let pr = pair_resolve_s(balls[e.first], balls[j]);
            balls.update(
                e.first,
                BallModel { velocity: pr.0, ..balls[e.first] },
            ).update(j, BallModel { velocity: pr.1, ..balls[j] })
        },
    }
}

/// The event-ordered micro-step loop: while the earliest event falls inside
/// the remaining budget, advance everyone to it and resolve it; then advance
/// everyone through the remaining budget. Returns the final collection, the
/// number of resolved events, and whether the step cap was hit.
pub open spec fn micro_s(balls: Seq<BallModel>, left: int, fuel: nat) -> (Seq<BallModel>, nat, bool)
    decreases fuel,
{
    let ev = scan_s(balls);
    if ev is Some && ev->Some_0.time < left {
        if fuel == 0 {
            (advance_all_s(balls, left), 0, true)
        } else {
            let e = ev->Some_0;
            let stepped = resolve_event_s(advance_all_s(balls, e.time), e);
            let rest = micro_s(stepped, left - e.time, (fuel - 1) as nat);
            (rest.0, rest.1 + 1, rest.2)
        }
    } else {
        (advance_all_s(balls, left), 0, false)
    }
}

/// Every ball after the frame's friction deceleration.
pub open spec fn friction_pass_s(balls: Seq<BallModel>, dt: int) -> Seq<BallModel> {
    balls.map_values(|b: BallModel| ball_accelerated_s(b, friction_s(b), dt))
}

/// Every ball after the frame's gravity acceleration.
pub open spec fn gravity_pass_s(
    balls: Seq<BallModel>,
    holes: Seq<HoleModel>,
    dt: int,
) -> Seq<BallModel> {
    balls.map_values(|b: BallModel| ball_accelerated_s(b, calculate_gravity_s(holes, b), dt))
}

/// Whether some hole captures the ball.
pub open spec fn any_hole_captures_s(holes: Seq<HoleModel>, b: BallModel) -> bool {
    exists|i: int| 0 <= i < holes.len() && crate::blackhole::spagettified_s(#[trigger] holes[i], b)
}

/// Whether some zone holes the ball.
pub open spec fn any_zone_holed_s(zones: Seq<ZoneModel>, b: BallModel) -> bool {
    exists|i: int| 0 <= i < zones.len() && crate::goalzone::reached_goal_s(#[trigger] zones[i], b)
}

/// The first `n` balls with every hole-captured ball removed, in order.
pub open spec fn hole_filter_upto_s(
    balls: Seq<BallModel>,
    holes: Seq<HoleModel>,
    n: int,
) -> Seq<BallModel>
    decreases n,
{
    if n <= 0 {
        Seq::empty()
    } else {
        let prev = hole_filter_upto_s(balls, holes, n - 1);
        if any_hole_captures_s(holes, balls[n - 1]) {
            prev
        } else {
            prev.push(balls[n - 1])
        }
    }
}

/// The first `n` balls with every holed ball removed and its value scored
/// (saturated addition, like every scalar step).
pub open spec fn goal_pass_upto_s(
    balls: Seq<BallModel>,
    zones: Seq<ZoneModel>,
    score: int,
    n: int,
) -> (Seq<BallModel>, int)
    decreases n,
{
    if n <= 0 {
        (Seq::empty(), score)
    } else {
        let prev = goal_pass_upto_s(balls, zones, score, n - 1);
        if any_zone_holed_s(zones, balls[n - 1]) {
            (prev.0, fadd_s(prev.1, ball_value_s(balls[n - 1].ball_type)))
        } else {
            (prev.0.push(balls[n - 1]), prev.1)
        }
    }
}

/// The cue ball spawned on respawn: at the fixed default position, at rest.
pub open spec fn white_spawn_s() -> BallModel {
    BallModel {
        position: Vec2Model { x: WHITE_SPAWN_X as int, y: WHITE_SPAWN_Y as int },
        radius: RADIUS as int,
        mass: MASS as int,
        velocity: vzero_s(),
        ball_type: BallType::White,
    }
}

/// Cue lifecycle: when no cue ball remains, respawn one if the score is
/// positive, otherwise the match reaches its terminal state.
pub open spec fn lifecycle_s(balls: Seq<BallModel>, score: int) -> (Seq<BallModel>, bool) {
    if has_white_s(balls) {
        (balls, false)
    } else if score > 0 {
        (balls.push(white_spawn_s()), false)
    } else {
        (balls, true)
    }
}

/// One whole frame: the micro-step loop, then friction, gravity, hole
/// captures, goal scoring and the cue lifecycle. A finished match is inert.
/// Returns the new state, the micro-step count and the cap flag.
pub open spec fn update_s(g: GameModel, dt: int) -> (GameModel, nat, bool) {
    if g.game_over {
        (g, 0, false)
    } else {
        let m = micro_s(g.balls, dt, STEP_CAP as nat);
        let b2 = friction_pass_s(m.0, dt);
        let b3 = gravity_pass_s(b2, g.blackholes, dt);
        let b4 = hole_filter_upto_s(b3, g.blackholes, b3.len() as int);
        let gp = goal_pass_upto_s(b4, g.goalzones, g.score, b4.len() as int);
        let lc = lifecycle_s(gp.0, gp.1);
        (GameModel { balls: lc.0, score: gp.1, game_over: lc.1, ..g }, m.1, m.2)
    }
}

/// The time of an optional event (`None` is infinity).
pub open spec fn ev_time_s(o: Option<EventModel>) -> Option<int> {
    match o {
        None => None,
        Some(e) => Some(e.time),
    }
}

/// Ordering of optional times with `None` as infinity.
pub open spec fn opt_le_s(a: Option<int>, b: Option<int>) -> bool {
    match (a, b) {
        (None, None) => true,
        (None, Some(_)) => false,
        (Some(_), None) => true,
        (Some(x), Some(y)) => x <= y,
    }
}

/// The pair fold never returns an event later than its seed or than any
/// pair candidate it scans.
proof fn lemma_scan_pairs_earliest(balls: Seq<BallModel>, i: int, j0: int, best: Option<EventModel>)
    requires
        0 <= j0,
    ensures
        opt_le_s(ev_time_s(scan_pairs_s(balls, i, j0, best)), ev_time_s(best)),
        forall|j: int|
            j0 <= j < balls.len() ==> opt_le_s(
                ev_time_s(scan_pairs_s(balls, i, j0, best)),
                #[trigger] pair_time_s(balls[i], balls[j]),
            ),
    decreases balls.len() - j0,
{
    if j0 < balls.len() {
        let b2 = consider_s(best, i, Some(j0), pair_time_s(balls[i], balls[j0]));
        lemma_scan_pairs_earliest(balls, i, j0 + 1, b2);
    }
}

/// The outer fold never returns an event later than its seed, than any
/// remaining ball's wall time, or than any remaining pair's collision time.
proof fn lemma_scan_from_earliest(balls: Seq<BallModel>, i0: int, best: Option<EventModel>)
    requires
        0 <= i0,
    ensures
        opt_le_s(ev_time_s(scan_from_s(balls, i0, best)), ev_time_s(best)),
        forall|i: int|
            i0 <= i < balls.len() ==> opt_le_s(
                ev_time_s(scan_from_s(balls, i0, best)),
                #[trigger] wall_time_s(balls[i]),
            ),
        forall|i: int, j: int|
            i0 <= i < j < balls.len() ==> opt_le_s(
                ev_time_s(scan_from_s(balls, i0, best)),
                #[trigger] pair_time_s(balls[i], balls[j]),
            ),
    decreases balls.len() - i0,
{
    if i0 < balls.len() {
        let with_wall = consider_s(best, i0, None, wall_time_s(balls[i0]));
        let with_pairs = scan_pairs_s(balls, i0, i0 + 1, with_wall);
        lemma_scan_pairs_earliest(balls, i0, i0 + 1, with_wall);
        lemma_scan_from_earliest(balls, i0 + 1, with_pairs);
        let r = scan_from_s(balls, i0, best);
        assert forall|j: int| i0 < j < balls.len() implies opt_le_s(
            ev_time_s(r),
            #[trigger] pair_time_s(balls[i0], balls[j]),
        ) by {
            assert(opt_le_s(ev_time_s(with_pairs), pair_time_s(balls[i0], balls[j])));
        }
    }
}

/// The scheduler picks the globally earliest event: no ball's wall time and
/// no pair's collision time comes before the scanned event's time. This is
/// what keeps the stepper from stepping past a collision.
pub proof fn lemma_scan_finds_earliest(balls: Seq<BallModel>)
    ensures
        forall|i: int|
            0 <= i < balls.len() ==> opt_le_s(
                ev_time_s(scan_s(balls)),
                #[trigger] wall_time_s(balls[i]),
            ),
        forall|i: int, j: int|
            0 <= i < j < balls.len() ==> opt_le_s(
                ev_time_s(scan_s(balls)),
                #[trigger] pair_time_s(balls[i], balls[j]),
            ),
{
    lemma_scan_from_earliest(balls, 0, None);
}

/// In-range indices of an event against the collection.
pub open spec fn event_wf_s(balls: Seq<BallModel>, e: EventModel) -> bool {
    &&& 0 <= e.first < balls.len()
    &&& match e.second {
        None => true,
        Some(j) => e.first < j < balls.len(),
    }
}

/// The collision time the event's own participants would yield: the wall
/// time of its ball, or the pair time of its two balls.
pub open spec fn event_time_of_s(balls: Seq<BallModel>, e: EventModel) -> Option<int> {
    match e.second {
        None => wall_time_s(balls[e.first]),
        Some(j) => pair_time_s(balls[e.first], balls[j]),
    }
}

/// An event is a genuine candidate: in-range indices and a stored time
/// that is exactly its participants' collision time.
pub open spec fn event_candidate_s(balls: Seq<BallModel>, e: EventModel) -> bool {
    event_wf_s(balls, e) && event_time_of_s(balls, e) == Some(e.time)
}

/// The pair fold only ever produces genuine candidates.
proof fn lemma_scan_pairs_wf(balls: Seq<BallModel>, i: int, j0: int, best: Option<EventModel>)
    requires
        0 <= i < balls.len(),
        i < j0,
        best is Some ==> event_candidate_s(balls, best->Some_0),
    ensures
        scan_pairs_s(balls, i, j0, best) is Some ==> event_candidate_s(
            balls,
            scan_pairs_s(balls, i, j0, best)->Some_0,
        ),
    decreases balls.len() - j0,
{
    if 0 <= j0 < balls.len() {
        let b2 = consider_s(best, i, Some(j0), pair_time_s(balls[i], balls[j0]));
        lemma_scan_pairs_wf(balls, i, j0 + 1, b2);
    }
}

/// The outer fold only ever produces genuine candidates.
proof fn lemma_scan_from_wf(balls: Seq<BallModel>, i0: int, best: Option<EventModel>)
    requires
        best is Some ==> event_candidate_s(balls, best->Some_0),
    ensures
        scan_from_s(balls, i0, best) is Some ==> event_candidate_s(
            balls,
            scan_from_s(balls, i0, best)->Some_0,
        ),
    decreases balls.len() - i0,
{
    if 0 <= i0 < balls.len() {
        let with_wall = consider_s(best, i0, None, wall_time_s(balls[i0]));
        let with_pairs = scan_pairs_s(balls, i0, i0 + 1, with_wall);
        lemma_scan_pairs_wf(balls, i0, i0 + 1, with_wall);
        lemma_scan_from_wf(balls, i0 + 1, with_pairs);
    }
}

/// A scanned event is always a genuine candidate: its indices are in
/// range and its time is its own participants' collision time. Together
/// with [`lemma_scan_finds_earliest`] this pins the scheduler down: it
/// returns a real event, and none comes earlier.
pub proof fn lemma_scan_wf(balls: Seq<BallModel>)
    ensures
        scan_s(balls) is Some ==> event_candidate_s(balls, scan_s(balls)->Some_0),
{
    lemma_scan_from_wf(balls, 0, None);
}

/// Number of cue (white) balls in the collection.
pub open spec fn white_count_s(balls: Seq<BallModel>) -> nat
    decreases balls.len(),
{
    if balls.len() == 0 {
        0
    } else {
        white_count_s(balls.drop_last()) + (if balls.last().ball_type == BallType::White {
            1nat
        } else {
            0nat
        })
    }
}

/// Appending one ball raises the cue count by one exactly when it is white.
proof fn lemma_white_count_push(s: Seq<BallModel>, b: BallModel)
    ensures
        white_count_s(s.push(b)) == white_count_s(s) + (if b.ball_type == BallType::White {
            1nat
        } else {
            0nat
        }),
{
    assert(s.push(b).drop_last() =~= s);
    assert(s.push(b).last() == b);
}

/// Two collections with pointwise equal colors hold equally many cues.
proof fn lemma_white_count_pointwise(s1: Seq<BallModel>, s2: Seq<BallModel>)
    requires
        s1.len() == s2.len(),
        forall|i: int| 0 <= i < s1.len() ==> s1[i].ball_type == (#[trigger] s2[i]).ball_type,
    ensures
        white_count_s(s1) == white_count_s(s2),
    decreases s1.len(),
{
    if s1.len() > 0 {
        assert forall|i: int| 0 <= i < s1.drop_last().len() implies s1.drop_last()[i].ball_type
            == (#[trigger] s2.drop_last()[i]).ball_type by {
            assert(s1[i].ball_type == s2[i].ball_type);
        }
        lemma_white_count_pointwise(s1.drop_last(), s2.drop_last());
        assert(s1[s1.len() - 1].ball_type == s2[s1.len() - 1].ball_type);
    }
}

/// The cue count is zero exactly when no cue ball is present.
proof fn lemma_white_count_zero_iff_none(s: Seq<BallModel>)
    ensures
        (white_count_s(s) == 0) <==> !has_white_s(s),
    decreases s.len(),
{
    if s.len() > 0 {
        lemma_white_count_zero_iff_none(s.drop_last());
        if s.last().ball_type == BallType::White {
            assert(s[s.len() - 1].ball_type == BallType::White);
        } else {
            if white_count_s(s) == 0 {
                if has_white_s(s) {
                    let i = choose|i: int|
                        0 <= i < s.len() && s[i].ball_type == BallType::White;
                    assert(s.drop_last()[i].ball_type == BallType::White);
                    assert(has_white_s(s.drop_last()));
                }
            } else {
                let j = choose|i: int|
                    0 <= i < s.drop_last().len() && s.drop_last()[i].ball_type
                        == BallType::White;
                assert(s[j].ball_type == BallType::White);
            }
        }
    }
}

/// Advancing changes no ball's color, so the cue count is unchanged.
proof fn lemma_advance_all_count(balls: Seq<BallModel>, t: int)
    ensures
        white_count_s(advance_all_s(balls, t)) == white_count_s(balls),
{
    lemma_white_count_pointwise(advance_all_s(balls, t), balls);
}

/// Resolving an event changes no ball's color, so the cue count is
/// unchanged.
proof fn lemma_resolve_event_count(balls: Seq<BallModel>, e: EventModel)
    requires
        event_wf_s(balls, e),
    ensures
        white_count_s(resolve_event_s(balls, e)) == white_count_s(balls),
{
    lemma_white_count_pointwise(resolve_event_s(balls, e), balls);
}

/// The micro-step loop changes no ball's color, so the cue count is
/// unchanged.
proof fn lemma_micro_count(balls: Seq<BallModel>, left: int, fuel: nat)
    ensures
        white_count_s(micro_s(balls, left, fuel).0) == white_count_s(balls),
    decreases fuel,
{
    let ev = scan_s(balls);
    lemma_scan_wf(balls);
    if ev is Some && ev->Some_0.time < left {
        if fuel == 0 {
            lemma_advance_all_count(balls, left);
        } else {
            let e = ev->Some_0;
            let advanced = advance_all_s(balls, e.time);
            lemma_advance_all_count(balls, e.time);
            lemma_resolve_event_count(advanced, e);
            lemma_micro_count(resolve_event_s(advanced, e), left - e.time, (fuel - 1) as nat);
        }
    } else {
        lemma_advance_all_count(balls, left);
    }
}

/// Friction changes no ball's color, so the cue count is unchanged.
proof fn lemma_friction_pass_count(balls: Seq<BallModel>, dt: int)
    ensures
        white_count_s(friction_pass_s(balls, dt)) == white_count_s(balls),
{
    lemma_white_count_pointwise(friction_pass_s(balls, dt), balls);
}

/// Gravity changes no ball's color, so the cue count is unchanged.
proof fn lemma_gravity_pass_count(balls: Seq<BallModel>, holes: Seq<HoleModel>, dt: int)
    ensures
        white_count_s(gravity_pass_s(balls, holes, dt)) == white_count_s(balls),
{
    lemma_white_count_pointwise(gravity_pass_s(balls, holes, dt), balls);
}

/// Removing captured balls cannot raise the cue count.
proof fn lemma_hole_filter_count(balls: Seq<BallModel>, holes: Seq<HoleModel>, n: int)
    requires
        0 <= n <= balls.len(),
    ensures
        white_count_s(hole_filter_upto_s(balls, holes, n)) <= white_count_s(balls.take(n)),
    decreases n,
{
    if n > 0 {
        lemma_hole_filter_count(balls, holes, n - 1);
        assert(balls.take(n).drop_last() =~= balls.take(n - 1));
        assert(balls.take(n).last() == balls[n - 1]);
        lemma_white_count_push(balls.take(n - 1), balls[n - 1]);
        assert(balls.take(n - 1).push(balls[n - 1]) =~= balls.take(n));
        if !any_hole_captures_s(holes, balls[n - 1]) {
            lemma_white_count_push(hole_filter_upto_s(balls, holes, n - 1), balls[n - 1]);
        }
    }
}

/// Scoring removals cannot raise the cue count.
proof fn lemma_goal_pass_count(balls: Seq<BallModel>, zones: Seq<ZoneModel>, score: int, n: int)
    requires
        0 <= n <= balls.len(),
    ensures
        white_count_s(goal_pass_upto_s(balls, zones, score, n).0) <= white_count_s(balls.take(n)),
    decreases n,
{
    if n > 0 {
        lemma_goal_pass_count(balls, zones, score, n - 1);
        lemma_white_count_push(balls.take(n - 1), balls[n - 1]);
        assert(balls.take(n - 1).push(balls[n - 1]) =~= balls.take(n));
        if !any_zone_holed_s(zones, balls[n - 1]) {
            lemma_white_count_push(goal_pass_upto_s(balls, zones, score, n - 1).0, balls[n - 1]);
        }
    }
}

/// A frame preserves the data-model invariant that at most one cue ball is
/// in play: the stepper and force passes recolor nothing, removals only
/// lower the count, and a cue is respawned only when none remains.
pub proof fn lemma_update_preserves_single_cue(g: GameModel, dt: int)
    requires
        white_count_s(g.balls) <= 1,
    ensures
        white_count_s(update_s(g, dt).0.balls) <= 1,
{
    if !g.game_over {
        let m = micro_s(g.balls, dt, STEP_CAP as nat);
        lemma_micro_count(g.balls, dt, STEP_CAP as nat);
        let b2 = friction_pass_s(m.0, dt);
        lemma_friction_pass_count(m.0, dt);
        let b3 = gravity_pass_s(b2, g.blackholes, dt);
        lemma_gravity_pass_count(b2, g.blackholes, dt);
        let b4 = hole_filter_upto_s(b3, g.blackholes, b3.len() as int);
        lemma_hole_filter_count(b3, g.blackholes, b3.len() as int);
        assert(b3.take(b3.len() as int) =~= b3);
        let gp = goal_pass_upto_s(b4, g.goalzones, g.score, b4.len() as int);
        lemma_goal_pass_count(b4, g.goalzones, g.score, b4.len() as int);
        assert(b4.take(b4.len() as int) =~= b4);
        if !has_white_s(gp.0) && gp.1 > 0 {
            lemma_white_count_zero_iff_none(gp.0);
            lemma_white_count_push(gp.0, white_spawn_s());
        }
    }
}

/// Bounds of a scheduled event against the collection: indices in range, a
/// pair's second index after its first, a non-negative time.
pub open spec fn cp_wf(len: int, o: Option<CollisionPair>) -> bool {
    match o {
        None => true,
        Some(c) => {
            &&& 0 <= c.first < len
            &&& match c.second {
                None => true,
                Some(j) => c.first < j < len,
            }
            &&& c.time >= 0
        },
    }
}

/// Main struct for the global game state: the balls in play, blackholes,
/// goalzones and the running score.
pub struct Game {
    balls: Vec<Poolball>,
    blackholes: Vec<Blackhole>,
    goalzones: Vec<Goalzone>,
    score: i64,
    game_over: bool,
}

impl View for Game {
    type V = GameModel;

    closed spec fn view(&self) -> GameModel {
        GameModel {
            balls: balls_v(self.balls@),
            blackholes: holes_v(self.blackholes@),
            goalzones: zones_v(self.goalzones@),
            score: self.score as int,
            game_over: self.game_over,
        }
    }
}

/// Searches for the white ball, returning the index of the first one.
fn white_ball_position(balls: &Vec<Poolball>) -> (r: Option<usize>)
    ensures
        match r {
            Some(i) => 0 <= i < balls@.len() && balls@[i as int]@.ball_type == BallType::White,
            None => !has_white_s(balls_v(balls@)),
        },
        r is Some <==> has_white_s(balls_v(balls@)),
{
    let mut i: usize = 0;
    while i < balls.len()
        invariant
            i <= balls@.len(),
            forall|k: int| 0 <= k < i ==> (#[trigger] balls@[k])@.ball_type != BallType::White,
        decreases balls@.len() - i,
    {
        if matches!(balls[i].ball_type, BallType::White) {
            proof {
                lemma_balls_v_index(balls@, i as int);
            }
            return Some(i);
        }
        i = i + 1;
    }
    proof {
        assert forall|k: int| 0 <= k < balls_v(balls@).len() implies (#[trigger] balls_v(
            balls@,
        )[k]).ball_type != BallType::White by {
            lemma_balls_v_index(balls@, k);
        }
    }
    None
}

/// Keep the new best event if the candidate comes strictly earlier.
fn consider(
    best: Option<CollisionPair>,
    first: usize,
    second: Option<usize>,
    t: Option<i64>,
    Ghost(len): Ghost<int>,
) -> (r: Option<CollisionPair>)
    requires
        cp_wf(len, best),
        0 <= first < len,
        match second {
            None => true,
            Some(j) => first < j < len,
        },
        match t {
            None => true,
            Some(tv) => tv >= 0,
        },
    ensures
        cp_view(r) == consider_s(cp_view(best), first as int, opt_idx_v(second), opt_time_v(t)),
        cp_wf(len, r),
{
    match t {
        None => best,
        Some(tv) => match best {
            None => Some(CollisionPair { first, second, time: tv }),
            Some(e) => if tv < e.time {
                Some(CollisionPair { first, second, time: tv })
            } else {
                Some(e)
            },
        },
    }
}

/// Every ball moved along its velocity for `t`.
#[verifier::loop_isolation(false)]
fn advance_all(balls: &mut Vec<Poolball>, t: i64)
    requires
        all_balls_valid_s(balls_v(old(balls)@)),
        fx_ok(t as int),
    ensures
        balls_v(final(balls)@) == advance_all_s(balls_v(old(balls)@), t as int),
        all_balls_valid_s(balls_v(final(balls)@)),
{
    let ghost orig = balls@;
    let mut i: usize = 0;
    while i < balls.len()
        invariant
            i <= balls@.len(),
            balls@.len() == orig.len(),
            forall|k: int| i <= k < orig.len() ==> balls@[k] == orig[k],
            forall|k: int|
                0 <= k < i ==> (#[trigger] balls@[k])@ == ball_advanced_s(orig[k]@, t as int),
            forall|k: int| 0 <= k < i ==> (#[trigger] balls@[k])@.valid(),
        decreases balls@.len() - i,
    {
        let mut b = balls[i];
        proof {
            assert(b == orig[i as int]);
            lemma_balls_v_index(orig, i as int);
        }
        b.update(t);
        balls.set(i, b);
        i = i + 1;
    }
    proof {
        assert forall|k: int| 0 <= k < orig.len() implies balls_v(balls@)[k] == advance_all_s(
            balls_v(orig),
            t as int,
        )[k] && (#[trigger] balls_v(balls@)[k]).valid() by {
            lemma_balls_v_index(balls@, k);
            lemma_balls_v_index(orig, k);
        }
        assert(balls_v(balls@) =~= advance_all_s(balls_v(orig), t as int));
    }
}

/// Every ball decelerated by this frame's friction.
#[verifier::loop_isolation(false)]
fn apply_friction_all(balls: &mut Vec<Poolball>, dt: i64)
    requires
        all_balls_valid_s(balls_v(old(balls)@)),
        fx_ok(dt as int),
    ensures
        balls_v(final(balls)@) == friction_pass_s(balls_v(old(balls)@), dt as int),
        all_balls_valid_s(balls_v(final(balls)@)),
{
    let ghost orig = balls@;
    let mut i: usize = 0;
    while i < balls.len()
        invariant
            i <= balls@.len(),
            balls@.len() == orig.len(),
            forall|k: int| i <= k < orig.len() ==> balls@[k] == orig[k],
            forall|k: int|
                0 <= k < i ==> (#[trigger] balls@[k])@ == ball_accelerated_s(
                    orig[k]@,
                    friction_s(orig[k]@),
                    dt as int,
                ),
            forall|k: int| 0 <= k < i ==> (#[trigger] balls@[k])@.valid(),
        decreases balls@.len() - i,
    {
        let mut b = balls[i];
        proof {
            assert(b == orig[i as int]);
            lemma_balls_v_index(orig, i as int);
        }
        let f = friction(&b);
        b.update_velocity(f, dt);
        balls.set(i, b);
        i = i + 1;
    }
    proof {
        assert forall|k: int| 0 <= k < orig.len() implies balls_v(balls@)[k] == friction_pass_s(
            balls_v(orig),
            dt as int,
        )[k] && (#[trigger] balls_v(balls@)[k]).valid() by {
            lemma_balls_v_index(balls@, k);
            lemma_balls_v_index(orig, k);
        }
        assert(balls_v(balls@) =~= friction_pass_s(balls_v(orig), dt as int));
    }
}

/// Every ball accelerated by this frame's accumulated gravity.
#[verifier::loop_isolation(false)]
fn apply_gravity_all(balls: &mut Vec<Poolball>, blackholes: &Vec<Blackhole>, dt: i64)
    requires
        all_balls_valid_s(balls_v(old(balls)@)),
        all_holes_valid_s(holes_v(blackholes@)),
        fx_ok(dt as int),
    ensures
        balls_v(final(balls)@) == gravity_pass_s(
            balls_v(old(balls)@),
            holes_v(blackholes@),
            dt as int,
        ),
        all_balls_valid_s(balls_v(final(balls)@)),
{
    let ghost orig = balls@;
    proof {
        assert forall|j: int| 0 <= j < blackholes@.len() implies (#[trigger] blackholes@[
            j
        ])@.valid() by {
            lemma_holes_v_index(blackholes@, j);
        }
    }
    let mut i: usize = 0;
    while i < balls.len()
        invariant
            i <= balls@.len(),
            balls@.len() == orig.len(),
            forall|k: int| i <= k < orig.len() ==> balls@[k] == orig[k],
            forall|k: int|
                0 <= k < i ==> (#[trigger] balls@[k])@ == ball_accelerated_s(
                    orig[k]@,
                    calculate_gravity_s(holes_v(blackholes@), orig[k]@),
                    dt as int,
                ),
            forall|k: int| 0 <= k < i ==> (#[trigger] balls@[k])@.valid(),
        decreases balls@.len() - i,
    {
        let mut b = balls[i];
        proof {
            assert(b == orig[i as int]);
            lemma_balls_v_index(orig, i as int);
        }
        let acc = calculate_gravity(blackholes, &b);
        b.update_velocity(acc, dt);
        balls.set(i, b);
        i = i + 1;
    }
    proof {
        assert forall|k: int| 0 <= k < orig.len() implies balls_v(balls@)[k] == gravity_pass_s(
            balls_v(orig),
            holes_v(blackholes@),
            dt as int,
        )[k] && (#[trigger] balls_v(balls@)[k]).valid() by {
            lemma_balls_v_index(balls@, k);
            lemma_balls_v_index(orig, k);
        }
        assert(balls_v(balls@) =~= gravity_pass_s(balls_v(orig), holes_v(blackholes@), dt as int));
    }
}

/// Whether any of the holes captures the ball.
#[verifier::loop_isolation(false)]
fn any_hole_captures(blackholes: &Vec<Blackhole>, b: &Poolball) -> (r: bool)
    requires
        all_holes_valid_s(holes_v(blackholes@)),
        b@.valid(),
    ensures
        r == any_hole_captures_s(holes_v(blackholes@), b@),
{
    let mut i: usize = 0;
    while i < blackholes.len()
        invariant
            i <= blackholes@.len(),
            forall|k: int|
                0 <= k < i ==> !crate::blackhole::spagettified_s(
                    #[trigger] holes_v(blackholes@)[k],
                    b@,
                ),
        decreases blackholes@.len() - i,
    {
        proof {
            lemma_holes_v_index(blackholes@, i as int);
        }
        if blackholes[i].is_spagettified(b) {
            return true;
        }
        i = i + 1;
    }
    false
}

/// Whether any of the zones holes the ball.
#[verifier::loop_isolation(false)]
fn any_zone_holed(goalzones: &Vec<Goalzone>, b: &Poolball) -> (r: bool)
    requires
        all_zones_valid_s(zones_v(goalzones@)),
        b@.valid(),
    ensures
        r == any_zone_holed_s(zones_v(goalzones@), b@),
{
    let mut i: usize = 0;
    while i < goalzones.len()
        invariant
            i <= goalzones@.len(),
            forall|k: int|
                0 <= k < i ==> !crate::goalzone::reached_goal_s(
                    #[trigger] zones_v(goalzones@)[k],
                    b@,
                ),
        decreases goalzones@.len() - i,
    {
        proof {
            lemma_zones_v_index(goalzones@, i as int);
        }
        if goalzones[i].reached_goal(b) {
            return true;
        }
        i = i + 1;
    }
    false
}

/// Remove every ball captured by a blackhole, keeping order.
#[verifier::loop_isolation(false)]
fn remove_captured(balls: &mut Vec<Poolball>, blackholes: &Vec<Blackhole>)
    requires
        all_balls_valid_s(balls_v(old(balls)@)),
        all_holes_valid_s(holes_v(blackholes@)),
    ensures
        balls_v(final(balls)@) == hole_filter_upto_s(
            balls_v(old(balls)@),
            holes_v(blackholes@),
            old(balls)@.len() as int,
        ),
        all_balls_valid_s(balls_v(final(balls)@)),
{
    let ghost orig = balls@;
    let mut kept: Vec<Poolball> = Vec::new();
    let mut i: usize = 0;
    while i < balls.len()
        invariant
            i <= balls@.len(),
            balls@ == orig,
            balls_v(kept@) == hole_filter_upto_s(balls_v(orig), holes_v(blackholes@), i as int),
            all_balls_valid_s(balls_v(kept@)),
        decreases balls@.len() - i,
    {
        let b = balls[i];
        proof {
            lemma_balls_v_index(orig, i as int);
        }
        if !any_hole_captures(blackholes, &b) {
            let ghost prev = balls_v(kept@);
            kept.push(b);
            proof {
                assert forall|k: int| 0 <= k < prev.len() + 1 implies balls_v(kept@)[k]
                    == prev.push(b@)[k] by {
                    lemma_balls_v_index(kept@, k);
                }
                assert(balls_v(kept@) =~= prev.push(b@));
            }
        }
        i = i + 1;
    }
    *balls = kept;
}

/// Remove every holed ball and add its value to the score (saturated).
#[verifier::loop_isolation(false)]
fn score_goals(balls: &mut Vec<Poolball>, goalzones: &Vec<Goalzone>, score: &mut i64)
    requires
        all_balls_valid_s(balls_v(old(balls)@)),
        all_zones_valid_s(zones_v(goalzones@)),
        fx_ok(*old(score) as int),
    ensures
        ({
            let gp = goal_pass_upto_s(
                balls_v(old(balls)@),
                zones_v(goalzones@),
                *old(score) as int,
                old(balls)@.len() as int,
            );
            balls_v(final(balls)@) == gp.0 && *final(score) as int == gp.1
        }),
        all_balls_valid_s(balls_v(final(balls)@)),
        fx_ok(*final(score) as int),
{
    let ghost orig = balls@;
    let ghost score0 = *score as int;
    let mut kept: Vec<Poolball> = Vec::new();
    let mut i: usize = 0;
    while i < balls.len()
        invariant
            i <= balls@.len(),
            balls@ == orig,
            balls_v(kept@) == goal_pass_upto_s(
                balls_v(orig),
                zones_v(goalzones@),
                score0,
                i as int,
            ).0,
            *score as int == goal_pass_upto_s(balls_v(orig), zones_v(goalzones@), score0, i as int).1,
            all_balls_valid_s(balls_v(kept@)),
            fx_ok(*score as int),
        decreases balls@.len() - i,
    {
        let b = balls[i];
        proof {
            lemma_balls_v_index(orig, i as int);
        }
        if any_zone_holed(goalzones, &b) {
            let v = b.get_value();
            *score = fx_add(*score, v as i64);
        } else {
            let ghost prev = balls_v(kept@);
            kept.push(b);
            proof {
                assert forall|k: int| 0 <= k < prev.len() + 1 implies balls_v(kept@)[k]
                    == prev.push(b@)[k] by {
                    lemma_balls_v_index(kept@, k);
                }
                assert(balls_v(kept@) =~= prev.push(b@));
            }
        }
        i = i + 1;
    }
    *balls = kept;
}

/// Returns the earliest collision event over all balls: every ball's wall
/// time and every unordered pair's collision time, ties broken by scan
/// order. `None` when no collision will ever occur.
#[verifier::loop_isolation(false)]
fn first_collision(balls: &Vec<Poolball>) -> (r: Option<CollisionPair>)
    requires
        all_balls_valid_s(balls_v(balls@)),
    ensures
        cp_view(r) == scan_s(balls_v(balls@)),
        cp_wf(balls@.len() as int, r),
{
    let ghost bm = balls_v(balls@);
    let mut best: Option<CollisionPair> = None;
    let mut i: usize = 0;
    while i < balls.len()
        invariant
            i <= bm.len(),
            cp_wf(bm.len() as int, best),
            scan_from_s(bm, i as int, cp_view(best)) == scan_s(bm),
        decreases bm.len() - i,
    {
        proof {
            lemma_balls_v_index(balls@, i as int);
        }
        let time_wall = time_to_wall_collision(&balls[i]);
        proof {
            assert(match wall_time_s(bm[i as int]) {
                Some(t) => t >= 0,
                None => true,
            });
        }
        best = consider(best, i, None, time_wall, Ghost(bm.len() as int));
        let mut j: usize = i + 1;
        while j < balls.len()
            invariant
                i < bm.len(),
                i + 1 <= j <= bm.len(),
                cp_wf(bm.len() as int, best),
                scan_from_s(bm, i + 1, scan_pairs_s(bm, i as int, j as int, cp_view(best)))
                    == scan_s(bm),
            decreases bm.len() - j,
        {
            proof {
                lemma_balls_v_index(balls@, i as int);
                lemma_balls_v_index(balls@, j as int);
            }
            let time_ball = time_to_ball_ball_collision(&balls[i], &balls[j]);
            proof {
                crate::physics::lemma_pair_time_exists_iff_collision_course(
                    bm[i as int],
                    bm[j as int],
                );
            }
            best = consider(best, i, Some(j), time_ball, Ghost(bm.len() as int));
            j = j + 1;
        }
        i = i + 1;
    }
    best
}

/// Resolve one scheduled event in place: a wall bounce for a single ball,
/// or the elastic pair resolution for both involved balls.
fn resolve_collision(balls: &mut Vec<Poolball>, e: CollisionPair)
    requires
        all_balls_valid_s(balls_v(old(balls)@)),
        cp_wf(old(balls)@.len() as int, Some(e)),
    ensures
        balls_v(final(balls)@) == resolve_event_s(balls_v(old(balls)@), cp_view(Some(e))->Some_0),
        all_balls_valid_s(balls_v(final(balls)@)),
        final(balls)@.len() == old(balls)@.len(),
{
    let ghost araw = balls@;
    let ghost am = balls_v(araw);
    let ghost em = cp_view(Some(e))->Some_0;
    match e.second {
        None => {
            let mut b = balls[e.first];
            proof {
                lemma_balls_v_index(araw, e.first as int);
            }
            ball_wall_collision(&mut b);
            balls.set(e.first, b);
            proof {
                assert forall|k: int| 0 <= k < am.len() implies balls_v(balls@)[k]
                    == resolve_event_s(am, em)[k] && (#[trigger] balls_v(balls@)[k]).valid() by {
                    lemma_balls_v_index(balls@, k);
                    lemma_balls_v_index(araw, k);
                }
                assert(balls_v(balls@) =~= resolve_event_s(am, em));
            }
        },
        Some(j) => {
            let mut b1 = balls[e.first];
            let mut b2 = balls[j];
            proof {
                lemma_balls_v_index(araw, e.first as int);
                lemma_balls_v_index(araw, j as int);
            }
            ball_ball_collision(&mut b1, &mut b2);
            balls.set(e.first, b1);
            balls.set(j, b2);
            proof {
                assert forall|k: int| 0 <= k < am.len() implies balls_v(balls@)[k]
                    == resolve_event_s(am, em)[k] && (#[trigger] balls_v(balls@)[k]).valid() by {
                    lemma_balls_v_index(balls@, k);
                    lemma_balls_v_index(araw, k);
                }
                assert(balls_v(balls@) =~= resolve_event_s(am, em));
            }
        },
    }
}

/// The event-ordered micro-step loop of one frame: resolve events in time
/// order until the budget is spent or the step cap is reached; in either
/// case every ball ends advanced through the whole remaining budget.
/// Returns the number of resolved events and whether the cap was hit.
#[verifier::loop_isolation(false)]
fn run_micro_steps(balls: &mut Vec<Poolball>, dt: i64) -> (r: (u32, bool))
    requires
        all_balls_valid_s(balls_v(old(balls)@)),
        0 < dt <= FX_MAX,
    ensures
        balls_v(final(balls)@) == micro_s(balls_v(old(balls)@), dt as int, STEP_CAP as nat).0,
        r.0 as nat == micro_s(balls_v(old(balls)@), dt as int, STEP_CAP as nat).1,
        r.1 == micro_s(balls_v(old(balls)@), dt as int, STEP_CAP as nat).2,
        all_balls_valid_s(balls_v(final(balls)@)),
{
    let ghost target = micro_s(balls_v(old(balls)@), dt as int, STEP_CAP as nat);
    let mut remaining: i64 = dt;
    let mut steps: u32 = 0;
    let mut cap_hit = false;
    let mut done = false;
    while !done
        invariant
            all_balls_valid_s(balls_v(balls@)),
            steps <= STEP_CAP,
            !done ==> {
                &&& 0 < remaining <= FX_MAX
                &&& !cap_hit
                &&& ({
                    let cur = micro_s(
                        balls_v(balls@),
                        remaining as int,
                        (STEP_CAP - steps) as nat,
                    );
                    target.0 == cur.0 && target.1 == steps + cur.1 && target.2 == cur.2
                })
            },
            done ==> {
                &&& balls_v(balls@) == target.0
                &&& target.1 == steps as nat
                &&& target.2 == cap_hit
            },
        decreases STEP_CAP - steps + (if done { 0int } else { 1int }),
    {
        let ghost bm = balls_v(balls@);
        let ghost fuel = (STEP_CAP - steps) as nat;
        let ev = first_collision(balls);
        let due = match ev {
            Some(e) => e.time < remaining,
            None => false,
        };
        if due {
            let e = ev.unwrap();
            if steps == STEP_CAP {
                // Cap reached: spend the remaining budget and report it.
                cap_hit = true;
                advance_all(balls, remaining);
                done = true;
                proof {
                    assert(micro_s(bm, remaining as int, 0nat) == (
                        advance_all_s(bm, remaining as int),
                        0nat,
                        true,
                    ));
                }
            } else {
                advance_all(balls, e.time);
                resolve_collision(balls, e);
                remaining = remaining - e.time;
                steps = steps + 1;
                proof {
                    let em = cp_view(Some(e))->Some_0;
                    let stepped = resolve_event_s(advance_all_s(bm, em.time), em);
                    assert(balls_v(balls@) == stepped);
                    let rest = micro_s(stepped, remaining as int, (fuel - 1) as nat);
                    assert(micro_s(bm, remaining as int + em.time, fuel) == (
                        rest.0,
                        rest.1 + 1nat,
                        rest.2,
                    ));
                }
            }
        } else {
            // No event inside the budget: spend it in one advance.
            advance_all(balls, remaining);
            done = true;
            proof {
                assert(micro_s(bm, remaining as int, fuel) == (
                    advance_all_s(bm, remaining as int),
                    0nat,
                    false,
                ));
            }
        }
    }
    (steps, cap_hit)
}

impl Game {
    /// Creates a new game with the given entities, a zero score, running.
    pub fn new(balls: Vec<Poolball>, blackholes: Vec<Blackhole>, goalzones: Vec<Goalzone>) -> (r:
        Game)
        requires
            all_balls_valid_s(balls_v(balls@)),
            all_holes_valid_s(holes_v(blackholes@)),
            all_zones_valid_s(zones_v(goalzones@)),
        ensures
            r@ == (GameModel {
                balls: balls_v(balls@),
                blackholes: holes_v(blackholes@),
                goalzones: zones_v(goalzones@),
                score: 0,
                game_over: false,
            }),
            r@.valid(),
    {
        Game { balls, blackholes, goalzones, score: 0, game_over: false }
    }

    /// Returns the earliest collision event over all balls: every ball's
    /// wall time and every unordered pair's collision time, ties broken by
    /// scan order. `None` when no collision will ever occur.
    pub fn get_first_collision_pair(&self) -> (r: Option<CollisionPair>)
        requires
            self@.valid(),
        ensures
            cp_view(r) == scan_s(self@.balls),
            cp_wf(self@.balls.len() as int, r),
    {
        first_collision(&self.balls)
    }

    /// Advances the simulation by one frame of `dt`: resolves every
    /// collision inside the budget in time order (capped at [`STEP_CAP`]
    /// micro-steps), then applies friction, gravity, blackhole captures,
    /// goal scoring and the cue-ball lifecycle. A finished match stays
    /// exactly as it is; the outcome says whether the match is over.
    #[verifier::loop_isolation(false)]
    pub fn update(&mut self, dt: i64) -> (r: FrameReport)
        requires
            old(self)@.valid(),
            0 < dt <= FX_MAX,
        ensures
            final(self)@ == update_s(old(self)@, dt as int).0,
            r.micro_steps as nat == update_s(old(self)@, dt as int).1,
            r.step_cap_hit == update_s(old(self)@, dt as int).2,
            r.outcome == UpdateOutcome::GameOver <==> final(self)@.game_over,
            final(self)@.game_over <==> (!has_white_s(final(self)@.balls) && final(self)@.score
                <= 0),
            old(self)@.game_over ==> final(self)@ == old(self)@,
            final(self)@.valid(),
    {
        let ghost g0 = self@;
        if self.game_over {
            return FrameReport {
                outcome: UpdateOutcome::GameOver,
                micro_steps: 0,
                step_cap_hit: false,
            };
        }
        // Micro-step loop: resolve events in time order until the budget is
        // spent or the cap is reached.
        let (steps, cap_hit) = run_micro_steps(&mut self.balls, dt);

        // Post-step passes, once per frame.
        apply_friction_all(&mut self.balls, dt);
        apply_gravity_all(&mut self.balls, &self.blackholes, dt);
        remove_captured(&mut self.balls, &self.blackholes);
        score_goals(&mut self.balls, &self.goalzones, &mut self.score);

        // Cue-ball lifecycle: respawn on a positive score, else game over.
        let ghost before_lc = balls_v(self.balls@);
        let pos = white_ball_position(&self.balls);
        match pos {
            None => {
                if self.score > 0 {
                    let white = Poolball::new(
                        Vec2::new(WHITE_SPAWN_X, WHITE_SPAWN_Y),
                        BallType::White,
                    );
                    self.balls.push(white);
                    proof {
                        assert forall|k: int| 0 <= k < before_lc.len() + 1 implies balls_v(
                            self.balls@,
                        )[k] == before_lc.push(white_spawn_s())[k] by {
                            lemma_balls_v_index(self.balls@, k);
                        }
                        assert(balls_v(self.balls@) =~= before_lc.push(white_spawn_s()));
                        assert(balls_v(self.balls@)[before_lc.len() as int].ball_type
                            == BallType::White);
                        assert(has_white_s(balls_v(self.balls@)));
                    }
                } else {
                    self.game_over = true;
                }
            },
            Some(i) => {
                proof {
                    lemma_balls_v_index(self.balls@, i as int);
                    assert(has_white_s(balls_v(self.balls@)));
                }
            },
        }

        let outcome = if self.game_over {
            UpdateOutcome::GameOver
        } else {
            UpdateOutcome::Running
        };
        FrameReport { outcome, micro_steps: steps, step_cap_hit: cap_hit }
    }

    /// Read-only snapshot of the balls in play.
    pub fn balls(&self) -> (r: &Vec<Poolball>)
        ensures
            balls_v(r@) == self@.balls,
    {
        &self.balls
    }

    /// Read-only snapshot of the blackholes.
    pub fn blackholes(&self) -> (r: &Vec<Blackhole>)
        ensures
            holes_v(r@) == self@.blackholes,
    {
        &self.blackholes
    }

    /// Read-only snapshot of the goalzones.
    pub fn goalzones(&self) -> (r: &Vec<Goalzone>)
        ensures
            zones_v(r@) == self@.goalzones,
    {
        &self.goalzones
    }

    /// The current score.
    pub fn score(&self) -> (r: i64)
        ensures
            r as int == self@.score,
    {
        self.score
    }

    /// Whether the match has reached its terminal state.
    pub fn is_game_over(&self) -> (r: bool)
        ensures
            r == self@.game_over,
    {
        self.game_over
    }
}

} // verus!
