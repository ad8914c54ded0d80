//! Collision mathematics and force accumulation: time-to-wall and
//! time-to-pair continuous collision detection, the elastic resolvers, the
//! friction law and gravity from blackholes.
//!
//! Every function mirrors an exact spec function over the fixed-point model;
//! a collision time of `None` stands for "will not occur" (the infinity
//! sentinel). Degenerate numeric cases (zero velocity, coincident centers)
//! are guarded and yield sentinels, never failures.

use crate::blackhole::{Blackhole, HoleModel};
use crate::math::{
    clip, dot_s, fadd_s, fdiv_s, fmul_s, fsqrt_s, fsub_s, fx_add, fx_clip, fx_div, fx_mul,
    fx_ok, fx_sqrt, fx_sub, lemma_mag_pos, mag_s, sabs, vadd_s, vnorm_s, vscale_s, vsub_s,
    vzero_s, Vec2, Vec2Model, FX_MAX, SCALE,
};
use crate::poolball::{BallModel, Poolball};
use vstd::prelude::*;

verus! {

/// Friction deceleration magnitude applied once per frame (0.01).
pub const FRICTION: i64 = 10_000;

/// View of an executable collision time as a model time.
pub open spec fn opt_time_v(o: Option<i64>) -> Option<int> {
    match o {
        None => None,
        Some(t) => Some(t as int),
    }
}

/// Gravity acceleration from an attractor of the given mass at the given
/// distance (inverse-square law with unit gravity constant); 0 at distance
/// so small that its fixed-point square vanishes (the degenerate guard).
pub open spec fn gravity_acc_s(mass: int, distance: int) -> int {
    fdiv_s(mass, fmul_s(distance, distance))
}

/// Pull of one blackhole on one ball: inverse-square attraction along the
/// direction to the hole, zero at or beyond the hole's reach.
pub open spec fn hole_pull_s(h: HoleModel, b: BallModel) -> Vec2Model {
    let diff = vsub_s(h.position, b.position);
    let d = mag_s(diff);
    if d < h.reach {
        vscale_s(vnorm_s(diff), gravity_acc_s(h.mass, d))
    } else {
        vzero_s()
    }
}

/// Sum of the pulls of the first `n` holes, accumulated in order.
pub open spec fn grav_upto_s(holes: Seq<HoleModel>, b: BallModel, n: int) -> Vec2Model
    decreases n,
{
    if n <= 0 {
        vzero_s()
    } else {
        vadd_s(grav_upto_s(holes, b, n - 1), hole_pull_s(holes[n - 1], b))
    }
}

/// Total gravity acceleration on a ball from a set of holes.
pub open spec fn calculate_gravity_s(holes: Seq<HoleModel>, b: BallModel) -> Vec2Model {
    grav_upto_s(holes, b, holes.len() as int)
}

/// Model view of a vector of blackholes.
pub open spec fn holes_v(s: Seq<Blackhole>) -> Seq<HoleModel> {
    s.map_values(|h: Blackhole| h@)
}

/// Friction acceleration: a fixed magnitude opposing the direction of
/// motion; zero for a stationary ball.
pub open spec fn friction_s(b: BallModel) -> Vec2Model {
    if b.velocity == vzero_s() {
        vzero_s()
    } else {
        vscale_s(vnorm_s(b.velocity), -(FRICTION as int))
    }
}

/// The wall on an axis sits at 1 when moving in the positive direction (or
/// standing still, the sign convention of `signum` on zero), else at 0.
pub open spec fn wall_coord_s(v: int) -> int {
    if v >= 0 {
        SCALE as int
    } else {
        0
    }
}

/// Distance along one axis from the ball's surface to the wall it moves
/// toward (negative when the ball overlaps that wall).
pub open spec fn wall_dist_s(p: int, v: int, r: int) -> int {
    fsub_s(clip(sabs(p - wall_coord_s(v))), r)
}

/// Time to reach the wall on one axis; `None` when the axis velocity is zero
/// (that axis never constrains — the division guard of the design).
pub open spec fn axis_time_s(p: int, v: int, r: int) -> Option<int> {
    if v == 0 {
        None
    } else {
        Some(fdiv_s(wall_dist_s(p, v, r), sabs(v)))
    }
}

/// Earlier of two optional times (`None` is infinity).
pub open spec fn opt_min_s(a: Option<int>, b: Option<int>) -> Option<int> {
    match (a, b) {
        (Some(x), Some(y)) => if y < x {
            Some(y)
        } else {
            Some(x)
        },
        (Some(x), None) => Some(x),
        (None, y) => y,
    }
}

/// Time until the ball hits the nearest arena wall, clamped to be
/// non-negative; `None` when the ball is at rest.
pub open spec fn wall_time_s(b: BallModel) -> Option<int> {
    match opt_min_s(
        axis_time_s(b.position.x, b.velocity.x, b.radius),
        axis_time_s(b.position.y, b.velocity.y, b.radius),
    ) {
        None => None,
        Some(t) => Some(if t < 0 {
            0
        } else {
            t
        }),
    }
}

/// The ball after bouncing off the nearer wall: the velocity component on
/// that axis is negated, the other axis is untouched (restitution 1); an
/// exact tie between the two wall distances goes to the x axis.
pub open spec fn wall_resolve_s(b: BallModel) -> BallModel {
    let hd = sabs(wall_dist_s(b.position.x, b.velocity.x, b.radius));
    let vd = sabs(wall_dist_s(b.position.y, b.velocity.y, b.radius));
    if hd <= vd {
        BallModel { velocity: Vec2Model { x: -b.velocity.x, y: b.velocity.y }, ..b }
    } else {
        BallModel { velocity: Vec2Model { x: b.velocity.x, y: -b.velocity.y }, ..b }
    }
}

/// Relative velocity of `a` as seen from `b`.
pub open spec fn rel_velocity_s(a: BallModel, b: BallModel) -> Vec2Model {
    vsub_s(a.velocity, b.velocity)
}

/// Projection of the relative motion direction onto the separation of the
/// two balls; positive exactly when `a` approaches `b`.
pub open spec fn approach_dot_s(a: BallModel, b: BallModel) -> int {
    dot_s(vsub_s(b.position, a.position), vnorm_s(rel_velocity_s(a, b)))
}

/// Whether `a` moves toward `b` at all.
pub open spec fn approaching_s(a: BallModel, b: BallModel) -> bool {
    rel_velocity_s(a, b) != vzero_s() && approach_dot_s(a, b) > 0
}

/// Squared perpendicular miss distance of the relative trajectory.
pub open spec fn miss_sq_s(a: BallModel, b: BallModel) -> int {
    let dir = vsub_s(b.position, a.position);
    let len = mag_s(dir);
    let dp = approach_dot_s(a, b);
    fsub_s(fmul_s(len, len), fmul_s(dp, dp))
}

/// Squared contact distance of the two balls.
pub open spec fn sum_radii_sq_s(a: BallModel, b: BallModel) -> int {
    let sum = fadd_s(a.radius, b.radius);
    fmul_s(sum, sum)
}

/// The pair is on a collision course: approaching, the closest approach is
/// within contact distance, and the discriminant is non-negative.
pub open spec fn collision_course_s(a: BallModel, b: BallModel) -> bool {
    &&& approaching_s(a, b)
    &&& miss_sq_s(a, b) <= sum_radii_sq_s(a, b)
    &&& fsub_s(sum_radii_sq_s(a, b), miss_sq_s(a, b)) >= 0
}

/// Time until the two balls first touch; `None` (infinity) when the pair is
/// not approaching, when the relative velocity is zero, or when the closest
/// approach misses; clamped at 0 defensively.
pub open spec fn pair_time_s(a: BallModel, b: BallModel) -> Option<int> {
    let mv = rel_velocity_s(a, b);
    if mv == vzero_s() {
        None
    } else if approach_dot_s(a, b) <= 0 {
        None
    } else if miss_sq_s(a, b) > sum_radii_sq_s(a, b) {
        None
    } else {
        let t = fsub_s(sum_radii_sq_s(a, b), miss_sq_s(a, b));
        if t < 0 {
            None
        } else {
            let travel = fsub_s(approach_dot_s(a, b), fsqrt_s(t));
            let tt = fdiv_s(travel, mag_s(mv));
            Some(
                if tt < 0 {
                    0
                } else {
                    tt
                },
            )
        }
    }
}

/// New velocities of an elastic pair collision: the impulse acts along the
/// contact normal, each ball's change scaled by its own mass over the summed
/// mass, exactly as the resolver computes it. Coincident centers (no
/// normal) leave both velocities unchanged — the degenerate guard.
pub open spec fn pair_resolve_s(a: BallModel, b: BallModel) -> (Vec2Model, Vec2Model) {
    let n0 = vsub_s(a.position, b.position);
    if mag_s(n0) == 0 {
        (a.velocity, b.velocity)
    } else {
        let n = vnorm_s(n0);
        let a1 = dot_s(a.velocity, n);
        let a2 = dot_s(b.velocity, n);
        let diff = fsub_s(a1, a2);
        let p = fdiv_s(fadd_s(diff, diff), fadd_s(a.mass, b.mass));
        let da = vscale_s(n, fmul_s(p, a.mass));
        let db = vscale_s(n, fmul_s(p, b.mass));
        (vsub_s(a.velocity, da), vadd_s(b.velocity, db))
    }
}

/// Gravity acceleration from an object with the given mass at the given
/// distance.
pub fn gravity_acc(mass: i64, distance: i64) -> (r: i64)
    requires
        fx_ok(mass as int),
        fx_ok(distance as int),
    ensures
        r as int == gravity_acc_s(mass as int, distance as int),
        fx_ok(r as int),
{
    let dd = fx_mul(distance, distance);
    if dd == 0 {
        0
    } else {
        fx_div(mass, dd)
    }
}

/// Calculates the acceleration acting upon the ball from the given black
/// holes: every hole strictly within reach contributes an inverse-square
/// pull toward it, accumulated in order.
#[verifier::loop_isolation(false)]
pub fn calculate_gravity(blackholes: &Vec<Blackhole>, ball: &Poolball) -> (r: Vec2)
    requires
        forall|i: int| 0 <= i < blackholes@.len() ==> (#[trigger] blackholes@[i])@.valid(),
        ball@.valid(),
    ensures
        r@ == calculate_gravity_s(holes_v(blackholes@), ball@),
        r@.ok(),
{
    let mut result = Vec2::new(0, 0);
    let mut i: usize = 0;
    while i < blackholes.len()
        invariant
            i <= blackholes@.len(),
            result@ == grav_upto_s(holes_v(blackholes@), ball@, i as int),
            result@.ok(),
        decreases blackholes@.len() - i,
    {
        let hole = &blackholes[i];
        let diff = hole.position.sub(ball.position);
        let distance = crate::math::calc_magnitude(diff);
        if distance < hole.reach {
            let acc = gravity_acc(hole.mass, distance);
            let contribution = diff.normalize().scale(acc);
            result = result.add(contribution);
        } else {
            proof {
                assert(vadd_s(result@, vzero_s()) == result@);
            }
        }
        i = i + 1;
    }
    result
}

/// Calculates the direction and size of the friction acceleration on the
/// given ball.
pub fn friction(poolball: &Poolball) -> (r: Vec2)
    requires
        poolball@.valid(),
    ensures
        r@ == friction_s(poolball@),
        r@.ok(),
{
    if poolball.velocity.is_zero() {
        Vec2::new(0, 0)
    } else {
        poolball.velocity.normalize().scale(-FRICTION)
    }
}

/// Calculates the new velocities for two colliding balls (elastic impact
/// along the contact normal). Positions are untouched: the stepper has
/// already advanced both balls to the contact instant.
pub fn ball_ball_collision(ball1: &mut Poolball, ball2: &mut Poolball)
    requires
        old(ball1)@.valid(),
        old(ball2)@.valid(),
    ensures
        final(ball1)@ == (BallModel {
            velocity: pair_resolve_s(old(ball1)@, old(ball2)@).0,
            ..old(ball1)@
        }),
        final(ball2)@ == (BallModel {
            velocity: pair_resolve_s(old(ball1)@, old(ball2)@).1,
            ..old(ball2)@
        }),
        final(ball1)@.valid(),
        final(ball2)@.valid(),
{
    let n0 = ball1.position.sub(ball2.position);
    let m = crate::math::calc_magnitude(n0);
    if m == 0 {
        return ;
    }
    let n = n0.normalize();
    let a1 = ball1.velocity.dot(n);
    let a2 = ball2.velocity.dot(n);
    let diff = fx_sub(a1, a2);
    let msum = fx_add(ball1.mass, ball2.mass);
    assert(msum >= 2);
    let optimized_p = fx_div(fx_add(diff, diff), msum);
    let da = n.scale(fx_mul(optimized_p, ball1.mass));
    let db = n.scale(fx_mul(optimized_p, ball2.mass));
    let new_v1 = ball1.velocity.sub(da);
    let new_v2 = ball2.velocity.add(db);
    ball1.velocity = new_v1;
    ball2.velocity = new_v2;
}

/// Checks when the given balls will first touch, `None` meaning never
/// within any horizon.
pub fn time_to_ball_ball_collision(a: &Poolball, b: &Poolball) -> (r: Option<i64>)
    requires
        a@.valid(),
        b@.valid(),
    ensures
        opt_time_v(r) == pair_time_s(a@, b@),
{
    let move_vec = a.velocity.sub(b.velocity);
    if move_vec.is_zero() {
        return None;
    }
    let normalized_vector = move_vec.normalize();
    let direction_between = b.position.sub(a.position);
    let dot_product = direction_between.dot(normalized_vector);
    if dot_product <= 0 {
        return None;
    }
    let length_c = crate::math::calc_magnitude(direction_between);
    let f = fx_sub(fx_mul(length_c, length_c), fx_mul(dot_product, dot_product));
    let sum_radii = fx_add(a.radius, b.radius);
    let sum_radii_squared = fx_mul(sum_radii, sum_radii);
    if f > sum_radii_squared {
        return None;
    }
    let t = fx_sub(sum_radii_squared, f);
    if t < 0 {
        return None;
    }
    let movement_distance = fx_sub(dot_product, fx_sqrt(t));
    proof {
        lemma_mag_pos(move_vec@);
    }
    let move_vec_magnitude = crate::math::calc_magnitude(move_vec);
    let tt = fx_div(movement_distance, move_vec_magnitude);
    if tt < 0 {
        Some(0)
    } else {
        Some(tt)
    }
}

/// Return the time to impact with a wall given the current velocity on one
/// axis; `None` when that axis velocity is zero.
fn axis_wall_time(p: i64, v: i64, r: i64) -> (t: Option<i64>)
    requires
        fx_ok(p as int),
        fx_ok(v as int),
        1 <= r <= FX_MAX,
    ensures
        opt_time_v(t) == axis_time_s(p as int, v as int, r as int),
{
    if v == 0 {
        return None;
    }
    let wall: i64 = if v >= 0 {
        SCALE
    } else {
        0
    };
    let wd = (p as i128) - (wall as i128);
    let ad = fx_clip(if wd < 0 {
        -wd
    } else {
        wd
    });
    let dist = fx_sub(ad, r);
    let av: i64 = if v < 0 {
        -v
    } else {
        v
    };
    Some(fx_div(dist, av))
}

/// Return the time to impact with the nearest wall given the current
/// velocity; `None` when the ball is at rest.
pub fn time_to_wall_collision(ball: &Poolball) -> (r: Option<i64>)
    requires
        ball@.valid(),
    ensures
        opt_time_v(r) == wall_time_s(ball@),
{
    let tx = axis_wall_time(ball.position.x, ball.velocity.x, ball.radius);
    let ty = axis_wall_time(ball.position.y, ball.velocity.y, ball.radius);
    let m = match (tx, ty) {
        (Some(x), Some(y)) => Some(
            if y < x {
                y
            } else {
                x
            },
        ),
        (Some(x), None) => Some(x),
        (None, y) => y,
    };
    match m {
        None => None,
        Some(t) => Some(
            if t < 0 {
                0
            } else {
                t
            },
        ),
    }
}

/// Recalculates the velocity of a ball that has hit a wall: the component
/// toward the nearer wall is negated.
pub fn ball_wall_collision(ball: &mut Poolball)
    requires
        old(ball)@.valid(),
    ensures
        final(ball)@ == wall_resolve_s(old(ball)@),
        final(ball)@.valid(),
{
    let hwall: i64 = if ball.velocity.x >= 0 {
        SCALE
    } else {
        0
    };
    let vwall: i64 = if ball.velocity.y >= 0 {
        SCALE
    } else {
        0
    };
    let hd0 = (ball.position.x as i128) - (hwall as i128);
    let vd0 = (ball.position.y as i128) - (vwall as i128);
    let hd1 = fx_sub(
        fx_clip(
            if hd0 < 0 {
                -hd0
            } else {
                hd0
            },
        ),
        ball.radius,
    );
    let vd1 = fx_sub(
        fx_clip(
            if vd0 < 0 {
                -vd0
            } else {
                vd0
            },
        ),
        ball.radius,
    );
    let horizontal_distance_to_wall: i64 = if hd1 < 0 {
        -hd1
    } else {
        hd1
    };
    let vertical_distance_to_wall: i64 = if vd1 < 0 {
        -vd1
    } else {
        vd1
    };
    let mut tmp = ball.velocity;
    if horizontal_distance_to_wall <= vertical_distance_to_wall {
        tmp.x = -tmp.x;
    } else {
        tmp.y = -tmp.y;
    }
    let t = tmp;
    ball.set_velocity(t);
}

/// A pair that is not approaching — zero relative velocity or a
/// non-positive approach projection — never collides: its collision time is
/// the infinity sentinel.
pub proof fn lemma_pair_time_non_approaching(a: BallModel, b: BallModel)
    requires
        a.valid(),
        b.valid(),
        !approaching_s(a, b),
    ensures
        pair_time_s(a, b) == None::<int>,
{
}

/// A collision time is always `Some` exactly on a collision course, and is
/// then non-negative (the clamped result of the quadratic).
pub proof fn lemma_pair_time_exists_iff_collision_course(a: BallModel, b: BallModel)
    requires
        a.valid(),
        b.valid(),
    ensures
        pair_time_s(a, b) is Some <==> collision_course_s(a, b),
        pair_time_s(a, b) is Some ==> pair_time_s(a, b)->Some_0 >= 0,
{
}

/// A wall bounce negates exactly one velocity axis, leaves the other axis
/// unchanged, and preserves the speed magnitude, the position, the radius
/// and the mass.
pub proof fn lemma_wall_collision_negates_one_axis(b: BallModel)
    requires
        b.valid(),
    ensures
        ({
            let r = wall_resolve_s(b);
            &&& (r.velocity.x == -b.velocity.x && r.velocity.y == b.velocity.y) || (
            r.velocity.x == b.velocity.x && r.velocity.y == -b.velocity.y)
            &&& mag_s(r.velocity) == mag_s(b.velocity)
            &&& r.position == b.position
            &&& r.radius == b.radius
            &&& r.mass == b.mass
            &&& r.ball_type == b.ball_type
        }),
{
    let r = wall_resolve_s(b);
    assert((-b.velocity.x) * (-b.velocity.x) == b.velocity.x * b.velocity.x) by (nonlinear_arith);
    assert((-b.velocity.y) * (-b.velocity.y) == b.velocity.y * b.velocity.y) by (nonlinear_arith);
}

/// Velocity-component bound under which the pair resolver provably never
/// saturates the final velocity write.
pub const PAIR_VEL_LIMIT: i64 = 100_000_000_000_000_000;

/// Magnitude bound on the impulse applied to either ball by the pair
/// resolver: at most the doubled relative normal speed.
proof fn lemma_pair_impulse_bound(a: BallModel, b: BallModel, lim: int)
    requires
        a.valid(),
        b.valid(),
        0 <= lim,
        sabs(a.velocity.x) <= lim,
        sabs(a.velocity.y) <= lim,
        sabs(b.velocity.x) <= lim,
        sabs(b.velocity.y) <= lim,
        mag_s(vsub_s(a.position, b.position)) != 0,
    ensures
        ({
            let n = vnorm_s(vsub_s(a.position, b.position));
            let a1 = dot_s(a.velocity, n);
            let a2 = dot_s(b.velocity, n);
            let two = fadd_s(fsub_s(a1, a2), fsub_s(a1, a2));
            let p = fdiv_s(two, fadd_s(a.mass, b.mass));
            &&& sabs(fmul_s(p, a.mass)) <= 8 * lim
            &&& sabs(fmul_s(p, b.mass)) <= 8 * lim
        }),
{
    let s = SCALE as int;
    let n0 = vsub_s(a.position, b.position);
    let n = vnorm_s(n0);
    crate::math::lemma_norm_component_bound(n0);
    let a1 = dot_s(a.velocity, n);
    let a2 = dot_s(b.velocity, n);
    crate::math::lemma_dot_s_bound(a.velocity, n, lim, s);
    crate::math::lemma_dot_s_bound(b.velocity, n, lim, s);
    assert((2 * lim * s) / s == 2 * lim) by {
        vstd::arithmetic::div_mod::lemma_div_multiples_vanish(2 * lim, s);
        assert(2 * lim * s == s * (2 * lim)) by (nonlinear_arith);
    }
    let two = fadd_s(fsub_s(a1, a2), fsub_s(a1, a2));
    assert(sabs(two) <= 8 * lim);
    let msum = fadd_s(a.mass, b.mass);
    assert(1 <= msum);
    assert(a.mass <= msum && b.mass <= msum);
    let p = fdiv_s(two, msum);
    let q = (sabs(two) * s) / msum;
    assert(sabs(p) <= q) by {
        assert(sabs(two * s) == sabs(two) * s) by (nonlinear_arith)
            requires
                s == SCALE as int,
        ;
        vstd::arithmetic::div_mod::lemma_div_pos_is_pos(sabs(two) * s, msum);
    }
    assert(q >= 0) by {
        vstd::arithmetic::div_mod::lemma_div_pos_is_pos(sabs(two) * s, msum);
    }
    assert(q * msum <= sabs(two) * s) by {
        vstd::arithmetic::div_mod::lemma_fundamental_div_mod(sabs(two) * s, msum);
        assert(msum * q <= msum * q + (sabs(two) * s) % msum);
        vstd::arithmetic::div_mod::lemma_mod_bound(sabs(two) * s, msum);
        assert(msum * q == q * msum) by (nonlinear_arith);
    }
    assert forall|mm: int| 1 <= mm <= msum implies sabs(fmul_s(p, mm)) <= 8 * lim by {
        assert(sabs(p * mm) <= q * mm) by (nonlinear_arith)
            requires
                sabs(p) <= q,
                0 <= q,
                0 <= mm,
        ;
        assert(q * mm <= q * msum) by (nonlinear_arith)
            requires
                0 <= q,
                mm <= msum,
        ;
        assert(q * msum == msum * q) by (nonlinear_arith);
        vstd::arithmetic::div_mod::lemma_div_is_ordered(sabs(p * mm), sabs(two) * s, s);
        assert((sabs(two) * s) / s == sabs(two)) by {
            vstd::arithmetic::div_mod::lemma_div_multiples_vanish(sabs(two), s);
            assert(sabs(two) * s == s * sabs(two)) by (nonlinear_arith);
        }
    }
}

/// Elastic pair collision conserves total momentum exactly for equal
/// masses: the impulse applied to each ball is then the same, so
/// `m_a * v_a + m_b * v_b` is unchanged on each axis. (The resolver scales
/// each ball's impulse by its own mass, so unequal masses need not
/// conserve.) The velocity bound keeps the saturating arithmetic exact.
pub proof fn lemma_pair_collision_conserves_momentum(a: BallModel, b: BallModel)
    requires
        a.valid(),
        b.valid(),
        a.mass == b.mass,
        sabs(a.velocity.x) <= PAIR_VEL_LIMIT as int,
        sabs(a.velocity.y) <= PAIR_VEL_LIMIT as int,
        sabs(b.velocity.x) <= PAIR_VEL_LIMIT as int,
        sabs(b.velocity.y) <= PAIR_VEL_LIMIT as int,
    ensures
        ({
            let r = pair_resolve_s(a, b);
            &&& a.mass * r.0.x + b.mass * r.1.x == a.mass * a.velocity.x + b.mass * b.velocity.x
            &&& a.mass * r.0.y + b.mass * r.1.y == a.mass * a.velocity.y + b.mass * b.velocity.y
        }),
{
    let lim = PAIR_VEL_LIMIT as int;
    let n0 = vsub_s(a.position, b.position);
    if mag_s(n0) != 0 {
        lemma_pair_impulse_bound(a, b, lim);
        let n = vnorm_s(n0);
        crate::math::lemma_norm_component_bound(n0);
        let a1 = dot_s(a.velocity, n);
        let a2 = dot_s(b.velocity, n);
        let two = fadd_s(fsub_s(a1, a2), fsub_s(a1, a2));
        let p = fdiv_s(two, fadd_s(a.mass, b.mass));
        let pa = fmul_s(p, a.mass);
        let pb = fmul_s(p, b.mass);
        assert(pa == pb);
        let da = vscale_s(n, pa);
        let db = vscale_s(n, pb);
        assert(sabs(da.x) <= 8 * lim && sabs(da.y) <= 8 * lim) by {
            crate::math::lemma_fmul_s_bound(n.x, pa, SCALE as int, 8 * lim);
            crate::math::lemma_fmul_s_bound(n.y, pa, SCALE as int, 8 * lim);
            assert((SCALE as int * (8 * lim)) / (SCALE as int) == 8 * lim) by {
                vstd::arithmetic::div_mod::lemma_div_multiples_vanish(8 * lim, SCALE as int);
            }
        }
        let r = pair_resolve_s(a, b);
        assert(r.0.x == a.velocity.x - da.x && r.0.y == a.velocity.y - da.y);
        assert(r.1.x == b.velocity.x + db.x && r.1.y == b.velocity.y + db.y);
        assert(a.mass * (a.velocity.x - da.x) + b.mass * (b.velocity.x + da.x) == a.mass
            * a.velocity.x + b.mass * b.velocity.x) by (nonlinear_arith)
            requires
                a.mass == b.mass,
        ;
        assert(a.mass * (a.velocity.y - da.y) + b.mass * (b.velocity.y + da.y) == a.mass
            * a.velocity.y + b.mass * b.velocity.y) by (nonlinear_arith)
            requires
                a.mass == b.mass,
        ;
    }
}

/// A hole whose reach does not extend to the ball contributes nothing: if
/// every hole is out of reach, the accumulated gravity is zero.
pub proof fn lemma_gravity_zero_beyond_reach(holes: Seq<HoleModel>, b: BallModel, n: int)
    requires
        0 <= n <= holes.len(),
        forall|i: int|
            0 <= i < holes.len() ==> mag_s(vsub_s((#[trigger] holes[i]).position, b.position))
                >= holes[i].reach,
    ensures
        grav_upto_s(holes, b, n) == vzero_s(),
    decreases n,
{
    if n > 0 {
        lemma_gravity_zero_beyond_reach(holes, b, n - 1);
        assert(hole_pull_s(holes[n - 1], b) == vzero_s());
        assert(vadd_s(vzero_s(), vzero_s()) == vzero_s());
    }
}

} // verus!
