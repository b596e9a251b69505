//! The kinematic state a character carries from one tick to the next, and
//! the movement rules that change its velocity between resolves.
use vstd::prelude::*;
use crate::ground::{is_walkable, walkable, WalkableAngle};
use crate::projection::{
    ground_projection, project_motion_on_ground, project_motion_on_wall, wall_projection,
};
use crate::slide::TIME_SCALE;
use crate::step::{along, along_by};
use crate::sweep::lemma_isqrt_bound;
use crate::vector::{
    dot, is_zero, len_sq, lemma_dot_bound, lemma_len_sq_nonneg, lemma_mul_bound,
    lemma_speed_ok_within, reject_from, speed_ok, tdiv, vadd, valid_normal, within, zero, IVec,
    Vec3,
    NORMAL_LIMIT, SPEED_LIMIT,
};

verus! {

/// A character: its velocity, the normal of the ground it stands on, if any,
/// and its up axis.
#[derive(Clone, Copy, Debug, PartialEq, Eq, Structural)]
pub struct Character {
    pub velocity: Vec3,
    pub ground: Option<Vec3>,
    pub up: Vec3,
}

/// The ground kept after an impulse: none where the impulse leaves the
/// ground's plane, pointing out of it.
pub open spec fn ground_after_launch(ground: Option<Vec3>, impulse: IVec) -> Option<Vec3> {
    match ground {
        Some(n) => if dot(n@, impulse) > 0 {
            None
        } else {
            Some(n)
        },
        None => None,
    }
}

/// The speed of `v` along `up`, rounded toward zero.
pub open spec fn speed_along(v: IVec, up: IVec) -> int {
    tdiv(dot(v, up), crate::slide::isqrt_of(len_sq(up)))
}

/// The impulse of a jump of strength `impulse`: along `up`, and strong
/// enough to cancel any downward speed first.
pub open spec fn jump_impulse(v: IVec, up: IVec, impulse: int) -> IVec {
    let s = speed_along(v, up);
    along(up, impulse - (if s < 0 { s } else { 0 }))
}

impl Character {
    pub open spec fn valid(&self) -> bool {
        &&& speed_ok(self.velocity@)
        &&& valid_normal(self.up@)
        &&& self.ground matches Some(n) ==> within(n@, NORMAL_LIMIT as int)
    }

    /// Adds `impulse` to the velocity, leaving the ground where the impulse
    /// points away from it.
    pub fn launch(&mut self, impulse: Vec3)
        requires
            old(self).valid(),
            within(impulse@, 2 * SPEED_LIMIT as int),
            speed_ok(vadd(old(self).velocity@, impulse@)),
        ensures
            final(self).velocity@ == vadd(old(self).velocity@, impulse@),
            final(self).ground == ground_after_launch(old(self).ground, impulse@),
            final(self).up == old(self).up,
            final(self).valid(),
    {
        if let Some(n) = self.ground {
            if n.dot(&impulse) > 0 {
                self.ground = None;
            }
        }
        proof {
            lemma_speed_ok_within(self.velocity@);
            assert(2 * SPEED_LIMIT as int <= crate::vector::WIDE_LIMIT);
        }
        self.velocity = self.velocity.add(&impulse);
    }

    /// Jumps with strength `impulse` along the up axis, first cancelling any
    /// downward speed.
    pub fn jump(&mut self, impulse: i64)
        requires
            old(self).valid(),
            0 <= impulse <= SPEED_LIMIT,
            speed_ok(
                vadd(old(self).velocity@, jump_impulse(old(self).velocity@, old(self).up@, impulse as int)),
            ),
        ensures
            final(self).velocity@ == vadd(
                old(self).velocity@,
                jump_impulse(old(self).velocity@, old(self).up@, impulse as int),
            ),
            final(self).ground == ground_after_launch(
                old(self).ground,
                jump_impulse(old(self).velocity@, old(self).up@, impulse as int),
            ),
            final(self).up == old(self).up,
    {
        let s = speed_along_up(&self.velocity, &self.up);
        let down: i64 = if s < 0 {
            s
        } else {
            0
        };
        let kick = along_by(&self.up, impulse - down);
        proof {
            lemma_speed_ok_within(self.velocity@);
            lemma_speed_ok_within(vadd(self.velocity@, kick@));
        }
        self.launch(kick);
    }

    /// Whether the character stands on the ground.
    pub fn grounded(&self) -> (r: bool)
        ensures
            r == self.ground is Some,
    {
        self.ground.is_some()
    }
}

impl Default for Character {
    /// At rest, in the air, with `+y` up.
    fn default() -> (r: Self)
        ensures
            r.velocity@ == zero(),
            r.ground is None,
            r.up@ == crate::vector::ivec(0, 1, 0),
    {
        Character { velocity: Vec3::zero(), ground: None, up: Vec3::new(0, 1, 0) }
    }
}

/// The speed of `v` along `up`.
fn speed_along_up(v: &Vec3, up: &Vec3) -> (r: i64)
    requires
        speed_ok(v@),
        valid_normal(up@),
    ensures
        r == speed_along(v@, up@),
        -2 * SPEED_LIMIT <= r <= 2 * SPEED_LIMIT,
{
    let ghost l = NORMAL_LIMIT as int;
    proof {
        lemma_speed_ok_within(v@);
        lemma_dot_bound(up@, up@, l, l);
        lemma_len_sq_nonneg(up@);
        assert(3 * (l * l) == 3_145_728);
    }
    let n = up.len_sq();
    let root = crate::sweep::isqrt(n as u64);
    proof {
        assert(n <= 2048 * 2048);
        lemma_isqrt_bound(root as int, n as int, 2048);
        crate::slide::lemma_isqrt_unique(root as int, n as int);
    }
    let d = v.dot(up);
    proof {
        lemma_dot_bound(v@, up@, SPEED_LIMIT as int, l);
        lemma_speed_bound_along(v@, up@, root as int);
    }
    crate::vector::narrow(crate::vector::div_toward_zero(d, root as i128))
}

/// The speed of a velocity along a direction is below twice the speed
/// limit (the root of `|u|^2` is rounded down).
proof fn lemma_speed_bound_along(v: IVec, u: IVec, len: int)
    requires
        speed_ok(v),
        !is_zero(u),
        crate::sweep::is_isqrt(len, len_sq(u)),
    ensures
        -2 * SPEED_LIMIT <= tdiv(dot(v, u), len) <= 2 * SPEED_LIMIT,
{
    let d = dot(v, u);
    let l = SPEED_LIMIT as int;
    crate::vector::lemma_cauchy_schwarz(v, u);
    lemma_len_sq_nonneg(u);
    lemma_len_sq_nonneg(v);
    assert(len >= 1) by (nonlinear_arith)
        requires
            len >= 0,
            len_sq(u) < (len + 1) * (len + 1),
            len_sq(u) > 0,
    ;
    // q^2 len^2 <= d^2 <= |v|^2 |u|^2 <= l^2 |u|^2 < l^2 (len + 1)^2 <= l^2 (2 len)^2
    let q = tdiv(d, len);
    crate::vector::lemma_tdiv(d, len);
    assert(q * q * (len * len) <= d * d) by (nonlinear_arith)
        requires
            len > 0,
            crate::vector::iabs(q) * len <= crate::vector::iabs(d),
            crate::vector::iabs(q) == (if q >= 0 { q } else { -q }),
            crate::vector::iabs(d) == (if d >= 0 { d } else { -d }),
    ;
    assert(d * d <= l * l * len_sq(u)) by (nonlinear_arith)
        requires
            d * d <= len_sq(v) * len_sq(u),
            len_sq(v) <= l * l,
            len_sq(u) >= 0,
    ;
    assert(l * l * len_sq(u) <= l * l * ((2 * len) * (2 * len))) by (nonlinear_arith)
        requires
            len_sq(u) < (len + 1) * (len + 1),
            len >= 1,
    ;
    assert(q * q * (len * len) <= (2 * l) * (2 * l) * (len * len)) by (nonlinear_arith)
        requires
            q * q * (len * len) <= l * l * len_sq(u),
            l * l * len_sq(u) <= l * l * ((2 * len) * (2 * len)),
    ;
    assert(q * q <= (2 * l) * (2 * l)) by (nonlinear_arith)
        requires
            q * q * (len * len) <= (2 * l) * (2 * l) * (len * len),
            len >= 1,
    ;
    crate::vector::lemma_square_bound(q, 2 * l);
}

/// The velocity change that accelerates toward `target_speed` along
/// `direction`: none once the speed along it reaches the target, and never
/// more than `max_acceleration` for `delta_time` microseconds.
pub open spec fn acceleration_of(
    velocity: IVec,
    direction: IVec,
    max_acceleration: int,
    target_speed: int,
    delta_time: int,
) -> IVec {
    if is_zero(direction) {
        zero()
    } else {
        let current = speed_along(velocity, direction);
        if current >= target_speed {
            zero()
        } else {
            let step = tdiv(max_acceleration * delta_time, TIME_SCALE as int);
            along(
                direction,
                if target_speed - current < step {
                    target_speed - current
                } else {
                    step
                },
            )
        }
    }
}

/// The velocity change toward `target_speed` along `direction`; see
/// [`acceleration_of`].
pub fn acceleration(
    velocity: Vec3,
    direction: Vec3,
    max_acceleration: i64,
    target_speed: i64,
    delta_time: i64,
) -> (r: Vec3)
    requires
        speed_ok(velocity@),
        within(direction@, NORMAL_LIMIT as int),
        0 <= max_acceleration <= SPEED_LIMIT,
        0 <= target_speed <= SPEED_LIMIT,
        0 <= delta_time <= TIME_SCALE,
    ensures
        r@ == acceleration_of(
            velocity@,
            direction@,
            max_acceleration as int,
            target_speed as int,
            delta_time as int,
        ),
        within(r@, SPEED_LIMIT as int),
{
    if direction.is_zero() {
        return Vec3::zero();
    }
    let current = speed_along_up(&velocity, &direction);
    if current >= target_speed {
        return Vec3::zero();
    }
    proof {
        lemma_mul_bound(
            max_acceleration as int,
            delta_time as int,
            SPEED_LIMIT as int,
            TIME_SCALE as int,
        );
        crate::slide::lemma_scaled_component(
            max_acceleration as int,
            delta_time as int,
            TIME_SCALE as int,
        );
        crate::vector::lemma_tdiv(max_acceleration * delta_time, TIME_SCALE as int);
        assert(max_acceleration * delta_time * TIME_SCALE >= 0) by (nonlinear_arith)
            requires
                max_acceleration >= 0,
                delta_time >= 0,
        ;
    }
    let step = crate::vector::narrow(
        crate::vector::div_toward_zero(
            max_acceleration as i128 * delta_time as i128,
            TIME_SCALE as i128,
        ),
    );
    let amount = if target_speed - current < step {
        target_speed - current
    } else {
        step
    };
    along_by(&direction, amount)
}

/// How a character meets a contact plane during a resolve.
#[derive(Clone, Copy, Debug, PartialEq, Eq, Structural)]
pub enum Contact {
    /// Walkable ground: it becomes the ground, and the velocity to go on
    /// with is given.
    Ground { velocity: Vec3 },
    /// A wall met while grounded: a step climb may be tried first; failing
    /// that, the velocity slides along the wall as given.
    Step { velocity: Vec3 },
    /// A wall met in the air: the velocity slides along it as given.
    Wall { velocity: Vec3 },
}

/// The response to a contact with `normal`: landing on walkable ground lays
/// the velocity onto it (a character already grounded keeps its velocity);
/// a wall met on the ground keeps the character from climbing it, and may be
/// stepped onto; a wall met in the air takes away the velocity into it.
pub open spec fn contact_of(
    velocity: IVec,
    normal: IVec,
    up: IVec,
    cos: int,
    grounded: bool,
) -> Contact {
    if walkable(normal, up, cos) {
        Contact::Ground {
            velocity: if grounded {
                crate::slide::vec3_of(velocity)
            } else {
                crate::slide::vec3_of(ground_projection(velocity, normal, up))
            },
        }
    } else if grounded {
        Contact::Step { velocity: crate::slide::vec3_of(wall_projection(velocity, normal, up)) }
    } else {
        Contact::Wall { velocity: crate::slide::vec3_of(reject_from(velocity, normal)) }
    }
}

/// Decides how a character that is `grounded` (or has found ground earlier
/// in this resolve) meets a contact with `normal`; see [`contact_of`].
pub fn contact_response(
    velocity: Vec3,
    normal: Vec3,
    up: Vec3,
    walkable_angle: WalkableAngle,
    grounded: bool,
) -> (r: Contact)
    requires
        speed_ok(velocity@),
        within(normal@, NORMAL_LIMIT as int),
        valid_normal(up@),
        walkable_angle.valid(),
    ensures
        r == contact_of(velocity@, normal@, up@, walkable_angle.cos as int, grounded),
{
    if is_walkable(normal, up, walkable_angle) {
        if grounded {
            Contact::Ground { velocity }
        } else {
            Contact::Ground { velocity: project_motion_on_ground(velocity, normal, up) }
        }
    } else if grounded {
        Contact::Step { velocity: project_motion_on_wall(velocity, normal, up) }
    } else {
        Contact::Wall { velocity: velocity.reject_from(&normal) }
    }
}

} // verus!
