//! Step climbing: a probe raised by the step height sweeps forward, then
//! down, and turns a short obstruction into a ledge to stand on.
use vstd::prelude::*;
use crate::ground::{is_walkable, walkable, Ground, WalkableAngle, COS_SCALE};
use crate::slide::{isqrt_of, lemma_isqrt_unique, lemma_scaled_component};
use crate::sweep::{
    is_isqrt, length, safe_distance, sweep_check, SweepHit, SweepRequest,
    EPSILON_LIMIT,
};
use crate::vector::{
    div_each, div_toward_zero, is_zero, len_sq, lemma_dot_bound, lemma_len_sq_nonneg,
    lemma_mul_bound, lemma_speed_ok_within, narrow, neg, reject_from, scale, speed_ok, vadd,
    valid_normal, vsub, within, IVec, Vec3, DIRECTION_LIMIT, NORMAL_LIMIT, POSITION_LIMIT,
    SPEED_LIMIT,
};

verus! {

/// `d` units along the direction of `up` (not zero), each component rounded
/// toward zero.
pub open spec fn along(up: IVec, d: int) -> IVec {
    div_each(scale(up, d), isqrt_of(len_sq(up)))
}

/// The two sweeps of a step climb, and where they start.
#[derive(Clone, Copy, Debug, PartialEq, Eq, Structural)]
pub struct StepProbe {
    /// The translation raised by the step height.
    pub raised: Vec3,
    /// The horizontal part of the motion: how far the probe goes forward.
    pub horizontal: Vec3,
    /// The forward sweep at step height; `None` without horizontal motion.
    pub forward: Option<SweepRequest>,
    /// The downward sweep from above the landing spot.
    pub down: SweepRequest,
}

/// The probe of a step climb from `translation` for `motion`: raise by
/// `step_up_height` along `up`, sweep forward along the motion's horizontal
/// part, then sweep down from there by up to `step_up_height`.
pub open spec fn probe_of(
    translation: IVec,
    motion: IVec,
    up: IVec,
    step_up_height: int,
    epsilon: int,
) -> StepProbe {
    let raised = vadd(translation, along(up, step_up_height));
    let horizontal = reject_from(motion, up);
    let landing = vadd(raised, horizontal);
    StepProbe {
        raised: crate::slide::vec3_of(raised),
        horizontal: crate::slide::vec3_of(horizontal),
        forward: if is_zero(horizontal) {
            None
        } else {
            Some(
                SweepRequest {
                    origin: crate::slide::vec3_of(raised),
                    direction: crate::slide::vec3_of(horizontal),
                    max_distance: isqrt_of(len_sq(horizontal)) as i64,
                    target_distance: 0,
                },
            )
        },
        down: SweepRequest {
            origin: crate::slide::vec3_of(landing),
            direction: crate::slide::vec3_of(neg(up)),
            max_distance: (step_up_height + epsilon) as i64,
            target_distance: epsilon as i64,
        },
    }
}

/// `d` units along the direction `up` (a normal or a motion).
pub fn along_by(up: &Vec3, d: i64) -> (r: Vec3)
    requires
        within(up@, 2 * SPEED_LIMIT as int),
        !is_zero(up@),
        0 <= d <= 4 * SPEED_LIMIT,
    ensures
        r@ == along(up@, d as int),
        within(r@, d as int),
{
    let len = length(up);
    proof {
        let l = 2 * SPEED_LIMIT as int;
        assert(l * (4 * SPEED_LIMIT as int) == 2_251_799_813_685_248) by (nonlinear_arith)
            requires
                l == 33_554_432,
        ;
        lemma_len_sq_nonneg(up@);
        lemma_isqrt_unique(len as int, len_sq(up@));
        lemma_component_le_len(up@, len as int);
        lemma_mul_bound(up.x as int, d as int, l, 4 * SPEED_LIMIT as int);
        lemma_mul_bound(up.y as int, d as int, l, 4 * SPEED_LIMIT as int);
        lemma_mul_bound(up.z as int, d as int, l, 4 * SPEED_LIMIT as int);
        if len == 0 {
            assert(len_sq(up@) < 1);
        }
        lemma_scaled_component(d as int, up.x as int, len as int);
        lemma_scaled_component(d as int, up.y as int, len as int);
        lemma_scaled_component(d as int, up.z as int, len as int);
        assert(up.x * d == d * up.x && up.y * d == d * up.y && up.z * d == d * up.z)
            by (nonlinear_arith);
    }
    let x = div_toward_zero(up.x as i128 * d as i128, len as i128);
    let y = div_toward_zero(up.y as i128 * d as i128, len as i128);
    let z = div_toward_zero(up.z as i128 * d as i128, len as i128);
    Vec3 { x: narrow(x), y: narrow(y), z: narrow(z) }
}

/// `d` units along a long direction `dir`, such as a slope direction.
pub fn along_wide(dir: &Vec3, d: i64) -> (r: Vec3)
    requires
        within(dir@, DIRECTION_LIMIT as int),
        !is_zero(dir@),
        0 <= d <= 4 * SPEED_LIMIT,
    ensures
        r@ == along(dir@, d as int),
        within(r@, d as int),
{
    let n = dir.len_sq_wide();
    proof {
        let l = DIRECTION_LIMIT as int;
        lemma_dot_bound(dir@, dir@, l, l);
        assert(3 * (l * l) < 1_267_650_600_228_229_401_496_703_205_376) by (nonlinear_arith)
            requires
                l == 281_474_976_710_656,
        ;
    }
    let root = crate::sweep::isqrt_wide(n as u128);
    proof {
        crate::sweep::lemma_isqrt_bound(root as int, n as int, 1_125_899_906_842_624);
        lemma_len_sq_nonneg(dir@);
    }
    let len = root as i128;
    proof {
        let l = DIRECTION_LIMIT as int;
        lemma_isqrt_unique(len as int, len_sq(dir@));
        lemma_component_le_len(dir@, len as int);
        lemma_mul_bound(dir.x as int, d as int, l, 4 * SPEED_LIMIT as int);
        lemma_mul_bound(dir.y as int, d as int, l, 4 * SPEED_LIMIT as int);
        lemma_mul_bound(dir.z as int, d as int, l, 4 * SPEED_LIMIT as int);
        assert(l * (4 * SPEED_LIMIT as int) == 18_889_465_931_478_580_854_784) by (nonlinear_arith)
            requires
                l == 281_474_976_710_656,
        ;
        if len == 0 {
            assert(len_sq(dir@) < 1);
        }
        lemma_scaled_component(d as int, dir.x as int, len as int);
        lemma_scaled_component(d as int, dir.y as int, len as int);
        lemma_scaled_component(d as int, dir.z as int, len as int);
        assert(dir.x * d == d * dir.x && dir.y * d == d * dir.y && dir.z * d == d * dir.z)
            by (nonlinear_arith);
    }
    let x = div_toward_zero(dir.x as i128 * d as i128, len);
    let y = div_toward_zero(dir.y as i128 * d as i128, len);
    let z = div_toward_zero(dir.z as i128 * d as i128, len);
    Vec3 { x: narrow(x), y: narrow(y), z: narrow(z) }
}

/// Each component of a vector is at most its length.
proof fn lemma_component_le_len(v: IVec, len: int)
    requires
        is_isqrt(len, len_sq(v)),
    ensures
        -len <= v.x <= len,
        -len <= v.y <= len,
        -len <= v.z <= len,
{
    assert(v.x * v.x >= 0 && v.y * v.y >= 0 && v.z * v.z >= 0) by (nonlinear_arith);
    assert(v.x * v.x < (len + 1) * (len + 1));
    assert(v.y * v.y < (len + 1) * (len + 1));
    assert(v.z * v.z < (len + 1) * (len + 1));
    lemma_sq_lt(v.x, len);
    lemma_sq_lt(v.y, len);
    lemma_sq_lt(v.z, len);
}

proof fn lemma_sq_lt(x: int, l: int)
    requires
        l >= 0,
        x * x < (l + 1) * (l + 1),
    ensures
        -l <= x <= l,
{
    if x > l {
        assert(x * x >= (l + 1) * (l + 1)) by (nonlinear_arith)
            requires
                x >= l + 1,
                l >= 0,
        ;
    }
    if x < -l {
        assert(x * x >= (l + 1) * (l + 1)) by (nonlinear_arith)
            requires
                x <= -(l + 1),
                l >= 0,
        ;
    }
}

/// Plans a step climb from `translation` for `motion`; see [`probe_of`].
pub fn step_probe(
    translation: Vec3,
    motion: Vec3,
    up: Vec3,
    step_up_height: i64,
    epsilon: i64,
) -> (r: StepProbe)
    requires
        within(translation@, POSITION_LIMIT as int),
        speed_ok(motion@),
        valid_normal(up@),
        0 <= step_up_height <= SPEED_LIMIT,
        0 <= epsilon <= EPSILON_LIMIT,
    ensures
        r == probe_of(translation@, motion@, up@, step_up_height as int, epsilon as int),
{
    let lift = along_by(&up, step_up_height);
    proof {
        assert(POSITION_LIMIT as int + 2 * SPEED_LIMIT as int <= crate::vector::WIDE_LIMIT);
    }
    let raised = translation.add(&lift);
    let horizontal = motion.reject_from(&up);
    proof {
        lemma_speed_ok_within(horizontal@);
    }
    let landing = raised.add(&horizontal);
    let forward = if horizontal.is_zero() {
        None
    } else {
        let len = length(&horizontal);
        proof {
            lemma_isqrt_unique(len as int, len_sq(horizontal@));
        }
        Some(SweepRequest { origin: raised, direction: horizontal, max_distance: len, target_distance: 0 })
    };
    let down = SweepRequest {
        origin: landing,
        direction: up.neg(),
        max_distance: step_up_height + epsilon,
        target_distance: epsilon,
    };
    StepProbe { raised, horizontal, forward, down }
}

/// Where a step climb ends: nowhere if the forward sweep was blocked, if the
/// downward sweep found nothing, or if what it found is not walkable;
/// otherwise on the found surface, `epsilon` above it.
pub open spec fn landing_of(
    probe: StepProbe,
    blocked: bool,
    down_hit: Option<SweepHit>,
    up: IVec,
    step_up_height: int,
    epsilon: int,
    cos: int,
) -> Option<(Vec3, Ground)> {
    match down_hit {
        Some(h) => if !blocked && walkable(h.normal@, up, cos) {
            let safe = safe_distance(h.distance as int, epsilon, step_up_height);
            Some(
                (
                    crate::slide::vec3_of(vsub(probe.down.origin@, along(up, safe))),
                    Ground { entity: h.entity, normal: h.normal },
                ),
            )
        } else {
            None
        },
        None => None,
    }
}

/// Finishes a step climb with what the two sweeps of `probe` found:
/// `blocked` tells whether the forward sweep hit anything, `down_hit` what
/// the downward sweep hit. On success, the new translation and the ground
/// stood on; see [`landing_of`].
pub fn try_climb_step(
    probe: &StepProbe,
    blocked: bool,
    down_hit: Option<SweepHit>,
    up: Vec3,
    step_up_height: i64,
    epsilon: i64,
    walkable_angle: WalkableAngle,
) -> (r: Option<(Vec3, Ground)>)
    requires
        within(probe.down.origin@, POSITION_LIMIT as int + 2 * SPEED_LIMIT as int),
        valid_normal(up@),
        0 <= step_up_height <= SPEED_LIMIT,
        0 <= epsilon <= EPSILON_LIMIT,
        walkable_angle.valid(),
        down_hit matches Some(h) ==> h.valid(),
    ensures
        r == landing_of(
            *probe,
            blocked,
            down_hit,
            up@,
            step_up_height as int,
            epsilon as int,
            walkable_angle.cos as int,
        ),
{
    if blocked {
        return None;
    }
    match sweep_check(down_hit, epsilon, step_up_height) {
        None => None,
        Some((safe, h)) => {
            if !is_walkable(h.normal, up, walkable_angle) {
                return None;
            }
            let drop = along_by(&up, safe);
            proof {
                assert(POSITION_LIMIT as int + 2 * SPEED_LIMIT as int <= crate::vector::WIDE_LIMIT);
            }
            let landing = probe.down.origin.sub(&drop);
            Some((landing, Ground { entity: h.entity, normal: h.normal }))
        },
    }
}

/// How far a step probe reaches into an obstruction:
/// `radius (1 - cos walkable_angle)` for a capsule of `radius` that meets a
/// ledge's edge at an angle, plus `epsilon` times pi (taken as 355/113).
pub open spec fn inward_of(radius: int, cos: int, epsilon: int) -> int {
    radius * (COS_SCALE - cos) / COS_SCALE as int + epsilon * 355 / 113
}

/// See [`inward_of`].
pub fn inward_distance(radius: i64, walkable_angle: WalkableAngle, epsilon: i64) -> (r: i64)
    requires
        0 <= radius <= SPEED_LIMIT,
        walkable_angle.valid(),
        0 <= epsilon <= EPSILON_LIMIT,
    ensures
        r == inward_of(radius as int, walkable_angle.cos as int, epsilon as int),
        0 <= r <= 2 * SPEED_LIMIT + EPSILON_LIMIT * 4,
{
    proof {
        lemma_mul_bound(
            radius as int,
            (COS_SCALE - walkable_angle.cos) as int,
            SPEED_LIMIT as int,
            2 * COS_SCALE as int,
        );
        let p = radius * (COS_SCALE - walkable_angle.cos);
        assert(p >= 0) by (nonlinear_arith)
            requires
                radius >= 0,
                COS_SCALE - walkable_angle.cos >= 0,
                p == radius * (COS_SCALE - walkable_angle.cos),
        ;
        assert(p / COS_SCALE as int <= 2 * SPEED_LIMIT) by (nonlinear_arith)
            requires
                0 <= p <= SPEED_LIMIT * (2 * COS_SCALE as int),
        ;
    }
    radius * (COS_SCALE - walkable_angle.cos) / COS_SCALE + epsilon * 355 / 113
}

/// The motion of a step probe for a contact: the rest of the swept motion
/// along `direction`, less `inward`, and then `inward` into the obstruction
/// against its horizontal normal; with the distance this covers.
pub open spec fn step_motion_of(
    direction: IVec,
    remaining_motion: int,
    normal: IVec,
    up: IVec,
    inward: int,
) -> (IVec, int) {
    let forward = if remaining_motion - inward > 0 {
        remaining_motion - inward
    } else {
        0
    };
    let facing = reject_from(normal, up);
    let into = if is_zero(facing) {
        crate::vector::zero()
    } else {
        along(facing, inward)
    };
    (vsub(along(direction, forward), into), forward + inward)
}

/// See [`step_motion_of`].
pub fn step_up_motion(
    direction: Vec3,
    remaining_motion: i64,
    hit_normal: Vec3,
    up: Vec3,
    inward: i64,
) -> (r: (Vec3, i64))
    requires
        within(direction@, 2 * SPEED_LIMIT as int),
        !is_zero(direction@),
        0 <= remaining_motion <= SPEED_LIMIT,
        within(hit_normal@, NORMAL_LIMIT as int),
        valid_normal(up@),
        0 <= inward <= SPEED_LIMIT,
    ensures
        (r.0@, r.1 as int) == step_motion_of(
            direction@,
            remaining_motion as int,
            hit_normal@,
            up@,
            inward as int,
        ),
        within(r.0@, 2 * SPEED_LIMIT as int),
{
    let forward: i64 = if remaining_motion - inward > 0 {
        remaining_motion - inward
    } else {
        0
    };
    proof {
        let l = NORMAL_LIMIT as int;
        lemma_dot_bound(hit_normal@, hit_normal@, l, l);
        assert(3 * (l * l) == 3_145_728);
        assert(3_145_728 <= SPEED_LIMIT as int * SPEED_LIMIT as int);
    }
    let facing = hit_normal.reject_from(&up);
    proof {
        lemma_speed_ok_within(facing@);
    }
    let ahead = along_by(&direction, forward);
    let into = if facing.is_zero() {
        Vec3::zero()
    } else {
        along_by(&facing, inward)
    };
    proof {
        assert(2 * SPEED_LIMIT as int <= crate::vector::WIDE_LIMIT);
    }
    (ahead.sub(&into), forward + inward)
}

/// A step with a clear forward sweep and a walkable landing is climbed and
/// leaves the character on the ground it landed on; the same step with
/// anything in the way at probe height is not climbed, and the character
/// falls back to sliding along the wall.
pub proof fn lemma_step_climb(
    probe: StepProbe,
    down_hit: SweepHit,
    up: IVec,
    step_up_height: int,
    epsilon: int,
    cos: int,
)
    requires
        walkable(down_hit.normal@, up, cos),
    ensures
        landing_of(probe, false, Some(down_hit), up, step_up_height, epsilon, cos) matches Some(
            (_, g),
        ) && g == (Ground { entity: down_hit.entity, normal: down_hit.normal }),
        landing_of(probe, true, Some(down_hit), up, step_up_height, epsilon, cos) is None,
{
}

} // verus!
