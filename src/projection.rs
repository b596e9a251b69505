//! The motion projector: a motion split into its part along the up axis and
//! the rest, and laid onto a floor or a wall.
use vstd::prelude::*;
use crate::ground::{is_walkable, walkable, WalkableAngle};
use crate::slide::{isqrt_of, lemma_isqrt_unique};
use crate::step::{along, along_wide};
use crate::sweep::length;
use crate::vector::{
    cross, dot, is_zero, len_sq, lemma_dot_bound, lemma_len_sq_nonneg, lemma_speed_ok_within,
    lemma_square_bound, neg, project_onto, reject_from, speed_ok, vadd, valid_normal, vsub, within,
    zero, IVec, Vec3, NORMAL_LIMIT, SPEED_LIMIT,
};

verus! {

/// `motion` laid onto a walkable surface with normal `normal`: the part along
/// `up` is kept unless it points into the surface; the rest is turned, with
/// its length kept, onto the slope direction in the vertical plane that holds
/// it, so that walking up or down a ramp neither loses nor gains speed.
pub open spec fn ground_projection(motion: IVec, normal: IVec, up: IVec) -> IVec {
    let vertical0 = project_onto(motion, up);
    let horizontal = vsub(motion, vertical0);
    let vertical = if dot(vertical0, normal) < 0 {
        zero()
    } else {
        vertical0
    };
    let tangent = cross(horizontal, up);
    if is_zero(tangent) {
        vertical
    } else {
        let slope = cross(tangent, normal);
        if is_zero(slope) {
            vadd(vertical, horizontal)
        } else {
            let forward = if dot(horizontal, slope) < 0 {
                neg(slope)
            } else {
                slope
            };
            vadd(vertical, along(forward, isqrt_of(len_sq(horizontal))))
        }
    }
}

/// `motion` laid onto a surface too steep to stand on: the part along `up`
/// loses its component along the normal, so it cannot climb the wall, and
/// the rest is projected onto the wall's horizontal tangent `normal × up`.
pub open spec fn wall_projection(motion: IVec, normal: IVec, up: IVec) -> IVec {
    let vertical0 = project_onto(motion, up);
    let horizontal = vsub(motion, vertical0);
    let vertical = reject_from(vertical0, normal);
    let tangent = cross(normal, up);
    if is_zero(tangent) {
        vadd(vertical, horizontal)
    } else {
        vadd(vertical, project_onto(horizontal, tangent))
    }
}

/// The split of a motion: its projection on `up` and the rest.
fn split(motion: &Vec3, up: &Vec3) -> (r: (Vec3, Vec3))
    requires
        speed_ok(motion@),
        valid_normal(up@),
    ensures
        r.0@ == project_onto(motion@, up@),
        r.1@ == vsub(motion@, project_onto(motion@, up@)),
        speed_ok(r.0@),
        within(r.1@, 2 * SPEED_LIMIT as int),
{
    proof {
        lemma_speed_ok_within(motion@);
    }
    let vertical = motion.project_onto(up);
    proof {
        lemma_speed_ok_within(vertical@);
    }
    let horizontal = motion.sub(&vertical);
    (vertical, horizontal)
}

/// Bounds of what the projections return.
proof fn lemma_sum_bound(a: IVec, b: IVec)
    requires
        speed_ok(a),
        len_sq(b) <= 12 * (SPEED_LIMIT as int * SPEED_LIMIT as int),
    ensures
        within(vadd(a, b), 5 * SPEED_LIMIT as int),
        within(a, SPEED_LIMIT as int),
        within(b, 4 * SPEED_LIMIT as int),
{
    lemma_speed_ok_within(a);
    let l = SPEED_LIMIT as int;
    assert(b.x * b.x >= 0 && b.y * b.y >= 0 && b.z * b.z >= 0) by (nonlinear_arith);
    assert(12 * (l * l) <= (4 * l) * (4 * l)) by (nonlinear_arith);
    lemma_square_bound(b.x, 4 * l);
    lemma_square_bound(b.y, 4 * l);
    lemma_square_bound(b.z, 4 * l);
}

proof fn lemma_wide_len(h: IVec)
    requires
        within(h, 2 * SPEED_LIMIT as int),
    ensures
        len_sq(h) <= 12 * (SPEED_LIMIT as int * SPEED_LIMIT as int),
{
    let l = SPEED_LIMIT as int;
    lemma_dot_bound(h, h, 2 * l, 2 * l);
    assert(3 * ((2 * l) * (2 * l)) == 12 * (l * l)) by (nonlinear_arith);
}

/// Lays `motion` onto a walkable surface: see [`ground_projection`]. Used to
/// walk up and down ramps without leaving them.
pub fn project_motion_on_ground(motion: Vec3, normal: Vec3, up: Vec3) -> (r: Vec3)
    requires
        speed_ok(motion@),
        within(normal@, NORMAL_LIMIT as int),
        valid_normal(up@),
    ensures
        r@ == ground_projection(motion@, normal@, up@),
        within(r@, 5 * SPEED_LIMIT as int),
{
    let (vertical0, horizontal) = split(&motion, &up);
    proof {
        lemma_speed_ok_within(vertical0@);
        lemma_wide_len(horizontal@);
        lemma_len_sq_nonneg(crate::vector::zero());
    }
    let vertical = if vertical0.dot(&normal) < 0 {
        Vec3::zero()
    } else {
        vertical0
    };
    let tangent = horizontal.cross(&up);
    if tangent.is_zero() {
        proof {
            lemma_speed_ok_within(vertical@);
        }
        return vertical;
    }
    let slope = tangent.cross(&normal);
    if slope.is_zero() {
        proof {
            lemma_sum_bound(vertical@, horizontal@);
        }
        return vertical.add(&horizontal);
    }
    let forward = if horizontal.dot_wide(&slope) < 0 {
        slope.neg()
    } else {
        slope
    };
    let size = length(&horizontal);
    proof {
        lemma_isqrt_unique(size as int, len_sq(horizontal@));
        lemma_speed_ok_within(vertical@);
    }
    let turned = along_wide(&forward, size);
    proof {
        assert(5 * SPEED_LIMIT as int <= crate::vector::WIDE_LIMIT);
    }
    vertical.add(&turned)
}

/// Lays `motion` onto a surface too steep to stand on: see
/// [`wall_projection`]. Keeps a character from sliding up such a slope.
pub fn project_motion_on_wall(motion: Vec3, normal: Vec3, up: Vec3) -> (r: Vec3)
    requires
        speed_ok(motion@),
        within(normal@, NORMAL_LIMIT as int),
        valid_normal(up@),
    ensures
        r@ == wall_projection(motion@, normal@, up@),
        within(r@, 5 * SPEED_LIMIT as int),
{
    let (vertical0, horizontal) = split(&motion, &up);
    let vertical = vertical0.reject_from(&normal);
    proof {
        lemma_wide_len(horizontal@);
    }
    let tangent = normal.cross(&up);
    if tangent.is_zero() {
        proof {
            lemma_sum_bound(vertical@, horizontal@);
        }
        return vertical.add(&horizontal);
    }
    let slid = horizontal.project_onto(&tangent);
    proof {
        lemma_sum_bound(vertical@, slid@);
    }
    vertical.add(&slid)
}

/// Lays `motion` onto the surface with `normal`: onto the ground where it is
/// walkable, onto a wall where it is not. A zero normal leaves the motion as
/// it is.
pub fn project_motion(motion: Vec3, normal: Vec3, up: Vec3, walkable_angle: WalkableAngle) -> (r:
    Vec3)
    requires
        speed_ok(motion@),
        within(normal@, NORMAL_LIMIT as int),
        valid_normal(up@),
        walkable_angle.valid(),
    ensures
        r@ == (if walkable(normal@, up@, walkable_angle.cos as int) {
            ground_projection(motion@, normal@, up@)
        } else {
            wall_projection(motion@, normal@, up@)
        }),
        within(r@, 5 * SPEED_LIMIT as int),
{
    if is_walkable(normal, up, walkable_angle) {
        project_motion_on_ground(motion, normal, up)
    } else {
        project_motion_on_wall(motion, normal, up)
    }
}

} // verus!
