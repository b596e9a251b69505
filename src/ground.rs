//! Ground classification: is a surface flat enough to stand on?
use vstd::prelude::*;
use crate::sweep::{safe_distance, sweep_check, SweepHit, EPSILON_LIMIT};
use crate::vector::{
    dot, is_zero, len_sq, lemma_dot_bound, lemma_len_sq_nonneg, lemma_mul_bound, valid_normal,
    within, IVec, Vec3, NORMAL_LIMIT,
};

verus! {

/// Denominator of [`WalkableAngle::cos`].
pub const COS_SCALE: i64 = 1_000_000;

/// The steepest slope a character can stand on, given by the cosine of its
/// angle to the up axis, in millionths. An angle of 45 degrees is
/// `WalkableAngle { cos: 707_107 }`; a larger angle has a smaller cosine.
#[derive(Clone, Copy, Debug, PartialEq, Eq, Structural)]
pub struct WalkableAngle {
    pub cos: i64,
}

impl WalkableAngle {
    pub open spec fn valid(&self) -> bool {
        -COS_SCALE <= self.cos <= COS_SCALE
    }
}

/// `d / sqrt(p) > c / COS_SCALE`, for `p > 0`, written without the root:
/// the cosine of an angle whose dot product is `d` and whose squared length
/// product is `p` is above the cosine `c` (in millionths).
pub open spec fn cos_above(d: int, p: int, c: int) -> bool {
    let s = COS_SCALE as int;
    if c >= 0 {
        d > 0 && d * d * (s * s) > c * c * p
    } else {
        d >= 0 || d * d * (s * s) < c * c * p
    }
}

/// The angle between `up` and `normal` is below the walkable angle: its
/// cosine is strictly above `cos`. A zero normal is never walkable.
pub open spec fn walkable(normal: IVec, up: IVec, cos: int) -> bool {
    !is_zero(normal) && cos_above(dot(up, normal), len_sq(up) * len_sq(normal), cos)
}

/// A surface that the character stands on.
#[derive(Clone, Copy, Debug, PartialEq, Eq, Structural)]
pub struct Ground {
    /// Opaque handle of the entity that was hit.
    pub entity: u64,
    /// The surface normal.
    pub normal: Vec3,
}

/// A walkable surface found below the character, with how far away it is.
#[derive(Clone, Copy, Debug, PartialEq, Eq, Structural)]
pub struct Floor {
    pub entity: u64,
    pub normal: Vec3,
    /// The safe distance down to it.
    pub distance: i64,
}

/// Whether a surface with `normal` is walkable for a character whose up axis
/// is `up`: the angle between them is below `walkable_angle`. Exactly at the
/// angle it is not walkable.
pub fn is_walkable(normal: Vec3, up: Vec3, walkable_angle: WalkableAngle) -> (r: bool)
    requires
        within(normal@, NORMAL_LIMIT as int),
        valid_normal(up@),
        walkable_angle.valid(),
    ensures
        r == walkable(normal@, up@, walkable_angle.cos as int),
{
    if normal.is_zero() {
        return false;
    }
    let ghost l = NORMAL_LIMIT as int;
    proof {
        lemma_dot_bound(up@, normal@, l, l);
        lemma_dot_bound(up@, up@, l, l);
        lemma_dot_bound(normal@, normal@, l, l);
        lemma_len_sq_nonneg(up@);
        lemma_len_sq_nonneg(normal@);
    }
    let d = up.dot(&normal);
    let lu = up.len_sq();
    let ln = normal.len_sq();
    proof {
        lemma_mul_bound(lu as int, ln as int, 3_145_728, 3_145_728);
    }
    let p = lu * ln;
    let c = walkable_angle.cos as i128;
    let s = COS_SCALE as i128;
    proof {
        assert(3 * (l * l) == 3_145_728) by (nonlinear_arith)
            requires
                l == 1024,
        ;
        lemma_mul_bound(d as int, d as int, 3_145_728, 3_145_728);
        lemma_mul_bound(c as int, c as int, 1_000_000, 1_000_000);
        lemma_mul_bound(
            (d * d) as int,
            s as int * s as int,
            9_895_604_649_984,
            1_000_000_000_000,
        );
        lemma_mul_bound(
            (c * c) as int,
            p as int,
            1_000_000_000_000,
            9_895_604_649_984,
        );
    }
    let lhs = d * d * (s * s);
    let rhs = c * c * p;
    if c >= 0 {
        d > 0 && lhs > rhs
    } else {
        d >= 0 || lhs < rhs
    }
}

impl Ground {
    /// A [`Ground`] on `normal` where that surface is walkable.
    pub fn new_if_walkable(entity: u64, normal: Vec3, up: Vec3, walkable_angle: WalkableAngle) -> (r:
        Option<Ground>)
        requires
            within(normal@, NORMAL_LIMIT as int),
            valid_normal(up@),
            walkable_angle.valid(),
        ensures
            r == (if walkable(normal@, up@, walkable_angle.cos as int) {
                Some(Ground { entity, normal })
            } else {
                None
            }),
    {
        if is_walkable(normal, up, walkable_angle) {
            Some(Ground { entity, normal })
        } else {
            None
        }
    }

    /// Whether this ground is still walkable for `up` and `walkable_angle`.
    pub fn is_walkable(&self, up: Vec3, walkable_angle: WalkableAngle) -> (r: bool)
        requires
            within(self.normal@, NORMAL_LIMIT as int),
            valid_normal(up@),
            walkable_angle.valid(),
        ensures
            r == walkable(self.normal@, up@, walkable_angle.cos as int),
    {
        is_walkable(self.normal, up, walkable_angle)
    }
}

impl Floor {
    /// A [`Floor`] on `normal` at `distance` where that surface is walkable.
    pub fn new_if_walkable(
        entity: u64,
        normal: Vec3,
        distance: i64,
        up: Vec3,
        walkable_angle: WalkableAngle,
    ) -> (r: Option<Floor>)
        requires
            within(normal@, NORMAL_LIMIT as int),
            valid_normal(up@),
            walkable_angle.valid(),
        ensures
            r == (if walkable(normal@, up@, walkable_angle.cos as int) {
                Some(Floor { entity, normal, distance })
            } else {
                None
            }),
    {
        if is_walkable(normal, up, walkable_angle) {
            Some(Floor { entity, normal, distance })
        } else {
            None
        }
    }
}

/// The ground found by a downward sweep of `distance` (with skin width
/// `epsilon`) that reported `hit`: the safe distance down to it and the
/// ground, where something was hit and it is walkable.
pub fn ground_check(
    hit: Option<SweepHit>,
    epsilon: i64,
    distance: i64,
    up: Vec3,
    walkable_angle: WalkableAngle,
) -> (r: Option<(i64, Ground)>)
    requires
        0 <= epsilon <= EPSILON_LIMIT,
        0 <= distance,
        valid_normal(up@),
        walkable_angle.valid(),
        hit matches Some(h) ==> h.valid(),
    ensures
        r == (match hit {
            Some(h) => if walkable(h.normal@, up@, walkable_angle.cos as int) {
                Some(
                    (
                        safe_distance(h.distance as int, epsilon as int, distance as int) as i64,
                        Ground { entity: h.entity, normal: h.normal },
                    ),
                )
            } else {
                None
            },
            None => None,
        }),
{
    let (safe, h) = match sweep_check(hit, epsilon, distance) {
        Some(found) => found,
        None => {
            return None;
        },
    };
    match Ground::new_if_walkable(h.entity, h.normal, up, walkable_angle) {
        Some(g) => Some((safe, g)),
        None => None,
    }
}

/// The floor found by a downward sweep of `max_distance` that reported
/// `hit`: where something was hit and it is walkable, with the safe distance
/// down to it.
pub fn find_floor(
    hit: Option<SweepHit>,
    up: Vec3,
    max_distance: i64,
    epsilon: i64,
    walkable_angle: WalkableAngle,
) -> (r: Option<Floor>)
    requires
        0 <= epsilon <= EPSILON_LIMIT,
        0 <= max_distance,
        valid_normal(up@),
        walkable_angle.valid(),
        hit matches Some(h) ==> h.valid(),
    ensures
        r == (match hit {
            Some(h) => if walkable(h.normal@, up@, walkable_angle.cos as int) {
                Some(
                    Floor {
                        entity: h.entity,
                        normal: h.normal,
                        distance: safe_distance(
                            h.distance as int,
                            epsilon as int,
                            max_distance as int,
                        ) as i64,
                    },
                )
            } else {
                None
            },
            None => None,
        }),
{
    let (safe, h) = match sweep_check(hit, epsilon, max_distance) {
        Some(found) => found,
        None => {
            return None;
        },
    };
    Floor::new_if_walkable(h.entity, h.normal, safe, up, walkable_angle)
}

/// A surface whose angle to the up axis is exactly the walkable angle is not
/// walkable: when the cosine of the angle between `up` and `normal` equals
/// `cos` (`m` is the product of their lengths), the test fails.
pub proof fn lemma_walkable_boundary(normal: IVec, up: IVec, cos: int, m: int)
    requires
        !is_zero(normal),
        !is_zero(up),
        m >= 0,
        m * m == len_sq(up) * len_sq(normal),
        dot(up, normal) * COS_SCALE == cos * m,
    ensures
        !walkable(normal, up, cos),
{
    let d = dot(up, normal);
    let s = COS_SCALE as int;
    let p = len_sq(up) * len_sq(normal);
    lemma_len_sq_nonneg(up);
    lemma_len_sq_nonneg(normal);
    assert(p > 0) by (nonlinear_arith)
        requires
            len_sq(up) > 0,
            len_sq(normal) > 0,
            p == len_sq(up) * len_sq(normal),
    ;
    assert(m > 0) by (nonlinear_arith)
        requires
            m >= 0,
            m * m == p,
            p > 0,
    ;
    assert(d * d * (s * s) == cos * cos * p) by (nonlinear_arith)
        requires
            d * s == cos * m,
            m * m == p,
    ;
    if cos >= 0 && d > 0 {
        assert(d * d * (s * s) <= cos * cos * p);
    }
    if cos < 0 {
        assert(d < 0) by (nonlinear_arith)
            requires
                d * s == cos * m,
                m >= 0,
                cos < 0,
                s > 0,
                m * m == p,
                d * d * (s * s) == cos * cos * p,
                m > 0,
        ;
    }
}

} // verus!
