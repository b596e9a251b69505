//! The swept-collision primitive: what to ask of the shape-cast service, and
//! how far it is safe to move once it has answered.
use vstd::prelude::*;
use crate::vector::{len_sq, within, Vec3, NORMAL_LIMIT, SPEED_LIMIT};

verus! {

/// Largest skin width that the solver takes.
pub const EPSILON_LIMIT: i64 = 1_048_576;

/// `r` is the integer square root of `n`.
pub open spec fn is_isqrt(r: int, n: int) -> bool {
    r >= 0 && r * r <= n < (r + 1) * (r + 1)
}

/// The root of a number at most `l * l` is at most `l`; the root of a
/// positive number is positive.
pub proof fn lemma_isqrt_bound(r: int, n: int, l: int)
    requires
        is_isqrt(r, n),
        0 <= n <= l * l,
        l >= 0,
    ensures
        r <= l,
        n > 0 ==> r >= 1,
{
    if r > l {
        assert(r * r > l * l) by (nonlinear_arith)
            requires
                r > l,
                l >= 0,
        ;
    }
}

/// The integer square root of `n`: the largest `r` with `r * r <= n`.
pub fn isqrt(n: u64) -> (r: u64)
    requires
        n < 4_611_686_018_427_387_904,
    ensures
        is_isqrt(r as int, n as int),
{
    let mut lo: u64 = 0;
    let mut hi: u64 = 2_147_483_648;
    assert(hi as int * hi as int > n as int) by (nonlinear_arith)
        requires
            hi == 2_147_483_648,
            n < 4_611_686_018_427_387_904,
    ;
    while hi - lo > 1
        invariant
            lo < hi <= 2_147_483_648,
            lo as int * lo as int <= n as int,
            hi as int * hi as int > n as int,
        decreases hi - lo,
    {
        let mid = lo + (hi - lo) / 2;
        assert(mid as int * mid as int <= 4_611_686_018_427_387_904) by (nonlinear_arith)
            requires
                mid <= 2_147_483_648,
        ;
        if mid * mid <= n {
            lo = mid;
        } else {
            hi = mid;
        }
    }
    lo
}

/// The integer square root of a wide `n`.
pub fn isqrt_wide(n: u128) -> (r: u128)
    requires
        n < 1_267_650_600_228_229_401_496_703_205_376,
    ensures
        is_isqrt(r as int, n as int),
{
    let mut lo: u128 = 0;
    let mut hi: u128 = 1_125_899_906_842_624;
    assert(hi as int * hi as int > n as int) by (nonlinear_arith)
        requires
            hi == 1_125_899_906_842_624,
            n < 1_267_650_600_228_229_401_496_703_205_376,
    ;
    while hi - lo > 1
        invariant
            lo < hi <= 1_125_899_906_842_624,
            lo as int * lo as int <= n as int,
            hi as int * hi as int > n as int,
        decreases hi - lo,
    {
        let mid = lo + (hi - lo) / 2;
        assert(mid as int * mid as int <= 1_267_650_600_228_229_401_496_703_205_376)
            by (nonlinear_arith)
            requires
                mid <= 1_125_899_906_842_624,
        ;
        if mid * mid <= n {
            lo = mid;
        } else {
            hi = mid;
        }
    }
    lo
}

/// The length of a motion, rounded down.
pub fn length(m: &Vec3) -> (r: i64)
    requires
        within(m@, 2 * SPEED_LIMIT as int),
    ensures
        is_isqrt(r as int, len_sq(m@)),
        r <= 2 * SPEED_LIMIT * 2,
{
    let n = m.len_sq();
    proof {
        let l = 2 * SPEED_LIMIT as int;
        crate::vector::lemma_dot_bound(m@, m@, l, l);
        assert(3 * (l * l) == 3_377_699_720_527_872) by (nonlinear_arith)
            requires
                l == 33_554_432,
        ;
        crate::vector::lemma_len_sq_nonneg(m@);
    }
    let r = isqrt(n as u64);
    proof {
        if r > 2 * SPEED_LIMIT * 2 {
            assert(r as int * r as int > len_sq(m@)) by (nonlinear_arith)
                requires
                    r > 67_108_864,
                    len_sq(m@) <= 3_377_699_720_527_872,
            ;
        }
    }
    r as i64
}

/// One shape-cast to perform: from `origin` along `direction` (not zero, its
/// length does not matter) up to `max_distance`, stopping `target_distance`
/// short of a surface and ignoring surfaces that already overlap the origin.
#[derive(Clone, Copy, Debug, PartialEq, Eq, Structural)]
pub struct SweepRequest {
    pub origin: Vec3,
    pub direction: Vec3,
    pub max_distance: i64,
    pub target_distance: i64,
}

/// What a shape-cast reports: how far along the direction the surface is,
/// its normal, and which entity it belongs to.
#[derive(Clone, Copy, Debug, PartialEq, Eq, Structural)]
pub struct SweepHit {
    pub distance: i64,
    pub normal: Vec3,
    pub entity: u64,
}

impl SweepHit {
    /// A hit that the solver can use: its normal fits the integer range.
    pub open spec fn valid(&self) -> bool {
        within(self.normal@, NORMAL_LIMIT as int)
    }
}

/// The request for a sweep of `distance` along `direction` with skin width
/// `epsilon`: the cast goes `epsilon` further than the motion, and may graze
/// a surface up to `epsilon` away rather than touch it.
pub fn sweep_request(origin: Vec3, direction: Vec3, distance: i64, epsilon: i64) -> (r:
    SweepRequest)
    requires
        0 <= distance <= 4 * SPEED_LIMIT,
        0 <= epsilon <= EPSILON_LIMIT,
    ensures
        r == (SweepRequest {
            origin,
            direction,
            max_distance: (distance + epsilon) as i64,
            target_distance: epsilon,
        }),
{
    SweepRequest { origin, direction, max_distance: distance + epsilon, target_distance: epsilon }
}

/// How far it is safe to move toward a surface reported `hit_distance` away
/// when the motion is `distance` long: `epsilon` short of it, never less than
/// nothing and never more than the motion.
pub open spec fn safe_distance(hit_distance: int, epsilon: int, distance: int) -> int {
    let d = hit_distance - epsilon;
    if d < 0 {
        0
    } else if d > distance {
        distance
    } else {
        d
    }
}

/// Turns what the sweep of `distance` reported into the safe distance to
/// travel and the hit; `None` where nothing was hit.
pub fn sweep_check(hit: Option<SweepHit>, epsilon: i64, distance: i64) -> (r: Option<
    (i64, SweepHit),
>)
    requires
        0 <= epsilon <= EPSILON_LIMIT,
        0 <= distance,
    ensures
        r == (match hit {
            None => None,
            Some(h) => Some((safe_distance(h.distance as int, epsilon as int, distance as int) as i64, h)),
        }),
{
    match hit {
        None => None,
        Some(h) => {
            let d: i64 = if h.distance < epsilon {
                0
            } else {
                h.distance - epsilon
            };
            let safe: i64 = if d > distance {
                distance
            } else {
                d
            };
            Some((safe, h))
        },
    }
}

} // verus!
