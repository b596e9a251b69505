//! The collision-plane solver: the contact planes met within one resolve, and
//! how they constrain the velocity.
use vstd::prelude::*;
use crate::ground::{cos_above, COS_SCALE};
use crate::vector::{
    cross, div_each, divides_each, dot, is_zero, l1, len_sq, lemma_dot_bound, lemma_len_sq_nonneg,
    lemma_mul_bound, lemma_rounded_dot, project_onto, reject_from, reject_numerator, scale,
    speed_ok, valid_normal, within, zero, IVec, Vec3, NORMAL_LIMIT, SPEED_LIMIT,
    lemma_speed_ok_within,
};

verus! {

/// Cosine, in millionths, above which two normals count as the same plane.
pub const SIMILARITY_COS: i64 = 999_000;

/// Two normals are nearly the same: the cosine of the angle between them is
/// above [`SIMILARITY_COS`].
pub open spec fn similar(a: IVec, b: IVec) -> bool {
    cos_above(dot(a, b), len_sq(a) * len_sq(b), SIMILARITY_COS as int)
}

/// Whether two normals are nearly the same plane.
pub fn similar_plane(normal1: Vec3, normal2: Vec3) -> (r: bool)
    requires
        within(normal1@, NORMAL_LIMIT as int),
        within(normal2@, NORMAL_LIMIT as int),
    ensures
        r == similar(normal1@, normal2@),
{
    let ghost l = NORMAL_LIMIT as int;
    proof {
        lemma_dot_bound(normal1@, normal2@, l, l);
        lemma_dot_bound(normal1@, normal1@, l, l);
        lemma_dot_bound(normal2@, normal2@, l, l);
        lemma_len_sq_nonneg(normal1@);
        lemma_len_sq_nonneg(normal2@);
    }
    let d = normal1.dot(&normal2);
    let la = normal1.len_sq();
    let lb = normal2.len_sq();
    let c = SIMILARITY_COS as i128;
    let s = COS_SCALE as i128;
    proof {
        assert(3 * (l * l) == 3_145_728);
        lemma_mul_bound(la as int, lb as int, 3_145_728, 3_145_728);
        lemma_mul_bound(d as int, d as int, 3_145_728, 3_145_728);
        lemma_mul_bound((d * d) as int, s as int * s as int, 9_895_604_649_984, 1_000_000_000_000);
        lemma_mul_bound(
            c as int * c as int,
            (la * lb) as int,
            1_000_000_000_000,
            9_895_604_649_984,
        );
    }
    d > 0 && d * d * (s * s) > c * c * (la * lb)
}

/// How the planes met so far constrain the motion.
#[derive(Clone, Copy, Debug, PartialEq, Eq, Structural)]
pub enum PlaneType {
    /// One plane: slide along it.
    Plane(Vec3),
    /// Two planes: move along the line where they meet.
    Crease { crease: Vec3, first: Vec3, second: Vec3 },
    /// Three planes: no direction is left.
    Corner(Vec3, Vec3, Vec3),
}

impl PlaneType {
    pub open spec fn valid(&self) -> bool {
        match *self {
            PlaneType::Plane(n) => within(n@, NORMAL_LIMIT as int),
            PlaneType::Crease { crease, .. } => within(
                crease@,
                2 * (NORMAL_LIMIT as int * NORMAL_LIMIT as int),
            ),
            PlaneType::Corner(..) => true,
        }
    }

    /// The motion that these planes leave of `motion`.
    pub open spec fn projected(&self, motion: IVec) -> IVec {
        match *self {
            PlaneType::Plane(n) => reject_from(motion, n@),
            PlaneType::Crease { crease, .. } => project_onto(motion, crease@),
            PlaneType::Corner(..) => zero(),
        }
    }

    /// `motion` constrained by these planes: slid along a plane, moved along
    /// a crease, or stopped in a corner.
    pub fn project_motion(self, motion: Vec3) -> (r: Vec3)
        requires
            self.valid(),
            speed_ok(motion@),
        ensures
            r@ == self.projected(motion@),
            speed_ok(r@),
    {
        match self {
            PlaneType::Plane(normal) => motion.reject_from(&normal),
            PlaneType::Crease { crease, .. } => {
                proof {
                    crate::vector::lemma_speed_ok_within(motion@);
                }
                motion.project_onto(&crease)
            },
            PlaneType::Corner(..) => {
                proof {
                    lemma_len_sq_nonneg(zero());
                }
                Vec3::zero()
            },
        }
    }
}

/// The classification of a list of pairwise distinct normals.
pub open spec fn classify(s: Seq<Vec3>) -> Option<PlaneType> {
    if s.len() == 0 {
        None
    } else if s.len() == 1 {
        Some(PlaneType::Plane(s[0]))
    } else if s.len() == 2 {
        let c = cross(s[0]@, s[1]@);
        if is_zero(c) {
            // opposed planes: leaving the newer one's component satisfies both
            Some(PlaneType::Plane(s[1]))
        } else {
            Some(
                PlaneType::Crease {
                    crease: Vec3 { x: c.x as i64, y: c.y as i64, z: c.z as i64 },
                    first: s[0],
                    second: s[1],
                },
            )
        }
    } else {
        Some(PlaneType::Corner(s[s.len() - 3], s[s.len() - 2], s[s.len() - 1]))
    }
}

/// The contact planes met within one resolve: at most three normals, none
/// zero, no two of them similar.
#[derive(Debug)]
pub struct SlidePlanes {
    normals: Vec<Vec3>,
}

impl View for SlidePlanes {
    type V = Seq<Vec3>;

    closed spec fn view(&self) -> Seq<Vec3> {
        self.normals@
    }
}

/// The normals that a list keeps after `n` is added: appended, with the
/// oldest dropped once there are three.
pub open spec fn inserted(s: Seq<Vec3>, n: Vec3) -> Seq<Vec3> {
    if s.len() < 3 {
        s.push(n)
    } else {
        s.drop_first().push(n)
    }
}

impl SlidePlanes {
    pub open spec fn wf(&self) -> bool {
        let s = self@;
        &&& s.len() <= 3
        &&& forall|i: int| 0 <= i < s.len() ==> valid_normal(#[trigger] s[i]@)
        &&& forall|i: int, j: int|
            0 <= i < j < s.len() ==> !similar(#[trigger] s[i]@, #[trigger] s[j]@)
    }

    /// No planes yet.
    pub fn new() -> (r: SlidePlanes)
        ensures
            r@ == Seq::<Vec3>::empty(),
            r.wf(),
    {
        SlidePlanes { normals: Vec::new() }
    }

    /// Adds the plane with `normal` unless it is zero or similar to a plane
    /// already held, in which case nothing changes and the result is `None`.
    /// Otherwise the result is the new classification.
    pub fn insert(&mut self, normal: Vec3) -> (r: Option<PlaneType>)
        requires
            old(self).wf(),
            within(normal@, NORMAL_LIMIT as int),
        ensures
            final(self).wf(),
            ({
                let s = old(self)@;
                if is_zero(normal@) || exists|i: int|
                    0 <= i < s.len() && similar(#[trigger] s[i]@, normal@) {
                    r is None && final(self)@ == s
                } else {
                    final(self)@ == inserted(s, normal) && r == classify(final(self)@)
                }
            }),
            r matches Some(p) ==> p.valid(),
    {
        if normal.is_zero() {
            return None;
        }
        let mut i: usize = 0;
        while i < self.normals.len()
            invariant
                self.wf(),
                *self == *old(self),
                within(normal@, NORMAL_LIMIT as int),
                !is_zero(normal@),
                0 <= i <= self@.len(),
                forall|j: int| 0 <= j < i ==> !similar(#[trigger] self@[j]@, normal@),
            decreases self@.len() - i,
        {
            if similar_plane(self.normals[i], normal) {
                return None;
            }
            i = i + 1;
        }
        let ghost s = self@;
        if self.normals.len() >= 3 {
            self.normals.remove(0);
            assert(self@ == s.drop_first());
        }
        self.normals.push(normal);
        assert(self@ == inserted(s, normal));
        assert forall|i: int, j: int| 0 <= i < j < self@.len() implies !similar(
            #[trigger] self@[i]@,
            #[trigger] self@[j]@,
        ) by {
            if s.len() >= 3 {
                if j < self@.len() - 1 {
                    assert(self@[i] == s[i + 1] && self@[j] == s[j + 1]);
                } else {
                    assert(self@[i] == s[i + 1]);
                }
            }
        }
        assert forall|i: int| 0 <= i < self@.len() implies valid_normal(#[trigger] self@[i]@) by {
            if s.len() >= 3 && i < self@.len() - 1 {
                assert(self@[i] == s[i + 1]);
            }
        }
        self.plane_type()
    }

    /// The classification of the planes held: `None` without any, a plane,
    /// a crease, or a corner.
    pub fn plane_type(&self) -> (r: Option<PlaneType>)
        requires
            self.wf(),
        ensures
            r == classify(self@),
            r matches Some(p) ==> p.valid(),
    {
        let n = self.normals.len();
        if n == 0 {
            None
        } else if n == 1 {
            Some(PlaneType::Plane(self.normals[0]))
        } else if n == 2 {
            let a = self.normals[0];
            let b = self.normals[1];
            let c = a.cross(&b);
            if c.is_zero() {
                Some(PlaneType::Plane(b))
            } else {
                Some(PlaneType::Crease { crease: c, first: a, second: b })
            }
        } else {
            Some(PlaneType::Corner(self.normals[n - 3], self.normals[n - 2], self.normals[n - 1]))
        }
    }
}

/// Whether two vectors within twice the speed limit point nearly the same
/// way, as [`similar`] says.
pub fn similar_wide(a: &Vec3, b: &Vec3) -> (r: bool)
    requires
        within(a@, 2 * SPEED_LIMIT as int),
        within(b@, 2 * SPEED_LIMIT as int),
    ensures
        r == similar(a@, b@),
{
    let ghost l = 2 * SPEED_LIMIT as int;
    proof {
        lemma_dot_bound(a@, b@, l, l);
        lemma_dot_bound(a@, a@, l, l);
        lemma_dot_bound(b@, b@, l, l);
        lemma_len_sq_nonneg(a@);
        lemma_len_sq_nonneg(b@);
        assert(3 * (l * l) == 3_377_699_720_527_872) by (nonlinear_arith)
            requires
                l == 33_554_432,
        ;
    }
    let d = a.dot(b);
    let la = a.len_sq();
    let lb = b.len_sq();
    proof {
        let k = 3_377_699_720_527_872int;
        lemma_mul_bound(la as int, lb as int, k, k);
        lemma_mul_bound(d as int, d as int, k, k);
        assert(k * k == 11_408_855_402_054_064_613_470_328_848_384) by (nonlinear_arith)
            requires
                k == 3_377_699_720_527_872,
        ;
        lemma_mul_bound(
            (d * d) as int,
            1_000_000,
            11_408_855_402_054_064_613_470_328_848_384,
            1_000_000,
        );
        lemma_mul_bound(
            998_001,
            (la * lb) as int,
            998_001,
            11_408_855_402_054_064_613_470_328_848_384,
        );
        lemma_similar_scaled(d as int, (la * lb) as int);
    }
    d > 0 && d * d * 1_000_000 > 998_001 * (la * lb)
}

/// A vector other than zero points the same way as itself.
proof fn lemma_similar_self(a: IVec)
    requires
        !is_zero(a),
    ensures
        similar(a, a),
{
    let m = len_sq(a);
    lemma_len_sq_nonneg(a);
    let s = COS_SCALE as int;
    let c = SIMILARITY_COS as int;
    assert(m * m * (s * s) > c * c * (m * m)) by (nonlinear_arith)
        requires
            m > 0,
            s == 1_000_000,
            c == 999_000,
    ;
}

/// The similarity test at a smaller scale: `0.999 = 999 / 1000`.
proof fn lemma_similar_scaled(d: int, p: int)
    ensures
        cos_above(d, p, SIMILARITY_COS as int) == (d > 0 && d * d * 1_000_000 > 998_001 * p),
{
    let s = COS_SCALE as int;
    let c = SIMILARITY_COS as int;
    assert(d * d * (s * s) == (d * d * 1_000_000) * 1_000_000) by (nonlinear_arith)
        requires
            s == 1_000_000,
    ;
    assert(c * c * p == (998_001 * p) * 1_000_000) by (nonlinear_arith)
        requires
            c == 999_000,
    ;
}

/// One plane of the alternate solver, met with velocity `vel`: slide along
/// it; where the result still runs into the first plane, move along the
/// crease of the two planes instead, and stop where a third plane closes the
/// corner. `Err` ends the solve with its value.
pub open spec fn solve_step(vel: IVec, first: IVec, second: IVec, all: Seq<IVec>) -> Result<
    IVec,
    IVec,
> {
    let slid = reject_from(vel, second);
    if similar(slid, first) {
        if is_zero(slid) {
            Err(slid)
        } else {
            Ok(slid)
        }
    } else {
        let along = project_onto(slid, cross(first, second));
        if exists|i: int|
            0 <= i < all.len() && !similar(first, #[trigger] all[i]) && !similar(second, all[i])
                && similar(along, all[i]) {
            Err(zero())
        } else if is_zero(along) {
            Err(along)
        } else {
            Ok(along)
        }
    }
}

/// The alternate solver's pass over the planes `all` from index `i`,
/// skipping those similar to the first plane or to the original direction.
pub open spec fn solve_from(vel: IVec, first: IVec, original: IVec, all: Seq<IVec>, i: int) -> IVec
    decreases all.len() - i,
{
    if i < 0 || i >= all.len() {
        vel
    } else if similar(first, all[i]) || similar(original, all[i]) {
        solve_from(vel, first, original, all, i + 1)
    } else {
        match solve_step(vel, first, all[i], all) {
            Ok(next) => solve_from(next, first, original, all, i + 1),
            Err(last) => last,
        }
    }
}

/// The original direction followed by the hit normals.
pub open spec fn constraints(original: IVec, hits: Seq<Vec3>) -> Seq<IVec> {
    seq![original] + hits.map_values(|h: Vec3| h@)
}

/// The alternate collision solver, which also holds the velocity to its
/// original direction: nothing is left of a zero velocity or direction; no
/// hits, or a velocity already leaving the latest hit plane, keep the
/// velocity; otherwise the velocity slides along the latest plane and then
/// through the others, as [`solve_from`] says.
pub open spec fn solved(velocity: IVec, hits: Seq<Vec3>, original: IVec) -> IVec {
    if is_zero(velocity) || is_zero(original) {
        zero()
    } else if hits.len() == 0 {
        velocity
    } else {
        let first = hits.last()@;
        if dot(velocity, first) >= 0 {
            velocity
        } else {
            solve_from(reject_from(velocity, first), first, original, constraints(original, hits), 0)
        }
    }
}

/// See [`solved`]. The planes met are `hits`, the latest last;
/// `original_velocity` is the direction the resolve started in.
pub fn solve_collision_planes(velocity: Vec3, hits: &Vec<Vec3>, original_velocity: Vec3) -> (r:
    Vec3)
    requires
        speed_ok(velocity@),
        speed_ok(original_velocity@),
        forall|i: int| 0 <= i < hits@.len() ==> within(#[trigger] hits@[i]@, NORMAL_LIMIT as int),
    ensures
        r@ == solved(velocity@, hits@, original_velocity@),
        speed_ok(r@),
{
    proof {
        lemma_len_sq_nonneg(zero());
    }
    if velocity.is_zero() || original_velocity.is_zero() {
        return Vec3::zero();
    }
    let n = hits.len();
    if n == 0 {
        return velocity;
    }
    let first = hits[n - 1];
    proof {
        lemma_speed_ok_within(velocity@);
    }
    if velocity.dot(&first) >= 0 {
        return velocity;
    }
    let ghost all = constraints(original_velocity@, hits@);
    assert(solved(velocity@, hits@, original_velocity@) == solve_from(
        reject_from(velocity@, first@),
        first@,
        original_velocity@,
        all,
        0,
    ));
    let mut vel = velocity.reject_from(&first);
    proof {
        lemma_similar_self(original_velocity@);
        assert(all[0] == original_velocity@);
    }
    // the original direction is the first constraint, and always skipped
    let mut k: usize = 0;
    while k < n
        invariant
            n == hits@.len(),
            0 <= k <= n,
            all == constraints(original_velocity@, hits@),
            all.len() == n + 1,
            speed_ok(vel@),
            speed_ok(original_velocity@),
            within(first@, NORMAL_LIMIT as int),
            first == hits@[n - 1],
            forall|j: int| 0 <= j < hits@.len() ==> within(#[trigger] hits@[j]@, NORMAL_LIMIT as int),
            solve_from(vel@, first@, original_velocity@, all, k + 1) == solve_from(
                reject_from(velocity@, first@),
                first@,
                original_velocity@,
                all,
                0,
            ),
            solved(velocity@, hits@, original_velocity@) == solve_from(
                reject_from(velocity@, first@),
                first@,
                original_velocity@,
                all,
                0,
            ),
        decreases n - k,
    {
        let current = hits[k];
        assert(all[k + 1] == current@);
        proof {
            lemma_speed_ok_within(original_velocity@);
            lemma_speed_ok_within(vel@);
        }
        if similar_wide(&first, &current) || similar_wide(&original_velocity, &current) {
            k = k + 1;
            continue;
        }
        let slid = vel.reject_from(&current);
        proof {
            lemma_speed_ok_within(slid@);
        }
        if similar_wide(&slid, &first) {
            assert(solve_step(vel@, first@, all[k + 1], all) == if is_zero(slid@) {
                Err::<IVec, IVec>(slid@)
            } else {
                Ok::<IVec, IVec>(slid@)
            });
            if slid.is_zero() {
                assert(solve_from(vel@, first@, original_velocity@, all, k + 1) == slid@);
                return slid;
            }
            vel = slid;
        } else {
            let crease = first.cross(&current);
            let along = slid.project_onto(&crease);
            proof {
                lemma_speed_ok_within(along@);
                lemma_speed_ok_within(original_velocity@);
            }
            let mut corner = !similar_wide(&first, &original_velocity) && !similar_wide(
                &current,
                &original_velocity,
            ) && similar_wide(&along, &original_velocity);
            let mut j: usize = 0;
            while j < n
                invariant
                    n == hits@.len(),
                    0 <= j <= n,
                    all == constraints(original_velocity@, hits@),
                    all.len() == n + 1,
                    within(first@, NORMAL_LIMIT as int),
                    within(current@, 2 * SPEED_LIMIT as int),
                    within(along@, 2 * SPEED_LIMIT as int),
                    forall|i: int| 0 <= i < hits@.len() ==> within(#[trigger] hits@[i]@, NORMAL_LIMIT as int),
                    corner == exists|i: int|
                        0 <= i < j + 1 && !similar(first@, #[trigger] all[i]) && !similar(
                            current@,
                            all[i],
                        ) && similar(along@, all[i]),
                decreases n - j,
            {
                let third = hits[j];
                assert(all[j + 1] == third@);
                if !similar_wide(&first, &third) && !similar_wide(&current, &third)
                    && similar_wide(&along, &third) {
                    corner = true;
                }
                j = j + 1;
            }
            if corner {
                proof {
                    lemma_len_sq_nonneg(zero());
                }
                return Vec3::zero();
            }
            assert(solve_step(vel@, first@, all[k + 1], all) == if is_zero(along@) {
                Err::<IVec, IVec>(along@)
            } else {
                Ok::<IVec, IVec>(along@)
            });
            if along.is_zero() {
                assert(solve_from(vel@, first@, original_velocity@, all, k + 1) == along@);
                return along;
            }
            vel = along;
        }
        k = k + 1;
    }
    vel
}

/// Sliding along a single plane leaves no motion into or out of it beyond
/// rounding: the slid velocity's dot product with the normal is smaller in
/// absolute value than the sum of the normal's absolute components (under one
/// length unit per axis), and it is zero wherever the divisions are exact.
pub proof fn lemma_plane_slide(v: IVec, n: IVec)
    requires
        !is_zero(n),
    ensures
        -l1(n) < dot(reject_from(v, n), n) < l1(n),
        divides_each(reject_numerator(v, n), len_sq(n)) ==> dot(reject_from(v, n), n) == 0,
{
    let m = len_sq(n);
    let d = dot(v, n);
    let e = reject_numerator(v, n);
    lemma_len_sq_nonneg(n);
    lemma_rounded_dot(e, m, n);
    lemma_numerator_term(v.x, n.x, m, d);
    lemma_numerator_term(v.y, n.y, m, d);
    lemma_numerator_term(v.z, n.z, m, d);
    crate::vector::lemma_dist3(m, v.x * n.x, v.y * n.y, v.z * n.z);
    crate::vector::lemma_dist3(d, n.x * n.x, n.y * n.y, n.z * n.z);
    assert(m * d == d * m) by (nonlinear_arith);
    assert(dot(e, n) == 0);
    lemma_scaled_bound(dot(reject_from(v, n), n), m, l1(n));
    if divides_each(e, m) {
        let g = dot(reject_from(v, n), n);
        assert(g == 0) by (nonlinear_arith)
            requires
                m > 0,
                m * g == 0,
        ;
    }
}

proof fn lemma_numerator_term(v: int, n: int, m: int, d: int)
    ensures
        (v * m - n * d) * n == m * (v * n) - d * (n * n),
{
    assert((v * m - n * d) * n == m * (v * n) - d * (n * n)) by (nonlinear_arith);
}

proof fn lemma_scaled_term(c: int, k: int, a: int)
    ensures
        (c * k) * a == k * (c * a),
{
    assert((c * k) * a == k * (c * a)) by (nonlinear_arith);
}

proof fn lemma_cross_term(ry: int, rz: int, cy: int, cz: int, k: int, m: int)
    requires
        m * ry == cy * k,
        m * rz == cz * k,
    ensures
        m * (ry * cz - rz * cy) == 0,
{
    assert(m * (ry * cz - rz * cy) == (m * ry) * cz - (m * rz) * cy) by (nonlinear_arith);
    assert((cy * k) * cz - (cz * k) * cy == 0) by (nonlinear_arith);
}

/// `|g| < b` from `|m g| < m b` with `m > 0`.
proof fn lemma_scaled_bound(g: int, m: int, b: int)
    requires
        m > 0,
        -(m * b) < m * g < m * b,
    ensures
        -b < g < b,
{
    assert(-b < g < b) by (nonlinear_arith)
        requires
            m > 0,
            -(m * b) < m * g < m * b,
    ;
}

/// `a · (a × b) == 0` and `b · (a × b) == 0`.
pub proof fn lemma_cross_orthogonal(a: IVec, b: IVec)
    ensures
        dot(cross(a, b), a) == 0,
        dot(cross(a, b), b) == 0,
{
    lemma_triple(a.x, a.y, a.z, b.x, b.y, b.z);
    lemma_triple_b(a.x, a.y, a.z, b.x, b.y, b.z);
}

proof fn lemma_diff_term(p: int, q: int, r: int, s: int, t: int)
    ensures
        (p * q - r * s) * t == t * (p * q) - t * (r * s),
{
    assert((p * q - r * s) * t == t * (p * q) - t * (r * s)) by (nonlinear_arith);
}

proof fn lemma_assoc3(p: int, q: int, r: int)
    ensures
        p * (q * r) == q * (p * r),
        p * (q * r) == r * (p * q),
{
    assert(p * (q * r) == q * (p * r)) by (nonlinear_arith);
    assert(p * (q * r) == r * (p * q)) by (nonlinear_arith);
}

proof fn lemma_triple(ax: int, ay: int, az: int, bx: int, by: int, bz: int)
    ensures
        (ay * bz - az * by) * ax + (az * bx - ax * bz) * ay + (ax * by - ay * bx) * az == 0,
{
    lemma_diff_term(ay, bz, az, by, ax);
    lemma_diff_term(az, bx, ax, bz, ay);
    lemma_diff_term(ax, by, ay, bx, az);
    lemma_assoc3(ax, ay, bz);
    lemma_assoc3(ax, az, by);
    lemma_assoc3(ay, az, bx);
}

proof fn lemma_triple_b(ax: int, ay: int, az: int, bx: int, by: int, bz: int)
    ensures
        (ay * bz - az * by) * bx + (az * bx - ax * bz) * by + (ax * by - ay * bx) * bz == 0,
{
    lemma_diff_term(ay, bz, az, by, bx);
    lemma_diff_term(az, bx, ax, bz, by);
    lemma_diff_term(ax, by, ay, bx, bz);
    lemma_assoc3(bx, ay, bz);
    lemma_assoc3(bx, az, by);
    lemma_assoc3(by, az, bx);
    lemma_assoc3(by, ax, bz);
    lemma_assoc3(bz, ax, by);
    lemma_assoc3(bz, ay, bx);
    assert(bx * (ay * bz) == ay * (bx * bz)) by (nonlinear_arith);
    assert(by * (ax * bz) == ax * (by * bz)) by (nonlinear_arith);
    assert(bz * (ax * by) == ax * (by * bz)) by (nonlinear_arith);
    assert(bx * (az * by) == az * (bx * by)) by (nonlinear_arith);
    assert(by * (az * bx) == az * (bx * by)) by (nonlinear_arith);
    assert(bz * (ay * bx) == ay * (bx * bz)) by (nonlinear_arith);
}

/// Moving along the crease of two planes keeps the velocity in both planes
/// up to rounding; where the divisions are exact it is parallel to the
/// crease `a × b` and perpendicular to both normals.
pub proof fn lemma_crease_slide(v: IVec, a: IVec, b: IVec)
    requires
        !is_zero(a),
        !is_zero(b),
        !is_zero(cross(a, b)),
    ensures
        -l1(a) < dot(project_onto(v, cross(a, b)), a) < l1(a),
        -l1(b) < dot(project_onto(v, cross(a, b)), b) < l1(b),
        divides_each(scale(cross(a, b), dot(v, cross(a, b))), len_sq(cross(a, b))) ==> {
            &&& dot(project_onto(v, cross(a, b)), a) == 0
            &&& dot(project_onto(v, cross(a, b)), b) == 0
            &&& is_zero(cross(project_onto(v, cross(a, b)), cross(a, b)))
        },
{
    let c = cross(a, b);
    let k = dot(v, c);
    let m = len_sq(c);
    let e = scale(c, k);
    let r = project_onto(v, c);
    lemma_len_sq_nonneg(c);
    lemma_cross_orthogonal(a, b);
    lemma_rounded_dot(e, m, a);
    lemma_rounded_dot(e, m, b);
    lemma_scaled_term(c.x, k, a.x);
    lemma_scaled_term(c.y, k, a.y);
    lemma_scaled_term(c.z, k, a.z);
    lemma_scaled_term(c.x, k, b.x);
    lemma_scaled_term(c.y, k, b.y);
    lemma_scaled_term(c.z, k, b.z);
    crate::vector::lemma_dist3(k, c.x * a.x, c.y * a.y, c.z * a.z);
    crate::vector::lemma_dist3(k, c.x * b.x, c.y * b.y, c.z * b.z);
    assert(dot(e, a) == 0 && dot(e, b) == 0);
    lemma_scaled_bound(dot(r, a), m, l1(a));
    lemma_scaled_bound(dot(r, b), m, l1(b));
    if divides_each(e, m) {
        vstd::arithmetic::div_mod::lemma_fundamental_div_mod(e.x, m);
        lemma_exact_parallel(r, c, k, m);
        assert(m * dot(r, a) == 0 && m * dot(r, b) == 0);
        assert(dot(r, a) == 0 && dot(r, b) == 0) by (nonlinear_arith)
            requires
                m > 0,
                m * dot(r, a) == 0,
                m * dot(r, b) == 0,
        ;
    }
}

/// Where `m r == k c` component by component, `r` is parallel to `c`.
proof fn lemma_exact_parallel(r: IVec, c: IVec, k: int, m: int)
    requires
        m > 0,
        divides_each(scale(c, k), m),
        r == div_each(scale(c, k), m),
    ensures
        is_zero(cross(r, c)),
{
    crate::vector::lemma_tdiv_rem(c.x * k, m);
    crate::vector::lemma_tdiv_rem(c.y * k, m);
    crate::vector::lemma_tdiv_rem(c.z * k, m);
    assert(m * r.x == c.x * k && m * r.y == c.y * k && m * r.z == c.z * k);
    let x = cross(r, c);
    lemma_cross_term(r.y, r.z, c.y, c.z, k, m);
    lemma_cross_term(r.z, r.x, c.z, c.x, k, m);
    lemma_cross_term(r.x, r.y, c.x, c.y, k, m);
    assert(x.x == 0 && x.y == 0 && x.z == 0) by (nonlinear_arith)
        requires
            m > 0,
            m * x.x == 0 && m * x.y == 0 && m * x.z == 0,
    ;
}

/// Three planes, none similar to another, make a corner, which stops all
/// motion.
pub proof fn lemma_corner_stops(s: Seq<Vec3>, v: IVec)
    requires
        s.len() == 3,
    ensures
        classify(s) matches Some(PlaneType::Corner(..)),
        classify(s).unwrap().projected(v) == zero(),
{
}

} // verus!
