//! The move-and-slide loop, as a state machine that the host drives: it asks
//! for a sweep, is told what the sweep hit, and is told what to do about each
//! new contact plane.
use vstd::prelude::*;
use crate::planes::{classify, inserted, similar, PlaneType, SlidePlanes};
use crate::vector::NORMAL_LIMIT;
use crate::sweep::{is_isqrt, length, safe_distance, sweep_check, SweepHit, SweepRequest, EPSILON_LIMIT};
use crate::vector::{
    div_each, div_toward_zero, dot, is_zero, iabs, len_sq, lemma_len_sq_nonneg, lemma_mul_bound,
    lemma_speed_ok_within, lemma_tdiv, narrow, scale, speed_ok, tdiv, vadd, vsub, within, IVec,
    Vec3, POSITION_LIMIT, SPEED_LIMIT, WIDE_LIMIT,
};

verus! {

/// Microseconds per second: velocities are in length units per second and
/// times in microseconds.
pub const TIME_SCALE: i64 = 1_000_000;

/// The motion of velocity `v` over `t` microseconds, each component rounded
/// toward zero.
pub open spec fn motion_of(v: IVec, t: int) -> IVec {
    div_each(scale(v, t), TIME_SCALE as int)
}

/// `p` moved along `m` by the fraction `safe / len` of it.
pub open spec fn advance(p: IVec, m: IVec, safe: int, len: int) -> IVec {
    vadd(p, div_each(scale(m, safe), len))
}

pub open spec fn vec3_of(v: IVec) -> Vec3 {
    Vec3 { x: v.x as i64, y: v.y as i64, z: v.z as i64 }
}

/// The integer square root, where it exists.
pub open spec fn isqrt_of(n: int) -> int {
    choose|r: int| is_isqrt(r, n)
}

pub proof fn lemma_isqrt_unique(r: int, n: int)
    requires
        is_isqrt(r, n),
    ensures
        isqrt_of(n) == r,
{
    let s = isqrt_of(n);
    assert(is_isqrt(s, n));
    if s < r {
        assert((s + 1) * (s + 1) <= r * r) by (nonlinear_arith)
            requires
                0 <= s < r,
        ;
    }
    if r < s {
        assert((r + 1) * (r + 1) <= s * s) by (nonlinear_arith)
            requires
                0 <= r < s,
        ;
    }
}

/// Settings of one resolve.
#[derive(Clone, Copy, Debug, PartialEq, Eq, Structural)]
pub struct MoveAndSlideConfig {
    /// How many sweeps one resolve may make.
    pub max_substeps: u8,
    /// The skin width kept between the collider and a surface.
    pub epsilon: i64,
}

impl MoveAndSlideConfig {
    pub open spec fn valid(&self) -> bool {
        0 <= self.epsilon <= EPSILON_LIMIT
    }
}

impl Default for MoveAndSlideConfig {
    /// Four substeps and a skin width of ten units (a centimetre, in
    /// millimetres).
    fn default() -> (r: Self)
        ensures
            r == (MoveAndSlideConfig { max_substeps: 4, epsilon: 10 }),
    {
        MoveAndSlideConfig { max_substeps: 4, epsilon: 10 }
    }
}

/// What the host decides about a contact.
#[derive(Clone, Copy, Debug, PartialEq, Eq, Structural)]
pub struct SlideResult {
    /// The new translation.
    pub translation: Vec3,
    /// The new velocity.
    pub velocity: Vec3,
    /// Simulation time used up, taken from the time left.
    pub elapsed_time: i64,
}

impl SlideResult {
    pub open spec fn valid(&self) -> bool {
        &&& within(self.translation@, POSITION_LIMIT as int)
        &&& speed_ok(self.velocity@)
        &&& self.elapsed_time >= 0
    }
}

/// A new contact plane, handed to the host to decide on.
#[derive(Clone, Copy, Debug, PartialEq, Eq, Structural)]
pub struct Slide {
    /// What the sweep hit.
    pub hit: SweepHit,
    /// How the planes met so far constrain the motion.
    pub plane: PlaneType,
    /// The translation after moving up to the surface.
    pub translation: Vec3,
    /// The velocity before it meets the plane.
    pub velocity: Vec3,
    /// The motion that was swept.
    pub direction: Vec3,
    /// How far the character moved before the contact.
    pub incoming_motion: i64,
    /// How much of the swept motion is left.
    pub remaining_motion: i64,
}

impl Slide {
    /// The ordinary answer to a contact: stay, and slide the velocity along
    /// the planes.
    pub fn project_motion(self) -> (r: SlideResult)
        requires
            self.plane.valid(),
            speed_ok(self.velocity@),
        ensures
            r.translation == self.translation,
            r.velocity@ == self.plane.projected(self.velocity@),
            r.elapsed_time == 0,
    {
        SlideResult {
            translation: self.translation,
            velocity: self.plane.project_motion(self.velocity),
            elapsed_time: 0,
        }
    }
}

/// The host's answer to a contact.
#[derive(Clone, Copy, Debug, PartialEq, Eq, Structural)]
pub enum SlideDecision {
    /// Slide the velocity along the planes met so far.
    Slide,
    /// Take these values instead, for instance after climbing a step.
    Replace(SlideResult),
    /// End the resolve here.
    Stop,
}

/// Where a resolve stands.
#[derive(Clone, Copy, Debug, PartialEq, Eq, Structural)]
pub enum Phase {
    /// A sweep is to be requested.
    Ready,
    /// A sweep of `motion`, `length` long, has been requested.
    Swept { motion: Vec3, length: i64 },
    /// A new contact plane waits for the host's decision.
    Hit(PlaneType),
    /// The resolve is over.
    Done,
}

/// The state of a resolve, as values.
pub struct SlideView {
    pub origin: IVec,
    pub translation: IVec,
    pub velocity: IVec,
    pub original_velocity: IVec,
    pub remaining_time: int,
    pub substep: int,
    pub max_substeps: int,
    pub epsilon: int,
    pub phase: Phase,
    pub planes: Seq<Vec3>,
}

/// The outcome of a resolve.
#[derive(Clone, Copy, Debug, PartialEq, Eq, Structural)]
pub struct MoveAndSlideResult {
    pub translation: Vec3,
    pub velocity: Vec3,
    pub remaining_time: i64,
    /// How the planes met constrain the motion, if any were met.
    pub plane: Option<PlaneType>,
    /// `translation` minus the starting translation.
    pub applied_motion: Vec3,
}

/// One resolve of a moving collider against the world.
pub struct MoveAndSlide {
    pub origin: Vec3,
    pub translation: Vec3,
    pub velocity: Vec3,
    pub original_velocity: Vec3,
    pub remaining_time: i64,
    pub substep: u8,
    pub config: MoveAndSlideConfig,
    pub phase: Phase,
    pub planes: SlidePlanes,
}

impl View for MoveAndSlide {
    type V = SlideView;

    open spec fn view(&self) -> SlideView {
        SlideView {
            origin: self.origin@,
            translation: self.translation@,
            velocity: self.velocity@,
            original_velocity: self.original_velocity@,
            remaining_time: self.remaining_time as int,
            substep: self.substep as int,
            max_substeps: self.config.max_substeps as int,
            epsilon: self.config.epsilon as int,
            phase: self.phase,
            planes: self.planes@,
        }
    }
}

/// The start of a resolve: nothing to do for a zero velocity.
pub open spec fn started(
    origin: IVec,
    velocity: IVec,
    max_substeps: int,
    epsilon: int,
    delta_time: int,
) -> SlideView {
    SlideView {
        origin,
        translation: origin,
        velocity,
        original_velocity: velocity,
        remaining_time: delta_time,
        substep: 0,
        max_substeps,
        epsilon,
        phase: if is_zero(velocity) {
            Phase::Done
        } else {
            Phase::Ready
        },
        planes: Seq::empty(),
    }
}

/// After a sweep is asked for: the motion for the time left, unless the
/// substeps are used up or there is no motion.
pub open spec fn requested(s: SlideView) -> SlideView {
    match s.phase {
        Phase::Ready => {
            let m = motion_of(s.velocity, s.remaining_time);
            if s.substep >= s.max_substeps || is_zero(m) {
                SlideView { phase: Phase::Done, ..s }
            } else {
                SlideView {
                    phase: Phase::Swept { motion: vec3_of(m), length: isqrt_of(len_sq(m)) as i64 },
                    ..s
                }
            }
        },
        _ => s,
    }
}

/// After the sweep's answer: nothing hit moves the whole motion and ends
/// the resolve; a hit moves up to the safe distance, spends the matching
/// share of the time, and adds its plane unless an equal one is held.
pub open spec fn applied(s: SlideView, hit: Option<SweepHit>) -> SlideView {
    match s.phase {
        Phase::Swept { motion, length } => match hit {
            None => SlideView {
                translation: vadd(s.translation, motion@),
                substep: s.substep + 1,
                phase: Phase::Done,
                ..s
            },
            Some(h) => {
                let safe = safe_distance(h.distance as int, s.epsilon, length as int);
                let moved = SlideView {
                    translation: advance(s.translation, motion@, safe, length as int),
                    remaining_time: tdiv(s.remaining_time * (length - safe), length as int),
                    substep: s.substep + 1,
                    ..s
                };
                if is_zero(h.normal@) || exists|i: int|
                    0 <= i < s.planes.len() && similar(#[trigger] s.planes[i]@, h.normal@) {
                    SlideView { phase: Phase::Ready, ..moved }
                } else {
                    let planes = inserted(s.planes, h.normal);
                    SlideView { planes, phase: Phase::Hit(classify(planes).unwrap()), ..moved }
                }
            },
        },
        _ => s,
    }
}

/// The contact handed to the host after `applied(s, hit)`, if any.
pub open spec fn slide_of(s: SlideView, hit: Option<SweepHit>) -> Option<Slide> {
    let t = applied(s, hit);
    match (s.phase, t.phase, hit) {
        (Phase::Swept { motion, length }, Phase::Hit(plane), Some(h)) => {
            let safe = safe_distance(h.distance as int, s.epsilon, length as int);
            Some(
                Slide {
                    hit: h,
                    plane,
                    translation: vec3_of(t.translation),
                    velocity: vec3_of(s.velocity),
                    direction: motion,
                    incoming_motion: safe as i64,
                    remaining_motion: (length - safe) as i64,
                },
            )
        },
        _ => None,
    }
}

/// After the host's decision: the new velocity (and translation and time)
/// take effect, and the resolve ends where it was told to stop or where the
/// velocity no longer goes along the original one.
pub open spec fn decided(s: SlideView, decision: SlideDecision) -> SlideView {
    match s.phase {
        Phase::Hit(plane) => {
            let t = match decision {
                SlideDecision::Slide => SlideView { velocity: plane.projected(s.velocity), ..s },
                SlideDecision::Replace(r) => SlideView {
                    translation: r.translation@,
                    velocity: r.velocity@,
                    remaining_time: if s.remaining_time - r.elapsed_time > 0 {
                        s.remaining_time - r.elapsed_time
                    } else {
                        0
                    },
                    ..s
                },
                SlideDecision::Stop => s,
            };
            if decision is Stop || dot(t.velocity, s.original_velocity) <= 0 {
                SlideView { phase: Phase::Done, ..t }
            } else {
                SlideView { phase: Phase::Ready, ..t }
            }
        },
        _ => s,
    }
}

/// The result of a resolve in state `s`.
pub open spec fn result_of(s: SlideView) -> MoveAndSlideResult {
    MoveAndSlideResult {
        translation: vec3_of(s.translation),
        velocity: vec3_of(s.velocity),
        remaining_time: s.remaining_time as i64,
        plane: classify(s.planes),
        applied_motion: vec3_of(vsub(s.translation, s.origin)),
    }
}

impl MoveAndSlide {
    pub open spec fn wf(&self) -> bool {
        let s = self@;
        &&& self.config.valid()
        &&& within(s.origin, POSITION_LIMIT as int)
        &&& within(s.translation, POSITION_LIMIT as int + s.substep * SPEED_LIMIT as int)
        &&& speed_ok(s.velocity)
        &&& speed_ok(s.original_velocity)
        &&& 0 <= s.remaining_time <= TIME_SCALE
        &&& s.substep <= s.max_substeps
        &&& self.planes.wf()
        &&& match s.phase {
            Phase::Swept { motion, length } => {
                &&& speed_ok(motion@)
                &&& !is_zero(motion@)
                &&& is_isqrt(length as int, len_sq(motion@))
                &&& s.substep < s.max_substeps
            },
            Phase::Hit(plane) => plane.valid(),
            _ => true,
        }
    }

    /// Starts a resolve of a collider at `origin` moving at `velocity` for
    /// `delta_time` microseconds.
    pub fn new(origin: Vec3, velocity: Vec3, config: MoveAndSlideConfig, delta_time: i64) -> (r:
        MoveAndSlide)
        requires
            within(origin@, POSITION_LIMIT as int),
            speed_ok(velocity@),
            config.valid(),
            0 <= delta_time <= TIME_SCALE,
        ensures
            r.wf(),
            r@ == started(
                origin@,
                velocity@,
                config.max_substeps as int,
                config.epsilon as int,
                delta_time as int,
            ),
    {
        MoveAndSlide {
            origin,
            translation: origin,
            velocity,
            original_velocity: velocity,
            remaining_time: delta_time,
            substep: 0,
            config,
            phase: if velocity.is_zero() {
                Phase::Done
            } else {
                Phase::Ready
            },
            planes: SlidePlanes::new(),
        }
    }

    /// Whether the resolve is over.
    pub fn is_done(&self) -> (r: bool)
        ensures
            r == (self.phase is Done),
    {
        match self.phase {
            Phase::Done => true,
            _ => false,
        }
    }

    /// The sweep to perform next, if the resolve goes on: along the motion
    /// for the time left, from the current translation.
    pub fn next_sweep(&mut self) -> (r: Option<SweepRequest>)
        requires
            old(self).wf(),
        ensures
            final(self).wf(),
            final(self)@ == requested(old(self)@),
            r == (match final(self).phase {
                Phase::Swept { motion, length } => Some(
                    SweepRequest {
                        origin: final(self).translation,
                        direction: motion,
                        max_distance: (length + final(self).config.epsilon) as i64,
                        target_distance: final(self).config.epsilon,
                    },
                ),
                _ => None,
            }),
    {
        match self.phase {
            Phase::Ready => {},
            _ => {
                return match self.phase {
                    Phase::Swept { motion, length } => {
                        proof {
                            lemma_len_sq_nonneg(motion@);
                            crate::sweep::lemma_isqrt_bound(
                                length as int,
                                len_sq(motion@),
                                SPEED_LIMIT as int,
                            );
                        }
                        Some(
                        crate::sweep::sweep_request(
                            self.translation,
                            motion,
                            length,
                            self.config.epsilon,
                        ),
                    )
                    },
                    _ => None,
                };
            },
        }
        if self.substep >= self.config.max_substeps {
            self.phase = Phase::Done;
            return None;
        }
        let motion = motion_for(&self.velocity, self.remaining_time);
        if motion.is_zero() {
            self.phase = Phase::Done;
            return None;
        }
        proof {
            lemma_speed_ok_within(motion@);
        }
        let len = length(&motion);
        proof {
            lemma_isqrt_unique(len as int, len_sq(motion@));
            lemma_len_sq_nonneg(motion@);
            crate::sweep::lemma_isqrt_bound(len as int, len_sq(motion@), SPEED_LIMIT as int);
        }
        self.phase = Phase::Swept { motion, length: len };
        Some(crate::sweep::sweep_request(self.translation, motion, len, self.config.epsilon))
    }
}

impl MoveAndSlide {
    /// Takes the answer of the sweep that [`MoveAndSlide::next_sweep`] asked
    /// for. Where it hit a surface whose plane is new, the contact is handed
    /// back for the host to decide on with [`MoveAndSlide::resolve`].
    pub fn apply_sweep(&mut self, hit: Option<SweepHit>) -> (r: Option<Slide>)
        requires
            old(self).wf(),
            old(self).phase is Swept,
            hit matches Some(h) ==> h.valid(),
        ensures
            final(self).wf(),
            final(self)@ == applied(old(self)@, hit),
            r == slide_of(old(self)@, hit),
            r is Some <==> final(self).phase is Hit,
    {
        let (motion, len) = match self.phase {
            Phase::Swept { motion, length } => (motion, length),
            _ => {
                return None;
            },
        };
        proof {
            lemma_speed_ok_within(motion@);
            lemma_len_sq_nonneg(motion@);
            crate::sweep::lemma_isqrt_bound(len as int, len_sq(motion@), SPEED_LIMIT as int);
            assert(POSITION_LIMIT as int + 256 * SPEED_LIMIT as int <= WIDE_LIMIT as int);
        }
        match sweep_check(hit, self.config.epsilon, len) {
            None => {
                self.translation = self.translation.add(&motion);
                self.substep = self.substep + 1;
                self.phase = Phase::Done;
                None
            },
            Some((safe, h)) => {
                let step = advance_by(&motion, safe, len);
                self.translation = self.translation.add(&step);
                let rt = self.remaining_time as i128;
                proof {
                    lemma_scaled_component(rt as int, (len - safe) as int, len as int);
                    lemma_tdiv(rt * (len - safe), len as int);
                    assert(rt * (len - safe) * len >= 0) by (nonlinear_arith)
                        requires
                            rt >= 0,
                            len - safe >= 0,
                            len > 0,
                    ;
                    lemma_mul_bound(rt as int, (len - safe) as int, TIME_SCALE as int, SPEED_LIMIT as int);
                }
                let left = div_toward_zero(rt * (len - safe) as i128, len as i128);
                self.remaining_time = narrow(left);
                self.substep = self.substep + 1;
                match self.planes.insert(h.normal) {
                    None => {
                        self.phase = Phase::Ready;
                        None
                    },
                    Some(plane) => {
                        self.phase = Phase::Hit(plane);
                        Some(
                            Slide {
                                hit: h,
                                plane,
                                translation: self.translation,
                                velocity: self.velocity,
                                direction: motion,
                                incoming_motion: safe,
                                remaining_motion: len - safe,
                            },
                        )
                    },
                }
            },
        }
    }

    /// Takes the host's decision on the contact handed out by
    /// [`MoveAndSlide::apply_sweep`].
    pub fn resolve(&mut self, decision: SlideDecision)
        requires
            old(self).wf(),
            old(self).phase is Hit,
            decision matches SlideDecision::Replace(r) ==> r.valid(),
        ensures
            final(self).wf(),
            final(self)@ == decided(old(self)@, decision),
    {
        let plane = match self.phase {
            Phase::Hit(p) => p,
            _ => {
                return ;
            },
        };
        let stop = match decision {
            SlideDecision::Slide => {
                self.velocity = plane.project_motion(self.velocity);
                false
            },
            SlideDecision::Replace(r) => {
                self.translation = r.translation;
                self.velocity = r.velocity;
                self.remaining_time =
                if self.remaining_time - r.elapsed_time > 0 {
                    self.remaining_time - r.elapsed_time
                } else {
                    0
                };
                false
            },
            SlideDecision::Stop => true,
        };
        proof {
            lemma_speed_ok_within(self.velocity@);
            lemma_speed_ok_within(self.original_velocity@);
        }
        if stop || self.velocity.dot(&self.original_velocity) <= 0 {
            self.phase = Phase::Done;
        } else {
            self.phase = Phase::Ready;
        }
    }

    /// The translation, velocity, time left and planes met so far.
    pub fn result(&self) -> (r: MoveAndSlideResult)
        requires
            self.wf(),
        ensures
            r == result_of(self@),
    {
        proof {
            assert(POSITION_LIMIT as int + 256 * SPEED_LIMIT as int <= WIDE_LIMIT as int);
        }
        MoveAndSlideResult {
            translation: self.translation,
            velocity: self.velocity,
            remaining_time: self.remaining_time,
            plane: self.planes.plane_type(),
            applied_motion: self.translation.sub(&self.origin),
        }
    }
}

/// The part `safe / len` of the motion `m`.
fn advance_by(m: &Vec3, safe: i64, len: i64) -> (r: Vec3)
    requires
        speed_ok(m@),
        0 <= safe <= len,
        len > 0,
        len <= SPEED_LIMIT,
    ensures
        r@ == div_each(scale(m@, safe as int), len as int),
        within(r@, SPEED_LIMIT as int),
{
    proof {
        lemma_speed_ok_within(m@);
        let l = SPEED_LIMIT as int;
        lemma_mul_bound(m.x as int, safe as int, l, l);
        lemma_mul_bound(m.y as int, safe as int, l, l);
        lemma_mul_bound(m.z as int, safe as int, l, l);
        lemma_scaled_component(m.x as int, safe as int, len as int);
        lemma_scaled_component(m.y as int, safe as int, len as int);
        lemma_scaled_component(m.z as int, safe as int, len as int);
    }
    let x = div_toward_zero(m.x as i128 * safe as i128, len as i128);
    let y = div_toward_zero(m.y as i128 * safe as i128, len as i128);
    let z = div_toward_zero(m.z as i128 * safe as i128, len as i128);
    Vec3 { x: narrow(x), y: narrow(y), z: narrow(z) }
}

/// The motion of `v` over `t` microseconds.
pub fn motion_for(v: &Vec3, t: i64) -> (r: Vec3)
    requires
        speed_ok(v@),
        0 <= t <= TIME_SCALE,
    ensures
        r@ == motion_of(v@, t as int),
        speed_ok(r@),
        len_sq(r@) <= len_sq(v@),
{
    proof {
        lemma_speed_ok_within(v@);
        let l = SPEED_LIMIT as int;
        lemma_mul_bound(v.x as int, t as int, l, TIME_SCALE as int);
        lemma_mul_bound(v.y as int, t as int, l, TIME_SCALE as int);
        lemma_mul_bound(v.z as int, t as int, l, TIME_SCALE as int);
    }
    let s = TIME_SCALE as i128;
    let x = div_toward_zero(v.x as i128 * t as i128, s);
    let y = div_toward_zero(v.y as i128 * t as i128, s);
    let z = div_toward_zero(v.z as i128 * t as i128, s);
    proof {
        lemma_scaled_component(v.x as int, t as int, TIME_SCALE as int);
        lemma_scaled_component(v.y as int, t as int, TIME_SCALE as int);
        lemma_scaled_component(v.z as int, t as int, TIME_SCALE as int);
    }
    let r = Vec3 { x: narrow(x), y: narrow(y), z: narrow(z) };
    r
}

/// `tdiv(a * t, s)` is no larger than `a` in magnitude when `|t| <= s`.
pub proof fn lemma_scaled_component(a: int, t: int, s: int)
    requires
        -s <= t <= s,
        s > 0,
    ensures
        iabs(tdiv(a * t, s)) <= iabs(a),
        tdiv(a * t, s) * tdiv(a * t, s) <= a * a,
{
    let q = tdiv(a * t, s);
    lemma_tdiv(a * t, s);
    assert(iabs(a * t) <= iabs(a) * s) by (nonlinear_arith)
        requires
            -s <= t <= s,
            iabs(a) == (if a >= 0 { a } else { -a }),
            iabs(a * t) == (if a * t >= 0 { a * t } else { -(a * t) }),
    ;
    assert(iabs(q) <= iabs(a)) by (nonlinear_arith)
        requires
            iabs(a * t) <= iabs(a) * s,
            s > 0,
            iabs(q) * s <= iabs(a * t),
            iabs(q) >= 0,
            iabs(a) == (if a >= 0 { a } else { -a }),
            iabs(a * t) == (if a * t >= 0 { a * t } else { -(a * t) }),
    ;
    assert(q * q <= a * a) by (nonlinear_arith)
        requires
            iabs(q) <= iabs(a),
            iabs(q) == (if q >= 0 { q } else { -q }),
            iabs(a) == (if a >= 0 { a } else { -a }),
    ;
}

/// Sweeping through empty space moves by exactly the velocity times the time:
/// a resolve that asks for its sweep and is told that nothing was hit ends at
/// `origin + motion_of(velocity, delta_time)` (where there is no motion at
/// all it ends at once, at `origin`).
pub proof fn lemma_free_motion(
    origin: IVec,
    velocity: IVec,
    max_substeps: int,
    epsilon: int,
    delta_time: int,
)
    requires
        max_substeps > 0,
        speed_ok(velocity),
        0 <= delta_time <= TIME_SCALE,
    ensures
        ({
            let s = requested(started(origin, velocity, max_substeps, epsilon, delta_time));
            let e = if s.phase is Swept {
                applied(s, None)
            } else {
                s
            };
            &&& e.phase is Done
            &&& e.translation == vadd(origin, motion_of(velocity, delta_time))
        }),
{
    let m = motion_of(velocity, delta_time);
    lemma_speed_ok_within(velocity);
    lemma_scaled_component(velocity.x, delta_time, TIME_SCALE as int);
    lemma_scaled_component(velocity.y, delta_time, TIME_SCALE as int);
    lemma_scaled_component(velocity.z, delta_time, TIME_SCALE as int);
    if is_zero(velocity) {
        lemma_tdiv(0, TIME_SCALE as int);
        assert(velocity.x * delta_time == 0 && velocity.y * delta_time == 0 && velocity.z
            * delta_time == 0) by (nonlinear_arith)
            requires
                velocity.x == 0 && velocity.y == 0 && velocity.z == 0,
        ;
    }
    assert(vec3_of(m)@ == m);
}

/// A character at rest stays put: a resolve with zero velocity ends at once,
/// with the translation unchanged and the velocity still zero, so the next
/// tick starts from exactly the same state and no number of ticks drifts.
pub proof fn lemma_at_rest(origin: IVec, max_substeps: int, epsilon: int, delta_time: int)
    requires
        within(origin, POSITION_LIMIT as int),
    ensures
        ({
            let s = started(origin, crate::vector::zero(), max_substeps, epsilon, delta_time);
            let r = result_of(s);
            &&& s.phase is Done
            &&& requested(s) == s
            &&& r.translation@ == origin
            &&& r.velocity@ == crate::vector::zero()
            &&& r.applied_motion@ == crate::vector::zero()
            &&& started(r.translation@, r.velocity@, max_substeps, epsilon, delta_time) == s
        }),
{
}

/// Sweeping into a plane and sliding leaves no velocity into or out of it
/// beyond rounding: under one length unit per axis of the normal, and none
/// where the divisions are exact.
pub proof fn lemma_slide_into_plane(s: SlideView, n: Vec3)
    requires
        s.phase == Phase::Hit(PlaneType::Plane(n)),
        !is_zero(n@),
    ensures
        ({
            let v = decided(s, SlideDecision::Slide).velocity;
            &&& -crate::vector::l1(n@) < dot(v, n@) < crate::vector::l1(n@)
            &&& crate::vector::divides_each(
                crate::vector::reject_numerator(s.velocity, n@),
                len_sq(n@),
            ) ==> dot(v, n@) == 0
        }),
{
    crate::planes::lemma_plane_slide(s.velocity, n@);
}

/// Sweeping into the crease of two planes and sliding moves along the
/// crease: the velocity stays in both planes up to rounding, and where the
/// divisions are exact it is parallel to `first × second`.
pub proof fn lemma_slide_into_crease(s: SlideView, crease: Vec3, first: Vec3, second: Vec3)
    requires
        s.phase == Phase::Hit(PlaneType::Crease { crease, first, second }),
        crease@ == crate::vector::cross(first@, second@),
        !is_zero(first@),
        !is_zero(second@),
        !is_zero(crease@),
    ensures
        ({
            let v = decided(s, SlideDecision::Slide).velocity;
            let c = crate::vector::cross(first@, second@);
            &&& -crate::vector::l1(first@) < dot(v, first@) < crate::vector::l1(first@)
            &&& -crate::vector::l1(second@) < dot(v, second@) < crate::vector::l1(second@)
            &&& crate::vector::divides_each(scale(c, dot(s.velocity, c)), len_sq(c)) ==> is_zero(
                crate::vector::cross(v, c),
            )
        }),
{
    crate::planes::lemma_crease_slide(s.velocity, first@, second@);
}

/// Sweeping into a corner of three planes and sliding stops: the velocity
/// is zero, and the resolve is over.
pub proof fn lemma_slide_into_corner(s: SlideView, a: Vec3, b: Vec3, c: Vec3)
    requires
        s.phase == Phase::Hit(PlaneType::Corner(a, b, c)),
    ensures
        decided(s, SlideDecision::Slide).velocity == crate::vector::zero(),
        decided(s, SlideDecision::Slide).phase is Done,
{
}

/// The crease handed out for two planes is their cross product.
pub proof fn lemma_crease_is_cross(s: Seq<Vec3>)
    requires
        s.len() == 2,
        forall|i: int| 0 <= i < 2 ==> crate::vector::valid_normal(#[trigger] s[i]@),
        !is_zero(crate::vector::cross(s[0]@, s[1]@)),
    ensures
        classify(s) matches Some(PlaneType::Crease { crease, first, second }) && crease@
            == crate::vector::cross(first@, second@) && first == s[0] && second == s[1],
{
    assert(crate::vector::valid_normal(s[0]@) && crate::vector::valid_normal(s[1]@));
    crate::vector::lemma_cross_bound(s[0]@, s[1]@, NORMAL_LIMIT as int, NORMAL_LIMIT as int);
}

/// A resolve makes at most `max_substeps` sweeps: each answered sweep uses
/// up a substep, no other step does, and none is asked for once they are
/// used up.
pub proof fn lemma_bounded_sweeps(s: SlideView, hit: Option<SweepHit>, decision: SlideDecision)
    ensures
        s.phase is Swept ==> applied(s, hit).substep == s.substep + 1,
        requested(s).substep == s.substep,
        decided(s, decision).substep == s.substep,
        s.phase is Ready && s.substep >= s.max_substeps ==> requested(s).phase is Done,
{
}

} // verus!
