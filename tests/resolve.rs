use kcc_prototype::character::{acceleration, Character};
use kcc_prototype::ground::{find_floor, ground_check, is_walkable, Floor, Ground, WalkableAngle};
use kcc_prototype::planes::{similar_plane, solve_collision_planes, PlaneType, SlidePlanes};
use kcc_prototype::projection::{project_motion, project_motion_on_ground, project_motion_on_wall};
use kcc_prototype::slide::{
    motion_for, MoveAndSlide, MoveAndSlideConfig, Phase, SlideDecision, SlideResult,
};
use kcc_prototype::character::{contact_response, Contact};
use kcc_prototype::step::{along_by, inward_distance, step_probe, step_up_motion, try_climb_step};
use kcc_prototype::sweep::{isqrt, length, sweep_check, sweep_request, SweepHit, SweepRequest};
use kcc_prototype::vector::Vec3;

const SECOND: i64 = 1_000_000;

fn v(x: i64, y: i64, z: i64) -> Vec3 {
    Vec3::new(x, y, z)
}

fn up() -> Vec3 {
    v(0, 1, 0)
}

fn deg45() -> WalkableAngle {
    WalkableAngle { cos: 707_107 }
}

#[test]
fn wall_scenario_stops_skin_width_short() {
    // 5 m/s toward a wall 2 m ahead, in millimetres, over one second.
    let config = MoveAndSlideConfig { max_substeps: 4, epsilon: 10 };
    let mut s = MoveAndSlide::new(v(0, 0, 0), v(5000, 0, 0), config, SECOND);
    let req = s.next_sweep().unwrap();
    assert_eq!(req.direction, v(5000, 0, 0));
    assert_eq!(req.max_distance, 5010);
    assert_eq!(req.target_distance, 10);
    let hit = SweepHit { distance: 2000, normal: v(-1024, 0, 0), entity: 7 };
    let slide = s.apply_sweep(Some(hit)).unwrap();
    assert_eq!(slide.translation, v(1990, 0, 0));
    assert_eq!(slide.incoming_motion, 1990);
    assert_eq!(slide.remaining_motion, 3010);
    assert_eq!(slide.plane, PlaneType::Plane(v(-1024, 0, 0)));
    s.resolve(SlideDecision::Slide);
    assert!(s.is_done());
    let r = s.result();
    assert_eq!(r.translation, v(1990, 0, 0));
    assert_eq!(r.velocity, v(0, 0, 0));
    assert_eq!(r.applied_motion, v(1990, 0, 0));
    assert_eq!(r.remaining_time, 602_000);
    assert_eq!(r.plane, Some(PlaneType::Plane(v(-1024, 0, 0))));
}

#[test]
fn wall_scenario_keeps_the_other_axes() {
    let config = MoveAndSlideConfig::default();
    let mut s = MoveAndSlide::new(v(0, 0, 0), v(5000, -300, 700), config, SECOND);
    s.next_sweep().unwrap();
    let hit = SweepHit { distance: 2000, normal: v(-1024, 0, 0), entity: 1 };
    let slide = s.apply_sweep(Some(hit)).unwrap();
    s.resolve(SlideDecision::Slide);
    let r = s.result();
    assert_eq!(r.velocity, v(0, -300, 700));
    assert_eq!(slide.velocity, v(5000, -300, 700));
}

#[test]
fn slope_scenario_lands_on_walkable_ground() {
    // 5 m/s along +z onto a ramp rising at 20 degrees.
    let normal = v(0, 962, -350);
    let config = MoveAndSlideConfig::default();
    let mut s = MoveAndSlide::new(v(0, 0, 0), v(0, 0, 5000), config, SECOND / 10);
    let req = s.next_sweep().unwrap();
    assert_eq!(req.direction, v(0, 0, 500));
    let slide = s.apply_sweep(Some(SweepHit { distance: 110, normal, entity: 3 })).unwrap();
    assert_eq!(slide.translation, v(0, 0, 100));
    let ground = Ground::new_if_walkable(slide.hit.entity, slide.hit.normal, up(), deg45());
    assert_eq!(ground, Some(Ground { entity: 3, normal }));
    let velocity = project_motion_on_ground(slide.velocity, normal, up());
    // Turned along the slope: rising 20 degrees, still heading +z, and still
    // 5 m/s (up to rounding).
    assert_eq!(velocity, v(0, 1709, 4698));
    let speed_sq = velocity.y * velocity.y + velocity.z * velocity.z;
    assert!(speed_sq <= 5000 * 5000 && speed_sq > 4990 * 4990);
    s.resolve(SlideDecision::Replace(SlideResult {
        translation: slide.translation,
        velocity,
        elapsed_time: 0,
    }));
    assert!(!s.is_done());
    let r = s.result();
    assert_eq!(r.velocity, v(0, 1709, 4698));
}

#[test]
fn empty_space_moves_by_velocity_times_time() {
    let config = MoveAndSlideConfig::default();
    let mut s = MoveAndSlide::new(v(100, 200, 300), v(1234, -5678, 91), config, 16_667);
    let req = s.next_sweep().unwrap();
    assert_eq!(req.origin, v(100, 200, 300));
    assert!(s.apply_sweep(None).is_none());
    assert!(s.is_done());
    let r = s.result();
    // 1234 * 0.016667 = 20.56..., -5678 * 0.016667 = -94.63..., 91 * 0.016667 = 1.51...
    assert_eq!(r.translation, v(120, 106, 301));
    assert_eq!(r.velocity, v(1234, -5678, 91));
    assert_eq!(r.plane, None);
}

#[test]
fn zero_velocity_does_not_drift() {
    let config = MoveAndSlideConfig::default();
    let mut origin = v(5, 6, 7);
    for _ in 0..10 {
        let mut s = MoveAndSlide::new(origin, v(0, 0, 0), config, SECOND / 60);
        assert!(s.is_done());
        assert_eq!(s.next_sweep(), None);
        let r = s.result();
        assert_eq!(r.applied_motion, v(0, 0, 0));
        origin = r.translation;
    }
    assert_eq!(origin, v(5, 6, 7));
}

#[test]
fn substeps_run_out() {
    let config = MoveAndSlideConfig { max_substeps: 1, epsilon: 0 };
    let mut s = MoveAndSlide::new(v(0, 0, 0), v(1000, 0, 1000), config, SECOND);
    s.next_sweep().unwrap();
    let hit = SweepHit { distance: 0, normal: v(-1, 0, 0), entity: 0 };
    s.apply_sweep(Some(hit)).unwrap();
    s.resolve(SlideDecision::Slide);
    assert!(!s.is_done());
    assert_eq!(s.next_sweep(), None);
    assert!(s.is_done());
    assert_eq!(s.result().velocity, v(0, 0, 1000));
}

#[test]
fn repeated_plane_is_not_handed_out_again() {
    let config = MoveAndSlideConfig::default();
    let mut s = MoveAndSlide::new(v(0, 0, 0), v(1000, 0, 1000), config, SECOND);
    s.next_sweep().unwrap();
    let hit = SweepHit { distance: 100, normal: v(-1000, 0, 0), entity: 0 };
    assert!(s.apply_sweep(Some(hit)).is_some());
    s.resolve(SlideDecision::Replace(SlideResult {
        translation: v(0, 0, 0),
        velocity: v(1000, 0, 1000),
        elapsed_time: 0,
    }));
    s.next_sweep().unwrap();
    let again = SweepHit { distance: 50, normal: v(-1001, 10, 0), entity: 0 };
    assert!(s.apply_sweep(Some(again)).is_none());
    assert_eq!(s.phase, Phase::Ready);
}

#[test]
fn stop_decision_ends_the_resolve() {
    let config = MoveAndSlideConfig::default();
    let mut s = MoveAndSlide::new(v(0, 0, 0), v(1000, 0, 0), config, SECOND);
    s.next_sweep().unwrap();
    s.apply_sweep(Some(SweepHit { distance: 500, normal: v(-1, 1, 0), entity: 0 })).unwrap();
    s.resolve(SlideDecision::Stop);
    assert!(s.is_done());
    assert_eq!(s.result().velocity, v(1000, 0, 0));
    assert_eq!(s.result().translation, v(490, 0, 0));
}

#[test]
fn replace_spends_time_but_not_below_zero() {
    let config = MoveAndSlideConfig::default();
    let mut s = MoveAndSlide::new(v(0, 0, 0), v(1000, 0, 0), config, SECOND);
    s.next_sweep().unwrap();
    s.apply_sweep(Some(SweepHit { distance: 510, normal: v(-1, 1, 0), entity: 0 })).unwrap();
    assert_eq!(s.remaining_time, 500_000);
    s.resolve(SlideDecision::Replace(SlideResult {
        translation: v(500, 30, 0),
        velocity: v(1000, 0, 0),
        elapsed_time: 900_000,
    }));
    assert_eq!(s.remaining_time, 0);
    assert_eq!(s.translation, v(500, 30, 0));
    assert_eq!(s.next_sweep(), None);
}

#[test]
fn single_plane_leaves_no_normal_motion() {
    let n = v(-300, 0, 400);
    let r = PlaneType::Plane(n).project_motion(v(5000, 0, 0));
    // exact: (5000,0,0) - n * (-1500000 / 250000) = (5000,0,0) + 6 n = (3200, 0, 2400)
    assert_eq!(r, v(3200, 0, 2400));
    assert_eq!(r.x * n.x + r.y * n.y + r.z * n.z, 0);
}

#[test]
fn single_plane_rounding_stays_under_a_unit() {
    let n = v(-317, 211, 999);
    let vel = v(12_345, -6_789, -4_321);
    let r = PlaneType::Plane(n).project_motion(vel);
    let d = r.x as i128 * n.x as i128 + r.y as i128 * n.y as i128 + r.z as i128 * n.z as i128;
    assert!(d.abs() < (317 + 211 + 999) as i128);
    let before = vel.x as i128 * vel.x as i128 + vel.y as i128 * vel.y as i128
        + vel.z as i128 * vel.z as i128;
    let after = r.x as i128 * r.x as i128 + r.y as i128 * r.y as i128 + r.z as i128 * r.z as i128;
    assert!(after <= before);
}

#[test]
fn crease_is_parallel_to_the_cross_product() {
    let mut planes = SlidePlanes::new();
    assert_eq!(planes.insert(v(-1, 0, 0)), Some(PlaneType::Plane(v(-1, 0, 0))));
    let crease = planes.insert(v(0, 0, -1)).unwrap();
    assert_eq!(
        crease,
        PlaneType::Crease { crease: v(0, -1, 0), first: v(-1, 0, 0), second: v(0, 0, -1) }
    );
    let r = crease.project_motion(v(3000, 2000, 1000));
    assert_eq!(r, v(0, 2000, 0));
}

#[test]
fn crease_of_tilted_planes() {
    let mut planes = SlidePlanes::new();
    planes.insert(v(-1, 1, 0));
    let crease = planes.insert(v(0, 1, -1)).unwrap();
    // (-1,1,0) x (0,1,-1) = (-1,-1,-1)
    assert_eq!(
        crease,
        PlaneType::Crease { crease: v(-1, -1, -1), first: v(-1, 1, 0), second: v(0, 1, -1) }
    );
    let r = crease.project_motion(v(3000, 0, 3000));
    assert_eq!(r, v(2000, 2000, 2000));
    assert_eq!(-r.x + r.y, 0);
    assert_eq!(r.y - r.z, 0);
}

#[test]
fn corner_stops_motion() {
    let mut planes = SlidePlanes::new();
    planes.insert(v(-1, 0, 0));
    planes.insert(v(0, 1, 0));
    let corner = planes.insert(v(0, 0, -1)).unwrap();
    assert_eq!(corner, PlaneType::Corner(v(-1, 0, 0), v(0, 1, 0), v(0, 0, -1)));
    assert_eq!(corner.project_motion(v(100, -200, 300)), v(0, 0, 0));
    assert_eq!(planes.plane_type(), Some(corner));
}

#[test]
fn corner_keeps_the_last_three_planes() {
    let mut planes = SlidePlanes::new();
    planes.insert(v(-1, 0, 0));
    planes.insert(v(0, 1, 0));
    planes.insert(v(0, 0, -1));
    let fourth = planes.insert(v(1, 0, 0)).unwrap();
    assert_eq!(fourth, PlaneType::Corner(v(0, 1, 0), v(0, 0, -1), v(1, 0, 0)));
}

#[test]
fn similar_and_zero_normals_are_rejected() {
    let mut planes = SlidePlanes::new();
    assert_eq!(planes.plane_type(), None);
    assert_eq!(planes.insert(v(0, 0, 0)), None);
    assert_eq!(planes.plane_type(), None);
    planes.insert(v(1000, 0, 0));
    assert_eq!(planes.insert(v(1000, 20, 0)), None);
    assert!(similar_plane(v(1000, 0, 0), v(1000, 20, 0)));
    assert!(!similar_plane(v(1000, 0, 0), v(1000, 100, 0)));
    assert!(!similar_plane(v(1000, 0, 0), v(-1000, 0, 0)));
    assert_eq!(planes.plane_type(), Some(PlaneType::Plane(v(1000, 0, 0))));
}

#[test]
fn opposed_planes_make_a_plane() {
    let mut planes = SlidePlanes::new();
    planes.insert(v(1, 0, 0));
    assert_eq!(planes.insert(v(-1, 0, 0)), Some(PlaneType::Plane(v(-1, 0, 0))));
}

#[test]
fn walkable_is_strict_at_the_angle() {
    // cos 45 degrees = 0.7071067..; the test is cosine > threshold.
    assert!(is_walkable(v(0, 1, 0), up(), deg45()));
    assert!(is_walkable(v(0, 962, -350), up(), deg45()));
    assert!(!is_walkable(v(1, 0, 0), up(), deg45()));
    assert!(!is_walkable(v(0, -1, 0), up(), deg45()));
    // (3, 4, 0) is at exactly the angle whose cosine is 0.8 from up: not
    // walkable at that angle, walkable at any larger one.
    assert!(!is_walkable(v(3, 4, 0), up(), WalkableAngle { cos: 800_000 }));
    assert!(is_walkable(v(3, 4, 0), up(), WalkableAngle { cos: 799_999 }));
    assert!(!is_walkable(v(0, 4, 3), v(0, 1024, 0), WalkableAngle { cos: 800_000 }));
    // (1, 0, 0) against up (1, 1, 1): cosine 1 / sqrt 3 = 0.5773502..
    assert!(!is_walkable(v(1, 0, 0), v(1, 1, 1), WalkableAngle { cos: 577_351 }));
    assert!(is_walkable(v(1, 0, 0), v(1, 1, 1), WalkableAngle { cos: 577_350 }));
    // a threshold past the horizontal (120 degrees): cosine -1/sqrt 5 is
    // above -0.5, cosine -1/sqrt 2 is not
    let wide = WalkableAngle { cos: -500_000 };
    assert!(is_walkable(v(2, -1, 0), up(), wide));
    assert!(!is_walkable(v(1, -1, 0), up(), wide));
    assert!(!is_walkable(v(0, -1, 0), up(), wide));
    assert!(!is_walkable(v(0, 0, 0), up(), wide));
}

#[test]
fn ground_and_floor_constructors() {
    assert_eq!(Ground::new_if_walkable(4, v(1, 0, 0), up(), deg45()), None);
    let g = Ground::new_if_walkable(4, v(0, 5, 1), up(), deg45()).unwrap();
    assert!(g.is_walkable(up(), deg45()));
    assert!(!g.is_walkable(up(), WalkableAngle { cos: 999_999 }));
    assert_eq!(
        Floor::new_if_walkable(2, v(0, 1, 0), 17, up(), deg45()),
        Some(Floor { entity: 2, normal: v(0, 1, 0), distance: 17 })
    );
    assert_eq!(Floor::new_if_walkable(2, v(0, 0, 0), 17, up(), deg45()), None);
}

#[test]
fn ground_check_and_find_floor() {
    let flat = SweepHit { distance: 60, normal: v(0, 1, 0), entity: 9 };
    let steep = SweepHit { distance: 60, normal: v(1, 1, 0), entity: 9 };
    assert_eq!(
        ground_check(Some(flat), 10, 100, up(), deg45()),
        Some((50, Ground { entity: 9, normal: v(0, 1, 0) }))
    );
    assert_eq!(ground_check(Some(steep), 10, 100, up(), deg45()), None);
    assert_eq!(ground_check(None, 10, 100, up(), deg45()), None);
    assert_eq!(
        find_floor(Some(flat), up(), 100, 10, deg45()),
        Some(Floor { entity: 9, normal: v(0, 1, 0), distance: 50 })
    );
    assert_eq!(find_floor(None, up(), 100, 10, deg45()), None);
}

#[test]
fn sweep_check_safe_distance() {
    let h = |d: i64| SweepHit { distance: d, normal: v(0, 1, 0), entity: 0 };
    assert_eq!(sweep_check(Some(h(55)), 10, 100), Some((45, h(55))));
    assert_eq!(sweep_check(Some(h(5)), 10, 100), Some((0, h(5))));
    assert_eq!(sweep_check(Some(h(500)), 10, 100), Some((100, h(500))));
    assert_eq!(sweep_check(None, 10, 100), None);
    assert_eq!(
        sweep_request(v(1, 2, 3), v(0, 0, 1), 100, 10),
        SweepRequest { origin: v(1, 2, 3), direction: v(0, 0, 1), max_distance: 110, target_distance: 10 }
    );
}

#[test]
fn integer_roots_and_lengths() {
    assert_eq!(isqrt(0), 0);
    assert_eq!(isqrt(1), 1);
    assert_eq!(isqrt(15), 3);
    assert_eq!(isqrt(16), 4);
    assert_eq!(isqrt(1 << 60), 1 << 30);
    assert_eq!(length(&v(3, 4, 12)), 13);
    assert_eq!(length(&v(1, 1, 1)), 1);
    assert_eq!(motion_for(&v(1000, -1000, 7), 500_000), v(500, -500, 3));
}

#[test]
fn ground_projection_follows_the_slope() {
    let normal = v(0, 962, -350);
    // walking down the same ramp: heading -z, turned downward
    let down = project_motion_on_ground(v(0, 0, -5000), normal, up());
    assert_eq!(down, v(0, -1709, -4698));
    // downward speed into the ground is dropped
    let falling = project_motion_on_ground(v(0, -3000, 0), normal, up());
    assert_eq!(falling, v(0, 0, 0));
    // upward speed is kept
    let rising = project_motion_on_ground(v(0, 3000, 0), normal, up());
    assert_eq!(rising, v(0, 3000, 0));
    // flat ground changes nothing
    assert_eq!(project_motion_on_ground(v(100, 0, 200), v(0, 1, 0), up()), v(100, 0, 200));
    // a zero normal leaves the motion as it is
    assert_eq!(project_motion_on_ground(v(100, 50, 200), v(0, 0, 0), up()), v(100, 50, 200));
}

#[test]
fn wall_projection_slides_along_the_wall() {
    // a wall facing -x: horizontal motion keeps only its z part
    assert_eq!(project_motion_on_wall(v(1000, 0, 500), v(-1, 0, 0), up()), v(0, 0, 500));
    // a steep slope facing -x and up cannot be climbed: vertical loses its
    // part along the normal, horizontal slides along z
    let r = project_motion_on_wall(v(1000, 600, 500), v(-1, 1, 0), up());
    assert_eq!(r, v(300, 300, 500));
    // a floor-like normal has no horizontal tangent
    assert_eq!(project_motion_on_wall(v(1000, 600, 500), v(0, 1, 0), up()), v(1000, 0, 500));
    assert_eq!(project_motion_on_wall(v(7, 8, 9), v(0, 0, 0), up()), v(7, 8, 9));
}

#[test]
fn project_motion_picks_ground_or_wall() {
    let ramp = v(0, 962, -350);
    assert_eq!(project_motion(v(0, 0, 5000), ramp, up(), deg45()), v(0, 1709, 4698));
    assert_eq!(
        project_motion(v(1000, 0, 500), v(-1, 0, 0), up(), deg45()),
        v(0, 0, 500)
    );
}

#[test]
fn step_climb_succeeds_on_a_low_ledge() {
    let probe = step_probe(v(0, 0, 0), v(300, 0, 0), up(), 250, 10);
    assert_eq!(probe.raised, v(0, 250, 0));
    assert_eq!(probe.horizontal, v(300, 0, 0));
    assert_eq!(
        probe.forward,
        Some(SweepRequest { origin: v(0, 250, 0), direction: v(300, 0, 0), max_distance: 300, target_distance: 0 })
    );
    assert_eq!(
        probe.down,
        SweepRequest { origin: v(300, 250, 0), direction: v(0, -1, 0), max_distance: 260, target_distance: 10 }
    );
    // a 150 mm ledge: the downward sweep meets its top 100 mm below the probe
    let top = SweepHit { distance: 110, normal: v(0, 1, 0), entity: 12 };
    let landed = try_climb_step(&probe, false, Some(top), up(), 250, 10, deg45());
    assert_eq!(landed, Some((v(300, 150, 0), Ground { entity: 12, normal: v(0, 1, 0) })));
}

#[test]
fn step_climb_fails_when_blocked_or_steep_or_empty() {
    let probe = step_probe(v(0, 0, 0), v(300, 0, 0), up(), 250, 10);
    let top = SweepHit { distance: 110, normal: v(0, 1, 0), entity: 12 };
    assert_eq!(try_climb_step(&probe, true, Some(top), up(), 250, 10, deg45()), None);
    let steep = SweepHit { distance: 110, normal: v(1, 1, 0), entity: 12 };
    assert_eq!(try_climb_step(&probe, false, Some(steep), up(), 250, 10, deg45()), None);
    assert_eq!(try_climb_step(&probe, false, None, up(), 250, 10, deg45()), None);
    let still = step_probe(v(0, 0, 0), v(0, 500, 0), up(), 250, 10);
    assert_eq!(still.forward, None);
}

#[test]
fn along_a_long_up_axis() {
    assert_eq!(along_by(&v(0, 1024, 0), 250), v(0, 250, 0));
    assert_eq!(along_by(&v(3, 4, 0), 10), v(6, 8, 0));
}

#[test]
fn character_launch_and_jump() {
    let mut c = Character::default();
    assert!(!c.grounded());
    c.ground = Some(v(0, 1, 0));
    assert!(c.grounded());
    c.launch(v(100, 0, 0));
    assert!(c.grounded());
    assert_eq!(c.velocity, v(100, 0, 0));
    c.velocity = v(100, -2000, 0);
    c.jump(6000);
    assert!(!c.grounded());
    assert_eq!(c.velocity, v(100, 6000, 0));
    c.jump(1000);
    assert_eq!(c.velocity, v(100, 7000, 0));
}

#[test]
fn acceleration_toward_target_speed() {
    let dir = v(0, 0, -1);
    // 100 m/s^2 for 10 ms is 1 m/s, capped at the 8 m/s target
    assert_eq!(acceleration(v(0, 0, 0), dir, 100_000, 8000, 10_000), v(0, 0, -1000));
    assert_eq!(acceleration(v(0, 0, -7500), dir, 100_000, 8000, 10_000), v(0, 0, -500));
    assert_eq!(acceleration(v(0, 0, -9000), dir, 100_000, 8000, 10_000), v(0, 0, 0));
    assert_eq!(acceleration(v(0, 0, 0), v(0, 0, 0), 100_000, 8000, 10_000), v(0, 0, 0));
}

#[test]
fn step_nudge_into_the_obstruction() {
    // 350 mm capsule, 45 degrees: 350 * (1 - 0.707107) = 102.5, plus 10 pi = 31.4
    assert_eq!(inward_distance(350, deg45(), 10), 102 + 31);
    let (motion, covered) = step_up_motion(v(500, 0, 0), 300, v(-1024, 0, 0), up(), 133);
    assert_eq!(motion, v(300, 0, 0));
    assert_eq!(covered, 300);
    let (short, covered) = step_up_motion(v(500, 0, 0), 100, v(-1024, 0, 0), up(), 133);
    assert_eq!(short, v(133, 0, 0));
    assert_eq!(covered, 133);
    // a slanted wall: the nudge goes against its horizontal normal only
    let (slanted, _) = step_up_motion(v(0, 0, 800), 200, v(0, 500, -1000), up(), 50);
    assert_eq!(slanted, v(0, 0, 200));
}

#[test]
fn contact_responses() {
    let ramp = v(0, 962, -350);
    assert_eq!(
        contact_response(v(0, 0, 5000), ramp, up(), deg45(), false),
        Contact::Ground { velocity: v(0, 1709, 4698) }
    );
    assert_eq!(
        contact_response(v(0, 0, 5000), ramp, up(), deg45(), true),
        Contact::Ground { velocity: v(0, 0, 5000) }
    );
    assert_eq!(
        contact_response(v(1000, 600, 500), v(-1, 0, 0), up(), deg45(), true),
        Contact::Step { velocity: v(0, 600, 500) }
    );
    assert_eq!(
        contact_response(v(1000, 600, 500), v(-1, 0, 0), up(), deg45(), false),
        Contact::Wall { velocity: v(0, 600, 500) }
    );
}

#[test]
fn alternate_solver_slides_crease_and_stops() {
    let orig = v(1000, 500, 1000);
    // no hits, or moving away from the latest plane: unchanged
    assert_eq!(solve_collision_planes(orig, &vec![], orig), orig);
    assert_eq!(solve_collision_planes(orig, &vec![v(1, 0, 0)], orig), orig);
    // nothing left of a zero velocity or direction
    assert_eq!(solve_collision_planes(v(0, 0, 0), &vec![v(-1, 0, 0)], orig), v(0, 0, 0));
    assert_eq!(solve_collision_planes(orig, &vec![v(-1, 0, 0)], v(0, 0, 0)), v(0, 0, 0));
    // one wall: slide along it
    assert_eq!(solve_collision_planes(orig, &vec![v(-1, 0, 0)], orig), v(0, 500, 1000));
    // two walls: along their crease
    let hits = vec![v(0, 0, -1), v(-1, 0, 0)];
    assert_eq!(solve_collision_planes(orig, &hits, orig), v(0, 500, 0));
    // two walls with nothing along the crease: stopped
    let flat = v(1000, 0, 1000);
    assert_eq!(solve_collision_planes(flat, &hits, flat), v(0, 0, 0));
}
