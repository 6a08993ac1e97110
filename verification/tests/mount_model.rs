use pointing_simulator::clock::limit_millis;
use pointing_simulator::mount_model::{Axis, PrivState, Profile, AXIS_ANG_ACCELERATION, TICKS_PER_DEGREE};

fn from_rest(target: i32) -> Profile {
    Profile::new(0, 0).retargeted(0, target)
}

#[test]
fn new_profile_has_no_pending_acceleration() {
    let p = Profile::new(5 * TICKS_PER_DEGREE, 1500);
    assert_eq!(p.pos0, 60_000_000);
    assert_eq!(p.spd0, 1500);
    assert_eq!(p.target_spd, 1500);
    assert_eq!(p.state_after(0), (60_000_000, 1500));
}

#[test]
fn steady_axis_moves_linearly() {
    let p = Profile::new(0, 1000);
    // 1 deg/s for 3 s is 3 degrees
    assert_eq!(p.state_after(3000), (3 * TICKS_PER_DEGREE, 1000));
}

#[test]
fn ramp_from_rest_follows_half_a_t_squared() {
    let p = from_rest(10_000);
    // after 1 s at 6 deg/s^2: 6 deg/s and 3 degrees
    assert_eq!(p.state_after(1000), (3 * TICKS_PER_DEGREE, 6000));
    assert_eq!(p.state_after(1666), (99_920_016, 9996));
}

#[test]
fn ramp_ends_at_target_speed_over_acceleration() {
    // 6 deg/s is reached after exactly one second
    let p = from_rest(6000);
    assert_eq!(p.state_after(999), (35_928_036, 5994));
    assert_eq!(p.state_after(1000), (36_000_000, 6000));
    // position there is half the acceleration times the time squared
    let dt: i64 = 1000;
    assert_eq!(p.state_after(1000).0, 36 * dt * dt);
    assert_eq!(36 * dt * dt, AXIS_ANG_ACCELERATION * TICKS_PER_DEGREE / 2);
}

#[test]
fn cruise_keeps_target_speed_and_grows_linearly() {
    let p = from_rest(10_000);
    let (first, speed_a) = p.state_after(1667);
    let (second, speed_b) = p.state_after(2667);
    let (third, speed_c) = p.state_after(3667);
    assert_eq!((first, speed_a), (100_040_000, 10_000));
    assert_eq!((second, speed_b), (220_040_000, 10_000));
    assert_eq!(speed_c, 10_000);
    // 10 deg/s for one second is ten degrees
    assert_eq!(second - first, 10 * TICKS_PER_DEGREE);
    assert_eq!(third - second, 10 * TICKS_PER_DEGREE);
}

#[test]
fn zero_duration_ramp_is_at_target_at_once() {
    let p = Profile::new(1000, 2500).retargeted(0, 2500);
    assert_eq!(p.state_after(0), (1000, 2500));
    assert_eq!(p.state_after(1), (1000 + 12 * 2500, 2500));
    assert_eq!(p.state_after(2000), (1000 + 12 * 2500 * 2000, 2500));
}

#[test]
fn deceleration_through_zero() {
    let p = Profile::new(TICKS_PER_DEGREE, 3000).retargeted(0, -3000);
    assert_eq!(p.state_after(500), (21_000_000, 0));
    assert_eq!(p.state_after(1000), (12_000_000, -3000));
    assert_eq!(p.state_after(1500), (-6_000_000, -3000));
}

#[test]
fn command_in_mid_ramp_goes_on_from_the_instant() {
    let first = from_rest(10_000);
    assert_eq!(first.state_after(500), (9_000_000, 3000));
    let second = first.retargeted(500, 0);
    assert_eq!(second.pos0, 9_000_000);
    assert_eq!(second.spd0, 3000);
    assert_eq!(second.target_spd, 0);
    assert_eq!(second.state_after(0), (9_000_000, 3000));
    assert_eq!(second.state_after(100), (12_240_000, 2400));
    assert_eq!(second.state_after(500), (18_000_000, 0));
    assert_eq!(second.state_after(1000), (18_000_000, 0));
}

#[test]
fn repeated_command_without_delay_changes_nothing() {
    let once = from_rest(10_000).retargeted(700, 4000);
    let twice = once.retargeted(0, 4000);
    assert_eq!(once.pos0, twice.pos0);
    assert_eq!(once.spd0, twice.spd0);
    assert_eq!(once.target_spd, twice.target_spd);
    for dt in [0u64, 1, 10, 33, 34, 1000, 100_000] {
        assert_eq!(once.state_after(dt), twice.state_after(dt));
    }
}

#[test]
fn position_saturates_at_the_range() {
    let up = Profile::new(i64::MAX - 10, 1000);
    assert_eq!(up.state_after(1), (i64::MAX, 1000));
    let down = Profile::new(i64::MIN + 10, -1000);
    assert_eq!(down.state_after(u64::MAX), (i64::MIN, -1000));
    let far = Profile::new(0, i32::MAX).retargeted(0, i32::MIN);
    assert_eq!(far.state_after(u64::MAX), (i64::MIN, i32::MIN));
    let fast = Profile::new(0, i32::MIN).retargeted(0, i32::MAX);
    assert_eq!(fast.state_after(u64::MAX), (i64::MAX, i32::MAX));
}

#[test]
fn speed_stays_between_start_and_target() {
    let p = Profile::new(0, -2000).retargeted(0, 5000);
    let mut last = -2000;
    for dt in 0u64..1300 {
        let (_, v) = p.state_after(dt);
        assert!(v >= last && v <= 5000);
        last = v;
    }
    assert_eq!(last, 5000);
}

#[test]
fn axis_at_rest_stays_put_on_the_clock() {
    let axis = Axis::new(7 * TICKS_PER_DEGREE, 0);
    assert_eq!(axis.state(), (7 * TICKS_PER_DEGREE, 0));
    let p = axis.profile();
    assert_eq!((p.pos0, p.spd0, p.target_spd), (7 * TICKS_PER_DEGREE, 0, 0));
}

#[test]
fn axis_takes_command_on_the_clock() {
    let mut axis = Axis::new(0, 0);
    axis.set_target_speed(1000);
    let p = axis.profile();
    assert_eq!((p.pos0, p.spd0, p.target_spd), (0, 0, 1000));
    let (pos, spd) = axis.state();
    assert!(pos >= 0);
    assert!(spd >= 0 && spd <= 1000);
    axis.set_target_speed(1000);
    let q = axis.profile();
    assert_eq!(q.target_spd, 1000);
    assert!(q.spd0 >= spd && q.spd0 <= 1000);
    assert!(q.pos0 >= pos);
}

#[test]
fn mount_starts_at_rest_at_zero() {
    let mount = PrivState::new();
    let state = mount.get();
    assert_eq!(
        (state.axis1_pos, state.axis2_pos, state.axis1_spd, state.axis2_spd),
        (0, 0, 0, 0)
    );
}

#[test]
fn ramp_takes_the_speed_gap_over_the_acceleration() {
    assert_eq!(Profile::new(0, 0).ramp_millis(), 0);
    assert_eq!(from_rest(6000).ramp_millis(), 1000);
    assert_eq!(from_rest(10_000).ramp_millis(), 1667);
    assert_eq!(from_rest(1).ramp_millis(), 1);
    assert_eq!(from_rest(-7).ramp_millis(), 2);
    let widest = Profile::new(0, i32::MIN).retargeted(0, i32::MAX);
    assert_eq!(widest.ramp_millis(), 715_827_883);
    let p = from_rest(10_000);
    assert_eq!(p.state_after(p.ramp_millis()).1, 10_000);
    assert_eq!(p.state_after(p.ramp_millis() - 1).1, 9996);
}

#[test]
fn elapsed_time_is_limited_to_the_range() {
    assert_eq!(limit_millis(0), 0);
    assert_eq!(limit_millis(2000), 2000);
    assert_eq!(limit_millis(u64::MAX as u128), u64::MAX);
    assert_eq!(limit_millis(u64::MAX as u128 + 1), u64::MAX);
    assert_eq!(limit_millis(u128::MAX), u64::MAX);
}
