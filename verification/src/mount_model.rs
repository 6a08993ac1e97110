//! The mount: closed-form kinematics of each of its two axes.
//!
//! Units: time in milliseconds, angular speed in millidegrees per second and
//! position in ticks of 1/12 microdegree. With an acceleration limit of
//! 6 deg/s^2 every point of the trapezoidal profile is an integer in these
//! units, so a query at any elapsed time is exact.

use crate::clock::{millis_since, now};
use crate::units::{saturate, saturated};
use vstd::prelude::*;

verus! {

/// Largest change of angular speed per millisecond, in millidegrees per second
/// (that is, the acceleration limit in degrees per second squared).
pub const AXIS_ANG_ACCELERATION: i64 = 6;

/// Position ticks in one degree.
pub const TICKS_PER_DEGREE: i64 = 12_000_000;

/// Baseline of an axis at the moment of its last command: where it was, how
/// fast it moved, and the speed it was told to reach.
#[derive(Clone, Copy, Debug)]
pub struct Profile {
    pub pos0: i64,
    pub spd0: i32,
    pub target_spd: i32,
}

impl Profile {
    /// Direction of the pending acceleration: 1, -1, or 0 when already at the
    /// commanded speed.
    pub open spec fn accel_sign(self) -> int {
        if self.target_spd > self.spd0 {
            1
        } else if self.target_spd < self.spd0 {
            -1
        } else {
            0
        }
    }

    /// Size of the speed change still owed at the baseline.
    pub open spec fn speed_gap(self) -> int {
        if self.target_spd >= self.spd0 {
            self.target_spd - self.spd0
        } else {
            self.spd0 - self.target_spd
        }
    }

    /// Whether the axis is still accelerating `dt` milliseconds after the
    /// baseline.
    pub open spec fn ramping(self, dt: int) -> bool {
        AXIS_ANG_ACCELERATION * dt < self.speed_gap()
    }

    /// Angular speed `dt` milliseconds after the baseline.
    pub open spec fn speed_after(self, dt: int) -> int {
        if self.ramping(dt) {
            self.spd0 + self.accel_sign() * AXIS_ANG_ACCELERATION * dt
        } else {
            self.target_spd as int
        }
    }

    /// Position `dt` milliseconds after the baseline, before it is limited to
    /// the representable range: the integral of `speed_after` from 0 to `dt`.
    pub open spec fn exact_position_after(self, dt: int) -> int {
        if self.ramping(dt) {
            self.pos0 + 12 * self.spd0 * dt + 36 * self.accel_sign() * dt * dt
        } else {
            self.pos0 + 12 * self.target_spd * dt - self.accel_sign() * self.speed_gap()
                * self.speed_gap()
        }
    }

    /// Position `dt` milliseconds after the baseline.
    pub open spec fn position_after(self, dt: int) -> int {
        saturated(self.exact_position_after(dt))
    }

    /// An axis at `pos` moving steadily at `speed`.
    pub fn new(pos: i64, speed: i32) -> (p: Profile)
        ensures
            p == (Profile { pos0: pos, spd0: speed, target_spd: speed }),
    {
        Profile { pos0: pos, spd0: speed, target_spd: speed }
    }

    /// Position and speed `dt` milliseconds after the baseline.
    pub fn state_after(&self, dt: u64) -> (s: (i64, i32))
        ensures
            s.0 == self.position_after(dt as int),
            s.1 == self.speed_after(dt as int),
    {
        let v0: i128 = self.spd0 as i128;
        let vt: i128 = self.target_spd as i128;
        let sign: i128 = if vt > v0 { 1 } else if vt < v0 { -1 } else { 0 };
        let gap: i128 = if vt >= v0 { vt - v0 } else { v0 - vt };
        let t: i128 = dt as i128;
        let ramping: bool = 6 * t < gap;
        let (pos, spd): (i128, i128) = if ramping {
            assert(0 <= t < 0x1_0000_0000);
            assert(-0x8000_0000 <= v0 < 0x8000_0000);
            assert(-0x8000_0000_0000_0000 <= v0 * t <= 0x8000_0000_0000_0000) by (nonlinear_arith)
                requires
                    0 <= t < 0x1_0000_0000,
                    -0x8000_0000 <= v0 < 0x8000_0000,
            ;
            assert(0 <= t * t <= 0x1_0000_0000_0000_0000) by (nonlinear_arith)
                requires
                    0 <= t < 0x1_0000_0000,
            ;
            let lin: i128 = 12 * (v0 * t);
            let quad: i128 = 36 * sign * (t * t);
            assert(12 * self.spd0 * (dt as int) == 12 * (v0 * t)) by (nonlinear_arith)
                requires
                    v0 == self.spd0,
                    t == dt,
            ;
            assert(36 * self.accel_sign() * (dt as int) * (dt as int) == 36 * sign * (t * t))
                by (nonlinear_arith)
                requires
                    sign == self.accel_sign(),
                    t == dt,
            ;
            assert(self.accel_sign() * AXIS_ANG_ACCELERATION * (dt as int) == 6 * sign * t)
                by (nonlinear_arith)
                requires
                    sign == self.accel_sign(),
                    t == dt,
            ;
            (self.pos0 as i128 + lin + quad, v0 + 6 * sign * t)
        } else {
            assert(-0x8000_0000 <= vt < 0x8000_0000);
            assert(0 <= t < 0x1_0000_0000_0000_0000);
            assert(-0x8000_0000_0000_0000_0000_0000 <= vt * t <= 0x8000_0000_0000_0000_0000_0000)
                by (nonlinear_arith)
                requires
                    0 <= t < 0x1_0000_0000_0000_0000,
                    -0x8000_0000 <= vt < 0x8000_0000,
            ;
            assert(0 <= gap * gap <= 0x1_0000_0000_0000_0000) by (nonlinear_arith)
                requires
                    0 <= gap <= 0x1_0000_0000,
            ;
            let lin: i128 = 12 * (vt * t);
            let settle: i128 = sign * (gap * gap);
            assert(12 * self.target_spd * (dt as int) == 12 * (vt * t)) by (nonlinear_arith)
                requires
                    vt == self.target_spd,
                    t == dt,
            ;
            assert(self.accel_sign() * self.speed_gap() * self.speed_gap() == sign * (gap * gap))
                by (nonlinear_arith)
                requires
                    sign == self.accel_sign(),
                    gap == self.speed_gap(),
            ;
            (self.pos0 as i128 + lin - settle, vt)
        };
        (saturate(pos), spd as i32)
    }

    /// Time the ramp takes, in whole milliseconds: the first one at which the
    /// axis moves at the commanded speed. Zero where no speed change is owed.
    pub fn ramp_millis(&self) -> (t: u64)
        ensures
            !self.ramping(t as int),
            t > 0 ==> self.ramping(t - 1),
    {
        let v0: i64 = self.spd0 as i64;
        let vt: i64 = self.target_spd as i64;
        let gap: i64 = if vt >= v0 {
            vt - v0
        } else {
            v0 - vt
        };
        ((gap + 5) / 6) as u64
    }

    /// The baseline that a command for `target` leaves when it arrives `dt`
    /// milliseconds after this one: the axis goes on from where it is at that
    /// instant.
    pub open spec fn retargeted_spec(self, dt: int, target: i32) -> Profile {
        Profile {
            pos0: self.position_after(dt) as i64,
            spd0: self.speed_after(dt) as i32,
            target_spd: target,
        }
    }

    /// Takes a command for `target` that arrives `dt` milliseconds after the
    /// baseline.
    pub fn retargeted(&self, dt: u64, target: i32) -> (p: Profile)
        ensures
            p == self.retargeted_spec(dt as int, target),
            p.pos0 == self.position_after(dt as int),
            p.spd0 == self.speed_after(dt as int),
            p.target_spd == target,
    {
        let (pos, spd) = self.state_after(dt);
        Profile { pos0: pos, spd0: spd, target_spd: target }
    }
}

/// The speed of an axis always lies between its speed at the baseline and
/// the commanded speed.
pub proof fn lemma_speed_between(p: Profile, dt: int)
    requires
        0 <= dt,
    ensures
        p.target_spd >= p.spd0 ==> p.spd0 <= p.speed_after(dt) <= p.target_spd,
        p.target_spd <= p.spd0 ==> p.target_spd <= p.speed_after(dt) <= p.spd0,
{
    assert(p.accel_sign() * AXIS_ANG_ACCELERATION * dt == 6 * dt * p.accel_sign())
        by (nonlinear_arith);
}

/// A query at the baseline itself returns the baseline.
pub proof fn lemma_state_at_baseline(p: Profile)
    ensures
        p.position_after(0) == p.pos0,
        p.speed_after(0) == p.spd0,
{
    assert(p.accel_sign() * p.speed_gap() * p.speed_gap() == 0 <== p.speed_gap() == 0)
        by (nonlinear_arith);
}

/// Once the ramp is over the speed is exactly the commanded one and the
/// position grows linearly with it.
pub proof fn lemma_cruise_is_linear(p: Profile, dt1: int, dt2: int)
    requires
        0 <= dt1 <= dt2,
        !p.ramping(dt1),
    ensures
        p.speed_after(dt1) == p.target_spd,
        p.speed_after(dt2) == p.target_spd,
        p.exact_position_after(dt2) - p.exact_position_after(dt1) == 12 * p.target_spd * (dt2
            - dt1),
{
    assert(12 * p.target_spd * dt2 - 12 * p.target_spd * dt1 == 12 * p.target_spd * (dt2 - dt1))
        by (nonlinear_arith);
}

/// The two branches of the profile meet where the ramp ends: at the instant
/// the commanded speed is reached, the ramp's formulas give the commanded
/// speed and the position from which the cruise goes on.
pub proof fn lemma_ramp_meets_cruise(p: Profile, dt: int)
    requires
        AXIS_ANG_ACCELERATION * dt == p.speed_gap(),
    ensures
        p.spd0 + p.accel_sign() * AXIS_ANG_ACCELERATION * dt == p.target_spd,
        p.pos0 + 12 * p.spd0 * dt + 36 * p.accel_sign() * dt * dt == p.exact_position_after(dt),
{
    let s = p.accel_sign();
    let g = p.speed_gap();
    assert(s * AXIS_ANG_ACCELERATION * dt == s * g) by (nonlinear_arith)
        requires
            AXIS_ANG_ACCELERATION * dt == g,
    ;
    assert(s * g == p.target_spd - p.spd0) by (nonlinear_arith)
        requires
            s == p.accel_sign(),
            g == p.speed_gap(),
    ;
    assert(36 * s * dt * dt == s * g * g) by (nonlinear_arith)
        requires
            6 * dt == g,
    ;
    assert(12 * p.spd0 * dt == 2 * p.spd0 * g) by (nonlinear_arith)
        requires
            6 * dt == g,
    ;
    assert(12 * p.target_spd * dt == 2 * p.target_spd * g) by (nonlinear_arith)
        requires
            6 * dt == g,
    ;
    assert(2 * p.target_spd * g - 2 * p.spd0 * g == 2 * (s * g) * g) by (nonlinear_arith)
        requires
            s * g == p.target_spd - p.spd0,
    ;
    assert(2 * (s * g) * g == 2 * (s * g * g)) by (nonlinear_arith);
}

/// From rest, at the end of the ramp the axis has covered half the
/// acceleration times the square of the ramp's duration.
pub proof fn lemma_ramp_from_rest(target: i32, dt: int)
    requires
        target >= 0,
        AXIS_ANG_ACCELERATION * dt == target,
    ensures
        (Profile { pos0: 0, spd0: 0, target_spd: target }).speed_after(dt) == target,
        (Profile { pos0: 0, spd0: 0, target_spd: target }).exact_position_after(dt) == 36 * dt
            * dt,
{
    let p = Profile { pos0: 0, spd0: 0, target_spd: target };
    lemma_ramp_meets_cruise(p, dt);
    let s = p.accel_sign();
    assert(s == 1 || dt == 0);
    assert(36 * s * dt * dt == 36 * dt * dt) by (nonlinear_arith)
        requires
            s == 1 || dt == 0,
    ;
    assert(12 * p.spd0 * dt == 0) by (nonlinear_arith)
        requires
            p.spd0 == 0,
    ;
    assert(p.exact_position_after(dt) == p.pos0 + 12 * p.spd0 * dt + 36 * s * dt * dt);
}

/// Repeating a command with no time in between changes nothing: the second
/// baseline is the first.
pub proof fn lemma_retarget_idempotent(p: Profile, dt: int, target: i32)
    requires
        0 <= dt,
    ensures
        p.retargeted_spec(dt, target).retargeted_spec(0, target) == p.retargeted_spec(
            dt,
            target,
        ),
        forall|later: int|
            p.retargeted_spec(dt, target).retargeted_spec(0, target).position_after(later)
                == p.retargeted_spec(dt, target).position_after(later),
        forall|later: int|
            p.retargeted_spec(dt, target).retargeted_spec(0, target).speed_after(later)
                == p.retargeted_spec(dt, target).speed_after(later),
{
    lemma_speed_between(p, dt);
    let q = p.retargeted_spec(dt, target);
    assert(q.pos0 == p.position_after(dt));
    assert(q.spd0 == p.speed_after(dt));
    lemma_state_at_baseline(q);
}

/// A command takes over exactly where the axis is: right after it, the axis
/// reports the position and speed it had reached.
pub proof fn lemma_retarget_continuous(p: Profile, dt: int, target: i32)
    requires
        0 <= dt,
    ensures
        p.retargeted_spec(dt, target).position_after(0) == p.position_after(dt),
        p.retargeted_spec(dt, target).speed_after(0) == p.speed_after(dt),
{
    lemma_speed_between(p, dt);
    lemma_state_at_baseline(p.retargeted_spec(dt, target));
}

/// One mechanical axis on the running clock: a baseline and the instant it
/// was taken. The axis never ticks; a query evaluates the profile at the time
/// that has passed since the baseline.
pub struct Axis {
    t0: std::time::Instant,
    profile: Profile,
}

impl View for Axis {
    type V = Profile;

    /// The baseline that the axis moves from.
    closed spec fn view(&self) -> Profile {
        self.profile
    }
}

impl Axis {
    /// The baseline that the axis moves from.
    pub fn profile(&self) -> (p: Profile)
        ensures
            p == self@,
    {
        self.profile
    }

    /// An axis at `pos` moving steadily at `speed`, as of now.
    pub fn new(pos: i64, speed: i32) -> (a: Axis)
        ensures
            a@ == (Profile { pos0: pos, spd0: speed, target_spd: speed }),
    {
        Axis { t0: now(), profile: Profile::new(pos, speed) }
    }

    /// Position and speed at the time of the call: the profile evaluated at
    /// some elapsed time, which the clock decides.
    pub fn state(&self) -> (s: (i64, i32))
        ensures
            exists|dt: int|
                0 <= dt <= u64::MAX && s.0 == #[trigger] self@.position_after(dt) && s.1
                    == self@.speed_after(dt),
    {
        let dt: u64 = millis_since(&self.t0);
        let s = self.profile.state_after(dt);
        assert(s.0 == self@.position_after(dt as int));
        s
    }

    /// Commands a new speed: the axis goes on from where it is at the time of
    /// the call, which becomes the new baseline.
    pub fn set_target_speed(&mut self, target_spd: i32)
        ensures
            exists|dt: int|
                0 <= dt <= u64::MAX && final(self)@ == #[trigger] old(self)@.retargeted_spec(
                    dt,
                    target_spd,
                ),
    {
        let dt: u64 = millis_since(&self.t0);
        let next = self.profile.retargeted(dt, target_spd);
        self.t0 = now();
        self.profile = next;
        assert(self@ == old(self)@.retargeted_spec(dt as int, target_spd));
    }
}

/// What a mount shows of itself at one instant.
#[derive(Clone, Copy, Debug)]
pub struct MountState {
    pub axis1_pos: i64,
    pub axis2_pos: i64,
    pub axis1_spd: i32,
    pub axis2_spd: i32,
}

/// The two axes of a mount: the first turns in azimuth, the second in
/// altitude.
pub struct PrivState {
    pub axis1: Axis,
    pub axis2: Axis,
}

impl PrivState {
    /// A mount at rest with both axes at zero.
    pub fn new() -> (m: PrivState)
        ensures
            m.axis1@ == (Profile { pos0: 0, spd0: 0, target_spd: 0 }),
            m.axis2@ == (Profile { pos0: 0, spd0: 0, target_spd: 0 }),
    {
        PrivState { axis1: Axis::new(0, 0), axis2: Axis::new(0, 0) }
    }

    /// Both axes at the time of the call.
    pub fn get(&self) -> (s: MountState)
        ensures
            exists|dt: int|
                0 <= dt <= u64::MAX && s.axis1_pos == #[trigger] self.axis1@.position_after(dt)
                    && s.axis1_spd == self.axis1@.speed_after(dt),
            exists|dt: int|
                0 <= dt <= u64::MAX && s.axis2_pos == #[trigger] self.axis2@.position_after(dt)
                    && s.axis2_spd == self.axis2@.speed_after(dt),
    {
        let (axis1_pos, axis1_spd) = self.axis1.state();
        let (axis2_pos, axis2_spd) = self.axis2.state();
        MountState { axis1_pos, axis2_pos, axis1_spd, axis2_spd }
    }
}

} // verus!
