//! One telemetry sample of the target, in the observer's local frame, and
//! its line on the wire.
//!
//! Units: a position coordinate counts tenths of a millimetre, a velocity
//! coordinate tenths of a metre per second, the track tenths of a degree and
//! the altitude tenths of a metre. A velocity unit sustained for one
//! millisecond moves the target by exactly one position unit, so dead
//! reckoning is exact. The wire carries one fraction digit of metres and
//! degrees.

use crate::decimal::{decimal_text, push_decimal};
use crate::units::{nearest, saturate, saturated, to_nearest};
use crate::wire::{
    decimal_fields, lemma_fields_of_first, lemma_fields_of_one, parse_decimal_fields, NEWLINE,
    SEPARATOR,
};
use vstd::prelude::*;

verus! {

/// Position units in the tenth of a metre that the wire resolves.
pub const POSITION_UNITS_PER_TENTH: i64 = 1000;

/// Fraction digits of every number on a telemetry line.
pub const TELEMETRY_FRACTION_DIGITS: u8 = 1;

/// A point in the local frame of the observer: `x` to the north, `y` to the
/// west, `z` up.
#[derive(Clone, Copy, Debug, PartialEq, Eq, Structural)]
pub struct LocalPoint {
    pub x: i64,
    pub y: i64,
    pub z: i64,
}

/// A velocity in the local frame of the observer.
#[derive(Clone, Copy, Debug, PartialEq, Eq, Structural)]
pub struct LocalVelocity {
    pub x: i64,
    pub y: i64,
    pub z: i64,
}

/// A telemetry sample.
#[derive(Clone, Copy, Debug, PartialEq, Eq, Structural)]
pub struct TargetInfoMessage {
    pub position: LocalPoint,
    pub velocity: LocalVelocity,
    pub track: i64,
    pub altitude: i64,
}

/// Where a coordinate at `position`, moving at `velocity`, stands `dt`
/// milliseconds later.
pub open spec fn advanced(position: i64, velocity: i64, dt: int) -> i64 {
    saturated(position + velocity * dt) as i64
}

/// Where a coordinate at `position`, moving at `velocity`, stands `dt`
/// milliseconds later, limited to the representable range.
pub fn advance(position: i64, velocity: i64, dt: u64) -> (p: i64)
    ensures
        p == advanced(position, velocity, dt as int),
{
    let v: i128 = velocity as i128;
    let t: i128 = dt as i128;
    assert(-0x8000_0000_0000_0000 * 0xffff_ffff_ffff_ffff <= v * t <= 0x7fff_ffff_ffff_ffff
        * 0xffff_ffff_ffff_ffff) by (nonlinear_arith)
        requires
            -0x8000_0000_0000_0000 <= v <= 0x7fff_ffff_ffff_ffff,
            0 <= t <= 0xffff_ffff_ffff_ffff,
    ;
    saturate(position as i128 + v * t)
}

impl TargetInfoMessage {
    /// The sample that dead reckoning makes of this one after `dt`
    /// milliseconds: the position carried on along the velocity, all else
    /// unchanged.
    pub open spec fn extrapolated_spec(self, dt: int) -> TargetInfoMessage {
        TargetInfoMessage {
            position: LocalPoint {
                x: advanced(self.position.x, self.velocity.x, dt),
                y: advanced(self.position.y, self.velocity.y, dt),
                z: advanced(self.position.z, self.velocity.z, dt),
            },
            velocity: self.velocity,
            track: self.track,
            altitude: self.altitude,
        }
    }

    /// Dead reckoning over `dt` milliseconds.
    pub fn extrapolated(&self, dt: u64) -> (m: TargetInfoMessage)
        ensures
            m == self.extrapolated_spec(dt as int),
    {
        TargetInfoMessage {
            position: LocalPoint {
                x: advance(self.position.x, self.velocity.x, dt),
                y: advance(self.position.y, self.velocity.y, dt),
                z: advance(self.position.z, self.velocity.z, dt),
            },
            velocity: self.velocity,
            track: self.track,
            altitude: self.altitude,
        }
    }

    /// The eight numbers of the sample's line, in tenths: the position
    /// rounded to the wire's resolution, then velocity, track and altitude.
    pub open spec fn wire_values(self) -> Seq<i64> {
        seq![
            nearest(self.position.x as int, 1000) as i64,
            nearest(self.position.y as int, 1000) as i64,
            nearest(self.position.z as int, 1000) as i64,
            self.velocity.x,
            self.velocity.y,
            self.velocity.z,
            self.track,
            self.altitude,
        ]
    }

    /// The sample's line without its end: `x;y;z;vx;vy;vz;track;altitude`,
    /// each with one fraction digit.
    pub open spec fn line_body(self) -> Seq<u8> {
        let v = self.wire_values();
        joined(
            v[0],
            joined(
                v[1],
                joined(
                    v[2],
                    joined(
                        v[3],
                        joined(v[4], joined(v[5], joined(v[6], decimal_text(v[7] as int, 1)))),
                    ),
                ),
            ),
        )
    }

    /// The sample's line as sent: the body and a line end.
    pub open spec fn line_text(self) -> Seq<u8> {
        self.line_body() + seq![10u8]
    }

    /// Writes the sample as a line.
    pub fn to_line(&self) -> (line: Vec<u8>)
        ensures
            line@ == self.line_text(),
    {
        let mut line: Vec<u8> = Vec::new();
        let x: i64 = to_nearest(self.position.x, POSITION_UNITS_PER_TENTH);
        let y: i64 = to_nearest(self.position.y, POSITION_UNITS_PER_TENTH);
        let z: i64 = to_nearest(self.position.z, POSITION_UNITS_PER_TENTH);
        let ghost v = self.wire_values();
        let ghost t7 = decimal_text(v[7] as int, 1);
        let ghost t6 = joined(v[6], t7);
        let ghost t5 = joined(v[5], t6);
        let ghost t4 = joined(v[4], t5);
        let ghost t3 = joined(v[3], t4);
        let ghost t2 = joined(v[2], t3);
        let ghost t1 = joined(v[1], t2);
        let ghost t0 = joined(v[0], t1);
        assert(line@ + t0 =~= self.line_body());
        push_field(&mut line, x, Ghost(t1));
        push_field(&mut line, y, Ghost(t2));
        push_field(&mut line, z, Ghost(t3));
        push_field(&mut line, self.velocity.x, Ghost(t4));
        push_field(&mut line, self.velocity.y, Ghost(t5));
        push_field(&mut line, self.velocity.z, Ghost(t6));
        push_field(&mut line, self.track, Ghost(t7));
        push_decimal(&mut line, self.altitude, TELEMETRY_FRACTION_DIGITS);
        line.push(NEWLINE);
        line
    }
}

/// The text of `v` tenths, a separator, and `rest` behind it.
#[verifier::opaque]
pub open spec fn joined(v: i64, rest: Seq<u8>) -> Seq<u8> {
    decimal_text(v as int, 1) + seq![59u8] + rest
}

/// Appends one field and the separator behind it. What the line will read
/// once `rest` follows is what it reads now with the field joined to `rest`.
fn push_field(line: &mut Vec<u8>, v: i64, Ghost(rest): Ghost<Seq<u8>>)
    ensures
        final(line)@ == old(line)@ + decimal_text(v as int, 1) + seq![59u8],
        final(line)@ + rest == old(line)@ + joined(v, rest),
{
    push_decimal(line, v, TELEMETRY_FRACTION_DIGITS);
    line.push(SEPARATOR);
    proof {
        reveal(joined);
        assert(line@ =~= old(line)@ + decimal_text(v as int, 1) + seq![59u8]);
        assert(line@ + rest =~= old(line)@ + joined(v, rest));
    }
}

/// Whether a coordinate of `tenths` on the wire fits the position units.
pub open spec fn position_fits(tenths: i64) -> bool {
    i64::MIN <= tenths * 1000 <= i64::MAX
}

/// The sample that a line body denotes: eight decimal fields with at most
/// one fraction digit each, whose position fits the position units.
pub open spec fn parsed_line(body: Seq<u8>) -> Option<TargetInfoMessage> {
    match decimal_fields(body, 1) {
        Some(v) => if v.len() == 8 && position_fits(v[0]) && position_fits(v[1]) && position_fits(
            v[2],
        ) {
            Some(
                TargetInfoMessage {
                    position: LocalPoint {
                        x: (v[0] * 1000) as i64,
                        y: (v[1] * 1000) as i64,
                        z: (v[2] * 1000) as i64,
                    },
                    velocity: LocalVelocity { x: v[3], y: v[4], z: v[5] },
                    track: v[6],
                    altitude: v[7],
                },
            )
        } else {
            None
        },
        None => None,
    }
}

/// A wire coordinate in position units, where it fits.
pub fn position_from_tenths(tenths: i64) -> (p: Option<i64>)
    ensures
        p == (if position_fits(tenths) {
            Some((tenths * 1000) as i64)
        } else {
            None
        }),
{
    let scaled: i128 = tenths as i128 * 1000;
    if scaled < i64::MIN as i128 || scaled > i64::MAX as i128 {
        None
    } else {
        Some(scaled as i64)
    }
}

/// Reads a telemetry line, given without its line end.
pub fn parse_target_info(body: &[u8]) -> (m: Option<TargetInfoMessage>)
    ensures
        m == parsed_line(body@),
{
    proof {
        assert(body@.skip(0) =~= body@);
    }
    let values: Vec<i64> = match parse_decimal_fields(body, 0, TELEMETRY_FRACTION_DIGITS) {
        Some(values) => values,
        None => {
            return None;
        },
    };
    if values.len() != 8 {
        return None;
    }
    let x: i64 = match position_from_tenths(values[0]) {
        Some(x) => x,
        None => {
            return None;
        },
    };
    let y: i64 = match position_from_tenths(values[1]) {
        Some(y) => y,
        None => {
            return None;
        },
    };
    let z: i64 = match position_from_tenths(values[2]) {
        Some(z) => z,
        None => {
            return None;
        },
    };
    Some(
        TargetInfoMessage {
            position: LocalPoint { x, y, z },
            velocity: LocalVelocity { x: values[3], y: values[4], z: values[5] },
            track: values[6],
            altitude: values[7],
        },
    )
}

/// Whether every position coordinate of `m` is a whole number of tenths of
/// a metre, so that the wire carries it without rounding.
pub open spec fn wire_exact(m: TargetInfoMessage) -> bool {
    m.position.x % 1000 == 0 && m.position.y % 1000 == 0 && m.position.z % 1000 == 0
}

/// A sample that the wire carries without rounding is read back from its
/// own line unchanged.
pub proof fn lemma_line_round_trip(m: TargetInfoMessage)
    requires
        wire_exact(m),
    ensures
        parsed_line(m.line_body()) == Some(m),
{
    let v = m.wire_values();
    lemma_eight_fields(v[0], v[1], v[2], v[3], v[4], v[5], v[6], v[7]);
    assert(seq![v[0], v[1], v[2], v[3], v[4], v[5], v[6], v[7]] =~= v);
    lemma_whole_tenths(m.position.x);
    lemma_whole_tenths(m.position.y);
    lemma_whole_tenths(m.position.z);
}

/// Eight numbers joined into a line read back as those eight numbers.
pub proof fn lemma_eight_fields(a: i64, b: i64, c: i64, d: i64, e: i64, f: i64, g: i64, h: i64)
    ensures
        decimal_fields(
            joined(
                a,
                joined(
                    b,
                    joined(c, joined(d, joined(e, joined(f, joined(g, decimal_text(h as int, 1)))))),
                ),
            ),
            1,
        ) == Some(seq![a, b, c, d, e, f, g, h]),
{
    let t7 = decimal_text(h as int, 1);
    let t6 = joined(g, t7);
    let t5 = joined(f, t6);
    let t4 = joined(e, t5);
    let t3 = joined(d, t4);
    let t2 = joined(c, t3);
    let t1 = joined(b, t2);
    let f7 = seq![h];
    let f6 = seq![g] + f7;
    let f5 = seq![f] + f6;
    let f4 = seq![e] + f5;
    let f3 = seq![d] + f4;
    let f2 = seq![c] + f3;
    let f1 = seq![b] + f2;
    lemma_fields_of_one(h, 1);
    lemma_joined_fields(g, t7, f7);
    lemma_joined_fields(f, t6, f6);
    lemma_joined_fields(e, t5, f5);
    lemma_joined_fields(d, t4, f4);
    lemma_joined_fields(c, t3, f3);
    lemma_joined_fields(b, t2, f2);
    lemma_joined_fields(a, t1, f1);
    assert(seq![a] + f1 =~= seq![a, b, c, d, e, f, g, h]);
}

/// A field joined to a line that reads as `values` reads as the field's
/// number followed by `values`.
pub proof fn lemma_joined_fields(v: i64, rest: Seq<u8>, values: Seq<i64>)
    requires
        decimal_fields(rest, 1) == Some(values),
    ensures
        decimal_fields(joined(v, rest), 1) == Some(seq![v] + values),
{
    reveal(joined);
    lemma_fields_of_first(v, 1, rest);
}

/// A whole number of tenths of a metre rounds to itself.
pub proof fn lemma_whole_tenths(p: i64)
    requires
        p % 1000 == 0,
    ensures
        nearest(p as int, 1000) * 1000 == p,
        i64::MIN <= nearest(p as int, 1000) <= i64::MAX,
{
    let q = p as int / 1000;
    vstd::arithmetic::div_mod::lemma_fundamental_div_mod(p as int, 1000);
    crate::units::lemma_div_unique(p as int + 500, 1000, q, 500);
}

/// Dead reckoning is exact and linear in time wherever the result is in
/// range: each coordinate moves by its velocity times the elapsed time, and
/// velocity, track and altitude stay as they were.
pub proof fn lemma_extrapolation_linear(m: TargetInfoMessage, dt: int)
    requires
        i64::MIN <= m.position.x + m.velocity.x * dt <= i64::MAX,
        i64::MIN <= m.position.y + m.velocity.y * dt <= i64::MAX,
        i64::MIN <= m.position.z + m.velocity.z * dt <= i64::MAX,
    ensures
        m.extrapolated_spec(dt).position.x == m.position.x + m.velocity.x * dt,
        m.extrapolated_spec(dt).position.y == m.position.y + m.velocity.y * dt,
        m.extrapolated_spec(dt).position.z == m.position.z + m.velocity.z * dt,
        m.extrapolated_spec(dt).velocity == m.velocity,
        m.extrapolated_spec(dt).track == m.track,
        m.extrapolated_spec(dt).altitude == m.altitude,
{
}

/// With no time elapsed dead reckoning returns the sample itself.
pub proof fn lemma_extrapolation_at_once(m: TargetInfoMessage)
    ensures
        m.extrapolated_spec(0) == m,
{
    assert(m.velocity.x * 0 == 0);
    assert(m.velocity.y * 0 == 0);
    assert(m.velocity.z * 0 == 0);
}

} // verus!
