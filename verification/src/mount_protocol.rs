//! The request and reply lines of the mount, and the step that answers one
//! request.
//!
//! On the wire angles are degrees with six fraction digits (microdegrees)
//! and angular speeds are degrees per second with three (millidegrees per
//! second). A line is a keyword, followed for some messages by a separator
//! and its fields:
//!
//! ```text
//! GetPosition
//! Position;<axis1>;<axis2>
//! Position;ERR
//! Slew;<axis1>;<axis2>
//! Stop
//! Reply;OK
//! Reply;ERR
//! ```

use crate::mount_model::{MountState, PrivState, Profile};
use crate::decimal::{decimal_text, push_decimal};
use crate::units::{nearest, to_nearest};
use crate::wire::{
    bytes_equal, decimal_fields, field_end, field_len, lemma_decimal_text_plain,
    lemma_field_len, lemma_fields_of_first, lemma_fields_of_one, parse_decimal_fields,
    push_bytes, NEWLINE, SEPARATOR,
};
use vstd::prelude::*;
use vstd::slice::slice_subrange;

verus! {

/// Fraction digits of an angle on the wire.
pub const ANGLE_FRACTION_DIGITS: u8 = 6;

/// Fraction digits of an angular speed on the wire.
pub const SPEED_FRACTION_DIGITS: u8 = 3;

/// Position ticks of an axis in one microdegree.
pub const TICKS_PER_MICRODEGREE: i64 = 12;

pub const GET_POSITION: [u8; 11] = [
    'G' as u8,
    'e' as u8,
    't' as u8,
    'P' as u8,
    'o' as u8,
    's' as u8,
    'i' as u8,
    't' as u8,
    'i' as u8,
    'o' as u8,
    'n' as u8,
];

pub const POSITION: [u8; 8] = [
    'P' as u8,
    'o' as u8,
    's' as u8,
    'i' as u8,
    't' as u8,
    'i' as u8,
    'o' as u8,
    'n' as u8,
];

pub const SLEW: [u8; 4] = ['S' as u8, 'l' as u8, 'e' as u8, 'w' as u8];

pub const STOP: [u8; 4] = ['S' as u8, 't' as u8, 'o' as u8, 'p' as u8];

pub const REPLY: [u8; 5] = ['R' as u8, 'e' as u8, 'p' as u8, 'l' as u8, 'y' as u8];

pub const OK: [u8; 2] = ['O' as u8, 'K' as u8];

pub const ERR: [u8; 3] = ['E' as u8, 'R' as u8, 'R' as u8];

/// A message between a controller and the mount.
#[derive(Clone, Copy, Debug, PartialEq, Eq, Structural)]
#[allow(inconsistent_fields)]
pub enum MountSimulatorMessage {
    /// Asks where the axes are.
    GetPosition,
    /// Where the axes are, in microdegrees.
    Position { axis1: i64, axis2: i64 },
    /// The position could not be given.
    PositionError,
    /// Commands a speed for each axis, in millidegrees per second.
    Slew { axis1: i32, axis2: i32 },
    /// Commands both axes to rest.
    Stop,
    /// Whether a command was taken.
    Reply { ok: bool },
}

/// Whether `v` fits a 32-bit signed integer.
pub open spec fn fits_i32(v: i64) -> bool {
    i32::MIN <= v <= i32::MAX
}

impl MountSimulatorMessage {
    /// The message's line without its end.
    pub open spec fn line_body(self) -> Seq<u8> {
        match self {
            MountSimulatorMessage::GetPosition => GET_POSITION@,
            MountSimulatorMessage::Position { axis1, axis2 } => POSITION@ + seq![59u8]
                + decimal_text(axis1 as int, 6) + seq![59u8] + decimal_text(axis2 as int, 6),
            MountSimulatorMessage::PositionError => POSITION@ + seq![59u8] + ERR@,
            MountSimulatorMessage::Slew { axis1, axis2 } => SLEW@ + seq![59u8] + decimal_text(
                axis1 as int,
                3,
            ) + seq![59u8] + decimal_text(axis2 as int, 3),
            MountSimulatorMessage::Stop => STOP@,
            MountSimulatorMessage::Reply { ok } => REPLY@ + seq![59u8] + (if ok {
                OK@
            } else {
                ERR@
            }),
        }
    }

    /// The message's line as sent: the body and a line end.
    pub open spec fn line_text(self) -> Seq<u8> {
        self.line_body() + seq![10u8]
    }

    /// Writes the message as a line.
    pub fn to_line(&self) -> (line: Vec<u8>)
        ensures
            line@ == self.line_text(),
    {
        let mut line: Vec<u8> = Vec::new();
        match *self {
            MountSimulatorMessage::GetPosition => {
                push_bytes(&mut line, GET_POSITION.as_slice());
            },
            MountSimulatorMessage::Position { axis1, axis2 } => {
                push_bytes(&mut line, POSITION.as_slice());
                line.push(SEPARATOR);
                push_decimal(&mut line, axis1, ANGLE_FRACTION_DIGITS);
                line.push(SEPARATOR);
                push_decimal(&mut line, axis2, ANGLE_FRACTION_DIGITS);
            },
            MountSimulatorMessage::PositionError => {
                push_bytes(&mut line, POSITION.as_slice());
                line.push(SEPARATOR);
                push_bytes(&mut line, ERR.as_slice());
            },
            MountSimulatorMessage::Slew { axis1, axis2 } => {
                push_bytes(&mut line, SLEW.as_slice());
                line.push(SEPARATOR);
                push_decimal(&mut line, axis1 as i64, SPEED_FRACTION_DIGITS);
                line.push(SEPARATOR);
                push_decimal(&mut line, axis2 as i64, SPEED_FRACTION_DIGITS);
            },
            MountSimulatorMessage::Stop => {
                push_bytes(&mut line, STOP.as_slice());
            },
            MountSimulatorMessage::Reply { ok } => {
                push_bytes(&mut line, REPLY.as_slice());
                line.push(SEPARATOR);
                if ok {
                    push_bytes(&mut line, OK.as_slice());
                } else {
                    push_bytes(&mut line, ERR.as_slice());
                }
            },
        }
        line.push(NEWLINE);
        proof {
            assert(line@ =~= self.line_text());
        }
        line
    }
}

/// The message that the fields behind the keyword `key` denote.
pub open spec fn parsed_fields(key: Seq<u8>, rest: Seq<u8>) -> Option<MountSimulatorMessage> {
    if key == POSITION@ {
        if rest == ERR@ {
            Some(MountSimulatorMessage::PositionError)
        } else {
            match decimal_fields(rest, 6) {
                Some(v) => if v.len() == 2 {
                    Some(MountSimulatorMessage::Position { axis1: v[0], axis2: v[1] })
                } else {
                    None
                },
                None => None,
            }
        }
    } else if key == SLEW@ {
        match decimal_fields(rest, 3) {
            Some(v) => if v.len() == 2 && fits_i32(v[0]) && fits_i32(v[1]) {
                Some(MountSimulatorMessage::Slew { axis1: v[0] as i32, axis2: v[1] as i32 })
            } else {
                None
            },
            None => None,
        }
    } else if key == REPLY@ {
        if rest == OK@ {
            Some(MountSimulatorMessage::Reply { ok: true })
        } else if rest == ERR@ {
            Some(MountSimulatorMessage::Reply { ok: false })
        } else {
            None
        }
    } else {
        None
    }
}

/// The message that a line body denotes, if it is one.
pub open spec fn parsed_line(body: Seq<u8>) -> Option<MountSimulatorMessage> {
    let n = field_len(body) as int;
    let key = body.subrange(0, n);
    if n >= body.len() {
        if key == GET_POSITION@ {
            Some(MountSimulatorMessage::GetPosition)
        } else if key == STOP@ {
            Some(MountSimulatorMessage::Stop)
        } else {
            None
        }
    } else {
        parsed_fields(key, body.skip(n + 1))
    }
}

/// Reads two decimal fields from index `from` on.
fn parse_pair(body: &[u8], from: usize, frac_digits: u8) -> (pair: Option<(i64, i64)>)
    requires
        from <= body@.len(),
        frac_digits <= crate::decimal::MAX_FRACTION_DIGITS,
    ensures
        pair == (match decimal_fields(body@.skip(from as int), frac_digits as nat) {
            Some(v) => if v.len() == 2 {
                Some((v[0], v[1]))
            } else {
                None
            },
            None => None,
        }),
{
    match parse_decimal_fields(body, from, frac_digits) {
        Some(values) => if values.len() == 2 {
            Some((values[0], values[1]))
        } else {
            None
        },
        None => None,
    }
}

/// Reads a message of the mount protocol, given without its line end.
pub fn parse_mount_message(body: &[u8]) -> (m: Option<MountSimulatorMessage>)
    ensures
        m == parsed_line(body@),
{
    let len: usize = body.len();
    proof {
        assert(body@.skip(0) =~= body@);
    }
    let end: usize = field_end(body, 0);
    let key: &[u8] = slice_subrange(body, 0, end);
    if end == len {
        if bytes_equal(key, GET_POSITION.as_slice()) {
            Some(MountSimulatorMessage::GetPosition)
        } else if bytes_equal(key, STOP.as_slice()) {
            Some(MountSimulatorMessage::Stop)
        } else {
            None
        }
    } else {
        let rest: &[u8] = slice_subrange(body, end + 1, len);
        proof {
            assert(rest@ =~= body@.skip(end + 1));
        }
        if bytes_equal(key, POSITION.as_slice()) {
            if bytes_equal(rest, ERR.as_slice()) {
                Some(MountSimulatorMessage::PositionError)
            } else {
                match parse_pair(body, end + 1, ANGLE_FRACTION_DIGITS) {
                    Some((axis1, axis2)) => Some(MountSimulatorMessage::Position { axis1, axis2 }),
                    None => None,
                }
            }
        } else if bytes_equal(key, SLEW.as_slice()) {
            match parse_pair(body, end + 1, SPEED_FRACTION_DIGITS) {
                Some((axis1, axis2)) => {
                    if axis1 < -0x8000_0000 || axis1 > 0x7fff_ffff || axis2 < -0x8000_0000 || axis2
                        > 0x7fff_ffff {
                        None
                    } else {
                        Some(MountSimulatorMessage::Slew { axis1: axis1 as i32, axis2: axis2 as i32 })
                    }
                },
                None => None,
            }
        } else if bytes_equal(key, REPLY.as_slice()) {
            if bytes_equal(rest, OK.as_slice()) {
                Some(MountSimulatorMessage::Reply { ok: true })
            } else if bytes_equal(rest, ERR.as_slice()) {
                Some(MountSimulatorMessage::Reply { ok: false })
            } else {
                None
            }
        } else {
            None
        }
    }
}

/// The microdegrees nearest to a position in ticks.
pub open spec fn microdegrees(ticks: int) -> int {
    nearest(ticks, 12)
}

/// Whether `reply` and the axes `after` are a fitting answer of axes `before`
/// to `request`, at whatever times the clock gave:
/// a position request is answered with where the axes are and moves nothing;
/// a slew command re-targets each axis from where it is and is acknowledged;
/// a stop is a slew to rest; any other message is left unanswered and
/// changes nothing.
pub open spec fn answers(
    before: (Profile, Profile),
    request: MountSimulatorMessage,
    after: (Profile, Profile),
    reply: Option<MountSimulatorMessage>,
) -> bool {
    match request {
        MountSimulatorMessage::GetPosition => after == before && exists|dt1: int, dt2: int|
            0 <= dt1 <= u64::MAX && 0 <= dt2 <= u64::MAX && reply == Some(
                #[trigger] position_reply(before, dt1, dt2),
            ),
        MountSimulatorMessage::Slew { axis1, axis2 } => reply == Some(
            MountSimulatorMessage::Reply { ok: true },
        ) && exists|dt1: int, dt2: int|
            0 <= dt1 <= u64::MAX && 0 <= dt2 <= u64::MAX && after == #[trigger] slewed(
                before,
                dt1,
                dt2,
                axis1,
                axis2,
            ),
        MountSimulatorMessage::Stop => reply == Some(MountSimulatorMessage::Reply { ok: true })
            && exists|dt1: int, dt2: int|
            0 <= dt1 <= u64::MAX && 0 <= dt2 <= u64::MAX && after == #[trigger] slewed(
                before,
                dt1,
                dt2,
                0,
                0,
            ),
        _ => reply.is_none() && after == before,
    }
}

/// The reply to a position request that finds the first axis `dt1` and the
/// second `dt2` milliseconds after their baselines.
pub open spec fn position_reply(axes: (Profile, Profile), dt1: int, dt2: int)
    -> MountSimulatorMessage {
    MountSimulatorMessage::Position {
        axis1: microdegrees(axes.0.position_after(dt1)) as i64,
        axis2: microdegrees(axes.1.position_after(dt2)) as i64,
    }
}

/// The baselines after a slew command that finds the first axis `dt1` and
/// the second `dt2` milliseconds after their baselines.
pub open spec fn slewed(axes: (Profile, Profile), dt1: int, dt2: int, axis1: i32, axis2: i32) -> (
    Profile,
    Profile,
) {
    (axes.0.retargeted_spec(dt1, axis1), axes.1.retargeted_spec(dt2, axis2))
}

impl PrivState {
    /// The baselines of both axes.
    pub open spec fn profiles(&self) -> (Profile, Profile) {
        (self.axis1@, self.axis2@)
    }

    /// Commands a speed for each axis.
    pub fn slew(&mut self, axis1: i32, axis2: i32)
        ensures
            exists|dt1: int, dt2: int|
                0 <= dt1 <= u64::MAX && 0 <= dt2 <= u64::MAX && final(self).profiles()
                    == #[trigger] slewed(old(self).profiles(), dt1, dt2, axis1, axis2),
    {
        self.axis1.set_target_speed(axis1);
        self.axis2.set_target_speed(axis2);
        proof {
            let dt1 = choose|dt: int|
                0 <= dt <= u64::MAX && self.axis1@ == #[trigger] old(self).axis1@.retargeted_spec(
                    dt,
                    axis1,
                );
            let dt2 = choose|dt: int|
                0 <= dt <= u64::MAX && self.axis2@ == #[trigger] old(self).axis2@.retargeted_spec(
                    dt,
                    axis2,
                );
            assert(self.profiles() == slewed(old(self).profiles(), dt1, dt2, axis1, axis2));
        }
    }

    /// Answers one request of a controller. The reply, if there is one, is to
    /// be sent back; a message that is no request gets none.
    pub fn respond(&mut self, request: &MountSimulatorMessage) -> (reply: Option<
        MountSimulatorMessage,
    >)
        ensures
            answers(old(self).profiles(), *request, final(self).profiles(), reply),
    {
        match *request {
            MountSimulatorMessage::GetPosition => {
                let state: MountState = self.get();
                let axis1: i64 = to_nearest(state.axis1_pos, TICKS_PER_MICRODEGREE);
                let axis2: i64 = to_nearest(state.axis2_pos, TICKS_PER_MICRODEGREE);
                proof {
                    let dt1 = choose|dt: int|
                        0 <= dt <= u64::MAX && state.axis1_pos
                            == #[trigger] self.axis1@.position_after(dt) && state.axis1_spd
                            == self.axis1@.speed_after(dt);
                    let dt2 = choose|dt: int|
                        0 <= dt <= u64::MAX && state.axis2_pos
                            == #[trigger] self.axis2@.position_after(dt) && state.axis2_spd
                            == self.axis2@.speed_after(dt);
                    assert(MountSimulatorMessage::Position { axis1, axis2 } == position_reply(
                        self.profiles(),
                        dt1,
                        dt2,
                    ));
                }
                Some(MountSimulatorMessage::Position { axis1, axis2 })
            },
            MountSimulatorMessage::Slew { axis1, axis2 } => {
                self.slew(axis1, axis2);
                Some(MountSimulatorMessage::Reply { ok: true })
            },
            MountSimulatorMessage::Stop => {
                self.slew(0, 0);
                Some(MountSimulatorMessage::Reply { ok: true })
            },
            _ => None,
        }
    }

    /// Takes one line from a controller, given without its line end, and
    /// returns the line to send back, if any. A line that is no message is
    /// passed over: nothing changes and nothing is sent.
    pub fn handle_line(&mut self, body: &[u8]) -> (reply: Option<Vec<u8>>)
        ensures
            match parsed_line(body@) {
                None => reply.is_none() && final(self).profiles() == old(self).profiles(),
                Some(request) => exists|answer: Option<MountSimulatorMessage>|
                    #[trigger] answers(
                        old(self).profiles(),
                        request,
                        final(self).profiles(),
                        answer,
                    ) && match answer {
                        Some(message) => reply.is_some() && reply.unwrap()@
                            == message.line_text(),
                        None => reply.is_none(),
                    },
            },
    {
        match parse_mount_message(body) {
            None => None,
            Some(request) => {
                let answer = self.respond(&request);
                let reply = match answer {
                    Some(message) => Some(message.to_line()),
                    None => None,
                };
                assert(answers(old(self).profiles(), request, self.profiles(), answer));
                reply
            },
        }
    }
}

/// Two numbers with a separator between them read back as those two.
pub proof fn lemma_pair_fields(a: i64, b: i64, k: nat)
    ensures
        decimal_fields(decimal_text(a as int, k) + seq![59u8] + decimal_text(b as int, k), k)
            == Some(seq![a, b]),
        decimal_text(a as int, k).len() > 0,
        decimal_text(a as int, k)[0] != 69,
{
    lemma_fields_of_one(b, k);
    lemma_fields_of_first(a, k, decimal_text(b as int, k));
    assert(seq![a] + seq![b] =~= seq![a, b]);
    lemma_decimal_text_plain(a as int, k);
    crate::decimal::lemma_digits_of(0);
    let m = (if a < 0 {
        -(a as int)
    } else {
        a as int
    }) as nat;
    if k == 0 {
        crate::decimal::lemma_digits_of(m);
    } else {
        crate::decimal::lemma_digits_of(m / crate::decimal::pow10(k));
    }
}

/// A line made of a keyword alone has the keyword as its only field.
pub proof fn lemma_keyword_alone(key: Seq<u8>)
    requires
        forall|i: int| 0 <= i < key.len() ==> key[i] != 59,
    ensures
        field_len(key) == key.len(),
        key.subrange(0, key.len() as int) == key,
{
    lemma_field_len(key, key.len() as int);
    assert(key.subrange(0, key.len() as int) =~= key);
}

/// A line made of a keyword, a separator and more splits behind the keyword.
pub proof fn lemma_keyword_first(key: Seq<u8>, rest: Seq<u8>)
    requires
        forall|i: int| 0 <= i < key.len() ==> key[i] != 59,
    ensures
        field_len(key + seq![59u8] + rest) == key.len(),
        field_len(key + seq![59u8] + rest) < (key + seq![59u8] + rest).len(),
        (key + seq![59u8] + rest).subrange(0, key.len() as int) == key,
        (key + seq![59u8] + rest).skip(key.len() as int + 1) == rest,
{
    let line = key + seq![59u8] + rest;
    assert forall|i: int| 0 <= i < key.len() implies line[i] != 59 by {
        assert(line[i] == key[i]);
    }
    assert(line[key.len() as int] == 59);
    lemma_field_len(line, key.len() as int);
    assert(line.subrange(0, key.len() as int) =~= key);
    assert(line.skip(key.len() as int + 1) =~= rest);
}

/// The keywords hold no separator and differ from one another in their
/// first byte or their length.
pub proof fn lemma_keywords()
    ensures
        forall|i: int| 0 <= i < GET_POSITION@.len() ==> GET_POSITION@[i] != 59,
        forall|i: int| 0 <= i < POSITION@.len() ==> POSITION@[i] != 59,
        forall|i: int| 0 <= i < SLEW@.len() ==> SLEW@[i] != 59,
        forall|i: int| 0 <= i < STOP@.len() ==> STOP@[i] != 59,
        forall|i: int| 0 <= i < REPLY@.len() ==> REPLY@[i] != 59,
        GET_POSITION@ != STOP@,
        POSITION@ != SLEW@,
        POSITION@ != REPLY@,
        SLEW@ != REPLY@,
        OK@ != ERR@,
        ERR@.len() == 3,
        ERR@[0] == 69,
{
    assert(GET_POSITION@.len() == 11);
    assert(POSITION@.len() == 8);
    assert(SLEW@.len() == 4);
    assert(STOP@.len() == 4);
    assert(REPLY@.len() == 5);
    assert(OK@.len() == 2);
}

proof fn lemma_round_trip_position(axis1: i64, axis2: i64)
    ensures
        parsed_line((MountSimulatorMessage::Position { axis1, axis2 }).line_body()) == Some(
            MountSimulatorMessage::Position { axis1, axis2 },
        ),
{
    let rest = decimal_text(axis1 as int, 6) + seq![59u8] + decimal_text(axis2 as int, 6);
    let body = (MountSimulatorMessage::Position { axis1, axis2 }).line_body();
    lemma_keywords();
    lemma_pair_fields(axis1, axis2, 6);
    lemma_keyword_first(POSITION@, rest);
    assert(body =~= POSITION@ + seq![59u8] + rest);
    assert(rest[0] == decimal_text(axis1 as int, 6)[0]);
    assert(rest != ERR@);
}

proof fn lemma_round_trip_slew(axis1: i32, axis2: i32)
    ensures
        parsed_line((MountSimulatorMessage::Slew { axis1, axis2 }).line_body()) == Some(
            MountSimulatorMessage::Slew { axis1, axis2 },
        ),
{
    let rest = decimal_text(axis1 as int, 3) + seq![59u8] + decimal_text(axis2 as int, 3);
    let body = (MountSimulatorMessage::Slew { axis1, axis2 }).line_body();
    lemma_keywords();
    lemma_pair_fields(axis1 as i64, axis2 as i64, 3);
    lemma_keyword_first(SLEW@, rest);
    assert(body =~= SLEW@ + seq![59u8] + rest);
}

proof fn lemma_round_trip_words(m: MountSimulatorMessage)
    requires
        m is GetPosition || m is Stop || m is PositionError || m is Reply,
    ensures
        parsed_line(m.line_body()) == Some(m),
{
    lemma_keywords();
    match m {
        MountSimulatorMessage::GetPosition => {
            lemma_keyword_alone(GET_POSITION@);
        },
        MountSimulatorMessage::Stop => {
            lemma_keyword_alone(STOP@);
        },
        MountSimulatorMessage::PositionError => {
            lemma_keyword_first(POSITION@, ERR@);
        },
        MountSimulatorMessage::Reply { ok } => {
            if ok {
                lemma_keyword_first(REPLY@, OK@);
            } else {
                lemma_keyword_first(REPLY@, ERR@);
            }
        },
        _ => {},
    }
}

/// Every message is read back from its own line unchanged.
pub proof fn lemma_message_round_trip(m: MountSimulatorMessage)
    ensures
        parsed_line(m.line_body()) == Some(m),
{
    match m {
        MountSimulatorMessage::Position { axis1, axis2 } => {
            lemma_round_trip_position(axis1, axis2);
        },
        MountSimulatorMessage::Slew { axis1, axis2 } => {
            lemma_round_trip_slew(axis1, axis2);
        },
        _ => {
            lemma_round_trip_words(m);
        },
    }
}

} // verus!
