use pointing_simulator::target_interpolator::TargetInterpolator;
use pointing_simulator::telemetry::{
    advance, parse_target_info, position_from_tenths, LocalPoint, LocalVelocity,
    TargetInfoMessage,
};
use pointing_simulator::units::to_nearest;
use pointing_simulator::wire::{bytes_equal, field_end, parse_decimal_fields};

fn sample() -> TargetInfoMessage {
    TargetInfoMessage {
        position: LocalPoint { x: 0, y: 0, z: 0 },
        velocity: LocalVelocity { x: 100, y: 0, z: 0 },
        track: -900,
        altitude: 50_000,
    }
}

#[test]
fn line_has_eight_fields_with_one_decimal() {
    let line = sample().to_line();
    assert_eq!(
        String::from_utf8(line).unwrap(),
        "0.0;0.0;0.0;10.0;0.0;0.0;-90.0;5000.0\n"
    );
}

#[test]
fn line_rounds_position_to_the_nearest_tenth() {
    let m = TargetInfoMessage {
        position: LocalPoint { x: 12_345_678, y: -12_345_678, z: 500 },
        velocity: LocalVelocity { x: -2000, y: 15, z: -1 },
        track: 1234,
        altitude: -5,
    };
    assert_eq!(
        String::from_utf8(m.to_line()).unwrap(),
        "1234.6;-1234.6;0.1;-200.0;1.5;-0.1;123.4;-0.5\n"
    );
}

#[test]
fn rounding_goes_to_the_nearest_and_ties_go_up() {
    assert_eq!(to_nearest(1499, 1000), 1);
    assert_eq!(to_nearest(1500, 1000), 2);
    assert_eq!(to_nearest(-1500, 1000), -1);
    assert_eq!(to_nearest(-1501, 1000), -2);
    assert_eq!(to_nearest(-499, 1000), 0);
    assert_eq!(to_nearest(-500, 1000), 0);
    assert_eq!(to_nearest(-501, 1000), -1);
    assert_eq!(to_nearest(23_000_000, 12), 1_916_667);
    assert_eq!(to_nearest(-18, 12), -1);
    assert_eq!(to_nearest(i64::MAX, 2), 4_611_686_018_427_387_904);
    assert_eq!(to_nearest(i64::MIN, 2), -4_611_686_018_427_387_904);
    assert_eq!(to_nearest(i64::MIN, i64::MAX), -1);
    assert_eq!(to_nearest(i64::MAX, i64::MAX), 1);
}

#[test]
fn parses_a_line() {
    let m = parse_target_info(b"12.5;-3.0;100;10.0;0.0;-0.5;-90.0;5000.0").unwrap();
    assert_eq!(
        m,
        TargetInfoMessage {
            position: LocalPoint { x: 125_000, y: -30_000, z: 1_000_000 },
            velocity: LocalVelocity { x: 100, y: 0, z: -5 },
            track: -900,
            altitude: 50_000,
        }
    );
}

#[test]
fn line_reads_back_as_the_sample() {
    let m = TargetInfoMessage {
        position: LocalPoint { x: 11_112_000, y: -5_555_000, z: 50_000_000 },
        velocity: LocalVelocity { x: 0, y: 2000, z: 0 },
        track: -900,
        altitude: 50_000,
    };
    let line = m.to_line();
    assert_eq!(line.last(), Some(&b'\n'));
    assert_eq!(parse_target_info(&line[..line.len() - 1]), Some(m));
}

#[test]
fn rejects_malformed_lines() {
    assert_eq!(parse_target_info(b""), None);
    assert_eq!(parse_target_info(b"1;2;3;4;5;6;7"), None);
    assert_eq!(parse_target_info(b"1;2;3;4;5;6;7;8;9"), None);
    assert_eq!(parse_target_info(b"1;2;3;4;5;6;7;"), None);
    assert_eq!(parse_target_info(b"1;2;3;4;5;6;7;x"), None);
    assert_eq!(parse_target_info(b"1;2;3;4;5;6;7;8\n"), None);
    assert_eq!(parse_target_info(b"1.25;2;3;4;5;6;7;8"), None);
    assert_eq!(parse_target_info(b"1,2,3,4,5,6,7,8"), None);
    assert!(parse_target_info(b"1;2;3;4;5;6;7;8").is_some());
}

#[test]
fn rejects_positions_out_of_range() {
    // fits as tenths, but not as tenths of a millimetre
    assert_eq!(parse_target_info(b"922337203685477.6;2;3;4;5;6;7;8"), None);
    assert!(parse_target_info(b"922337203685477.5;2;3;4;5;6;7;8").is_some());
    assert_eq!(position_from_tenths(9_223_372_036_854_775), Some(9_223_372_036_854_775_000));
    assert_eq!(position_from_tenths(9_223_372_036_854_776), None);
    assert_eq!(position_from_tenths(-9_223_372_036_854_776), None);
}

#[test]
fn dead_reckoning_half_a_second() {
    // 10 m/s to the north for half a second is five metres
    let m = sample().extrapolated(500);
    assert_eq!(m.position, LocalPoint { x: 50_000, y: 0, z: 0 });
    assert_eq!(m.velocity, sample().velocity);
    assert_eq!(m.track, sample().track);
    assert_eq!(m.altitude, sample().altitude);
}

#[test]
fn dead_reckoning_is_linear_in_time() {
    let m = TargetInfoMessage {
        position: LocalPoint { x: 1000, y: -2000, z: 3000 },
        velocity: LocalVelocity { x: 7, y: -11, z: 0 },
        track: 450,
        altitude: 100,
    };
    assert_eq!(m.extrapolated(0), m);
    let a = m.extrapolated(16);
    let b = m.extrapolated(32);
    assert_eq!(a.position, LocalPoint { x: 1112, y: -2176, z: 3000 });
    assert_eq!(b.position.x - a.position.x, a.position.x - m.position.x);
    assert_eq!(b.position.y - a.position.y, a.position.y - m.position.y);
}

#[test]
fn dead_reckoning_saturates() {
    assert_eq!(advance(i64::MAX - 5, 1, 10), i64::MAX);
    assert_eq!(advance(i64::MIN + 5, -1, 10), i64::MIN);
    assert_eq!(advance(0, i64::MIN, u64::MAX), i64::MIN);
    assert_eq!(advance(0, i64::MAX, u64::MAX), i64::MAX);
    assert_eq!(advance(i64::MIN, i64::MAX, 1), -1);
    assert_eq!(advance(5, 3, 4), 17);
}

#[test]
fn interpolator_without_sample_publishes_nothing() {
    let mut t = TargetInterpolator::new();
    assert_eq!(t.latest(), None);
    assert_eq!(t.interpolate(), None);
    assert_eq!(t.interpolate(), None);
    assert_eq!(t.current(), None);
}

#[test]
fn interpolator_republishes_a_new_sample_as_it_is() {
    let mut t = TargetInterpolator::new();
    let m = sample();
    assert_eq!(t.notify(&m), m);
    assert_eq!(t.latest(), Some(m));
    assert_eq!(t.current(), Some(m));
}

#[test]
fn interpolator_carries_the_sample_forward() {
    let mut t = TargetInterpolator::new();
    let m = sample();
    t.notify(&m);
    let start = std::time::Instant::now();
    while start.elapsed() < std::time::Duration::from_millis(500) {}
    let out = t.interpolate().unwrap();
    // about five metres after half a second at 10 m/s
    assert!(out.position.x >= 50_000 && out.position.x < 150_000);
    assert_eq!((out.position.y, out.position.z), (0, 0));
    assert_eq!(out.velocity, m.velocity);
    assert_eq!(out.track, m.track);
    assert_eq!(out.altitude, m.altitude);
    assert_eq!(t.latest(), Some(m));
    assert_eq!(t.current(), Some(out));
    let again = t.interpolate().unwrap();
    assert!(again.position.x >= out.position.x);
}

#[test]
fn interpolator_replaces_the_sample_wholesale() {
    let mut t = TargetInterpolator::new();
    t.notify(&sample());
    let next = TargetInfoMessage {
        position: LocalPoint { x: -1, y: -2, z: -3 },
        velocity: LocalVelocity { x: 0, y: 0, z: 0 },
        track: 0,
        altitude: 1,
    };
    t.notify(&next);
    assert_eq!(t.latest(), Some(next));
    assert_eq!(t.interpolate(), Some(next));
}

#[test]
fn fields_split_at_separators() {
    let line = b"ab;;c";
    assert_eq!(field_end(line, 0), 2);
    assert_eq!(field_end(line, 3), 3);
    assert_eq!(field_end(line, 4), 5);
    assert_eq!(field_end(line, 5), 5);
    assert_eq!(parse_decimal_fields(b"1;2.5;-3", 0, 1), Some(vec![10, 25, -30]));
    assert_eq!(parse_decimal_fields(b"1;2.5;-3", 2, 1), Some(vec![25, -30]));
    assert_eq!(parse_decimal_fields(b"1;;3", 0, 1), None);
    assert_eq!(parse_decimal_fields(b"1;2;", 0, 1), None);
    assert_eq!(parse_decimal_fields(b"", 0, 1), None);
    assert_eq!(parse_decimal_fields(b"7", 0, 0), Some(vec![7]));
    assert!(bytes_equal(b"Stop", b"Stop"));
    assert!(!bytes_equal(b"Stop", b"Stap"));
    assert!(!bytes_equal(b"Stop", b"Sto"));
    assert!(bytes_equal(b"", b""));
}
