use pointing_simulator::mount_model::PrivState;
use pointing_simulator::mount_protocol::{parse_mount_message, MountSimulatorMessage};
use pointing_simulator::wire::push_bytes;

fn line(m: MountSimulatorMessage) -> String {
    String::from_utf8(m.to_line()).unwrap()
}

fn wait(millis: u64) {
    let start = std::time::Instant::now();
    while start.elapsed() < std::time::Duration::from_millis(millis) {}
}

#[test]
fn writes_each_message() {
    assert_eq!(line(MountSimulatorMessage::GetPosition), "GetPosition\n");
    assert_eq!(
        line(MountSimulatorMessage::Position { axis1: 1_916_667, axis2: -500_000 }),
        "Position;1.916667;-0.500000\n"
    );
    assert_eq!(line(MountSimulatorMessage::PositionError), "Position;ERR\n");
    assert_eq!(
        line(MountSimulatorMessage::Slew { axis1: 1000, axis2: 0 }),
        "Slew;1.000;0.000\n"
    );
    assert_eq!(line(MountSimulatorMessage::Stop), "Stop\n");
    assert_eq!(line(MountSimulatorMessage::Reply { ok: true }), "Reply;OK\n");
    assert_eq!(line(MountSimulatorMessage::Reply { ok: false }), "Reply;ERR\n");
}

#[test]
fn reads_each_message() {
    assert_eq!(parse_mount_message(b"GetPosition"), Some(MountSimulatorMessage::GetPosition));
    assert_eq!(parse_mount_message(b"Stop"), Some(MountSimulatorMessage::Stop));
    assert_eq!(
        parse_mount_message(b"Slew;1;-0.25"),
        Some(MountSimulatorMessage::Slew { axis1: 1000, axis2: -250 })
    );
    assert_eq!(
        parse_mount_message(b"Position;10.5;-0.000001"),
        Some(MountSimulatorMessage::Position { axis1: 10_500_000, axis2: -1 })
    );
    assert_eq!(parse_mount_message(b"Position;ERR"), Some(MountSimulatorMessage::PositionError));
    assert_eq!(parse_mount_message(b"Reply;OK"), Some(MountSimulatorMessage::Reply { ok: true }));
    assert_eq!(parse_mount_message(b"Reply;ERR"), Some(MountSimulatorMessage::Reply { ok: false }));
}

#[test]
fn rejects_what_is_no_message() {
    assert_eq!(parse_mount_message(b""), None);
    assert_eq!(parse_mount_message(b"getposition"), None);
    assert_eq!(parse_mount_message(b"GetPosition;"), None);
    assert_eq!(parse_mount_message(b"GetPosition\n"), None);
    assert_eq!(parse_mount_message(b"Stop;1"), None);
    assert_eq!(parse_mount_message(b"Slew"), None);
    assert_eq!(parse_mount_message(b"Slew;1"), None);
    assert_eq!(parse_mount_message(b"Slew;1;2;3"), None);
    assert_eq!(parse_mount_message(b"Slew;1;x"), None);
    assert_eq!(parse_mount_message(b"Slew;1.0005;0"), None);
    assert_eq!(parse_mount_message(b"Slew;2147483.647;-2147483.648"),
        Some(MountSimulatorMessage::Slew { axis1: i32::MAX, axis2: i32::MIN }));
    assert_eq!(parse_mount_message(b"Slew;2147483.648;0"), None);
    assert_eq!(parse_mount_message(b"Slew;0;-2147483.649"), None);
    assert_eq!(parse_mount_message(b"Position;1"), None);
    assert_eq!(parse_mount_message(b"Position;1.0000001;0"), None);
    assert_eq!(parse_mount_message(b"Reply"), None);
    assert_eq!(parse_mount_message(b"Reply;ok"), None);
    assert_eq!(parse_mount_message(b"Reply;OK;1"), None);
    assert_eq!(parse_mount_message(b"Hello;1;2"), None);
}

#[test]
fn every_message_reads_back_from_its_line() {
    let messages = [
        MountSimulatorMessage::GetPosition,
        MountSimulatorMessage::Position { axis1: 0, axis2: 0 },
        MountSimulatorMessage::Position { axis1: i64::MAX, axis2: i64::MIN },
        MountSimulatorMessage::PositionError,
        MountSimulatorMessage::Slew { axis1: 1000, axis2: -1 },
        MountSimulatorMessage::Slew { axis1: i32::MIN, axis2: i32::MAX },
        MountSimulatorMessage::Stop,
        MountSimulatorMessage::Reply { ok: true },
        MountSimulatorMessage::Reply { ok: false },
    ];
    for m in messages {
        let text = m.to_line();
        assert_eq!(text.last(), Some(&b'\n'));
        assert_eq!(parse_mount_message(&text[..text.len() - 1]), Some(m));
    }
}

#[test]
fn push_bytes_appends() {
    let mut out = vec![1u8, 2];
    push_bytes(&mut out, b"ab");
    push_bytes(&mut out, b"");
    assert_eq!(out, vec![1, 2, 97, 98]);
}

#[test]
fn mount_at_rest_reports_zero() {
    let mut mount = PrivState::new();
    assert_eq!(
        mount.respond(&MountSimulatorMessage::GetPosition),
        Some(MountSimulatorMessage::Position { axis1: 0, axis2: 0 })
    );
    assert_eq!(
        mount.handle_line(b"GetPosition"),
        Some(b"Position;0.000000;0.000000\n".to_vec())
    );
}

#[test]
fn slew_then_position_after_two_seconds() {
    let mut mount = PrivState::new();
    assert_eq!(
        mount.respond(&MountSimulatorMessage::Slew { axis1: 1000, axis2: 0 }),
        Some(MountSimulatorMessage::Reply { ok: true })
    );
    wait(2000);
    match mount.respond(&MountSimulatorMessage::GetPosition) {
        Some(MountSimulatorMessage::Position { axis1, axis2 }) => {
            // ramp of 1/6 s to 1 deg/s, then cruise: 1.916667 degrees after
            // 2 s, and one more millidegree with each millisecond of delay
            assert!(axis1 >= 1_916_667 && axis1 < 1_916_667 + 1_000_000);
            assert_eq!(axis2, 0);
        }
        other => panic!("unexpected reply {:?}", other),
    }
    let state = mount.get();
    assert_eq!(state.axis1_spd, 1000);
    assert_eq!(state.axis2_spd, 0);
}

#[test]
fn stop_brings_the_axes_to_rest() {
    let mut mount = PrivState::new();
    assert_eq!(mount.handle_line(b"Slew;0.600;-0.600"), Some(b"Reply;OK\n".to_vec()));
    wait(150);
    let moving = mount.get();
    assert_eq!((moving.axis1_spd, moving.axis2_spd), (600, -600));
    assert_eq!(mount.handle_line(b"Stop"), Some(b"Reply;OK\n".to_vec()));
    assert_eq!(mount.axis1.profile().target_spd, 0);
    assert_eq!(mount.axis2.profile().target_spd, 0);
    wait(150);
    let resting = mount.get();
    assert_eq!((resting.axis1_spd, resting.axis2_spd), (0, 0));
    assert!(resting.axis1_pos > 0 && resting.axis2_pos < 0);
    assert_eq!(resting.axis1_pos, -resting.axis2_pos);
    wait(20);
    let later = mount.get();
    assert_eq!(later.axis1_pos, resting.axis1_pos);
    assert_eq!(later.axis2_pos, resting.axis2_pos);
}

#[test]
fn unexpected_and_malformed_lines_are_passed_over() {
    let mut mount = PrivState::new();
    assert_eq!(mount.handle_line(b"Slew;1.000;1.000"), Some(b"Reply;OK\n".to_vec()));
    let before = (mount.axis1.profile(), mount.axis2.profile());
    assert_eq!(mount.handle_line(b"nonsense"), None);
    assert_eq!(mount.handle_line(b"Slew;fast;faster"), None);
    assert_eq!(mount.handle_line(b"Reply;OK"), None);
    assert_eq!(mount.handle_line(b"Position;1.0;2.0"), None);
    assert_eq!(mount.respond(&MountSimulatorMessage::PositionError), None);
    let after = (mount.axis1.profile(), mount.axis2.profile());
    assert_eq!(
        (before.0.pos0, before.0.spd0, before.0.target_spd),
        (after.0.pos0, after.0.spd0, after.0.target_spd)
    );
    assert_eq!(
        (before.1.pos0, before.1.spd0, before.1.target_spd),
        (after.1.pos0, after.1.spd0, after.1.target_spd)
    );
    // the connection goes on: the next request is answered
    assert!(mount.handle_line(b"GetPosition").is_some());
}
