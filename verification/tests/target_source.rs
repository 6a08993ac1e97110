use pointing_simulator::target_source::{
    arc_length, keep_delivered, MSG_DELTA_T_MS, TARGET_SOURCE_PORT,
};

#[test]
fn arc_of_one_tick_at_200_metres_per_second() {
    // 200 m/s over 250 ms is 50 m
    assert_eq!(arc_length(2000, MSG_DELTA_T_MS), 500_000);
    assert_eq!(arc_length(2000, 0), 0);
    assert_eq!(arc_length(2000, 1), 2000);
    // a late tick counts for the time that really passed
    assert_eq!(arc_length(2000, 263), 526_000);
    assert_eq!(arc_length(-2000, 250), -500_000);
}

#[test]
fn arc_saturates() {
    assert_eq!(arc_length(i64::MAX, 2), i64::MAX);
    assert_eq!(arc_length(i64::MIN, 2), i64::MIN);
    assert_eq!(arc_length(1, u64::MAX), i64::MAX);
}

#[test]
fn port_is_fixed() {
    assert_eq!(TARGET_SOURCE_PORT, 45500);
}

#[test]
fn failed_clients_are_dropped_in_order() {
    let mut clients = vec!["a", "b", "c", "d", "e"];
    keep_delivered(&mut clients, &vec![true, false, true, false, true]);
    assert_eq!(clients, vec!["a", "c", "e"]);
    keep_delivered(&mut clients, &vec![false, true, true]);
    assert_eq!(clients, vec!["c", "e"]);
}

#[test]
fn all_or_none_delivered() {
    let mut clients = vec![1, 2, 3];
    keep_delivered(&mut clients, &vec![true, true, true]);
    assert_eq!(clients, vec![1, 2, 3]);
    keep_delivered(&mut clients, &vec![false, false, false]);
    assert!(clients.is_empty());
    keep_delivered(&mut clients, &vec![]);
    assert!(clients.is_empty());
}
