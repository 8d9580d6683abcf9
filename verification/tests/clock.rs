use mcpg_policy_cedar::calendar::epoch_to_ymdhms;
use mcpg_policy_cedar::clock::{
    marker_at, now_marker, rfc3339_at, rfc3339_now, timestamp, unix_now, unix_time_at,
    LAST_SECOND,
};

#[test]
fn dates_of_seconds() {
    assert_eq!(epoch_to_ymdhms(0), (1970, 1, 1, 0, 0, 0));
    assert_eq!(epoch_to_ymdhms(86_399), (1970, 1, 1, 23, 59, 59));
    assert_eq!(epoch_to_ymdhms(86_400), (1970, 1, 2, 0, 0, 0));
    assert_eq!(epoch_to_ymdhms(-1), (1969, 12, 31, 23, 59, 59));
    assert_eq!(epoch_to_ymdhms(951_782_400), (2000, 2, 29, 0, 0, 0));
    assert_eq!(epoch_to_ymdhms(951_868_800), (2000, 3, 1, 0, 0, 0));
    assert_eq!(epoch_to_ymdhms(1_709_164_800), (2024, 2, 29, 0, 0, 0));
    assert_eq!(epoch_to_ymdhms(4_107_542_399), (2100, 2, 28, 23, 59, 59));
    assert_eq!(epoch_to_ymdhms(4_107_542_400), (2100, 3, 1, 0, 0, 0));
    assert_eq!(epoch_to_ymdhms(253_402_300_799), (9999, 12, 31, 23, 59, 59));
    assert_eq!(epoch_to_ymdhms(-62_135_596_800), (1, 1, 1, 0, 0, 0));
}

#[test]
fn timestamps() {
    assert_eq!(rfc3339_at(0, 0), "1970-01-01T00:00:00.000Z");
    assert_eq!(rfc3339_at(951_782_400, 7), "2000-02-29T00:00:00.007Z");
    assert_eq!(rfc3339_at(1_700_000_000, 123), "2023-11-14T22:13:20.123Z");
    assert_eq!(rfc3339_at(LAST_SECOND, 999), "2147483647-12-31T23:59:59.999Z");
    assert_eq!(timestamp(0, 1).as_deref(), Some("1970-01-01T00:00:00.001Z"));
    assert!(timestamp(LAST_SECOND, 0).is_some());
    assert!(timestamp(LAST_SECOND + 1, 0).is_none());
}

#[test]
fn timestamps_sort_in_time() {
    let moments = [
        (0, 0),
        (0, 1),
        (1, 0),
        (59, 999),
        (60, 0),
        (86_399, 999),
        (86_400, 0),
        (951_782_400, 0),
        (951_868_800, 0),
        (1_700_000_000, 5),
        (253_402_300_799, 999),
    ];
    let texts: Vec<String> = moments.iter().map(|m| rfc3339_at(m.0, m.1)).collect();
    for pair in texts.windows(2) {
        assert!(pair[0] < pair[1], "{} {}", pair[0], pair[1]);
    }
}

#[test]
fn dates_follow_each_other() {
    let mut before = epoch_to_ymdhms(-86_400 * 800);
    for day in -799..800i64 {
        let date = epoch_to_ymdhms(day * 86_400);
        assert!((before.0, before.1, before.2) < (date.0, date.1, date.2));
        before = date;
    }
}

#[test]
fn markers() {
    assert_eq!(marker_at(0), "@0");
    assert_eq!(marker_at(1_700_000_000), "@1700000000");
    let (secs, millis) = unix_now();
    assert!(secs > 1_700_000_000);
    assert!(millis < 1000);
    let marker = now_marker();
    assert!(marker[1..].parse::<u64>().unwrap() >= secs);
    assert!(marker.starts_with('@'));
    let now = rfc3339_now().unwrap();
    assert!(now >= rfc3339_at(secs, 0));
    assert!(now.ends_with('Z'));
}

#[test]
fn readings_of_the_clock() {
    let start = std::time::UNIX_EPOCH;
    let after = |nanos: u64| start + std::time::Duration::from_nanos(nanos);
    assert_eq!(unix_time_at(start), (0, 0));
    assert_eq!(unix_time_at(after(999_999)), (0, 0));
    assert_eq!(unix_time_at(after(1_999_999)), (0, 1));
    assert_eq!(unix_time_at(after(1_700_000_000_123_456_789)), (1_700_000_000, 123));
    assert_eq!(unix_time_at(start - std::time::Duration::from_secs(5)), (0, 0));
}
