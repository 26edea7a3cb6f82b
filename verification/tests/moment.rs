use cc_sandbox::moment::{age_at, age_text, format_age, stamp_at, Moment, EARLIEST, LATEST};
use chrono::{DateTime, FixedOffset, Local, NaiveDateTime, SecondsFormat, TimeZone};

fn moment(secs: i64, nanos: u32, offset_secs: i32) -> Moment {
    Moment {
        secs,
        nanos,
        offset_secs,
    }
}

#[test]
fn the_calendar_has_these_bounds() {
    assert_eq!(NaiveDateTime::MIN.and_utc().timestamp(), EARLIEST);
    assert_eq!(NaiveDateTime::MAX.and_utc().timestamp(), LATEST);
    assert!(DateTime::from_timestamp(EARLIEST - 1, 0).is_none());
    assert!(DateTime::from_timestamp(LATEST + 1, 0).is_none());
}

#[test]
fn a_stamp_is_an_rfc_3339_time() {
    let now = moment(1776180622, 0, 0);
    assert_eq!(stamp_at(now).unwrap(), "2026-04-14T15:30:22+00:00");
    let later = moment(1776180622, 999_999_999, 2 * 3600);
    assert_eq!(stamp_at(later).unwrap(), "2026-04-14T17:30:22+02:00");
    let west = moment(1776180622, 5, -(9 * 3600 + 1800));
    assert_eq!(stamp_at(west).unwrap(), "2026-04-14T06:00:22-09:30");
}

#[test]
fn a_stamp_is_what_chrono_writes() {
    for secs in [EARLIEST + 90000, -1, 0, 951782400, 1776180622, LATEST - 90000] {
        for offset in [0, 3600, -3600, 12345, -86399, 86399] {
            let zone = FixedOffset::east_opt(offset).unwrap();
            let theirs = zone
                .timestamp_opt(secs, 0)
                .unwrap()
                .to_rfc3339_opts(SecondsFormat::Secs, false);
            assert_eq!(stamp_at(moment(secs, 0, offset)), Some(theirs));
        }
    }
}

#[test]
fn a_moment_without_a_local_date_has_no_stamp() {
    assert!(stamp_at(moment(LATEST, 0, 3600)).is_none());
    assert!(stamp_at(moment(EARLIEST, 0, -3600)).is_none());
    assert!(stamp_at(moment(LATEST, 0, 0)).is_some());
}

#[test]
fn what_names_no_moment_is_not_valid() {
    assert!(moment(0, 0, 0).is_valid());
    assert!(moment(59, 1_500_000_000, 0).is_valid());
    assert!(moment(-1, 1_500_000_000, 0).is_valid());
    assert!(!moment(58, 1_500_000_000, 0).is_valid());
    assert!(!moment(59, 2_000_000_000, 0).is_valid());
    assert!(!moment(LATEST + 1, 0, 0).is_valid());
    assert!(!moment(EARLIEST - 1, 0, 0).is_valid());
    assert!(!moment(0, 0, 86400).is_valid());
    assert!(!moment(0, 0, -86400).is_valid());
}

#[test]
fn an_age_is_in_its_largest_unit() {
    assert_eq!(age_text(-5), "-5s ago");
    assert_eq!(age_text(0), "0s ago");
    assert_eq!(age_text(59), "59s ago");
    assert_eq!(age_text(60), "1m ago");
    assert_eq!(age_text(3599), "59m ago");
    assert_eq!(age_text(3600), "1h ago");
    assert_eq!(age_text(86399), "23h ago");
    assert_eq!(age_text(86400), "1d ago");
    assert_eq!(age_text(8 * 86400 + 5), "8d ago");
}

#[test]
fn an_age_counts_whole_seconds_as_chrono_does() {
    let pairs = [
        (100, 0, 40, 1),
        (100, 0, 40, 0),
        (40, 0, 100, 1),
        (59, 1_500_000_000, 59, 0),
        (60, 0, 59, 1_500_000_000),
        (119, 1_999_999_999, 59, 1_000_000_000),
        (LATEST, 0, EARLIEST, 0),
    ];
    for (a, an, b, bn) in pairs {
        let now = moment(a, an, 7200);
        let created = moment(b, bn, -3600);
        let theirs = DateTime::from_timestamp(a, an)
            .unwrap()
            .signed_duration_since(DateTime::from_timestamp(b, bn).unwrap())
            .num_seconds();
        assert_eq!(age_at(now, created), age_text(theirs), "{a} {an} {b} {bn}");
    }
    assert_eq!(age_at(moment(1000, 0, 0), moment(940, 1, 0)), "59s ago");
}

#[test]
fn the_clock_tells_the_age() {
    let now = Local::now().timestamp();
    assert_eq!(format_age(moment(now - 7200 - 60, 0, 0)), "2h ago");
    assert_eq!(format_age(moment(now - 5 * 86400 - 60, 0, 0)), "5d ago");
}
