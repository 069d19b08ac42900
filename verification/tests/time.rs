use webgit::render::time::{format_age, format_datetime, Age, CivilDate, Moment};

fn fixed_date() -> CivilDate {
    CivilDate { year: 2001, month: 2, day: 3 }
}

#[test]
fn test_format_age_relative_buckets() {
    let date = fixed_date();
    assert_eq!(format_age(0, date), "0 seconds");
    assert_eq!(format_age(1, date), "1 second");
    assert_eq!(format_age(89, date), "89 seconds");
    assert_eq!(format_age(90, date), "1 minute");
    assert_eq!(format_age(89 * 60, date), "89 minutes");
    assert_eq!(format_age(90 * 60, date), "1 hour");
    assert_eq!(format_age(35 * 3600, date), "35 hours");
    assert_eq!(format_age(36 * 3600, date), "1 day");
    assert_eq!(format_age(13 * 86400, date), "13 days");
}

#[test]
fn test_format_age_two_weeks_and_older_is_date() {
    let date = fixed_date();
    // From exactly two weeks on, show the commit's own date instead.
    assert_eq!(format_age(14 * 86400, date), "2001-02-03");
    assert_eq!(format_age(86400 * 400, date), "2001-02-03");
}

fn at(secs: i64, offset_secs: i32) -> Moment {
    let zoned = jiff::Timestamp::from_second(secs)
        .unwrap()
        .to_zoned(jiff::tz::TimeZone::fixed(
            jiff::tz::Offset::from_seconds(offset_secs).unwrap(),
        ));
    Moment {
        unix_ms: zoned.timestamp().as_millisecond(),
        date: CivilDate { year: zoned.year(), month: zoned.month(), day: zoned.day() },
        hour: zoned.hour(),
        minute: zoned.minute(),
        second: zoned.second(),
        offset_seconds: zoned.offset().seconds(),
    }
}

#[test]
fn test_format_datetime() {
    // A whole-hour offset still gets its `:00` minutes, and the wall clock
    // is the one in that offset, not UTC.
    assert_eq!(
        format_datetime(&at(1774735018, 0)),
        "2026-03-28 21:56:58 +00:00"
    );
    assert_eq!(
        format_datetime(&at(1774735018, 3600)),
        "2026-03-28 22:56:58 +01:00"
    );
    assert_eq!(
        format_datetime(&at(1774735018, 19800)),
        "2026-03-29 03:26:58 +05:30"
    );
    assert_eq!(
        format_datetime(&at(1774735018, -28800)),
        "2026-03-28 13:56:58 -08:00"
    );
}

#[test]
fn age_sorts_by_recency_regardless_of_display() {
    let date = fixed_date();
    // A mix of relative-rendered and date-rendered ages; sorting must order
    // them by elapsed seconds (most recent first), not by the display text.
    let mut ages = [
        Age {
            secs: 86400 * 400,
            when: date,
        },
        Age {
            secs: 60,
            when: date,
        },
        Age {
            secs: 3600,
            when: date,
        },
    ];
    ages.sort_by_key(Age::secs);
    assert_eq!(
        ages.map(|a| a.secs()),
        [60, 3600, 86400 * 400],
        "expected ascending recency order"
    );
}
