use birthday_bot::schedule::Date;
use birthday_bot::schedule::next_wake_delay;
use birthday_bot::schedule::today_from_unix;

#[test]
fn delay_thirty_seconds_before_midnight() {
    // 23:59:30 UTC on any day.
    assert_eq!(next_wake_delay(86370), 30);
    assert_eq!(next_wake_delay(1_700_000_000 / 86400 * 86400 + 86370), 30);
}

#[test]
fn delay_one_second_after_midnight() {
    // 00:00:01 UTC.
    assert_eq!(next_wake_delay(1), 86399);
    assert_eq!(next_wake_delay(1_700_000_000 / 86400 * 86400 + 1), 86399);
}

#[test]
fn delay_at_midnight_is_a_full_day() {
    // The next boundary is strictly after the current instant.
    assert_eq!(next_wake_delay(0), 86400);
    assert_eq!(next_wake_delay(86400), 86400);
}

#[test]
fn today_from_unix_reads_the_utc_calendar() {
    assert_eq!(today_from_unix(0), Some(Date { year: 1970, month: 1, day: 1 }));
    // 2015-05-15 00:00:00 UTC.
    assert_eq!(today_from_unix(1_431_648_000), Some(Date { year: 2015, month: 5, day: 15 }));
    // 2016-02-29 12:00:00 UTC, a leap day.
    assert_eq!(today_from_unix(1_456_747_200), Some(Date { year: 2016, month: 2, day: 29 }));
}
