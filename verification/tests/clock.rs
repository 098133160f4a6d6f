use xbridge::clock::{date_of, timestamp, Date};

#[test]
fn timestamps_are_in_utc() {
    for (secs, text) in [
        (0, "1970-01-01T00:00:00Z"),
        (951_782_399, "2000-02-28T23:59:59Z"),
        (951_782_400, "2000-02-29T00:00:00Z"),
        (951_868_800, "2000-03-01T00:00:00Z"),
        (1_709_251_199, "2024-02-29T23:59:59Z"),
        (1_773_311_400, "2026-03-12T10:30:00Z"),
        (4_107_542_400, "2100-03-01T00:00:00Z"),
        (253_402_300_799, "9999-12-31T23:59:59Z"),
    ] {
        assert_eq!(timestamp(secs), text);
    }
}

#[test]
fn days_follow_one_another() {
    let mut last = date_of(0);
    assert_eq!(
        last,
        Date {
            year: 1970,
            month: 1,
            day: 1,
        }
    );
    for days in 1..200_000 {
        let next = date_of(days);
        let same_month = (next.year, next.month) == (last.year, last.month);
        if same_month {
            assert_eq!(next.day, last.day + 1);
        } else {
            assert_eq!(next.day, 1);
            assert!(last.day >= 28);
        }
        last = next;
    }
}

#[test]
fn far_dates_repeat_the_calendar() {
    let date = date_of(20_000);
    let later = date_of(20_000 + 146_097 * 1_000_000);
    assert_eq!((later.month, later.day), (date.month, date.day));
    assert_eq!(later.year, date.year + 400_000_000);
    assert_eq!(date_of(u64::MAX).year / 1_000_000, 50_505_469_855);
}
