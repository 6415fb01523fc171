use agentforge::cron::Cron;
use agentforge::timepoint::Instant;

fn at(year: u16, month: u8, day: u8, hour: u8, minute: u8) -> Instant {
    Instant::new(year, month, day, hour, minute).unwrap()
}

#[test]
fn round_trip_canonical_forms() {
    for s in [
        "0 9 * * 1",
        "*/10 * * * *",
        "0 */3 * * *",
        "0 9 * * 0,6",
        "0 17 * * 1-5",
        "30 14 1 * *",
        "* * * * *",
        "59 23 31 12 6",
    ] {
        let c = Cron::parse(s).unwrap();
        assert_eq!(c.render(), s);
    }
}

#[test]
fn malformed_expressions_are_rejected() {
    for s in [
        "",
        "0 9 * *",
        "0 9 * * * *",
        "60 9 * * *",
        "0 24 * * *",
        "0 9 32 * *",
        "0 9 * 13 *",
        "0 9 * * 7",
        "09 9 * * *",
        "0 9 * * 1-0",
        "a b c d e",
        "0  9 * * *",
    ] {
        assert!(Cron::parse(s).is_none(), "accepted {:?}", s);
    }
}

#[test]
fn matching_respects_weekday() {
    let c = Cron::parse("0 9 * * 1").unwrap();
    // 2026-10-12 is a Monday.
    assert!(c.matches_at(&at(2026, 10, 12, 9, 0)));
    assert!(!c.matches_at(&at(2026, 10, 13, 9, 0)));
    assert!(!c.matches_at(&at(2026, 10, 12, 9, 1)));
    assert!(!c.matches_at(&at(2026, 10, 12, 10, 0)));
}

#[test]
fn matching_steps_and_ranges() {
    let c = Cron::parse("0 */3 * * *").unwrap();
    assert!(c.matches_at(&at(2026, 1, 1, 0, 0)));
    assert!(c.matches_at(&at(2026, 1, 1, 21, 0)));
    assert!(!c.matches_at(&at(2026, 1, 1, 22, 0)));
    let wd = Cron::parse("0 9 * * 1-5").unwrap();
    assert!(wd.matches_at(&at(2026, 10, 16, 9, 0))); // Friday
    assert!(!wd.matches_at(&at(2026, 10, 17, 9, 0))); // Saturday
    let we = Cron::parse("0 9 * * 0,6").unwrap();
    assert!(we.matches_at(&at(2026, 10, 17, 9, 0))); // Saturday
    assert!(we.matches_at(&at(2026, 10, 18, 9, 0))); // Sunday
    assert!(!we.matches_at(&at(2026, 10, 19, 9, 0))); // Monday
}

#[test]
fn next_match_finds_the_next_monday() {
    let c = Cron::parse("0 9 * * 1").unwrap();
    let next = c.next_match(&at(2026, 10, 12, 10, 0)).unwrap();
    assert_eq!((next.year, next.month, next.day, next.hour, next.minute), (2026, 10, 19, 9, 0));
}

#[test]
fn next_match_later_the_same_day() {
    let c = Cron::parse("0 9 * * 1").unwrap();
    let next = c.next_match(&at(2026, 10, 12, 8, 59)).unwrap();
    assert_eq!((next.year, next.month, next.day, next.hour, next.minute), (2026, 10, 12, 9, 0));
}

#[test]
fn next_match_is_strictly_after_now() {
    let c = Cron::parse("* * * * *").unwrap();
    let next = c.next_match(&at(2026, 10, 12, 9, 0)).unwrap();
    assert_eq!((next.hour, next.minute), (9, 1));
}

#[test]
fn next_match_rolls_over_a_month() {
    let c = Cron::parse("0 9 1 * *").unwrap();
    let next = c.next_match(&at(2026, 10, 12, 10, 0)).unwrap();
    assert_eq!((next.year, next.month, next.day, next.hour), (2026, 11, 1, 9));
}

#[test]
fn next_match_none_for_an_impossible_date() {
    let c = Cron::parse("0 9 31 2 *").unwrap();
    assert!(c.next_match(&at(2026, 10, 12, 10, 0)).is_none());
}

#[test]
fn instant_validation() {
    assert!(Instant::new(2026, 2, 30, 0, 0).is_none());
    assert!(Instant::new(2024, 2, 29, 0, 0).is_some());
    assert!(Instant::new(2025, 2, 29, 0, 0).is_none());
    assert!(Instant::new(2026, 10, 12, 24, 0).is_none());
    assert!(Instant::new(2026, 10, 12, 23, 60).is_none());
    assert!(Instant::new(1969, 1, 1, 0, 0).is_none());
    assert!(Instant::new(2000, 2, 29, 12, 30).is_some());
}

#[test]
fn weekday_numbering() {
    // 1970-01-01 was a Thursday: cron day 4; Sunday is 0.
    assert_eq!(at(1970, 1, 1, 0, 0).weekday(), 4);
    assert_eq!(at(2026, 10, 12, 0, 0).weekday(), 1);
    assert_eq!(at(2026, 10, 18, 0, 0).weekday(), 0);
}

#[test]
fn minute_index_is_monotone() {
    let a = at(2026, 10, 12, 9, 0);
    let b = at(2026, 10, 12, 9, 1);
    let c = at(2026, 11, 1, 0, 0);
    assert!(a.minute_index() < b.minute_index());
    assert!(b.minute_index() < c.minute_index());
    assert_eq!(at(1970, 1, 1, 0, 1).minute_index(), 1);
    assert_eq!(at(1970, 1, 2, 0, 0).minute_index(), 1440);
}
