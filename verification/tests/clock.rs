use eink_daemon::clock::{day_of, second_of_day, Moment, Span, WallTime, Zone};
use eink_daemon::clock::{FIRST_SECOND, LAST_SECOND};

fn at(secs: i64, nanos: u32) -> Moment {
    Moment::new(secs, nanos).unwrap()
}

#[test]
fn known_zone_names() {
    assert_eq!(Zone::parse("Europe/Berlin").unwrap().name(), "Europe/Berlin");
    assert_eq!(Zone::parse("UTC").unwrap().name(), "UTC");
    assert!(Zone::parse("europe/berlin").is_none());
    assert!(Zone::parse("Mars/Olympus").is_none());
    assert!(Zone::parse("").is_none());
}

#[test]
fn representable_moments() {
    assert!(Moment::new(FIRST_SECOND, 0).is_some());
    assert!(Moment::new(LAST_SECOND, 1_999_999_999).is_some());
    assert!(Moment::new(FIRST_SECOND - 1, 0).is_none());
    assert!(Moment::new(LAST_SECOND + 1, 0).is_none());
    assert!(Moment::new(0, 2_000_000_000).is_none());
    assert_eq!(chrono::DateTime::<chrono::Utc>::MIN_UTC.timestamp(), FIRST_SECOND);
    assert_eq!(chrono::DateTime::<chrono::Utc>::MAX_UTC.timestamp(), LAST_SECOND);
    assert!(chrono::DateTime::from_timestamp(FIRST_SECOND, 0).is_some());
    assert!(chrono::DateTime::from_timestamp(FIRST_SECOND - 1, 0).is_none());
    assert!(chrono::DateTime::from_timestamp(LAST_SECOND, 0).is_some());
    assert!(chrono::DateTime::from_timestamp(LAST_SECOND + 1, 0).is_none());
}

#[test]
fn offsets_follow_the_season() {
    let berlin = Zone::parse("Europe/Berlin").unwrap();
    assert_eq!(berlin.offset_at(at(1_705_309_200, 0)), 3_600);
    assert_eq!(berlin.offset_at(at(1_721_030_400, 0)), 7_200);
    let new_york = Zone::parse("America/New_York").unwrap();
    assert_eq!(new_york.offset_at(at(1_705_309_200, 0)), -18_000);
}

#[test]
fn offsets_at_the_ends_of_time() {
    let kiritimati = Zone::parse("Pacific/Kiritimati").unwrap();
    assert_eq!(kiritimati.offset_at(at(LAST_SECOND, 1_500_000_000)), 50_400);
    let berlin = Zone::parse("Europe/Berlin").unwrap();
    assert_eq!(berlin.offset_at(at(FIRST_SECOND, 0)), 3_208);
}

#[test]
fn single_readings() {
    let berlin = Zone::parse("Europe/Berlin").unwrap();
    // 10:00 on 2024-01-15.
    let wall = WallTime { secs: 1_705_312_800, nanos: 7 };
    assert_eq!(berlin.single(wall), Some(at(1_705_309_200, 7)));
}

#[test]
fn readings_that_come_never_or_twice() {
    let berlin = Zone::parse("Europe/Berlin").unwrap();
    // 02:30 on 2024-03-31 is skipped.
    assert_eq!(berlin.single(WallTime { secs: 1_711_852_200, nanos: 0 }), None);
    // 02:30 on 2024-10-27 comes twice.
    assert_eq!(berlin.single(WallTime { secs: 1_729_996_200, nanos: 0 }), None);
}

#[test]
fn readings_are_accepted_exactly_if_they_come_once() {
    // Around the changes of 2024-03-31, 2024-04-06, 2024-10-27 and around 2011-12-30.
    let middles = [1_711_845_000, 1_712_415_600, 1_729_990_800, 1_325_203_200];
    for name in ["Europe/Berlin", "Australia/Lord_Howe", "Pacific/Apia", "Asia/Kolkata", "UTC"] {
        let zone = Zone::parse(name).unwrap();
        for middle in middles {
            for step in -200..200 {
                let wall: i64 = middle + step * 900;
                let shown: Vec<i64> = (-100..100)
                    .map(|quarter| wall + quarter * 900)
                    .filter(|s| s + zone.offset_at(at(*s, 0)) as i64 == wall)
                    .collect();
                let once = if shown.len() == 1 { Some(at(shown[0], 5)) } else { None };
                assert_eq!(zone.single(WallTime { secs: wall, nanos: 5 }), once);
            }
        }
    }
}

#[test]
fn readings_at_the_ends_of_time() {
    let berlin = Zone::parse("Europe/Berlin").unwrap();
    assert_eq!(berlin.single(WallTime { secs: FIRST_SECOND, nanos: 0 }), None);
    let last = WallTime { secs: LAST_SECOND, nanos: 1_000_000_000 };
    assert_eq!(berlin.single(last), Some(at(LAST_SECOND - 3_600, 1_000_000_000)));
}

#[test]
fn leap_second_in_a_zone_with_odd_seconds() {
    // Local mean time of Amsterdam was 18 minutes and some seconds ahead.
    let amsterdam = Zone::parse("Europe/Amsterdam").unwrap();
    let wall = WallTime { secs: -2_208_945_541, nanos: 1_000_000_000 };
    let found = amsterdam.single(wall).unwrap();
    assert_eq!(found.nanos, 1_000_000_000);
    assert_eq!(found.secs + amsterdam.offset_at(found) as i64, wall.secs);
    assert_eq!(found.since(found), Span { secs: 0, nanos: 0 });
}

#[test]
fn single_reads_back() {
    for name in ["UTC", "Europe/London", "America/New_York", "Asia/Kolkata", "Australia/Lord_Howe"] {
        let zone = Zone::parse(name).unwrap();
        for i in 0..400 {
            let wall = WallTime { secs: 1_700_000_000 + i * 86_413, nanos: 5 };
            if let Some(found) = zone.single(wall) {
                assert_eq!(found.secs + zone.offset_at(found) as i64, wall.secs);
                assert_eq!(found.nanos, 5);
            }
        }
    }
}

#[test]
fn spans_between_moments() {
    assert_eq!(at(10, 0).since(at(4, 500_000_000)), Span { secs: 5, nanos: 500_000_000 });
    assert_eq!(at(4, 500_000_000).since(at(10, 0)), Span { secs: -5, nanos: -500_000_000 });
    assert_eq!(at(0, 1).since(at(0, 2)), Span { secs: 0, nanos: -1 });
}

#[test]
fn spans_over_a_leap_second() {
    // 2016-12-31T23:59:60Z.
    let leap = at(1_483_228_799, 1_000_000_000);
    // An hour earlier on the same day.
    assert_eq!(leap.since(at(1_483_225_199, 0)), Span { secs: 3_601, nanos: 0 });
    // The leap second is not counted when the later end is early in the next day.
    assert_eq!(at(1_483_228_800, 0).since(leap), Span { secs: 0, nanos: 0 });
    // It is counted when the later end is later in the day than the leap second.
    let early = at(1_483_225_199, 1_500_000_000);
    assert_eq!(at(1_483_228_799, 0).since(early), Span { secs: 3_599, nanos: 500_000_000 });
    // And it is taken away when the later end lies in one, earlier in the day.
    let day_before = at(1_483_225_199 - 86_400 + 3_600, 0);
    let next = at(1_483_225_199, 1_000_000_000);
    assert_eq!(next.since(day_before), Span { secs: 86_400 - 3_600, nanos: 0 });
}

#[test]
fn moments_after_spans() {
    assert_eq!(at(10, 0).checked_add(Span::one_day()), Some(at(86_410, 0)));
    let back = Span { secs: -5, nanos: -500_000_000 };
    assert_eq!(at(10, 0).checked_add(back), Some(at(4, 500_000_000)));
    let short = Span { secs: 0, nanos: -1 };
    assert_eq!(at(10, 0).checked_add(short), Some(at(9, 999_999_999)));
    assert_eq!(at(LAST_SECOND, 0).checked_add(Span { secs: 1, nanos: 0 }), None);
    assert_eq!(at(FIRST_SECOND, 0).checked_add(Span { secs: -1, nanos: 0 }), None);
    let far = Span { secs: 9_000_000_000_000_000, nanos: 0 };
    assert_eq!(at(0, 0).checked_add(far), None);
    let far_back = Span { secs: -9_000_000_000_000_000, nanos: -999_999_999 };
    assert_eq!(at(0, 0).checked_add(far_back), None);
}

#[test]
fn moments_after_spans_from_a_leap_second() {
    let leap = at(1_483_228_799, 1_250_000_000);
    // Within the leap second.
    let quarter = Span { secs: 0, nanos: 250_000_000 };
    assert_eq!(leap.checked_add(quarter), Some(at(1_483_228_799, 1_500_000_000)));
    // Back into the second before.
    let half_back = Span { secs: 0, nanos: -500_000_000 };
    assert_eq!(leap.checked_add(half_back), Some(at(1_483_228_799, 750_000_000)));
    // Out of it forwards.
    let second = Span { secs: 1, nanos: 0 };
    assert_eq!(leap.checked_add(second), Some(at(1_483_228_800, 250_000_000)));
    let rest = Span { secs: 0, nanos: 750_000_000 };
    assert_eq!(leap.checked_add(rest), Some(at(1_483_228_800, 0)));
    // Out of it backwards.
    let second_back = Span { secs: -1, nanos: 0 };
    assert_eq!(leap.checked_add(second_back), Some(at(1_483_228_799, 250_000_000)));
    let two_back = Span { secs: -2, nanos: -500_000_000 };
    assert_eq!(leap.checked_add(two_back), Some(at(1_483_228_797, 750_000_000)));
}

#[test]
fn moved_distance_on_values() {
    let start = at(1_705_309_200, 250_000_000);
    for span in [
        Span { secs: 5_400, nanos: 1 },
        Span { secs: -5_400, nanos: -999_999_999 },
        Span { secs: 0, nanos: 0 },
        Span { secs: 100_000_000, nanos: 750_000_000 },
    ] {
        assert_eq!(start.checked_add(span).unwrap().since(start), span);
    }
}

#[test]
fn whole_minutes_round_towards_zero() {
    assert_eq!(Span { secs: 59, nanos: 999_999_999 }.num_minutes(), 0);
    assert_eq!(Span { secs: 60, nanos: 0 }.num_minutes(), 1);
    assert_eq!(Span { secs: -59, nanos: -999_999_999 }.num_minutes(), 0);
    assert_eq!(Span { secs: -60, nanos: 0 }.num_minutes(), -1);
    assert_eq!(Span { secs: -119, nanos: -1 }.num_minutes(), -1);
}

#[test]
fn order_of_moments() {
    assert!(at(2, 0).is_after(at(1, 999)));
    assert!(at(1, 2).is_after(at(1, 1)));
    assert!(!at(1, 1).is_after(at(1, 1)));
    assert!(!at(1, 1).is_after(at(2, 0)));
}

#[test]
fn days_and_seconds() {
    assert_eq!(day_of(0), 0);
    assert_eq!(day_of(-1), -1);
    assert_eq!(day_of(86_400), 1);
    assert_eq!(second_of_day(-1), 86_399);
    assert_eq!(second_of_day(86_401), 1);
}

fn total(at: Moment) -> i128 {
    at.secs as i128 * 1_000_000_000 + at.nanos as i128
}

fn length(span: Span) -> i128 {
    span.secs as i128 * 1_000_000_000 + span.nanos as i128
}

fn samples() -> Vec<Moment> {
    let mut all: Vec<Moment> = Vec::new();
    for secs in [-86_401, -1, 0, 59, 3_599, 43_200, 86_399, 86_400, 172_799, 1_483_228_799] {
        for nanos in [0, 1, 999_999_999, 1_000_000_000, 1_400_000_000, 1_999_999_999] {
            all.push(at(secs, nanos));
        }
    }
    all
}

#[test]
fn distances_by_formula() {
    for a in samples() {
        for b in samples() {
            let (x, y) = (a.secs.rem_euclid(86_400), b.secs.rem_euclid(86_400));
            let mut expected = total(a) - total(b);
            if x > y && b.nanos >= 1_000_000_000 {
                expected += 1_000_000_000;
            } else if x < y && a.nanos >= 1_000_000_000 {
                expected -= 1_000_000_000;
            }
            assert_eq!(length(a.since(b)), expected);
        }
    }
}

#[test]
fn moves_by_formula() {
    for a in samples() {
        for secs in [-86_400, -2, -1, 0, 1, 2, 86_400] {
            for nanos in [0, 1, 600_000_000, 999_999_999] {
                let sign = if secs < 0 { -1 } else { 1 };
                for span in [Span { secs, nanos: sign * nanos }, Span { secs: 0, nanos: -nanos }] {
                    let by = length(span);
                    let leap = a.nanos >= 1_000_000_000;
                    let inside = a.nanos as i128 + by < 2_000_000_000;
                    let expected = if leap && by > -1_000_000_000 && inside {
                        (a.secs as i128, a.nanos as i128 + by)
                    } else {
                        let mut sum = total(a) + by;
                        if leap && !inside {
                            sum -= 1_000_000_000;
                        }
                        (sum.div_euclid(1_000_000_000), sum.rem_euclid(1_000_000_000))
                    };
                    let found = a.checked_add(span).unwrap();
                    assert_eq!((found.secs as i128, found.nanos as i128), expected);
                }
            }
        }
    }
}
