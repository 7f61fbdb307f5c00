use rrule::{DateTime, RRuleSet, Tz};

/// Year, month, day, hour, minute and second of each instant.
fn wall(dates: &[DateTime]) -> Vec<(i32, u32, u32, u32, u32, u32)> {
    dates
        .iter()
        .map(|t| (t.year(), t.month(), t.day(), t.hour(), t.minute(), t.second()))
        .collect()
}

/// Year, month and day of each instant.
fn days(dates: &[DateTime]) -> Vec<(i32, u32, u32)> {
    dates.iter().map(|t| (t.year(), t.month(), t.day())).collect()
}

fn all(text: &str) -> Vec<DateTime> {
    RRuleSet::from_str(text).unwrap().all(u16::MAX).dates
}

#[test]
fn daily_for_ten_occurrences() {
    let dates = all("DTSTART;TZID=America/New_York:19970902T090000\nRRULE:FREQ=DAILY;COUNT=10");
    assert_eq!(
        days(&dates),
        (2..=11).map(|d| (1997, 9, d)).collect::<Vec<_>>()
    );
    for t in &dates {
        assert_eq!((t.hour(), t.minute(), t.second()), (9, 0, 0));
        assert_eq!(t.timezone(), Tz::named("America/New_York").unwrap());
    }
    // 09:00 in New York on 1997-09-02 is 13:00 UTC.
    assert_eq!(dates[0].timestamp(), 873205200);
}

#[test]
fn daily_until_is_inclusive() {
    let dates = all("DTSTART:19970902T090000Z\nRRULE:FREQ=DAILY;UNTIL=19970905T090000Z");
    assert_eq!(
        days(&dates),
        vec![(1997, 9, 2), (1997, 9, 3), (1997, 9, 4), (1997, 9, 5)]
    );
    let dates = all("DTSTART:19970902T090000Z\nRRULE:FREQ=DAILY;UNTIL=19970905T085959Z");
    assert_eq!(days(&dates), vec![(1997, 9, 2), (1997, 9, 3), (1997, 9, 4)]);
}

#[test]
fn count_and_until_together_end_at_the_first_bound() {
    let dates = all("DTSTART:19970902T090000Z\nRRULE:FREQ=DAILY;COUNT=2;UNTIL=19970910T090000Z");
    assert_eq!(days(&dates), vec![(1997, 9, 2), (1997, 9, 3)]);
    let dates = all("DTSTART:19970902T090000Z\nRRULE:FREQ=DAILY;COUNT=20;UNTIL=19970903T090000Z");
    assert_eq!(days(&dates), vec![(1997, 9, 2), (1997, 9, 3)]);
}

#[test]
fn count_zero_gives_nothing_but_a_forced_start() {
    let dates = all("DTSTART:19970902T090000Z\nRRULE:FREQ=DAILY;COUNT=0");
    assert!(dates.is_empty());
    let dates = all("DTSTART:19970902T090000Z\nRRULE:FREQ=DAILY;COUNT=0;X-INCLUDE-DTSTART=TRUE");
    assert_eq!(days(&dates), vec![(1997, 9, 2)]);
}

#[test]
fn every_other_week_with_week_start() {
    let dates = all(
        "DTSTART:19970805T090000Z\nRRULE:FREQ=WEEKLY;INTERVAL=2;COUNT=4;BYDAY=TU,SU;WKST=MO",
    );
    assert_eq!(
        days(&dates),
        vec![(1997, 8, 5), (1997, 8, 10), (1997, 8, 19), (1997, 8, 24)]
    );
    let dates = all(
        "DTSTART:19970805T090000Z\nRRULE:FREQ=WEEKLY;INTERVAL=2;COUNT=4;BYDAY=TU,SU;WKST=SU",
    );
    assert_eq!(
        days(&dates),
        vec![(1997, 8, 5), (1997, 8, 17), (1997, 8, 19), (1997, 8, 31)]
    );
}

#[test]
fn monthly_on_the_first_friday() {
    let dates = all("DTSTART:19970905T090000Z\nRRULE:FREQ=MONTHLY;COUNT=10;BYDAY=1FR");
    assert_eq!(
        days(&dates),
        vec![
            (1997, 9, 5),
            (1997, 10, 3),
            (1997, 11, 7),
            (1997, 12, 5),
            (1998, 1, 2),
            (1998, 2, 6),
            (1998, 3, 6),
            (1998, 4, 3),
            (1998, 5, 1),
            (1998, 6, 5)
        ]
    );
}

#[test]
fn monthly_on_the_second_to_last_monday() {
    let dates = all("DTSTART:19970922T090000Z\nRRULE:FREQ=MONTHLY;COUNT=6;BYDAY=-2MO");
    assert_eq!(
        days(&dates),
        vec![
            (1997, 9, 22),
            (1997, 10, 20),
            (1997, 11, 17),
            (1997, 12, 22),
            (1998, 1, 19),
            (1998, 2, 16)
        ]
    );
}

#[test]
fn monthly_on_the_third_to_last_day() {
    let dates = all("DTSTART:19970928T090000Z\nRRULE:FREQ=MONTHLY;BYMONTHDAY=-3;COUNT=6");
    assert_eq!(
        days(&dates),
        vec![
            (1997, 9, 28),
            (1997, 10, 29),
            (1997, 11, 28),
            (1997, 12, 29),
            (1998, 1, 29),
            (1998, 2, 26)
        ]
    );
}

#[test]
fn monthly_skips_months_without_the_day() {
    let dates = all("DTSTART:20210131T080000Z\nRRULE:FREQ=MONTHLY;COUNT=4");
    assert_eq!(
        days(&dates),
        vec![(2021, 1, 31), (2021, 3, 31), (2021, 5, 31), (2021, 7, 31)]
    );
}

#[test]
fn yearly_on_leap_day() {
    let dates = all("DTSTART:20200229T120000Z\nRRULE:FREQ=YEARLY;COUNT=3");
    assert_eq!(days(&dates), vec![(2020, 2, 29), (2024, 2, 29), (2028, 2, 29)]);
}

#[test]
fn yearly_by_year_day() {
    let dates = all(
        "DTSTART:19970101T090000Z\nRRULE:FREQ=YEARLY;INTERVAL=3;COUNT=10;BYYEARDAY=1,100,200",
    );
    assert_eq!(
        days(&dates),
        vec![
            (1997, 1, 1),
            (1997, 4, 10),
            (1997, 7, 19),
            (2000, 1, 1),
            (2000, 4, 9),
            (2000, 7, 18),
            (2003, 1, 1),
            (2003, 4, 10),
            (2003, 7, 19),
            (2006, 1, 1)
        ]
    );
}

#[test]
fn yearly_by_negative_year_day() {
    let dates = all("DTSTART:19970101T090000Z\nRRULE:FREQ=YEARLY;COUNT=3;BYYEARDAY=-1");
    assert_eq!(days(&dates), vec![(1997, 12, 31), (1998, 12, 31), (1999, 12, 31)]);
}

#[test]
fn yearly_on_the_twentieth_monday() {
    let dates = all("DTSTART:19970519T090000Z\nRRULE:FREQ=YEARLY;COUNT=3;BYDAY=20MO");
    assert_eq!(days(&dates), vec![(1997, 5, 19), (1998, 5, 18), (1999, 5, 17)]);
}

#[test]
fn yearly_by_week_number() {
    let dates = all("DTSTART:19970512T090000Z\nRRULE:FREQ=YEARLY;COUNT=3;BYWEEKNO=20;BYDAY=MO");
    assert_eq!(days(&dates), vec![(1997, 5, 12), (1998, 5, 11), (1999, 5, 17)]);
}

#[test]
fn yearly_by_last_week_number() {
    // The last week of 1997 (weeks from Monday) runs from December 22nd.
    let dates = all("DTSTART:19970101T090000Z\nRRULE:FREQ=YEARLY;COUNT=3;BYWEEKNO=-1;BYDAY=MO");
    assert_eq!(days(&dates), vec![(1997, 12, 22), (1998, 12, 28), (1999, 12, 27)]);
}

#[test]
fn friday_the_thirteenth() {
    let dates = all("DTSTART:19970902T090000Z\nRRULE:FREQ=MONTHLY;COUNT=5;BYDAY=FR;BYMONTHDAY=13");
    assert_eq!(
        days(&dates),
        vec![
            (1998, 2, 13),
            (1998, 3, 13),
            (1998, 11, 13),
            (1999, 8, 13),
            (2000, 10, 13)
        ]
    );
}

#[test]
fn by_set_pos_picks_within_each_period() {
    let dates = all(
        "DTSTART:19970904T090000Z\nRRULE:FREQ=MONTHLY;COUNT=3;BYDAY=TU,WE,TH;BYSETPOS=3",
    );
    assert_eq!(days(&dates), vec![(1997, 9, 4), (1997, 10, 7), (1997, 11, 6)]);
    let dates = all(
        "DTSTART:19970929T090000Z\nRRULE:FREQ=MONTHLY;COUNT=5;BYDAY=MO,TU,WE,TH,FR;BYSETPOS=-2",
    );
    assert_eq!(
        days(&dates),
        vec![
            (1997, 9, 29),
            (1997, 10, 30),
            (1997, 11, 27),
            (1997, 12, 30),
            (1998, 1, 29)
        ]
    );
}

#[test]
fn by_set_pos_first_and_last_come_in_order() {
    let dates = all(
        "DTSTART:20230101T090000Z\nRRULE:FREQ=MONTHLY;COUNT=4;BYMONTHDAY=5,10,15;BYSETPOS=-1,1",
    );
    assert_eq!(
        days(&dates),
        vec![(2023, 1, 5), (2023, 1, 15), (2023, 2, 5), (2023, 2, 15)]
    );
}

#[test]
fn times_are_a_full_product_in_ascending_order() {
    let dates = all(
        "DTSTART:19970902T090000Z\nRRULE:FREQ=DAILY;COUNT=5;BYHOUR=15,9;BYMINUTE=30,0,30",
    );
    assert_eq!(
        wall(&dates),
        vec![
            (1997, 9, 2, 9, 0, 0),
            (1997, 9, 2, 9, 30, 0),
            (1997, 9, 2, 15, 0, 0),
            (1997, 9, 2, 15, 30, 0),
            (1997, 9, 3, 9, 0, 0)
        ]
    );
}

#[test]
fn hourly_minutely_and_secondly_steps() {
    let dates = all("DTSTART:19970902T230000Z\nRRULE:FREQ=HOURLY;INTERVAL=3;COUNT=3");
    assert_eq!(
        wall(&dates),
        vec![
            (1997, 9, 2, 23, 0, 0),
            (1997, 9, 3, 2, 0, 0),
            (1997, 9, 3, 5, 0, 0)
        ]
    );
    let dates = all("DTSTART:19970902T090000Z\nRRULE:FREQ=MINUTELY;INTERVAL=90;COUNT=4");
    assert_eq!(
        wall(&dates),
        vec![
            (1997, 9, 2, 9, 0, 0),
            (1997, 9, 2, 10, 30, 0),
            (1997, 9, 2, 12, 0, 0),
            (1997, 9, 2, 13, 30, 0)
        ]
    );
    let dates = all("DTSTART:19971231T235950Z\nRRULE:FREQ=SECONDLY;INTERVAL=7;COUNT=3");
    assert_eq!(
        wall(&dates),
        vec![
            (1997, 12, 31, 23, 59, 50),
            (1997, 12, 31, 23, 59, 57),
            (1998, 1, 1, 0, 0, 4)
        ]
    );
}

#[test]
fn finer_rules_filter_by_the_coarser_lists() {
    let dates = all("DTSTART:19970902T220000Z\nRRULE:FREQ=HOURLY;COUNT=4;BYHOUR=9,23;BYMINUTE=15");
    assert_eq!(
        wall(&dates),
        vec![
            (1997, 9, 2, 23, 15, 0),
            (1997, 9, 3, 9, 15, 0),
            (1997, 9, 3, 23, 15, 0),
            (1997, 9, 4, 9, 15, 0)
        ]
    );
}

#[test]
fn wall_clock_time_is_kept_across_a_change_of_offset() {
    let dates = all("DTSTART;TZID=America/New_York:20210313T090000\nRRULE:FREQ=DAILY;COUNT=3");
    assert_eq!(
        wall(&dates),
        vec![
            (2021, 3, 13, 9, 0, 0),
            (2021, 3, 14, 9, 0, 0),
            (2021, 3, 15, 9, 0, 0)
        ]
    );
    // The clocks go forward on the 14th: the second step is 23 hours long.
    assert_eq!(dates[1].timestamp() - dates[0].timestamp(), 23 * 3600);
    assert_eq!(dates[2].timestamp() - dates[1].timestamp(), 24 * 3600);
}

#[test]
fn a_time_that_the_clock_skips_is_no_occurrence() {
    // 02:30 does not exist in New York on 2021-03-14.
    let dates = all("DTSTART;TZID=America/New_York:20210313T023000\nRRULE:FREQ=DAILY;COUNT=3");
    assert_eq!(days(&dates), vec![(2021, 3, 13), (2021, 3, 15), (2021, 3, 16)]);
}

#[test]
fn a_time_that_the_clock_shows_twice_is_the_earlier_instant() {
    // 01:30 comes twice in New York on 2021-11-07; the first is 05:30 UTC.
    let dates = all("DTSTART;TZID=America/New_York:20211106T013000\nRRULE:FREQ=DAILY;COUNT=2");
    assert_eq!(days(&dates), vec![(2021, 11, 6), (2021, 11, 7)]);
    assert_eq!(dates[1].timestamp(), 1636263000);
}

#[test]
fn a_rule_that_never_matches_ends() {
    let dates = all("DTSTART:19970902T090000Z\nRRULE:FREQ=YEARLY;BYMONTH=2;BYMONTHDAY=30");
    assert!(dates.is_empty());
}

#[test]
fn the_limit_cuts_an_unbounded_rule() {
    let result = RRuleSet::from_str("DTSTART:19970902T090000Z\nRRULE:FREQ=DAILY")
        .unwrap()
        .all(5);
    assert_eq!(result.dates.len(), 5);
    assert!(result.limited);
    let result = RRuleSet::from_str("DTSTART:19970902T090000Z\nRRULE:FREQ=DAILY;COUNT=3")
        .unwrap()
        .all(5);
    assert_eq!(result.dates.len(), 3);
    assert!(!result.limited);
}

#[test]
fn zero_in_a_day_list_matches_nothing() {
    let dates = all("DTSTART:19970902T090000Z\nRRULE:FREQ=MONTHLY;COUNT=2;BYMONTHDAY=0,3");
    assert_eq!(days(&dates), vec![(1997, 9, 3), (1997, 10, 3)]);
}

#[test]
fn occurrences_end_with_the_year_9999() {
    let dates = all("DTSTART:99981231T000000Z\nRRULE:FREQ=YEARLY");
    assert_eq!(days(&dates), vec![(9998, 12, 31), (9999, 12, 31)]);
}

#[test]
fn occurrences_are_drawn_one_at_a_time() {
    let rule = rrule::RRule::from_str("FREQ=WEEKLY;BYDAY=MO,FR")
        .unwrap()
        .validate()
        .unwrap();
    let start = DateTime::from_local(2023, 1, 4, 8, 0, 0, Tz::Utc).unwrap();
    let mut stream = rrule::RuleIter::new(&rule, start);
    let mut drawn = Vec::new();
    for _ in 0..5 {
        drawn.push(stream.next().unwrap());
    }
    assert_eq!(
        days(&drawn),
        vec![(2023, 1, 6), (2023, 1, 9), (2023, 1, 13), (2023, 1, 16), (2023, 1, 20)]
    );
    // A stream built again from the same rule and start begins again.
    let mut again = rrule::RuleIter::new(&rule, start);
    assert_eq!(again.next(), Some(drawn[0]));
    // A bounded stream ends, and stays ended.
    let rule = rrule::RRule::from_str("FREQ=DAILY;COUNT=1").unwrap().validate().unwrap();
    let mut stream = rrule::RuleIter::new(&rule, start);
    assert_eq!(stream.next(), Some(start));
    assert_eq!(stream.next(), None);
    assert_eq!(stream.next(), None);
}

#[test]
fn a_start_that_is_no_real_time_gives_nothing() {
    let rule = rrule::RRule::from_str("FREQ=DAILY;COUNT=3").unwrap().validate().unwrap();
    let mut start = DateTime::from_local(2023, 1, 4, 8, 0, 0, Tz::Utc).unwrap();
    start.date.month = 13;
    let mut stream = rrule::RuleIter::new(&rule, start);
    assert_eq!(stream.next(), None);
    // A floating start that the rule's zone skips gives nothing either.
    let skipped = DateTime {
        date: rrule::Date { year: 2021, month: 3, day: 14 },
        time: rrule::Time { hour: 2, minute: 30, second: 0 },
        timestamp: 0,
        zone: Tz::Local,
    };
    let rule = rrule::RRule::from_str("FREQ=DAILY;COUNT=3;LOCAL-TZID=America/New_York")
        .unwrap()
        .validate()
        .unwrap();
    let mut stream = rrule::RuleIter::new(&rule, skipped);
    assert_eq!(stream.next(), None);
}

#[test]
fn instants_compare_by_elapsed_time() {
    let noon_utc = DateTime::from_local(2023, 1, 4, 12, 0, 0, Tz::Utc).unwrap();
    let seven_in_new_york =
        DateTime::from_local(2023, 1, 4, 7, 0, 0, Tz::named("America/New_York").unwrap()).unwrap();
    let eight_in_new_york =
        DateTime::from_local(2023, 1, 4, 8, 0, 0, Tz::named("America/New_York").unwrap()).unwrap();
    assert!(noon_utc.same_instant(&seven_in_new_york));
    assert!(!noon_utc.is_before(&seven_in_new_york));
    // Eight o'clock reads earlier than noon, and comes later.
    assert!(noon_utc.is_before(&eight_in_new_york));
    assert!(!eight_in_new_york.is_before(&noon_utc));
}

#[test]
fn fine_rules_reach_days_far_away() {
    // From a Tuesday to the next Monday, second by second.
    let dates = all("DTSTART:20230103T100000Z\nRRULE:FREQ=SECONDLY;BYDAY=MO;COUNT=2");
    assert_eq!(
        wall(&dates),
        vec![(2023, 1, 9, 0, 0, 0), (2023, 1, 9, 0, 0, 1)]
    );
    // From January to December.
    let dates = all("DTSTART:20230101T000000Z\nRRULE:FREQ=SECONDLY;BYMONTH=12;COUNT=1");
    assert_eq!(wall(&dates), vec![(2023, 12, 1, 0, 0, 0)]);
}

#[test]
fn steps_stay_whole_intervals_from_the_start() {
    // Every seventh minute from midnight of the 1st: minute 1442 is the
    // first of them on the 2nd.
    let dates = all(
        "DTSTART:20230101T000000Z\nRRULE:FREQ=MINUTELY;INTERVAL=7;BYMONTHDAY=2;COUNT=2",
    );
    assert_eq!(
        wall(&dates),
        vec![(2023, 1, 2, 0, 2, 0), (2023, 1, 2, 0, 9, 0)]
    );
    // Every fifth hour from midnight of January 1st: hour 745 is the first
    // of them in February.
    let dates = all("DTSTART:20230101T000000Z\nRRULE:FREQ=HOURLY;INTERVAL=5;BYMONTH=2;COUNT=2");
    assert_eq!(
        wall(&dates),
        vec![(2023, 2, 1, 1, 0, 0), (2023, 2, 1, 6, 0, 0)]
    );
    // An interval longer than a day: hours 50 and 400 fall on Tuesdays.
    let dates = all("DTSTART:20230101T000000Z\nRRULE:FREQ=HOURLY;INTERVAL=50;BYDAY=TU;COUNT=2");
    assert_eq!(
        wall(&dates),
        vec![(2023, 1, 3, 2, 0, 0), (2023, 1, 17, 16, 0, 0)]
    );
}
