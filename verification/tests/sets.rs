use rrule::{DateTime, ParseError, RRule, RRuleError, RRuleSet, Tz, ValidationError};

fn utc(year: i32, month: u8, day: u8, hour: u8) -> DateTime {
    DateTime::from_local(year, month, day, hour, 0, 0, Tz::Utc).unwrap()
}

fn days(dates: &[DateTime]) -> Vec<(i32, u32, u32)> {
    dates.iter().map(|t| (t.year(), t.month(), t.day())).collect()
}

#[test]
fn an_instant_given_twice_stands_once() {
    // The added instant is also the second occurrence of the rule.
    let dates = RRuleSet::from_str(
        "DTSTART:20230101T100000Z\nRRULE:FREQ=DAILY;COUNT=3\nRDATE:20230102T100000Z",
    )
    .unwrap()
    .all(u16::MAX)
    .dates;
    assert_eq!(days(&dates), vec![(2023, 1, 1), (2023, 1, 2), (2023, 1, 3)]);
}

#[test]
fn an_instant_in_another_zone_is_the_same_instant() {
    // 05:00 in New York is 10:00 UTC in January.
    let dates = RRuleSet::from_str(
        "DTSTART:20230101T100000Z\nRRULE:FREQ=DAILY;COUNT=2\nRDATE;TZID=America/New_York:20230102T050000",
    )
    .unwrap()
    .all(u16::MAX)
    .dates;
    assert_eq!(dates.len(), 2);
    assert_eq!(dates[1].timezone(), Tz::Utc);
}

#[test]
fn two_rules_merge_in_order() {
    let dates = RRuleSet::from_str(
        "DTSTART:20230101T100000Z\n\
         RRULE:FREQ=DAILY;INTERVAL=2;COUNT=3\n\
         RRULE:FREQ=DAILY;INTERVAL=3;COUNT=3",
    )
    .unwrap()
    .all(u16::MAX)
    .dates;
    assert_eq!(
        days(&dates),
        vec![(2023, 1, 1), (2023, 1, 3), (2023, 1, 4), (2023, 1, 5), (2023, 1, 7)]
    );
    for pair in dates.windows(2) {
        assert!(pair[0].timestamp() < pair[1].timestamp());
    }
}

#[test]
fn added_instants_come_in_order_whatever_order_they_were_given_in() {
    let set = RRuleSet::new(utc(2023, 1, 1, 10))
        .rdate(utc(2023, 3, 1, 10))
        .rdate(utc(2023, 2, 1, 10))
        .rdate(utc(2023, 3, 1, 10));
    let dates = set.all(10).dates;
    assert_eq!(days(&dates), vec![(2023, 2, 1), (2023, 3, 1)]);
}

#[test]
fn excluded_instants_and_rules_take_occurrences_away() {
    let dates = RRuleSet::from_str(
        "DTSTART:20230101T100000Z\n\
         RRULE:FREQ=DAILY;COUNT=7\n\
         EXRULE:FREQ=DAILY;INTERVAL=2;COUNT=2\n\
         EXDATE:20230106T100000Z,20230107T100000Z\n\
         RDATE:20230107T100000Z",
    )
    .unwrap()
    .all(u16::MAX)
    .dates;
    // Taken away: the 1st and 3rd by the rule, the 6th and 7th by hand.
    assert_eq!(days(&dates), vec![(2023, 1, 2), (2023, 1, 4), (2023, 1, 5)]);
}

#[test]
fn a_set_without_rules_gives_its_added_instants() {
    let set = RRuleSet::new(utc(2023, 1, 1, 10));
    assert!(set.all(10).dates.is_empty());
    let set = RRuleSet::new(utc(2023, 1, 1, 10)).rdate(utc(2022, 12, 1, 10));
    assert_eq!(days(&set.all(10).dates), vec![(2022, 12, 1)]);
}

#[test]
fn a_limit_of_zero_gives_nothing() {
    let set = RRuleSet::new(utc(2023, 1, 1, 10))
        .rrule(RRule::from_str("FREQ=DAILY").unwrap().validate().unwrap());
    let result = set.all(0);
    assert!(result.dates.is_empty());
    assert!(result.limited);
}

#[test]
fn the_builder_and_the_text_give_the_same_set() {
    let built = RRuleSet::new(utc(2023, 1, 1, 10))
        .rrule(
            RRule::new(rrule::Frequency::Weekly)
                .count(3)
                .by_weekday(vec![rrule::NWeekday::Every(rrule::Weekday::Tue)])
                .validate()
                .unwrap(),
        )
        .exdate(utc(2023, 1, 10, 10));
    let read = RRuleSet::from_str(
        "DTSTART:20230101T100000Z\nRRULE:FREQ=WEEKLY;COUNT=3;BYDAY=TU\nEXDATE:20230110T100000Z",
    )
    .unwrap();
    assert_eq!(built.all(10).dates, read.all(10).dates);
    assert_eq!(days(&built.all(10).dates), vec![(2023, 1, 3), (2023, 1, 17)]);
    assert_eq!(built.get_dt_start(), read.get_dt_start());
    assert_eq!(built.get_rrule(), read.get_rrule());
    assert_eq!(built.get_exdate(), read.get_exdate());
    assert!(built.get_exrule().is_empty());
    assert!(built.get_rdate().is_empty());
}

#[test]
fn each_rule_reads_a_floating_start_in_its_own_zone() {
    let dates = RRuleSet::from_str(
        "DTSTART:20230101T100000\n\
         RRULE:FREQ=DAILY;COUNT=1;LOCAL-TZID=UTC\n\
         RRULE:FREQ=DAILY;COUNT=1;LOCAL-TZID=America/New_York",
    )
    .unwrap()
    .all(u16::MAX)
    .dates;
    assert_eq!(dates.len(), 2);
    assert_eq!(dates[0].timezone(), Tz::Utc);
    assert_eq!(dates[1].timezone(), Tz::named("America/New_York").unwrap());
    assert_eq!(dates[1].timestamp() - dates[0].timestamp(), 5 * 3600);
}

#[test]
fn document_errors() {
    let err = |text: &str| RRuleSet::from_str(text).unwrap_err();
    assert_eq!(
        err("RRULE:FREQ=DAILY"),
        RRuleError::ParserError(ParseError::MissingStartDate("RRULE:FREQ=DAILY".into()))
    );
    assert_eq!(
        err("DTSTART:20230101\nDTSTART:20230102"),
        RRuleError::ParserError(ParseError::TooManyStartDates(
            "DTSTART:20230101\nDTSTART:20230102".into()
        ))
    );
    assert_eq!(
        err("DTSTART 20230101"),
        RRuleError::ParserError(ParseError::InvalidLine("DTSTART 20230101".into()))
    );
    assert_eq!(
        err("DTSTART:20230101\nSUMMARY:x"),
        RRuleError::ParserError(ParseError::UnrecognizedProperty("SUMMARY".into()))
    );
    assert_eq!(
        err("DTSTART;TZID=Nowhere/Else:20230101T000000"),
        RRuleError::ParserError(ParseError::InvalidTimezone("Nowhere/Else".into()))
    );
    assert_eq!(
        err("DTSTART:20230101\nRRULE:FREQ=DAILY;INTERVAL=0"),
        RRuleError::ValidationError(ValidationError::ZeroInterval)
    );
    assert_eq!(
        err("DTSTART:20230101\nRRULE;X=1:FREQ=DAILY"),
        RRuleError::ParserError(ParseError::PropertyParametersNotSupported("X=1".into()))
    );
    // Lines may come in any letter case and order; empty lines are passed over.
    assert!(RRuleSet::from_str("\nrrule:FREQ=DAILY\n\ndtstart;value=date:20230101\n").is_ok());
}

#[test]
fn the_first_refusal_of_a_document_is_reported() {
    let err = |text: &str| text.parse::<RRuleSet>().unwrap_err();
    // The start is read before any other line, wherever it stands.
    assert_eq!(
        err("RRULE:FREQ=NEVER\nDTSTART:2023"),
        RRuleError::ParserError(ParseError::InvalidDateTimeFormat("2023".into()))
    );
    assert_eq!(
        err("RRULE:FREQ=NEVER\nDTSTART;VALUE=WEEK:20230101"),
        RRuleError::ParserError(ParseError::InvalidParameterFormat("VALUE=WEEK".into()))
    );
    // Then the other lines, in their order.
    assert_eq!(
        err("DTSTART:20230101\nRDATE:20230102,soon\nRRULE:FREQ=NEVER"),
        RRuleError::ParserError(ParseError::InvalidDateTimeFormat("soon".into()))
    );
    assert_eq!(
        err("DTSTART:20230101\nRRULE:FREQ=NEVER\nRDATE:20230102,soon"),
        RRuleError::ParserError(ParseError::InvalidFrequency("NEVER".into()))
    );
    assert_eq!(
        err("DTSTART:20230101\nEXRULE:FREQ=DAILY;BYSETPOS=1\nEXDATE;TZID=Nowhere:20230102"),
        RRuleError::ValidationError(ValidationError::BySetPosWithoutByRule)
    );
    assert_eq!(
        err("DTSTART:20230101\nEXDATE;TZID=Nowhere:20230102"),
        RRuleError::ParserError(ParseError::InvalidTimezone("Nowhere".into()))
    );
    assert_eq!(
        err("DTSTART:20230101\nEXDATE:20230230"),
        RRuleError::ParserError(ParseError::InvalidDateTime {
            value: "20230230".into(),
            property: "EXDATE".into()
        })
    );
}

#[test]
fn a_document_gives_its_lines_in_their_order() {
    let set = "RDATE:20230105T000000Z,20230103T000000Z\n\
               EXRULE:FREQ=YEARLY\n\
               RRULE:FREQ=DAILY;COUNT=2\n\
               DTSTART:20230101T000000Z\n\
               RDATE;TZID=Asia/Tokyo:20230104T090000\n\
               RRULE:FREQ=WEEKLY;COUNT=1\n\
               EXDATE:20230109T000000Z"
        .parse::<RRuleSet>()
        .unwrap();
    assert_eq!(set.get_dt_start(), utc(2023, 1, 1, 0));
    let rules: Vec<String> = set.get_rrule().iter().map(|r| r.to_string()).collect();
    assert_eq!(rules, vec!["FREQ=DAILY;COUNT=2", "FREQ=WEEKLY;COUNT=1"]);
    let rules: Vec<String> = set.get_exrule().iter().map(|r| r.to_string()).collect();
    assert_eq!(rules, vec!["FREQ=YEARLY"]);
    let added: Vec<i64> = set.get_rdate().iter().map(|t| t.timestamp()).collect();
    assert_eq!(
        added,
        vec![
            utc(2023, 1, 5, 0).timestamp(),
            utc(2023, 1, 3, 0).timestamp(),
            utc(2023, 1, 4, 0).timestamp()
        ]
    );
    assert_eq!(set.get_exdate(), &vec![utc(2023, 1, 9, 0)]);
}
