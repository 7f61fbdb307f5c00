use rrule::{
    parse_parameters, DateTime, Frequency, NWeekday, ParseError, RRule, RRuleError, RRuleProperty,
    Tz, ValidationError, Weekday,
};

fn parse(text: &str) -> Result<RRule, ParseError> {
    match RRule::from_str(text) {
        Ok(rule) => Ok(rule),
        Err(RRuleError::ParserError(e)) => Err(e),
        Err(other) => panic!("not a parse error: {:?}", other),
    }
}

#[test]
fn every_key_is_read_in_any_letter_case() {
    let keys = [
        ("FREQ", RRuleProperty::Freq),
        ("UNTIL", RRuleProperty::Until),
        ("COUNT", RRuleProperty::Count),
        ("INTERVAL", RRuleProperty::Interval),
        ("BYSECOND", RRuleProperty::BySecond),
        ("BYMINUTE", RRuleProperty::ByMinute),
        ("BYHOUR", RRuleProperty::ByHour),
        ("BYDAY", RRuleProperty::ByDay),
        ("BYWEEKDAY", RRuleProperty::ByDay),
        ("BYMONTHDAY", RRuleProperty::ByMonthDay),
        ("BYYEARDAY", RRuleProperty::ByYearDay),
        ("BYWEEKNO", RRuleProperty::ByWeekNo),
        ("BYMONTH", RRuleProperty::ByMonth),
        ("BYSETPOS", RRuleProperty::BySetPos),
        ("WKST", RRuleProperty::Wkst),
        ("X-INCLUDE-DTSTART", RRuleProperty::XIncludeDtstart),
        ("LOCAL-TZID", RRuleProperty::LocalTzid),
    ];
    for (text, key) in keys {
        assert_eq!(RRuleProperty::from_str(text), Ok(key));
        assert_eq!(RRuleProperty::from_str(&text.to_lowercase()), Ok(key));
        if key != RRuleProperty::ByDay {
            assert_eq!(key.as_str(), text);
        }
    }
    assert_eq!(
        RRuleProperty::from_str("BYEASTER"),
        Err(ParseError::UnrecognizedParameter("BYEASTER".into()))
    );
    assert_eq!(
        RRuleProperty::from_str("Freqq"),
        Err(ParseError::UnrecognizedParameter("Freqq".into()))
    );
}

#[test]
fn upper_and_lower_case_give_the_same_rule() {
    assert_eq!(parse("FREQ=DAILY"), parse("freq=daily"));
    assert_eq!(
        parse("FREQ=WEEKLY;BYDAY=MO,2TU;WKST=SU;X-INCLUDE-DTSTART=YES"),
        parse("freq=Weekly;byday=mo,2tu;wkst=su;x-include-dtstart=yes")
    );
}

#[test]
fn byday_and_byweekday_are_one_key() {
    assert_eq!(parse("FREQ=WEEKLY;BYDAY=MO,-1FR"), parse("FREQ=WEEKLY;BYWEEKDAY=MO,-1FR"));
    assert_eq!(
        parse("FREQ=WEEKLY;BYWEEKDAY=MO,-1FR").unwrap().by_weekday,
        vec![NWeekday::Every(Weekday::Mon), NWeekday::Nth(-1, Weekday::Fri)]
    );
}

#[test]
fn a_key_given_twice_keeps_its_last_value() {
    let rule = parse("FREQ=DAILY;COUNT=3;FREQ=WEEKLY;COUNT=5").unwrap();
    assert_eq!(rule.freq, Frequency::Weekly);
    assert_eq!(rule.count, Some(5));
    let props = parse_parameters("COUNT=1;count=2").unwrap();
    assert_eq!(props.get(RRuleProperty::Count), Some("2"));
    assert!(!props.contains(RRuleProperty::Freq));
}

#[test]
fn every_field_is_read() {
    let rule = parse(
        "FREQ=YEARLY;INTERVAL=2;COUNT=7;UNTIL=20301231T235959Z;WKST=SU;BYSETPOS=-1,2;\
         BYMONTH=1,12;BYMONTHDAY=-31,0,31;BYYEARDAY=-366,366;BYWEEKNO=-53,53;BYDAY=MO,+2TU,-1FR;\
         BYHOUR=0,23;BYMINUTE=0,59;BYSECOND=+0,59;X-INCLUDE-DTSTART=no;LOCAL-TZID=Asia/Tokyo",
    )
    .unwrap();
    assert_eq!(rule.get_freq(), Frequency::Yearly);
    assert_eq!(rule.get_interval(), 2);
    assert_eq!(rule.get_count(), Some(&7));
    assert_eq!(
        rule.get_until(),
        Some(&DateTime::from_local(2030, 12, 31, 23, 59, 59, Tz::Utc).unwrap())
    );
    assert_eq!(rule.get_week_start(), Weekday::Sun);
    assert_eq!(rule.get_by_set_pos(), &vec![-1, 2]);
    assert_eq!(rule.get_by_month(), &vec![1, 12]);
    assert_eq!(rule.get_by_month_day(), &vec![-31, 0, 31]);
    assert_eq!(rule.get_by_year_day(), &vec![-366, 366]);
    assert_eq!(rule.get_by_week_no(), &vec![-53, 53]);
    assert_eq!(
        rule.get_by_weekday(),
        &vec![
            NWeekday::Every(Weekday::Mon),
            NWeekday::Nth(2, Weekday::Tue),
            NWeekday::Nth(-1, Weekday::Fri)
        ]
    );
    assert_eq!(rule.get_by_hour(), &vec![0, 23]);
    assert_eq!(rule.get_by_minute(), &vec![0, 59]);
    assert_eq!(rule.get_by_second(), &vec![0, 59]);
    assert_eq!(rule.get_include_dtstart(), Some(&false));
    assert_eq!(rule.get_local_tzid(), Some(&Tz::named("Asia/Tokyo").unwrap()));
}

#[test]
fn defaults_stand_where_a_field_is_absent() {
    let rule = parse("FREQ=MONTHLY").unwrap();
    assert_eq!(rule, RRule::new(Frequency::Monthly));
    assert_eq!(rule.interval, 1);
    assert_eq!(rule.week_start, Weekday::Mon);
    assert_eq!(rule.count, None);
    assert_eq!(rule.until, None);
    assert_eq!(rule.include_dtstart, None);
    assert_eq!(rule.local_tzid, None);
    assert_eq!(RRule::default().freq, Frequency::Yearly);
}

#[test]
fn each_field_has_its_own_refusal() {
    let cases: Vec<(&str, ParseError)> = vec![
        ("COUNT=3", ParseError::MissingProperty("FREQ".into())),
        ("", ParseError::MissingProperty("FREQ".into())),
        ("FREQ=DAILY;COLOR=RED", ParseError::UnrecognizedParameter("COLOR".into())),
        ("FREQ=DAILY;COUNT", ParseError::InvalidParameterFormat("COUNT".into())),
        ("FREQ=FORTNIGHTLY", ParseError::InvalidFrequency("FORTNIGHTLY".into())),
        ("FREQ=DAILY;INTERVAL=65536", ParseError::InvalidInterval("65536".into())),
        ("FREQ=DAILY;INTERVAL=-1", ParseError::InvalidInterval("-1".into())),
        ("FREQ=DAILY;COUNT=4294967296", ParseError::InvalidCount("4294967296".into())),
        ("FREQ=DAILY;COUNT=3.5", ParseError::InvalidCount("3.5".into())),
        ("FREQ=DAILY;COUNT=", ParseError::InvalidCount("".into())),
        ("FREQ=DAILY;WKST=XX", ParseError::InvalidWeekdayStart("XX".into())),
        ("FREQ=DAILY;BYSETPOS=1,a", ParseError::InvalidBySetPos("1,a".into())),
        ("FREQ=DAILY;BYSETPOS=2147483648", ParseError::InvalidBySetPos("2147483648".into())),
        ("FREQ=DAILY;BYMONTH=0", ParseError::InvalidByMonth("0".into())),
        ("FREQ=DAILY;BYMONTH=1,13", ParseError::InvalidByMonth("1,13".into())),
        ("FREQ=DAILY;BYMONTHDAY=32", ParseError::InvalidByMonthDay("32".into())),
        ("FREQ=DAILY;BYMONTHDAY=1,-32", ParseError::InvalidByMonthDay("1,-32".into())),
        ("FREQ=DAILY;BYYEARDAY=367", ParseError::InvalidByYearDay("367".into())),
        ("FREQ=DAILY;BYYEARDAY=-367,1", ParseError::InvalidByYearDay("-367,1".into())),
        ("FREQ=DAILY;BYWEEKNO=54", ParseError::InvalidByWeekNo("54".into())),
        ("FREQ=DAILY;BYWEEKNO=1,2,-54", ParseError::InvalidByWeekNo("1,2,-54".into())),
        ("FREQ=DAILY;BYDAY=MO,XX", ParseError::InvalidWeekday("MO,XX".into())),
        ("FREQ=DAILY;BYDAY=1.5MO", ParseError::InvalidWeekday("1.5MO".into())),
        ("FREQ=DAILY;BYDAY=M", ParseError::InvalidWeekday("M".into())),
        ("FREQ=DAILY;BYHOUR=24", ParseError::InvalidByHour("24".into())),
        ("FREQ=DAILY;BYHOUR=5,6,25", ParseError::InvalidByHour("5,6,25".into())),
        ("FREQ=DAILY;BYHOUR=-1", ParseError::InvalidByHour("-1".into())),
        ("FREQ=DAILY;BYHOUR=1,", ParseError::InvalidByHour("1,".into())),
        ("FREQ=DAILY;BYMINUTE=60", ParseError::InvalidByMinute("60".into())),
        ("FREQ=DAILY;BYSECOND=60", ParseError::InvalidBySecond("60".into())),
        ("FREQ=DAILY;BYSECOND=1,2,61", ParseError::InvalidBySecond("1,2,61".into())),
        (
            "FREQ=DAILY;X-INCLUDE-DTSTART=MAYBE",
            ParseError::InvalidXIncludeDtstart("MAYBE".into()),
        ),
        ("FREQ=DAILY;LOCAL-TZID=Mars/Olympus", ParseError::InvalidTimezone("Mars/Olympus".into())),
        ("FREQ=DAILY;LOCAL-TZID=utc", ParseError::InvalidTimezone("utc".into())),
        ("FREQ=DAILY;UNTIL=tomorrow", ParseError::InvalidDateTimeFormat("tomorrow".into())),
        ("FREQ=DAILY;UNTIL=1997090", ParseError::InvalidDateTimeFormat("1997090".into())),
        (
            "FREQ=DAILY;UNTIL=19970904T0900",
            ParseError::InvalidDateTimeFormat("19970904T0900".into()),
        ),
        (
            "FREQ=DAILY;UNTIL=19970904t090000",
            ParseError::InvalidDateTimeFormat("19970904t090000".into()),
        ),
        (
            "FREQ=DAILY;UNTIL=19971304T090000Z",
            ParseError::InvalidDateTime {
                value: "19971304T090000Z".into(),
                property: "UNTIL".into(),
            },
        ),
        (
            "FREQ=DAILY;UNTIL=19970229",
            ParseError::InvalidDateTime { value: "19970229".into(), property: "UNTIL".into() },
        ),
        (
            "FREQ=DAILY;UNTIL=19970904T240000",
            ParseError::InvalidDateTime {
                value: "19970904T240000".into(),
                property: "UNTIL".into(),
            },
        ),
        (
            "FREQ=DAILY;UNTIL=20210314T023000;LOCAL-TZID=America/New_York",
            ParseError::InvalidDateTimeInLocalTimezone {
                value: "20210314T023000".into(),
                property: "UNTIL".into(),
            },
        ),
        (
            "FREQ=DAILY;UNTIL=20211107T013000;LOCAL-TZID=America/New_York",
            ParseError::DateTimeInLocalTimezoneIsAmbiguous {
                value: "20211107T013000".into(),
                property: "UNTIL".into(),
            },
        ),
    ];
    for (text, expected) in cases {
        assert_eq!(parse(text), Err(expected), "{}", text);
    }
}

#[test]
fn the_first_refusal_in_field_order_is_reported() {
    // FREQ is read before COUNT, COUNT before BYHOUR, whatever the order in the text.
    assert_eq!(
        parse("BYHOUR=99;COUNT=x;FREQ=NEVER"),
        Err(ParseError::InvalidFrequency("NEVER".into()))
    );
    assert_eq!(
        parse("BYHOUR=99;COUNT=x;FREQ=DAILY"),
        Err(ParseError::InvalidCount("x".into()))
    );
    assert_eq!(parse("BYHOUR=99;COUNT=x"), Err(ParseError::MissingProperty("FREQ".into())));
    // A piece that cannot be split is refused before any field is read.
    assert_eq!(
        parse("FREQ=NEVER;BROKEN"),
        Err(ParseError::InvalidParameterFormat("BROKEN".into()))
    );
}

#[test]
fn until_floats_in_the_zone_of_local_tzid_wherever_it_stands() {
    let after = parse("FREQ=DAILY;LOCAL-TZID=America/New_York;UNTIL=19970904T090000").unwrap();
    let before = parse("FREQ=DAILY;UNTIL=19970904T090000;LOCAL-TZID=America/New_York").unwrap();
    assert_eq!(after, before);
    let until = after.until.unwrap();
    assert_eq!(until.timezone(), Tz::named("America/New_York").unwrap());
    assert_eq!((until.hour(), until.minute()), (9, 0));
    // 09:00 in New York on that day is 13:00 UTC.
    assert_eq!(
        until.timestamp(),
        DateTime::from_local(1997, 9, 4, 13, 0, 0, Tz::Utc).unwrap().timestamp()
    );
    // A value marked as UTC is not touched by LOCAL-TZID.
    let marked = parse("FREQ=DAILY;LOCAL-TZID=America/New_York;UNTIL=19970904T090000Z").unwrap();
    assert_eq!(marked.until.unwrap().timezone(), Tz::Utc);
    assert_eq!(marked.until.unwrap().timestamp(), 873363600);
    // Without LOCAL-TZID a floating value is read in the ambient zone.
    let ambient = parse("FREQ=DAILY;UNTIL=19970904").unwrap();
    assert_eq!(ambient.until.unwrap().timezone(), Tz::Local);
    assert_eq!(ambient.until.unwrap().hour(), 0);
}

#[test]
fn a_rule_reads_back_from_its_text() {
    let texts = [
        "FREQ=DAILY",
        "FREQ=WEEKLY;UNTIL=19971224T000000Z;COUNT=4;INTERVAL=2;WKST=SU;BYDAY=TU,-1FR,20MO",
        "FREQ=YEARLY;BYSETPOS=-1,2;BYMONTH=1,12;BYMONTHDAY=-31,31;BYYEARDAY=-366,1;BYWEEKNO=-53,20",
        "FREQ=SECONDLY;BYHOUR=0,23;BYMINUTE=0,59;BYSECOND=0,59;X-INCLUDE-DTSTART=TRUE",
        "FREQ=MONTHLY;UNTIL=19970904T090000;X-INCLUDE-DTSTART=FALSE;LOCAL-TZID=Europe/London",
        "FREQ=HOURLY;COUNT=0;LOCAL-TZID=UTC",
    ];
    for text in texts {
        let rule = parse(text).unwrap();
        assert_eq!(rule.to_string(), text);
        assert_eq!(parse(&rule.to_string()), Ok(rule));
    }
}

#[test]
fn the_text_of_a_rule_is_exact() {
    let rule = RRule::new(Frequency::Monthly)
        .interval(3)
        .count(12)
        .until(DateTime::from_local(2024, 2, 29, 7, 5, 0, Tz::Utc).unwrap())
        .week_start(Weekday::Wed)
        .by_set_pos(vec![-1])
        .by_month(vec![2, 11])
        .by_month_day(vec![-1, 15])
        .by_weekday(vec![NWeekday::Nth(-2, Weekday::Sat), NWeekday::Every(Weekday::Sun)])
        .by_hour(vec![7])
        .by_minute(vec![5, 35])
        .by_second(vec![0])
        .include_dtstart(true)
        .local_tzid(Tz::Utc);
    assert_eq!(
        rule.to_string(),
        "FREQ=MONTHLY;UNTIL=20240229T070500Z;COUNT=12;INTERVAL=3;WKST=WE;BYSETPOS=-1;\
         BYMONTH=2,11;BYMONTHDAY=-1,15;BYDAY=-2SA,SU;BYHOUR=7;BYMINUTE=5,35;BYSECOND=0;\
         X-INCLUDE-DTSTART=TRUE;LOCAL-TZID=UTC"
    );
    let yearly = RRule::new(Frequency::Daily).freq(Frequency::Yearly).by_year_day(vec![100]).by_week_no(vec![-1]);
    assert_eq!(yearly.to_string(), "FREQ=YEARLY;BYYEARDAY=100;BYWEEKNO=-1");
}

#[test]
fn validation_refuses_what_does_not_fit() {
    let check = |text: &str| parse(text).unwrap().validate().map(|_| ());
    assert_eq!(check("FREQ=DAILY;INTERVAL=0"), Err(ValidationError::ZeroInterval));
    assert_eq!(
        check("FREQ=MONTHLY;BYWEEKNO=20"),
        Err(ValidationError::InvalidByRuleAndFrequency {
            by_rule: RRuleProperty::ByWeekNo,
            freq: Frequency::Monthly
        })
    );
    assert_eq!(
        check("FREQ=DAILY;BYYEARDAY=1"),
        Err(ValidationError::InvalidByRuleAndFrequency {
            by_rule: RRuleProperty::ByYearDay,
            freq: Frequency::Daily
        })
    );
    assert_eq!(
        check("FREQ=WEEKLY;BYMONTHDAY=1"),
        Err(ValidationError::InvalidByRuleAndFrequency {
            by_rule: RRuleProperty::ByMonthDay,
            freq: Frequency::Weekly
        })
    );
    assert_eq!(
        check("FREQ=WEEKLY;BYDAY=1MO"),
        Err(ValidationError::InvalidByRuleAndFrequency {
            by_rule: RRuleProperty::ByDay,
            freq: Frequency::Weekly
        })
    );
    assert_eq!(
        check("FREQ=YEARLY;BYWEEKNO=1;BYDAY=1MO"),
        Err(ValidationError::InvalidByRuleAndFrequency {
            by_rule: RRuleProperty::ByDay,
            freq: Frequency::Yearly
        })
    );
    assert_eq!(
        check("FREQ=YEARLY;BYDAY=400MO"),
        Err(ValidationError::InvalidFieldValue { field: RRuleProperty::ByDay, value: 400 })
    );
    assert_eq!(check("FREQ=DAILY;BYSETPOS=1"), Err(ValidationError::BySetPosWithoutByRule));
    assert_eq!(check("FREQ=DAILY;BYSETPOS=1;BYHOUR=1,2"), Ok(()));
    assert_eq!(check("FREQ=YEARLY;BYYEARDAY=1;BYWEEKNO=1;BYMONTHDAY=1;BYDAY=MO"), Ok(()));
    // Parsing cannot give a value out of range; a builder can.
    let built = RRule::new(Frequency::Daily).by_hour(vec![3, 24, 25]);
    assert_eq!(
        built.check(),
        Some(ValidationError::InvalidFieldValue { field: RRuleProperty::ByHour, value: 24 })
    );
    let built = RRule::new(Frequency::Yearly).by_month(vec![13]).by_hour(vec![99]);
    assert_eq!(
        built.validate().unwrap_err(),
        ValidationError::InvalidFieldValue { field: RRuleProperty::ByMonth, value: 13 }
    );
    // A rule that passes is the same rule.
    let rule = parse("FREQ=DAILY;COUNT=3;BYHOUR=9").unwrap();
    let text = rule.to_string();
    let validated = rule.validate().unwrap();
    assert_eq!(validated.to_string(), text);
    assert_eq!(validated.as_rule().count, Some(3));
}

#[test]
fn letters_outside_ascii_fold_as_unicode_folds_them() {
    // The long s has the capital S for its upper-case form.
    assert_eq!(RRuleProperty::from_str("wk\u{17f}t"), Ok(RRuleProperty::Wkst));
    assert_eq!(parse("freq=\u{17f}econdly").map(|r| r.freq), Ok(Frequency::Secondly));
    assert_eq!(
        RRuleProperty::from_str("fr\u{e9}q"),
        Err(ParseError::UnrecognizedParameter("fr\u{e9}q".into()))
    );
}

#[test]
fn the_order_of_the_pairs_does_not_matter() {
    assert_eq!(
        parse("FREQ=DAILY;COUNT=3;BYHOUR=9,10;WKST=SU"),
        parse("WKST=SU;BYHOUR=9,10;COUNT=3;FREQ=DAILY")
    );
    // Empty pieces are passed over.
    assert_eq!(parse(";FREQ=DAILY;;COUNT=3;"), parse("FREQ=DAILY;COUNT=3"));
    // A value may hold `=`; only the first one parts key and value.
    assert_eq!(
        parse("FREQ=DAILY;COUNT=3=4"),
        Err(ParseError::InvalidCount("3=4".into()))
    );
}

#[test]
fn numbers_are_read_as_plain_decimals() {
    assert_eq!(parse("FREQ=DAILY;COUNT=+007").unwrap().count, Some(7));
    assert_eq!(parse("FREQ=DAILY;INTERVAL=65535").unwrap().interval, 65535);
    assert_eq!(parse("FREQ=DAILY;COUNT=4294967295").unwrap().count, Some(4294967295));
    assert_eq!(
        parse("FREQ=DAILY;BYSETPOS=-2147483648,2147483647").unwrap().by_set_pos,
        vec![i32::MIN, i32::MAX]
    );
    assert_eq!(
        parse("FREQ=DAILY;BYMONTHDAY=-0,+31").unwrap().by_month_day,
        vec![0, 31]
    );
    assert_eq!(
        parse("FREQ=DAILY;COUNT=99999999999999999999999999"),
        Err(ParseError::InvalidCount("99999999999999999999999999".into()))
    );
    for bad in ["", "+", "-", " 1", "1 ", "0x10", "1e2", "--1", "\u{661}"] {
        assert_eq!(
            parse(&format!("FREQ=DAILY;COUNT={}", bad)),
            Err(ParseError::InvalidCount(bad.into())),
            "{:?}",
            bad
        );
    }
    assert_eq!(
        parse("FREQ=WEEKLY;BYDAY=+1mo,-53Su,0TU").unwrap().by_weekday,
        vec![
            NWeekday::Nth(1, Weekday::Mon),
            NWeekday::Nth(-53, Weekday::Sun),
            NWeekday::Every(Weekday::Tue)
        ]
    );
}

#[test]
fn keys_and_rules_are_read_by_parse_too() {
    assert_eq!("byweekday".parse::<RRuleProperty>(), Ok(RRuleProperty::ByDay));
    assert_eq!(
        "colour".parse::<RRuleProperty>(),
        Err(ParseError::UnrecognizedParameter("colour".into()))
    );
    assert_eq!("FREQ=DAILY;COUNT=2".parse::<RRule>(), RRule::from_str("FREQ=DAILY;COUNT=2"));
    assert_eq!(
        "FREQ=DAILY;COUNT=x".parse::<RRule>(),
        Err(RRuleError::ParserError(ParseError::InvalidCount("x".into())))
    );
}
