use rrule::{
    props_to_rrule, ContentLineCaptures, Frequency, ParseError, Properties, PropertyName, RRule,
    RRuleProperty, Tz,
};

#[test]
fn parses_rrule_content_line() {
    let tests = [
        (
            ContentLineCaptures {
                property_name: PropertyName::RRule,
                parameters: None,
                value: "FREQ=DAILY",
            },
            RRule {
                freq: Frequency::Daily,
                ..Default::default()
            },
        ),
        (
            ContentLineCaptures {
                property_name: PropertyName::RRule,
                parameters: None,
                value: "BYHOUR=4;FREQ=DAILY",
            },
            RRule {
                by_hour: vec![4],
                freq: Frequency::Daily,
                ..Default::default()
            },
        ),
        (
            ContentLineCaptures {
                property_name: PropertyName::RRule,
                parameters: None,
                // Testing case insensitivity
                value: "byhour=4;freQ=DAILY",
            },
            RRule {
                by_hour: vec![4],
                freq: Frequency::Daily,
                ..Default::default()
            },
        ),
    ];

    for (input, expected_output) in tests {
        let output = RRule::try_from(input);
        assert_eq!(output, Ok(expected_output));
    }
}

#[test]
fn parses_local_tzid_parameter() {
    let tests = [
        (
            ContentLineCaptures {
                property_name: PropertyName::RRule,
                parameters: None,
                value: "FREQ=DAILY;LOCAL-TZID=America/New_York",
            },
            RRule {
                freq: Frequency::Daily,
                local_tzid: Some(Tz::named("America/New_York").unwrap()),
                ..Default::default()
            },
        ),
        (
            ContentLineCaptures {
                property_name: PropertyName::RRule,
                parameters: None,
                value: "FREQ=WEEKLY;LOCAL-TZID=UTC",
            },
            RRule {
                freq: Frequency::Weekly,
                local_tzid: Some(Tz::Utc),
                ..Default::default()
            },
        ),
    ];

    for (input, expected_output) in tests {
        let output = RRule::try_from(input);
        assert_eq!(output, Ok(expected_output));
    }
}

#[test]
fn rejects_invalid_local_tzid() {
    let tests = [(
        ContentLineCaptures {
            property_name: PropertyName::RRule,
            parameters: None,
            value: "FREQ=DAILY;LOCAL-TZID=Invalid/Timezone",
        },
        ParseError::InvalidTimezone("Invalid/Timezone".into()),
    )];

    for (input, expected_output) in tests {
        let output = RRule::try_from(input);
        assert_eq!(output, Err(expected_output));
    }
}

#[test]
fn local_tzid_affects_until_parsing() {
    // Test that LOCAL-TZID affects UNTIL datetime parsing
    let tests = [
        (
            // Without LOCAL-TZID, floating datetime uses local time
            "FREQ=DAILY;UNTIL=19970904T090000",
            None, // no local_tzid
        ),
        (
            // With LOCAL-TZID, floating datetime uses specified timezone
            "FREQ=DAILY;LOCAL-TZID=America/New_York;UNTIL=19970904T090000",
            Some(Tz::named("America/New_York").unwrap()),
        ),
    ];

    for (input_str, expected_local_tzid) in tests {
        let input = ContentLineCaptures {
            property_name: PropertyName::RRule,
            parameters: None,
            value: input_str,
        };
        let output = RRule::try_from(input).unwrap();
        assert_eq!(output.local_tzid, expected_local_tzid);

        // Verify UNTIL was parsed (would fail if LOCAL-TZID caused parsing error)
        assert!(output.until.is_some());
    }
}

#[test]
fn rejects_property_parameters_in_rrule_line() {
    let tests = [(
        ContentLineCaptures {
            property_name: PropertyName::RRule,
            parameters: Some("TZID=Europe/London"),
            value: "BYHOUR=4",
        },
        ParseError::PropertyParametersNotSupported("TZID=Europe/London".into()),
    )];

    for (input, expected_output) in tests {
        let output = RRule::try_from(input);
        assert_eq!(output, Err(expected_output));
    }
}

#[test]
fn rejects_invalid_freq() {
    let mut props = Properties::new();
    props.insert(RRuleProperty::Freq, "DAIL");
    let res = props_to_rrule(&props);
    assert_eq!(
        res.unwrap_err(),
        ParseError::InvalidFrequency("DAIL".into())
    );
}

#[test]
fn rejects_invalid_byhour() {
    let mut props = Properties::new();
    props.insert(RRuleProperty::Freq, "DAILY");
    props.insert(RRuleProperty::ByHour, "24");
    let res = props_to_rrule(&props);
    assert_eq!(res.unwrap_err(), ParseError::InvalidByHour("24".into()));

    props.insert(RRuleProperty::ByHour, "5,6,25");
    let res = props_to_rrule(&props);
    assert_eq!(res.unwrap_err(), ParseError::InvalidByHour("5,6,25".into()));
}

#[test]
fn rejects_invalid_byminute() {
    let mut props = Properties::new();
    props.insert(RRuleProperty::Freq, "DAILY");
    props.insert(RRuleProperty::ByMinute, "60");
    let res = props_to_rrule(&props);
    assert_eq!(res.unwrap_err(), ParseError::InvalidByMinute("60".into()));

    props.insert(RRuleProperty::ByMinute, "4,5,64");
    let res = props_to_rrule(&props);
    assert_eq!(
        res.unwrap_err(),
        ParseError::InvalidByMinute("4,5,64".into())
    );
}
