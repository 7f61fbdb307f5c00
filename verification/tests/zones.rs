use rrule::{DateTime, Tz, Weekday};

#[test]
fn zones_read_back_under_their_names() {
    for name in ["UTC", "America/New_York", "Europe/London", "Asia/Tokyo", "Etc/UTC", "Zulu"] {
        let zone = Tz::named(name).unwrap();
        assert_eq!(zone.name(), name);
        assert_eq!(Tz::named(&zone.name()), Some(zone));
        assert!(!zone.is_local());
    }
    assert_eq!(Tz::named("UTC"), Some(Tz::Utc));
    assert_ne!(Tz::named("Etc/UTC"), Some(Tz::Utc));
    assert_ne!(Tz::named("Europe/London"), Tz::named("Europe/Paris"));
    assert_eq!(Tz::named("Europe/Atlantis"), None);
    assert_eq!(Tz::named(""), None);
    assert_eq!(Tz::named("europe/london"), None);
    assert_eq!(Tz::Local.name(), "Local");
    assert!(Tz::Local.is_local());
}

#[test]
fn a_wall_clock_time_resolves_in_its_zone() {
    let tokyo = Tz::named("Asia/Tokyo").unwrap();
    // Tokyo is nine hours ahead of UTC.
    assert_eq!(tokyo.resolve(9 * 3600), vec![0]);
    assert_eq!(Tz::Utc.resolve(12345), vec![12345]);
    let new_york = Tz::named("America/New_York").unwrap();
    // 2021-03-14T02:30:00 is skipped; 2021-11-07T01:30:00 comes twice.
    assert_eq!(new_york.resolve(1615689000), Vec::<i64>::new());
    assert_eq!(new_york.resolve(1636248600), vec![1636263000, 1636266600]);
    assert!(Tz::Local.resolve(0).len() <= 2);
}

#[test]
fn readings_are_built_from_their_fields() {
    let t = DateTime::from_local(2020, 12, 14, 9, 30, 15, Tz::named("America/New_York").unwrap())
        .unwrap();
    assert_eq!(
        (t.year(), t.month(), t.day(), t.hour(), t.minute(), t.second()),
        (2020, 12, 14, 9, 30, 15)
    );
    assert_eq!(t.timestamp(), 1607956215);
    assert_eq!(t.local_timestamp(), 1607938215);
    assert_eq!(t.weekday(), Some(Weekday::Mon));
    assert!(t.is_valid());
    let epoch = DateTime::from_local(1970, 1, 1, 0, 0, 0, Tz::Utc).unwrap();
    assert_eq!(epoch.timestamp(), 0);
    assert_eq!(epoch.weekday(), Some(Weekday::Thu));
    let first = DateTime::from_local(0, 1, 1, 0, 0, 0, Tz::Utc).unwrap();
    assert_eq!(first.timestamp(), -62167219200);
    assert_eq!(first.weekday(), Some(Weekday::Sat));
    let last = DateTime::from_local(9999, 12, 31, 23, 59, 59, Tz::Utc).unwrap();
    assert_eq!(last.timestamp(), 253402300799);
    assert_eq!(last.weekday(), Some(Weekday::Fri));

    assert_eq!(DateTime::from_local(2021, 2, 29, 0, 0, 0, Tz::Utc), None);
    assert_eq!(DateTime::from_local(2021, 13, 1, 0, 0, 0, Tz::Utc), None);
    assert_eq!(DateTime::from_local(2021, 1, 1, 24, 0, 0, Tz::Utc), None);
    assert_eq!(DateTime::from_local(10000, 1, 1, 0, 0, 0, Tz::Utc), None);
    assert_eq!(DateTime::from_local(-1, 1, 1, 0, 0, 0, Tz::Utc), None);
    assert_eq!(
        DateTime::from_local(2021, 3, 14, 2, 30, 0, Tz::named("America/New_York").unwrap()),
        None
    );
    let twice =
        DateTime::from_local(2021, 11, 7, 1, 30, 0, Tz::named("America/New_York").unwrap())
            .unwrap();
    assert_eq!(twice.timestamp(), 1636263000);
}

#[test]
fn a_reading_is_written_as_its_wall_clock() {
    let mut text = String::new();
    DateTime::from_local(1997, 9, 4, 9, 0, 5, Tz::Utc).unwrap().push_text(&mut text);
    assert_eq!(text, "19970904T090005Z");
    let mut text = String::from("UNTIL=");
    DateTime::from_local(812, 1, 2, 3, 4, 5, Tz::named("Europe/London").unwrap())
        .unwrap()
        .push_text(&mut text);
    assert_eq!(text, "UNTIL=08120102T030405");
}
