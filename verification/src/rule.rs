//! The rule descriptor as parsing leaves it: every field read on its own,
//! nothing yet checked against the others.

use vstd::prelude::*;

use crate::datetime::DateTime;
use crate::kinds::{Frequency, NWeekday, Weekday};
use crate::zone::Tz;

verus! {

/// A recurrence rule whose fields have not been checked against each other.
/// `ValidatedRRule` is the checked stage; only that one can be expanded.
#[derive(Debug, Clone, PartialEq, Eq)]
pub struct RRule {
    pub freq: Frequency,
    pub interval: u16,
    pub count: Option<u32>,
    pub until: Option<DateTime>,
    pub week_start: Weekday,
    pub by_set_pos: Vec<i32>,
    pub by_month: Vec<u8>,
    pub by_month_day: Vec<i8>,
    pub by_year_day: Vec<i16>,
    pub by_week_no: Vec<i8>,
    pub by_weekday: Vec<NWeekday>,
    pub by_hour: Vec<u8>,
    pub by_minute: Vec<u8>,
    pub by_second: Vec<u8>,
    pub include_dtstart: Option<bool>,
    pub local_tzid: Option<Tz>,
}

/// A rule as a plain value.
pub ghost struct RRuleView {
    pub freq: Frequency,
    pub interval: u16,
    pub count: Option<u32>,
    pub until: Option<DateTime>,
    pub week_start: Weekday,
    pub by_set_pos: Seq<i32>,
    pub by_month: Seq<u8>,
    pub by_month_day: Seq<i8>,
    pub by_year_day: Seq<i16>,
    pub by_week_no: Seq<i8>,
    pub by_weekday: Seq<NWeekday>,
    pub by_hour: Seq<u8>,
    pub by_minute: Seq<u8>,
    pub by_second: Seq<u8>,
    pub include_dtstart: Option<bool>,
    pub local_tzid: Option<Tz>,
}

impl View for RRule {
    type V = RRuleView;

    open spec fn view(&self) -> RRuleView {
        RRuleView {
            freq: self.freq,
            interval: self.interval,
            count: self.count,
            until: self.until,
            week_start: self.week_start,
            by_set_pos: self.by_set_pos@,
            by_month: self.by_month@,
            by_month_day: self.by_month_day@,
            by_year_day: self.by_year_day@,
            by_week_no: self.by_week_no@,
            by_weekday: self.by_weekday@,
            by_hour: self.by_hour@,
            by_minute: self.by_minute@,
            by_second: self.by_second@,
            include_dtstart: self.include_dtstart,
            local_tzid: self.local_tzid,
        }
    }
}

/// The rule of frequency `freq` with every other field at its default:
/// interval 1, weeks starting on Monday, no bound and no BY-rule.
pub open spec fn plain_rule(freq: Frequency) -> RRuleView {
    RRuleView {
        freq,
        interval: 1,
        count: None,
        until: None,
        week_start: Weekday::Mon,
        by_set_pos: Seq::empty(),
        by_month: Seq::empty(),
        by_month_day: Seq::empty(),
        by_year_day: Seq::empty(),
        by_week_no: Seq::empty(),
        by_weekday: Seq::empty(),
        by_hour: Seq::empty(),
        by_minute: Seq::empty(),
        by_second: Seq::empty(),
        include_dtstart: None,
        local_tzid: None,
    }
}

impl RRule {
    /// The rule of frequency `freq` with every other field at its default.
    pub fn new(freq: Frequency) -> (r: RRule)
        ensures
            r@ == plain_rule(freq),
    {
        RRule {
            freq,
            interval: 1,
            count: None,
            until: None,
            week_start: Weekday::Mon,
            by_set_pos: Vec::new(),
            by_month: Vec::new(),
            by_month_day: Vec::new(),
            by_year_day: Vec::new(),
            by_week_no: Vec::new(),
            by_weekday: Vec::new(),
            by_hour: Vec::new(),
            by_minute: Vec::new(),
            by_second: Vec::new(),
            include_dtstart: None,
            local_tzid: None,
        }
    }
}

impl RRule {
    /// The same rule with the frequency `freq`.
    pub fn freq(self, freq: Frequency) -> (r: RRule)
        ensures
            r@ == (RRuleView { freq, ..self@ }),
    {
        let mut s = self;
        s.freq = freq;
        s
    }

    /// The same rule with the interval `interval`.
    pub fn interval(self, interval: u16) -> (r: RRule)
        ensures
            r@ == (RRuleView { interval, ..self@ }),
    {
        let mut s = self;
        s.interval = interval;
        s
    }

    /// The same rule, bounded to `count` occurrences.
    pub fn count(self, count: u32) -> (r: RRule)
        ensures
            r@ == (RRuleView { count: Some(count), ..self@ }),
    {
        let mut s = self;
        s.count = Some(count);
        s
    }

    /// The same rule, bounded to occurrences not after `until`.
    pub fn until(self, until: DateTime) -> (r: RRule)
        ensures
            r@ == (RRuleView { until: Some(until), ..self@ }),
    {
        let mut s = self;
        s.until = Some(until);
        s
    }

    /// The same rule with weeks that start on `week_start`.
    pub fn week_start(self, week_start: Weekday) -> (r: RRule)
        ensures
            r@ == (RRuleView { week_start, ..self@ }),
    {
        let mut s = self;
        s.week_start = week_start;
        s
    }

    /// The same rule, saying whether the start is handed out first whatever
    /// the pattern.
    pub fn include_dtstart(self, on: bool) -> (r: RRule)
        ensures
            r@ == (RRuleView { include_dtstart: Some(on), ..self@ }),
    {
        let mut s = self;
        s.include_dtstart = Some(on);
        s
    }

    /// The same rule, reading floating times in `zone`.
    pub fn local_tzid(self, zone: Tz) -> (r: RRule)
        ensures
            r@ == (RRuleView { local_tzid: Some(zone), ..self@ }),
    {
        let mut s = self;
        s.local_tzid = Some(zone);
        s
    }

    /// The same rule with the BYSETPOS list `by_set_pos`.
    pub fn by_set_pos(self, by_set_pos: Vec<i32>) -> (r: RRule)
        ensures
            r@ == (RRuleView { by_set_pos: by_set_pos@, ..self@ }),
    {
        let mut s = self;
        s.by_set_pos = by_set_pos;
        s
    }

    /// The same rule with the BYMONTH list `by_month`.
    pub fn by_month(self, by_month: Vec<u8>) -> (r: RRule)
        ensures
            r@ == (RRuleView { by_month: by_month@, ..self@ }),
    {
        let mut s = self;
        s.by_month = by_month;
        s
    }

    /// The same rule with the BYMONTHDAY list `by_month_day`.
    pub fn by_month_day(self, by_month_day: Vec<i8>) -> (r: RRule)
        ensures
            r@ == (RRuleView { by_month_day: by_month_day@, ..self@ }),
    {
        let mut s = self;
        s.by_month_day = by_month_day;
        s
    }

    /// The same rule with the BYYEARDAY list `by_year_day`.
    pub fn by_year_day(self, by_year_day: Vec<i16>) -> (r: RRule)
        ensures
            r@ == (RRuleView { by_year_day: by_year_day@, ..self@ }),
    {
        let mut s = self;
        s.by_year_day = by_year_day;
        s
    }

    /// The same rule with the BYWEEKNO list `by_week_no`.
    pub fn by_week_no(self, by_week_no: Vec<i8>) -> (r: RRule)
        ensures
            r@ == (RRuleView { by_week_no: by_week_no@, ..self@ }),
    {
        let mut s = self;
        s.by_week_no = by_week_no;
        s
    }

    /// The same rule with the BYDAY list `by_weekday`.
    pub fn by_weekday(self, by_weekday: Vec<NWeekday>) -> (r: RRule)
        ensures
            r@ == (RRuleView { by_weekday: by_weekday@, ..self@ }),
    {
        let mut s = self;
        s.by_weekday = by_weekday;
        s
    }

    /// The same rule with the BYHOUR list `by_hour`.
    pub fn by_hour(self, by_hour: Vec<u8>) -> (r: RRule)
        ensures
            r@ == (RRuleView { by_hour: by_hour@, ..self@ }),
    {
        let mut s = self;
        s.by_hour = by_hour;
        s
    }

    /// The same rule with the BYMINUTE list `by_minute`.
    pub fn by_minute(self, by_minute: Vec<u8>) -> (r: RRule)
        ensures
            r@ == (RRuleView { by_minute: by_minute@, ..self@ }),
    {
        let mut s = self;
        s.by_minute = by_minute;
        s
    }

    /// The same rule with the BYSECOND list `by_second`.
    pub fn by_second(self, by_second: Vec<u8>) -> (r: RRule)
        ensures
            r@ == (RRuleView { by_second: by_second@, ..self@ }),
    {
        let mut s = self;
        s.by_second = by_second;
        s
    }

    pub fn get_freq(&self) -> (r: Frequency)
        ensures
            r == self@.freq,
    {
        self.freq
    }

    pub fn get_interval(&self) -> (r: u16)
        ensures
            r == self@.interval,
    {
        self.interval
    }

    pub fn get_week_start(&self) -> (r: Weekday)
        ensures
            r == self@.week_start,
    {
        self.week_start
    }

    pub fn get_count(&self) -> (r: Option<&u32>)
        ensures
            r.is_some() == self@.count.is_some(),
            r matches Some(v) ==> *v == self@.count->0,
    {
        self.count.as_ref()
    }

    pub fn get_until(&self) -> (r: Option<&DateTime>)
        ensures
            r.is_some() == self@.until.is_some(),
            r matches Some(v) ==> *v == self@.until->0,
    {
        self.until.as_ref()
    }

    pub fn get_include_dtstart(&self) -> (r: Option<&bool>)
        ensures
            r.is_some() == self@.include_dtstart.is_some(),
            r matches Some(v) ==> *v == self@.include_dtstart->0,
    {
        self.include_dtstart.as_ref()
    }

    pub fn get_local_tzid(&self) -> (r: Option<&Tz>)
        ensures
            r.is_some() == self@.local_tzid.is_some(),
            r matches Some(v) ==> *v == self@.local_tzid->0,
    {
        self.local_tzid.as_ref()
    }

    pub fn get_by_set_pos(&self) -> (r: &Vec<i32>)
        ensures
            r@ == self@.by_set_pos,
    {
        &self.by_set_pos
    }

    pub fn get_by_month(&self) -> (r: &Vec<u8>)
        ensures
            r@ == self@.by_month,
    {
        &self.by_month
    }

    pub fn get_by_month_day(&self) -> (r: &Vec<i8>)
        ensures
            r@ == self@.by_month_day,
    {
        &self.by_month_day
    }

    pub fn get_by_year_day(&self) -> (r: &Vec<i16>)
        ensures
            r@ == self@.by_year_day,
    {
        &self.by_year_day
    }

    pub fn get_by_week_no(&self) -> (r: &Vec<i8>)
        ensures
            r@ == self@.by_week_no,
    {
        &self.by_week_no
    }

    pub fn get_by_weekday(&self) -> (r: &Vec<NWeekday>)
        ensures
            r@ == self@.by_weekday,
    {
        &self.by_weekday
    }

    pub fn get_by_hour(&self) -> (r: &Vec<u8>)
        ensures
            r@ == self@.by_hour,
    {
        &self.by_hour
    }

    pub fn get_by_minute(&self) -> (r: &Vec<u8>)
        ensures
            r@ == self@.by_minute,
    {
        &self.by_minute
    }

    pub fn get_by_second(&self) -> (r: &Vec<u8>)
        ensures
            r@ == self@.by_second,
    {
        &self.by_second
    }

}

impl Default for RRule {
    /// The yearly rule with every other field at its default.
    fn default() -> (r: RRule)
        ensures
            r@ == plain_rule(Frequency::Yearly),
    {
        RRule::new(Frequency::Yearly)
    }
}

} // verus!
