//! A rule bound to its start: the BY-lists with the defaults that the start
//! implies filled in, and the test whether a day passes them.

use vstd::prelude::*;

use crate::calendar::{
    date_of, days_before_year, days_before_year_of, lemma_day_in_year, max_day, min_day,
    month_len, month_length, weekday_at, weekday_index, weekday_of_day, year_len, year_length,
    Date,
};
use crate::datetime::DateTime;
use crate::kinds::{Frequency, NWeekday, Weekday};
use crate::lists::{contains_value, has, passes, passes_list, widen_i16, widen_i32, widen_i8, widen_u8};
use crate::rule::{RRule, RRuleView};

verus! {

/// A rule bound to its start, as a plain value. An empty list filters
/// nothing.
pub ghost struct PlanView {
    pub freq: Frequency,
    pub interval: int,
    pub week_start: Weekday,
    pub months: Seq<i64>,
    pub month_days: Seq<i64>,
    pub year_days: Seq<i64>,
    pub week_nos: Seq<i64>,
    pub weekdays: Seq<NWeekday>,
    pub hours: Seq<i64>,
    pub minutes: Seq<i64>,
    pub seconds: Seq<i64>,
    pub set_pos: Seq<i64>,
    pub anchor: DateTime,
    pub until: Option<i64>,
}

/// Whether the rule selects days by a rule of its own.
pub open spec fn has_day_rule(d: RRuleView) -> bool {
    d.by_week_no.len() > 0 || d.by_year_day.len() > 0 || d.by_month_day.len() > 0
        || d.by_weekday.len() > 0
}

/// The weekday of the day numbered `n`.
pub open spec fn weekday_on(n: int) -> Weekday {
    weekday_at(weekday_index(n))
}

/// The rule `d` bound to the start `a`. Where the rule selects no day
/// itself, the start implies the day: its month and day of month for a
/// yearly rule (the month only where BYMONTH is absent), its day of month
/// for a monthly rule, its weekday for a weekly one. Where the rule is
/// coarser than a unit of time and has no list for it, the start implies
/// the hour, the minute and the second.
pub open spec fn plan_of(d: RRuleView, a: DateTime) -> PlanView {
    PlanView {
        freq: d.freq,
        interval: d.interval as int,
        week_start: d.week_start,
        months: if d.by_month.len() == 0 && d.freq == Frequency::Yearly && !has_day_rule(d) {
            seq![a.date.month as i64]
        } else {
            d.by_month.map_values(|x: u8| x as i64)
        },
        month_days: if !has_day_rule(d) && (d.freq == Frequency::Yearly || d.freq
            == Frequency::Monthly) {
            seq![a.date.day as i64]
        } else {
            d.by_month_day.map_values(|x: i8| x as i64)
        },
        year_days: d.by_year_day.map_values(|x: i16| x as i64),
        week_nos: d.by_week_no.map_values(|x: i8| x as i64),
        weekdays: if !has_day_rule(d) && d.freq == Frequency::Weekly {
            seq![NWeekday::Every(weekday_on(a.date.number()))]
        } else {
            d.by_weekday
        },
        hours: if d.by_hour.len() == 0 && d.freq.rank() < 4 {
            seq![a.time.hour as i64]
        } else {
            d.by_hour.map_values(|x: u8| x as i64)
        },
        minutes: if d.by_minute.len() == 0 && d.freq.rank() < 5 {
            seq![a.time.minute as i64]
        } else {
            d.by_minute.map_values(|x: u8| x as i64)
        },
        seconds: if d.by_second.len() == 0 && d.freq.rank() < 6 {
            seq![a.time.second as i64]
        } else {
            d.by_second.map_values(|x: u8| x as i64)
        },
        set_pos: d.by_set_pos.map_values(|x: i32| x as i64),
        anchor: a,
        until: match d.until {
            Some(t) => Some(t.timestamp),
            None => None,
        },
    }
}

/// The first day of the week that holds day `n`, where weeks start on the
/// weekday that is `ws` days after Monday.
pub open spec fn week_start_day(n: int, ws: int) -> int {
    n - ((weekday_index(n) - ws + 7) % 7)
}

/// The first day of week one of year `y`: the week that holds January 4th,
/// which is the first week with four or more of its days in the year.
pub open spec fn week_one(y: int, ws: int) -> int {
    week_start_day(days_before_year(y) + 4, ws)
}

/// The year whose numbered weeks hold day `n` of calendar year `y`.
pub open spec fn week_year(n: int, y: int, ws: int) -> int {
    if n < week_one(y, ws) {
        y - 1
    } else if n >= week_one(y + 1, ws) {
        y + 1
    } else {
        y
    }
}

/// The number of the week that holds day `n` of calendar year `y`, from 1.
pub open spec fn week_no(n: int, y: int, ws: int) -> int {
    (n - week_one(week_year(n, y, ws), ws)) / 7 + 1
}

/// The number of weeks of the week year `wy`.
pub open spec fn weeks_in(wy: int, ws: int) -> int {
    (week_one(wy + 1, ws) - week_one(wy, ws)) / 7
}

/// Whether the week of day `n` is one that BYWEEKNO lists, counted from the
/// first week of its week year or, with a negative number, from the last.
pub open spec fn week_no_ok(p: PlanView, n: int, y: int) -> bool {
    let ws = p.week_start.index();
    let w = week_no(n, y, ws);
    p.week_nos.len() == 0 || has(p.week_nos, w) || has(
        p.week_nos,
        w - weeks_in(week_year(n, y, ws), ws) - 1,
    )
}

/// Whether day `n` is the `k`-th of its weekday within the days `first ..
/// first + len`: from the start for a positive `k`, from the end for a
/// negative one.
pub open spec fn nth_ok(k: int, n: int, first: int, len: int) -> bool {
    (k > 0 && (n - first) / 7 + 1 == k) || (k < 0 && (first + len - 1 - n) / 7 + 1 == -k)
}

/// Whether ordinals of BYDAY count within the month (a monthly rule, or a
/// yearly one with BYMONTH) and not within the year.
pub open spec fn ordinal_in_month(p: PlanView) -> bool {
    p.freq == Frequency::Monthly || (p.freq == Frequency::Yearly && p.months.len() > 0)
}

/// Whether day `n`, which is the date `c`, is one that the BYDAY entry `e`
/// names.
pub open spec fn entry_ok(p: PlanView, e: NWeekday, n: int, c: Date) -> bool {
    let y = c.year as int;
    e.day() == weekday_on(n) && match e {
        NWeekday::Every(_) => true,
        NWeekday::Nth(k, _) => if ordinal_in_month(p) {
            nth_ok(k as int, n, n - c.day + 1, month_len(y, c.month as int))
        } else {
            nth_ok(k as int, n, days_before_year(y) + 1, year_len(y))
        },
    }
}

pub open spec fn weekdays_ok(p: PlanView, n: int, c: Date) -> bool {
    p.weekdays.len() == 0 || exists|i: int|
        0 <= i < p.weekdays.len() && entry_ok(p, #[trigger] p.weekdays[i], n, c)
}

/// Whether the day of the year is one that BYYEARDAY lists, counted from the
/// first day of the year or, with a negative number, from the last.
pub open spec fn year_day_ok(p: PlanView, n: int, y: int) -> bool {
    let yd = n - days_before_year(y);
    p.year_days.len() == 0 || has(p.year_days, yd) || has(p.year_days, yd - year_len(y) - 1)
}

/// Whether the day of the month is one that BYMONTHDAY lists, counted from
/// the first day of the month or, with a negative number, from the last.
pub open spec fn month_day_ok(p: PlanView, c: Date) -> bool {
    p.month_days.len() == 0 || has(p.month_days, c.day as int) || has(
        p.month_days,
        c.day - month_len(c.year as int, c.month as int) - 1,
    )
}

/// Whether the day numbered `n` passes every day filter of the plan.
pub open spec fn day_ok(p: PlanView, n: int) -> bool {
    let c = date_of(n);
    &&& passes(p.months, c.month as int)
    &&& week_no_ok(p, n, c.year as int)
    &&& year_day_ok(p, n, c.year as int)
    &&& month_day_ok(p, c)
    &&& weekdays_ok(p, n, c)
}

/// A rule bound to its start.
pub struct Plan {
    pub freq: Frequency,
    pub interval: u16,
    pub week_start: Weekday,
    pub months: Vec<i64>,
    pub month_days: Vec<i64>,
    pub year_days: Vec<i64>,
    pub week_nos: Vec<i64>,
    pub weekdays: Vec<NWeekday>,
    pub hours: Vec<i64>,
    pub minutes: Vec<i64>,
    pub seconds: Vec<i64>,
    pub set_pos: Vec<i64>,
    pub anchor: DateTime,
    pub until: Option<i64>,
}

impl View for Plan {
    type V = PlanView;

    open spec fn view(&self) -> PlanView {
        PlanView {
            freq: self.freq,
            interval: self.interval as int,
            week_start: self.week_start,
            months: self.months@,
            month_days: self.month_days@,
            year_days: self.year_days@,
            week_nos: self.week_nos@,
            weekdays: self.weekdays@,
            hours: self.hours@,
            minutes: self.minutes@,
            seconds: self.seconds@,
            set_pos: self.set_pos@,
            anchor: self.anchor,
            until: self.until,
        }
    }
}

fn one(v: i64) -> (r: Vec<i64>)
    ensures
        r@ == seq![v],
{
    let mut out: Vec<i64> = Vec::new();
    out.push(v);
    assert(out@ =~= seq![v]);
    out
}

fn copy_weekdays(l: &Vec<NWeekday>) -> (r: Vec<NWeekday>)
    ensures
        r@ == l@,
{
    let mut out: Vec<NWeekday> = Vec::new();
    let mut i: usize = 0;
    while i < l.len()
        invariant
            i <= l.len(),
            out@ == l@.take(i as int),
        decreases l.len() - i,
    {
        out.push(l[i]);
        proof {
            assert(out@ =~= l@.take(i + 1));
        }
        i += 1;
    }
    proof {
        assert(l@.take(i as int) =~= l@);
    }
    out
}

impl Plan {
    /// Binds `rule` to the start `anchor`.
    pub fn build(rule: &RRule, anchor: DateTime) -> (r: Plan)
        requires
            anchor.valid(),
        ensures
            r@ == plan_of(rule@, anchor),
    {
        let freq = rule.freq;
        let rank = freq.rank_of();
        let day_rule = rule.by_week_no.len() > 0 || rule.by_year_day.len() > 0
            || rule.by_month_day.len() > 0 || rule.by_weekday.len() > 0;
        let months = if rule.by_month.len() == 0 && freq == Frequency::Yearly && !day_rule {
            one(anchor.date.month as i64)
        } else {
            widen_u8(&rule.by_month)
        };
        let month_days = if !day_rule && (freq == Frequency::Yearly || freq == Frequency::Monthly) {
            one(anchor.date.day as i64)
        } else {
            widen_i8(&rule.by_month_day)
        };
        let weekdays = if !day_rule && freq == Frequency::Weekly {
            let mut v: Vec<NWeekday> = Vec::new();
            v.push(NWeekday::Every(weekday_of_day(anchor.date.day_number())));
            assert(v@ =~= seq![NWeekday::Every(weekday_on(anchor.date.number()))]);
            v
        } else {
            copy_weekdays(&rule.by_weekday)
        };
        let hours = if rule.by_hour.len() == 0 && rank < 4 {
            one(anchor.time.hour as i64)
        } else {
            widen_u8(&rule.by_hour)
        };
        let minutes = if rule.by_minute.len() == 0 && rank < 5 {
            one(anchor.time.minute as i64)
        } else {
            widen_u8(&rule.by_minute)
        };
        let seconds = if rule.by_second.len() == 0 && rank < 6 {
            one(anchor.time.second as i64)
        } else {
            widen_u8(&rule.by_second)
        };
        Plan {
            freq,
            interval: rule.interval,
            week_start: rule.week_start,
            months,
            month_days,
            year_days: widen_i16(&rule.by_year_day),
            week_nos: widen_i8(&rule.by_week_no),
            weekdays,
            hours,
            minutes,
            seconds,
            set_pos: widen_i32(&rule.by_set_pos),
            anchor,
            until: match rule.until {
                Some(t) => Some(t.timestamp),
                None => None,
            },
        }
    }
}

pub proof fn lemma_weekday_index_range(n: int)
    ensures
        0 <= weekday_index(n) < 7,
        weekday_on(n).index() == weekday_index(n),
{
}

/// The first day of the week that holds day `n`.
pub fn week_start_of(n: i64, ws: u8) -> (r: i64)
    requires
        -50_000_000 <= n <= 50_000_000,
        ws < 7,
    ensures
        r == week_start_day(n as int, ws as int),
        n - 6 <= r <= n,
{
    proof {
        lemma_weekday_index_range(n as int);
    }
    let wd = weekday_of_day(n).num_days_from_monday();
    n - (((wd as i64) - (ws as i64) + 7) % 7)
}

/// The first day of week one of year `y`.
pub fn week_one_of(y: i32, ws: u8) -> (r: i64)
    requires
        -10 <= y <= 10010,
        ws < 7,
    ensures
        r == week_one(y as int, ws as int),
        days_before_year(y as int) - 2 <= r <= days_before_year(y as int) + 4,
        -40_000_010 <= r <= 40_000_010,
{
    week_start_of(days_before_year_of(y) + 4, ws)
}

/// The number of the week that holds day `n` of calendar year `y`, and the
/// number of weeks of that week's year.
pub fn week_number(n: i64, y: i32, ws: u8) -> (r: (i64, i64))
    requires
        0 <= y <= 9999,
        ws < 7,
        days_before_year(y as int) < n <= days_before_year(y as int) + year_len(y as int),
    ensures
        r.0 == week_no(n as int, y as int, ws as int),
        r.1 == weeks_in(week_year(n as int, y as int, ws as int), ws as int),
        -100 <= r.0 <= 100,
        -100 <= r.1 <= 100,
{
    let this = week_one_of(y, ws);
    let next = week_one_of(y + 1, ws);
    let wy: i32 = if n < this {
        y - 1
    } else if n >= next {
        y + 1
    } else {
        y
    };
    let first = week_one_of(wy, ws);
    let after = week_one_of(wy + 1, ws);
    proof {
        crate::calendar::lemma_next_year(wy as int);
        crate::calendar::lemma_next_year(y as int);
        crate::calendar::lemma_next_year(y as int - 1);
        crate::calendar::lemma_next_year(y as int + 1);
    }
    ((n - first) / 7 + 1, (after - first) / 7)
}

impl Plan {
    /// Whether the week of day `n` of calendar year `y` passes BYWEEKNO.
    fn week_no_passes(&self, n: i64, y: i32) -> (r: bool)
        requires
            0 <= y <= 9999,
            days_before_year(y as int) < n <= days_before_year(y as int) + year_len(y as int),
        ensures
            r == week_no_ok(self@, n as int, y as int),
    {
        if self.week_nos.len() == 0 {
            return true;
        }
        let ws = self.week_start.num_days_from_monday();
        let (w, weeks) = week_number(n, y, ws);
        contains_value(&self.week_nos, w) || contains_value(&self.week_nos, w - weeks - 1)
    }

    /// Whether day `n`, which is the date `c`, is one that the BYDAY entry
    /// `e` names.
    fn entry_passes(&self, e: NWeekday, n: i64, c: Date) -> (r: bool)
        requires
            min_day() <= n <= max_day(),
            c.valid(),
            c.number() == n,
        ensures
            r == entry_ok(self@, e, n as int, c),
    {
        let wd = weekday_of_day(n);
        match e {
            NWeekday::Every(w) => w == wd,
            NWeekday::Nth(k, w) => {
                if w != wd {
                    return false;
                }
                let in_month = self.freq == Frequency::Monthly || (self.freq == Frequency::Yearly
                    && self.months.len() > 0);
                proof {
                    lemma_day_in_year(c.year as int, c.month as int, c.day as int);
                }
                let (first, len): (i64, i64) = if in_month {
                    (n - (c.day as i64) + 1, month_length(c.year, c.month) as i64)
                } else {
                    (days_before_year_of(c.year) + 1, year_length(c.year) as i64)
                };
                let k = k as i64;
                (k > 0 && (n - first) / 7 + 1 == k) || (k < 0 && (first + len - 1 - n) / 7 + 1
                    == -k)
            },
        }
    }

    fn weekdays_pass(&self, n: i64, c: Date) -> (r: bool)
        requires
            min_day() <= n <= max_day(),
            c.valid(),
            c.number() == n,
        ensures
            r == weekdays_ok(self@, n as int, c),
    {
        if self.weekdays.len() == 0 {
            return true;
        }
        let mut i: usize = 0;
        while i < self.weekdays.len()
            invariant
                i <= self.weekdays.len(),
                min_day() <= n <= max_day(),
                c.valid(),
                c.number() == n,
                forall|j: int| 0 <= j < i ==> !entry_ok(self@, #[trigger] self.weekdays@[j], n as int, c),
            decreases self.weekdays.len() - i,
        {
            if self.entry_passes(self.weekdays[i], n, c) {
                return true;
            }
            i += 1;
        }
        false
    }

    /// Whether the day numbered `n`, which is the date `c`, passes every
    /// day filter.
    pub fn day_passes(&self, n: i64, c: Date) -> (r: bool)
        requires
            min_day() <= n <= max_day(),
            c.valid(),
            c == date_of(n as int),
            c.number() == n,
        ensures
            r == day_ok(self@, n as int),
    {
        proof {
            lemma_day_in_year(c.year as int, c.month as int, c.day as int);
            crate::calendar::lemma_day_range(c);
        }
        if !passes_list(&self.months, c.month as i64) {
            return false;
        }
        if !self.week_no_passes(n, c.year) {
            return false;
        }
        if self.year_days.len() > 0 {
            let yd = n - days_before_year_of(c.year);
            let len = year_length(c.year) as i64;
            if !(contains_value(&self.year_days, yd) || contains_value(
                &self.year_days,
                yd - len - 1,
            )) {
                return false;
            }
        }
        if self.month_days.len() > 0 {
            let md = c.day as i64;
            let len = month_length(c.year, c.month) as i64;
            if !(contains_value(&self.month_days, md) || contains_value(
                &self.month_days,
                md - len - 1,
            )) {
                return false;
            }
        }
        self.weekdays_pass(n, c)
    }
}

} // verus!
