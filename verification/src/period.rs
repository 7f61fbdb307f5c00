//! The periods that a rule steps through, and the wall-clock candidates of
//! one period.

use vstd::prelude::*;

use crate::calendar::{
    date_of_day, day_number, days_before_year, days_before_year_of, lemma_day_range,
    lemma_next_year, lemma_year_bounds, lemma_years_ordered, max_day, min_day, month_len,
    month_length, year_len, year_length, Date,
};
use crate::kinds::Frequency;
use crate::lists::{distinct_sorted, has, passes, passes_list, values_in};
use crate::plan::{day_ok, week_start_day, week_start_of, Plan, PlanView};

verus! {

/// The largest number of frequency units from the start at which a period
/// is still looked at.
pub const MAX_OFFSET: i64 = 400_000_000_000;

/// One step of a rule: a run of days, and the seconds of the day that
/// belong to it on each of them.
#[derive(Debug, Clone, Copy, PartialEq, Eq, Structural)]
pub struct Period {
    pub day: i64,
    pub day_count: i64,
    pub sec: i64,
    pub sec_count: i64,
}

/// A wall-clock time: a day by its number, and a second of that day.
#[derive(Debug, Clone, Copy, PartialEq, Eq, Structural)]
pub struct Slot {
    pub day: i64,
    pub sec: i64,
}

/// A period of whole days.
pub open spec fn days_period(day: int, day_count: int) -> Period {
    Period { day: day as i64, day_count: day_count as i64, sec: 0, sec_count: 86400 }
}

/// The period that lies `off` units of the rule's frequency after the one
/// that holds the start: a calendar year, a calendar month, a week from the
/// rule's week start, a day, an hour, a minute or a second. None once the
/// period begins after the year 9999.
#[verifier::opaque]
pub open spec fn period_at(p: PlanView, off: int) -> Option<Period> {
    let a = p.anchor;
    let ad = a.date.number();
    match p.freq {
        Frequency::Yearly => {
            let y = a.date.year + off;
            if y > 9999 {
                None
            } else {
                Some(days_period(days_before_year(y) + 1, year_len(y)))
            }
        },
        Frequency::Monthly => {
            let mi = a.date.month - 1 + off;
            let y = a.date.year + mi / 12;
            let m = mi % 12 + 1;
            if y > 9999 {
                None
            } else {
                Some(days_period(day_number(y, m, 1), month_len(y, m)))
            }
        },
        Frequency::Weekly => {
            let first = week_start_day(ad, p.week_start.index()) + 7 * off;
            if first > max_day() {
                None
            } else {
                Some(days_period(first, 7))
            }
        },
        Frequency::Daily => {
            if ad + off > max_day() {
                None
            } else {
                Some(days_period(ad + off, 1))
            }
        },
        Frequency::Hourly => {
            let h = a.time.hour + off;
            if ad + h / 24 > max_day() {
                None
            } else {
                Some(
                    Period {
                        day: (ad + h / 24) as i64,
                        day_count: 1,
                        sec: ((h % 24) * 3600) as i64,
                        sec_count: 3600,
                    },
                )
            }
        },
        Frequency::Minutely => {
            let m = a.time.hour * 60 + a.time.minute + off;
            if ad + m / 1440 > max_day() {
                None
            } else {
                Some(
                    Period {
                        day: (ad + m / 1440) as i64,
                        day_count: 1,
                        sec: ((m % 1440) * 60) as i64,
                        sec_count: 60,
                    },
                )
            }
        },
        Frequency::Secondly => {
            let s = a.time.seconds() + off;
            if ad + s / 86400 > max_day() {
                None
            } else {
                Some(
                    Period {
                        day: (ad + s / 86400) as i64,
                        day_count: 1,
                        sec: (s % 86400) as i64,
                        sec_count: 1,
                    },
                )
            }
        },
    }
}

/// What every period of a valid start satisfies.
pub open spec fn period_wf(per: Period) -> bool {
    &&& min_day() - 6 <= per.day <= max_day()
    &&& 1 <= per.day_count <= 366
    &&& 0 <= per.sec < 86400
    &&& 1 <= per.sec_count
    &&& per.sec + per.sec_count <= 86400
}

impl Plan {
    /// The period that lies `off` units after the one that holds the start.
    pub fn period(&self, off: i64) -> (r: Option<Period>)
        requires
            self.anchor.valid(),
            0 <= off <= MAX_OFFSET,
        ensures
            r == period_at(self@, off as int),
            r matches Some(per) ==> period_wf(per),
    {
        reveal(period_at);
        let a = self.anchor;
        let ad = a.date.day_number();
        proof {
            lemma_day_range(a.date);
            lemma_year_bounds();
        }
        match self.freq {
            Frequency::Yearly => {
                let y = (a.date.year as i64) + off;
                if y > 9999 {
                    None
                } else {
                    let y = y as i32;
                    proof {
                        lemma_years_ordered(0, y as int);
                        lemma_years_ordered(y as int, 9999);
                        lemma_next_year(9999);
                    }
                    Some(
                        Period {
                            day: days_before_year_of(y) + 1,
                            day_count: year_length(y) as i64,
                            sec: 0,
                            sec_count: 86400,
                        },
                    )
                }
            },
            Frequency::Monthly => {
                let mi = (a.date.month as i64) - 1 + off;
                let y = (a.date.year as i64) + mi / 12;
                let m = mi % 12 + 1;
                if y > 9999 {
                    None
                } else {
                    let date = Date { year: y as i32, month: m as u8, day: 1 };
                    proof {
                        lemma_day_range(date);
                    }
                    Some(
                        Period {
                            day: date.day_number(),
                            day_count: month_length(y as i32, m as u8) as i64,
                            sec: 0,
                            sec_count: 86400,
                        },
                    )
                }
            },
            Frequency::Weekly => {
                let first = week_start_of(ad, self.week_start.num_days_from_monday()) + 7 * off;
                if first > 3652059 {
                    None
                } else {
                    Some(Period { day: first, day_count: 7, sec: 0, sec_count: 86400 })
                }
            },
            Frequency::Daily => {
                if ad + off > 3652059 {
                    None
                } else {
                    Some(Period { day: ad + off, day_count: 1, sec: 0, sec_count: 86400 })
                }
            },
            Frequency::Hourly => {
                let h = (a.time.hour as i64) + off;
                if ad + h / 24 > 3652059 {
                    None
                } else {
                    Some(
                        Period { day: ad + h / 24, day_count: 1, sec: (h % 24) * 3600, sec_count: 3600 },
                    )
                }
            },
            Frequency::Minutely => {
                let m = (a.time.hour as i64) * 60 + (a.time.minute as i64) + off;
                if ad + m / 1440 > 3652059 {
                    None
                } else {
                    Some(
                        Period { day: ad + m / 1440, day_count: 1, sec: (m % 1440) * 60, sec_count: 60 },
                    )
                }
            },
            Frequency::Secondly => {
                let s = (a.time.second_of_day() as i64) + off;
                if ad + s / 86400 > 3652059 {
                    None
                } else {
                    Some(Period { day: ad + s / 86400, day_count: 1, sec: s % 86400, sec_count: 1 })
                }
            },
        }
    }
}

/// The number of periods of an hourly or finer rule that make a day.
pub open spec fn units_in_day(freq: Frequency) -> int {
    match freq {
        Frequency::Hourly => 24,
        Frequency::Minutely => 1440,
        Frequency::Secondly => 86400,
        _ => 1,
    }
}

/// The number of seconds in a period of an hourly or finer rule.
pub open spec fn unit_seconds(freq: Frequency) -> int {
    match freq {
        Frequency::Hourly => 3600,
        Frequency::Minutely => 60,
        _ => 1,
    }
}

/// Whether the day on which a period begins gives no candidate: it lies
/// outside the handled years or fails a day filter.
pub open spec fn day_fails(p: PlanView, per: Period) -> bool {
    !(min_day() <= per.day <= max_day() && day_ok(p, per.day as int))
}

/// The number of units from one period to the next: the interval of the
/// rule. From a period of an hourly or finer rule that lies on a day without
/// candidates, it is as many whole intervals as it takes to leave that day.
pub open spec fn stride_at(p: PlanView, per: Period) -> int {
    if p.freq.rank() >= 4 && day_fails(p, per) {
        let left = units_in_day(p.freq) - per.sec as int / unit_seconds(p.freq);
        let extra = (left - 1) - (left - 1) % p.interval;
        if extra >= 0 {
            p.interval + extra
        } else {
            p.interval
        }
    } else {
        p.interval
    }
}

/// The days of `lo..hi` that lie within the handled years and pass the
/// plan's day filters, in ascending order.
pub open spec fn matching_days(p: PlanView, lo: int, hi: int) -> Seq<i64>
    decreases hi - lo,
{
    if hi <= lo {
        Seq::empty()
    } else if min_day() <= hi - 1 <= max_day() && day_ok(p, hi - 1) {
        matching_days(p, lo, hi - 1).push((hi - 1) as i64)
    } else {
        matching_days(p, lo, hi - 1)
    }
}

/// The hours of a period's times: the period's own hour, where the rule is
/// hourly or finer and the hour passes BYHOUR; else the hours of the plan,
/// ascending.
pub open spec fn hours_of(p: PlanView, per: Period) -> Seq<i64> {
    if p.freq.rank() >= 4 {
        if passes(p.hours, per.sec / 3600) {
            seq![(per.sec / 3600) as i64]
        } else {
            Seq::empty()
        }
    } else {
        values_in(p.hours, 0, 24)
    }
}

/// The minutes of a period's times, in the same way.
pub open spec fn minutes_of(p: PlanView, per: Period) -> Seq<i64> {
    if p.freq.rank() >= 5 {
        if passes(p.minutes, (per.sec / 60) % 60) {
            seq![((per.sec / 60) % 60) as i64]
        } else {
            Seq::empty()
        }
    } else {
        values_in(p.minutes, 0, 60)
    }
}

/// The seconds of a period's times, in the same way.
pub open spec fn seconds_of(p: PlanView, per: Period) -> Seq<i64> {
    if p.freq.rank() >= 6 {
        if passes(p.seconds, per.sec as int % 60) {
            seq![(per.sec as int % 60) as i64]
        } else {
            Seq::empty()
        }
    } else {
        values_in(p.seconds, 0, 60)
    }
}

/// `base` plus each of `ss`, in order.
pub open spec fn with_seconds(base: int, ss: Seq<i64>) -> Seq<i64>
    decreases ss.len(),
{
    if ss.len() == 0 {
        Seq::empty()
    } else {
        with_seconds(base, ss.drop_last()).push((base + ss.last()) as i64)
    }
}

/// For each minute of `ms` in order, each second of `ss` in order, as
/// seconds from `base`.
pub open spec fn with_minutes(base: int, ms: Seq<i64>, ss: Seq<i64>) -> Seq<i64>
    decreases ms.len(),
{
    if ms.len() == 0 {
        Seq::empty()
    } else {
        with_minutes(base, ms.drop_last(), ss) + with_seconds(base + ms.last() * 60, ss)
    }
}

/// Every time of day made of an hour of `hs`, a minute of `ms` and a second
/// of `ss`, as seconds since midnight: hours in order, within an hour the
/// minutes in order, within a minute the seconds in order.
pub open spec fn times_of(hs: Seq<i64>, ms: Seq<i64>, ss: Seq<i64>) -> Seq<i64>
    decreases hs.len(),
{
    if hs.len() == 0 {
        Seq::empty()
    } else {
        times_of(hs.drop_last(), ms, ss) + with_minutes(hs.last() * 3600, ms, ss)
    }
}

/// Each of `times` on `day`, in order.
pub open spec fn on_day(day: i64, times: Seq<i64>) -> Seq<Slot>
    decreases times.len(),
{
    if times.len() == 0 {
        Seq::empty()
    } else {
        on_day(day, times.drop_last()).push(Slot { day, sec: times.last() })
    }
}

/// For each day of `days` in order, each time of `times` in order.
pub open spec fn slots_of(days: Seq<i64>, times: Seq<i64>) -> Seq<Slot>
    decreases days.len(),
{
    if days.len() == 0 {
        Seq::empty()
    } else {
        slots_of(days.drop_last(), times) + on_day(days.last(), times)
    }
}

/// Whether BYSETPOS keeps the candidate at place `i` (from 0) of `len`
/// candidates: a positive number counts places from the first, which is 1; a
/// negative one from the last, which is -1.
pub open spec fn pos_ok(sp: Seq<i64>, i: int, len: int) -> bool {
    has(sp, i + 1) || has(sp, i - len)
}

/// Those of the first `k` candidates that BYSETPOS keeps, in order.
pub open spec fn picked(slots: Seq<Slot>, sp: Seq<i64>, k: int) -> Seq<Slot>
    decreases k,
{
    if k <= 0 {
        Seq::empty()
    } else if pos_ok(sp, k - 1, slots.len() as int) {
        picked(slots, sp, k - 1).push(slots[k - 1])
    } else {
        picked(slots, sp, k - 1)
    }
}

/// The candidates that BYSETPOS keeps; all of them where it is absent.
pub open spec fn selected(slots: Seq<Slot>, sp: Seq<i64>) -> Seq<Slot> {
    if sp.len() == 0 {
        slots
    } else {
        picked(slots, sp, slots.len() as int)
    }
}

/// The wall-clock candidates of a period: every day of the period that
/// passes the day filters, at every time of the period, in ascending order;
/// of these, the ones that BYSETPOS keeps.
pub open spec fn candidates(p: PlanView, per: Period) -> Seq<Slot> {
    selected(
        slots_of(
            matching_days(p, per.day as int, per.day + per.day_count),
            times_of(hours_of(p, per), minutes_of(p, per), seconds_of(p, per)),
        ),
        p.set_pos,
    )
}

pub open spec fn slot_wf(s: Slot) -> bool {
    min_day() <= s.day <= max_day() && 0 <= s.sec < 86400
}

pub open spec fn all_within(l: Seq<i64>, lo: int, hi: int) -> bool {
    forall|i: int| 0 <= i < l.len() ==> lo <= #[trigger] l[i] < hi
}

pub open spec fn slots_wf(l: Seq<Slot>) -> bool {
    forall|i: int| 0 <= i < l.len() ==> slot_wf(#[trigger] l[i])
}

fn push_seconds(out: &mut Vec<i64>, base: i64, ss: &Vec<i64>)
    requires
        0 <= base <= 86400 - 60,
        all_within(ss@, 0, 60),
        all_within(old(out)@, 0, 86400),
    ensures
        final(out)@ == old(out)@ + with_seconds(base as int, ss@),
        all_within(final(out)@, 0, 86400),
{
    let mut i: usize = 0;
    proof {
        assert(ss@.take(0) =~= Seq::<i64>::empty());
        assert(out@ =~= old(out)@ + with_seconds(base as int, ss@.take(0)));
    }
    while i < ss.len()
        invariant
            i <= ss.len(),
            0 <= base <= 86400 - 60,
            all_within(ss@, 0, 60),
            out@ == old(out)@ + with_seconds(base as int, ss@.take(i as int)),
            all_within(out@, 0, 86400),
        decreases ss.len() - i,
    {
        out.push(base + ss[i]);
        proof {
            assert(ss@.take(i + 1).drop_last() =~= ss@.take(i as int));
            assert(out@ =~= old(out)@ + with_seconds(base as int, ss@.take(i + 1)));
        }
        i += 1;
    }
    proof {
        assert(ss@.take(i as int) =~= ss@);
    }
}

fn push_minutes(out: &mut Vec<i64>, base: i64, ms: &Vec<i64>, ss: &Vec<i64>)
    requires
        0 <= base <= 86400 - 3600,
        all_within(ms@, 0, 60),
        all_within(ss@, 0, 60),
        all_within(old(out)@, 0, 86400),
    ensures
        final(out)@ == old(out)@ + with_minutes(base as int, ms@, ss@),
        all_within(final(out)@, 0, 86400),
{
    let mut i: usize = 0;
    proof {
        assert(ms@.take(0) =~= Seq::<i64>::empty());
        assert(out@ =~= old(out)@ + with_minutes(base as int, ms@.take(0), ss@));
    }
    while i < ms.len()
        invariant
            i <= ms.len(),
            0 <= base <= 86400 - 3600,
            all_within(ms@, 0, 60),
            all_within(ss@, 0, 60),
            out@ == old(out)@ + with_minutes(base as int, ms@.take(i as int), ss@),
            all_within(out@, 0, 86400),
        decreases ms.len() - i,
    {
        push_seconds(out, base + ms[i] * 60, ss);
        proof {
            assert(ms@.take(i + 1).drop_last() =~= ms@.take(i as int));
            assert(out@ =~= old(out)@ + with_minutes(base as int, ms@.take(i + 1), ss@));
        }
        i += 1;
    }
    proof {
        assert(ms@.take(i as int) =~= ms@);
    }
}

/// Every time of day made of an hour of `hs`, a minute of `ms` and a second
/// of `ss`.
pub fn build_times(hs: &Vec<i64>, ms: &Vec<i64>, ss: &Vec<i64>) -> (r: Vec<i64>)
    requires
        all_within(hs@, 0, 24),
        all_within(ms@, 0, 60),
        all_within(ss@, 0, 60),
    ensures
        r@ == times_of(hs@, ms@, ss@),
        all_within(r@, 0, 86400),
{
    let mut out: Vec<i64> = Vec::new();
    let mut i: usize = 0;
    proof {
        assert(hs@.take(0) =~= Seq::<i64>::empty());
    }
    while i < hs.len()
        invariant
            i <= hs.len(),
            all_within(hs@, 0, 24),
            all_within(ms@, 0, 60),
            all_within(ss@, 0, 60),
            out@ == times_of(hs@.take(i as int), ms@, ss@),
            all_within(out@, 0, 86400),
        decreases hs.len() - i,
    {
        push_minutes(&mut out, hs[i] * 3600, ms, ss);
        proof {
            assert(hs@.take(i + 1).drop_last() =~= hs@.take(i as int));
        }
        i += 1;
    }
    proof {
        assert(hs@.take(i as int) =~= hs@);
    }
    out
}

fn push_day(out: &mut Vec<Slot>, day: i64, times: &Vec<i64>)
    requires
        min_day() <= day <= max_day(),
        all_within(times@, 0, 86400),
        slots_wf(old(out)@),
    ensures
        final(out)@ == old(out)@ + on_day(day, times@),
        slots_wf(final(out)@),
{
    let mut i: usize = 0;
    proof {
        assert(times@.take(0) =~= Seq::<i64>::empty());
        assert(out@ =~= old(out)@ + on_day(day, times@.take(0)));
    }
    while i < times.len()
        invariant
            i <= times.len(),
            min_day() <= day <= max_day(),
            all_within(times@, 0, 86400),
            out@ == old(out)@ + on_day(day, times@.take(i as int)),
            slots_wf(out@),
        decreases times.len() - i,
    {
        out.push(Slot { day, sec: times[i] });
        proof {
            assert(times@.take(i + 1).drop_last() =~= times@.take(i as int));
            assert(out@ =~= old(out)@ + on_day(day, times@.take(i + 1)));
        }
        i += 1;
    }
    proof {
        assert(times@.take(i as int) =~= times@);
    }
}

/// For each day of `days` in order, each time of `times` in order.
pub fn build_slots(days: &Vec<i64>, times: &Vec<i64>) -> (r: Vec<Slot>)
    requires
        all_within(days@, min_day(), max_day() + 1),
        all_within(times@, 0, 86400),
    ensures
        r@ == slots_of(days@, times@),
        slots_wf(r@),
{
    let mut out: Vec<Slot> = Vec::new();
    let mut i: usize = 0;
    proof {
        assert(days@.take(0) =~= Seq::<i64>::empty());
    }
    while i < days.len()
        invariant
            i <= days.len(),
            all_within(days@, min_day(), max_day() + 1),
            all_within(times@, 0, 86400),
            out@ == slots_of(days@.take(i as int), times@),
            slots_wf(out@),
        decreases days.len() - i,
    {
        push_day(&mut out, days[i], times);
        proof {
            assert(days@.take(i + 1).drop_last() =~= days@.take(i as int));
        }
        i += 1;
    }
    proof {
        assert(days@.take(i as int) =~= days@);
    }
    out
}

/// The candidates that BYSETPOS keeps.
pub fn select(slots: Vec<Slot>, sp: &Vec<i64>) -> (r: Vec<Slot>)
    requires
        slots_wf(slots@),
    ensures
        r@ == selected(slots@, sp@),
        slots_wf(r@),
{
    if sp.len() == 0 {
        return slots;
    }
    let n = slots.len();
    let mut out: Vec<Slot> = Vec::new();
    let mut i: usize = 0;
    while i < n
        invariant
            i <= n,
            n == slots.len(),
            n <= usize::MAX,
            slots_wf(slots@),
            out@ == picked(slots@, sp@, i as int),
            slots_wf(out@),
        decreases n - i,
    {
        let keep = contains_wide(sp, (i as i128) + 1) || contains_wide(
            sp,
            (i as i128) - (n as i128),
        );
        if keep {
            out.push(slots[i]);
        }
        i += 1;
    }
    out
}

/// Whether `x` is one of the values of `l`.
fn contains_wide(l: &Vec<i64>, x: i128) -> (r: bool)
    ensures
        r == has(l@, x as int),
{
    let mut i: usize = 0;
    while i < l.len()
        invariant
            i <= l.len(),
            forall|j: int| 0 <= j < i ==> l@[j] != x,
        decreases l.len() - i,
    {
        if (l[i] as i128) == x {
            return true;
        }
        i += 1;
    }
    false
}

impl Plan {
    /// The days of a period that pass the day filters.
    pub fn days(&self, per: Period) -> (r: Vec<i64>)
        requires
            period_wf(per),
        ensures
            r@ == matching_days(self@, per.day as int, per.day + per.day_count),
            all_within(r@, min_day(), max_day() + 1),
    {
        let mut out: Vec<i64> = Vec::new();
        let end = per.day + per.day_count;
        let mut n: i64 = per.day;
        while n < end
            invariant
                per.day <= n <= end,
                end == per.day + per.day_count,
                period_wf(per),
                out@ == matching_days(self@, per.day as int, n as int),
                all_within(out@, min_day(), max_day() + 1),
            decreases end - n,
        {
            if -365 <= n && n <= 3652059 {
                let c = date_of_day(n);
                if self.day_passes(n, c) {
                    out.push(n);
                }
            }
            n += 1;
        }
        out
    }

    /// The hours, minutes and seconds of a period's times.
    pub fn times(&self, per: Period) -> (r: Vec<i64>)
        requires
            period_wf(per),
        ensures
            r@ == times_of(hours_of(self@, per), minutes_of(self@, per), seconds_of(self@, per)),
            all_within(r@, 0, 86400),
    {
        let rank = self.freq.rank_of();
        let hs = if rank >= 4 {
            let h = per.sec / 3600;
            if passes_list(&self.hours, h) {
                let mut v: Vec<i64> = Vec::new();
                v.push(h);
                assert(v@ =~= seq![h]);
                v
            } else {
                Vec::new()
            }
        } else {
            distinct_sorted(&self.hours, 0, 24)
        };
        let ms = if rank >= 5 {
            let m = (per.sec / 60) % 60;
            if passes_list(&self.minutes, m) {
                let mut v: Vec<i64> = Vec::new();
                v.push(m);
                assert(v@ =~= seq![m]);
                v
            } else {
                Vec::new()
            }
        } else {
            distinct_sorted(&self.minutes, 0, 60)
        };
        let ss = if rank >= 6 {
            let s = per.sec % 60;
            if passes_list(&self.seconds, s) {
                let mut v: Vec<i64> = Vec::new();
                v.push(s);
                assert(v@ =~= seq![s]);
                v
            } else {
                Vec::new()
            }
        } else {
            distinct_sorted(&self.seconds, 0, 60)
        };
        build_times(&hs, &ms, &ss)
    }

    /// The number of units from the period `per` to the next.
    pub fn stride(&self, per: Period) -> (r: i64)
        requires
            period_wf(per),
            self.interval >= 1,
        ensures
            r == stride_at(self@, per),
            self.interval <= r <= 200_000,
    {
        let rank = self.freq.rank_of();
        let interval = self.interval as i64;
        if rank < 4 {
            return interval;
        }
        let passes = if -365 <= per.day && per.day <= 3652059 {
            let c = date_of_day(per.day);
            self.day_passes(per.day, c)
        } else {
            false
        };
        if passes {
            return interval;
        }
        let (units, seconds): (i64, i64) = match self.freq {
            Frequency::Hourly => (24, 3600),
            Frequency::Minutely => (1440, 60),
            _ => (86400, 1),
        };
        let left = units - per.sec / seconds;
        let rest = (left - 1) % interval;
        proof {
            assert(0 <= rest <= left - 1) by (nonlinear_arith)
                requires
                    rest == (left as int - 1) % (interval as int),
                    left - 1 >= 0,
                    interval >= 1,
            ;
        }
        interval + ((left - 1) - rest)
    }

    /// The wall-clock candidates of a period.
    pub fn candidates(&self, per: Period) -> (r: Vec<Slot>)
        requires
            period_wf(per),
        ensures
            r@ == candidates(self@, per),
            slots_wf(r@),
    {
        let days = self.days(per);
        let times = self.times(per);
        let slots = build_slots(&days, &times);
        select(slots, &self.set_pos)
    }
}

} // verus!
