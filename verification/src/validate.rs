//! The check of a rule's fields against each other, and the checked stage of
//! a rule.

use vstd::prelude::*;

use crate::error::ValidationError;
use crate::kinds::{Frequency, NWeekday};
use crate::lists::{widen_i16, widen_i8, widen_u8};
use crate::property::RRuleProperty;
use crate::rule::{RRule, RRuleView};

verus! {

/// The first value of `l` that lies outside `lo..=hi`.
pub open spec fn first_outside(l: Seq<i64>, lo: int, hi: int) -> Option<i64>
    decreases l.len(),
{
    if l.len() == 0 {
        None
    } else {
        match first_outside(l.drop_last(), lo, hi) {
            Some(v) => Some(v),
            None => if lo <= l.last() <= hi {
                None
            } else {
                Some(l.last())
            },
        }
    }
}

/// Whether some entry of a BYDAY list carries an ordinal.
pub open spec fn has_ordinal(l: Seq<NWeekday>) -> bool {
    exists|i: int| 0 <= i < l.len() && (#[trigger] l[i]) is Nth
}

/// The first entry of a BYDAY list whose ordinal is zero or beyond 366
/// either way, as that ordinal.
pub open spec fn first_bad_ordinal(l: Seq<NWeekday>) -> Option<i64>
    decreases l.len(),
{
    if l.len() == 0 {
        None
    } else {
        match first_bad_ordinal(l.drop_last()) {
            Some(v) => Some(v),
            None => match l.last() {
                NWeekday::Every(_) => None,
                NWeekday::Nth(n, _) => if n == 0 || n < -366 || n > 366 {
                    Some(n as i64)
                } else {
                    None
                },
            },
        }
    }
}

/// The refusal of a list under `field` whose first value outside `lo..=hi`
/// is reported.
pub open spec fn range_refusal(field: RRuleProperty, l: Seq<i64>, lo: int, hi: int) -> Option<
    ValidationError,
> {
    match first_outside(l, lo, hi) {
        Some(v) => Some(ValidationError::InvalidFieldValue { field, value: v as i32 }),
        None => None,
    }
}

/// The refusal of a value out of range, list by list in this order: BYMONTH
/// (1 to 12), BYMONTHDAY (-31 to 31), BYYEARDAY (-366 to 366), BYWEEKNO
/// (-53 to 53), the ordinals of BYDAY (not 0, -366 to 366), BYHOUR (0 to
/// 23), BYMINUTE and BYSECOND (0 to 59).
pub open spec fn range_check(d: RRuleView) -> Option<ValidationError> {
    let month = range_refusal(
        RRuleProperty::ByMonth,
        d.by_month.map_values(|x: u8| x as i64),
        1,
        12,
    );
    let month_day = range_refusal(
        RRuleProperty::ByMonthDay,
        d.by_month_day.map_values(|x: i8| x as i64),
        -31,
        31,
    );
    let year_day = range_refusal(
        RRuleProperty::ByYearDay,
        d.by_year_day.map_values(|x: i16| x as i64),
        -366,
        366,
    );
    let week_no = range_refusal(
        RRuleProperty::ByWeekNo,
        d.by_week_no.map_values(|x: i8| x as i64),
        -53,
        53,
    );
    let hour = range_refusal(RRuleProperty::ByHour, d.by_hour.map_values(|x: u8| x as i64), 0, 23);
    let minute = range_refusal(
        RRuleProperty::ByMinute,
        d.by_minute.map_values(|x: u8| x as i64),
        0,
        59,
    );
    let second = range_refusal(
        RRuleProperty::BySecond,
        d.by_second.map_values(|x: u8| x as i64),
        0,
        59,
    );
    if month is Some {
        month
    } else if month_day is Some {
        month_day
    } else if year_day is Some {
        year_day
    } else if week_no is Some {
        week_no
    } else if first_bad_ordinal(d.by_weekday) is Some {
        Some(
            ValidationError::InvalidFieldValue {
                field: RRuleProperty::ByDay,
                value: first_bad_ordinal(d.by_weekday)->0 as i32,
            },
        )
    } else if hour is Some {
        hour
    } else if minute is Some {
        minute
    } else {
        second
    }
}

/// The refusal of a BY-rule that has no meaning at the rule's frequency:
/// BYWEEKNO but with a yearly rule; BYYEARDAY with a monthly, weekly or
/// daily one; BYMONTHDAY with a weekly one; an ordinal in BYDAY but with a
/// yearly or monthly rule, or with a yearly one that has BYWEEKNO.
pub open spec fn frequency_check(d: RRuleView) -> Option<ValidationError> {
    if d.by_week_no.len() > 0 && d.freq != Frequency::Yearly {
        Some(
            ValidationError::InvalidByRuleAndFrequency {
                by_rule: RRuleProperty::ByWeekNo,
                freq: d.freq,
            },
        )
    } else if d.by_year_day.len() > 0 && (d.freq == Frequency::Monthly || d.freq
        == Frequency::Weekly || d.freq == Frequency::Daily) {
        Some(
            ValidationError::InvalidByRuleAndFrequency {
                by_rule: RRuleProperty::ByYearDay,
                freq: d.freq,
            },
        )
    } else if d.by_month_day.len() > 0 && d.freq == Frequency::Weekly {
        Some(
            ValidationError::InvalidByRuleAndFrequency {
                by_rule: RRuleProperty::ByMonthDay,
                freq: d.freq,
            },
        )
    } else if has_ordinal(d.by_weekday) && ((d.freq != Frequency::Yearly && d.freq
        != Frequency::Monthly) || d.by_week_no.len() > 0) {
        Some(
            ValidationError::InvalidByRuleAndFrequency {
                by_rule: RRuleProperty::ByDay,
                freq: d.freq,
            },
        )
    } else {
        None
    }
}

/// Whether the rule has a BY-rule other than BYSETPOS.
pub open spec fn has_by_rule(d: RRuleView) -> bool {
    d.by_month.len() > 0 || d.by_month_day.len() > 0 || d.by_year_day.len() > 0
        || d.by_week_no.len() > 0 || d.by_weekday.len() > 0 || d.by_hour.len() > 0
        || d.by_minute.len() > 0 || d.by_second.len() > 0
}

/// The first reason to refuse the rule, if there is one: an interval of
/// zero, then a value out of range, then a BY-rule that does not fit the
/// frequency, then BYSETPOS without another BY-rule.
pub open spec fn rule_check(d: RRuleView) -> Option<ValidationError> {
    if d.interval == 0 {
        Some(ValidationError::ZeroInterval)
    } else if range_check(d) is Some {
        range_check(d)
    } else if frequency_check(d) is Some {
        frequency_check(d)
    } else if d.by_set_pos.len() > 0 && !has_by_rule(d) {
        Some(ValidationError::BySetPosWithoutByRule)
    } else {
        None
    }
}

/// The first value of `l` outside `lo..=hi`.
fn find_outside(l: &Vec<i64>, lo: i64, hi: i64) -> (r: Option<i64>)
    ensures
        r == first_outside(l@, lo as int, hi as int),
{
    let mut i: usize = 0;
    proof {
        assert(l@.take(0) =~= Seq::<i64>::empty());
    }
    while i < l.len()
        invariant
            i <= l.len(),
            first_outside(l@.take(i as int), lo as int, hi as int) is None,
        decreases l.len() - i,
    {
        proof {
            assert(l@.take(i + 1).drop_last() =~= l@.take(i as int));
        }
        if !(lo <= l[i] && l[i] <= hi) {
            proof {
                lemma_first_outside_stays(l@, lo as int, hi as int, i + 1);
            }
            return Some(l[i]);
        }
        i += 1;
    }
    proof {
        assert(l@.take(i as int) =~= l@);
    }
    None
}

proof fn lemma_first_outside_stays(l: Seq<i64>, lo: int, hi: int, k: int)
    requires
        0 <= k <= l.len(),
        first_outside(l.take(k), lo, hi) is Some,
    ensures
        first_outside(l, lo, hi) == first_outside(l.take(k), lo, hi),
    decreases l.len() - k,
{
    if k == l.len() {
        assert(l.take(k) =~= l);
    } else {
        assert(l.take(k + 1).drop_last() =~= l.take(k));
        lemma_first_outside_stays(l, lo, hi, k + 1);
    }
}

proof fn lemma_first_bad_ordinal_stays(l: Seq<NWeekday>, k: int)
    requires
        0 <= k <= l.len(),
        first_bad_ordinal(l.take(k)) is Some,
    ensures
        first_bad_ordinal(l) == first_bad_ordinal(l.take(k)),
    decreases l.len() - k,
{
    if k == l.len() {
        assert(l.take(k) =~= l);
    } else {
        assert(l.take(k + 1).drop_last() =~= l.take(k));
        lemma_first_bad_ordinal_stays(l, k + 1);
    }
}

/// The first bad ordinal of a BYDAY list, and whether any entry has one.
fn scan_weekdays(l: &Vec<NWeekday>) -> (r: (Option<i64>, bool))
    ensures
        r.0 == first_bad_ordinal(l@),
        r.1 == has_ordinal(l@),
{
    let mut i: usize = 0;
    let mut any = false;
    let mut bad: Option<i64> = None;
    proof {
        assert(l@.take(0) =~= Seq::<NWeekday>::empty());
    }
    while i < l.len()
        invariant
            i <= l.len(),
            bad == first_bad_ordinal(l@.take(i as int)),
            any == has_ordinal(l@.take(i as int)),
        decreases l.len() - i,
    {
        proof {
            assert(l@.take(i + 1).drop_last() =~= l@.take(i as int));
            assert(l@.take(i + 1).last() == l@[i as int]);
        }
        let ghost before = any;
        match l[i] {
            NWeekday::Every(_) => {},
            NWeekday::Nth(n, _) => {
                any = true;
                if bad.is_none() && (n == 0 || n < -366 || n > 366) {
                    bad = Some(n as i64);
                }
            },
        }
        proof {
            let t = l@.take(i + 1);
            let u = l@.take(i as int);
            if has_ordinal(t) {
                let j = choose|j: int| 0 <= j < t.len() && (#[trigger] t[j]) is Nth;
                if j < i {
                    assert(u[j] is Nth);
                }
            }
            if has_ordinal(u) {
                let j = choose|j: int| 0 <= j < u.len() && (#[trigger] u[j]) is Nth;
                assert(t[j] is Nth);
            }
            if l@[i as int] is Nth {
                assert(t[i as int] is Nth);
            }
        }
        i += 1;
    }
    proof {
        assert(l@.take(i as int) =~= l@);
    }
    (bad, any)
}

fn refuse_range(field: RRuleProperty, l: &Vec<i64>, lo: i64, hi: i64) -> (r: Option<
    ValidationError,
>)
    ensures
        r == range_refusal(field, l@, lo as int, hi as int),
{
    match find_outside(l, lo, hi) {
        Some(v) => Some(ValidationError::InvalidFieldValue { field, value: v as i32 }),
        None => None,
    }
}

/// A recurrence rule whose fields have been checked against each other: the
/// only stage of a rule that can be expanded.
#[derive(Debug, PartialEq, Eq)]
pub struct ValidatedRRule {
    pub(crate) rule: RRule,
}

impl View for ValidatedRRule {
    type V = RRuleView;

    closed spec fn view(&self) -> RRuleView {
        self.rule@
    }
}

impl ValidatedRRule {
    #[verifier::type_invariant]
    pub closed spec fn consistent(self) -> bool {
        rule_check(self.rule@) is None
    }

    /// The rule, as it was before it was checked.
    pub fn as_rule(&self) -> (r: &RRule)
        ensures
            r@ == self@,
            rule_check(r@) is None,
    {
        proof {
            use_type_invariant(self);
        }
        &self.rule
    }

    /// The text of this rule.
    pub fn to_string(&self) -> (r: String)
        ensures
            r@ == crate::render::rule_text(self@),
    {
        self.rule.to_string()
    }
}

impl RRule {
    /// The first reason to refuse this rule, if there is one.
    pub fn check(&self) -> (r: Option<ValidationError>)
        ensures
            r == rule_check(self@),
    {
        if self.interval == 0 {
            return Some(ValidationError::ZeroInterval);
        }
        let months = widen_u8(&self.by_month);
        let month_days = widen_i8(&self.by_month_day);
        let year_days = widen_i16(&self.by_year_day);
        let week_nos = widen_i8(&self.by_week_no);
        let hours = widen_u8(&self.by_hour);
        let minutes = widen_u8(&self.by_minute);
        let seconds = widen_u8(&self.by_second);
        let (bad_ordinal, any_ordinal) = scan_weekdays(&self.by_weekday);
        let r = refuse_range(RRuleProperty::ByMonth, &months, 1, 12);
        if r.is_some() {
            return r;
        }
        let r = refuse_range(RRuleProperty::ByMonthDay, &month_days, -31, 31);
        if r.is_some() {
            return r;
        }
        let r = refuse_range(RRuleProperty::ByYearDay, &year_days, -366, 366);
        if r.is_some() {
            return r;
        }
        let r = refuse_range(RRuleProperty::ByWeekNo, &week_nos, -53, 53);
        if r.is_some() {
            return r;
        }
        if let Some(n) = bad_ordinal {
            return Some(
                ValidationError::InvalidFieldValue { field: RRuleProperty::ByDay, value: n as i32 },
            );
        }
        let r = refuse_range(RRuleProperty::ByHour, &hours, 0, 23);
        if r.is_some() {
            return r;
        }
        let r = refuse_range(RRuleProperty::ByMinute, &minutes, 0, 59);
        if r.is_some() {
            return r;
        }
        let r = refuse_range(RRuleProperty::BySecond, &seconds, 0, 59);
        if r.is_some() {
            return r;
        }
        assert(range_check(self@) is None);
        let freq = self.freq;
        if self.by_week_no.len() > 0 && freq != Frequency::Yearly {
            return Some(
                ValidationError::InvalidByRuleAndFrequency {
                    by_rule: RRuleProperty::ByWeekNo,
                    freq,
                },
            );
        }
        if self.by_year_day.len() > 0 && (freq == Frequency::Monthly || freq == Frequency::Weekly
            || freq == Frequency::Daily) {
            return Some(
                ValidationError::InvalidByRuleAndFrequency {
                    by_rule: RRuleProperty::ByYearDay,
                    freq,
                },
            );
        }
        if self.by_month_day.len() > 0 && freq == Frequency::Weekly {
            return Some(
                ValidationError::InvalidByRuleAndFrequency {
                    by_rule: RRuleProperty::ByMonthDay,
                    freq,
                },
            );
        }
        if any_ordinal && ((freq != Frequency::Yearly && freq != Frequency::Monthly)
            || self.by_week_no.len() > 0) {
            return Some(
                ValidationError::InvalidByRuleAndFrequency { by_rule: RRuleProperty::ByDay, freq },
            );
        }
        assert(frequency_check(self@) is None);
        let any_by = self.by_month.len() > 0 || self.by_month_day.len() > 0
            || self.by_year_day.len() > 0 || self.by_week_no.len() > 0 || self.by_weekday.len()
            > 0 || self.by_hour.len() > 0 || self.by_minute.len() > 0 || self.by_second.len() > 0;
        if self.by_set_pos.len() > 0 && !any_by {
            return Some(ValidationError::BySetPosWithoutByRule);
        }
        None
    }

    /// Checks the fields against each other and, where nothing is wrong,
    /// gives the rule as a checked one, unchanged. Otherwise the first
    /// reason that `rule_check` finds is reported.
    pub fn validate(self) -> (r: Result<ValidatedRRule, ValidationError>)
        ensures
            match r {
                Ok(v) => rule_check(self@) is None && v@ == self@,
                Err(e) => rule_check(self@) == Some(e),
            },
    {
        match self.check() {
            Some(e) => Err(e),
            None => Ok(ValidatedRRule { rule: self }),
        }
    }
}

} // verus!
