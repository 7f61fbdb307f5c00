//! The keys that a rule's text may carry.

use vstd::prelude::*;
use vstd::string::*;

use crate::error::{error_of, ParseError, ParseErrorKind, ParseErrorView};
use crate::text::{str_eq, to_upper, upper_of};

verus! {

/// A key of the `KEY=VALUE` pairs of a rule.
#[derive(Debug, Hash, PartialEq, Eq, Clone, Copy, Structural)]
pub enum RRuleProperty {
    Freq,
    Until,
    Count,
    Interval,
    BySecond,
    ByMinute,
    ByHour,
    ByDay,
    ByMonthDay,
    ByYearDay,
    ByWeekNo,
    ByMonth,
    BySetPos,
    Wkst,
    XIncludeDtstart,
    LocalTzid,
}

/// The key that an upper-case word names. `BYWEEKDAY` is a second name of
/// `BYDAY`.
pub open spec fn property_named(up: Seq<char>) -> Option<RRuleProperty> {
    if up == "FREQ"@ {
        Some(RRuleProperty::Freq)
    } else if up == "UNTIL"@ {
        Some(RRuleProperty::Until)
    } else if up == "COUNT"@ {
        Some(RRuleProperty::Count)
    } else if up == "INTERVAL"@ {
        Some(RRuleProperty::Interval)
    } else if up == "BYSECOND"@ {
        Some(RRuleProperty::BySecond)
    } else if up == "BYMINUTE"@ {
        Some(RRuleProperty::ByMinute)
    } else if up == "BYHOUR"@ {
        Some(RRuleProperty::ByHour)
    } else if up == "BYWEEKDAY"@ || up == "BYDAY"@ {
        Some(RRuleProperty::ByDay)
    } else if up == "BYMONTHDAY"@ {
        Some(RRuleProperty::ByMonthDay)
    } else if up == "BYYEARDAY"@ {
        Some(RRuleProperty::ByYearDay)
    } else if up == "BYWEEKNO"@ {
        Some(RRuleProperty::ByWeekNo)
    } else if up == "BYMONTH"@ {
        Some(RRuleProperty::ByMonth)
    } else if up == "BYSETPOS"@ {
        Some(RRuleProperty::BySetPos)
    } else if up == "WKST"@ {
        Some(RRuleProperty::Wkst)
    } else if up == "X-INCLUDE-DTSTART"@ {
        Some(RRuleProperty::XIncludeDtstart)
    } else if up == "LOCAL-TZID"@ {
        Some(RRuleProperty::LocalTzid)
    } else {
        None
    }
}

/// What reading a key gives: the key that its upper-case form names, or the
/// refusal of the key as it was written.
pub open spec fn property_of(s: Seq<char>) -> Result<RRuleProperty, ParseErrorView> {
    match property_named(upper_of(s)) {
        Some(p) => Ok(p),
        None => Err(error_of(ParseErrorKind::UnrecognizedParameter, s)),
    }
}

impl RRuleProperty {
    /// The key named by `up`, a word already in upper case.
    pub fn from_upper(up: &str) -> (r: Option<RRuleProperty>)
        ensures
            r == property_named(up@),
    {
        if str_eq(up, "FREQ") {
            Some(RRuleProperty::Freq)
        } else if str_eq(up, "UNTIL") {
            Some(RRuleProperty::Until)
        } else if str_eq(up, "COUNT") {
            Some(RRuleProperty::Count)
        } else if str_eq(up, "INTERVAL") {
            Some(RRuleProperty::Interval)
        } else if str_eq(up, "BYSECOND") {
            Some(RRuleProperty::BySecond)
        } else if str_eq(up, "BYMINUTE") {
            Some(RRuleProperty::ByMinute)
        } else if str_eq(up, "BYHOUR") {
            Some(RRuleProperty::ByHour)
        } else if str_eq(up, "BYWEEKDAY") || str_eq(up, "BYDAY") {
            Some(RRuleProperty::ByDay)
        } else if str_eq(up, "BYMONTHDAY") {
            Some(RRuleProperty::ByMonthDay)
        } else if str_eq(up, "BYYEARDAY") {
            Some(RRuleProperty::ByYearDay)
        } else if str_eq(up, "BYWEEKNO") {
            Some(RRuleProperty::ByWeekNo)
        } else if str_eq(up, "BYMONTH") {
            Some(RRuleProperty::ByMonth)
        } else if str_eq(up, "BYSETPOS") {
            Some(RRuleProperty::BySetPos)
        } else if str_eq(up, "WKST") {
            Some(RRuleProperty::Wkst)
        } else if str_eq(up, "X-INCLUDE-DTSTART") {
            Some(RRuleProperty::XIncludeDtstart)
        } else if str_eq(up, "LOCAL-TZID") {
            Some(RRuleProperty::LocalTzid)
        } else {
            None
        }
    }

    /// Reads a key, in any letter case. An unknown key is refused with
    /// `UnrecognizedParameter`, which carries the key as written.
    pub fn from_str(s: &str) -> (r: Result<RRuleProperty, ParseError>)
        ensures
            match r {
                Ok(p) => property_of(s@) == Ok::<RRuleProperty, ParseErrorView>(p),
                Err(e) => property_of(s@) == Err::<RRuleProperty, ParseErrorView>(e@),
            },
    {
        let up = to_upper(s);
        match RRuleProperty::from_upper(up.as_str()) {
            Some(p) => Ok(p),
            None => Err(ParseError::UnrecognizedParameter(s.to_owned())),
        }
    }

    /// The word under which this key is written.
    pub open spec fn name(self) -> Seq<char> {
        match self {
            RRuleProperty::Freq => "FREQ"@,
            RRuleProperty::Until => "UNTIL"@,
            RRuleProperty::Count => "COUNT"@,
            RRuleProperty::Interval => "INTERVAL"@,
            RRuleProperty::BySecond => "BYSECOND"@,
            RRuleProperty::ByMinute => "BYMINUTE"@,
            RRuleProperty::ByHour => "BYHOUR"@,
            RRuleProperty::ByDay => "BYDAY"@,
            RRuleProperty::ByMonthDay => "BYMONTHDAY"@,
            RRuleProperty::ByYearDay => "BYYEARDAY"@,
            RRuleProperty::ByWeekNo => "BYWEEKNO"@,
            RRuleProperty::ByMonth => "BYMONTH"@,
            RRuleProperty::BySetPos => "BYSETPOS"@,
            RRuleProperty::Wkst => "WKST"@,
            RRuleProperty::XIncludeDtstart => "X-INCLUDE-DTSTART"@,
            RRuleProperty::LocalTzid => "LOCAL-TZID"@,
        }
    }

    /// The word under which this key is written.
    pub fn as_str(self) -> (r: &'static str)
        ensures
            r@ == self.name(),
    {
        match self {
            RRuleProperty::Freq => "FREQ",
            RRuleProperty::Until => "UNTIL",
            RRuleProperty::Count => "COUNT",
            RRuleProperty::Interval => "INTERVAL",
            RRuleProperty::BySecond => "BYSECOND",
            RRuleProperty::ByMinute => "BYMINUTE",
            RRuleProperty::ByHour => "BYHOUR",
            RRuleProperty::ByDay => "BYDAY",
            RRuleProperty::ByMonthDay => "BYMONTHDAY",
            RRuleProperty::ByYearDay => "BYYEARDAY",
            RRuleProperty::ByWeekNo => "BYWEEKNO",
            RRuleProperty::ByMonth => "BYMONTH",
            RRuleProperty::BySetPos => "BYSETPOS",
            RRuleProperty::Wkst => "WKST",
            RRuleProperty::XIncludeDtstart => "X-INCLUDE-DTSTART",
            RRuleProperty::LocalTzid => "LOCAL-TZID",
        }
    }
}

impl core::str::FromStr for RRuleProperty {
    type Err = ParseError;

    /// Reads a key, in any letter case: the key that the upper-case form
    /// of `s` names, or `UnrecognizedParameter` with `s` as it was written.
    fn from_str(s: &str) -> (r: Result<Self, Self::Err>)
        ensures
            match r {
                Ok(p) => property_of(s@) == Ok::<RRuleProperty, ParseErrorView>(p),
                Err(e) => property_of(s@) == Err::<RRuleProperty, ParseErrorView>(e@),
            },
    {
        RRuleProperty::from_str(s)
    }
}

} // verus!
