//! The small vocabularies of a rule: frequencies and weekdays.

use vstd::prelude::*;
use vstd::string::*;

use crate::text::{decimal_in, parse_decimal, str_eq, to_upper, upper_of};

verus! {

/// How often a rule repeats.
#[derive(Debug, Clone, Copy, PartialEq, Eq, Hash, Structural)]
pub enum Frequency {
    Yearly,
    Monthly,
    Weekly,
    Daily,
    Hourly,
    Minutely,
    Secondly,
}

/// A day of the week.
#[derive(Debug, Clone, Copy, PartialEq, Eq, Hash, Structural)]
pub enum Weekday {
    Mon,
    Tue,
    Wed,
    Thu,
    Fri,
    Sat,
    Sun,
}

/// A weekday of a BYDAY list: every such day, or the n-th one of its period
/// (from the end where n is negative).
#[derive(Debug, Clone, Copy, PartialEq, Eq, Hash, Structural)]
pub enum NWeekday {
    Every(Weekday),
    Nth(i16, Weekday),
}

/// The frequency that an upper-case word names.
pub open spec fn frequency_named(up: Seq<char>) -> Option<Frequency> {
    if up == "YEARLY"@ {
        Some(Frequency::Yearly)
    } else if up == "MONTHLY"@ {
        Some(Frequency::Monthly)
    } else if up == "WEEKLY"@ {
        Some(Frequency::Weekly)
    } else if up == "DAILY"@ {
        Some(Frequency::Daily)
    } else if up == "HOURLY"@ {
        Some(Frequency::Hourly)
    } else if up == "MINUTELY"@ {
        Some(Frequency::Minutely)
    } else if up == "SECONDLY"@ {
        Some(Frequency::Secondly)
    } else {
        None
    }
}

/// The weekday that an upper-case two-letter word names.
pub open spec fn weekday_named(up: Seq<char>) -> Option<Weekday> {
    if up == "MO"@ {
        Some(Weekday::Mon)
    } else if up == "TU"@ {
        Some(Weekday::Tue)
    } else if up == "WE"@ {
        Some(Weekday::Wed)
    } else if up == "TH"@ {
        Some(Weekday::Thu)
    } else if up == "FR"@ {
        Some(Weekday::Fri)
    } else if up == "SA"@ {
        Some(Weekday::Sat)
    } else if up == "SU"@ {
        Some(Weekday::Sun)
    } else {
        None
    }
}

impl Frequency {
    /// The frequency named by a word that is already in upper case.
    pub fn from_upper(up: &str) -> (r: Option<Frequency>)
        ensures
            r == frequency_named(up@),
    {
        if str_eq(up, "YEARLY") {
            Some(Frequency::Yearly)
        } else if str_eq(up, "MONTHLY") {
            Some(Frequency::Monthly)
        } else if str_eq(up, "WEEKLY") {
            Some(Frequency::Weekly)
        } else if str_eq(up, "DAILY") {
            Some(Frequency::Daily)
        } else if str_eq(up, "HOURLY") {
            Some(Frequency::Hourly)
        } else if str_eq(up, "MINUTELY") {
            Some(Frequency::Minutely)
        } else if str_eq(up, "SECONDLY") {
            Some(Frequency::Secondly)
        } else {
            None
        }
    }

    /// The frequency that `s` names, in any letter case.
    pub fn from_str(s: &str) -> (r: Option<Frequency>)
        ensures
            r == frequency_named(upper_of(s@)),
    {
        let up = to_upper(s);
        Frequency::from_upper(up.as_str())
    }

    /// The word that names this frequency.
    pub open spec fn name(self) -> Seq<char> {
        match self {
            Frequency::Yearly => "YEARLY"@,
            Frequency::Monthly => "MONTHLY"@,
            Frequency::Weekly => "WEEKLY"@,
            Frequency::Daily => "DAILY"@,
            Frequency::Hourly => "HOURLY"@,
            Frequency::Minutely => "MINUTELY"@,
            Frequency::Secondly => "SECONDLY"@,
        }
    }

    /// The word that names this frequency.
    pub fn as_str(self) -> (r: &'static str)
        ensures
            r@ == self.name(),
    {
        match self {
            Frequency::Yearly => "YEARLY",
            Frequency::Monthly => "MONTHLY",
            Frequency::Weekly => "WEEKLY",
            Frequency::Daily => "DAILY",
            Frequency::Hourly => "HOURLY",
            Frequency::Minutely => "MINUTELY",
            Frequency::Secondly => "SECONDLY",
        }
    }

    /// The place of this frequency from the coarsest (0, yearly) to the
    /// finest (6, secondly).
    pub open spec fn rank(self) -> int {
        match self {
            Frequency::Yearly => 0,
            Frequency::Monthly => 1,
            Frequency::Weekly => 2,
            Frequency::Daily => 3,
            Frequency::Hourly => 4,
            Frequency::Minutely => 5,
            Frequency::Secondly => 6,
        }
    }

    pub fn rank_of(self) -> (r: u8)
        ensures
            r == self.rank(),
    {
        match self {
            Frequency::Yearly => 0,
            Frequency::Monthly => 1,
            Frequency::Weekly => 2,
            Frequency::Daily => 3,
            Frequency::Hourly => 4,
            Frequency::Minutely => 5,
            Frequency::Secondly => 6,
        }
    }
}

impl Weekday {
    /// The weekday named by a two-letter word that is already in upper case.
    pub fn from_upper(up: &str) -> (r: Option<Weekday>)
        ensures
            r == weekday_named(up@),
    {
        if str_eq(up, "MO") {
            Some(Weekday::Mon)
        } else if str_eq(up, "TU") {
            Some(Weekday::Tue)
        } else if str_eq(up, "WE") {
            Some(Weekday::Wed)
        } else if str_eq(up, "TH") {
            Some(Weekday::Thu)
        } else if str_eq(up, "FR") {
            Some(Weekday::Fri)
        } else if str_eq(up, "SA") {
            Some(Weekday::Sat)
        } else if str_eq(up, "SU") {
            Some(Weekday::Sun)
        } else {
            None
        }
    }

    /// The weekday that `s` names, in any letter case.
    pub fn from_str(s: &str) -> (r: Option<Weekday>)
        ensures
            r == weekday_named(upper_of(s@)),
    {
        let up = to_upper(s);
        Weekday::from_upper(up.as_str())
    }

    /// The two letters that name this weekday.
    pub open spec fn name(self) -> Seq<char> {
        match self {
            Weekday::Mon => "MO"@,
            Weekday::Tue => "TU"@,
            Weekday::Wed => "WE"@,
            Weekday::Thu => "TH"@,
            Weekday::Fri => "FR"@,
            Weekday::Sat => "SA"@,
            Weekday::Sun => "SU"@,
        }
    }

    /// The two letters that name this weekday.
    pub fn as_str(self) -> (r: &'static str)
        ensures
            r@ == self.name(),
    {
        match self {
            Weekday::Mon => "MO",
            Weekday::Tue => "TU",
            Weekday::Wed => "WE",
            Weekday::Thu => "TH",
            Weekday::Fri => "FR",
            Weekday::Sat => "SA",
            Weekday::Sun => "SU",
        }
    }

    /// Days since Monday: 0 for Monday up to 6 for Sunday.
    pub open spec fn index(self) -> int {
        match self {
            Weekday::Mon => 0,
            Weekday::Tue => 1,
            Weekday::Wed => 2,
            Weekday::Thu => 3,
            Weekday::Fri => 4,
            Weekday::Sat => 5,
            Weekday::Sun => 6,
        }
    }

    /// Days since Monday: 0 for Monday up to 6 for Sunday.
    pub fn num_days_from_monday(self) -> (r: u8)
        ensures
            r == self.index(),
    {
        match self {
            Weekday::Mon => 0,
            Weekday::Tue => 1,
            Weekday::Wed => 2,
            Weekday::Thu => 3,
            Weekday::Fri => 4,
            Weekday::Sat => 5,
            Weekday::Sun => 6,
        }
    }
}

impl NWeekday {
    /// The weekday, whatever the ordinal.
    pub open spec fn day(self) -> Weekday {
        match self {
            NWeekday::Every(w) => w,
            NWeekday::Nth(_, w) => w,
        }
    }

    /// The ordinal, 0 where there is none.
    pub open spec fn ordinal(self) -> int {
        match self {
            NWeekday::Every(_) => 0,
            NWeekday::Nth(n, _) => n as int,
        }
    }

    pub fn weekday(self) -> (r: Weekday)
        ensures
            r == self.day(),
    {
        match self {
            NWeekday::Every(w) => w,
            NWeekday::Nth(_, w) => w,
        }
    }

    pub fn nth(self) -> (r: i16)
        ensures
            r == self.ordinal(),
    {
        match self {
            NWeekday::Every(_) => 0,
            NWeekday::Nth(n, _) => n,
        }
    }
}

/// The BYDAY entry that a token writes: an optional signed ordinal, then the
/// two letters of a weekday in any case. An ordinal of zero, like none at
/// all, means every such weekday.
pub open spec fn nweekday_of(token: Seq<char>) -> Option<NWeekday> {
    if token.len() < 2 {
        None
    } else {
        let cut = token.len() - 2;
        match weekday_named(upper_of(token.skip(cut))) {
            None => None,
            Some(w) => if cut == 0 {
                Some(NWeekday::Every(w))
            } else {
                match decimal_in(token.take(cut), true, i16::MIN as int, i16::MAX as int) {
                    None => None,
                    Some(n) => if n == 0 {
                        Some(NWeekday::Every(w))
                    } else {
                        Some(NWeekday::Nth(n as i16, w))
                    },
                }
            },
        }
    }
}

impl NWeekday {
    /// Reads one BYDAY entry such as `TU`, `2TU` or `-1fr`.
    pub fn from_str(token: &str) -> (r: Option<NWeekday>)
        ensures
            r == nweekday_of(token@),
    {
        let n = token.unicode_len();
        if n < 2 {
            return None;
        }
        let cut = n - 2;
        let tail = token.substring_char(cut, n);
        proof {
            assert(token@.subrange(cut as int, n as int) =~= token@.skip(cut as int));
        }
        match Weekday::from_str(tail) {
            None => None,
            Some(w) => {
                if cut == 0 {
                    Some(NWeekday::Every(w))
                } else {
                    let head = token.substring_char(0, cut);
                    proof {
                        assert(token@.subrange(0, cut as int) =~= token@.take(cut as int));
                    }
                    match parse_decimal(head, true, -32768, 32767) {
                        None => None,
                        Some(v) => {
                            if v == 0 {
                                Some(NWeekday::Every(w))
                            } else {
                                Some(NWeekday::Nth(v as i16, w))
                            }
                        },
                    }
                }
            },
        }
    }
}

} // verus!
