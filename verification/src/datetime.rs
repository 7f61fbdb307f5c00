//! Instants with a wall-clock reading in a zone, and their text forms.

use vstd::prelude::*;
use vstd::string::*;

use crate::calendar::{is_valid_date, weekday_at, weekday_index, weekday_of_day, Date, EPOCH_DAY};
use crate::kinds::Weekday;
use crate::text::{
    all_digits, chars_of, digits_value, is_digit, lemma_digits_value_nonneg, padded_text,
    push_padded,
};
use crate::zone::{instants_of, Tz};

verus! {

/// A time of day, to the second.
#[derive(Debug, Clone, Copy, PartialEq, Eq, Hash, Structural)]
pub struct Time {
    pub hour: u8,
    pub minute: u8,
    pub second: u8,
}

impl Time {
    pub open spec fn valid(self) -> bool {
        self.hour < 24 && self.minute < 60 && self.second < 60
    }

    /// Seconds since midnight.
    pub open spec fn seconds(self) -> int {
        self.hour * 3600 + self.minute * 60 + self.second
    }

    pub fn is_valid(&self) -> (r: bool)
        ensures
            r == self.valid(),
    {
        self.hour < 24 && self.minute < 60 && self.second < 60
    }

    pub fn second_of_day(&self) -> (r: u32)
        requires
            self.valid(),
        ensures
            r == self.seconds(),
            r < 86400,
    {
        (self.hour as u32) * 3600 + (self.minute as u32) * 60 + (self.second as u32)
    }
}

/// What a wall clock shows at `date` and `time`, in seconds since
/// 1970-01-01T00:00:00 on the same clock.
pub open spec fn local_seconds(date: Date, time: Time) -> int {
    (date.number() - EPOCH_DAY) * 86400 + time.seconds()
}

/// An instant together with the zone it is read in and the date and time
/// that the zone's wall clock shows at it. A reading in the ambient zone
/// (`Tz::Local`) is what this library calls floating.
#[derive(Debug, Clone, Copy, PartialEq, Eq, Hash, Structural)]
pub struct DateTime {
    pub date: Date,
    pub time: Time,
    pub timestamp: i64,
    pub zone: Tz,
}

impl DateTime {
    /// Date and time are real, within the handled years.
    pub open spec fn valid(self) -> bool {
        self.date.valid() && self.time.valid()
    }

    /// What the wall clock shows, in seconds.
    pub open spec fn local(self) -> int {
        local_seconds(self.date, self.time)
    }

    /// The reading is valid, its zone well formed, and, in a zone other than
    /// the ambient one, the instant is the single one at which the zone's
    /// clock shows that date and time.
    pub open spec fn wf(self) -> bool {
        &&& self.valid()
        &&& self.zone.wf()
        &&& self.zone != Tz::Local ==> instants_of(self.zone, self.local()) == seq![self.timestamp]
    }

    pub fn is_valid(&self) -> (r: bool)
        ensures
            r == self.valid(),
    {
        is_valid_date(self.date.year, self.date.month, self.date.day) && self.time.is_valid()
    }

    pub fn year(&self) -> (r: i32)
        ensures
            r == self.date.year,
    {
        self.date.year
    }

    pub fn month(&self) -> (r: u32)
        ensures
            r == self.date.month,
    {
        self.date.month as u32
    }

    pub fn day(&self) -> (r: u32)
        ensures
            r == self.date.day,
    {
        self.date.day as u32
    }

    pub fn hour(&self) -> (r: u32)
        ensures
            r == self.time.hour,
    {
        self.time.hour as u32
    }

    pub fn minute(&self) -> (r: u32)
        ensures
            r == self.time.minute,
    {
        self.time.minute as u32
    }

    pub fn second(&self) -> (r: u32)
        ensures
            r == self.time.second,
    {
        self.time.second as u32
    }

    /// Seconds from 1970-01-01T00:00:00Z to this instant.
    pub fn timestamp(&self) -> (r: i64)
        ensures
            r == self.timestamp,
    {
        self.timestamp
    }

    pub fn timezone(&self) -> (r: Tz)
        ensures
            r == self.zone,
    {
        self.zone
    }

    /// The weekday that the wall clock shows. A reading that is not valid
    /// has none.
    pub fn weekday(&self) -> (r: Option<Weekday>)
        ensures
            r == if self.valid() {
                Some(weekday_at(weekday_index(self.date.number())))
            } else {
                None
            },
    {
        if self.is_valid() {
            Some(weekday_of_day(self.date.day_number()))
        } else {
            None
        }
    }

    /// Whether this instant comes before `other`, by the time that has
    /// passed and not by what the two clocks show.
    pub fn is_before(&self, other: &DateTime) -> (r: bool)
        ensures
            r == (self.timestamp < other.timestamp),
    {
        self.timestamp < other.timestamp
    }

    /// Whether this and `other` are one instant, in whatever zones they are
    /// read.
    pub fn same_instant(&self, other: &DateTime) -> (r: bool)
        ensures
            r == (self.timestamp == other.timestamp),
    {
        self.timestamp == other.timestamp
    }

    /// What the wall clock shows, in seconds since 1970-01-01T00:00:00 on
    /// that clock.
    pub fn local_timestamp(&self) -> (r: i64)
        requires
            self.valid(),
        ensures
            r == self.local(),
    {
        wall_seconds(self.date, self.time)
    }
}

/// What a wall clock shows at `date` and `time`, in seconds.
pub fn wall_seconds(date: Date, time: Time) -> (r: i64)
    requires
        date.valid(),
        time.valid(),
    ensures
        r == local_seconds(date, time),
        -100_000_000_000 <= r <= 400_000_000_000,
{
    (date.day_number() - EPOCH_DAY) * 86400 + (time.second_of_day() as i64)
}

/// The reading of `date` and `time` in `zone`, given the instants at which
/// the zone's clock shows them: the earliest of them, or nothing where there
/// is none or where date or time is not real.
pub open spec fn reading_of(date: Date, time: Time, zone: Tz, instants: Seq<i64>) -> Option<
    DateTime,
> {
    if date.valid() && time.valid() && instants.len() > 0 {
        Some(DateTime { date, time, timestamp: instants[0], zone })
    } else {
        None
    }
}

impl DateTime {
    /// The reading of `date` and `time` in `zone`, given the instants at
    /// which the zone's clock shows them.
    pub fn from_instants(date: Date, time: Time, zone: Tz, instants: &Vec<i64>) -> (r: Option<
        DateTime,
    >)
        ensures
            r == reading_of(date, time, zone, instants@),
    {
        if is_valid_date(date.year, date.month, date.day) && time.is_valid() && instants.len()
            > 0 {
            Some(DateTime { date, time, timestamp: instants[0], zone })
        } else {
            None
        }
    }

    /// The instant at which the clock of `zone` shows the given date and
    /// time: the earlier one where it shows them twice, none where it skips
    /// them or where they are not a real date and time of the years 0 to
    /// 9999. In the ambient zone the host decides the instant.
    pub fn from_local(
        year: i32,
        month: u8,
        day: u8,
        hour: u8,
        minute: u8,
        second: u8,
        zone: Tz,
    ) -> (r: Option<DateTime>)
        ensures
            ({
                let date = Date { year, month, day };
                let time = Time { hour, minute, second };
                &&& zone != Tz::Local ==> r == reading_of(
                    date,
                    time,
                    zone,
                    instants_of(zone, local_seconds(date, time)),
                )
                &&& r matches Some(t) ==> t.valid() && t.date == date && t.time == time && t.zone
                    == zone
                &&& r is Some ==> date.valid() && time.valid()
            }),
    {
        let date = Date { year, month, day };
        let time = Time { hour, minute, second };
        if is_valid_date(year, month, day) && time.is_valid() {
            let instants = zone.resolve(wall_seconds(date, time));
            DateTime::from_instants(date, time, zone, &instants)
        } else {
            None
        }
    }
}

/// The numbers that a date or date-time text writes, as they stand: they
/// need not name a real day or time.
#[derive(Debug, Clone, Copy, PartialEq, Eq, Structural)]
pub struct DateText {
    pub date: Date,
    pub time: Time,
    /// The text ends in `Z`.
    pub utc: bool,
}

/// The number that the `width` characters of `s` from `at` write.
pub open spec fn field(s: Seq<char>, at: int, width: int) -> int {
    digits_value(s.subrange(at, at + width))
}

pub open spec fn date_digits(s: Seq<char>) -> bool {
    s.len() >= 8 && all_digits(s.subrange(0, 8))
}

pub open spec fn time_digits(s: Seq<char>) -> bool {
    s.len() >= 15 && s[8] == 'T' && all_digits(s.subrange(9, 15))
}

/// The numbers written by a text of one of the three forms `YYYYMMDD`,
/// `YYYYMMDDTHHMMSS` and `YYYYMMDDTHHMMSSZ`; a date alone stands for its
/// midnight. `None` for any other text.
pub open spec fn date_text_of(s: Seq<char>) -> Option<DateText> {
    if !date_digits(s) {
        None
    } else {
        let date = Date {
            year: field(s, 0, 4) as i32,
            month: field(s, 4, 2) as u8,
            day: field(s, 6, 2) as u8,
        };
        if s.len() == 8 {
            Some(DateText { date, time: Time { hour: 0, minute: 0, second: 0 }, utc: false })
        } else if time_digits(s) && (s.len() == 15 || (s.len() == 16 && s[15] == 'Z')) {
            Some(
                DateText {
                    date,
                    time: Time {
                        hour: field(s, 9, 2) as u8,
                        minute: field(s, 11, 2) as u8,
                        second: field(s, 13, 2) as u8,
                    },
                    utc: s.len() == 16,
                },
            )
        } else {
            None
        }
    }
}

/// A run of at most nine digits writes a number below ten to their count.
pub proof fn lemma_digits_value_bound(s: Seq<char>)
    requires
        all_digits(s),
    ensures
        s.len() <= 2 ==> digits_value(s) < 100,
        s.len() <= 4 ==> digits_value(s) < 10000,
        digits_value(s) >= 0,
    decreases s.len(),
{
    lemma_digits_value_nonneg(s);
    if s.len() > 0 {
        let t = s.drop_last();
        assert(is_digit(s[s.len() - 1]));
        assert forall|i: int| 0 <= i < t.len() implies is_digit(#[trigger] t[i]) by {
            assert(t[i] == s[i]);
        }
        lemma_digits_value_bound(t);
        if t.len() > 0 {
            let u = t.drop_last();
            assert forall|i: int| 0 <= i < u.len() implies is_digit(#[trigger] u[i]) by {
                assert(u[i] == t[i]);
            }
            lemma_digits_value_bound(u);
        }
    }
}

/// The number written by the digits of `chars` from `from` up to `to`, if
/// they are all digits.
fn read_digits(chars: &Vec<char>, from: usize, to: usize) -> (r: Option<u32>)
    requires
        from <= to <= chars.len(),
        to - from <= 8,
    ensures
        match r {
            Some(v) => all_digits(chars@.subrange(from as int, to as int)) && v == digits_value(
                chars@.subrange(from as int, to as int),
            ),
            None => !all_digits(chars@.subrange(from as int, to as int)),
        },
{
    let mut acc: u32 = 0;
    let mut i: usize = from;
    let ghost sub = chars@.subrange(from as int, to as int);
    while i < to
        invariant
            from <= i <= to <= chars.len(),
            to - from <= 8,
            sub == chars@.subrange(from as int, to as int),
            forall|j: int| 0 <= j < i - from ==> is_digit(#[trigger] sub[j]),
            acc == digits_value(sub.take(i - from)),
            acc < pow10(i - from),
        decreases to - i,
    {
        let c = chars[i];
        if !(c >= '0' && c <= '9') {
            proof {
                assert(sub[i - from] == c);
            }
            return None;
        }
        proof {
            let t = sub.take(i - from + 1);
            assert(t.drop_last() =~= sub.take(i - from));
            assert(t.last() == c);
            assert(sub[i - from] == c);
            let k = i - from;
            lemma_pow10_values();
            assert(k == 0 || k == 1 || k == 2 || k == 3 || k == 4 || k == 5 || k == 6 || k == 7);
            assert(pow10(k + 1) == 10 * pow10(k));
        }
        acc = acc * 10 + ((c as u32) - ('0' as u32));
        i += 1;
    }
    proof {
        assert(sub.take(to - from) =~= sub);
    }
    Some(acc)
}

pub open spec fn pow10(n: int) -> int
    decreases n,
{
    if n <= 0 {
        1
    } else {
        10 * pow10(n - 1)
    }
}

pub proof fn lemma_pow10_values()
    ensures
        pow10(0) == 1,
        pow10(1) == 10,
        pow10(2) == 100,
        pow10(3) == 1000,
        pow10(4) == 10000,
        pow10(5) == 100000,
        pow10(6) == 1000000,
        pow10(7) == 10000000,
        pow10(8) == 100000000,
{
    reveal_with_fuel(pow10, 10);
}

/// Reads the numbers of a date or date-time text.
pub fn read_date_text(text: &str) -> (r: Option<DateText>)
    ensures
        r == date_text_of(text@),
{
    let chars = chars_of(text);
    let n = chars.len();
    if n < 8 {
        return None;
    }
    let y = read_digits(&chars, 0, 4);
    let m = read_digits(&chars, 4, 6);
    let d = read_digits(&chars, 6, 8);
    proof {
        let s = text@;
        let all = s.subrange(0, 8);
        assert forall|i: int| 0 <= i < 4 implies s.subrange(0, 4)[i] == all[i] by {}
        assert forall|i: int| 0 <= i < 2 implies s.subrange(4, 6)[i] == all[i + 4] by {}
        assert forall|i: int| 0 <= i < 2 implies s.subrange(6, 8)[i] == all[i + 6] by {}
        if all_digits(s.subrange(0, 4)) && all_digits(s.subrange(4, 6)) && all_digits(
            s.subrange(6, 8),
        ) {
            assert forall|i: int| 0 <= i < 8 implies is_digit(#[trigger] all[i]) by {
                if i < 4 {
                    assert(s.subrange(0, 4)[i] == all[i]);
                } else if i < 6 {
                    assert(s.subrange(4, 6)[i - 4] == all[i]);
                } else {
                    assert(s.subrange(6, 8)[i - 6] == all[i]);
                }
            }
        }
        if all_digits(all) {
            assert forall|i: int| 0 <= i < 4 implies is_digit(#[trigger] s.subrange(0, 4)[i]) by {
                assert(s.subrange(0, 4)[i] == all[i]);
            }
            assert forall|i: int| 0 <= i < 2 implies is_digit(#[trigger] s.subrange(4, 6)[i]) by {
                assert(s.subrange(4, 6)[i] == all[i + 4]);
            }
            assert forall|i: int| 0 <= i < 2 implies is_digit(#[trigger] s.subrange(6, 8)[i]) by {
                assert(s.subrange(6, 8)[i] == all[i + 6]);
            }
            lemma_digits_value_bound(s.subrange(0, 4));
            lemma_digits_value_bound(s.subrange(4, 6));
            lemma_digits_value_bound(s.subrange(6, 8));
        }
    }
    let (y, m, d) = match (y, m, d) {
        (Some(y), Some(m), Some(d)) => (y, m, d),
        _ => {
            return None;
        },
    };
    let date = Date { year: y as i32, month: m as u8, day: d as u8 };
    if n == 8 {
        return Some(DateText { date, time: Time { hour: 0, minute: 0, second: 0 }, utc: false });
    }
    if n < 15 || n > 16 || chars[8] != 'T' {
        return None;
    }
    if n == 16 && chars[15] != 'Z' {
        return None;
    }
    let h = read_digits(&chars, 9, 11);
    let mi = read_digits(&chars, 11, 13);
    let s = read_digits(&chars, 13, 15);
    proof {
        let t = text@;
        let all = t.subrange(9, 15);
        if all_digits(t.subrange(9, 11)) && all_digits(t.subrange(11, 13)) && all_digits(
            t.subrange(13, 15),
        ) {
            assert forall|i: int| 0 <= i < 6 implies is_digit(#[trigger] all[i]) by {
                if i < 2 {
                    assert(t.subrange(9, 11)[i] == all[i]);
                } else if i < 4 {
                    assert(t.subrange(11, 13)[i - 2] == all[i]);
                } else {
                    assert(t.subrange(13, 15)[i - 4] == all[i]);
                }
            }
        }
        if all_digits(all) {
            assert forall|i: int| 0 <= i < 2 implies is_digit(#[trigger] t.subrange(9, 11)[i]) by {
                assert(t.subrange(9, 11)[i] == all[i]);
            }
            assert forall|i: int| 0 <= i < 2 implies is_digit(
                #[trigger] t.subrange(11, 13)[i],
            ) by {
                assert(t.subrange(11, 13)[i] == all[i + 2]);
            }
            assert forall|i: int| 0 <= i < 2 implies is_digit(
                #[trigger] t.subrange(13, 15)[i],
            ) by {
                assert(t.subrange(13, 15)[i] == all[i + 4]);
            }
            lemma_digits_value_bound(t.subrange(9, 11));
            lemma_digits_value_bound(t.subrange(11, 13));
            lemma_digits_value_bound(t.subrange(13, 15));
        }
    }
    match (h, mi, s) {
        (Some(h), Some(mi), Some(s)) => Some(
            DateText {
                date,
                time: Time { hour: h as u8, minute: mi as u8, second: s as u8 },
                utc: n == 16,
            },
        ),
        _ => None,
    }
}

/// The last four digits of a year; `0000` for a year before 0.
pub open spec fn year_text(y: i32) -> Seq<char> {
    padded_text(
        if y < 0 {
            0nat
        } else {
            y as nat
        },
        4,
    )
}

/// The text of a reading: `YYYYMMDDTHHMMSS`, with a `Z` after it where the
/// zone is UTC.
pub open spec fn datetime_text(t: DateTime) -> Seq<char> {
    year_text(t.date.year) + padded_text(t.date.month as nat, 2) + padded_text(
        t.date.day as nat,
        2,
    ) + seq!['T'] + padded_text(t.time.hour as nat, 2) + padded_text(t.time.minute as nat, 2)
        + padded_text(t.time.second as nat, 2) + (if t.zone == Tz::Utc {
        seq!['Z']
    } else {
        Seq::empty()
    })
}

impl DateTime {
    /// Appends the text of this reading to `out`.
    pub fn push_text(&self, out: &mut String)
        ensures
            final(out)@ == old(out)@ + datetime_text(*self),
    {
        proof {
            reveal_strlit("T");
            reveal_strlit("Z");
        }
        let y: u64 = if self.date.year < 0 {
            0
        } else {
            self.date.year as u64
        };
        push_padded(out, y, 4);
        push_padded(out, self.date.month as u64, 2);
        push_padded(out, self.date.day as u64, 2);
        out.append("T");
        push_padded(out, self.time.hour as u64, 2);
        push_padded(out, self.time.minute as u64, 2);
        push_padded(out, self.time.second as u64, 2);
        match self.zone {
            Tz::Utc => {
                out.append("Z");
            },
            _ => {},
        }
        assert(out@ =~= old(out)@ + datetime_text(*self));
    }
}

} // verus!
