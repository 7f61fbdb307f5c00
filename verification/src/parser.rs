//! From the pairs of a rule's text to a rule descriptor: one reader per
//! field, each with its own refusal, and the order in which they run.

use vstd::prelude::*;
use vstd::string::*;

use crate::datetime::{
    date_text_of, local_seconds, read_date_text, wall_seconds, DateText, DateTime,
};
use crate::error::{error_at, error_of, ParseError, ParseErrorKind, ParseErrorView, RRuleError};
use crate::kinds::{frequency_named, nweekday_of, weekday_named, Frequency, NWeekday, Weekday};
use crate::property::RRuleProperty;
use crate::props::{parse_parameters, props_of, Properties};
use crate::rule::{RRule, RRuleView};
use crate::text::{decimal_in, parse_decimal, split, split_text, str_eq, to_upper, upper_of};
use crate::zone::{instants_of, tz_named, Tz};

verus! {

/// The integers that a run of pieces writes, each within `lo..=hi`; nothing
/// where a piece is no such integer.
pub open spec fn ints_of_pieces(pieces: Seq<Seq<char>>, signed: bool, lo: int, hi: int) -> Option<
    Seq<i64>,
>
    decreases pieces.len(),
{
    if pieces.len() == 0 {
        Some(Seq::empty())
    } else {
        match ints_of_pieces(pieces.drop_last(), signed, lo, hi) {
            None => None,
            Some(v) => match decimal_in(pieces.last(), signed, lo, hi) {
                None => None,
                Some(x) => Some(v.push(x as i64)),
            },
        }
    }
}

/// The integers of a comma-separated list, each within `lo..=hi`.
pub open spec fn int_list_of(value: Seq<char>, signed: bool, lo: int, hi: int) -> Option<Seq<i64>> {
    ints_of_pieces(split(value, ','), signed, lo, hi)
}

/// One piece that is no integer of the range spoils the whole list.
pub proof fn lemma_bad_piece(pieces: Seq<Seq<char>>, signed: bool, lo: int, hi: int, k: int)
    requires
        0 <= k < pieces.len(),
        decimal_in(pieces[k], signed, lo, hi) is None,
    ensures
        ints_of_pieces(pieces, signed, lo, hi) is None,
    decreases pieces.len(),
{
    if k < pieces.len() - 1 {
        lemma_bad_piece(pieces.drop_last(), signed, lo, hi, k);
    }
}

/// A list that reads holds one integer of the range for each piece.
pub proof fn lemma_good_pieces(pieces: Seq<Seq<char>>, signed: bool, lo: int, hi: int)
    requires
        ints_of_pieces(pieces, signed, lo, hi) is Some,
        -0x1_0000_0000 <= lo <= hi <= 0x1_0000_0000,
    ensures
        ints_of_pieces(pieces, signed, lo, hi)->0.len() == pieces.len(),
        forall|k: int|
            0 <= k < pieces.len() ==> decimal_in(#[trigger] pieces[k], signed, lo, hi) == Some(
                ints_of_pieces(pieces, signed, lo, hi)->0[k] as int,
            ),
    decreases pieces.len(),
{
    if pieces.len() > 0 {
        lemma_good_pieces(pieces.drop_last(), signed, lo, hi);
        assert forall|k: int| 0 <= k < pieces.len() implies decimal_in(
            #[trigger] pieces[k],
            signed,
            lo,
            hi,
        ) == Some(ints_of_pieces(pieces, signed, lo, hi)->0[k] as int) by {
            if k < pieces.len() - 1 {
                assert(pieces.drop_last()[k] == pieces[k]);
            }
        }
    }
}

/// Reads a comma-separated list of integers, each within `lo..=hi`.
pub fn parse_int_list(value: &str, signed: bool, lo: i64, hi: i64) -> (r: Option<Vec<i64>>)
    requires
        -0x1_0000_0000 <= lo <= hi <= 0x1_0000_0000,
    ensures
        match r {
            Some(v) => int_list_of(value@, signed, lo as int, hi as int) == Some(v@)
                && forall|i: int| 0 <= i < v.len() ==> lo <= #[trigger] v[i] <= hi,
            None => int_list_of(value@, signed, lo as int, hi as int) is None,
        },
{
    let pieces = split_text(value, ',');
    let ghost all = split(value@, ',');
    let mut out: Vec<i64> = Vec::new();
    let mut i: usize = 0;
    proof {
        assert(all.take(0) =~= Seq::<Seq<char>>::empty());
    }
    while i < pieces.len()
        invariant
            i <= pieces.len(),
            -0x1_0000_0000 <= lo <= hi <= 0x1_0000_0000,
            all == split(value@, ','),
            pieces.len() == all.len(),
            forall|j: int| 0 <= j < pieces.len() ==> (#[trigger] pieces[j])@ == all[j],
            ints_of_pieces(all.take(i as int), signed, lo as int, hi as int) == Some(out@),
            forall|j: int| 0 <= j < out.len() ==> lo <= #[trigger] out[j] <= hi,
        decreases pieces.len() - i,
    {
        let piece: &str = pieces[i];
        proof {
            assert(all.take(i + 1).drop_last() =~= all.take(i as int));
            assert(all.take(i + 1).last() == all[i as int]);
            assert(piece@ == all[i as int]);
        }
        match parse_decimal(piece, signed, lo, hi) {
            None => {
                proof {
                    lemma_bad_piece(all, signed, lo as int, hi as int, i as int);
                }
                return None;
            },
            Some(x) => {
                out.push(x);
            },
        }
        i += 1;
    }
    proof {
        assert(all.take(i as int) =~= all);
    }
    Some(out)
}

pub open spec fn u8_list_of(value: Seq<char>, lo: int, hi: int) -> Option<Seq<u8>> {
    match int_list_of(value, false, lo, hi) {
        Some(v) => Some(v.map_values(|x: i64| x as u8)),
        None => None,
    }
}

pub open spec fn i8_list_of(value: Seq<char>, lo: int, hi: int) -> Option<Seq<i8>> {
    match int_list_of(value, true, lo, hi) {
        Some(v) => Some(v.map_values(|x: i64| x as i8)),
        None => None,
    }
}

pub open spec fn i16_list_of(value: Seq<char>, lo: int, hi: int) -> Option<Seq<i16>> {
    match int_list_of(value, true, lo, hi) {
        Some(v) => Some(v.map_values(|x: i64| x as i16)),
        None => None,
    }
}

pub open spec fn i32_list_of(value: Seq<char>, lo: int, hi: int) -> Option<Seq<i32>> {
    match int_list_of(value, true, lo, hi) {
        Some(v) => Some(v.map_values(|x: i64| x as i32)),
        None => None,
    }
}

/// Reads a comma-separated list of unsigned integers within `lo..=hi`.
pub fn parse_u8_list(value: &str, lo: u8, hi: u8) -> (r: Option<Vec<u8>>)
    requires
        lo <= hi,
    ensures
        r.is_some() == u8_list_of(value@, lo as int, hi as int).is_some(),
        r matches Some(v) ==> u8_list_of(value@, lo as int, hi as int) == Some(v@),
{
    match parse_int_list(value, false, lo as i64, hi as i64) {
        None => None,
        Some(v) => {
            let mut out: Vec<u8> = Vec::new();
            let mut i: usize = 0;
            while i < v.len()
                invariant
                    i <= v.len(),
                    forall|j: int| 0 <= j < v.len() ==> lo <= #[trigger] v[j] <= hi,
                    out@ == v@.take(i as int).map_values(|x: i64| x as u8),
                decreases v.len() - i,
            {
                out.push(v[i] as u8);
                proof {
                    assert(out@ =~= v@.take(i + 1).map_values(|x: i64| x as u8));
                }
                i += 1;
            }
            proof {
                assert(v@.take(i as int) =~= v@);
            }
            Some(out)
        },
    }
}

/// Reads a comma-separated list of signed integers within `lo..=hi`.
pub fn parse_i8_list(value: &str, lo: i8, hi: i8) -> (r: Option<Vec<i8>>)
    requires
        lo <= hi,
    ensures
        r.is_some() == i8_list_of(value@, lo as int, hi as int).is_some(),
        r matches Some(v) ==> i8_list_of(value@, lo as int, hi as int) == Some(v@),
{
    match parse_int_list(value, true, lo as i64, hi as i64) {
        None => None,
        Some(v) => {
            let mut out: Vec<i8> = Vec::new();
            let mut i: usize = 0;
            while i < v.len()
                invariant
                    i <= v.len(),
                    forall|j: int| 0 <= j < v.len() ==> lo <= #[trigger] v[j] <= hi,
                    out@ == v@.take(i as int).map_values(|x: i64| x as i8),
                decreases v.len() - i,
            {
                out.push(v[i] as i8);
                proof {
                    assert(out@ =~= v@.take(i + 1).map_values(|x: i64| x as i8));
                }
                i += 1;
            }
            proof {
                assert(v@.take(i as int) =~= v@);
            }
            Some(out)
        },
    }
}

/// Reads a comma-separated list of signed integers within `lo..=hi`.
pub fn parse_i16_list(value: &str, lo: i16, hi: i16) -> (r: Option<Vec<i16>>)
    requires
        lo <= hi,
    ensures
        r.is_some() == i16_list_of(value@, lo as int, hi as int).is_some(),
        r matches Some(v) ==> i16_list_of(value@, lo as int, hi as int) == Some(v@),
{
    match parse_int_list(value, true, lo as i64, hi as i64) {
        None => None,
        Some(v) => {
            let mut out: Vec<i16> = Vec::new();
            let mut i: usize = 0;
            while i < v.len()
                invariant
                    i <= v.len(),
                    forall|j: int| 0 <= j < v.len() ==> lo <= #[trigger] v[j] <= hi,
                    out@ == v@.take(i as int).map_values(|x: i64| x as i16),
                decreases v.len() - i,
            {
                out.push(v[i] as i16);
                proof {
                    assert(out@ =~= v@.take(i + 1).map_values(|x: i64| x as i16));
                }
                i += 1;
            }
            proof {
                assert(v@.take(i as int) =~= v@);
            }
            Some(out)
        },
    }
}

/// Reads a comma-separated list of signed integers within `lo..=hi`.
pub fn parse_i32_list(value: &str, lo: i32, hi: i32) -> (r: Option<Vec<i32>>)
    requires
        lo <= hi,
    ensures
        r.is_some() == i32_list_of(value@, lo as int, hi as int).is_some(),
        r matches Some(v) ==> i32_list_of(value@, lo as int, hi as int) == Some(v@),
{
    match parse_int_list(value, true, lo as i64, hi as i64) {
        None => None,
        Some(v) => {
            let mut out: Vec<i32> = Vec::new();
            let mut i: usize = 0;
            while i < v.len()
                invariant
                    i <= v.len(),
                    forall|j: int| 0 <= j < v.len() ==> lo <= #[trigger] v[j] <= hi,
                    out@ == v@.take(i as int).map_values(|x: i64| x as i32),
                decreases v.len() - i,
            {
                out.push(v[i] as i32);
                proof {
                    assert(out@ =~= v@.take(i + 1).map_values(|x: i64| x as i32));
                }
                i += 1;
            }
            proof {
                assert(v@.take(i as int) =~= v@);
            }
            Some(out)
        },
    }
}

/// The BYDAY entries that a run of pieces writes; nothing where a piece is
/// no such entry.
pub open spec fn weekdays_of_pieces(pieces: Seq<Seq<char>>) -> Option<Seq<NWeekday>>
    decreases pieces.len(),
{
    if pieces.len() == 0 {
        Some(Seq::empty())
    } else {
        match weekdays_of_pieces(pieces.drop_last()) {
            None => None,
            Some(v) => match nweekday_of(pieces.last()) {
                None => None,
                Some(x) => Some(v.push(x)),
            },
        }
    }
}

pub open spec fn weekday_list_of(value: Seq<char>) -> Option<Seq<NWeekday>> {
    weekdays_of_pieces(split(value, ','))
}

pub proof fn lemma_bad_weekday(pieces: Seq<Seq<char>>, k: int)
    requires
        0 <= k < pieces.len(),
        nweekday_of(pieces[k]) is None,
    ensures
        weekdays_of_pieces(pieces) is None,
    decreases pieces.len(),
{
    if k < pieces.len() - 1 {
        lemma_bad_weekday(pieces.drop_last(), k);
    }
}

/// Reads a comma-separated list of BYDAY entries.
pub fn parse_weekdays(value: &str) -> (r: Option<Vec<NWeekday>>)
    ensures
        r.is_some() == weekday_list_of(value@).is_some(),
        r matches Some(v) ==> weekday_list_of(value@) == Some(v@),
{
    let pieces = split_text(value, ',');
    let ghost all = split(value@, ',');
    let mut out: Vec<NWeekday> = Vec::new();
    let mut i: usize = 0;
    proof {
        assert(all.take(0) =~= Seq::<Seq<char>>::empty());
    }
    while i < pieces.len()
        invariant
            i <= pieces.len(),
            all == split(value@, ','),
            pieces.len() == all.len(),
            forall|j: int| 0 <= j < pieces.len() ==> (#[trigger] pieces[j])@ == all[j],
            weekdays_of_pieces(all.take(i as int)) == Some(out@),
        decreases pieces.len() - i,
    {
        let piece: &str = pieces[i];
        proof {
            assert(all.take(i + 1).drop_last() =~= all.take(i as int));
            assert(all.take(i + 1).last() == all[i as int]);
            assert(piece@ == all[i as int]);
        }
        match NWeekday::from_str(piece) {
            None => {
                proof {
                    lemma_bad_weekday(all, i as int);
                }
                return None;
            },
            Some(x) => {
                out.push(x);
            },
        }
        i += 1;
    }
    proof {
        assert(all.take(i as int) =~= all);
    }
    Some(out)
}

/// The truth value that an upper-case word writes.
pub open spec fn flag_named(up: Seq<char>) -> Option<bool> {
    if up == "TRUE"@ || up == "1"@ || up == "YES"@ {
        Some(true)
    } else if up == "FALSE"@ || up == "0"@ || up == "NO"@ {
        Some(false)
    } else {
        None
    }
}

/// The truth value written by a word that is already in upper case.
pub fn flag_from_upper(up: &str) -> (r: Option<bool>)
    ensures
        r == flag_named(up@),
{
    if str_eq(up, "TRUE") || str_eq(up, "1") || str_eq(up, "YES") {
        Some(true)
    } else if str_eq(up, "FALSE") || str_eq(up, "0") || str_eq(up, "NO") {
        Some(false)
    } else {
        None
    }
}

/// The zone in which a date-time text is read: UTC where it says so, else
/// the rule's own zone, else the ambient one.
pub open spec fn zone_for(text: DateText, tzid: Option<Tz>) -> Tz {
    if text.utc {
        Tz::Utc
    } else {
        match tzid {
            Some(z) => z,
            None => Tz::Local,
        }
    }
}

/// What a floating text asks of the zone database: the zone and the
/// wall-clock seconds to resolve in it. Nothing for a text that cannot be
/// read, names no real date and time, or is marked as UTC.
pub open spec fn floating_request(value: Seq<char>, tzid: Option<Tz>) -> Option<(Tz, int)> {
    match date_text_of(value) {
        None => None,
        Some(t) => if t.date.valid() && t.time.valid() && !t.utc {
            Some((zone_for(t, tzid), local_seconds(t.date, t.time)))
        } else {
            None
        },
    }
}

/// The reading that a date or date-time text stands for, given the instants
/// that resolving a floating text gave (not looked at for a text marked as
/// UTC): a text of no known form is refused with `InvalidDateTimeFormat`,
/// one that names no real date and time with `InvalidDateTime`, one whose
/// wall-clock time the zone skips with `InvalidDateTimeInLocalTimezone`,
/// and one that the zone shows twice with
/// `DateTimeInLocalTimezoneIsAmbiguous`.
pub open spec fn datetime_of(
    value: Seq<char>,
    property: Seq<char>,
    tzid: Option<Tz>,
    instants: Seq<i64>,
) -> Result<DateTime, ParseErrorView> {
    match date_text_of(value) {
        None => Err(error_of(ParseErrorKind::InvalidDateTimeFormat, value)),
        Some(t) => if !(t.date.valid() && t.time.valid()) {
            Err(error_at(ParseErrorKind::InvalidDateTime, value, property))
        } else {
            let zone = zone_for(t, tzid);
            let found = if t.utc {
                seq![local_seconds(t.date, t.time) as i64]
            } else {
                instants
            };
            if found.len() == 0 {
                Err(error_at(ParseErrorKind::InvalidDateTimeInLocalTimezone, value, property))
            } else if found.len() == 1 {
                Ok(DateTime { date: t.date, time: t.time, timestamp: found[0], zone })
            } else {
                Err(error_at(ParseErrorKind::DateTimeInLocalTimezoneIsAmbiguous, value, property))
            }
        },
    }
}

/// What a floating text asks of the zone database, if anything.
pub fn request_of_text(value: &str, tzid: Option<Tz>) -> (r: Option<(Tz, i64)>)
    ensures
        match r {
            Some((z, l)) => floating_request(value@, tzid) == Some((z, l as int)),
            None => floating_request(value@, tzid) is None,
        },
{
    match read_date_text(value) {
        None => None,
        Some(t) => {
            if crate::calendar::is_valid_date(t.date.year, t.date.month, t.date.day)
                && t.time.is_valid() && !t.utc {
                let zone = match tzid {
                    Some(z) => z,
                    None => Tz::Local,
                };
                Some((zone, wall_seconds(t.date, t.time)))
            } else {
                None
            }
        },
    }
}

/// Reads a date or date-time text, given the instants that resolving it as
/// a floating text gave.
pub fn datetime_from_text(value: &str, property: &str, tzid: Option<Tz>, instants: &Vec<i64>) -> (r:
    Result<DateTime, ParseError>)
    ensures
        match r {
            Ok(t) => datetime_of(value@, property@, tzid, instants@) == Ok::<
                DateTime,
                ParseErrorView,
            >(t),
            Err(e) => datetime_of(value@, property@, tzid, instants@) == Err::<
                DateTime,
                ParseErrorView,
            >(e@),
        },
{
    match read_date_text(value) {
        None => Err(ParseError::InvalidDateTimeFormat(value.to_owned())),
        Some(t) => {
            if !(crate::calendar::is_valid_date(t.date.year, t.date.month, t.date.day)
                && t.time.is_valid()) {
                return Err(
                    ParseError::InvalidDateTime {
                        value: value.to_owned(),
                        property: property.to_owned(),
                    },
                );
            }
            if t.utc {
                let local = wall_seconds(t.date, t.time);
                return Ok(DateTime { date: t.date, time: t.time, timestamp: local, zone: Tz::Utc });
            }
            let zone = match tzid {
                Some(z) => z,
                None => Tz::Local,
            };
            if instants.len() == 0 {
                Err(
                    ParseError::InvalidDateTimeInLocalTimezone {
                        value: value.to_owned(),
                        property: property.to_owned(),
                    },
                )
            } else if instants.len() == 1 {
                Ok(DateTime { date: t.date, time: t.time, timestamp: instants[0], zone })
            } else {
                Err(
                    ParseError::DateTimeInLocalTimezoneIsAmbiguous {
                        value: value.to_owned(),
                        property: property.to_owned(),
                    },
                )
            }
        },
    }
}

/// The pairs of a rule's text, by key.
pub type Props = Map<RRuleProperty, Seq<char>>;

/// FREQ must stand and name a frequency, in any letter case.
pub open spec fn freq_field(p: Props) -> Result<Frequency, ParseErrorView> {
    if !p.dom().contains(RRuleProperty::Freq) {
        Err(error_of(ParseErrorKind::MissingProperty, "FREQ"@))
    } else {
        match frequency_named(upper_of(p[RRuleProperty::Freq])) {
            Some(f) => Ok(f),
            None => Err(error_of(ParseErrorKind::InvalidFrequency, p[RRuleProperty::Freq])),
        }
    }
}

/// INTERVAL is an integer of 0 to 65535; 1 where it is absent.
pub open spec fn interval_field(p: Props) -> Result<u16, ParseErrorView> {
    if !p.dom().contains(RRuleProperty::Interval) {
        Ok(1u16)
    } else {
        match decimal_in(p[RRuleProperty::Interval], false, 0, 65535) {
            Some(v) => Ok(v as u16),
            None => Err(error_of(ParseErrorKind::InvalidInterval, p[RRuleProperty::Interval])),
        }
    }
}

/// COUNT is an integer of 0 to 4294967295.
pub open spec fn count_field(p: Props) -> Result<Option<u32>, ParseErrorView> {
    if !p.dom().contains(RRuleProperty::Count) {
        Ok(None)
    } else {
        match decimal_in(p[RRuleProperty::Count], false, 0, 4294967295) {
            Some(v) => Ok(Some(v as u32)),
            None => Err(error_of(ParseErrorKind::InvalidCount, p[RRuleProperty::Count])),
        }
    }
}

/// LOCAL-TZID names a zone: `UTC` or a zone of the database.
pub open spec fn tzid_field(p: Props) -> Result<Option<Tz>, ParseErrorView> {
    if !p.dom().contains(RRuleProperty::LocalTzid) {
        Ok(None)
    } else {
        match tz_named(p[RRuleProperty::LocalTzid]) {
            Some(z) => Ok(Some(z)),
            None => Err(error_of(ParseErrorKind::InvalidTimezone, p[RRuleProperty::LocalTzid])),
        }
    }
}

/// UNTIL is a date or date-time text; a floating one is read in the zone
/// that LOCAL-TZID names, or in the ambient zone where there is none.
pub open spec fn until_field(p: Props, tzid: Option<Tz>, instants: Seq<i64>) -> Result<
    Option<DateTime>,
    ParseErrorView,
> {
    if !p.dom().contains(RRuleProperty::Until) {
        Ok(None)
    } else {
        match datetime_of(p[RRuleProperty::Until], "UNTIL"@, tzid, instants) {
            Ok(t) => Ok(Some(t)),
            Err(e) => Err(e),
        }
    }
}

/// WKST names a weekday, in any letter case; Monday where it is absent.
pub open spec fn wkst_field(p: Props) -> Result<Weekday, ParseErrorView> {
    if !p.dom().contains(RRuleProperty::Wkst) {
        Ok(Weekday::Mon)
    } else {
        match weekday_named(upper_of(p[RRuleProperty::Wkst])) {
            Some(w) => Ok(w),
            None => Err(error_of(ParseErrorKind::InvalidWeekdayStart, p[RRuleProperty::Wkst])),
        }
    }
}

/// A list of unsigned integers within `lo..=hi` under `key`; empty where
/// the key is absent, refused with `kind` where a piece is out of range or
/// no integer.
pub open spec fn u8_field(p: Props, key: RRuleProperty, lo: int, hi: int, kind: ParseErrorKind)
    -> Result<Seq<u8>, ParseErrorView> {
    if !p.dom().contains(key) {
        Ok(Seq::empty())
    } else {
        match u8_list_of(p[key], lo, hi) {
            Some(v) => Ok(v),
            None => Err(error_of(kind, p[key])),
        }
    }
}

pub open spec fn i8_field(p: Props, key: RRuleProperty, lo: int, hi: int, kind: ParseErrorKind)
    -> Result<Seq<i8>, ParseErrorView> {
    if !p.dom().contains(key) {
        Ok(Seq::empty())
    } else {
        match i8_list_of(p[key], lo, hi) {
            Some(v) => Ok(v),
            None => Err(error_of(kind, p[key])),
        }
    }
}

pub open spec fn i16_field(p: Props, key: RRuleProperty, lo: int, hi: int, kind: ParseErrorKind)
    -> Result<Seq<i16>, ParseErrorView> {
    if !p.dom().contains(key) {
        Ok(Seq::empty())
    } else {
        match i16_list_of(p[key], lo, hi) {
            Some(v) => Ok(v),
            None => Err(error_of(kind, p[key])),
        }
    }
}

pub open spec fn i32_field(p: Props, key: RRuleProperty, lo: int, hi: int, kind: ParseErrorKind)
    -> Result<Seq<i32>, ParseErrorView> {
    if !p.dom().contains(key) {
        Ok(Seq::empty())
    } else {
        match i32_list_of(p[key], lo, hi) {
            Some(v) => Ok(v),
            None => Err(error_of(kind, p[key])),
        }
    }
}

/// BYSETPOS: signed integers, any that 32 bits hold.
pub open spec fn by_set_pos_field(p: Props) -> Result<Seq<i32>, ParseErrorView> {
    i32_field(
        p,
        RRuleProperty::BySetPos,
        i32::MIN as int,
        i32::MAX as int,
        ParseErrorKind::InvalidBySetPos,
    )
}

/// BYMONTH: each of 1 to 12.
pub open spec fn by_month_field(p: Props) -> Result<Seq<u8>, ParseErrorView> {
    u8_field(p, RRuleProperty::ByMonth, 1, 12, ParseErrorKind::InvalidByMonth)
}

/// BYMONTHDAY: each of -31 to 31.
pub open spec fn by_month_day_field(p: Props) -> Result<Seq<i8>, ParseErrorView> {
    i8_field(p, RRuleProperty::ByMonthDay, -31, 31, ParseErrorKind::InvalidByMonthDay)
}

/// BYYEARDAY: each of -366 to 366.
pub open spec fn by_year_day_field(p: Props) -> Result<Seq<i16>, ParseErrorView> {
    i16_field(p, RRuleProperty::ByYearDay, -366, 366, ParseErrorKind::InvalidByYearDay)
}

/// BYWEEKNO: each of -53 to 53.
pub open spec fn by_week_no_field(p: Props) -> Result<Seq<i8>, ParseErrorView> {
    i8_field(p, RRuleProperty::ByWeekNo, -53, 53, ParseErrorKind::InvalidByWeekNo)
}

/// BYDAY: weekdays, each with or without a signed ordinal before it.
pub open spec fn by_weekday_field(p: Props) -> Result<Seq<NWeekday>, ParseErrorView> {
    if !p.dom().contains(RRuleProperty::ByDay) {
        Ok(Seq::empty())
    } else {
        match weekday_list_of(p[RRuleProperty::ByDay]) {
            Some(v) => Ok(v),
            None => Err(error_of(ParseErrorKind::InvalidWeekday, p[RRuleProperty::ByDay])),
        }
    }
}

/// BYHOUR: each of 0 to 23.
pub open spec fn by_hour_field(p: Props) -> Result<Seq<u8>, ParseErrorView> {
    u8_field(p, RRuleProperty::ByHour, 0, 23, ParseErrorKind::InvalidByHour)
}

/// BYMINUTE: each of 0 to 59.
pub open spec fn by_minute_field(p: Props) -> Result<Seq<u8>, ParseErrorView> {
    u8_field(p, RRuleProperty::ByMinute, 0, 59, ParseErrorKind::InvalidByMinute)
}

/// BYSECOND: each of 0 to 59.
pub open spec fn by_second_field(p: Props) -> Result<Seq<u8>, ParseErrorView> {
    u8_field(p, RRuleProperty::BySecond, 0, 59, ParseErrorKind::InvalidBySecond)
}

/// X-INCLUDE-DTSTART: `TRUE`, `1` or `YES` for true, `FALSE`, `0` or `NO`
/// for false, in any letter case.
pub open spec fn include_field(p: Props) -> Result<Option<bool>, ParseErrorView> {
    if !p.dom().contains(RRuleProperty::XIncludeDtstart) {
        Ok(None)
    } else {
        match flag_named(upper_of(p[RRuleProperty::XIncludeDtstart])) {
            Some(b) => Ok(Some(b)),
            None => Err(
                error_of(
                    ParseErrorKind::InvalidXIncludeDtstart,
                    p[RRuleProperty::XIncludeDtstart],
                ),
            ),
        }
    }
}

/// The rule that the pairs `p` describe, or the first refusal among its
/// fields, which are read in this order: FREQ, INTERVAL, COUNT, LOCAL-TZID,
/// UNTIL, WKST, BYSETPOS, BYMONTH, BYMONTHDAY, BYYEARDAY, BYWEEKNO, BYDAY,
/// BYHOUR, BYMINUTE, BYSECOND, X-INCLUDE-DTSTART. `instants` is what
/// resolving a floating UNTIL gave.
pub open spec fn rule_of_props(p: Props, instants: Seq<i64>) -> Result<RRuleView, ParseErrorView> {
    let freq = freq_field(p);
    let interval = interval_field(p);
    let count = count_field(p);
    let tzid = tzid_field(p);
    let wkst = wkst_field(p);
    let by_set_pos = by_set_pos_field(p);
    let by_month = by_month_field(p);
    let by_month_day = by_month_day_field(p);
    let by_year_day = by_year_day_field(p);
    let by_week_no = by_week_no_field(p);
    let by_weekday = by_weekday_field(p);
    let by_hour = by_hour_field(p);
    let by_minute = by_minute_field(p);
    let by_second = by_second_field(p);
    let incl = include_field(p);
    if freq is Err {
        Err(freq->Err_0)
    } else if interval is Err {
        Err(interval->Err_0)
    } else if count is Err {
        Err(count->Err_0)
    } else if tzid is Err {
        Err(tzid->Err_0)
    } else if until_field(p, tzid->Ok_0, instants) is Err {
        Err(until_field(p, tzid->Ok_0, instants)->Err_0)
    } else if wkst is Err {
        Err(wkst->Err_0)
    } else if by_set_pos is Err {
        Err(by_set_pos->Err_0)
    } else if by_month is Err {
        Err(by_month->Err_0)
    } else if by_month_day is Err {
        Err(by_month_day->Err_0)
    } else if by_year_day is Err {
        Err(by_year_day->Err_0)
    } else if by_week_no is Err {
        Err(by_week_no->Err_0)
    } else if by_weekday is Err {
        Err(by_weekday->Err_0)
    } else if by_hour is Err {
        Err(by_hour->Err_0)
    } else if by_minute is Err {
        Err(by_minute->Err_0)
    } else if by_second is Err {
        Err(by_second->Err_0)
    } else if incl is Err {
        Err(incl->Err_0)
    } else {
        Ok(
            RRuleView {
                freq: freq->Ok_0,
                interval: interval->Ok_0,
                count: count->Ok_0,
                until: until_field(p, tzid->Ok_0, instants)->Ok_0,
                week_start: wkst->Ok_0,
                by_set_pos: by_set_pos->Ok_0,
                by_month: by_month->Ok_0,
                by_month_day: by_month_day->Ok_0,
                by_year_day: by_year_day->Ok_0,
                by_week_no: by_week_no->Ok_0,
                by_weekday: by_weekday->Ok_0,
                by_hour: by_hour->Ok_0,
                by_minute: by_minute->Ok_0,
                by_second: by_second->Ok_0,
                include_dtstart: incl->Ok_0,
                local_tzid: tzid->Ok_0,
            },
        )
    }
}

/// What the pairs' UNTIL asks of the zone database: nothing where UNTIL is
/// absent, LOCAL-TZID names no zone, or UNTIL is not a floating text of a
/// real date and time.
pub open spec fn until_request(p: Props) -> Option<(Tz, int)> {
    if p.dom().contains(RRuleProperty::Until) && tzid_field(p) is Ok {
        floating_request(p[RRuleProperty::Until], tzid_field(p)->Ok_0)
    } else {
        None
    }
}

/// Whether `got` is what the pairs `p` read as: the rule for the instants
/// that the zone database gives for a floating UNTIL, or, where the ambient
/// zone is the one asked, the rule for some answer of at most two instants.
pub open spec fn props_read_as(got: Result<RRuleView, ParseErrorView>, p: Props) -> bool {
    match until_request(p) {
        Some((zone, local)) => if zone != Tz::Local {
            got == rule_of_props(p, instants_of(zone, local))
        } else {
            exists|found: Seq<i64>| found.len() <= 2 && got == #[trigger] rule_of_props(p, found)
        },
        None => got == rule_of_props(p, Seq::empty()),
    }
}

/// A parse result as a plain value.
pub open spec fn outcome(r: Result<RRule, ParseError>) -> Result<RRuleView, ParseErrorView> {
    match r {
        Ok(rule) => Ok(rule@),
        Err(e) => Err(e@),
    }
}

/// Whether the result `r` of reading a field is what the field should read
/// as.
pub open spec fn reads_value<T>(r: Result<T, ParseError>, want: Result<T, ParseErrorView>) -> bool {
    match r {
        Ok(v) => want == Ok::<T, ParseErrorView>(v),
        Err(e) => want == Err::<T, ParseErrorView>(e@),
    }
}

/// Whether the result `r` of reading a list field is what the field should
/// read as.
pub open spec fn reads_list<T>(r: Result<Vec<T>, ParseError>, want: Result<Seq<T>, ParseErrorView>)
    -> bool {
    match r {
        Ok(v) => want == Ok::<Seq<T>, ParseErrorView>(v@),
        Err(e) => want == Err::<Seq<T>, ParseErrorView>(e@),
    }
}

/// Reads FREQ.
pub fn read_freq(props: &Properties) -> (r: Result<Frequency, ParseError>)
    ensures
        reads_value(r, freq_field(props@)),
{
    match props.get(RRuleProperty::Freq) {
        None => Err(ParseError::MissingProperty("FREQ".to_owned())),
        Some(v) => match Frequency::from_str(v) {
            Some(f) => Ok(f),
            None => Err(ParseError::InvalidFrequency(v.to_owned())),
        },
    }
}

/// Reads INTERVAL.
pub fn read_interval(props: &Properties) -> (r: Result<u16, ParseError>)
    ensures
        reads_value(r, interval_field(props@)),
{
    match props.get(RRuleProperty::Interval) {
        None => Ok(1),
        Some(v) => match parse_decimal(v, false, 0, 65535) {
            Some(x) => Ok(x as u16),
            None => Err(ParseError::InvalidInterval(v.to_owned())),
        },
    }
}

/// Reads COUNT.
pub fn read_count(props: &Properties) -> (r: Result<Option<u32>, ParseError>)
    ensures
        reads_value(r, count_field(props@)),
{
    match props.get(RRuleProperty::Count) {
        None => Ok(None),
        Some(v) => match parse_decimal(v, false, 0, 4294967295) {
            Some(x) => Ok(Some(x as u32)),
            None => Err(ParseError::InvalidCount(v.to_owned())),
        },
    }
}

/// Reads LOCAL-TZID.
pub fn read_tzid(props: &Properties) -> (r: Result<Option<Tz>, ParseError>)
    ensures
        reads_value(r, tzid_field(props@)),
{
    match props.get(RRuleProperty::LocalTzid) {
        None => Ok(None),
        Some(v) => match Tz::named(v) {
            Some(z) => Ok(Some(z)),
            None => Err(ParseError::InvalidTimezone(v.to_owned())),
        },
    }
}

/// Reads UNTIL, given the zone that LOCAL-TZID named and the instants that
/// resolving a floating text gave.
pub fn read_until(props: &Properties, tzid: Option<Tz>, instants: &Vec<i64>) -> (r: Result<
    Option<DateTime>,
    ParseError,
>)
    ensures
        reads_value(r, until_field(props@, tzid, instants@)),
{
    match props.get(RRuleProperty::Until) {
        None => Ok(None),
        Some(v) => match datetime_from_text(v, "UNTIL", tzid, instants) {
            Ok(t) => Ok(Some(t)),
            Err(e) => Err(e),
        },
    }
}

/// Reads WKST.
pub fn read_wkst(props: &Properties) -> (r: Result<Weekday, ParseError>)
    ensures
        reads_value(r, wkst_field(props@)),
{
    match props.get(RRuleProperty::Wkst) {
        None => Ok(Weekday::Mon),
        Some(v) => match Weekday::from_str(v) {
            Some(w) => Ok(w),
            None => Err(ParseError::InvalidWeekdayStart(v.to_owned())),
        },
    }
}

/// Reads BYSETPOS.
pub fn read_by_set_pos(props: &Properties) -> (r: Result<Vec<i32>, ParseError>)
    ensures
        reads_list(r, by_set_pos_field(props@)),
{
    match props.get(RRuleProperty::BySetPos) {
        None => Ok(Vec::new()),
        Some(v) => match parse_i32_list(v, i32::MIN, i32::MAX) {
            Some(l) => Ok(l),
            None => Err(ParseError::InvalidBySetPos(v.to_owned())),
        },
    }
}

/// Reads BYMONTH.
pub fn read_by_month(props: &Properties) -> (r: Result<Vec<u8>, ParseError>)
    ensures
        reads_list(r, by_month_field(props@)),
{
    match props.get(RRuleProperty::ByMonth) {
        None => Ok(Vec::new()),
        Some(v) => match parse_u8_list(v, 1, 12) {
            Some(l) => Ok(l),
            None => Err(ParseError::InvalidByMonth(v.to_owned())),
        },
    }
}

/// Reads BYMONTHDAY.
pub fn read_by_month_day(props: &Properties) -> (r: Result<Vec<i8>, ParseError>)
    ensures
        reads_list(r, by_month_day_field(props@)),
{
    match props.get(RRuleProperty::ByMonthDay) {
        None => Ok(Vec::new()),
        Some(v) => match parse_i8_list(v, -31, 31) {
            Some(l) => Ok(l),
            None => Err(ParseError::InvalidByMonthDay(v.to_owned())),
        },
    }
}

/// Reads BYYEARDAY.
pub fn read_by_year_day(props: &Properties) -> (r: Result<Vec<i16>, ParseError>)
    ensures
        reads_list(r, by_year_day_field(props@)),
{
    match props.get(RRuleProperty::ByYearDay) {
        None => Ok(Vec::new()),
        Some(v) => match parse_i16_list(v, -366, 366) {
            Some(l) => Ok(l),
            None => Err(ParseError::InvalidByYearDay(v.to_owned())),
        },
    }
}

/// Reads BYWEEKNO.
pub fn read_by_week_no(props: &Properties) -> (r: Result<Vec<i8>, ParseError>)
    ensures
        reads_list(r, by_week_no_field(props@)),
{
    match props.get(RRuleProperty::ByWeekNo) {
        None => Ok(Vec::new()),
        Some(v) => match parse_i8_list(v, -53, 53) {
            Some(l) => Ok(l),
            None => Err(ParseError::InvalidByWeekNo(v.to_owned())),
        },
    }
}

/// Reads BYDAY.
pub fn read_by_weekday(props: &Properties) -> (r: Result<Vec<NWeekday>, ParseError>)
    ensures
        reads_list(r, by_weekday_field(props@)),
{
    match props.get(RRuleProperty::ByDay) {
        None => Ok(Vec::new()),
        Some(v) => match parse_weekdays(v) {
            Some(l) => Ok(l),
            None => Err(ParseError::InvalidWeekday(v.to_owned())),
        },
    }
}

/// Reads BYHOUR.
pub fn read_by_hour(props: &Properties) -> (r: Result<Vec<u8>, ParseError>)
    ensures
        reads_list(r, by_hour_field(props@)),
{
    match props.get(RRuleProperty::ByHour) {
        None => Ok(Vec::new()),
        Some(v) => match parse_u8_list(v, 0, 23) {
            Some(l) => Ok(l),
            None => Err(ParseError::InvalidByHour(v.to_owned())),
        },
    }
}

/// Reads BYMINUTE.
pub fn read_by_minute(props: &Properties) -> (r: Result<Vec<u8>, ParseError>)
    ensures
        reads_list(r, by_minute_field(props@)),
{
    match props.get(RRuleProperty::ByMinute) {
        None => Ok(Vec::new()),
        Some(v) => match parse_u8_list(v, 0, 59) {
            Some(l) => Ok(l),
            None => Err(ParseError::InvalidByMinute(v.to_owned())),
        },
    }
}

/// Reads BYSECOND.
pub fn read_by_second(props: &Properties) -> (r: Result<Vec<u8>, ParseError>)
    ensures
        reads_list(r, by_second_field(props@)),
{
    match props.get(RRuleProperty::BySecond) {
        None => Ok(Vec::new()),
        Some(v) => match parse_u8_list(v, 0, 59) {
            Some(l) => Ok(l),
            None => Err(ParseError::InvalidBySecond(v.to_owned())),
        },
    }
}

/// Reads X-INCLUDE-DTSTART.
pub fn read_include_dtstart(props: &Properties) -> (r: Result<Option<bool>, ParseError>)
    ensures
        reads_value(r, include_field(props@)),
{
    match props.get(RRuleProperty::XIncludeDtstart) {
        None => Ok(None),
        Some(v) => {
            let up = to_upper(v);
            match flag_from_upper(up.as_str()) {
                Some(b) => Ok(Some(b)),
                None => Err(ParseError::InvalidXIncludeDtstart(v.to_owned())),
            }
        },
    }
}

/// Takes a map of [`RRuleProperty`] and returns an [`RRule`], given the
/// instants that resolving a floating UNTIL gave.
pub fn rule_from_props(props: &Properties, instants: &Vec<i64>) -> (r: Result<RRule, ParseError>)
    ensures
        outcome(r) == rule_of_props(props@, instants@),
{
    let freq = match read_freq(props) {
        Ok(v) => v,
        Err(e) => {
            return Err(e);
        },
    };
    let interval = match read_interval(props) {
        Ok(v) => v,
        Err(e) => {
            return Err(e);
        },
    };
    let count = match read_count(props) {
        Ok(v) => v,
        Err(e) => {
            return Err(e);
        },
    };
    // LOCAL-TZID comes before UNTIL, whose reading may depend on it.
    let local_tzid = match read_tzid(props) {
        Ok(v) => v,
        Err(e) => {
            return Err(e);
        },
    };
    let until = match read_until(props, local_tzid, instants) {
        Ok(v) => v,
        Err(e) => {
            return Err(e);
        },
    };
    let week_start = match read_wkst(props) {
        Ok(v) => v,
        Err(e) => {
            return Err(e);
        },
    };
    let by_set_pos = match read_by_set_pos(props) {
        Ok(v) => v,
        Err(e) => {
            return Err(e);
        },
    };
    let by_month = match read_by_month(props) {
        Ok(v) => v,
        Err(e) => {
            return Err(e);
        },
    };
    let by_month_day = match read_by_month_day(props) {
        Ok(v) => v,
        Err(e) => {
            return Err(e);
        },
    };
    let by_year_day = match read_by_year_day(props) {
        Ok(v) => v,
        Err(e) => {
            return Err(e);
        },
    };
    let by_week_no = match read_by_week_no(props) {
        Ok(v) => v,
        Err(e) => {
            return Err(e);
        },
    };
    let by_weekday = match read_by_weekday(props) {
        Ok(v) => v,
        Err(e) => {
            return Err(e);
        },
    };
    let by_hour = match read_by_hour(props) {
        Ok(v) => v,
        Err(e) => {
            return Err(e);
        },
    };
    let by_minute = match read_by_minute(props) {
        Ok(v) => v,
        Err(e) => {
            return Err(e);
        },
    };
    let by_second = match read_by_second(props) {
        Ok(v) => v,
        Err(e) => {
            return Err(e);
        },
    };
    let include_dtstart = match read_include_dtstart(props) {
        Ok(v) => v,
        Err(e) => {
            return Err(e);
        },
    };
    Ok(
        RRule {
            freq,
            interval,
            count,
            until,
            week_start,
            by_set_pos,
            by_month,
            by_month_day,
            by_year_day,
            by_week_no,
            by_weekday,
            by_hour,
            by_minute,
            by_second,
            include_dtstart,
            local_tzid,
        },
    )
}

/// The instants that the pairs' UNTIL resolves to, where it is a floating
/// text: the zone database is asked, or the host for the ambient zone.
fn resolve_until(props: &Properties) -> (r: Vec<i64>)
    ensures
        r.len() <= 2,
        match until_request(props@) {
            Some((zone, local)) => zone != Tz::Local ==> r@ == instants_of(zone, local),
            None => r@ == Seq::<i64>::empty(),
        },
{
    let tzid = match read_tzid(props) {
        Ok(z) => z,
        Err(_) => {
            return Vec::new();
        },
    };
    assert(tzid_field(props@) == Ok::<Option<Tz>, ParseErrorView>(tzid));
    match props.get(RRuleProperty::Until) {
        None => Vec::new(),
        Some(v) => match request_of_text(v, tzid) {
            None => Vec::new(),
            Some((zone, local)) => zone.resolve(local),
        },
    }
}

/// Takes a map of [`RRuleProperty`] and returns an [`RRule`], or the first
/// refusal among the fields in the order that `rule_of_props` gives. A
/// floating UNTIL is resolved in the zone that LOCAL-TZID names, wherever
/// the two stand in the text; without LOCAL-TZID the host's zone decides,
/// and the result is the rule for whatever instants the host gave.
pub fn props_to_rrule(props: &Properties) -> (r: Result<RRule, ParseError>)
    ensures
        props_read_as(outcome(r), props@),
{
    let instants = resolve_until(props);
    let r = rule_from_props(props, &instants);
    proof {
        assert(outcome(r) == rule_of_props(props@, instants@));
    }
    r
}

/// The three parts of one content line.
#[derive(Debug, Clone, Copy, PartialEq, Eq)]
pub struct ContentLineCaptures<'a> {
    pub property_name: PropertyName,
    pub parameters: Option<&'a str>,
    pub value: &'a str,
}

/// The names that a content line of a recurrence set may carry.
#[derive(Debug, Clone, Copy, PartialEq, Eq, Hash, Structural)]
pub enum PropertyName {
    RRule,
    ExRule,
    ExDate,
    RDate,
    DtStart,
}

/// What a rule's content line reads as, given the instants that resolving a
/// floating UNTIL gave: parameters on the line are refused, then the pairs
/// of the value are read, then the fields.
pub open spec fn rule_of_line(parameters: Option<Seq<char>>, value: Seq<char>, instants: Seq<i64>)
    -> Result<RRuleView, ParseErrorView> {
    if parameters is Some && parameters->0.len() > 0 {
        Err(error_of(ParseErrorKind::PropertyParametersNotSupported, parameters->0))
    } else {
        match props_of(value) {
            Err(e) => Err(e),
            Ok(p) => rule_of_props(p, instants),
        }
    }
}

/// What the line's UNTIL asks of the zone database, if the line gets that
/// far.
pub open spec fn line_request(parameters: Option<Seq<char>>, value: Seq<char>) -> Option<(Tz, int)> {
    if parameters is Some && parameters->0.len() > 0 {
        None
    } else {
        match props_of(value) {
            Err(e) => None,
            Ok(p) => until_request(p),
        }
    }
}

pub open spec fn text_view(s: Option<&str>) -> Option<Seq<char>> {
    match s {
        Some(t) => Some(t@),
        None => None,
    }
}

/// Whether `got` is what a rule's content line reads as; see `props_read_as`.
pub open spec fn line_reads_as(
    got: Result<RRuleView, ParseErrorView>,
    parameters: Option<Seq<char>>,
    value: Seq<char>,
) -> bool {
    match line_request(parameters, value) {
        Some((zone, local)) => if zone != Tz::Local {
            got == rule_of_line(parameters, value, instants_of(zone, local))
        } else {
            exists|found: Seq<i64>|
                found.len() <= 2 && got == #[trigger] rule_of_line(parameters, value, found)
        },
        None => got == rule_of_line(parameters, value, Seq::empty()),
    }
}

/// The result of reading a rule, as a plain value.
pub open spec fn read_outcome(r: Result<RRule, RRuleError>) -> Result<RRuleView, ParseErrorView> {
    match r {
        Ok(rule) => Ok(rule@),
        Err(RRuleError::ParserError(e)) => Err(e@),
        Err(RRuleError::ValidationError(_)) => arbitrary(),
    }
}

impl RRule {
    /// Reads a rule from the parts of its content line. A line with
    /// parameters is refused with `PropertyParametersNotSupported`; then the
    /// pairs and the fields are read, and the first refusal is reported.
    pub fn try_from(value: ContentLineCaptures) -> (r: Result<RRule, ParseError>)
        ensures
            line_reads_as(outcome(r), text_view(value.parameters), value.value@),
    {
        if let Some(parameters) = value.parameters {
            if parameters.unicode_len() > 0 {
                return Err(ParseError::PropertyParametersNotSupported(parameters.to_owned()));
            }
        }
        let properties = match parse_parameters(value.value) {
            Ok(p) => p,
            Err(e) => {
                return Err(e);
            },
        };
        let r = props_to_rrule(&properties);
        proof {
            let pars = text_view(value.parameters);
            match until_request(properties@) {
                Some((zone, local)) => {
                    if zone == Tz::Local {
                        let found = choose|found: Seq<i64>|
                            found.len() <= 2 && outcome(r) == #[trigger] rule_of_props(
                                properties@,
                                found,
                            );
                        assert(outcome(r) == rule_of_line(pars, value.value@, found));
                    }
                },
                None => {},
            }
        }
        r
    }

    /// Reads a rule from the text `KEY=VALUE;KEY=VALUE;...`.
    pub fn from_str(s: &str) -> (r: Result<RRule, RRuleError>)
        ensures
            !(r matches Err(RRuleError::ValidationError(_))),
            line_reads_as(read_outcome(r), None, s@),
    {
        let line = ContentLineCaptures {
            property_name: PropertyName::RRule,
            parameters: None,
            value: s,
        };
        let r = RRule::try_from(line);
        proof {
            assert(text_view(line.parameters) == None::<Seq<char>>);
        }
        match r {
            Ok(rule) => Ok(rule),
            Err(e) => Err(RRuleError::ParserError(e)),
        }
    }
}

impl core::str::FromStr for RRule {
    type Err = RRuleError;

    /// Reads a rule from the text `KEY=VALUE;KEY=VALUE;...`: the rule that
    /// the text reads as, or the first refusal, which is one of parsing.
    fn from_str(s: &str) -> (r: Result<Self, Self::Err>)
        ensures
            !(r matches Err(RRuleError::ValidationError(_))),
            line_reads_as(read_outcome(r), None, s@),
    {
        RRule::from_str(s)
    }
}

} // verus!
