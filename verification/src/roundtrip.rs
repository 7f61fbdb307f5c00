//! Reading back what was written: the text of a rule gives the rule again.

use vstd::prelude::*;

use crate::kinds::{frequency_named, nweekday_of, weekday_named, Frequency, NWeekday, Weekday};
use crate::error::ParseErrorView;
use crate::parser::{
    by_hour_field, by_minute_field, by_month_day_field, by_month_field, by_second_field,
    by_set_pos_field, by_week_no_field, by_weekday_field, by_year_day_field, count_field,
    flag_named, freq_field, i16_list_of, i32_list_of, i8_list_of, include_field, interval_field,
    ints_of_pieces, line_reads_as, line_request, rule_of_line, rule_of_props, tzid_field,
    u8_list_of, until_field, until_request, weekdays_of_pieces, wkst_field, Props,
};
use crate::props::{props_of, props_of_pieces, with_piece};
use crate::rule::RRuleView;
use crate::validate::{first_bad_ordinal, first_outside, range_check, rule_check};
use crate::zone::{instants_of, tz_named, Tz};
use crate::property::{property_of, RRuleProperty};
use crate::render::{field_text, joined, nweekday_text, pair_text, prop_at, rule_text, text_upto};
use crate::datetime::{
    date_digits, date_text_of, datetime_text, field, lemma_pow10_values, pow10, time_digits,
    year_text, DateText, DateTime,
};
use crate::text::{
    all_digits, decimal, decimal_in, decimal_text, digit_char, digit_of, digits_text, digits_value,
    first_index, has_sign, is_ascii_text, is_digit, lemma_first_index, lemma_first_index_bounds,
    no_char, padded_text, split, split_first, upper_of,
};

verus! {

/// A text without the separator is its own single piece.
pub proof fn lemma_split_none(s: Seq<char>, sep: char)
    requires
        no_char(s, sep),
    ensures
        split(s, sep) == seq![s],
        split_first(s, sep) is None,
{
    lemma_first_index(s, sep, s.len() as int);
}

/// A piece without the separator, added after a separator, is one more
/// piece.
pub proof fn lemma_split_append(a: Seq<char>, b: Seq<char>, sep: char)
    requires
        no_char(b, sep),
    ensures
        split(a + seq![sep] + b, sep) == split(a, sep).push(b),
    decreases a.len(),
{
    let s = a + seq![sep] + b;
    let i = first_index(a, sep);
    lemma_first_index_bounds(a, sep);
    assert forall|j: int| 0 <= j < i implies s[j] != sep by {
        assert(s[j] == a[j]);
    }
    if i < a.len() {
        assert(s[i] == a[i]);
        lemma_first_index(s, sep, i);
        assert(s.take(i) =~= a.take(i));
        assert(s.skip(i + 1) =~= a.skip(i + 1) + seq![sep] + b);
        lemma_split_append(a.skip(i + 1), b, sep);
        assert(split(s, sep) =~= split(a, sep).push(b));
    } else {
        assert(s[i] == sep);
        lemma_first_index(s, sep, i);
        assert(s.take(i) =~= a);
        assert(s.skip(i + 1) =~= b);
        lemma_split_none(b, sep);
        assert(split(s, sep) =~= split(a, sep).push(b));
    }
}

/// A key without `=`, then `=`, then a value, splits into key and value.
pub proof fn lemma_split_pair(key: Seq<char>, value: Seq<char>)
    requires
        no_char(key, '='),
    ensures
        split_first(key + seq!['='] + value, '=') == Some((key, value)),
{
    let s = key + seq!['='] + value;
    assert forall|j: int| 0 <= j < key.len() implies s[j] != '=' by {
        assert(s[j] == key[j]);
    }
    assert(s[key.len() as int] == '=');
    lemma_first_index(s, '=', key.len() as int);
    assert(s.take(key.len() as int) =~= key);
    assert(s.skip(key.len() as int + 1) =~= value);
}

/// Whether every character of `s` is a digit or a minus sign.
pub open spec fn numeric(s: Seq<char>) -> bool {
    forall|i: int| 0 <= i < s.len() ==> is_digit(#[trigger] s[i]) || s[i] == '-'
}

pub proof fn lemma_digit_char(d: int)
    requires
        0 <= d <= 9,
    ensures
        is_digit(digit_char(d)),
        digit_of(digit_char(d)) == d,
{
}

/// The digits of a number write that number.
pub proof fn lemma_digits_text(n: nat)
    ensures
        digits_text(n).len() >= 1,
        all_digits(digits_text(n)),
        digits_value(digits_text(n)) == n,
    decreases n,
{
    if n < 10 {
        lemma_digit_char(n as int);
        let s = digits_text(n);
        assert(s.drop_last() =~= Seq::<char>::empty());
        assert(digits_value(s.drop_last()) == 0);
    } else {
        lemma_digits_text(n / 10);
        lemma_digit_char((n % 10) as int);
        let s = digits_text(n);
        assert(s.drop_last() =~= digits_text(n / 10));
        assert(s.last() == digit_char((n % 10) as int));
    }
}

/// The decimal text of an integer reads back as that integer, and holds
/// nothing but digits and a minus sign.
pub proof fn lemma_decimal_round_trip(n: int, signed: bool)
    requires
        signed || n >= 0,
    ensures
        decimal(decimal_text(n), signed) == Some(n),
        numeric(decimal_text(n)),
        decimal_text(n).len() >= 1,
{
    let s = decimal_text(n);
    if n < 0 {
        lemma_digits_text((-n) as nat);
        assert(s[0] == '-');
        assert(s.skip(1) =~= digits_text((-n) as nat));
        assert forall|i: int| 0 <= i < s.len() implies is_digit(#[trigger] s[i]) || s[i]
            == '-' by {
            if i > 0 {
                assert(s[i] == digits_text((-n) as nat)[i - 1]);
            }
        }
    } else {
        lemma_digits_text(n as nat);
        assert(is_digit(s[0]));
        assert(!has_sign(s, signed));
    }
}

/// Digits padded to a width write the number, where the width holds it.
pub proof fn lemma_padded(n: nat, w: nat)
    ensures
        padded_text(n, w).len() == w,
        all_digits(padded_text(n, w)),
        n < pow10(w as int) ==> digits_value(padded_text(n, w)) == n,
    decreases w,
{
    if w > 0 {
        lemma_padded(n / 10, (w - 1) as nat);
        lemma_digit_char((n % 10) as int);
        let s = padded_text(n, w);
        assert(s.drop_last() =~= padded_text(n / 10, (w - 1) as nat));
        assert(s.last() == digit_char((n % 10) as int));
        assert(pow10(w as int) == 10 * pow10(w - 1));
        assert forall|i: int| 0 <= i < s.len() implies is_digit(#[trigger] s[i]) by {
            if i < s.len() - 1 {
                assert(s[i] == padded_text(n / 10, (w - 1) as nat)[i]);
            }
        }
    }
}

/// The text of a real date and time reads back as its numbers.
pub proof fn lemma_datetime_text(t: DateTime)
    requires
        t.valid(),
    ensures
        date_text_of(datetime_text(t)) == Some(
            DateText { date: t.date, time: t.time, utc: t.zone == crate::zone::Tz::Utc },
        ),
        forall|i: int|
            0 <= i < datetime_text(t).len() ==> is_digit(#[trigger] datetime_text(t)[i])
                || datetime_text(t)[i] == 'T' || datetime_text(t)[i] == 'Z',
{
    lemma_pow10_values();
    let y = year_text(t.date.year);
    let mo = padded_text(t.date.month as nat, 2);
    let d = padded_text(t.date.day as nat, 2);
    let h = padded_text(t.time.hour as nat, 2);
    let mi = padded_text(t.time.minute as nat, 2);
    let se = padded_text(t.time.second as nat, 2);
    lemma_padded(t.date.year as nat, 4);
    lemma_padded(t.date.month as nat, 2);
    lemma_padded(t.date.day as nat, 2);
    lemma_padded(t.time.hour as nat, 2);
    lemma_padded(t.time.minute as nat, 2);
    lemma_padded(t.time.second as nat, 2);
    let s = datetime_text(t);
    assert(s.subrange(0, 4) =~= y);
    assert(s.subrange(4, 6) =~= mo);
    assert(s.subrange(6, 8) =~= d);
    assert(s.subrange(9, 11) =~= h);
    assert(s.subrange(11, 13) =~= mi);
    assert(s.subrange(13, 15) =~= se);
    assert(s[8] == 'T');
    assert(s.subrange(0, 8) =~= y + mo + d);
    assert(s.subrange(9, 15) =~= h + mi + se);
    assert(date_digits(s)) by {
        assert forall|i: int| 0 <= i < 8 implies is_digit(#[trigger] s.subrange(0, 8)[i]) by {
            if i < 4 {
                assert(s.subrange(0, 8)[i] == y[i]);
            } else if i < 6 {
                assert(s.subrange(0, 8)[i] == mo[i - 4]);
            } else {
                assert(s.subrange(0, 8)[i] == d[i - 6]);
            }
        }
    }
    assert(time_digits(s)) by {
        assert forall|i: int| 0 <= i < 6 implies is_digit(#[trigger] s.subrange(9, 15)[i]) by {
            if i < 2 {
                assert(s.subrange(9, 15)[i] == h[i]);
            } else if i < 4 {
                assert(s.subrange(9, 15)[i] == mi[i - 2]);
            } else {
                assert(s.subrange(9, 15)[i] == se[i - 4]);
            }
        }
    }
    assert(field(s, 0, 4) == t.date.year);
    assert(field(s, 4, 2) == t.date.month);
    assert(field(s, 6, 2) == t.date.day);
    assert(field(s, 9, 2) == t.time.hour);
    assert(field(s, 11, 2) == t.time.minute);
    assert(field(s, 13, 2) == t.time.second);
    if t.zone == crate::zone::Tz::Utc {
        assert(s.len() == 16);
        assert(s[15] == 'Z');
    } else {
        assert(s.len() == 15);
    }
    assert forall|i: int| 0 <= i < s.len() implies is_digit(#[trigger] s[i]) || s[i] == 'T'
        || s[i] == 'Z' by {
        if i < 8 {
            assert(s[i] == s.subrange(0, 8)[i]);
        } else if 9 <= i < 15 {
            assert(s[i] == s.subrange(9, 15)[i - 9]);
        }
    }
}

/// Whether `s` holds nothing but capital letters and hyphens.
pub open spec fn shouting(s: Seq<char>) -> bool {
    forall|i: int| 0 <= i < s.len() ==> ('A' <= #[trigger] s[i] && s[i] <= 'Z') || s[i] == '-'
}

/// A text of capital letters and hyphens is its own upper-case form, and
/// holds none of the separators.
pub proof fn lemma_shouting(s: Seq<char>)
    requires
        shouting(s),
    ensures
        upper_of(s) == s,
        no_char(s, ';'),
        no_char(s, '='),
        no_char(s, ','),
        forall|i: int| 0 <= i < s.len() ==> !is_digit(#[trigger] s[i]) && s[i] != '+',
{
    assert(is_ascii_text(s));
    assert(upper_of(s) =~= s);
}

/// The name of a key reads as that key.
pub proof fn lemma_property_name(p: RRuleProperty)
    ensures
        shouting(p.name()),
        property_of(p.name()) == Ok::<RRuleProperty, crate::error::ParseErrorView>(p),
{
    reveal_strlit("FREQ");
    reveal_strlit("UNTIL");
    reveal_strlit("COUNT");
    reveal_strlit("INTERVAL");
    reveal_strlit("BYSECOND");
    reveal_strlit("BYMINUTE");
    reveal_strlit("BYHOUR");
    reveal_strlit("BYWEEKDAY");
    reveal_strlit("BYDAY");
    reveal_strlit("BYMONTHDAY");
    reveal_strlit("BYYEARDAY");
    reveal_strlit("BYWEEKNO");
    reveal_strlit("BYMONTH");
    reveal_strlit("BYSETPOS");
    reveal_strlit("WKST");
    reveal_strlit("X-INCLUDE-DTSTART");
    reveal_strlit("LOCAL-TZID");
    let s = p.name();
    assert(shouting(s));
    lemma_shouting(s);
    assert("FREQ"@.len() == 4 && "FREQ"@[0] == 'F');
    assert("WKST"@.len() == 4 && "WKST"@[0] == 'W');
    assert("UNTIL"@.len() == 5 && "UNTIL"@[0] == 'U');
    assert("COUNT"@.len() == 5 && "COUNT"@[0] == 'C');
    assert("BYDAY"@.len() == 5 && "BYDAY"@[0] == 'B');
    assert("BYHOUR"@.len() == 6);
    assert("BYMONTH"@.len() == 7);
    assert("INTERVAL"@.len() == 8 && "INTERVAL"@[0] == 'I');
    assert("BYSECOND"@.len() == 8 && "BYSECOND"@[2] == 'S' && "BYSECOND"@[4] == 'C');
    assert("BYMINUTE"@.len() == 8 && "BYMINUTE"@[2] == 'M');
    assert("BYWEEKNO"@.len() == 8 && "BYWEEKNO"@[2] == 'W');
    assert("BYSETPOS"@.len() == 8 && "BYSETPOS"@[2] == 'S' && "BYSETPOS"@[4] == 'T');
    assert("BYWEEKDAY"@.len() == 9 && "BYWEEKDAY"@[2] == 'W');
    assert("BYYEARDAY"@.len() == 9 && "BYYEARDAY"@[2] == 'Y');
    assert("BYMONTHDAY"@.len() == 10 && "BYMONTHDAY"@[0] == 'B');
    assert("LOCAL-TZID"@.len() == 10 && "LOCAL-TZID"@[0] == 'L');
    assert("X-INCLUDE-DTSTART"@.len() == 17);
}

/// The name of a frequency reads as that frequency.
pub proof fn lemma_frequency_name(f: Frequency)
    ensures
        shouting(f.name()),
        frequency_named(upper_of(f.name())) == Some(f),
{
    reveal_strlit("YEARLY");
    reveal_strlit("MONTHLY");
    reveal_strlit("WEEKLY");
    reveal_strlit("DAILY");
    reveal_strlit("HOURLY");
    reveal_strlit("MINUTELY");
    reveal_strlit("SECONDLY");
    let s = f.name();
    assert(shouting(s));
    lemma_shouting(s);
    assert("YEARLY"@.len() == 6 && "YEARLY"@[0] == 'Y');
    assert("MONTHLY"@.len() == 7);
    assert("WEEKLY"@.len() == 6 && "WEEKLY"@[0] == 'W');
    assert("DAILY"@.len() == 5);
    assert("HOURLY"@.len() == 6 && "HOURLY"@[0] == 'H');
    assert("MINUTELY"@.len() == 8 && "MINUTELY"@[0] == 'M');
    assert("SECONDLY"@.len() == 8 && "SECONDLY"@[0] == 'S');
}

/// The two letters of a weekday read as that weekday.
pub proof fn lemma_weekday_name(w: Weekday)
    ensures
        shouting(w.name()),
        w.name().len() == 2,
        weekday_named(upper_of(w.name())) == Some(w),
{
    reveal_strlit("MO");
    reveal_strlit("TU");
    reveal_strlit("WE");
    reveal_strlit("TH");
    reveal_strlit("FR");
    reveal_strlit("SA");
    reveal_strlit("SU");
    let s = w.name();
    assert(shouting(s));
    lemma_shouting(s);
    assert("MO"@[0] == 'M');
    assert("TU"@[0] == 'T' && "TU"@[1] == 'U');
    assert("WE"@[0] == 'W');
    assert("TH"@[0] == 'T' && "TH"@[1] == 'H');
    assert("FR"@[0] == 'F');
    assert("SA"@[0] == 'S' && "SA"@[1] == 'A');
    assert("SU"@[0] == 'S' && "SU"@[1] == 'U');
}

/// `TRUE` and `FALSE` read as the truth values.
pub proof fn lemma_flag_names()
    ensures
        shouting("TRUE"@),
        shouting("FALSE"@),
        flag_named(upper_of("TRUE"@)) == Some(true),
        flag_named(upper_of("FALSE"@)) == Some(false),
{
    reveal_strlit("TRUE");
    reveal_strlit("FALSE");
    reveal_strlit("1");
    reveal_strlit("0");
    reveal_strlit("YES");
    reveal_strlit("NO");
    assert(shouting("TRUE"@));
    assert(shouting("FALSE"@));
    lemma_shouting("TRUE"@);
    lemma_shouting("FALSE"@);
    assert("TRUE"@.len() == 4);
    assert("FALSE"@.len() == 5);
    assert("1"@.len() == 1);
    assert("0"@.len() == 1);
    assert("YES"@.len() == 3);
    assert("NO"@.len() == 2);
}

/// Texts without commas, joined by commas, split into themselves.
pub proof fn lemma_split_joined(texts: Seq<Seq<char>>)
    requires
        texts.len() >= 1,
        forall|i: int| 0 <= i < texts.len() ==> no_char(#[trigger] texts[i], ','),
    ensures
        split(joined(texts), ',') == texts,
    decreases texts.len(),
{
    if texts.len() == 1 {
        lemma_split_none(texts[0], ',');
        assert(seq![texts[0]] =~= texts);
    } else {
        let front = texts.drop_last();
        assert forall|i: int| 0 <= i < front.len() implies no_char(#[trigger] front[i], ',') by {
            assert(front[i] == texts[i]);
        }
        lemma_split_joined(front);
        lemma_split_append(joined(front), texts.last(), ',');
        assert(front.push(texts.last()) =~= texts);
    }
}

/// Joined texts hold what the texts hold, and commas.
pub proof fn lemma_joined_chars(texts: Seq<Seq<char>>, c: char)
    requires
        c != ',',
        forall|i: int| 0 <= i < texts.len() ==> no_char(#[trigger] texts[i], c),
    ensures
        no_char(joined(texts), c),
    decreases texts.len(),
{
    if texts.len() == 0 {
    } else if texts.len() == 1 {
    } else {
        let front = texts.drop_last();
        assert forall|i: int| 0 <= i < front.len() implies no_char(#[trigger] front[i], c) by {
            assert(front[i] == texts[i]);
        }
        lemma_joined_chars(front, c);
        let s = joined(texts);
        let a = joined(front);
        assert forall|i: int| 0 <= i < s.len() implies #[trigger] s[i] != c by {
            if i < a.len() {
                assert(s[i] == a[i]);
            } else if i == a.len() {
            } else {
                assert(s[i] == texts.last()[i - a.len() - 1]);
            }
        }
    }
}

/// A numeric text holds none of the separators.
pub proof fn lemma_numeric_clean(s: Seq<char>)
    requires
        numeric(s),
    ensures
        no_char(s, ';'),
        no_char(s, ','),
        no_char(s, '='),
{
}

/// The decimal texts of integers within a range read back as the integers.
pub proof fn lemma_ints_round_trip(vals: Seq<i64>, signed: bool, lo: int, hi: int)
    requires
        forall|i: int| 0 <= i < vals.len() ==> lo <= #[trigger] vals[i] <= hi,
        signed || lo >= 0,
    ensures
        ints_of_pieces(vals.map_values(|x: i64| decimal_text(x as int)), signed, lo, hi) == Some(
            vals,
        ),
    decreases vals.len(),
{
    let texts = vals.map_values(|x: i64| decimal_text(x as int));
    if vals.len() > 0 {
        let front = vals.drop_last();
        assert(texts.drop_last() =~= front.map_values(|x: i64| decimal_text(x as int)));
        lemma_ints_round_trip(front, signed, lo, hi);
        lemma_decimal_round_trip(vals.last() as int, signed);
        assert(texts.last() == decimal_text(vals.last() as int));
        assert(decimal_in(texts.last(), signed, lo, hi) == Some(vals.last() as int));
        assert(front.push(vals.last()) =~= vals);
    } else {
        assert(texts =~= Seq::<Seq<char>>::empty());
    }
}

/// The text of a list of integers within a range reads back as the list,
/// and holds neither `;` nor `=`.
pub proof fn lemma_int_list_text(vals: Seq<i64>, signed: bool, lo: int, hi: int)
    requires
        vals.len() >= 1,
        forall|i: int| 0 <= i < vals.len() ==> lo <= #[trigger] vals[i] <= hi,
        signed || lo >= 0,
    ensures
        crate::parser::int_list_of(
            joined(vals.map_values(|x: i64| decimal_text(x as int))),
            signed,
            lo,
            hi,
        ) == Some(vals),
        no_char(joined(vals.map_values(|x: i64| decimal_text(x as int))), ';'),
{
    let texts = vals.map_values(|x: i64| decimal_text(x as int));
    assert forall|i: int| 0 <= i < texts.len() implies no_char(#[trigger] texts[i], ',')
        && no_char(texts[i], ';') by {
        lemma_decimal_round_trip(vals[i] as int, true);
        lemma_numeric_clean(texts[i]);
    }
    lemma_split_joined(texts);
    lemma_joined_chars(texts, ';');
    lemma_ints_round_trip(vals, signed, lo, hi);
}

/// The text of a BYDAY entry reads back as the entry, where its ordinal is
/// not zero, and holds none of the separators.
pub proof fn lemma_nweekday_round_trip(e: NWeekday)
    requires
        e matches NWeekday::Nth(n, _) ==> n != 0,
    ensures
        nweekday_of(nweekday_text(e)) == Some(e),
        no_char(nweekday_text(e), ','),
        no_char(nweekday_text(e), ';'),
{
    let w = e.day();
    lemma_weekday_name(w);
    lemma_shouting(w.name());
    let token = nweekday_text(e);
    match e {
        NWeekday::Every(_) => {
            assert(token.skip(0) =~= token);
        },
        NWeekday::Nth(n, _) => {
            let num = decimal_text(n as int);
            lemma_decimal_round_trip(n as int, true);
            lemma_numeric_clean(num);
            let cut = token.len() - 2;
            assert(cut == num.len());
            assert(token.skip(cut) =~= w.name());
            assert(token.take(cut) =~= num);
            assert forall|i: int| 0 <= i < token.len() implies #[trigger] token[i] != ','
                && token[i] != ';' by {
                if i < num.len() {
                    assert(token[i] == num[i]);
                } else {
                    assert(token[i] == w.name()[i - num.len()]);
                }
            }
        },
    }
}

/// The texts of BYDAY entries read back as the entries.
pub proof fn lemma_weekdays_round_trip(list: Seq<NWeekday>)
    requires
        forall|i: int| 0 <= i < list.len() ==> ((#[trigger] list[i]) matches NWeekday::Nth(n, _) ==> n != 0),
    ensures
        weekdays_of_pieces(list.map_values(|x: NWeekday| nweekday_text(x))) == Some(list),
    decreases list.len(),
{
    let texts = list.map_values(|x: NWeekday| nweekday_text(x));
    if list.len() > 0 {
        let front = list.drop_last();
        assert(texts.drop_last() =~= front.map_values(|x: NWeekday| nweekday_text(x)));
        assert forall|i: int| 0 <= i < front.len() implies ((#[trigger] front[i]) matches NWeekday::Nth(n, _) ==> n != 0) by {
            assert(front[i] == list[i]);
        }
        lemma_weekdays_round_trip(front);
        lemma_nweekday_round_trip(list.last());
        assert(texts.last() == nweekday_text(list.last()));
        assert(front.push(list.last()) =~= list);
    } else {
        assert(texts =~= Seq::<Seq<char>>::empty());
    }
}

/// The text of a list of BYDAY entries reads back as the list, and holds no
/// `;`.
pub proof fn lemma_weekday_list_text(list: Seq<NWeekday>)
    requires
        list.len() >= 1,
        forall|i: int| 0 <= i < list.len() ==> ((#[trigger] list[i]) matches NWeekday::Nth(n, _) ==> n != 0),
    ensures
        crate::parser::weekday_list_of(joined(list.map_values(|x: NWeekday| nweekday_text(x))))
            == Some(list),
        no_char(joined(list.map_values(|x: NWeekday| nweekday_text(x))), ';'),
{
    let texts = list.map_values(|x: NWeekday| nweekday_text(x));
    assert forall|i: int| 0 <= i < texts.len() implies no_char(#[trigger] texts[i], ',')
        && no_char(texts[i], ';') by {
        lemma_nweekday_round_trip(list[i]);
    }
    lemma_split_joined(texts);
    lemma_joined_chars(texts, ';');
    lemma_weekdays_round_trip(list);
}

/// A rule that reading can give: it passes the check of its fields; its
/// zone, if it has one, is UTC or a zone of the database under its own
/// name; and its UNTIL, if it has one, is the single instant of a real date
/// and time, either in UTC or floating in the rule's zone.
pub open spec fn reads_back(d: RRuleView) -> bool {
    &&& rule_check(d) is None
    &&& d.local_tzid matches Some(z) ==> z.wf() && z != Tz::Local
    &&& d.until matches Some(t) ==> t.wf() && (t.zone == Tz::Utc || d.local_tzid == Some(t.zone))
}

/// The pairs that the text of a rule holds, up to and with the field at
/// place `k`.
pub open spec fn map_upto(d: RRuleView, k: int) -> Props
    decreases k,
{
    if k <= 0 {
        Map::<RRuleProperty, Seq<char>>::empty().insert(RRuleProperty::Freq, d.freq.name())
    } else {
        match field_text(d, prop_at(k)) {
            Some(v) => map_upto(d, k - 1).insert(prop_at(k), v),
            None => map_upto(d, k - 1),
        }
    }
}

/// The place of a key in a rule's text.
pub open spec fn place(p: RRuleProperty) -> int {
    match p {
        RRuleProperty::Freq => 0,
        RRuleProperty::Until => 1,
        RRuleProperty::Count => 2,
        RRuleProperty::Interval => 3,
        RRuleProperty::Wkst => 4,
        RRuleProperty::BySetPos => 5,
        RRuleProperty::ByMonth => 6,
        RRuleProperty::ByMonthDay => 7,
        RRuleProperty::ByYearDay => 8,
        RRuleProperty::ByWeekNo => 9,
        RRuleProperty::ByDay => 10,
        RRuleProperty::ByHour => 11,
        RRuleProperty::ByMinute => 12,
        RRuleProperty::BySecond => 13,
        RRuleProperty::XIncludeDtstart => 14,
        RRuleProperty::LocalTzid => 15,
    }
}

/// A list without a value outside the range lies within it.
pub proof fn lemma_none_outside(l: Seq<i64>, lo: int, hi: int)
    requires
        first_outside(l, lo, hi) is None,
    ensures
        forall|i: int| 0 <= i < l.len() ==> lo <= #[trigger] l[i] <= hi,
    decreases l.len(),
{
    if l.len() > 0 {
        lemma_none_outside(l.drop_last(), lo, hi);
        assert forall|i: int| 0 <= i < l.len() implies lo <= #[trigger] l[i] <= hi by {
            if i < l.len() - 1 {
                assert(l.drop_last()[i] == l[i]);
            }
        }
    }
}

/// A BYDAY list without a bad ordinal has no ordinal of zero.
pub proof fn lemma_no_bad_ordinal(l: Seq<NWeekday>)
    requires
        first_bad_ordinal(l) is None,
    ensures
        forall|i: int| 0 <= i < l.len() ==> ((#[trigger] l[i]) matches NWeekday::Nth(n, _) ==> n != 0),
    decreases l.len(),
{
    if l.len() > 0 {
        lemma_no_bad_ordinal(l.drop_last());
        assert forall|i: int| 0 <= i < l.len() implies ((#[trigger] l[i]) matches NWeekday::Nth(n, _) ==> n != 0) by {
            if i < l.len() - 1 {
                assert(l.drop_last()[i] == l[i]);
            }
        }
    }
}

/// The values of a checked rule lie within the ranges that reading allows.
pub proof fn lemma_checked_ranges(d: RRuleView)
    requires
        rule_check(d) is None,
    ensures
        forall|i: int| 0 <= i < d.by_month.len() ==> 1 <= #[trigger] d.by_month[i] <= 12,
        forall|i: int| 0 <= i < d.by_month_day.len() ==> -31 <= #[trigger] d.by_month_day[i] <= 31,
        forall|i: int| 0 <= i < d.by_year_day.len() ==> -366 <= #[trigger] d.by_year_day[i] <= 366,
        forall|i: int| 0 <= i < d.by_week_no.len() ==> -53 <= #[trigger] d.by_week_no[i] <= 53,
        forall|i: int| 0 <= i < d.by_hour.len() ==> #[trigger] d.by_hour[i] <= 23,
        forall|i: int| 0 <= i < d.by_minute.len() ==> #[trigger] d.by_minute[i] <= 59,
        forall|i: int| 0 <= i < d.by_second.len() ==> #[trigger] d.by_second[i] <= 59,
        forall|i: int|
            0 <= i < d.by_weekday.len() ==> ((#[trigger] d.by_weekday[i]) matches NWeekday::Nth(n, _) ==> n != 0),
{
    assert(range_check(d) is None);
    let l = d.by_month.map_values(|x: u8| x as i64);
    lemma_none_outside(l, 1, 12);
    assert forall|i: int| 0 <= i < d.by_month.len() implies 1 <= #[trigger] d.by_month[i]
        <= 12 by {
        assert(l[i] == d.by_month[i]);
    }
    let l = d.by_month_day.map_values(|x: i8| x as i64);
    lemma_none_outside(l, -31, 31);
    assert forall|i: int| 0 <= i < d.by_month_day.len() implies -31
        <= #[trigger] d.by_month_day[i] <= 31 by {
        assert(l[i] == d.by_month_day[i]);
    }
    let l = d.by_year_day.map_values(|x: i16| x as i64);
    lemma_none_outside(l, -366, 366);
    assert forall|i: int| 0 <= i < d.by_year_day.len() implies -366
        <= #[trigger] d.by_year_day[i] <= 366 by {
        assert(l[i] == d.by_year_day[i]);
    }
    let l = d.by_week_no.map_values(|x: i8| x as i64);
    lemma_none_outside(l, -53, 53);
    assert forall|i: int| 0 <= i < d.by_week_no.len() implies -53 <= #[trigger] d.by_week_no[i]
        <= 53 by {
        assert(l[i] == d.by_week_no[i]);
    }
    let l = d.by_hour.map_values(|x: u8| x as i64);
    lemma_none_outside(l, 0, 23);
    assert forall|i: int| 0 <= i < d.by_hour.len() implies #[trigger] d.by_hour[i] <= 23 by {
        assert(l[i] == d.by_hour[i]);
    }
    let l = d.by_minute.map_values(|x: u8| x as i64);
    lemma_none_outside(l, 0, 59);
    assert forall|i: int| 0 <= i < d.by_minute.len() implies #[trigger] d.by_minute[i] <= 59 by {
        assert(l[i] == d.by_minute[i]);
    }
    let l = d.by_second.map_values(|x: u8| x as i64);
    lemma_none_outside(l, 0, 59);
    assert forall|i: int| 0 <= i < d.by_second.len() implies #[trigger] d.by_second[i] <= 59 by {
        assert(l[i] == d.by_second[i]);
    }
    lemma_no_bad_ordinal(d.by_weekday);
}

/// The text of a list of small unsigned integers reads back as the list.
pub proof fn lemma_u8_list(list: Seq<u8>, lo: int, hi: int)
    requires
        list.len() >= 1,
        0 <= lo,
        forall|i: int| 0 <= i < list.len() ==> lo <= #[trigger] list[i] <= hi,
    ensures
        u8_list_of(joined(list.map_values(|x: u8| decimal_text(x as int))), lo, hi) == Some(list),
        no_char(joined(list.map_values(|x: u8| decimal_text(x as int))), ';'),
{
    let vals = list.map_values(|x: u8| x as i64);
    assert(vals.map_values(|x: i64| decimal_text(x as int)) =~= list.map_values(
        |x: u8| decimal_text(x as int),
    ));
    assert forall|i: int| 0 <= i < vals.len() implies lo <= #[trigger] vals[i] <= hi by {
        assert(vals[i] == list[i]);
    }
    lemma_int_list_text(vals, false, lo, hi);
    assert(vals.map_values(|x: i64| x as u8) =~= list);
}

pub proof fn lemma_i8_list(list: Seq<i8>, lo: int, hi: int)
    requires
        list.len() >= 1,
        forall|i: int| 0 <= i < list.len() ==> lo <= #[trigger] list[i] <= hi,
    ensures
        i8_list_of(joined(list.map_values(|x: i8| decimal_text(x as int))), lo, hi) == Some(list),
        no_char(joined(list.map_values(|x: i8| decimal_text(x as int))), ';'),
{
    let vals = list.map_values(|x: i8| x as i64);
    assert(vals.map_values(|x: i64| decimal_text(x as int)) =~= list.map_values(
        |x: i8| decimal_text(x as int),
    ));
    assert forall|i: int| 0 <= i < vals.len() implies lo <= #[trigger] vals[i] <= hi by {
        assert(vals[i] == list[i]);
    }
    lemma_int_list_text(vals, true, lo, hi);
    assert(vals.map_values(|x: i64| x as i8) =~= list);
}

pub proof fn lemma_i16_list(list: Seq<i16>, lo: int, hi: int)
    requires
        list.len() >= 1,
        forall|i: int| 0 <= i < list.len() ==> lo <= #[trigger] list[i] <= hi,
    ensures
        i16_list_of(joined(list.map_values(|x: i16| decimal_text(x as int))), lo, hi) == Some(list),
        no_char(joined(list.map_values(|x: i16| decimal_text(x as int))), ';'),
{
    let vals = list.map_values(|x: i16| x as i64);
    assert(vals.map_values(|x: i64| decimal_text(x as int)) =~= list.map_values(
        |x: i16| decimal_text(x as int),
    ));
    assert forall|i: int| 0 <= i < vals.len() implies lo <= #[trigger] vals[i] <= hi by {
        assert(vals[i] == list[i]);
    }
    lemma_int_list_text(vals, true, lo, hi);
    assert(vals.map_values(|x: i64| x as i16) =~= list);
}

pub proof fn lemma_i32_list(list: Seq<i32>, lo: int, hi: int)
    requires
        list.len() >= 1,
        forall|i: int| 0 <= i < list.len() ==> lo <= #[trigger] list[i] <= hi,
    ensures
        i32_list_of(joined(list.map_values(|x: i32| decimal_text(x as int))), lo, hi) == Some(list),
        no_char(joined(list.map_values(|x: i32| decimal_text(x as int))), ';'),
{
    let vals = list.map_values(|x: i32| x as i64);
    assert(vals.map_values(|x: i64| decimal_text(x as int)) =~= list.map_values(
        |x: i32| decimal_text(x as int),
    ));
    assert forall|i: int| 0 <= i < vals.len() implies lo <= #[trigger] vals[i] <= hi by {
        assert(vals[i] == list[i]);
    }
    lemma_int_list_text(vals, true, lo, hi);
    assert(vals.map_values(|x: i64| x as i32) =~= list);
}

/// No value that a rule writes holds a `;`.
pub proof fn lemma_field_clean(d: RRuleView, p: RRuleProperty)
    requires
        reads_back(d),
    ensures
        field_text(d, p) matches Some(v) ==> no_char(v, ';'),
{
    lemma_checked_ranges(d);
    match p {
        RRuleProperty::Freq => {
            lemma_frequency_name(d.freq);
            lemma_shouting(d.freq.name());
        },
        RRuleProperty::Until => {
            if let Some(t) = d.until {
                lemma_datetime_text(t);
            }
        },
        RRuleProperty::Count => {
            if let Some(c) = d.count {
                lemma_decimal_round_trip(c as int, false);
                lemma_numeric_clean(decimal_text(c as int));
            }
        },
        RRuleProperty::Interval => {
            lemma_decimal_round_trip(d.interval as int, false);
            lemma_numeric_clean(decimal_text(d.interval as int));
        },
        RRuleProperty::Wkst => {
            lemma_weekday_name(d.week_start);
            lemma_shouting(d.week_start.name());
        },
        RRuleProperty::BySetPos => {
            if d.by_set_pos.len() > 0 {
                lemma_i32_list(d.by_set_pos, i32::MIN as int, i32::MAX as int);
            }
        },
        RRuleProperty::ByMonth => {
            if d.by_month.len() > 0 {
                lemma_u8_list(d.by_month, 1, 12);
            }
        },
        RRuleProperty::ByMonthDay => {
            if d.by_month_day.len() > 0 {
                lemma_i8_list(d.by_month_day, -31, 31);
            }
        },
        RRuleProperty::ByYearDay => {
            if d.by_year_day.len() > 0 {
                lemma_i16_list(d.by_year_day, -366, 366);
            }
        },
        RRuleProperty::ByWeekNo => {
            if d.by_week_no.len() > 0 {
                lemma_i8_list(d.by_week_no, -53, 53);
            }
        },
        RRuleProperty::ByDay => {
            if d.by_weekday.len() > 0 {
                lemma_weekday_list_text(d.by_weekday);
            }
        },
        RRuleProperty::ByHour => {
            if d.by_hour.len() > 0 {
                lemma_u8_list(d.by_hour, 0, 23);
            }
        },
        RRuleProperty::ByMinute => {
            if d.by_minute.len() > 0 {
                lemma_u8_list(d.by_minute, 0, 59);
            }
        },
        RRuleProperty::BySecond => {
            if d.by_second.len() > 0 {
                lemma_u8_list(d.by_second, 0, 59);
            }
        },
        RRuleProperty::XIncludeDtstart => {
            lemma_flag_names();
            lemma_shouting("TRUE"@);
            lemma_shouting("FALSE"@);
        },
        RRuleProperty::LocalTzid => {
            reveal_strlit("UTC");
            if d.local_tzid == Some(Tz::Utc) {
                assert(shouting("UTC"@));
                lemma_shouting("UTC"@);
            }
        },
    }
}

/// One more `;KEY=VALUE` adds one more pair.
pub proof fn lemma_part(t: Seq<char>, m: Props, p: RRuleProperty, value: Seq<char>)
    requires
        props_of(t) == Ok::<Props, ParseErrorView>(m),
        no_char(value, ';'),
    ensures
        props_of(t + (seq![';'] + pair_text(p, value))) == Ok::<Props, ParseErrorView>(
            m.insert(p, value),
        ),
{
    lemma_property_name(p);
    lemma_shouting(p.name());
    let piece = pair_text(p, value);
    assert forall|i: int| 0 <= i < piece.len() implies #[trigger] piece[i] != ';' by {
        if i < p.name().len() {
            assert(piece[i] == p.name()[i]);
        } else if i == p.name().len() {
        } else {
            assert(piece[i] == value[i - p.name().len() - 1]);
        }
    }
    lemma_split_append(t, piece, ';');
    assert(t + (seq![';'] + piece) =~= t + seq![';'] + piece);
    let ps = split(t, ';');
    assert(ps.push(piece).drop_last() =~= ps);
    lemma_split_pair(p.name(), value);
    assert(piece.len() > 0);
}

/// The text of a rule, as far as it goes, holds the pairs of its fields.
pub proof fn lemma_text_pairs(d: RRuleView, k: int)
    requires
        reads_back(d),
        0 <= k <= 15,
    ensures
        props_of(text_upto(d, k)) == Ok::<Props, ParseErrorView>(map_upto(d, k)),
    decreases k,
{
    if k == 0 {
        let t = text_upto(d, 0);
        lemma_property_name(RRuleProperty::Freq);
        lemma_shouting(RRuleProperty::Freq.name());
        lemma_frequency_name(d.freq);
        lemma_shouting(d.freq.name());
        let name = RRuleProperty::Freq.name();
        assert forall|i: int| 0 <= i < t.len() implies #[trigger] t[i] != ';' by {
            if i < name.len() {
                assert(t[i] == name[i]);
            } else if i == name.len() {
            } else {
                assert(t[i] == d.freq.name()[i - name.len() - 1]);
            }
        }
        lemma_split_none(t, ';');
        lemma_split_pair(name, d.freq.name());
        assert(seq![t].drop_last() =~= Seq::<Seq<char>>::empty());
        assert(t.len() > 0);
        assert(split_first(t, '=') == Some((name, d.freq.name())));
        assert(with_piece(Map::<RRuleProperty, Seq<char>>::empty(), t) == Ok::<
            Props,
            ParseErrorView,
        >(map_upto(d, 0)));
        assert(props_of_pieces(Seq::<Seq<char>>::empty()) == Ok::<Props, ParseErrorView>(
            Map::<RRuleProperty, Seq<char>>::empty(),
        ));
        assert(props_of_pieces(seq![t]) == Ok::<Props, ParseErrorView>(map_upto(d, 0)));
    } else {
        lemma_text_pairs(d, k - 1);
        lemma_field_clean(d, prop_at(k));
        match field_text(d, prop_at(k)) {
            Some(v) => {
                lemma_part(text_upto(d, k - 1), map_upto(d, k - 1), prop_at(k), v);
                assert(text_upto(d, k) == text_upto(d, k - 1) + (seq![';'] + pair_text(
                    prop_at(k),
                    v,
                )));
                assert(map_upto(d, k) == map_upto(d, k - 1).insert(prop_at(k), v));
            },
            None => {
                assert(text_upto(d, k) =~= text_upto(d, k - 1));
                assert(map_upto(d, k) == map_upto(d, k - 1));
            },
        }
    }
}

/// The pairs of a rule's text hold, under each key, what the rule writes
/// under it.
pub proof fn lemma_map_upto(d: RRuleView, k: int, p: RRuleProperty)
    requires
        0 <= k <= 15,
    ensures
        map_upto(d, k).dom().contains(p) == (place(p) <= k && field_text(d, p) is Some),
        map_upto(d, k).dom().contains(p) ==> map_upto(d, k)[p] == field_text(d, p)->0,
    decreases k,
{
    if k > 0 {
        lemma_map_upto(d, k - 1, p);
    }
}

/// Whether the pairs `m` hold, under each key, what the rule `d` writes
/// under it, and nothing else.
pub open spec fn holds_fields(m: Props, d: RRuleView) -> bool {
    forall|p: RRuleProperty|
        (#[trigger] m.dom().contains(p)) == (field_text(d, p) is Some) && (m.dom().contains(p)
            ==> m[p] == field_text(d, p)->0)
}

/// The name of a zone reads as that zone.
pub proof fn lemma_zone_name(z: Tz)
    requires
        z.wf(),
        z != Tz::Local,
    ensures
        tz_named(z.name_spec()) == Some(z),
{
}

proof fn lemma_reads_scalars(m: Props, d: RRuleView)
    requires
        holds_fields(m, d),
        reads_back(d),
    ensures
        freq_field(m) == Ok::<Frequency, ParseErrorView>(d.freq),
        interval_field(m) == Ok::<u16, ParseErrorView>(d.interval),
        count_field(m) == Ok::<Option<u32>, ParseErrorView>(d.count),
        tzid_field(m) == Ok::<Option<Tz>, ParseErrorView>(d.local_tzid),
        wkst_field(m) == Ok::<Weekday, ParseErrorView>(d.week_start),
        include_field(m) == Ok::<Option<bool>, ParseErrorView>(d.include_dtstart),
{
    assert(m.dom().contains(RRuleProperty::Freq));
    assert(m.dom().contains(RRuleProperty::Interval) == (d.interval != 1));
    assert(m.dom().contains(RRuleProperty::Count) == d.count is Some);
    assert(m.dom().contains(RRuleProperty::LocalTzid) == d.local_tzid is Some);
    assert(m.dom().contains(RRuleProperty::Wkst) == (d.week_start != Weekday::Mon));
    assert(m.dom().contains(RRuleProperty::XIncludeDtstart) == d.include_dtstart is Some);
    lemma_frequency_name(d.freq);
    lemma_decimal_round_trip(d.interval as int, false);
    if let Some(c) = d.count {
        lemma_decimal_round_trip(c as int, false);
    }
    if let Some(z) = d.local_tzid {
        lemma_zone_name(z);
    }
    lemma_weekday_name(d.week_start);
    lemma_flag_names();
}

proof fn lemma_reads_until(m: Props, d: RRuleView, instants: Seq<i64>)
    requires
        holds_fields(m, d),
        reads_back(d),
        d.until matches Some(t) ==> t.zone != Tz::Utc ==> instants == seq![t.timestamp],
    ensures
        until_field(m, d.local_tzid, instants) == Ok::<Option<DateTime>, ParseErrorView>(d.until),
        until_request(m) == match d.until {
            Some(t) => if t.zone == Tz::Utc {
                None
            } else {
                Some((t.zone, t.local()))
            },
            None => None,
        },
{
    assert(m.dom().contains(RRuleProperty::Until) == d.until is Some);
    lemma_reads_scalars(m, d);
    if let Some(t) = d.until {
        lemma_datetime_text(t);
        let text = datetime_text(t);
        assert(m[RRuleProperty::Until] == text);
        if t.zone == Tz::Utc {
            assert(instants_of(Tz::Utc, t.local())[0] == t.timestamp);
        }
    }
}

proof fn lemma_reads_lists(m: Props, d: RRuleView)
    requires
        holds_fields(m, d),
        reads_back(d),
    ensures
        by_set_pos_field(m) == Ok::<Seq<i32>, ParseErrorView>(d.by_set_pos),
        by_month_field(m) == Ok::<Seq<u8>, ParseErrorView>(d.by_month),
        by_month_day_field(m) == Ok::<Seq<i8>, ParseErrorView>(d.by_month_day),
        by_year_day_field(m) == Ok::<Seq<i16>, ParseErrorView>(d.by_year_day),
        by_week_no_field(m) == Ok::<Seq<i8>, ParseErrorView>(d.by_week_no),
{
    lemma_checked_ranges(d);
    assert(m.dom().contains(RRuleProperty::BySetPos) == (d.by_set_pos.len() > 0));
    assert(m.dom().contains(RRuleProperty::ByMonth) == (d.by_month.len() > 0));
    assert(m.dom().contains(RRuleProperty::ByMonthDay) == (d.by_month_day.len() > 0));
    assert(m.dom().contains(RRuleProperty::ByYearDay) == (d.by_year_day.len() > 0));
    assert(m.dom().contains(RRuleProperty::ByWeekNo) == (d.by_week_no.len() > 0));
    if d.by_set_pos.len() > 0 {
        lemma_i32_list(d.by_set_pos, i32::MIN as int, i32::MAX as int);
    } else {
        assert(d.by_set_pos =~= Seq::<i32>::empty());
    }
    if d.by_month.len() > 0 {
        lemma_u8_list(d.by_month, 1, 12);
    } else {
        assert(d.by_month =~= Seq::<u8>::empty());
    }
    if d.by_month_day.len() > 0 {
        lemma_i8_list(d.by_month_day, -31, 31);
    } else {
        assert(d.by_month_day =~= Seq::<i8>::empty());
    }
    if d.by_year_day.len() > 0 {
        lemma_i16_list(d.by_year_day, -366, 366);
    } else {
        assert(d.by_year_day =~= Seq::<i16>::empty());
    }
    if d.by_week_no.len() > 0 {
        lemma_i8_list(d.by_week_no, -53, 53);
    } else {
        assert(d.by_week_no =~= Seq::<i8>::empty());
    }
}

proof fn lemma_reads_times(m: Props, d: RRuleView)
    requires
        holds_fields(m, d),
        reads_back(d),
    ensures
        by_weekday_field(m) == Ok::<Seq<NWeekday>, ParseErrorView>(d.by_weekday),
        by_hour_field(m) == Ok::<Seq<u8>, ParseErrorView>(d.by_hour),
        by_minute_field(m) == Ok::<Seq<u8>, ParseErrorView>(d.by_minute),
        by_second_field(m) == Ok::<Seq<u8>, ParseErrorView>(d.by_second),
{
    lemma_checked_ranges(d);
    assert(m.dom().contains(RRuleProperty::ByDay) == (d.by_weekday.len() > 0));
    assert(m.dom().contains(RRuleProperty::ByHour) == (d.by_hour.len() > 0));
    assert(m.dom().contains(RRuleProperty::ByMinute) == (d.by_minute.len() > 0));
    assert(m.dom().contains(RRuleProperty::BySecond) == (d.by_second.len() > 0));
    if d.by_weekday.len() > 0 {
        lemma_weekday_list_text(d.by_weekday);
    } else {
        assert(d.by_weekday =~= Seq::<NWeekday>::empty());
    }
    if d.by_hour.len() > 0 {
        lemma_u8_list(d.by_hour, 0, 23);
    } else {
        assert(d.by_hour =~= Seq::<u8>::empty());
    }
    if d.by_minute.len() > 0 {
        lemma_u8_list(d.by_minute, 0, 59);
    } else {
        assert(d.by_minute =~= Seq::<u8>::empty());
    }
    if d.by_second.len() > 0 {
        lemma_u8_list(d.by_second, 0, 59);
    } else {
        assert(d.by_second =~= Seq::<u8>::empty());
    }
}

/// The pairs that a rule writes read back as the rule.
pub proof fn lemma_reads_rule(m: Props, d: RRuleView, instants: Seq<i64>)
    requires
        holds_fields(m, d),
        reads_back(d),
        d.until matches Some(t) ==> t.zone != Tz::Utc ==> instants == seq![t.timestamp],
    ensures
        rule_of_props(m, instants) == Ok::<RRuleView, ParseErrorView>(d),
{
    lemma_reads_scalars(m, d);
    lemma_reads_until(m, d, instants);
    lemma_reads_lists(m, d);
    lemma_reads_times(m, d);
}

/// Round trip: the text of a rule reads back as the same rule, field for
/// field, LOCAL-TZID and X-INCLUDE-DTSTART among them. This holds of every
/// rule that passes the check of its fields, whose zone is UTC or a zone of
/// the database, and whose UNTIL is in UTC or floats in that zone. (An UNTIL
/// that floats in the ambient zone reads back as whatever the host then
/// makes of it.)
pub proof fn law_round_trip(d: RRuleView, got: Result<RRuleView, ParseErrorView>)
    requires
        reads_back(d),
        line_reads_as(got, None, rule_text(d)),
    ensures
        got == Ok::<RRuleView, ParseErrorView>(d),
{
    let text = rule_text(d);
    let m = map_upto(d, 15);
    lemma_text_pairs(d, 15);
    assert forall|p: RRuleProperty|
        (#[trigger] m.dom().contains(p)) == (field_text(d, p) is Some) && (m.dom().contains(p)
            ==> m[p] == field_text(d, p)->0) by {
        lemma_map_upto(d, 15, p);
    }
    let found = match d.until {
        Some(t) => if t.zone == Tz::Utc {
            Seq::<i64>::empty()
        } else {
            instants_of(t.zone, t.local())
        },
        None => Seq::<i64>::empty(),
    };
    lemma_reads_until(m, d, found);
    lemma_reads_rule(m, d, found);
    assert(line_request(None, text) == until_request(m));
    assert(rule_of_line(None, text, found) == rule_of_props(m, found));
}

} // verus!
