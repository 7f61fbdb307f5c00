//! From a rule descriptor back to its text.

use vstd::prelude::*;
use vstd::string::*;

use crate::datetime::datetime_text;
use crate::kinds::{NWeekday, Weekday};
use crate::property::RRuleProperty;
use crate::rule::{RRule, RRuleView};
use crate::lists::{widen_i16, widen_i32, widen_i8, widen_u8};
use crate::text::{decimal_text, push_decimal};

verus! {

/// The texts of `items`, with a comma between each two.
pub open spec fn joined(items: Seq<Seq<char>>) -> Seq<char>
    decreases items.len(),
{
    if items.len() == 0 {
        Seq::empty()
    } else if items.len() == 1 {
        items[0]
    } else {
        joined(items.drop_last()) + seq![','] + items.last()
    }
}

/// The text of a BYDAY entry: the ordinal, where there is one, then the two
/// letters of the weekday.
pub open spec fn nweekday_text(d: NWeekday) -> Seq<char> {
    match d {
        NWeekday::Every(w) => w.name(),
        NWeekday::Nth(n, w) => decimal_text(n as int) + w.name(),
    }
}

/// `;KEY=` and the joined items, or nothing where there are none.
pub open spec fn list_part(key: Seq<char>, items: Seq<Seq<char>>) -> Seq<char> {
    if items.len() == 0 {
        Seq::empty()
    } else {
        seq![';'] + key + seq!['='] + joined(items)
    }
}

/// The text of the value of a list of integers; nothing for an empty list.
pub open spec fn list_text(items: Seq<Seq<char>>) -> Option<Seq<char>> {
    if items.len() == 0 {
        None
    } else {
        Some(joined(items))
    }
}

/// The text of the value that the rule writes under the key `p`; nothing
/// where the field is not set or stands at its default.
pub open spec fn field_text(d: RRuleView, p: RRuleProperty) -> Option<Seq<char>> {
    match p {
        RRuleProperty::Freq => Some(d.freq.name()),
        RRuleProperty::Until => match d.until {
            Some(t) => Some(datetime_text(t)),
            None => None,
        },
        RRuleProperty::Count => match d.count {
            Some(c) => Some(decimal_text(c as int)),
            None => None,
        },
        RRuleProperty::Interval => if d.interval != 1 {
            Some(decimal_text(d.interval as int))
        } else {
            None
        },
        RRuleProperty::Wkst => if d.week_start != Weekday::Mon {
            Some(d.week_start.name())
        } else {
            None
        },
        RRuleProperty::BySetPos => list_text(
            d.by_set_pos.map_values(|x: i32| decimal_text(x as int)),
        ),
        RRuleProperty::ByMonth => list_text(d.by_month.map_values(|x: u8| decimal_text(x as int))),
        RRuleProperty::ByMonthDay => list_text(
            d.by_month_day.map_values(|x: i8| decimal_text(x as int)),
        ),
        RRuleProperty::ByYearDay => list_text(
            d.by_year_day.map_values(|x: i16| decimal_text(x as int)),
        ),
        RRuleProperty::ByWeekNo => list_text(
            d.by_week_no.map_values(|x: i8| decimal_text(x as int)),
        ),
        RRuleProperty::ByDay => list_text(d.by_weekday.map_values(|x: NWeekday| nweekday_text(x))),
        RRuleProperty::ByHour => list_text(d.by_hour.map_values(|x: u8| decimal_text(x as int))),
        RRuleProperty::ByMinute => list_text(
            d.by_minute.map_values(|x: u8| decimal_text(x as int)),
        ),
        RRuleProperty::BySecond => list_text(
            d.by_second.map_values(|x: u8| decimal_text(x as int)),
        ),
        RRuleProperty::XIncludeDtstart => match d.include_dtstart {
            Some(true) => Some("TRUE"@),
            Some(false) => Some("FALSE"@),
            None => None,
        },
        RRuleProperty::LocalTzid => match d.local_tzid {
            Some(z) => Some(z.name_spec()),
            None => None,
        },
    }
}

/// The key that stands at place `k` of a rule's text, from 0.
pub open spec fn prop_at(k: int) -> RRuleProperty {
    if k <= 0 {
        RRuleProperty::Freq
    } else if k == 1 {
        RRuleProperty::Until
    } else if k == 2 {
        RRuleProperty::Count
    } else if k == 3 {
        RRuleProperty::Interval
    } else if k == 4 {
        RRuleProperty::Wkst
    } else if k == 5 {
        RRuleProperty::BySetPos
    } else if k == 6 {
        RRuleProperty::ByMonth
    } else if k == 7 {
        RRuleProperty::ByMonthDay
    } else if k == 8 {
        RRuleProperty::ByYearDay
    } else if k == 9 {
        RRuleProperty::ByWeekNo
    } else if k == 10 {
        RRuleProperty::ByDay
    } else if k == 11 {
        RRuleProperty::ByHour
    } else if k == 12 {
        RRuleProperty::ByMinute
    } else if k == 13 {
        RRuleProperty::BySecond
    } else if k == 14 {
        RRuleProperty::XIncludeDtstart
    } else {
        RRuleProperty::LocalTzid
    }
}

/// `KEY=VALUE`.
pub open spec fn pair_text(p: RRuleProperty, value: Seq<char>) -> Seq<char> {
    p.name() + seq!['='] + value
}

/// What the field at place `k` adds to the text: `;KEY=VALUE`, or nothing
/// where the field is not written.
pub open spec fn part_text(d: RRuleView, k: int) -> Seq<char> {
    match field_text(d, prop_at(k)) {
        Some(v) => seq![';'] + pair_text(prop_at(k), v),
        None => Seq::empty(),
    }
}

/// The text of a rule up to and with the field at place `k`.
pub open spec fn text_upto(d: RRuleView, k: int) -> Seq<char>
    decreases k,
{
    if k <= 0 {
        pair_text(RRuleProperty::Freq, d.freq.name())
    } else {
        text_upto(d, k - 1) + part_text(d, k)
    }
}

/// The text of a rule: `FREQ` first, then each field that is set or differs
/// from its default, under its key and separated by `;`, in this order:
/// UNTIL, COUNT, INTERVAL, WKST, BYSETPOS, BYMONTH, BYMONTHDAY, BYYEARDAY,
/// BYWEEKNO, BYDAY, BYHOUR, BYMINUTE, BYSECOND, X-INCLUDE-DTSTART,
/// LOCAL-TZID.
pub open spec fn rule_text(d: RRuleView) -> Seq<char> {
    text_upto(d, 15)
}

/// Appends `;KEY=` and the decimal texts of `items`, comma-separated, or
/// nothing where there are none.
fn push_list(out: &mut String, key: &str, items: &Vec<i64>)
    requires
        forall|i: int| 0 <= i < items.len() ==> #[trigger] items[i] > i64::MIN,
    ensures
        final(out)@ == old(out)@ + list_part(
            key@,
            items@.map_values(|x: i64| decimal_text(x as int)),
        ),
{
    proof {
        reveal_strlit(";");
        reveal_strlit("=");
        reveal_strlit(",");
    }
    let ghost texts = items@.map_values(|x: i64| decimal_text(x as int));
    if items.len() == 0 {
        assert(out@ =~= old(out)@ + list_part(key@, texts));
        return ;
    }
    out.append(";");
    out.append(key);
    out.append("=");
    let ghost head = old(out)@ + seq![';'] + key@ + seq!['='];
    assert(out@ =~= head);
    let mut i: usize = 0;
    while i < items.len()
        invariant
            i <= items.len(),
            items.len() > 0,
            texts == items@.map_values(|x: i64| decimal_text(x as int)),
            forall|j: int| 0 <= j < items.len() ==> #[trigger] items[j] > i64::MIN,
            out@ == head + joined(texts.take(i as int)),
        decreases items.len() - i,
    {
        let ghost before = out@;
        if i > 0 {
            out.append(",");
        }
        push_decimal(out, items[i]);
        proof {
            reveal_strlit(",");
            let t = texts.take(i + 1);
            assert(out@ =~= before + (if i > 0 {
                seq![',']
            } else {
                Seq::<char>::empty()
            }) + decimal_text(items[i as int] as int));
            assert(t.drop_last() =~= texts.take(i as int));
            assert(t.last() == decimal_text(items[i as int] as int));
            assert(t.len() == i + 1);
            if i == 0 {
                assert(joined(texts.take(0)) =~= Seq::<char>::empty());
                assert(joined(t) =~= t[0]);
            } else {
                assert(joined(t) == joined(t.drop_last()) + seq![','] + t.last());
            }
            assert(out@ =~= head + joined(t));
        }
        i += 1;
    }
    proof {
        assert(texts.take(i as int) =~= texts);
        assert(out@ =~= old(out)@ + list_part(key@, texts));
    }
}

/// Appends `;BYDAY=` and the entries, or nothing where there are none.
fn push_weekdays(out: &mut String, items: &Vec<NWeekday>)
    ensures
        final(out)@ == old(out)@ + list_part(
            "BYDAY"@,
            items@.map_values(|x: NWeekday| nweekday_text(x)),
        ),
{
    proof {
        reveal_strlit(";BYDAY=");
        reveal_strlit("BYDAY");
        reveal_strlit(",");
    }
    let ghost texts = items@.map_values(|x: NWeekday| nweekday_text(x));
    if items.len() == 0 {
        assert(out@ =~= old(out)@ + list_part("BYDAY"@, texts));
        return ;
    }
    out.append(";BYDAY=");
    let ghost head = old(out)@ + seq![';'] + "BYDAY"@ + seq!['='];
    assert(out@ =~= head);
    let mut i: usize = 0;
    while i < items.len()
        invariant
            i <= items.len(),
            items.len() > 0,
            texts == items@.map_values(|x: NWeekday| nweekday_text(x)),
            out@ == head + joined(texts.take(i as int)),
        decreases items.len() - i,
    {
        let ghost before = out@;
        if i > 0 {
            out.append(",");
        }
        let ghost mid = out@;
        match items[i] {
            NWeekday::Every(w) => {
                out.append(w.as_str());
            },
            NWeekday::Nth(n, w) => {
                push_decimal(out, n as i64);
                out.append(w.as_str());
            },
        }
        proof {
            reveal_strlit(",");
            assert(out@ =~= mid + nweekday_text(items[i as int]));
            assert(mid =~= before + (if i > 0 {
                seq![',']
            } else {
                Seq::<char>::empty()
            }));
            let t = texts.take(i + 1);
            assert(t.drop_last() =~= texts.take(i as int));
            assert(t.last() == nweekday_text(items[i as int]));
            assert(t.len() == i + 1);
            if i == 0 {
                assert(joined(texts.take(0)) =~= Seq::<char>::empty());
                assert(joined(t) =~= t[0]);
            } else {
                assert(joined(t) == joined(t.drop_last()) + seq![','] + t.last());
            }
            assert(out@ =~= head + joined(t));
        }
        i += 1;
    }
    proof {
        assert(texts.take(i as int) =~= texts);
        assert(out@ =~= old(out)@ + list_part("BYDAY"@, texts));
    }
}

impl RRule {
    /// The text of this rule, in the form that `RRule::from_str` reads.
    pub fn to_string(&self) -> (r: String)
        ensures
            r@ == rule_text(self@),
    {
        let ghost d = self@;
        proof {
            reveal_strlit("FREQ=");
            reveal_strlit("FREQ");
            reveal_strlit(";UNTIL=");
            reveal_strlit("UNTIL");
            reveal_strlit(";COUNT=");
            reveal_strlit("COUNT");
            reveal_strlit(";INTERVAL=");
            reveal_strlit("INTERVAL");
            reveal_strlit(";WKST=");
            reveal_strlit("WKST");
        }
        let mut out = String::new();
        out.append("FREQ=");
        out.append(self.freq.as_str());
        assert(out@ =~= text_upto(d, 0));
        let ghost s0 = out@;
        if let Some(t) = self.until {
            out.append(";UNTIL=");
            t.push_text(&mut out);
        }
        assert(out@ =~= s0 + part_text(d, 1));
        assert(out@ == text_upto(d, 1));
        let ghost s1 = out@;
        if let Some(c) = self.count {
            out.append(";COUNT=");
            push_decimal(&mut out, c as i64);
        }
        assert(out@ =~= s1 + part_text(d, 2));
        assert(out@ == text_upto(d, 2));
        let ghost s2 = out@;
        if self.interval != 1 {
            out.append(";INTERVAL=");
            push_decimal(&mut out, self.interval as i64);
        }
        assert(out@ =~= s2 + part_text(d, 3));
        assert(out@ == text_upto(d, 3));
        let ghost s3 = out@;
        match self.week_start {
            Weekday::Mon => {},
            w => {
                out.append(";WKST=");
                out.append(w.as_str());
            },
        }
        assert(out@ =~= s3 + part_text(d, 4));
        assert(out@ == text_upto(d, 4));
        self.push_lists(&mut out);
        self.push_tail(&mut out);
        out
    }

    /// Appends the BY-lists.
    fn push_lists(&self, out: &mut String)
        requires
            old(out)@ == text_upto(self@, 4),
        ensures
            final(out)@ == text_upto(self@, 13),
    {
        let ghost d = self@;
        let l = widen_i32(&self.by_set_pos);
        push_list(out, "BYSETPOS", &l);
        proof {
            assert(l@.map_values(|x: i64| decimal_text(x as int)) =~= d.by_set_pos.map_values(
                |x: i32| decimal_text(x as int),
            ));
            lemma_list_part(d, 5);
        }
        assert(out@ == text_upto(d, 5));
        let l = widen_u8(&self.by_month);
        push_list(out, "BYMONTH", &l);
        proof {
            assert(l@.map_values(|x: i64| decimal_text(x as int)) =~= d.by_month.map_values(
                |x: u8| decimal_text(x as int),
            ));
            lemma_list_part(d, 6);
        }
        assert(out@ == text_upto(d, 6));
        let l = widen_i8(&self.by_month_day);
        push_list(out, "BYMONTHDAY", &l);
        proof {
            assert(l@.map_values(|x: i64| decimal_text(x as int)) =~= d.by_month_day.map_values(
                |x: i8| decimal_text(x as int),
            ));
            lemma_list_part(d, 7);
        }
        assert(out@ == text_upto(d, 7));
        let l = widen_i16(&self.by_year_day);
        push_list(out, "BYYEARDAY", &l);
        proof {
            assert(l@.map_values(|x: i64| decimal_text(x as int)) =~= d.by_year_day.map_values(
                |x: i16| decimal_text(x as int),
            ));
            lemma_list_part(d, 8);
        }
        assert(out@ == text_upto(d, 8));
        let l = widen_i8(&self.by_week_no);
        push_list(out, "BYWEEKNO", &l);
        proof {
            assert(l@.map_values(|x: i64| decimal_text(x as int)) =~= d.by_week_no.map_values(
                |x: i8| decimal_text(x as int),
            ));
            lemma_list_part(d, 9);
        }
        assert(out@ == text_upto(d, 9));
        push_weekdays(out, &self.by_weekday);
        proof {
            lemma_list_part(d, 10);
        }
        assert(out@ == text_upto(d, 10));
        let l = widen_u8(&self.by_hour);
        push_list(out, "BYHOUR", &l);
        proof {
            assert(l@.map_values(|x: i64| decimal_text(x as int)) =~= d.by_hour.map_values(
                |x: u8| decimal_text(x as int),
            ));
            lemma_list_part(d, 11);
        }
        assert(out@ == text_upto(d, 11));
        let l = widen_u8(&self.by_minute);
        push_list(out, "BYMINUTE", &l);
        proof {
            assert(l@.map_values(|x: i64| decimal_text(x as int)) =~= d.by_minute.map_values(
                |x: u8| decimal_text(x as int),
            ));
            lemma_list_part(d, 12);
        }
        assert(out@ == text_upto(d, 12));
        let l = widen_u8(&self.by_second);
        push_list(out, "BYSECOND", &l);
        proof {
            assert(l@.map_values(|x: i64| decimal_text(x as int)) =~= d.by_second.map_values(
                |x: u8| decimal_text(x as int),
            ));
            lemma_list_part(d, 13);
        }
        assert(out@ == text_upto(d, 13));
    }

    /// Appends X-INCLUDE-DTSTART and LOCAL-TZID.
    fn push_tail(&self, out: &mut String)
        requires
            old(out)@ == text_upto(self@, 13),
        ensures
            final(out)@ == text_upto(self@, 15),
    {
        let ghost d = self@;
        proof {
            reveal_strlit(";X-INCLUDE-DTSTART=TRUE");
            reveal_strlit(";X-INCLUDE-DTSTART=FALSE");
            reveal_strlit("X-INCLUDE-DTSTART");
            reveal_strlit("TRUE");
            reveal_strlit("FALSE");
            reveal_strlit(";LOCAL-TZID=");
            reveal_strlit("LOCAL-TZID");
        }
        match self.include_dtstart {
            Some(true) => {
                out.append(";X-INCLUDE-DTSTART=TRUE");
            },
            Some(false) => {
                out.append(";X-INCLUDE-DTSTART=FALSE");
            },
            None => {},
        }
        assert(out@ =~= old(out)@ + part_text(d, 14));
        assert(out@ == text_upto(d, 14));
        let ghost s14 = out@;
        if let Some(z) = self.local_tzid {
            out.append(";LOCAL-TZID=");
            let name = z.name();
            out.append(name.as_str());
        }
        assert(out@ =~= s14 + part_text(d, 15));
        assert(out@ == text_upto(d, 15));
    }
}

/// The part of a list field is `;KEY=` and the joined items, or nothing.
proof fn lemma_list_part(d: RRuleView, k: int)
    requires
        5 <= k <= 13,
    ensures
        k == 5 ==> part_text(d, k) == list_part(
            "BYSETPOS"@,
            d.by_set_pos.map_values(|x: i32| decimal_text(x as int)),
        ),
        k == 6 ==> part_text(d, k) == list_part(
            "BYMONTH"@,
            d.by_month.map_values(|x: u8| decimal_text(x as int)),
        ),
        k == 7 ==> part_text(d, k) == list_part(
            "BYMONTHDAY"@,
            d.by_month_day.map_values(|x: i8| decimal_text(x as int)),
        ),
        k == 8 ==> part_text(d, k) == list_part(
            "BYYEARDAY"@,
            d.by_year_day.map_values(|x: i16| decimal_text(x as int)),
        ),
        k == 9 ==> part_text(d, k) == list_part(
            "BYWEEKNO"@,
            d.by_week_no.map_values(|x: i8| decimal_text(x as int)),
        ),
        k == 10 ==> part_text(d, k) == list_part(
            "BYDAY"@,
            d.by_weekday.map_values(|x: NWeekday| nweekday_text(x)),
        ),
        k == 11 ==> part_text(d, k) == list_part(
            "BYHOUR"@,
            d.by_hour.map_values(|x: u8| decimal_text(x as int)),
        ),
        k == 12 ==> part_text(d, k) == list_part(
            "BYMINUTE"@,
            d.by_minute.map_values(|x: u8| decimal_text(x as int)),
        ),
        k == 13 ==> part_text(d, k) == list_part(
            "BYSECOND"@,
            d.by_second.map_values(|x: u8| decimal_text(x as int)),
        ),
{
    match field_text(d, prop_at(k)) {
        Some(v) => {
            assert(seq![';'] + pair_text(prop_at(k), v) =~= seq![';'] + prop_at(k).name() + seq![
                '=',
            ] + v);
        },
        None => {},
    }
}

} // verus!
