//! What holds of the library as a whole, stated over the same definitions
//! that the functions' own contracts use.

use vstd::prelude::*;

use crate::datetime::DateTime;
use crate::error::{error_of, ParseErrorKind, ParseErrorView};
use crate::merge::{holds, lemma_merged_ascending, lemma_merged_complete};
use crate::parser::{
    by_hour_field, by_minute_field, by_month_day_field, by_month_field, by_second_field,
    by_week_no_field, by_year_day_field, int_list_of, lemma_bad_piece, rule_of_line, rule_of_props,
    Props,
};
use crate::period::{candidates, period_at, Period, Slot};
use crate::plan::{plan_of, PlanView};
use crate::property::{property_of, RRuleProperty};
use crate::props::{props_of_pieces, with_piece};
use crate::rule::RRuleView;
use crate::set::{set_dates, set_exclusions, set_pool, RRuleSetView};
use crate::stream::{
    ascending, emit, emit_at, first_cursor, forced, gap_after, lemma_stream_step, next_off, occurrences,
    rule_occurrences, stops, stream_from, Cursor,
};
use crate::text::{decimal_in, is_ascii_text, split, split_first, upper_of};

verus! {

/// Keys are read without regard to letter case: two keys with the same
/// upper-case form name the same property, or are both unknown.
pub proof fn law_keys_ignore_case(a: Seq<char>, b: Seq<char>)
    requires
        upper_of(a) == upper_of(b),
    ensures
        property_of(a) is Ok <==> property_of(b) is Ok,
        property_of(a) is Ok ==> property_of(a)->Ok_0 == property_of(b)->Ok_0,
{
}

/// Two ASCII keys that differ only in the case of their letters have the
/// same upper-case form, and so name the same property.
pub proof fn law_ascii_keys_ignore_case(a: Seq<char>, b: Seq<char>)
    requires
        is_ascii_text(a),
        is_ascii_text(b),
        a.len() == b.len(),
        forall|i: int|
            0 <= i < a.len() ==> crate::text::ascii_upper_char(#[trigger] a[i])
                == crate::text::ascii_upper_char(b[i]),
    ensures
        upper_of(a) == upper_of(b),
        property_of(a) is Ok <==> property_of(b) is Ok,
        property_of(a) is Ok ==> property_of(a)->Ok_0 == property_of(b)->Ok_0,
{
    assert(upper_of(a) =~= upper_of(b));
}

/// `BYDAY` and `BYWEEKDAY` are two names of one key.
pub proof fn law_byday_synonym(a: Seq<char>, b: Seq<char>)
    requires
        upper_of(a) == "BYDAY"@,
        upper_of(b) == "BYWEEKDAY"@,
    ensures
        property_of(a) == Ok::<RRuleProperty, ParseErrorView>(RRuleProperty::ByDay),
        property_of(b) == Ok::<RRuleProperty, ParseErrorView>(RRuleProperty::ByDay),
{
    reveal_strlit("BYDAY");
    reveal_strlit("BYWEEKDAY");
    reveal_strlit("FREQ");
    reveal_strlit("UNTIL");
    reveal_strlit("COUNT");
    reveal_strlit("INTERVAL");
    reveal_strlit("BYSECOND");
    reveal_strlit("BYMINUTE");
    reveal_strlit("BYHOUR");
    assert("BYDAY"@.len() == 5 && "BYDAY"@[0] == 'B');
    assert("BYWEEKDAY"@.len() == 9);
    assert("FREQ"@.len() == 4);
    assert("UNTIL"@.len() == 5 && "UNTIL"@[0] == 'U');
    assert("COUNT"@.len() == 5 && "COUNT"@[0] == 'C');
    assert("INTERVAL"@.len() == 8);
    assert("BYSECOND"@.len() == 8);
    assert("BYMINUTE"@.len() == 8);
    assert("BYHOUR"@.len() == 6);
}

/// Whether two pieces of a rule's text say the same: both are empty, or
/// both are `KEY=VALUE` with the same value and keys that name the same
/// property.
pub open spec fn pieces_agree(a: Seq<char>, b: Seq<char>) -> bool {
    (a.len() == 0 && b.len() == 0) || (a.len() > 0 && b.len() > 0 && split_first(a, '=') is Some
        && split_first(b, '=') is Some && value_part(a) == value_part(b) && property_of(
        key_part(a),
    ) is Ok && property_of(key_part(a)) == property_of(key_part(b)))
}

/// The text before the first `=` of a piece.
pub open spec fn key_part(piece: Seq<char>) -> Seq<char> {
    match split_first(piece, '=') {
        Some((k, _)) => k,
        None => piece,
    }
}

/// The text after the first `=` of a piece.
pub open spec fn value_part(piece: Seq<char>) -> Seq<char> {
    match split_first(piece, '=') {
        Some((_, v)) => v,
        None => Seq::empty(),
    }
}

/// Two texts whose pieces agree one by one, whatever the letter case or the
/// spelling of their keys, give the same pairs, and so the same rule.
pub proof fn law_same_keys_same_pairs(a: Seq<Seq<char>>, b: Seq<Seq<char>>)
    requires
        a.len() == b.len(),
        forall|i: int| 0 <= i < a.len() ==> pieces_agree(#[trigger] a[i], b[i]),
    ensures
        props_of_pieces(a) is Ok,
        props_of_pieces(a) == props_of_pieces(b),
    decreases a.len(),
{
    if a.len() > 0 {
        let a0 = a.drop_last();
        let b0 = b.drop_last();
        assert forall|i: int| 0 <= i < a0.len() implies pieces_agree(#[trigger] a0[i], b0[i]) by {
            assert(pieces_agree(a[i], b[i]));
        }
        law_same_keys_same_pairs(a0, b0);
        assert(pieces_agree(a[a.len() - 1], b[a.len() - 1]));
    }
}

/// Whether the value under `k` is a word that is read in any letter case.
pub open spec fn is_word_key(k: RRuleProperty) -> bool {
    k == RRuleProperty::Freq || k == RRuleProperty::Wkst || k == RRuleProperty::XIncludeDtstart
}

/// The words of FREQ, WKST and X-INCLUDE-DTSTART are read without regard to
/// letter case: two sets of pairs that differ only in the case of these
/// words give the same rule, or are both refused.
pub proof fn law_words_ignore_case(p: Props, q: Props, instants: Seq<i64>)
    requires
        p.dom() == q.dom(),
        forall|k: RRuleProperty|
            #[trigger] p.dom().contains(k) ==> if is_word_key(k) {
                upper_of(p[k]) == upper_of(q[k])
            } else {
                p[k] == q[k]
            },
    ensures
        rule_of_props(p, instants) is Ok <==> rule_of_props(q, instants) is Ok,
        rule_of_props(p, instants) is Ok ==> rule_of_props(p, instants) == rule_of_props(
            q,
            instants,
        ),
{
    assert(p.dom().contains(RRuleProperty::Freq) == q.dom().contains(RRuleProperty::Freq));
    assert(p.dom().contains(RRuleProperty::Until) == q.dom().contains(RRuleProperty::Until));
    assert(p.dom().contains(RRuleProperty::Count) == q.dom().contains(RRuleProperty::Count));
    assert(p.dom().contains(RRuleProperty::Interval) == q.dom().contains(
        RRuleProperty::Interval,
    ));
    assert(p.dom().contains(RRuleProperty::BySecond) == q.dom().contains(
        RRuleProperty::BySecond,
    ));
    assert(p.dom().contains(RRuleProperty::ByMinute) == q.dom().contains(
        RRuleProperty::ByMinute,
    ));
    assert(p.dom().contains(RRuleProperty::ByHour) == q.dom().contains(RRuleProperty::ByHour));
    assert(p.dom().contains(RRuleProperty::ByDay) == q.dom().contains(RRuleProperty::ByDay));
    assert(p.dom().contains(RRuleProperty::ByMonthDay) == q.dom().contains(
        RRuleProperty::ByMonthDay,
    ));
    assert(p.dom().contains(RRuleProperty::ByYearDay) == q.dom().contains(
        RRuleProperty::ByYearDay,
    ));
    assert(p.dom().contains(RRuleProperty::ByWeekNo) == q.dom().contains(
        RRuleProperty::ByWeekNo,
    ));
    assert(p.dom().contains(RRuleProperty::ByMonth) == q.dom().contains(RRuleProperty::ByMonth));
    assert(p.dom().contains(RRuleProperty::BySetPos) == q.dom().contains(
        RRuleProperty::BySetPos,
    ));
    assert(p.dom().contains(RRuleProperty::Wkst) == q.dom().contains(RRuleProperty::Wkst));
    assert(p.dom().contains(RRuleProperty::XIncludeDtstart) == q.dom().contains(
        RRuleProperty::XIncludeDtstart,
    ));
    assert(p.dom().contains(RRuleProperty::LocalTzid) == q.dom().contains(
        RRuleProperty::LocalTzid,
    ));
}

/// The weekday of a BYDAY entry is read without regard to letter case: two
/// entries with the same ordinal before weekdays of the same upper-case
/// form are the same entry.
pub proof fn law_byday_ignores_case(a: Seq<char>, b: Seq<char>)
    requires
        a.len() == b.len(),
        a.len() >= 2,
        a.take(a.len() - 2) == b.take(b.len() - 2),
        upper_of(a.skip(a.len() - 2)) == upper_of(b.skip(b.len() - 2)),
    ensures
        crate::kinds::nweekday_of(a) == crate::kinds::nweekday_of(b),
{
}

/// The order of two neighbouring pairs with different keys does not
/// matter: either way the same pairs are read, and so the same rule. In
/// particular LOCAL-TZID decides how a floating UNTIL is read whether it
/// stands before it or after it.
pub proof fn law_pair_order(before: Seq<Seq<char>>, a: Seq<char>, b: Seq<char>)
    requires
        a.len() > 0,
        b.len() > 0,
        split_first(a, '=') is Some,
        split_first(b, '=') is Some,
        property_of(key_part(a)) is Ok,
        property_of(key_part(b)) is Ok,
        property_of(key_part(a)) != property_of(key_part(b)),
    ensures
        props_of_pieces(before.push(a).push(b)) == props_of_pieces(before.push(b).push(a)),
{
    let ab = before.push(a).push(b);
    let ba = before.push(b).push(a);
    assert(ab.drop_last() =~= before.push(a));
    assert(ba.drop_last() =~= before.push(b));
    assert(before.push(a).drop_last() =~= before);
    assert(before.push(b).drop_last() =~= before);
    assert(ab.last() == b && ba.last() == a);
    assert(before.push(a).last() == a && before.push(b).last() == b);
    match props_of_pieces(before) {
        Ok(m) => {
            let ka = property_of(key_part(a))->Ok_0;
            let kb = property_of(key_part(b))->Ok_0;
            let ma = m.insert(ka, value_part(a));
            let mb = m.insert(kb, value_part(b));
            assert(with_piece(m, a) == Ok::<Props, ParseErrorView>(ma));
            assert(with_piece(m, b) == Ok::<Props, ParseErrorView>(mb));
            assert(props_of_pieces(before.push(a)) == Ok::<Props, ParseErrorView>(ma));
            assert(props_of_pieces(before.push(b)) == Ok::<Props, ParseErrorView>(mb));
            assert(with_piece(ma, b) == Ok::<Props, ParseErrorView>(ma.insert(kb, value_part(b))));
            assert(with_piece(mb, a) == Ok::<Props, ParseErrorView>(mb.insert(ka, value_part(a))));
            assert(ma.insert(kb, value_part(b)) =~= mb.insert(ka, value_part(a)));
        },
        Err(_) => {
            assert(props_of_pieces(before.push(a)) is Err);
            assert(props_of_pieces(before.push(b)) is Err);
        },
    }
}

/// A rule's text without FREQ is refused with `MissingProperty`, whatever
/// else it holds.
pub proof fn law_missing_freq(p: Props, instants: Seq<i64>)
    requires
        !p.dom().contains(RRuleProperty::Freq),
    ensures
        rule_of_props(p, instants) == Err::<RRuleView, ParseErrorView>(
            error_of(ParseErrorKind::MissingProperty, "FREQ"@),
        ),
{
}

/// A rule's content line that carries parameters is refused with
/// `PropertyParametersNotSupported`, whatever its value.
pub proof fn law_parameters_refused(parameters: Seq<char>, value: Seq<char>, instants: Seq<i64>)
    requires
        parameters.len() > 0,
    ensures
        rule_of_line(Some(parameters), value, instants) == Err::<RRuleView, ParseErrorView>(
            error_of(ParseErrorKind::PropertyParametersNotSupported, parameters),
        ),
{
}

/// Whether the list `value` has a piece that is no integer of `lo..=hi`.
pub open spec fn has_bad_piece(value: Seq<char>, signed: bool, lo: int, hi: int) -> bool {
    exists|k: int|
        0 <= k < split(value, ',').len() && decimal_in(
            #[trigger] split(value, ',')[k],
            signed,
            lo,
            hi,
        ) is None
}

/// One element out of range, wherever it stands in the list, makes the
/// whole list of BYHOUR, BYMINUTE, BYSECOND, BYMONTH, BYMONTHDAY, BYYEARDAY
/// or BYWEEKNO be refused with the error of that field, which carries the
/// whole value; and the rule with it.
pub proof fn law_range_enforced(p: Props, instants: Seq<i64>)
    ensures
        p.dom().contains(RRuleProperty::ByHour) && has_bad_piece(
            p[RRuleProperty::ByHour],
            false,
            0,
            23,
        ) ==> by_hour_field(p) == Err::<Seq<u8>, ParseErrorView>(
            error_of(ParseErrorKind::InvalidByHour, p[RRuleProperty::ByHour]),
        ) && rule_of_props(p, instants) is Err,
        p.dom().contains(RRuleProperty::ByMinute) && has_bad_piece(
            p[RRuleProperty::ByMinute],
            false,
            0,
            59,
        ) ==> by_minute_field(p) == Err::<Seq<u8>, ParseErrorView>(
            error_of(ParseErrorKind::InvalidByMinute, p[RRuleProperty::ByMinute]),
        ) && rule_of_props(p, instants) is Err,
        p.dom().contains(RRuleProperty::BySecond) && has_bad_piece(
            p[RRuleProperty::BySecond],
            false,
            0,
            59,
        ) ==> by_second_field(p) == Err::<Seq<u8>, ParseErrorView>(
            error_of(ParseErrorKind::InvalidBySecond, p[RRuleProperty::BySecond]),
        ) && rule_of_props(p, instants) is Err,
        p.dom().contains(RRuleProperty::ByMonth) && has_bad_piece(
            p[RRuleProperty::ByMonth],
            false,
            1,
            12,
        ) ==> by_month_field(p) == Err::<Seq<u8>, ParseErrorView>(
            error_of(ParseErrorKind::InvalidByMonth, p[RRuleProperty::ByMonth]),
        ) && rule_of_props(p, instants) is Err,
        p.dom().contains(RRuleProperty::ByMonthDay) && has_bad_piece(
            p[RRuleProperty::ByMonthDay],
            true,
            -31,
            31,
        ) ==> by_month_day_field(p) == Err::<Seq<i8>, ParseErrorView>(
            error_of(ParseErrorKind::InvalidByMonthDay, p[RRuleProperty::ByMonthDay]),
        ) && rule_of_props(p, instants) is Err,
        p.dom().contains(RRuleProperty::ByYearDay) && has_bad_piece(
            p[RRuleProperty::ByYearDay],
            true,
            -366,
            366,
        ) ==> by_year_day_field(p) == Err::<Seq<i16>, ParseErrorView>(
            error_of(ParseErrorKind::InvalidByYearDay, p[RRuleProperty::ByYearDay]),
        ) && rule_of_props(p, instants) is Err,
        p.dom().contains(RRuleProperty::ByWeekNo) && has_bad_piece(
            p[RRuleProperty::ByWeekNo],
            true,
            -53,
            53,
        ) ==> by_week_no_field(p) == Err::<Seq<i8>, ParseErrorView>(
            error_of(ParseErrorKind::InvalidByWeekNo, p[RRuleProperty::ByWeekNo]),
        ) && rule_of_props(p, instants) is Err,
{
    lemma_bad_list(p, RRuleProperty::ByHour, false, 0, 23);
    lemma_bad_list(p, RRuleProperty::ByMinute, false, 0, 59);
    lemma_bad_list(p, RRuleProperty::BySecond, false, 0, 59);
    lemma_bad_list(p, RRuleProperty::ByMonth, false, 1, 12);
    lemma_bad_list(p, RRuleProperty::ByMonthDay, true, -31, 31);
    lemma_bad_list(p, RRuleProperty::ByYearDay, true, -366, 366);
    lemma_bad_list(p, RRuleProperty::ByWeekNo, true, -53, 53);
}

proof fn lemma_bad_list(p: Props, key: RRuleProperty, signed: bool, lo: int, hi: int)
    ensures
        p.dom().contains(key) && has_bad_piece(p[key], signed, lo, hi) ==> int_list_of(
            p[key],
            signed,
            lo,
            hi,
        ) is None,
{
    if p.dom().contains(key) && has_bad_piece(p[key], signed, lo, hi) {
        let pieces = split(p[key], ',');
        let k = choose|k: int|
            0 <= k < pieces.len() && decimal_in(#[trigger] pieces[k], signed, lo, hi) is None;
        lemma_bad_piece(pieces, signed, lo, hi, k);
    }
}

/// Without X-INCLUDE-DTSTART a rule behaves as with `FALSE`: the start is
/// an occurrence only where the pattern gives it.
pub proof fn law_unset_is_false(d: RRuleView, start: DateTime)
    requires
        d.include_dtstart is None,
    ensures
        rule_occurrences(d, start) == rule_occurrences(
            RRuleView { include_dtstart: Some(false), ..d },
            start,
        ),
{
    let e = RRuleView { include_dtstart: Some(false), ..d };
    if start.valid() {
        match crate::stream::anchor_of(d, start) {
            Some(a) => {
                assert(plan_of(d, a) == plan_of(e, a));
                assert(first_cursor(d, a) == first_cursor(e, a));
            },
            None => {},
        }
    }
}

/// With X-INCLUDE-DTSTART=TRUE the start is the first occurrence, whatever
/// the pattern, and what follows is the stream of the rule with its whole
/// COUNT, from instants after the start.
pub proof fn law_forced_start_first(d: RRuleView, a: DateTime)
    requires
        forced(d),
    ensures
        occurrences(d, a).len() > 0,
        occurrences(d, a)[0] == a,
        occurrences(d, a).skip(1) == stream_from(
            plan_of(d, a),
            0,
            Cursor { last: Some(a.timestamp), left: d.count, done: d.count == Some(0u32) },
            0,
        ),
{
    assert(occurrences(d, a).skip(1) =~= stream_from(plan_of(d, a), 0, first_cursor(d, a), 0));
}

/// Whether COUNT, as far as it is left, allows `n` more occurrences.
pub open spec fn within_count(left: Option<u32>, n: int) -> bool {
    match left {
        Some(c) => n <= c,
        None => true,
    }
}

/// Whether no instant of `s` lies after UNTIL.
pub open spec fn within_until(until: Option<i64>, s: Seq<DateTime>) -> bool {
    forall|i: int| 0 <= i < s.len() ==> (until matches Some(u) ==> (#[trigger] s[i]).timestamp <= u)
}

proof fn lemma_emit_bounded(p: PlanView, cands: Seq<Slot>, cur: Cursor)
    requires
        cur.left == Some(0u32) ==> cur.done,
    ensures
        within_until(p.until, emit(p, cands, cur).1),
        within_count(cur.left, emit(p, cands, cur).1.len() as int),
        emit(p, cands, cur).0.left == Some(0u32) ==> emit(p, cands, cur).0.done,
        cur.left matches Some(c) ==> emit(p, cands, cur).0.left == Some(
            (c - emit(p, cands, cur).1.len()) as u32,
        ),
        cur.left is None ==> emit(p, cands, cur).0.left is None,
    decreases cands.len(),
{
    if cands.len() > 0 {
        lemma_emit_bounded(p, cands.drop_last(), cur);
        let before = emit(p, cands.drop_last(), cur);
        let out = emit(p, cands, cur).1;
        assert forall|i: int| 0 <= i < out.len() implies (p.until matches Some(u) ==> (
        #[trigger] out[i]).timestamp <= u) by {
            if i < before.1.len() {
                assert(out[i] == before.1[i]);
            }
        }
    }
}

proof fn lemma_stream_bounded(p: PlanView, off: int, cur: Cursor, gap: int)
    requires
        cur.left == Some(0u32) ==> cur.done,
    ensures
        within_until(p.until, stream_from(p, off, cur, gap)),
        within_count(cur.left, stream_from(p, off, cur, gap).len() as int),
    decreases
            (if off <= 400_000_000_000 {
                400_000_000_000 - off + 1
            } else {
                0
            }),
{
    lemma_stream_step(p, off, cur, gap);
    if !stops(p, off, cur, gap) {
        let e = emit_at(p, off, cur);
        lemma_emit_bounded(p, candidates(p, period_at(p, off)->0), cur);
        lemma_stream_bounded(p, next_off(p, off), e.0, gap_after(e.1, gap));
        let rest = stream_from(p, next_off(p, off), e.0, gap_after(e.1, gap));
        let s = stream_from(p, off, cur, gap);
        assert forall|i: int| 0 <= i < s.len() implies (p.until matches Some(u) ==> (
        #[trigger] s[i]).timestamp <= u) by {
            if i < e.1.len() {
                assert(s[i] == e.1[i]);
            } else {
                assert(s[i] == rest[i - e.1.len()]);
            }
        }
    }
}

/// COUNT and UNTIL bound a rule: apart from a start that is handed out
/// first whatever the pattern, a rule has no more occurrences than COUNT
/// says and none after UNTIL (one exactly at UNTIL may stand).
pub proof fn law_bounds_hold(d: RRuleView, a: DateTime)
    ensures
        ({
            let counted = if forced(d) {
                occurrences(d, a).skip(1)
            } else {
                occurrences(d, a)
            };
            &&& d.count matches Some(c) ==> counted.len() <= c
            &&& d.until matches Some(u) ==> forall|i: int|
                0 <= i < counted.len() ==> (#[trigger] counted[i]).timestamp <= u.timestamp
        }),
{
    let p = plan_of(d, a);
    let cur = first_cursor(d, a);
    lemma_stream_bounded(p, 0, cur, 0);
    let s = stream_from(p, 0, cur, 0);
    if forced(d) {
        assert(occurrences(d, a).skip(1) =~= s);
    } else {
        assert(occurrences(d, a) =~= s);
    }
}

/// The occurrences of a set come in ascending order of their instants, so
/// that no instant stands twice, however many rules and added instants give
/// it; each of them is an instant that the set adds, and none is one that
/// the set takes away.
pub proof fn law_set_each_instant_once(v: RRuleSetView, limit: nat)
    ensures
        ascending(set_dates(v, limit)),
        set_dates(v, limit).len() <= limit,
        forall|i: int|
            0 <= i < set_dates(v, limit).len() ==> set_pool(v).contains(
                #[trigger] set_dates(v, limit)[i],
            ) && !holds(set_exclusions(v), set_dates(v, limit)[i].timestamp),
{
    lemma_merged_ascending(set_pool(v), set_exclusions(v), None, limit, 0);
}

/// A set passes over nothing: every instant that it adds and does not take
/// away, and that is not later than the last occurrence given, is among the
/// occurrences given.
pub proof fn law_set_passes_over_nothing(v: RRuleSetView, limit: nat, x: DateTime)
    requires
        set_pool(v).contains(x),
        !holds(set_exclusions(v), x.timestamp),
        set_dates(v, limit).len() > 0,
        x.timestamp <= set_dates(v, limit).last().timestamp,
    ensures
        holds(set_dates(v, limit), x.timestamp),
{
    lemma_merged_complete(set_pool(v), set_exclusions(v), None, limit, 0, x);
}

/// A day that gives no candidate gives none at any time: the periods of an
/// hourly or finer rule that lie on such a day hold no candidate, so that a
/// stream loses nothing by leaving the day at once.
pub proof fn law_failing_day_gives_nothing(p: PlanView, per: Period)
    requires
        per.day_count == 1,
        crate::period::day_fails(p, per),
    ensures
        candidates(p, per).len() == 0,
{
    let days = crate::period::matching_days(p, per.day as int, per.day + 1);
    assert(crate::period::matching_days(p, per.day as int, per.day as int) =~= Seq::<i64>::empty());
    assert(days =~= Seq::<i64>::empty());
    let times = crate::period::times_of(
        crate::period::hours_of(p, per),
        crate::period::minutes_of(p, per),
        crate::period::seconds_of(p, per),
    );
    let slots = crate::period::slots_of(days, times);
    assert(slots =~= Seq::<Slot>::empty());
    lemma_nothing_picked(slots, p.set_pos, 0);
}

proof fn lemma_nothing_picked(slots: Seq<Slot>, sp: Seq<i64>, k: int)
    requires
        slots.len() == 0,
        k <= 0,
    ensures
        crate::period::picked(slots, sp, k).len() == 0,
{
}

} // verus!
