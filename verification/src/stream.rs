//! The occurrences of one rule: candidates resolved to instants, filtered
//! against the start, bounded by UNTIL and COUNT, and handed out one by one.

use vstd::prelude::*;

use crate::calendar::{date_of, date_of_day, EPOCH_DAY};
use crate::datetime::{reading_of, wall_seconds, DateTime, Time};
use crate::period::{candidates, period_at, slot_wf, slots_wf, stride_at, Slot, MAX_OFFSET};
use crate::plan::{plan_of, Plan, PlanView};
use crate::rule::RRuleView;
use crate::validate::ValidatedRRule;
use crate::zone::{instants_of, Tz};

verus! {

/// The number of periods in a row that may pass without an occurrence
/// before a stream gives up.
pub const MAX_GAP: u32 = 100_000;

/// How far a stream has come: the instant of the last occurrence, the
/// number of occurrences that COUNT still allows, and whether a bound has
/// ended the stream.
#[derive(Debug, Clone, Copy, PartialEq, Eq, Structural)]
pub struct Cursor {
    pub last: Option<i64>,
    pub left: Option<u32>,
    pub done: bool,
}

/// The time of day of a candidate.
pub open spec fn slot_time(s: Slot) -> Time {
    Time {
        hour: (s.sec / 3600) as u8,
        minute: ((s.sec / 60) % 60) as u8,
        second: (s.sec as int % 60) as u8,
    }
}

/// What the wall clock shows at a candidate, in seconds.
pub open spec fn slot_local(s: Slot) -> int {
    (s.day - EPOCH_DAY) * 86400 + s.sec
}

/// The reading of a candidate in `zone`, given the instants at which the
/// zone's clock shows it: the earliest, or none where the clock skips it.
pub open spec fn slot_reading(zone: Tz, s: Slot, instants: Seq<i64>) -> Option<DateTime> {
    if instants.len() == 0 {
        None
    } else {
        Some(
            DateTime { date: date_of(s.day as int), time: slot_time(s), timestamp: instants[0], zone },
        )
    }
}

/// Whether an instant may follow what the stream has given: it lies after
/// the last occurrence, or, before the first, not before the start.
pub open spec fn admits(cur: Cursor, start: i64, t: i64) -> bool {
    match cur.last {
        Some(l) => t > l,
        None => t >= start,
    }
}

/// One candidate more. After a bound has ended the stream, and for a
/// candidate that its zone's clock skips, nothing changes. A candidate later
/// than UNTIL ends the stream. One that may not follow is passed over. Any
/// other is an occurrence: it uses up one of COUNT, and the last of COUNT
/// ends the stream.
pub open spec fn step(cur: Cursor, start: i64, until: Option<i64>, r: Option<DateTime>) -> (
    Cursor,
    Option<DateTime>,
) {
    if cur.done {
        (cur, None)
    } else {
        match r {
            None => (cur, None),
            Some(t) => if until is Some && t.timestamp > until->0 {
                (Cursor { last: cur.last, left: cur.left, done: true }, None)
            } else if !admits(cur, start, t.timestamp) {
                (cur, None)
            } else {
                let left = match cur.left {
                    Some(c) => Some((c - 1) as u32),
                    None => None,
                };
                (Cursor { last: Some(t.timestamp), left, done: left == Some(0u32) }, Some(t))
            },
        }
    }
}

/// The occurrences among the candidates of one period, in a zone other than
/// the ambient one, and the cursor after them.
pub open spec fn emit(p: PlanView, cands: Seq<Slot>, cur: Cursor) -> (Cursor, Seq<DateTime>)
    decreases cands.len(),
{
    if cands.len() == 0 {
        (cur, Seq::empty())
    } else {
        let before = emit(p, cands.drop_last(), cur);
        let s = cands.last();
        let zone = p.anchor.zone;
        let next = step(
            before.0,
            p.anchor.timestamp,
            p.until,
            slot_reading(zone, s, instants_of(zone, slot_local(s))),
        );
        (
            next.0,
            match next.1 {
                Some(t) => before.1.push(t),
                None => before.1,
            },
        )
    }
}

/// Whether the stream ends before the period at `off` units: a bound has
/// ended it, `MAX_GAP` periods in a row have given nothing, or the periods
/// have run past the year 9999.
pub open spec fn stops(p: PlanView, off: int, cur: Cursor, gap: int) -> bool {
    cur.done || gap >= 100_000 || off > 400_000_000_000 || off < 0 || p.interval <= 0
        || period_at(p, off) is None
}

/// The occurrences of the period at `off` units, and the cursor after them.
pub open spec fn emit_at(p: PlanView, off: int, cur: Cursor) -> (Cursor, Seq<DateTime>) {
    emit(p, candidates(p, period_at(p, off)->0), cur)
}

/// Where the period after the one at `off` units lies.
pub open spec fn next_off(p: PlanView, off: int) -> int {
    off + stride_at(p, period_at(p, off)->0)
}

/// The number of periods in a row without an occurrence, after one more.
pub open spec fn gap_after(out: Seq<DateTime>, gap: int) -> int {
    if out.len() == 0 {
        gap + 1
    } else {
        0
    }
}

/// The occurrences from the period at `off` units on, in a zone other than
/// the ambient one: period by period, each `stride_at` units after the one
/// before, until the stream stops.
#[verifier::opaque]
pub open spec fn stream_from(p: PlanView, off: int, cur: Cursor, gap: int) -> Seq<DateTime>
    decreases
            (if off <= 400_000_000_000 {
                400_000_000_000 - off + 1
            } else {
                0
            }),
{
    if stops(p, off, cur, gap) {
        Seq::empty()
    } else {
        emit_at(p, off, cur).1 + stream_from(
            p,
            next_off(p, off),
            emit_at(p, off, cur).0,
            gap_after(emit_at(p, off, cur).1, gap),
        )
    }
}

/// `stream_from`, one period at a time.
pub proof fn lemma_stream_step(p: PlanView, off: int, cur: Cursor, gap: int)
    ensures
        stops(p, off, cur, gap) ==> stream_from(p, off, cur, gap) == Seq::<DateTime>::empty(),
        !stops(p, off, cur, gap) ==> stream_from(p, off, cur, gap) == emit_at(p, off, cur).1
            + stream_from(
            p,
            next_off(p, off),
            emit_at(p, off, cur).0,
            gap_after(emit_at(p, off, cur).1, gap),
        ),
{
    reveal(stream_from);
}

/// Whether the rule hands out its start first, whatever its pattern.
pub open spec fn forced(d: RRuleView) -> bool {
    d.include_dtstart == Some(true)
}

/// The cursor before the first period: with the start handed out first,
/// only later instants may follow; without, the start itself may.
pub open spec fn first_cursor(d: RRuleView, a: DateTime) -> Cursor {
    Cursor {
        last: if forced(d) {
            Some(a.timestamp)
        } else {
            None
        },
        left: d.count,
        done: d.count == Some(0u32),
    }
}

/// The occurrences of rule `d` from the start `a`, read in a zone other than
/// the ambient one: the start itself first where the rule says so, which
/// uses up none of COUNT; then the occurrences of the periods.
pub open spec fn occurrences(d: RRuleView, a: DateTime) -> Seq<DateTime> {
    (if forced(d) {
        seq![a]
    } else {
        Seq::empty()
    }) + stream_from(plan_of(d, a), 0, first_cursor(d, a), 0)
}

/// The zone in which a rule reads a floating start: the zone of its
/// LOCAL-TZID, if it has one.
pub open spec fn rezone(d: RRuleView, start: DateTime) -> Option<Tz> {
    match d.local_tzid {
        Some(z) => if start.zone == Tz::Local && z != Tz::Local {
            Some(z)
        } else {
            None
        },
        None => None,
    }
}

/// The zone in which the occurrences of a rule are read.
pub open spec fn stream_zone(d: RRuleView, start: DateTime) -> Tz {
    match rezone(d, start) {
        Some(z) => z,
        None => start.zone,
    }
}

/// The start as the rule reads it: a floating start is read anew as a wall
/// clock of the rule's zone (none where that clock skips it); any other
/// start stands.
pub open spec fn anchor_of(d: RRuleView, start: DateTime) -> Option<DateTime> {
    match rezone(d, start) {
        Some(z) => reading_of(start.date, start.time, z, instants_of(z, start.local())),
        None => Some(start),
    }
}

/// The occurrences of rule `d` from `start`, read in a zone other than the
/// ambient one. A start that is no real date and time, or that the rule's
/// zone skips, has none.
pub open spec fn rule_occurrences(d: RRuleView, start: DateTime) -> Seq<DateTime> {
    if !start.valid() {
        Seq::empty()
    } else {
        match anchor_of(d, start) {
            Some(a) => occurrences(d, a),
            None => Seq::empty(),
        }
    }
}

/// Each instant lies before the next.
pub open spec fn ascending(s: Seq<DateTime>) -> bool {
    forall|i: int, j: int| 0 <= i < j < s.len() ==> s[i].timestamp < s[j].timestamp
}

/// Every instant of `s` may follow what the cursor says has been given.
pub open spec fn all_admitted(cur: Cursor, start: i64, s: Seq<DateTime>) -> bool {
    forall|i: int| 0 <= i < s.len() ==> admits(cur, start, (#[trigger] s[i]).timestamp)
}

/// The last instant given after `out` has followed `cur`.
pub open spec fn last_after(cur: Cursor, out: Seq<DateTime>) -> Option<i64> {
    if out.len() > 0 {
        Some(out.last().timestamp)
    } else {
        cur.last
    }
}

/// The occurrences of one period come in ascending order, each after what
/// came before the period, all in the zone of the start; the cursor keeps
/// the last of them.
pub proof fn lemma_emit_ascending(p: PlanView, cands: Seq<Slot>, cur: Cursor)
    ensures
        ascending(emit(p, cands, cur).1),
        all_admitted(cur, p.anchor.timestamp, emit(p, cands, cur).1),
        emit(p, cands, cur).0.last == last_after(cur, emit(p, cands, cur).1),
        forall|i: int|
            0 <= i < emit(p, cands, cur).1.len() ==> (#[trigger] emit(p, cands, cur).1[i]).zone
                == p.anchor.zone,
    decreases cands.len(),
{
    if cands.len() > 0 {
        lemma_emit_ascending(p, cands.drop_last(), cur);
        let before = emit(p, cands.drop_last(), cur);
        let after = emit(p, cands, cur);
        let out = after.1;
        assert forall|i: int, j: int| 0 <= i < j < out.len() implies out[i].timestamp
            < out[j].timestamp by {
            if j < before.1.len() {
                assert(out[i] == before.1[i]);
                assert(out[j] == before.1[j]);
            } else {
                assert(out[i] == before.1[i]);
                assert(before.1[i].timestamp <= before.1.last().timestamp) by {
                    if i < before.1.len() - 1 {
                    }
                }
            }
        }
        assert forall|i: int| 0 <= i < out.len() implies admits(
            cur,
            p.anchor.timestamp,
            (#[trigger] out[i]).timestamp,
        ) by {
            if i < before.1.len() {
                assert(out[i] == before.1[i]);
            } else {
                if before.1.len() > 0 {
                    assert(admits(cur, p.anchor.timestamp, before.1[0].timestamp));
                    assert(before.1[0].timestamp <= before.1.last().timestamp) by {
                        if before.1.len() > 1 {
                        }
                    }
                }
            }
        }
        assert forall|i: int| 0 <= i < out.len() implies (#[trigger] out[i]).zone
            == p.anchor.zone by {
            if i < before.1.len() {
                assert(out[i] == before.1[i]);
            }
        }
    }
}

/// A sequence that follows another, every instant of it after the last of
/// the first, keeps the order.
pub proof fn lemma_ascending_join(a: Seq<DateTime>, b: Seq<DateTime>)
    requires
        ascending(a),
        ascending(b),
        a.len() > 0 ==> forall|i: int| 0 <= i < b.len() ==> a.last().timestamp < (#[trigger] b[i]).timestamp,
    ensures
        ascending(a + b),
{
    let s = a + b;
    assert forall|i: int, j: int| 0 <= i < j < s.len() implies s[i].timestamp
        < s[j].timestamp by {
        if j < a.len() {
        } else if i >= a.len() {
            assert(s[i] == b[i - a.len()]);
            assert(s[j] == b[j - a.len()]);
        } else {
            assert(s[j] == b[j - a.len()]);
            assert(a[i].timestamp <= a.last().timestamp) by {
                if i < a.len() - 1 {
                }
            }
        }
    }
}

/// The occurrences of a stream come in ascending order, each after what the
/// cursor says came before, all in the zone of the start.
pub proof fn lemma_stream_ascending(p: PlanView, off: int, cur: Cursor, gap: int)
    ensures
        ascending(stream_from(p, off, cur, gap)),
        all_admitted(cur, p.anchor.timestamp, stream_from(p, off, cur, gap)),
        forall|i: int|
            0 <= i < stream_from(p, off, cur, gap).len() ==> (#[trigger] stream_from(
                p,
                off,
                cur,
                gap,
            )[i]).zone == p.anchor.zone,
    decreases
            (if off <= 400_000_000_000 {
                400_000_000_000 - off + 1
            } else {
                0
            }),
{
    lemma_stream_step(p, off, cur, gap);
    if !stops(p, off, cur, gap) {
        let e = emit_at(p, off, cur);
        let rest = stream_from(p, next_off(p, off), e.0, gap_after(e.1, gap));
        lemma_emit_ascending(p, candidates(p, period_at(p, off)->0), cur);
        lemma_stream_ascending(p, next_off(p, off), e.0, gap_after(e.1, gap));
        let s = stream_from(p, off, cur, gap);
        assert(s == e.1 + rest);
        assert forall|i: int| 0 <= i < rest.len() implies admits(
            cur,
            p.anchor.timestamp,
            (#[trigger] rest[i]).timestamp,
        ) && (e.1.len() > 0 ==> e.1.last().timestamp < rest[i].timestamp) by {
            assert(admits(e.0, p.anchor.timestamp, rest[i].timestamp));
            if e.1.len() > 0 {
                assert(admits(cur, p.anchor.timestamp, e.1[0].timestamp));
                assert(e.1[0].timestamp <= e.1.last().timestamp) by {
                    if e.1.len() > 1 {
                    }
                }
            }
        }
        lemma_ascending_join(e.1, rest);
        assert forall|i: int| 0 <= i < s.len() implies admits(
            cur,
            p.anchor.timestamp,
            (#[trigger] s[i]).timestamp,
        ) && s[i].zone == p.anchor.zone by {
            if i < e.1.len() {
                assert(s[i] == e.1[i]);
            } else {
                assert(s[i] == rest[i - e.1.len()]);
            }
        }
    }
}

/// The occurrences of a rule come in ascending order, no instant twice, all
/// in the zone in which the rule reads its start.
pub proof fn lemma_occurrences_ascending(d: RRuleView, start: DateTime)
    ensures
        ascending(rule_occurrences(d, start)),
        forall|i: int|
            0 <= i < rule_occurrences(d, start).len() ==> (#[trigger] rule_occurrences(
                d,
                start,
            )[i]).zone == stream_zone(d, start),
{
    if start.valid() {
        match anchor_of(d, start) {
            Some(a) => {
                let p = plan_of(d, a);
                let cur = first_cursor(d, a);
                lemma_stream_ascending(p, 0, cur, 0);
                let rest = stream_from(p, 0, cur, 0);
                let head = if forced(d) {
                    seq![a]
                } else {
                    Seq::<DateTime>::empty()
                };
                if head.len() > 0 {
                    assert forall|i: int| 0 <= i < rest.len() implies head.last().timestamp < (
                    #[trigger] rest[i]).timestamp by {
                        assert(admits(cur, p.anchor.timestamp, rest[i].timestamp));
                    }
                }
                lemma_ascending_join(head, rest);
                let s = rule_occurrences(d, start);
                assert(s == head + rest);
                assert forall|i: int| 0 <= i < s.len() implies (#[trigger] s[i]).zone
                    == stream_zone(d, start) by {
                    if i < head.len() {
                    } else {
                        assert(s[i] == rest[i - head.len()]);
                    }
                }
            },
            None => {},
        }
    }
}

pub open spec fn cursor_wf(cur: Cursor) -> bool {
    cur.left == Some(0u32) ==> cur.done
}

/// One candidate more.
pub fn step_cursor(cur: Cursor, start: i64, until: Option<i64>, r: Option<DateTime>) -> (out: (
    Cursor,
    Option<DateTime>,
))
    requires
        cursor_wf(cur),
    ensures
        out == step(cur, start, until, r),
        cursor_wf(out.0),
{
    if cur.done {
        return (cur, None);
    }
    match r {
        None => (cur, None),
        Some(t) => {
            if let Some(u) = until {
                if t.timestamp > u {
                    return (Cursor { last: cur.last, left: cur.left, done: true }, None);
                }
            }
            let admitted = match cur.last {
                Some(l) => t.timestamp > l,
                None => t.timestamp >= start,
            };
            if !admitted {
                return (cur, None);
            }
            let left = match cur.left {
                Some(c) => Some(c - 1),
                None => None,
            };
            let done = match left {
                Some(c) => c == 0,
                None => false,
            };
            (Cursor { last: Some(t.timestamp), left, done }, Some(t))
        },
    }
}

/// The reading of a candidate, given the instants at which its zone's clock
/// shows it.
pub fn read_slot(zone: Tz, s: Slot, instants: &Vec<i64>) -> (r: Option<DateTime>)
    requires
        slot_wf(s),
    ensures
        r == slot_reading(zone, s, instants@),
        r matches Some(t) ==> t.valid() && t.zone == zone,
{
    if instants.len() == 0 {
        None
    } else {
        let date = date_of_day(s.day);
        let time = Time {
            hour: (s.sec / 3600) as u8,
            minute: ((s.sec / 60) % 60) as u8,
            second: (s.sec % 60) as u8,
        };
        Some(DateTime { date, time, timestamp: instants[0], zone })
    }
}

impl Plan {
    /// The occurrences among the candidates of one period, and the cursor
    /// after them. In the ambient zone the host decides the instants.
    pub fn emit(&self, cands: &Vec<Slot>, cur: Cursor) -> (r: (Cursor, Vec<DateTime>))
        requires
            slots_wf(cands@),
            cursor_wf(cur),
        ensures
            cursor_wf(r.0),
            self.anchor.zone != Tz::Local ==> r.0 == emit(self@, cands@, cur).0 && r.1@ == emit(
                self@,
                cands@,
                cur,
            ).1,
            forall|i: int|
                0 <= i < r.1.len() ==> (#[trigger] r.1[i]).valid() && r.1[i].zone
                    == self.anchor.zone,
            ascending(r.1@),
            all_admitted(cur, self.anchor.timestamp, r.1@),
            r.0.last == last_after(cur, r.1@),
    {
        let zone = self.anchor.zone;
        let mut out: Vec<DateTime> = Vec::new();
        let mut c = cur;
        let mut i: usize = 0;
        proof {
            assert(cands@.take(0) =~= Seq::<Slot>::empty());
        }
        while i < cands.len()
            invariant
                i <= cands.len(),
                slots_wf(cands@),
                cursor_wf(c),
                zone == self.anchor.zone,
                zone != Tz::Local ==> c == emit(self@, cands@.take(i as int), cur).0 && out@
                    == emit(self@, cands@.take(i as int), cur).1,
                forall|j: int|
                    0 <= j < out.len() ==> (#[trigger] out[j]).valid() && out[j].zone == zone,
                ascending(out@),
                all_admitted(cur, self.anchor.timestamp, out@),
                c.last == last_after(cur, out@),
            decreases cands.len() - i,
        {
            let s = cands[i];
            proof {
                assert(slot_wf(s));
                assert(cands@.take(i + 1).drop_last() =~= cands@.take(i as int));
                assert(cands@.take(i + 1).last() == s);
            }
            if c.done {
                // Nothing follows once a bound has ended the stream.
            } else {
                let local = (s.day - EPOCH_DAY) * 86400 + s.sec;
                let instants = zone.resolve(local);
                let reading = read_slot(zone, s, &instants);
                let (next, o) = step_cursor(c, self.anchor.timestamp, self.until, reading);
                let ghost before = out@;
                let ghost before_c = c;
                c = next;
                if let Some(t) = o {
                    out.push(t);
                    proof {
                        assert(admits(before_c, self.anchor.timestamp, t.timestamp));
                        assert forall|a: int, b: int| 0 <= a < b < out.len() implies out@[a].timestamp
                            < out@[b].timestamp by {
                            if b < before.len() {
                                assert(out@[a] == before[a] && out@[b] == before[b]);
                            } else {
                                assert(out@[a] == before[a]);
                                assert(before[a].timestamp <= before.last().timestamp) by {
                                    if a < before.len() - 1 {
                                    }
                                }
                            }
                        }
                        assert forall|a: int| 0 <= a < out.len() implies admits(
                            cur,
                            self.anchor.timestamp,
                            (#[trigger] out@[a]).timestamp,
                        ) by {
                            if a < before.len() {
                                assert(out@[a] == before[a]);
                            } else if before.len() > 0 {
                                assert(admits(cur, self.anchor.timestamp, before[0].timestamp));
                                assert(before[0].timestamp <= before.last().timestamp) by {
                                    if before.len() > 1 {
                                    }
                                }
                            }
                        }
                    }
                }
            }
            i += 1;
        }
        proof {
            assert(cands@.take(i as int) =~= cands@);
        }
        (c, out)
    }
}

/// Whether the instant `t` lies after the instant `last`, if there is one.
pub open spec fn following(last: Option<i64>, t: i64) -> bool {
    match last {
        Some(l) => t > l,
        None => true,
    }
}

/// The occurrences of one rule, handed out one at a time in order.
pub struct RuleIter {
    plan: Plan,
    cursor: Cursor,
    off: i64,
    pending: Option<DateTime>,
    buffer: Vec<DateTime>,
    pos: usize,
    finished: bool,
    given: Option<i64>,
}

impl RuleIter {
    /// The state holds together.
    pub closed spec fn wf(&self) -> bool {
        &&& self.plan.anchor.valid()
        &&& self.plan.interval >= 1
        &&& 0 <= self.off
        &&& self.pos <= self.buffer.len()
        &&& cursor_wf(self.cursor)
        &&& forall|i: int|
            0 <= i < self.buffer.len() ==> (#[trigger] self.buffer[i]).valid()
                && self.buffer[i].zone == self.plan.anchor.zone
        &&& self.pending matches Some(t) ==> t.valid() && t.zone == self.plan.anchor.zone
        &&& ascending(self.buffer@)
        &&& forall|i: int|
            self.pos <= i < self.buffer.len() ==> following(
                self.given,
                (#[trigger] self.buffer[i]).timestamp,
            )
        &&& self.buffer.len() > 0 ==> self.cursor.last == Some(self.buffer@.last().timestamp)
        &&& self.given matches Some(g) ==> (self.cursor.last matches Some(c) && c >= g)
        &&& self.pending matches Some(t) ==> self.given is None && self.buffer.len() == 0
            && self.cursor.last == Some(t.timestamp)
    }

    /// The instant of the occurrence handed out last, if any was.
    pub closed spec fn last_given(&self) -> Option<i64> {
        self.given
    }

    /// The zone in which the occurrences are read.
    pub closed spec fn zone(&self) -> Tz {
        self.plan.anchor.zone
    }

    /// The occurrences still to come, in a zone other than the ambient one.
    pub closed spec fn remaining(&self) -> Seq<DateTime> {
        (match self.pending {
            Some(t) => seq![t],
            None => Seq::empty(),
        }) + self.buffer@.skip(self.pos as int) + (if self.finished {
            Seq::empty()
        } else {
            stream_from(self.plan@, self.off as int, self.cursor, 0)
        })
    }

    /// A number that falls with every occurrence handed out.
    pub closed spec fn budget(&self) -> nat {
        ((if self.finished || self.off > MAX_OFFSET {
            0
        } else {
            (MAX_OFFSET + 1 - self.off) * 0x1_0000_0000_0000_0000
        }) + (self.buffer.len() - self.pos) + (if self.pending is Some {
            1int
        } else {
            0int
        })) as nat
    }

    /// The stream of `rule` from `start`. A floating start is read in the
    /// zone of the rule's LOCAL-TZID.
    pub fn new(rule: &ValidatedRRule, start: DateTime) -> (r: RuleIter)
        ensures
            r.wf(),
            stream_zone(rule@, start) != Tz::Local ==> r.remaining() == rule_occurrences(
                rule@,
                start,
            ),
            r.zone() == stream_zone(rule@, start),
            r.last_given() is None,
    {
        let d = rule.as_rule();
        let z = match d.local_tzid {
            Some(z) => if start.zone.is_local() && !z.is_local() {
                Some(z)
            } else {
                None
            },
            None => None,
        };
        let zone = match z {
            Some(z) => z,
            None => start.zone,
        };
        let anchor: Option<DateTime> = if !start.is_valid() {
            None
        } else {
            match z {
                Some(z) => {
                    let instants = z.resolve(wall_seconds(start.date, start.time));
                    DateTime::from_instants(start.date, start.time, z, &instants)
                },
                None => Some(start),
            }
        };
        match anchor {
            None => {
                let a = DateTime {
                    date: crate::calendar::Date { year: 1970, month: 1, day: 1 },
                    time: Time { hour: 0, minute: 0, second: 0 },
                    timestamp: 0,
                    zone,
                };
                let mut plan = Plan::build(d, a);
                plan.interval = 1;
                let r = RuleIter {
                    plan,
                    cursor: Cursor { last: None, left: None, done: true },
                    off: 0,
                    pending: None,
                    buffer: Vec::new(),
                    pos: 0,
                    finished: true,
                    given: None,
                };
                proof {
                    assert(r.buffer@.skip(0) =~= Seq::<DateTime>::empty());
                    assert(r.remaining() =~= Seq::<DateTime>::empty());
                }
                r
            },
            Some(a) => {
                let plan = Plan::build(d, a);
                let force = match d.include_dtstart {
                    Some(b) => b,
                    None => false,
                };
                let done = match d.count {
                    Some(c) => c == 0,
                    None => false,
                };
                let cursor = Cursor {
                    last: if force {
                        Some(a.timestamp)
                    } else {
                        None
                    },
                    left: d.count,
                    done,
                };
                let r = RuleIter {
                    plan,
                    cursor,
                    off: 0,
                    pending: if force {
                        Some(a)
                    } else {
                        None
                    },
                    buffer: Vec::new(),
                    pos: 0,
                    finished: false,
                    given: None,
                };
                proof {
                    assert(r.buffer@.skip(0) =~= Seq::<DateTime>::empty());
                    assert(r.remaining() =~= occurrences(rule@, a));
                }
                r
            },
        }
    }

    /// Runs periods until one gives an occurrence or the stream ends.
    fn generate(&mut self)
        requires
            old(self).wf(),
            old(self).pending is None,
            old(self).pos == old(self).buffer.len(),
            !old(self).finished,
        ensures
            final(self).wf(),
            final(self).pending is None,
            final(self).pos == 0,
            final(self).zone() == old(self).zone(),
            final(self).buffer.len() == 0 ==> final(self).finished,
            old(self).zone() != Tz::Local ==> final(self).remaining() == old(self).remaining(),
            final(self).buffer.len() > 0 ==> final(self).budget() <= old(self).budget(),
            final(self).given == old(self).given,
    {
        let ghost start_remaining = self.remaining();
        let mut gap: u32 = 0;
        self.pos = 0;
        self.buffer = Vec::new();
        proof {
            assert(old(self).buffer@.skip(old(self).pos as int) =~= Seq::<DateTime>::empty());
            assert(self.buffer@.skip(0) =~= Seq::<DateTime>::empty());
            assert(start_remaining =~= stream_from(self.plan@, self.off as int, self.cursor, 0));
        }
        loop
            invariant_except_break
                self.buffer.len() == 0,
                !self.finished,
                self.zone() != Tz::Local ==> start_remaining == stream_from(
                    self.plan@,
                    self.off as int,
                    self.cursor,
                    gap as int,
                ),
            invariant
                self.wf(),
                self.pending is None,
                self.pos == 0,
                self.plan == old(self).plan,
                self.off >= old(self).off,
                !old(self).finished,
                self.given == old(self).given,
                gap <= MAX_GAP,
            ensures
                self.wf(),
                self.pending is None,
                self.pos == 0,
                self.plan == old(self).plan,
                self.buffer.len() == 0 ==> self.finished,
                self.zone() != Tz::Local ==> self.remaining() == start_remaining,
                self.buffer.len() > 0 ==> !self.finished && self.off > old(self).off
                    && old(self).off <= MAX_OFFSET,
                self.given == old(self).given,
            decreases
                    (if self.off <= MAX_OFFSET {
                        MAX_OFFSET - self.off + 1
                    } else {
                        0
                    }),
        {
            proof {
                lemma_stream_step(self.plan@, self.off as int, self.cursor, gap as int);
            }
            if self.cursor.done || gap >= MAX_GAP || self.off > MAX_OFFSET {
                self.finished = true;
                proof {
                    assert(self.buffer@.skip(0) =~= Seq::<DateTime>::empty());
                    assert(self.remaining() =~= Seq::<DateTime>::empty());
                }
                break ;
            }
            match self.plan.period(self.off) {
                None => {
                    self.finished = true;
                    proof {
                        assert(self.buffer@.skip(0) =~= Seq::<DateTime>::empty());
                        assert(self.remaining() =~= Seq::<DateTime>::empty());
                    }
                    break ;
                },
                Some(per) => {
                    let cands = self.plan.candidates(per);
                    let (next, out) = self.plan.emit(&cands, self.cursor);
                    let step = self.plan.stride(per);
                    self.off = self.off + step;
                    self.cursor = next;
                    if out.len() > 0 {
                        self.buffer = out;
                        proof {
                            assert(self.buffer@.skip(0) =~= self.buffer@);
                            if self.zone() != Tz::Local {
                                assert(self.remaining() =~= self.buffer@ + stream_from(
                                    self.plan@,
                                    self.off as int,
                                    self.cursor,
                                    0,
                                ));
                            }
                        }
                        break ;
                    }
                    gap = gap + 1;
                },
            }
        }
        proof {
            if self.buffer.len() > 0 {
                assert(self.buffer.len() < 0x1_0000_0000_0000_0000);
                assert((MAX_OFFSET + 1 - old(self).off) * 0x1_0000_0000_0000_0000 >= (MAX_OFFSET
                    + 1 - self.off) * 0x1_0000_0000_0000_0000 + 0x1_0000_0000_0000_0000);
            }
        }
    }

    /// The next occurrence, if there is one: a real date and time in the
    /// stream's zone, at an instant after that of the occurrence before it.
    /// In a zone other than the ambient one it is the first of the
    /// occurrences still to come.
    pub fn next(&mut self) -> (r: Option<DateTime>)
        requires
            old(self).wf(),
        ensures
            final(self).wf(),
            final(self).zone() == old(self).zone(),
            final(self).budget() <= old(self).budget(),
            r matches Some(t) ==> t.valid() && t.zone == old(self).zone() && final(self).budget()
                < old(self).budget(),
            r matches Some(t) ==> following(old(self).last_given(), t.timestamp)
                && final(self).last_given() == Some(t.timestamp),
            r is None ==> final(self).last_given() == old(self).last_given(),
            old(self).zone() != Tz::Local ==> (match r {
                Some(t) => old(self).remaining() == seq![t] + final(self).remaining(),
                None => old(self).remaining().len() == 0 && final(self).remaining().len() == 0,
            }),
    {
        if let Some(t) = self.pending {
            self.pending = None;
            self.given = Some(t.timestamp);
            proof {
                assert(old(self).remaining() =~= seq![t] + self.remaining());
            }
            return Some(t);
        }
        if self.pos >= self.buffer.len() {
            if self.finished {
                proof {
                    assert(self.buffer@.skip(self.pos as int) =~= Seq::<DateTime>::empty());
                }
                return None;
            }
            self.generate();
        }
        if self.pos < self.buffer.len() {
            let t = self.buffer[self.pos];
            let ghost before = self.remaining();
            proof {
                assert(t.timestamp <= self.buffer@.last().timestamp) by {
                    if self.pos < self.buffer.len() - 1 {
                    }
                }
            }
            self.given = Some(t.timestamp);
            self.pos = self.pos + 1;
            proof {
                assert(self.buffer@.skip(self.pos - 1) =~= seq![t] + self.buffer@.skip(
                    self.pos as int,
                ));
                assert(before =~= seq![t] + self.remaining());
            }
            Some(t)
        } else {
            proof {
                assert(self.buffer@.skip(self.pos as int) =~= Seq::<DateTime>::empty());
            }
            None
        }
    }
}

} // verus!
