//! A set of rules that share one start, with instants added and instants
//! excluded by hand, and the one ordered stream that they make together.

use vstd::prelude::*;

use crate::datetime::DateTime;
use crate::merge::{
    above, earliest, holds, lemma_earliest_join, lemma_earliest_of_stream, lemma_holds_in_stream,
    lemma_holds_join, merged, pick, MAX_SKIPS,
};
use crate::rule::RRuleView;
use crate::stream::{
    ascending, lemma_occurrences_ascending, rule_occurrences, stream_zone, RuleIter,
};
use crate::validate::ValidatedRRule;
use crate::zone::Tz;

verus! {

/// One start, the rules that add occurrences (RRULE) and those that take
/// them away (EXRULE), and the instants added (RDATE) and taken away
/// (EXDATE) by hand.
#[derive(Debug)]
pub struct RRuleSet {
    start: DateTime,
    rrules: Vec<ValidatedRRule>,
    exrules: Vec<ValidatedRRule>,
    rdates: Vec<DateTime>,
    exdates: Vec<DateTime>,
}

/// A set as a plain value.
pub ghost struct RRuleSetView {
    pub start: DateTime,
    pub rrules: Seq<RRuleView>,
    pub exrules: Seq<RRuleView>,
    pub rdates: Seq<DateTime>,
    pub exdates: Seq<DateTime>,
}

/// The rules of a list, as plain values.
pub open spec fn rule_views(rules: Seq<ValidatedRRule>) -> Seq<RRuleView> {
    rules.map_values(|r: ValidatedRRule| r@)
}

impl View for RRuleSet {
    type V = RRuleSetView;

    closed spec fn view(&self) -> RRuleSetView {
        RRuleSetView {
            start: self.start,
            rrules: rule_views(self.rrules@),
            exrules: rule_views(self.exrules@),
            rdates: self.rdates@,
            exdates: self.exdates@,
        }
    }
}

/// The occurrences of each of `rules` from `start`, one rule after the
/// other.
pub open spec fn pooled(rules: Seq<RRuleView>, start: DateTime) -> Seq<DateTime>
    decreases rules.len(),
{
    if rules.len() == 0 {
        Seq::empty()
    } else {
        pooled(rules.drop_last(), start) + rule_occurrences(rules.last(), start)
    }
}

/// Every instant that the set adds: the occurrences of its RRULEs and its
/// RDATEs.
pub open spec fn set_pool(v: RRuleSetView) -> Seq<DateTime> {
    pooled(v.rrules, v.start) + v.rdates
}

/// Every instant that the set takes away: the occurrences of its EXRULEs and
/// its EXDATEs.
pub open spec fn set_exclusions(v: RRuleSetView) -> Seq<DateTime> {
    pooled(v.exrules, v.start) + v.exdates
}

/// The first `limit` occurrences of the set: the instants it adds, without
/// those it takes away, in ascending order, each instant once.
pub open spec fn set_dates(v: RRuleSetView, limit: nat) -> Seq<DateTime> {
    merged(set_pool(v), set_exclusions(v), None, limit, 0)
}

/// Whether none of `rules` reads the start in the ambient zone.
pub open spec fn rules_exact(rules: Seq<RRuleView>, start: DateTime) -> bool {
    forall|i: int| 0 <= i < rules.len() ==> stream_zone(#[trigger] rules[i], start) != Tz::Local
}

/// Whether no rule of the set reads the start in the ambient zone, so that
/// the zone database alone decides every instant.
pub open spec fn set_exact(v: RRuleSetView) -> bool {
    rules_exact(v.rrules, v.start) && rules_exact(v.exrules, v.start)
}

/// The occurrences that a set gave, and whether the limit cut them short.
#[derive(Debug)]
pub struct RRuleResult {
    pub dates: Vec<DateTime>,
    pub limited: bool,
}

/// Whether an instant lies below a bound, or on it where `inclusive`.
pub open spec fn passed(t: i64, bound: i64, inclusive: bool) -> bool {
    t < bound || (inclusive && t == bound)
}

/// A stream with its next occurrence drawn.
struct Feed {
    iter: RuleIter,
    head: Option<DateTime>,
    seen: Ghost<Seq<DateTime>>,
}

spec fn head_seq(head: Option<DateTime>) -> Seq<DateTime> {
    match head {
        Some(t) => seq![t],
        None => Seq::empty(),
    }
}

impl Feed {
    spec fn exact(&self) -> bool {
        self.iter.zone() != Tz::Local
    }

    spec fn wf(&self) -> bool {
        &&& self.iter.wf()
        &&& self.head is None && self.exact() ==> self.iter.remaining().len() == 0
    }

    /// The whole stream: what has been passed, the drawn occurrence, and
    /// what is still to come.
    spec fn full(&self) -> Seq<DateTime> {
        self.seen@ + head_seq(self.head) + self.iter.remaining()
    }

    spec fn budget(&self) -> nat {
        self.iter.budget() + if self.head is Some {
            1nat
        } else {
            0nat
        }
    }

    /// Whether the feed stands for the stream of rule `d` from `start`.
    spec fn serves(&self, d: RRuleView, start: DateTime) -> bool {
        &&& self.wf()
        &&& self.exact() == (stream_zone(d, start) != Tz::Local)
        &&& self.exact() ==> self.full() == rule_occurrences(d, start)
    }

    /// Everything passed lies below the bound.
    spec fn behind(&self, bound: i64, inclusive: bool) -> bool {
        forall|i: int| 0 <= i < self.seen@.len() ==> passed((#[trigger] self.seen@[i]).timestamp, bound, inclusive)
    }

    /// The drawn occurrence does not lie below the bound.
    spec fn ahead(&self, bound: i64, inclusive: bool) -> bool {
        self.head matches Some(h) ==> !passed(h.timestamp, bound, inclusive)
    }

    fn new(rule: &ValidatedRRule, start: DateTime) -> (r: Feed)
        ensures
            r.serves(rule@, start),
            r.seen@.len() == 0,
    {
        let mut iter = RuleIter::new(rule, start);
        let ghost all = iter.remaining();
        let head = iter.next();
        let r = Feed { iter, head, seen: Ghost(Seq::empty()) };
        proof {
            if r.exact() {
                assert(r.full() =~= all);
            }
        }
        r
    }

    /// Draws the next occurrence, passing the drawn one.
    fn advance(&mut self)
        requires
            old(self).wf(),
            old(self).head is Some,
        ensures
            final(self).wf(),
            final(self).exact() == old(self).exact(),
            final(self).seen@ == old(self).seen@.push(old(self).head->0),
            final(self).exact() ==> final(self).full() == old(self).full(),
            final(self).budget() < old(self).budget(),
    {
        let ghost before = self.full();
        let ghost h = self.head->0;
        let next = self.iter.next();
        self.head = next;
        self.seen = Ghost(self.seen@.push(h));
        proof {
            if self.exact() {
                assert(self.full() =~= before);
            }
        }
    }

    /// Passes every occurrence below the bound.
    fn skip(&mut self, bound: i64, inclusive: bool)
        requires
            old(self).wf(),
            old(self).behind(bound, inclusive),
        ensures
            final(self).wf(),
            final(self).exact() == old(self).exact(),
            final(self).exact() ==> final(self).full() == old(self).full(),
            final(self).behind(bound, inclusive),
            final(self).ahead(bound, inclusive),
    {
        loop
            invariant
                self.wf(),
                self.exact() == old(self).exact(),
                self.exact() ==> self.full() == old(self).full(),
                self.behind(bound, inclusive),
            ensures
                self.ahead(bound, inclusive),
            decreases self.budget(),
        {
            match self.head {
                None => {
                    break ;
                },
                Some(h) => {
                    if h.timestamp < bound || (inclusive && h.timestamp == bound) {
                        self.advance();
                    } else {
                        break ;
                    }
                },
            }
        }
    }
}

/// Whether each feed stands for the stream of the rule at its place.
spec fn all_serve(feeds: Seq<Feed>, rules: Seq<RRuleView>, start: DateTime) -> bool {
    &&& feeds.len() == rules.len()
    &&& forall|i: int| 0 <= i < feeds.len() ==> (#[trigger] feeds[i]).serves(rules[i], start)
}

/// What every feed has passed lies at or below the floor; before there is a
/// floor none has passed anything.
spec fn all_behind(feeds: Seq<Feed>, floor: Option<i64>, inclusive: bool) -> bool {
    forall|i: int|
        0 <= i < feeds.len() ==> match floor {
            Some(f) => (#[trigger] feeds[i]).behind(f, inclusive),
            None => feeds[i].seen@.len() == 0,
        }
}

spec fn all_ahead(feeds: Seq<Feed>, bound: i64, inclusive: bool) -> bool {
    forall|i: int| 0 <= i < feeds.len() ==> (#[trigger] feeds[i]).ahead(bound, inclusive)
}

fn open_feeds(rules: &Vec<ValidatedRRule>, start: DateTime) -> (r: Vec<Feed>)
    ensures
        all_serve(r@, rule_views(rules@), start),
        all_behind(r@, None, true),
        all_behind(r@, None, false),
{
    let mut feeds: Vec<Feed> = Vec::new();
    let mut i: usize = 0;
    while i < rules.len()
        invariant
            i <= rules.len(),
            feeds.len() == i,
            forall|j: int| 0 <= j < i ==> (#[trigger] feeds[j]).serves(rule_views(rules@)[j], start),
            forall|j: int| 0 <= j < i ==> (#[trigger] feeds[j]).seen@.len() == 0,
        decreases rules.len() - i,
    {
        let f = Feed::new(&rules[i], start);
        feeds.push(f);
        i += 1;
    }
    feeds
}

fn skip_all(feeds: &mut Vec<Feed>, bound: i64, inclusive: bool, Ghost(rules): Ghost<Seq<RRuleView>>, Ghost(start): Ghost<DateTime>)
    requires
        all_serve(old(feeds)@, rules, start),
        all_behind(old(feeds)@, Some(bound), inclusive),
    ensures
        all_serve(final(feeds)@, rules, start),
        all_behind(final(feeds)@, Some(bound), inclusive),
        all_ahead(final(feeds)@, bound, inclusive),
{
    let n = feeds.len();
    let mut i: usize = 0;
    while i < n
        invariant
            i <= n,
            n == feeds.len(),
            all_serve(feeds@, rules, start),
            all_behind(feeds@, Some(bound), inclusive),
            forall|j: int| 0 <= j < i ==> (#[trigger] feeds[j]).ahead(bound, inclusive),
        decreases n - i,
    {
        let ghost before = feeds@;
        assert(before[i as int].serves(rules[i as int], start));
        assert(before[i as int].behind(bound, inclusive));
        feeds[i].skip(bound, inclusive);
        proof {
            assert forall|j: int| 0 <= j < feeds.len() implies (#[trigger] feeds[j]).serves(
                rules[j],
                start,
            ) && feeds[j].behind(bound, inclusive) by {
                if j != i {
                    assert(feeds[j] == before[j]);
                    assert(before[j].serves(rules[j], start));
                    assert(before[j].behind(bound, inclusive));
                }
            }
            assert forall|j: int| 0 <= j < i + 1 implies (#[trigger] feeds[j]).ahead(
                bound,
                inclusive,
            ) by {
                if j != i {
                    assert(feeds[j] == before[j]);
                }
            }
        }
        i += 1;
    }
}

/// The earliest instant of `v` above the floor.
fn earliest_in(v: &Vec<DateTime>, floor: Option<i64>) -> (r: Option<DateTime>)
    ensures
        r == earliest(v@, floor),
{
    let mut best: Option<DateTime> = None;
    let mut i: usize = 0;
    proof {
        assert(v@.take(0) =~= Seq::<DateTime>::empty());
    }
    while i < v.len()
        invariant
            i <= v.len(),
            best == earliest(v@.take(i as int), floor),
        decreases v.len() - i,
    {
        let x = v[i];
        proof {
            assert(v@.take(i + 1).drop_last() =~= v@.take(i as int));
            assert(v@.take(i + 1).last() == x);
        }
        let is_above = match floor {
            Some(f) => x.timestamp > f,
            None => true,
        };
        if is_above {
            best = earlier(best, Some(x));
        }
        i += 1;
    }
    proof {
        assert(v@.take(i as int) =~= v@);
    }
    best
}

/// The earlier of two instants, the left one where they are the same.
fn earlier(l: Option<DateTime>, r: Option<DateTime>) -> (out: Option<DateTime>)
    ensures
        out == pick(l, r),
{
    match (l, r) {
        (_, None) => l,
        (None, Some(_)) => r,
        (Some(a), Some(b)) => if b.timestamp < a.timestamp {
            r
        } else {
            l
        },
    }
}

/// The floor as the bound up to which feeds are passed.
spec fn floor_ahead(feeds: Seq<Feed>, floor: Option<i64>) -> bool {
    match floor {
        Some(f) => all_ahead(feeds, f, true),
        None => true,
    }
}

/// In a feed that has passed everything up to the floor, the drawn
/// occurrence is the earliest of the stream above the floor.
proof fn lemma_feed_earliest(feed: Feed, d: RRuleView, start: DateTime, floor: Option<i64>)
    requires
        feed.serves(d, start),
        feed.exact(),
        match floor {
            Some(f) => feed.behind(f, true) && feed.ahead(f, true),
            None => feed.seen@.len() == 0,
        },
    ensures
        earliest(rule_occurrences(d, start), floor) == feed.head,
{
    let s = rule_occurrences(d, start);
    lemma_occurrences_ascending(d, start);
    let k = feed.seen@.len() as int;
    assert(s == feed.full());
    assert forall|i: int| 0 <= i < k implies !above(floor, (#[trigger] s[i]).timestamp) by {
        assert(s[i] == feed.seen@[i]);
    }
    match feed.head {
        Some(h) => {
            assert(s[k] == h);
        },
        None => {
            assert(s =~= feed.seen@);
        },
    }
    lemma_earliest_of_stream(s, k, floor);
}

/// The earliest instant above the floor among the drawn occurrences of the
/// feeds and the instants of `extra`.
fn best_head(
    feeds: &Vec<Feed>,
    extra: &Vec<DateTime>,
    floor: Option<i64>,
    Ghost(rules): Ghost<Seq<RRuleView>>,
    Ghost(start): Ghost<DateTime>,
) -> (r: Option<DateTime>)
    requires
        all_serve(feeds@, rules, start),
        all_behind(feeds@, floor, true),
        floor_ahead(feeds@, floor),
    ensures
        rules_exact(rules, start) ==> r == earliest(pooled(rules, start) + extra@, floor),
        r matches Some(x) ==> above(floor, x.timestamp),
{
    let mut best: Option<DateTime> = None;
    let mut i: usize = 0;
    proof {
        assert(rules.take(0) =~= Seq::<RRuleView>::empty());
    }
    while i < feeds.len()
        invariant
            i <= feeds.len(),
            all_serve(feeds@, rules, start),
            all_behind(feeds@, floor, true),
            floor_ahead(feeds@, floor),
            rules_exact(rules, start) ==> best == earliest(pooled(rules.take(i as int), start), floor),
            best matches Some(b) ==> above(floor, b.timestamp),
        decreases feeds.len() - i,
    {
        let ghost feed = feeds[i as int];
        proof {
            assert(rules.take(i + 1).drop_last() =~= rules.take(i as int));
            assert(rules.take(i + 1).last() == rules[i as int]);
            assert(feed.serves(rules[i as int], start));
            match floor {
                Some(f) => {
                    assert(feed.behind(f, true));
                    assert(feed.ahead(f, true));
                },
                None => {},
            }
            if rules_exact(rules, start) {
                assert(stream_zone(rules[i as int], start) != Tz::Local);
                lemma_feed_earliest(feed, rules[i as int], start, floor);
                lemma_earliest_join(
                    pooled(rules.take(i as int), start),
                    rule_occurrences(rules[i as int], start),
                    floor,
                );
            }
        }
        best = earlier(best, feeds[i].head);
        i += 1;
    }
    proof {
        assert(rules.take(i as int) =~= rules);
        lemma_earliest_join(pooled(rules, start), extra@, floor);
        crate::merge::lemma_earliest_is_least(extra@, floor);
    }
    let other = earliest_in(extra, floor);
    earlier(best, other)
}

/// Whether `v` holds the instant `t`.
fn holds_in(v: &Vec<DateTime>, t: i64) -> (r: bool)
    ensures
        r == holds(v@, t),
{
    let mut i: usize = 0;
    while i < v.len()
        invariant
            i <= v.len(),
            forall|j: int| 0 <= j < i ==> (#[trigger] v@[j]).timestamp != t,
        decreases v.len() - i,
    {
        if v[i].timestamp == t {
            return true;
        }
        i += 1;
    }
    false
}

/// In a feed that has passed everything before `t`, the stream holds `t`
/// only as the drawn occurrence.
proof fn lemma_feed_holds(feed: Feed, d: RRuleView, start: DateTime, t: i64)
    requires
        feed.serves(d, start),
        feed.exact(),
        feed.behind(t, false),
        feed.ahead(t, false),
    ensures
        holds(rule_occurrences(d, start), t) == (feed.head matches Some(h) && h.timestamp == t),
{
    let s = rule_occurrences(d, start);
    lemma_occurrences_ascending(d, start);
    let k = feed.seen@.len() as int;
    assert(s == feed.full());
    assert forall|i: int| 0 <= i < k implies (#[trigger] s[i]).timestamp < t by {
        assert(s[i] == feed.seen@[i]);
    }
    match feed.head {
        Some(h) => {
            assert(s[k] == h);
        },
        None => {
            assert(s =~= feed.seen@);
        },
    }
    lemma_holds_in_stream(s, k, t);
}

/// Whether the instant `t` is the drawn occurrence of a feed or one of
/// `extra`.
fn held(
    feeds: &Vec<Feed>,
    extra: &Vec<DateTime>,
    t: i64,
    Ghost(rules): Ghost<Seq<RRuleView>>,
    Ghost(start): Ghost<DateTime>,
) -> (r: bool)
    requires
        all_serve(feeds@, rules, start),
        all_behind(feeds@, Some(t), false),
        all_ahead(feeds@, t, false),
    ensures
        rules_exact(rules, start) ==> r == holds(pooled(rules, start) + extra@, t),
{
    let mut any = false;
    let mut i: usize = 0;
    proof {
        assert(rules.take(0) =~= Seq::<RRuleView>::empty());
    }
    while i < feeds.len()
        invariant
            i <= feeds.len(),
            all_serve(feeds@, rules, start),
            all_behind(feeds@, Some(t), false),
            all_ahead(feeds@, t, false),
            rules_exact(rules, start) ==> any == holds(pooled(rules.take(i as int), start), t),
        decreases feeds.len() - i,
    {
        let ghost feed = feeds[i as int];
        proof {
            assert(rules.take(i + 1).drop_last() =~= rules.take(i as int));
            assert(rules.take(i + 1).last() == rules[i as int]);
            assert(feed.serves(rules[i as int], start));
            assert(feed.behind(t, false));
            assert(feed.ahead(t, false));
            if rules_exact(rules, start) {
                assert(stream_zone(rules[i as int], start) != Tz::Local);
                lemma_feed_holds(feed, rules[i as int], start, t);
                lemma_holds_join(
                    pooled(rules.take(i as int), start),
                    rule_occurrences(rules[i as int], start),
                    t,
                );
            }
        }
        match feeds[i].head {
            Some(h) => {
                if h.timestamp == t {
                    any = true;
                }
            },
            None => {},
        }
        i += 1;
    }
    proof {
        assert(rules.take(i as int) =~= rules);
        lemma_holds_join(pooled(rules, start), extra@, t);
    }
    let other = holds_in(extra, t);
    any || other
}

/// What was below a bound is below any later bound.
proof fn lemma_behind_grows(feeds: Seq<Feed>, floor: Option<i64>, inclusive: bool, t: i64, wider: bool)
    requires
        all_behind(feeds, floor, inclusive),
        floor matches Some(f) ==> f < t || (f == t && (wider || !inclusive)),
    ensures
        all_behind(feeds, Some(t), wider),
{
    assert forall|i: int| 0 <= i < feeds.len() implies (#[trigger] feeds[i]).behind(t, wider) by {
        match floor {
            Some(f) => {
                assert(feeds[i].behind(f, inclusive));
            },
            None => {},
        }
    }
}

impl RRuleSet {
    /// The set with the start `start` and nothing else.
    pub fn new(start: DateTime) -> (r: RRuleSet)
        ensures
            r@ == (RRuleSetView {
                start,
                rrules: Seq::empty(),
                exrules: Seq::empty(),
                rdates: Seq::empty(),
                exdates: Seq::empty(),
            }),
    {
        let r = RRuleSet {
            start,
            rrules: Vec::new(),
            exrules: Vec::new(),
            rdates: Vec::new(),
            exdates: Vec::new(),
        };
        proof {
            assert(rule_views(r.rrules@) =~= Seq::<RRuleView>::empty());
            assert(rule_views(r.exrules@) =~= Seq::<RRuleView>::empty());
        }
        r
    }

    /// The set with one more rule that adds occurrences.
    pub fn rrule(self, rule: ValidatedRRule) -> (r: RRuleSet)
        ensures
            r@ == (RRuleSetView { rrules: self@.rrules.push(rule@), ..self@ }),
    {
        let mut s = self;
        s.rrules.push(rule);
        proof {
            assert(rule_views(s.rrules@) =~= rule_views(self.rrules@).push(rule@));
        }
        s
    }

    /// The set with one more rule that takes occurrences away.
    pub fn exrule(self, rule: ValidatedRRule) -> (r: RRuleSet)
        ensures
            r@ == (RRuleSetView { exrules: self@.exrules.push(rule@), ..self@ }),
    {
        let mut s = self;
        s.exrules.push(rule);
        proof {
            assert(rule_views(s.exrules@) =~= rule_views(self.exrules@).push(rule@));
        }
        s
    }

    /// The set with one more instant added.
    pub fn rdate(self, t: DateTime) -> (r: RRuleSet)
        ensures
            r@ == (RRuleSetView { rdates: self@.rdates.push(t), ..self@ }),
    {
        let mut s = self;
        s.rdates.push(t);
        s
    }

    /// The set with one more instant taken away.
    pub fn exdate(self, t: DateTime) -> (r: RRuleSet)
        ensures
            r@ == (RRuleSetView { exdates: self@.exdates.push(t), ..self@ }),
    {
        let mut s = self;
        s.exdates.push(t);
        s
    }

    /// The start of the set.
    pub fn get_dt_start(&self) -> (r: DateTime)
        ensures
            r == self@.start,
    {
        self.start
    }

    /// The rules that add occurrences.
    pub fn get_rrule(&self) -> (r: &Vec<ValidatedRRule>)
        ensures
            rule_views(r@) == self@.rrules,
    {
        &self.rrules
    }

    /// The rules that take occurrences away.
    pub fn get_exrule(&self) -> (r: &Vec<ValidatedRRule>)
        ensures
            rule_views(r@) == self@.exrules,
    {
        &self.exrules
    }

    /// The instants added by hand.
    pub fn get_rdate(&self) -> (r: &Vec<DateTime>)
        ensures
            r@ == self@.rdates,
    {
        &self.rdates
    }

    /// The instants taken away by hand.
    pub fn get_exdate(&self) -> (r: &Vec<DateTime>)
        ensures
            r@ == self@.exdates,
    {
        &self.exdates
    }

    /// The first `limit` occurrences of the set, in ascending order, each
    /// instant once: what its RRULEs and RDATEs add, without what its
    /// EXRULEs and EXDATEs take away. No more than `limit` occurrences are
    /// drawn from the streams. Where a rule reads the start in the ambient
    /// zone, the host decides the instants; the order holds all the same.
    pub fn all(&self, limit: u16) -> (r: RRuleResult)
        ensures
            r.dates.len() <= limit,
            r.limited == (r.dates.len() == limit),
            ascending(r.dates@),
            set_exact(self@) ==> r.dates@ == set_dates(self@, limit as nat),
    {
        let ghost v = self@;
        let ghost pool = set_pool(v);
        let ghost ex = set_exclusions(v);
        let mut feeds = open_feeds(&self.rrules, self.start);
        let mut blocks = open_feeds(&self.exrules, self.start);
        let mut out: Vec<DateTime> = Vec::new();
        let mut floor: Option<i64> = None;
        let mut gap: u32 = 0;
        proof {
            assert(out@ + merged(pool, ex, floor, limit as nat, 0) =~= set_dates(v, limit as nat));
        }
        loop
            invariant_except_break
                set_exact(v) ==> out@ + merged(
                    pool,
                    ex,
                    floor,
                    (limit - out.len()) as nat,
                    gap as nat,
                ) == set_dates(v, limit as nat),
            invariant
                out.len() <= limit,
                gap <= MAX_SKIPS,
                ascending(out@),
                out.len() > 0 ==> floor is Some && out@.last().timestamp <= floor->0,
                v == self@,
                pool == set_pool(v),
                ex == set_exclusions(v),
                all_serve(feeds@, v.rrules, v.start),
                all_serve(blocks@, v.exrules, v.start),
                all_behind(feeds@, floor, true),
                all_behind(blocks@, floor, false),
            ensures
                set_exact(v) ==> out@ == set_dates(v, limit as nat),
            decreases limit - out.len(), MAX_SKIPS - gap,
        {
            if out.len() >= limit as usize || gap >= MAX_SKIPS {
                proof {
                    assert(merged(pool, ex, floor, (limit - out.len()) as nat, gap as nat)
                        =~= Seq::<DateTime>::empty());
                    assert(out@ + Seq::<DateTime>::empty() =~= out@);
                }
                break ;
            }
            if let Some(f) = floor {
                skip_all(&mut feeds, f, true, Ghost(v.rrules), Ghost(v.start));
            }
            let best = best_head(&feeds, &self.rdates, floor, Ghost(v.rrules), Ghost(v.start));
            match best {
                None => {
                    proof {
                        if set_exact(v) {
                            assert(earliest(pool, floor) is None);
                            assert(merged(pool, ex, floor, (limit - out.len()) as nat, gap as nat)
                                =~= Seq::<DateTime>::empty());
                            assert(out@ + Seq::<DateTime>::empty() =~= out@);
                        }
                    }
                    break ;
                },
                Some(x) => {
                    let t = x.timestamp;
                    proof {
                        lemma_behind_grows(blocks@, floor, false, t, false);
                        lemma_behind_grows(feeds@, floor, true, t, true);
                    }
                    skip_all(&mut blocks, t, false, Ghost(v.exrules), Ghost(v.start));
                    let excluded = held(&blocks, &self.exdates, t, Ghost(v.exrules), Ghost(v.start));
                    let ghost before = out@;
                    let ghost before_left = (limit - out.len()) as nat;
                    let ghost before_gap = gap as nat;
                    let ghost before_floor = floor;
                    floor = Some(t);
                    if excluded {
                        gap = gap + 1;
                    } else {
                        out.push(x);
                        gap = 0;
                        proof {
                            assert forall|i: int, j: int| 0 <= i < j < out.len() implies out@[i].timestamp
                                < out@[j].timestamp by {
                                if j < before.len() {
                                    assert(out@[i] == before[i] && out@[j] == before[j]);
                                } else if before.len() > 0 {
                                    assert(out@[i] == before[i]);
                                    assert(before[i].timestamp <= before.last().timestamp) by {
                                        if i < before.len() - 1 {
                                        }
                                    }
                                }
                            }
                        }
                    }
                    proof {
                        if set_exact(v) {
                            let m = merged(pool, ex, before_floor, before_left, before_gap);
                            if excluded {
                                assert(m == merged(pool, ex, Some(t), before_left, before_gap + 1));
                            } else {
                                assert(m == seq![x] + merged(
                                    pool,
                                    ex,
                                    Some(t),
                                    (before_left - 1) as nat,
                                    0,
                                ));
                                assert(before + m =~= out@ + merged(
                                    pool,
                                    ex,
                                    floor,
                                    (limit - out.len()) as nat,
                                    gap as nat,
                                ));
                            }
                        }
                    }
                },
            }
        }
        let limited = out.len() == limit as usize;
        RRuleResult { dates: out, limited }
    }
}

} // verus!
