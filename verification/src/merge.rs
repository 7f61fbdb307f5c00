//! Merging streams of instants: the earliest instant above a floor, and the
//! ascending, duplicate-free sequence that taking it again and again gives.

use vstd::prelude::*;

use crate::datetime::DateTime;
use crate::stream::ascending;

verus! {

/// The number of excluded instants in a row that may pass before a merge
/// gives up.
pub const MAX_SKIPS: u32 = 100_000;

/// Whether the instant `t` lies above the floor; without a floor every
/// instant does.
pub open spec fn above(floor: Option<i64>, t: i64) -> bool {
    match floor {
        Some(f) => t > f,
        None => true,
    }
}

/// The earlier of two instants, the left one where they are the same
/// instant.
pub open spec fn pick(l: Option<DateTime>, r: Option<DateTime>) -> Option<DateTime> {
    match (l, r) {
        (_, None) => l,
        (None, Some(_)) => r,
        (Some(a), Some(b)) => if b.timestamp < a.timestamp {
            r
        } else {
            l
        },
    }
}

/// `x`, if it lies above the floor.
pub open spec fn sieve(x: DateTime, floor: Option<i64>) -> Option<DateTime> {
    if above(floor, x.timestamp) {
        Some(x)
    } else {
        None
    }
}

/// The earliest instant of `pool` above the floor; of several readings of
/// that instant, the first in `pool`.
pub open spec fn earliest(pool: Seq<DateTime>, floor: Option<i64>) -> Option<DateTime>
    decreases pool.len(),
{
    if pool.len() == 0 {
        None
    } else {
        pick(earliest(pool.drop_last(), floor), sieve(pool.last(), floor))
    }
}

/// Whether `ex` holds the instant `t`, in whatever zone.
pub open spec fn holds(ex: Seq<DateTime>, t: i64) -> bool {
    exists|i: int| 0 <= i < ex.len() && (#[trigger] ex[i]).timestamp == t
}

/// The first `left` instants of `pool` above the floor that `ex` does not
/// hold, in ascending order, each instant once. The merge gives up once
/// `MAX_SKIPS` instants in a row, counting the `gap` before, were held by
/// `ex`.
pub open spec fn merged(
    pool: Seq<DateTime>,
    ex: Seq<DateTime>,
    floor: Option<i64>,
    left: nat,
    gap: nat,
) -> Seq<DateTime>
    decreases left,
        (if gap <= 100_000 {
            100_000 - gap
        } else {
            0
        }),
{
    if left == 0 || gap >= 100_000 {
        Seq::empty()
    } else {
        match earliest(pool, floor) {
            None => Seq::empty(),
            Some(x) => if holds(ex, x.timestamp) {
                merged(pool, ex, Some(x.timestamp), left, gap + 1)
            } else {
                seq![x] + merged(pool, ex, Some(x.timestamp), (left - 1) as nat, 0)
            },
        }
    }
}

pub proof fn lemma_pick_assoc(x: Option<DateTime>, y: Option<DateTime>, z: Option<DateTime>)
    ensures
        pick(pick(x, y), z) == pick(x, pick(y, z)),
{
}

/// The earliest of two pools joined is the earlier of their earliest.
pub proof fn lemma_earliest_join(a: Seq<DateTime>, b: Seq<DateTime>, floor: Option<i64>)
    ensures
        earliest(a + b, floor) == pick(earliest(a, floor), earliest(b, floor)),
    decreases b.len(),
{
    if b.len() == 0 {
        assert(a + b =~= a);
    } else {
        assert((a + b).drop_last() =~= a + b.drop_last());
        assert((a + b).last() == b.last());
        lemma_earliest_join(a, b.drop_last(), floor);
        lemma_pick_assoc(
            earliest(a, floor),
            earliest(b.drop_last(), floor),
            sieve(b.last(), floor),
        );
    }
}

/// What `earliest` gives is an instant of the pool above the floor, and no
/// instant of the pool above the floor is earlier.
pub proof fn lemma_earliest_is_least(pool: Seq<DateTime>, floor: Option<i64>)
    ensures
        match earliest(pool, floor) {
            Some(x) => above(floor, x.timestamp) && pool.contains(x) && forall|i: int|
                0 <= i < pool.len() && above(floor, (#[trigger] pool[i]).timestamp)
                    ==> x.timestamp <= pool[i].timestamp,
            None => forall|i: int| 0 <= i < pool.len() ==> !above(floor, (#[trigger] pool[i]).timestamp),
        },
    decreases pool.len(),
{
    if pool.len() > 0 {
        let rest = pool.drop_last();
        lemma_earliest_is_least(rest, floor);
        match earliest(pool, floor) {
            Some(x) => {
                if earliest(rest, floor) == Some(x) {
                    let k = choose|k: int| 0 <= k < rest.len() && rest[k] == x;
                    assert(pool[k] == x);
                } else {
                    assert(pool[pool.len() - 1] == x);
                }
                assert forall|i: int|
                    0 <= i < pool.len() && above(
                        floor,
                        (#[trigger] pool[i]).timestamp,
                    ) implies x.timestamp <= pool[i].timestamp by {
                    if i < rest.len() {
                        assert(rest[i] == pool[i]);
                    }
                }
            },
            None => {
                assert forall|i: int| 0 <= i < pool.len() implies !above(
                    floor,
                    (#[trigger] pool[i]).timestamp,
                ) by {
                    if i < rest.len() {
                        assert(rest[i] == pool[i]);
                    }
                }
            },
        }
    }
}

/// In an ascending stream whose first `k` instants do not lie above the
/// floor, the earliest above the floor is the one at `k`, if that one does.
pub proof fn lemma_earliest_of_stream(s: Seq<DateTime>, k: int, floor: Option<i64>)
    requires
        ascending(s),
        0 <= k <= s.len(),
        forall|i: int| 0 <= i < k ==> !above(floor, (#[trigger] s[i]).timestamp),
        k < s.len() ==> above(floor, s[k].timestamp),
    ensures
        earliest(s, floor) == if k < s.len() {
            Some(s[k])
        } else {
            None
        },
    decreases s.len(),
{
    if s.len() > 0 {
        let rest = s.drop_last();
        assert(ascending(rest)) by {
            assert forall|i: int, j: int| 0 <= i < j < rest.len() implies rest[i].timestamp
                < rest[j].timestamp by {
                assert(rest[i] == s[i] && rest[j] == s[j]);
            }
        }
        if k == s.len() {
            assert forall|i: int| 0 <= i < rest.len() implies !above(
                floor,
                (#[trigger] rest[i]).timestamp,
            ) by {
                assert(rest[i] == s[i]);
            }
            lemma_earliest_of_stream(rest, k - 1, floor);
        } else {
            assert forall|i: int| 0 <= i < k implies !above(
                floor,
                (#[trigger] rest[i]).timestamp,
            ) by {
                assert(rest[i] == s[i]);
            }
            if k < rest.len() {
                assert(rest[k] == s[k]);
            }
            lemma_earliest_of_stream(rest, k, floor);
        }
    }
}

/// Two pools joined hold an instant where either does.
pub proof fn lemma_holds_join(a: Seq<DateTime>, b: Seq<DateTime>, t: i64)
    ensures
        holds(a + b, t) == (holds(a, t) || holds(b, t)),
{
    let s = a + b;
    if holds(s, t) {
        let i = choose|i: int| 0 <= i < s.len() && (#[trigger] s[i]).timestamp == t;
        if i < a.len() {
            assert(a[i].timestamp == t);
        } else {
            assert(b[i - a.len()].timestamp == t);
        }
    }
    if holds(a, t) {
        let i = choose|i: int| 0 <= i < a.len() && (#[trigger] a[i]).timestamp == t;
        assert(s[i].timestamp == t);
    }
    if holds(b, t) {
        let i = choose|i: int| 0 <= i < b.len() && (#[trigger] b[i]).timestamp == t;
        assert(s[i + a.len()].timestamp == t);
    }
}

/// An ascending stream whose first `k` instants lie before `t` holds `t`
/// only at `k`.
pub proof fn lemma_holds_in_stream(s: Seq<DateTime>, k: int, t: i64)
    requires
        ascending(s),
        0 <= k <= s.len(),
        forall|i: int| 0 <= i < k ==> (#[trigger] s[i]).timestamp < t,
        k < s.len() ==> s[k].timestamp >= t,
    ensures
        holds(s, t) == (k < s.len() && s[k].timestamp == t),
{
    if holds(s, t) {
        let i = choose|i: int| 0 <= i < s.len() && (#[trigger] s[i]).timestamp == t;
        if i > k {
        }
    }
    if k < s.len() && s[k].timestamp == t {
        assert(s[k].timestamp == t);
    }
}

/// The merged instants come in ascending order, no instant twice, each above
/// the floor, each from the pool, none that `ex` holds.
pub proof fn lemma_merged_ascending(
    pool: Seq<DateTime>,
    ex: Seq<DateTime>,
    floor: Option<i64>,
    left: nat,
    gap: nat,
)
    ensures
        ascending(merged(pool, ex, floor, left, gap)),
        merged(pool, ex, floor, left, gap).len() <= left,
        forall|i: int|
            0 <= i < merged(pool, ex, floor, left, gap).len() ==> {
                let x = #[trigger] merged(pool, ex, floor, left, gap)[i];
                above(floor, x.timestamp) && pool.contains(x) && !holds(ex, x.timestamp)
            },
    decreases left,
        (if gap <= 100_000 {
            100_000 - gap
        } else {
            0
        }),
{
    if left == 0 || gap >= 100_000 {
    } else {
        lemma_earliest_is_least(pool, floor);
        match earliest(pool, floor) {
            None => {},
            Some(x) => {
                let m = merged(pool, ex, floor, left, gap);
                if holds(ex, x.timestamp) {
                    lemma_merged_ascending(pool, ex, Some(x.timestamp), left, gap + 1);
                } else {
                    let rest = merged(pool, ex, Some(x.timestamp), (left - 1) as nat, 0);
                    lemma_merged_ascending(pool, ex, Some(x.timestamp), (left - 1) as nat, 0);
                    assert(m == seq![x] + rest);
                    assert forall|i: int, j: int| 0 <= i < j < m.len() implies m[i].timestamp
                        < m[j].timestamp by {
                        assert(m[j] == rest[j - 1]);
                        if i > 0 {
                            assert(m[i] == rest[i - 1]);
                        }
                    }
                    assert forall|i: int| 0 <= i < m.len() implies {
                        let y = #[trigger] m[i];
                        above(floor, y.timestamp) && pool.contains(y) && !holds(ex, y.timestamp)
                    } by {
                        if i > 0 {
                            assert(m[i] == rest[i - 1]);
                        }
                    }
                }
            },
        }
    }
}

/// Nothing is passed over: every instant of the pool above the floor that
/// `ex` does not hold, and that is not later than the last merged instant,
/// is among the merged instants.
pub proof fn lemma_merged_complete(
    pool: Seq<DateTime>,
    ex: Seq<DateTime>,
    floor: Option<i64>,
    left: nat,
    gap: nat,
    x: DateTime,
)
    requires
        pool.contains(x),
        above(floor, x.timestamp),
        !holds(ex, x.timestamp),
        merged(pool, ex, floor, left, gap).len() > 0,
        x.timestamp <= merged(pool, ex, floor, left, gap).last().timestamp,
    ensures
        holds(merged(pool, ex, floor, left, gap), x.timestamp),
    decreases left,
        (if gap <= 100_000 {
            100_000 - gap
        } else {
            0
        }),
{
    let m = merged(pool, ex, floor, left, gap);
    lemma_earliest_is_least(pool, floor);
    let k = choose|k: int| 0 <= k < pool.len() && pool[k] == x;
    let y = earliest(pool, floor)->0;
    assert(y.timestamp <= pool[k].timestamp);
    if holds(ex, y.timestamp) {
        lemma_merged_complete(pool, ex, Some(y.timestamp), left, gap + 1, x);
    } else {
        let rest = merged(pool, ex, Some(y.timestamp), (left - 1) as nat, 0);
        assert(m == seq![y] + rest);
        if x.timestamp == y.timestamp {
            assert(m[0].timestamp == x.timestamp);
        } else {
            if rest.len() == 0 {
                assert(m.last() == y);
            } else {
                assert(m.last() == rest.last());
                lemma_merged_complete(pool, ex, Some(y.timestamp), (left - 1) as nat, 0, x);
                let i = choose|i: int| 0 <= i < rest.len() && (#[trigger] rest[i]).timestamp == x.timestamp;
                assert(m[i + 1].timestamp == x.timestamp);
            }
        }
    }
}

} // verus!
