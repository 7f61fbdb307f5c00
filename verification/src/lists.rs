//! Lists of integers as the rule's BY-lists hold them: widening, membership
//! and the distinct values in ascending order.

use vstd::prelude::*;

verus! {

pub fn widen_u8(v: &Vec<u8>) -> (r: Vec<i64>)
    ensures
        r@ == v@.map_values(|x: u8| x as i64),
{
    let mut out: Vec<i64> = Vec::new();
    let mut i: usize = 0;
    while i < v.len()
        invariant
            i <= v.len(),
            out@ == v@.take(i as int).map_values(|x: u8| x as i64),
        decreases v.len() - i,
    {
        out.push(v[i] as i64);
        proof {
            assert(out@ =~= v@.take(i + 1).map_values(|x: u8| x as i64));
        }
        i += 1;
    }
    proof {
        assert(v@.take(i as int) =~= v@);
    }
    out
}

pub fn widen_i8(v: &Vec<i8>) -> (r: Vec<i64>)
    ensures
        r@ == v@.map_values(|x: i8| x as i64),
{
    let mut out: Vec<i64> = Vec::new();
    let mut i: usize = 0;
    while i < v.len()
        invariant
            i <= v.len(),
            out@ == v@.take(i as int).map_values(|x: i8| x as i64),
        decreases v.len() - i,
    {
        out.push(v[i] as i64);
        proof {
            assert(out@ =~= v@.take(i + 1).map_values(|x: i8| x as i64));
        }
        i += 1;
    }
    proof {
        assert(v@.take(i as int) =~= v@);
    }
    out
}

pub fn widen_i16(v: &Vec<i16>) -> (r: Vec<i64>)
    ensures
        r@ == v@.map_values(|x: i16| x as i64),
{
    let mut out: Vec<i64> = Vec::new();
    let mut i: usize = 0;
    while i < v.len()
        invariant
            i <= v.len(),
            out@ == v@.take(i as int).map_values(|x: i16| x as i64),
        decreases v.len() - i,
    {
        out.push(v[i] as i64);
        proof {
            assert(out@ =~= v@.take(i + 1).map_values(|x: i16| x as i64));
        }
        i += 1;
    }
    proof {
        assert(v@.take(i as int) =~= v@);
    }
    out
}

pub fn widen_i32(v: &Vec<i32>) -> (r: Vec<i64>)
    ensures
        r@ == v@.map_values(|x: i32| x as i64),
{
    let mut out: Vec<i64> = Vec::new();
    let mut i: usize = 0;
    while i < v.len()
        invariant
            i <= v.len(),
            out@ == v@.take(i as int).map_values(|x: i32| x as i64),
        decreases v.len() - i,
    {
        out.push(v[i] as i64);
        proof {
            assert(out@ =~= v@.take(i + 1).map_values(|x: i32| x as i64));
        }
        i += 1;
    }
    proof {
        assert(v@.take(i as int) =~= v@);
    }
    out
}

/// Whether `x` is one of the values of `l`.
pub open spec fn has(l: Seq<i64>, x: int) -> bool {
    exists|i: int| 0 <= i < l.len() && #[trigger] l[i] == x
}

/// Whether `x` passes the list `l` as a filter: an empty list lets every
/// value pass.
pub open spec fn passes(l: Seq<i64>, x: int) -> bool {
    l.len() == 0 || has(l, x)
}

/// Whether `x` is one of the values of `l`.
pub fn contains_value(l: &Vec<i64>, x: i64) -> (r: bool)
    ensures
        r == has(l@, x as int),
{
    let mut i: usize = 0;
    while i < l.len()
        invariant
            i <= l.len(),
            forall|j: int| 0 <= j < i ==> l@[j] != x,
        decreases l.len() - i,
    {
        if l[i] == x {
            return true;
        }
        i += 1;
    }
    false
}

/// Whether `x` passes the list `l` as a filter.
pub fn passes_list(l: &Vec<i64>, x: i64) -> (r: bool)
    ensures
        r == passes(l@, x as int),
{
    l.len() == 0 || contains_value(l, x)
}

/// The values of `lo..hi` that `l` holds, each once, in ascending order.
pub open spec fn values_in(l: Seq<i64>, lo: int, hi: int) -> Seq<i64>
    decreases hi - lo,
{
    if hi <= lo {
        Seq::empty()
    } else if has(l, hi - 1) {
        values_in(l, lo, hi - 1).push((hi - 1) as i64)
    } else {
        values_in(l, lo, hi - 1)
    }
}

/// The values of `lo..hi` that `l` holds, each once, in ascending order.
pub fn distinct_sorted(l: &Vec<i64>, lo: i64, hi: i64) -> (r: Vec<i64>)
    requires
        lo <= hi,
        hi - lo <= 1000,
    ensures
        r@ == values_in(l@, lo as int, hi as int),
        forall|i: int| 0 <= i < r.len() ==> lo <= #[trigger] r[i] < hi,
{
    let mut out: Vec<i64> = Vec::new();
    let mut v: i64 = lo;
    while v < hi
        invariant
            lo <= v <= hi,
            out@ == values_in(l@, lo as int, v as int),
            forall|i: int| 0 <= i < out.len() ==> lo <= #[trigger] out[i] < hi,
        decreases hi - v,
    {
        if contains_value(l, v) {
            out.push(v);
        }
        v += 1;
    }
    out
}

} // verus!
