//! The selection model shared by every extraction unit: what a list of
//! half-open index ranges picks out of a sequence.

use std::ops::Range;
use vstd::prelude::*;

verus! {

/// An ordered list of half-open, zero-based index ranges, kept in the order
/// in which they were written: never sorted, merged or deduplicated.
pub type PositionList = Vec<Range<usize>>;

/// Every range of the list is non-empty.
pub open spec fn well_formed(ranges: Seq<Range<usize>>) -> bool {
    forall|i: int| 0 <= i < ranges.len() ==> (#[trigger] ranges[i]).start < ranges[i].end
}

/// The part of `unit` that the range `start..end` covers. Indices at or
/// beyond the end of `unit` select nothing.
pub open spec fn pick<T>(unit: Seq<T>, start: int, end: int) -> Seq<T> {
    if 0 <= start < end && start < unit.len() {
        unit.subrange(
            start,
            if end <= unit.len() {
                end
            } else {
                unit.len() as int
            },
        )
    } else {
        Seq::empty()
    }
}

/// The projection of `unit` under `ranges`: the picks of each range,
/// concatenated in list order.
pub open spec fn select<T>(unit: Seq<T>, ranges: Seq<Range<usize>>) -> Seq<T>
    decreases ranges.len(),
{
    if ranges.len() == 0 {
        Seq::empty()
    } else {
        select(unit, ranges.drop_last()) + pick(
            unit,
            ranges.last().start as int,
            ranges.last().end as int,
        )
    }
}

/// The ranges tile `0..n` from left to right: the first starts at zero, each
/// next one starts where the one before it ended, and the last ends at `n`.
pub open spec fn tiles(ranges: Seq<Range<usize>>, n: int) -> bool {
    &&& well_formed(ranges)
    &&& if ranges.len() == 0 {
        n == 0
    } else {
        &&& ranges[0].start == 0
        &&& ranges.last().end == n
        &&& forall|i: int|
            0 <= i < ranges.len() - 1 ==> (#[trigger] ranges[i]).end == ranges[i + 1].start
    }
}

/// Selecting with one more range appends that range's pick.
pub proof fn lemma_select_push<T>(unit: Seq<T>, ranges: Seq<Range<usize>>, r: Range<usize>)
    ensures
        select(unit, ranges.push(r)) == select(unit, ranges) + pick(
            unit,
            r.start as int,
            r.end as int,
        ),
{
    assert(ranges.push(r).drop_last() == ranges);
}

/// Nothing can be selected from an empty unit, whatever the ranges.
pub proof fn lemma_select_empty_unit<T>(unit: Seq<T>, ranges: Seq<Range<usize>>)
    requires
        unit.len() == 0,
    ensures
        select(unit, ranges) == Seq::<T>::empty(),
    decreases ranges.len(),
{
    if ranges.len() > 0 {
        lemma_select_empty_unit(unit, ranges.drop_last());
    }
}

/// When the ranges tile `0..n`, selection reproduces the first `n` items of
/// the unit, or the whole unit where it is shorter than `n`.
pub proof fn lemma_select_tiles_prefix<T>(unit: Seq<T>, ranges: Seq<Range<usize>>, n: int)
    requires
        tiles(ranges, n),
    ensures
        select(unit, ranges) == if n <= unit.len() {
            unit.take(n)
        } else {
            unit
        },
    decreases ranges.len(),
{
    if ranges.len() == 0 {
        assert(unit.take(0) == Seq::<T>::empty());
    } else {
        let init = ranges.drop_last();
        let last = ranges.last();
        let m = last.start as int;
        if init.len() == 0 {
            assert(m == 0);
        } else {
            assert(init.last() == ranges[ranges.len() - 2]);
            assert(init[0] == ranges[0]);
            assert forall|i: int| 0 <= i < init.len() - 1 implies (#[trigger] init[i]).end
                == init[i + 1].start by {
                assert(init[i] == ranges[i]);
                assert(init[i + 1] == ranges[i + 1]);
            }
        }
        assert(tiles(init, m));
        lemma_select_tiles_prefix(unit, init, m);
        if m < unit.len() {
            assert(select(unit, init) == unit.take(m));
            if n <= unit.len() {
                assert(unit.take(m) + unit.subrange(m, n) == unit.take(n));
            } else {
                assert(unit.take(m) + unit.subrange(m, unit.len() as int) == unit);
            }
        } else {
            assert(select(unit, init) + Seq::<T>::empty() == select(unit, init));
        }
    }
}

/// Round trip: ranges that cover the whole unit contiguously, in ascending
/// order and without overlap, select the unit unchanged.
pub proof fn lemma_select_tiles<T>(unit: Seq<T>, ranges: Seq<Range<usize>>)
    requires
        tiles(ranges, unit.len() as int),
    ensures
        select(unit, ranges) == unit,
{
    lemma_select_tiles_prefix(unit, ranges, unit.len() as int);
    assert(unit.take(unit.len() as int) == unit);
}

/// The items of `unit` that `ranges` selects, in list order.
pub fn select_items<T: Copy>(unit: &[T], ranges: &[Range<usize>]) -> (out: Vec<T>)
    ensures
        out@ == select(unit@, ranges@),
{
    let mut out: Vec<T> = Vec::new();
    let mut k: usize = 0;
    while k < ranges.len()
        invariant
            k <= ranges.len(),
            out@ == select(unit@, ranges@.take(k as int)),
        decreases ranges.len() - k,
    {
        let start: usize = ranges[k].start;
        let stop: usize = if ranges[k].end <= unit.len() {
            ranges[k].end
        } else {
            unit.len()
        };
        let ghost before = out@;
        let ghost r = ranges@[k as int];
        if start < stop {
            let mut i: usize = start;
            assert(unit@.subrange(start as int, i as int) == Seq::<T>::empty());
            while i < stop
                invariant
                    start <= i <= stop <= unit.len(),
                    out@ == before + unit@.subrange(start as int, i as int),
                decreases stop - i,
            {
                out.push(unit[i]);
                assert(unit@.subrange(start as int, i + 1) == unit@.subrange(
                    start as int,
                    i as int,
                ).push(unit@[i as int]));
                i += 1;
            }
        }
        proof {
            assert(ranges@.take(k + 1) == ranges@.take(k as int).push(r));
            lemma_select_push(unit@, ranges@.take(k as int), r);
            assert(out@ == before + pick(unit@, r.start as int, r.end as int));
        }
        k += 1;
    }
    assert(ranges@.take(ranges@.len() as int) == ranges@);
    out
}

} // verus!
