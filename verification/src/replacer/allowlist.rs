//! The allowlist of byte ranges: a match may be replaced only if it
//! intersects one of them.

use vstd::prelude::*;
use crate::model::ReplacementRange;

verus! {

/// The ranges are ordered by their start.
pub open spec fn ranges_sorted(ranges: Seq<ReplacementRange>) -> bool {
    forall|i: int, j: int| 0 <= i < j < ranges.len() ==> ranges[i].start <= ranges[j].start
}

/// Some range of the allowlist intersects the match `[start, end)`.
pub open spec fn hits_allowlist(ranges: Seq<ReplacementRange>, start: int, end: int) -> bool {
    exists|i: int| 0 <= i < ranges.len() && #[trigger] ranges[i].intersects(start, end)
}

/// The two lists hold the same ranges, in whatever order.
#[verifier::opaque]
pub open spec fn same_ranges(a: Seq<ReplacementRange>, b: Seq<ReplacementRange>) -> bool {
    forall|r: ReplacementRange| a.contains(r) <==> b.contains(r)
}

/// Every range before `cursor` ends at or before `start`, so that none of
/// them can intersect a match that starts at `start` or later.
pub open spec fn cursor_passed(ranges: Seq<ReplacementRange>, cursor: int, start: int) -> bool {
    &&& 0 <= cursor <= ranges.len()
    &&& forall|j: int| 0 <= j < cursor ==> (#[trigger] ranges[j]).end <= start
}

/// Whether the match `[start, end)` intersects a range of `allowed`.
///
/// `cursor` is moved forward to the first range that ends after `start`.
/// Matches must be presented in ascending order of their start.
pub fn check_allowed_range_optimized(
    start: usize,
    end: usize,
    allowed: &[ReplacementRange],
    cursor: &mut usize,
) -> (hit: bool)
    requires
        ranges_sorted(allowed@),
        cursor_passed(allowed@, *old(cursor) as int, start as int),
    ensures
        hit == hits_allowlist(allowed@, start as int, end as int),
        *old(cursor) <= *final(cursor),
        cursor_passed(allowed@, *final(cursor) as int, start as int),
        *final(cursor) < allowed@.len() ==> allowed@[*final(cursor) as int].end > start,
{
    while *cursor < allowed.len() && allowed[*cursor].end <= start
        invariant
            *old(cursor) <= *cursor,
            cursor_passed(allowed@, *cursor as int, start as int),
        decreases allowed.len() - *cursor,
    {
        *cursor = *cursor + 1;
    }
    if *cursor >= allowed.len() {
        assert(!hits_allowlist(allowed@, start as int, end as int));
        return false;
    }
    let r = &allowed[*cursor];
    if r.start < end {
        assert(allowed@[*cursor as int].intersects(start as int, end as int));
        return true;
    }
    assert(!hits_allowlist(allowed@, start as int, end as int)) by {
        assert forall|i: int| 0 <= i < allowed@.len() implies !(#[trigger] allowed@[i]).intersects(
            start as int,
            end as int,
        ) by {
            if i > *cursor {
                assert(allowed@[*cursor as int].start <= allowed@[i].start);
            }
        }
    }
    false
}

/// The ranges of `ranges`, ordered by start and then by end.
pub fn sort_ranges(ranges: &Vec<ReplacementRange>) -> (sorted: Vec<ReplacementRange>)
    ensures
        ranges_sorted(sorted@),
        sorted@.to_multiset() == ranges@.to_multiset(),
        sorted@.len() == ranges@.len(),
        same_ranges(sorted@, ranges@),
        forall|i: int, j: int|
            0 <= i < j < sorted@.len() && sorted@[i].start == sorted@[j].start ==> sorted@[i].end
                <= sorted@[j].end,
{
    let mut sorted: Vec<ReplacementRange> = Vec::new();
    let mut i: usize = 0;
    assert(sorted@ =~= ranges@.take(0));
    while i < ranges.len()
        invariant
            i <= ranges@.len(),
            sorted@.len() == i,
            forall|a: int, b: int|
                0 <= a < b < sorted@.len() ==> sorted@[a].start < sorted@[b].start || (sorted@[a].start
                    == sorted@[b].start && sorted@[a].end <= sorted@[b].end),
            forall|r: ReplacementRange| sorted@.contains(r) <==> ranges@.take(i as int).contains(r),
            sorted@.to_multiset() == ranges@.take(i as int).to_multiset(),
        decreases ranges.len() - i,
    {
        let x = ranges[i];
        let mut pos: usize = 0;
        while pos < sorted.len() && (sorted[pos].start < x.start || (sorted[pos].start == x.start
            && sorted[pos].end <= x.end))
            invariant
                pos <= sorted@.len(),
                forall|a: int|
                    0 <= a < pos ==> sorted@[a].start < x.start || (sorted@[a].start == x.start
                        && sorted@[a].end <= x.end),
            decreases sorted.len() - pos,
        {
            pos = pos + 1;
        }
        let ghost before = sorted@;
        sorted.insert(pos, x);
        proof {
            let after = sorted@;
            assert(after == before.insert(pos as int, x));
            assert forall|a: int, b: int| 0 <= a < b < after.len() implies after[a].start
                < after[b].start || (after[a].start == after[b].start && after[a].end
                <= after[b].end) by {
                if a < pos && b > pos {
                    assert(after[a] == before[a]);
                    assert(after[b] == before[b - 1]);
                } else if a < pos && b < pos {
                    assert(after[a] == before[a]);
                    assert(after[b] == before[b]);
                } else if a > pos {
                    assert(after[a] == before[a - 1]);
                    assert(after[b] == before[b - 1]);
                } else if a == pos {
                    assert(after[b] == before[b - 1]);
                } else {
                    assert(after[a] == before[a]);
                }
            }
            let taken = ranges@.take(i as int);
            let taken_next = ranges@.take(i + 1);
            assert(taken_next == taken.push(x));
            vstd::seq_lib::to_multiset_insert(before, pos as int, x);
            vstd::seq_lib::to_multiset_build(taken, x);
            assert forall|r: ReplacementRange| after.contains(r) <==> taken_next.contains(
                r,
            ) by {
                if after.contains(r) {
                    let k = choose|k: int| 0 <= k < after.len() && after[k] == r;
                    if k < pos {
                        assert(before[k] == r);
                        assert(before.contains(r));
                    } else if k > pos {
                        assert(before[k - 1] == r);
                        assert(before.contains(r));
                    }
                    if before.contains(r) {
                        let m = choose|m: int| 0 <= m < taken.len() && taken[m] == r;
                        assert(taken_next[m] == r);
                    } else {
                        assert(taken_next[i as int] == r);
                    }
                }
                if taken_next.contains(r) {
                    let m = choose|m: int| 0 <= m < taken_next.len() && taken_next[m] == r;
                    if m < i {
                        assert(taken[m] == r);
                        assert(before.contains(r));
                        let k = choose|k: int| 0 <= k < before.len() && before[k] == r;
                        if k < pos {
                            assert(after[k] == r);
                        } else {
                            assert(after[k + 1] == r);
                        }
                    } else {
                        assert(after[pos as int] == r);
                    }
                }
            }
        }
        i = i + 1;
    }
    proof {
        assert(ranges@.take(ranges@.len() as int) == ranges@);
        reveal(same_ranges);
    }
    sorted
}

/// Intersecting the allowlist does not depend on the order of its ranges.
pub proof fn lemma_hits_same_ranges(
    a: Seq<ReplacementRange>,
    b: Seq<ReplacementRange>,
    start: int,
    end: int,
)
    requires
        same_ranges(a, b),
    ensures
        hits_allowlist(a, start, end) == hits_allowlist(b, start, end),
{
    reveal(same_ranges);
    if hits_allowlist(a, start, end) {
        let i = choose|i: int| 0 <= i < a.len() && #[trigger] a[i].intersects(start, end);
        assert(a.contains(a[i]));
        let j = choose|j: int| 0 <= j < b.len() && b[j] == a[i];
        assert(b[j].intersects(start, end));
    }
    if hits_allowlist(b, start, end) {
        let i = choose|i: int| 0 <= i < b.len() && #[trigger] b[i].intersects(start, end);
        assert(b.contains(b[i]));
        let j = choose|j: int| 0 <= j < a.len() && a[j] == b[i];
        assert(a[j].intersects(start, end));
    }
}

} // verus!
