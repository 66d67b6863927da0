use vstd::prelude::*;

verus! {

/// Whether the query range `[start, end]` meets the interval `(s, len)`:
/// the interval starts exactly at `end`, or starts before `end` and either
/// starts at or after `start` or still covers `start`.
pub open spec fn hits(start: int, end: int, iv: (usize, usize)) -> bool {
    let s = iv.0 as int;
    let len = iv.1 as int;
    s == end || (s < end && (start <= s || start < s + len))
}

/// Whether some interval of `ivs` meets the query range `[start, end]`.
pub open spec fn intersects(start: int, end: int, ivs: Seq<(usize, usize)>) -> bool {
    exists|k: int| 0 <= k < ivs.len() && #[trigger] hits(start, end, ivs[k])
}

/// Intervals sorted by strictly increasing start, each one ending at or
/// before the start of the next.
pub open spec fn sorted_disjoint(ivs: Seq<(usize, usize)>) -> bool {
    forall|i: int, j: int|
        0 <= i < j < ivs.len() ==> #[trigger] ivs[i].0 < #[trigger] ivs[j].0
            && ivs[i].0 + ivs[i].1 <= ivs[j].0
}

/// Whether the lines `[start, end]` and the lines `[s, s + len)` share a line.
pub open spec fn shares_line(start: int, end: int, iv: (usize, usize)) -> bool {
    iv.0 <= end && start < iv.0 + iv.1
}

/// Return `true` iff `[start, end]` intersects one of the given intervals.
/// `intervals` is an ordered list of `(interval_start, interval_length)` pairs;
/// only the interval just before the first one that starts after `end` is
/// inspected, found by binary search.
pub fn intersect_intervals(start: usize, end: usize, intervals: &[(usize, usize)]) -> (r: bool)
    ensures
        r ==> intersects(start as int, end as int, intervals@),
        sorted_disjoint(intervals@) ==> (r == intersects(start as int, end as int, intervals@)),
{
    let n = intervals.len();
    let mut lo: usize = 0;
    let mut hi: usize = n;
    while lo < hi
        invariant
            lo <= hi <= n,
            n == intervals@.len(),
            lo > 0 ==> intervals@[lo - 1].0 < end,
            hi < n ==> intervals@[hi as int].0 > end,
        decreases hi - lo,
    {
        let mid = lo + (hi - lo) / 2;
        let s = intervals[mid].0;
        if s == end {
            // An interval starts exactly at `end`.
            assert(hits(start as int, end as int, intervals@[mid as int]));
            return true;
        } else if s < end {
            lo = mid + 1;
        } else {
            hi = mid;
        }
    }
    if lo == 0 {
        // No interval starts before `end`.
        proof {
            if sorted_disjoint(intervals@) && n > 0 {
                assert forall|k: int| 0 <= k < n implies !hits(start as int, end as int, #[trigger] intervals@[k]) by {
                    if k > 0 {
                        assert(intervals@[0].0 < intervals@[k].0);
                    }
                }
            }
        }
        return false;
    }
    let (last_start, last_len) = intervals[lo - 1];
    let r = if start <= last_start {
        // An interval starts between `start` and `end`.
        true
    } else {
        // Whether the interval starts before `start` and includes it.
        last_len > start - last_start
    };
    proof {
        let last = lo - 1;
        if r {
            assert(hits(start as int, end as int, intervals@[last as int]));
        } else if sorted_disjoint(intervals@) {
            assert forall|k: int| 0 <= k < n implies !hits(start as int, end as int, #[trigger] intervals@[k]) by {
                if k > lo {
                    assert(intervals@[lo as int].0 < intervals@[k].0);
                } else if k < last {
                    assert(intervals@[k].0 < intervals@[last as int].0);
                }
            }
        }
    }
    r
}

/// On sorted, non-overlapping intervals of positive length and a query with
/// `start <= end`, `intersects` says exactly whether some interval shares a
/// line with the query: it agrees with a linear scan of every interval.
pub proof fn lemma_intersects_is_line_overlap(start: int, end: int, ivs: Seq<(usize, usize)>)
    requires
        start <= end,
        sorted_disjoint(ivs),
        forall|k: int| 0 <= k < ivs.len() ==> #[trigger] ivs[k].1 >= 1,
    ensures
        intersects(start, end, ivs) == (exists|k: int|
            0 <= k < ivs.len() && #[trigger] shares_line(start, end, ivs[k])),
{
    assert forall|k: int| 0 <= k < ivs.len() implies #[trigger] hits(start, end, ivs[k])
        == shares_line(start, end, ivs[k]) by {
        assert(ivs[k].1 >= 1);
    }
    if intersects(start, end, ivs) {
        let k = choose|k: int| 0 <= k < ivs.len() && #[trigger] hits(start, end, ivs[k]);
        assert(shares_line(start, end, ivs[k]));
    }
    if exists|k: int| 0 <= k < ivs.len() && #[trigger] shares_line(start, end, ivs[k]) {
        let k = choose|k: int| 0 <= k < ivs.len() && #[trigger] shares_line(start, end, ivs[k]);
        assert(hits(start, end, ivs[k]));
    }
}

} // verus!
