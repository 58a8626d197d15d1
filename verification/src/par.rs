//! Parallel search: the candidate windows are scanned by concurrent rayon
//! workers over disjoint ranges of window indices, and the merged result is
//! proved to be exactly what the sequential scans return.

use crate::model::candidate_count;
use crate::model::first_match;
use crate::model::lemma_offsets_before_empty;
use crate::model::lemma_offsets_before_prefix;
use crate::model::lemma_offsets_before_props;
use crate::model::lemma_strictly_increasing_same_members;
use crate::model::match_offsets;
use crate::model::offsets_before;
use crate::model::strictly_increasing;
use crate::model::window_matches;
use crate::search::find_pattern;
use crate::search::find_patterns;
use crate::search::match_pattern;
use crate::Pattern;
use rayon::iter::IndexedParallelIterator;
use rayon::iter::ParallelIterator;
use rayon::slice::ParallelSlice;
use vstd::prelude::*;

verus! {

/// Relies on rayon's `ParallelSlice::par_windows` and
/// `IndexedParallelIterator::position_first`: the windows are every run of
/// `pattern.len()` consecutive bytes of `region` in ascending order (none when
/// the region is shorter than the pattern), and `position_first` returns the
/// index of the sequentially first window satisfying the predicate, exactly
/// as `Iterator::position` would. `par_windows` panics on a zero window size,
/// so a nonempty pattern is required. The predicate is the verified
/// `match_pattern`, whose contract ties it to `window_matches`.
#[verifier::external_body]
fn par_first_matching_offset(region: &[u8], pattern: &Pattern) -> (r: Option<usize>)
    requires
        pattern@.len() >= 1,
    ensures
        match r {
            Some(off) => {
                &&& off + pattern@.len() <= region@.len()
                &&& window_matches(region@, pattern@, off as int)
                &&& forall|o: int| 0 <= o < off ==> !window_matches(region@, pattern@, o)
            },
            None => forall|o: int|
                0 <= o && o + pattern@.len() <= region@.len() ==> !window_matches(
                    region@,
                    pattern@,
                    o,
                ),
        },
{
    region.par_windows(pattern.len()).position_first(|wnd| match_pattern(wnd, pattern))
}

/// Relies on rayon's `ParallelSlice::par_windows`,
/// `IndexedParallelIterator::positions` and collecting into a `Vec`: the
/// collected vector holds exactly the indices of the windows satisfying the
/// predicate, in ascending order — each worker reports its range of window
/// indices in order and the per-worker vectors are appended in range order,
/// never in completion order. `par_windows` panics on a zero window size, so
/// a nonempty pattern is required. The predicate is the verified
/// `match_pattern`, whose contract ties it to `window_matches`.
#[verifier::external_body]
fn par_all_matching_offsets(region: &[u8], pattern: &Pattern) -> (r: Vec<usize>)
    requires
        pattern@.len() >= 1,
    ensures
        forall|k: int|
            0 <= k < r@.len() ==> (#[trigger] r@[k]) + pattern@.len() <= region@.len()
                && window_matches(region@, pattern@, r@[k] as int),
        strictly_increasing(r@),
        forall|o: usize|
            o + pattern@.len() <= region@.len() && window_matches(region@, pattern@, o as int)
                ==> r@.contains(o),
{
    region.par_windows(pattern.len()).positions(|wnd| match_pattern(wnd, pattern)).collect()
}

/// Returns the first offset within `region` whose window matches `pattern`,
/// or `None` when no window does: the same result as `find_pattern`, with the
/// candidate windows scanned by parallel workers. Workers to the right of a
/// found match may be abandoned; workers to its left run on, so the least
/// matching offset is returned.
pub fn find_pattern_par(region: &[u8], pattern: &Pattern) -> (r: Option<usize>)
    ensures
        r == first_match(region@, pattern@),
{
    if pattern.len() == 0 {
        // rayon refuses zero-sized windows; a zero-length pattern matches at
        // offset 0 immediately, so the sequential scan loses nothing.
        return find_pattern(region, pattern);
    }
    let r = par_first_matching_offset(region, pattern);
    proof {
        match r {
            Some(off) => {
                lemma_offsets_before_empty(region@, pattern@, off as int);
                assert(offsets_before(region@, pattern@, off + 1)[0] == off);
                lemma_offsets_before_prefix(
                    region@,
                    pattern@,
                    off + 1,
                    candidate_count(region@, pattern@),
                );
                assert(match_offsets(region@, pattern@)[0] == offsets_before(
                    region@,
                    pattern@,
                    off + 1,
                ).subrange(0, 1)[0]);
            },
            None => {
                let n = candidate_count(region@, pattern@);
                assert forall|o: int| 0 <= o < n implies !window_matches(
                    region@,
                    pattern@,
                    o,
                ) by {
                    assert(o + pattern@.len() <= region@.len());
                }
                lemma_offsets_before_empty(region@, pattern@, n);
            },
        }
    }
    r
}

/// Returns every offset within `region` whose window matches `pattern`, in
/// ascending order: the same sequence as `find_patterns`, with each parallel
/// worker scanning its own range of candidate offsets and the per-worker
/// results concatenated in range order.
pub fn find_patterns_par(region: &[u8], pattern: &Pattern) -> (r: Vec<usize>)
    ensures
        r@ == match_offsets(region@, pattern@),
{
    if pattern.len() == 0 {
        // rayon refuses zero-sized windows; every candidate offset matches a
        // zero-length pattern, and the sequential scan collects them all.
        return find_patterns(region, pattern);
    }
    let r = par_all_matching_offsets(region, pattern);
    proof {
        let n = candidate_count(region@, pattern@);
        vstd::slice::axiom_spec_len(region);
        lemma_offsets_before_props(region@, pattern@, n);
        assert forall|x: usize| r@.contains(x) implies match_offsets(region@, pattern@).contains(
            x,
        ) by {
            let k = choose|k: int| 0 <= k < r@.len() && r@[k] == x;
            assert(r@[k] + pattern@.len() <= region@.len());
            assert(x < n);
        }
        assert forall|x: usize| match_offsets(region@, pattern@).contains(x) implies r@.contains(
            x,
        ) by {
            let k = choose|k: int|
                0 <= k < match_offsets(region@, pattern@).len() && match_offsets(
                    region@,
                    pattern@,
                )[k] == x;
            assert(x < n);
            assert(window_matches(region@, pattern@, x as int));
            assert(x + pattern@.len() <= region@.len());
        }
        lemma_strictly_increasing_same_members(r@, match_offsets(region@, pattern@));
    }
    r
}

} // verus!
