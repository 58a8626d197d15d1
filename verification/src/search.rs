//! Sequential search: the wildcard-aware window comparator and the
//! first-match and all-matches scans built on it.

use crate::model::candidate_count;
use crate::model::constraint_matches;
use crate::model::first_match;
use crate::model::lemma_offsets_before_prefix;
use crate::model::match_offsets;
use crate::model::offsets_before;
use crate::model::pat_matches;
use crate::model::window_matches;
use crate::Pattern;
use vstd::prelude::*;
use vstd::slice::slice_subrange;

verus! {

/// Builds a pattern from its per-position constraints. Construction cannot
/// fail; a zero-length pattern is a legitimate degenerate value.
pub fn build_pattern(elements: Vec<Option<u8>>) -> (r: Pattern)
    ensures
        r@ == elements@,
{
    elements
}

/// Tests whether one window satisfies the pattern, position by position,
/// stopping at the first position that fails.
pub fn match_pattern(window: &[u8], pattern: &Pattern) -> (r: bool)
    requires
        window@.len() == pattern@.len(),
    ensures
        r == pat_matches(window@, pattern@),
{
    let n = pattern.len();
    let mut i: usize = 0;
    while i < n
        invariant
            n == pattern@.len(),
            window@.len() == pattern@.len(),
            i <= n,
            forall|j: int| 0 <= j < i ==> #[trigger] constraint_matches(pattern@[j], window@[j]),
        decreases n - i,
    {
        match pattern[i] {
            Some(v) => {
                if *vstd::slice::slice_index_get(window, i) != v {
                    assert(!constraint_matches(pattern@[i as int], window@[i as int]));
                    return false;
                }
            },
            None => {},
        }
        assert(constraint_matches(pattern@[i as int], window@[i as int]));
        i += 1;
    }
    true
}

/// Returns the first offset within `region` whose window matches `pattern`,
/// or `None` when no window does. Offsets are tried in ascending order and
/// the scan stops at the first success.
pub fn find_pattern(region: &[u8], pattern: &Pattern) -> (r: Option<usize>)
    ensures
        r == first_match(region@, pattern@),
{
    if pattern.len() > region.len() {
        return None;
    }
    let last: usize = region.len() - pattern.len();
    let mut off: usize = 0;
    loop
        invariant_except_break
            region@.len() <= usize::MAX,
            pattern@.len() <= region@.len(),
            last == region@.len() - pattern@.len(),
            off <= last,
            offsets_before(region@, pattern@, off as int).len() == 0,
        ensures
            offsets_before(region@, pattern@, candidate_count(region@, pattern@)).len() == 0,
        decreases last - off,
    {
        let wnd = slice_subrange(region, off, off + pattern.len());
        if match_pattern(wnd, pattern) {
            proof {
                assert(window_matches(region@, pattern@, off as int));
                assert(offsets_before(region@, pattern@, off + 1)[0] == off);
                lemma_offsets_before_prefix(
                    region@,
                    pattern@,
                    off + 1,
                    candidate_count(region@, pattern@),
                );
                assert(match_offsets(region@, pattern@)[0] == offsets_before(
                    region@,
                    pattern@,
                    off + 1,
                ).subrange(0, 1)[0]);
            }
            return Some(off);
        }
        if off == last {
            break;
        }
        off += 1;
    }
    None
}

/// Returns every offset within `region` whose window matches `pattern`, in
/// ascending order; empty when no window does. Overlapping matches are all
/// reported: each candidate offset is tested independently.
pub fn find_patterns(region: &[u8], pattern: &Pattern) -> (r: Vec<usize>)
    ensures
        r@ == match_offsets(region@, pattern@),
{
    let mut result: Vec<usize> = Vec::new();
    if pattern.len() > region.len() {
        return result;
    }
    let last: usize = region.len() - pattern.len();
    let mut off: usize = 0;
    loop
        invariant_except_break
            region@.len() <= usize::MAX,
            pattern@.len() <= region@.len(),
            last == region@.len() - pattern@.len(),
            off <= last,
            result@ == offsets_before(region@, pattern@, off as int),
        ensures
            result@ == match_offsets(region@, pattern@),
        decreases last - off,
    {
        let wnd = slice_subrange(region, off, off + pattern.len());
        if match_pattern(wnd, pattern) {
            result.push(off);
        }
        if off == last {
            break;
        }
        off += 1;
    }
    result
}

} // verus!

