//! The mathematical model of wildcard pattern matching: which windows of a
//! region satisfy a pattern, and the canonical ascending sequence of all
//! matching offsets that every search operation is specified against.

use vstd::prelude::*;

verus! {

/// One pattern position against one byte: an exact constraint requires that
/// byte, a wildcard accepts every byte.
pub open spec fn constraint_matches(c: Option<u8>, b: u8) -> bool {
    match c {
        Some(v) => b == v,
        None => true,
    }
}

/// A window satisfies a pattern when it has the pattern's length and every
/// position satisfies its constraint.
pub open spec fn pat_matches(window: Seq<u8>, pattern: Seq<Option<u8>>) -> bool {
    &&& window.len() == pattern.len()
    &&& forall|i: int|
        0 <= i < pattern.len() ==> #[trigger] constraint_matches(pattern[i], window[i])
}

/// The window of `region` starting at `off` satisfies `pattern`.
pub open spec fn window_matches(region: Seq<u8>, pattern: Seq<Option<u8>>, off: int) -> bool {
    pat_matches(region.subrange(off, off + pattern.len() as int), pattern)
}

/// The ascending sequence of matching offsets among `0 .. n`.
pub open spec fn offsets_before(region: Seq<u8>, pattern: Seq<Option<u8>>, n: int) -> Seq<usize>
    decreases n,
{
    if n <= 0 {
        Seq::empty()
    } else if window_matches(region, pattern, n - 1) {
        offsets_before(region, pattern, n - 1).push((n - 1) as usize)
    } else {
        offsets_before(region, pattern, n - 1)
    }
}

/// How many offsets admit a full-length window: `len(region) - len(pattern) + 1`
/// when the pattern fits, none otherwise.
pub open spec fn candidate_count(region: Seq<u8>, pattern: Seq<Option<u8>>) -> int {
    if pattern.len() <= region.len() {
        region.len() - pattern.len() + 1
    } else {
        0
    }
}

/// The ascending sequence of all matching offsets: what an all-matches search
/// returns.
pub open spec fn match_offsets(region: Seq<u8>, pattern: Seq<Option<u8>>) -> Seq<usize> {
    offsets_before(region, pattern, candidate_count(region, pattern))
}

/// The least matching offset, if any: what a first-match search returns.
pub open spec fn first_match(region: Seq<u8>, pattern: Seq<Option<u8>>) -> Option<usize> {
    if match_offsets(region, pattern).len() == 0 {
        None
    } else {
        Some(match_offsets(region, pattern)[0])
    }
}

/// The entries of `s` grow strictly from left to right.
pub open spec fn strictly_increasing(s: Seq<usize>) -> bool {
    forall|i: int, j: int| 0 <= i < j < s.len() ==> s[i] < s[j]
}

/// Scanning further offsets only appends: the matches among `0 .. m` are a
/// prefix of the matches among `0 .. n` whenever `m <= n`.
pub proof fn lemma_offsets_before_prefix(
    region: Seq<u8>,
    pattern: Seq<Option<u8>>,
    m: int,
    n: int,
)
    requires
        m <= n,
    ensures
        offsets_before(region, pattern, m).is_prefix_of(offsets_before(region, pattern, n)),
    decreases n - m,
{
    let p = offsets_before(region, pattern, m);
    if m < n {
        lemma_offsets_before_prefix(region, pattern, m, n - 1);
        let s = offsets_before(region, pattern, n - 1);
        if n > 0 && window_matches(region, pattern, n - 1) {
            assert(offsets_before(region, pattern, n) == s.push((n - 1) as usize));
            assert(s.push((n - 1) as usize).subrange(0, p.len() as int) =~= s.subrange(
                0,
                p.len() as int,
            ));
        }
    } else {
        assert(p.subrange(0, p.len() as int) =~= p);
    }
}

/// If no offset below `n` matches, the scan of `0 .. n` collects nothing.
pub proof fn lemma_offsets_before_empty(region: Seq<u8>, pattern: Seq<Option<u8>>, n: int)
    requires
        forall|o: int| 0 <= o < n ==> !window_matches(region, pattern, o),
    ensures
        offsets_before(region, pattern, n).len() == 0,
    decreases n,
{
    if n > 0 {
        lemma_offsets_before_empty(region, pattern, n - 1);
    }
}

/// The scan of `0 .. n` is sound (every entry is a matching offset below `n`),
/// strictly increasing, and complete (every matching offset below `n` occurs).
pub proof fn lemma_offsets_before_props(region: Seq<u8>, pattern: Seq<Option<u8>>, n: int)
    requires
        n <= usize::MAX + 1,
    ensures
        forall|k: int|
            0 <= k < offsets_before(region, pattern, n).len() ==> (#[trigger] offsets_before(
                region,
                pattern,
                n,
            )[k]) < n && window_matches(region, pattern, offsets_before(region, pattern, n)[k] as int),
        strictly_increasing(offsets_before(region, pattern, n)),
        forall|o: usize|
            o < n && window_matches(region, pattern, o as int) ==> offsets_before(
                region,
                pattern,
                n,
            ).contains(o),
    decreases n,
{
    if n > 0 {
        lemma_offsets_before_props(region, pattern, n - 1);
        let s0 = offsets_before(region, pattern, n - 1);
        let s = offsets_before(region, pattern, n);
        if window_matches(region, pattern, n - 1) {
            assert(s == s0.push((n - 1) as usize));
            assert forall|o: usize| o < n && window_matches(region, pattern, o as int) implies s
                .contains(o) by {
                if o < n - 1 {
                    let j = choose|j: int| 0 <= j < s0.len() && s0[j] == o;
                    assert(s[j] == o);
                } else {
                    assert(s[s0.len() as int] == o);
                }
            }
        } else {
            assert forall|o: usize| o < n && window_matches(region, pattern, o as int) implies s
                .contains(o) by {
                assert(o < n - 1);
            }
        }
    }
}

/// Two strictly increasing sequences with the same members are the same
/// sequence: the characterization "sound, ascending, complete" pins an
/// all-matches result uniquely.
pub proof fn lemma_strictly_increasing_same_members(s1: Seq<usize>, s2: Seq<usize>)
    requires
        strictly_increasing(s1),
        strictly_increasing(s2),
        forall|x: usize| s1.contains(x) <==> s2.contains(x),
    ensures
        s1 == s2,
    decreases s1.len(),
{
    if s1.len() == 0 {
        if s2.len() > 0 {
            assert(s2.contains(s2[0]));
            assert(s1.contains(s2[0]));
        }
        assert(s1 =~= s2);
    } else {
        assert(s1.contains(s1[0]));
        assert(s2.contains(s1[0]));
        let j2 = choose|j: int| 0 <= j < s2.len() && s2[j] == s1[0];
        assert(s2[0] <= s2[j2]);
        assert(s1.contains(s2[0]));
        let j1 = choose|j: int| 0 <= j < s1.len() && s1[j] == s2[0];
        assert(s1[0] <= s1[j1]);
        assert(s1[0] == s2[0]);
        let t1 = s1.drop_first();
        let t2 = s2.drop_first();
        assert forall|x: usize| t1.contains(x) implies s1.contains(x) && x != s1[0] by {
            let i = choose|i: int| 0 <= i < t1.len() && t1[i] == x;
            assert(s1[i + 1] == x);
            assert(s1[0] < s1[i + 1]);
        }
        assert forall|x: usize| s1.contains(x) && x != s1[0] implies t1.contains(x) by {
            let i = choose|i: int| 0 <= i < s1.len() && s1[i] == x;
            assert(i != 0);
            assert(t1[i - 1] == x);
        }
        assert forall|x: usize| t2.contains(x) implies s2.contains(x) && x != s2[0] by {
            let i = choose|i: int| 0 <= i < t2.len() && t2[i] == x;
            assert(s2[i + 1] == x);
            assert(s2[0] < s2[i + 1]);
        }
        assert forall|x: usize| s2.contains(x) && x != s2[0] implies t2.contains(x) by {
            let i = choose|i: int| 0 <= i < s2.len() && s2[i] == x;
            assert(i != 0);
            assert(t2[i - 1] == x);
        }
        assert(strictly_increasing(t1)) by {
            assert forall|i: int, j: int| 0 <= i < j < t1.len() implies t1[i] < t1[j] by {
                assert(t1[i] == s1[i + 1]);
                assert(t1[j] == s1[j + 1]);
            }
        }
        assert(strictly_increasing(t2)) by {
            assert forall|i: int, j: int| 0 <= i < j < t2.len() implies t2[i] < t2[j] by {
                assert(t2[i] == s2[i + 1]);
                assert(t2[j] == s2[j + 1]);
            }
        }
        lemma_strictly_increasing_same_members(t1, t2);
        assert forall|i: int| 0 <= i < s1.len() implies s1[i] == s2[i] by {
            if i > 0 {
                assert(t1[i - 1] == s1[i]);
                assert(t2[i - 1] == s2[i]);
            }
        }
        assert(s1 =~= s2);
    }
}

/// If every offset below `n` matches, the scan of `0 .. n` collects exactly
/// the offsets `0, 1, ..., n - 1` in order.
pub proof fn lemma_offsets_before_full(region: Seq<u8>, pattern: Seq<Option<u8>>, n: int)
    requires
        0 <= n <= usize::MAX + 1,
        forall|o: int| 0 <= o < n ==> window_matches(region, pattern, o),
    ensures
        offsets_before(region, pattern, n) == Seq::new(n as nat, |i: int| i as usize),
    decreases n,
{
    if n > 0 {
        lemma_offsets_before_full(region, pattern, n - 1);
        assert(offsets_before(region, pattern, n - 1).push((n - 1) as usize) =~= Seq::new(
            n as nat,
            |i: int| i as usize,
        ));
    } else {
        assert(offsets_before(region, pattern, n) =~= Seq::new(n as nat, |i: int| i as usize));
    }
}

/// First-match agrees with all-matches: it is `None` exactly when the
/// all-matches sequence is empty, and otherwise returns that sequence's first
/// element, which is strictly smaller than every other element.
pub proof fn lemma_first_match_is_minimum(region: Seq<u8>, pattern: Seq<Option<u8>>)
    requires
        region.len() <= usize::MAX,
    ensures
        first_match(region, pattern) is None <==> match_offsets(region, pattern).len() == 0,
        match_offsets(region, pattern).len() > 0 ==> first_match(region, pattern) == Some(
            match_offsets(region, pattern)[0],
        ),
        forall|k: int|
            0 < k < match_offsets(region, pattern).len() ==> match_offsets(region, pattern)[0]
                < #[trigger] match_offsets(region, pattern)[k],
{
    lemma_offsets_before_props(region, pattern, candidate_count(region, pattern));
}

/// A pattern longer than its region matches nowhere: first-match is `None`
/// and all-matches is empty, never an error.
pub proof fn lemma_pattern_longer_than_region(region: Seq<u8>, pattern: Seq<Option<u8>>)
    requires
        pattern.len() > region.len(),
    ensures
        match_offsets(region, pattern).len() == 0,
        first_match(region, pattern) is None,
{
}

/// A pattern of nothing but wildcards matches at every candidate offset:
/// all-matches holds every offset from `0` through
/// `len(region) - len(pattern)` inclusive, in order.
pub proof fn lemma_all_wildcards_match_everywhere(region: Seq<u8>, pattern: Seq<Option<u8>>)
    requires
        region.len() <= usize::MAX,
        pattern.len() <= region.len(),
        forall|i: int| 0 <= i < pattern.len() ==> pattern[i] is None,
    ensures
        match_offsets(region, pattern) == Seq::new(
            (region.len() - pattern.len() + 1) as nat,
            |i: int| i as usize,
        ),
{
    let n = candidate_count(region, pattern);
    assert forall|o: int| 0 <= o < n implies window_matches(region, pattern, o) by {
        let w = region.subrange(o, o + pattern.len() as int);
        assert forall|i: int| 0 <= i < pattern.len() implies #[trigger] constraint_matches(
            pattern[i],
            w[i],
        ) by {
            assert(pattern[i] is None);
        }
    }
    lemma_offsets_before_full(region, pattern, n);
}

} // verus!
