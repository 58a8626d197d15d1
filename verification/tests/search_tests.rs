use findpattern::build_pattern;
use findpattern::find_pattern;
use findpattern::find_pattern_par;
use findpattern::find_patterns;
use findpattern::find_patterns_par;
use findpattern::match_pattern;
use findpattern::Pattern;

fn de_ad_any_be_ef() -> Pattern {
    vec![Some(0xDE), Some(0xAD), None, Some(0xBE), Some(0xEF)]
}

#[test]
fn pattern_fwd() {
    let test_pattern: [u8; 32] = [
        0x00, 0x00, 0x00, 0x00, 0x00, 0x00, 0x00, 0x00, 0x00, 0x00, 0x00, 0x00, 0x00, 0x00, 0x00,
        0x00, 0x00, 0x00, 0x00, 0x00, 0xDE, 0xAD, 0xFF, 0xBE, 0xEF, 0x00, 0x00, 0x00, 0x00, 0x00,
        0x00, 0x00,
    ];

    let pattern = de_ad_any_be_ef();

    assert_eq!(find_pattern(&test_pattern, &pattern), Some(20));
}

#[test]
fn pattern_fwd_multiple() {
    let test_pattern: [u8; 32] = [
        0x00, 0x00, 0x00, 0x00, 0xDE, 0xAD, 0xFF, 0xBE, 0xEF, 0x00, 0x00, 0x00, 0x00, 0x00, 0x00,
        0x00, 0x00, 0x00, 0x00, 0x00, 0xDE, 0xAD, 0xFF, 0xBE, 0xEF, 0x00, 0x00, 0x00, 0x00, 0x00,
        0x00, 0x00,
    ];

    let pattern = de_ad_any_be_ef();

    assert_eq!(find_patterns(&test_pattern, &pattern), vec![4, 20]);
}

#[test]
fn pattern_fwd_par() {
    let test_pattern: [u8; 32] = [
        0x00, 0x00, 0x00, 0x00, 0x00, 0x00, 0x00, 0x00, 0x00, 0x00, 0x00, 0x00, 0x00, 0x00, 0x00,
        0x00, 0x00, 0x00, 0x00, 0x00, 0xDE, 0xAD, 0xFF, 0xBE, 0xEF, 0x00, 0x00, 0x00, 0x00, 0x00,
        0x00, 0x00,
    ];

    let pattern = de_ad_any_be_ef();

    assert_eq!(find_pattern_par(&test_pattern, &pattern), Some(20));
}

#[test]
fn matching() {
    assert!(match_pattern(
        &[0xDE, 0xAD, 0x00, 0xBE, 0xEF],
        &de_ad_any_be_ef()
    ))
}

#[test]
fn matching_rejects_wrong_byte() {
    assert!(!match_pattern(
        &[0xDE, 0xAD, 0x00, 0xBE, 0xEE],
        &de_ad_any_be_ef()
    ));
    assert!(!match_pattern(&[0xDF], &vec![Some(0xDE)]));
}

#[test]
fn single_match_reported_by_all_operations() {
    let mut region = [0u8; 32];
    region[20] = 0xDE;
    region[21] = 0xAD;
    region[22] = 0xFF;
    region[23] = 0xBE;
    region[24] = 0xEF;

    let pattern = de_ad_any_be_ef();

    assert_eq!(find_pattern(&region, &pattern), Some(20));
    assert_eq!(find_patterns(&region, &pattern), vec![20]);
    assert_eq!(find_pattern_par(&region, &pattern), Some(20));
    assert_eq!(find_patterns_par(&region, &pattern), vec![20]);
}

#[test]
fn parallel_equals_sequential() {
    let region: [u8; 32] = [
        0x00, 0x00, 0x00, 0x00, 0xDE, 0xAD, 0xFF, 0xBE, 0xEF, 0x00, 0x00, 0x00, 0x00, 0x00, 0x00,
        0x00, 0x00, 0x00, 0x00, 0x00, 0xDE, 0xAD, 0xFF, 0xBE, 0xEF, 0x00, 0x00, 0x00, 0x00, 0x00,
        0x00, 0x00,
    ];
    let patterns: Vec<Pattern> = vec![
        de_ad_any_be_ef(),
        vec![Some(0x00)],
        vec![None, None],
        vec![Some(0x42)],
        vec![],
    ];
    for pattern in &patterns {
        assert_eq!(
            find_pattern(&region, pattern),
            find_pattern_par(&region, pattern)
        );
        assert_eq!(
            find_patterns(&region, pattern),
            find_patterns_par(&region, pattern)
        );
    }
}

#[test]
fn overlapping_matches_all_reported() {
    let region: [u8; 4] = [0xAB, 0xAB, 0xAB, 0x07];
    let pattern: Pattern = vec![Some(0xAB), None];
    assert_eq!(find_patterns(&region, &pattern), vec![0, 1, 2]);
    assert_eq!(find_patterns_par(&region, &pattern), vec![0, 1, 2]);
}

#[test]
fn region_shorter_than_pattern() {
    let region: [u8; 3] = [0xDE, 0xAD, 0xBE];
    let pattern = de_ad_any_be_ef();
    assert_eq!(find_pattern(&region, &pattern), None);
    assert_eq!(find_patterns(&region, &pattern), Vec::<usize>::new());
    assert_eq!(find_pattern_par(&region, &pattern), None);
    assert_eq!(find_patterns_par(&region, &pattern), Vec::<usize>::new());
}

#[test]
fn all_wildcards_match_every_offset() {
    let region: [u8; 8] = [1, 2, 3, 4, 5, 6, 7, 8];
    let pattern: Pattern = vec![None, None, None];
    let expected: Vec<usize> = vec![0, 1, 2, 3, 4, 5];
    assert_eq!(find_pattern(&region, &pattern), Some(0));
    assert_eq!(find_patterns(&region, &pattern), expected);
    assert_eq!(find_pattern_par(&region, &pattern), Some(0));
    assert_eq!(find_patterns_par(&region, &pattern), expected);
}

#[test]
fn empty_pattern_matches_everywhere() {
    let region: [u8; 3] = [5, 6, 7];
    let pattern: Pattern = vec![];
    let expected: Vec<usize> = vec![0, 1, 2, 3];
    assert_eq!(find_pattern(&region, &pattern), Some(0));
    assert_eq!(find_patterns(&region, &pattern), expected);
    assert_eq!(find_pattern_par(&region, &pattern), Some(0));
    assert_eq!(find_patterns_par(&region, &pattern), expected);

    let empty: [u8; 0] = [];
    assert_eq!(find_pattern(&empty, &pattern), Some(0));
    assert_eq!(find_patterns(&empty, &pattern), vec![0]);
    assert_eq!(find_pattern_par(&empty, &pattern), Some(0));
    assert_eq!(find_patterns_par(&empty, &pattern), vec![0]);
}

#[test]
fn empty_region_nonempty_pattern() {
    let region: [u8; 0] = [];
    let pattern: Pattern = vec![Some(0x01)];
    assert_eq!(find_pattern(&region, &pattern), None);
    assert_eq!(find_patterns(&region, &pattern), Vec::<usize>::new());
    assert_eq!(find_pattern_par(&region, &pattern), None);
    assert_eq!(find_patterns_par(&region, &pattern), Vec::<usize>::new());
}

#[test]
fn first_match_is_least_of_all_matches() {
    let region: [u8; 6] = [0x10, 0x22, 0x10, 0x22, 0x10, 0x22];
    let pattern: Pattern = vec![Some(0x10), Some(0x22)];
    let all = find_patterns(&region, &pattern);
    assert_eq!(all, vec![0, 2, 4]);
    assert_eq!(find_pattern(&region, &pattern), Some(all[0]));
}

#[test]
fn exact_pattern_without_wildcards() {
    let region: [u8; 5] = [0x00, 0x01, 0x02, 0x01, 0x02];
    let pattern: Pattern = vec![Some(0x01), Some(0x02)];
    assert_eq!(find_patterns(&region, &pattern), vec![1, 3]);

    let absent: Pattern = vec![Some(0x03), Some(0x04)];
    assert_eq!(find_pattern(&region, &absent), None);
    assert_eq!(find_patterns(&region, &absent), Vec::<usize>::new());
}

#[test]
fn repeated_calls_yield_identical_results() {
    let region: [u8; 32] = [
        0x00, 0x00, 0x00, 0x00, 0xDE, 0xAD, 0xFF, 0xBE, 0xEF, 0x00, 0x00, 0x00, 0x00, 0x00, 0x00,
        0x00, 0x00, 0x00, 0x00, 0x00, 0xDE, 0xAD, 0xFF, 0xBE, 0xEF, 0x00, 0x00, 0x00, 0x00, 0x00,
        0x00, 0x00,
    ];
    let pattern = de_ad_any_be_ef();
    assert_eq!(
        find_pattern(&region, &pattern),
        find_pattern(&region, &pattern)
    );
    assert_eq!(
        find_patterns(&region, &pattern),
        find_patterns(&region, &pattern)
    );
    assert_eq!(
        find_pattern_par(&region, &pattern),
        find_pattern_par(&region, &pattern)
    );
    assert_eq!(
        find_patterns_par(&region, &pattern),
        find_patterns_par(&region, &pattern)
    );
}

#[test]
fn build_pattern_keeps_elements() {
    let elements: Vec<Option<u8>> = vec![Some(0xE9), None, None, Some(0x10)];
    let pattern = build_pattern(elements.clone());
    assert_eq!(pattern, elements);
    assert!(match_pattern(&[0xE9, 0x55, 0x66, 0x10], &pattern));
}
