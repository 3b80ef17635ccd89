use font_browser::version::compare_versions;

#[test]
fn patch_difference_is_greater() {
    assert_eq!(compare_versions("1.0.2", "1.0.1"), 1);
}

#[test]
fn missing_segments_count_as_zero() {
    assert_eq!(compare_versions("1.0", "1.0.0"), 0);
    assert_eq!(compare_versions("1", "1.0.0.0"), 0);
    assert_eq!(compare_versions("1.0.0.1", "1.0"), 1);
}

#[test]
fn leading_v_is_stripped() {
    assert_eq!(compare_versions("v2.0.0", "1.9.9"), 1);
    assert_eq!(compare_versions("v1.2.3", "v1.2.3"), 0);
    assert_eq!(compare_versions("1.2.3", "v1.2.3"), 0);
}

#[test]
fn patch_difference_is_less() {
    assert_eq!(compare_versions("1.0.1", "1.0.2"), -1);
}

#[test]
fn equal_versions_compare_equal() {
    assert_eq!(compare_versions("1.0.2", "1.0.2"), 0);
    assert_eq!(compare_versions("", ""), 0);
}

#[test]
fn numeric_not_lexicographic() {
    assert_eq!(compare_versions("1.10.0", "1.9.0"), 1);
    assert_eq!(compare_versions("0.2", "0.12"), -1);
}

#[test]
fn leading_zeros_do_not_matter() {
    assert_eq!(compare_versions("1.02.0", "1.2.0"), 0);
    assert_eq!(compare_versions("001.0", "1.0"), 0);
}

#[test]
fn non_numeric_segments_count_as_zero() {
    assert_eq!(compare_versions("1.beta.2", "1.0.2"), 0);
    assert_eq!(compare_versions("1.beta", "1.1"), -1);
    assert_eq!(compare_versions("x", "0"), 0);
    assert_eq!(compare_versions("", "0.0"), 0);
}

#[test]
fn huge_segments_are_compared_exactly() {
    assert_eq!(compare_versions("1.99999999999999999999999", "1.9"), 1);
    assert_eq!(
        compare_versions("10000000000000000000000000000", "9999999999999999999999999999"),
        1
    );
}

#[test]
fn earlier_segments_dominate() {
    assert_eq!(compare_versions("2.0.0", "1.999.999"), 1);
    assert_eq!(compare_versions("1.0.9", "1.1.0"), -1);
}
