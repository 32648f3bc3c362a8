use hook_dll_lib::wildcard::wildcard_match;

#[test]
fn test_wildcard_match_basic() {
    let pattern = "bb ?? dd";
    let data = &[0xaa, 0xbb, 0xcc, 0xdd, 0xee];
    assert!(wildcard_match(pattern, data), "pattern '{}' should match data", pattern);
}

#[test]
fn test_wildcard_match_case_insensitive() {
    let pattern1 = "BB ?? DD";
    let pattern2 = "bb ?? dd";
    let pattern3 = "Bb ?? Dd";
    let data = &[0xaa, 0xbb, 0xcc, 0xdd, 0xee];

    assert!(wildcard_match(pattern1, data), "uppercase pattern should match");
    assert!(wildcard_match(pattern2, data), "lowercase pattern should match");
    assert!(wildcard_match(pattern3, data), "mixed case pattern should match");
}

#[test]
fn test_wildcard_match_with_spaces() {
    let pattern1 = "bb ?? dd";
    let pattern2 = "bb??dd";
    let pattern3 = "bb  ??  dd";
    let data = &[0xaa, 0xbb, 0xcc, 0xdd, 0xee];

    assert!(wildcard_match(pattern1, data), "pattern with single spaces should match");
    assert!(wildcard_match(pattern2, data), "pattern without spaces should match");
    assert!(wildcard_match(pattern3, data), "pattern with multiple spaces should match");
}

#[test]
fn test_wildcard_match_exact_match() {
    let pattern = "aabbcc";
    let data = &[0xaa, 0xbb, 0xcc];
    assert!(wildcard_match(pattern, data), "exact match should succeed");
}

#[test]
fn test_wildcard_match_with_wildcard_at_start() {
    let pattern = "?? bb cc";
    let data = &[0xaa, 0xbb, 0xcc];
    assert!(wildcard_match(pattern, data), "wildcard at start should match");
}

#[test]
fn test_wildcard_match_with_wildcard_at_end() {
    let pattern = "aa bb ??";
    let data = &[0xaa, 0xbb, 0xcc];
    assert!(wildcard_match(pattern, data), "wildcard at end should match");
}

#[test]
fn test_wildcard_match_multiple_wildcards() {
    let pattern = "aa ?? bb ??";
    let data = &[0xaa, 0x11, 0xbb, 0x22];
    assert!(wildcard_match(pattern, data), "multiple wildcards should match");
}

#[test]
fn test_wildcard_match_no_match() {
    let pattern = "aa bb cc";
    let data = &[0xaa, 0xbb, 0xdd];
    assert!(!wildcard_match(pattern, data), "non-matching pattern should fail");
}

#[test]
fn test_wildcard_match_pattern_too_long() {
    let pattern = "aa bb cc dd";
    let data = &[0xaa, 0xbb, 0xcc];
    assert!(!wildcard_match(pattern, data), "pattern longer than data should fail");
}

#[test]
fn test_wildcard_match_empty_pattern() {
    let pattern = "";
    let data = &[0xaa, 0xbb];
    assert!(!wildcard_match(pattern, data), "empty pattern should not match non-empty data");

    let empty_data = &[];
    assert!(wildcard_match(pattern, empty_data), "empty pattern should match empty data");
}

#[test]
fn test_wildcard_match_empty_data() {
    let pattern = "aa bb";
    let data = &[];
    assert!(!wildcard_match(pattern, data), "non-empty pattern should not match empty data");
}

#[test]
fn test_wildcard_match_subsequence() {
    let pattern = "bb ?? dd";
    let data = &[0x11, 0x22, 0xaa, 0xbb, 0xcc, 0xdd, 0xee, 0xff];
    assert!(wildcard_match(pattern, data), "pattern should match subsequence");
}

#[test]
fn test_wildcard_match_all_wildcards() {
    let pattern = "?? ?? ??";
    let data = &[0xaa, 0xbb, 0xcc];
    assert!(wildcard_match(pattern, data), "all wildcards should match any data");
}

#[test]
fn test_wildcard_match_invalid_hex() {
    let pattern = "gg ?? dd";
    let data = &[0xaa, 0xbb, 0xcc, 0xdd];
    assert!(!wildcard_match(pattern, data), "invalid hex should fail");
}

#[test]
fn test_wildcard_match_odd_length() {
    let pattern = "a ?? d";
    let data = &[0xaa, 0xbb, 0xcc, 0xdd];
    assert!(!wildcard_match(pattern, data), "odd length hex should fail");
}

#[test]
fn test_wildcard_match_real_world_example() {
    let pattern = "47 45 54";
    let data = &[0x48, 0x54, 0x54, 0x50, 0x2f, 0x31, 0x2e, 0x31, 0x0d, 0x0a, 0x47, 0x45, 0x54];
    assert!(wildcard_match(pattern, data), "should match GET in HTTP request");
}

#[test]
fn test_wildcard_match_with_wildcard_in_middle() {
    let pattern = "aa ?? cc";
    let data1 = &[0xaa, 0xbb, 0xcc];
    let data2 = &[0xaa, 0x11, 0xcc];
    let data3 = &[0xaa, 0xff, 0xcc];

    assert!(wildcard_match(pattern, data1), "wildcard should match 0xbb");
    assert!(wildcard_match(pattern, data2), "wildcard should match 0x11");
    assert!(wildcard_match(pattern, data3), "wildcard should match 0xff");
}
