use anchor::infra::{encode_path, unix_secs_to_iso8601};

/// Verify unix_secs_to_iso8601 produces the correct result for a known epoch.
///
/// 2026-04-15T00:00:00Z:
///   Days from epoch = 20558
///   = 1_776_211_200 seconds (verified by hand using civil_from_days)
#[test]
fn test_unix_secs_to_iso8601_known_date() {
    assert_eq!(unix_secs_to_iso8601(1_776_211_200), "2026-04-15T00:00:00Z");
}

/// Cross-check: 2025-04-15T00:00:00Z = 1_744_675_200 seconds.
#[test]
fn test_unix_secs_to_iso8601_2025() {
    assert_eq!(unix_secs_to_iso8601(1_744_675_200), "2025-04-15T00:00:00Z");
}

/// Verify encode_path replaces / with __.
#[test]
fn test_encode_path() {
    assert_eq!(
        encode_path(&"projects/os-council/STATUS.md".to_string()),
        "projects__os-council__STATUS.md"
    );
    assert_eq!(
        encode_path(&"accelmars-guild/GUIDE.md".to_string()),
        "accelmars-guild__GUIDE.md"
    );
    // Root-level file: no slashes, no change
    assert_eq!(encode_path(&"README.md".to_string()), "README.md");
}

#[test]
fn timestamps_have_two_digit_fields() {
    assert_eq!(unix_secs_to_iso8601(0), "1970-01-01T00:00:00Z");
    assert_eq!(unix_secs_to_iso8601(86399), "1970-01-01T23:59:59Z");
    assert_eq!(unix_secs_to_iso8601(951782400), "2000-02-29T00:00:00Z");
    assert!(unix_secs_to_iso8601(1_000_000) < unix_secs_to_iso8601(2_000_000));
}

#[test]
fn timestamps_sort_like_the_instants() {
    let stamps: Vec<String> = [0u64, 59, 60, 3599, 86399, 86400, 951782400, 1776211200, 253402300799]
        .iter()
        .map(|s| anchor::infra::unix_secs_to_iso8601(*s))
        .collect();
    for w in stamps.windows(2) {
        assert!(w[0] < w[1], "{} !< {}", w[0], w[1]);
    }
    assert_eq!(stamps[0], "1970-01-01T00:00:00Z");
    assert_eq!(stamps[8], "9999-12-31T23:59:59Z");
}
