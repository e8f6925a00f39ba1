use canon::lifecycle::can_transition;
use canon::model::slug::validate_slug;
use canon::{Freshness, ImplPaths, Status, Timestamp};

const ALL: [Status; 3] = [Status::Draft, Status::Active, Status::Deprecated];

#[test]
fn only_draft_to_active_and_active_to_deprecated_are_legal() {
    for from in ALL {
        for to in ALL {
            let allowed = can_transition(from, to);
            let expected = matches!(
                (from, to),
                (Status::Draft, Status::Active) | (Status::Active, Status::Deprecated)
            );
            assert_eq!(allowed, expected, "{} -> {}", from.as_str(), to.as_str());
        }
    }
}

#[test]
fn status_names_are_lower_case() {
    assert_eq!(Status::Draft.as_str(), "draft");
    assert_eq!(Status::Active.as_str(), "active");
    assert_eq!(Status::Deprecated.as_str(), "deprecated");
}

#[test]
fn blank_impl_path_is_empty() {
    assert!(ImplPaths::from("  ").is_empty());
}

#[test]
fn impl_paths_are_trimmed_and_blank_ones_dropped() {
    let paths = ImplPaths::new(vec![
        " a.rs ".to_string(),
        "".to_string(),
        "\tb.rs".to_string(),
        "   ".to_string(),
    ]);
    assert_eq!(paths.as_slice(), ["a.rs", "b.rs"]);
    assert!(!paths.is_empty());
    assert_eq!(paths.clone(), paths);
    assert!(ImplPaths::default().is_empty());
}

#[test]
fn freshness_default_is_empty_and_any_key_makes_it_non_empty() {
    let empty: Freshness<f64> = Freshness::default();
    assert!(empty.is_empty());
    let with_score = Freshness { score: Some(0.5), ..Freshness::default() };
    assert!(!with_score.is_empty());
    let with_path: Freshness<f64> = Freshness {
        impl_path: ImplPaths::new(vec!["x.rs".to_string()]),
        ..Freshness::default()
    };
    assert!(!with_path.is_empty());
    let with_stamp: Freshness<f64> = Freshness {
        last_verified: Some("2026-09-01 13:05:00".to_string()),
        ..Freshness::default()
    };
    assert!(!with_stamp.is_empty());
    assert_eq!(with_stamp.clone(), with_stamp);
}

#[test]
fn accepts_snake_case_english_slug() {
    assert!(validate_slug("durability_daily_restore").is_ok());
    assert!(validate_slug("a_b").is_ok());
}

#[test]
fn still_accepts_unicode_without_underscore() {
    assert!(validate_slug("禁军突围耐久恢复").is_ok());
}

#[test]
fn accepts_32_scalars() {
    let slug: String = "a".repeat(32);
    assert_eq!(slug.chars().count(), 32);
    assert!(validate_slug(&slug).is_ok());
}

#[test]
fn rejects_empty_edges_too_long_and_path_chars() {
    assert!(validate_slug("").is_err());
    assert!(validate_slug(&"a".repeat(33)).is_err());
    assert!(validate_slug("_leading").is_err());
    assert!(validate_slug("trailing_").is_err());
    assert!(validate_slug(".leading").is_err());
    assert!(validate_slug("trailing.").is_err());
    assert!(validate_slug(" spaced").is_err());
    assert!(validate_slug("spaced ").is_err());
    assert!(validate_slug("a/b").is_err());
    assert!(validate_slug("a:b").is_err());
    assert!(validate_slug("a*b").is_err());
}

#[test]
fn slug_errors_name_the_first_problem() {
    assert_eq!(validate_slug(""), Err("slug must be non-empty".to_string()));
    assert_eq!(
        validate_slug(&"a".repeat(33)),
        Err("slug must be at most 32 Unicode scalars".to_string())
    );
    assert_eq!(
        validate_slug("_x"),
        Err("slug must not start or end with whitespace, `.`, or `_`".to_string())
    );
    assert_eq!(
        validate_slug("a?b"),
        Err("slug contains a forbidden character".to_string())
    );
}

#[test]
fn formats_id_and_verified_stamps_from_the_same_instant() {
    let ts = Timestamp::from_ymd_hms(2026, 9, 1, 13, 5, 0);
    assert_eq!(ts.id_stamp(), "20260901130500");
    assert_eq!(ts.verified_stamp(), "2026-09-01 13:05:00");
    assert_eq!(
        Timestamp::parse_verified_stamp("2026-09-01 13:05:00"),
        Some(ts)
    );
    assert_eq!(
        Timestamp::parse_verified_stamp("  2026-09-01 13:05:00  "),
        Some(ts)
    );
    assert!(Timestamp::parse_verified_stamp("2026-09-01").is_none());
    assert!(ts < Timestamp::from_ymd_hms(2026, 9, 1, 13, 5, 1));
}

#[test]
fn unix_epoch_is_zero_and_roundtrips() {
    let epoch = Timestamp::from_ymd_hms(1970, 1, 1, 0, 0, 0);
    assert_eq!(epoch.to_epoch_secs(), 0);
    assert_eq!(Timestamp::from_epoch_secs(0), epoch);
    let ts = Timestamp::from_ymd_hms(2026, 9, 1, 13, 5, 0);
    assert_eq!(Timestamp::from_epoch_secs(ts.to_epoch_secs()), ts);
}

#[test]
fn saturating_secs_since_is_zero_when_not_later() {
    let a = Timestamp::from_ymd_hms(2026, 9, 1, 13, 5, 0);
    let b = Timestamp::from_ymd_hms(2026, 9, 1, 13, 5, 1);
    assert_eq!(a.saturating_secs_since(b), 0);
    assert_eq!(a.saturating_secs_since(a), 0);
    assert_eq!(b.saturating_secs_since(a), 1);
    assert_eq!(
        a.saturating_add_days(90).saturating_secs_since(a),
        90 * 86_400
    );
    assert_eq!(
        a.saturating_add_days(180).saturating_secs_since(a),
        180 * 86_400
    );
}

#[test]
fn is_after_is_strict() {
    let a = Timestamp::from_ymd_hms(2026, 9, 1, 13, 5, 0);
    let b = Timestamp::from_ymd_hms(2026, 9, 2, 0, 0, 0);
    assert!(b.is_after(a));
    assert!(!a.is_after(b));
    assert!(!a.is_after(a));
}

#[test]
fn epoch_seconds_of_a_known_instant() {
    let ts = Timestamp::from_ymd_hms(2026, 9, 1, 13, 5, 0);
    assert_eq!(ts.to_epoch_secs(), 1_788_267_900);
    let before_epoch = Timestamp::from_ymd_hms(1969, 12, 31, 23, 59, 59);
    assert_eq!(before_epoch.to_epoch_secs(), -1);
    assert_eq!(Timestamp::from_epoch_secs(-1), before_epoch);
}

#[test]
fn parse_rejects_out_of_range_fields() {
    assert!(Timestamp::parse_verified_stamp("2026-13-01 13:05:00").is_none());
    assert!(Timestamp::parse_verified_stamp("2026-09-01 24:05:00").is_none());
    assert!(Timestamp::parse_verified_stamp("2026/09/01 13:05:00").is_none());
}

#[test]
fn stamps_with_signs_in_fields_are_refused() {
    assert!(Timestamp::parse_verified_stamp("2026-+9-01 13:05:00").is_none());
    assert!(Timestamp::parse_verified_stamp("+026-09-01 13:05:00").is_none());
    assert!(Timestamp::parse_verified_stamp("2026-09-01 +3:05:00").is_none());
    assert!(Timestamp::parse_verified_stamp("2026-09-01 13:05:+0").is_none());
    assert!(Timestamp::parse_verified_stamp("2026-09--1 13:05:00").is_none());
    assert_eq!(
        Timestamp::parse_verified_stamp("-005-09-01 13:05:00"),
        Some(Timestamp::from_ymd_hms(-5, 9, 1, 13, 5, 0))
    );
}

#[test]
fn impl_paths_from_one_string() {
    assert_eq!(ImplPaths::from(" a.rs ").as_slice(), ["a.rs"]);
    assert_eq!(ImplPaths::from("b.rs".to_string()).as_slice(), ["b.rs"]);
    assert!(ImplPaths::from(String::new()).is_empty());
}

#[test]
fn negative_years_count_real_days() {
    let before = Timestamp::from_ymd_hms(-400, 2, 29, 0, 0, 0);
    let after = Timestamp::from_ymd_hms(-400, 3, 1, 0, 0, 0);
    assert_eq!(after.saturating_secs_since(before), 86_400);
    for ts in [
        Timestamp::from_ymd_hms(-1, 12, 31, 0, 0, 0),
        Timestamp::from_ymd_hms(-2, 3, 1, 0, 0, 0),
        Timestamp::from_ymd_hms(-401, 1, 1, 12, 0, 0),
        Timestamp::from_ymd_hms(0, 2, 29, 23, 59, 59),
    ] {
        assert_eq!(Timestamp::from_epoch_secs(ts.to_epoch_secs()), ts);
    }
    assert_eq!(
        Timestamp::from_ymd_hms(0, 1, 1, 0, 0, 0).to_epoch_secs()
            - Timestamp::from_ymd_hms(-1, 12, 31, 0, 0, 0).to_epoch_secs(),
        86_400
    );
    assert_eq!(
        Timestamp::from_ymd_hms(0, 1, 1, 0, 0, 0).to_epoch_secs(),
        -62_167_219_200
    );
}
