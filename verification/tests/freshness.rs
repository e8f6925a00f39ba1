use canon::compute::freshness::{
    code_tokens, has_impl_path, impl_current_age, impl_exists, weights, FactorKind, ImplSnapshot,
    BODY_IN_IMPL_ID, HORIZON_SECS, IMPL_CURRENT_ID, IMPL_EXISTS_ID,
};
use canon::{Atom, Freshness, ImplPaths, Status, Timestamp};

#[test]
fn extracts_code_like_words() {
    assert_eq!(
        code_tokens("call FooBar and max_hp plus get."),
        vec!["call", "foobar", "and", "max_hp", "plus", "get"]
    );
    assert_eq!(
        code_tokens("纯中文主张，没有代码名。"),
        Vec::<String>::new()
    );
}

#[test]
fn code_tokens_are_unique_long_enough_and_start_with_a_letter() {
    assert_eq!(
        code_tokens("Foo foo FOO ab 9abc x_1y _under"),
        vec!["foo", "abc", "x_1y", "_under"]
    );
    assert_eq!(code_tokens("max_hp"), vec!["max_hp"]);
}

#[test]
fn weights_match_registered_ids_and_sum_at_most_one() {
    let table: Vec<&str> = weights().iter().map(|(id, _)| *id).collect();
    assert_eq!(table, vec![IMPL_CURRENT_ID]);
    let sum: u32 = weights().iter().map(|(_, w)| *w).sum();
    assert!(sum <= 100, "W={sum}");
    assert_eq!(weights(), vec![("impl-current", 40)]);
}

#[test]
fn factor_ids_and_horizon() {
    assert_eq!(IMPL_EXISTS_ID, "impl-exists");
    assert_eq!(IMPL_CURRENT_ID, "impl-current");
    assert_eq!(BODY_IN_IMPL_ID, "body-in-impl");
    assert_eq!(HORIZON_SECS, 180 * 86_400);
    assert_ne!(FactorKind::Gate, FactorKind::Weighted);
}

fn atom(paths: &[&str], verified: Option<&str>) -> Atom<f64> {
    Atom {
        id: "durability_daily_restore".into(),
        status: Status::Active,
        title: "t".into(),
        tags: vec![],
        freshness: Freshness {
            last_verified: verified.map(str::to_string),
            impl_path: ImplPaths::new(paths.iter().map(|s| s.to_string()).collect()),
            score: None,
        },
        body: "纯中文。".into(),
    }
}

fn snap(exists: bool, changed: Option<Timestamp>) -> ImplSnapshot {
    ImplSnapshot {
        exists,
        changed_at: changed,
    }
}

fn now() -> Timestamp {
    Timestamp::from_ymd_hms(2026, 9, 1, 13, 5, 0)
}

#[test]
fn no_path_or_blank_path_is_not_scored() {
    assert!(!has_impl_path(&atom(&[], Some("2026-09-01 13:05:00"))));
    assert!(!has_impl_path(&atom(&["  "], Some("2026-09-01 13:05:00"))));
    assert!(has_impl_path(&atom(&["a.rs"], None)));
}

#[test]
fn every_file_must_exist_and_there_must_be_one() {
    assert!(impl_exists(&[snap(true, None)]));
    assert!(impl_exists(&[snap(true, None), snap(true, Some(now()))]));
    assert!(!impl_exists(&[snap(true, None), snap(false, None)]));
    assert!(!impl_exists(&[]));
    assert_eq!(ImplSnapshot::default(), snap(false, None));
}

#[test]
fn verified_now_and_not_changed_since_has_age_zero() {
    let a = atom(&["gamesvr/DurabilityManager.java"], Some("2026-09-01 13:05:00"));
    assert_eq!(impl_current_age(&a, &[snap(true, Some(now()))], now()), Some(0));
}

#[test]
fn implementation_changed_after_verification_has_no_currency() {
    let a = atom(&["gamesvr/DurabilityManager.java"], Some("2026-09-01 13:05:00"));
    let later = Timestamp::from_ymd_hms(2026, 9, 2, 0, 0, 0);
    assert_eq!(impl_current_age(&a, &[snap(true, Some(later))], now()), None);
    assert_eq!(
        impl_current_age(&a, &[snap(true, Some(now())), snap(true, Some(later))], now()),
        None
    );
}

#[test]
fn never_verified_or_unreadable_stamp_has_no_currency() {
    assert_eq!(impl_current_age(&atom(&["a.rs"], None), &[snap(true, None)], now()), None);
    assert_eq!(
        impl_current_age(&atom(&["a.rs"], Some("yesterday")), &[snap(true, None)], now()),
        None
    );
}

#[test]
fn age_counts_seconds_until_the_horizon() {
    let a = atom(&["a.rs"], Some("2026-09-01 13:05:00"));
    let ninety = now().saturating_add_days(90);
    assert_eq!(impl_current_age(&a, &[snap(true, Some(now()))], ninety), Some(90 * 86_400));
    let horizon = now().saturating_add_days(180);
    assert_eq!(impl_current_age(&a, &[snap(true, Some(now()))], horizon), None);
    let just_before = Timestamp::from_epoch_secs(horizon.to_epoch_secs() - 1);
    assert_eq!(
        impl_current_age(&a, &[snap(true, None)], just_before),
        Some(180 * 86_400 - 1)
    );
}
