use canon::compute::freshness::{impl_current_age, ImplSnapshot};
use canon::compute::query::query;
use canon::lifecycle::can_transition;
use canon::ops::activate::activate;
use canon::ops::edit::{apply_edits, EditPatch};
use canon::ops::filter::{filter_atoms, ListFilter};
use canon::store::error::Error as StoreError;
use canon::store::io::sorted_ids;
use canon::store::serialize::{split_atom_text, to_markdown};
use canon::store::serialize_doc;
use canon::store::scalar::split_frontmatter;
use canon::{Atom, ComposedDoc, Freshness, ImplPaths, Status, Timestamp};

fn atom(id: &str, status: Status, body: &str) -> Atom<f64> {
    Atom {
        id: id.into(),
        status,
        title: format!("title of {id}"),
        tags: vec!["t".into()],
        freshness: Freshness::default(),
        body: body.into(),
    }
}

#[test]
fn verified_stamps_read_back_across_four_character_years() {
    for ts in [
        Timestamp::from_ymd_hms(0, 1, 1, 0, 0, 0),
        Timestamp::from_ymd_hms(-5, 2, 28, 23, 59, 59),
        Timestamp::from_ymd_hms(-999, 12, 31, 1, 2, 3),
        Timestamp::from_ymd_hms(9999, 12, 31, 23, 59, 59),
    ] {
        assert_eq!(Timestamp::parse_verified_stamp(&ts.verified_stamp()), Some(ts));
    }
    assert_eq!(
        Timestamp::from_ymd_hms(-5, 2, 28, 23, 59, 59).verified_stamp(),
        "-005-02-28 23:59:59"
    );
    let wide = Timestamp::from_ymd_hms(10000, 1, 1, 0, 0, 0);
    assert_eq!(Timestamp::parse_verified_stamp(&wide.verified_stamp()), None);
}

#[test]
fn written_atoms_split_back_into_front_matter_and_body() {
    let a: Atom<String> = Atom {
        id: "x".into(),
        status: Status::Deprecated,
        title: "a: b".into(),
        tags: vec!["-dash".into(), "two\nlines".into()],
        freshness: Freshness {
            last_verified: Some("2026-09-01 12:15:00".into()),
            impl_path: ImplPaths::new(vec!["a.rs".to_string(), "b.rs".to_string()]),
            score: Some("0.6".into()),
        },
        body: "first\n---\nsecond".into(),
    };
    let md = to_markdown(&a);
    let (yaml, body) = split_atom_text(&a.id, &md).unwrap();
    assert_eq!(body, a.body);
    assert_eq!(
        yaml,
        "id: x\nstatus: deprecated\ntitle: \"a: b\"\ntags:\n  - \"-dash\"\n  - \"two\\nlines\"\nfreshness:\n  last-verified: 2026-09-01 12:15:00\n  impl-path:\n    - a.rs\n    - b.rs\n  score: 0.6"
    );
}

#[test]
fn a_body_ending_with_a_line_break_loses_it_on_read() {
    let a: Atom<String> = Atom {
        id: "x".into(),
        status: Status::Draft,
        title: "t".into(),
        tags: vec![],
        freshness: Freshness::default(),
        body: "ends\n".into(),
    };
    let (_, body) = split_atom_text(&a.id, &to_markdown(&a)).unwrap();
    assert_eq!(body, "ends");
}

#[test]
fn written_documents_split_back() {
    let doc = ComposedDoc {
        id: "d".into(),
        title: "T".into(),
        atoms: vec!["a".into()],
        body: "# T\n\ntext".into(),
    };
    let (yaml, body) = split_frontmatter(&serialize_doc::to_markdown(&doc)).unwrap();
    assert_eq!(yaml, "id: d\ntitle: T\natoms:\n  - a");
    assert_eq!(body, doc.body);
}

#[test]
fn ids_are_sorted_as_strings_keeping_duplicates() {
    let ids = vec![
        "b".to_string(),
        "a".to_string(),
        "ab".to_string(),
        "".to_string(),
        "b".to_string(),
        "Z".to_string(),
        "é".to_string(),
    ];
    let mut expected = ids.clone();
    expected.sort();
    assert_eq!(sorted_ids(ids), expected);
    assert_eq!(expected, vec!["", "Z", "a", "ab", "b", "b", "é"]);
}

#[test]
fn keeping_paths_twice_changes_nothing() {
    let once = ImplPaths::new(vec![" a.rs".to_string(), " ".to_string(), "b.rs\t".to_string()]);
    let twice = ImplPaths::new(once.as_slice().to_vec());
    assert_eq!(once, twice);
}

#[test]
fn default_listing_is_the_active_listing_and_all_is_everything() {
    let atoms = || {
        vec![
            atom("d", Status::Draft, "b"),
            atom("a", Status::Active, "b"),
            atom("x", Status::Deprecated, "b"),
            atom("a2", Status::Active, "b"),
        ]
    };
    assert_eq!(
        filter_atoms(atoms(), ListFilter::Active),
        filter_atoms(atoms(), ListFilter::Status(Status::Active))
    );
    assert_eq!(filter_atoms(atoms(), ListFilter::All), atoms());
}

#[test]
fn every_edited_atom_carries_its_patch_id_and_status() {
    let current = vec![atom("a", Status::Active, "x"), atom("b", Status::Draft, "y")];
    let patches = vec![
        EditPatch::<f64> {
            id: "b".into(),
            title: Some("nb".into()),
            tags: None,
            body: None,
            freshness: None,
            status: None,
        },
        EditPatch::<f64> {
            id: "a".into(),
            title: None,
            tags: Some(vec![]),
            body: None,
            freshness: None,
            status: Some(Status::Active),
        },
    ];
    let out = apply_edits(&current, &patches).unwrap();
    assert_eq!(out.len(), 2);
    assert_eq!(out[0].id, "b");
    assert_eq!(out[0].status, Status::Draft);
    assert_eq!(out[1].id, "a");
    assert_eq!(out[1].status, Status::Active);
}

#[test]
fn an_activated_atom_cannot_be_activated_again() {
    let now = Timestamp::from_ymd_hms(2026, 9, 1, 12, 15, 0);
    let once = activate(atom("a", Status::Draft, "b"), now, 1.0).unwrap();
    assert_eq!(once.status, Status::Active);
    assert!(activate(once, now, 1.0).is_err());
}

#[test]
fn nothing_returns_to_draft_and_deprecated_is_final() {
    for s in [Status::Draft, Status::Active, Status::Deprecated] {
        assert!(!can_transition(s, Status::Draft));
        assert!(!can_transition(Status::Deprecated, s));
    }
}

#[test]
fn recall_ignores_titles_and_tags() {
    let mut a = atom("plain_id", Status::Active, "nothing here");
    a.title = "needle in title".into();
    a.tags = vec!["needle".into()];
    let hits = query(vec![a], &["needle".to_string()], ListFilter::All).unwrap();
    assert!(hits.is_empty());
}

#[test]
fn io_errors_show_the_system_text() {
    let e = StoreError::Io(std::io::Error::new(std::io::ErrorKind::Other, "disk on fire"));
    assert_eq!(e.describe(), "disk on fire");
}

#[test]
fn activation_starts_the_currency_clock() {
    let now = Timestamp::from_ymd_hms(2026, 9, 1, 12, 15, 0);
    let mut draft = atom("a", Status::Draft, "b");
    draft.freshness.impl_path = ImplPaths::new(vec!["a.rs".to_string()]);
    let active = activate(draft, now, 1.0).unwrap();
    let unchanged = [ImplSnapshot { exists: true, changed_at: Some(now) }];
    assert_eq!(
        impl_current_age(&active, &unchanged, now.saturating_add_days(90)),
        Some(90 * 86_400)
    );
    let changed = [ImplSnapshot {
        exists: true,
        changed_at: Some(now.saturating_add_days(1)),
    }];
    assert_eq!(impl_current_age(&active, &changed, now.saturating_add_days(2)), None);
}
