use canon::ops::activate::activate;
use canon::ops::add::{add_drafts, AddDraft};
use canon::ops::compose::{compose, ComposeAtom, ComposeDraft};
use canon::ops::edit::{apply_edits, EditPatch, FreshnessPatch};
use canon::ops::filter::{filter_atoms, ListFilter};
use canon::ops::id::{assign_ids, Occupied};
use canon::{Atom, Error, Freshness, ImplPaths, Status, Timestamp};

fn paths(list: &[&str]) -> ImplPaths {
    ImplPaths::new(list.iter().map(|s| s.to_string()).collect())
}

fn activation_draft() -> Atom<f64> {
    Atom {
        id: "durability_daily_restore".into(),
        status: Status::Draft,
        title: "禁军突围装备耐久恢复机制".into(),
        tags: vec!["armybreak".into()],
        freshness: Freshness {
            impl_path: paths(&["gamesvr/DurabilityManager.java"]),
            score: Some(0.2),
            ..Freshness::default()
        },
        body: "正文：只描述一个事实。".into(),
    }
}

#[test]
fn stamps_verified_and_score_keeps_impl_path_and_identity() {
    let now = Timestamp::from_ymd_hms(2026, 9, 1, 12, 15, 0);
    let out = activate(activation_draft(), now, 1.0).unwrap();
    assert_eq!(out.status, Status::Active);
    assert_eq!(out.id, activation_draft().id);
    assert_eq!(out.title, activation_draft().title);
    assert_eq!(out.tags, activation_draft().tags);
    assert_eq!(out.body, activation_draft().body);
    assert_eq!(
        out.freshness.last_verified.as_deref(),
        Some("2026-09-01 12:15:00")
    );
    assert_eq!(out.freshness.impl_path, activation_draft().freshness.impl_path);
    assert_eq!(out.freshness.score, Some(1.0));
}

#[test]
fn active_cannot_activate_again() {
    let mut atom = activation_draft();
    atom.status = Status::Active;
    let err = activate(atom, Timestamp::from_ymd_hms(2026, 9, 1, 12, 15, 0), 1.0).unwrap_err();
    match err {
        Error::InvalidTransition { from, to, .. } => {
            assert_eq!(from, Status::Active);
            assert_eq!(to, Status::Active);
        }
        other => panic!("unexpected {other:?}"),
    }
}

#[test]
fn deprecated_cannot_activate_and_the_error_names_the_atom() {
    let mut atom = activation_draft();
    atom.status = Status::Deprecated;
    let err = activate(atom, Timestamp::from_ymd_hms(2026, 9, 1, 12, 15, 0), 1.0).unwrap_err();
    assert_eq!(
        err,
        Error::InvalidTransition {
            id: "durability_daily_restore".into(),
            from: Status::Deprecated,
            to: Status::Active,
        }
    );
    assert_eq!(
        err.describe(),
        "invalid transition for `durability_daily_restore` from deprecated to active"
    );
}

fn add_draft(slug: &str, title: &str, body: &str) -> AddDraft<f64> {
    AddDraft {
        slug: slug.into(),
        title: title.into(),
        body: body.into(),
        tags: vec!["armybreak".into()],
        freshness: Freshness {
            impl_path: paths(&["gamesvr/DurabilityManager.java"]),
            ..Freshness::default()
        },
    }
}

#[test]
fn forces_draft_and_uses_slug_as_id() {
    let atoms = add_drafts(
        &[add_draft(
            "durability_daily_restore",
            "禁军突围装备耐久恢复机制",
            "正文：只描述一个事实。",
        )],
        &vec![],
    )
    .unwrap();
    assert_eq!(atoms.len(), 1);
    assert_eq!(atoms[0].id, "durability_daily_restore");
    assert_eq!(atoms[0].status, Status::Draft);
    assert_eq!(atoms[0].title, "禁军突围装备耐久恢复机制");
    assert!(!atoms[0].id.contains("ATOM-"));
}

#[test]
fn changing_title_does_not_change_id() {
    let atoms = add_drafts(
        &[add_draft("durability_daily_restore", "another title", "body")],
        &vec![],
    )
    .unwrap();
    assert_eq!(atoms[0].id, "durability_daily_restore");
    assert_eq!(atoms[0].title, "another title");
}

#[test]
fn empty_title_fails_before_any_id_is_issued() {
    let err = add_drafts(
        &[add_draft("ok_slug", "ok", "body"), add_draft("also_ok", "", "body")],
        &vec![],
    )
    .unwrap_err();
    assert_eq!(
        err,
        Error::validation(1, Some("title".into()), "title must be non-empty".into())
    );
}

#[test]
fn invalid_slug_is_validation_failed() {
    let err = add_drafts(&[add_draft("/bad", "t", "b")], &vec![]).unwrap_err();
    match err {
        Error::Validation { index, field, .. } => {
            assert_eq!(index, 0);
            assert_eq!(field.as_deref(), Some("slug"));
        }
        other => panic!("unexpected {other:?}"),
    }
}

#[test]
fn occupied_slug_reports_all_conflicts() {
    let occupied = vec![
        ("durability_daily_restore".to_string(), Status::Active),
        ("durability_cap_from_table".to_string(), Status::Deprecated),
    ];
    let err = add_drafts(
        &[
            add_draft("durability_daily_restore", "t", "b"),
            add_draft("fresh_slug", "t", "b"),
            add_draft("durability_cap_from_table", "t", "b"),
        ],
        &occupied,
    )
    .unwrap_err();
    match err {
        Error::SlugConflict { conflicts } => {
            assert_eq!(conflicts.len(), 2);
            assert_eq!(conflicts[0].index, 0);
            assert_eq!(conflicts[0].slug, "durability_daily_restore");
            assert_eq!(conflicts[0].status, Some(Status::Active));
            assert_eq!(conflicts[1].index, 2);
            assert_eq!(conflicts[1].slug, "durability_cap_from_table");
            assert_eq!(conflicts[1].status, Some(Status::Deprecated));
        }
        other => panic!("unexpected {other:?}"),
    }
}

#[test]
fn in_batch_duplicate_slug_conflicts_without_disk_status() {
    let err = add_drafts(
        &[add_draft("same_slug", "one", "a"), add_draft("same_slug", "two", "b")],
        &vec![],
    )
    .unwrap_err();
    match err {
        Error::SlugConflict { conflicts } => {
            assert_eq!(conflicts.len(), 1);
            assert_eq!(conflicts[0].index, 1);
            assert_eq!(conflicts[0].slug, "same_slug");
            assert_eq!(conflicts[0].status, None);
        }
        other => panic!("unexpected {other:?}"),
    }
}

#[test]
fn empty_batch_is_ok() {
    let atoms = add_drafts::<f64>(&[], &vec![]).unwrap();
    assert!(atoms.is_empty());
}

#[test]
fn added_atoms_keep_tags_freshness_and_body() {
    let atoms = add_drafts(&[add_draft("a_slug", "t", "the body")], &vec![]).unwrap();
    assert_eq!(atoms[0].tags, vec!["armybreak".to_string()]);
    assert_eq!(atoms[0].body, "the body");
    assert_eq!(atoms[0].freshness.impl_path.as_slice(), ["gamesvr/DurabilityManager.java"]);
}

#[test]
fn empty_body_fails_at_its_index() {
    let err = add_drafts(&[add_draft("a_slug", "t", "")], &vec![]).unwrap_err();
    assert_eq!(
        err,
        Error::validation(0, Some("body".into()), "body must be non-empty".into())
    );
}

fn edit_atom() -> Atom<f64> {
    Atom {
        id: "durability_daily_restore".into(),
        status: Status::Draft,
        title: "禁军突围装备耐久恢复机制".into(),
        tags: vec!["armybreak".into(), "durability".into()],
        freshness: Freshness {
            impl_path: paths(&["gamesvr/DurabilityManager.java"]),
            ..Freshness::default()
        },
        body: "正文：只描述一个事实。".into(),
    }
}

fn patch() -> EditPatch<f64> {
    EditPatch {
        id: edit_atom().id,
        title: None,
        tags: None,
        body: None,
        freshness: None,
        status: None,
    }
}

#[test]
fn title_change_keeps_id_status_tags_freshness_body() {
    let p = EditPatch { title: Some("禁军突围：耐久按日恢复".into()), ..patch() };
    let out = apply_edits(&[edit_atom()], &[p]).unwrap();
    assert_eq!(out[0].id, edit_atom().id);
    assert_eq!(out[0].status, Status::Draft);
    assert_eq!(out[0].title, "禁军突围：耐久按日恢复");
    assert_eq!(out[0].tags, edit_atom().tags);
    assert_eq!(out[0].freshness, edit_atom().freshness);
    assert_eq!(out[0].body, edit_atom().body);
}

#[test]
fn tags_replace_and_empty_clears() {
    let p = EditPatch { tags: Some(vec!["only".into()]), ..patch() };
    let out = apply_edits(&[edit_atom()], &[p]).unwrap();
    assert_eq!(out[0].tags, vec!["only".to_string()]);

    let p = EditPatch { tags: Some(vec![]), ..patch() };
    let out = apply_edits(&[edit_atom()], &[p]).unwrap();
    assert!(out[0].tags.is_empty());
}

#[test]
fn freshness_merges_subkeys_and_empty_object_keeps_existing() {
    let p = EditPatch {
        freshness: Some(FreshnessPatch {
            last_verified: Some("2026-09-01 12:15:00".into()),
            impl_path: None,
            score: None,
        }),
        ..patch()
    };
    let out = apply_edits(&[edit_atom()], &[p]).unwrap();
    assert_eq!(
        out[0].freshness.last_verified.as_deref(),
        Some("2026-09-01 12:15:00")
    );
    assert_eq!(
        out[0].freshness.impl_path.as_slice(),
        ["gamesvr/DurabilityManager.java"]
    );

    let keep = EditPatch { freshness: Some(FreshnessPatch::default()), ..patch() };
    let out = apply_edits(&[edit_atom()], &[keep]).unwrap();
    assert_eq!(out[0].freshness, edit_atom().freshness);
}

#[test]
fn same_status_is_ignored_different_status_fails_and_id_never_changes() {
    let same = EditPatch { title: Some("n".into()), status: Some(Status::Draft), ..patch() };
    assert_eq!(
        apply_edits(&[edit_atom()], &[same]).unwrap()[0].status,
        Status::Draft
    );

    let different = EditPatch { title: Some("n".into()), status: Some(Status::Active), ..patch() };
    assert_eq!(
        apply_edits(&[edit_atom()], &[different]).unwrap_err(),
        Error::ImmutableField {
            index: 0,
            field: "status".into(),
        }
    );
}

#[test]
fn requires_a_mutable_field() {
    let p = EditPatch { status: Some(Status::Draft), ..patch() };
    match apply_edits(&[edit_atom()], &[p]).unwrap_err() {
        Error::Validation { index, .. } => assert_eq!(index, 0),
        other => panic!("unexpected {other:?}"),
    }
}

#[test]
fn activate_score_patch_merges() {
    let p = EditPatch {
        freshness: Some(FreshnessPatch {
            last_verified: None,
            impl_path: None,
            score: Some(1.0),
        }),
        ..patch()
    };
    let out = apply_edits(&[edit_atom()], &[p]).unwrap();
    assert_eq!(out[0].freshness.score, Some(1.0));
    assert!(!out[0].freshness.impl_path.is_empty());
}

#[test]
fn unknown_id_fails_with_its_name() {
    let p = EditPatch { id: "nope".into(), title: Some("x".into()), ..patch() };
    assert_eq!(
        apply_edits(&[edit_atom()], &[p]).unwrap_err(),
        Error::validation(0, Some("id".into()), "atom `nope` not in batch".into())
    );
}

#[test]
fn empty_title_or_body_in_a_patch_fails() {
    let p = EditPatch { title: Some("".into()), ..patch() };
    assert_eq!(
        apply_edits(&[edit_atom()], &[p]).unwrap_err(),
        Error::validation(0, Some("title".into()), "title must be non-empty".into())
    );
    let p = EditPatch { body: Some("".into()), ..patch() };
    assert_eq!(
        apply_edits(&[edit_atom()], &[p]).unwrap_err(),
        Error::validation(0, Some("body".into()), "body must be non-empty".into())
    );
}

#[test]
fn later_patches_see_earlier_edits() {
    let first = EditPatch { title: Some("one".into()), ..patch() };
    let second = EditPatch { body: Some("two".into()), ..patch() };
    let out = apply_edits(&[edit_atom()], &[first, second]).unwrap();
    assert_eq!(out.len(), 2);
    assert_eq!(out[0].title, "one");
    assert_eq!(out[1].title, "one");
    assert_eq!(out[1].body, "two");
}

#[test]
fn has_mutable_field_sees_each_field() {
    assert!(!patch().has_mutable_field());
    assert!(EditPatch { body: Some("b".into()), ..patch() }.has_mutable_field());
    assert!(EditPatch { freshness: Some(FreshnessPatch::default()), ..patch() }.has_mutable_field());
    assert!(!EditPatch { status: Some(Status::Draft), ..patch() }.has_mutable_field());
}

fn listed(id: &str, status: Status) -> Atom<f64> {
    Atom {
        id: id.into(),
        status,
        title: id.into(),
        tags: vec![],
        freshness: Freshness::default(),
        body: "b".into(),
    }
}

fn sample() -> Vec<Atom<f64>> {
    vec![
        listed("d", Status::Draft),
        listed("a", Status::Active),
        listed("x", Status::Deprecated),
    ]
}

#[test]
fn default_and_status_active_are_true_source_only() {
    let ids = |f| {
        filter_atoms(sample(), f)
            .into_iter()
            .map(|a| a.id)
            .collect::<Vec<_>>()
    };
    assert_eq!(ids(ListFilter::Active), vec!["a".to_string()]);
    assert_eq!(
        ids(ListFilter::Status(Status::Active)),
        vec!["a".to_string()]
    );
    assert_eq!(
        ids(ListFilter::Status(Status::Draft)),
        vec!["d".to_string()]
    );
    assert_eq!(
        ids(ListFilter::All),
        vec!["d".to_string(), "a".to_string(), "x".to_string()]
    );
}

#[test]
fn ids_are_the_slugs_in_order() {
    let ids = assign_ids(
        &vec![
            "durability_daily_restore".to_string(),
            "durability_cap_from_table".to_string(),
        ],
        &vec![],
    )
    .unwrap();
    assert_eq!(
        ids,
        vec![
            "durability_daily_restore".to_string(),
            "durability_cap_from_table".to_string(),
        ]
    );
}

#[test]
fn disk_and_in_batch_conflicts_are_all_reported() {
    let occupied = vec![(
        "durability_daily_restore".to_string(),
        Occupied::Disk(Status::Draft),
    )];
    let err = assign_ids(
        &vec![
            "durability_daily_restore".to_string(),
            "fresh_slug".to_string(),
            "fresh_slug".to_string(),
        ],
        &occupied,
    )
    .unwrap_err();
    match err {
        Error::SlugConflict { conflicts } => {
            assert_eq!(conflicts.len(), 2);
            assert_eq!(conflicts[0].index, 0);
            assert_eq!(conflicts[0].status, Some(Status::Draft));
            assert_eq!(conflicts[1].index, 2);
            assert_eq!(conflicts[1].slug, "fresh_slug");
            assert_eq!(conflicts[1].status, None);
        }
        other => panic!("unexpected {other:?}"),
    }
}

#[test]
fn slug_conflict_message() {
    let err = assign_ids(&vec!["a_a".to_string(), "a_a".to_string()], &vec![]).unwrap_err();
    assert_eq!(err.describe(), "slug already exists");
}

fn known(pairs: &[(&str, Status, &str)]) -> Vec<(String, ComposeAtom)> {
    pairs
        .iter()
        .map(|(id, status, title)| {
            (
                (*id).to_string(),
                ComposeAtom {
                    status: *status,
                    title: (*title).to_string(),
                },
            )
        })
        .collect()
}

fn compose_draft(atoms: &[&str], body: &str) -> ComposeDraft {
    ComposeDraft {
        slug: "how_ssot_works".into(),
        title: "OpenCanon 如何保证一处事实只记一次".into(),
        atoms: atoms.iter().map(|s| (*s).to_string()).collect(),
        body: body.into(),
    }
}

fn ok_body() -> &'static str {
    "\
# OpenCanon 如何保证一处事实只记一次

摘要：一处事实只记一次。

按问题组合原子成文。
"
}

fn ok_known() -> Vec<(String, ComposeAtom)> {
    known(&[
        (
            "ssot_one_place",
            Status::Active,
            "一处事实只记录一次，其它文档只引用不复制",
        ),
        (
            "compose_by_topic",
            Status::Active,
            "拼接：要派生可读文档时按问题召回原子并由 LLM 组合成文，派生文不是真源",
        ),
    ])
}

#[test]
fn assigns_id_from_slug_keeps_atom_order_and_appends_index() {
    let doc = compose(
        &compose_draft(&["ssot_one_place", "compose_by_topic"], ok_body()),
        &ok_known(),
    )
    .unwrap();
    assert_eq!(doc.id, "how_ssot_works");
    assert_eq!(
        doc.atoms,
        vec!["ssot_one_place".to_string(), "compose_by_topic".to_string()]
    );
    assert_eq!(doc.title, "OpenCanon 如何保证一处事实只记一次");
    assert_eq!(
        doc.body,
        "\
# OpenCanon 如何保证一处事实只记一次

摘要：一处事实只记一次。

按问题组合原子成文。

## 依据

- [一处事实只记录一次，其它文档只引用不复制](../atoms/ssot_one_place.md)
- [拼接：要派生可读文档时按问题召回原子并由 LLM 组合成文，派生文不是真源](../atoms/compose_by_topic.md)
"
    );
}

#[test]
fn escapes_brackets_in_index_titles() {
    let body = "# t\n\nx\n";
    let doc = compose(
        &compose_draft(&["ssot_one_place"], body),
        &known(&[("ssot_one_place", Status::Active, "see [ssot] in title")]),
    )
    .unwrap();
    assert!(doc
        .body
        .contains("- [see \\[ssot\\] in title](../atoms/ssot_one_place.md)\n"));
}

#[test]
fn invalid_slug_fails() {
    let mut input = compose_draft(&["ssot_one_place"], ok_body());
    input.slug = "/bad".into();
    input.atoms = vec!["ssot_one_place".into()];
    input.body = "# t\n\nx\n".into();
    let err = compose(&input, &known(&[("ssot_one_place", Status::Active, "t")])).unwrap_err();
    match err {
        Error::Validation { index, field, .. } => {
            assert_eq!(index, 0);
            assert_eq!(field.as_deref(), Some("slug"));
        }
        other => panic!("unexpected {other:?}"),
    }
}

#[test]
fn empty_atoms_fails() {
    let err = compose(&compose_draft(&[], ok_body()), &ok_known()).unwrap_err();
    assert_eq!(
        err,
        Error::validation(0, Some("atoms".into()), "atoms must be non-empty".into())
    );
}

#[test]
fn duplicate_atoms_fail() {
    let err = compose(
        &compose_draft(&["ssot_one_place", "ssot_one_place"], "# t\n\nx\n"),
        &known(&[("ssot_one_place", Status::Active, "t")]),
    )
    .unwrap_err();
    assert_eq!(
        err,
        Error::validation(0, Some("atoms".into()), "duplicate atom `ssot_one_place`".into())
    );
}

#[test]
fn missing_atom_fails() {
    let err = compose(&compose_draft(&["missing_id"], "# t\n\nx\n"), &vec![]).unwrap_err();
    assert_eq!(
        err,
        Error::validation(0, Some("atoms".into()), "atom `missing_id` not found".into())
    );
}

#[test]
fn draft_atom_fails() {
    let err = compose(
        &compose_draft(&["ssot_one_place"], "# t\n\nx\n"),
        &known(&[("ssot_one_place", Status::Draft, "t")]),
    )
    .unwrap_err();
    assert_eq!(
        err,
        Error::validation(
            0,
            Some("atoms".into()),
            "atom `ssot_one_place` is not active".into()
        )
    );
}

#[test]
fn atom_link_in_body_fails() {
    let body = "\
# t

x [ssot_one_place](../atoms/ssot_one_place.md)
";
    let err = compose(
        &compose_draft(&["ssot_one_place"], body),
        &known(&[("ssot_one_place", Status::Active, "t")]),
    )
    .unwrap_err();
    assert_eq!(
        err,
        Error::validation(0, Some("body".into()), "body must not contain atom links".into())
    );
}

#[test]
fn index_heading_in_body_fails() {
    let body = "\
# t

x

## 依据
";
    let err = compose(
        &compose_draft(&["ssot_one_place"], body),
        &known(&[("ssot_one_place", Status::Active, "t")]),
    )
    .unwrap_err();
    assert_eq!(
        err,
        Error::validation(
            0,
            Some("body".into()),
            "body must not contain a 依据 heading".into()
        )
    );
}

#[test]
fn heading_only_body_fails() {
    let err = compose(
        &compose_draft(&["ssot_one_place"], "# Title\n"),
        &known(&[("ssot_one_place", Status::Active, "t")]),
    )
    .unwrap_err();
    assert_eq!(
        err,
        Error::validation(
            0,
            Some("body".into()),
            "body must have at least one paragraph".into()
        )
    );
}
