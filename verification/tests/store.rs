use canon::store::error::{file_failure, Error as StoreError};
use canon::store::replace::{replace_step, ReplaceAction, ReplaceOutcome, ReplaceState};
use canon::store::io::Store;
use canon::store::layout::{
    atom_backup_path, atom_id_from_filename, atom_path, atom_tmp_path, atoms_dir, doc_path,
    docs_dir, namespace_dir,
};
use canon::store::scalar::{split_frontmatter, yaml_scalar};
use canon::store::serialize::{check_read_id, split_atom_text, to_markdown};
use canon::store::serialize_config::to_yaml;
use canon::store::serialize_doc;
use canon::{Atom, ComposedDoc, Freshness, ImplPaths, Status};

fn spec_atom() -> Atom<String> {
    Atom {
        id: "durability_daily_restore".into(),
        status: Status::Draft,
        title: "禁军突围装备耐久恢复机制".into(),
        tags: vec!["armybreak".into(), "durability".into()],
        freshness: Freshness {
            impl_path: ImplPaths::new(vec!["gamesvr/DurabilityManager.java".to_string()]),
            ..Freshness::default()
        },
        body: "正文：只描述一个事实。".into(),
    }
}

#[test]
fn spec_example_key_order_and_kebab_case() {
    let md = to_markdown(&spec_atom());
    assert_eq!(
        md,
        "\
---
id: durability_daily_restore
status: draft
title: 禁军突围装备耐久恢复机制
tags:
  - armybreak
  - durability
freshness:
  impl-path: gamesvr/DurabilityManager.java
---
正文：只描述一个事实。
"
    );
    let (yaml, body) = split_atom_text(&spec_atom().id, &md).unwrap();
    assert_eq!(body, spec_atom().body);
    let fm: serde_yaml::Value = serde_yaml::from_str(&yaml).unwrap();
    assert_eq!(fm["id"].as_str(), Some("durability_daily_restore"));
    assert_eq!(fm["status"].as_str(), Some("draft"));
    assert_eq!(fm["title"].as_str(), Some("禁军突围装备耐久恢复机制"));
    assert_eq!(fm["tags"][1].as_str(), Some("durability"));
    assert_eq!(
        fm["freshness"]["impl-path"].as_str(),
        Some("gamesvr/DurabilityManager.java")
    );
}

#[test]
fn empty_tags_and_freshness_use_flow_empty() {
    let atom: Atom<String> = Atom {
        id: "durability_cap_from_table".into(),
        status: Status::Active,
        title: "装备耐久从实现表读取上限".into(),
        tags: vec![],
        freshness: Freshness::default(),
        body: "耐久上限以配表为准。".into(),
    };
    let md = to_markdown(&atom);
    assert!(md.contains("tags: []\n"));
    assert!(md.contains("freshness: {}\n"));
    let (yaml, body) = split_atom_text(&atom.id, &md).unwrap();
    assert_eq!(body, atom.body);
    let fm: serde_yaml::Value = serde_yaml::from_str(&yaml).unwrap();
    assert_eq!(fm["tags"].as_sequence().map(|s| s.len()), Some(0));
    assert_eq!(fm["freshness"].as_mapping().map(|m| m.len()), Some(0));
}

#[test]
fn freshness_subkeys_ordered_last_verified_impl_path_score() {
    let atom: Atom<String> = Atom {
        id: "x_sample".into(),
        status: Status::Active,
        title: "t".into(),
        tags: vec![],
        freshness: Freshness {
            last_verified: Some("2026-09-01 12:15:00".into()),
            impl_path: ImplPaths::new(vec!["gamesvr/DurabilityManager.java".to_string()]),
            score: Some("1".into()),
        },
        body: "b".into(),
    };
    let md = to_markdown(&atom);
    let freshness = md.split("freshness:\n").nth(1).unwrap();
    let lv = freshness.find("  last-verified:").unwrap();
    let ip = freshness.find("  impl-path:").unwrap();
    let sc = freshness.find("  score: 1\n").unwrap();
    assert!(lv < ip && ip < sc);
    assert!(!md.contains("score: 1.0"));
}

#[test]
fn several_impl_paths_are_a_block_list() {
    let atom: Atom<String> = Atom {
        id: "x".into(),
        status: Status::Draft,
        title: "t".into(),
        tags: vec![],
        freshness: Freshness {
            impl_path: ImplPaths::new(vec!["a.rs".to_string(), "b.rs".to_string()]),
            ..Freshness::default()
        },
        body: "b\n".into(),
    };
    assert_eq!(
        to_markdown(&atom),
        "---\nid: x\nstatus: draft\ntitle: t\ntags: []\nfreshness:\n  impl-path:\n    - a.rs\n    - b.rs\n---\nb\n"
    );
}

#[test]
fn key_order_is_id_title_atoms() {
    let doc = ComposedDoc {
        id: "how_ssot_works".into(),
        title: "OpenCanon 如何保证一处事实只记一次".into(),
        atoms: vec!["ssot_one_place".into(), "compose_by_topic".into()],
        body: "# OpenCanon 如何保证一处事实只记一次\n\n摘要。 [ssot_one_place](../atoms/ssot_one_place.md)"
            .into(),
    };
    let md = serialize_doc::to_markdown(&doc);
    assert_eq!(
        md,
        "\
---
id: how_ssot_works
title: OpenCanon 如何保证一处事实只记一次
atoms:
  - ssot_one_place
  - compose_by_topic
---
# OpenCanon 如何保证一处事实只记一次

摘要。 [ssot_one_place](../atoms/ssot_one_place.md)
"
    );
    let (yaml, body) = split_frontmatter(&md).unwrap();
    assert_eq!(body, doc.body);
    let fm: serde_yaml::Value = serde_yaml::from_str(&yaml).unwrap();
    assert_eq!(fm["atoms"][0].as_str(), Some("ssot_one_place"));
}

#[test]
fn empty_is_flow_empty_object() {
    assert_eq!(to_yaml(&[]), "{}\n");
}

#[test]
fn writes_locales_list() {
    assert_eq!(
        to_yaml(&["en".into(), "zh-Hans".into()]),
        "locales:\n  - en\n  - zh-Hans\n"
    );
}

#[test]
fn scalars_are_quoted_only_when_needed() {
    assert_eq!(yaml_scalar("plain"), "plain");
    assert_eq!(yaml_scalar(""), "\"\"");
    assert_eq!(yaml_scalar("yes"), "\"yes\"");
    assert_eq!(yaml_scalar("1.5e3"), "\"1.5e3\"");
    assert_eq!(yaml_scalar("a: b"), "\"a: b\"");
    assert_eq!(yaml_scalar("-dash"), "\"-dash\"");
    assert_eq!(yaml_scalar("say \"hi\"\n"), "\"say \\\"hi\\\"\\n\"");
    assert_eq!(yaml_scalar("trailing "), "\"trailing \"");
}

#[test]
fn frontmatter_needs_both_delimiters_and_drops_one_newline() {
    assert_eq!(
        split_frontmatter("---\nid: a\n---\nbody\n"),
        Some(("id: a".to_string(), "body".to_string()))
    );
    assert_eq!(
        split_frontmatter("\u{feff}---\r\nid: a\n---\r\nbody\r\n"),
        Some(("id: a".to_string(), "body".to_string()))
    );
    assert_eq!(split_frontmatter("id: a\n---\nbody"), None);
    assert_eq!(split_frontmatter("---\nid: a\nbody"), None);
}

#[test]
fn missing_frontmatter_is_a_parse_error_naming_the_atom() {
    match split_atom_text("a_b", "no front matter") {
        Err(e @ StoreError::Parse { .. }) => {
            assert_eq!(
                e.describe(),
                "failed to parse atom `a_b`: missing YAML frontmatter delimited by ---"
            );
        }
        other => panic!("unexpected {other:?}"),
    }
}

#[test]
fn read_atom_must_carry_the_file_id() {
    assert!(check_read_id("durability_daily_restore", spec_atom()).is_ok());
    match check_read_id("other_id", spec_atom()) {
        Err(e @ StoreError::IdMismatch { .. }) => {
            assert_eq!(
                e.describe(),
                "atom id mismatch: path `other_id` vs frontmatter `durability_daily_restore`"
            );
        }
        other => panic!("unexpected {other:?}"),
    }
}

#[test]
fn not_found_message() {
    let e = StoreError::NotFound { id: "missing".into() };
    assert_eq!(e.describe(), "atom `missing` not found");
}

#[test]
fn layout_paths() {
    assert_eq!(namespace_dir("/p"), "/p/opencanon");
    assert_eq!(atoms_dir("/p/"), "/p/opencanon/atoms");
    assert_eq!(atom_path("/p", "a_b"), "/p/opencanon/atoms/a_b.md");
    assert_eq!(docs_dir("/p"), "/p/opencanon/docs");
    assert_eq!(doc_path("/p", "d"), "/p/opencanon/docs/d.md");
    assert_eq!(atom_tmp_path("/p", "a_b"), "/p/opencanon/atoms/.a_b.md.tmp");
    assert_eq!(atom_backup_path("/p", "a_b"), "/p/opencanon/atoms/a_b.md.bak");
    assert_eq!(namespace_dir(""), "opencanon");
    assert_eq!(atom_path("/p", "/x"), "/x.md");
    assert_eq!(doc_path("/p", "/abs/d"), "/abs/d.md");
}

#[test]
fn atom_ids_come_from_visible_md_files() {
    assert_eq!(atom_id_from_filename("a_b.md"), Some("a_b".to_string()));
    assert_eq!(atom_id_from_filename(".a_b.md.tmp"), None);
    assert_eq!(atom_id_from_filename(".hidden.md"), None);
    assert_eq!(atom_id_from_filename(".md"), None);
    assert_eq!(atom_id_from_filename("a_b.md.bak"), None);
    assert_eq!(atom_id_from_filename("notes.txt"), None);
}

#[test]
fn store_keeps_its_root() {
    let store = Store::open("/srv/project".to_string());
    assert_eq!(store.root(), "/srv/project");
}

#[test]
fn missing_files_are_not_found_and_other_failures_pass_through() {
    match file_failure("gone", true, std::io::Error::new(std::io::ErrorKind::NotFound, "x")) {
        StoreError::NotFound { id } => assert_eq!(id, "gone"),
        other => panic!("unexpected {other:?}"),
    }
    match file_failure("a", false, std::io::Error::new(std::io::ErrorKind::Other, "denied")) {
        StoreError::Io(e) => assert_eq!(e.to_string(), "denied"),
        other => panic!("unexpected {other:?}"),
    }
}

fn trace(events: &[bool]) -> Vec<ReplaceAction> {
    let mut state = ReplaceState::Start;
    let mut out = Vec::new();
    for e in events {
        let (next, action) = replace_step(state, *e);
        state = next;
        out.push(action);
    }
    out
}

#[test]
fn replacement_steps_for_each_outcome() {
    assert_eq!(
        trace(&[true, true, true, true]),
        vec![
            ReplaceAction::BackUp,
            ReplaceAction::MoveIn,
            ReplaceAction::RemoveBackup,
            ReplaceAction::Finish(ReplaceOutcome::Replaced),
        ]
    );
    assert_eq!(
        trace(&[true, false]),
        vec![
            ReplaceAction::BackUp,
            ReplaceAction::Finish(ReplaceOutcome::BackUpFailed),
        ]
    );
    assert_eq!(
        trace(&[true, true, false, false, true]),
        vec![
            ReplaceAction::BackUp,
            ReplaceAction::MoveIn,
            ReplaceAction::Restore,
            ReplaceAction::RemoveTemporary,
            ReplaceAction::Finish(ReplaceOutcome::MoveInFailed),
        ]
    );
    assert_eq!(
        trace(&[false, true]),
        vec![
            ReplaceAction::MoveIn,
            ReplaceAction::Finish(ReplaceOutcome::Replaced),
        ]
    );
    assert_eq!(
        trace(&[false, false, true]),
        vec![
            ReplaceAction::MoveIn,
            ReplaceAction::RemoveTemporary,
            ReplaceAction::Finish(ReplaceOutcome::MoveInFailed),
        ]
    );
}
