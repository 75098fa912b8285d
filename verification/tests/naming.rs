use sugo::domain::Folder;
use sugo::error::CoreError;
use sugo::folder::{build_folder, check_create_folder, check_rename_folder, find_folder_for_delete};
use sugo::names::{normalize_name, prepare_rename_harness, resolve_unique_name, MAX_HARNESS_NAME_CHARS};

fn names(v: &[&str]) -> Vec<String> {
    v.iter().map(|s| s.to_string()).collect()
}

#[test]
fn returns_desired_when_no_conflict() {
    assert_eq!(resolve_unique_name(&names(&["alpha"]), "beta"), "beta");
}

#[test]
fn appends_2_on_conflict() {
    assert_eq!(resolve_unique_name(&names(&["alpha"]), "alpha"), "alpha (2)");
}

#[test]
fn skips_to_3_when_2_is_taken() {
    let existing = names(&["alpha", "alpha (2)"]);
    assert_eq!(resolve_unique_name(&existing, "alpha"), "alpha (3)");
}

#[test]
fn fills_the_smallest_gap_in_the_sequence() {
    let existing = names(&["alpha", "alpha (3)", "alpha (4)"]);
    assert_eq!(resolve_unique_name(&existing, "alpha"), "alpha (2)");
}

#[test]
fn already_numbered_name_is_kept_when_free() {
    assert_eq!(resolve_unique_name(&names(&["alpha"]), "alpha (2)"), "alpha (2)");
}

#[test]
fn normalize_trims_surrounding_whitespace() {
    assert_eq!(normalize_name("  alpha  ").unwrap(), "alpha");
}

#[test]
fn normalize_rejects_empty_name() {
    let err = normalize_name("   ").unwrap_err();
    assert!(matches!(err, CoreError::Validation(_)));
}

#[test]
fn normalize_rejects_too_long_name() {
    let long = "あ".repeat(MAX_HARNESS_NAME_CHARS + 1);
    let err = normalize_name(&long).unwrap_err();
    assert!(matches!(err, CoreError::Validation(_)));
}

#[test]
fn normalize_accepts_exactly_max_chars() {
    let exact = "あ".repeat(MAX_HARNESS_NAME_CHARS);
    assert_eq!(normalize_name(&exact).unwrap(), exact);
}

#[test]
fn normalize_errors_carry_the_japanese_messages() {
    match normalize_name("").unwrap_err() {
        CoreError::Validation(v) => {
            assert_eq!(v.len(), 1);
            assert_eq!(v[0].message, "ハーネス名を入力してください");
        }
        other => panic!("unexpected {:?}", other),
    }
    match sugo::folder::normalize_name(&"x".repeat(65)).unwrap_err() {
        CoreError::Validation(v) => assert_eq!(v[0].message, "フォルダ名は64文字以内にしてください"),
        other => panic!("unexpected {:?}", other),
    }
}

#[test]
fn resolved_name_is_never_taken() {
    let existing = names(&["a", "a (2)", "a (3)", "b"]);
    let n = resolve_unique_name(&existing, "a");
    assert_eq!(n, "a (4)");
    assert!(!existing.contains(&n));
}

#[test]
fn renaming_to_its_own_name_does_not_add_a_number() {
    // the other harnesses' names are the ones that count
    assert_eq!(prepare_rename_harness(true, &names(&["beta"]), "h1", "alpha").unwrap(), "alpha");
    assert_eq!(prepare_rename_harness(true, &names(&["alpha"]), "h2", "  alpha ").unwrap(), "alpha (2)");
}

#[test]
fn renaming_a_missing_harness_is_not_found() {
    let err = prepare_rename_harness(false, &[], "nope", "x").unwrap_err();
    assert!(matches!(err, CoreError::NotFound(ref s) if s == "nope"));
}

fn folder(id: &str, name: &str, order: i64) -> Folder {
    Folder {
        id: id.into(),
        name: name.into(),
        parent_id: None,
        sort_order: order,
        created_at: "2026-08-26T00:00:00+09:00".into(),
        updated_at: "2026-08-26T00:00:00+09:00".into(),
    }
}

#[test]
fn folder_is_flat_by_default() {
    let f = folder("f1", "開発", 0);
    assert!(f.parent_id.is_none());
    assert_eq!(f.name, "開発");
}

#[test]
fn creating_a_folder_with_a_taken_name_conflicts() {
    let existing = vec![(folder("f1", "開発", 0), 2)];
    let err = check_create_folder(&existing, " 開発 ").unwrap_err();
    assert!(matches!(err, CoreError::Conflict(ref m) if m == "フォルダ「開発」は既に存在します"));
    assert_eq!(check_create_folder(&existing, " 運用 ").unwrap(), "運用");
}

#[test]
fn new_folders_are_numbered_in_creation_order() {
    let f = build_folder("運用".into(), "f9".into(), "t".into(), 3);
    assert_eq!(f.sort_order, 3);
    assert_eq!(f.id, "f9");
    assert!(f.parent_id.is_none());
    assert_eq!(f.created_at, "t");
    assert_eq!(f.updated_at, "t");
}

#[test]
fn renaming_a_folder_checks_other_folders_only() {
    let existing = vec![(folder("f1", "a", 0), 0), (folder("f2", "b", 1), 0)];
    assert_eq!(check_rename_folder(&existing, "f1", " a ").unwrap(), "a");
    assert!(matches!(check_rename_folder(&existing, "f1", "b").unwrap_err(), CoreError::Conflict(_)));
    assert!(matches!(check_rename_folder(&existing, "f3", "c").unwrap_err(), CoreError::NotFound(_)));
}

#[test]
fn deleting_a_folder_reports_its_name_and_harness_count() {
    let existing = vec![(folder("f1", "a", 0), 4)];
    assert_eq!(find_folder_for_delete(&existing, "f1").unwrap(), ("a".to_string(), 4));
    assert!(matches!(find_folder_for_delete(&existing, "zz").unwrap_err(), CoreError::NotFound(_)));
}
