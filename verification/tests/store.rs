use sugo::content::content_hash;
use sugo::domain::{BoardVersion, Folder, Harness};
use sugo::error::CoreError;
use sugo::store::{HarnessRepository, MemoryRepository};
use sugo::versioning::{commit_version, default_board, PendingVersion};

fn head(id: &str, lock: i64) -> (Harness, BoardVersion) {
    let def = default_board();
    (
        Harness {
            id: id.into(),
            name: format!("name-{id}"),
            description: None,
            folder_id: None,
            current_version: 1,
            has_draft: false,
            lock_version: lock,
            created_at: "t".into(),
            updated_at: "t".into(),
        },
        BoardVersion { id: format!("v-{id}"), harness_id: id.into(), version_no: 1, content_hash: content_hash(&def), definition: def, created_at: "t".into() },
    )
}

#[test]
fn create_then_get_reads_back() {
    let mut repo = MemoryRepository::new();
    let (h, v) = head("h1", 0);
    repo.create(&h, &v).unwrap();
    let (h, v) = repo.get("h1").unwrap().unwrap();
    assert_eq!(h.name, "name-h1");
    assert_eq!(v.version_no, 1);
    assert!(repo.get("nope").unwrap().is_none());
}

#[test]
fn create_rejects_duplicates() {
    let mut repo = MemoryRepository::new();
    let (h, v) = head("h1", 0);
    repo.create(&h, &v).unwrap();
    let (h, v) = head("h1", 0);
    assert!(matches!(repo.create(&h, &v), Err(CoreError::Storage(ref m)) if m == "duplicate harness id: h1"));
    let (mut h, v) = head("h1", 0);
    h.id = "h2".into();
    assert!(matches!(repo.create(&h, &v), Err(CoreError::Storage(ref m)) if m == "duplicate version_no 1 for harness h1"));
}

#[test]
fn append_moves_head_and_keeps_old_versions() {
    let mut repo = MemoryRepository::new();
    let (h, v) = head("h1", 0);
    repo.create(&h, &v).unwrap();
    let (h, v) = repo.get("h1").unwrap().unwrap();
    let mut def = v.definition;
    def.cells[0].prompt = "new".into();
    let p = PendingVersion { harness: h, definition: def, version_no: 2, lock_version: 1 };
    let (h2, v2) = commit_version(p, "v2".into(), "t2".into());
    repo.append_version(&h2, &v2, 0).unwrap();
    let (h, v) = repo.get("h1").unwrap().unwrap();
    assert_eq!(h.current_version, 2);
    assert_eq!(h.lock_version, 1);
    assert_eq!(v.definition.cells[0].prompt, "new");
    assert_eq!(repo.get_version("h1", 1).unwrap().unwrap().definition.cells[0].prompt, "");
    assert!(repo.get_version("h1", 3).unwrap().is_none());
}

#[test]
fn append_with_stale_lock_conflicts_and_writes_nothing() {
    let mut repo = MemoryRepository::new();
    let (h, v) = head("h1", 4);
    repo.create(&h, &v).unwrap();
    let (mut h, mut v) = head("h1", 5);
    h.current_version = 2;
    v.version_no = 2;
    assert!(matches!(repo.append_version(&h, &v, 3), Err(CoreError::LockConflict { expected: 3, actual: 4 })));
    let (h, _) = repo.get("h1").unwrap().unwrap();
    assert_eq!(h.current_version, 1);
    assert!(repo.get_version("h1", 2).unwrap().is_none());
    let (h, v) = head("zz", 0);
    assert!(matches!(repo.append_version(&h, &v, 0), Err(CoreError::NotFound(ref s)) if s == "zz"));
}

#[test]
fn append_refuses_rewriting_a_version() {
    let mut repo = MemoryRepository::new();
    let (h, v) = head("h1", 0);
    repo.create(&h, &v).unwrap();
    let (h, v) = head("h1", 0);
    assert!(matches!(repo.append_version(&h, &v, 0), Err(CoreError::Storage(_))));
}

#[test]
fn trash_restore_and_listings() {
    let mut repo = MemoryRepository::new();
    for id in ["h1", "h2"] {
        let (h, v) = head(id, 0);
        repo.create(&h, &v).unwrap();
    }
    repo.trash_harness("h1", "2026-01-01T00:00:00+09:00").unwrap();
    let live: Vec<String> = repo.list().unwrap().into_iter().map(|h| h.id).collect();
    assert_eq!(live, vec!["h2".to_string()]);
    assert_eq!(
        repo.list_trash().unwrap(),
        vec![("h1".to_string(), "name-h1".to_string(), "2026-01-01T00:00:00+09:00".to_string())]
    );
    assert!(matches!(repo.restore_harness("h2"), Err(CoreError::NotFound(_))));
    repo.restore_harness("h1").unwrap();
    assert_eq!(repo.list().unwrap().len(), 2);
    assert!(repo.list_trash().unwrap().is_empty());
    assert!(matches!(repo.trash_harness("zz", "t"), Err(CoreError::NotFound(_))));
}

#[test]
fn purge_forgets_head_versions_and_trash() {
    let mut repo = MemoryRepository::new();
    for id in ["h1", "h2"] {
        let (h, v) = head(id, 0);
        repo.create(&h, &v).unwrap();
    }
    repo.trash_harness("h1", "t").unwrap();
    repo.purge_harness("h1").unwrap();
    assert!(repo.get("h1").unwrap().is_none());
    assert!(repo.get_version("h1", 1).unwrap().is_none());
    assert!(repo.list_trash().unwrap().is_empty());
    assert!(repo.get("h2").unwrap().is_some());
    assert!(matches!(repo.purge_harness("h1"), Err(CoreError::NotFound(_))));
}

#[test]
fn description_is_set_and_cleared() {
    let mut repo = MemoryRepository::new();
    let (h, v) = head("h1", 0);
    repo.create(&h, &v).unwrap();
    repo.set_description("h1", Some("about")).unwrap();
    assert_eq!(repo.get("h1").unwrap().unwrap().0.description.as_deref(), Some("about"));
    repo.set_description("h1", None).unwrap();
    assert!(repo.get("h1").unwrap().unwrap().0.description.is_none());
    assert!(matches!(repo.set_description("zz", None), Err(CoreError::NotFound(_))));
}

fn folder(id: &str, name: &str, order: i64) -> Folder {
    Folder {
        id: id.into(),
        name: name.into(),
        parent_id: None,
        sort_order: order,
        created_at: "2026-08-26T00:00:00+09:00".into(),
        updated_at: "2026-08-26T00:00:00+09:00".into(),
    }
}

#[test]
fn create_and_list_folders() {
    let mut repo = MemoryRepository::new();
    repo.create_folder(&folder("f1", "開発", 0)).unwrap();
    let listed = repo.list_folders().unwrap();
    assert_eq!(listed.len(), 1);
    assert_eq!(listed[0].0.name, "開発");
    assert_eq!(listed[0].1, 0);
}

#[test]
fn create_folder_rejects_a_taken_id() {
    let mut repo = MemoryRepository::new();
    repo.create_folder(&folder("f1", "開発", 0)).unwrap();
    match repo.create_folder(&folder("f1", "other", 1)) {
        Err(CoreError::Storage(m)) => assert_eq!(m, "duplicate folder id: f1"),
        other => panic!("expected a storage error, got {other:?}"),
    }
}

#[test]
fn delete_folder_moves_harnesses_to_uncategorized() {
    let mut repo = MemoryRepository::new();
    repo.create_folder(&folder("f1", "開発", 0)).unwrap();
    let (h, v) = head("h1", 0);
    repo.create(&h, &v).unwrap();
    repo.move_harness_to_folder("h1", Some("f1")).unwrap();
    assert_eq!(repo.list_folders().unwrap()[0].1, 1);
    repo.delete_folder("f1").unwrap();
    assert!(repo.list_folders().unwrap().is_empty());
    let listed = repo.list().unwrap();
    assert_eq!(listed.len(), 1);
    assert!(listed[0].folder_id.is_none());
}

#[test]
fn delete_folder_nulls_folder_id_of_trashed_harness() {
    let mut repo = MemoryRepository::new();
    repo.create_folder(&folder("f1", "開発", 0)).unwrap();
    let (h, v) = head("h1", 0);
    repo.create(&h, &v).unwrap();
    repo.move_harness_to_folder("h1", Some("f1")).unwrap();
    repo.trash_harness("h1", "2026-08-26T10:00:00+09:00").unwrap();
    let (fetched, _) = repo.get("h1").unwrap().expect("trashed harness is still fetchable");
    assert_eq!(fetched.folder_id.as_deref(), Some("f1"));
    assert_eq!(repo.list_folders().unwrap()[0].1, 0, "a trashed harness is not counted");
    repo.delete_folder("f1").unwrap();
    let (fetched, _) = repo.get("h1").unwrap().expect("still fetchable after delete_folder");
    assert!(fetched.folder_id.is_none());
}

#[test]
fn rename_folder_unknown_id_is_not_found() {
    let mut repo = MemoryRepository::new();
    let err = repo.rename_folder("ghost", "新名称", "2026-08-26T00:00:00+09:00").unwrap_err();
    assert!(matches!(err, CoreError::NotFound(_)));
}

#[test]
fn rename_folder_sets_name_and_stamp() {
    let mut repo = MemoryRepository::new();
    repo.create_folder(&folder("f1", "開発", 0)).unwrap();
    repo.rename_folder("f1", "運用", "2026-08-27T00:00:00+09:00").unwrap();
    let listed = repo.list_folders().unwrap();
    assert_eq!(listed[0].0.name, "運用");
    assert_eq!(listed[0].0.updated_at, "2026-08-27T00:00:00+09:00");
    assert_eq!(listed[0].0.created_at, "2026-08-26T00:00:00+09:00");
}

#[test]
fn move_harness_unknown_id_is_not_found() {
    let mut repo = MemoryRepository::new();
    let err = repo.move_harness_to_folder("ghost", None).unwrap_err();
    assert!(matches!(err, CoreError::NotFound(_)));
}

#[test]
fn move_harness_into_unknown_folder_is_not_found() {
    let mut repo = MemoryRepository::new();
    let (h, v) = head("h1", 0);
    repo.create(&h, &v).unwrap();
    match repo.move_harness_to_folder("h1", Some("nope")) {
        Err(CoreError::NotFound(id)) => assert_eq!(id, "nope"),
        other => panic!("expected not found, got {other:?}"),
    }
}

#[test]
fn folders_are_listed_by_sort_order_then_creation_time() {
    let mut repo = MemoryRepository::new();
    let mut late = folder("f-late", "b", 1);
    late.created_at = "2026-08-27T00:00:00+09:00".into();
    repo.create_folder(&late).unwrap();
    repo.create_folder(&folder("f-early", "a", 1)).unwrap();
    repo.create_folder(&folder("f-first", "c", 0)).unwrap();
    let ids: Vec<String> = repo.list_folders().unwrap().into_iter().map(|(f, _)| f.id).collect();
    assert_eq!(ids, vec!["f-first", "f-early", "f-late"]);
}

#[test]
fn purge_trash_before_deletes_only_what_was_trashed_earlier() {
    let mut repo = MemoryRepository::new();
    for id in ["old", "new", "live"] {
        let (h, v) = head(id, 0);
        repo.create(&h, &v).unwrap();
    }
    repo.trash_harness("old", "2026-01-01T00:00:00+09:00").unwrap();
    repo.trash_harness("new", "2026-03-01T00:00:00+09:00").unwrap();
    repo.purge_trash_before("2026-02-01T00:00:00+09:00").unwrap();
    assert!(repo.get("old").unwrap().is_none());
    assert!(repo.get_version("old", 1).unwrap().is_none());
    assert!(repo.get("new").unwrap().is_some());
    assert!(repo.get("live").unwrap().is_some());
    let trash: Vec<String> = repo.list_trash().unwrap().into_iter().map(|t| t.0).collect();
    assert_eq!(trash, vec!["new"]);
}
