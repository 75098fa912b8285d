use sugo::error::{code_for, map_core_error, tool_error_message, CoreError};
use sugo::validate::{IssueCode, Severity, ValidationIssue};

#[test]
fn lock_conflict_message() {
    let e = CoreError::LockConflict { expected: 1, actual: 2 };
    assert_eq!(e.message(), "lock conflict: expected 1, actual 2");
}

#[test]
fn draft_cells_exist_message() {
    let e = CoreError::DraftCellsExist;
    assert_eq!(e.message(), "harness has draft cells");
}

#[test]
fn run_not_running_message() {
    let e = CoreError::RunNotRunning;
    assert_eq!(e.message(), "run is not running");
}

#[test]
fn map_core_error_lock_conflict_is_stable_code() {
    let e = CoreError::LockConflict { expected: 1, actual: 2 };
    assert_eq!(map_core_error(e), "lock_conflict");
}

#[test]
fn map_core_error_other_errors_use_their_message() {
    assert_eq!(map_core_error(CoreError::NotFound("h1".into())), "not found: h1");
    assert_eq!(map_core_error(CoreError::Storage("disk full".into())), "storage error: disk full");
}

#[test]
fn maps_not_found_code() {
    let m = tool_error_message(&CoreError::NotFound("h1".into()));
    assert!(m.contains("not_found"));
    assert!(m.contains("h1"));
}

#[test]
fn maps_lock_conflict_code() {
    let m = tool_error_message(&CoreError::LockConflict { expected: 0, actual: 1 });
    assert!(m.contains("lock_conflict"));
    assert!(m.contains("expected 0"));
    assert!(m.contains("actual 1"));
}

#[test]
fn maps_validation_code() {
    let issues = vec![ValidationIssue {
        severity: Severity::Error,
        code: IssueCode::NoTerminal,
        message: "no terminal cell".into(),
        cell_id: None,
    }];
    let m = tool_error_message(&CoreError::Validation(issues));
    assert!(m.contains("validation_failed"));
}

#[test]
fn maps_storage_code() {
    let m = tool_error_message(&CoreError::Storage("disk full".into()));
    assert!(m.contains("storage_error"));
    assert!(m.contains("disk full"));
}

#[test]
fn tool_error_message_is_code_in_brackets_then_message() {
    assert_eq!(tool_error_message(&CoreError::NotFound("h1".into())), "[not_found] not found: h1");
    assert_eq!(
        tool_error_message(&CoreError::LockConflict { expected: -1, actual: 20 }),
        "[lock_conflict] lock conflict: expected -1, actual 20"
    );
}

#[test]
fn every_error_has_its_code() {
    assert_eq!(code_for(&CoreError::NotFound("x".into())), "not_found");
    assert_eq!(code_for(&CoreError::LockConflict { expected: 0, actual: 1 }), "lock_conflict");
    assert_eq!(code_for(&CoreError::Validation(vec![])), "validation_failed");
    assert_eq!(code_for(&CoreError::DraftCellsExist), "draft_cells_exist");
    assert_eq!(code_for(&CoreError::RunNotRunning), "run_not_running");
    assert_eq!(code_for(&CoreError::ActiveRunExists), "active_run");
    assert_eq!(code_for(&CoreError::Conflict("x".into())), "conflict");
    assert_eq!(code_for(&CoreError::Storage("x".into())), "storage_error");
}

#[test]
fn validation_message_counts_issues() {
    let issues = vec![
        ValidationIssue { severity: Severity::Error, code: IssueCode::NoTerminal, message: "a".into(), cell_id: None },
        ValidationIssue { severity: Severity::Warning, code: IssueCode::HasDraft, message: "b".into(), cell_id: None },
    ];
    assert_eq!(CoreError::Validation(issues).message(), "validation failed with 2 issue(s)");
    assert_eq!(CoreError::ActiveRunExists.message(), "harness has an active run");
    assert_eq!(CoreError::Conflict("dup".into()).message(), "conflict: dup");
}
