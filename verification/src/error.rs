//! The typed error returned by the core operations, its human-readable
//! message and the stable machine-readable code callers branch on.
use crate::text::{decimal, i64_to_decimal, signed_decimal, u64_to_decimal};
use crate::validate::{issues_view, IssueView, ValidationIssue};
use vstd::prelude::*;
use vstd::string::*;

verus! {

/// Errors a core operation can return.
#[derive(Debug)]
pub enum CoreError {
    /// A referenced harness, board version, run, folder or cell was not found.
    NotFound(String),
    /// Optimistic-lock conflict: the caller's `expected` lock did not match
    /// the stored `actual` one.
    LockConflict { expected: i64, actual: i64 },
    /// Validation failed; carries the offending issues.
    Validation(Vec<ValidationIssue>),
    /// The harness has draft cells, so a run cannot start.
    DraftCellsExist,
    /// The run is not in the `Running` state.
    RunNotRunning,
    /// The harness has a live run, so it cannot be moved to the trash.
    ActiveRunExists,
    /// The request collides with existing data (such as a folder name).
    Conflict(String),
    /// A persistence-layer failure surfaced from an adapter.
    Storage(String),
}

/// Mathematical view of a [`CoreError`].
pub enum ErrorView {
    NotFound(Seq<char>),
    LockConflict { expected: i64, actual: i64 },
    Validation(Seq<IssueView>),
    DraftCellsExist,
    RunNotRunning,
    ActiveRunExists,
    Conflict(Seq<char>),
    Storage(Seq<char>),
}

impl View for CoreError {
    type V = ErrorView;

    open spec fn view(&self) -> ErrorView {
        match self {
            CoreError::NotFound(s) => ErrorView::NotFound(s@),
            CoreError::LockConflict { expected, actual } => ErrorView::LockConflict {
                expected: *expected,
                actual: *actual,
            },
            CoreError::Validation(v) => ErrorView::Validation(issues_view(v@)),
            CoreError::DraftCellsExist => ErrorView::DraftCellsExist,
            CoreError::RunNotRunning => ErrorView::RunNotRunning,
            CoreError::ActiveRunExists => ErrorView::ActiveRunExists,
            CoreError::Conflict(s) => ErrorView::Conflict(s@),
            CoreError::Storage(s) => ErrorView::Storage(s@),
        }
    }
}

/// The human-readable message of an error.
pub open spec fn error_message(e: ErrorView) -> Seq<char> {
    match e {
        ErrorView::NotFound(s) => "not found: "@ + s,
        ErrorView::LockConflict { expected, actual } => "lock conflict: expected "@ + signed_decimal(
            expected as int,
        ) + ", actual "@ + signed_decimal(actual as int),
        ErrorView::Validation(v) => "validation failed with "@ + decimal(v.len()) + " issue(s)"@,
        ErrorView::DraftCellsExist => "harness has draft cells"@,
        ErrorView::RunNotRunning => "run is not running"@,
        ErrorView::ActiveRunExists => "harness has an active run"@,
        ErrorView::Conflict(s) => "conflict: "@ + s,
        ErrorView::Storage(s) => "storage error: "@ + s,
    }
}

/// The stable machine-readable code of an error.
pub open spec fn error_code(e: ErrorView) -> Seq<char> {
    match e {
        ErrorView::NotFound(_) => "not_found"@,
        ErrorView::LockConflict { .. } => "lock_conflict"@,
        ErrorView::Validation(_) => "validation_failed"@,
        ErrorView::DraftCellsExist => "draft_cells_exist"@,
        ErrorView::RunNotRunning => "run_not_running"@,
        ErrorView::ActiveRunExists => "active_run"@,
        ErrorView::Conflict(_) => "conflict"@,
        ErrorView::Storage(_) => "storage_error"@,
    }
}

/// The text a GUI caller receives: the stable code `lock_conflict` for a lock
/// conflict, the message otherwise.
pub open spec fn gui_error_text(e: ErrorView) -> Seq<char> {
    match e {
        ErrorView::LockConflict { .. } => "lock_conflict"@,
        _ => error_message(e),
    }
}

fn joined(a: &str, b: &String) -> (r: String)
    ensures
        r@ == a@ + b@,
{
    let mut r = String::from_str(a);
    r.append(b.as_str());
    r
}

impl CoreError {
    /// The human-readable message of this error.
    pub fn message(&self) -> (r: String)
        ensures
            r@ == error_message(self@),
    {
        match self {
            CoreError::NotFound(s) => joined("not found: ", s),
            CoreError::LockConflict { expected, actual } => {
                let mut r = String::from_str("lock conflict: expected ");
                let e = i64_to_decimal(*expected);
                r.append(e.as_str());
                r.append(", actual ");
                let a = i64_to_decimal(*actual);
                r.append(a.as_str());
                r
            },
            CoreError::Validation(v) => {
                let mut r = String::from_str("validation failed with ");
                let n = u64_to_decimal(v.len() as u64);
                r.append(n.as_str());
                r.append(" issue(s)");
                r
            },
            CoreError::DraftCellsExist => String::from_str("harness has draft cells"),
            CoreError::RunNotRunning => String::from_str("run is not running"),
            CoreError::ActiveRunExists => String::from_str("harness has an active run"),
            CoreError::Conflict(s) => joined("conflict: ", s),
            CoreError::Storage(s) => joined("storage error: ", s),
        }
    }

    /// The stable machine-readable code of this error.
    pub fn code(&self) -> (r: &'static str)
        ensures
            r@ == error_code(self@),
    {
        match self {
            CoreError::NotFound(_) => "not_found",
            CoreError::LockConflict { .. } => "lock_conflict",
            CoreError::Validation(_) => "validation_failed",
            CoreError::DraftCellsExist => "draft_cells_exist",
            CoreError::RunNotRunning => "run_not_running",
            CoreError::ActiveRunExists => "active_run",
            CoreError::Conflict(_) => "conflict",
            CoreError::Storage(_) => "storage_error",
        }
    }
}

/// Maps an error to the text the GUI branches on: `lock_conflict` for a lock
/// conflict, the error's message for everything else.
pub fn map_core_error(e: CoreError) -> (r: String)
    ensures
        r@ == gui_error_text(e@),
{
    match e {
        CoreError::LockConflict { .. } => String::from_str("lock_conflict"),
        other => other.message(),
    }
}

/// Whether `r` is the outcome `s` describes: the same error, or a success
/// whose value has the described view.
pub open spec fn outcome_is<T: View>(r: Result<T, CoreError>, s: Result<T::V, ErrorView>) -> bool {
    match s {
        Ok(v) => r matches Ok(x) && x@ == v,
        Err(e) => r matches Err(x) && x@ == e,
    }
}

/// The stable code reported for an error at the tool boundary.
pub fn code_for(e: &CoreError) -> (r: &'static str)
    ensures
        r@ == error_code(e@),
{
    e.code()
}

/// The message of a tool error: the code in square brackets, a space, then
/// the human-readable message.
pub open spec fn tool_error_text(e: ErrorView) -> Seq<char> {
    "["@ + error_code(e) + "] "@ + error_message(e)
}

/// Formats an error for the tool boundary as `[<code>] <message>`.
pub fn tool_error_message(e: &CoreError) -> (r: String)
    ensures
        r@ == tool_error_text(e@),
{
    let mut r = String::from_str("[");
    r.append(code_for(e));
    r.append("] ");
    let m = e.message();
    r.append(m.as_str());
    r
}

/// A not-found error for `id`.
pub fn not_found(id: &String) -> (r: CoreError)
    ensures
        r@ == ErrorView::NotFound(id@),
{
    CoreError::NotFound(id.clone())
}

} // verus!
