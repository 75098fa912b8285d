//! The shapes the board canvas receives: harness lists and details, edit
//! results, active runs and trash entries.
use vstd::prelude::*;

verus! {

#[derive(Debug)]
pub struct HarnessSummaryDto {
    pub harness_id: String,
    pub name: String,
    pub current_version: i64,
    pub has_draft: bool,
    pub folder_id: Option<String>,
    pub folder_name: Option<String>,
}

#[derive(Debug)]
pub struct FolderDto {
    pub folder_id: String,
    pub name: String,
    pub harness_count: i64,
}

#[derive(Debug)]
pub struct DeleteFolderResultDto {
    pub name: String,
    pub moved_to_uncategorized: i64,
}

#[derive(Debug)]
pub struct CellDto {
    pub id: String,
    pub name: String,
    pub prompt: String,
    pub status: String,
    pub terminal: bool,
    pub memo: String,
}

#[derive(Debug)]
pub struct EdgeDto {
    pub from: String,
    pub to: String,
    pub label: String,
    pub guard: Option<String>,
}

#[derive(Debug)]
pub struct DraftCellDto {
    pub cell_id: String,
    pub name: String,
    pub memo: String,
}

#[derive(Debug)]
pub struct HarnessDetailDto {
    pub harness_id: String,
    pub name: String,
    pub current_version: i64,
    pub lock_version: i64,
    pub has_draft: bool,
    /// The id of the start cell (the board's `start`).
    pub start_cell_id: String,
    pub cells: Vec<CellDto>,
    pub edges: Vec<EdgeDto>,
    pub draft_diff: Vec<DraftCellDto>,
}

#[derive(Debug)]
pub struct CreateHarnessResultDto {
    pub harness_id: String,
}

#[derive(Debug)]
pub struct AddCellResultDto {
    pub new_version: i64,
    pub lock_version: i64,
}

#[derive(Debug)]
pub struct RenameCellResultDto {
    pub new_version: i64,
    pub lock_version: i64,
}

#[derive(Debug)]
pub struct DeleteCellResultDto {
    pub new_version: i64,
    pub lock_version: i64,
}

#[derive(Debug)]
pub struct AddEdgeResultDto {
    pub new_version: i64,
    pub lock_version: i64,
}

#[derive(Debug)]
pub struct DeleteEdgeResultDto {
    pub new_version: i64,
    pub lock_version: i64,
}

#[derive(Debug)]
pub struct UpdateEdgeResultDto {
    pub new_version: i64,
    pub lock_version: i64,
}

#[derive(Debug)]
pub struct ActiveRunDto {
    pub run_id: String,
    pub current_cell_id: String,
    pub project_path: Option<String>,
}

/// The result of stopping a run; `was_in_flight` is false when the run had
/// already finished and nothing changed.
#[derive(Debug)]
pub struct StopRunResultDto {
    pub was_in_flight: bool,
    pub stopped_at_cell_id: String,
}

#[derive(Debug)]
pub struct TrashItemDto {
    pub harness_id: String,
    pub name: String,
    pub deleted_at: String,
    pub remaining_days: i64,
}

} // verus!
