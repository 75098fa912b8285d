//! Folders: normalizing a folder name, and the checks behind creating,
//! renaming and deleting a folder.
use crate::domain::{Folder, FolderView};
use crate::error::{CoreError, ErrorView};
use crate::names::{name_error, result_matches};
use crate::text::{char_count, trim, trim_str};
use crate::validate::{err, error_issue, IssueCode, ValidationIssue};
use vstd::prelude::*;
use vstd::string::*;

verus! {

/// Maximum length of a folder name, in characters after trimming.
pub const MAX_FOLDER_NAME_CHARS: usize = 64;

/// The normalized folder name, or the validation error for it.
pub open spec fn folder_name_result(name: Seq<char>) -> Result<Seq<char>, ErrorView> {
    let t = trim(name);
    if t.len() == 0 {
        Err(name_error(IssueCode::InvalidFolderName, "フォルダ名を入力してください"@))
    } else if t.len() > 64 {
        Err(name_error(IssueCode::InvalidFolderName, "フォルダ名は64文字以内にしてください"@))
    } else {
        Ok(t)
    }
}

/// A validation error for a folder name, carrying one issue with `message`.
pub fn validation(message: &str) -> (r: CoreError)
    ensures
        r@ == name_error(IssueCode::InvalidFolderName, message@),
{
    let mut issues: Vec<ValidationIssue> = Vec::new();
    issues.push(err(IssueCode::InvalidFolderName, String::from_str(message), None));
    let r = CoreError::Validation(issues);
    assert(r@ == name_error(IssueCode::InvalidFolderName, message@)) by {
        assert(crate::validate::issues_view(issues@) =~= seq![error_issue(IssueCode::InvalidFolderName, message@, None)]);
    }
    r
}

/// Trims a folder name and checks that 1 to 64 characters remain.
pub fn normalize_name(name: &str) -> (r: Result<String, CoreError>)
    ensures
        result_matches(r, folder_name_result(name@)),
{
    let trimmed = trim_str(name);
    let n = char_count(trimmed.as_str());
    if n == 0 {
        return Err(validation("フォルダ名を入力してください"));
    }
    if n > MAX_FOLDER_NAME_CHARS {
        return Err(validation("フォルダ名は64文字以内にしてください"));
    }
    Ok(trimmed)
}

// ---------------------------------------------------------------------------
// Folders
// ---------------------------------------------------------------------------
pub open spec fn folders_of(existing: Seq<(Folder, i64)>) -> Seq<FolderView> {
    existing.map_values(|p: (Folder, i64)| p.0@)
}

pub open spec fn name_taken(folders: Seq<FolderView>, name: Seq<char>) -> bool {
    exists|i: int| 0 <= i < folders.len() && #[trigger] folders[i].name == name
}

pub open spec fn name_taken_by_other(folders: Seq<FolderView>, name: Seq<char>, id: Seq<char>) -> bool {
    exists|i: int| 0 <= i < folders.len() && #[trigger] folders[i].name == name && folders[i].id != id
}

pub open spec fn folder_exists(folders: Seq<FolderView>, id: Seq<char>) -> bool {
    exists|i: int| 0 <= i < folders.len() && #[trigger] folders[i].id == id
}

pub open spec fn duplicate_folder(name: Seq<char>) -> ErrorView {
    ErrorView::Conflict("フォルダ「"@ + name + "」は既に存在します"@)
}

fn duplicate_folder_error(name: &String) -> (r: CoreError)
    ensures
        r@ == duplicate_folder(name@),
{
    let mut m = String::from_str("フォルダ「");
    m.append(name.as_str());
    m.append("」は既に存在します");
    CoreError::Conflict(m)
}

/// The outcome of checking a new folder name.
pub open spec fn create_folder_result(folders: Seq<FolderView>, name: Seq<char>) -> Result<Seq<char>, ErrorView> {
    match folder_name_result(name) {
        Err(e) => Err(e),
        Ok(n) => if name_taken(folders, n) {
            Err(duplicate_folder(n))
        } else {
            Ok(n)
        },
    }
}

/// Checks a new folder name: normalized, and not already used by a folder
/// (names are compared exactly, so case matters).
pub fn check_create_folder(existing: &Vec<(Folder, i64)>, name: &str) -> (r: Result<String, CoreError>)
    ensures
        result_matches(r, create_folder_result(folders_of(existing@), name@)),
{
    let n = match normalize_name(name) {
        Ok(n) => n,
        Err(e) => return Err(e),
    };
    let mut i: usize = 0;
    while i < existing.len()
        invariant
            i <= existing.len(),
            folder_name_result(name@) == Ok::<Seq<char>, ErrorView>(n@),
            forall|j: int| 0 <= j < i ==> (#[trigger] folders_of(existing@)[j]).name != n@,
        decreases existing.len() - i,
    {
        if existing[i].0.name == n {
            assert(folders_of(existing@)[i as int].name == n@);
            assert(name_taken(folders_of(existing@), n@));
            return Err(duplicate_folder_error(&n));
        }
        i = i + 1;
    }
    Ok(n)
}

/// The folder a creation writes: flat, placed after the existing folders.
pub fn build_folder(name: String, folder_id: String, now: String, existing_count: usize) -> (r: Folder)
    requires
        existing_count <= i64::MAX,
    ensures
        r@ == (FolderView {
            id: folder_id@,
            name: name@,
            parent_id: None,
            sort_order: existing_count as i64,
            created_at: now@,
            updated_at: now@,
        }),
{
    Folder { id: folder_id, name, parent_id: None, sort_order: existing_count as i64, created_at: now.clone(), updated_at: now }
}

/// The outcome of checking a folder rename.
pub open spec fn rename_folder_result(folders: Seq<FolderView>, folder_id: Seq<char>, name: Seq<char>) -> Result<Seq<char>, ErrorView> {
    match folder_name_result(name) {
        Err(e) => Err(e),
        Ok(n) => if !folder_exists(folders, folder_id) {
            Err(ErrorView::NotFound(folder_id))
        } else if name_taken_by_other(folders, n, folder_id) {
            Err(duplicate_folder(n))
        } else {
            Ok(n)
        },
    }
}

/// Checks a folder rename: the name is normalized, the folder must exist,
/// and no other folder may carry the new name (keeping its own name is fine).
pub fn check_rename_folder(existing: &Vec<(Folder, i64)>, folder_id: &str, name: &str) -> (r: Result<String, CoreError>)
    ensures
        result_matches(r, rename_folder_result(folders_of(existing@), folder_id@, name@)),
{
    let n = match normalize_name(name) {
        Ok(n) => n,
        Err(e) => return Err(e),
    };
    let fid = String::from_str(folder_id);
    let mut found = false;
    let mut i: usize = 0;
    while i < existing.len()
        invariant
            i <= existing.len(),
            found == exists|j: int| 0 <= j < i && (#[trigger] folders_of(existing@)[j]).id == fid@,
        decreases existing.len() - i,
    {
        if existing[i].0.id == fid {
            assert(folders_of(existing@)[i as int].id == fid@);
            found = true;
        }
        i = i + 1;
    }
    if !found {
        return Err(CoreError::NotFound(fid));
    }
    assert(folder_exists(folders_of(existing@), fid@));
    let mut k: usize = 0;
    while k < existing.len()
        invariant
            k <= existing.len(),
            folder_name_result(name@) == Ok::<Seq<char>, ErrorView>(n@),
            folder_exists(folders_of(existing@), fid@),
            fid@ == folder_id@,
            forall|j: int| 0 <= j < k ==> !((#[trigger] folders_of(existing@)[j]).name == n@ && folders_of(existing@)[j].id != fid@),
        decreases existing.len() - k,
    {
        if existing[k].0.name == n && !(existing[k].0.id == fid) {
            assert(folders_of(existing@)[k as int].name == n@);
            assert(folders_of(existing@)[k as int].id != fid@);
            assert(name_taken_by_other(folders_of(existing@), n@, fid@));
            return Err(duplicate_folder_error(&n));
        }
        k = k + 1;
    }
    Ok(n)
}

/// Finds the folder a deletion targets: its name and how many live harnesses
/// it holds, or not found.
pub fn find_folder_for_delete(existing: &Vec<(Folder, i64)>, folder_id: &str) -> (r: Result<(String, i64), CoreError>)
    ensures
        match r {
            Ok(p) => exists|i: int| 0 <= i < existing@.len() && #[trigger] existing@[i].0.id@ == folder_id@
                && p.0@ == existing@[i].0.name@ && p.1 == existing@[i].1 && forall|j: int| 0 <= j < i ==> (#[trigger] existing@[j]).0.id@ != folder_id@,
            Err(e) => e@ == ErrorView::NotFound(folder_id@) && forall|j: int| 0 <= j < existing@.len() ==> (#[trigger] existing@[j]).0.id@ != folder_id@,
        },
{
    let fid = String::from_str(folder_id);
    let mut i: usize = 0;
    while i < existing.len()
        invariant
            fid@ == folder_id@,
            i <= existing.len(),
            forall|j: int| 0 <= j < i ==> (#[trigger] existing@[j]).0.id@ != folder_id@,
        decreases existing.len() - i,
    {
        if existing[i].0.id == fid {
            return Ok((existing[i].0.name.clone(), existing[i].1));
        }
        i = i + 1;
    }
    Err(CoreError::NotFound(fid))
}

} // verus!
