//! Stall detection for an agent session: which transcript files belong to
//! the project, and whether the freshest of them has gone quiet too long.
//!
//! Walking the transcript directory and reading file ages is the caller's;
//! the decisions over what was read are here.
use vstd::prelude::*;

verus! {

/// What serde_json gives for the string member `key` of the JSON text
/// `line`: `None` when the text is not JSON, has no such member, or the
/// member is not a string.
pub uninterp spec fn json_string_field(line: Seq<char>, key: Seq<char>) -> Option<Seq<char>>;

/// Parses `line` with `serde_json::from_str` into a `Value`, looks `key` up
/// with `Value::get` and reads it with `Value::as_str`. The contract names
/// that result; JSON parsing is not restated.
#[verifier::external_body]
fn string_field(line: &str, key: &str) -> (r: Option<String>)
    ensures
        r.deep_view() == json_string_field(line@, key@),
{
    match serde_json::from_str::<serde_json::Value>(line) {
        Ok(v) => match v.get(key) {
            Some(f) => match f.as_str() {
                Some(s) => Some(s.to_string()),
                None => None,
            },
            None => None,
        },
        Err(_) => None,
    }
}

/// Whether a record's string member `found` is present and equal to
/// `expected` (for a `cwd` member: whether the record belongs to the
/// project).
pub fn cwd_matches(found: Option<String>, expected: &str) -> (r: bool)
    ensures
        r == (found.deep_view() == Some(expected@)),
{
    match found {
        Some(c) => crate::text::str_eq(c.as_str(), expected),
        None => false,
    }
}

/// Whether some line of a transcript is a record of the project.
pub open spec fn mentions_project(lines: Seq<Seq<char>>, project_path: Seq<char>) -> bool {
    exists|i: int| 0 <= i < lines.len() && json_string_field(#[trigger] lines[i], "cwd"@) == Some(project_path)
}

/// Whether one of the transcript's lines is a JSON record whose `cwd` is
/// the project path.
pub fn transcript_mentions(lines: &Vec<String>, project_path: &str) -> (r: bool)
    ensures
        r == mentions_project(crate::validate::strings_view(lines@), project_path@),
{
    let ghost lv = crate::validate::strings_view(lines@);
    let mut i: usize = 0;
    while i < lines.len()
        invariant
            lv == crate::validate::strings_view(lines@),
            i <= lines.len(),
            forall|j: int| 0 <= j < i ==> json_string_field(#[trigger] lv[j], "cwd"@) != Some(project_path@),
        decreases lines.len() - i,
    {
        let cwd = string_field(lines[i].as_str(), "cwd");
        if cwd_matches(cwd, project_path) {
            assert(json_string_field(lv[i as int], "cwd"@) == Some(project_path@));
            return true;
        }
        i = i + 1;
    }
    false
}

/// Whether some line of a transcript is a JSON record of type `kind`.
pub open spec fn has_record_of_type(lines: Seq<Seq<char>>, kind: Seq<char>) -> bool {
    exists|i: int| 0 <= i < lines.len() && json_string_field(#[trigger] lines[i], "type"@) == Some(kind)
}

/// Whether one of the transcript's lines is a JSON record whose `type` is
/// `kind` (a `result` record marks the end of an agent turn).
pub fn transcript_has_type(lines: &Vec<String>, kind: &str) -> (r: bool)
    ensures
        r == has_record_of_type(crate::validate::strings_view(lines@), kind@),
{
    let ghost lv = crate::validate::strings_view(lines@);
    let mut i: usize = 0;
    while i < lines.len()
        invariant
            lv == crate::validate::strings_view(lines@),
            i <= lines.len(),
            forall|j: int| 0 <= j < i ==> json_string_field(#[trigger] lv[j], "type"@) != Some(kind@),
        decreases lines.len() - i,
    {
        let t = string_field(lines[i].as_str(), "type");
        if cwd_matches(t, kind) {
            assert(json_string_field(lv[i as int], "type"@) == Some(kind@));
            return true;
        }
        i = i + 1;
    }
    false
}

/// The smallest of the ages seen so far and `secs`.
pub open spec fn youngest(min: Option<u64>, secs: u64) -> Option<u64> {
    match min {
        Some(m) => if secs < m {
            Some(secs)
        } else {
            Some(m)
        },
        None => Some(secs),
    }
}

/// Keeps the age of the freshest transcript seen.
pub fn fresher(min: Option<u64>, secs: u64) -> (r: Option<u64>)
    ensures
        r == youngest(min, secs),
{
    match min {
        Some(m) => if secs < m {
            Some(secs)
        } else {
            Some(m)
        },
        None => Some(secs),
    }
}

/// Whether a session looks stalled, and how old its freshest transcript is.
#[derive(Debug)]
pub struct StallInfo {
    pub is_stalled: bool,
    pub secs_since_last_modified: Option<u64>,
}

/// A session is stalled when its freshest transcript is older than the
/// timeout; with no transcript it is not.
pub fn stall_info(min_secs: Option<u64>, timeout_secs: u64) -> (r: StallInfo)
    ensures
        r.secs_since_last_modified == min_secs,
        r.is_stalled == (min_secs matches Some(s) && s > timeout_secs),
{
    match min_secs {
        None => StallInfo { is_stalled: false, secs_since_last_modified: None },
        Some(s) => StallInfo { is_stalled: s > timeout_secs, secs_since_last_modified: Some(s) },
    }
}

} // verus!
