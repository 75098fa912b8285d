//! The boundary toward the coding agent and the Nipper chat bridge: checks
//! on tool arguments, the text injected for each cell turn, how Nipper's
//! answers are classified, and the refusals the tools report.
use crate::domain::{BoardDefinition, CellStatus};
use crate::run::{edge_infos_view, EdgeInfo, EdgeInfoView};
use crate::text::{i64_to_decimal, signed_decimal, str_eq, trim, trim_str};
use crate::timing::InjectGate;
use vstd::prelude::*;
use vstd::string::*;

verus! {

/// A tool call refused at the boundary: a stable code the caller branches
/// on and a human-readable message.
#[derive(Debug)]
pub struct ToolRefusal {
    pub code: String,
    pub message: String,
}

pub open spec fn refusal_is(r: ToolRefusal, code: Seq<char>, message: Seq<char>) -> bool {
    r.code@ == code && r.message@ == message
}

pub(crate) fn refusal(code: &str, message: String) -> (r: ToolRefusal)
    ensures
        refusal_is(r, code@, message@),
{
    ToolRefusal { code: String::from_str(code), message }
}

// ---------------------------------------------------------------------------
// Arguments
// ---------------------------------------------------------------------------
pub open spec fn unknown_status_message(s: Seq<char>) -> Seq<char> {
    "unknown status '"@ + s + "': must be 'active' or 'draft'"@
}

/// The cell status a text names: `active` or `draft`.
pub open spec fn cell_status_of(s: Seq<char>) -> Option<CellStatus> {
    if s == "active"@ {
        Some(CellStatus::Active)
    } else if s == "draft"@ {
        Some(CellStatus::Draft)
    } else {
        None
    }
}

/// Reads a cell status given as text: `active` or `draft`; anything else is
/// refused with `invalid_arguments`.
pub fn parse_cell_status(s: &str) -> (r: Result<CellStatus, ToolRefusal>)
    ensures
        match cell_status_of(s@) {
            Some(st) => r == Ok::<CellStatus, ToolRefusal>(st),
            None => r matches Err(e) && refusal_is(e, "invalid_arguments"@, unknown_status_message(s@)),
        },
{
    if str_eq(s, "active") {
        Ok(CellStatus::Active)
    } else if str_eq(s, "draft") {
        Ok(CellStatus::Draft)
    } else {
        let mut m = String::from_str("unknown status '");
        m.append(s);
        m.append("': must be 'active' or 'draft'");
        Err(refusal("invalid_arguments", m))
    }
}

/// The project path a run is started with: trimmed, and refused with
/// `invalid_arguments` when nothing is left.
pub fn start_project_path(project_path: &str) -> (r: Result<String, ToolRefusal>)
    ensures
        trim(project_path@).len() == 0 ==> (r matches Err(e) && refusal_is(
            e,
            "invalid_arguments"@,
            "project_path must be a non-empty absolute path"@,
        )),
        trim(project_path@).len() != 0 ==> (r matches Ok(p) && p@ == trim(project_path@)),
{
    let p = trim_str(project_path);
    if crate::text::char_count(p.as_str()) == 0 {
        Err(refusal("invalid_arguments", String::from_str("project_path must be a non-empty absolute path")))
    } else {
        Ok(p)
    }
}

/// What a validation request validates.
#[derive(Debug)]
pub enum ValidateTarget {
    /// The current board of a stored harness.
    Stored(String),
    /// A board given with the request.
    Given(BoardDefinition),
}

/// Chooses what to validate: exactly one of a harness id and a board must be
/// given; both or neither are refused with `invalid_arguments`.
pub fn choose_validate_target(harness_id: Option<String>, definition: Option<BoardDefinition>) -> (r: Result<ValidateTarget, ToolRefusal>)
    ensures
        match (harness_id, definition) {
            (Some(h), None) => r matches Ok(ValidateTarget::Stored(x)) && x@ == h@,
            (None, Some(d)) => r matches Ok(ValidateTarget::Given(x)) && x@ == d@,
            (Some(_), Some(_)) => r matches Err(e) && refusal_is(
                e,
                "invalid_arguments"@,
                "provide exactly one of harness_id or definition, not both"@,
            ),
            (None, None) => r matches Err(e) && refusal_is(
                e,
                "invalid_arguments"@,
                "one of harness_id or definition is required"@,
            ),
        },
{
    match (harness_id, definition) {
        (Some(_), Some(_)) => Err(
            refusal("invalid_arguments", String::from_str("provide exactly one of harness_id or definition, not both")),
        ),
        (None, None) => Err(refusal("invalid_arguments", String::from_str("one of harness_id or definition is required"))),
        (Some(h), None) => Ok(ValidateTarget::Stored(h)),
        (None, Some(d)) => Ok(ValidateTarget::Given(d)),
    }
}

// ---------------------------------------------------------------------------
// The injected text
// ---------------------------------------------------------------------------
/// One line of the edge menu.
pub open spec fn edge_line(e: EdgeInfoView) -> Seq<char> {
    match e.guard {
        Some(g) => "  - \""@ + e.label + "\" (条件: "@ + g + ") → "@ + e.to_cell_name,
        None => "  - \""@ + e.label + "\" → "@ + e.to_cell_name,
    }
}

/// The lines joined by newlines.
pub open spec fn join_lines(lines: Seq<Seq<char>>) -> Seq<char>
    decreases lines.len(),
{
    if lines.len() == 0 {
        seq![]
    } else if lines.len() == 1 {
        lines[0]
    } else {
        join_lines(lines.drop_last()) + seq!['\n'] + lines.last()
    }
}

pub open spec fn terminal_footer() -> Seq<char> {
    "\n\n---\n【Sugo ハーネス】このセルは終端です。ハーネスの実行が完了しました。\nrun_id: "@
}

pub open spec fn step_footer() -> Seq<char> {
    "\n\n---\n【Sugo ハーネス】このターンのタスクが完了したら sugo_advance を1回だけ呼んでください。\n呼んだ後は、次の Sugo メッセージ（inject）が実際に届くまで待機すること。ループ構造から「次も同じステップだ」と推測して、injectを待たずに次の作業へ進んではいけません。1 inject ＝ 1 ステップを厳守してください。\nrun_id: "@
}

/// The text injected for a cell turn: the prompt, then a footer naming the
/// run and either announcing the end of the run or listing the edges the
/// agent may follow.
pub open spec fn inject_text(prompt: Seq<char>, run_id: Seq<char>, edges: Seq<EdgeInfoView>, terminal: bool) -> Seq<char> {
    if terminal {
        prompt + terminal_footer() + run_id
    } else {
        prompt + step_footer() + run_id + "\n選択できるエッジ:\n"@ + join_lines(edges.map_values(|e: EdgeInfoView| edge_line(e)))
    }
}

fn push_edge_line(out: &mut String, e: &EdgeInfo)
    ensures
        final(out)@ == old(out)@ + edge_line(e@),
{
    out.append("  - \"");
    out.append(e.label.as_str());
    match &e.guard {
        Some(g) => {
            out.append("\" (条件: ");
            out.append(g.as_str());
            out.append(") → ");
        },
        None => {
            out.append("\" → ");
        },
    }
    out.append(e.to_cell_name.as_str());
}

/// Builds the text injected for a cell turn.
pub fn build_inject_text(prompt: &str, run_id: &str, edges: &Vec<EdgeInfo>, terminal: bool) -> (r: String)
    ensures
        r@ == inject_text(prompt@, run_id@, edge_infos_view(edges@), terminal),
{
    let mut out = String::from_str(prompt);
    if terminal {
        out.append("\n\n---\n【Sugo ハーネス】このセルは終端です。ハーネスの実行が完了しました。\nrun_id: ");
        out.append(run_id);
        return out;
    }
    out.append(
        "\n\n---\n【Sugo ハーネス】このターンのタスクが完了したら sugo_advance を1回だけ呼んでください。\n呼んだ後は、次の Sugo メッセージ（inject）が実際に届くまで待機すること。ループ構造から「次も同じステップだ」と推測して、injectを待たずに次の作業へ進んではいけません。1 inject ＝ 1 ステップを厳守してください。\nrun_id: ",
    );
    out.append(run_id);
    out.append("\n選択できるエッジ:\n");
    let ghost before = out@;
    let ghost lines = edge_infos_view(edges@).map_values(|e: EdgeInfoView| edge_line(e));
    let mut i: usize = 0;
    while i < edges.len()
        invariant
            lines == edge_infos_view(edges@).map_values(|e: EdgeInfoView| edge_line(e)),
            i <= edges.len(),
            out@ == before + join_lines(lines.take(i as int)),
        decreases edges.len() - i,
    {
        if i > 0 {
            out.append("\n");
        }
        push_edge_line(&mut out, &edges[i]);
        proof {
            let t = lines.take(i + 1);
            assert(t.drop_last() =~= lines.take(i as int));
            assert(t.last() == edge_line(edges@[i as int]@));
            if i == 0 {
                assert(join_lines(lines.take(0)) =~= seq![]);
            } else {
                reveal_strlit("\n");
                assert("\n"@ =~= seq!['\n']);
            }
            assert(out@ =~= before + join_lines(t));
        }
        i = i + 1;
    }
    assert(lines.take(edges.len() as int) =~= lines);
    out
}

// ---------------------------------------------------------------------------
// Nipper's answers
// ---------------------------------------------------------------------------
/// How a call to Nipper's inject API ended.
#[derive(Clone, Copy, Debug, PartialEq, Eq, Structural)]
pub enum NipperOutcome {
    Accepted,
    NoSession,
    BadRequest,
    Unreachable,
    Unauthorized,
    TokenUnavailable,
    TokenPermissionDenied,
}

/// The outcome an HTTP status stands for: 200 is success, 404 no session,
/// 401 a refused token, anything else a bad request.
pub open spec fn outcome_of_status(status: u16) -> NipperOutcome {
    if status == 200 {
        NipperOutcome::Accepted
    } else if status == 404 {
        NipperOutcome::NoSession
    } else if status == 401 {
        NipperOutcome::Unauthorized
    } else {
        NipperOutcome::BadRequest
    }
}

/// Classifies an HTTP status from Nipper.
pub fn classify(status: u16) -> (r: NipperOutcome)
    ensures
        r == outcome_of_status(status),
{
    if status == 200 {
        NipperOutcome::Accepted
    } else if status == 404 {
        NipperOutcome::NoSession
    } else if status == 401 {
        NipperOutcome::Unauthorized
    } else {
        NipperOutcome::BadRequest
    }
}

/// The code and message a tool reports for a failed Nipper call.
pub open spec fn outcome_refusal(o: NipperOutcome) -> Option<(Seq<char>, Seq<char>)> {
    match o {
        NipperOutcome::Accepted => None,
        NipperOutcome::NoSession => Some(("nipper_no_session"@, "Nipper has no live chat session for this project"@)),
        NipperOutcome::BadRequest => Some(("nipper_bad_request"@, "Nipper rejected the request"@)),
        NipperOutcome::Unreachable => Some(("nipper_unreachable"@, "Nipper is not reachable; start Nipper and retry"@)),
        NipperOutcome::Unauthorized => Some(("nipper_unauthorized"@, "Nipper refused the inject token"@)),
        NipperOutcome::TokenUnavailable => Some(("nipper_token_unavailable"@, "the Nipper inject token file could not be read"@)),
        NipperOutcome::TokenPermissionDenied => Some(
            ("nipper_token_permission_denied"@, "the Nipper inject token file is not readable by this user"@),
        ),
    }
}

/// The refusal a tool reports for a Nipper outcome; none for success.
pub fn nipper_refusal(o: NipperOutcome) -> (r: Option<ToolRefusal>)
    ensures
        match outcome_refusal(o) {
            None => r is None,
            Some(p) => r matches Some(x) && refusal_is(x, p.0, p.1),
        },
{
    match o {
        NipperOutcome::Accepted => None,
        NipperOutcome::NoSession => Some(
            refusal("nipper_no_session", String::from_str("Nipper has no live chat session for this project")),
        ),
        NipperOutcome::BadRequest => Some(refusal("nipper_bad_request", String::from_str("Nipper rejected the request"))),
        NipperOutcome::Unreachable => Some(
            refusal("nipper_unreachable", String::from_str("Nipper is not reachable; start Nipper and retry")),
        ),
        NipperOutcome::Unauthorized => Some(refusal("nipper_unauthorized", String::from_str("Nipper refused the inject token"))),
        NipperOutcome::TokenUnavailable => Some(
            refusal("nipper_token_unavailable", String::from_str("the Nipper inject token file could not be read")),
        ),
        NipperOutcome::TokenPermissionDenied => Some(
            refusal(
                "nipper_token_permission_denied",
                String::from_str("the Nipper inject token file is not readable by this user"),
            ),
        ),
    }
}

// ---------------------------------------------------------------------------
// Reminding the agent to advance
// ---------------------------------------------------------------------------
/// At most this many reminders are sent after one acknowledged inject.
pub const MAX_REMINDERS: u32 = 3;

/// What the reminder watch does on one poll.
#[derive(Clone, Copy, Debug, PartialEq, Eq, Structural)]
pub enum ReminderAction {
    /// Stop watching.
    Stop,
    /// Keep waiting for the turn to complete.
    Wait,
    /// Send a reminder to advance.
    Remind,
}

/// The watch stops when the run is gone, no longer running, has a new
/// inject pending (it advanced), or was reminded enough; it waits while
/// the agent's turn is not complete; otherwise it reminds.
pub open spec fn reminder_decision(run: Option<crate::domain::RunView>, turn_complete: bool, reminders_sent: u32) -> ReminderAction {
    match run {
        None => ReminderAction::Stop,
        Some(r) => if r.status != crate::domain::RunStatus::Running || r.inject_pending_since is Some {
            ReminderAction::Stop
        } else if !turn_complete {
            ReminderAction::Wait
        } else if reminders_sent >= MAX_REMINDERS {
            ReminderAction::Stop
        } else {
            ReminderAction::Remind
        },
    }
}

/// Decides one poll of the reminder watch.
pub fn reminder_step(run: &Option<crate::domain::Run>, turn_complete: bool, reminders_sent: u32) -> (r: ReminderAction)
    ensures
        r == reminder_decision(
            match run {
                Some(x) => Some(x@),
                None => None,
            },
            turn_complete,
            reminders_sent,
        ),
{
    match run {
        None => ReminderAction::Stop,
        Some(r) => {
            if r.status != crate::domain::RunStatus::Running || r.inject_pending_since.is_some() {
                ReminderAction::Stop
            } else if !turn_complete {
                ReminderAction::Wait
            } else if reminders_sent >= MAX_REMINDERS {
                ReminderAction::Stop
            } else {
                ReminderAction::Remind
            }
        },
    }
}

pub open spec fn reminder_message(run_id: Seq<char>) -> Seq<char> {
    "【Sugo】エージェントのターンが完了しましたが `sugo_advance` がまだ呼ばれていません。\nこのセルのタスクが完了したら `sugo_advance` を呼び出して次のセルに進んでください。\nrun_id: `"@ + run_id + "`"@
}

/// The reminder injected when the agent finished its turn without advancing.
pub fn reminder_text(run_id: &str) -> (r: String)
    ensures
        r@ == reminder_message(run_id@),
{
    let mut m = String::from_str(
        "【Sugo】エージェントのターンが完了しましたが `sugo_advance` がまだ呼ばれていません。\nこのセルのタスクが完了したら `sugo_advance` を呼び出して次のセルに進んでください。\nrun_id: `",
    );
    m.append(run_id);
    m.append("`");
    m
}

// ---------------------------------------------------------------------------
// The inject gate's refusals
// ---------------------------------------------------------------------------
pub open spec fn pending_message() -> Seq<char> {
    "inject pending: Nipper has not yet acknowledged the previous inject; retry after /inject-ack"@
}

pub open spec fn timeout_message(elapsed: i64) -> Seq<char> {
    "inject timeout: Nipper did not acknowledge the inject after "@ + signed_decimal(elapsed as int)
        + "s. The run is now Stalled. Call sugo_start to begin a new run."@
}

/// The refusal an advance meets while an inject may be unacknowledged: none
/// when nothing is pending, `inject_pending` while waiting, `inject_timeout`
/// once timed out.
pub fn gate_refusal(g: &InjectGate) -> (r: Option<ToolRefusal>)
    ensures
        match g {
            InjectGate::Open => r is None,
            InjectGate::Pending => r matches Some(x) && refusal_is(x, "inject_pending"@, pending_message()),
            InjectGate::TimedOut { elapsed } => r matches Some(x) && refusal_is(x, "inject_timeout"@, timeout_message(*elapsed)),
        },
{
    match g {
        InjectGate::Open => None,
        InjectGate::Pending => Some(
            refusal(
                "inject_pending",
                String::from_str("inject pending: Nipper has not yet acknowledged the previous inject; retry after /inject-ack"),
            ),
        ),
        InjectGate::TimedOut { elapsed } => {
            let mut m = String::from_str("inject timeout: Nipper did not acknowledge the inject after ");
            let e = i64_to_decimal(*elapsed);
            m.append(e.as_str());
            m.append("s. The run is now Stalled. Call sugo_start to begin a new run.");
            Some(refusal("inject_timeout", m))
        },
    }
}

// ---------------------------------------------------------------------------
// Handing the next prompt to Nipper after a move
// ---------------------------------------------------------------------------
/// What to do with Nipper once a run has moved.
#[derive(Debug, PartialEq, Eq, Structural)]
pub enum InjectStep {
    /// Send the next prompt; mark the run's inject pending first when
    /// `mark_pending` (a terminal cell expects no further advance).
    Send { mark_pending: bool },
    /// The run has no project path, so there is no session to send to.
    Skip,
}

/// The first step after a move to a cell that is `terminal` or not.
pub fn inject_start(has_project_path: bool, terminal: bool) -> (r: InjectStep)
    ensures
        r == if has_project_path {
            InjectStep::Send { mark_pending: !terminal }
        } else {
            InjectStep::Skip
        },
{
    if has_project_path {
        InjectStep::Send { mark_pending: !terminal }
    } else {
        InjectStep::Skip
    }
}

/// What follows the outcome of sending the prompt.
#[derive(Debug)]
pub enum InjectEnd {
    /// The send failed: clear the pending mark and answer with this refusal.
    Refuse(ToolRefusal),
    /// The run reached a terminal cell: detach the session.
    Detach,
    /// Nothing more to do.
    Done,
}

/// The step after sending the prompt for a cell that is `terminal` or not.
pub fn inject_end(outcome: NipperOutcome, terminal: bool) -> (r: InjectEnd)
    ensures
        match outcome_refusal(outcome) {
            Some(p) => r matches InjectEnd::Refuse(x) && refusal_is(x, p.0, p.1),
            None => if terminal {
                r is Detach
            } else {
                r is Done
            },
        },
{
    match nipper_refusal(outcome) {
        Some(x) => InjectEnd::Refuse(x),
        None => if terminal {
            InjectEnd::Detach
        } else {
            InjectEnd::Done
        },
    }
}

} // verus!
