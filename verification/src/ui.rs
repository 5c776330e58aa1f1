//! Terminal output: colors (when the terminal supports them) and one-line
//! renderings of events for live progress.

use vstd::prelude::*;

use crate::budget::BudgetExceeded;
use crate::config::{find_text, first_text};
use crate::events::{AgentEvent, AgentEventModel, Event, EventKind, EventKindModel};
use crate::ids::{ApprovalId, AttemptId, TaskId};
use crate::json::JsonModel;
use crate::model::{AttemptOutcome, AttemptOutcomeModel, RunStatus, TaskStatus};
use crate::order::Key;
use crate::prompts::{held_further, held_in_the_middle, held_within};
use crate::state::{seen_map_dom, RunState, RunStateModel};
use crate::text::{
    begins, chars_of, decimal, finishes, holds, is_space, join, join_keeps, join_texts, pieces,
    pieces_hold_no_separator, seen, text_of, u64_text, usize_text, views, white_space_is_blank,
    words, words_end_at_blanks, words_of,
};

verus! {

/// A text in a color, where there are colors.
pub open spec fn painted(color: bool, code: Seq<char>, text: Seq<char>) -> Seq<char> {
    if color {
        "\x1b["@ + code + "m"@ + text + "\x1b[0m"@
    } else {
        text
    }
}

pub fn paint(color: bool, code: &str, text: &str) -> (r: String)
    ensures
        r@ == painted(color, code@, text@),
{
    if color {
        let mut r = "\x1b[".to_owned();
        r.append(code);
        r.append("m");
        r.append(text);
        r.append("\x1b[0m");
        r
    } else {
        text.to_owned()
    }
}

pub fn bold(color: bool, text: &str) -> (r: String)
    ensures
        r@ == painted(color, "1"@, text@),
{
    paint(color, "1", text)
}

pub fn dim(color: bool, text: &str) -> (r: String)
    ensures
        r@ == painted(color, "2"@, text@),
{
    paint(color, "2", text)
}

pub fn green(color: bool, text: &str) -> (r: String)
    ensures
        r@ == painted(color, "32"@, text@),
{
    paint(color, "32", text)
}

pub fn red(color: bool, text: &str) -> (r: String)
    ensures
        r@ == painted(color, "31"@, text@),
{
    paint(color, "31", text)
}

pub fn yellow(color: bool, text: &str) -> (r: String)
    ensures
        r@ == painted(color, "33"@, text@),
{
    paint(color, "33", text)
}

pub fn cyan(color: bool, text: &str) -> (r: String)
    ensures
        r@ == painted(color, "36"@, text@),
{
    paint(color, "36", text)
}

/// How the status of a run is shown.
pub open spec fn run_status_text(color: bool, status: RunStatus) -> Seq<char> {
    match status {
        RunStatus::Pending => painted(color, "2"@, "pending"@),
        RunStatus::Running => painted(color, "36"@, "running"@),
        RunStatus::WaitingForApproval => painted(color, "33"@, "waiting for approval"@),
        RunStatus::Succeeded => painted(color, "32"@, "succeeded"@),
        RunStatus::Failed => painted(color, "31"@, "failed"@),
        RunStatus::Cancelled => painted(color, "2"@, "cancelled"@),
    }
}

pub fn run_status(color: bool, status: RunStatus) -> (r: String)
    ensures
        r@ == run_status_text(color, status),
{
    match status {
        RunStatus::Pending => dim(color, "pending"),
        RunStatus::Running => cyan(color, "running"),
        RunStatus::WaitingForApproval => yellow(color, "waiting for approval"),
        RunStatus::Succeeded => green(color, "succeeded"),
        RunStatus::Failed => red(color, "failed"),
        RunStatus::Cancelled => dim(color, "cancelled"),
    }
}

/// How the status of a task is shown.
pub open spec fn task_status_text(color: bool, status: TaskStatus) -> Seq<char> {
    match status {
        TaskStatus::Pending => painted(color, "2"@, "pending"@),
        TaskStatus::Ready => painted(color, "2"@, "ready"@),
        TaskStatus::Running => painted(color, "36"@, "running"@),
        TaskStatus::Done => painted(color, "32"@, "done"@),
        TaskStatus::Failed => painted(color, "31"@, "failed"@),
        TaskStatus::Skipped => painted(color, "33"@, "skipped"@),
        TaskStatus::Cancelled => painted(color, "2"@, "cancelled"@),
    }
}

pub fn task_status(color: bool, status: TaskStatus) -> (r: String)
    ensures
        r@ == task_status_text(color, status),
{
    match status {
        TaskStatus::Pending => dim(color, "pending"),
        TaskStatus::Ready => dim(color, "ready"),
        TaskStatus::Running => cyan(color, "running"),
        TaskStatus::Done => green(color, "done"),
        TaskStatus::Failed => red(color, "failed"),
        TaskStatus::Skipped => yellow(color, "skipped"),
        TaskStatus::Cancelled => dim(color, "cancelled"),
    }
}

/// A text on one line, cut after `max` characters.
pub open spec fn one_line_text(text: Seq<char>, max: int) -> Seq<char> {
    let flat = join(words_of(text), " "@);
    if flat.len() <= max {
        flat
    } else {
        flat.take(max) + "…"@
    }
}

/// One line is one line: it holds no line break, and at most one character more
/// than it may.
pub proof fn one_line_is_one_line(text: Seq<char>, max: int)
    requires
        0 <= max,
    ensures
        one_line_text(text, max).len() <= max + 1,
        forall|k: int|
            0 <= k < one_line_text(text, max).len() ==> #[trigger] one_line_text(text, max)[k]
                != '\n',
{
    reveal_strlit(" ");
    reveal_strlit("…");
    let sep = |c: char| is_space(c);
    let solid = |w: Seq<char>| w.len() > 0;
    let fine = |c: char| c != '\n';
    let all = pieces(text, sep);
    pieces_hold_no_separator(text, sep);
    let words = words_of(text);
    assert forall|i: int, k: int| 0 <= i < words.len() && 0 <= k < words[i].len() implies fine(
        #[trigger] words[i][k],
    ) by {
        all.lemma_filter_contains_rev(solid, words[i]);
        let j = choose|j: int| 0 <= j < all.len() && all[j] == words[i];
        assert(!sep(all[j][k]));
    }
    join_keeps(words, " "@, fine);
    let flat = join(words, " "@);
    assert forall|k: int| 0 <= k < one_line_text(text, max).len() implies #[trigger] one_line_text(
        text,
        max,
    )[k] != '\n' by {
        if k < flat.len() {
            assert(fine(flat[k]));
        }
    }
}

/// Puts a text on one line, cut after `max` characters.
pub fn one_line(text: &str, max: usize) -> (r: String)
    ensures
        r@ == one_line_text(text@, max as int),
{
    let flat = join_texts(&words(text), " ");
    let v = chars_of(flat.as_str());
    if v.len() <= max {
        flat
    } else {
        let mut r = text_of(&v, 0, max);
        assert(v@.subrange(0, max as int) =~= v@.take(max as int));
        r.append("…");
        r
    }
}

/// The key of a task, as far as it is known.
pub open spec fn key_text(s: RunStateModel, id: TaskId) -> Seq<char> {
    if s.tasks.dom().contains(id) {
        s.tasks[id].spec.key
    } else {
        "?"@
    }
}

/// The key of the task of an attempt, as far as it is known.
pub open spec fn attempt_key_text(s: RunStateModel, id: AttemptId) -> Seq<char> {
    if s.attempts.dom().contains(id) {
        key_text(s, s.attempts[id].task_id)
    } else {
        "?"@
    }
}

fn key_of(state: &RunState, id: TaskId) -> (r: String)
    requires
        state.wf(),
    ensures
        r@ == key_text(state@, id),
{
    proof {
        seen_map_dom(state.tasks@);
    }
    match state.tasks.get(&id) {
        Some(task) => task.spec.key.clone(),
        None => "?".to_owned(),
    }
}

fn attempt_key_of(state: &RunState, id: AttemptId) -> (r: String)
    requires
        state.wf(),
    ensures
        r@ == attempt_key_text(state@, id),
{
    proof {
        seen_map_dom(state.attempts@);
    }
    match state.attempts.get(&id) {
        Some(attempt) => key_of(state, attempt.task_id),
        None => "?".to_owned(),
    }
}

/// The part of a tool's input that is shown.
pub open spec fn tool_detail(input: JsonModel) -> Seq<char> {
    match first_text(input, seq!["command"@, "file_path"@, "path"@, "pattern"@], 0) {
        Some(text) => text,
        None => Seq::empty(),
    }
}

/// What is shown of an agent at work.
pub open spec fn agent_line(color: bool, task: Seq<char>, event: AgentEventModel) -> Option<
    Seq<char>,
> {
    match event {
        AgentEventModel::Message { text } => Some(
            "  "@ + task + " "@ + painted(color, "2"@, one_line_text(text, 140)),
        ),
        AgentEventModel::ToolCall { tool, input, .. } => Some(
            "  "@ + task + " · "@ + tool + " "@ + painted(
                color,
                "2"@,
                one_line_text(tool_detail(input), 100),
            ),
        ),
        AgentEventModel::Log { message, .. } => Some(
            "  "@ + task + " "@ + painted(color, "2"@, one_line_text(message, 140)),
        ),
        _ => None,
    }
}

fn describe_agent(color: bool, task: &str, event: &AgentEvent) -> (r: Option<String>)
    ensures
        seen(r) == agent_line(color, task@, event@),
{
    match event {
        AgentEvent::Message { text } => {
            let mut r = "  ".to_owned();
            r.append(task);
            r.append(" ");
            r.append(dim(color, one_line(text.as_str(), 140).as_str()).as_str());
            Some(r)
        },
        AgentEvent::ToolCall { tool, input, .. } => {
            let keys: Vec<&str> = vec!["command", "file_path", "path", "pattern"];
            proof {
                assert(views(keys@) =~= seq!["command"@, "file_path"@, "path"@, "pattern"@]);
            }
            let detail = match find_text(input, &keys) {
                Some(text) => text,
                None => {
                    let none = String::new();
                    assert(none@ =~= Seq::<char>::empty());
                    none
                },
            };
            let mut r = "  ".to_owned();
            r.append(task);
            r.append(" · ");
            r.append(tool.as_str());
            r.append(" ");
            r.append(dim(color, one_line(detail.as_str(), 100).as_str()).as_str());
            Some(r)
        },
        AgentEvent::Log { message, .. } => {
            let mut r = "  ".to_owned();
            r.append(task);
            r.append(" ");
            r.append(dim(color, one_line(message.as_str(), 140).as_str()).as_str());
            Some(r)
        },
        _ => None,
    }
}

/// What is shown of a task whose status changes.
pub open spec fn status_line(
    color: bool,
    task: Seq<char>,
    status: TaskStatus,
    reason: Option<Seq<char>>,
) -> Option<Seq<char>> {
    match (status, reason) {
        (TaskStatus::Running, _) => None,
        (TaskStatus::Ready, Some(why)) => Some(
            painted(color, "33"@, "↻"@) + " "@ + task + " "@ + painted(
                color,
                "2"@,
                one_line_text(why, 160),
            ),
        ),
        (TaskStatus::Ready, None) => None,
        (TaskStatus::Pending, None) => None,
        (TaskStatus::Done, _) => Some(painted(color, "32"@, "✓"@) + " "@ + task + " done"@),
        (_, Some(why)) => Some(
            painted(color, "31"@, "✗"@) + " "@ + task + " "@ + task_status_text(color, status)
                + " — "@ + one_line_text(why, 160),
        ),
        (_, None) => Some(
            painted(color, "31"@, "✗"@) + " "@ + task + " "@ + task_status_text(color, status),
        ),
    }
}

fn describe_status(color: bool, task: &str, status: TaskStatus, reason: &Option<String>) -> (r:
    Option<String>)
    ensures
        seen(r) == status_line(color, task@, status, seen(*reason)),
{
    match status {
        TaskStatus::Running => None,
        TaskStatus::Ready => match reason {
            Some(why) => {
                let mut r = yellow(color, "↻");
                r.append(" ");
                r.append(task);
                r.append(" ");
                r.append(dim(color, one_line(why.as_str(), 160).as_str()).as_str());
                Some(r)
            },
            None => None,
        },
        TaskStatus::Done => {
            let mut r = green(color, "✓");
            r.append(" ");
            r.append(task);
            r.append(" done");
            Some(r)
        },
        _ => {
            if matches!(status, TaskStatus::Pending) && reason.is_none() {
                return None;
            }
            let mut r = red(color, "✗");
            r.append(" ");
            r.append(task);
            r.append(" ");
            r.append(task_status(color, status).as_str());
            if let Some(why) = reason {
                r.append(" — ");
                r.append(one_line(why.as_str(), 160).as_str());
            }
            Some(r)
        },
    }
}

/// What is shown of an event. `figure` is the time that a check took, or what an
/// attempt has used.
pub open spec fn line_of_event(
    color: bool,
    s: RunStateModel,
    verbose: bool,
    figure: Seq<char>,
    kind: EventKindModel,
) -> Option<Seq<char>> {
    match kind {
        EventKindModel::RunCreated { spec } => Some(
            painted(color, "1"@, "run"@) + " "@ + spec.title,
        ),
        EventKindModel::RunStatusChanged { status, reason, .. } => match reason {
            Some(why) => Some(
                painted(color, "1"@, "run"@) + " "@ + run_status_text(color, status) + " — "@ + why,
            ),
            None => Some(painted(color, "1"@, "run"@) + " "@ + run_status_text(color, status)),
        },
        EventKindModel::PlanProposed { tasks, .. } => Some(
            "plan: "@ + decimal(tasks.len() as int) + " task(s)"@,
        ),
        EventKindModel::TaskCreated { .. } => None,
        EventKindModel::TaskStatusChanged { task_id, status, reason } => status_line(
            color,
            key_text(s, task_id),
            status,
            reason,
        ),
        EventKindModel::AttemptStarted { task_id, number, agent, .. } => Some(
            painted(color, "36"@, "▶"@) + " "@ + key_text(s, task_id) + " attempt "@ + decimal(
                number as int,
            ) + " "@ + painted(
                color,
                "2"@,
                "("@ + agent.runtime + (match agent.model {
                    Some(model) => ", "@ + model,
                    None => Seq::empty(),
                }) + ")"@,
            ),
        ),
        EventKindModel::Agent { attempt_id, event } => if verbose {
            agent_line(color, attempt_key_text(s, attempt_id), event)
        } else {
            None
        },
        EventKindModel::CheckCompleted { attempt_id, result } => Some(
            "  "@ + attempt_key_text(s, attempt_id) + " check "@ + result.name + " "@ + (
            if result.passed {
                painted(color, "32"@, "passed"@)
            } else {
                painted(color, "31"@, "failed"@)
            }) + " "@ + painted(color, "2"@, "("@ + figure + ")"@),
        ),
        EventKindModel::ReviewCompleted { attempt_id, verdict, .. } => Some(
            "  "@ + attempt_key_text(s, attempt_id) + " review: "@ + verdict.label_spec(),
        ),
        EventKindModel::AttemptFinished { attempt_id, outcome, .. } => {
            let task = attempt_key_text(s, attempt_id);
            match outcome {
                AttemptOutcomeModel::Succeeded { .. } => Some(
                    "  "@ + task + " verified "@ + painted(color, "2"@, "("@ + figure + ")"@),
                ),
                AttemptOutcomeModel::Failed { kind, message } => Some(
                    "  "@ + task + " attempt failed ("@ + kind.label_spec() + "): "@
                        + one_line_text(message, 160),
                ),
                AttemptOutcomeModel::Cancelled => Some("  "@ + task + " attempt cancelled"@),
            }
        },
        EventKindModel::ApprovalRequested { approval_id, title, .. } => {
            let id = ApprovalId::label(approval_id);
            Some(
                painted(color, "33"@, "⏸ approval needed:"@) + " "@ + title
                    + "\n    approve: "@ + painted(color, "1"@, "forgeline approve "@ + id)
                    + "\n    deny:    "@ + painted(
                    color,
                    "2"@,
                    "forgeline approve "@ + id + " --deny"@,
                ),
            )
        },
        EventKindModel::ApprovalResolved { decision, by, .. } => Some(
            "  approval "@ + decision.label_spec() + " by "@ + by,
        ),
        EventKindModel::BranchIntegrated { task_id, .. } => Some(
            "  "@ + key_text(s, task_id) + " merged into the integration branch"@,
        ),
        EventKindModel::IntegrationFailed { task_id, reason, .. } => Some(
            "  "@ + key_text(s, task_id) + " could not be integrated: "@ + one_line_text(
                reason,
                160,
            ),
        ),
        EventKindModel::PullRequestOpened { url, .. } => Some("pull request: "@ + url),
        EventKindModel::BudgetExceeded { exceeded } => Some(
            painted(color, "31"@, "budget:"@) + " "@ + exceeded.message_spec(),
        ),
    }
}

fn in_brackets(color: bool, text: &str) -> (r: String)
    ensures
        r@ == painted(color, "2"@, "("@ + text@ + ")"@),
{
    let mut r = "(".to_owned();
    r.append(text);
    r.append(")");
    dim(color, r.as_str())
}

/// One line describing an event for live progress, or `None` for events that are
/// only shown in verbose mode (agent chatter) or not at all.
pub fn describe(event: &Event, state: &RunState, color: bool, verbose: bool, figure: &str) -> (r:
    Option<String>)
    requires
        state.wf(),
    ensures
        seen(r) == line_of_event(color, state@, verbose, figure@, event@.kind),
{
    match &event.kind {
        EventKind::RunCreated { spec } => {
            let mut r = bold(color, "run");
            r.append(" ");
            r.append(spec.title.as_str());
            Some(r)
        },
        EventKind::RunStatusChanged { status, reason, .. } => {
            let mut r = bold(color, "run");
            r.append(" ");
            r.append(run_status(color, *status).as_str());
            if let Some(why) = reason {
                r.append(" — ");
                r.append(why.as_str());
            }
            Some(r)
        },
        EventKind::PlanProposed { tasks, .. } => {
            assert(views(tasks@).len() == tasks@.len());
            let mut r = "plan: ".to_owned();
            r.append(usize_text(tasks.len()).as_str());
            r.append(" task(s)");
            Some(r)
        },
        EventKind::TaskCreated { .. } => None,
        EventKind::TaskStatusChanged { task_id, status, reason } => describe_status(
            color,
            key_of(state, *task_id).as_str(),
            *status,
            reason,
        ),
        EventKind::AttemptStarted { task_id, number, agent, .. } => {
            let mut who = agent.runtime.clone();
            if let Some(model) = &agent.model {
                who.append(", ");
                who.append(model.as_str());
            }
            proof {
                assert("("@ + who@ + ")"@ =~= "("@ + agent@.runtime + (match agent@.model {
                    Some(model) => ", "@ + model,
                    None => Seq::empty(),
                }) + ")"@);
            }
            let mut r = cyan(color, "▶");
            r.append(" ");
            r.append(key_of(state, *task_id).as_str());
            r.append(" attempt ");
            r.append(u64_text(*number as u64).as_str());
            r.append(" ");
            r.append(in_brackets(color, who.as_str()).as_str());
            Some(r)
        },
        EventKind::Agent { attempt_id, event } => {
            if !verbose {
                return None;
            }
            describe_agent(color, attempt_key_of(state, *attempt_id).as_str(), event)
        },
        EventKind::CheckCompleted { attempt_id, result } => {
            let mut r = "  ".to_owned();
            r.append(attempt_key_of(state, *attempt_id).as_str());
            r.append(" check ");
            r.append(result.name.as_str());
            r.append(" ");
            if result.passed {
                r.append(green(color, "passed").as_str());
            } else {
                r.append(red(color, "failed").as_str());
            }
            r.append(" ");
            r.append(in_brackets(color, figure).as_str());
            Some(r)
        },
        EventKind::ReviewCompleted { attempt_id, verdict, .. } => {
            let mut r = "  ".to_owned();
            r.append(attempt_key_of(state, *attempt_id).as_str());
            r.append(" review: ");
            r.append(verdict.label());
            Some(r)
        },
        EventKind::AttemptFinished { attempt_id, outcome, .. } => {
            let mut r = "  ".to_owned();
            r.append(attempt_key_of(state, *attempt_id).as_str());
            match outcome {
                AttemptOutcome::Succeeded { .. } => {
                    r.append(" verified ");
                    r.append(in_brackets(color, figure).as_str());
                },
                AttemptOutcome::Failed { kind, message } => {
                    r.append(" attempt failed (");
                    r.append(kind.label());
                    r.append("): ");
                    r.append(one_line(message.as_str(), 160).as_str());
                },
                AttemptOutcome::Cancelled => {
                    r.append(" attempt cancelled");
                },
            }
            Some(r)
        },
        EventKind::ApprovalRequested { approval_id, title, .. } => {
            let mut approve = "forgeline approve ".to_owned();
            approve.append(approval_id.to_text().as_str());
            let mut deny = approve.clone();
            deny.append(" --deny");
            let mut r = yellow(color, "⏸ approval needed:");
            r.append(" ");
            r.append(title.as_str());
            r.append("\n    approve: ");
            r.append(bold(color, approve.as_str()).as_str());
            r.append("\n    deny:    ");
            r.append(dim(color, deny.as_str()).as_str());
            Some(r)
        },
        EventKind::ApprovalResolved { decision, by, .. } => {
            let mut r = "  approval ".to_owned();
            r.append(decision.label());
            r.append(" by ");
            r.append(by.as_str());
            Some(r)
        },
        EventKind::BranchIntegrated { task_id, .. } => {
            let mut r = "  ".to_owned();
            r.append(key_of(state, *task_id).as_str());
            r.append(" merged into the integration branch");
            Some(r)
        },
        EventKind::IntegrationFailed { task_id, reason, .. } => {
            let mut r = "  ".to_owned();
            r.append(key_of(state, *task_id).as_str());
            r.append(" could not be integrated: ");
            r.append(one_line(reason.as_str(), 160).as_str());
            Some(r)
        },
        EventKind::PullRequestOpened { url, .. } => {
            let mut r = "pull request: ".to_owned();
            r.append(url.as_str());
            Some(r)
        },
        EventKind::BudgetExceeded { exceeded } => {
            let mut r = red(color, "budget:");
            r.append(" ");
            r.append(exceeded.message().as_str());
            Some(r)
        },
    }
}

/// Colours change the looks of a text only: it is held by what is shown, and without
/// colours it is all that is shown.
pub proof fn colours_hide_nothing(color: bool, code: Seq<char>, text: Seq<char>)
    ensures
        holds(painted(color, code, text), text),
        !color ==> painted(color, code, text) == text,
        color ==> begins(painted(color, code, text), "\x1b["@ + code + "m"@),
        color ==> finishes(painted(color, code, text), "\x1b[0m"@),
{
    let none = Seq::<char>::empty();
    if color {
        let a = "\x1b["@ + code + "m"@;
        let b = "\x1b[0m"@;
        held_in_the_middle(a, text, b);
        let all = a + text + b;
        assert(all.take(a.len() as int) =~= a);
        assert(all.skip(all.len() - b.len()) =~= b);
    } else {
        held_in_the_middle(none, text, none);
        assert(none + text + none =~= text);
    }
}

proof fn failing_is_red_succeeding_green(text: Seq<char>)
    ensures
        begins(painted(true, "31"@, text), "\x1b[31m"@),
        begins(painted(true, "32"@, text), "\x1b[32m"@),
{
    colours_hide_nothing(true, "31"@, text);
    colours_hide_nothing(true, "32"@, text);
    reveal_strlit("31");
    reveal_strlit("32");
    reveal_strlit("\x1b[");
    reveal_strlit("m");
    reveal_strlit("\x1b[31m");
    reveal_strlit("\x1b[32m");
    assert("\x1b["@ + "31"@ + "m"@ =~= "\x1b[31m"@);
    assert("\x1b["@ + "32"@ + "m"@ =~= "\x1b[32m"@);
}

/// The words for the statuses differ in length or in their first letters.
pub proof fn status_words()
    ensures
        "pending"@.len() == 7 && "pending"@[0] == 'p',
        "ready"@.len() == 5,
        "running"@.len() == 7 && "running"@[0] == 'r',
        "done"@.len() == 4,
        "failed"@.len() == 6,
        "skipped"@.len() == 7 && "skipped"@[0] == 's',
        "cancelled"@.len() == 9 && "cancelled"@[0] == 'c',
        "succeeded"@.len() == 9 && "succeeded"@[0] == 's',
        "waiting for approval"@.len() == 20,
{
    reveal_strlit("pending");
    reveal_strlit("ready");
    reveal_strlit("running");
    reveal_strlit("done");
    reveal_strlit("failed");
    reveal_strlit("skipped");
    reveal_strlit("cancelled");
    reveal_strlit("succeeded");
    reveal_strlit("waiting for approval");
}

/// No two statuses of a run, and no two of a task, read the same. With colours each holds
/// what it is without them; what went well is green and what failed is red.
pub proof fn statuses_read_differently(
    color: bool,
    a: RunStatus,
    b: RunStatus,
    c: TaskStatus,
    d: TaskStatus,
)
    ensures
        a != b ==> run_status_text(false, a) != run_status_text(false, b),
        c != d ==> task_status_text(false, c) != task_status_text(false, d),
        holds(run_status_text(color, a), run_status_text(false, a)),
        holds(task_status_text(color, c), task_status_text(false, c)),
        begins(run_status_text(true, RunStatus::Succeeded), "\x1b[32m"@),
        begins(run_status_text(true, RunStatus::Failed), "\x1b[31m"@),
        begins(task_status_text(true, TaskStatus::Done), "\x1b[32m"@),
        begins(task_status_text(true, TaskStatus::Failed), "\x1b[31m"@),
{
    plain_statuses_differ(a, b, c, d);
    statuses_are_held(color, a, c);
    failing_is_red_succeeding_green("succeeded"@);
    failing_is_red_succeeding_green("done"@);
    failing_is_red_succeeding_green("failed"@);
}

proof fn plain_statuses_differ(a: RunStatus, b: RunStatus, c: TaskStatus, d: TaskStatus)
    ensures
        a != b ==> run_status_text(false, a) != run_status_text(false, b),
        c != d ==> task_status_text(false, c) != task_status_text(false, d),
{
    status_words();
}

proof fn statuses_are_held(color: bool, a: RunStatus, c: TaskStatus)
    ensures
        holds(run_status_text(color, a), run_status_text(false, a)),
        holds(task_status_text(color, c), task_status_text(false, c)),
{
    let of_run = match a {
        RunStatus::Running => "36"@,
        RunStatus::WaitingForApproval => "33"@,
        RunStatus::Succeeded => "32"@,
        RunStatus::Failed => "31"@,
        _ => "2"@,
    };
    let of_task = match c {
        TaskStatus::Running => "36"@,
        TaskStatus::Done => "32"@,
        TaskStatus::Failed => "31"@,
        TaskStatus::Skipped => "33"@,
        _ => "2"@,
    };
    colours_hide_nothing(color, of_run, run_status_text(false, a));
    colours_hide_nothing(color, of_task, task_status_text(false, c));
}

/// A text of few characters and without blanks is shown as it is.
pub proof fn short_words_are_kept(word: Seq<char>, max: int)
    requires
        word.len() <= max,
        forall|i: int| 0 <= i < word.len() ==> !is_space(#[trigger] word[i]),
    ensures
        one_line_text(word, max) == word,
{
    white_space_is_blank(' ');
    words_end_at_blanks(word, ' ', Seq::empty());
}

proof fn held_before(s: Seq<char>, last: Seq<char>, p: Seq<char>)
    requires
        holds(s, p),
    ensures
        holds(s + last, p),
{
    let none = Seq::<char>::empty();
    held_further(s, p, none, last);
    assert(none + s + last =~= s + last);
}

/// Texts that stand in a row are all held by what they make up.
pub proof fn two_are_held(a: Seq<char>, b: Seq<char>)
    ensures
        holds(a + b, a),
        holds(a + b, b),
{
    let none = Seq::<char>::empty();
    held_in_the_middle(none, a, b);
    assert(none + a + b =~= a + b);
    held_in_the_middle(a, b, none);
    assert(a + b + none =~= a + b);
}

pub proof fn three_are_held(a: Seq<char>, b: Seq<char>, c: Seq<char>)
    ensures
        holds(a + b + c, a),
        holds(a + b + c, b),
        holds(a + b + c, c),
{
    two_are_held(a, b);
    held_before(a + b, c, a);
    held_before(a + b, c, b);
    two_are_held(a + b, c);
}

pub proof fn four_are_held(a: Seq<char>, b: Seq<char>, c: Seq<char>, d: Seq<char>)
    ensures
        holds(a + b + c + d, a),
        holds(a + b + c + d, b),
        holds(a + b + c + d, c),
        holds(a + b + c + d, d),
{
    three_are_held(a, b, c);
    held_before(a + b + c, d, a);
    held_before(a + b + c, d, b);
    held_before(a + b + c, d, c);
    two_are_held(a + b + c, d);
}

pub proof fn five_are_held(a: Seq<char>, b: Seq<char>, c: Seq<char>, d: Seq<char>, e: Seq<char>)
    ensures
        holds(a + b + c + d + e, a),
        holds(a + b + c + d + e, b),
        holds(a + b + c + d + e, c),
        holds(a + b + c + d + e, d),
        holds(a + b + c + d + e, e),
{
    four_are_held(a, b, c, d);
    held_before(a + b + c + d, e, a);
    held_before(a + b + c + d, e, b);
    held_before(a + b + c + d, e, c);
    held_before(a + b + c + d, e, d);
    two_are_held(a + b + c + d, e);
}

pub proof fn six_are_held(a: Seq<char>, b: Seq<char>, c: Seq<char>, d: Seq<char>, e: Seq<char>, f: Seq<char>)
    ensures
        holds(a + b + c + d + e + f, a),
        holds(a + b + c + d + e + f, b),
        holds(a + b + c + d + e + f, c),
        holds(a + b + c + d + e + f, d),
        holds(a + b + c + d + e + f, e),
        holds(a + b + c + d + e + f, f),
{
    five_are_held(a, b, c, d, e);
    held_before(a + b + c + d + e, f, a);
    held_before(a + b + c + d + e, f, b);
    held_before(a + b + c + d + e, f, c);
    held_before(a + b + c + d + e, f, d);
    held_before(a + b + c + d + e, f, e);
    two_are_held(a + b + c + d + e, f);
}

pub proof fn seven_are_held(a: Seq<char>, b: Seq<char>, c: Seq<char>, d: Seq<char>, e: Seq<char>, f: Seq<char>, g: Seq<char>)
    ensures
        holds(a + b + c + d + e + f + g, a),
        holds(a + b + c + d + e + f + g, b),
        holds(a + b + c + d + e + f + g, c),
        holds(a + b + c + d + e + f + g, d),
        holds(a + b + c + d + e + f + g, e),
        holds(a + b + c + d + e + f + g, f),
        holds(a + b + c + d + e + f + g, g),
{
    six_are_held(a, b, c, d, e, f);
    held_before(a + b + c + d + e + f, g, a);
    held_before(a + b + c + d + e + f, g, b);
    held_before(a + b + c + d + e + f, g, c);
    held_before(a + b + c + d + e + f, g, d);
    held_before(a + b + c + d + e + f, g, e);
    held_before(a + b + c + d + e + f, g, f);
    two_are_held(a + b + c + d + e + f, g);
}

pub proof fn eight_are_held(a: Seq<char>, b: Seq<char>, c: Seq<char>, d: Seq<char>, e: Seq<char>, f: Seq<char>, g: Seq<char>, h: Seq<char>)
    ensures
        holds(a + b + c + d + e + f + g + h, a),
        holds(a + b + c + d + e + f + g + h, b),
        holds(a + b + c + d + e + f + g + h, c),
        holds(a + b + c + d + e + f + g + h, d),
        holds(a + b + c + d + e + f + g + h, e),
        holds(a + b + c + d + e + f + g + h, f),
        holds(a + b + c + d + e + f + g + h, g),
        holds(a + b + c + d + e + f + g + h, h),
{
    seven_are_held(a, b, c, d, e, f, g);
    held_before(a + b + c + d + e + f + g, h, a);
    held_before(a + b + c + d + e + f + g, h, b);
    held_before(a + b + c + d + e + f + g, h, c);
    held_before(a + b + c + d + e + f + g, h, d);
    held_before(a + b + c + d + e + f + g, h, e);
    held_before(a + b + c + d + e + f + g, h, f);
    held_before(a + b + c + d + e + f + g, h, g);
    two_are_held(a + b + c + d + e + f + g, h);
}

/// What is said of an event: the key of the task it is about, and what came of it. A failed
/// attempt is told with its kind, a check with its name and whether it passed, an approval
/// with the command that gives it, a change of a run with its reason. Agents are quiet
/// unless one asks for what they say.
#[verifier::rlimit(60)]
pub proof fn events_are_told(
    color: bool,
    s: RunStateModel,
    verbose: bool,
    figure: Seq<char>,
    kind: EventKindModel,
)
    ensures
        ({
            let told = line_of_event(color, s, verbose, figure, kind);
            match kind {
                EventKindModel::RunCreated { spec } => told matches Some(line) && holds(
                    line,
                    spec.title,
                ),
                EventKindModel::RunStatusChanged { status, reason, .. } => told matches Some(line)
                    && holds(line, run_status_text(color, status)) && (reason matches Some(why)
                    ==> holds(line, why)),
                EventKindModel::CheckCompleted { attempt_id, result } => told matches Some(line)
                    && holds(line, attempt_key_text(s, attempt_id)) && holds(line, result.name)
                    && holds(
                    line,
                    if result.passed {
                        painted(color, "32"@, "passed"@)
                    } else {
                        painted(color, "31"@, "failed"@)
                    },
                ),
                EventKindModel::AttemptFinished { attempt_id, outcome, .. } => told matches Some(line)
                    && holds(line, attempt_key_text(s, attempt_id)) && match outcome {
                    AttemptOutcomeModel::Succeeded { .. } => holds(line, " verified "@),
                    AttemptOutcomeModel::Failed { kind, message } => holds(line, kind.label_spec())
                        && holds(line, one_line_text(message, 160)),
                    AttemptOutcomeModel::Cancelled => holds(line, " attempt cancelled"@),
                },
                EventKindModel::ApprovalRequested { approval_id, title, .. } => told matches Some(
                    line,
                ) && holds(line, title) && holds(
                    line,
                    "forgeline approve "@ + ApprovalId::label(approval_id),
                ) && holds(
                    line,
                    "forgeline approve "@ + ApprovalId::label(approval_id) + " --deny"@,
                ),
                EventKindModel::ApprovalResolved { decision, by, .. } => told matches Some(line)
                    && holds(line, decision.label_spec()) && holds(line, by),
                EventKindModel::BranchIntegrated { task_id, .. } => told matches Some(line)
                    && holds(line, key_text(s, task_id)),
                EventKindModel::IntegrationFailed { task_id, reason, .. } => told matches Some(line)
                    && holds(line, key_text(s, task_id)) && holds(line, one_line_text(reason, 160)),
                EventKindModel::BudgetExceeded { exceeded } => told matches Some(line) && holds(
                    line,
                    exceeded.message_spec(),
                ),
                EventKindModel::TaskStatusChanged { task_id, status, reason } => {
                    &&& told is Some ==> holds(told->0, key_text(s, task_id))
                    &&& status == TaskStatus::Done || status == TaskStatus::Failed || status
                        == TaskStatus::Skipped || status == TaskStatus::Cancelled ==> told is Some
                    &&& reason is Some && (status == TaskStatus::Ready || status
                        == TaskStatus::Failed || status == TaskStatus::Skipped || status
                        == TaskStatus::Cancelled) ==> holds(told->0, one_line_text(reason->0, 160))
                },
                EventKindModel::Agent { .. } => !verbose ==> told is None,
                _ => true,
            }
        }),
{
    match kind {
        EventKindModel::RunCreated { spec } => {
            three_are_held(painted(color, "1"@, "run"@), " "@, spec.title);
        },
        EventKindModel::RunStatusChanged { status, reason, .. } => {
            let run = painted(color, "1"@, "run"@);
            let word = run_status_text(color, status);
            match reason {
                Some(why) => {
                    five_are_held(run, " "@, word, " — "@, why);
                },
                None => {
                    three_are_held(run, " "@, word);
                },
            }
        },
        EventKindModel::CheckCompleted { attempt_id, result } => {
            eight_are_held(
                "  "@,
                attempt_key_text(s, attempt_id),
                " check "@,
                result.name,
                " "@,
                if result.passed {
                    painted(color, "32"@, "passed"@)
                } else {
                    painted(color, "31"@, "failed"@)
                },
                " "@,
                painted(color, "2"@, "("@ + figure + ")"@),
            );
        },
        EventKindModel::AttemptFinished { attempt_id, outcome, .. } => {
            let key = attempt_key_text(s, attempt_id);
            match outcome {
                AttemptOutcomeModel::Succeeded { .. } => {
                    let z = painted(color, "2"@, "("@ + figure + ")"@);
                    four_are_held("  "@, key, " verified "@, z);
                },
                AttemptOutcomeModel::Failed { kind: k, message } => {
                    let w = one_line_text(message, 160);
                    six_are_held("  "@, key, " attempt failed ("@, k.label_spec(), "): "@, w);
                },
                AttemptOutcomeModel::Cancelled => {
                    three_are_held("  "@, key, " attempt cancelled"@);
                },
            }
        },
        EventKindModel::ApprovalRequested { approval_id, title, .. } => {
            let yes = "forgeline approve "@ + ApprovalId::label(approval_id);
            let no = "forgeline approve "@ + ApprovalId::label(approval_id) + " --deny"@;
            let line = line_of_event(color, s, verbose, figure, kind)->0;
            let first = painted(color, "1"@, yes);
            let second = painted(color, "2"@, no);
            seven_are_held(
                painted(color, "33"@, "⏸ approval needed:"@),
                " "@,
                title,
                "\n    approve: "@,
                first,
                "\n    deny:    "@,
                second,
            );
            colours_hide_nothing(color, "1"@, yes);
            colours_hide_nothing(color, "2"@, no);
            held_within(line, first, yes);
            held_within(line, second, no);
        },
        EventKindModel::ApprovalResolved { decision, by, .. } => {
            four_are_held("  approval "@, decision.label_spec(), " by "@, by);
        },
        EventKindModel::BranchIntegrated { task_id, .. } => {
            three_are_held("  "@, key_text(s, task_id), " merged into the integration branch"@);
        },
        EventKindModel::IntegrationFailed { task_id, reason, .. } => {
            let w = one_line_text(reason, 160);
            four_are_held("  "@, key_text(s, task_id), " could not be integrated: "@, w);
        },
        EventKindModel::BudgetExceeded { exceeded } => {
            three_are_held(painted(color, "31"@, "budget:"@), " "@, exceeded.message_spec());
        },
        EventKindModel::TaskStatusChanged { task_id, status, reason } => {
            changes_of_tasks_are_told(color, key_text(s, task_id), status, reason);
        },
        _ => {},
    }
}

#[verifier::rlimit(60)]
proof fn changes_of_tasks_are_told(
    color: bool,
    task: Seq<char>,
    status: TaskStatus,
    reason: Option<Seq<char>>,
)
    ensures
        ({
            let told = status_line(color, task, status, reason);
            &&& told is Some ==> holds(told->0, task)
            &&& reason is Some && told is Some && status != TaskStatus::Done ==> holds(
                told->0,
                one_line_text(reason->0, 160),
            )
        }),
{
    let told = status_line(color, task, status, reason);
    let bad = painted(color, "31"@, "✗"@);
    let word = task_status_text(color, status);
    match (status, reason) {
        (TaskStatus::Running, _) => {},
        (TaskStatus::Ready, Some(why)) => {
            let w = one_line_text(why, 160);
            let p = painted(color, "2"@, w);
            colours_hide_nothing(color, "2"@, w);
            five_are_held(painted(color, "33"@, "↻"@), " "@, task, " "@, p);
            held_within(told->0, p, w);
        },
        (TaskStatus::Ready, None) => {},
        (TaskStatus::Pending, None) => {},
        (TaskStatus::Done, _) => {
            four_are_held(painted(color, "32"@, "✓"@), " "@, task, " done"@);
        },
        (_, Some(why)) => {
            seven_are_held(bad, " "@, task, " "@, word, " — "@, one_line_text(why, 160));
        },
        (_, None) => {
            five_are_held(bad, " "@, task, " "@, word);
        },
    }
}

} // verus!
