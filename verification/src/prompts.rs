//! Prompts given to agents.
//!
//! Prompts carry context and intent. They are not where rules are enforced:
//! checks, permissions and integration are enforced by the engine whatever
//! the agent does.

use vstd::prelude::*;

use crate::config::{Check, CheckModel};
use crate::model::{CheckResult, CheckResultModel, RunSpec, RunSpecModel, TaskSpec, TaskSpecModel};
use crate::text::{
    begins, decimal, holds, i64_text, signed, texts, trim, trimmed, u64_text, views,
};

verus! {

/// Instructions appended to the runtime's own system prompt for every
/// implementer session.
pub const IMPLEMENTER_SYSTEM: &'static str = "You are one agent in a Bodega software factory. \
Several agents work on different tasks of the same change at the same time, each in its own git \
worktree. Stay inside your task's scope, make the change completely, and leave the working tree in \
a state where the project builds and its tests pass. Bodega commits your work, verifies it and \
integrates it; do not push, create branches, or open pull requests.";

/// The texts one after another, each between `before` and `after`.
pub open spec fn listed(items: Seq<Seq<char>>, before: Seq<char>, after: Seq<char>) -> Seq<char>
    decreases items.len(),
{
    if items.len() == 0 {
        Seq::empty()
    } else {
        listed(items.drop_last(), before, after) + before + items.last() + after
    }
}

/// The commands of checks.
pub open spec fn commands(checks: Seq<CheckModel>) -> Seq<Seq<char>> {
    Seq::new(checks.len(), |i: int| checks[i].command)
}

/// `text` where `b` holds, nothing where it does not.
pub open spec fn only_if(b: bool, text: Seq<char>) -> Seq<char> {
    if b {
        text
    } else {
        Seq::empty()
    }
}

/// The task's description.
pub open spec fn description_part(task: TaskSpecModel) -> Seq<char> {
    only_if(trimmed(task.description).len() > 0, trimmed(task.description) + "\n\n"@)
}

pub open spec fn acceptance_part(task: TaskSpecModel) -> Seq<char> {
    only_if(
        task.acceptance.len() > 0,
        "## Acceptance criteria\n\n"@ + listed(task.acceptance, "- "@, "\n"@) + "\n"@,
    )
}

pub open spec fn request_part(run: RunSpecModel) -> Seq<char> {
    "## The overall request the task belongs to\n\n**"@ + run.title + "**\n\n"@ + trimmed(
        run.request,
    ) + "\n\n"@
}

pub open spec fn checks_part(checks: Seq<CheckModel>) -> Seq<char> {
    only_if(
        checks.len() > 0,
        "## How your work is verified\n\nWhen you finish, Bodega runs these commands in your worktree. The task is only done when all of them pass, so run them yourself first:\n\n"@
            + listed(commands(checks), "- `"@, "`\n"@) + "\n"@,
    )
}

pub open spec fn feedback_part(feedback: Option<Seq<char>>) -> Seq<char> {
    match feedback {
        Some(f) => "## What happened on the previous attempt\n\n"@ + trimmed(f) + "\n\n"@,
        None => Seq::empty(),
    }
}

pub open spec fn rules_part() -> Seq<char> {
    "## Rules\n\n- Work only in the current directory; it is a dedicated git worktree for the task.\n- Other tasks are handled by other agents in parallel. Do not do their work.\n- You do not need to commit. Do not push, create branches or open pull requests.\n- When you are done, reply with a short summary of what you changed.\n"@
}

/// The first message of an attempt.
pub open spec fn prompt_text(
    run: RunSpecModel,
    task: TaskSpecModel,
    checks: Seq<CheckModel>,
    feedback: Option<Seq<char>>,
) -> Seq<char> {
    "# Task: "@ + task.key + " — "@ + task.title + "\n\n"@ + description_part(task)
        + acceptance_part(task) + request_part(run) + checks_part(checks) + feedback_part(feedback)
        + rules_part()
}

fn append_listed(out: &mut String, items: &Vec<String>, before: &str, after: &str)
    ensures
        final(out)@ == old(out)@ + listed(texts(items@), before@, after@),
{
    let ghost all = texts(items@);
    let ghost start = out@;
    let mut i: usize = 0;
    assert(start + listed(all.take(0), before@, after@) =~= start);
    while i < items.len()
        invariant
            i <= items.len(),
            all == texts(items@),
            out@ == start + listed(all.take(i as int), before@, after@),
        decreases items.len() - i,
    {
        out.append(before);
        out.append(items[i].as_str());
        out.append(after);
        proof {
            assert(all.take(i + 1).drop_last() =~= all.take(i as int));
            assert(all.take(i + 1).last() == items@[i as int]@);
            assert(out@ =~= start + listed(all.take(i + 1), before@, after@));
        }
        i += 1;
    }
    assert(all.take(i as int) =~= all);
}

fn commands_of(checks: &Vec<Check>) -> (r: Vec<String>)
    ensures
        texts(r@) == commands(views(checks@)),
{
    let mut r: Vec<String> = Vec::new();
    let mut i: usize = 0;
    while i < checks.len()
        invariant
            i <= checks.len(),
            texts(r@) == commands(views(checks@)).take(i as int),
        decreases checks.len() - i,
    {
        let command = checks[i].command.clone();
        proof {
            crate::text::texts_push(r@, command);
            assert(commands(views(checks@)).take(i + 1) =~= commands(views(checks@)).take(
                i as int,
            ).push(command@));
        }
        r.push(command);
        i += 1;
    }
    assert(commands(views(checks@)).take(i as int) =~= commands(views(checks@)));
    r
}

/// The first message of an attempt.
pub fn task_prompt(
    run: &RunSpec,
    task: &TaskSpec,
    checks: &Vec<Check>,
    feedback: Option<&str>,
) -> (r: String)
    ensures
        r@ == prompt_text(run@, task@, views(checks@), crate::config::seen_str(feedback)),
{
    let mut out = "# Task: ".to_owned();
    out.append(task.key.as_str());
    out.append(" — ");
    out.append(task.title.as_str());
    out.append("\n\n");
    let ghost a = out@;
    let description = trim(task.description.as_str());
    if !description.as_str().is_empty() {
        out.append(description.as_str());
        out.append("\n\n");
    }
    assert(out@ =~= a + description_part(task@));
    let ghost b = out@;
    if task.acceptance.len() > 0 {
        out.append("## Acceptance criteria\n\n");
        append_listed(&mut out, &task.acceptance, "- ", "\n");
        out.append("\n");
    }
    assert(out@ =~= b + acceptance_part(task@));
    let ghost c = out@;
    out.append("## The overall request the task belongs to\n\n**");
    out.append(run.title.as_str());
    out.append("**\n\n");
    out.append(trim(run.request.as_str()).as_str());
    out.append("\n\n");
    assert(out@ =~= c + request_part(run@));
    let ghost d = out@;
    if checks.len() > 0 {
        out.append(
            "## How your work is verified\n\nWhen you finish, Bodega runs these commands in your worktree. The task is only done when all of them pass, so run them yourself first:\n\n",
        );
        append_listed(&mut out, &commands_of(checks), "- `", "`\n");
        out.append("\n");
    }
    assert(out@ =~= d + checks_part(views(checks@)));
    let ghost e = out@;
    if let Some(feedback) = feedback {
        out.append("## What happened on the previous attempt\n\n");
        out.append(trim(feedback).as_str());
        out.append("\n\n");
    }
    assert(out@ =~= e + feedback_part(crate::config::seen_str(feedback)));
    out.append(
        "## Rules\n\n- Work only in the current directory; it is a dedicated git worktree for the task.\n- Other tasks are handled by other agents in parallel. Do not do their work.\n- You do not need to commit. Do not push, create branches or open pull requests.\n- When you are done, reply with a short summary of what you changed.\n",
    );
    out
}

/// How a failed check is told to the agent that is still at work.
pub open spec fn failure_section(c: CheckResultModel) -> Seq<char> {
    "### `"@ + c.command + "` exited with "@ + (match c.exit_code {
        Some(code) => signed(code as int),
        None => "no exit code (timed out)"@,
    }) + "\n\n```\n"@ + c.output_tail + "\n```\n\n"@
}

/// The failed checks, one after another.
pub open spec fn failure_sections(results: Seq<CheckResultModel>) -> Seq<char>
    decreases results.len(),
{
    if results.len() == 0 {
        Seq::empty()
    } else if results.last().passed {
        failure_sections(results.drop_last())
    } else {
        failure_sections(results.drop_last()) + failure_section(results.last())
    }
}

/// The follow-up sent when checks fail after the agent's turn.
pub fn check_failure_feedback(results: &Vec<CheckResult>, round: u32, max_rounds: u32) -> (r: String)
    ensures
        r@ == "Verification failed (fix round "@ + decimal(round as int) + " of "@ + decimal(
            max_rounds as int,
        )
            + "). Fix the problems below, then finish again with a short summary.\n\n"@
            + failure_sections(views(results@)),
{
    let mut out = "Verification failed (fix round ".to_owned();
    out.append(u64_text(round as u64).as_str());
    out.append(" of ");
    out.append(u64_text(max_rounds as u64).as_str());
    out.append("). Fix the problems below, then finish again with a short summary.\n\n");
    let ghost head = out@;
    let ghost all = views(results@);
    let mut i: usize = 0;
    assert(head + failure_sections(all.take(0)) =~= head);
    while i < results.len()
        invariant
            i <= results.len(),
            all == views(results@),
            out@ == head + failure_sections(all.take(i as int)),
        decreases results.len() - i,
    {
        let c = &results[i];
        proof {
            assert(all.take(i + 1).drop_last() =~= all.take(i as int));
            assert(all.take(i + 1).last() == c@);
        }
        if !c.passed {
            let ghost before = out@;
            out.append("### `");
            out.append(c.command.as_str());
            out.append("` exited with ");
            match c.exit_code {
                Some(code) => {
                    out.append(i64_text(code as i64).as_str());
                },
                None => {
                    out.append("no exit code (timed out)");
                },
            }
            out.append("\n\n```\n");
            out.append(c.output_tail.as_str());
            out.append("\n```\n\n");
            proof {
                assert(out@ =~= before + failure_section(c@));
                assert(out@ =~= head + failure_sections(all.take(i + 1)));
            }
        }
        i += 1;
    }
    assert(all.take(i as int) =~= all);
    out
}

/// A text holds whatever stands in it.
pub proof fn held_in_the_middle(a: Seq<char>, p: Seq<char>, b: Seq<char>)
    ensures
        holds(a + p + b, p),
{
    let s = a + p + b;
    let i = a.len() as int;
    assert(s.skip(i).take(p.len() as int) =~= p);
    assert(begins(s.skip(i), p));
}

/// What a text holds, a longer one holds too.
pub proof fn held_further(s: Seq<char>, p: Seq<char>, a: Seq<char>, b: Seq<char>)
    requires
        holds(s, p),
    ensures
        holds(a + s + b, p),
{
    let i = choose|i: int| 0 <= i <= s.len() && begins(#[trigger] s.skip(i), p);
    let t = a + s + b;
    let k = a.len() + i;
    assert(t.skip(k).take(p.len() as int) =~= s.skip(i).take(p.len() as int));
    assert(begins(t.skip(k), p));
}

proof fn lists_hold_their_items(
    items: Seq<Seq<char>>,
    before: Seq<char>,
    after: Seq<char>,
    i: int,
)
    requires
        0 <= i < items.len(),
    ensures
        holds(listed(items, before, after), items[i]),
    decreases items.len(),
{
    let front = listed(items.drop_last(), before, after);
    let all = listed(items, before, after);
    let none = Seq::<char>::empty();
    if i == items.len() - 1 {
        held_in_the_middle(front + before, items.last(), after);
        assert(front + before + items.last() + after =~= all);
    } else {
        lists_hold_their_items(items.drop_last(), before, after, i);
        held_further(front, items[i], none, before + items.last() + after);
        assert(none + front + (before + items.last() + after) =~= all);
    }
}

/// What an agent is told: the key and the title of its task, what it is to do, every
/// criterion of acceptance, the whole request, every check that its work has to pass, and
/// what came of the attempt before.
pub proof fn prompts_tell_everything(
    run: RunSpecModel,
    task: TaskSpecModel,
    checks: Seq<CheckModel>,
    feedback: Option<Seq<char>>,
    i: int,
    k: int,
)
    ensures
        ({
            let prompt = prompt_text(run, task, checks, feedback);
            &&& holds(prompt, task.key)
            &&& holds(prompt, task.title)
            &&& holds(prompt, trimmed(task.description))
            &&& 0 <= i < task.acceptance.len() ==> holds(prompt, task.acceptance[i])
            &&& holds(prompt, run.title)
            &&& holds(prompt, trimmed(run.request))
            &&& 0 <= k < checks.len() ==> holds(prompt, checks[k].command)
            &&& feedback matches Some(text) ==> holds(prompt, trimmed(text))
        }),
{
    let prompt = prompt_text(run, task, checks, feedback);
    let none = Seq::<char>::empty();
    let text = trimmed(task.description);
    assert(holds(prompt, task.key)) by {
        prompt_has_parts(run, task, checks, feedback, 1);
    }
    assert(holds(prompt, task.title)) by {
        prompt_has_parts(run, task, checks, feedback, 3);
    }
    assert(holds(prompt, text)) by {
        prompt_has_parts(run, task, checks, feedback, 5);
        held_in_the_middle(none, text, description_part(task).skip(text.len() as int));
        assert(none + text + description_part(task).skip(text.len() as int) =~= description_part(
            task,
        ));
        held_within(prompt, description_part(task), text);
    }
    assert(0 <= i < task.acceptance.len() ==> holds(prompt, task.acceptance[i])) by {
        if 0 <= i < task.acceptance.len() {
            prompt_has_parts(run, task, checks, feedback, 6);
            acceptance_is_told(task, i);
            held_within(prompt, acceptance_part(task), task.acceptance[i]);
        }
    }
    assert(holds(prompt, run.title) && holds(prompt, trimmed(run.request))) by {
        prompt_has_parts(run, task, checks, feedback, 7);
        request_is_told(run);
        held_within(prompt, request_part(run), run.title);
        held_within(prompt, request_part(run), trimmed(run.request));
    }
    assert(0 <= k < checks.len() ==> holds(prompt, checks[k].command)) by {
        if 0 <= k < checks.len() {
            prompt_has_parts(run, task, checks, feedback, 8);
            check_is_told(checks, k);
            held_within(prompt, checks_part(checks), checks[k].command);
        }
    }
    assert(feedback matches Some(text) ==> holds(prompt, trimmed(text))) by {
        if let Some(text) = feedback {
            prompt_has_parts(run, task, checks, feedback, 9);
            held_in_the_middle(
                "## What happened on the previous attempt\n\n"@,
                trimmed(text),
                "\n\n"@,
            );
            held_within(prompt, feedback_part(feedback), trimmed(text));
        }
    }
}

/// The texts of a list, one after another.
spec fn in_a_row(parts: Seq<Seq<char>>) -> Seq<char>
    decreases parts.len(),
{
    if parts.len() == 0 {
        Seq::empty()
    } else {
        in_a_row(parts.drop_last()) + parts.last()
    }
}

proof fn rows_grow(parts: Seq<Seq<char>>, last: Seq<char>)
    ensures
        in_a_row(parts.push(last)) == in_a_row(parts) + last,
{
    assert(parts.push(last).drop_last() =~= parts);
}

proof fn rows_hold_their_parts(parts: Seq<Seq<char>>, i: int)
    requires
        0 <= i < parts.len(),
    ensures
        holds(in_a_row(parts), parts[i]),
    decreases parts.len(),
{
    let front = in_a_row(parts.drop_last());
    let none = Seq::<char>::empty();
    if i == parts.len() - 1 {
        held_in_the_middle(front, parts[i], none);
        assert(front + parts[i] + none =~= in_a_row(parts));
    } else {
        rows_hold_their_parts(parts.drop_last(), i);
        held_further(front, parts[i], none, parts.last());
        assert(none + front + parts.last() =~= in_a_row(parts));
    }
}

spec fn prompt_parts(
    run: RunSpecModel,
    task: TaskSpecModel,
    checks: Seq<CheckModel>,
    feedback: Option<Seq<char>>,
) -> Seq<Seq<char>> {
    Seq::empty().push("# Task: "@).push(task.key).push(" — "@).push(task.title).push("\n\n"@).push(
        description_part(task),
    ).push(acceptance_part(task)).push(request_part(run)).push(checks_part(checks)).push(
        feedback_part(feedback),
    ).push(rules_part())
}

proof fn prompt_has_parts(
    run: RunSpecModel,
    task: TaskSpecModel,
    checks: Seq<CheckModel>,
    feedback: Option<Seq<char>>,
    i: int,
)
    requires
        0 <= i < 11,
    ensures
        prompt_parts(run, task, checks, feedback).len() == 11,
        holds(prompt_text(run, task, checks, feedback), prompt_parts(run, task, checks, feedback)[i]),
{
    let p0 = Seq::<Seq<char>>::empty();
    let p1 = p0.push("# Task: "@);
    let p2 = p1.push(task.key);
    let p3 = p2.push(" — "@);
    let p4 = p3.push(task.title);
    let p5 = p4.push("\n\n"@);
    let p6 = p5.push(description_part(task));
    let p7 = p6.push(acceptance_part(task));
    let p8 = p7.push(request_part(run));
    let p9 = p8.push(checks_part(checks));
    let p10 = p9.push(feedback_part(feedback));
    rows_grow(p0, "# Task: "@);
    rows_grow(p1, task.key);
    rows_grow(p2, " — "@);
    rows_grow(p3, task.title);
    rows_grow(p4, "\n\n"@);
    rows_grow(p5, description_part(task));
    rows_grow(p6, acceptance_part(task));
    rows_grow(p7, request_part(run));
    rows_grow(p8, checks_part(checks));
    rows_grow(p9, feedback_part(feedback));
    rows_grow(p10, rules_part());
    assert(in_a_row(p0) + "# Task: "@ =~= "# Task: "@);
    let parts = prompt_parts(run, task, checks, feedback);
    assert(parts == p10.push(rules_part()));
    assert(in_a_row(parts) == prompt_text(run, task, checks, feedback));
    rows_hold_their_parts(parts, i);
}

/// What is held by a part of a text is held by the text.
pub proof fn held_within(s: Seq<char>, t: Seq<char>, p: Seq<char>)
    requires
        holds(s, t),
        holds(t, p),
    ensures
        holds(s, p),
{
    let i = choose|i: int| 0 <= i <= s.len() && begins(#[trigger] s.skip(i), t);
    let a = s.take(i);
    let b = s.skip(i).skip(t.len() as int);
    assert(s =~= a + t + b);
    held_further(t, p, a, b);
}

proof fn acceptance_is_told(task: TaskSpecModel, i: int)
    requires
        0 <= i < task.acceptance.len(),
    ensures
        holds(acceptance_part(task), task.acceptance[i]),
{
    let items = listed(task.acceptance, "- "@, "\n"@);
    lists_hold_their_items(task.acceptance, "- "@, "\n"@, i);
    held_further(items, task.acceptance[i], "## Acceptance criteria\n\n"@, "\n"@);
}

proof fn request_is_told(run: RunSpecModel)
    ensures
        holds(request_part(run), run.title),
        holds(request_part(run), trimmed(run.request)),
{
    let h = "## The overall request the task belongs to\n\n**"@;
    let m = "**\n\n"@;
    let blank = "\n\n"@;
    let text = trimmed(run.request);
    held_in_the_middle(h, run.title, m + text + blank);
    assert(h + run.title + (m + text + blank) =~= request_part(run));
    held_in_the_middle(h + run.title + m, text, blank);
    assert((h + run.title + m) + text + blank =~= request_part(run));
}

proof fn check_is_told(checks: Seq<CheckModel>, k: int)
    requires
        0 <= k < checks.len(),
    ensures
        holds(checks_part(checks), checks[k].command),
{
    let items = listed(commands(checks), "- `"@, "`\n"@);
    lists_hold_their_items(commands(checks), "- `"@, "`\n"@, k);
    let intro = "## How your work is verified\n\nWhen you finish, Bodega runs these commands in your worktree. The task is only done when all of them pass, so run them yourself first:\n\n"@;
    held_further(items, checks[k].command, intro, "\n"@);
    assert(intro + items + "\n"@ =~= checks_part(checks));
}

/// What an agent is told of checks that failed: the command and the output of each one.
/// Where all passed there is nothing to tell.
pub proof fn failures_are_told(results: Seq<CheckResultModel>, i: int)
    requires
        0 <= i < results.len(),
    ensures
        !results[i].passed ==> holds(failure_sections(results), results[i].command) && holds(
            failure_sections(results),
            results[i].output_tail,
        ),
        (forall|k: int| 0 <= k < results.len() ==> (#[trigger] results[k]).passed)
            ==> failure_sections(results).len() == 0,
    decreases results.len(),
{
    let front = failure_sections(results.drop_last());
    let none = Seq::<char>::empty();
    let last = results.last();
    if results.len() > 1 {
        failures_are_told(results.drop_last(), if i < results.len() - 1 { i } else { 0 });
    }
    if !last.passed {
        let section = failure_section(last);
        let code = match last.exit_code {
            Some(code) => signed(code as int),
            None => "no exit code (timed out)"@,
        };
        let mid = "` exited with "@ + code + "\n\n```\n"@;
        if i == results.len() - 1 {
            held_in_the_middle("### `"@, last.command, mid + last.output_tail + "\n```\n\n"@);
            assert("### `"@ + last.command + (mid + last.output_tail + "\n```\n\n"@) =~= section);
            held_in_the_middle("### `"@ + last.command + mid, last.output_tail, "\n```\n\n"@);
            assert(("### `"@ + last.command + mid) + last.output_tail + "\n```\n\n"@ =~= section);
            held_further(section, last.command, front, none);
            held_further(section, last.output_tail, front, none);
            assert(front + section + none =~= failure_sections(results));
        } else if !results[i].passed {
            held_further(front, results[i].command, none, section);
            held_further(front, results[i].output_tail, none, section);
            assert(none + front + section =~= failure_sections(results));
        }
    }
    if forall|k: int| 0 <= k < results.len() ==> (#[trigger] results[k]).passed {
        assert(last.passed);
        assert(forall|k: int| 0 <= k < results.drop_last().len() ==> (
        #[trigger] results.drop_last()[k]).passed);
    }
}

} // verus!
