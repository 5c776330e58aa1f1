//! Deterministic checks (build, lint, tests): what becomes of their output, and
//! when to stop.

use vstd::prelude::*;

use crate::config::{Check, CheckModel};
use crate::model::{CheckResult, CheckResultModel};
use crate::text::{
    byte_len, byte_len_adds, bytes_from, chars_of, cuts_waste_little, decimal, end_within,
    end_within_fits, ends_with, find_end_within, finishes, join, join_texts, lines, lines_of,
    text_of, texts, texts_push, trim, trimmed, u64_text, usize_text, views,
};

verus! {

/// How much of a check's output is kept (and fed back to agents).
pub const TAIL_LINES: usize = 60;

pub const TAIL_BYTES: usize = 6000;

/// How many lines are left out.
pub open spec fn omitted(n: int) -> int {
    if n > TAIL_LINES {
        n - TAIL_LINES
    } else {
        0
    }
}

/// A text, or as much of its end as the limit holds.
pub open spec fn bounded(text: Seq<char>) -> Seq<char> {
    if byte_len(text) > TAIL_BYTES {
        "…"@ + end_within(text, TAIL_BYTES as int)
    } else {
        text
    }
}

/// The last lines of an output, bounded in bytes, with a note of what is left
/// out.
pub open spec fn tail_of(output: Seq<char>) -> Seq<char> {
    let all = lines_of(output);
    let start = omitted(all.len() as int);
    let text = bounded(join(all.skip(start), "\n"@));
    if start > 0 {
        "… ("@ + decimal(start) + " earlier lines omitted)\n"@ + text
    } else {
        text
    }
}

/// What is kept of an output is bounded: at most so many of its last lines, and
/// at most so many bytes of them behind the mark of what is left out.
pub proof fn tails_are_bounded(output: Seq<char>, text: Seq<char>)
    ensures
        lines_of(output).skip(omitted(lines_of(output).len() as int)).len() <= TAIL_LINES,
        byte_len(bounded(text)) <= TAIL_BYTES + byte_len("…"@),
{
    if byte_len(text) > TAIL_BYTES {
        end_within_fits(text, TAIL_BYTES as int);
        byte_len_adds("…"@, end_within(text, TAIL_BYTES as int));
    }
}

/// The last lines of `output`, bounded in bytes.
pub fn tail(output: &str) -> (r: String)
    ensures
        r@ == tail_of(output@),
{
    let rows = lines(output);
    let ghost all = lines_of(output@);
    assert(texts(rows@).len() == rows@.len());
    let start: usize = if rows.len() > TAIL_LINES {
        rows.len() - TAIL_LINES
    } else {
        0
    };
    let mut kept: Vec<String> = Vec::new();
    let mut i: usize = start;
    assert(texts(kept@) =~= all.subrange(start as int, start as int));
    while i < rows.len()
        invariant
            start <= i <= rows.len(),
            texts(rows@) == all,
            texts(kept@) == all.subrange(start as int, i as int),
        decreases rows.len() - i,
    {
        let row = rows[i].clone();
        proof {
            assert(all[i as int] == rows@[i as int]@);
            texts_push(kept@, row);
            assert(all.subrange(start as int, i + 1) =~= all.subrange(start as int, i as int).push(
                row@,
            ));
        }
        kept.push(row);
        i += 1;
    }
    assert(all.subrange(start as int, all.len() as int) =~= all.skip(start as int));
    let mut text = join_texts(&kept, "\n");
    let v = chars_of(text.as_str());
    assert(v@.skip(0) =~= v@);
    if bytes_from(&v, 0) > TAIL_BYTES as u128 {
        let cut = find_end_within(&v, TAIL_BYTES);
        let rest = text_of(&v, cut, v.len());
        assert(rest@ =~= v@.skip(cut as int));
        text = "…".to_owned();
        text.append(rest.as_str());
    }
    if start > 0 {
        let mut head = "… (".to_owned();
        head.append(usize_text(start).as_str());
        head.append(" earlier lines omitted)\n");
        head.append(text.as_str());
        head
    } else {
        text
    }
}

/// How running a check ended.
#[derive(Debug, PartialEq, Eq)]
pub enum CheckOutcome {
    NotStarted { error: String },
    Ran { success: bool, code: Option<i32>, stdout: String, stderr: String },
    Broken { error: String },
    TimedOut,
}

/// Both outputs, one after the other, on lines of their own.
pub open spec fn combined(stdout: Seq<char>, stderr: Seq<char>) -> Seq<char> {
    if trimmed(stderr).len() == 0 {
        stdout
    } else if stdout.len() > 0 && !finishes(stdout, "\n"@) {
        stdout + "\n"@ + stderr
    } else {
        stdout + stderr
    }
}

fn combine(stdout: &str, stderr: &str) -> (r: String)
    ensures
        r@ == combined(stdout@, stderr@),
{
    let mut text = stdout.to_owned();
    if !trim(stderr).as_str().is_empty() {
        if !stdout.is_empty() && !ends_with(stdout, "\n") {
            text.append("\n");
        }
        text.append(stderr);
    }
    text
}

/// The result of a check. One that cannot start, cannot be waited for or times
/// out counts as failed.
pub open spec fn result_of(
    check: CheckModel,
    prefix: Seq<char>,
    outcome: CheckOutcome,
    elapsed_ms: u64,
) -> CheckResultModel {
    let base = CheckResultModel {
        name: prefix + check.name,
        command: check.command,
        passed: false,
        exit_code: None,
        duration_ms: elapsed_ms,
        output_tail: Seq::empty(),
    };
    match outcome {
        CheckOutcome::NotStarted { error } => CheckResultModel {
            duration_ms: 0,
            output_tail: "could not start the check: "@ + error@,
            ..base
        },
        CheckOutcome::Ran { success, code, stdout, stderr } => CheckResultModel {
            passed: success,
            exit_code: code,
            output_tail: tail_of(combined(stdout@, stderr@)),
            ..base
        },
        CheckOutcome::Broken { error } => CheckResultModel {
            output_tail: tail_of("the check failed to run: "@ + error@),
            ..base
        },
        CheckOutcome::TimedOut => CheckResultModel {
            output_tail: tail_of(
                "timed out after "@ + decimal(check.timeout_secs as int) + "s"@,
            ),
            ..base
        },
    }
}

/// The result of a check, from how running it ended.
pub fn check_result(
    check: &Check,
    name_prefix: &str,
    outcome: &CheckOutcome,
    elapsed_ms: u64,
) -> (r: CheckResult)
    ensures
        r@ == result_of(check@, name_prefix@, *outcome, elapsed_ms),
{
    let mut name = name_prefix.to_owned();
    name.append(check.name.as_str());
    let command = check.command.clone();
    match outcome {
        CheckOutcome::NotStarted { error } => {
            let mut text = "could not start the check: ".to_owned();
            text.append(error.as_str());
            CheckResult {
                name,
                command,
                passed: false,
                exit_code: None,
                duration_ms: 0,
                output_tail: text,
            }
        },
        CheckOutcome::Ran { success, code, stdout, stderr } => CheckResult {
            name,
            command,
            passed: *success,
            exit_code: *code,
            duration_ms: elapsed_ms,
            output_tail: tail(combine(stdout.as_str(), stderr.as_str()).as_str()),
        },
        CheckOutcome::Broken { error } => {
            let mut text = "the check failed to run: ".to_owned();
            text.append(error.as_str());
            CheckResult {
                name,
                command,
                passed: false,
                exit_code: None,
                duration_ms: elapsed_ms,
                output_tail: tail(text.as_str()),
            }
        },
        CheckOutcome::TimedOut => {
            let mut text = "timed out after ".to_owned();
            text.append(u64_text(check.timeout_secs).as_str());
            text.append("s");
            CheckResult {
                name,
                command,
                passed: false,
                exit_code: None,
                duration_ms: elapsed_ms,
                output_tail: tail(text.as_str()),
            }
        },
    }
}

/// Every check passed.
pub open spec fn all_passed(results: Seq<CheckResultModel>) -> bool {
    forall|i: int| 0 <= i < results.len() ==> (#[trigger] results[i]).passed
}

pub fn passed(results: &Vec<CheckResult>) -> (b: bool)
    ensures
        b == all_passed(views(results@)),
{
    let mut i: usize = 0;
    while i < results.len()
        invariant
            i <= results.len(),
            forall|k: int| 0 <= k < i ==> (#[trigger] views(results@)[k]).passed,
        decreases results.len() - i,
    {
        assert(views(results@)[i as int] == results@[i as int]@);
        if !results[i].passed {
            return false;
        }
        i += 1;
    }
    true
}

/// Which check runs next, in order, stopping at the first failure (later checks
/// usually depend on earlier ones, e.g. tests on the build).
pub fn next_check(checks: &Vec<Check>, results: &Vec<CheckResult>) -> (r: Option<usize>)
    ensures
        r == if results@.len() < checks@.len() && all_passed(views(results@)) {
            Some(results@.len() as usize)
        } else {
            None
        },
{
    if results.len() < checks.len() && passed(results) {
        Some(results.len())
    } else {
        None
    }
}

/// The result of running a check, however that ended.
pub open spec fn is_result_of(
    check: CheckModel,
    prefix: Seq<char>,
    result: CheckResultModel,
) -> bool {
    exists|outcome: CheckOutcome, elapsed_ms: u64|
        result == #[trigger] result_of(check, prefix, outcome, elapsed_ms)
}

/// The results so far of running checks one after another: each is the result of
/// the check in its place, and no check runs after one that failed.
pub open spec fn under_way(
    checks: Seq<CheckModel>,
    prefix: Seq<char>,
    results: Seq<CheckResultModel>,
) -> bool {
    &&& results.len() <= checks.len()
    &&& forall|i: int|
        0 <= i < results.len() ==> is_result_of(checks[i], prefix, #[trigger] results[i])
    &&& forall|i: int| 0 <= i < results.len() - 1 ==> (#[trigger] results[i]).passed
}

/// The results of running checks to the end: of all of them, or up to the first that
/// failed.
pub open spec fn ran(
    checks: Seq<CheckModel>,
    prefix: Seq<char>,
    results: Seq<CheckResultModel>,
) -> bool {
    &&& under_way(checks, prefix, results)
    &&& results.len() == checks.len() || !all_passed(results)
}

/// Running the check that comes next, and recording its result, keeps the results
/// in order.
pub proof fn checks_run_in_order(
    checks: Seq<CheckModel>,
    prefix: Seq<char>,
    results: Seq<CheckResultModel>,
    outcome: CheckOutcome,
    elapsed_ms: u64,
)
    requires
        under_way(checks, prefix, results),
        !ran(checks, prefix, results),
    ensures
        under_way(
            checks,
            prefix,
            results.push(
                result_of(checks[results.len() as int], prefix, outcome, elapsed_ms),
            ),
        ),
{
    let n = results.len() as int;
    let result = result_of(checks[n], prefix, outcome, elapsed_ms);
    let next = results.push(result);
    assert(is_result_of(checks[n], prefix, result));
    assert forall|i: int| 0 <= i < next.len() implies is_result_of(
        checks[i],
        prefix,
        #[trigger] next[i],
    ) by {
        if i < n {
            assert(next[i] == results[i]);
        }
    }
    assert forall|i: int| 0 <= i < next.len() - 1 implies (#[trigger] next[i]).passed by {
        assert(next[i] == results[i]);
    }
}

/// No check passes of those with this command.
pub open spec fn never_passes(command: Seq<char>, results: Seq<CheckResultModel>) -> bool {
    forall|i: int| 0 <= i < results.len() && (#[trigger] results[i]).command == command
        ==> !results[i].passed
}

/// One check that never passes is enough: the checks do not pass.
pub proof fn one_failure_is_enough(
    checks: Seq<CheckModel>,
    prefix: Seq<char>,
    results: Seq<CheckResultModel>,
    k: int,
)
    requires
        0 <= k < checks.len(),
        ran(checks, prefix, results),
        never_passes(checks[k].command, results),
    ensures
        !all_passed(results),
{
    if all_passed(results) {
        assert(is_result_of(checks[k], prefix, results[k]));
    }
}

/// A check passes only by running to its end and succeeding. One that could not
/// start, could not be waited for or ran out of time has not passed, and has no exit
/// code. Whatever came of it, its result bears its name and its command.
pub proof fn checks_pass_by_succeeding(
    check: CheckModel,
    prefix: Seq<char>,
    outcome: CheckOutcome,
    elapsed_ms: u64,
)
    ensures
        ({
            let r = result_of(check, prefix, outcome, elapsed_ms);
            &&& r.passed <==> (outcome matches CheckOutcome::Ran { success, .. } && success)
            &&& r.exit_code is Some ==> (outcome matches CheckOutcome::Ran { code, .. } && code
                == r.exit_code)
            &&& outcome matches CheckOutcome::Ran { code, .. } ==> r.exit_code == code
            &&& r.name == prefix + check.name
            &&& r.command == check.command
            &&& !(outcome is NotStarted) ==> r.duration_ms == elapsed_ms
        }),
{
}

/// What the checks of a piece of work come to: all of them passed exactly where each
/// one, in turn, ran to its end and succeeded. Nothing fails where there are no checks.
pub proof fn all_checks_have_to_succeed(
    checks: Seq<CheckModel>,
    prefix: Seq<char>,
    outcomes: Seq<CheckOutcome>,
    elapsed_ms: u64,
)
    requires
        outcomes.len() == checks.len(),
    ensures
        all_passed(
            Seq::new(
                checks.len(),
                |i: int| result_of(checks[i], prefix, outcomes[i], elapsed_ms),
            ),
        ) <==> forall|i: int|
            0 <= i < outcomes.len() ==> (#[trigger] outcomes[i] matches CheckOutcome::Ran {
                success,
                ..
            } && success),
        all_passed(Seq::empty()),
{
    let results = Seq::new(
        checks.len(),
        |i: int| result_of(checks[i], prefix, outcomes[i], elapsed_ms),
    );
    assert forall|i: int| 0 <= i < results.len() implies (#[trigger] results[i]).passed == (
    outcomes[i] matches CheckOutcome::Ran { success, .. } && success) by {
        checks_pass_by_succeeding(checks[i], prefix, outcomes[i], elapsed_ms);
    }
    if all_passed(results) {
        assert forall|i: int| 0 <= i < outcomes.len() implies (#[trigger] outcomes[i] matches
            CheckOutcome::Ran { success, .. } && success) by {
            assert(results[i].passed);
        }
    }
}

/// What both outputs come to starts with the standard output and, where there is
/// anything to see on the other one, stops with that.
pub proof fn outputs_are_shown_in_turn(stdout: Seq<char>, stderr: Seq<char>)
    ensures
        crate::text::begins(combined(stdout, stderr), stdout),
        (exists|i: int| 0 <= i < stderr.len() && 'a' <= #[trigger] stderr[i] <= 'z') ==> finishes(
            combined(stdout, stderr),
            stderr,
        ),
        stderr.len() == 0 ==> combined(stdout, stderr) == stdout,
{
    let all = combined(stdout, stderr);
    assert(all.take(stdout.len() as int) =~= stdout);
    if exists|i: int| 0 <= i < stderr.len() && 'a' <= #[trigger] stderr[i] <= 'z' {
        let i = choose|i: int| 0 <= i < stderr.len() && 'a' <= #[trigger] stderr[i] <= 'z';
        crate::text::trimming_keeps_the_rest(stderr, i);
        assert(all.skip(all.len() - stderr.len()) =~= stderr);
    }
}

/// An output of at most sixty lines and six thousand bytes is kept as it is; of a
/// longer one the last sixty lines count.
pub proof fn short_outputs_are_kept(output: Seq<char>)
    ensures
        lines_of(output).len() <= 60 && byte_len(join(lines_of(output), "\n"@)) <= 6000
            ==> tail_of(output) == join(lines_of(output), "\n"@),
        ({
            let all = lines_of(output);
            let last = join(all.skip(all.len() - 60), "\n"@);
            all.len() > 60 && byte_len(last) <= 6000 ==> finishes(tail_of(output), last)
        }),
{
    let all = lines_of(output);
    assert(all.skip(0) =~= all);
    if all.len() > 60 {
        let last = join(all.skip(all.len() - 60), "\n"@);
        let whole = tail_of(output);
        if byte_len(last) <= 6000 {
            assert(whole.skip(whole.len() - last.len()) =~= last);
        }
    }
}

/// Of a text that is too long its end is kept, behind a mark, as much as there is room for.
pub proof fn long_outputs_keep_their_end(text: Seq<char>)
    requires
        byte_len(text) > 6000,
    ensures
        bounded(text)[0] == '…',
        finishes(text, bounded(text).skip(1)),
        5996 < byte_len(bounded(text).skip(1)) <= 6000,
{
    cuts_waste_little(text, 6000);
    reveal_strlit("…");
    assert(bounded(text).skip(1) =~= end_within(text, 6000));
}

} // verus!
