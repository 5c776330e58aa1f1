//! What the command line shows, and how it reads what it is given.

use vstd::prelude::*;
use vstd::utf8::*;

use crate::config::{default_agent, AgentConfig, Config, ConfigModel};
use crate::engine::{integration_branch, integration_branch_text, short_id, short_text};
use crate::graph::{acyclic, schedule};
use crate::ids::{
    hex_digits, hex_digits_are_hex, id_number, id_text_round_trips, ApprovalId, AttemptId, RunId,
    TaskId,
};
use crate::model::{AttemptOutcome, AttemptOutcomeModel, CheckResult, CheckResultModel, RunStatus};
use crate::order::{filter_none, filter_step, models, Key, OrdMap, OrdSet};
use crate::prompts::held_within;
use crate::state::{
    seen_map, seen_map_dom, ApprovalState, ApprovalStateModel, AttemptState, AttemptStateModel,
    RunState, RunStateModel, TaskState, TaskStateModel,
};
use crate::server::owns_approval;
use crate::store::{RunSummary, RunSummaryModel};
use crate::text::{
    begins, byte_len, chars_of, decimal, drop_return, finishes, holds, join, join_texts,
    lines, lines_end_at_line_feeds, lines_of,
    pieces, pieces_never_none, same, seen, starts_with, text_of, texts, texts_push, trim, trimmed,
    u64_text, usize_text, views,
};
use crate::ui::{
    bold, colours_hide_nothing, cyan, dim, eight_are_held, five_are_held, green, painted, red,
    run_status, run_status_text, seven_are_held, six_are_held, task_status, task_status_text,
    two_are_held, yellow,
};

verus! {

/// A text of spaces.
pub open spec fn spaces(n: int) -> Seq<char> {
    Seq::new(
        if n < 0 {
            0
        } else {
            n as nat
        },
        |i: int| ' ',
    )
}

/// A text with spaces behind, up to a width.
pub open spec fn padded(text: Seq<char>, width: int) -> Seq<char> {
    text + spaces(width - text.len())
}

/// A text with spaces before, up to a width.
pub open spec fn pushed_right(text: Seq<char>, width: int) -> Seq<char> {
    spaces(width - text.len()) + text
}

fn push_spaces(r: &mut String, n: usize)
    ensures
        final(r)@ == old(r)@ + spaces(n as int),
{
    let ghost start = r@;
    let mut i: usize = 0;
    assert(start + spaces(0) =~= start);
    while i < n
        invariant
            i <= n,
            r@ == start + spaces(i as int),
        decreases n - i,
    {
        r.append(" ");
        proof {
            reveal_strlit(" ");
            assert(start + spaces(i + 1) =~= start + spaces(i as int) + " "@);
        }
        i += 1;
    }
}

/// The text with spaces behind, up to a width.
pub fn pad(text: &str, width: usize) -> (r: String)
    ensures
        r@ == padded(text@, width as int),
{
    let n: usize = chars_of(text).len();
    let mut r = text.to_owned();
    if n < width {
        push_spaces(&mut r, width - n);
    } else {
        assert(text@ + spaces(width - text@.len()) =~= text@);
    }
    r
}

/// The text with spaces before, up to a width.
pub fn pad_left(text: &str, width: usize) -> (r: String)
    ensures
        r@ == pushed_right(text@, width as int),
{
    let n: usize = chars_of(text).len();
    let mut r = String::new();
    if n < width {
        push_spaces(&mut r, width - n);
        assert(r@ =~= spaces(width - n));
    } else {
        assert(spaces(width - n) + text@ =~= text@);
        assert(r@ =~= spaces(width - n));
    }
    r.append(text);
    r
}

/// The runs whose short id starts with the text.
pub open spec fn runs_like(input: Seq<char>, runs: Seq<RunId>) -> Seq<RunId> {
    runs.filter(|id: RunId| begins(short_text(id), input))
}

/// The run that a text names: a full run id, or the start of the short id that
/// is shown in lists, where it fits one run only.
pub fn find_run(input: &str, runs: &Vec<RunId>) -> (r: Result<RunId, String>)
    ensures
        match id_number(RunId::prefix(), input@) {
            Some(n) => r matches Ok(id) && id.uuid == n,
            None => {
                let found = runs_like(input@, runs@);
                match r {
                    Ok(id) => found == seq![id],
                    Err(e) => found.len() != 1 && e@ == if found.len() == 0 {
                        "no run matches `"@ + input@ + "` (see `forgeline runs`)"@
                    } else {
                        "`"@ + input@ + "` matches several runs; use more characters"@
                    },
                }
            },
        },
{
    if let Ok(id) = RunId::parse(input) {
        return Ok(id);
    }
    let ghost p = |id: RunId| begins(short_text(id), input@);
    let mut found: Vec<RunId> = Vec::new();
    let mut i: usize = 0;
    proof {
        filter_none(runs@, p);
        assert(found@ =~= runs@.take(0).filter(p));
    }
    while i < runs.len()
        invariant
            i <= runs.len(),
            p == |id: RunId| begins(short_text(id), input@),
            found@ == runs@.take(i as int).filter(p),
        decreases runs.len() - i,
    {
        proof {
            filter_step(runs@, p, i as int);
        }
        if starts_with(short_id(runs[i]).as_str(), input) {
            found.push(runs[i]);
        }
        i += 1;
    }
    assert(runs@.take(i as int) =~= runs@);
    if found.len() == 1 {
        assert(found@ =~= seq![found@[0]]);
        Ok(found[0])
    } else if found.len() == 0 {
        let mut e = "no run matches `".to_owned();
        e.append(input);
        e.append("` (see `forgeline runs`)");
        Err(e)
    } else {
        let mut e = "`".to_owned();
        e.append(input);
        e.append("` matches several runs; use more characters");
        Err(e)
    }
}

/// A run is found by its full id, and by the short id that lists show of it where
/// no other run has the same one.
pub proof fn runs_are_found(id: RunId, runs: Seq<RunId>)
    requires
        runs.no_duplicates(),
        runs.contains(id),
        forall|other: RunId|
            runs.contains(other) && #[trigger] short_text(other) == short_text(id) ==> other == id,
    ensures
        id_number(RunId::prefix(), RunId::label(id)) == Some(id.uuid as int),
        id_number(RunId::prefix(), short_text(id)) is None,
        runs_like(short_text(id), runs) == seq![id],
{
    id_text_round_trips(RunId::prefix(), id.uuid);
    hex_digits_are_hex(id.uuid as int, 32);
    let short = short_text(id);
    assert(short.len() == 8);
    reveal_strlit("run");
    reveal_strlit("_");
    if begins(short, "run"@ + "_"@) {
        assert(short.take(4)[3] == '_');
        assert(short[3] == hex_digits(id.uuid as int, 32)[27]);
    }
    let p = |other: RunId| begins(short_text(other), short);
    let found = runs_like(short, runs);
    assert forall|other: RunId| runs.contains(other) implies #[trigger] p(other) == (other == id) by {
        hex_digits_are_hex(other.uuid as int, 32);
        assert(short_text(other).len() == 8);
        assert(short_text(other).take(8) =~= short_text(other));
        assert(short.take(8) =~= short);
    }
    let at = choose|i: int| 0 <= i < runs.len() && runs[i] == id;
    runs.lemma_filter_contains(p, at);
    assert forall|i: int| 0 <= i < found.len() implies #[trigger] found[i] == id by {
        runs.lemma_filter_contains_rev(p, found[i]);
        runs.lemma_filter_pred(p, i);
        assert(p(found[i]));
    }
    filter_keeps_distinct(runs, p);
    if found.len() > 1 {
        assert(found[0] == found[1]);
    }
    assert(found =~= seq![id]);
}

proof fn filter_keeps_distinct(s: Seq<RunId>, p: spec_fn(RunId) -> bool)
    requires
        s.no_duplicates(),
    ensures
        s.filter(p).no_duplicates(),
    decreases s.len(),
{
    reveal(Seq::filter);
    if s.len() > 0 {
        let rest = s.drop_last();
        filter_keeps_distinct(rest, p);
        if p(s.last()) {
            let kept = rest.filter(p);
            assert forall|i: int| 0 <= i < kept.len() implies #[trigger] kept[i] != s.last() by {
                rest.lemma_filter_contains_rev(p, kept[i]);
                let j = choose|j: int| 0 <= j < rest.len() && rest[j] == kept[i];
                assert(s[j] == kept[i]);
            }
        }
    }
}

/// The first line of a text.
pub open spec fn first_line(text: Seq<char>) -> Seq<char> {
    if lines_of(text).len() == 0 {
        Seq::empty()
    } else {
        lines_of(text)[0]
    }
}

/// The title and the text of a request: with a file, what was given is the title
/// and the file holds the request; without one, the first line of what was given
/// is the title.
pub fn request_parts(given: &str, file: Option<String>) -> (r: (String, String))
    ensures
        match seen(file) {
            Some(body) => r.0@ == given@ && r.1@ == body,
            None => r.0@ == first_line(given@) && r.1@ == given@,
        },
{
    match file {
        Some(body) => (given.to_owned(), body),
        None => {
            let all = lines(given);
            assert(texts(all@).len() == all@.len());
            let title = if all.len() == 0 {
                let none = String::new();
                assert(none@ =~= Seq::<char>::empty());
                none
            } else {
                assert(texts(all@)[0] == all@[0]@);
                all[0].clone()
            };
            (title, given.to_owned())
        },
    }
}

/// Some line of the file, trimmed, is this one.
pub open spec fn has_line(text: Seq<char>, line: Seq<char>) -> bool {
    exists|i: int| 0 <= i < lines_of(text).len() && trimmed(#[trigger] lines_of(text)[i]) == line
}

/// The ignore file with the state directory added.
pub open spec fn ignoring(existing: Seq<char>) -> Seq<char> {
    existing + (if existing.len() > 0 && !finishes(existing, "\n"@) {
        "\n"@
    } else {
        Seq::empty()
    }) + "\n# Forgeline state (database, agent worktrees)\n.forgeline/\n"@
}

/// The ignore file after setting up a repository, where it has to change: the
/// state directory is added once.
pub fn with_ignored_state(existing: &str) -> (r: Option<String>)
    ensures
        seen(r) == if has_line(existing@, ".forgeline/"@) {
            None
        } else {
            Some(ignoring(existing@))
        },
{
    let all = lines(existing);
    let mut i: usize = 0;
    assert(texts(all@).len() == all@.len());
    while i < all.len()
        invariant
            i <= all.len(),
            texts(all@) == lines_of(existing@),
            texts(all@).len() == all@.len(),
            forall|k: int|
                0 <= k < i ==> trimmed(#[trigger] lines_of(existing@)[k]) != ".forgeline/"@,
        decreases all.len() - i,
    {
        assert(texts(all@)[i as int] == all@[i as int]@);
        if same(trim(all[i].as_str()).as_str(), ".forgeline/") {
            assert(trimmed(lines_of(existing@)[i as int]) == ".forgeline/"@);
            return None;
        }
        i += 1;
    }
    let mut r = existing.to_owned();
    proof {
        reveal_strlit("");
    }
    if !existing.is_empty() && !crate::text::ends_with(existing, "\n") {
        r.append("\n");
    } else {
        assert(existing@ + Seq::<char>::empty() =~= existing@);
    }
    r.append("\n# Forgeline state (database, agent worktrees)\n.forgeline/\n");
    Some(r)
}

/// Setting up a repository twice changes nothing the second time: what is added
/// the first time is found.
pub proof fn setup_is_done_once(existing: Seq<char>)
    ensures
        has_line(ignoring(existing), ".forgeline/"@),
{
    let whole = "\n# Forgeline state (database, agent worktrees)\n.forgeline/\n"@;
    reveal_strlit("\n# Forgeline state (database, agent worktrees)\n.forgeline/\n");
    reveal_strlit(".forgeline/");
    reveal_strlit("\n");
    let line = ".forgeline/"@;
    let after = ignoring(existing);
    let head = after.take(after.len() - line.len() - 1);
    assert(head.last() == '\n');
    assert(head + line + "\n"@ =~= after);
    last_line_is(head, line);
}

/// Characters that do not separate belong to the last piece.
proof fn pieces_grow(head: Seq<char>, line: Seq<char>, sep: spec_fn(char) -> bool)
    requires
        forall|i: int| 0 <= i < line.len() ==> !sep(#[trigger] line[i]),
    ensures
        pieces(head + line, sep) == pieces(head, sep).drop_last().push(
            pieces(head, sep).last() + line,
        ),
    decreases line.len(),
{
    pieces_never_none(head, sep);
    let front = pieces(head, sep);
    if line.len() == 0 {
        assert(head + line =~= head);
        assert(front.last() + line =~= front.last());
        assert(front.drop_last().push(front.last()) =~= front);
    } else {
        let short = line.drop_last();
        assert forall|i: int| 0 <= i < short.len() implies !sep(#[trigger] short[i]) by {
            assert(short[i] == line[i]);
        }
        pieces_grow(head, short, sep);
        assert((head + line).drop_last() =~= head + short);
        assert((head + line).last() == line.last());
        let mid = front.drop_last().push(front.last() + short);
        assert(mid.drop_last() =~= front.drop_last());
        assert((front.last() + short).push(line.last()) =~= front.last() + line);
    }
}

/// What stands between two line breaks at the end is the last line.
proof fn last_line_is(head: Seq<char>, line: Seq<char>)
    requires
        head.len() > 0,
        head.last() == '\n',
        line == ".forgeline/"@,
    ensures
        has_line(head + line + "\n"@, line),
{
    let sep = |c: char| c == '\n';
    reveal_strlit(".forgeline/");
    reveal_strlit("\n");
    let text = head + line + "\n"@;
    pieces_grow(head, line, sep);
    pieces_never_none(head.drop_last(), sep);
    assert(pieces(head, sep).last() =~= Seq::<char>::empty());
    let with_line = pieces(head + line, sep);
    assert(with_line.last() =~= line);
    assert(text.drop_last() =~= head + line);
    assert(text.last() == '\n');
    let parts = pieces(text, sep);
    assert(parts == with_line.push(Seq::empty()));
    let k = with_line.len() - 1;
    let f = |l: Seq<char>| drop_return(l);
    assert(parts.drop_last() =~= with_line);
    assert(lines_of(text) == with_line.map_values(f));
    assert(lines_of(text)[k] == drop_return(line));
    assert(drop_return(line) == line);
    assert(trimmed(line) == line);
}

/// The text without slashes behind.
pub open spec fn without_slashes(s: Seq<char>) -> Seq<char>
    decreases s.len(),
{
    if s.len() > 0 && s.last() == '/' {
        without_slashes(s.drop_last())
    } else {
        s
    }
}

fn drop_slashes(s: &str) -> (r: String)
    ensures
        r@ == without_slashes(s@),
{
    let v = chars_of(s);
    let mut n: usize = v.len();
    assert(v@.take(n as int) =~= v@);
    while n > 0 && v[n - 1] == '/'
        invariant
            n <= v@.len(),
            without_slashes(s@) == without_slashes(v@.take(n as int)),
        decreases n,
    {
        proof {
            assert(v@.take(n as int).last() == v@[n - 1]);
            assert(v@.take(n as int).drop_last() =~= v@.take(n - 1));
        }
        n -= 1;
    }
    proof {
        if n > 0 {
            assert(v@.take(n as int).last() == v@[n - 1]);
        }
        assert(v@.subrange(0, n as int) =~= v@.take(n as int));
    }
    text_of(&v, 0, n)
}

/// Some line of the ignore file names the state directory.
pub open spec fn ignores(text: Seq<char>, state_dir: Seq<char>) -> bool {
    exists|i: int|
        0 <= i < lines_of(text).len() && without_slashes(trimmed(#[trigger] lines_of(text)[i]))
            == without_slashes(state_dir)
}

/// Whether the ignore file names the state directory.
pub fn ignores_state_dir(text: &str, state_dir: &str) -> (b: bool)
    ensures
        b == ignores(text@, state_dir@),
{
    let wanted = drop_slashes(state_dir);
    let all = lines(text);
    let mut i: usize = 0;
    assert(texts(all@).len() == all@.len());
    while i < all.len()
        invariant
            i <= all.len(),
            texts(all@) == lines_of(text@),
            texts(all@).len() == all@.len(),
            wanted@ == without_slashes(state_dir@),
            forall|k: int|
                0 <= k < i ==> without_slashes(trimmed(#[trigger] lines_of(text@)[k])) != wanted@,
        decreases all.len() - i,
    {
        assert(texts(all@)[i as int] == all@[i as int]@);
        let line = trim(all[i].as_str());
        if same(drop_slashes(line.as_str()).as_str(), wanted.as_str()) {
            assert(without_slashes(trimmed(lines_of(text@)[i as int])) == wanted@);
            return true;
        }
        i += 1;
    }
    false
}

/// The runtimes that a configuration names, or the built-in one where it names
/// no agent.
pub open spec fn named_runtimes(config: ConfigModel) -> Set<Seq<char>> {
    if config.agents.dom() == Set::<Seq<char>>::empty() {
        Set::empty().insert(default_agent().runtime)
    } else {
        Set::new(
            |name: Seq<char>|
                exists|role: Seq<char>| #[trigger]
                    config.agents.dom().contains(role) && config.agents[role].runtime == name,
        )
    }
}

/// The runtimes that a configuration names, each once and in order.
pub fn runtimes_of(config: &Config) -> (r: OrdSet<String>)
    requires
        config.wf(),
    ensures
        r.wf(),
        r@ == named_runtimes(config@),
{
    let mut r: OrdSet<String> = OrdSet::new();
    proof {
        config.agents.order_of_keys();
        seen_map_dom(config.agents@);
    }
    let ghost order = config.agents.order();
    if config.agents.is_empty() {
        let agent = AgentConfig::default();
        r.insert(agent.runtime);
        proof {
            assert(config@.agents.dom() =~= Set::<Seq<char>>::empty());
            assert(r@ =~= named_runtimes(config@));
        }
        return r;
    }
    let mut i: usize = 0;
    while i < config.agents.len()
        invariant
            i <= config.agents.order().len(),
            order == config.agents.order(),
            config.wf(),
            r.wf(),
            config@.agents.dom() == order.to_set(),
            forall|name: Seq<char>| #[trigger]
                r@.contains(name) <==> exists|k: int|
                    0 <= k < i && config@.agents[#[trigger] order[k]].runtime == name,
        decreases config.agents.order().len() - i,
    {
        proof {
            config.agents.position(i as int);
            assert(config.agents.held()[i as int]@ == config@.agents[order[i as int]]);
        }
        let name = config.agents.value_at(i).runtime.clone();
        let ghost before = r@;
        let ghost added = name@;
        r.insert(name);
        proof {
            assert forall|n: Seq<char>| #[trigger] r@.contains(n) <==> exists|k: int|
                0 <= k < i + 1 && config@.agents[#[trigger] order[k]].runtime == n by {
                if r@.contains(n) {
                    if n == added {
                        assert(config@.agents[order[i as int]].runtime == n);
                    } else {
                        assert(before.contains(n));
                        let k = choose|k: int|
                            0 <= k < i && config@.agents[#[trigger] order[k]].runtime == n;
                        assert(0 <= k < i + 1 && config@.agents[order[k]].runtime == n);
                    }
                }
                if exists|k: int|
                    0 <= k < i + 1 && config@.agents[#[trigger] order[k]].runtime == n {
                    let k = choose|k: int|
                        0 <= k < i + 1 && config@.agents[#[trigger] order[k]].runtime == n;
                    if k < i {
                        assert(before.contains(n));
                    }
                }
            }
        }
        i += 1;
    }
    proof {
        assert(order.to_set().contains(order[0]));
        assert(config@.agents.dom() != Set::<Seq<char>>::empty());
        assert forall|n: Seq<char>| r@.contains(n) <==> #[trigger] named_runtimes(
            config@,
        ).contains(n) by {
            if r@.contains(n) {
                let k = choose|k: int|
                    0 <= k < i && config@.agents[#[trigger] order[k]].runtime == n;
                assert(order.to_set().contains(order[k]));
                assert(config@.agents.dom().contains(order[k]));
            }
            if named_runtimes(config@).contains(n) {
                let role = choose|role: Seq<char>| #[trigger]
                    config@.agents.dom().contains(role) && config@.agents[role].runtime == n;
                assert(order.to_set().contains(role));
                let k = choose|k: int| 0 <= k < order.len() && order[k] == role;
                assert(config@.agents[order[k]].runtime == n);
            }
        }
        assert(r@ =~= named_runtimes(config@));
    }
    r
}

/// Every line, four spaces to the right.
pub open spec fn indented(text: Seq<char>) -> Seq<char> {
    join(lines_of(text).map_values(|line: Seq<char>| "    "@ + line), "\n"@)
}

pub fn indent(text: &str) -> (r: String)
    ensures
        r@ == indented(text@),
{
    let all = lines(text);
    let ghost f = |line: Seq<char>| "    "@ + line;
    let ghost goal = lines_of(text@).map_values(f);
    let mut moved: Vec<String> = Vec::new();
    let mut i: usize = 0;
    assert(texts(moved@) =~= goal.take(0));
    assert(texts(all@).len() == all@.len());
    while i < all.len()
        invariant
            i <= all.len(),
            texts(all@) == lines_of(text@),
            texts(all@).len() == all@.len(),
            f == |line: Seq<char>| "    "@ + line,
            goal == lines_of(text@).map_values(f),
            texts(moved@) == goal.take(i as int),
        decreases all.len() - i,
    {
        let mut line = "    ".to_owned();
        line.append(all[i].as_str());
        proof {
            assert(texts(all@)[i as int] == all@[i as int]@);
            assert(goal[i as int] == line@);
            texts_push(moved@, line);
            assert(goal.take(i + 1) =~= goal.take(i as int).push(line@));
        }
        moved.push(line);
        i += 1;
    }
    assert(goal.take(i as int) =~= goal);
    join_texts(&moved, "\n")
}

/// Whether printing a run's events is over: at once, or, when following, once the
/// run has finished and nothing more came.
pub fn events_are_over(follow: bool, finished: bool, none: bool) -> (b: bool)
    ensures
        b == (!follow || (finished && none)),
{
    !follow || (finished && none)
}

/// A described event with its number.
pub fn event_line(color: bool, seq: u64, line: &str) -> (r: String)
    ensures
        r@ == painted(color, "2"@, pushed_right(decimal(seq as int), 6)) + " "@ + line@,
{
    let mut r = dim(color, pad_left(u64_text(seq).as_str(), 6).as_str());
    r.append(" ");
    r.append(line);
    r
}

/// How a run is shown in the list of runs.
pub open spec fn summary_text(color: bool, run: RunSummaryModel, spent: Seq<char>) -> Seq<char> {
    painted(color, "2"@, short_text(run.run_id)) + "  "@ + padded(
        run_status_text(color, run.status),
        22,
    ) + "  "@ + decimal(run.tasks_done as int) + "/"@ + decimal(run.tasks_total as int)
        + " tasks  "@ + painted(color, "2"@, spent) + "  "@ + run.title
}

/// A run in the list of runs. `spent` is its usage.
pub fn summary_line(color: bool, run: &RunSummary, spent: &str) -> (r: String)
    ensures
        r@ == summary_text(color, run@, spent@),
{
    let mut r = dim(color, short_id(run.run_id).as_str());
    r.append("  ");
    r.append(pad(run_status(color, run.status).as_str(), 22).as_str());
    r.append("  ");
    r.append(usize_text(run.tasks_done).as_str());
    r.append("/");
    r.append(usize_text(run.tasks_total).as_str());
    r.append(" tasks  ");
    r.append(dim(color, spent).as_str());
    r.append("  ");
    r.append(run.title.as_str());
    r
}

/// The list of runs, or how to start one where there is none.
pub open spec fn runs_text(color: bool, runs: Seq<RunSummaryModel>, spent: Seq<Seq<char>>) -> Seq<
    Seq<char>,
> {
    if runs.len() == 0 {
        seq!["No runs yet. Start one with `forgeline run \"…\"`."@]
    } else {
        Seq::new(runs.len(), |i: int| summary_text(color, runs[i], spent[i]))
    }
}

/// The lines that list runs. `spent` is the usage of each.
pub fn runs_lines(color: bool, runs: &Vec<RunSummary>, spent: &Vec<String>) -> (r: Vec<String>)
    requires
        runs@.len() == spent@.len(),
    ensures
        texts(r@) == runs_text(color, views(runs@), texts(spent@)),
{
    let mut r: Vec<String> = Vec::new();
    if runs.len() == 0 {
        let none = "No runs yet. Start one with `forgeline run \"…\"`.".to_owned();
        proof {
            texts_push(r@, none);
        }
        r.push(none);
        assert(texts(r@) =~= runs_text(color, views(runs@), texts(spent@)));
        return r;
    }
    let mut i: usize = 0;
    let ghost all = runs_text(color, views(runs@), texts(spent@));
    assert(texts(r@) =~= all.take(0));
    while i < runs.len()
        invariant
            i <= runs.len(),
            0 < runs@.len() == spent@.len(),
            all == runs_text(color, views(runs@), texts(spent@)),
            texts(r@) == all.take(i as int),
        decreases runs.len() - i,
    {
        let line = summary_line(color, &runs[i], spent[i].as_str());
        proof {
            texts_push(r@, line);
            assert(views(runs@)[i as int] == runs@[i as int]@);
            assert(texts(spent@)[i as int] == spent@[i as int]@);
            assert(all.take(i + 1) =~= all.take(i as int).push(line@));
        }
        r.push(line);
        i += 1;
    }
    assert(all.take(i as int) =~= all);
    r
}

/// How a pending approval is shown in the list of approvals.
pub open spec fn asked_text(color: bool, approval: ApprovalStateModel) -> Seq<char> {
    painted(color, "1"@, ApprovalId::label(approval.id)) + "  "@ + painted(
        color,
        "2"@,
        approval.kind.label_spec(),
    ) + "  "@ + approval.title + "\n"@ + indented(approval.details) + "\n"@
}

/// A pending approval in the list of approvals.
pub fn approval_text(color: bool, approval: &ApprovalState) -> (r: String)
    ensures
        r@ == asked_text(color, approval@),
{
    let mut r = bold(color, approval.id.to_text().as_str());
    r.append("  ");
    r.append(dim(color, approval.kind.label()).as_str());
    r.append("  ");
    r.append(approval.title.as_str());
    r.append("\n");
    r.append(indent(approval.details.as_str()).as_str());
    r.append("\n");
    r
}

/// The pending approvals of several runs, run by run.
pub open spec fn asked_texts(color: bool, runs: Seq<RunState>) -> Seq<Seq<char>>
    decreases runs.len(),
{
    if runs.len() == 0 {
        Seq::empty()
    } else {
        asked_texts(color, runs.drop_last()) + runs.last()@.pending().map_values(
            |a: ApprovalStateModel| asked_text(color, a),
        )
    }
}

/// The list of approvals, or that there is none.
pub open spec fn approvals_text(color: bool, runs: Seq<RunState>) -> Seq<Seq<char>> {
    if asked_texts(color, runs).len() == 0 {
        seq!["Nothing is waiting for you."@]
    } else {
        asked_texts(color, runs)
    }
}

fn push_asked(color: bool, run: &RunState, out: &mut Vec<String>)
    requires
        run.wf(),
    ensures
        texts(final(out)@) == texts(old(out)@) + run@.pending().map_values(
            |a: ApprovalStateModel| asked_text(color, a),
        ),
{
    let pending = run.pending_approvals();
    let ghost before = texts(out@);
    let ghost all = run@.pending().map_values(|a: ApprovalStateModel| asked_text(color, a));
    let mut i: usize = 0;
    assert(views(pending@).len() == pending@.len());
    assert(texts(out@) =~= before + all.take(0));
    while i < pending.len()
        invariant
            i <= pending.len(),
            views(pending@) == run@.pending(),
            views(pending@).len() == pending@.len(),
            all == run@.pending().map_values(|a: ApprovalStateModel| asked_text(color, a)),
            texts(out@) == before + all.take(i as int),
        decreases pending.len() - i,
    {
        let line = approval_text(color, pending[i]);
        proof {
            texts_push(out@, line);
            assert(views(pending@)[i as int] == pending@[i as int]@);
            assert(all.take(i + 1) =~= all.take(i as int).push(line@));
            assert((before + all.take(i as int)).push(line@) =~= before + all.take(i + 1));
        }
        out.push(line);
        i += 1;
    }
    assert(all.take(i as int) =~= all);
}

/// The lines that list the approvals that runs wait for.
pub fn approvals_lines(color: bool, runs: &Vec<RunState>) -> (r: Vec<String>)
    requires
        forall|i: int| 0 <= i < runs@.len() ==> (#[trigger] runs@[i]).wf(),
    ensures
        texts(r@) == approvals_text(color, runs@),
{
    let mut r: Vec<String> = Vec::new();
    let mut i: usize = 0;
    assert(texts(r@) =~= asked_texts(color, runs@.take(0)));
    while i < runs.len()
        invariant
            i <= runs.len(),
            forall|i: int| 0 <= i < runs@.len() ==> (#[trigger] runs@[i]).wf(),
            texts(r@) == asked_texts(color, runs@.take(i as int)),
        decreases runs.len() - i,
    {
        push_asked(color, &runs[i], &mut r);
        assert(runs@.take(i + 1).drop_last() =~= runs@.take(i as int));
        i += 1;
    }
    assert(runs@.take(i as int) =~= runs@);
    assert(texts(r@).len() == r@.len());
    if r.len() == 0 {
        let none = "Nothing is waiting for you.".to_owned();
        proof {
            texts_push(r@, none);
        }
        r.push(none);
        assert(texts(r@) =~= approvals_text(color, runs@));
    }
    r
}

/// The run that an approval belongs to: the first one that has it.
pub fn find_approval(id: ApprovalId, runs: &Vec<RunState>) -> (r: Result<RunId, String>)
    requires
        forall|i: int| 0 <= i < runs@.len() ==> (#[trigger] runs@[i]).wf(),
    ensures
        match r {
            Ok(run_id) => exists|i: int|
                0 <= i < runs@.len() && (#[trigger] runs@[i])@.id == run_id
                    && runs@[i]@.approvals.dom().contains(id) && forall|k: int|
                    0 <= k < i ==> !(#[trigger] runs@[k])@.approvals.dom().contains(id),
            Err(e) => e@ == "no pending approval "@ + ApprovalId::label(id) && forall|i: int|
                0 <= i < runs@.len() ==> !(#[trigger] runs@[i])@.approvals.dom().contains(id),
        },
{
    let mut i: usize = 0;
    while i < runs.len()
        invariant
            i <= runs.len(),
            forall|i: int| 0 <= i < runs@.len() ==> (#[trigger] runs@[i]).wf(),
            forall|k: int|
                0 <= k < i ==> !(#[trigger] runs@[k])@.approvals.dom().contains(id),
        decreases runs.len() - i,
    {
        if owns_approval(&runs[i], id) {
            let run_id = runs[i].id;
            assert(runs@[i as int]@.id == run_id);
            return Ok(run_id);
        }
        i += 1;
    }
    let mut text = "no pending approval ".to_owned();
    text.append(id.to_text().as_str());
    Err(text)
}

/// Where a configuration comes from.
#[derive(Debug, Clone, Copy, PartialEq, Eq, Structural)]
pub enum ConfigSource {
    /// The base branch, which agents cannot change.
    Committed,
    /// The working tree, as long as nothing is committed.
    WorkingTree,
    /// There is none: the built-in one applies.
    BuiltIn,
}

/// Where to read the configuration, by whether there is one on the base branch
/// and in the working tree.
pub fn config_source(committed: bool, local: bool) -> (r: ConfigSource)
    ensures
        r == if committed {
            ConfigSource::Committed
        } else if local {
            ConfigSource::WorkingTree
        } else {
            ConfigSource::BuiltIn
        },
{
    if committed {
        ConfigSource::Committed
    } else if local {
        ConfigSource::WorkingTree
    } else {
        ConfigSource::BuiltIn
    }
}

/// The longest key, at least four bytes.
pub open spec fn widest(s: RunStateModel, ids: Seq<TaskId>) -> int
    decreases ids.len(),
{
    if ids.len() == 0 {
        4
    } else {
        let rest = widest(s, ids.drop_last());
        let n = byte_len(s.tasks[ids.last()].spec.key);
        if n > rest {
            n
        } else {
            rest
        }
    }
}

fn key_width(state: &RunState) -> (n: usize)
    requires
        state.wf(),
    ensures
        n == widest(state@, state@.task_order()),
{
    let ghost order = state.tasks.order();
    proof {
        state.tasks.order_of_keys();
        seen_map_dom(state.tasks@);
    }
    let mut n: usize = 4;
    let mut i: usize = 0;
    while i < state.tasks.len()
        invariant
            i <= state.tasks.order().len(),
            order == state.tasks.order(),
            state.wf(),
            n == widest(state@, order.take(i as int)),
        decreases state.tasks.order().len() - i,
    {
        let task = state.tasks.value_at(i);
        proof {
            state.tasks.position(i as int);
            assert(task@ == state@.tasks[order[i as int]]);
            assert(order.take(i + 1).drop_last() =~= order.take(i as int));
            assert(order.take(i + 1).last() == order[i as int]);
        }
        let size: usize = task.spec.key.as_str().as_bytes().len();
        if size > n {
            n = size;
        }
        i += 1;
    }
    assert(order.take(i as int) =~= order);
    n
}

/// The tasks in the order in which they are shown: dependencies first.
pub open spec fn shown_tasks(s: RunStateModel) -> Seq<TaskId> {
    if acyclic(s.graph()) {
        schedule::<TaskId>(s.graph())
    } else {
        Seq::empty()
    }
}

fn tasks_to_show(state: &RunState) -> (r: Vec<TaskId>)
    requires
        state.wf(),
    ensures
        r@ == shown_tasks(state@),
        forall|i: int| 0 <= i < r@.len() ==> state@.tasks.dom().contains(#[trigger] r@[i]),
{
    match state.graph().topo_order() {
        Ok(order) => {
            assert(models(order@) =~= order@);
            proof {
                assert forall|i: int| 0 <= i < order@.len() implies state@.tasks.dom().contains(
                    #[trigger] order@[i],
                ) by {
                    assert(order@.contains(order@[i]));
                    assert(order@.to_set().contains(order@[i]));
                    assert(state@.graph().dom().contains(order@[i]));
                }
            }
            order
        },
        Err(_) => {
            let none: Vec<TaskId> = Vec::new();
            assert(none@ =~= Seq::<TaskId>::empty());
            none
        },
    }
}

/// The line of a task.
pub open spec fn task_line(color: bool, width: int, t: TaskStateModel) -> Seq<char> {
    "  "@ + padded(t.spec.key, width) + "  "@ + padded(task_status_text(color, t.status), 9)
        + " "@ + t.spec.title + if t.spec.depends_on.len() == 0 {
        Seq::empty()
    } else {
        painted(color, "2"@, " ← "@ + join(t.spec.depends_on, ", "@))
    }
}

fn show_task(color: bool, width: usize, t: &TaskState) -> (r: String)
    ensures
        r@ == task_line(color, width as int, t@),
{
    let mut r = "  ".to_owned();
    r.append(pad(t.spec.key.as_str(), width).as_str());
    r.append("  ");
    r.append(pad(task_status(color, t.status).as_str(), 9).as_str());
    r.append(" ");
    r.append(t.spec.title.as_str());
    assert(views(t.spec.depends_on@).len() == t.spec.depends_on@.len());
    if t.spec.depends_on.len() > 0 {
        let mut deps = " ← ".to_owned();
        deps.append(join_texts(&t.spec.depends_on, ", ").as_str());
        r.append(dim(color, deps.as_str()).as_str());
    } else {
        assert(r@ + Seq::<char>::empty() =~= r@);
    }
    r
}

/// How an attempt ended, or that it has not.
pub open spec fn outcome_text(color: bool, outcome: Option<AttemptOutcomeModel>) -> Seq<char> {
    match outcome {
        None => painted(color, "36"@, "running"@),
        Some(AttemptOutcomeModel::Succeeded { .. }) => painted(color, "32"@, "verified"@),
        Some(AttemptOutcomeModel::Failed { kind, .. }) => painted(
            color,
            "31"@,
            "failed ("@ + kind.label_spec() + ")"@,
        ),
        Some(AttemptOutcomeModel::Cancelled) => painted(color, "2"@, "cancelled"@),
    }
}

/// The checks of an attempt, each in the color of its result.
pub open spec fn check_names(color: bool, checks: Seq<CheckResultModel>) -> Seq<Seq<char>> {
    checks.map_values(
        |c: CheckResultModel|
            painted(
                color,
                if c.passed {
                    "32"@
                } else {
                    "31"@
                },
                c.name,
            ),
    )
}

/// The line of an attempt. `spent` is its usage.
pub open spec fn attempt_line(
    color: bool,
    width: int,
    a: AttemptStateModel,
    spent: Seq<char>,
) -> Seq<char> {
    "  "@ + padded(Seq::empty(), width) + "  #"@ + decimal(a.number as int) + " "@ + outcome_text(
        color,
        a.outcome,
    ) + "  "@ + painted(color, "2"@, a.branch) + "  "@ + painted(color, "2"@, spent) + "  "@
        + join(check_names(color, a.checks), " "@)
}

fn show_checks(color: bool, checks: &Vec<CheckResult>) -> (r: Vec<String>)
    ensures
        texts(r@) == check_names(color, views(checks@)),
{
    let ghost goal = check_names(color, views(checks@));
    let mut r: Vec<String> = Vec::new();
    let mut i: usize = 0;
    assert(texts(r@) =~= goal.take(0));
    while i < checks.len()
        invariant
            i <= checks.len(),
            goal == check_names(color, views(checks@)),
            texts(r@) == goal.take(i as int),
        decreases checks.len() - i,
    {
        let name = checks[i].name.as_str();
        let text = if checks[i].passed {
            green(color, name)
        } else {
            red(color, name)
        };
        proof {
            assert(views(checks@)[i as int] == checks@[i as int]@);
            assert(goal[i as int] == text@);
            texts_push(r@, text);
            assert(goal.take(i + 1) =~= goal.take(i as int).push(text@));
        }
        r.push(text);
        i += 1;
    }
    assert(goal.take(i as int) =~= goal);
    r
}

fn show_attempt(color: bool, width: usize, a: &AttemptState, spent: &str) -> (r: String)
    ensures
        r@ == attempt_line(color, width as int, a@, spent@),
{
    proof {
        reveal_strlit("");
        assert(""@ =~= Seq::<char>::empty());
    }
    let mut r = "  ".to_owned();
    r.append(pad("", width).as_str());
    r.append("  #");
    r.append(u64_text(a.number as u64).as_str());
    r.append(" ");
    match &a.outcome {
        None => {
            r.append(cyan(color, "running").as_str());
        },
        Some(AttemptOutcome::Succeeded { .. }) => {
            r.append(green(color, "verified").as_str());
        },
        Some(AttemptOutcome::Failed { kind, .. }) => {
            let mut text = "failed (".to_owned();
            text.append(kind.label());
            text.append(")");
            r.append(red(color, text.as_str()).as_str());
        },
        Some(AttemptOutcome::Cancelled) => {
            r.append(dim(color, "cancelled").as_str());
        },
    }
    r.append("  ");
    r.append(dim(color, a.branch.as_str()).as_str());
    r.append("  ");
    r.append(dim(color, spent).as_str());
    r.append("  ");
    r.append(join_texts(&show_checks(color, &a.checks), " ").as_str());
    r
}

/// What is known of an attempt's usage.
pub open spec fn spent_text(spent: Map<AttemptId, Seq<char>>, id: AttemptId) -> Seq<char> {
    if spent.dom().contains(id) {
        spent[id]
    } else {
        Seq::empty()
    }
}

/// The lines of a task: its own, and one for each attempt.
pub open spec fn task_block(
    color: bool,
    width: int,
    s: RunStateModel,
    spent: Map<AttemptId, Seq<char>>,
    id: TaskId,
) -> Seq<Seq<char>> {
    seq![task_line(color, width, s.tasks[id])] + s.tasks[id].attempts.map_values(
        |a: AttemptId| attempt_line(color, width, s.attempts[a], spent_text(spent, a)),
    )
}

/// The lines of several tasks.
pub open spec fn task_blocks(
    color: bool,
    width: int,
    s: RunStateModel,
    spent: Map<AttemptId, Seq<char>>,
    ids: Seq<TaskId>,
) -> Seq<Seq<char>>
    decreases ids.len(),
{
    if ids.len() == 0 {
        Seq::empty()
    } else {
        task_blocks(color, width, s, spent, ids.drop_last()) + task_block(
            color,
            width,
            s,
            spent,
            ids.last(),
        )
    }
}

fn show_task_block(
    color: bool,
    width: usize,
    state: &RunState,
    spent: &OrdMap<AttemptId, String>,
    id: TaskId,
    out: &mut Vec<String>,
)
    requires
        state.wf(),
        spent.wf(),
        state@.tasks.dom().contains(id),
    ensures
        texts(final(out)@) == texts(old(out)@) + task_block(
            color,
            width as int,
            state@,
            seen_map(spent@),
            id,
        ),
{
    let ghost s = state@;
    let ghost before = texts(out@);
    let ghost goal = task_block(color, width as int, s, seen_map(spent@), id);
    proof {
        seen_map_dom(state.tasks@);
        seen_map_dom(state.attempts@);
        seen_map_dom(spent@);
    }
    if let Some(task) = state.tasks.get(&id) {
        let line = show_task(color, width, task);
        proof {
            texts_push(out@, line);
            assert(before.push(line@) =~= before + goal.take(1));
        }
        out.push(line);
        let mut i: usize = 0;
        while i < task.attempts.len()
            invariant
                i <= task.attempts.len(),
                state.wf(),
                spent.wf(),
                s == state@,
                state.attempts@.dom() == s.attempts.dom(),
                seen_map(spent@).dom() == spent@.dom(),
                s.tasks.dom().contains(id),
                task@ == s.tasks[id],
                goal == task_block(color, width as int, s, seen_map(spent@), id),
                texts(out@) == before + goal.take(i + 1),
            decreases task.attempts.len() - i,
        {
            let a = task.attempts[i];
            proof {
                assert(s.tasks[id].attempts[i as int] == a);
                assert(s.tasks[id].attempts.contains(a));
                assert(s.attempts.dom().contains(a));
            }
            if let Some(attempt) = state.attempts.get(&a) {
                let line = match spent.get(&a) {
                    Some(text) => show_attempt(color, width, attempt, text.as_str()),
                    None => {
                        proof {
                            reveal_strlit("");
                            assert(""@ =~= Seq::<char>::empty());
                        }
                        show_attempt(color, width, attempt, "")
                    },
                };
                proof {
                    assert(goal[i + 1] == line@);
                    texts_push(out@, line);
                    assert((before + goal.take(i + 1)).push(line@) =~= before + goal.take(i + 2));
                }
                out.push(line);
            }
            i += 1;
        }
        assert(goal.take(i + 1) =~= goal);
    }
}

/// What is said of an approval that is waited for.
pub open spec fn waiting_line(color: bool, a: ApprovalStateModel) -> Seq<char> {
    "  "@ + painted(color, "33"@, "waiting:"@) + " "@ + a.title + "  →  forgeline approve "@
        + ApprovalId::label(a.id)
}

/// The approvals that are waited for, after an empty line.
pub open spec fn waiting_lines(color: bool, s: RunStateModel) -> Seq<Seq<char>> {
    if s.pending().len() == 0 {
        Seq::empty()
    } else {
        seq![Seq::empty()] + s.pending().map_values(|a: ApprovalStateModel| waiting_line(color, a))
    }
}

fn show_waiting(color: bool, state: &RunState, out: &mut Vec<String>)
    requires
        state.wf(),
    ensures
        texts(final(out)@) == texts(old(out)@) + waiting_lines(color, state@),
{
    let ghost before = texts(out@);
    let ghost goal = waiting_lines(color, state@);
    let pending = state.pending_approvals();
    assert(views(pending@).len() == pending@.len());
    if pending.len() == 0 {
        assert(before + goal =~= before);
        return;
    }
    let blank = String::new();
    proof {
        assert(blank@ =~= Seq::<char>::empty());
        texts_push(out@, blank);
        assert(before.push(blank@) =~= before + goal.take(1));
    }
    out.push(blank);
    let mut i: usize = 0;
    while i < pending.len()
        invariant
            i <= pending.len(),
            views(pending@) == state@.pending(),
            pending@.len() == state@.pending().len(),
            pending@.len() > 0,
            goal == waiting_lines(color, state@),
            texts(out@) == before + goal.take(i + 1),
        decreases pending.len() - i,
    {
        let mut line = "  ".to_owned();
        line.append(yellow(color, "waiting:").as_str());
        line.append(" ");
        line.append(pending[i].title.as_str());
        line.append("  →  forgeline approve ");
        line.append(pending[i].id.to_text().as_str());
        proof {
            assert(views(pending@)[i as int] == pending@[i as int]@);
            assert(goal[i + 1] == line@);
            texts_push(out@, line);
            assert((before + goal.take(i + 1)).push(line@) =~= before + goal.take(i + 2));
        }
        out.push(line);
        i += 1;
    }
    assert(goal.take(i + 1) =~= goal);
}

/// The first lines of a run. `spent` is its usage.
pub open spec fn head_lines(color: bool, s: RunStateModel, spent: Seq<char>) -> Seq<Seq<char>> {
    seq![
        painted(color, "1"@, s.spec.title) + " "@ + painted(color, "2"@, RunId::label(s.id))
            + "  "@ + run_status_text(color, s.status),
    ] + (match s.status_reason {
        Some(reason) => seq!["  "@ + reason],
        None => Seq::empty(),
    }) + seq![
        "  base "@ + s.spec.base_ref + "  →  integration branch "@ + painted(
            color,
            "1"@,
            integration_branch_text(s.id),
        ),
        "  spent "@ + spent,
        Seq::empty(),
    ]
}

fn show_head(color: bool, state: &RunState, spent: &str) -> (r: Vec<String>)
    ensures
        texts(r@) == head_lines(color, state@, spent@),
{
    let mut r: Vec<String> = Vec::new();
    let mut line = bold(color, state.spec.title.as_str());
    line.append(" ");
    line.append(dim(color, state.id.to_text().as_str()).as_str());
    line.append("  ");
    line.append(run_status(color, state.status).as_str());
    r.push(line);
    if let Some(reason) = &state.status_reason {
        let mut why = "  ".to_owned();
        why.append(reason.as_str());
        r.push(why);
    }
    let mut base = "  base ".to_owned();
    base.append(state.spec.base_ref.as_str());
    base.append("  →  integration branch ");
    base.append(bold(color, integration_branch(state.id).as_str()).as_str());
    r.push(base);
    let mut cost = "  spent ".to_owned();
    cost.append(spent);
    r.push(cost);
    let blank = String::new();
    assert(blank@ =~= Seq::<char>::empty());
    r.push(blank);
    assert(texts(r@) =~= head_lines(color, state@, spent@));
    r
}

/// What to do with a run that succeeded.
pub open spec fn closing_lines(s: RunStateModel) -> Seq<Seq<char>> {
    if s.status == RunStatus::Succeeded {
        seq![
            Seq::empty(),
            "  Review: git log --oneline "@ + s.spec.base_ref + ".."@ + integration_branch_text(
                s.id,
            ),
            "  Merge:  git merge "@ + integration_branch_text(s.id),
        ]
    } else {
        Seq::empty()
    }
}

fn show_closing(state: &RunState, out: &mut Vec<String>)
    ensures
        texts(final(out)@) == texts(old(out)@) + closing_lines(state@),
{
    let ghost before = texts(out@);
    if state.status == RunStatus::Succeeded {
        let branch = integration_branch(state.id);
        let blank = String::new();
        assert(blank@ =~= Seq::<char>::empty());
        out.push(blank);
        let mut look = "  Review: git log --oneline ".to_owned();
        look.append(state.spec.base_ref.as_str());
        look.append("..");
        look.append(branch.as_str());
        out.push(look);
        let mut merge = "  Merge:  git merge ".to_owned();
        merge.append(branch.as_str());
        out.push(merge);
    }
    assert(texts(out@) =~= before + closing_lines(state@));
}

/// A run as it is shown: its head, its tasks with their attempts, dependencies
/// first, the approvals that are waited for, and how to go on.
pub open spec fn run_text(
    color: bool,
    s: RunStateModel,
    total: Seq<char>,
    spent: Map<AttemptId, Seq<char>>,
) -> Seq<Seq<char>> {
    head_lines(color, s, total) + task_blocks(
        color,
        widest(s, s.task_order()),
        s,
        spent,
        shown_tasks(s),
    ) + waiting_lines(color, s) + closing_lines(s)
}

/// The lines that show a run. `total` is its usage, `spent` that of each attempt.
pub fn run_lines(
    color: bool,
    state: &RunState,
    total: &str,
    spent: &OrdMap<AttemptId, String>,
) -> (r: Vec<String>)
    requires
        state.wf(),
        spent.wf(),
    ensures
        texts(r@) == run_text(color, state@, total@, seen_map(spent@)),
{
    let mut r = show_head(color, state, total);
    let ghost head = texts(r@);
    let width = key_width(state);
    let order = tasks_to_show(state);
    let mut i: usize = 0;
    assert(head + task_blocks(color, width as int, state@, seen_map(spent@), order@.take(0))
        =~= head);
    while i < order.len()
        invariant
            i <= order.len(),
            state.wf(),
            spent.wf(),
            forall|k: int| 0 <= k < order@.len() ==> state@.tasks.dom().contains(#[trigger] order@[k]),
            texts(r@) == head + task_blocks(
                color,
                width as int,
                state@,
                seen_map(spent@),
                order@.take(i as int),
            ),
        decreases order.len() - i,
    {
        let ghost blocks = task_blocks(
            color,
            width as int,
            state@,
            seen_map(spent@),
            order@.take(i as int),
        );
        show_task_block(color, width, state, spent, order[i], &mut r);
        proof {
            let next = order@.take(i + 1);
            assert(next.drop_last() =~= order@.take(i as int));
            assert(next.last() == order@[i as int]);
            let block = task_block(color, width as int, state@, seen_map(spent@), order@[i as int]);
            assert(head + blocks + block =~= head + (blocks + block));
        }
        i += 1;
    }
    assert(order@.take(i as int) =~= order@);
    show_waiting(color, state, &mut r);
    show_closing(state, &mut r);
    r
}

/// Padding adds blanks and nothing else: behind a text, or before it, until it is as wide
/// as is asked for. A text that is wider stays as it is.
pub proof fn padding_adds_blanks(text: Seq<char>, width: int)
    ensures
        begins(padded(text, width), text),
        finishes(pushed_right(text, width), text),
        padded(text, width).len() == if width > text.len() {
            width
        } else {
            text.len() as int
        },
        pushed_right(text, width).len() == padded(text, width).len(),
        forall|i: int|
            text.len() <= i < padded(text, width).len() ==> #[trigger] padded(text, width)[i] == ' ',
        forall|i: int|
            0 <= i < pushed_right(text, width).len() - text.len() ==> #[trigger] pushed_right(
                text,
                width,
            )[i] == ' ',
{
    let a = padded(text, width);
    let b = pushed_right(text, width);
    assert(a.take(text.len() as int) =~= text);
    assert(b.skip(b.len() - text.len()) =~= text);
}

/// The title of a request is what stands before its first line feed.
pub proof fn titles_are_first_lines(a: Seq<char>, b: Seq<char>)
    requires
        forall|i: int| 0 <= i < a.len() ==> #[trigger] a[i] != '\n',
    ensures
        first_line(a) == a,
        first_line(a.push('\n') + b) == if a.len() > 0 && a.last() == '\r' {
            a.drop_last()
        } else {
            a
        },
{
    lines_end_at_line_feeds(a, b);
    if a.len() == 0 {
        assert(first_line(a) =~= a);
    }
}

/// Slashes at the end of a directory's name make no difference to whether it is ignored.
pub proof fn slashes_make_no_difference(text: Seq<char>, dir: Seq<char>)
    ensures
        ignores(text, dir.push('/')) == ignores(text, dir),
        without_slashes(dir).len() > 0 ==> without_slashes(dir).last() != '/',
        begins(dir, without_slashes(dir)),
        forall|i: int| without_slashes(dir).len() <= i < dir.len() ==> #[trigger] dir[i] == '/',
    decreases dir.len(),
{
    assert(dir.push('/').drop_last() =~= dir);
    let w = without_slashes(dir);
    if dir.len() > 0 && dir.last() == '/' {
        let front = dir.drop_last();
        slashes_make_no_difference(text, front);
        assert(dir.take(w.len() as int) =~= front.take(w.len() as int));
        assert forall|i: int| w.len() <= i < dir.len() implies #[trigger] dir[i] == '/' by {
            if i < dir.len() - 1 {
                assert(front[i] == '/');
            }
        }
    } else {
        assert(dir.take(w.len() as int) =~= dir);
    }
}

/// Setting a project up keeps what its list of ignored files holds.
pub proof fn setup_keeps_the_list(existing: Seq<char>)
    ensures
        begins(ignoring(existing), existing),
        ignoring(existing).len() > existing.len(),
{
    let all = ignoring(existing);
    assert(all.take(existing.len() as int) =~= existing);
    reveal_strlit("\n# Forgeline state (database, agent worktrees)\n.forgeline/\n");
}

/// One of the lines holds the text.
pub open spec fn is_told(lines: Seq<Seq<char>>, text: Seq<char>) -> bool {
    exists|i: int| 0 <= i < lines.len() && holds(#[trigger] lines[i], text)
}

proof fn told_further(a: Seq<Seq<char>>, lines: Seq<Seq<char>>, b: Seq<Seq<char>>, text: Seq<char>)
    requires
        is_told(lines, text),
    ensures
        is_told(a + lines + b, text),
{
    let i = choose|i: int| 0 <= i < lines.len() && holds(#[trigger] lines[i], text);
    let all = a + lines + b;
    assert(all[a.len() + i] == lines[i]);
}

proof fn told_at(lines: Seq<Seq<char>>, i: int, text: Seq<char>)
    requires
        0 <= i < lines.len(),
        holds(lines[i], text),
    ensures
        is_told(lines, text),
{
}

proof fn blocks_are_told(
    color: bool,
    width: int,
    s: RunStateModel,
    spent: Map<AttemptId, Seq<char>>,
    ids: Seq<TaskId>,
    k: int,
    text: Seq<char>,
)
    requires
        0 <= k < ids.len(),
        is_told(task_block(color, width, s, spent, ids[k]), text),
    ensures
        is_told(task_blocks(color, width, s, spent, ids), text),
    decreases ids.len(),
{
    let none = Seq::<Seq<char>>::empty();
    let front = task_blocks(color, width, s, spent, ids.drop_last());
    let last = task_block(color, width, s, spent, ids.last());
    let all = task_blocks(color, width, s, spent, ids);
    if k == ids.len() - 1 {
        told_further(front, last, none, text);
        assert(front + last + none =~= all);
    } else {
        blocks_are_told(color, width, s, spent, ids.drop_last(), k, text);
        told_further(none, front, last, text);
        assert(none + front + last =~= all);
    }
}

#[verifier::rlimit(60)]
proof fn task_lines_tell(color: bool, width: int, t: TaskStateModel)
    ensures
        holds(task_line(color, width, t), t.spec.key),
        holds(task_line(color, width, t), t.spec.title),
        holds(task_line(color, width, t), task_status_text(color, t.status)),
{
    let a = padded(t.spec.key, width);
    let b = padded(task_status_text(color, t.status), 9);
    let line = task_line(color, width, t);
    seven_are_held(
        "  "@,
        a,
        "  "@,
        b,
        " "@,
        t.spec.title,
        if t.spec.depends_on.len() == 0 {
            Seq::empty()
        } else {
            painted(color, "2"@, " ← "@ + join(t.spec.depends_on, ", "@))
        },
    );
    two_are_held(t.spec.key, spaces(width - t.spec.key.len()));
    two_are_held(
        task_status_text(color, t.status),
        spaces(9 - task_status_text(color, t.status).len()),
    );
    held_within(line, a, t.spec.key);
    held_within(line, b, task_status_text(color, t.status));
}

#[verifier::rlimit(60)]
proof fn attempt_lines_tell(color: bool, width: int, a: AttemptStateModel, spent: Seq<char>)
    ensures
        holds(attempt_line(color, width, a, spent), decimal(a.number as int)),
        holds(attempt_line(color, width, a, spent), outcome_text(color, a.outcome)),
        holds(attempt_line(color, width, a, spent), a.branch),
        holds(attempt_line(color, width, a, spent), spent),
{
    let n = decimal(a.number as int);
    let o = outcome_text(color, a.outcome);
    let b = painted(color, "2"@, a.branch);
    let c = painted(color, "2"@, spent);
    let line = attempt_line(color, width, a, spent);
    let head = "  "@ + padded(Seq::empty(), width) + "  #"@ + n + " "@ + o + "  "@ + b;
    eight_are_held("  "@, padded(Seq::empty(), width), "  #"@, n, " "@, o, "  "@, b);
    five_are_held(head, "  "@, c, "  "@, join(check_names(color, a.checks), " "@));
    colours_hide_nothing(color, "2"@, a.branch);
    colours_hide_nothing(color, "2"@, spent);
    held_within(line, head, n);
    held_within(line, head, o);
    held_within(line, head, b);
    held_within(line, b, a.branch);
    held_within(line, c, spent);
}

/// What is shown of a run: its title and its id; every task whose turn is known, with its
/// key, its title and its status; every attempt of such a task, with what came of it, its
/// branch and what it cost; and every approval that is waited for, with the command that
/// gives it. Once the run has succeeded, the branch to merge.
pub proof fn runs_are_told(
    color: bool,
    s: RunStateModel,
    total: Seq<char>,
    spent: Map<AttemptId, Seq<char>>,
    id: TaskId,
    n: int,
    k: int,
)
    ensures
        ({
            let lines = run_text(color, s, total, spent);
            let t = s.tasks[id];
            &&& is_told(lines, s.spec.title)
            &&& is_told(lines, RunId::label(s.id))
            &&& is_told(lines, run_status_text(color, s.status))
            &&& is_told(lines, total)
            &&& shown_tasks(s).contains(id) ==> {
                &&& is_told(lines, t.spec.key)
                &&& is_told(lines, t.spec.title)
                &&& is_told(lines, task_status_text(color, t.status))
                &&& 0 <= n < t.attempts.len() ==> {
                    &&& is_told(lines, outcome_text(color, s.attempts[t.attempts[n]].outcome))
                    &&& is_told(lines, s.attempts[t.attempts[n]].branch)
                    &&& is_told(lines, spent_text(spent, t.attempts[n]))
                }
            }
            &&& 0 <= k < s.pending().len() ==> {
                &&& is_told(lines, s.pending()[k].title)
                &&& is_told(lines, "forgeline approve "@ + ApprovalId::label(s.pending()[k].id))
            }
            &&& s.status == RunStatus::Succeeded ==> is_told(
                lines,
                "git merge "@ + integration_branch_text(s.id),
            )
        }),
{
    heads_tell(color, s, total, spent);
    if shown_tasks(s).contains(id) {
        tasks_are_told(color, s, total, spent, id, n);
    }
    if 0 <= k < s.pending().len() {
        waits_are_told(color, s, total, spent, k);
    }
    if s.status == RunStatus::Succeeded {
        closings_tell(color, s, total, spent);
    }
}

#[verifier::rlimit(60)]
proof fn heads_tell(
    color: bool,
    s: RunStateModel,
    total: Seq<char>,
    spent: Map<AttemptId, Seq<char>>,
)
    ensures
        ({
            let lines = run_text(color, s, total, spent);
            &&& is_told(lines, s.spec.title)
            &&& is_told(lines, RunId::label(s.id))
            &&& is_told(lines, run_status_text(color, s.status))
            &&& is_told(lines, total)
        }),
{
    let lines = run_text(color, s, total, spent);
    let head = head_lines(color, s, total);
    let title = painted(color, "1"@, s.spec.title);
    let label = painted(color, "2"@, RunId::label(s.id));
    assert(lines[0] == head[0]);
    five_are_held(title, " "@, label, "  "@, run_status_text(color, s.status));
    colours_hide_nothing(color, "1"@, s.spec.title);
    colours_hide_nothing(color, "2"@, RunId::label(s.id));
    held_within(lines[0], title, s.spec.title);
    held_within(lines[0], label, RunId::label(s.id));
    told_at(lines, 0, s.spec.title);
    told_at(lines, 0, RunId::label(s.id));
    told_at(lines, 0, run_status_text(color, s.status));
    let at = head.len() - 2;
    assert(head[at] == "  spent "@ + total);
    assert(lines[at] == head[at]);
    two_are_held("  spent "@, total);
    told_at(lines, at, total);
}

#[verifier::rlimit(60)]
proof fn tasks_are_told(
    color: bool,
    s: RunStateModel,
    total: Seq<char>,
    spent: Map<AttemptId, Seq<char>>,
    id: TaskId,
    n: int,
)
    requires
        shown_tasks(s).contains(id),
    ensures
        ({
            let lines = run_text(color, s, total, spent);
            let t = s.tasks[id];
            &&& is_told(lines, t.spec.key)
            &&& is_told(lines, t.spec.title)
            &&& is_told(lines, task_status_text(color, t.status))
            &&& 0 <= n < t.attempts.len() ==> {
                &&& is_told(lines, outcome_text(color, s.attempts[t.attempts[n]].outcome))
                &&& is_told(lines, s.attempts[t.attempts[n]].branch)
                &&& is_told(lines, spent_text(spent, t.attempts[n]))
            }
        }),
{
    let lines = run_text(color, s, total, spent);
    let ids = shown_tasks(s);
    let at = choose|at: int| 0 <= at < ids.len() && ids[at] == id;
    let width = widest(s, s.task_order());
    let t = s.tasks[id];
    let block = task_block(color, width, s, spent, id);
    let blocks = task_blocks(color, width, s, spent, ids);
    let before = head_lines(color, s, total);
    let after = waiting_lines(color, s) + closing_lines(s);
    assert(lines =~= before + blocks + after);
    assert forall|text: Seq<char>| #[trigger] is_told(block, text) implies is_told(lines, text) by {
        blocks_are_told(color, width, s, spent, ids, at, text);
        told_further(before, blocks, after, text);
    }
    task_lines_tell(color, width, t);
    assert(block[0] == task_line(color, width, t));
    told_at(block, 0, t.spec.key);
    told_at(block, 0, t.spec.title);
    told_at(block, 0, task_status_text(color, t.status));
    if 0 <= n < t.attempts.len() {
        let a = s.attempts[t.attempts[n]];
        let cost = spent_text(spent, t.attempts[n]);
        attempt_lines_tell(color, width, a, cost);
        assert(block[n + 1] == attempt_line(color, width, a, cost));
        told_at(block, n + 1, outcome_text(color, a.outcome));
        told_at(block, n + 1, a.branch);
        told_at(block, n + 1, cost);
    }
}

#[verifier::rlimit(60)]
proof fn waiting_lines_tell(color: bool, a: ApprovalStateModel)
    ensures
        holds(waiting_line(color, a), a.title),
        holds(waiting_line(color, a), "forgeline approve "@ + ApprovalId::label(a.id)),
{
    let id = ApprovalId::label(a.id);
    let told = "forgeline approve "@ + id;
    let line = waiting_line(color, a);
    let sign = painted(color, "33"@, "waiting:"@);
    let front = "  "@ + sign + " "@ + a.title;
    six_are_held("  "@, sign, " "@, a.title, "  →  forgeline approve "@, id);
    commands_are_spelled();
    commands_stand_together(front, "  →  "@, "forgeline approve "@, id);
    assert(line == front + "  →  "@ + told);
    two_are_held(front + "  →  "@, told);
}

proof fn commands_stand_together(a: Seq<char>, b: Seq<char>, c: Seq<char>, d: Seq<char>)
    ensures
        a + (b + c) + d == a + b + (c + d),
{
    assert(a + (b + c) + d =~= a + b + (c + d));
}

proof fn commands_are_spelled()
    ensures
        "  →  forgeline approve "@ == "  →  "@ + "forgeline approve "@,
{
    reveal_strlit("  →  forgeline approve ");
    reveal_strlit("  →  ");
    reveal_strlit("forgeline approve ");
    assert("  →  forgeline approve "@ =~= "  →  "@ + "forgeline approve "@);
}

#[verifier::rlimit(60)]
proof fn waits_are_told(
    color: bool,
    s: RunStateModel,
    total: Seq<char>,
    spent: Map<AttemptId, Seq<char>>,
    k: int,
)
    requires
        0 <= k < s.pending().len(),
    ensures
        is_told(run_text(color, s, total, spent), s.pending()[k].title),
        is_told(
            run_text(color, s, total, spent),
            "forgeline approve "@ + ApprovalId::label(s.pending()[k].id),
        ),
{
    let lines = run_text(color, s, total, spent);
    let a = s.pending()[k];
    let waits = waiting_lines(color, s);
    let before = head_lines(color, s, total) + task_blocks(
        color,
        widest(s, s.task_order()),
        s,
        spent,
        shown_tasks(s),
    );
    let id = ApprovalId::label(a.id);
    let told = "forgeline approve "@ + id;
    waiting_lines_tell(color, a);
    assert(waits[k + 1] == waiting_line(color, a));
    told_at(waits, k + 1, a.title);
    told_at(waits, k + 1, told);
    told_further(before, waits, closing_lines(s), a.title);
    told_further(before, waits, closing_lines(s), told);
}

#[verifier::rlimit(60)]
proof fn closings_tell(
    color: bool,
    s: RunStateModel,
    total: Seq<char>,
    spent: Map<AttemptId, Seq<char>>,
)
    requires
        s.status == RunStatus::Succeeded,
    ensures
        is_told(run_text(color, s, total, spent), "git merge "@ + integration_branch_text(s.id)),
{
    let none = Seq::<Seq<char>>::empty();
    let lines = run_text(color, s, total, spent);
    let closing = closing_lines(s);
    let before = head_lines(color, s, total) + task_blocks(
        color,
        widest(s, s.task_order()),
        s,
        spent,
        shown_tasks(s),
    ) + waiting_lines(color, s);
    let branch = integration_branch_text(s.id);
    let told = "git merge "@ + branch;
    reveal_strlit("  Merge:  git merge ");
    reveal_strlit("  Merge:  ");
    reveal_strlit("git merge ");
    assert("  Merge:  git merge "@ =~= "  Merge:  "@ + "git merge "@);
    two_are_held("  Merge:  "@, told);
    assert("  Merge:  "@ + told =~= closing[2]);
    told_at(closing, 2, told);
    told_further(before, closing, none, told);
    assert(before + closing + none =~= lines);
}

proof fn all_asked_texts_are_listed(color: bool, runs: Seq<RunState>, i: int, k: int)
    requires
        0 <= i < runs.len(),
        0 <= k < runs[i]@.pending().len(),
    ensures
        asked_texts(color, runs).contains(asked_text(color, runs[i]@.pending()[k])),
    decreases runs.len(),
{
    let front = asked_texts(color, runs.drop_last());
    let f = |a: ApprovalStateModel| asked_text(color, a);
    let last = runs.last()@.pending().map_values(f);
    let all = asked_texts(color, runs);
    assert(all == front + last);
    let text = asked_text(color, runs[i]@.pending()[k]);
    if i == runs.len() - 1 {
        assert(last[k] == text);
        assert(all[front.len() + k] == text);
    } else {
        all_asked_texts_are_listed(color, runs.drop_last(), i, k);
        let m = choose|m: int| 0 <= m < front.len() && front[m] == text;
        assert(all[m] == text);
    }
}

/// Every approval that a run waits for is listed, with its id and its title. Where no run
/// waits for one there is a single line.
#[verifier::rlimit(60)]
pub proof fn waiting_approvals_are_told(color: bool, runs: Seq<RunState>, i: int, k: int)
    ensures
        0 <= i < runs.len() && 0 <= k < runs[i]@.pending().len() ==> {
            &&& is_told(approvals_text(color, runs), ApprovalId::label(runs[i]@.pending()[k].id))
            &&& is_told(approvals_text(color, runs), runs[i]@.pending()[k].title)
        },
        (forall|m: int| 0 <= m < runs.len() ==> (#[trigger] runs[m])@.pending().len() == 0)
            ==> approvals_text(color, runs).len() == 1,
    decreases runs.len(),
{
    if 0 <= i < runs.len() && 0 <= k < runs[i]@.pending().len() {
        let a = runs[i]@.pending()[k];
        let lines = approvals_text(color, runs);
        let text = asked_text(color, a);
        let id = painted(color, "1"@, ApprovalId::label(a.id));
        all_asked_texts_are_listed(color, runs, i, k);
        let m = choose|m: int|
            0 <= m < asked_texts(color, runs).len() && asked_texts(color, runs)[m] == text;
        assert(lines[m] == text);
        eight_are_held(
            id,
            "  "@,
            painted(color, "2"@, a.kind.label_spec()),
            "  "@,
            a.title,
            "\n"@,
            indented(a.details),
            "\n"@,
        );
        colours_hide_nothing(color, "1"@, ApprovalId::label(a.id));
        held_within(text, id, ApprovalId::label(a.id));
        told_at(lines, m, ApprovalId::label(a.id));
        told_at(lines, m, a.title);
    }
    if forall|m: int| 0 <= m < runs.len() ==> (#[trigger] runs[m])@.pending().len() == 0 {
        nothing_is_asked(color, runs);
    }
}

proof fn nothing_is_asked(color: bool, runs: Seq<RunState>)
    requires
        forall|m: int| 0 <= m < runs.len() ==> (#[trigger] runs[m])@.pending().len() == 0,
    ensures
        asked_texts(color, runs).len() == 0,
    decreases runs.len(),
{
    if runs.len() > 0 {
        let front = runs.drop_last();
        assert forall|m: int| 0 <= m < front.len() implies (#[trigger] front[m])@.pending().len()
            == 0 by {
            assert(front[m] == runs[m]);
        }
        nothing_is_asked(color, front);
        assert(runs[runs.len() - 1]@.pending().len() == 0);
    }
}

/// Every run that is listed has a line with its id, its title and its status. Where there
/// is none there is a single line.
pub proof fn listed_runs_are_told(
    color: bool,
    runs: Seq<RunSummaryModel>,
    spent: Seq<Seq<char>>,
    i: int,
)
    requires
        runs.len() == spent.len(),
    ensures
        0 <= i < runs.len() ==> {
            let line = runs_text(color, runs, spent)[i];
            &&& runs_text(color, runs, spent).len() == runs.len()
            &&& holds(line, short_text(runs[i].run_id))
            &&& holds(line, runs[i].title)
            &&& holds(line, run_status_text(color, runs[i].status))
            &&& holds(
                line,
                decimal(runs[i].tasks_done as int) + "/"@ + decimal(runs[i].tasks_total as int)
                    + " tasks"@,
            )
            &&& holds(line, spent[i])
        },
        runs.len() == 0 ==> runs_text(color, runs, spent).len() == 1,
{
    if 0 <= i < runs.len() {
        summaries_tell(color, runs[i], spent[i]);
    }
}

#[verifier::rlimit(60)]
proof fn summaries_tell(color: bool, run: RunSummaryModel, spent: Seq<char>)
    ensures
        holds(summary_text(color, run, spent), short_text(run.run_id)),
        holds(summary_text(color, run, spent), run.title),
        holds(summary_text(color, run, spent), run_status_text(color, run.status)),
        holds(summary_text(color, run, spent), spent),
        holds(
            summary_text(color, run, spent),
            decimal(run.tasks_done as int) + "/"@ + decimal(run.tasks_total as int) + " tasks"@,
        ),
{
    let id = painted(color, "2"@, short_text(run.run_id));
    let word = run_status_text(color, run.status);
    let wide = padded(word, 22);
    let cost = painted(color, "2"@, spent);
    let count = decimal(run.tasks_done as int) + "/"@ + decimal(run.tasks_total as int) + " tasks"@;
    let line = summary_text(color, run, spent);
    tasks_are_spelled();
    eight_are_held(id, "  "@, wide, "  "@, count, "  "@, cost, "  "@ + run.title);
    counts_stand_together(
        id + "  "@ + wide + "  "@,
        decimal(run.tasks_done as int),
        decimal(run.tasks_total as int),
        cost,
        run.title,
    );
    let whole = id + "  "@ + wide + "  "@ + count + "  "@ + cost + ("  "@ + run.title);
    assert(line == whole);
    two_are_held("  "@, run.title);
    two_are_held(word, spaces(22 - word.len()));
    colours_hide_nothing(color, "2"@, short_text(run.run_id));
    colours_hide_nothing(color, "2"@, spent);
    held_within(line, id, short_text(run.run_id));
    held_within(line, wide, word);
    held_within(line, cost, spent);
    held_within(line, "  "@ + run.title, run.title);
}

proof fn counts_stand_together(
    a: Seq<char>,
    done: Seq<char>,
    all: Seq<char>,
    cost: Seq<char>,
    title: Seq<char>,
)
    ensures
        a + done + "/"@ + all + (" tasks"@ + "  "@) + cost + "  "@ + title == a + (done + "/"@ + all
            + " tasks"@) + "  "@ + cost + ("  "@ + title),
{
    assert(a + done + "/"@ + all + (" tasks"@ + "  "@) + cost + "  "@ + title =~= a + (done + "/"@
        + all + " tasks"@) + "  "@ + cost + ("  "@ + title));
}

proof fn tasks_are_spelled()
    ensures
        " tasks  "@ == " tasks"@ + "  "@,
{
    reveal_strlit(" tasks  ");
    reveal_strlit(" tasks");
    reveal_strlit("  ");
    assert(" tasks  "@ =~= " tasks"@ + "  "@);
}

/// The column of the keys is wide enough for every key, and for its own heading.
pub proof fn keys_fit_their_column(s: RunStateModel, ids: Seq<TaskId>, i: int)
    ensures
        widest(s, ids) >= 4,
        0 <= i < ids.len() ==> byte_len(s.tasks[ids[i]].spec.key) <= widest(s, ids),
        widest(s, ids) > 4 ==> exists|k: int|
            0 <= k < ids.len() && byte_len(s.tasks[#[trigger] ids[k]].spec.key) == widest(s, ids),
    decreases ids.len(),
{
    if ids.len() > 0 {
        let front = ids.drop_last();
        keys_fit_their_column(s, front, i);
        if widest(s, ids) > 4 {
            if widest(s, front) == widest(s, ids) {
                let k = choose|k: int|
                    0 <= k < front.len() && byte_len(s.tasks[#[trigger] front[k]].spec.key)
                        == widest(s, front);
                assert(ids[k] == front[k]);
            } else {
                assert(ids[ids.len() - 1] == ids.last());
            }
        }
    }
}

} // verus!
