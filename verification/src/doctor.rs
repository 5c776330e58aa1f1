//! Whether everything needed is installed and configured, in words.

use vstd::prelude::*;

use crate::agent::{ProbeReport, ProbeReportModel};
use crate::cli::{ignores, ignores_state_dir};
use crate::config::{Config, ConfigModel, CONFIG_FILE};
use crate::prompts::held_within;
use crate::text::{begins, decimal, holds, seen, texts, texts_push, usize_text};
use crate::ui::{dim, five_are_held, green, painted, red, three_are_held, yellow};

verus! {

/// Something is as it should be.
pub open spec fn ok_text(color: bool, label: Seq<char>, detail: Seq<char>) -> Seq<char> {
    painted(color, "32"@, "✓"@) + " "@ + label + " "@ + painted(color, "2"@, detail)
}

/// Something should be looked at.
pub open spec fn warn_text(color: bool, label: Seq<char>, detail: Seq<char>) -> Seq<char> {
    painted(color, "33"@, "!"@) + " "@ + label + " "@ + detail
}

/// Something is wrong.
pub open spec fn bad_text(color: bool, label: Seq<char>, detail: Seq<char>) -> Seq<char> {
    painted(color, "31"@, "✗"@) + " "@ + label + " "@ + detail
}

fn ok_line(color: bool, label: &str, detail: &str) -> (r: String)
    ensures
        r@ == ok_text(color, label@, detail@),
{
    let mut r = green(color, "✓");
    r.append(" ");
    r.append(label);
    r.append(" ");
    r.append(dim(color, detail).as_str());
    r
}

fn warn_line(color: bool, label: &str, detail: &str) -> (r: String)
    ensures
        r@ == warn_text(color, label@, detail@),
{
    let mut r = yellow(color, "!");
    r.append(" ");
    r.append(label);
    r.append(" ");
    r.append(detail);
    r
}

fn bad_line(color: bool, label: &str, detail: &str) -> (r: String)
    ensures
        r@ == bad_text(color, label@, detail@),
{
    let mut r = red(color, "✗");
    r.append(" ");
    r.append(label);
    r.append(" ");
    r.append(detail);
    r
}

/// That there is no repository to look at.
pub fn no_repository_line(color: bool, error: &str) -> (r: String)
    ensures
        r@ == bad_text(color, "git repository"@, error@),
{
    bad_line(color, "git repository", error)
}

/// What is said of the configuration.
pub open spec fn config_text(color: bool, error: Option<Seq<char>>) -> Seq<char> {
    match error {
        None => ok_text(color, CONFIG_FILE@, "valid"@),
        Some(message) => bad_text(color, CONFIG_FILE@, message),
    }
}

/// What is said of the checks.
pub open spec fn checks_text(color: bool, count: int) -> Seq<char> {
    if count == 0 {
        warn_text(
            color,
            "checks"@,
            "none configured: work is integrated without verification. Add [[checks]] to forgeline.toml."@,
        )
    } else {
        ok_text(color, "checks"@, decimal(count) + " configured"@)
    }
}

/// What is said of the state directory, by the file of what git ignores.
pub open spec fn state_dir_text(color: bool, dir: Seq<char>, gitignore: Seq<char>) -> Seq<char> {
    if ignores(gitignore, dir) {
        ok_text(color, "state directory ignored by git"@, dir)
    } else {
        warn_text(
            color,
            "state directory"@,
            "add `"@ + dir + "/` to .gitignore (forgeline init does this)"@,
        )
    }
}

/// What is said of a repository: where it is, its configuration, its checks and
/// its state directory.
pub open spec fn diagnosis_text(
    color: bool,
    root: Seq<char>,
    error: Option<Seq<char>>,
    config: ConfigModel,
    gitignore: Seq<char>,
) -> Seq<Seq<char>> {
    seq![
        ok_text(color, "git repository"@, root),
        config_text(color, error),
        checks_text(color, config.checks.len() as int),
        state_dir_text(color, config.project.state_dir, gitignore),
    ]
}

fn config_line(color: bool, error: &Option<String>) -> (r: String)
    ensures
        r@ == config_text(color, seen(*error)),
{
    match error {
        None => ok_line(color, CONFIG_FILE, "valid"),
        Some(message) => bad_line(color, CONFIG_FILE, message.as_str()),
    }
}

fn checks_line(color: bool, count: usize) -> (r: String)
    ensures
        r@ == checks_text(color, count as int),
{
    if count == 0 {
        return warn_line(
            color,
            "checks",
            "none configured: work is integrated without verification. Add [[checks]] to forgeline.toml.",
        );
    }
    let mut detail = usize_text(count);
    detail.append(" configured");
    ok_line(color, "checks", detail.as_str())
}

fn state_dir_line(color: bool, dir: &str, gitignore: &str) -> (r: String)
    ensures
        r@ == state_dir_text(color, dir@, gitignore@),
{
    if ignores_state_dir(gitignore, dir) {
        return ok_line(color, "state directory ignored by git", dir);
    }
    let mut detail = "add `".to_owned();
    detail.append(dir);
    detail.append("/` to .gitignore (forgeline init does this)");
    warn_line(color, "state directory", detail.as_str())
}

/// The lines on a repository. `config` is its configuration, or the built-in one
/// where that has an `error`; `gitignore` is what git ignores there.
pub fn diagnosis(
    color: bool,
    root: &str,
    error: Option<String>,
    config: &Config,
    gitignore: &str,
) -> (r: Vec<String>)
    ensures
        texts(r@) == diagnosis_text(color, root@, seen(error), config@, gitignore@),
{
    let mut r: Vec<String> = Vec::new();
    let lines: (String, String, String, String) = (
        ok_line(color, "git repository", root),
        config_line(color, &error),
        checks_line(color, config.checks.len()),
        state_dir_line(color, config.project.state_dir.as_str(), gitignore),
    );
    proof {
        texts_push(r@, lines.0);
        texts_push(r@.push(lines.0), lines.1);
        texts_push(r@.push(lines.0).push(lines.1), lines.2);
        texts_push(r@.push(lines.0).push(lines.1).push(lines.2), lines.3);
    }
    r.push(lines.0);
    r.push(lines.1);
    r.push(lines.2);
    r.push(lines.3);
    assert(texts(r@) =~= diagnosis_text(color, root@, seen(error), config@, gitignore@));
    r
}

/// What is said of a runtime that is named by the configuration, once it has been
/// probed. Nothing is known of one that nobody has registered.
pub open spec fn runtime_text(
    color: bool,
    name: Seq<char>,
    report: Option<ProbeReportModel>,
) -> Seq<char> {
    let label = "agent `"@ + name + "`"@;
    match report {
        None => bad_text(color, label, "unknown runtime"@),
        Some(report) => if report.available {
            ok_text(
                color,
                label,
                match report.version {
                    Some(version) => version,
                    None => Seq::empty(),
                },
            )
        } else {
            bad_text(
                color,
                label,
                match report.detail {
                    Some(detail) => detail,
                    None => "not available"@,
                },
            )
        },
    }
}

/// The line on a runtime that the configuration names.
pub fn runtime_line(color: bool, name: &str, report: &Option<ProbeReport>) -> (r: String)
    ensures
        r@ == runtime_text(color, name@, seen(*report)),
{
    let mut label = "agent `".to_owned();
    label.append(name);
    label.append("`");
    match report {
        None => bad_line(color, label.as_str(), "unknown runtime"),
        Some(report) => if report.available {
            match &report.version {
                Some(version) => ok_line(color, label.as_str(), version.as_str()),
                None => {
                    proof {
                        reveal_strlit("");
                    }
                    assert(""@ =~= Seq::<char>::empty());
                    ok_line(color, label.as_str(), "")
                },
            }
        } else {
            match &report.detail {
                Some(detail) => bad_line(color, label.as_str(), detail.as_str()),
                None => bad_line(color, label.as_str(), "not available"),
            }
        },
    }
}

proof fn signs_stand_in_front(
    color: bool,
    code: Seq<char>,
    sign: Seq<char>,
    label: Seq<char>,
    rest: Seq<char>,
)
    ensures
        begins(painted(color, code, sign) + " "@ + label + " "@ + rest, painted(color, code, sign)),
        holds(painted(color, code, sign) + " "@ + label + " "@ + rest, label),
        holds(painted(color, code, sign) + " "@ + label + " "@ + rest, rest),
{
    let front = painted(color, code, sign);
    let line = front + " "@ + label + " "@ + rest;
    five_are_held(front, " "@, label, " "@, rest);
    assert(line.take(front.len() as int) =~= front);
}

/// What is found is told: a line starts with a tick where all is well, and with a cross or
/// an exclamation mark where it is not, and then says what is wrong. Files that are
/// valid, checks that are configured, a state directory that is ignored and an agent that
/// is available are well.
#[verifier::rlimit(60)]
pub proof fn findings_are_told(
    error: Option<Seq<char>>,
    count: int,
    dir: Seq<char>,
    gitignore: Seq<char>,
    name: Seq<char>,
    report: Option<ProbeReportModel>,
)
    ensures
        error is None ==> begins(config_text(false, error), "✓"@),
        error matches Some(message) ==> begins(config_text(false, error), "✗"@) && holds(
            config_text(false, error),
            message,
        ),
        count == 0 ==> begins(checks_text(false, count), "!"@),
        count > 0 ==> begins(checks_text(false, count), "✓"@),
        ignores(gitignore, dir) ==> begins(state_dir_text(false, dir, gitignore), "✓"@),
        !ignores(gitignore, dir) ==> begins(state_dir_text(false, dir, gitignore), "!"@),
        report matches Some(r) ==> {
            let line = runtime_text(false, name, report);
            &&& r.available ==> begins(line, "✓"@) && (r.version matches Some(v) ==> holds(line, v))
            &&& !r.available ==> begins(line, "✗"@) && (r.detail matches Some(d) ==> holds(line, d))
            &&& holds(line, name)
        },
        report is None ==> begins(runtime_text(false, name, report), "✗"@) && holds(
            runtime_text(false, name, report),
            name,
        ),
{
    match error {
        None => {
            signs_stand_in_front(false, "32"@, "✓"@, CONFIG_FILE@, "valid"@);
        },
        Some(message) => {
            signs_stand_in_front(false, "31"@, "✗"@, CONFIG_FILE@, message);
        },
    }
    if count == 0 {
        signs_stand_in_front(
            false,
            "33"@,
            "!"@,
            "checks"@,
            "none configured: work is integrated without verification. Add [[checks]] to forgeline.toml."@,
        );
    } else {
        signs_stand_in_front(false, "32"@, "✓"@, "checks"@, decimal(count) + " configured"@);
    }
    if ignores(gitignore, dir) {
        signs_stand_in_front(false, "32"@, "✓"@, "state directory ignored by git"@, dir);
    } else {
        signs_stand_in_front(
            false,
            "33"@,
            "!"@,
            "state directory"@,
            "add `"@ + dir + "/` to .gitignore (forgeline init does this)"@,
        );
    }
    agents_are_told(name, report);
}

#[verifier::rlimit(60)]
proof fn agents_are_told(name: Seq<char>, report: Option<ProbeReportModel>)
    ensures
        report matches Some(r) ==> {
            let line = runtime_text(false, name, report);
            &&& r.available ==> begins(line, "✓"@) && (r.version matches Some(v) ==> holds(line, v))
            &&& !r.available ==> begins(line, "✗"@) && (r.detail matches Some(d) ==> holds(line, d))
            &&& holds(line, name)
        },
        report is None ==> begins(runtime_text(false, name, report), "✗"@) && holds(
            runtime_text(false, name, report),
            name,
        ),
{
    let label = "agent `"@ + name + "`"@;
    let line = runtime_text(false, name, report);
    three_are_held("agent `"@, name, "`"@);
    match report {
        None => {
            signs_stand_in_front(false, "31"@, "✗"@, label, "unknown runtime"@);
        },
        Some(r) => {
            if r.available {
                let rest = match r.version {
                    Some(version) => version,
                    None => Seq::empty(),
                };
                signs_stand_in_front(false, "32"@, "✓"@, label, rest);
            } else {
                let rest = match r.detail {
                    Some(detail) => detail,
                    None => "not available"@,
                };
                signs_stand_in_front(false, "31"@, "✗"@, label, rest);
            }
        },
    }
    held_within(line, label, name);
}

} // verus!
