//! Configuration and plans.
//!
//! A repository opts in with a `bodega.toml` at its root. The engine reads it
//! from the *base branch* (not from an agent's branch), so an agent cannot
//! weaken its own checks or permissions by editing the file.

use vstd::prelude::*;

use crate::agent::CODE_CLI;
use crate::money::Usd;
use crate::graph::{acyclic, fine_before, graph_of, is_refusal, pairs, DepGraph, GraphError};
use crate::json::{Json, JsonModel};
use crate::model::{TaskSpec, TaskSpecModel};
use crate::order::{models, Key, OrdMap, OrdSet};
use crate::state::{seen_map, seen_map_insert};
use crate::text::{
    begins, chars_of, contains, duplicate_all, duplicate_opt, ends_with, finishes, holds, is_space,
    pieces, pieces_part_at_separators, same, seen, split_pieces, starts_with, text_of, texts,
    texts_push, trim, trim_left, trim_start, trimmed, views, views_push, whole_texts_are_one_piece,
    Duplicate,
};

verus! {

/// File name looked up at the repository root.
pub const CONFIG_FILE: &'static str = "bodega.toml";

/// A commented starter config written by `bodega init`.
pub const TEMPLATE: &'static str = r#"# Bodega configuration. Read from the base branch, so agents cannot change
# their own checks or permissions. See docs/ARCHITECTURE.md.

[project]
# Branch (or commit) new runs start from. Defaults to the current branch.
# base_ref = "main"

[limits]
max_parallel_agents = 4      # agents running at once, across the run
max_attempts_per_task = 3    # fresh attempts before a task fails for good
max_fix_rounds = 2           # follow-up turns within an attempt after failed checks
attempt_timeout_secs = 3600
# max_cost_usd = 25.0        # stop the run when agents have spent this much
# max_tokens = 5000000

# Which agent does the work. `default` applies to every role without its own entry.
[agents.default]
runtime = "code-cli"         # or "mock" to try Bodega without spending tokens
# model = "opus-5"
permission_mode = "accept_edits"   # ask | accept_edits | plan
allowed_tools = ["Read", "Glob", "Grep", "Edit", "Write", "MultiEdit", "TodoWrite"]

# Deterministic checks run after every attempt and after every merge. A task is
# only done when all of them pass.
# [[checks]]
# name = "test"
# command = "cargo test --workspace"
# timeout_secs = 900

# How tool permission requests are answered. Deny wins over allow; anything
# else is escalated to a human (`bodega approvals`, `bodega approve`).
[permissions]
allow = ["Bash(cargo:*)", "Bash(npm test:*)", "Bash(git status:*)", "Bash(git diff:*)", "Bash(ls:*)"]
deny = ["WebFetch", "Bash(git push:*)", "Bash(rm -rf:*)"]
on_unknown = "escalate"      # escalate | deny
"#;

/// What is wrong with a configuration or a plan.
#[derive(Debug, PartialEq, Eq)]
pub enum ConfigError {
    /// The text is no TOML of the right shape.
    Toml { what: &'static str, message: String },
    /// The text is no JSON of the right shape.
    Json(String),
    Plan(String),
    Graph(GraphError),
}

impl ConfigError {
    pub open spec fn message_spec(&self) -> Seq<char> {
        match self {
            ConfigError::Toml { what, message } => "invalid "@ + what@ + ": "@ + message@,
            ConfigError::Json(message) => "invalid plan JSON: "@ + message@,
            ConfigError::Plan(message) => "invalid plan: "@ + message@,
            ConfigError::Graph(e) => "invalid plan: "@ + e.message_spec(),
        }
    }

    /// The error, in words.
    pub fn message(&self) -> (r: String)
        ensures
            r@ == self.message_spec(),
    {
        match self {
            ConfigError::Toml { what, message } => {
                let mut r = "invalid ".to_owned();
                r.append(what);
                r.append(": ");
                r.append(message.as_str());
                r
            },
            ConfigError::Json(message) => {
                let mut r = "invalid plan JSON: ".to_owned();
                r.append(message.as_str());
                r
            },
            ConfigError::Plan(message) => {
                let mut r = "invalid plan: ".to_owned();
                r.append(message.as_str());
                r
            },
            ConfigError::Graph(e) => {
                let mut r = "invalid plan: ".to_owned();
                r.append(e.message().as_str());
                r
            },
        }
    }
}

/// Where the project lives.
#[derive(Debug, PartialEq)]
pub struct Project {
    pub base_ref: Option<String>,
    /// Where the database and worktrees are kept, relative to the repository
    /// root.
    pub state_dir: String,
}

/// What a value of type `Project` stands for.
#[verifier::ext_equal]
pub struct ProjectModel {
    pub base_ref: Option<Seq<char>>,
    pub state_dir: Seq<char>,
}

impl View for Project {
    type V = ProjectModel;

    open spec fn view(&self) -> ProjectModel {
        ProjectModel {
            base_ref: seen(self.base_ref),
            state_dir: self.state_dir@,
        }
    }
}

impl Duplicate for Project {
    fn duplicate(&self) -> (r: Project) {
        Project {
            base_ref: duplicate_opt(&self.base_ref),
            state_dir: self.state_dir.clone(),
        }
    }
}

impl Clone for Project {
    fn clone(&self) -> (r: Project)
        ensures
            r@ == self@,
    {
        self.duplicate()
    }
}

impl Default for Project {
    fn default() -> (r: Project)
        ensures
            r@.base_ref is None,
            r@.state_dir == ".bodega"@,
    {
        Project { base_ref: None, state_dir: ".bodega".to_owned() }
    }
}

/// How much a run may do.
#[derive(Debug, Clone, Copy, PartialEq, Eq, Structural)]
pub struct Limits {
    pub max_parallel_agents: usize,
    pub max_attempts_per_task: u32,
    pub max_fix_rounds: u32,
    pub attempt_timeout_secs: u64,
    pub max_cost_usd: Option<Usd>,
    pub max_tokens: Option<u64>,
    /// Re-run checks on the integration branch after every merge, catching
    /// semantic conflicts between tasks that merged cleanly.
    pub verify_after_merge: bool,
}

impl Default for Limits {
    fn default() -> (r: Limits)
        ensures
            r == (Limits {
                max_parallel_agents: 4,
                max_attempts_per_task: 3,
                max_fix_rounds: 2,
                attempt_timeout_secs: 3600,
                max_cost_usd: None,
                max_tokens: None,
                verify_after_merge: true,
            }),
    {
        Limits {
            max_parallel_agents: 4,
            max_attempts_per_task: 3,
            max_fix_rounds: 2,
            attempt_timeout_secs: 3600,
            max_cost_usd: None,
            max_tokens: None,
            verify_after_merge: true,
        }
    }
}

/// How much an agent may do without asking, as configured.
#[derive(Debug, Clone, Copy, PartialEq, Eq, Structural)]
pub enum PermissionModeSetting {
    Ask,
    AcceptEdits,
    Plan,
}

impl Default for PermissionModeSetting {
    fn default() -> (r: PermissionModeSetting)
        ensures
            r == PermissionModeSetting::AcceptEdits,
    {
        PermissionModeSetting::AcceptEdits
    }
}

/// Which agent does the work of a role.
#[derive(Debug, PartialEq)]
pub struct AgentConfig {
    /// Adapter name, such as `code-cli` or `mock`.
    pub runtime: String,
    pub model: Option<String>,
    pub permission_mode: PermissionModeSetting,
    pub allowed_tools: Vec<String>,
    pub disallowed_tools: Vec<String>,
    pub max_turns: Option<u32>,
    pub append_system_prompt: Option<String>,
}

/// What a value of type `AgentConfig` stands for.
#[verifier::ext_equal]
pub struct AgentConfigModel {
    pub runtime: Seq<char>,
    pub model: Option<Seq<char>>,
    pub permission_mode: PermissionModeSetting,
    pub allowed_tools: Seq<Seq<char>>,
    pub disallowed_tools: Seq<Seq<char>>,
    pub max_turns: Option<u32>,
    pub append_system_prompt: Option<Seq<char>>,
}

impl View for AgentConfig {
    type V = AgentConfigModel;

    open spec fn view(&self) -> AgentConfigModel {
        AgentConfigModel {
            runtime: self.runtime@,
            model: seen(self.model),
            permission_mode: self.permission_mode,
            allowed_tools: views(self.allowed_tools@),
            disallowed_tools: views(self.disallowed_tools@),
            max_turns: self.max_turns,
            append_system_prompt: seen(self.append_system_prompt),
        }
    }
}

impl Duplicate for AgentConfig {
    fn duplicate(&self) -> (r: AgentConfig) {
        AgentConfig {
            runtime: self.runtime.clone(),
            model: duplicate_opt(&self.model),
            permission_mode: self.permission_mode,
            allowed_tools: duplicate_all(&self.allowed_tools),
            disallowed_tools: duplicate_all(&self.disallowed_tools),
            max_turns: self.max_turns,
            append_system_prompt: duplicate_opt(&self.append_system_prompt),
        }
    }
}

impl Clone for AgentConfig {
    fn clone(&self) -> (r: AgentConfig)
        ensures
            r@ == self@,
    {
        self.duplicate()
    }
}

/// The built-in agent settings.
pub open spec fn default_agent() -> AgentConfigModel {
    AgentConfigModel {
        runtime: CODE_CLI@,
        model: None,
        permission_mode: PermissionModeSetting::AcceptEdits,
        allowed_tools: Seq::empty(),
        disallowed_tools: Seq::empty(),
        max_turns: None,
        append_system_prompt: None,
    }
}

impl Default for AgentConfig {
    fn default() -> (r: AgentConfig)
        ensures
            r@ == default_agent(),
    {
        let r = AgentConfig {
            runtime: CODE_CLI.to_owned(),
            model: None,
            permission_mode: PermissionModeSetting::AcceptEdits,
            allowed_tools: Vec::new(),
            disallowed_tools: Vec::new(),
            max_turns: None,
            append_system_prompt: None,
        };
        assert(r@ =~= default_agent());
        r
    }
}

/// A command that verifies the work.
#[derive(Debug, PartialEq)]
pub struct Check {
    pub name: String,
    pub command: String,
    pub timeout_secs: u64,
}

/// What a value of type `Check` stands for.
#[verifier::ext_equal]
pub struct CheckModel {
    pub name: Seq<char>,
    pub command: Seq<char>,
    pub timeout_secs: u64,
}

impl View for Check {
    type V = CheckModel;

    open spec fn view(&self) -> CheckModel {
        CheckModel {
            name: self.name@,
            command: self.command@,
            timeout_secs: self.timeout_secs,
        }
    }
}

impl Duplicate for Check {
    fn duplicate(&self) -> (r: Check) {
        Check {
            name: self.name.clone(),
            command: self.command.clone(),
            timeout_secs: self.timeout_secs,
        }
    }
}

impl Clone for Check {
    fn clone(&self) -> (r: Check)
        ensures
            r@ == self@,
    {
        self.duplicate()
    }
}

/// How long a check may take where nothing else is configured.
pub fn default_check_timeout() -> (secs: u64)
    ensures
        secs == 900,
{
    900
}

/// What happens to a request that no rule covers.
#[derive(Debug, Clone, Copy, PartialEq, Eq, Structural)]
pub enum OnUnknown {
    Escalate,
    Deny,
}

impl Default for OnUnknown {
    fn default() -> (r: OnUnknown)
        ensures
            r == OnUnknown::Escalate,
    {
        OnUnknown::Escalate
    }
}

/// How tool permission requests are answered.
///
/// Rules are `Tool` (any use of the tool), `Tool(prefix:*)` (for `Bash`, a
/// command starting with `prefix`; for file tools, a path starting with it),
/// `Tool(exact)`, or `*`.
#[derive(Debug, PartialEq)]
pub struct PermissionPolicy {
    pub allow: Vec<String>,
    pub deny: Vec<String>,
    pub on_unknown: OnUnknown,
}

/// What a value of type `PermissionPolicy` stands for.
#[verifier::ext_equal]
pub struct PermissionPolicyModel {
    pub allow: Seq<Seq<char>>,
    pub deny: Seq<Seq<char>>,
    pub on_unknown: OnUnknown,
}

impl View for PermissionPolicy {
    type V = PermissionPolicyModel;

    open spec fn view(&self) -> PermissionPolicyModel {
        PermissionPolicyModel {
            allow: views(self.allow@),
            deny: views(self.deny@),
            on_unknown: self.on_unknown,
        }
    }
}

impl Duplicate for PermissionPolicy {
    fn duplicate(&self) -> (r: PermissionPolicy) {
        PermissionPolicy {
            allow: duplicate_all(&self.allow),
            deny: duplicate_all(&self.deny),
            on_unknown: self.on_unknown,
        }
    }
}

impl Clone for PermissionPolicy {
    fn clone(&self) -> (r: PermissionPolicy)
        ensures
            r@ == self@,
    {
        self.duplicate()
    }
}

impl Default for PermissionPolicy {
    fn default() -> (r: PermissionPolicy)
        ensures
            r@.allow.len() == 0,
            r@.deny.len() == 0,
            r@.on_unknown == OnUnknown::Escalate,
    {
        PermissionPolicy { allow: Vec::new(), deny: Vec::new(), on_unknown: OnUnknown::Escalate }
    }
}

/// What a policy says of a request.
#[allow(inconsistent_fields)]
#[derive(Debug, PartialEq)]
pub enum PolicyDecision {
    Allow,
    Deny {
        rule: String,
    },
    Escalate,
}

/// What a value of type `PolicyDecision` stands for.
#[allow(inconsistent_fields)]
#[verifier::ext_equal]
pub enum PolicyDecisionModel {
    Allow,
    Deny { rule: Seq<char> },
    Escalate,
}

impl View for PolicyDecision {
    type V = PolicyDecisionModel;

    open spec fn view(&self) -> PolicyDecisionModel {
        match self {
            PolicyDecision::Allow => PolicyDecisionModel::Allow,
            PolicyDecision::Deny { rule } => PolicyDecisionModel::Deny {
                rule: rule@,
            },
            PolicyDecision::Escalate => PolicyDecisionModel::Escalate,
        }
    }
}

impl Duplicate for PolicyDecision {
    fn duplicate(&self) -> (r: PolicyDecision) {
        match self {
            PolicyDecision::Allow => PolicyDecision::Allow,
            PolicyDecision::Deny { rule } => PolicyDecision::Deny {
                rule: rule.clone(),
            },
            PolicyDecision::Escalate => PolicyDecision::Escalate,
        }
    }
}

impl Clone for PolicyDecision {
    fn clone(&self) -> (r: PolicyDecision)
        ensures
            r@ == self@,
    {
        self.duplicate()
    }
}

/// The first field of `keys` that the input has as a text, from `i` on.
pub open spec fn first_text(input: JsonModel, keys: Seq<Seq<char>>, i: int) -> Option<Seq<char>>
    decreases keys.len() - i,
{
    if i < 0 || i >= keys.len() {
        None
    } else {
        match input.text_field(keys[i]) {
            Some(t) => Some(t),
            None => first_text(input, keys, i + 1),
        }
    }
}

/// The text a rule argument is matched against.
pub open spec fn subject_of(input: JsonModel) -> Seq<char> {
    match first_text(
        input,
        seq!["command"@, "file_path"@, "path"@, "url"@, "pattern"@],
        0,
    ) {
        Some(t) => t,
        None => Seq::empty(),
    }
}

/// The first of the fields that is there as a text.
pub fn find_text(input: &Json, keys: &Vec<&str>) -> (r: Option<String>)
    ensures
        seen(r) == first_text(input@, views(keys@), 0),
{
    let ghost all = views(keys@);
    let mut i: usize = 0;
    while i < keys.len()
        invariant
            i <= keys.len(),
            all == views(keys@),
            first_text(input@, all, 0) == first_text(input@, all, i as int),
        decreases keys.len() - i,
    {
        assert(all[i as int] == keys@[i as int]@);
        if let Some(t) = input.text_field(keys[i]) {
            return Some(t);
        }
        i += 1;
    }
    None
}

pub fn rule_subject(input: &Json) -> (r: String)
    ensures
        r@ == subject_of(input@),
{
    let mut keys: Vec<&str> = Vec::new();
    keys.push("command");
    keys.push("file_path");
    keys.push("path");
    keys.push("url");
    keys.push("pattern");
    assert(views(keys@) =~= seq!["command"@, "file_path"@, "path"@, "url"@, "pattern"@]);
    match find_text(input, &keys) {
        Some(t) => t,
        None => String::new(),
    }
}

/// The command holds something that a shell would act on.
pub open spec fn shell_syntax(command: Seq<char>) -> bool {
    ||| holds(command, ";"@)
    ||| holds(command, "&"@)
    ||| holds(command, "|"@)
    ||| holds(command, "`"@)
    ||| holds(command, "$("@)
    ||| holds(command, ">"@)
    ||| holds(command, "<"@)
    ||| holds(command, "\n"@)
    ||| holds(command, "\r"@)
    ||| holds(command, "${"@)
}

pub fn has_shell_syntax(command: &str) -> (b: bool)
    ensures
        b == shell_syntax(command@),
{
    contains(command, ";") || contains(command, "&") || contains(command, "|") || contains(
        command,
        "`",
    ) || contains(command, "$(") || contains(command, ">") || contains(command, "<") || contains(
        command,
        "\n",
    ) || contains(command, "\r") || contains(command, "${")
}

/// Where a compound command may be cut.
pub open spec fn is_cut(c: char) -> bool {
    c == '\n' || c == ';' || c == '&' || c == '|' || c == '(' || c == ')' || c == '`'
}

fn cuts(c: char) -> (b: bool)
    ensures
        b == is_cut(c),
{
    c == '\n' || c == ';' || c == '&' || c == '|' || c == '(' || c == ')' || c == '`'
}

/// The trimmed pieces that hold something.
pub open spec fn solid(parts: Seq<Seq<char>>) -> Seq<Seq<char>>
    decreases parts.len(),
{
    if parts.len() == 0 {
        Seq::empty()
    } else {
        let front = solid(parts.drop_last());
        let last = trimmed(parts.last());
        if last.len() > 0 {
            front.push(last)
        } else {
            front
        }
    }
}

/// The simple commands in a command, and the command itself.
pub open spec fn segments_of(command: Seq<char>) -> Seq<Seq<char>> {
    solid(pieces(command, |c: char| is_cut(c))).push(trimmed(command))
}

/// Splits a shell command into the simple commands it runs, as far as a
/// conservative textual split can tell.
pub fn split_compound(command: &str) -> (r: Vec<String>)
    ensures
        texts(r@) == segments_of(command@),
{
    let parts = split_pieces(command, cuts, Ghost(|c: char| is_cut(c)));
    let ghost all = texts(parts@);
    let mut r: Vec<String> = Vec::new();
    let mut i: usize = 0;
    assert(texts(r@) =~= solid(all.take(0)));
    while i < parts.len()
        invariant
            i <= parts.len(),
            all == texts(parts@),
            texts(r@) == solid(all.take(i as int)),
        decreases parts.len() - i,
    {
        let part = trim(parts[i].as_str());
        proof {
            assert(all.take(i + 1).drop_last() =~= all.take(i as int));
            texts_push(r@, part);
        }
        if !part.as_str().is_empty() {
            r.push(part);
        }
        i += 1;
    }
    let whole = trim(command);
    proof {
        assert(all.take(i as int) =~= all);
        texts_push(r@, whole);
    }
    r.push(whole);
    r
}

/// `i` is the first place of `c` in `s`.
pub open spec fn is_first(s: Seq<char>, c: char, i: int) -> bool {
    &&& 0 <= i < s.len()
    &&& s[i] == c
    &&& forall|k: int| 0 <= k < i ==> #[trigger] s[k] != c
}

/// The subject starts with the prefix: a command of the shell up to a word
/// boundary, a path or another text of any other tool as it stands.
pub open spec fn prefix_covers(prefix: Seq<char>, tool: Seq<char>, subject: Seq<char>) -> bool {
    if tool == "Bash"@ {
        ||| subject == prefix
        ||| begins(subject, prefix) && (begins(subject.skip(prefix.len() as int), " "@)
            || finishes(prefix, " "@))
    } else {
        begins(subject, prefix)
    }
}

/// The argument of a rule covers the subject of a tool: it is the subject, or it
/// stops with `:*` and the subject starts with what is before that.
pub open spec fn argument_covers(arg: Seq<char>, tool: Seq<char>, subject: Seq<char>) -> bool {
    if finishes(arg, ":*"@) {
        prefix_covers(arg.take(arg.len() - 2), tool, subject)
    } else {
        subject == arg
    }
}

/// A rule, without white space around it, covers a use of a tool.
pub open spec fn plain_rule_covers(rule: Seq<char>, tool: Seq<char>, subject: Seq<char>) -> bool {
    ||| rule == "*"@
    ||| !rule.contains('(') && rule == tool
    ||| exists|i: int| #[trigger]
        is_first(rule, '(', i) && rule.take(i) == tool && finishes(rule.skip(i + 1), ")"@)
            && argument_covers(rule.skip(i + 1).drop_last(), tool, subject)
}

/// A rule covers a use of a tool on a subject.
pub open spec fn rule_covers(rule: Seq<char>, tool: Seq<char>, subject: Seq<char>) -> bool {
    plain_rule_covers(trimmed(rule), tool, subject)
}

fn argument_matches(arg: &str, tool: &str, subject: &str) -> (b: bool)
    ensures
        b == argument_covers(arg@, tool@, subject@),
{
    proof {
        reveal_strlit(":*");
        reveal_strlit(" ");
    }
    if ends_with(arg, ":*") {
        let v = chars_of(arg);
        let prefix = text_of(&v, 0, v.len() - 2);
        assert(prefix@ =~= arg@.take(arg@.len() - 2));
        if !same(tool, "Bash") {
            return starts_with(subject, prefix.as_str());
        }
        if same(subject, prefix.as_str()) {
            return true;
        }
        match crate::text::drop_prefix(subject, prefix.as_str()) {
            Some(rest) => starts_with(rest.as_str(), " ") || ends_with(prefix.as_str(), " "),
            None => false,
        }
    } else {
        same(subject, arg)
    }
}

pub fn rule_matches(rule: &str, tool: &str, subject: &str) -> (b: bool)
    ensures
        b == rule_covers(rule@, tool@, subject@),
{
    let rule = trim(rule);
    if same(rule.as_str(), "*") {
        return true;
    }
    let v = chars_of(rule.as_str());
    let mut i: usize = 0;
    while i < v.len() && v[i] != '('
        invariant
            i <= v.len(),
            forall|k: int| 0 <= k < i ==> #[trigger] v@[k] != '(',
        decreases v.len() - i,
    {
        i += 1;
    }
    if i == v.len() {
        proof {
            assert(!v@.contains('('));
            assert forall|k: int| !is_first(rule@, '(', k) by {}
        }
        return same(rule.as_str(), tool);
    }
    proof {
        assert(is_first(rule@, '(', i as int));
        assert(rule@.contains('('));
        assert forall|k: int| is_first(rule@, '(', k) implies k == i by {
            if k < i {
                assert(v@[k] != '(');
            }
            if i < k {
                assert(rule@[i as int] != '(');
            }
        }
    }
    let name = text_of(&v, 0, i);
    let rest = text_of(&v, i + 1, v.len());
    proof {
        assert(name@ =~= rule@.take(i as int));
        assert(rest@ =~= rule@.skip(i + 1));
        reveal_strlit(")");
    }
    if !same(name.as_str(), tool) {
        return false;
    }
    if !ends_with(rest.as_str(), ")") {
        return false;
    }
    let w = chars_of(rest.as_str());
    let arg = text_of(&w, 0, w.len() - 1);
    assert(arg@ =~= rest@.drop_last());
    argument_matches(arg.as_str(), tool, subject)
}

/// What a rule `Tool(prefix:*)` covers: for `Bash`, the commands that start with
/// the prefix up to a word boundary; for file tools, and every other one, exactly
/// the paths that start with the prefix.
pub proof fn prefix_rules_cover(tool: Seq<char>, prefix: Seq<char>, subject: Seq<char>)
    requires
        tool.len() > 0,
        !is_space(tool[0]),
        !tool.contains('('),
    ensures
        rule_covers(tool + "("@ + prefix + ":*)"@, tool, subject) == prefix_covers(
            prefix,
            tool,
            subject,
        ),
        tool != "Bash"@ ==> rule_covers(tool + "("@ + prefix + ":*)"@, tool, subject) == begins(
            subject,
            prefix,
        ),
{
    reveal_strlit("(");
    reveal_strlit(")");
    reveal_strlit(":*)");
    reveal_strlit(":*");
    reveal_strlit("*");
    let rule = tool + "("@ + prefix + ":*)"@;
    let n = tool.len() as int;
    assert(rule[0] == tool[0]);
    assert(rule.last() == ')');
    assert(!is_space(')'));
    assert(trimmed(rule) == rule);
    assert(rule[n] == '(');
    assert forall|k: int| 0 <= k < n implies #[trigger] rule[k] != '(' by {
        assert(rule[k] == tool[k]);
        assert(tool.contains(tool[k]));
    }
    assert(is_first(rule, '(', n));
    assert forall|k: int| is_first(rule, '(', k) implies k == n by {
        if n < k {
            assert(rule[n] != '(');
        }
    }
    assert(rule.contains('('));
    assert(rule.take(n) =~= tool);
    let rest = rule.skip(n + 1);
    assert(rest =~= prefix + ":*)"@);
    assert(rest.skip(rest.len() - 1) =~= ")"@);
    assert(finishes(rest, ")"@));
    let arg = rest.drop_last();
    assert(arg =~= prefix + ":*"@);
    assert(arg.skip(arg.len() - 2) =~= ":*"@);
    assert(finishes(arg, ":*"@));
    assert(arg.take(arg.len() - 2) =~= prefix);
}

/// Some segment is covered by the rule.
pub open spec fn covers_any(rule: Seq<char>, tool: Seq<char>, segments: Seq<Seq<char>>) -> bool {
    exists|i: int| 0 <= i < segments.len() && rule_covers(rule, tool, #[trigger] segments[i])
}

impl PermissionPolicyModel {
    /// What deny rules look at: for a shell, each simple command.
    pub open spec fn denied_parts(tool: Seq<char>, input: JsonModel) -> Seq<Seq<char>> {
        if tool == "Bash"@ {
            segments_of(subject_of(input))
        } else {
            seq![subject_of(input)]
        }
    }

    /// Deny rule `i` covers the request.
    pub open spec fn denies(self, i: int, tool: Seq<char>, input: JsonModel) -> bool {
        &&& 0 <= i < self.deny.len()
        &&& covers_any(self.deny[i], tool, Self::denied_parts(tool, input))
    }

    /// An allow rule covers the request.
    pub open spec fn allows(self, tool: Seq<char>, input: JsonModel) -> bool {
        exists|i: int|
            0 <= i < self.allow.len() && rule_covers(
                #[trigger] self.allow[i],
                tool,
                subject_of(input),
            )
    }

    /// Nothing but a shell command can hold shell syntax.
    pub open spec fn is_simple(tool: Seq<char>, input: JsonModel) -> bool {
        tool != "Bash"@ || !shell_syntax(subject_of(input))
    }

    /// The decision: the first deny rule that covers the request, else an allow
    /// rule that covers a simple request, else what is configured for the rest.
    pub open spec fn decision(self, tool: Seq<char>, input: JsonModel) -> PolicyDecisionModel {
        if exists|i: int| self.denies(i, tool, input) {
            let first = choose|i: int|
                self.denies(i, tool, input) && forall|k: int|
                    0 <= k < i ==> !#[trigger] self.denies(k, tool, input);
            PolicyDecisionModel::Deny { rule: self.deny[first] }
        } else if Self::is_simple(tool, input) && self.allows(tool, input) {
            PolicyDecisionModel::Allow
        } else if self.on_unknown == OnUnknown::Escalate {
            PolicyDecisionModel::Escalate
        } else {
            PolicyDecisionModel::Deny { rule: "on_unknown = deny"@ }
        }
    }
}

/// Deny wins over allow: a request that a deny rule covers is denied, by a rule
/// of the deny list.
pub proof fn deny_wins(p: PermissionPolicyModel, tool: Seq<char>, input: JsonModel, i: int)
    requires
        p.denies(i, tool, input),
    ensures
        p.decision(tool, input) matches PolicyDecisionModel::Deny { rule } && p.deny.contains(rule),
{
    first_denying(p, tool, input, i);
}

proof fn first_denying(p: PermissionPolicyModel, tool: Seq<char>, input: JsonModel, i: int)
    requires
        p.denies(i, tool, input),
    ensures
        exists|j: int|
            p.denies(j, tool, input) && forall|k: int|
                0 <= k < j ==> !#[trigger] p.denies(k, tool, input),
    decreases i,
{
    if exists|k: int| 0 <= k < i && p.denies(k, tool, input) {
        let k = choose|k: int| 0 <= k < i && p.denies(k, tool, input);
        first_denying(p, tool, input, k);
    } else {
        assert(forall|k: int| 0 <= k < i ==> !#[trigger] p.denies(k, tool, input));
    }
}

/// Allow rules only ever approve a simple command: a shell command with
/// operators, substitutions or redirections is never allowed.
pub proof fn compound_commands_are_never_allowed(
    p: PermissionPolicyModel,
    input: JsonModel,
)
    requires
        shell_syntax(subject_of(input)),
    ensures
        p.decision("Bash"@, input) !is Allow,
{
}

/// A request that no allow rule covers is never approved.
pub proof fn unknown_requests_are_never_allowed(
    p: PermissionPolicyModel,
    tool: Seq<char>,
    input: JsonModel,
)
    requires
        !p.allows(tool, input),
    ensures
        p.decision(tool, input) !is Allow,
{
}

fn any_covered(rule: &str, tool: &str, segments: &Vec<String>) -> (b: bool)
    ensures
        b == covers_any(rule@, tool@, texts(segments@)),
{
    let ghost all = texts(segments@);
    let mut i: usize = 0;
    while i < segments.len()
        invariant
            i <= segments.len(),
            all == texts(segments@),
            forall|k: int| 0 <= k < i ==> !rule_covers(rule@, tool@, #[trigger] all[k]),
        decreases segments.len() - i,
    {
        assert(all[i as int] == segments@[i as int]@);
        if rule_matches(rule, tool, segments[i].as_str()) {
            return true;
        }
        i += 1;
    }
    false
}

impl PermissionPolicy {
    /// Decides a tool request. For shell commands, deny rules are checked
    /// against every segment of a compound command (`a && b; c | d`), and allow
    /// rules only ever approve a *simple* command: anything with shell
    /// operators, substitutions or redirections is escalated instead, so
    /// `Bash(cargo:*)` cannot be stretched to `cargo test; curl … | sh`.
    pub fn decide(&self, tool: &str, input: &Json) -> (r: PolicyDecision)
        ensures
            r@ == self@.decision(tool@, input@),
    {
        let ghost p = self@;
        let subject = rule_subject(input);
        let shell = same(tool, "Bash");
        let mut segments: Vec<String> = Vec::new();
        if shell {
            segments = split_compound(subject.as_str());
        } else {
            segments.push(subject.clone());
            assert(texts(segments@) =~= seq![subject@]);
        }
        assert(texts(segments@) == PermissionPolicyModel::denied_parts(tool@, input@));
        let mut i: usize = 0;
        while i < self.deny.len()
            invariant
                i <= self.deny.len(),
                p == self@,
                texts(segments@) == PermissionPolicyModel::denied_parts(tool@, input@),
                forall|k: int| 0 <= k < i ==> !#[trigger] p.denies(k, tool@, input@),
            decreases self.deny.len() - i,
        {
            assert(p.deny[i as int] == self.deny@[i as int]@);
            if any_covered(self.deny[i].as_str(), tool, &segments) {
                proof {
                    assert(p.denies(i as int, tool@, input@));
                    let first = choose|j: int|
                        p.denies(j, tool@, input@) && forall|k: int|
                            0 <= k < j ==> !#[trigger] p.denies(k, tool@, input@);
                    if first < i {
                        assert(!p.denies(first, tool@, input@));
                    }
                    if i < first {
                        assert(!p.denies(i as int, tool@, input@));
                    }
                }
                return PolicyDecision::Deny { rule: self.deny[i].clone() };
            }
            i += 1;
        }
        assert(forall|k: int| !p.denies(k, tool@, input@));
        let simple = !shell || !has_shell_syntax(subject.as_str());
        if simple {
            let mut j: usize = 0;
            while j < self.allow.len()
                invariant
                    j <= self.allow.len(),
                    p == self@,
                    subject@ == subject_of(input@),
                    simple == PermissionPolicyModel::is_simple(tool@, input@),
                    simple,
                    forall|k: int| !p.denies(k, tool@, input@),
                    forall|k: int|
                        0 <= k < j ==> !rule_covers(#[trigger] p.allow[k], tool@, subject@),
                decreases self.allow.len() - j,
            {
                assert(p.allow[j as int] == self.allow@[j as int]@);
                if rule_matches(self.allow[j].as_str(), tool, subject.as_str()) {
                    return PolicyDecision::Allow;
                }
                j += 1;
            }
        }
        match self.on_unknown {
            OnUnknown::Escalate => PolicyDecision::Escalate,
            OnUnknown::Deny => PolicyDecision::Deny { rule: "on_unknown = deny".to_owned() },
        }
    }
}

/// How the repository wants its runs done.
#[derive(Debug, PartialEq)]
pub struct Config {
    pub project: Project,
    pub limits: Limits,
    pub agents: OrdMap<String, AgentConfig>,
    pub checks: Vec<Check>,
    pub permissions: PermissionPolicy,
}

/// What a value of type `Config` stands for. Agents out of order count for none.
#[verifier::ext_equal]
pub struct ConfigModel {
    pub project: ProjectModel,
    pub limits: Limits,
    pub agents: Map<Seq<char>, AgentConfigModel>,
    pub checks: Seq<CheckModel>,
    pub permissions: PermissionPolicyModel,
}

impl View for Config {
    type V = ConfigModel;

    open spec fn view(&self) -> ConfigModel {
        ConfigModel {
            project: self.project@,
            limits: self.limits,
            agents: if self.agents.wf() {
                seen_map(self.agents@)
            } else {
                Map::empty()
            },
            checks: views(self.checks@),
            permissions: self.permissions@,
        }
    }
}

impl Default for Config {
    fn default() -> (r: Config)
        ensures
            r.wf(),
            r@.agents == Map::<Seq<char>, AgentConfigModel>::empty(),
            r@.checks.len() == 0,
            r@.project.base_ref is None,
            r@.project.state_dir == ".bodega"@,
            r@.permissions.allow.len() == 0,
            r@.permissions.deny.len() == 0,
            r@.permissions.on_unknown == OnUnknown::Escalate,
            r@.limits.max_parallel_agents == 4,
            r@.limits.max_attempts_per_task == 3,
            r@.limits.max_fix_rounds == 2,
            r@.limits.attempt_timeout_secs == 3600,
            r@.limits.max_cost_usd is None,
            r@.limits.max_tokens is None,
            r@.limits.verify_after_merge,
    {
        let r = Config {
            project: Project::default(),
            limits: Limits::default(),
            agents: OrdMap::new(),
            checks: Vec::new(),
            permissions: PermissionPolicy::default(),
        };
        assert(r@.agents =~= Map::<Seq<char>, AgentConfigModel>::empty());
        r
    }
}

impl Duplicate for Config {
    /// A copy, with its agents in order.
    fn duplicate(&self) -> (r: Config)
        ensures
            r.wf(),
    {
        let agents = if self.agents.is_ordered() {
            self.agents.duplicate()
        } else {
            OrdMap::new()
        };
        let r = Config {
            project: self.project.duplicate(),
            limits: self.limits,
            agents,
            checks: duplicate_all(&self.checks),
            permissions: self.permissions.duplicate(),
        };
        assert(r@.agents =~= self@.agents);
        r
    }
}

impl Clone for Config {
    fn clone(&self) -> (r: Config)
        ensures
            r.wf(),
            r@ == self@,
    {
        self.duplicate()
    }
}

/// An agent with what is given put in place.
pub open spec fn overridden(
    a: AgentConfigModel,
    runtime: Option<Seq<char>>,
    model: Option<Seq<char>>,
) -> AgentConfigModel {
    AgentConfigModel {
        runtime: match runtime {
            Some(r) => r,
            None => a.runtime,
        },
        model: match model {
            Some(m) => Some(m),
            None => a.model,
        },
        ..a
    }
}

impl ConfigModel {
    /// The settings for a role: its own, those of `default`, or the built-in
    /// ones.
    pub open spec fn agent(self, role: Seq<char>) -> AgentConfigModel {
        if self.agents.dom().contains(role) {
            self.agents[role]
        } else if self.agents.dom().contains("default"@) {
            self.agents["default"@]
        } else {
            default_agent()
        }
    }

    /// The agents with an entry for `default`.
    pub open spec fn agents_with_default(self) -> Map<Seq<char>, AgentConfigModel> {
        if self.agents.dom().contains("default"@) {
            self.agents
        } else {
            self.agents.insert("default"@, default_agent())
        }
    }

    /// Every role on the given runtime and model.
    pub open spec fn with_agents(
        self,
        runtime: Option<Seq<char>>,
        model: Option<Seq<char>>,
    ) -> ConfigModel {
        if runtime is None && model is None {
            self
        } else {
            ConfigModel {
                agents: self.agents_with_default().map_values(
                    |a: AgentConfigModel| overridden(a, runtime, model),
                ),
                ..self
            }
        }
    }
}

/// After an override, every role runs on what was given, whether or not it has
/// an entry of its own; nothing else of its settings changes.
pub proof fn override_covers_every_role(
    c: ConfigModel,
    runtime: Option<Seq<char>>,
    model: Option<Seq<char>>,
    role: Seq<char>,
)
    ensures
        c.with_agents(runtime, model).agent(role) == overridden(c.agent(role), runtime, model),
{
    if runtime is None && model is None {
        assert(overridden(c.agent(role), runtime, model) =~= c.agent(role));
    }
}

/// What an optional text stands for.
pub open spec fn seen_str(o: Option<&str>) -> Option<Seq<char>> {
    match o {
        Some(t) => Some(t@),
        None => None,
    }
}

impl Config {
    pub open spec fn wf(&self) -> bool {
        self.agents.wf()
    }

    /// Forces every role, including the `default` fallback, which is added if
    /// missing, onto `runtime` and/or `model`.
    pub fn override_agents(&mut self, runtime: Option<&str>, model: Option<&str>)
        requires
            old(self).wf(),
        ensures
            final(self).wf(),
            final(self)@ == old(self)@.with_agents(seen_str(runtime), seen_str(model)),
    {
        if runtime.is_none() && model.is_none() {
            return;
        }
        let ghost c = self@;
        let name: String = "default".to_owned();
        if !self.agents.contains_key(&name) {
            let agent = AgentConfig::default();
            proof {
                seen_map_insert(self.agents@, name@, agent);
            }
            self.agents.insert(name, agent);
        }
        let ghost base = c.agents_with_default();
        let ghost order = self.agents.order();
        assert(seen_map(self.agents@) =~= base);
        let mut i: usize = 0;
        while i < self.agents.len()
            invariant
                i <= self.agents.order().len(),
                self.agents.wf(),
                order == self.agents.order(),
                self.project@ == c.project,
                self.limits == c.limits,
                views(self.checks@) == c.checks,
                self.permissions@ == c.permissions,
                base.dom() == order.to_set(),
                self.agents@.dom() == base.dom(),
                forall|k: int|
                    0 <= k < order.len() ==> self.agents@[#[trigger] order[k]]@ == if k < i {
                        overridden(base[order[k]], seen_str(runtime), seen_str(model))
                    } else {
                        base[order[k]]
                    },
            decreases self.agents.order().len() - i,
        {
            let ghost before = self.agents@;
            proof {
                self.agents.position(i as int);
            }
            let mut agent = self.agents.value_at(i).duplicate();
            if let Some(runtime) = runtime {
                agent.runtime = runtime.to_owned();
            }
            if let Some(model) = model {
                agent.model = Some(model.to_owned());
            }
            self.agents.set_at(i, agent);
            proof {
                assert(agent@ =~= overridden(
                    base[order[i as int]],
                    seen_str(runtime),
                    seen_str(model),
                ));
                assert forall|k: int| 0 <= k < order.len() implies self.agents@[#[trigger] order[k]]@
                    == if k < i + 1 {
                    overridden(base[order[k]], seen_str(runtime), seen_str(model))
                } else {
                    base[order[k]]
                } by {
                    if k != i && order[k] == order[i as int] {
                        crate::order::increasing_index::<String>(order, k);
                        crate::order::increasing_index::<String>(order, i as int);
                    }
                }
                assert(base.dom().contains(order[i as int]));
                assert(self.agents@.dom() =~= base.dom());
            }
            i += 1;
        }
        proof {
            let goal = c.with_agents(seen_str(runtime), seen_str(model)).agents;
            assert forall|key: Seq<char>| base.dom().contains(key) implies #[trigger] seen_map(
                self.agents@,
            )[key] == goal[key] by {
                assert(order.to_set().contains(key));
                let k = choose|k: int| 0 <= k < order.len() && order[k] == key;
                assert(self.agents@[order[k]]@ == overridden(
                    base[order[k]],
                    seen_str(runtime),
                    seen_str(model),
                ));
            }
            assert(seen_map(self.agents@) =~= goal);
        }
    }

    /// The agent settings for `role`, falling back to `default`, then to
    /// built-in defaults.
    pub fn agent_for(&self, role: &str) -> (r: AgentConfig)
        requires
            self.wf(),
        ensures
            r@ == self@.agent(role@),
    {
        let key: String = role.to_owned();
        match self.agents.get(&key) {
            Some(a) => a.duplicate(),
            None => {
                let fallback: String = "default".to_owned();
                match self.agents.get(&fallback) {
                    Some(a) => a.duplicate(),
                    None => AgentConfig::default(),
                }
            },
        }
    }
}

/// A task of a plan.
#[derive(Debug, PartialEq)]
pub struct PlanTask {
    pub key: String,
    pub title: String,
    pub description: String,
    pub role: String,
    pub depends_on: Vec<String>,
    pub acceptance: Vec<String>,
}

/// What a value of type `PlanTask` stands for.
#[verifier::ext_equal]
pub struct PlanTaskModel {
    pub key: Seq<char>,
    pub title: Seq<char>,
    pub description: Seq<char>,
    pub role: Seq<char>,
    pub depends_on: Seq<Seq<char>>,
    pub acceptance: Seq<Seq<char>>,
}

impl View for PlanTask {
    type V = PlanTaskModel;

    open spec fn view(&self) -> PlanTaskModel {
        PlanTaskModel {
            key: self.key@,
            title: self.title@,
            description: self.description@,
            role: self.role@,
            depends_on: views(self.depends_on@),
            acceptance: views(self.acceptance@),
        }
    }
}

impl Duplicate for PlanTask {
    fn duplicate(&self) -> (r: PlanTask) {
        PlanTask {
            key: self.key.clone(),
            title: self.title.clone(),
            description: self.description.clone(),
            role: self.role.clone(),
            depends_on: duplicate_all(&self.depends_on),
            acceptance: duplicate_all(&self.acceptance),
        }
    }
}

impl Clone for PlanTask {
    fn clone(&self) -> (r: PlanTask)
        ensures
            r@ == self@,
    {
        self.duplicate()
    }
}

/// A plan written by hand or by a planner agent.
#[derive(Debug, PartialEq)]
pub struct Plan {
    pub summary: String,
    pub tasks: Vec<PlanTask>,
}

/// What a value of type `Plan` stands for.
#[verifier::ext_equal]
pub struct PlanModel {
    pub summary: Seq<char>,
    pub tasks: Seq<PlanTaskModel>,
}

impl View for Plan {
    type V = PlanModel;

    open spec fn view(&self) -> PlanModel {
        PlanModel {
            summary: self.summary@,
            tasks: views(self.tasks@),
        }
    }
}

impl Duplicate for Plan {
    fn duplicate(&self) -> (r: Plan) {
        Plan {
            summary: self.summary.clone(),
            tasks: duplicate_all(&self.tasks),
        }
    }
}

impl Clone for Plan {
    fn clone(&self) -> (r: Plan)
        ensures
            r@ == self@,
    {
        self.duplicate()
    }
}

/// The role of a task that names none.
pub fn default_role() -> (r: String)
    ensures
        r@ == "implementer"@,
{
    "implementer".to_owned()
}

/// A character that a task key may have.
pub open spec fn is_key_char(c: char) -> bool {
    'a' <= c <= 'z' || 'A' <= c <= 'Z' || '0' <= c <= '9' || c == '-' || c == '_'
}

/// One to forty letters, digits, hyphens and underscores.
pub open spec fn is_key(key: Seq<char>) -> bool {
    &&& 1 <= key.len() <= 40
    &&& forall|i: int| 0 <= i < key.len() ==> is_key_char(#[trigger] key[i])
}

fn is_valid_key(key: &str) -> (b: bool)
    ensures
        b == is_key(key@),
{
    let v = chars_of(key);
    if v.len() == 0 || v.len() > 40 {
        return false;
    }
    let mut i: usize = 0;
    while i < v.len()
        invariant
            i <= v.len(),
            v@ == key@,
            forall|k: int| 0 <= k < i ==> is_key_char(#[trigger] key@[k]),
        decreases v.len() - i,
    {
        let c = v[i];
        if !(('a' <= c && c <= 'z') || ('A' <= c && c <= 'Z') || ('0' <= c && c <= '9') || c == '-'
            || c == '_') {
            assert(!is_key_char(key@[i as int]));
            return false;
        }
        i += 1;
    }
    true
}

impl PlanModel {
    /// Task `i` has the key of a task before it.
    pub open spec fn repeats(self, i: int) -> bool {
        exists|k: int| 0 <= k < i && (#[trigger] self.tasks[k]).key == self.tasks[i].key
    }

    /// The key of task `i` is malformed or taken.
    pub open spec fn bad_key(self, i: int) -> bool {
        !is_key(self.tasks[i].key) || self.repeats(i)
    }

    /// The keys of the first `n` tasks are well formed and distinct.
    pub open spec fn keys_fine(self, n: int) -> bool {
        forall|i: int| 0 <= i < n ==> !#[trigger] self.bad_key(i)
    }

    /// What is said of the key of task `i`.
    pub open spec fn key_error(self, i: int) -> Seq<char> {
        if !is_key(self.tasks[i].key) {
            "task key `"@ + self.tasks[i].key
                + "` must be 1-40 characters of letters, digits, `-` or `_`"@
        } else {
            "task key `"@ + self.tasks[i].key + "` is used twice"@
        }
    }

    /// Each task's key with the keys that it depends on.
    pub open spec fn nodes(self) -> Seq<(Seq<char>, Seq<Seq<char>>)> {
        Seq::new(
            self.tasks.len(),
            |i: int| (self.tasks[i].key, self.tasks[i].depends_on),
        )
    }

    /// The plan has a task, its keys are well formed and distinct, and its
    /// dependencies are other tasks of it, without cycles.
    pub open spec fn valid(self) -> bool {
        &&& self.tasks.len() > 0
        &&& self.keys_fine(self.tasks.len() as int)
        &&& fine_before(self.nodes(), self.nodes().len() as int, 0)
        &&& acyclic(graph_of(self.nodes()))
    }

    /// The tasks as a run has them.
    pub open spec fn specs(self) -> Seq<TaskSpecModel> {
        Seq::new(self.tasks.len(), |i: int| spec_of(self.tasks[i]))
    }
}

/// A plan's task as a run has it.
pub open spec fn spec_of(t: PlanTaskModel) -> TaskSpecModel {
    TaskSpecModel {
        key: t.key,
        title: t.title,
        description: t.description,
        role: t.role,
        depends_on: t.depends_on,
        acceptance: t.acceptance,
    }
}

/// The plan with one task for the whole request.
pub open spec fn single_plan(title: Seq<char>, request: Seq<char>) -> PlanModel {
    PlanModel {
        summary: title,
        tasks: seq![
            PlanTaskModel {
                key: "T1"@,
                title,
                description: request,
                role: "implementer"@,
                depends_on: Seq::empty(),
                acceptance: Seq::empty(),
            },
        ],
    }
}

/// A plan with one task is valid, whatever the request.
pub proof fn single_plan_is_valid(title: Seq<char>, request: Seq<char>)
    ensures
        single_plan(title, request).valid(),
{
    reveal_strlit("T1");
    let p = single_plan(title, request);
    assert(p.nodes().len() == 1);
    assert(!p.bad_key(0));
    let g = graph_of(p.nodes());
    assert forall|m: Seq<char>| !#[trigger] crate::graph::depends(g, m, m) by {
        if crate::graph::depends(g, m, m) {
            let q = choose|q: Seq<Seq<char>>| crate::graph::leads(g, q, m, m);
            assert(g.dom().contains(q[0]) && g[q[0]].contains(q[0int + 1]));
        }
    }
}

/// A plan that is refused is not valid.
proof fn refused_plans_are_invalid(p: PlanModel, e: GraphError)
    requires
        is_refusal::<String>(p.nodes(), e),
    ensures
        !p.valid(),
{
    let nodes = p.nodes();
    match e {
        GraphError::Cycle { path } => {},
        _ => {
            let (i, j) = choose|i: int, j: int| #[trigger] crate::graph::is_first_bad(nodes, i, j);
            assert(crate::graph::listed_before(nodes, i, j, nodes.len() as int, 0));
        },
    }
}

impl Plan {
    /// Whether a plan's text is JSON; else it is TOML.
    pub fn is_json(text: &str) -> (b: bool)
        ensures
            b == begins(trim_left(text@), "{"@),
    {
        starts_with(trim_start(text).as_str(), "{")
    }

    /// The plan, if it is valid.
    pub fn checked(self) -> (r: Result<Plan, ConfigError>)
        ensures
            r is Ok <==> self@.valid(),
            match r {
                Ok(p) => p@ == self@,
                Err(e) => self@.refused(e),
            },
    {
        match self.validate() {
            Ok(_) => Ok(self),
            Err(e) => Err(e),
        }
    }

    /// A one-task plan for a request that needs no decomposition.
    pub fn single(title: &str, request: &str) -> (r: Plan)
        ensures
            r@ == single_plan(title@, request@),
    {
        let mut tasks: Vec<PlanTask> = Vec::new();
        let task = PlanTask {
            key: "T1".to_owned(),
            title: title.to_owned(),
            description: request.to_owned(),
            role: default_role(),
            depends_on: Vec::new(),
            acceptance: Vec::new(),
        };
        proof {
            assert(views(task.depends_on@) =~= Seq::<Seq<char>>::empty());
            assert(views(task.acceptance@) =~= Seq::<Seq<char>>::empty());
        }
        tasks.push(task);
        let r = Plan { summary: title.to_owned(), tasks };
        assert(r@.tasks =~= single_plan(title@, request@).tasks);
        r
    }

    /// Checks keys are well-formed and unique and dependencies form a DAG.
    pub fn validate(&self) -> (r: Result<(), ConfigError>)
        ensures
            r is Ok <==> self@.valid(),
            r matches Err(e) ==> self@.refused(e),
    {
        let ghost p = self@;
        if self.tasks.len() == 0 {
            return Err(ConfigError::Plan("a plan needs at least one task".to_owned()));
        }
        let mut seen_keys: OrdSet<String> = OrdSet::new();
        let mut i: usize = 0;
        while i < self.tasks.len()
            invariant
                i <= self.tasks.len(),
                p == self@,
                p.tasks.len() > 0,
                seen_keys.wf(),
                forall|key: Seq<char>| #[trigger]
                    seen_keys@.contains(key) <==> exists|k: int|
                        0 <= k < i && (#[trigger] p.tasks[k]).key == key,
                p.keys_fine(i as int),
            decreases self.tasks.len() - i,
        {
            let key = &self.tasks[i].key;
            assert(p.tasks[i as int].key == key@);
            if !is_valid_key(key.as_str()) {
                let mut text = "task key `".to_owned();
                text.append(key.as_str());
                text.append("` must be 1-40 characters of letters, digits, `-` or `_`");
                assert(p.bad_key(i as int));
                return Err(ConfigError::Plan(text));
            }
            let ghost before = seen_keys@;
            if !seen_keys.insert(key.clone()) {
                let mut text = "task key `".to_owned();
                text.append(key.as_str());
                text.append("` is used twice");
                assert(before.contains(key@));
                assert(p.bad_key(i as int));
                return Err(ConfigError::Plan(text));
            }
            proof {
                assert(!before.contains(key@));
                assert(!p.bad_key(i as int));
                assert forall|k: Seq<char>| #[trigger] seen_keys@.contains(k) <==> exists|j: int|
                    0 <= j < i + 1 && (#[trigger] p.tasks[j]).key == k by {
                    assert(before.contains(k) <==> exists|j: int|
                        0 <= j < i && (#[trigger] p.tasks[j]).key == k);
                    if k == key@ {
                        assert(p.tasks[i as int].key == k);
                    }
                }
            }
            i += 1;
        }
        let mut nodes: Vec<(String, Vec<String>)> = Vec::new();
        let mut n: usize = 0;
        while n < self.tasks.len()
            invariant
                n <= self.tasks.len(),
                p == self@,
                nodes.len() == n,
                forall|k: int|
                    0 <= k < n ==> (#[trigger] nodes@[k]).0@ == p.tasks[k].key && texts(
                        nodes@[k].1@,
                    ) == p.tasks[k].depends_on,
            decreases self.tasks.len() - n,
        {
            nodes.push((self.tasks[n].key.clone(), duplicate_all(&self.tasks[n].depends_on)));
            n += 1;
        }
        proof {
            let ps = pairs(nodes@);
            assert forall|k: int| 0 <= k < ps.len() implies ps[k] == p.nodes()[k] by {
                assert(models(nodes@[k].1@) =~= texts(nodes@[k].1@));
            }
            assert(ps =~= p.nodes());
        }
        match DepGraph::from_nodes(nodes) {
            Ok(_) => Ok(()),
            Err(e) => {
                proof {
                    refused_plans_are_invalid(p, e);
                }
                Err(ConfigError::Graph(e))
            },
        }
    }

    /// The plan's tasks, as a run has them.
    pub fn task_specs(&self) -> (r: Vec<TaskSpec>)
        ensures
            views(r@) == self@.specs(),
    {
        let mut r: Vec<TaskSpec> = Vec::new();
        let mut i: usize = 0;
        while i < self.tasks.len()
            invariant
                i <= self.tasks.len(),
                views(r@) == self@.specs().take(i as int),
            decreases self.tasks.len() - i,
        {
            let t = &self.tasks[i];
            let spec = TaskSpec {
                key: t.key.clone(),
                title: t.title.clone(),
                description: t.description.clone(),
                role: t.role.clone(),
                depends_on: duplicate_all(&t.depends_on),
                acceptance: duplicate_all(&t.acceptance),
            };
            proof {
                views_push(r@, spec);
                assert(spec@ =~= spec_of(self@.tasks[i as int]));
                assert(self@.specs().take(i + 1) =~= self@.specs().take(i as int).push(spec@));
            }
            r.push(spec);
            i += 1;
        }
        assert(self@.specs().take(i as int) =~= self@.specs());
        r
    }
}

impl PlanModel {
    /// Why a plan is refused: it has no task, else the first bad key, else what
    /// is wrong with its dependencies.
    pub open spec fn refused(self, e: ConfigError) -> bool {
        match e {
            ConfigError::Plan(message) => {
                ||| self.tasks.len() == 0 && message@ == "a plan needs at least one task"@
                ||| exists|i: int|
                    {
                        &&& 0 <= i < self.tasks.len()
                        &&& #[trigger] self.bad_key(i)
                        &&& self.keys_fine(i)
                        &&& message@ == self.key_error(i)
                    }
            },
            ConfigError::Graph(g) => {
                &&& self.tasks.len() > 0
                &&& self.keys_fine(self.tasks.len() as int)
                &&& is_refusal::<String>(self.nodes(), g)
            },
            _ => false,
        }
    }
}

/// A sign that parts the commands of a compound one: a line end, `;`, `&`, `|`, a
/// parenthesis or a backquote.
pub open spec fn parts_commands(c: char) -> bool {
    seq!['\n', ';', '&', '|', '(', ')', '`'].contains(c)
}

/// A command without any such sign.
pub open spec fn is_one_command(s: Seq<char>) -> bool {
    forall|i: int| 0 <= i < s.len() ==> !parts_commands(#[trigger] s[i])
}

proof fn signs_are_cuts(c: char)
    ensures
        parts_commands(c) == is_cut(c),
{
    let signs = seq!['\n', ';', '&', '|', '(', ')', '`'];
    if is_cut(c) {
        let i: int = if c == '\n' {
            0
        } else if c == ';' {
            1
        } else if c == '&' {
            2
        } else if c == '|' {
            3
        } else if c == '(' {
            4
        } else if c == ')' {
            5
        } else {
            6
        };
        assert(signs[i] == c);
    }
}

proof fn solid_keeps(parts: Seq<Seq<char>>, i: int)
    requires
        0 <= i < parts.len(),
        trimmed(parts[i]).len() > 0,
    ensures
        solid(parts).contains(trimmed(parts[i])),
    decreases parts.len(),
{
    let front = solid(parts.drop_last());
    let all = solid(parts);
    if i < parts.len() - 1 {
        assert(parts.drop_last()[i] == parts[i]);
        solid_keeps(parts.drop_last(), i);
        let k = front.index_of(trimmed(parts[i]));
        assert(all[k] == trimmed(parts[i]));
    } else {
        assert(all.last() == trimmed(parts[i]));
    }
}

/// A compound command falls apart at every sign that parts commands: whatever is
/// around it, each single command in it is one of its segments, and so is the whole.
pub proof fn compound_commands_fall_apart(
    before: Seq<char>,
    command: Seq<char>,
    after: Seq<char>,
)
    requires
        is_one_command(command),
        trimmed(command).len() > 0,
        before.len() == 0 || parts_commands(before.last()),
        after.len() == 0 || parts_commands(after[0]),
    ensures
        segments_of(before + command + after).contains(trimmed(command)),
        segments_of(before + command + after).contains(trimmed(before + command + after)),
{
    let cut = |c: char| is_cut(c);
    let s = before + command + after;
    let all = pieces(s, cut);
    assert forall|i: int| 0 <= i < command.len() implies !cut(#[trigger] command[i]) by {
        signs_are_cuts(command[i]);
    }
    whole_texts_are_one_piece(command, cut);
    let tail = command + after;
    if after.len() > 0 {
        signs_are_cuts(after[0]);
        let rest = after.drop_first();
        pieces_part_at_separators(command, after[0], rest, cut);
        assert(command.push(after[0]) + rest =~= tail);
    } else {
        assert(tail =~= command);
    }
    assert(pieces(tail, cut)[0] == command);
    if before.len() > 0 {
        let front = before.drop_last();
        signs_are_cuts(before.last());
        pieces_part_at_separators(front, before.last(), tail, cut);
        assert(front.push(before.last()) + tail =~= s);
        let n = pieces(front, cut).len() as int;
        assert(all[n] == command);
        solid_keeps(all, n);
    } else {
        assert(s =~= tail);
        solid_keeps(all, 0);
    }
    let segments = segments_of(s);
    let k = solid(all).index_of(trimmed(command));
    assert(segments[k] == trimmed(command));
    assert(segments.last() == trimmed(s));
}

/// Commands can be put together in these ways.
pub open spec fn joins_commands(sep: Seq<char>) -> bool {
    sep == ";"@ || sep == "&&"@ || sep == "||"@ || sep == "|"@ || sep == "\n"@ || sep == "&"@
}

/// Deny rules are held against every part of a compound command: where a rule covers
/// one of two commands alone, it denies `a ; b`, `a && b`, `a || b`, `a | b`, `a & b`
/// and the two on lines of their own.
pub proof fn parts_of_compounds_are_denied(
    p: PermissionPolicyModel,
    i: int,
    a: Seq<char>,
    sep: Seq<char>,
    b: Seq<char>,
    input: JsonModel,
)
    requires
        0 <= i < p.deny.len(),
        joins_commands(sep),
        is_one_command(a),
        is_one_command(b),
        subject_of(input) == a + sep + b,
        (trimmed(a).len() > 0 && rule_covers(p.deny[i], "Bash"@, trimmed(a))) || (trimmed(b).len()
            > 0 && rule_covers(p.deny[i], "Bash"@, trimmed(b))),
    ensures
        p.decision("Bash"@, input) matches PolicyDecisionModel::Deny { rule } && p.deny.contains(rule),
{
    reveal_strlit(";");
    reveal_strlit("&&");
    reveal_strlit("||");
    reveal_strlit("|");
    reveal_strlit("\n");
    reveal_strlit("&");
    let s = a + sep + b;
    let segments = segments_of(s);
    let first = sep[0];
    let last = sep.last();
    signs_are_cuts(first);
    signs_are_cuts(last);
    if trimmed(a).len() > 0 && rule_covers(p.deny[i], "Bash"@, trimmed(a)) {
        let none = Seq::<char>::empty();
        assert(none + a + (sep + b) =~= s);
        assert((sep + b)[0] == first);
        compound_commands_fall_apart(none, a, sep + b);
        let k = segments.index_of(trimmed(a));
        assert(rule_covers(p.deny[i], "Bash"@, segments[k]));
    } else {
        let none = Seq::<char>::empty();
        assert((a + sep) + b + none =~= s);
        assert((a + sep).last() == last);
        compound_commands_fall_apart(a + sep, b, none);
        let k = segments.index_of(trimmed(b));
        assert(rule_covers(p.deny[i], "Bash"@, segments[k]));
    }
    assert(p.denies(i, "Bash"@, input));
    deny_wins(p, "Bash"@, input, i);
}

/// Position `i` of a command is where the shell would do more than run one program
/// with arguments: an operator, a redirection, a line end or a substitution.
pub open spec fn is_shell_sign(command: Seq<char>, i: int) -> bool {
    &&& 0 <= i < command.len()
    &&& {
        ||| seq![';', '&', '|', '`', '>', '<', '\n', '\r'].contains(command[i])
        ||| command[i] == '$' && i + 1 < command.len() && (command[i + 1] == '(' || command[i + 1]
            == '{')
    }
}

proof fn one_sign_is_held(s: Seq<char>, p: Seq<char>, i: int)
    requires
        0 <= i,
        i + p.len() <= s.len(),
        forall|k: int| 0 <= k < p.len() ==> s[i + k] == #[trigger] p[k],
    ensures
        holds(s, p),
{
    assert(s.skip(i).take(p.len() as int) =~= p);
    assert(begins(s.skip(i), p));
}

proof fn held_sign_stands(s: Seq<char>, p: Seq<char>) -> (i: int)
    requires
        holds(s, p),
        p.len() > 0,
    ensures
        0 <= i,
        i + p.len() <= s.len(),
        forall|k: int| 0 <= k < p.len() ==> s[i + k] == #[trigger] p[k],
{
    let i = choose|i: int| 0 <= i <= s.len() && begins(#[trigger] s.skip(i), p);
    assert forall|k: int| 0 <= k < p.len() implies s[i + k] == #[trigger] p[k] by {
        assert(s.skip(i).take(p.len() as int)[k] == s[i + k]);
    }
    i
}

/// What the shell would do more than running one program is seen, and nothing else.
pub proof fn shell_signs_are_seen(command: Seq<char>)
    ensures
        shell_syntax(command) <==> exists|i: int| is_shell_sign(command, i),
{
    reveal_strlit(";");
    reveal_strlit("&");
    reveal_strlit("|");
    reveal_strlit("`");
    reveal_strlit("$(");
    reveal_strlit(">");
    reveal_strlit("<");
    reveal_strlit("\n");
    reveal_strlit("\r");
    reveal_strlit("${");
    let signs = seq![';', '&', '|', '`', '>', '<', '\n', '\r'];
    if exists|i: int| is_shell_sign(command, i) {
        let i = choose|i: int| is_shell_sign(command, i);
        let c = command[i];
        if signs.contains(c) {
            let k = signs.index_of(c);
            assert(signs[k] == c);
            if k == 0 {
                one_sign_is_held(command, ";"@, i);
            } else if k == 1 {
                one_sign_is_held(command, "&"@, i);
            } else if k == 2 {
                one_sign_is_held(command, "|"@, i);
            } else if k == 3 {
                one_sign_is_held(command, "`"@, i);
            } else if k == 4 {
                one_sign_is_held(command, ">"@, i);
            } else if k == 5 {
                one_sign_is_held(command, "<"@, i);
            } else if k == 6 {
                one_sign_is_held(command, "\n"@, i);
            } else {
                one_sign_is_held(command, "\r"@, i);
            }
        } else if command[i + 1] == '(' {
            one_sign_is_held(command, "$("@, i);
        } else {
            one_sign_is_held(command, "${"@, i);
        }
    }
    if shell_syntax(command) {
        let p = if holds(command, ";"@) {
            ";"@
        } else if holds(command, "&"@) {
            "&"@
        } else if holds(command, "|"@) {
            "|"@
        } else if holds(command, "`"@) {
            "`"@
        } else if holds(command, "$("@) {
            "$("@
        } else if holds(command, ">"@) {
            ">"@
        } else if holds(command, "<"@) {
            "<"@
        } else if holds(command, "\n"@) {
            "\n"@
        } else if holds(command, "\r"@) {
            "\r"@
        } else {
            "${"@
        };
        let i = held_sign_stands(command, p);
        assert(command[i + 0] == p[0]);
        assert(signs[0] == ';' && signs[1] == '&' && signs[2] == '|' && signs[3] == '`');
        assert(signs[4] == '>' && signs[5] == '<' && signs[6] == '\n' && signs[7] == '\r');
        if p.len() == 2 {
            assert(command[i + 1] == p[1]);
        }
        assert(is_shell_sign(command, i));
    }
}

/// A rule covers a request or, where that is a shell command, a part of it.
pub open spec fn falls_under(rule: Seq<char>, tool: Seq<char>, subject: Seq<char>) -> bool {
    if tool == "Bash"@ {
        exists|k: int|
            0 <= k < segments_of(subject).len() && rule_covers(
                rule,
                tool,
                #[trigger] segments_of(subject)[k],
            )
    } else {
        rule_covers(rule, tool, subject)
    }
}

/// How a request is decided, for every tool: by the first deny rule that covers it or,
/// of a shell command, a part of it; else it is allowed where an allow rule covers it,
/// of shell commands only simple ones; else it is escalated or denied, as the policy
/// says of what no rule covers.
pub proof fn requests_are_decided_by_the_rules(
    p: PermissionPolicyModel,
    tool: Seq<char>,
    input: JsonModel,
)
    ensures
        ({
            let subject = subject_of(input);
            let denied = exists|i: int|
                0 <= i < p.deny.len() && falls_under(#[trigger] p.deny[i], tool, subject);
            let covered = exists|i: int|
                0 <= i < p.allow.len() && rule_covers(#[trigger] p.allow[i], tool, subject);
            let plain = tool == "Bash"@ ==> !exists|i: int| is_shell_sign(subject, i);
            let d = p.decision(tool, input);
            &&& denied ==> exists|i: int|
                {
                    &&& 0 <= i < p.deny.len()
                    &&& falls_under(#[trigger] p.deny[i], tool, subject)
                    &&& forall|k: int|
                        0 <= k < i ==> !falls_under(#[trigger] p.deny[k], tool, subject)
                    &&& d == (PolicyDecisionModel::Deny { rule: p.deny[i] })
                }
            &&& !denied ==> {
                &&& d is Allow <==> plain && covered
                &&& !(plain && covered) && p.on_unknown == OnUnknown::Escalate ==> d is Escalate
                &&& !(plain && covered) && p.on_unknown == OnUnknown::Deny ==> d is Deny
            }
        }),
{
    let subject = subject_of(input);
    shell_signs_are_seen(subject);
    assert forall|i: int| 0 <= i < p.deny.len() implies p.denies(i, tool, input) == falls_under(
        #[trigger] p.deny[i],
        tool,
        subject,
    ) by {
        if tool != "Bash"@ && falls_under(p.deny[i], tool, subject) {
            let one = seq![subject];
            assert(rule_covers(p.deny[i], tool, one[0]));
        }
    }
    if exists|i: int| p.denies(i, tool, input) {
        let i = choose|i: int| p.denies(i, tool, input);
        first_denying(p, tool, input, i);
        let first = choose|i: int|
            p.denies(i, tool, input) && forall|k: int|
                0 <= k < i ==> !#[trigger] p.denies(k, tool, input);
        assert(falls_under(p.deny[first], tool, subject));
        assert forall|k: int| 0 <= k < first implies !falls_under(
            #[trigger] p.deny[k],
            tool,
            subject,
        ) by {
            assert(!p.denies(k, tool, input));
        }
    } else {
        assert forall|i: int| 0 <= i < p.deny.len() implies !falls_under(
            #[trigger] p.deny[i],
            tool,
            subject,
        ) by {
            assert(!p.denies(i, tool, input));
        }
    }
}

/// A request is about its command; where it has none, about its file, its path, its
/// address or its pattern, in this order; where it names nothing, about nothing.
pub proof fn requests_are_about_their_subject(input: JsonModel)
    ensures
        subject_of(input) == match input.text_field("command"@) {
            Some(t) => t,
            None => match input.text_field("file_path"@) {
                Some(t) => t,
                None => match input.text_field("path"@) {
                    Some(t) => t,
                    None => match input.text_field("url"@) {
                        Some(t) => t,
                        None => match input.text_field("pattern"@) {
                            Some(t) => t,
                            None => Seq::empty(),
                        },
                    },
                },
            },
        },
{
    reveal_with_fuel(first_text, 6);
}

proof fn word_is_its_own_trim(s: Seq<char>)
    requires
        s.len() > 0,
        !is_space(s[0]),
        !is_space(s.last()),
    ensures
        trimmed(s) == s,
{
}

/// What rules without a prefix cover: `*` everything; the name of a tool every use of
/// it and of no other; `Tool(text)` the one use of it whose subject is that text. No
/// rule for one tool covers another.
pub proof fn rules_cover_what_they_name(
    name: Seq<char>,
    text: Seq<char>,
    tool: Seq<char>,
    subject: Seq<char>,
)
    requires
        name.len() > 0,
        !name.contains('('),
        name != "*"@,
        !is_space(name[0]),
        !is_space(name.last()),
    ensures
        rule_covers("*"@, tool, subject),
        rule_covers(name, tool, subject) <==> name == tool,
        !finishes(text, ":*"@) ==> (rule_covers(name + "("@ + text + ")"@, tool, subject) <==> name
            == tool && subject == text),
        name != tool ==> !rule_covers(name + "("@ + text + ")"@, tool, subject),
{
    reveal_strlit("(");
    reveal_strlit(")");
    reveal_strlit("*");
    assert("*"@[0] == '*');
    word_is_its_own_trim("*"@);
    word_is_its_own_trim(name);
    if exists|i: int| is_first(name, '(', i) {
        let i = choose|i: int| is_first(name, '(', i);
        assert(name.contains(name[i]));
    }
    let rule = name + "("@ + text + ")"@;
    let n = name.len() as int;
    assert(rule[0] == name[0]);
    assert(rule.last() == ')');
    word_is_its_own_trim(rule);
    assert(rule[n] == '(');
    assert(rule.len() >= 3 || n == 1);
    assert(rule != "*"@) by {
        assert(rule.len() != "*"@.len());
    }
    assert(rule.contains('('));
    assert forall|k: int| 0 <= k < n implies #[trigger] rule[k] != '(' by {
        assert(rule[k] == name[k]);
        assert(name.contains(name[k]));
    }
    assert(is_first(rule, '(', n));
    assert forall|k: int| is_first(rule, '(', k) implies k == n by {
        if n < k {
            assert(rule[n] != '(');
        }
    }
    assert(rule.take(n) =~= name);
    let rest = rule.skip(n + 1);
    assert(rest =~= text + ")"@);
    assert(rest.skip(rest.len() - 1) =~= ")"@);
    assert(rest.drop_last() =~= text);
}

/// A shell command is covered by a prefix up to a word: it is the prefix, or goes on
/// after it with a blank, or the prefix itself stops with one.
pub proof fn prefixes_stop_at_words(prefix: Seq<char>, subject: Seq<char>)
    ensures
        rule_covers("Bash("@ + prefix + ":*)"@, "Bash"@, subject) <==> {
            &&& subject.len() >= prefix.len()
            &&& subject.take(prefix.len() as int) == prefix
            &&& {
                ||| subject.len() == prefix.len()
                ||| subject[prefix.len() as int] == ' '
                ||| prefix.len() > 0 && prefix.last() == ' '
            }
        },
{
    reveal_strlit("Bash");
    reveal_strlit("Bash(");
    reveal_strlit("(");
    reveal_strlit(" ");
    assert("Bash"@ + "("@ =~= "Bash("@);
    prefix_rules_cover("Bash"@, prefix, subject);
    let n = prefix.len() as int;
    if subject.len() >= n {
        let rest = subject.skip(n);
        if subject.take(n) == prefix && subject.len() == n {
            assert(subject =~= prefix);
        }
        if subject == prefix {
            assert(subject.take(n) =~= prefix);
        }
        if rest.len() > 0 {
            assert(rest.take(1) =~= seq![subject[n]]);
            assert(seq![' '] =~= " "@);
            if subject[n] == ' ' {
                assert(rest.take(1) =~= " "@);
            } else {
                assert(rest.take(1)[0] != " "@[0]);
            }
        }
        if n > 0 {
            assert(prefix.skip(n - 1) =~= seq![prefix.last()]);
            if prefix.last() == ' ' {
                assert(prefix.skip(n - 1) =~= " "@);
            } else {
                assert(prefix.skip(n - 1)[0] != " "@[0]);
            }
        }
    }
}

/// An override puts in the runtime and the model that are given, and nothing else.
pub proof fn overrides_touch_nothing_else(
    a: AgentConfigModel,
    runtime: Option<Seq<char>>,
    model: Option<Seq<char>>,
)
    ensures
        ({
            let b = overridden(a, runtime, model);
            &&& runtime matches Some(r) ==> b.runtime == r
            &&& runtime is None ==> b.runtime == a.runtime
            &&& model is Some ==> b.model == model
            &&& model is None ==> b.model == a.model
            &&& b.permission_mode == a.permission_mode
            &&& b.allowed_tools == a.allowed_tools
            &&& b.disallowed_tools == a.disallowed_tools
            &&& b.max_turns == a.max_turns
            &&& b.append_system_prompt == a.append_system_prompt
        }),
{
}

/// A role has its own settings; a role without any has those of `default`, and where
/// there are none either, the same ones as every other such role: edits are accepted
/// and no tool is named.
pub proof fn roles_have_settings(c: ConfigModel, role: Seq<char>, other: Seq<char>)
    ensures
        c.agents.dom().contains(role) ==> c.agent(role) == c.agents[role],
        !c.agents.dom().contains(role) && c.agents.dom().contains("default"@) ==> c.agent(role)
            == c.agents["default"@],
        !c.agents.dom().contains(role) && !c.agents.dom().contains(other) ==> c.agent(role)
            == c.agent(other),
        !c.agents.dom().contains(role) && !c.agents.dom().contains("default"@) ==> {
            let a = c.agent(role);
            &&& a.permission_mode == PermissionModeSetting::AcceptEdits
            &&& a.model is None && a.max_turns is None && a.append_system_prompt is None
            &&& a.allowed_tools.len() == 0 && a.disallowed_tools.len() == 0
        },
{
}

/// A valid plan has tasks, under different keys of one to forty letters, digits,
/// hyphens and underscores.
pub proof fn valid_plans_have_proper_keys(p: PlanModel, i: int, j: int, k: int)
    requires
        p.valid(),
        0 <= i < j < p.tasks.len(),
        0 <= k < p.tasks[i].key.len(),
    ensures
        p.tasks[i].key != p.tasks[j].key,
        1 <= p.tasks[i].key.len() <= 40,
        1 <= p.tasks[j].key.len() <= 40,
        ({
            let c = p.tasks[i].key[k];
            'a' <= c <= 'z' || 'A' <= c <= 'Z' || '0' <= c <= '9' || c == '-' || c == '_'
        }),
{
    assert(!p.bad_key(i));
    assert(!p.bad_key(j));
    assert(is_key_char(p.tasks[i].key[k]));
}

/// What a plan says of a task is what the run has of it.
pub proof fn plans_become_tasks(p: PlanModel, i: int)
    requires
        0 <= i < p.tasks.len(),
    ensures
        p.specs().len() == p.tasks.len(),
        p.specs()[i].key == p.tasks[i].key,
        p.specs()[i].title == p.tasks[i].title,
        p.specs()[i].description == p.tasks[i].description,
        p.specs()[i].role == p.tasks[i].role,
        p.specs()[i].depends_on == p.tasks[i].depends_on,
        p.specs()[i].acceptance == p.tasks[i].acceptance,
{
}

/// A request without a plan is one task that holds all of it and waits for nothing.
pub proof fn single_plans_hold_the_request(title: Seq<char>, request: Seq<char>)
    ensures
        ({
            let p = single_plan(title, request);
            &&& p.tasks.len() == 1
            &&& p.tasks[0].title == title
            &&& p.tasks[0].description == request
            &&& p.tasks[0].depends_on.len() == 0
            &&& p.summary == title
        }),
{
}

/// A plan that is refused for a key names that key.
pub proof fn refused_keys_are_named(plan: PlanModel, i: int)
    ensures
        crate::text::holds(plan.key_error(i), plan.tasks[i].key),
        is_key(plan.tasks[i].key) <==> crate::text::finishes(plan.key_error(i), "` is used twice"@),
{
    let key = plan.tasks[i].key;
    let a = "task key `"@;
    let b = "` must be 1-40 characters of letters, digits, `-` or `_`"@;
    let c = "` is used twice"@;
    crate::prompts::held_in_the_middle(a, key, b);
    crate::prompts::held_in_the_middle(a, key, c);
    reveal_strlit("` is used twice");
    reveal_strlit("` must be 1-40 characters of letters, digits, `-` or `_`");
    let x = a + key + b;
    let y = a + key + c;
    assert(y.skip(y.len() - c.len()) =~= c);
    assert(x.skip(x.len() - c.len()).last() == b.last());
    assert(c.last() == 'e');
}

} // verus!
