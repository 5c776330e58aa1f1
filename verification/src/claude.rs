//! A coding agent's command line, driven through its stream-json protocol.
//!
//! One process per session, full duplex over stdio:
//!
//! * stdin: `{"type":"user",…}` messages (the prompt and follow-ups) and
//!   `control_request`s (`initialize`, `interrupt`), plus `control_response`s
//!   to the CLI's `can_use_tool` permission requests.
//! * stdout: `system/init`, `assistant`, `user` (tool results), `result` (end
//!   of each turn, with cumulative cost and usage) and `control_request`s.
//!
//! The session id is chosen beforehand (`--session-id`), untrusted values are
//! passed as `--flag=value`, and permission prompts are never approved here:
//! they become [`AgentEvent::PermissionRequested`] for the engine to decide.

use vstd::prelude::*;

use crate::agent::{AgentCapabilities, PermissionMode, ProbeReport, StartRequest, CODE_CLI};
use crate::budget::{no_usage, Usage};
use crate::events::{AgentEvent, AgentEventModel, LogLevel};
use crate::git::args_of;
use crate::json::{json_in, json_parse, json_print, json_text, Json, JsonModel};
use crate::money::{nanos_in, Usd};
use crate::text::{
    begins, byte_len, byte_len_adds, bytes_from, chars_of, decimal, find_start_within, join,
    join_texts, number_text, same, seen, start_within, start_within_fits, text_of, texts,
    texts_push, trim, trimmed, u64_text, views, views_push, Duplicate,
};

verus! {

/// Longest tool output kept in an event, in bytes; the rest is elided.
pub const MAX_TOOL_OUTPUT: usize = 8192;

/// Stderr lines forwarded per session before forwarding stops.
pub const MAX_STDERR_LINES: usize = 50;

/// The runtime of the agent's command line: the name that runs know it by, the
/// command that it is, and the program that is started for it.
#[derive(Debug, PartialEq, Eq)]
pub struct ClaudeCode {
    pub runtime: String,
    pub command: String,
    pub program: String,
}

impl Default for ClaudeCode {
    fn default() -> (r: ClaudeCode)
        ensures
            r.runtime@ == CODE_CLI@,
            r.command@ == CODE_CLI@,
            r.program@ == CODE_CLI@,
    {
        ClaudeCode {
            runtime: CODE_CLI.to_owned(),
            command: CODE_CLI.to_owned(),
            program: CODE_CLI.to_owned(),
        }
    }
}

impl ClaudeCode {
    pub fn new() -> (r: ClaudeCode)
        ensures
            r.runtime@ == CODE_CLI@,
            r.command@ == CODE_CLI@,
            r.program@ == CODE_CLI@,
    {
        ClaudeCode::default()
    }

    /// A command under a name of its own.
    pub fn named(runtime: &str, command: &str) -> (r: ClaudeCode)
        ensures
            r.runtime@ == runtime@,
            r.command@ == command@,
            r.program@ == command@,
    {
        ClaudeCode {
            runtime: runtime.to_owned(),
            command: command.to_owned(),
            program: command.to_owned(),
        }
    }

    /// Uses a specific binary (or a stand-in).
    pub fn with_program(program: &str) -> (r: ClaudeCode)
        ensures
            r.runtime@ == CODE_CLI@,
            r.command@ == CODE_CLI@,
            r.program@ == program@,
    {
        let mut r = ClaudeCode::default();
        r.program = program.to_owned();
        r
    }

    /// The name of the runtime.
    pub fn name(&self) -> (r: &str)
        ensures
            r@ == self.runtime@,
    {
        self.runtime.as_str()
    }

    pub fn capabilities(&self) -> (r: AgentCapabilities)
        ensures
            r.multi_turn && r.resume && r.interrupt && r.permission_prompts && r.reports_cost,
    {
        AgentCapabilities {
            multi_turn: true,
            resume: true,
            interrupt: true,
            permission_prompts: true,
            reports_cost: true,
        }
    }
}

/// How asking the program for its version ended.
#[derive(Debug, PartialEq, Eq)]
pub enum ProbeOutcome {
    Ran { success: bool, stdout: String, stderr: String },
    NotRun { error: String },
    TimedOut,
}

/// Whether the runtime can be used, from how asking for its version ended.
pub fn probe_report(agent: &ClaudeCode, outcome: &ProbeOutcome) -> (r: ProbeReport)
    ensures
        r@.runtime == agent.runtime@,
        match outcome {
            ProbeOutcome::Ran { success, stdout, stderr } => {
                &&& r@.available == success
                &&& r@.version == if *success {
                    Some(trimmed(stdout@))
                } else {
                    None
                }
                &&& r@.detail == if *success {
                    None
                } else {
                    Some(trimmed(stderr@))
                }
            },
            ProbeOutcome::NotRun { error } => {
                &&& !r@.available
                &&& r@.version is None
                &&& r@.detail == Some("could not run "@ + agent.program@ + ": "@ + error@)
            },
            ProbeOutcome::TimedOut => {
                &&& !r@.available
                &&& r@.version is None
                &&& r@.detail == Some("`"@ + agent.command@ + " --version` timed out"@)
            },
        },
{
    let runtime = agent.runtime.clone();
    match outcome {
        ProbeOutcome::Ran { success, stdout, stderr } => if *success {
            ProbeReport {
                runtime,
                available: true,
                version: Some(trim(stdout.as_str())),
                detail: None,
            }
        } else {
            ProbeReport {
                runtime,
                available: false,
                version: None,
                detail: Some(trim(stderr.as_str())),
            }
        },
        ProbeOutcome::NotRun { error } => {
            let mut text = "could not run ".to_owned();
            text.append(agent.program.as_str());
            text.append(": ");
            text.append(error.as_str());
            ProbeReport { runtime, available: false, version: None, detail: Some(text) }
        },
        ProbeOutcome::TimedOut => {
            let mut text = "`".to_owned();
            text.append(agent.command.as_str());
            text.append(" --version` timed out");
            ProbeReport { runtime, available: false, version: None, detail: Some(text) }
        },
    }
}

/// One argument, if there is a value for it: the value stays attached to its
/// flag.
pub open spec fn flag(name: Seq<char>, value: Option<Seq<char>>) -> Seq<Seq<char>> {
    match value {
        Some(v) => seq![name + v],
        None => Seq::empty(),
    }
}

/// A list of tools, if there is one.
pub open spec fn tools(list: Seq<Seq<char>>) -> Option<Seq<char>> {
    if list.len() > 0 {
        Some(join(list, ","@))
    } else {
        None
    }
}

/// The name of a permission mode.
pub open spec fn mode_name(mode: PermissionMode) -> Seq<char> {
    match mode {
        PermissionMode::Ask => "default"@,
        PermissionMode::AcceptEdits => "acceptEdits"@,
        PermissionMode::Plan => "plan"@,
    }
}

/// Which session to work in: an earlier one, or a new one of a known id.
pub open spec fn session_flag(request: &StartRequest) -> Seq<Seq<char>> {
    match request.resume {
        Some(id) => flag("--resume="@, Some(id@)),
        None => flag("--session-id="@, seen(request.session_id)),
    }
}

/// The arguments that every session has.
pub open spec fn fixed_args() -> Seq<Seq<char>> {
    seq![
        "--output-format"@,
        "stream-json"@,
        "--verbose"@,
        "--input-format"@,
        "stream-json"@,
        "--permission-prompt-tool"@,
        "stdio"@,
    ]
}

/// The command line for a session.
pub open spec fn session_args(request: &StartRequest) -> Seq<Seq<char>> {
    fixed_args() + flag("--permission-mode="@, Some(mode_name(request.permission_mode))) + flag(
        "--model="@,
        seen(request.model),
    ) + flag("--append-system-prompt="@, seen(request.append_system_prompt)) + session_flag(request)
        + flag("--allowedTools="@, tools(texts(request.allowed_tools@))) + flag(
        "--disallowedTools="@,
        tools(texts(request.disallowed_tools@)),
    ) + flag(
        "--max-turns="@,
        match request.max_turns {
            Some(n) => Some(decimal(n as int)),
            None => None,
        },
    ) + flag(
        "--max-budget-usd="@,
        match request.max_budget_usd {
            Some(u) => Some(u.plain()),
            None => None,
        },
    )
}

fn push_flag(args: &mut Vec<String>, name: &str, value: &str)
    ensures
        texts(final(args)@) == texts(old(args)@) + flag(name@, Some(value@)),
{
    let mut text = name.to_owned();
    text.append(value);
    proof {
        texts_push(args@, text);
        assert(texts(args@).push(text@) =~= texts(args@) + flag(name@, Some(value@)));
    }
    args.push(text);
}

/// Builds the command line for a session.
pub fn build_args(request: &StartRequest) -> (r: Vec<String>)
    ensures
        texts(r@) == session_args(request),
{
    let parts: Vec<&str> = vec![
        "--output-format",
        "stream-json",
        "--verbose",
        "--input-format",
        "stream-json",
        "--permission-prompt-tool",
        "stdio",
    ];
    assert(views(parts@) =~= fixed_args());
    let mut args = args_of(parts);
    let mode: &str = match request.permission_mode {
        PermissionMode::Ask => "default",
        PermissionMode::AcceptEdits => "acceptEdits",
        PermissionMode::Plan => "plan",
    };
    push_flag(&mut args, "--permission-mode=", mode);
    let ghost a = texts(args@);
    if let Some(model) = &request.model {
        push_flag(&mut args, "--model=", model.as_str());
    }
    assert(texts(args@) =~= a + flag("--model="@, seen(request.model)));
    let ghost b = texts(args@);
    if let Some(extra) = &request.append_system_prompt {
        push_flag(&mut args, "--append-system-prompt=", extra.as_str());
    }
    assert(texts(args@) =~= b + flag(
        "--append-system-prompt="@,
        seen(request.append_system_prompt),
    ));
    let ghost c = texts(args@);
    match &request.resume {
        Some(id) => push_flag(&mut args, "--resume=", id.as_str()),
        None => {
            if let Some(id) = &request.session_id {
                push_flag(&mut args, "--session-id=", id.as_str());
            }
        },
    }
    assert(texts(args@) =~= c + session_flag(request));
    let ghost d = texts(args@);
    if request.allowed_tools.len() > 0 {
        push_flag(
            &mut args,
            "--allowedTools=",
            join_texts(&request.allowed_tools, ",").as_str(),
        );
    }
    assert(texts(args@) =~= d + flag("--allowedTools="@, tools(texts(request.allowed_tools@))));
    let ghost e = texts(args@);
    if request.disallowed_tools.len() > 0 {
        push_flag(
            &mut args,
            "--disallowedTools=",
            join_texts(&request.disallowed_tools, ",").as_str(),
        );
    }
    assert(texts(args@) =~= e + flag(
        "--disallowedTools="@,
        tools(texts(request.disallowed_tools@)),
    ));
    let ghost f = texts(args@);
    if let Some(turns) = request.max_turns {
        push_flag(&mut args, "--max-turns=", u64_text(turns as u64).as_str());
    } else {
        assert(texts(args@) =~= f + Seq::<Seq<char>>::empty());
    }
    let ghost g = texts(args@);
    if let Some(budget) = request.max_budget_usd {
        push_flag(&mut args, "--max-budget-usd=", budget.to_plain().as_str());
    } else {
        assert(texts(args@) =~= g + Seq::<Seq<char>>::empty());
    }
    args
}

/// The flags that take a value.
pub open spec fn flag_names() -> Seq<Seq<char>> {
    seq![
        "--permission-mode="@,
        "--model="@,
        "--append-system-prompt="@,
        "--resume="@,
        "--session-id="@,
        "--allowedTools="@,
        "--disallowedTools="@,
        "--max-turns="@,
        "--max-budget-usd="@,
    ]
}

/// The argument is the value of one of the flags, attached to it.
pub open spec fn is_flagged(arg: Seq<char>) -> bool {
    exists|k: int| 0 <= k < flag_names().len() && begins(arg, #[trigger] flag_names()[k])
}

/// The arguments are those that every session has, and behind them only values
/// of flags, none of them of `but`.
#[verifier::opaque]
spec fn only_flagged(args: Seq<Seq<char>>, but: Seq<char>) -> bool {
    let n = fixed_args().len() as int;
    &&& args.len() >= n
    &&& args.take(n) == fixed_args()
    &&& forall|i: int|
        n <= i < args.len() ==> is_flagged(#[trigger] args[i]) && !begins(args[i], but)
}

proof fn fixed_args_are_flagged(but: Seq<char>)
    ensures
        only_flagged(fixed_args(), but),
{
    reveal(only_flagged);
    assert(fixed_args().take(fixed_args().len() as int) =~= fixed_args());
}

proof fn flag_is_flagged(
    args: Seq<Seq<char>>,
    k: int,
    value: Option<Seq<char>>,
    but: Seq<char>,
)
    requires
        only_flagged(args, but),
        0 <= k < flag_names().len(),
        2 < but.len(),
        2 < flag_names()[k].len(),
        flag_names()[k][2] != but[2],
    ensures
        only_flagged(args + flag(flag_names()[k], value), but),
{
    reveal(only_flagged);
    let n = fixed_args().len() as int;
    let more = args + flag(flag_names()[k], value);
    assert(more.take(n) =~= args.take(n));
    assert forall|i: int| n <= i < more.len() implies is_flagged(#[trigger] more[i]) && !begins(
        more[i],
        but,
    ) by {
        if i < args.len() {
            assert(more[i] == args[i]);
        } else {
            let name = flag_names()[k];
            let arg = name + value->0;
            assert(more[i] == arg);
            assert(arg.take(name.len() as int) =~= name);
            assert(begins(arg, flag_names()[k]));
            if begins(arg, but) {
                assert(arg.take(but.len() as int)[2] == arg[2]);
            }
        }
    }
}

/// What no argument gives a value to: that of starting a session, where one is
/// resumed, or else that of resuming one.
pub open spec fn unused_flag(request: &StartRequest) -> Seq<char> {
    if request.resume is Some {
        "--session-id="@
    } else {
        "--resume="@
    }
}

proof fn args_are_flagged(request: &StartRequest)
    ensures
        only_flagged(session_args(request), unused_flag(request)),
{
    reveal_strlit("--permission-mode=");
    reveal_strlit("--model=");
    reveal_strlit("--append-system-prompt=");
    reveal_strlit("--resume=");
    reveal_strlit("--session-id=");
    reveal_strlit("--allowedTools=");
    reveal_strlit("--disallowedTools=");
    reveal_strlit("--max-turns=");
    reveal_strlit("--max-budget-usd=");
    let but = unused_flag(request);
    let mode = Some(mode_name(request.permission_mode));
    let turns = match request.max_turns {
        Some(n) => Some(decimal(n as int)),
        None => None,
    };
    let cap = match request.max_budget_usd {
        Some(u) => Some(u.plain()),
        None => None,
    };
    let a0 = fixed_args();
    let a1 = a0 + flag("--permission-mode="@, mode);
    let a2 = a1 + flag("--model="@, seen(request.model));
    let a3 = a2 + flag("--append-system-prompt="@, seen(request.append_system_prompt));
    let a4 = a3 + session_flag(request);
    let a5 = a4 + flag("--allowedTools="@, tools(texts(request.allowed_tools@)));
    let a6 = a5 + flag("--disallowedTools="@, tools(texts(request.disallowed_tools@)));
    let a7 = a6 + flag("--max-turns="@, turns);
    fixed_args_are_flagged(but);
    flag_is_flagged(a0, 0, mode, but);
    flag_is_flagged(a1, 1, seen(request.model), but);
    flag_is_flagged(a2, 2, seen(request.append_system_prompt), but);
    match request.resume {
        Some(id) => flag_is_flagged(a3, 3, Some(id@), but),
        None => flag_is_flagged(a3, 4, seen(request.session_id), but),
    }
    flag_is_flagged(a4, 5, tools(texts(request.allowed_tools@)), but);
    flag_is_flagged(a5, 6, tools(texts(request.disallowed_tools@)), but);
    flag_is_flagged(a6, 7, turns, but);
    flag_is_flagged(a7, 8, cap, but);
}

/// Values that come from elsewhere never become arguments of their own: behind
/// the arguments that every session has, each argument is a flag with its value
/// attached.
pub proof fn values_stay_with_their_flags(request: &StartRequest)
    ensures
        session_args(request).len() >= fixed_args().len(),
        session_args(request).take(fixed_args().len() as int) == fixed_args(),
        forall|i: int|
            fixed_args().len() <= i < session_args(request).len() ==> is_flagged(
                #[trigger] session_args(request)[i],
            ),
{
    args_are_flagged(request);
    reveal(only_flagged);
}

/// A session is resumed or started under an id, never both: no argument names a
/// new session where an earlier one is resumed, and none resumes one otherwise.
pub proof fn resume_takes_precedence(request: &StartRequest)
    ensures
        request.resume matches Some(id) ==> session_args(request).contains("--resume="@ + id@),
        forall|i: int|
            fixed_args().len() <= i < session_args(request).len() ==> !begins(
                #[trigger] session_args(request)[i],
                unused_flag(request),
            ),
{
    args_are_flagged(request);
    reveal(only_flagged);
    if let Some(id) = request.resume {
        let at = fixed_args().len() + 1 + flag("--model="@, seen(request.model)).len() + flag(
            "--append-system-prompt="@,
            seen(request.append_system_prompt),
        ).len();
        assert(session_args(request)[at as int] == "--resume="@ + id@);
    }
}

/// One decoded stdout line.
#[allow(inconsistent_fields)]
#[derive(Debug, PartialEq)]
pub enum Incoming {
    Event(AgentEvent),
    /// The CLI asks whether it may run a tool.
    CanUseTool { request_id: String, tool: String, input: Json },
    /// A CLI request that is not implemented; it is answered with an error so
    /// that the CLI does not wait forever.
    UnsupportedRequest { request_id: String, subtype: String },
    /// The CLI withdrew an earlier request.
    Cancelled { request_id: String },
}

/// What a value of type `Incoming` stands for.
#[allow(inconsistent_fields)]
pub enum IncomingModel {
    Event(AgentEventModel),
    CanUseTool { request_id: Seq<char>, tool: Seq<char>, input: JsonModel },
    UnsupportedRequest { request_id: Seq<char>, subtype: Seq<char> },
    Cancelled { request_id: Seq<char> },
}

impl View for Incoming {
    type V = IncomingModel;

    open spec fn view(&self) -> IncomingModel {
        match self {
            Incoming::Event(event) => IncomingModel::Event(event@),
            Incoming::CanUseTool { request_id, tool, input } => IncomingModel::CanUseTool {
                request_id: request_id@,
                tool: tool@,
                input: input@,
            },
            Incoming::UnsupportedRequest { request_id, subtype } =>
                IncomingModel::UnsupportedRequest { request_id: request_id@, subtype: subtype@ },
            Incoming::Cancelled { request_id } => IncomingModel::Cancelled {
                request_id: request_id@,
            },
        }
    }
}

/// The text, or as much of its start as `max` bytes hold, with a note of how
/// much is left out.
pub open spec fn truncated(s: Seq<char>, max: int) -> Seq<char> {
    if byte_len(s) <= max {
        s
    } else {
        let k = start_within(s, max);
        s.take(k) + "… ["@ + decimal(byte_len(s.skip(k))) + " more bytes]"@
    }
}

/// What is truncated is accounted for: as much of the start as `max` bytes hold
/// is kept, and the note counts all that is left out.
pub proof fn truncation_counts_the_rest(s: Seq<char>, max: int)
    requires
        0 <= max < byte_len(s),
    ensures
        exists|k: int|
            0 <= k <= s.len() && byte_len(#[trigger] s.take(k)) <= max && truncated(s, max)
                == s.take(k) + "… ["@ + decimal(byte_len(s) - byte_len(s.take(k)))
                + " more bytes]"@,
{
    let k = start_within(s, max);
    start_within_fits(s, max);
    assert(s =~= s.take(k) + s.skip(k));
    byte_len_adds(s.take(k), s.skip(k));
}

/// Bounds a text to `max` bytes, with a note of what is left out.
pub fn truncate(s: &str, max: usize) -> (r: String)
    ensures
        r@ == truncated(s@, max as int),
{
    let v = chars_of(s);
    let total = bytes_from(&v, 0);
    assert(v@.skip(0) =~= v@);
    if total <= max as u128 {
        return s.to_owned();
    }
    let k = find_start_within(&v, max);
    let mut r = text_of(&v, 0, k);
    assert(r@ =~= s@.take(k as int));
    r.append("… [");
    r.append(number_text(bytes_from(&v, k)).as_str());
    r.append(" more bytes]");
    r
}

/// The field `key`, or null.
pub open spec fn field_or_null(v: JsonModel, key: Seq<char>) -> JsonModel {
    match v.field(key) {
        Some(x) => x,
        None => JsonModel::Null,
    }
}

fn get_or_null(v: &Json, key: &str) -> (r: Json)
    ensures
        r@ == field_or_null(v@, key@),
{
    match v.get(key) {
        Some(x) => x.duplicate(),
        None => Json::Null,
    }
}

/// A text, or the empty one.
pub open spec fn or_empty(t: Option<Seq<char>>) -> Seq<char> {
    match t {
        Some(x) => x,
        None => Seq::empty(),
    }
}

/// Whether the field `key` is there and true.
pub open spec fn is_set(v: JsonModel, key: Seq<char>) -> bool {
    v.field(key) matches Some(x) && x.truth() == Some(true)
}

fn flag_set(v: &Json, key: &str) -> (b: bool)
    ensures
        b == is_set(v@, key@),
{
    match v.get(key) {
        Some(x) => match x.as_bool() {
            Some(b) => b,
            None => false,
        },
        None => false,
    }
}

/// The parts of a message.
pub open spec fn content_blocks(msg: JsonModel) -> Seq<JsonModel> {
    match msg.field("message"@) {
        Some(m) => match m.field("content"@) {
            Some(JsonModel::Array(items)) => items,
            _ => Seq::empty(),
        },
        None => Seq::empty(),
    }
}

/// What a part of an assistant's message tells.
pub open spec fn assistant_block(block: JsonModel) -> Option<AgentEventModel> {
    match block.text_field("type"@) {
        Some(kind) => if kind == "text"@ {
            match block.text_field("text"@) {
                Some(text) => Some(AgentEventModel::Message { text }),
                None => None,
            }
        } else if kind == "thinking"@ {
            match block.text_field("thinking"@) {
                Some(text) => if text.len() > 0 {
                    Some(AgentEventModel::Thinking { text })
                } else {
                    None
                },
                None => None,
            }
        } else if kind == "tool_use"@ {
            match (block.text_field("id"@), block.text_field("name"@)) {
                (Some(call_id), Some(tool)) => Some(
                    AgentEventModel::ToolCall {
                        call_id,
                        tool,
                        input: field_or_null(block, "input"@),
                    },
                ),
                _ => None,
            }
        } else {
            None
        },
        None => None,
    }
}

/// The texts of the parts that have one.
pub open spec fn part_texts(parts: Seq<JsonModel>) -> Seq<Seq<char>>
    decreases parts.len(),
{
    if parts.len() == 0 {
        Seq::empty()
    } else {
        match parts.last().text_field("text"@) {
            Some(t) => part_texts(parts.drop_last()).push(t),
            None => part_texts(parts.drop_last()),
        }
    }
}

/// What a tool gave back, as a text.
pub open spec fn result_text(content: Option<JsonModel>) -> Seq<char> {
    match content {
        Some(JsonModel::Text(t)) => t,
        Some(JsonModel::Array(parts)) => join(part_texts(parts), "\n"@),
        Some(other) => json_text(other),
        None => Seq::empty(),
    }
}

/// What a part of a user's message tells: the result of a tool.
pub open spec fn user_block(block: JsonModel) -> Option<AgentEventModel> {
    if block.text_field("type"@) == Some("tool_result"@) {
        match block.text_field("tool_use_id"@) {
            Some(call_id) => Some(
                AgentEventModel::ToolResult {
                    call_id,
                    output: truncated(
                        result_text(block.field("content"@)),
                        MAX_TOOL_OUTPUT as int,
                    ),
                    is_error: is_set(block, "is_error"@),
                },
            ),
            None => None,
        }
    } else {
        None
    }
}

/// What parts tell, one after another.
pub open spec fn told(
    blocks: Seq<JsonModel>,
    f: spec_fn(JsonModel) -> Option<AgentEventModel>,
) -> Seq<IncomingModel>
    decreases blocks.len(),
{
    if blocks.len() == 0 {
        Seq::empty()
    } else {
        match f(blocks.last()) {
            Some(event) => told(blocks.drop_last(), f).push(IncomingModel::Event(event)),
            None => told(blocks.drop_last(), f),
        }
    }
}

/// The whole number in the field `key`, or zero.
pub open spec fn tokens_in(v: JsonModel, key: Seq<char>) -> u64 {
    match v.field(key) {
        Some(x) => match x.whole() {
            Some(n) => n as u64,
            None => 0,
        },
        None => 0,
    }
}

/// The amount of dollars in the field `key`.
pub open spec fn dollars_in(v: JsonModel, key: Seq<char>) -> Option<Usd> {
    match v.field(key) {
        Some(JsonModel::Number(n)) => match nanos_in(n) {
            Some(nanos) => Some(Usd { nanos: nanos as i64 }),
            None => None,
        },
        _ => None,
    }
}

/// What one model was used for.
pub open spec fn model_usage(m: JsonModel) -> Usage {
    Usage {
        input_tokens: tokens_in(m, "inputTokens"@),
        output_tokens: tokens_in(m, "outputTokens"@),
        cache_read_tokens: tokens_in(m, "cacheReadInputTokens"@),
        cache_write_tokens: tokens_in(m, "cacheCreationInputTokens"@),
        cost_usd: match dollars_in(m, "costUSD"@) {
            Some(u) => u,
            None => Usd { nanos: 0 },
        },
    }
}

/// What each model was used for.
pub open spec fn model_usages(fields: Seq<(Seq<char>, JsonModel)>) -> Seq<Usage> {
    Seq::new(fields.len(), |i: int| model_usage(fields[i].1))
}

/// The tokens and dollars of a turn's end, before the total cost is put in.
pub open spec fn counted_usage(msg: JsonModel) -> Usage {
    match msg.field("modelUsage"@) {
        Some(JsonModel::Object(fields)) => Usage::sum_of(model_usages(fields)),
        _ => match msg.field("usage"@) {
            Some(u) => Usage {
                input_tokens: tokens_in(u, "input_tokens"@),
                output_tokens: tokens_in(u, "output_tokens"@),
                cache_read_tokens: tokens_in(u, "cache_read_input_tokens"@),
                cache_write_tokens: tokens_in(u, "cache_creation_input_tokens"@),
                cost_usd: Usd { nanos: 0 },
            },
            None => no_usage(),
        },
    }
}

/// The sums over the models have room.
pub open spec fn usage_fits(msg: JsonModel) -> bool {
    match msg.field("modelUsage"@) {
        Some(JsonModel::Object(fields)) => Usage::sum_fits(model_usages(fields)),
        _ => true,
    }
}

/// Cumulative usage from a `result` message. `modelUsage` and `total_cost_usd`
/// are running totals for the session, so the latest result is the whole story
/// (they must not be summed across turns).
pub open spec fn usage_of(msg: JsonModel) -> Usage {
    match dollars_in(msg, "total_cost_usd"@) {
        Some(total) => Usage { cost_usd: total, ..counted_usage(msg) },
        None => counted_usage(msg),
    }
}

/// How a turn is summed up.
pub open spec fn summary_of(msg: JsonModel) -> Option<Seq<char>> {
    let subtype = or_empty(msg.text_field("subtype"@));
    match msg.text_field("result"@) {
        Some(t) if t.len() > 0 => Some(t),
        _ => if subtype.len() > 0 {
            Some(subtype)
        } else {
            None
        },
    }
}

/// The end of a turn.
pub open spec fn turn_end(msg: JsonModel) -> Seq<IncomingModel> {
    let usage = usage_of(msg);
    seq![
        IncomingModel::Event(AgentEventModel::Usage { usage }),
        IncomingModel::Event(
            AgentEventModel::Finished {
                success: !is_set(msg, "is_error"@) && or_empty(msg.text_field("subtype"@))
                    == "success"@,
                summary: summary_of(msg),
                usage,
            },
        ),
    ]
}

/// What the CLI asks.
pub open spec fn control_request(msg: JsonModel) -> Seq<IncomingModel> {
    let request = field_or_null(msg, "request"@);
    match msg.text_field("request_id"@) {
        None => Seq::empty(),
        Some(request_id) => if request.text_field("subtype"@) == Some("can_use_tool"@) {
            seq![
                IncomingModel::CanUseTool {
                    request_id,
                    tool: or_empty(request.text_field("tool_name"@)),
                    input: field_or_null(request, "input"@),
                },
            ]
        } else {
            seq![
                IncomingModel::UnsupportedRequest {
                    request_id,
                    subtype: match request.text_field("subtype"@) {
                        Some(t) => t,
                        None => "unknown"@,
                    },
                },
            ]
        },
    }
}

/// A rate limit, where it is not all clear.
pub open spec fn rate_limit(msg: JsonModel) -> Seq<IncomingModel> {
    let status = match msg.field("rate_limit_info"@) {
        Some(info) => match info.text_field("status"@) {
            Some(t) => t,
            None => "unknown"@,
        },
        None => "unknown"@,
    };
    if status == "allowed"@ {
        Seq::empty()
    } else {
        seq![
            IncomingModel::Event(
                AgentEventModel::Log {
                    level: LogLevel::Warn,
                    message: "rate limit status: "@ + status,
                },
            ),
        ]
    }
}

/// What a message of the stream tells. Unknown message types tell nothing, so
/// newer CLIs do not break older versions of this library.
pub open spec fn incoming(msg: JsonModel) -> Seq<IncomingModel> {
    let kind = or_empty(msg.text_field("type"@));
    if kind == "system"@ && msg.text_field("subtype"@) == Some("init"@) {
        seq![
            IncomingModel::Event(
                AgentEventModel::SessionStarted {
                    session_id: msg.text_field("session_id"@),
                    model: msg.text_field("model"@),
                },
            ),
        ]
    } else if kind == "assistant"@ {
        told(content_blocks(msg), |b: JsonModel| assistant_block(b))
    } else if kind == "user"@ {
        told(content_blocks(msg), |b: JsonModel| user_block(b))
    } else if kind == "result"@ {
        turn_end(msg)
    } else if kind == "control_request"@ {
        control_request(msg)
    } else if kind == "control_cancel_request"@ {
        match msg.text_field("request_id"@) {
            Some(request_id) => seq![IncomingModel::Cancelled { request_id }],
            None => Seq::empty(),
        }
    } else if kind == "rate_limit_event"@ {
        rate_limit(msg)
    } else {
        Seq::empty()
    }
}

/// What a line of the stream tells.
pub open spec fn incoming_line(line: Seq<char>) -> Seq<IncomingModel> {
    let text = trimmed(line);
    if text.len() == 0 {
        Seq::empty()
    } else {
        match json_in(text) {
            Some(msg) => incoming(msg),
            None => seq![
                IncomingModel::Event(
                    AgentEventModel::Log {
                        level: LogLevel::Warn,
                        message: "unparseable output: "@ + truncated(text, 500),
                    },
                ),
            ],
        }
    }
}

/// The sums in a line have room.
pub open spec fn line_fits(line: Seq<char>) -> bool {
    match json_in(trimmed(line)) {
        Some(msg) => or_empty(msg.text_field("type"@)) == "result"@ ==> usage_fits(msg),
        None => true,
    }
}

fn read_assistant(block: &Json) -> (r: Option<AgentEvent>)
    ensures
        seen(r) == assistant_block(block@),
{
    let kind = match block.text_field("type") {
        Some(kind) => kind,
        None => {
            return None;
        },
    };
    if same(kind.as_str(), "text") {
        match block.text_field("text") {
            Some(text) => Some(AgentEvent::Message { text }),
            None => None,
        }
    } else if same(kind.as_str(), "thinking") {
        match block.text_field("thinking") {
            Some(text) => if !text.as_str().is_empty() {
                Some(AgentEvent::Thinking { text })
            } else {
                None
            },
            None => None,
        }
    } else if same(kind.as_str(), "tool_use") {
        match (block.text_field("id"), block.text_field("name")) {
            (Some(call_id), Some(tool)) => Some(
                AgentEvent::ToolCall { call_id, tool, input: get_or_null(block, "input") },
            ),
            _ => None,
        }
    } else {
        None
    }
}

/// What a tool gave back, as a text.
pub fn tool_result_text(content: Option<&Json>) -> (r: String)
    ensures
        r@ == result_text(
            match content {
                Some(c) => Some(c@),
                None => None,
            },
        ),
{
    match content {
        Some(Json::Text(t)) => t.clone(),
        Some(Json::Array(parts)) => {
            let ghost all = Json::items_model(parts@);
            let mut found: Vec<String> = Vec::new();
            let mut i: usize = 0;
            assert(texts(found@) =~= part_texts(all.take(0)));
            while i < parts.len()
                invariant
                    i <= parts.len(),
                    all == Json::items_model(parts@),
                    texts(found@) == part_texts(all.take(i as int)),
                decreases parts.len() - i,
            {
                proof {
                    assert(all.take(i + 1).drop_last() =~= all.take(i as int));
                    assert(all[i as int] == parts@[i as int]@);
                }
                if let Some(t) = parts[i].text_field("text") {
                    proof {
                        texts_push(found@, t);
                    }
                    found.push(t);
                }
                i += 1;
            }
            assert(all.take(i as int) =~= all);
            join_texts(&found, "\n")
        },
        Some(other) => json_print(other),
        None => String::new(),
    }
}

fn read_user(block: &Json) -> (r: Option<AgentEvent>)
    ensures
        seen(r) == user_block(block@),
{
    match block.text_field("type") {
        Some(kind) => {
            if !same(kind.as_str(), "tool_result") {
                return None;
            }
        },
        None => {
            return None;
        },
    }
    match block.text_field("tool_use_id") {
        Some(call_id) => Some(
            AgentEvent::ToolResult {
                call_id,
                output: truncate(tool_result_text(block.get("content")).as_str(), MAX_TOOL_OUTPUT),
                is_error: flag_set(block, "is_error"),
            },
        ),
        None => None,
    }
}

fn read_blocks(msg: &Json, assistant: bool) -> (r: Vec<Incoming>)
    ensures
        views(r@) == if assistant {
            told(content_blocks(msg@), |b: JsonModel| assistant_block(b))
        } else {
            told(content_blocks(msg@), |b: JsonModel| user_block(b))
        },
{
    let ghost f: spec_fn(JsonModel) -> Option<AgentEventModel> = if assistant {
        |b: JsonModel| assistant_block(b)
    } else {
        |b: JsonModel| user_block(b)
    };
    let mut r: Vec<Incoming> = Vec::new();
    assert(views(r@) =~= Seq::<IncomingModel>::empty());
    let message = match msg.get("message") {
        Some(m) => m,
        None => {
            return r;
        },
    };
    let items = match message.get("content") {
        Some(Json::Array(items)) => items,
        _ => {
            return r;
        },
    };
    let ghost all = Json::items_model(items@);
    let mut i: usize = 0;
    assert(views(r@) =~= told(all.take(0), f));
    while i < items.len()
        invariant
            i <= items.len(),
            all == Json::items_model(items@),
            f == if assistant {
                |b: JsonModel| assistant_block(b)
            } else {
                |b: JsonModel| user_block(b)
            },
            views(r@) == told(all.take(i as int), f),
        decreases items.len() - i,
    {
        proof {
            assert(all.take(i + 1).drop_last() =~= all.take(i as int));
            assert(all[i as int] == items@[i as int]@);
        }
        let event = if assistant {
            read_assistant(&items[i])
        } else {
            read_user(&items[i])
        };
        if let Some(event) = event {
            let item = Incoming::Event(event);
            proof {
                views_push(r@, item);
            }
            r.push(item);
        }
        i += 1;
    }
    assert(all.take(i as int) =~= all);
    r
}

fn read_tokens(v: &Json, key: &str) -> (n: u64)
    ensures
        n == tokens_in(v@, key@),
{
    match v.get(key) {
        Some(x) => match x.as_u64() {
            Some(n) => n,
            None => 0,
        },
        None => 0,
    }
}

fn read_dollars(v: &Json, key: &str) -> (r: Option<Usd>)
    ensures
        r == dollars_in(v@, key@),
{
    match v.get(key) {
        Some(Json::Number(n)) => Usd::read(n.as_str()),
        _ => None,
    }
}

fn read_model(m: &Json) -> (r: Usage)
    ensures
        r == model_usage(m@),
{
    Usage {
        input_tokens: read_tokens(m, "inputTokens"),
        output_tokens: read_tokens(m, "outputTokens"),
        cache_read_tokens: read_tokens(m, "cacheReadInputTokens"),
        cache_write_tokens: read_tokens(m, "cacheCreationInputTokens"),
        cost_usd: match read_dollars(m, "costUSD") {
            Some(u) => u,
            None => Usd { nanos: 0 },
        },
    }
}

/// The usage in a `result` message, unless a sum over the models runs out of
/// room.
pub fn checked_usage(msg: &Json) -> (r: Option<Usage>)
    ensures
        match r {
            Some(u) => usage_fits(msg@) && u == usage_of(msg@),
            None => !usage_fits(msg@),
        },
{
    let mut usage = Usage::default();
    match msg.get("modelUsage") {
        Some(Json::Object(fields)) => {
            let ghost all = Json::fields_model(fields@);
            let mut each: Vec<Usage> = Vec::new();
            let mut i: usize = 0;
            while i < fields.len()
                invariant
                    i <= fields.len(),
                    all == Json::fields_model(fields@),
                    each@ == model_usages(all).take(i as int),
                decreases fields.len() - i,
            {
                assert(all[i as int].1 == fields@[i as int].1@);
                each.push(read_model(&fields[i].1));
                assert(each@ =~= model_usages(all).take(i + 1));
                i += 1;
            }
            assert(each@ =~= model_usages(all));
            usage = match Usage::checked_sum(&each) {
                Some(u) => u,
                None => {
                    return None;
                },
            };
        },
        _ => {
            if let Some(u) = msg.get("usage") {
                usage.input_tokens = read_tokens(u, "input_tokens");
                usage.output_tokens = read_tokens(u, "output_tokens");
                usage.cache_read_tokens = read_tokens(u, "cache_read_input_tokens");
                usage.cache_write_tokens = read_tokens(u, "cache_creation_input_tokens");
            }
        },
    }
    if let Some(total) = read_dollars(msg, "total_cost_usd") {
        usage.cost_usd = total;
    }
    Some(usage)
}

/// The usage in a `result` message.
pub fn result_usage(msg: &Json) -> (r: Usage)
    requires
        usage_fits(msg@),
    ensures
        r == usage_of(msg@),
{
    match checked_usage(msg) {
        Some(u) => u,
        None => Usage::default(),
    }
}

fn one(item: Incoming) -> (r: Vec<Incoming>)
    ensures
        views(r@) == seq![item@],
{
    let mut r: Vec<Incoming> = Vec::new();
    r.push(item);
    assert(views(r@) =~= seq![item@]);
    r
}

fn none() -> (r: Vec<Incoming>)
    ensures
        views(r@) == Seq::<IncomingModel>::empty(),
{
    let r: Vec<Incoming> = Vec::new();
    assert(views(r@) =~= Seq::<IncomingModel>::empty());
    r
}

fn read_turn_end(msg: &Json) -> (r: Vec<Incoming>)
    requires
        usage_fits(msg@),
    ensures
        views(r@) == turn_end(msg@),
{
    let usage = result_usage(msg);
    let is_error = flag_set(msg, "is_error");
    let subtype = match msg.text_field("subtype") {
        Some(t) => t,
        None => String::new(),
    };
    let success = !is_error && same(subtype.as_str(), "success");
    let fallback = if !subtype.as_str().is_empty() {
        Some(subtype)
    } else {
        None
    };
    let summary = match msg.text_field("result") {
        Some(t) => if !t.as_str().is_empty() {
            Some(t)
        } else {
            fallback
        },
        None => fallback,
    };
    let mut r: Vec<Incoming> = Vec::new();
    r.push(Incoming::Event(AgentEvent::Usage { usage }));
    r.push(Incoming::Event(AgentEvent::Finished { success, summary, usage }));
    assert(views(r@) =~= turn_end(msg@));
    r
}

fn read_control(msg: &Json) -> (r: Vec<Incoming>)
    ensures
        views(r@) == control_request(msg@),
{
    let request_id = match msg.text_field("request_id") {
        Some(id) => id,
        None => {
            return none();
        },
    };
    let request = get_or_null(msg, "request");
    match request.text_field("subtype") {
        Some(subtype) => if same(subtype.as_str(), "can_use_tool") {
            let tool = match request.text_field("tool_name") {
                Some(t) => t,
                None => String::new(),
            };
            one(Incoming::CanUseTool { request_id, tool, input: get_or_null(&request, "input") })
        } else {
            one(Incoming::UnsupportedRequest { request_id, subtype })
        },
        None => one(
            Incoming::UnsupportedRequest { request_id, subtype: "unknown".to_owned() },
        ),
    }
}

fn read_rate_limit(msg: &Json) -> (r: Vec<Incoming>)
    ensures
        views(r@) == rate_limit(msg@),
{
    let status = match msg.get("rate_limit_info") {
        Some(info) => match info.text_field("status") {
            Some(t) => t,
            None => "unknown".to_owned(),
        },
        None => "unknown".to_owned(),
    };
    if same(status.as_str(), "allowed") {
        none()
    } else {
        let mut message = "rate limit status: ".to_owned();
        message.append(status.as_str());
        one(Incoming::Event(AgentEvent::Log { level: LogLevel::Warn, message }))
    }
}

/// Decodes one message of the stream.
pub fn incoming_of(msg: &Json) -> (r: Vec<Incoming>)
    requires
        or_empty(msg@.text_field("type"@)) == "result"@ ==> usage_fits(msg@),
    ensures
        views(r@) == incoming(msg@),
{
    let kind = match msg.text_field("type") {
        Some(t) => t,
        None => String::new(),
    };
    let kind = kind.as_str();
    proof {
        reveal_strlit("system");
        reveal_strlit("assistant");
        reveal_strlit("user");
        reveal_strlit("result");
        reveal_strlit("control_request");
        reveal_strlit("control_cancel_request");
        reveal_strlit("rate_limit_event");
        assert("system"@[0] != "result"@[0]);
    }
    if same(kind, "system") {
        let init = match msg.text_field("subtype") {
            Some(t) => same(t.as_str(), "init"),
            None => false,
        };
        if init {
            one(
                Incoming::Event(
                    AgentEvent::SessionStarted {
                        session_id: msg.text_field("session_id"),
                        model: msg.text_field("model"),
                    },
                ),
            )
        } else {
            none()
        }
    } else if same(kind, "assistant") {
        read_blocks(msg, true)
    } else if same(kind, "user") {
        read_blocks(msg, false)
    } else if same(kind, "result") {
        read_turn_end(msg)
    } else if same(kind, "control_request") {
        read_control(msg)
    } else if same(kind, "control_cancel_request") {
        match msg.text_field("request_id") {
            Some(request_id) => one(Incoming::Cancelled { request_id }),
            None => none(),
        }
    } else if same(kind, "rate_limit_event") {
        read_rate_limit(msg)
    } else {
        none()
    }
}

/// Decodes one line of the agent's stream-json output, unless a sum of usage
/// in it runs out of room. Unknown message types are skipped.
pub fn try_parse_line(line: &str) -> (r: Option<Vec<Incoming>>)
    ensures
        match r {
            Some(v) => line_fits(line@) && views(v@) == incoming_line(line@),
            None => !line_fits(line@),
        },
{
    proof {
        reveal_strlit("result");
    }
    let text = trim(line);
    match json_parse(text.as_str()) {
        Some(msg) => {
            let counts = match msg.text_field("type") {
                Some(t) => same(t.as_str(), "result"),
                None => false,
            };
            assert(Seq::<char>::empty().len() != "result"@.len());
            if counts {
                match checked_usage(&msg) {
                    Some(_) => {},
                    None => {
                        return None;
                    },
                }
            }
        },
        None => {},
    }
    Some(parse_line(line))
}

/// Decodes one line of the agent's stream-json output. Unknown message types
/// are skipped so newer CLIs do not break older versions of this library.
pub fn parse_line(line: &str) -> (r: Vec<Incoming>)
    requires
        line_fits(line@),
    ensures
        views(r@) == incoming_line(line@),
{
    let text = trim(line);
    if text.as_str().is_empty() {
        return none();
    }
    match json_parse(text.as_str()) {
        Some(msg) => incoming_of(&msg),
        None => {
            let mut message = "unparseable output: ".to_owned();
            message.append(truncate(text.as_str(), 500).as_str());
            one(Incoming::Event(AgentEvent::Log { level: LogLevel::Warn, message }))
        },
    }
}

proof fn sums_keep(a: Seq<Seq<char>>, b: Seq<Seq<char>>, x: Seq<char>)
    ensures
        a.contains(x) || b.contains(x) ==> (a + b).contains(x),
{
    if a.contains(x) {
        assert((a + b)[a.index_of(x)] == x);
    } else if b.contains(x) {
        assert((a + b)[a.len() + b.index_of(x)] == x);
    }
}

/// A part of nine is a part of them all.
proof fn nine_keep(p: Seq<Seq<Seq<char>>>, i: int, x: Seq<char>)
    requires
        p.len() == 9,
        0 <= i < 9,
        p[i].contains(x),
    ensures
        (p[0] + p[1] + p[2] + p[3] + p[4] + p[5] + p[6] + p[7] + p[8]).contains(x),
{
    sums_keep(p[0], p[1], x);
    let a = p[0] + p[1];
    sums_keep(a, p[2], x);
    let b = a + p[2];
    sums_keep(b, p[3], x);
    let c = b + p[3];
    sums_keep(c, p[4], x);
    let d = c + p[4];
    sums_keep(d, p[5], x);
    let e = d + p[5];
    sums_keep(e, p[6], x);
    let f = e + p[6];
    sums_keep(f, p[7], x);
    let g = f + p[7];
    sums_keep(g, p[8], x);
}

proof fn flags_hold(name: Seq<char>, value: Seq<char>)
    ensures
        flag(name, Some(value)).contains(name + value),
{
    assert(flag(name, Some(value))[0] == name + value);
}

spec fn arg_parts(request: &StartRequest) -> Seq<Seq<Seq<char>>> {
    seq![
        fixed_args(),
        flag("--permission-mode="@, Some(mode_name(request.permission_mode))),
        flag("--model="@, seen(request.model)),
        flag("--append-system-prompt="@, seen(request.append_system_prompt)),
        session_flag(request),
        flag("--allowedTools="@, tools(texts(request.allowed_tools@))),
        flag("--disallowedTools="@, tools(texts(request.disallowed_tools@))),
        flag(
            "--max-turns="@,
            match request.max_turns {
                Some(n) => Some(decimal(n as int)),
                None => None,
            },
        ),
        flag(
            "--max-budget-usd="@,
            match request.max_budget_usd {
                Some(u) => Some(u.plain()),
                None => None,
            },
        ),
    ]
}

/// What a session is asked for is passed on: the model, the system prompt, the session,
/// the tools that are allowed and those that are not, the turns and the budget, each with
/// its value where there is one, and always a permission mode.
pub proof fn options_are_passed_on(request: &StartRequest)
    ensures
        ({
            let args = session_args(request);
            &&& args.contains(
                "--permission-mode="@ + match request.permission_mode {
                    PermissionMode::Ask => "default"@,
                    PermissionMode::AcceptEdits => "acceptEdits"@,
                    PermissionMode::Plan => "plan"@,
                },
            )
            &&& request.model matches Some(m) ==> args.contains("--model="@ + m@)
            &&& request.append_system_prompt matches Some(t) ==> args.contains(
                "--append-system-prompt="@ + t@,
            )
            &&& request.resume is None ==> (request.session_id matches Some(id) ==> args.contains(
                "--session-id="@ + id@,
            ))
            &&& request.allowed_tools@.len() > 0 ==> args.contains(
                "--allowedTools="@ + join(texts(request.allowed_tools@), ","@),
            )
            &&& request.disallowed_tools@.len() > 0 ==> args.contains(
                "--disallowedTools="@ + join(texts(request.disallowed_tools@), ","@),
            )
            &&& request.max_turns matches Some(n) ==> args.contains(
                "--max-turns="@ + decimal(n as int),
            )
            &&& request.max_budget_usd matches Some(u) ==> args.contains(
                "--max-budget-usd="@ + u.plain(),
            )
        }),
{
    let p = arg_parts(request);
    let args = session_args(request);
    assert(args == p[0] + p[1] + p[2] + p[3] + p[4] + p[5] + p[6] + p[7] + p[8]);
    assert(texts(request.allowed_tools@).len() == request.allowed_tools@.len());
    assert(texts(request.disallowed_tools@).len() == request.disallowed_tools@.len());
    let mode = mode_name(request.permission_mode);
    flags_hold("--permission-mode="@, mode);
    nine_keep(p, 1, "--permission-mode="@ + mode);
    if let Some(m) = request.model {
        flags_hold("--model="@, m@);
        nine_keep(p, 2, "--model="@ + m@);
    }
    if let Some(t) = request.append_system_prompt {
        flags_hold("--append-system-prompt="@, t@);
        nine_keep(p, 3, "--append-system-prompt="@ + t@);
    }
    if request.resume is None {
        if let Some(id) = request.session_id {
            flags_hold("--session-id="@, id@);
            nine_keep(p, 4, "--session-id="@ + id@);
        }
    }
    if request.allowed_tools@.len() > 0 {
        let list = join(texts(request.allowed_tools@), ","@);
        flags_hold("--allowedTools="@, list);
        nine_keep(p, 5, "--allowedTools="@ + list);
    }
    if request.disallowed_tools@.len() > 0 {
        let list = join(texts(request.disallowed_tools@), ","@);
        flags_hold("--disallowedTools="@, list);
        nine_keep(p, 6, "--disallowedTools="@ + list);
    }
    if let Some(n) = request.max_turns {
        flags_hold("--max-turns="@, decimal(n as int));
        nine_keep(p, 7, "--max-turns="@ + decimal(n as int));
    }
    if let Some(u) = request.max_budget_usd {
        flags_hold("--max-budget-usd="@, u.plain());
        nine_keep(p, 8, "--max-budget-usd="@ + u.plain());
    }
}

/// A session speaks JSON both ways, and asks for permissions over the same pipes.
pub proof fn sessions_speak_json(request: &StartRequest)
    ensures
        session_args(request).len() >= 7,
        session_args(request).take(7) == seq![
            "--output-format"@,
            "stream-json"@,
            "--verbose"@,
            "--input-format"@,
            "stream-json"@,
            "--permission-prompt-tool"@,
            "stdio"@,
        ],
{
    values_stay_with_their_flags(request);
}

proof fn kinds_differ()
    ensures
        "system"@ != "result"@,
        "assistant"@ != "result"@,
        "user"@ != "result"@,
        "system"@ != "control_request"@,
        "assistant"@ != "control_request"@,
        "user"@ != "control_request"@,
        "result"@ != "control_request"@,
        "system"@ != "assistant"@,
        "system"@ != "user"@,
        "assistant"@ != "user"@,
        "system"@ != "control_cancel_request"@,
        "assistant"@ != "control_cancel_request"@,
        "user"@ != "control_cancel_request"@,
        "result"@ != "control_cancel_request"@,
        "control_request"@ != "control_cancel_request"@,
        "text"@ != "tool_use"@,
        "thinking"@ != "tool_use"@,
        "text"@ != "thinking"@,
{
    reveal_strlit("system");
    reveal_strlit("assistant");
    reveal_strlit("user");
    reveal_strlit("result");
    reveal_strlit("control_request");
    reveal_strlit("control_cancel_request");
    reveal_strlit("text");
    reveal_strlit("thinking");
    reveal_strlit("tool_use");
    assert("system"@.len() == 6 && "assistant"@.len() == 9 && "user"@.len() == 4);
    assert("control_request"@.len() == 15 && "control_cancel_request"@.len() == 22);
    assert("system"@[0] == 's' && "result"@[0] == 'r' && "result"@.len() == 6);
    assert("text"@.len() == 4 && "thinking"@.len() == 8 && "tool_use"@.len() == 8);
    assert("thinking"@[1] == 'h' && "tool_use"@[1] == 'o');
}

/// The end of a turn: it succeeded only where it says so and no error is set; its cost is
/// the total that it gives, where it gives one; what it used is told once on its own and
/// once with the end.
pub proof fn turns_end_as_they_say(msg: JsonModel)
    requires
        msg.text_field("type"@) == Some("result"@),
    ensures
        ({
            let all = incoming(msg);
            let failed = msg.field("is_error"@) == Some(JsonModel::Bool(true));
            &&& all.len() == 2
            &&& all[0] matches IncomingModel::Event(AgentEventModel::Usage { usage })
            &&& all[1] matches IncomingModel::Event(
                AgentEventModel::Finished { success, summary, usage: total },
            ) && total == usage && {
                &&& success <==> !failed && msg.text_field("subtype"@) == Some("success"@)
                &&& (msg.text_field("result"@) matches Some(t) && t.len() > 0) ==> summary
                    == msg.text_field("result"@)
            }
            &&& dollars_in(msg, "total_cost_usd"@) matches Some(cost) ==> usage.cost_usd == cost
        }),
{
    kinds_differ();
    reveal_strlit("success");
    assert("success"@.len() == 7);
}

/// What a turn used is the sum over its models, where it lists them: of each what went
/// in, what came out, and what was read from the cache and written to it.
pub proof fn usage_is_counted_by_model(msg: JsonModel, fields: Seq<(Seq<char>, JsonModel)>, i: int)
    requires
        msg.field("modelUsage"@) == Some(JsonModel::Object(fields)),
        0 <= i < fields.len(),
    ensures
        counted_usage(msg) == Usage::sum_of(model_usages(fields)),
        model_usages(fields).len() == fields.len(),
        ({
            let u = model_usages(fields)[i];
            let m = fields[i].1;
            &&& m.field("inputTokens"@) matches Some(n) ==> (n.whole() matches Some(k)
                ==> u.input_tokens == k)
            &&& m.field("outputTokens"@) matches Some(n) ==> (n.whole() matches Some(k)
                ==> u.output_tokens == k)
            &&& m.field("cacheReadInputTokens"@) matches Some(n) ==> (n.whole() matches Some(k)
                ==> u.cache_read_tokens == k)
            &&& m.field("cacheCreationInputTokens"@) matches Some(n) ==> (n.whole() matches Some(k)
                ==> u.cache_write_tokens == k)
            &&& dollars_in(m, "costUSD"@) matches Some(cost) ==> u.cost_usd == cost
            &&& m.field("inputTokens"@) is None ==> u.input_tokens == 0
        }),
{
    let m = fields[i].1;
    whole_numbers_fit(m, "inputTokens"@);
    whole_numbers_fit(m, "outputTokens"@);
    whole_numbers_fit(m, "cacheReadInputTokens"@);
    whole_numbers_fit(m, "cacheCreationInputTokens"@);
}

proof fn whole_numbers_fit(m: JsonModel, key: Seq<char>)
    ensures
        m.field(key) matches Some(n) ==> (n.whole() matches Some(k) ==> tokens_in(m, key) == k),
{
    if let Some(JsonModel::Number(t)) = m.field(key) {
        if crate::text::all_digits(t) {
            crate::text::digits_number_grows(t, 0);
        }
    }
}

/// A request to use a tool is passed on with the tool and its input; any other request is
/// told apart, so that it can be refused; one without an id is nothing.
pub proof fn requests_are_told_apart(msg: JsonModel, request: JsonModel)
    requires
        msg.text_field("type"@) == Some("control_request"@),
        msg.field("request"@) == Some(request),
    ensures
        msg.text_field("request_id"@) matches Some(id) ==> {
            &&& request.text_field("subtype"@) == Some("can_use_tool"@) ==> incoming(msg).len() == 1
                && (incoming(msg)[0] matches IncomingModel::CanUseTool { request_id, tool, input }
                && request_id == id && (request.text_field("tool_name"@) matches Some(name) ==> tool
                == name) && (request.field("input"@) matches Some(value) ==> input == value))
            &&& request.text_field("subtype"@) != Some("can_use_tool"@) ==> incoming(msg).len() == 1
                && (incoming(msg)[0] matches IncomingModel::UnsupportedRequest { request_id, .. }
                && request_id == id)
        },
        msg.text_field("request_id"@) is None ==> incoming(msg).len() == 0,
{
    kinds_differ();
}

/// A request that is taken back is told as such.
pub proof fn requests_can_be_taken_back(msg: JsonModel, id: Seq<char>)
    requires
        msg.text_field("type"@) == Some("control_cancel_request"@),
        msg.text_field("request_id"@) == Some(id),
    ensures
        incoming(msg) == seq![IncomingModel::Cancelled { request_id: id }],
{
    kinds_differ();
}

/// What an agent says and does is passed on: its messages, its calls of tools with their
/// inputs, and what came of them.
pub proof fn blocks_are_read(block: JsonModel)
    ensures
        block.text_field("type"@) == Some("text"@) ==> (block.text_field("text"@) matches Some(t)
            ==> assistant_block(block) == Some(AgentEventModel::Message { text: t })),
        block.text_field("type"@) == Some("tool_use"@) ==> (block.text_field("id"@) matches Some(id)
            ==> (block.text_field("name"@) matches Some(name) ==> (assistant_block(block) matches
            Some(AgentEventModel::ToolCall { call_id, tool, input }) && call_id == id && tool == name
            && (block.field("input"@) matches Some(value) ==> input == value)))),
        block.text_field("type"@) == Some("tool_result"@) ==> (block.text_field("tool_use_id"@)
            matches Some(id) ==> (user_block(block) matches Some(
            AgentEventModel::ToolResult { call_id, is_error, .. },
        ) && call_id == id && (is_error <==> block.field("is_error"@) == Some(
            JsonModel::Bool(true),
        )))),
{
    kinds_differ();
}

/// Blocks are told in order, each that says anything: another block at the end is told
/// after the others.
pub proof fn blocks_are_told_in_order(
    blocks: Seq<JsonModel>,
    last: JsonModel,
    f: spec_fn(JsonModel) -> Option<AgentEventModel>,
)
    ensures
        told(blocks.push(last), f) == match f(last) {
            Some(event) => told(blocks, f).push(IncomingModel::Event(event)),
            None => told(blocks, f),
        },
        told(Seq::empty(), f).len() == 0,
{
    assert(blocks.push(last).drop_last() =~= blocks);
}

/// A session starts with its id and its model.
pub proof fn sessions_name_themselves(msg: JsonModel)
    requires
        msg.text_field("type"@) == Some("system"@),
        msg.text_field("subtype"@) == Some("init"@),
    ensures
        incoming(msg) == seq![
            IncomingModel::Event(
                AgentEventModel::SessionStarted {
                    session_id: msg.text_field("session_id"@),
                    model: msg.text_field("model"@),
                },
            ),
        ],
{
}

/// Short texts are kept whole.
pub proof fn short_texts_are_kept(s: Seq<char>, max: int)
    requires
        byte_len(s) <= max,
    ensures
        truncated(s, max) == s,
{
}

/// A blank line says nothing; a line that is no JSON is not lost, but passed on as a
/// warning; any other says what its message says.
pub proof fn lines_are_read(line: Seq<char>)
    ensures
        trimmed(line).len() == 0 ==> incoming_line(line).len() == 0,
        trimmed(line).len() > 0 && json_in(trimmed(line)) is None ==> incoming_line(line).len() == 1
            && (incoming_line(line)[0] matches IncomingModel::Event(
            AgentEventModel::Log { level, .. },
        ) && level == LogLevel::Warn),
        trimmed(line).len() > 0 ==> (json_in(trimmed(line)) matches Some(msg) ==> incoming_line(line)
            == incoming(msg)),
{
}

/// That a limit lets a session go on is nothing to tell; anything else is told as a
/// warning.
#[verifier::rlimit(60)]
pub proof fn limits_are_told(msg: JsonModel, info: JsonModel, status: Seq<char>)
    requires
        msg.text_field("type"@) == Some("rate_limit_event"@),
        msg.field("rate_limit_info"@) == Some(info),
        info.text_field("status"@) == Some(status),
    ensures
        status == "allowed"@ ==> incoming(msg).len() == 0,
        status != "allowed"@ ==> incoming(msg).len() == 1 && (incoming(msg)[0] matches
            IncomingModel::Event(AgentEventModel::Log { level, message }) && level
            == LogLevel::Warn && crate::text::finishes(message, status)),
{
    reveal_strlit("rate_limit_event");
    reveal_strlit("system");
    reveal_strlit("assistant");
    reveal_strlit("user");
    reveal_strlit("result");
    reveal_strlit("control_request");
    reveal_strlit("control_cancel_request");
    assert("rate_limit_event"@.len() == 16);
    assert("system"@.len() == 6);
    assert("assistant"@.len() == 9);
    assert("user"@.len() == 4);
    assert("result"@.len() == 6);
    assert("control_request"@.len() == 15);
    assert("control_cancel_request"@.len() == 22);
    let line = "rate limit status: "@ + status;
    assert(line.skip(line.len() - status.len()) =~= status);
}

/// What a tool gave back is told whole: a text as it is, and of a list the text of every
/// part that has one, in order.
pub proof fn results_are_told(t: Seq<char>, parts: Seq<JsonModel>, last: JsonModel)
    ensures
        result_text(Some(JsonModel::Text(t))) == t,
        result_text(None).len() == 0,
        last.text_field("text"@) == Some(t) ==> part_texts(parts.push(last)) == part_texts(
            parts,
        ).push(t),
        last.text_field("text"@) is None ==> part_texts(parts.push(last)) == part_texts(parts),
        result_text(Some(JsonModel::Array(parts))) == crate::text::join(part_texts(parts), "\n"@),
{
    assert(parts.push(last).drop_last() =~= parts);
}

/// Of a text that is too long its start is kept, as much as there is room for, and the
/// note behind it counts the bytes that are left out.
pub proof fn long_texts_keep_their_start(s: Seq<char>, max: int)
    requires
        0 <= max < byte_len(s),
    ensures
        exists|k: int|
            0 <= k < s.len() && max - 4 < byte_len(#[trigger] s.take(k)) <= max && begins(
                truncated(s, max),
                s.take(k),
            ) && crate::text::holds(truncated(s, max), decimal(byte_len(s) - byte_len(s.take(k)))),
{
    let k = start_within(s, max);
    crate::text::cuts_waste_little(s, max);
    assert(s =~= s.take(k) + s.skip(k));
    byte_len_adds(s.take(k), s.skip(k));
    let n = decimal(byte_len(s.skip(k)));
    let front = s.take(k) + "… ["@;
    let all = truncated(s, max);
    crate::prompts::held_in_the_middle(front, n, " more bytes]"@);
    assert(all.take(k) =~= s.take(k));
    assert(s.take(k).len() == k);
}

} // verus!
