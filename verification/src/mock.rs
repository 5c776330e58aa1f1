//! A scripted agent for tests and demos.
//!
//! It behaves like a real runtime (a session, turns, events, permission prompts,
//! follow-up input), but its "work" is a list of files to write. This lets the
//! engine, the store and the UI be exercised end to end without any model or CLI
//! installed.

use vstd::prelude::*;

use crate::agent::{
    AgentCapabilities, PermissionDecision, PermissionDecisionModel, ProbeReport,
};
use crate::budget::Usage;
use crate::events::{AgentEvent, AgentEventModel};
use crate::json::{Json, JsonModel};
use crate::money::Usd;
use crate::text::{byte_len, decimal, seen, u64_text, usize_text, views, Duplicate};

verus! {

/// The name of the runtime.
pub const MOCK: &'static str = "mock";

/// What the mock agent is asked to do on one turn.
#[derive(Debug, PartialEq)]
pub struct MockCall {
    /// 1-based turn number within the session.
    pub turn: u32,
    /// The prompt (first turn) or follow-up input (later turns).
    pub input: String,
    pub workdir: String,
    pub session_id: String,
    /// The spend cap of the session.
    pub max_budget_usd: Option<Usd>,
}

/// What the mock agent does on one turn.
#[derive(Debug, PartialEq)]
pub struct MockTurn {
    /// Files to write, relative to the workspace.
    pub writes: Vec<(String, String)>,
    /// Final assistant message for the turn.
    pub message: String,
    /// Whether the turn ends successfully.
    pub success: bool,
    /// Ask permission for this tool (with this input) before writing.
    pub ask_permission: Option<(String, Json)>,
    /// Simulated work time.
    pub delay_ms: u64,
    /// Usage added by this turn.
    pub usage: Usage,
}

/// What a turn that writes files costs.
pub open spec fn turn_usage() -> Usage {
    Usage {
        input_tokens: 1000,
        output_tokens: 200,
        cache_read_tokens: 0,
        cache_write_tokens: 0,
        cost_usd: Usd { nanos: 10_000_000 },
    }
}

impl Default for MockTurn {
    fn default() -> (r: MockTurn)
        ensures
            r.writes@.len() == 0,
            r.message@.len() == 0,
            !r.success,
            r.ask_permission is None,
            r.delay_ms == 0,
            r.usage == crate::budget::no_usage(),
    {
        MockTurn {
            writes: Vec::new(),
            message: String::new(),
            success: false,
            ask_permission: None,
            delay_ms: 0,
            usage: Usage::default(),
        }
    }
}

impl MockTurn {
    /// A successful turn that writes these files.
    pub fn writes(files: Vec<(String, String)>) -> (r: MockTurn)
        ensures
            r.writes == files,
            r.message@ == "Done."@,
            r.success,
            r.ask_permission is None,
            r.delay_ms == 0,
            r.usage == turn_usage(),
    {
        MockTurn {
            writes: files,
            message: "Done.".to_owned(),
            success: true,
            ask_permission: None,
            delay_ms: 0,
            usage: Usage {
                input_tokens: 1000,
                output_tokens: 200,
                cache_read_tokens: 0,
                cache_write_tokens: 0,
                cost_usd: Usd { nanos: 10_000_000 },
            },
        }
    }

    /// A turn of the demo agent: it records the prompt it received in
    /// `.bodega-demo/<session>-turn<n>.md` and succeeds.
    pub fn demo(call: &MockCall) -> (r: MockTurn)
        ensures
            r.writes@.len() == 1,
            r.writes@[0].0@ == ".bodega-demo/"@ + call.session_id@ + "-turn"@ + decimal(
                call.turn as int,
            ) + ".md"@,
            r.writes@[0].1@ == "# Mock agent notes\n\n"@ + call.input@ + "\n"@,
            r.message@ == "Recorded the request (turn "@ + decimal(call.turn as int) + ")."@,
            r.success,
            r.ask_permission is None,
            r.delay_ms == 300,
            r.usage == turn_usage(),
    {
        let mut path = ".bodega-demo/".to_owned();
        path.append(call.session_id.as_str());
        path.append("-turn");
        path.append(u64_text(call.turn as u64).as_str());
        path.append(".md");
        let mut notes = "# Mock agent notes\n\n".to_owned();
        notes.append(call.input.as_str());
        notes.append("\n");
        let mut files: Vec<(String, String)> = Vec::new();
        files.push((path, notes));
        let mut turn = MockTurn::writes(files);
        turn.delay_ms = 300;
        let mut message = "Recorded the request (turn ".to_owned();
        message.append(u64_text(call.turn as u64).as_str());
        message.append(").");
        turn.message = message;
        turn
    }
}

/// What the mock agent supports.
pub fn mock_capabilities() -> (r: AgentCapabilities)
    ensures
        r == (AgentCapabilities {
            multi_turn: true,
            resume: false,
            interrupt: false,
            permission_prompts: true,
            reports_cost: true,
        }),
{
    AgentCapabilities {
        multi_turn: true,
        resume: false,
        interrupt: false,
        permission_prompts: true,
        reports_cost: true,
    }
}

/// The mock agent is always there.
pub fn mock_probe(version: &str) -> (r: ProbeReport)
    ensures
        r@.runtime == "mock"@,
        r@.available,
        r@.version == Some(version@),
        r@.detail is None,
{
    ProbeReport {
        runtime: "mock".to_owned(),
        available: true,
        version: Some(version.to_owned()),
        detail: None,
    }
}

/// The first event of a session.
pub fn session_started(session_id: &str, model: Option<&str>) -> (r: AgentEvent)
    ensures
        r@ == (AgentEventModel::SessionStarted {
            session_id: Some(session_id@),
            model: Some(
                match model {
                    Some(m) => m@,
                    None => "mock"@,
                },
            ),
        }),
{
    let name: String = match model {
        Some(m) => m.to_owned(),
        None => "mock".to_owned(),
    };
    AgentEvent::SessionStarted { session_id: Some(session_id.to_owned()), model: Some(name) }
}

/// The request for permission that a turn makes before it writes.
pub fn permission_request(call: &MockCall, tool: &str, input: &Json) -> (r: AgentEvent)
    ensures
        r@ == (AgentEventModel::PermissionRequested {
            request_id: "perm-"@ + call.session_id@ + "-"@ + decimal(call.turn as int),
            tool: tool@,
            input: input@,
        }),
{
    let mut request_id = "perm-".to_owned();
    request_id.append(call.session_id.as_str());
    request_id.append("-");
    request_id.append(u64_text(call.turn as u64).as_str());
    AgentEvent::PermissionRequested {
        request_id,
        tool: tool.to_owned(),
        input: input.duplicate(),
    }
}

/// How a turn ends whose request was denied: it fails and writes nothing.
pub fn denied_turn(message: &str, total: Usage) -> (r: Vec<AgentEvent>)
    ensures
        views(r@) == seq![
            AgentEventModel::Message { text: "Permission denied: "@ + message@ },
            AgentEventModel::Finished {
                success: false,
                summary: Some("permission denied"@),
                usage: total,
            },
        ],
{
    let mut text = "Permission denied: ".to_owned();
    text.append(message);
    let ghost goal = seq![
        AgentEventModel::Message { text: text@ },
        AgentEventModel::Finished {
            success: false,
            summary: Some("permission denied"@),
            usage: total,
        },
    ];
    let mut r: Vec<AgentEvent> = Vec::new();
    r.push(AgentEvent::Message { text });
    r.push(
        AgentEvent::Finished {
            success: false,
            summary: Some("permission denied".to_owned()),
            usage: total,
        },
    );
    assert(views(r@) =~= goal);
    r
}

/// The name of the `index`th write of a turn.
pub open spec fn call_name(turn: u32, index: int) -> Seq<char> {
    "call-"@ + decimal(turn as int) + "-"@ + decimal(index)
}

fn call_id(turn: u32, index: usize) -> (r: String)
    ensures
        r@ == call_name(turn, index as int),
{
    let mut r = "call-".to_owned();
    r.append(u64_text(turn as u64).as_str());
    r.append("-");
    r.append(usize_text(index).as_str());
    r
}

/// The call that writes a file of `bytes` bytes.
pub fn write_call(turn: u32, index: usize, path: &str, bytes: usize) -> (r: AgentEvent)
    ensures
        r@ == (AgentEventModel::ToolCall {
            call_id: call_name(turn, index as int),
            tool: "write_file"@,
            input: JsonModel::Object(
                seq![
                    ("bytes"@, JsonModel::Number(decimal(bytes as int))),
                    ("path"@, JsonModel::Text(path@)),
                ],
            ),
        }),
{
    let mut fields: Vec<(String, Json)> = Vec::new();
    fields.push(("bytes".to_owned(), Json::Number(usize_text(bytes))));
    fields.push(("path".to_owned(), Json::Text(path.to_owned())));
    let input = Json::Object(fields);
    proof {
        let goal = seq![
            ("bytes"@, JsonModel::Number(decimal(bytes as int))),
            ("path"@, JsonModel::Text(path@)),
        ];
        assert(Json::fields_model(fields@) =~= goal) by {
            reveal_with_fuel(Json::model, 2);
            assert(fields@[0].1@ == goal[0].1);
            assert(fields@[1].1@ == goal[1].1);
        }
    }
    AgentEvent::ToolCall {
        call_id: call_id(turn, index),
        tool: "write_file".to_owned(),
        input,
    }
}

/// The result of a write, or why it failed.
pub fn write_result(turn: u32, index: usize, path: &str, error: Option<&str>) -> (r: AgentEvent)
    ensures
        r@ == (AgentEventModel::ToolResult {
            call_id: call_name(turn, index as int),
            output: match error {
                None => "wrote "@ + path@,
                Some(e) => "failed to write "@ + path@ + ": "@ + e@,
            },
            is_error: error is Some,
        }),
{
    let output = match error {
        None => {
            let mut text = "wrote ".to_owned();
            text.append(path);
            text
        },
        Some(e) => {
            let mut text = "failed to write ".to_owned();
            text.append(path);
            text.append(": ");
            text.append(e);
            text
        },
    };
    AgentEvent::ToolResult { call_id: call_id(turn, index), output, is_error: error.is_some() }
}

/// How a turn ends: its usage is added to the session's total, and its message is
/// told and summed up.
pub fn finished_turn(turn: &MockTurn, total: Usage) -> (r: (Vec<AgentEvent>, Usage))
    requires
        total.fits_with(turn.usage),
    ensures
        r.1 == total.with(turn.usage),
        views(r.0@) == seq![
            AgentEventModel::Message { text: turn.message@ },
            AgentEventModel::Usage { usage: r.1 },
            AgentEventModel::Finished {
                success: turn.success,
                summary: Some(turn.message@),
                usage: r.1,
            },
        ],
{
    let sum = total.plus(turn.usage);
    let mut r: Vec<AgentEvent> = Vec::new();
    r.push(AgentEvent::Message { text: turn.message.clone() });
    r.push(AgentEvent::Usage { usage: sum });
    r.push(
        AgentEvent::Finished {
            success: turn.success,
            summary: Some(turn.message.clone()),
            usage: sum,
        },
    );
    assert(views(r@) =~= seq![
        AgentEventModel::Message { text: turn.message@ },
        AgentEventModel::Usage { usage: sum },
        AgentEventModel::Finished {
            success: turn.success,
            summary: Some(turn.message@),
            usage: sum,
        },
    ]);
    (r, sum)
}

/// Where a turn of the mock agent stands.
#[derive(Debug, Clone, Copy, PartialEq, Eq, Structural)]
pub enum MockStage {
    /// Nothing is done yet.
    Fresh,
    /// It has worked for its time.
    Rested,
    /// It asks for permission.
    Asking,
    /// It writes this file.
    Writing(usize),
    /// It tells of this file.
    Telling(usize),
    /// It tells how it ended.
    Ending,
}

/// What came of a move of the mock agent.
#[derive(Debug, PartialEq)]
pub enum MockInput {
    /// It was made.
    Done,
    /// The request for permission was answered.
    Decided(PermissionDecision),
    /// The file was written, or not for this reason.
    Wrote(Option<String>),
}

/// What a value of type `MockInput` stands for.
#[verifier::ext_equal]
pub enum MockInputModel {
    Done,
    Decided(PermissionDecisionModel),
    Wrote(Option<Seq<char>>),
}

impl View for MockInput {
    type V = MockInputModel;

    open spec fn view(&self) -> MockInputModel {
        match self {
            MockInput::Done => MockInputModel::Done,
            MockInput::Decided(decision) => MockInputModel::Decided(decision@),
            MockInput::Wrote(error) => MockInputModel::Wrote(seen(*error)),
        }
    }
}

/// What the mock agent does next in a turn.
#[derive(Debug, PartialEq)]
pub enum MockMove {
    /// Work for so many milliseconds.
    Rest(u64),
    /// Ask for permission with this event, and wait for the answer.
    Ask(AgentEvent),
    /// Tell this event, then write a file of the workspace.
    Write { call: AgentEvent, path: String, content: String },
    /// Tell these events.
    Tell(Vec<AgentEvent>),
    /// The turn is over.
    Finished,
}

/// What a value of type `MockMove` stands for.
#[verifier::ext_equal]
pub enum MockMoveModel {
    Rest(u64),
    Ask(AgentEventModel),
    Write { call: AgentEventModel, path: Seq<char>, content: Seq<char> },
    Tell(Seq<AgentEventModel>),
    Finished,
}

impl View for MockMove {
    type V = MockMoveModel;

    open spec fn view(&self) -> MockMoveModel {
        match self {
            MockMove::Rest(ms) => MockMoveModel::Rest(*ms),
            MockMove::Ask(event) => MockMoveModel::Ask(event@),
            MockMove::Write { call, path, content } => MockMoveModel::Write {
                call: call@,
                path: path@,
                content: content@,
            },
            MockMove::Tell(events) => MockMoveModel::Tell(views(events@)),
            MockMove::Finished => MockMoveModel::Finished,
        }
    }
}

/// One turn of the mock agent being played.
#[derive(Debug, PartialEq)]
pub struct MockPlay {
    pub call: MockCall,
    pub turn: MockTurn,
    /// What the session has used.
    pub total: Usage,
    pub stage: MockStage,
}

impl MockPlay {
    /// The usage of the turn can be added to that of the session, and the files
    /// that are spoken of are there.
    pub open spec fn wf(&self) -> bool {
        &&& self.stage != MockStage::Ending ==> self.total.fits_with(self.turn.usage)
        &&& match self.stage {
            MockStage::Writing(i) => i < self.turn.writes@.len(),
            MockStage::Telling(i) => i < self.turn.writes@.len(),
            _ => true,
        }
    }

    /// What can come of the last move.
    pub open spec fn awaits(&self, input: MockInputModel) -> bool {
        match self.stage {
            MockStage::Asking => input is Decided,
            MockStage::Writing(_) => input is Wrote,
            _ => input is Done,
        }
    }

    /// Writes the `i`th file, or ends the turn where there is no such file: its
    /// usage is added to the session's.
    pub open spec fn write(&self, i: int) -> (MockStage, Usage, MockMoveModel) {
        if i < self.turn.writes@.len() {
            let file = self.turn.writes@[i];
            (
                MockStage::Writing(i as usize),
                self.total,
                MockMoveModel::Write {
                    call: AgentEventModel::ToolCall {
                        call_id: call_name(self.call.turn, i),
                        tool: "write_file"@,
                        input: JsonModel::Object(
                            seq![
                                ("bytes"@, JsonModel::Number(decimal(byte_len(file.1@)))),
                                ("path"@, JsonModel::Text(file.0@)),
                            ],
                        ),
                    },
                    path: file.0@,
                    content: file.1@,
                },
            )
        } else {
            let sum = self.total.with(self.turn.usage);
            (
                MockStage::Ending,
                sum,
                MockMoveModel::Tell(
                    seq![
                        AgentEventModel::Message { text: self.turn.message@ },
                        AgentEventModel::Usage { usage: sum },
                        AgentEventModel::Finished {
                            success: self.turn.success,
                            summary: Some(self.turn.message@),
                            usage: sum,
                        },
                    ],
                ),
            )
        }
    }

    /// Asks for permission where the turn needs it, or starts to write.
    pub open spec fn ask(&self) -> (MockStage, Usage, MockMoveModel) {
        match self.turn.ask_permission {
            Some(request) => (
                MockStage::Asking,
                self.total,
                MockMoveModel::Ask(
                    AgentEventModel::PermissionRequested {
                        request_id: "perm-"@ + self.call.session_id@ + "-"@ + decimal(
                            self.call.turn as int,
                        ),
                        tool: request.0@,
                        input: request.1@,
                    },
                ),
            ),
            None => self.write(0),
        }
    }

    /// The next stage, the session's usage and the move.
    pub open spec fn next(&self, input: MockInputModel) -> (MockStage, Usage, MockMoveModel) {
        match self.stage {
            MockStage::Fresh => if self.turn.delay_ms > 0 {
                (MockStage::Rested, self.total, MockMoveModel::Rest(self.turn.delay_ms))
            } else {
                self.ask()
            },
            MockStage::Rested => self.ask(),
            MockStage::Asking => match input {
                MockInputModel::Decided(PermissionDecisionModel::Deny { message, .. }) => (
                    MockStage::Ending,
                    self.total,
                    MockMoveModel::Tell(
                        seq![
                            AgentEventModel::Message { text: "Permission denied: "@ + message },
                            AgentEventModel::Finished {
                                success: false,
                                summary: Some("permission denied"@),
                                usage: self.total,
                            },
                        ],
                    ),
                ),
                _ => self.write(0),
            },
            MockStage::Writing(i) => {
                let error = input->Wrote_0;
                let path = self.turn.writes@[i as int].0@;
                (
                    MockStage::Telling(i),
                    self.total,
                    MockMoveModel::Tell(
                        seq![
                            AgentEventModel::ToolResult {
                                call_id: call_name(self.call.turn, i as int),
                                output: match error {
                                    None => "wrote "@ + path,
                                    Some(e) => "failed to write "@ + path + ": "@ + e,
                                },
                                is_error: error is Some,
                            },
                        ],
                    ),
                )
            },
            MockStage::Telling(i) => self.write(i + 1),
            MockStage::Ending => (MockStage::Ending, self.total, MockMoveModel::Finished),
        }
    }

    /// Starts to play a turn, where its usage can be added to that of the session.
    pub fn new(call: MockCall, turn: MockTurn, total: Usage) -> (r: Option<MockPlay>)
        ensures
            match r {
                Some(play) => {
                    &&& total.fits_with(turn.usage)
                    &&& play.wf()
                    &&& play.stage == MockStage::Fresh
                    &&& play.call == call
                    &&& play.turn == turn
                    &&& play.total == total
                },
                None => !total.fits_with(turn.usage),
            },
    {
        match total.checked_plus(turn.usage) {
            Some(_) => Some(MockPlay { call, turn, total, stage: MockStage::Fresh }),
            None => None,
        }
    }

    fn go_write(&mut self, i: usize) -> (m: MockMove)
        requires
            old(self).total.fits_with(old(self).turn.usage),
        ensures
            final(self).call == old(self).call,
            final(self).turn == old(self).turn,
            (final(self).stage, final(self).total, m@) == old(self).write(i as int),
    {
        if i < self.turn.writes.len() {
            let path = self.turn.writes[i].0.clone();
            let content = self.turn.writes[i].1.clone();
            let bytes: usize = content.as_str().as_bytes().len();
            let call = write_call(self.call.turn, i, path.as_str(), bytes);
            self.stage = MockStage::Writing(i);
            MockMove::Write { call, path, content }
        } else {
            let (events, sum) = finished_turn(&self.turn, self.total);
            self.total = sum;
            self.stage = MockStage::Ending;
            MockMove::Tell(events)
        }
    }

    fn go_ask(&mut self) -> (m: MockMove)
        requires
            old(self).total.fits_with(old(self).turn.usage),
        ensures
            final(self).call == old(self).call,
            final(self).turn == old(self).turn,
            (final(self).stage, final(self).total, m@) == old(self).ask(),
    {
        match &self.turn.ask_permission {
            Some((tool, input)) => {
                let request = permission_request(&self.call, tool.as_str(), input);
                self.stage = MockStage::Asking;
                MockMove::Ask(request)
            },
            None => self.go_write(0),
        }
    }

    /// Makes the next move of the turn, from what came of the last one.
    pub fn step(&mut self, input: MockInput) -> (m: MockMove)
        requires
            old(self).wf(),
            old(self).awaits(input@),
        ensures
            final(self).wf(),
            final(self).call == old(self).call,
            final(self).turn == old(self).turn,
            (final(self).stage, final(self).total, m@) == old(self).next(input@),
    {
        match self.stage {
            MockStage::Fresh => {
                if self.turn.delay_ms > 0 {
                    self.stage = MockStage::Rested;
                    MockMove::Rest(self.turn.delay_ms)
                } else {
                    self.go_ask()
                }
            },
            MockStage::Rested => self.go_ask(),
            MockStage::Asking => match input {
                MockInput::Decided(PermissionDecision::Deny { message, .. }) => {
                    self.stage = MockStage::Ending;
                    MockMove::Tell(denied_turn(message.as_str(), self.total))
                },
                _ => self.go_write(0),
            },
            MockStage::Writing(i) => {
                let error: Option<&str> = match &input {
                    MockInput::Wrote(Some(e)) => Some(e.as_str()),
                    _ => None,
                };
                let result = write_result(
                    self.call.turn,
                    i,
                    self.turn.writes[i].0.as_str(),
                    error,
                );
                let mut events: Vec<AgentEvent> = Vec::new();
                events.push(result);
                assert(views(events@) =~= seq![result@]);
                self.stage = MockStage::Telling(i);
                MockMove::Tell(events)
            },
            MockStage::Telling(i) => {
                let count = self.turn.writes.len();
                assert(i < count);
                self.go_write(i + 1)
            },
            MockStage::Ending => MockMove::Finished,
        }
    }
}

/// A turn that has to ask writes nothing before it is allowed to. Denied, it writes nothing
/// at all, costs nothing and fails.
pub proof fn turns_ask_first(play: MockPlay, input: MockInputModel)
    requires
        play.turn.ask_permission is Some,
    ensures
        (play.stage == MockStage::Fresh || play.stage == MockStage::Rested) ==> {
            &&& !(play.next(input).2 is Write)
            &&& play.next(input).0 == MockStage::Rested || play.next(input).0 == MockStage::Asking
        },
        play.stage == MockStage::Asking && input is Decided && input->Decided_0 is Deny ==> {
            let (stage, total, told) = play.next(input);
            &&& stage == MockStage::Ending
            &&& total == play.total
            &&& told matches MockMoveModel::Tell(events) && events.len() > 0 && (
            events.last() matches AgentEventModel::Finished { success, usage, .. } && !success
                && usage == play.total)
        },
{
}

/// The files of a turn are written one after the other, each as it is given and under its
/// own name, and each is told of: as an error where it could not be written, and only
/// there.
pub proof fn files_are_written_in_turn(play: MockPlay, input: MockInputModel)
    requires
        play.wf(),
        play.awaits(input),
        play.turn.writes@.len() <= usize::MAX,
    ensures
        ({
            let (stage, total, told) = play.next(input);
            let files = play.turn.writes@;
            &&& play.stage == MockStage::Rested && play.turn.ask_permission is None && files.len()
                > 0 ==> stage == MockStage::Writing(0)
            &&& play.stage matches MockStage::Writing(k) ==> stage == MockStage::Telling(k) && (
            told matches MockMoveModel::Tell(events) && events.len() == 1 && (
            events[0] matches AgentEventModel::ToolResult { is_error, .. } && is_error == (
            input->Wrote_0 is Some)))
            &&& play.stage matches MockStage::Telling(k) ==> (stage matches MockStage::Writing(n)
                ==> n == k + 1)
            &&& stage matches MockStage::Writing(n) ==> (told matches MockMoveModel::Write {
                path,
                content,
                ..
            } && path == files[n as int].0@ && content == files[n as int].1@)
            &&& play.stage matches MockStage::Telling(k) ==> (k + 1 < files.len() <==> stage
                is Writing)
        }),
{
}

/// A turn ends when all its files are written, with the success it is given and with what
/// it costs added to what was spent before it.
pub proof fn turns_end_with_their_cost(play: MockPlay, input: MockInputModel)
    requires
        play.wf(),
        play.awaits(input),
        play.stage matches MockStage::Telling(k) && k + 1 == play.turn.writes@.len(),
    ensures
        ({
            let (stage, total, told) = play.next(input);
            &&& stage == MockStage::Ending
            &&& total.input_tokens == play.total.input_tokens + play.turn.usage.input_tokens
            &&& total.output_tokens == play.total.output_tokens + play.turn.usage.output_tokens
            &&& total.cost_usd.nanos == play.total.cost_usd.nanos + play.turn.usage.cost_usd.nanos
            &&& told matches MockMoveModel::Tell(events) && events.len() > 0 && (
            events.last() matches AgentEventModel::Finished { success, usage, .. } && success
                == play.turn.success && usage == total)
        }),
{
}

} // verus!
