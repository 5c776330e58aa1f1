//! One side of a conversation with the agent's command line: what is written to the CLI, and
//! what is kept between its messages.

use vstd::prelude::*;

use crate::agent::{PermissionDecision, PermissionDecisionModel};
use crate::budget::{no_usage, Usage};
use crate::claude::{truncate, truncated, Incoming, IncomingModel, MAX_STDERR_LINES};
use crate::events::{AgentEvent, AgentEventModel, LogLevel};
use crate::json::{first_fields_count, json_print, json_text, Json, JsonModel};
use crate::order::OrdMap;
use crate::state::{seen_map, seen_map_insert};
use crate::text::{decimal, seen, trim, trimmed, u64_text, Duplicate};

verus! {

/// A text as JSON.
pub open spec fn jtext(t: Seq<char>) -> JsonModel {
    JsonModel::Text(t)
}

fn text_value(t: &str) -> (r: Json)
    ensures
        r@ == jtext(t@),
{
    Json::Text(t.to_owned())
}

fn object(fields: Vec<(String, Json)>) -> (r: Json)
    ensures
        r@ == JsonModel::Object(Json::fields_model(fields@)),
{
    Json::Object(fields)
}

/// A message of the user: the prompt, or a follow-up.
pub open spec fn user_message_model(text: Seq<char>) -> JsonModel {
    JsonModel::Object(
        seq![
            ("type"@, jtext("user"@)),
            (
                "message"@,
                JsonModel::Object(seq![("role"@, jtext("user"@)), ("content"@, jtext(text))]),
            ),
            ("parent_tool_use_id"@, JsonModel::Null),
            ("session_id"@, jtext("default"@)),
        ],
    )
}

pub fn user_message(text: &str) -> (r: Json)
    ensures
        r@ == user_message_model(text@),
{
    let inner: Vec<(String, Json)> = vec![
        ("role".to_owned(), text_value("user")),
        ("content".to_owned(), text_value(text)),
    ];
    assert(Json::fields_model(inner@) =~= seq![
        ("role"@, jtext("user"@)),
        ("content"@, jtext(text@)),
    ]);
    let fields: Vec<(String, Json)> = vec![
        ("type".to_owned(), text_value("user")),
        ("message".to_owned(), object(inner)),
        ("parent_tool_use_id".to_owned(), Json::Null),
        ("session_id".to_owned(), text_value("default")),
    ];
    assert(Json::fields_model(fields@) =~= user_message_model(text@)->Object_0);
    object(fields)
}

/// A request to the CLI.
pub open spec fn control_message_model(
    request_id: Seq<char>,
    request: Seq<(Seq<char>, JsonModel)>,
) -> JsonModel {
    JsonModel::Object(
        seq![
            ("type"@, jtext("control_request"@)),
            ("request_id"@, jtext(request_id)),
            ("request"@, JsonModel::Object(request)),
        ],
    )
}

fn control_message(request_id: &str, request: Vec<(String, Json)>) -> (r: Json)
    ensures
        r@ == control_message_model(request_id@, Json::fields_model(request@)),
{
    let ghost inner = Json::fields_model(request@);
    let fields: Vec<(String, Json)> = vec![
        ("type".to_owned(), text_value("control_request")),
        ("request_id".to_owned(), text_value(request_id)),
        ("request".to_owned(), object(request)),
    ];
    assert(Json::fields_model(fields@) =~= control_message_model(request_id@, inner)->Object_0);
    object(fields)
}

/// The first message of a session.
pub fn initialize_message() -> (r: Json)
    ensures
        r@ == control_message_model(
            "forgeline-init"@,
            seq![("subtype"@, jtext("initialize"@)), ("hooks"@, JsonModel::Null)],
        ),
{
    let request: Vec<(String, Json)> = vec![
        ("subtype".to_owned(), text_value("initialize")),
        ("hooks".to_owned(), Json::Null),
    ];
    assert(Json::fields_model(request@) =~= seq![
        ("subtype"@, jtext("initialize"@)),
        ("hooks"@, JsonModel::Null),
    ]);
    control_message("forgeline-init", request)
}

/// An answer to the CLI.
pub open spec fn response_model(response: Seq<(Seq<char>, JsonModel)>) -> JsonModel {
    JsonModel::Object(
        seq![("type"@, jtext("control_response"@)), ("response"@, JsonModel::Object(response))],
    )
}

fn response_message(response: Vec<(String, Json)>) -> (r: Json)
    ensures
        r@ == response_model(Json::fields_model(response@)),
{
    let ghost inner = Json::fields_model(response@);
    let fields: Vec<(String, Json)> = vec![
        ("type".to_owned(), text_value("control_response")),
        ("response".to_owned(), object(response)),
    ];
    assert(Json::fields_model(fields@) =~= response_model(inner)->Object_0);
    object(fields)
}

/// The answer to a request that is not supported.
pub open spec fn refusal_model(request_id: Seq<char>, subtype: Seq<char>) -> JsonModel {
    response_model(
        seq![
            ("subtype"@, jtext("error"@)),
            ("request_id"@, jtext(request_id)),
            ("error"@, jtext("forgeline does not support `"@ + subtype + "` requests"@)),
        ],
    )
}

fn refusal(request_id: &str, subtype: &str) -> (r: Json)
    ensures
        r@ == refusal_model(request_id@, subtype@),
{
    let mut error = "forgeline does not support `".to_owned();
    error.append(subtype);
    error.append("` requests");
    let response: Vec<(String, Json)> = vec![
        ("subtype".to_owned(), text_value("error")),
        ("request_id".to_owned(), text_value(request_id)),
        ("error".to_owned(), text_value(error.as_str())),
    ];
    assert(Json::fields_model(response@) =~= seq![
        ("subtype"@, jtext("error"@)),
        ("request_id"@, jtext(request_id@)),
        ("error"@, jtext("forgeline does not support `"@ + subtype@ + "` requests"@)),
    ]);
    response_message(response)
}

/// What a decision on a tool says: an allowed call runs with the input that was
/// proposed, unless there is another one.
pub open spec fn behavior_model(decision: PermissionDecisionModel, proposed: JsonModel) -> JsonModel {
    match decision {
        PermissionDecisionModel::Allow { updated_input } => JsonModel::Object(
            seq![
                ("behavior"@, jtext("allow"@)),
                (
                    "updatedInput"@,
                    match updated_input {
                        Some(input) => input,
                        None => proposed,
                    },
                ),
            ],
        ),
        PermissionDecisionModel::Deny { message, interrupt } => JsonModel::Object(
            seq![
                ("behavior"@, jtext("deny"@)),
                ("message"@, jtext(message)),
                ("interrupt"@, JsonModel::Bool(interrupt)),
            ],
        ),
    }
}

/// The answer to a permission request.
pub open spec fn answer_model(
    request_id: Seq<char>,
    decision: PermissionDecisionModel,
    proposed: JsonModel,
) -> JsonModel {
    response_model(
        seq![
            ("subtype"@, jtext("success"@)),
            ("request_id"@, jtext(request_id)),
            ("response"@, behavior_model(decision, proposed)),
        ],
    )
}

fn answer_message(request_id: &str, decision: PermissionDecision, proposed: Json) -> (r: Json)
    ensures
        r@ == answer_model(request_id@, decision@, proposed@),
{
    let ghost goal = behavior_model(decision@, proposed@);
    let behavior = match decision {
        PermissionDecision::Allow { updated_input } => {
            let input = match updated_input {
                Some(input) => input,
                None => proposed,
            };
            let fields: Vec<(String, Json)> = vec![
                ("behavior".to_owned(), text_value("allow")),
                ("updatedInput".to_owned(), input),
            ];
            assert(Json::fields_model(fields@) =~= goal->Object_0);
            object(fields)
        },
        PermissionDecision::Deny { message, interrupt } => {
            let fields: Vec<(String, Json)> = vec![
                ("behavior".to_owned(), text_value("deny")),
                ("message".to_owned(), Json::Text(message)),
                ("interrupt".to_owned(), Json::Bool(interrupt)),
            ];
            assert(Json::fields_model(fields@) =~= goal->Object_0);
            object(fields)
        },
    };
    let response: Vec<(String, Json)> = vec![
        ("subtype".to_owned(), text_value("success")),
        ("request_id".to_owned(), text_value(request_id)),
        ("response".to_owned(), behavior),
    ];
    assert(Json::fields_model(response@) =~= seq![
        ("subtype"@, jtext("success"@)),
        ("request_id"@, jtext(request_id@)),
        ("response"@, goal),
    ]);
    response_message(response)
}

/// A message as the CLI reads it: one line.
pub fn line_of(message: &Json) -> (r: String)
    ensures
        r@ == json_text(message@) + "\n"@,
{
    let mut r = json_print(message);
    r.append("\n");
    r
}

/// What is to be done about a message of the CLI.
#[derive(Debug, PartialEq)]
pub enum Reaction {
    /// Tell the engine.
    Emit(AgentEvent),
    /// Write to the CLI.
    Reply(Json),
    Nothing,
}

/// What a value of type `Reaction` stands for.
pub enum ReactionModel {
    Emit(AgentEventModel),
    Reply(JsonModel),
    Nothing,
}

impl View for Reaction {
    type V = ReactionModel;

    open spec fn view(&self) -> ReactionModel {
        match self {
            Reaction::Emit(event) => ReactionModel::Emit(event@),
            Reaction::Reply(message) => ReactionModel::Reply(message@),
            Reaction::Nothing => ReactionModel::Nothing,
        }
    }
}

/// What is kept of a running session.
#[derive(Debug, PartialEq)]
pub struct Session {
    /// Open `can_use_tool` requests and the tool input each one proposed.
    pub pending: OrdMap<String, Json>,
    /// A turn is under way.
    pub awaiting_result: bool,
    /// What the last finished turn reported.
    pub last_usage: Usage,
    /// The number of the next request to the CLI.
    pub next_request: u64,
    /// How many lines of stderr have been forwarded.
    pub forwarded: usize,
}

/// What a value of type `Session` stands for.
#[verifier::ext_equal]
pub struct SessionModel {
    pub pending: Map<Seq<char>, JsonModel>,
    pub awaiting_result: bool,
    pub last_usage: Usage,
    pub next_request: u64,
    pub forwarded: usize,
}

impl View for Session {
    type V = SessionModel;

    open spec fn view(&self) -> SessionModel {
        SessionModel {
            pending: seen_map(self.pending@),
            awaiting_result: self.awaiting_result,
            last_usage: self.last_usage,
            next_request: self.next_request,
            forwarded: self.forwarded,
        }
    }
}

impl SessionModel {
    /// What a message of the CLI changes, and what is to be done about it.
    pub open spec fn taken(self, message: IncomingModel) -> (SessionModel, ReactionModel) {
        match message {
            IncomingModel::Event(event) => (
                match event {
                    AgentEventModel::Finished { usage, .. } => SessionModel {
                        awaiting_result: false,
                        last_usage: usage,
                        ..self
                    },
                    _ => self,
                },
                ReactionModel::Emit(event),
            ),
            IncomingModel::CanUseTool { request_id, tool, input } => (
                SessionModel { pending: self.pending.insert(request_id, input), ..self },
                ReactionModel::Emit(
                    AgentEventModel::PermissionRequested { request_id, tool, input },
                ),
            ),
            IncomingModel::UnsupportedRequest { request_id, subtype } => (
                self,
                ReactionModel::Reply(refusal_model(request_id, subtype)),
            ),
            IncomingModel::Cancelled { request_id } => (
                SessionModel { pending: self.pending.remove(request_id), ..self },
                ReactionModel::Nothing,
            ),
        }
    }
}

/// A permission prompt is never approved by the session itself: what it writes
/// to the CLI on its own is at most a refusal of a request that is not
/// supported.
pub proof fn sessions_never_approve(s: SessionModel, message: IncomingModel)
    ensures
        s.taken(message).1 matches ReactionModel::Reply(reply) ==> message
            matches IncomingModel::UnsupportedRequest { request_id, subtype } && reply
            == refusal_model(request_id, subtype),
{
}

impl Session {
    pub open spec fn wf(&self) -> bool {
        self.pending.wf()
    }

    /// A session whose first prompt has been sent.
    pub fn new() -> (r: Session)
        ensures
            r.wf(),
            r@ == (SessionModel {
                pending: Map::empty(),
                awaiting_result: true,
                last_usage: no_usage(),
                next_request: 1,
                forwarded: 0,
            }),
    {
        let r = Session {
            pending: OrdMap::new(),
            awaiting_result: true,
            last_usage: Usage::default(),
            next_request: 1,
            forwarded: 0,
        };
        assert(r@.pending =~= Map::<Seq<char>, JsonModel>::empty());
        r
    }

    /// Takes a message of the CLI.
    pub fn take(&mut self, message: Incoming) -> (r: Reaction)
        requires
            old(self).wf(),
        ensures
            final(self).wf(),
            (final(self)@, r@) == old(self)@.taken(message@),
    {
        match message {
            Incoming::Event(event) => {
                if let AgentEvent::Finished { usage, .. } = &event {
                    self.last_usage = *usage;
                    self.awaiting_result = false;
                }
                Reaction::Emit(event)
            },
            Incoming::CanUseTool { request_id, tool, input } => {
                let proposed = input.duplicate();
                proof {
                    seen_map_insert(self.pending@, request_id@, proposed);
                }
                self.pending.insert(request_id.clone(), proposed);
                Reaction::Emit(AgentEvent::PermissionRequested { request_id, tool, input })
            },
            Incoming::UnsupportedRequest { request_id, subtype } => Reaction::Reply(
                refusal(request_id.as_str(), subtype.as_str()),
            ),
            Incoming::Cancelled { request_id } => {
                let gone = self.pending.remove(&request_id);
                assert(self@.pending =~= old(self)@.pending.remove(request_id@));
                Reaction::Nothing
            },
        }
    }

    /// A follow-up starts another turn.
    pub fn follow_up(&mut self, text: &str) -> (r: Json)
        requires
            old(self).wf(),
        ensures
            final(self).wf(),
            final(self)@ == (SessionModel { awaiting_result: true, ..old(self)@ }),
            r@ == user_message_model(text@),
    {
        self.awaiting_result = true;
        user_message(text)
    }

    /// The answer to an open permission request, which is then closed; `None`
    /// where there is no such request.
    pub fn answer(&mut self, request_id: &str, decision: PermissionDecision) -> (r: Option<Json>)
        requires
            old(self).wf(),
        ensures
            final(self).wf(),
            final(self)@ == (SessionModel {
                pending: old(self)@.pending.remove(request_id@),
                ..old(self)@
            }),
            match r {
                Some(message) => {
                    &&& old(self)@.pending.dom().contains(request_id@)
                    &&& message@ == answer_model(
                        request_id@,
                        decision@,
                        old(self)@.pending[request_id@],
                    )
                },
                None => !old(self)@.pending.dom().contains(request_id@),
            },
    {
        let key: String = request_id.to_owned();
        let proposed = self.pending.remove(&key);
        assert(self@.pending =~= old(self)@.pending.remove(request_id@));
        match proposed {
            Some(input) => Some(answer_message(request_id, decision, input)),
            None => None,
        }
    }

    /// A request to stop the current turn.
    pub fn interrupt(&mut self) -> (r: Json)
        requires
            old(self).wf(),
        ensures
            final(self).wf(),
            final(self)@ == (SessionModel {
                next_request: if old(self).next_request == u64::MAX {
                    0
                } else {
                    (old(self).next_request + 1) as u64
                },
                ..old(self)@
            }),
            r@ == control_message_model(
                "forgeline-interrupt-"@ + decimal(old(self).next_request as int),
                seq![("subtype"@, jtext("interrupt"@))],
            ),
    {
        let n = self.next_request;
        self.next_request = if n == u64::MAX {
            0
        } else {
            n + 1
        };
        let mut id = "forgeline-interrupt-".to_owned();
        id.append(u64_text(n).as_str());
        let request: Vec<(String, Json)> = vec![("subtype".to_owned(), text_value("interrupt"))];
        assert(Json::fields_model(request@) =~= seq![("subtype"@, jtext("interrupt"@))]);
        control_message(id.as_str(), request)
    }

    /// The end that is told when the process is gone before its turn was.
    pub fn ended(&self, detail: String) -> (r: Option<AgentEvent>)
        ensures
            seen(r) == if self.awaiting_result {
                Some(
                    AgentEventModel::Finished {
                        success: false,
                        summary: Some(detail@),
                        usage: self.last_usage,
                    },
                )
            } else {
                None
            },
    {
        if self.awaiting_result {
            Some(
                AgentEvent::Finished {
                    success: false,
                    summary: Some(detail),
                    usage: self.last_usage,
                },
            )
        } else {
            None
        }
    }

    /// A line of stderr as a diagnostic. Empty lines are not forwarded, and
    /// nothing is after the first lines of a session.
    pub fn stderr_line(&mut self, line: &str) -> (r: Option<AgentEvent>)
        requires
            old(self).wf(),
        ensures
            final(self).wf(),
            ({
                let forward = old(self).forwarded < MAX_STDERR_LINES && trimmed(line@).len() > 0;
                &&& final(self)@ == (SessionModel {
                    forwarded: if forward {
                        (old(self).forwarded + 1) as usize
                    } else {
                        old(self).forwarded
                    },
                    ..old(self)@
                })
                &&& seen(r) == if forward {
                    Some(
                        AgentEventModel::Log {
                            level: LogLevel::Warn,
                            message: truncated(line@, 2000),
                        },
                    )
                } else {
                    None
                }
            }),
    {
        if self.forwarded < MAX_STDERR_LINES && !trim(line).as_str().is_empty() {
            self.forwarded = self.forwarded + 1;
            Some(AgentEvent::Log { level: LogLevel::Warn, message: truncate(line, 2000) })
        } else {
            None
        }
    }
}

/// How a process that ended before its turn is told.
pub fn exit_detail(command: &str, status: Option<&str>, error: &str) -> (r: String)
    ensures
        r@ == match status {
            Some(s) => command@ + " exited ("@ + s@ + ") before finishing its turn"@,
            None => command@ + " exited abnormally: "@ + error@,
        },
{
    match status {
        Some(s) => {
            let mut r = command.to_owned();
            r.append(" exited (");
            r.append(s);
            r.append(") before finishing its turn");
            r
        },
        None => {
            let mut r = command.to_owned();
            r.append(" exited abnormally: ");
            r.append(error);
            r
        },
    }
}

proof fn keys_differ()
    ensures
        "type"@ != "response"@,
        "type"@ != "message"@,
        "type"@ != "request_id"@,
        "type"@ != "request"@,
        "subtype"@ != "request_id"@,
        "subtype"@ != "response"@,
        "subtype"@ != "error"@,
        "request_id"@ != "response"@,
        "request_id"@ != "error"@,
        "request_id"@ != "request"@,
        "behavior"@ != "updatedInput"@,
        "behavior"@ != "message"@,
        "behavior"@ != "interrupt"@,
        "message"@ != "interrupt"@,
        "role"@ != "content"@,
{
    reveal_strlit("type");
    reveal_strlit("response");
    reveal_strlit("message");
    reveal_strlit("request_id");
    reveal_strlit("request");
    reveal_strlit("subtype");
    reveal_strlit("error");
    reveal_strlit("behavior");
    reveal_strlit("updatedInput");
    reveal_strlit("interrupt");
    reveal_strlit("role");
    reveal_strlit("content");
    assert("type"@.len() == 4 && "response"@.len() == 8 && "message"@.len() == 7);
    assert("request_id"@.len() == 10 && "request"@.len() == 7 && "subtype"@.len() == 7);
    assert("error"@.len() == 5 && "behavior"@.len() == 8 && "updatedInput"@.len() == 12);
    assert("interrupt"@.len() == 9 && "role"@.len() == 4 && "content"@.len() == 7);
}

/// What an answer says to the command line: it answers the request that was asked;
/// consent lets the call run as it was proposed, unless another input is given; a refusal
/// gives its message, and says whether the agent has to stop.
pub proof fn answers_say_what_was_decided(
    request_id: Seq<char>,
    decision: PermissionDecisionModel,
    proposed: JsonModel,
)
    ensures
        ({
            let answer = answer_model(request_id, decision, proposed);
            &&& answer.text_field("type"@) == Some("control_response"@)
            &&& answer.field("response"@) matches Some(outer) && {
                &&& outer.text_field("subtype"@) == Some("success"@)
                &&& outer.text_field("request_id"@) == Some(request_id)
                &&& outer.field("response"@) matches Some(inner) && match decision {
                    PermissionDecisionModel::Allow { updated_input } => {
                        &&& inner.text_field("behavior"@) == Some("allow"@)
                        &&& updated_input is None ==> inner.field("updatedInput"@) == Some(proposed)
                        &&& updated_input matches Some(input) ==> inner.field("updatedInput"@)
                            == Some(input)
                    },
                    PermissionDecisionModel::Deny { message, interrupt } => {
                        &&& inner.text_field("behavior"@) == Some("deny"@)
                        &&& inner.text_field("message"@) == Some(message)
                        &&& inner.field("interrupt"@) == Some(JsonModel::Bool(interrupt))
                    },
                }
            }
        }),
{
    keys_differ();
    reveal_with_fuel(crate::json::lookup, 4);
}

/// A refusal of a request that is not understood answers that request, as an error.
pub proof fn refusals_are_errors(request_id: Seq<char>, subtype: Seq<char>)
    ensures
        ({
            let answer = refusal_model(request_id, subtype);
            &&& answer.text_field("type"@) == Some("control_response"@)
            &&& answer.field("response"@) matches Some(outer) && {
                &&& outer.text_field("subtype"@) == Some("error"@)
                &&& outer.text_field("request_id"@) == Some(request_id)
                &&& outer.text_field("error"@) is Some
            }
        }),
{
    keys_differ();
    reveal_with_fuel(crate::json::lookup, 4);
}

/// A message to the agent holds the text as it is, from the user.
pub proof fn messages_hold_their_text(text: Seq<char>)
    ensures
        ({
            let m = user_message_model(text);
            &&& m.text_field("type"@) == Some("user"@)
            &&& m.field("message"@) matches Some(inner) && {
                &&& inner.text_field("role"@) == Some("user"@)
                &&& inner.text_field("content"@) == Some(text)
            }
        }),
{
    keys_differ();
    reveal_with_fuel(crate::json::lookup, 4);
}

/// What the command line says goes on to whoever listens: every event as it is, and every
/// request for permission, which then waits for its answer; one that is taken back waits
/// no more. A turn is over with its result, and only then.
pub proof fn sessions_pass_on(s: SessionModel, message: IncomingModel)
    ensures
        ({
            let (t, r) = s.taken(message);
            &&& message matches IncomingModel::Event(event) ==> r == ReactionModel::Emit(event)
                && t.pending == s.pending
            &&& message matches IncomingModel::CanUseTool { request_id, tool, input } ==> r
                == ReactionModel::Emit(
                AgentEventModel::PermissionRequested { request_id, tool, input },
            ) && t.pending.dom().contains(request_id) && t.pending[request_id] == input
            &&& message matches IncomingModel::Cancelled { request_id } ==> r is Nothing
                && !t.pending.dom().contains(request_id)
            &&& (message matches IncomingModel::Event(event) && event is Finished)
                ==> !t.awaiting_result
            &&& !(message matches IncomingModel::Event(event) && event is Finished)
                ==> t.awaiting_result == s.awaiting_result && t.last_usage == s.last_usage
            &&& message matches IncomingModel::Event(AgentEventModel::Finished { usage, .. })
                ==> t.last_usage == usage
            &&& message is UnsupportedRequest ==> t.pending == s.pending && r is Reply
        }),
{
}

/// A request says that it is one, carries the id by which its answer is known, and holds
/// what is asked.
pub proof fn requests_hold_what_is_asked(
    request_id: Seq<char>,
    request: Seq<(Seq<char>, JsonModel)>,
)
    ensures
        ({
            let m = control_message_model(request_id, request);
            &&& m.text_field("type"@) == Some("control_request"@)
            &&& m.text_field("request_id"@) == Some(request_id)
            &&& m.field("request"@) == Some(JsonModel::Object(request))
        }),
{
    reveal_strlit("type");
    reveal_strlit("request_id");
    reveal_strlit("request");
    assert("type"@.len() == 4 && "request_id"@.len() == 10 && "request"@.len() == 7);
    let fields = control_message_model(request_id, request)->Object_0;
    first_fields_count(fields, "type"@, 0);
    first_fields_count(fields, "request_id"@, 1);
    first_fields_count(fields, "request"@, 2);
}

} // verus!
