//! Agent runtimes.
//!
//! Existing coding agents (command-line agents, ACP agents…) are driven through
//! their machine protocols, and everything they do is normalized into
//! [`crate::events::AgentEvent`]s. The engine never sees a runtime's native
//! format.
//!
//! A session is one agent process working in one workspace. The engine sends
//! the task prompt, reads events until the turn ends with
//! [`crate::events::AgentEvent::Finished`], and may then send follow-up input
//! (for example, failing check output) to start another turn in the same
//! session.

use vstd::prelude::*;

use crate::json::{Json, JsonModel};
use crate::money::Usd;
use crate::order::OrdMap;
use crate::text::{duplicate_opt, seen, Duplicate};

verus! {

/// The command-line agent: the name of its runtime, and of its program.
pub const CODE_CLI: &'static str = "code-cli";

/// Capacity of a session's event channel. The engine drains it continuously;
/// a full channel applies backpressure to the agent's output reader.
pub const EVENT_BUFFER: usize = 1024;

/// What can go wrong with an agent.
#[allow(inconsistent_fields)]
#[derive(Debug, PartialEq, Eq)]
pub enum AgentError {
    Spawn { program: String, message: String },
    Io { message: String },
    SessionEnded,
    Unsupported(&'static str),
}

impl AgentError {
    pub open spec fn message_spec(&self) -> Seq<char> {
        match self {
            AgentError::Spawn { program, message } => "could not start `"@ + program@ + "`: "@
                + message@,
            AgentError::Io { message } => "agent I/O failed: "@ + message@,
            AgentError::SessionEnded => "the agent session has ended"@,
            AgentError::Unsupported(what) => what@,
        }
    }

    /// The error, in words.
    pub fn message(&self) -> (r: String)
        ensures
            r@ == self.message_spec(),
    {
        match self {
            AgentError::Spawn { program, message } => {
                let mut r = "could not start `".to_owned();
                r.append(program.as_str());
                r.append("`: ");
                r.append(message.as_str());
                r
            },
            AgentError::Io { message } => {
                let mut r = "agent I/O failed: ".to_owned();
                r.append(message.as_str());
                r
            },
            AgentError::SessionEnded => "the agent session has ended".to_owned(),
            AgentError::Unsupported(what) => (*what).to_owned(),
        }
    }
}

/// How much the agent may do without asking.
#[derive(Debug, Clone, Copy, PartialEq, Eq, Structural)]
pub enum PermissionMode {
    /// Ask for anything not in the allow list.
    Ask,
    /// File edits inside the workspace are allowed; other tools ask.
    AcceptEdits,
    /// Read-only planning: the agent may not modify anything.
    Plan,
}

impl Default for PermissionMode {
    fn default() -> (r: PermissionMode)
        ensures
            r == PermissionMode::Ask,
    {
        PermissionMode::Ask
    }
}

/// Everything needed to start a session.
#[derive(Debug, PartialEq)]
pub struct StartRequest {
    /// The workspace the agent works in (its current directory).
    pub workdir: String,
    /// The first user message.
    pub prompt: String,
    /// Extra instructions appended to the runtime's own system prompt.
    pub append_system_prompt: Option<String>,
    pub model: Option<String>,
    /// Session id chosen beforehand, so it never has to be discovered.
    pub session_id: Option<String>,
    /// Resume an earlier session instead of starting fresh.
    pub resume: Option<String>,
    pub permission_mode: PermissionMode,
    /// Tools the agent may use without asking (runtime-specific names).
    pub allowed_tools: Vec<String>,
    /// Tools the agent may never use.
    pub disallowed_tools: Vec<String>,
    /// Extra environment variables for the agent process.
    pub env: OrdMap<String, String>,
    pub max_turns: Option<u32>,
    pub max_budget_usd: Option<Usd>,
}

impl Default for StartRequest {
    fn default() -> (r: StartRequest)
        ensures
            r.workdir@.len() == 0,
            r.prompt@.len() == 0,
            r.append_system_prompt is None,
            r.model is None,
            r.session_id is None,
            r.resume is None,
            r.permission_mode == PermissionMode::Ask,
            r.allowed_tools@.len() == 0,
            r.disallowed_tools@.len() == 0,
            r.env.wf(),
            r.env@ == Map::<Seq<char>, String>::empty(),
            r.max_turns is None,
            r.max_budget_usd is None,
    {
        StartRequest {
            workdir: String::new(),
            prompt: String::new(),
            append_system_prompt: None,
            model: None,
            session_id: None,
            resume: None,
            permission_mode: PermissionMode::Ask,
            allowed_tools: Vec::new(),
            disallowed_tools: Vec::new(),
            env: OrdMap::new(),
            max_turns: None,
            max_budget_usd: None,
        }
    }
}

/// What a runtime supports, so the engine and UI only offer what works.
#[derive(Debug, Clone, Copy, PartialEq, Eq, Structural)]
pub struct AgentCapabilities {
    /// Follow-up input continues the same session.
    pub multi_turn: bool,
    /// Sessions can be resumed after the process exits.
    pub resume: bool,
    pub interrupt: bool,
    /// Tool permission prompts are routed to the engine.
    pub permission_prompts: bool,
    /// Usage reports include a dollar cost.
    pub reports_cost: bool,
}

impl Default for AgentCapabilities {
    fn default() -> (r: AgentCapabilities)
        ensures
            !r.multi_turn && !r.resume && !r.interrupt && !r.permission_prompts && !r.reports_cost,
    {
        AgentCapabilities {
            multi_turn: false,
            resume: false,
            interrupt: false,
            permission_prompts: false,
            reports_cost: false,
        }
    }
}

/// Result of checking that a runtime is installed and usable.
#[derive(Debug, PartialEq)]
pub struct ProbeReport {
    pub runtime: String,
    pub available: bool,
    pub version: Option<String>,
    pub detail: Option<String>,
}

/// What a value of type `ProbeReport` stands for.
#[verifier::ext_equal]
pub struct ProbeReportModel {
    pub runtime: Seq<char>,
    pub available: bool,
    pub version: Option<Seq<char>>,
    pub detail: Option<Seq<char>>,
}

impl View for ProbeReport {
    type V = ProbeReportModel;

    open spec fn view(&self) -> ProbeReportModel {
        ProbeReportModel {
            runtime: self.runtime@,
            available: self.available,
            version: seen(self.version),
            detail: seen(self.detail),
        }
    }
}

impl Duplicate for ProbeReport {
    fn duplicate(&self) -> (r: ProbeReport) {
        ProbeReport {
            runtime: self.runtime.clone(),
            available: self.available,
            version: duplicate_opt(&self.version),
            detail: duplicate_opt(&self.detail),
        }
    }
}

impl Clone for ProbeReport {
    fn clone(&self) -> (r: ProbeReport)
        ensures
            r@ == self@,
    {
        self.duplicate()
    }
}

/// An answer to a permission request.
#[allow(inconsistent_fields)]
#[derive(Debug, PartialEq)]
pub enum PermissionDecision {
    Allow {
        /// Replacement tool input, to run a safer variant of the call.
        updated_input: Option<Json>,
    },
    Deny {
        message: String,
        /// Also stop the agent's current turn.
        interrupt: bool,
    },
}

/// What a value of type `PermissionDecision` stands for.
#[allow(inconsistent_fields)]
#[verifier::ext_equal]
pub enum PermissionDecisionModel {
    Allow { updated_input: Option<JsonModel> },
    Deny { message: Seq<char>, interrupt: bool },
}

impl View for PermissionDecision {
    type V = PermissionDecisionModel;

    open spec fn view(&self) -> PermissionDecisionModel {
        match self {
            PermissionDecision::Allow { updated_input } => PermissionDecisionModel::Allow {
                updated_input: seen(*updated_input),
            },
            PermissionDecision::Deny { message, interrupt } => PermissionDecisionModel::Deny {
                message: message@,
                interrupt: *interrupt,
            },
        }
    }
}

impl Duplicate for PermissionDecision {
    fn duplicate(&self) -> (r: PermissionDecision) {
        match self {
            PermissionDecision::Allow { updated_input } => PermissionDecision::Allow {
                updated_input: duplicate_opt(updated_input),
            },
            PermissionDecision::Deny { message, interrupt } => PermissionDecision::Deny {
                message: message.clone(),
                interrupt: *interrupt,
            },
        }
    }
}

impl Clone for PermissionDecision {
    fn clone(&self) -> (r: PermissionDecision)
        ensures
            r@ == self@,
    {
        self.duplicate()
    }
}

} // verus!
