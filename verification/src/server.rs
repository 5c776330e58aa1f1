//! The rules of the HTTP API: who may call it, what a request asks for, which
//! status an error gets, and what a stream sends.
//!
//! The stream sends each event with its `seq` as the id, so a client resumes
//! exactly where it left off after a disconnect. A client that falls behind is
//! caught up from the log, never silently dropped.
//!
//! Without a token, requests must address `localhost` or a loopback address in
//! their `Host` header, which defeats DNS rebinding from web pages.

use vstd::prelude::*;
use vstd::utf8::*;

use crate::config::{single_plan, Plan, PlanModel};
use crate::engine::{EngineError, NewRun, NewRunModel};
use crate::events::{Event, EventModel};
use crate::ids::{ApprovalId, RunId};
use crate::model::{Decision, WorkSource, WorkSourceModel};
use crate::money::Usd;
use crate::order::{filter_none, filter_step, Key};
use crate::state::{ApprovalState, ApprovalStateModel, RunState, RunStateModel};
use crate::store::StoreError;
use crate::text::{
    begins, chars_of, drop_prefix, duplicate_opt, find_first, parse_u64, pieces, seen,
    split_pieces, starts_with, text_of, texts, trim, trimmed, u64_in, views, views_push, Duplicate,
};

verus! {

/// The name under which the service reports itself.
pub const SERVICE: &'static str = "forgeline";

/// How many events a stream reads from the log at once.
pub const STREAM_BATCH: u32 = 1000;

pub const BAD_REQUEST: u16 = 400;

pub const UNAUTHORIZED: u16 = 401;

pub const FORBIDDEN: u16 = 403;

pub const NOT_FOUND: u16 = 404;

pub const CONFLICT: u16 = 409;

pub const INTERNAL_SERVER_ERROR: u16 = 500;

/// An error of the API: a status and what went wrong.
#[derive(Debug, PartialEq)]
pub struct ApiError {
    pub status: u16,
    pub message: String,
}

/// What a value of type `ApiError` stands for.
#[verifier::ext_equal]
pub struct ApiErrorModel {
    pub status: u16,
    pub message: Seq<char>,
}

impl View for ApiError {
    type V = ApiErrorModel;

    open spec fn view(&self) -> ApiErrorModel {
        ApiErrorModel {
            status: self.status,
            message: self.message@,
        }
    }
}

impl Duplicate for ApiError {
    fn duplicate(&self) -> (r: ApiError) {
        ApiError {
            status: self.status,
            message: self.message.clone(),
        }
    }
}

impl Clone for ApiError {
    fn clone(&self) -> (r: ApiError)
        ensures
            r@ == self@,
    {
        self.duplicate()
    }
}

/// What a request for a new run holds.
#[derive(Debug, PartialEq)]
pub struct CreateRun {
    pub title: String,
    pub request: Option<String>,
    /// Without a plan, the whole request is one task.
    pub plan: Option<Plan>,
    pub base_ref: Option<String>,
    pub max_cost_usd: Option<Usd>,
}

/// What a value of type `CreateRun` stands for.
#[verifier::ext_equal]
pub struct CreateRunModel {
    pub title: Seq<char>,
    pub request: Option<Seq<char>>,
    pub plan: Option<PlanModel>,
    pub base_ref: Option<Seq<char>>,
    pub max_cost_usd: Option<Usd>,
}

impl View for CreateRun {
    type V = CreateRunModel;

    open spec fn view(&self) -> CreateRunModel {
        CreateRunModel {
            title: self.title@,
            request: seen(self.request),
            plan: seen(self.plan),
            base_ref: seen(self.base_ref),
            max_cost_usd: self.max_cost_usd,
        }
    }
}

impl Duplicate for CreateRun {
    fn duplicate(&self) -> (r: CreateRun) {
        CreateRun {
            title: self.title.clone(),
            request: duplicate_opt(&self.request),
            plan: duplicate_opt(&self.plan),
            base_ref: duplicate_opt(&self.base_ref),
            max_cost_usd: self.max_cost_usd,
        }
    }
}

impl Clone for CreateRun {
    fn clone(&self) -> (r: CreateRun)
        ensures
            r@ == self@,
    {
        self.duplicate()
    }
}

/// The answer to a request for a new run.
#[derive(Debug, Clone, Copy, PartialEq, Eq, Structural)]
pub struct Created {
    pub run_id: RunId,
}

/// A pending approval with the run it belongs to.
#[derive(Debug, PartialEq)]
pub struct PendingApproval {
    pub run_id: RunId,
    pub run_title: String,
    pub approval: ApprovalState,
}

/// What a value of type `PendingApproval` stands for.
#[verifier::ext_equal]
pub struct PendingApprovalModel {
    pub run_id: RunId,
    pub run_title: Seq<char>,
    pub approval: ApprovalStateModel,
}

impl View for PendingApproval {
    type V = PendingApprovalModel;

    open spec fn view(&self) -> PendingApprovalModel {
        PendingApprovalModel {
            run_id: self.run_id,
            run_title: self.run_title@,
            approval: self.approval@,
        }
    }
}

impl Duplicate for PendingApproval {
    fn duplicate(&self) -> (r: PendingApproval) {
        PendingApproval {
            run_id: self.run_id,
            run_title: self.run_title.clone(),
            approval: self.approval.duplicate(),
        }
    }
}

impl Clone for PendingApproval {
    fn clone(&self) -> (r: PendingApproval)
        ensures
            r@ == self@,
    {
        self.duplicate()
    }
}

/// What a request that resolves an approval holds.
#[derive(Debug, PartialEq)]
pub struct Resolve {
    pub decision: Decision,
    pub comment: Option<String>,
    pub by: Option<String>,
}

/// What a value of type `Resolve` stands for.
#[verifier::ext_equal]
pub struct ResolveModel {
    pub decision: Decision,
    pub comment: Option<Seq<char>>,
    pub by: Option<Seq<char>>,
}

impl View for Resolve {
    type V = ResolveModel;

    open spec fn view(&self) -> ResolveModel {
        ResolveModel {
            decision: self.decision,
            comment: seen(self.comment),
            by: seen(self.by),
        }
    }
}

impl Duplicate for Resolve {
    fn duplicate(&self) -> (r: Resolve) {
        Resolve {
            decision: self.decision,
            comment: duplicate_opt(&self.comment),
            by: duplicate_opt(&self.by),
        }
    }
}

impl Clone for Resolve {
    fn clone(&self) -> (r: Resolve)
        ensures
            r@ == self@,
    {
        self.duplicate()
    }
}

fn api_error(status: u16, message: &str) -> (r: ApiError)
    ensures
        r@ == (ApiErrorModel { status, message: message@ }),
{
    ApiError { status, message: message.to_owned() }
}

impl ApiError {
    /// An error of the log: what the log rejects is a conflict.
    pub fn from_store(e: StoreError) -> (r: ApiError)
        ensures
            r@ == (match e {
                StoreError::Rejected(a) => ApiErrorModel {
                    status: CONFLICT,
                    message: a@.message(),
                },
                _ => ApiErrorModel {
                    status: INTERNAL_SERVER_ERROR,
                    message: e.message_spec(),
                },
            }),
            e is Rejected <==> 400 <= r@.status < 500,
            !(e is Rejected) <==> 500 <= r@.status < 600,
    {
        match e {
            StoreError::Rejected(a) => ApiError { status: CONFLICT, message: a.message() },
            other => ApiError { status: INTERNAL_SERVER_ERROR, message: other.message() },
        }
    }

    /// An error of the engine, with the status that fits it.
    pub fn from_engine(e: EngineError) -> (r: ApiError)
        ensures
            r@ == (ApiErrorModel {
                status: match e {
                    EngineError::Plan(_) => BAD_REQUEST,
                    EngineError::UnknownRuntime(..) => BAD_REQUEST,
                    EngineError::Git(_) => BAD_REQUEST,
                    EngineError::UnknownRun(_) => NOT_FOUND,
                    EngineError::Store(StoreError::Rejected(_)) => CONFLICT,
                    EngineError::Store(_) => INTERNAL_SERVER_ERROR,
                },
                message: e.message_spec(),
            }),
            400 <= r@.status < 600,
            r@.status >= 500 <==> e is Store && !(e->Store_0 is Rejected),
            r@.status == 404 <==> e is UnknownRun,
    {
        let status: u16 = match &e {
            EngineError::Plan(_) => BAD_REQUEST,
            EngineError::UnknownRuntime(_, _) => BAD_REQUEST,
            EngineError::Git(_) => BAD_REQUEST,
            EngineError::UnknownRun(_) => NOT_FOUND,
            EngineError::Store(StoreError::Rejected(_)) => CONFLICT,
            EngineError::Store(_) => INTERNAL_SERVER_ERROR,
        };
        ApiError { status, message: e.message() }
    }
}

/// Compares two secrets, looking at every byte whatever they hold.
pub fn constant_time_eq(a: &[u8], b: &[u8]) -> (r: bool)
    ensures
        r == (a@ == b@),
{
    if a.len() != b.len() {
        return false;
    }
    let mut acc: u8 = 0;
    let mut i: usize = 0;
    while i < a.len()
        invariant
            i <= a@.len(),
            a@.len() == b@.len(),
            acc == 0 <==> (forall|k: int| 0 <= k < i ==> #[trigger] a@[k] == b@[k]),
        decreases a@.len() - i,
    {
        let x: u8 = a[i];
        let y: u8 = b[i];
        let next: u8 = acc | (x ^ y);
        proof {
            assert(next == 0 <==> (acc == 0 && x == y)) by (bit_vector)
                requires
                    next == acc | (x ^ y),
            ;
            assert(forall|k: int|
                0 <= k < i + 1 ==> (k < i || k == i) && #[trigger] a@[k] == a@[k]);
        }
        acc = next;
        i += 1;
    }
    proof {
        if acc == 0 {
            assert(a@ =~= b@);
        }
    }
    acc == 0
}

/// The first part that gives a token.
pub open spec fn token_in(parts: Seq<Seq<char>>) -> Option<Seq<char>>
    decreases parts.len(),
{
    if parts.len() == 0 {
        None
    } else if begins(parts[0], "token="@) {
        Some(parts[0].skip("token="@.len() as int))
    } else {
        token_in(parts.drop_first())
    }
}

/// The token that a request presents: that of the `Authorization` header, else
/// that of the query, else none.
pub open spec fn presented(header: Option<Seq<char>>, query: Option<Seq<char>>) -> Seq<char> {
    let from_query = match query {
        Some(q) => match token_in(pieces(q, |c: char| c == '&')) {
            Some(token) => token,
            None => Seq::empty(),
        },
        None => Seq::empty(),
    };
    match header {
        Some(h) => if begins(h, "Bearer "@) {
            h.skip("Bearer "@.len() as int)
        } else {
            from_query
        },
        None => from_query,
    }
}

fn is_and(c: char) -> (b: bool)
    ensures
        b == (c == '&'),
{
    c == '&'
}

fn query_token(query: &str) -> (r: Option<String>)
    ensures
        seen(r) == token_in(pieces(query@, |c: char| c == '&')),
{
    let ghost sep = |c: char| c == '&';
    let parts = split_pieces(query, is_and, Ghost(sep));
    let ghost all = texts(parts@);
    let mut i: usize = 0;
    assert(all.skip(0) =~= all);
    while i < parts.len()
        invariant
            i <= parts.len(),
            all == texts(parts@),
            all == pieces(query@, |c: char| c == '&'),
            token_in(all) == token_in(all.skip(i as int)),
        decreases parts.len() - i,
    {
        proof {
            assert(all.skip(i as int)[0] == parts@[i as int]@);
            assert(all.skip(i as int).drop_first() =~= all.skip(i + 1));
        }
        if let Some(token) = drop_prefix(parts[i].as_str(), "token=") {
            return Some(token);
        }
        i += 1;
    }
    assert(all.skip(i as int).len() == 0);
    None
}

/// The token that a request presents, or nothing.
pub fn presented_token(header: Option<&str>, query: Option<&str>) -> (r: String)
    ensures
        r@ == presented(crate::config::seen_str(header), crate::config::seen_str(query)),
{
    if let Some(h) = header {
        if let Some(token) = drop_prefix(h, "Bearer ") {
            return token;
        }
    }
    if let Some(q) = query {
        if let Some(token) = query_token(q) {
            return token;
        }
    }
    let r = String::new();
    assert(r@ =~= Seq::<char>::empty());
    r
}

/// The text before the last `c`, if it holds one.
pub open spec fn before_last(s: Seq<char>, c: char) -> Option<Seq<char>>
    decreases s.len(),
{
    if s.len() == 0 {
        None
    } else if s.last() == c {
        Some(s.drop_last())
    } else {
        before_last(s.drop_last(), c)
    }
}

/// The name in a `Host` header, without the port: what stands in the brackets of
/// an IPv6 literal, else what stands before the last colon.
pub open spec fn name_of_host(host: Seq<char>) -> Seq<char> {
    if begins(host, "["@) {
        let rest = host.skip(1);
        rest.take(find_first(rest, |c: char| c == ']'))
    } else {
        match before_last(host, ':') {
            Some(name) => name,
            None => host,
        }
    }
}

fn is_bracket(c: char) -> (b: bool)
    ensures
        b == (c == ']'),
{
    c == ']'
}

/// The name in a `Host` header, without the port.
pub fn host_name(host: &str) -> (r: String)
    ensures
        r@ == name_of_host(host@),
{
    let v = chars_of(host);
    proof {
        reveal_strlit("[");
    }
    if starts_with(host, "[") {
        let ghost p = |c: char| c == ']';
        let end = crate::text::find_char(&v, 1, v.len(), is_bracket, Ghost(p));
        proof {
            let rest = v@.skip(1);
            assert(v@.subrange(1, v@.len() as int) =~= rest);
            assert(v@.subrange(1, end as int) =~= rest.take(end - 1));
        }
        return text_of(&v, 1, end);
    }
    let mut i: usize = v.len();
    assert(v@.take(i as int) =~= v@);
    while i > 0
        invariant
            i <= v@.len(),
            v@ == host@,
            !begins(host@, "["@),
            before_last(host@, ':') == before_last(v@.take(i as int), ':'),
        decreases i,
    {
        proof {
            assert(v@.take(i as int).last() == v@[i - 1]);
            assert(v@.take(i as int).drop_last() =~= v@.take(i - 1));
        }
        i -= 1;
        if v[i] == ':' {
            assert(v@.subrange(0, i as int) =~= v@.take(i as int));
            return text_of(&v, 0, i);
        }
    }
    host.to_owned()
}

/// The letter in lower case, where it is an ASCII letter.
pub open spec fn lower(c: char) -> char {
    if 'A' <= c <= 'Z' {
        ((c as int) + 32) as char
    } else {
        c
    }
}

/// The texts are the same but for the case of ASCII letters.
pub open spec fn same_but_case(a: Seq<char>, b: Seq<char>) -> bool {
    a.len() == b.len() && forall|i: int|
        0 <= i < a.len() ==> lower(#[trigger] a[i]) == lower(b[i])
}

fn lower_number(c: char) -> (n: u32)
    ensures
        n == lower(c) as u32,
{
    let n: u32 = c as u32;
    if 'A' <= c && c <= 'Z' {
        n + 32
    } else {
        n
    }
}

/// Whether two texts are the same but for the case of ASCII letters.
pub fn eq_ignore_case(a: &str, b: &str) -> (r: bool)
    ensures
        r == same_but_case(a@, b@),
{
    let x = chars_of(a);
    let y = chars_of(b);
    if x.len() != y.len() {
        return false;
    }
    let mut i: usize = 0;
    while i < x.len()
        invariant
            i <= x@.len(),
            x@ == a@,
            y@ == b@,
            x@.len() == y@.len(),
            forall|k: int| 0 <= k < i ==> lower(#[trigger] a@[k]) == lower(b@[k]),
        decreases x@.len() - i,
    {
        if lower_number(x[i]) != lower_number(y[i]) {
            assert(lower(a@[i as int]) != lower(b@[i as int]));
            return false;
        }
        assert(lower(a@[i as int]) == lower(b@[i as int])) by {
            assert(lower(a@[i as int]) as u32 == lower(b@[i as int]) as u32);
        }
        i += 1;
    }
    true
}

/// Whether a `Host` header names this machine. `loopback` tells whether the name
/// in it is a loopback address.
pub fn is_local_host(host: Option<&str>, loopback: bool) -> (r: bool)
    ensures
        r == (match host {
            Some(h) => same_but_case(name_of_host(h@), "localhost"@) || loopback,
            None => false,
        }),
{
    match host {
        Some(h) => eq_ignore_case(host_name(h).as_str(), "localhost") || loopback,
        None => false,
    }
}

/// Who may call the API: with a token, whoever presents it; without one, only
/// callers that address this machine.
pub open spec fn admitted(
    token: Option<Seq<char>>,
    local: bool,
    header: Option<Seq<char>>,
    query: Option<Seq<char>>,
) -> bool {
    match token {
        Some(expected) => presented(header, query) == expected,
        None => local,
    }
}

/// Whether a request may go on.
pub fn require_token(
    token: Option<&str>,
    local: bool,
    header: Option<&str>,
    query: Option<&str>,
) -> (r: Result<(), ApiError>)
    ensures
        r is Ok <==> admitted(
            crate::config::seen_str(token),
            local,
            crate::config::seen_str(header),
            crate::config::seen_str(query),
        ),
        r matches Err(e) ==> e@ == if token is Some {
            ApiErrorModel { status: UNAUTHORIZED, message: "missing or invalid token"@ }
        } else {
            ApiErrorModel {
                status: FORBIDDEN,
                message: "requests must address localhost (or run the server with --token)"@,
            }
        },
{
    match token {
        None => {
            if local {
                Ok(())
            } else {
                Err(
                    api_error(
                        FORBIDDEN,
                        "requests must address localhost (or run the server with --token)",
                    ),
                )
            }
        },
        Some(expected) => {
            let given = presented_token(header, query);
            proof {
                encode_utf8_decode_utf8(given@);
                encode_utf8_decode_utf8(expected@);
            }
            if constant_time_eq(given.as_str().as_bytes(), expected.as_bytes()) {
                Ok(())
            } else {
                Err(api_error(UNAUTHORIZED, "missing or invalid token"))
            }
        },
    }
}

/// A token protects every request: with one, no request goes on that does not
/// present it, wherever it comes from.
pub proof fn tokens_protect_everything(
    token: Seq<char>,
    local: bool,
    header: Option<Seq<char>>,
    query: Option<Seq<char>>,
)
    requires
        presented(header, query) != token,
    ensures
        !admitted(Some(token), local, header, query),
{
}

/// What is said of a text that is no id of this kind.
pub open spec fn bad_id(kind: Seq<char>, input: Seq<char>) -> Seq<char> {
    "invalid "@ + kind + " id `"@ + input + "`"@
}

/// The run that a request names.
pub fn parse_run_id(raw: &str) -> (r: Result<RunId, ApiError>)
    ensures
        match r {
            Ok(id) => crate::ids::id_number(RunId::prefix(), raw@) == Some(id.uuid as int),
            Err(e) => crate::ids::id_number(RunId::prefix(), raw@) is None && e@ == (
            ApiErrorModel {
                status: BAD_REQUEST,
                message: bad_id(RunId::prefix(), raw@),
            }),
        },
{
    match RunId::parse(raw) {
        Ok(id) => Ok(id),
        Err(e) => Err(ApiError { status: BAD_REQUEST, message: e.message() }),
    }
}

/// The approval that a request names.
pub fn parse_approval_id(raw: &str) -> (r: Result<ApprovalId, ApiError>)
    ensures
        match r {
            Ok(id) => crate::ids::id_number(ApprovalId::prefix(), raw@) == Some(id.uuid as int),
            Err(e) => crate::ids::id_number(ApprovalId::prefix(), raw@) is None && e@ == (
            ApiErrorModel {
                status: BAD_REQUEST,
                message: bad_id(ApprovalId::prefix(), raw@),
            }),
        },
{
    match ApprovalId::parse(raw) {
        Ok(id) => Ok(id),
        Err(e) => Err(ApiError { status: BAD_REQUEST, message: e.message() }),
    }
}

/// There is no such run.
pub fn run_not_found(run_id: RunId) -> (r: ApiError)
    ensures
        r@ == (ApiErrorModel {
            status: NOT_FOUND,
            message: "run "@ + RunId::label(run_id) + " not found"@,
        }),
{
    let mut message = "run ".to_owned();
    message.append(run_id.to_text().as_str());
    message.append(" not found");
    ApiError { status: NOT_FOUND, message }
}

/// There is no such approval.
pub fn approval_not_found(id: ApprovalId) -> (r: ApiError)
    ensures
        r@ == (ApiErrorModel {
            status: NOT_FOUND,
            message: "approval "@ + ApprovalId::label(id) + " not found"@,
        }),
{
    let mut message = "approval ".to_owned();
    message.append(id.to_text().as_str());
    message.append(" not found");
    ApiError { status: NOT_FOUND, message }
}

/// Whether a run can be continued: one that has finished cannot.
pub fn check_resume(run: &RunState) -> (r: Result<(), ApiError>)
    ensures
        r is Ok <==> !run@.status.terminal(),
        r matches Err(e) ==> e@ == (ApiErrorModel {
            status: CONFLICT,
            message: "run "@ + RunId::label(run@.id) + " already finished"@,
        }),
{
    if run.status.is_terminal() {
        let mut message = "run ".to_owned();
        message.append(run.id.to_text().as_str());
        message.append(" already finished");
        Err(ApiError { status: CONFLICT, message })
    } else {
        Ok(())
    }
}

impl CreateRunModel {
    /// The request of the new run: the title where none is given.
    pub open spec fn request_text(self) -> Seq<char> {
        match self.request {
            Some(text) => text,
            None => self.title,
        }
    }

    /// The run that is asked for.
    pub open spec fn new_run(self) -> NewRunModel {
        NewRunModel {
            title: self.title,
            request: self.request_text(),
            source: WorkSourceModel::Manual,
            base_ref: self.base_ref,
            plan: match self.plan {
                Some(plan) => plan,
                None => single_plan(self.title, self.request_text()),
            },
            max_cost_usd: self.max_cost_usd,
            max_tokens: None,
        }
    }
}

impl CreateRun {
    /// The run that is asked for. It needs a title.
    pub fn into_new_run(self) -> (r: Result<NewRun, ApiError>)
        ensures
            match r {
                Ok(new) => trimmed(self@.title).len() > 0 && new@ == self@.new_run(),
                Err(e) => trimmed(self@.title).len() == 0 && e@ == (ApiErrorModel {
                    status: BAD_REQUEST,
                    message: "title is required"@,
                }),
            },
    {
        let title = trim(self.title.as_str());
        proof {
            reveal_strlit("");
        }
        if title.as_str().is_empty() {
            return Err(api_error(BAD_REQUEST, "title is required"));
        }
        let request = match self.request {
            Some(text) => text,
            None => self.title.clone(),
        };
        let plan = match self.plan {
            Some(plan) => plan,
            None => Plan::single(self.title.as_str(), request.as_str()),
        };
        Ok(
            NewRun {
                title: self.title,
                request,
                source: WorkSource::Manual,
                base_ref: self.base_ref,
                plan,
                max_cost_usd: self.max_cost_usd,
                max_tokens: None,
            },
        )
    }
}

/// How many events a page holds where no number is asked for.
pub fn default_limit() -> (n: u32)
    ensures
        n == 500,
{
    500
}

/// How many events a page holds: at least one, at most five thousand.
pub fn page_limit(limit: u32) -> (n: u32)
    ensures
        n == if limit < 1 {
            1
        } else if limit > 5000 {
            5000
        } else {
            limit
        },
        1 <= n <= 5000,
        1 <= limit <= 5000 ==> n == limit,
{
    if limit < 1 {
        1
    } else if limit > 5000 {
        5000
    } else {
        limit
    }
}

/// The approvals of a run that wait for a human, with the run.
pub open spec fn pending_spec(run: RunStateModel) -> Seq<PendingApprovalModel> {
    run.pending().map_values(
        |a: ApprovalStateModel|
            PendingApprovalModel { run_id: run.id, run_title: run.spec.title, approval: a },
    )
}

/// The approvals of a run that wait for a human, with the run.
pub fn pending_of(run: &RunState) -> (r: Vec<PendingApproval>)
    requires
        run.wf(),
    ensures
        views(r@) == pending_spec(run@),
{
    let ghost all = pending_spec(run@);
    let pending = run.pending_approvals();
    let mut r: Vec<PendingApproval> = Vec::new();
    let mut i: usize = 0;
    assert(views(r@) =~= all.take(0));
    assert(views(pending@).len() == pending@.len());
    while i < pending.len()
        invariant
            i <= pending.len(),
            views(pending@) == run@.pending(),
            pending@.len() == all.len(),
            all == pending_spec(run@),
            views(r@) == all.take(i as int),
        decreases pending.len() - i,
    {
        let item = PendingApproval {
            run_id: run.id,
            run_title: run.spec.title.clone(),
            approval: pending[i].duplicate(),
        };
        proof {
            assert(views(pending@)[i as int] == pending@[i as int]@);
            assert(item@ == all[i as int]);
            views_push(r@, item);
            assert(all.take(i + 1) =~= all.take(i as int).push(item@));
        }
        r.push(item);
        i += 1;
    }
    assert(all.take(i as int) =~= all);
    r
}

/// Whether an approval belongs to a run.
pub fn owns_approval(run: &RunState, id: ApprovalId) -> (b: bool)
    requires
        run.wf(),
    ensures
        b == run@.approvals.dom().contains(id),
{
    proof {
        crate::state::seen_map_dom(run.approvals@);
    }
    run.approvals.contains_key(&id)
}

impl Resolve {
    /// Who resolves the approval: the API where nobody is named.
    pub fn resolver(&self) -> (r: String)
        ensures
            r@ == match self@.by {
                Some(name) => name,
                None => "api"@,
            },
    {
        match &self.by {
            Some(name) => name.clone(),
            None => "api".to_owned(),
        }
    }
}

/// The number after which a stream starts: the last one that the client saw,
/// else the one that it asks for, else all.
pub open spec fn stream_start_spec(last_event_id: Option<Seq<char>>, after: Option<u64>) -> int {
    match last_event_id {
        Some(text) if u64_in(text) is Some => u64_in(text)->0,
        _ => match after {
            Some(n) => n as int,
            None => 0,
        },
    }
}

/// The number after which a stream starts.
pub fn stream_start(last_event_id: Option<&str>, after: Option<u64>) -> (n: u64)
    ensures
        n == stream_start_spec(crate::config::seen_str(last_event_id), after),
{
    if let Some(text) = last_event_id {
        if let Some(n) = parse_u64(text) {
            return n;
        }
    }
    match after {
        Some(n) => n,
        None => 0,
    }
}

/// Where a stream stands.
#[derive(Debug, Clone, Copy, PartialEq, Eq, Structural)]
pub struct Cursor {
    /// Everything up to this number has been dealt with.
    pub after: u64,
    /// The run that is asked for, or all.
    pub run: Option<RunId>,
    /// Events may be missing: the log has to be read.
    pub behind: bool,
}

impl Cursor {
    /// The stream wants the event.
    pub open spec fn wants(run: Option<RunId>, e: EventModel) -> bool {
        run is None || run == Some(e.run_id)
    }

    pub fn new(after: u64, run: Option<RunId>) -> (r: Cursor)
        ensures
            r == (Cursor { after, run, behind: true }),
    {
        Cursor { after, run, behind: true }
    }

    fn asks_for(&self, event: &Event) -> (b: bool)
        ensures
            b == Cursor::wants(self.run, event@),
    {
        match self.run {
            None => true,
            Some(id) => id == event.run_id,
        }
    }

    /// Takes what the log holds next, and gives what is to be sent of it. With
    /// nothing more in the log, the stream has caught up.
    pub fn take_batch(&mut self, batch: Vec<Event>) -> (r: Vec<Event>)
        ensures
            views(r@) == views(batch@).filter(|e: EventModel| Cursor::wants(old(self).run, e)),
            *final(self) == (Cursor {
                after: if batch@.len() == 0 {
                    old(self).after
                } else {
                    views(batch@).last().seq
                },
                run: old(self).run,
                behind: batch@.len() > 0,
            }),
    {
        let ghost all = views(batch@);
        let ghost run = self.run;
        let ghost p = |e: EventModel| Cursor::wants(run, e);
        let mut r: Vec<Event> = Vec::new();
        let mut i: usize = 0;
        proof {
            filter_none(all, p);
            assert(views(r@) =~= all.take(0).filter(p));
        }
        while i < batch.len()
            invariant
                i <= batch.len(),
                all == views(batch@),
                run == self.run,
                *self == (Cursor {
                    after: if i == 0 {
                        old(self).after
                    } else {
                        all[i - 1].seq
                    },
                    run: old(self).run,
                    behind: old(self).behind,
                }),
                p == |e: EventModel| Cursor::wants(run, e),
                views(r@) == all.take(i as int).filter(p),
            decreases batch.len() - i,
        {
            proof {
                assert(all[i as int] == batch@[i as int]@);
                filter_step(all, p, i as int);
            }
            self.after = batch[i].seq;
            if self.asks_for(&batch[i]) {
                let event = batch[i].duplicate();
                proof {
                    views_push(r@, event);
                }
                r.push(event);
            }
            i += 1;
        }
        assert(all.take(i as int) =~= all);
        self.behind = batch.len() > 0;
        r
    }

    /// Takes an event that was just recorded, and gives it back where it is to
    /// be sent. After a gap the log has to be read.
    pub fn take_live(&mut self, event: Event) -> (r: Option<Event>)
        ensures
            seen(r) == if event@.seq == old(self).after + 1 && Cursor::wants(
                old(self).run,
                event@,
            ) {
                Some(event@)
            } else {
                None
            },
            *final(self) == (Cursor {
                after: if event@.seq == old(self).after + 1 {
                    event@.seq
                } else {
                    old(self).after
                },
                run: old(self).run,
                behind: old(self).behind || event@.seq > old(self).after + 1,
            }),
    {
        if event.seq <= self.after {
            return None;
        }
        if event.seq - self.after == 1 {
            self.after = event.seq;
            if self.asks_for(&event) {
                Some(event)
            } else {
                None
            }
        } else {
            self.behind = true;
            None
        }
    }

    /// Events may have been missed: the log has to be read.
    pub fn fall_behind(&mut self)
        ensures
            *final(self) == (Cursor { behind: true, ..*old(self) }),
    {
        self.behind = true;
    }
}

/// What a stream that started after `start` has sent by the time it stands at
/// `after`: every event in between that it wants, in order.
pub open spec fn sent(
    log: Seq<EventModel>,
    run: Option<RunId>,
    start: int,
    after: int,
) -> Seq<EventModel> {
    log.subrange(start, after).filter(|e: EventModel| Cursor::wants(run, e))
}

/// A client that falls behind is caught up from the log, never silently dropped:
/// what a batch from the log adds is exactly what comes next of what is wanted.
pub proof fn batches_miss_nothing(
    m: crate::store::EventStoreModel,
    run: Option<RunId>,
    start: int,
    after: int,
    limit: int,
)
    requires
        m.wf(),
        0 <= start <= after <= m.events.len(),
        limit >= 0,
    ensures
        ({
            let batch = crate::schedule::at_most(
                m.events.filter(|e: EventModel| e.seq > after),
                limit,
            );
            let now = if batch.len() == 0 {
                after
            } else {
                batch.last().seq as int
            };
            &&& now == after + batch.len()
            &&& sent(m.events, run, start, now) == sent(m.events, run, start, after)
                + batch.filter(|e: EventModel| Cursor::wants(run, e))
        }),
{
    crate::store::resuming_misses_nothing(m, after);
    let rest = m.events.skip(after);
    let batch = crate::schedule::at_most(m.events.filter(|e: EventModel| e.seq > after), limit);
    let now = after + batch.len();
    assert(batch =~= m.events.subrange(after, now));
    let p = |e: EventModel| Cursor::wants(run, e);
    assert(m.events.subrange(start, now) =~= m.events.subrange(start, after) + batch);
    Seq::filter_distributes_over_add(m.events.subrange(start, after), batch, p);
    if batch.len() > 0 {
        assert(batch.last() == m.events[now - 1]);
    }
}

/// A live event is sent exactly when it is next: the stream neither skips nor
/// repeats one.
pub proof fn live_events_come_once(
    m: crate::store::EventStoreModel,
    run: Option<RunId>,
    start: int,
    after: int,
    event: EventModel,
)
    requires
        m.wf(),
        0 <= start <= after < m.events.len(),
        event == m.events[after],
    ensures
        event.seq == after + 1,
        sent(m.events, run, start, after + 1) == sent(m.events, run, start, after)
            + if Cursor::wants(run, event) {
            seq![event]
        } else {
            Seq::empty()
        },
{
    let p = |e: EventModel| Cursor::wants(run, e);
    let one = seq![event];
    assert(m.events.subrange(start, after + 1) =~= m.events.subrange(start, after) + one);
    Seq::filter_distributes_over_add(m.events.subrange(start, after), one, p);
    filter_none(one, p);
    filter_step(one, p, 0);
    assert(one.take(1) =~= one);
    assert(one.take(0) =~= Seq::<EventModel>::empty());
    assert(one.filter(p) =~= if p(event) {
        seq![event]
    } else {
        Seq::empty()
    });
}

/// A bearer token is read from the header, whatever the address says; without one, the
/// token in the address counts, wherever it stands among other parameters.
pub proof fn tokens_are_read(
    token: Seq<char>,
    before: Seq<char>,
    after: Seq<char>,
    query: Option<Seq<char>>,
)
    requires
        forall|i: int| 0 <= i < token.len() ==> #[trigger] token[i] != '&',
        forall|i: int| 0 <= i < before.len() ==> #[trigger] before[i] != '&',
        !begins(before, "token="@),
    ensures
        presented(Some("Bearer "@ + token), query) == token,
        presented(None, Some("token="@ + token)) == token,
        presented(None, Some(before + "&token="@ + token)) == token,
        presented(None, Some("token="@ + token + "&"@ + after)) == token,
        presented(None, None).len() == 0,
{
    reveal_strlit("Bearer ");
    reveal_strlit("token=");
    reveal_strlit("&token=");
    reveal_strlit("&");
    reveal_with_fuel(token_in, 3);
    let and = |c: char| c == '&';
    let h = "Bearer "@ + token;
    assert(h.take(7) =~= "Bearer "@);
    assert(h.skip(7) =~= token);
    let one = "token="@ + token;
    assert forall|i: int| 0 <= i < one.len() implies !and(#[trigger] one[i]) by {
        if i >= 6 {
            assert(one[i] == token[i - 6]);
        }
    }
    assert(one.take(6) =~= "token="@);
    assert(one.skip(6) =~= token);
    crate::text::whole_texts_are_one_piece(one, and);
    assert(pieces(one, and)[0] == one);
    let second = before + "&token="@ + token;
    assert(second =~= before.push('&') + one);
    crate::text::whole_texts_are_one_piece(before, and);
    crate::text::pieces_part_at_separators(before, '&', one, and);
    assert(pieces(second, and) =~= seq![before, one]);
    assert(pieces(second, and).drop_first() =~= seq![one]);
    let third = "token="@ + token + "&"@ + after;
    assert(third =~= one.push('&') + after);
    crate::text::pieces_part_at_separators(one, '&', after, and);
    assert(pieces(third, and)[0] == one);
}

/// Who may call: with a token, whoever presents exactly that, from anywhere, and nobody
/// else, not even from here; without one, whoever addresses this machine.
pub proof fn callers_are_told_apart(
    token: Seq<char>,
    local: bool,
    header: Option<Seq<char>>,
    query: Option<Seq<char>>,
)
    ensures
        admitted(Some(token), local, header, query) <==> presented(header, query) == token,
        admitted(None, local, header, query) <==> local,
        token.len() > 0 ==> !admitted(Some(token), true, None, None),
{
}

proof fn before_last_finds(a: Seq<char>, c: char, b: Seq<char>)
    requires
        forall|i: int| 0 <= i < b.len() ==> #[trigger] b[i] != c,
    ensures
        before_last(a.push(c) + b, c) == Some(a),
    decreases b.len(),
{
    let s = a.push(c) + b;
    if b.len() == 0 {
        assert(s.drop_last() =~= a);
    } else {
        before_last_finds(a, c, b.drop_last());
        assert(s.drop_last() =~= a.push(c) + b.drop_last());
        assert(s.last() == b.last());
    }
}

proof fn no_last_without(s: Seq<char>, c: char)
    requires
        forall|i: int| 0 <= i < s.len() ==> #[trigger] s[i] != c,
    ensures
        before_last(s, c) is None,
    decreases s.len(),
{
    if s.len() > 0 {
        no_last_without(s.drop_last(), c);
    }
}

/// The name of a host is what stands before its port; that of a bracketed address what
/// stands in the brackets.
pub proof fn hosts_have_names(name: Seq<char>, port: Seq<char>, rest: Seq<char>)
    requires
        forall|i: int| 0 <= i < port.len() ==> #[trigger] port[i] != ':',
        forall|i: int| 0 <= i < name.len() ==> #[trigger] name[i] != ']',
        name.len() > 0,
        name[0] != '[',
    ensures
        name_of_host(name + ":"@ + port) == name,
        (forall|i: int| 0 <= i < name.len() ==> #[trigger] name[i] != ':') ==> name_of_host(name)
            == name,
        name_of_host("["@ + name + "]"@ + rest) == name,
{
    reveal_strlit(":");
    reveal_strlit("[");
    reveal_strlit("]");
    let a = name + ":"@ + port;
    assert(a =~= name.push(':') + port);
    before_last_finds(name, ':', port);
    assert(a.take(1)[0] == name[0]);
    assert("["@[0] == '[');
    assert(name.take(1)[0] == name[0]);
    if forall|i: int| 0 <= i < name.len() ==> #[trigger] name[i] != ':' {
        no_last_without(name, ':');
    }
    let b = "["@ + name + "]"@ + rest;
    assert(b.take(1) =~= "["@);
    let inner = b.skip(1);
    let p = |c: char| c == ']';
    assert(inner =~= name + "]"@ + rest);
    found_at(inner, p, name.len() as int);
    assert(inner.take(name.len() as int) =~= name);
}

proof fn found_at(s: Seq<char>, p: spec_fn(char) -> bool, n: int)
    requires
        0 <= n < s.len(),
        p(s[n]),
        forall|i: int| 0 <= i < n ==> !p(#[trigger] s[i]),
    ensures
        find_first(s, p) == n,
    decreases n,
{
    if n > 0 {
        assert(!p(s[0]));
        let rest = s.drop_first();
        assert forall|i: int| 0 <= i < n - 1 implies !p(#[trigger] rest[i]) by {
            assert(rest[i] == s[i + 1]);
        }
        found_at(rest, p, n - 1);
    }
}

/// Case does not matter in the name of a host, and nothing else is overlooked.
pub proof fn only_case_is_overlooked(a: Seq<char>, b: Seq<char>, i: int)
    requires
        same_but_case(a, b),
        0 <= i < a.len(),
    ensures
        a.len() == b.len(),
        a[i] == b[i] || ('a' <= a[i] <= 'z' && b[i] as int + 32 == a[i] as int) || ('a' <= b[i] <= 'z'
            && a[i] as int + 32 == b[i] as int),
        same_but_case(b, a),
        same_but_case(a, a),
{
    assert(lower(a[i]) == lower(b[i]));
    assert forall|k: int| 0 <= k < b.len() implies lower(#[trigger] b[k]) == lower(a[k]) by {
        assert(lower(a[k]) == lower(b[k]));
    }
}

/// A stream goes on after the event that a client saw last, where it says which; else
/// after the one it asks for; else from the start.
pub proof fn streams_go_on(n: u64, after: Option<u64>)
    ensures
        stream_start_spec(Some(crate::text::decimal(n as int)), after) == n,
        stream_start_spec(None, after) == match after {
            Some(k) => k as int,
            None => 0,
        },
{
    crate::text::decimals_read_back(n as int);
    reveal_strlit("+");
    let d = crate::text::decimal(n as int);
    assert(crate::text::is_digit(d[0]));
    assert(!begins(d, "+"@)) by {
        assert(d.take(1)[0] == d[0]);
        assert("+"@[0] == '+');
    }
}

/// A run that is asked for is what the request says: its own plan where it has one, one
/// task with the whole request where it has none; the title stands for a request that is
/// missing; its limit is kept.
pub proof fn requests_become_runs(c: CreateRunModel)
    ensures
        ({
            let n = c.new_run();
            &&& n.title == c.title
            &&& c.request matches Some(text) ==> n.request == text
            &&& c.request is None ==> n.request == c.title
            &&& c.plan matches Some(plan) ==> n.plan == plan
            &&& c.plan is None ==> n.plan.tasks.len() == 1 && n.plan.tasks[0].description
                == n.request
            &&& n.base_ref == c.base_ref
            &&& n.max_cost_usd == c.max_cost_usd
        }),
{
}

/// Every approval that waits is listed once, with its run.
pub proof fn waiting_approvals_are_listed(run: RunStateModel, i: int)
    requires
        0 <= i < run.pending().len(),
    ensures
        pending_spec(run).len() == run.pending().len(),
        pending_spec(run)[i].approval == run.pending()[i],
        pending_spec(run)[i].run_id == run.id,
        pending_spec(run)[i].run_title == run.spec.title,
{
}

/// A stream of one run sends the events of that run, and a stream of all sends all.
pub proof fn streams_send_what_is_wanted(run: RunId, e: EventModel)
    ensures
        Cursor::wants(None, e),
        Cursor::wants(Some(run), e) <==> e.run_id == run,
{
}

/// Statuses from 400 up blame the request, those from 500 up the server, and each refusal
/// has its own.
pub proof fn statuses_say_who_is_to_blame(status: u16)
    ensures
        status == BAD_REQUEST || status == UNAUTHORIZED || status == FORBIDDEN || status == NOT_FOUND
            || status == CONFLICT ==> 400 <= status < 500,
        status == INTERNAL_SERVER_ERROR ==> 500 <= status < 600,
        BAD_REQUEST == 400,
        UNAUTHORIZED == 401,
        FORBIDDEN == 403,
        NOT_FOUND == 404,
        CONFLICT == 409,
        INTERNAL_SERVER_ERROR == 500,
{
}

} // verus!
