//! The append-only event log.
//!
//! * Every append validates the new events against the run's current state
//!   ([`RunState::apply`]), so the log can never contain an event the
//!   projection would reject.
//! * `seq` is gapless and strictly increasing, so a client that has seen
//!   `seq = n` resumes with [`EventStore::events_after`]`(n)`.
//! * Appends carrying an idempotency key are recorded; retrying with the same
//!   key returns the originally stored events instead of writing twice.

use vstd::prelude::*;

use crate::budget::Usage;
use crate::events::{Event, EventKind, EventKindModel, EventModel};
use crate::ids::{RunId, TaskId};
use crate::model::{RunStatus, TaskStatus};
use crate::order::{filter_step, increasing_index, Key, OrdMap};
use crate::schedule::at_most;
use crate::state::{
    replay_resumes, seen_map_dom, ApplyError, ApplyErrorModel, RunState, RunStateModel,
};
use crate::text::{
    decimal, duplicate_opt, i64_text, seen, signed, u64_text, views, views_push, Duplicate,
};

verus! {

/// Bumped whenever the schema of the database changes.
pub const SCHEMA_VERSION: i64 = 1;

/// Version of the encoding of events in the database.
pub const PAYLOAD_VERSION: i64 = 1;

/// How many committed events a slow subscriber may fall behind before it has
/// to catch up from the log.
pub const BROADCAST_CAPACITY: usize = 4096;

/// What can go wrong with the log.
#[allow(inconsistent_fields)]
#[derive(Debug, PartialEq, Eq)]
pub enum StoreError {
    Sqlite(String),
    Payload { seq: u64, message: String },
    Rejected(ApplyError),
    UnknownRun(RunId),
    SchemaTooNew { found: i64, supported: i64 },
    Worker,
}

impl StoreError {
    pub open spec fn message_spec(&self) -> Seq<char> {
        match self {
            StoreError::Sqlite(message) => message@,
            StoreError::Payload { seq, message } => "corrupt event payload at seq "@ + decimal(
                *seq as int,
            ) + ": "@ + message@,
            StoreError::Rejected(e) => "event rejected: "@ + e@.message(),
            StoreError::UnknownRun(id) => "run "@ + RunId::label(*id) + " does not exist"@,
            StoreError::SchemaTooNew { found, supported } =>
                "database was created by a newer Forgeline (schema "@ + signed(*found as int)
                + ", supported "@ + signed(*supported as int) + ")"@,
            StoreError::Worker => "store worker panicked"@,
        }
    }

    /// The error, in words.
    pub fn message(&self) -> (r: String)
        ensures
            r@ == self.message_spec(),
    {
        match self {
            StoreError::Sqlite(message) => message.clone(),
            StoreError::Payload { seq, message } => {
                let mut r = "corrupt event payload at seq ".to_owned();
                r.append(u64_text(*seq).as_str());
                r.append(": ");
                r.append(message.as_str());
                r
            },
            StoreError::Rejected(e) => {
                let mut r = "event rejected: ".to_owned();
                r.append(e.message().as_str());
                r
            },
            StoreError::UnknownRun(id) => {
                let mut r = "run ".to_owned();
                r.append(id.to_text().as_str());
                r.append(" does not exist");
                r
            },
            StoreError::SchemaTooNew { found, supported } => {
                let mut r = "database was created by a newer Forgeline (schema ".to_owned();
                r.append(i64_text(*found).as_str());
                r.append(", supported ");
                r.append(i64_text(*supported).as_str());
                r.append(")");
                r
            },
            StoreError::Worker => "store worker panicked".to_owned(),
        }
    }
}

/// Whether a database has to be set up, from its schema version.
pub fn needs_setup(version: i64) -> (r: Result<bool, StoreError>)
    ensures
        match r {
            Ok(b) => version <= SCHEMA_VERSION && b == (version < 1),
            Err(e) => version > SCHEMA_VERSION && e == (StoreError::SchemaTooNew {
                found: version,
                supported: SCHEMA_VERSION,
            }),
        },
{
    if version > SCHEMA_VERSION {
        Err(StoreError::SchemaTooNew { found: version, supported: SCHEMA_VERSION })
    } else {
        Ok(version < 1)
    }
}

/// Enough of a run to list it without replaying it.
#[derive(Debug, PartialEq)]
pub struct RunSummary {
    pub run_id: RunId,
    pub title: String,
    pub status: RunStatus,
    pub stage: Option<String>,
    pub tasks_total: usize,
    pub tasks_done: usize,
    pub pending_approvals: usize,
    pub usage: Usage,
    pub created_at_ms: i64,
    pub updated_at_ms: i64,
    pub last_seq: u64,
}

/// What a value of type `RunSummary` stands for.
#[verifier::ext_equal]
pub struct RunSummaryModel {
    pub run_id: RunId,
    pub title: Seq<char>,
    pub status: RunStatus,
    pub stage: Option<Seq<char>>,
    pub tasks_total: usize,
    pub tasks_done: usize,
    pub pending_approvals: usize,
    pub usage: Usage,
    pub created_at_ms: i64,
    pub updated_at_ms: i64,
    pub last_seq: u64,
}

impl View for RunSummary {
    type V = RunSummaryModel;

    open spec fn view(&self) -> RunSummaryModel {
        RunSummaryModel {
            run_id: self.run_id,
            title: self.title@,
            status: self.status,
            stage: seen(self.stage),
            tasks_total: self.tasks_total,
            tasks_done: self.tasks_done,
            pending_approvals: self.pending_approvals,
            usage: self.usage,
            created_at_ms: self.created_at_ms,
            updated_at_ms: self.updated_at_ms,
            last_seq: self.last_seq,
        }
    }
}

impl Duplicate for RunSummary {
    fn duplicate(&self) -> (r: RunSummary) {
        RunSummary {
            run_id: self.run_id,
            title: self.title.clone(),
            status: self.status,
            stage: duplicate_opt(&self.stage),
            tasks_total: self.tasks_total,
            tasks_done: self.tasks_done,
            pending_approvals: self.pending_approvals,
            usage: self.usage,
            created_at_ms: self.created_at_ms,
            updated_at_ms: self.updated_at_ms,
            last_seq: self.last_seq,
        }
    }
}

impl Clone for RunSummary {
    fn clone(&self) -> (r: RunSummary)
        ensures
            r@ == self@,
    {
        self.duplicate()
    }
}

/// What is listed of a run.
pub open spec fn summary_of(s: RunStateModel) -> RunSummaryModel {
    RunSummaryModel {
        run_id: s.id,
        title: s.spec.title,
        status: s.status,
        stage: s.stage,
        tasks_total: s.task_order().len() as usize,
        tasks_done: s.task_order().filter(
            |id: TaskId| s.tasks[id].status == TaskStatus::Done,
        ).len() as usize,
        pending_approvals: s.pending().len() as usize,
        usage: Usage::sum_of(s.usages()),
        created_at_ms: s.created_at_ms,
        updated_at_ms: s.updated_at_ms,
        last_seq: s.last_seq,
    }
}

impl RunSummary {
    pub fn of(state: &RunState) -> (r: RunSummary)
        requires
            state.wf(),
            Usage::sum_fits(state@.usages()),
        ensures
            r@ == summary_of(state@),
    {
        let ghost s = state@;
        let ghost order = state.tasks.order();
        let ghost p = |id: TaskId| s.tasks[id].status == TaskStatus::Done;
        let mut done: usize = 0;
        let mut i: usize = 0;
        proof {
            state.tasks.order_of_keys();
            seen_map_dom(state.tasks@);
            crate::order::filter_none(order, p);
        }
        while i < state.tasks.len()
            invariant
                i <= state.tasks.order().len(),
                order == state.tasks.order(),
                state.wf(),
                s == state@,
                p == |id: TaskId| s.tasks[id].status == TaskStatus::Done,
                done == order.take(i as int).filter(p).len(),
                done <= i,
            decreases state.tasks.order().len() - i,
        {
            proof {
                state.tasks.position(i as int);
                crate::order::filter_step(order, p, i as int);
            }
            if matches!(state.tasks.value_at(i).status, TaskStatus::Done) {
                done += 1;
            }
            i += 1;
        }
        assert(order.take(i as int) =~= order);
        let pending = state.pending_approvals();
        assert(views(pending@).len() == pending@.len());
        RunSummary {
            run_id: state.id,
            title: state.spec.title.clone(),
            status: state.status,
            stage: duplicate_opt(&state.stage),
            tasks_total: state.tasks.len(),
            tasks_done: done,
            pending_approvals: pending.len(),
            usage: state.total_usage(),
            created_at_ms: state.created_at_ms,
            updated_at_ms: state.updated_at_ms,
            last_seq: state.last_seq,
        }
    }
}

/// The events of one run.
pub open spec fn of_run(log: Seq<EventModel>, run_id: RunId) -> Seq<EventModel> {
    log.filter(|e: EventModel| e.run_id == run_id)
}

/// New events, numbered from `first` on.
pub open spec fn numbered(
    first: nat,
    run_id: RunId,
    at_ms: i64,
    kinds: Seq<EventKindModel>,
) -> Seq<EventModel> {
    Seq::new(
        kinds.len(),
        |i: int| EventModel { seq: (first + i) as u64, run_id, at_ms, kind: kinds[i] },
    )
}

/// What a value of type `EventStore` stands for: the whole log, and which
/// stretch of it each idempotency key stands for.
#[verifier::ext_equal]
pub struct EventStoreModel {
    pub events: Seq<EventModel>,
    pub keys: Map<Seq<char>, (u64, u64)>,
}

impl EventStoreModel {
    /// The log is gapless, and that of every run replays.
    pub open spec fn wf(self) -> bool {
        &&& forall|i: int| 0 <= i < self.events.len() ==> (#[trigger] self.events[i]).seq == i + 1
        &&& forall|id: RunId|
            of_run(self.events, id).len() > 0 ==> RunStateModel::replayed(
                #[trigger] of_run(self.events, id),
            ) is Ok
        &&& forall|key: Seq<char>| #[trigger]
            self.keys.dom().contains(key) ==> 1 <= self.keys[key].0 <= self.keys[key].1
                <= self.events.len()
    }

    /// The key stands for events of the log.
    pub open spec fn knows(self, key: Option<Seq<char>>) -> bool {
        key matches Some(k) && self.keys.dom().contains(k)
    }

    /// All that an earlier log holds is still there, under its keys.
    pub open spec fn continues(self, earlier: EventStoreModel) -> bool {
        &&& earlier.events.len() <= self.events.len()
        &&& self.events.take(earlier.events.len() as int) == earlier.events
        &&& forall|key: Seq<char>| #[trigger]
            earlier.keys.dom().contains(key) ==> self.keys.dom().contains(key) && self.keys[key]
                == earlier.keys[key]
    }

    /// The state of a run, if it exists.
    pub open spec fn state(self, id: RunId) -> Option<RunStateModel> {
        if of_run(self.events, id).len() > 0 {
            Some(RunStateModel::replayed(of_run(self.events, id))->Ok_0)
        } else {
            None
        }
    }

    /// What becomes of a run's state when events follow.
    pub open spec fn extended(self, id: RunId, events: Seq<EventModel>) -> Result<
        RunStateModel,
        ApplyErrorModel,
    > {
        RunStateModel::replayed(of_run(self.events, id) + events)
    }

    /// The log after an append, the events that it stands for, and whether they
    /// are new.
    pub open spec fn append(
        self,
        id: RunId,
        at_ms: i64,
        kinds: Seq<EventKindModel>,
        key: Option<Seq<char>>,
    ) -> Result<(EventStoreModel, Seq<EventModel>, bool), ApplyErrorModel> {
        let new = numbered(self.events.len() + 1, id, at_ms, kinds);
        if key matches Some(k) && self.keys.dom().contains(k) {
            let (first, last) = self.keys[key->0];
            Ok((self, self.events.subrange(first - 1, last as int), false))
        } else if kinds.len() == 0 {
            Ok((self, Seq::empty(), false))
        } else {
            match self.extended(id, new) {
                Ok(_) => Ok(
                    (
                        EventStoreModel {
                            events: self.events + new,
                            keys: match key {
                                Some(k) => self.keys.insert(k, (new[0].seq, new.last().seq)),
                                None => self.keys,
                            },
                        },
                        new,
                        true,
                    ),
                ),
                Err(e) => Err(e),
            }
        }
    }
}

proof fn of_one_run(b: Seq<EventModel>, run: RunId, id: RunId)
    requires
        forall|i: int| 0 <= i < b.len() ==> (#[trigger] b[i]).run_id == run,
    ensures
        of_run(b, id) == if id == run {
            b
        } else {
            Seq::empty()
        },
    decreases b.len(),
{
    reveal(Seq::filter);
    if b.len() > 0 {
        let t = b.drop_last();
        assert forall|i: int| 0 <= i < t.len() implies (#[trigger] t[i]).run_id == run by {
            assert(t[i] == b[i]);
        }
        of_one_run(t, run, id);
        assert(b.last() == b[b.len() - 1]);
        assert(t.push(b.last()) =~= b);
    } else {
        assert(b =~= Seq::<EventModel>::empty());
    }
}

/// An append of new events adds them to the log of their run, and leaves the
/// logs of the others as they are.
pub proof fn appends_touch_one_run(
    m: EventStoreModel,
    new: Seq<EventModel>,
    run: RunId,
    id: RunId,
)
    requires
        forall|i: int| 0 <= i < new.len() ==> (#[trigger] new[i]).run_id == run,
    ensures
        of_run(m.events + new, id) == if id == run {
            of_run(m.events, id) + new
        } else {
            of_run(m.events, id)
        },
{
    Seq::filter_distributes_over_add(m.events, new, |e: EventModel| e.run_id == id);
    of_one_run(new, run, id);
    if id != run {
        assert(of_run(m.events, id) + Seq::<EventModel>::empty() =~= of_run(m.events, id));
    }
}

/// The log can never contain an event the projection would reject, and its
/// numbers have no gaps: an append keeps that, whatever is appended.
pub proof fn append_keeps_the_log(
    m: EventStoreModel,
    id: RunId,
    at_ms: i64,
    kinds: Seq<EventKindModel>,
    key: Option<Seq<char>>,
)
    requires
        m.wf(),
        m.knows(key) || m.events.len() + kinds.len() <= u64::MAX,
        m.append(id, at_ms, kinds, key) is Ok,
    ensures
        m.append(id, at_ms, kinds, key) matches Ok((n, stored, fresh)) && n.wf() && n.continues(m)
            && (fresh ==> n.events == m.events + stored) && (!fresh ==> n == m),
{
    let new = numbered(m.events.len() + 1, id, at_ms, kinds);
    let (n, stored, fresh) = m.append(id, at_ms, kinds, key)->Ok_0;
    assert(n.events.take(m.events.len() as int) =~= m.events);
    if fresh {
        assert forall|i: int| 0 <= i < n.events.len() implies (#[trigger] n.events[i]).seq == i + 1 by {
            if i >= m.events.len() {
                assert(n.events[i] == new[i - m.events.len()]);
            }
        }
        assert forall|x: RunId| of_run(n.events, x).len() > 0 implies RunStateModel::replayed(
            #[trigger] of_run(n.events, x),
        ) is Ok by {
            appends_touch_one_run(m, new, id, x);
        }
    }
}

/// What one append after another keeps, all of them keep.
pub proof fn continuing_is_transitive(a: EventStoreModel, b: EventStoreModel, c: EventStoreModel)
    requires
        b.continues(a),
        c.continues(b),
    ensures
        c.continues(a),
{
    let n = a.events.len() as int;
    assert(c.events.take(n) =~= c.events.take(b.events.len() as int).take(n));
}

/// Retrying with the same key returns the events stored the first time, with
/// their numbers and times, and writes nothing, whatever the retry holds, whatever
/// was appended in between, and even where the log has no room left.
pub proof fn retries_write_nothing(
    m: EventStoreModel,
    id: RunId,
    at_ms: i64,
    kinds: Seq<EventKindModel>,
    key: Seq<char>,
    since: EventStoreModel,
    again_id: RunId,
    again_ms: i64,
    again: Seq<EventKindModel>,
)
    requires
        m.wf(),
        m.knows(Some(key)) || m.events.len() + kinds.len() <= u64::MAX,
        m.append(id, at_ms, kinds, Some(key)) matches Ok((n, stored, _)) && stored.len() > 0
            && since.continues(n),
    ensures
        since.append(again_id, again_ms, again, Some(key)) == Ok::<_, ApplyErrorModel>(
            (since, m.append(id, at_ms, kinds, Some(key))->Ok_0.1, false),
        ),
{
    let (n, stored, fresh) = m.append(id, at_ms, kinds, Some(key))->Ok_0;
    append_keeps_the_log(m, id, at_ms, kinds, Some(key));
    assert(n.keys.dom().contains(key));
    let (first, last) = n.keys[key];
    assert(since.events.subrange(first - 1, last as int) =~= n.events.subrange(
        first - 1,
        last as int,
    )) by {
        assert forall|i: int| first - 1 <= i < last implies since.events[i] == n.events[i] by {
            assert(since.events.take(n.events.len() as int)[i] == since.events[i]);
        }
    }
    if fresh {
        assert(n.events.subrange(first - 1, last as int) =~= stored);
    }
}

/// A log outlives its process: reading it again from the start, each event is
/// the next one and is accepted, so that the log read so far is a log again.
pub proof fn reopening_is_accepted(m: EventStoreModel, n: int)
    requires
        m.wf(),
        0 <= n < m.events.len(),
    ensures
        ({
            let read = EventStoreModel { events: m.events.take(n), keys: Map::empty() };
            let next = m.events[n];
            &&& read.wf()
            &&& next.seq == n + 1
            &&& read.extended(next.run_id, seq![next]) is Ok
        }),
{
    let read = EventStoreModel { events: m.events.take(n), keys: Map::empty() };
    let next = m.events[n];
    assert forall|id: RunId| of_run(read.events, id).len() > 0 implies RunStateModel::replayed(
        #[trigger] of_run(read.events, id),
    ) is Ok by {
        starts_replay(m, n, id);
    }
    let p = |e: EventModel| e.run_id == next.run_id;
    filter_step(m.events, p, n);
    assert(of_run(read.events, next.run_id) + seq![next] =~= of_run(
        m.events.take(n + 1),
        next.run_id,
    ));
    starts_replay(m, n + 1, next.run_id);
}

/// The start of a log replays, run by run.
proof fn starts_replay(m: EventStoreModel, n: int, id: RunId)
    requires
        m.wf(),
        0 <= n <= m.events.len(),
        of_run(m.events.take(n), id).len() > 0,
    ensures
        RunStateModel::replayed(of_run(m.events.take(n), id)) is Ok,
{
    let p = |e: EventModel| e.run_id == id;
    let front = m.events.take(n);
    let back = m.events.skip(n);
    assert(m.events =~= front + back);
    Seq::filter_distributes_over_add(front, back, p);
    let whole = of_run(m.events, id);
    let k = of_run(front, id).len() as int;
    assert(whole.take(k) =~= of_run(front, id));
    replay_resumes(whole, k);
}

/// A client that saw `seq = n` gets exactly what came after: the events up to
/// `n` and those after it are the whole log.
pub proof fn resuming_misses_nothing(m: EventStoreModel, n: int)
    requires
        m.wf(),
        0 <= n <= m.events.len(),
    ensures
        m.events.filter(|e: EventModel| e.seq > n) == m.events.skip(n),
    decreases m.events.len(),
{
    reveal(Seq::filter);
    let p = |e: EventModel| e.seq > n;
    tail_filter(m.events, n, m.events.len() as int);
    assert(m.events.take(m.events.len() as int) =~= m.events);
    assert(m.events.subrange(n, m.events.len() as int) =~= m.events.skip(n));
}

proof fn tail_filter(log: Seq<EventModel>, n: int, k: int)
    requires
        forall|i: int| 0 <= i < log.len() ==> (#[trigger] log[i]).seq == i + 1,
        0 <= n <= log.len(),
        0 <= k <= log.len(),
    ensures
        log.take(k).filter(|e: EventModel| e.seq > n) == if k > n {
            log.subrange(n, k)
        } else {
            Seq::empty()
        },
    decreases k,
{
    let p = |e: EventModel| e.seq > n;
    if k == 0 {
        crate::order::filter_none(log, p);
    } else {
        tail_filter(log, n, k - 1);
        crate::order::filter_step(log, p, k - 1);
        if k > n {
            assert(log.subrange(n, k) =~= if k - 1 > n {
                log.subrange(n, k - 1).push(log[k - 1])
            } else {
                Seq::empty().push(log[k - 1])
            });
        }
    }
}

/// The event log, with the current state of every run.
#[derive(Debug, PartialEq)]
pub struct EventStore {
    events: Vec<Event>,
    keys: OrdMap<String, (u64, u64)>,
    runs: OrdMap<RunId, RunState>,
}

impl View for EventStore {
    type V = EventStoreModel;

    closed spec fn view(&self) -> EventStoreModel {
        EventStoreModel { events: views(self.events@), keys: self.keys@ }
    }
}

impl EventStore {
    /// The state that is kept of each run is the one that its log gives.
    pub closed spec fn in_step(&self) -> bool {
        &&& self.keys.wf()
        &&& self.runs.wf()
        &&& forall|id: RunId|
            of_run(self@.events, id).len() > 0 <==> #[trigger] self.runs@.dom().contains(id)
        &&& forall|id: RunId| #[trigger]
            self.runs@.dom().contains(id) ==> {
                &&& self.runs@[id].wf()
                &&& RunStateModel::replayed(of_run(self@.events, id)) == Ok::<_, ApplyErrorModel>(
                    self.runs@[id]@,
                )
            }
    }

    pub open spec fn wf(&self) -> bool {
        &&& self.in_step()
        &&& self@.wf()
    }

    /// An empty log.
    pub fn open_in_memory() -> (r: EventStore)
        ensures
            r.wf(),
            r@.events.len() == 0,
            r@.keys == Map::<Seq<char>, (u64, u64)>::empty(),
    {
        let r = EventStore { events: Vec::new(), keys: OrdMap::new(), runs: OrdMap::new() };
        proof {
            reveal(Seq::filter);
            assert(r@.events =~= Seq::<EventModel>::empty());
            assert forall|id: RunId| of_run(r@.events, id).len() == 0 by {}
        }
        r
    }

    /// How many events there are.
    pub open spec fn size(&self) -> nat {
        self@.events.len()
    }

    fn extend(&mut self, state: RunState, new: Vec<Event>, Ghost(run): Ghost<RunId>)
        requires
            old(self).wf(),
            state.wf(),
            new@.len() > 0,
            forall|i: int| 0 <= i < new@.len() ==> (#[trigger] views(new@)[i]).run_id == run,
            forall|i: int|
                0 <= i < new@.len() ==> (#[trigger] views(new@)[i]).seq == old(self).size() + i
                    + 1,
            old(self)@.extended(run, views(new@)) == Ok::<_, ApplyErrorModel>(state@),
            state.id == run,
        ensures
            final(self).wf(),
            final(self)@ == (EventStoreModel {
                events: old(self)@.events + views(new@),
                keys: old(self)@.keys,
            }),
    {
        let ghost m = self@;
        let ghost added = views(new@);
        let mut rest = new;
        let id = state.id;
        self.runs.insert(id, state);
        proof {
            assert(views(self.events@) == m.events);
        }
        let ghost before = self.events@;
        self.events.append(&mut rest);
        proof {
            let n = self@;
            assert(n.events =~= m.events + added);
            assert forall|x: RunId| of_run(n.events, x).len() > 0 <==> #[trigger]
                self.runs@.dom().contains(x) by {
                appends_touch_one_run(m, added, run, x);
            }
            assert forall|x: RunId| #[trigger] self.runs@.dom().contains(x) implies self.runs@[x].wf()
                && RunStateModel::replayed(of_run(n.events, x)) == Ok::<_, ApplyErrorModel>(
                self.runs@[x]@,
            ) by {
                appends_touch_one_run(m, added, run, x);
                if x != run {
                    assert(old(self).runs@.dom().contains(x));
                }
            }
            assert forall|i: int| 0 <= i < n.events.len() implies (#[trigger] n.events[i]).seq == i
                + 1 by {
                if i >= m.events.len() {
                    assert(n.events[i] == added[i - m.events.len()]);
                } else {
                    assert(n.events[i] == m.events[i]);
                }
            }
            assert forall|x: RunId| of_run(n.events, x).len() > 0 implies RunStateModel::replayed(
                #[trigger] of_run(n.events, x),
            ) is Ok by {
                assert(self.runs@.dom().contains(x));
            }
        }
    }

    /// The run's state with one more event.
    fn advanced(&self, state: Option<RunState>, event: &Event, Ghost(prior): Ghost<Seq<EventModel>>) -> (r:
        Result<RunState, ApplyError>)
        requires
            match state {
                Some(s) => s.wf() && prior.len() > 0 && RunStateModel::replayed(prior) == Ok::<
                    _,
                    ApplyErrorModel,
                >(s@),
                None => prior.len() == 0,
            },
        ensures
            match r {
                Ok(s) => s.wf() && RunStateModel::replayed(prior.push(event@)) == Ok::<
                    _,
                    ApplyErrorModel,
                >(s@),
                Err(e) => RunStateModel::replayed(prior.push(event@)) == Err::<RunStateModel, _>(
                    e@,
                ),
            },
    {
        proof {
            let log = prior.push(event@);
            if prior.len() > 0 {
                crate::state::replay_resumes(log, prior.len() as int);
                assert(log.take(prior.len() as int) =~= prior);
                assert(log.skip(prior.len() as int) =~= seq![event@]);
                let s = RunStateModel::replayed(prior)->Ok_0;
                assert(seq![event@].drop_first() =~= Seq::<EventModel>::empty());
                reveal_with_fuel(RunStateModel::steps, 2);
            } else {
                assert(log.drop_first() =~= Seq::<EventModel>::empty());
                assert(log[0] == event@);
                reveal_with_fuel(RunStateModel::steps, 2);
            }
        }
        match state {
            Some(s) => {
                let mut s = s;
                match s.apply(event) {
                    Ok(_) => Ok(s),
                    Err(e) => Err(e),
                }
            },
            None => RunState::new(event),
        }
    }

    /// Whether there is room to append this many events. A key that is known needs
    /// none.
    pub fn can_append(&self, count: usize, key: Option<&str>) -> (b: bool)
        requires
            self.wf(),
        ensures
            b == (self@.knows(crate::config::seen_str(key)) || (self.size() + count <= usize::MAX
                && self.size() + count <= u64::MAX)),
    {
        if let Some(key) = key {
            let name: String = key.to_owned();
            if self.keys.contains_key(&name) {
                return true;
            }
        }
        let size: usize = self.events.len();
        assert(views(self.events@).len() == size);
        count <= usize::MAX - size && count as u64 <= u64::MAX - size as u64
    }

    /// Appends events to a run, all or none. The first event of a new run must
    /// be `run_created`. With a `key`, repeating the call returns the events
    /// stored the first time and writes nothing. Tells, too, whether the events
    /// are new.
    pub fn append(
        &mut self,
        run_id: RunId,
        at_ms: i64,
        kinds: Vec<EventKind>,
        key: Option<&str>,
    ) -> (r: Result<(Vec<Event>, bool), ApplyError>)
        requires
            old(self).wf(),
            old(self)@.knows(crate::config::seen_str(key)) || (old(self).size() + kinds@.len()
                <= usize::MAX && old(self).size() + kinds@.len() <= u64::MAX),
        ensures
            final(self).wf(),
            match r {
                Ok((stored, fresh)) => old(self)@.append(
                    run_id,
                    at_ms,
                    views(kinds@),
                    crate::config::seen_str(key),
                ) == Ok::<_, ApplyErrorModel>((final(self)@, views(stored@), fresh)),
                Err(e) => {
                    &&& old(self)@.append(
                        run_id,
                        at_ms,
                        views(kinds@),
                        crate::config::seen_str(key),
                    ) == Err::<(EventStoreModel, Seq<EventModel>, bool), _>(e@)
                    &&& final(self)@ == old(self)@
                },
            },
    {
        let ghost m = self@;
        let ghost all = views(kinds@);
        let held: usize = self.events.len();
        assert(m.events.len() == held);
        if let Some(key) = key {
            let name: String = key.to_owned();
            if let Some(range) = self.keys.get(&name) {
                proof {
                    assert(m.keys.dom().contains(key@));
                }
                let first: usize = (range.0 - 1) as usize;
                let last: usize = range.1 as usize;
                let stored = self.copy_range(first, last);
                return Ok((stored, false));
            }
        }
        if kinds.len() == 0 {
            let none: Vec<Event> = Vec::new();
            assert(views(none@) =~= Seq::<EventModel>::empty());
            return Ok((none, false));
        }
        let ghost prior = of_run(m.events, run_id);
        let ghost new = numbered(m.events.len() + 1, run_id, at_ms, all);
        let mut state: Option<RunState> = match self.runs.get(&run_id) {
            Some(s) => Some(s.copy()),
            None => None,
        };
        proof {
            assert(of_run(m.events, run_id).len() > 0 <==> self.runs@.dom().contains(run_id));
            assert(prior + new.take(0) =~= prior);
        }
        let size: u64 = self.events.len() as u64;
        assert(self.events@.len() == m.events.len());
        let mut stored: Vec<Event> = Vec::new();
        let mut i: usize = 0;
        assert(views(stored@) =~= new.take(0));
        while i < kinds.len()
            invariant
                i <= kinds.len(),
                all == views(kinds@),
                *self == *old(self),
                old(self).wf(),
                m == old(self)@,
                size == m.events.len(),
                size + kinds@.len() <= u64::MAX,
                prior == of_run(m.events, run_id),
                new == numbered(m.events.len() + 1, run_id, at_ms, all),
                views(stored@) == new.take(i as int),
                match state {
                    Some(s) => s.wf() && (prior + new.take(i as int)).len() > 0
                        && RunStateModel::replayed(prior + new.take(i as int)) == Ok::<
                        _,
                        ApplyErrorModel,
                    >(s@),
                    None => (prior + new.take(i as int)).len() == 0,
                },
                m.append(run_id, at_ms, all, crate::config::seen_str(key)) == (match m.extended(
                    run_id,
                    new,
                ) {
                    Ok(_) => Ok(
                        (
                            EventStoreModel {
                                events: m.events + new,
                                keys: match key {
                                    Some(k) => m.keys.insert(k@, (new[0].seq, new.last().seq)),
                                    None => m.keys,
                                },
                            },
                            new,
                            true,
                        ),
                    ),
                    Err(e) => Err(e),
                }),
            decreases kinds.len() - i,
        {
            let event = Event {
                seq: size + i as u64 + 1,
                run_id,
                at_ms,
                kind: kinds[i].duplicate(),
            };
            let ghost so_far = prior + new.take(i as int);
            proof {
                assert(event@ == new[i as int]);
                assert(prior + new.take(i + 1) =~= so_far.push(event@));
                assert(new.take(i + 1) =~= new.take(i as int).push(event@));
                views_push(stored@, event);
            }
            match self.advanced(state, &event, Ghost(so_far)) {
                Ok(s) => {
                    state = Some(s);
                },
                Err(e) => {
                    proof {
                        let whole = prior + new;
                        crate::state::replay_resumes(whole, prior.len() + i + 1);
                        assert(whole.take(prior.len() + i + 1) =~= so_far.push(event@));
                    }
                    return Err(e);
                },
            }
            stored.push(event);
            i += 1;
        }
        proof {
            assert(new.take(i as int) =~= new);
        }
        match state {
            Some(s) => {
                let copies = crate::text::duplicate_all(&stored);
                proof {
                    replayed_id(prior + new, s@);
                    assert(views(copies@).len() == copies@.len());
                    assert(views(copies@) == new);
                    if prior.len() > 0 {
                        assert((prior + new)[0] == prior[0]);
                        in_of_run(m.events, run_id);
                    } else {
                        assert((prior + new)[0] == new[0]);
                    }
                }
                self.extend(s, copies, Ghost(run_id));
                if let Some(key) = key {
                    let name: String = key.to_owned();
                    let first: u64 = stored[0].seq;
                    let last: u64 = stored[stored.len() - 1].seq;
                    proof {
                        assert(views(stored@)[0] == stored@[0]@);
                        assert(views(stored@)[stored@.len() - 1] == stored@[stored@.len() - 1]@);
                    }
                    self.keys.insert(name, (first, last));
                    proof {
                        assert(self@.events == m.events + new);
                    }
                }
                Ok((stored, true))
            },
            None => {
                assert(false);
                Ok((stored, true))
            },
        }
    }

    fn copy_range(&self, first: usize, last: usize) -> (r: Vec<Event>)
        requires
            first <= last <= self.size(),
        ensures
            views(r@) == self@.events.subrange(first as int, last as int),
    {
        let ghost all = self@.events;
        let mut r: Vec<Event> = Vec::new();
        let mut i: usize = first;
        assert(views(r@) =~= all.subrange(first as int, first as int));
        while i < last
            invariant
                first <= i <= last <= self.size(),
                all == self@.events,
                views(r@) == all.subrange(first as int, i as int),
            decreases last - i,
        {
            let event = self.events[i].duplicate();
            proof {
                assert(all[i as int] == event@);
                views_push(r@, event);
                assert(all.subrange(first as int, i + 1) =~= all.subrange(
                    first as int,
                    i as int,
                ).push(event@));
            }
            r.push(event);
            i += 1;
        }
        r
    }

    /// Takes over an event that was stored elsewhere. It has to be the next one,
    /// and one that its run's state accepts.
    pub fn absorb(&mut self, event: Event) -> (r: Result<(), ApplyError>)
        requires
            old(self).wf(),
            old(self).size() < usize::MAX,
            old(self).size() < u64::MAX,
        ensures
            final(self).wf(),
            match r {
                Ok(_) => {
                    &&& event@.seq == old(self).size() + 1
                    &&& old(self)@.extended(event@.run_id, seq![event@]) is Ok
                    &&& final(self)@ == (EventStoreModel {
                        events: old(self)@.events.push(event@),
                        keys: old(self)@.keys,
                    })
                },
                Err(e) => {
                    &&& final(self)@ == old(self)@
                    &&& if event@.seq == old(self).size() + 1 {
                        old(self)@.extended(event@.run_id, seq![event@]) == Err::<
                            RunStateModel,
                            _,
                        >(e@)
                    } else {
                        e@ == (ApplyErrorModel::OutOfOrder {
                            last: old(self).size() as u64,
                            got: event@.seq,
                        })
                    }
                },
            },
    {
        let ghost m = self@;
        let size: u64 = self.events.len() as u64;
        assert(self.events@.len() == m.events.len());
        if event.seq != size + 1 {
            return Err(ApplyError::OutOfOrder { last: size, got: event.seq });
        }
        let ghost prior = of_run(m.events, event.run_id);
        let state: Option<RunState> = match self.runs.get(&event.run_id) {
            Some(s) => Some(s.copy()),
            None => None,
        };
        proof {
            assert(of_run(m.events, event.run_id).len() > 0 <==> self.runs@.dom().contains(
                event.run_id,
            ));
            assert(prior + seq![event@] =~= prior.push(event@));
        }
        match self.advanced(state, &event, Ghost(prior)) {
            Ok(s) => {
                let ghost run = event.run_id;
                let ghost e = event@;
                let mut one: Vec<Event> = Vec::new();
                one.push(event);
                proof {
                    assert(views(one@) =~= seq![e]);
                    replayed_id(prior.push(e), s@);
                    if prior.len() > 0 {
                        in_of_run(m.events, run);
                        assert(prior.push(e)[0] == prior[0]);
                    }
                }
                self.extend(s, one, Ghost(run));
                assert(m.events + seq![e] =~= m.events.push(e));
                Ok(())
            },
            Err(e) => Err(e),
        }
    }

    /// Takes over an idempotency key that was stored elsewhere. A key that is
    /// known, or that stands for no stretch of the log, is left alone.
    pub fn absorb_key(&mut self, key: &str, first: u64, last: u64)
        requires
            old(self).wf(),
        ensures
            final(self).wf(),
            final(self)@ == if !old(self)@.keys.dom().contains(key@) && 1 <= first <= last
                <= old(self).size() {
                EventStoreModel {
                    events: old(self)@.events,
                    keys: old(self)@.keys.insert(key@, (first, last)),
                }
            } else {
                old(self)@
            },
    {
        let name: String = key.to_owned();
        assert(self.events@.len() == self@.events.len());
        if !self.keys.contains_key(&name) && 1 <= first && first <= last && last
            <= self.events.len() as u64 {
            self.keys.insert(name, (first, last));
        }
    }

    /// Current state of a run.
    pub fn run(&self, run_id: RunId) -> (r: Option<&RunState>)
        requires
            self.wf(),
        ensures
            match r {
                Some(s) => s.wf() && self@.state(run_id) == Some(s@),
                None => self@.state(run_id) is None,
            },
    {
        let r = self.runs.get(&run_id);
        proof {
            assert(of_run(self@.events, run_id).len() > 0 <==> self.runs@.dom().contains(run_id));
        }
        r
    }

    /// A run's events with `seq > after`, oldest first.
    pub fn run_events(&self, run_id: RunId, after: u64, limit: u32) -> (r: Vec<Event>)
        requires
            self.wf(),
        ensures
            views(r@) == at_most(
                self@.events.filter(|e: EventModel| e.run_id == run_id && e.seq > after),
                limit as int,
            ),
    {
        self.select(Some(run_id), after, limit)
    }

    /// Events across all runs with `seq > after`, oldest first.
    pub fn events_after(&self, after: u64, limit: u32) -> (r: Vec<Event>)
        requires
            self.wf(),
        ensures
            views(r@) == at_most(
                self@.events.filter(|e: EventModel| e.seq > after),
                limit as int,
            ),
    {
        let r = self.select(None, after, limit);
        proof {
            let p = |e: EventModel| wanted(None, after, e);
            let q = |e: EventModel| e.seq > after;
            crate::order::filter_agrees(self@.events, p, q);
        }
        r
    }

    fn select(&self, run: Option<RunId>, after: u64, limit: u32) -> (r: Vec<Event>)
        requires
            self.wf(),
        ensures
            views(r@) == at_most(
                self@.events.filter(|e: EventModel| wanted(run, after, e)),
                limit as int,
            ),
            run is Some ==> views(r@) == at_most(
                self@.events.filter(|e: EventModel| e.run_id == run->0 && e.seq > after),
                limit as int,
            ),
    {
        let ghost all = self@.events;
        let ghost p = |e: EventModel| wanted(run, after, e);
        let mut r: Vec<Event> = Vec::new();
        let mut i: usize = 0;
        proof {
            crate::order::filter_none(all, p);
            assert(views(r@) =~= all.take(0).filter(p));
            assert(self.events@.len() == all.len());
        }
        while i < self.events.len() && (r.len() as u64) < limit as u64
            invariant
                i <= self.events.len(),
                self.events@.len() == all.len(),
                all == self@.events,
                p == |e: EventModel| wanted(run, after, e),
                r.len() <= limit,
                views(r@) == all.take(i as int).filter(p),
            decreases self.events.len() - i,
        {
            proof {
                assert(all[i as int] == self.events@[i as int]@);
                crate::order::filter_step(all, p, i as int);
            }
            let ours = match run {
                Some(id) => self.events[i].run_id.uuid == id.uuid,
                None => true,
            };
            if ours && self.events[i].seq > after {
                let event = self.events[i].duplicate();
                proof {
                    views_push(r@, event);
                }
                r.push(event);
            }
            i += 1;
        }
        proof {
            crate::schedule::filter_is_prefix(all, p, i as int);
            assert(views(r@).len() == r@.len());
            let kept = all.take(i as int).filter(p);
            if i == self.events.len() {
                assert(all.take(i as int) =~= all);
                if limit < kept.len() {
                    assert(false);
                }
            } else {
                assert(r@.len() == limit);
                if limit == all.filter(p).len() {
                    assert(all.filter(p).take(limit as int) =~= all.filter(p));
                }
            }
            if run is Some {
                let q = |e: EventModel| e.run_id == run->0 && e.seq > after;
                crate::order::filter_agrees(all, p, q);
            }
        }
        r
    }

    /// The highest `seq` in the log (0 when empty).
    pub fn last_seq(&self) -> (n: u64)
        requires
            self.wf(),
            self.size() <= u64::MAX,
        ensures
            n == self.size(),
            self.size() > 0 ==> n == self@.events.last().seq,
    {
        assert(self.events@.len() == self@.events.len());
        self.events.len() as u64
    }

    /// Every run's usage can be summed.
    pub open spec fn usage_fits(&self) -> bool {
        forall|id: RunId|
            (#[trigger] self@.state(id)) matches Some(s) ==> Usage::sum_fits(s.usages())
    }

    /// Whether every run's usage can be summed.
    pub fn can_list(&self) -> (b: bool)
        requires
            self.wf(),
        ensures
            b == self.usage_fits(),
    {
        let ghost order = self.runs.order();
        proof {
            self.runs.order_of_keys();
        }
        let mut i: usize = 0;
        while i < self.runs.len()
            invariant
                i <= self.runs.order().len(),
                order == self.runs.order(),
                self.runs@.dom() == order.to_set(),
                self.wf(),
                forall|k: int|
                    0 <= k < i ==> Usage::sum_fits(self.runs@[#[trigger] order[k]]@.usages()),
            decreases self.runs.order().len() - i,
        {
            proof {
                self.runs.position(i as int);
                kept_under_its_id(self, order[i as int]);
            }
            if self.runs.value_at(i).checked_usage().is_none() {
                assert(self@.state(order[i as int]) == Some(self.runs@[order[i as int]]@));
                return false;
            }
            i += 1;
        }
        proof {
            assert forall|id: RunId|
                (#[trigger] self@.state(id)) is Some implies Usage::sum_fits(
                self@.state(id)->0.usages(),
            ) by {
                assert(self.runs@.dom().contains(id));
                let k = choose|k: int| 0 <= k < order.len() && order[k] == id;
                assert(Usage::sum_fits(self.runs@[order[k]]@.usages()));
            }
        }
        true
    }

    /// Summaries of all runs, most recently updated first; of two updated at the
    /// same time, the one with the later id first.
    pub fn list_runs(&self) -> (r: Vec<RunSummary>)
        requires
            self.wf(),
            self.usage_fits(),
        ensures
            forall|i: int|
                0 <= i < r@.len() ==> listed(self@, #[trigger] views(r@)[i]),
            forall|id: RunId|
                (#[trigger] self@.state(id)) is Some ==> exists|i: int|
                    0 <= i < r@.len() && (#[trigger] views(r@)[i]).run_id == id,
            newest_first(views(r@)),
    {
        let mut r: Vec<RunSummary> = Vec::new();
        let mut n: usize = 0;
        let ghost order = self.runs.order();
        proof {
            self.runs.order_of_keys();
        }
        while n < self.runs.len()
            invariant
                n <= self.runs.order().len(),
                order == self.runs.order(),
                self.runs@.dom() == order.to_set(),
                self.wf(),
                self.usage_fits(),
                forall|i: int|
                    0 <= i < r@.len() ==> listed(self@, #[trigger] views(r@)[i]) && order.take(
                        n as int,
                    ).contains(views(r@)[i].run_id),
                forall|k: int|
                    0 <= k < n ==> exists|i: int|
                        0 <= i < r@.len() && (#[trigger] views(r@)[i]).run_id == #[trigger] order[k],
                newest_first(views(r@)),
            decreases self.runs.order().len() - n,
        {
            let state = self.runs.value_at(n);
            let ghost id = order[n as int];
            proof {
                self.runs.position(n as int);
                assert(self@.state(id) == Some(state@));
                kept_under_its_id(self, id);
            }
            let summary = RunSummary::of(state);
            let ghost before = views(r@);
            proof {
                assert forall|i: int| 0 <= i < before.len() implies (#[trigger] before[i]).run_id
                    != summary@.run_id by {
                    if before[i].run_id == id {
                        let x = choose|x: int|
                            0 <= x < order.take(n as int).len() && order.take(n as int)[x] == id;
                        increasing_index::<RunId>(order, x);
                        increasing_index::<RunId>(order, n as int);
                    }
                }
            }
            let ghost prior = r@;
            let ghost added = summary@;
            let at = place(&mut r, summary);
            proof {
                let after = views(r@);
                assert(after.len() == r@.len());
                assert(after == before.insert(at as int, added));
                assert(before.len() == prior.len());
                assert forall|i: int| 0 <= i < r@.len() implies listed(
                    self@,
                    #[trigger] after[i],
                ) && order.take(n + 1).contains(after[i].run_id) by {
                    if i == at {
                        assert(order.take(n + 1)[n as int] == id);
                    } else {
                        let o = if i < at { i } else { i - 1 };
                        assert(after[i] == before[o]);
                        let x = choose|x: int|
                            0 <= x < order.take(n as int).len() && order.take(n as int)[x]
                                == before[o].run_id;
                        assert(order.take(n + 1)[x] == before[o].run_id);
                    }
                }
                assert forall|k: int| 0 <= k < n + 1 implies exists|i: int|
                    0 <= i < r@.len() && (#[trigger] after[i]).run_id == #[trigger] order[k] by {
                    if k == n {
                        assert(after[at as int].run_id == order[k]);
                    } else {
                        let o = choose|o: int|
                            0 <= o < before.len() && (#[trigger] before[o]).run_id == order[k];
                        let i = if o < at { o } else { o + 1 };
                        assert(after[i] == before[o]);
                    }
                }
            }
            n += 1;
        }
        proof {
            assert forall|id: RunId| (#[trigger] self@.state(id)) is Some implies exists|i: int|
                0 <= i < r@.len() && (#[trigger] views(r@)[i]).run_id == id by {
                assert(self.runs@.dom().contains(id));
                let k = choose|k: int| 0 <= k < order.len() && order[k] == id;
                assert(order[k] == id);
            }
        }
        r
    }
}

/// An event is looked for.
pub open spec fn wanted(run: Option<RunId>, after: u64, e: EventModel) -> bool {
    (run is None || run->0 == e.run_id) && e.seq > after
}

/// The summary is that of a run of the log.
pub open spec fn listed(m: EventStoreModel, a: RunSummaryModel) -> bool {
    m.state(a.run_id) is Some && a == summary_of(m.state(a.run_id)->0)
}

/// `a` is listed before `b`.
pub open spec fn newer(a: RunSummaryModel, b: RunSummaryModel) -> bool {
    ||| a.updated_at_ms > b.updated_at_ms
    ||| a.updated_at_ms == b.updated_at_ms && RunId::before(b.run_id, a.run_id)
}

fn is_newer(a: &RunSummary, b: &RunSummary) -> (r: bool)
    ensures
        r == newer(a@, b@),
{
    a.updated_at_ms > b.updated_at_ms || (a.updated_at_ms == b.updated_at_ms && a.run_id.uuid
        > b.run_id.uuid)
}

/// Each is listed before those that follow.
pub open spec fn newest_first(s: Seq<RunSummaryModel>) -> bool {
    forall|i: int, j: int| 0 <= i < j < s.len() ==> newer(#[trigger] s[i], #[trigger] s[j])
}

fn place(r: &mut Vec<RunSummary>, summary: RunSummary) -> (at: usize)
    requires
        newest_first(views(old(r)@)),
        forall|i: int|
            0 <= i < old(r)@.len() ==> (#[trigger] views(old(r)@)[i]).run_id != summary@.run_id,
    ensures
        at <= old(r)@.len(),
        views(final(r)@) == views(old(r)@).insert(at as int, summary@),
        newest_first(views(final(r)@)),
{
    let ghost before = views(r@);
    let mut at: usize = 0;
    while at < r.len() && !is_newer(&summary, &r[at])
        invariant
            at <= r.len(),
            before == views(r@),
            forall|i: int| 0 <= i < at ==> !newer(summary@, #[trigger] before[i]),
        decreases r.len() - at,
    {
        assert(before[at as int] == r@[at as int]@);
        at += 1;
    }
    proof {
        assert(at < r@.len() ==> before[at as int] == r@[at as int]@);
    }
    let ghost s = summary@;
    r.insert(at, summary);
    proof {
        let after = before.insert(at as int, s);
        assert(views(r@) =~= after);
        assert forall|i: int, j: int| 0 <= i < j < after.len() implies newer(
            #[trigger] after[i],
            #[trigger] after[j],
        ) by {
            if i < at && j == at {
                assert(!newer(s, before[i]));
            }
            if i == at {
                assert(newer(s, before[at as int]));
                assert(after[j] == before[j - 1]);
            }
        }
    }
    at
}

proof fn replayed_id(log: Seq<EventModel>, s: RunStateModel)
    requires
        log.len() > 0,
        RunStateModel::replayed(log) == Ok::<_, ApplyErrorModel>(s),
    ensures
        s.id == log[0].run_id,
{
    let first = RunStateModel::start(log[0])->Ok_0;
    crate::state::steps_are_ordered(first, log.drop_first());
}

proof fn in_of_run(log: Seq<EventModel>, id: RunId)
    requires
        of_run(log, id).len() > 0,
    ensures
        of_run(log, id)[0].run_id == id,
{
    log.lemma_filter_pred(|e: EventModel| e.run_id == id, 0);
}

proof fn kept_under_its_id(store: &EventStore, id: RunId)
    requires
        store.wf(),
        store.runs@.dom().contains(id),
    ensures
        store.runs@[id]@.id == id,
        store@.state(id) is Some,
{
    assert(of_run(store@.events, id).len() > 0);
    replayed_id(of_run(store@.events, id), store.runs@[id]@);
    in_of_run(store@.events, id);
}

/// What is appended is what was given: the same kinds of events, in the same order, for
/// the run, at the time, numbered on from the last one; and the run's state is what the
/// events make of it.
pub proof fn appends_record_what_is_given(
    m: EventStoreModel,
    id: RunId,
    at_ms: i64,
    kinds: Seq<EventKindModel>,
    key: Option<Seq<char>>,
    i: int,
)
    requires
        m.wf(),
        !m.knows(key),
        m.events.len() + kinds.len() <= u64::MAX,
        0 <= i < kinds.len(),
        m.append(id, at_ms, kinds, key) is Ok,
    ensures
        m.append(id, at_ms, kinds, key) matches Ok((n, stored, fresh)) && {
            &&& fresh
            &&& stored.len() == kinds.len()
            &&& stored[i].kind == kinds[i]
            &&& stored[i].run_id == id
            &&& stored[i].at_ms == at_ms
            &&& stored[i].seq == m.events.len() + 1 + i
            &&& n.events == m.events + stored
            &&& key matches Some(k) ==> n.knows(key) && n.keys[k].0 == m.events.len() + 1
                && n.keys[k].1 == m.events.len() + kinds.len()
            &&& n.state(id) == Some(
                RunStateModel::replayed(of_run(m.events, id) + stored)->Ok_0,
            )
        },
{
    let (n, stored, fresh) = m.append(id, at_ms, kinds, key)->Ok_0;
    appends_touch_one_run(m, stored, id, id);
}

/// An append that one event of it does not fit into writes nothing at all.
pub proof fn appends_are_all_or_nothing(
    m: EventStoreModel,
    id: RunId,
    at_ms: i64,
    kinds: Seq<EventKindModel>,
    key: Option<Seq<char>>,
)
    requires
        !m.knows(key),
        kinds.len() > 0,
    ensures
        m.append(id, at_ms, kinds, key) is Err <==> RunStateModel::replayed(
            of_run(m.events, id) + numbered(m.events.len() + 1, id, at_ms, kinds),
        ) is Err,
        m.append(id, at_ms, Seq::empty(), key) == Ok::<_, ApplyErrorModel>(
            (m, Seq::<EventModel>::empty(), false),
        ),
{
}

/// The events of a run are those that bear its id, in the order of the log.
pub proof fn events_belong_to_runs(log: Seq<EventModel>, id: RunId, e: EventModel)
    ensures
        of_run(log, id).contains(e) <==> log.contains(e) && e.run_id == id,
{
    let p = |e: EventModel| e.run_id == id;
    if log.contains(e) && e.run_id == id {
        log.lemma_filter_contains(p, log.index_of(e));
    }
    if of_run(log, id).contains(e) {
        log.lemma_filter_contains_rev(p, e);
        log.lemma_filter_pred(p, of_run(log, id).index_of(e));
    }
}

/// What a run is listed with: its title, where it stands, how many tasks it has and how
/// many of them are done, how many approvals wait, and what it has used.
pub proof fn summaries_tell_the_state(s: RunStateModel)
    requires
        s.tasks.dom().finite(),
        s.tasks.dom().len() <= usize::MAX,
        s.pending().len() <= usize::MAX,
    ensures
        ({
            let r = summary_of(s);
            &&& r.run_id == s.id && r.title == s.spec.title
            &&& r.status == s.status && r.stage == s.stage
            &&& r.tasks_total == s.tasks.dom().len()
            &&& r.tasks_done <= r.tasks_total
            &&& (forall|id: TaskId| #[trigger]
                s.tasks.dom().contains(id) ==> s.tasks[id].status == TaskStatus::Done)
                ==> r.tasks_done == r.tasks_total
            &&& (forall|id: TaskId| #[trigger]
                s.tasks.dom().contains(id) ==> s.tasks[id].status != TaskStatus::Done)
                ==> r.tasks_done == 0
            &&& r.pending_approvals == s.pending().len()
            &&& r.usage == Usage::sum_of(s.usages())
            &&& r.created_at_ms == s.created_at_ms && r.updated_at_ms == s.updated_at_ms
            &&& r.last_seq == s.last_seq
        }),
{
    let all = s.task_order();
    let p = |id: TaskId| s.tasks[id].status == TaskStatus::Done;
    crate::order::in_order_lists::<TaskId>(s.tasks.dom());
    assert(all.no_duplicates()) by {
        assert forall|i: int, j: int| 0 <= i < all.len() && 0 <= j < all.len() && i
            != j implies all[i] != all[j] by {
            crate::order::increasing_index::<TaskId>(all, i);
            crate::order::increasing_index::<TaskId>(all, j);
        }
    }
    all.unique_seq_to_set();
    all.lemma_filter_len(p);
    if forall|id: TaskId| #[trigger]
        s.tasks.dom().contains(id) ==> s.tasks[id].status == TaskStatus::Done {
        assert forall|i: int| 0 <= i < all.len() implies p(#[trigger] all[i]) by {
            assert(all.to_set().contains(all[i]));
        }
        all_are_kept(all, p);
    }
    if forall|id: TaskId| #[trigger]
        s.tasks.dom().contains(id) ==> s.tasks[id].status != TaskStatus::Done {
        if all.filter(p).len() > 0 {
            all.lemma_filter_pred(p, 0);
            all.lemma_filter_contains_rev(p, all.filter(p)[0]);
            assert(all.to_set().contains(all.filter(p)[0]));
        }
    }
}

proof fn all_are_kept<T>(s: Seq<T>, p: spec_fn(T) -> bool)
    requires
        forall|i: int| 0 <= i < s.len() ==> p(#[trigger] s[i]),
    ensures
        s.filter(p) == s,
    decreases s.len(),
{
    reveal(Seq::filter);
    if s.len() > 0 {
        assert forall|i: int| 0 <= i < s.drop_last().len() implies p(#[trigger] s.drop_last()[i]) by {
            assert(s.drop_last()[i] == s[i]);
        }
        all_are_kept(s.drop_last(), p);
        assert(p(s[s.len() - 1]));
        assert(s.drop_last().push(s.last()) =~= s);
    }
}

/// What is read from a log is newer than what was read before, and of the run that is asked
/// for where one is.
pub proof fn reading_goes_on(run: Option<RunId>, after: u64, e: EventModel)
    ensures
        wanted(run, after, e) <==> e.seq > after && (run matches Some(id) ==> e.run_id == id),
        wanted(run, after, e) ==> wanted(None, after, e),
        wanted(None, after, e) <==> exists|id: RunId| #[trigger] wanted(Some(id), after, e),
{
    if wanted(None, after, e) {
        assert(wanted(Some(e.run_id), after, e));
    }
}

/// Runs are listed by when they were last changed, the latest first, and those that were
/// changed at the same time by their ids, the latest first.
pub proof fn latest_runs_come_first(s: Seq<RunSummaryModel>, i: int, j: int)
    requires
        newest_first(s),
        0 <= i < j < s.len(),
    ensures
        s[i].updated_at_ms >= s[j].updated_at_ms,
        s[i].updated_at_ms == s[j].updated_at_ms ==> s[i].run_id.uuid > s[j].run_id.uuid,
        s[i].run_id != s[j].run_id || s[i].updated_at_ms > s[j].updated_at_ms,
{
    assert(newer(s[i], s[j]));
}

} // verus!
