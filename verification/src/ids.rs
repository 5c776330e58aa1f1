//! Strongly typed, time-ordered identifiers.
//!
//! Every id wraps a UUID of version 7 (so ids sort by creation time) and
//! renders with a short type prefix, such as `run_01926f4c…`, which keeps logs,
//! URLs and the UI unambiguous about what kind of thing an id points at. An id
//! holds its UUID as the number that the 128 bits stand for.

use vstd::prelude::*;

use crate::order::{Key, Rank};
use crate::text::{begins, drop_prefix, Duplicate};

verus! {

/// Error returned when parsing an id from a text fails.
#[derive(Debug, PartialEq, Eq)]
pub struct ParseIdError {
    pub kind: &'static str,
    pub input: String,
}

impl ParseIdError {
    /// The error, in words.
    pub fn message(&self) -> (r: String)
        ensures
            r@ == "invalid "@ + self.kind@ + " id `"@ + self.input@ + "`"@,
    {
        let mut r = "invalid ".to_owned();
        r.append(self.kind);
        r.append(" id `");
        r.append(self.input.as_str());
        r.append("`");
        r
    }
}

/// The value of a hexadecimal digit of either case.
pub open spec fn hex_value(c: char) -> Option<int> {
    if '0' <= c <= '9' {
        Some(c as int - '0' as int)
    } else if 'a' <= c <= 'f' {
        Some(c as int - 'a' as int + 10)
    } else if 'A' <= c <= 'F' {
        Some(c as int - 'A' as int + 10)
    } else {
        None
    }
}

pub open spec fn is_hex(s: Seq<char>) -> bool {
    forall|i: int| 0 <= i < s.len() ==> #[trigger] hex_value(s[i]) is Some
}

/// The number that hexadecimal digits stand for.
pub open spec fn hex_number(s: Seq<char>) -> int
    decreases s.len(),
{
    if s.len() == 0 {
        0
    } else {
        hex_number(s.drop_last()) * 16 + hex_value(s.last())->0
    }
}

/// The lower-case digit for a value below sixteen.
pub open spec fn hex_char(v: int) -> char {
    if v < 10 {
        ('0' as int + v) as char
    } else {
        ('a' as int + v - 10) as char
    }
}

/// The last `n` hexadecimal digits of a number.
pub open spec fn hex_digits(v: int, n: nat) -> Seq<char>
    decreases n,
{
    if n == 0 {
        Seq::empty()
    } else {
        hex_digits(v / 16, (n - 1) as nat).push(hex_char(v % 16))
    }
}

/// Thirty-two digits in groups of 8, 4, 4, 4 and 12, with hyphens between.
pub open spec fn is_dashed(s: Seq<char>) -> bool {
    s.len() == 36 && s[8] == '-' && s[13] == '-' && s[18] == '-' && s[23] == '-'
}

/// The groups, without the hyphens.
pub open spec fn undashed(s: Seq<char>) -> Seq<char> {
    s.subrange(0, 8) + s.subrange(9, 13) + s.subrange(14, 18) + s.subrange(19, 23) + s.subrange(
        24,
        36,
    )
}

/// The groups, with hyphens between.
pub open spec fn dashed(d: Seq<char>) -> Seq<char> {
    d.subrange(0, 8) + seq!['-'] + d.subrange(8, 12) + seq!['-'] + d.subrange(12, 16) + seq!['-']
        + d.subrange(16, 20) + seq!['-'] + d.subrange(20, 32)
}

/// `urn:uuid:`, in any case.
pub open spec fn is_urn_mark(s: Seq<char>) -> bool {
    &&& s.len() == 9
    &&& (s[0] == 'u' || s[0] == 'U')
    &&& (s[1] == 'r' || s[1] == 'R')
    &&& (s[2] == 'n' || s[2] == 'N')
    &&& s[3] == ':'
    &&& (s[4] == 'u' || s[4] == 'U')
    &&& (s[5] == 'u' || s[5] == 'U')
    &&& (s[6] == 'i' || s[6] == 'I')
    &&& (s[7] == 'd' || s[7] == 'D')
    &&& s[8] == ':'
}

/// The 32 places for digits in the text of a UUID: bare, hyphenated, hyphenated
/// in braces, or hyphenated behind `urn:uuid:`.
pub open spec fn uuid_digits(s: Seq<char>) -> Option<Seq<char>> {
    if s.len() == 32 {
        Some(s)
    } else if is_dashed(s) {
        Some(undashed(s))
    } else if s.len() == 38 && s[0] == '{' && s[37] == '}' && is_dashed(s.subrange(1, 37)) {
        Some(undashed(s.subrange(1, 37)))
    } else if s.len() == 45 && is_urn_mark(s.take(9)) && is_dashed(s.skip(9)) {
        Some(undashed(s.skip(9)))
    } else {
        None
    }
}

/// The number that the text of a UUID stands for, if it is one.
pub open spec fn uuid_number(s: Seq<char>) -> Option<int> {
    match uuid_digits(s) {
        Some(d) if is_hex(d) => Some(hex_number(d)),
        _ => None,
    }
}

/// `uuid::Uuid::parse_str`, with `as_u128` on what it gives: reads a UUID in
/// any of its four written forms, with digits of either case, and refuses
/// every other text.
#[verifier::external_body]
fn uuid_parse(s: &str) -> (r: Option<u128>)
    ensures
        match r {
            Some(v) => uuid_number(s@) == Some(v as int),
            None => uuid_number(s@) is None,
        },
{
    uuid::Uuid::parse_str(s).ok().map(|u| u.as_u128())
}

/// `uuid::fmt::Simple`'s `to_string`, on the UUID that `from_u128` gives: the
/// 32 lower-case hexadecimal digits of the number.
#[verifier::external_body]
pub(crate) fn uuid_simple(v: u128) -> (r: String)
    ensures
        r@ == hex_digits(v as int, 32),
{
    uuid::Uuid::from_u128(v).simple().to_string()
}

/// The number is a UUID of this version: its thirteenth digit is the version, and
/// its seventeenth starts with the two bits that mark the common layout.
pub open spec fn has_version(v: int, version: int) -> bool {
    (v / 0x1000_0000_0000_0000_0000) % 16 == version && (v / 0x4000_0000_0000_0000) % 4 == 2
}

/// A UUID that this process has made, as a number.
pub struct Made {
    number: u128,
}

impl View for Made {
    type V = int;

    closed spec fn view(&self) -> int {
        self.number as int
    }
}

impl Made {
    fn number(&self) -> (r: u128)
        ensures
            r == self@,
    {
        self.number
    }
}

/// `uuid::Uuid::now_v7`, as a number: a UUID of version 7, and one above every
/// other that this process has made before. Which one it is depends on the clock
/// and on chance.
#[verifier::external_body]
fn uuid_now(before: Option<&Made>) -> (r: Made)
    ensures
        has_version(r@, 7),
        before matches Some(b) ==> b@ < r@,
{
    Made { number: uuid::Uuid::now_v7().as_u128() }
}

/// New UUIDs of version 7, each above the one before it.
pub open spec fn are_fresh(v: Seq<u128>) -> bool {
    &&& forall|i: int| 0 <= i < v.len() ==> has_version(#[trigger] v[i] as int, 7)
    &&& forall|i: int, j: int| 0 <= i < j < v.len() ==> #[trigger] v[i] < #[trigger] v[j]
}

/// Makes `n` UUIDs, one after another.
pub(crate) fn fresh_uuids(n: usize) -> (r: Vec<u128>)
    ensures
        r@.len() == n,
        are_fresh(r@),
{
    let mut r: Vec<u128> = Vec::new();
    let mut last: Option<Made> = None;
    let mut i: usize = 0;
    while i < n
        invariant
            i <= n,
            r@.len() == i,
            are_fresh(r@),
            match last {
                Some(m) => i > 0 && r@.last() == m@,
                None => i == 0,
            },
        decreases n - i,
    {
        let made = uuid_now(last.as_ref());
        r.push(made.number());
        last = Some(made);
        i += 1;
    }
    r
}

/// The hyphenated lower-case text of a UUID of version 4.
pub open spec fn is_session_name(s: Seq<char>) -> bool {
    exists|v: u128|
        s == dashed(#[trigger] hex_digits(v as int, 32)) && has_version(v as int, 4)
}

/// `uuid::Uuid::new_v4`, in the hyphenated lower-case form in which it prints: a
/// UUID of version 4. Which one it is depends on chance.
#[verifier::external_body]
pub(crate) fn session_text() -> (r: String)
    ensures
        is_session_name(r@),
{
    uuid::Uuid::new_v4().to_string()
}

/// How an id prints: its prefix, an underscore and the 32 digits.
pub open spec fn id_text(prefix: Seq<char>, v: int) -> Seq<char> {
    prefix + "_"@ + hex_digits(v, 32)
}

/// The number of the id that a text stands for: the prefixed form or a bare
/// UUID.
pub open spec fn id_number(prefix: Seq<char>, s: Seq<char>) -> Option<int> {
    uuid_number(
        if begins(s, prefix + "_"@) {
            s.skip(prefix.len() as int + 1)
        } else {
            s
        },
    )
}

pub proof fn hex_digits_are_hex(v: int, n: nat)
    requires
        0 <= v,
    ensures
        hex_digits(v, n).len() == n,
        is_hex(hex_digits(v, n)),
        forall|i: int| 0 <= i < n ==> #[trigger] hex_digits(v, n)[i] != '_' && hex_digits(v, n)[i] != '-',
    decreases n,
{
    if n > 0 {
        hex_digits_are_hex(v / 16, (n - 1) as nat);
        let d = v % 16;
        assert(0 <= d < 16);
        assert(hex_value(hex_char(d)) == Some(d));
        let s = hex_digits(v / 16, (n - 1) as nat);
        assert(hex_digits(v, n) == s.push(hex_char(d)));
        assert forall|i: int| 0 <= i < n implies #[trigger] hex_value(hex_digits(v, n)[i]) is Some by {
            if i < n - 1 {
                assert(hex_value(s[i]) is Some);
            }
        }
    }
}

proof fn hex_digits_stand_for(v: int, n: nat)
    requires
        0 <= v < vstd::arithmetic::power::pow(16, n),
    ensures
        hex_number(hex_digits(v, n)) == v,
    decreases n,
{
    vstd::arithmetic::power::lemma_pow0(16);
    if n > 0 {
        let p = vstd::arithmetic::power::pow(16, (n - 1) as nat);
        assert(vstd::arithmetic::power::pow(16, n) == 16 * p) by {
            reveal(vstd::arithmetic::power::pow);
        }
        assert(v / 16 < p);
        hex_digits_stand_for(v / 16, (n - 1) as nat);
        let d = v % 16;
        assert(hex_value(hex_char(d)) == Some(d));
        let s = hex_digits(v / 16, (n - 1) as nat);
        assert(hex_digits(v, n).drop_last() =~= s);
    }
}

proof fn sixteen_to_the_thirty_second()
    ensures
        vstd::arithmetic::power::pow(16, 32) == 0x1_0000_0000_0000_0000_0000_0000_0000_0000,
{
    reveal(vstd::arithmetic::power::pow);
    reveal_with_fuel(vstd::arithmetic::power::pow, 33);
}

/// The printed form of an id reads back as the same id.
pub proof fn id_text_round_trips(prefix: Seq<char>, v: u128)
    ensures
        id_number(prefix, id_text(prefix, v as int)) == Some(v as int),
{
    reveal_strlit("_");
    let s = id_text(prefix, v as int);
    let d = hex_digits(v as int, 32);
    hex_digits_are_hex(v as int, 32);
    sixteen_to_the_thirty_second();
    hex_digits_stand_for(v as int, 32);
    assert(s.take(prefix.len() as int + 1) =~= prefix + "_"@);
    assert(s.skip(prefix.len() as int + 1) =~= d);
}

/// The hyphenated form of a UUID, and the form of 32 digits, read as the id
/// that wraps it, whatever the prefix (of at most 31 characters).
pub proof fn bare_uuid_reads(prefix: Seq<char>, v: u128)
    requires
        prefix.len() < 32,
    ensures
        id_number(prefix, hex_digits(v as int, 32)) == Some(v as int),
        id_number(prefix, dashed(hex_digits(v as int, 32))) == Some(v as int),
{
    reveal_strlit("_");
    let d = hex_digits(v as int, 32);
    let h = dashed(d);
    hex_digits_are_hex(v as int, 32);
    sixteen_to_the_thirty_second();
    hex_digits_stand_for(v as int, 32);
    let p = prefix + "_"@;
    let at = prefix.len() as int;
    assert(p[at] == '_');
    if begins(d, p) {
        assert(d.take(p.len() as int)[at] == d[at]);
        assert(false);
    }
    assert(h.len() == 36);
    assert(is_dashed(h));
    assert(undashed(h) =~= d);
    if begins(h, p) {
        assert(h.take(p.len() as int)[at] == h[at]);
        if at < 8 {
            assert(h[at] == d[at]);
        } else if at < 13 && at != 8 {
            assert(h[at] == d[at - 1]);
        } else if 13 < at < 18 {
            assert(h[at] == d[at - 2]);
        } else if 18 < at < 23 {
            assert(h[at] == d[at - 3]);
        } else if at > 23 {
            assert(h[at] == d[at - 4]);
        }
        assert(false);
    }
}

/// Reads the number of an id: the prefixed form or a bare UUID.
fn parse_id(kind: &'static str, mark: &'static str, s: &str) -> (r: Result<u128, ParseIdError>)
    requires
        mark@ == kind@ + "_"@,
    ensures
        match r {
            Ok(v) => id_number(kind@, s@) == Some(v as int),
            Err(e) => id_number(kind@, s@) is None && e.kind@ == kind@ && e.input@ == s@,
        },
{
    proof {
        reveal_strlit("_");
    }
    let number = match drop_prefix(s, mark) {
        Some(rest) => uuid_parse(rest.as_str()),
        None => uuid_parse(s),
    };
    match number {
        Some(v) => Ok(v),
        None => Err(ParseIdError { kind, input: s.to_owned() }),
    }
}

fn render_id(mark: &'static str, v: u128) -> (r: String)
    ensures
        r@ == mark@ + hex_digits(v as int, 32),
{
    let mut r = mark.to_owned();
    r.append(uuid_simple(v).as_str());
    r
}

/// A run: one requested unit of work (an issue, a feature request) flowing
/// through the factory pipeline.
#[derive(Debug, Clone, Copy, PartialEq, Eq, PartialOrd, Ord, Hash, Structural)]
pub struct RunId {
    pub uuid: u128,
}

impl RunId {
    /// The prefix used when rendering this id as a text.
    pub const PREFIX: &'static str = "run";

    pub open spec fn prefix() -> Seq<char> {
        "run"@
    }

    /// Creates a new, time-ordered id.
    pub fn new() -> (r: RunId)
        ensures
            has_version(r.uuid as int, 7),
    {
        RunId { uuid: uuid_now(None).number() }
    }

    /// Wraps an existing UUID, given as a number.
    pub fn from_uuid(uuid: u128) -> (r: RunId)
        ensures
            r.uuid == uuid,
    {
        RunId { uuid }
    }

    /// The underlying UUID, as a number.
    pub fn as_uuid(&self) -> (r: u128)
        ensures
            r == self.uuid,
    {
        self.uuid
    }

    /// The id as a text: `run_` and 32 hexadecimal digits.
    pub fn to_text(&self) -> (r: String)
        ensures
            r@ == id_text(Self::prefix(), self.uuid as int),
    {
        proof {
            reveal_strlit("run");
            reveal_strlit("_");
            reveal_strlit("run_");
            assert("run_"@ =~= "run"@ + "_"@);
        }
        render_id("run_", self.uuid)
    }

    /// Accepts both the prefixed form (`run_…`) and a bare UUID.
    pub fn parse(s: &str) -> (r: Result<RunId, ParseIdError>)
        ensures
            match r {
                Ok(id) => id_number(Self::prefix(), s@) == Some(id.uuid as int),
                Err(e) => {
                    &&& id_number(Self::prefix(), s@) is None
                    &&& e.kind@ == Self::prefix()
                    &&& e.input@ == s@
                },
            },
    {
        proof {
            reveal_strlit("run");
            reveal_strlit("_");
            reveal_strlit("run_");
            assert("run_"@ =~= "run"@ + "_"@);
        }
        match parse_id("run", "run_", s) {
            Ok(uuid) => Ok(RunId { uuid }),
            Err(e) => Err(e),
        }
    }
}

impl Default for RunId {
    fn default() -> (r: RunId)
        ensures
            has_version(r.uuid as int, 7),
    {
        RunId::new()
    }
}

impl core::str::FromStr for RunId {
    type Err = ParseIdError;

    fn from_str(s: &str) -> Result<RunId, ParseIdError> {
        RunId::parse(s)
    }
}

/// Ids are ordered by their UUIDs.
impl Key for RunId {
    type Model = RunId;

    open spec fn model(&self) -> RunId {
        *self
    }

    open spec fn before(a: RunId, b: RunId) -> bool {
        a.uuid < b.uuid
    }

    open spec fn label(m: RunId) -> Seq<char> {
        id_text(RunId::prefix(), m.uuid as int)
    }

    proof fn irreflexive(a: RunId) {
    }

    proof fn transitive(a: RunId, b: RunId, c: RunId) {
    }

    proof fn total(a: RunId, b: RunId) {
    }

    fn rank(&self, other: &RunId) -> (r: Rank) {
        if self.uuid < other.uuid {
            Rank::Before
        } else if self.uuid == other.uuid {
            Rank::Same
        } else {
            Rank::After
        }
    }

    fn duplicate(&self) -> (r: RunId) {
        *self
    }

    fn render(&self) -> (r: String) {
        self.to_text()
    }
}

/// A task: one node in a run's task graph.
#[derive(Debug, Clone, Copy, PartialEq, Eq, PartialOrd, Ord, Hash, Structural)]
pub struct TaskId {
    pub uuid: u128,
}

impl TaskId {
    /// The prefix used when rendering this id as a text.
    pub const PREFIX: &'static str = "task";

    pub open spec fn prefix() -> Seq<char> {
        "task"@
    }

    /// Creates a new, time-ordered id.
    pub fn new() -> (r: TaskId)
        ensures
            has_version(r.uuid as int, 7),
    {
        TaskId { uuid: uuid_now(None).number() }
    }

    /// Wraps an existing UUID, given as a number.
    pub fn from_uuid(uuid: u128) -> (r: TaskId)
        ensures
            r.uuid == uuid,
    {
        TaskId { uuid }
    }

    /// The underlying UUID, as a number.
    pub fn as_uuid(&self) -> (r: u128)
        ensures
            r == self.uuid,
    {
        self.uuid
    }

    /// The id as a text: `task_` and 32 hexadecimal digits.
    pub fn to_text(&self) -> (r: String)
        ensures
            r@ == id_text(Self::prefix(), self.uuid as int),
    {
        proof {
            reveal_strlit("task");
            reveal_strlit("_");
            reveal_strlit("task_");
            assert("task_"@ =~= "task"@ + "_"@);
        }
        render_id("task_", self.uuid)
    }

    /// Accepts both the prefixed form (`task_…`) and a bare UUID.
    pub fn parse(s: &str) -> (r: Result<TaskId, ParseIdError>)
        ensures
            match r {
                Ok(id) => id_number(Self::prefix(), s@) == Some(id.uuid as int),
                Err(e) => {
                    &&& id_number(Self::prefix(), s@) is None
                    &&& e.kind@ == Self::prefix()
                    &&& e.input@ == s@
                },
            },
    {
        proof {
            reveal_strlit("task");
            reveal_strlit("_");
            reveal_strlit("task_");
            assert("task_"@ =~= "task"@ + "_"@);
        }
        match parse_id("task", "task_", s) {
            Ok(uuid) => Ok(TaskId { uuid }),
            Err(e) => Err(e),
        }
    }
}

impl Default for TaskId {
    fn default() -> (r: TaskId)
        ensures
            has_version(r.uuid as int, 7),
    {
        TaskId::new()
    }
}

impl core::str::FromStr for TaskId {
    type Err = ParseIdError;

    fn from_str(s: &str) -> Result<TaskId, ParseIdError> {
        TaskId::parse(s)
    }
}

/// Ids are ordered by their UUIDs.
impl Key for TaskId {
    type Model = TaskId;

    open spec fn model(&self) -> TaskId {
        *self
    }

    open spec fn before(a: TaskId, b: TaskId) -> bool {
        a.uuid < b.uuid
    }

    open spec fn label(m: TaskId) -> Seq<char> {
        id_text(TaskId::prefix(), m.uuid as int)
    }

    proof fn irreflexive(a: TaskId) {
    }

    proof fn transitive(a: TaskId, b: TaskId, c: TaskId) {
    }

    proof fn total(a: TaskId, b: TaskId) {
    }

    fn rank(&self, other: &TaskId) -> (r: Rank) {
        if self.uuid < other.uuid {
            Rank::Before
        } else if self.uuid == other.uuid {
            Rank::Same
        } else {
            Rank::After
        }
    }

    fn duplicate(&self) -> (r: TaskId) {
        *self
    }

    fn render(&self) -> (r: String) {
        self.to_text()
    }
}

/// One attempt by an agent at a task. Retries create new attempts.
#[derive(Debug, Clone, Copy, PartialEq, Eq, PartialOrd, Ord, Hash, Structural)]
pub struct AttemptId {
    pub uuid: u128,
}

impl AttemptId {
    /// The prefix used when rendering this id as a text.
    pub const PREFIX: &'static str = "att";

    pub open spec fn prefix() -> Seq<char> {
        "att"@
    }

    /// Creates a new, time-ordered id.
    pub fn new() -> (r: AttemptId)
        ensures
            has_version(r.uuid as int, 7),
    {
        AttemptId { uuid: uuid_now(None).number() }
    }

    /// Wraps an existing UUID, given as a number.
    pub fn from_uuid(uuid: u128) -> (r: AttemptId)
        ensures
            r.uuid == uuid,
    {
        AttemptId { uuid }
    }

    /// The underlying UUID, as a number.
    pub fn as_uuid(&self) -> (r: u128)
        ensures
            r == self.uuid,
    {
        self.uuid
    }

    /// The id as a text: `att_` and 32 hexadecimal digits.
    pub fn to_text(&self) -> (r: String)
        ensures
            r@ == id_text(Self::prefix(), self.uuid as int),
    {
        proof {
            reveal_strlit("att");
            reveal_strlit("_");
            reveal_strlit("att_");
            assert("att_"@ =~= "att"@ + "_"@);
        }
        render_id("att_", self.uuid)
    }

    /// Accepts both the prefixed form (`att_…`) and a bare UUID.
    pub fn parse(s: &str) -> (r: Result<AttemptId, ParseIdError>)
        ensures
            match r {
                Ok(id) => id_number(Self::prefix(), s@) == Some(id.uuid as int),
                Err(e) => {
                    &&& id_number(Self::prefix(), s@) is None
                    &&& e.kind@ == Self::prefix()
                    &&& e.input@ == s@
                },
            },
    {
        proof {
            reveal_strlit("att");
            reveal_strlit("_");
            reveal_strlit("att_");
            assert("att_"@ =~= "att"@ + "_"@);
        }
        match parse_id("att", "att_", s) {
            Ok(uuid) => Ok(AttemptId { uuid }),
            Err(e) => Err(e),
        }
    }
}

impl Default for AttemptId {
    fn default() -> (r: AttemptId)
        ensures
            has_version(r.uuid as int, 7),
    {
        AttemptId::new()
    }
}

impl core::str::FromStr for AttemptId {
    type Err = ParseIdError;

    fn from_str(s: &str) -> Result<AttemptId, ParseIdError> {
        AttemptId::parse(s)
    }
}

/// Ids are ordered by their UUIDs.
impl Key for AttemptId {
    type Model = AttemptId;

    open spec fn model(&self) -> AttemptId {
        *self
    }

    open spec fn before(a: AttemptId, b: AttemptId) -> bool {
        a.uuid < b.uuid
    }

    open spec fn label(m: AttemptId) -> Seq<char> {
        id_text(AttemptId::prefix(), m.uuid as int)
    }

    proof fn irreflexive(a: AttemptId) {
    }

    proof fn transitive(a: AttemptId, b: AttemptId, c: AttemptId) {
    }

    proof fn total(a: AttemptId, b: AttemptId) {
    }

    fn rank(&self, other: &AttemptId) -> (r: Rank) {
        if self.uuid < other.uuid {
            Rank::Before
        } else if self.uuid == other.uuid {
            Rank::Same
        } else {
            Rank::After
        }
    }

    fn duplicate(&self) -> (r: AttemptId) {
        *self
    }

    fn render(&self) -> (r: String) {
        self.to_text()
    }
}

/// An isolated workspace (worktree, container, VM) an attempt runs in.
#[derive(Debug, Clone, Copy, PartialEq, Eq, PartialOrd, Ord, Hash, Structural)]
pub struct WorkspaceId {
    pub uuid: u128,
}

impl WorkspaceId {
    /// The prefix used when rendering this id as a text.
    pub const PREFIX: &'static str = "ws";

    pub open spec fn prefix() -> Seq<char> {
        "ws"@
    }

    /// Creates a new, time-ordered id.
    pub fn new() -> (r: WorkspaceId)
        ensures
            has_version(r.uuid as int, 7),
    {
        WorkspaceId { uuid: uuid_now(None).number() }
    }

    /// Wraps an existing UUID, given as a number.
    pub fn from_uuid(uuid: u128) -> (r: WorkspaceId)
        ensures
            r.uuid == uuid,
    {
        WorkspaceId { uuid }
    }

    /// The underlying UUID, as a number.
    pub fn as_uuid(&self) -> (r: u128)
        ensures
            r == self.uuid,
    {
        self.uuid
    }

    /// The id as a text: `ws_` and 32 hexadecimal digits.
    pub fn to_text(&self) -> (r: String)
        ensures
            r@ == id_text(Self::prefix(), self.uuid as int),
    {
        proof {
            reveal_strlit("ws");
            reveal_strlit("_");
            reveal_strlit("ws_");
            assert("ws_"@ =~= "ws"@ + "_"@);
        }
        render_id("ws_", self.uuid)
    }

    /// Accepts both the prefixed form (`ws_…`) and a bare UUID.
    pub fn parse(s: &str) -> (r: Result<WorkspaceId, ParseIdError>)
        ensures
            match r {
                Ok(id) => id_number(Self::prefix(), s@) == Some(id.uuid as int),
                Err(e) => {
                    &&& id_number(Self::prefix(), s@) is None
                    &&& e.kind@ == Self::prefix()
                    &&& e.input@ == s@
                },
            },
    {
        proof {
            reveal_strlit("ws");
            reveal_strlit("_");
            reveal_strlit("ws_");
            assert("ws_"@ =~= "ws"@ + "_"@);
        }
        match parse_id("ws", "ws_", s) {
            Ok(uuid) => Ok(WorkspaceId { uuid }),
            Err(e) => Err(e),
        }
    }
}

impl Default for WorkspaceId {
    fn default() -> (r: WorkspaceId)
        ensures
            has_version(r.uuid as int, 7),
    {
        WorkspaceId::new()
    }
}

impl core::str::FromStr for WorkspaceId {
    type Err = ParseIdError;

    fn from_str(s: &str) -> Result<WorkspaceId, ParseIdError> {
        WorkspaceId::parse(s)
    }
}

/// A pending human decision (plan approval, merge approval, agent question).
#[derive(Debug, Clone, Copy, PartialEq, Eq, PartialOrd, Ord, Hash, Structural)]
pub struct ApprovalId {
    pub uuid: u128,
}

impl ApprovalId {
    /// The prefix used when rendering this id as a text.
    pub const PREFIX: &'static str = "apr";

    pub open spec fn prefix() -> Seq<char> {
        "apr"@
    }

    /// Creates a new, time-ordered id.
    pub fn new() -> (r: ApprovalId)
        ensures
            has_version(r.uuid as int, 7),
    {
        ApprovalId { uuid: uuid_now(None).number() }
    }

    /// Wraps an existing UUID, given as a number.
    pub fn from_uuid(uuid: u128) -> (r: ApprovalId)
        ensures
            r.uuid == uuid,
    {
        ApprovalId { uuid }
    }

    /// The underlying UUID, as a number.
    pub fn as_uuid(&self) -> (r: u128)
        ensures
            r == self.uuid,
    {
        self.uuid
    }

    /// The id as a text: `apr_` and 32 hexadecimal digits.
    pub fn to_text(&self) -> (r: String)
        ensures
            r@ == id_text(Self::prefix(), self.uuid as int),
    {
        proof {
            reveal_strlit("apr");
            reveal_strlit("_");
            reveal_strlit("apr_");
            assert("apr_"@ =~= "apr"@ + "_"@);
        }
        render_id("apr_", self.uuid)
    }

    /// Accepts both the prefixed form (`apr_…`) and a bare UUID.
    pub fn parse(s: &str) -> (r: Result<ApprovalId, ParseIdError>)
        ensures
            match r {
                Ok(id) => id_number(Self::prefix(), s@) == Some(id.uuid as int),
                Err(e) => {
                    &&& id_number(Self::prefix(), s@) is None
                    &&& e.kind@ == Self::prefix()
                    &&& e.input@ == s@
                },
            },
    {
        proof {
            reveal_strlit("apr");
            reveal_strlit("_");
            reveal_strlit("apr_");
            assert("apr_"@ =~= "apr"@ + "_"@);
        }
        match parse_id("apr", "apr_", s) {
            Ok(uuid) => Ok(ApprovalId { uuid }),
            Err(e) => Err(e),
        }
    }
}

impl Default for ApprovalId {
    fn default() -> (r: ApprovalId)
        ensures
            has_version(r.uuid as int, 7),
    {
        ApprovalId::new()
    }
}

impl core::str::FromStr for ApprovalId {
    type Err = ParseIdError;

    fn from_str(s: &str) -> Result<ApprovalId, ParseIdError> {
        ApprovalId::parse(s)
    }
}

/// Ids are ordered by their UUIDs.
impl Key for ApprovalId {
    type Model = ApprovalId;

    open spec fn model(&self) -> ApprovalId {
        *self
    }

    open spec fn before(a: ApprovalId, b: ApprovalId) -> bool {
        a.uuid < b.uuid
    }

    open spec fn label(m: ApprovalId) -> Seq<char> {
        id_text(ApprovalId::prefix(), m.uuid as int)
    }

    proof fn irreflexive(a: ApprovalId) {
    }

    proof fn transitive(a: ApprovalId, b: ApprovalId, c: ApprovalId) {
    }

    proof fn total(a: ApprovalId, b: ApprovalId) {
    }

    fn rank(&self, other: &ApprovalId) -> (r: Rank) {
        if self.uuid < other.uuid {
            Rank::Before
        } else if self.uuid == other.uuid {
            Rank::Same
        } else {
            Rank::After
        }
    }

    fn duplicate(&self) -> (r: ApprovalId) {
        *self
    }

    fn render(&self) -> (r: String) {
        self.to_text()
    }
}

impl View for TaskId {
    type V = TaskId;

    open spec fn view(&self) -> TaskId {
        *self
    }
}

impl Duplicate for TaskId {
    fn duplicate(&self) -> (r: TaskId) {
        *self
    }
}

/// An id may be written without its prefix in each of the forms that a UUID has: bare, with
/// dashes, in braces, and as a URN.
pub proof fn every_form_is_read(prefix: Seq<char>, v: u128)
    requires
        prefix.len() < 32,
    ensures
        ({
            let d = hex_digits(v as int, 32);
            &&& id_number(prefix, d) == Some(v as int)
            &&& id_number(prefix, dashed(d)) == Some(v as int)
            &&& id_number(prefix, seq!['{'] + dashed(d) + seq!['}']) == Some(v as int)
            &&& id_number(prefix, "urn:uuid:"@ + dashed(d)) == Some(v as int)
        }),
{
    bare_uuid_reads(prefix, v);
    let d = hex_digits(v as int, 32);
    let s = dashed(d);
    hex_digits_are_hex(v as int, 32);
    reveal_strlit("_");
    reveal_strlit("urn:uuid:");
    let braced = seq!['{'] + s + seq!['}'];
    let urn = "urn:uuid:"@ + s;
    let mark = prefix + "_"@;
    let n = prefix.len() as int;
    assert(s.len() == 36);
    assert(mark[n] == '_');
    assert(forall|i: int| 0 <= i < 36 ==> #[trigger] s[i] != '_') by {
        assert(forall|i: int| 0 <= i < 32 ==> #[trigger] d[i] != '_');
    }
    assert(forall|i: int| 0 <= i < 38 ==> #[trigger] braced[i] != '_');
    assert(forall|i: int| 0 <= i < 45 ==> #[trigger] urn[i] != '_');
    if begins(braced, mark) {
        assert(braced.take(n + 1)[n] == braced[n]);
    }
    if begins(urn, mark) {
        assert(urn.take(n + 1)[n] == urn[n]);
    }
    if begins(s, mark) {
        assert(s.take(n + 1)[n] == s[n]);
    }
    assert(braced.subrange(1, 37) =~= s);
    assert(urn.take(9) =~= "urn:uuid:"@);
    assert(urn.skip(9) =~= s);
    assert(uuid_number(braced) == uuid_number(s));
    assert(uuid_number(urn) == uuid_number(s));
}

/// Large and small letters of an id mean the same, and whatever is no hexadecimal digit is
/// refused.
pub proof fn letters_read_the_same(a: Seq<char>, b: Seq<char>, i: int)
    requires
        a.len() == 32,
        b.len() == 32,
        forall|k: int|
            0 <= k < 32 ==> #[trigger] a[k] == b[k] || ('A' <= a[k] <= 'F' && b[k] as int == a[k] as int
                + 32),
        0 <= i < 32,
    ensures
        uuid_number(a) == uuid_number(b),
        ('g' <= a[i] <= 'z' || a[i] == '-' || a[i] == '_' || a[i] == ' ') ==> uuid_number(a) is None,
{
    assert forall|k: int| 0 <= k < 32 implies #[trigger] hex_value(a[k]) == hex_value(b[k]) by {
        assert(a[k] == b[k] || ('A' <= a[k] <= 'F' && b[k] as int == a[k] as int + 32));
    }
    if is_hex(a) {
        assert forall|k: int| 0 <= k < b.len() implies #[trigger] hex_value(b[k]) is Some by {
            assert(hex_value(a[k]) == hex_value(b[k]));
        }
    }
    if is_hex(b) {
        assert forall|k: int| 0 <= k < a.len() implies #[trigger] hex_value(a[k]) is Some by {
            assert(hex_value(a[k]) == hex_value(b[k]));
        }
    }
    same_values_same_number(a, b);
    assert(hex_value(a[i]) is Some || !is_hex(a));
}

proof fn same_values_same_number(a: Seq<char>, b: Seq<char>)
    requires
        a.len() == b.len(),
        forall|k: int| 0 <= k < a.len() ==> #[trigger] hex_value(a[k]) == hex_value(b[k]),
    ensures
        hex_number(a) == hex_number(b),
    decreases a.len(),
{
    if a.len() > 0 {
        let c = a.drop_last();
        let d = b.drop_last();
        assert forall|k: int| 0 <= k < c.len() implies #[trigger] hex_value(c[k]) == hex_value(d[k]) by {
            assert(hex_value(a[k]) == hex_value(b[k]));
        }
        same_values_same_number(c, d);
        assert(hex_value(a[a.len() - 1]) == hex_value(b[a.len() - 1]));
    }
}

} // verus!
