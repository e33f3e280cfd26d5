//! Conversions between the in-memory model and the rows stored in the database.
use vstd::prelude::*;
use crate::ext::{
    json_canonical, json_canonical_of, json_string_list, json_string_list_of, json_string_list_text,
    parse_json_string_list, parse_rfc3339, parse_uuid, rfc3339_of, rfc3339_parse, rfc3339_text,
    uuid_parse, uuid_text, uuid_to_string,
};
use crate::message::{clone_opt_string, parts_view, attachments_view};
use crate::session::approval::{PendingApproval, approvals_view};
use crate::session::session::{Session, SessionView, distinct_strings, distinct_thread_ids, threads_view};
use crate::session::thread::{Thread, ThreadState, ThreadView, turns_view};
use crate::session::turn::{Turn, TurnState, TurnToolCall, TurnToolCallView, TurnView, turn_tool_calls_view};
use crate::text::str_eq;

verus! {

/// Why a stored row could not be read back.
#[derive(Debug)]
pub enum ConvertError {
    UnknownThreadState(String),
    UnknownTurnState(String),
    InvalidUuid(String),
    InvalidDatetime(String),
}

pub enum ConvertErrorView {
    UnknownThreadState(Seq<char>),
    UnknownTurnState(Seq<char>),
    InvalidUuid(Seq<char>),
    InvalidDatetime(Seq<char>),
}

impl View for ConvertError {
    type V = ConvertErrorView;

    open spec fn view(&self) -> ConvertErrorView {
        match self {
            ConvertError::UnknownThreadState(s) => ConvertErrorView::UnknownThreadState(s@),
            ConvertError::UnknownTurnState(s) => ConvertErrorView::UnknownTurnState(s@),
            ConvertError::InvalidUuid(s) => ConvertErrorView::InvalidUuid(s@),
            ConvertError::InvalidDatetime(s) => ConvertErrorView::InvalidDatetime(s@),
        }
    }
}

/// `a` when it holds an error, else `b`: the first of two refusals.
pub open spec fn or_else(a: Option<ConvertErrorView>, b: Option<ConvertErrorView>) -> Option<ConvertErrorView> {
    if a is Some {
        a
    } else {
        b
    }
}

/// The refusal of `s` as an identifier.
pub open spec fn uuid_refusal(s: Seq<char>) -> Option<ConvertErrorView> {
    if uuid_parse(s) is None {
        Some(ConvertErrorView::InvalidUuid(s))
    } else {
        None
    }
}

/// The refusal of `s` as an instant.
pub open spec fn instant_refusal(s: Seq<char>) -> Option<ConvertErrorView> {
    if rfc3339_parse(s) is None {
        Some(ConvertErrorView::InvalidDatetime(s))
    } else {
        None
    }
}

/// The refusal of an optional instant.
pub open spec fn opt_instant_refusal(s: Option<Seq<char>>) -> Option<ConvertErrorView> {
    match s {
        Some(x) => instant_refusal(x),
        None => None,
    }
}

// ── ThreadState <-> text ──

/// The stored name of a thread state.
pub open spec fn thread_state_name(state: ThreadState) -> Seq<char> {
    match state {
        ThreadState::Idle => "Idle"@,
        ThreadState::Processing => "Processing"@,
        ThreadState::AwaitingApproval => "AwaitingApproval"@,
        ThreadState::Completed => "Completed"@,
        ThreadState::Interrupted => "Interrupted"@,
    }
}

/// The thread state stored under the name `s`.
pub open spec fn thread_state_named(s: Seq<char>) -> Option<ThreadState> {
    if s == "Idle"@ {
        Some(ThreadState::Idle)
    } else if s == "Processing"@ {
        Some(ThreadState::Processing)
    } else if s == "AwaitingApproval"@ {
        Some(ThreadState::AwaitingApproval)
    } else if s == "Completed"@ {
        Some(ThreadState::Completed)
    } else if s == "Interrupted"@ {
        Some(ThreadState::Interrupted)
    } else {
        None
    }
}

/// The stored name of a thread state.
pub fn thread_state_to_str(state: ThreadState) -> (s: &'static str)
    ensures
        s@ == thread_state_name(state),
{
    match state {
        ThreadState::Idle => "Idle",
        ThreadState::Processing => "Processing",
        ThreadState::AwaitingApproval => "AwaitingApproval",
        ThreadState::Completed => "Completed",
        ThreadState::Interrupted => "Interrupted",
    }
}

/// Read a thread state from its stored name.
pub fn thread_state_from_str(s: &str) -> (r: Result<ThreadState, ConvertError>)
    ensures
        match r {
            Ok(st) => thread_state_named(s@) == Some(st),
            Err(e) => thread_state_named(s@) is None && (e matches ConvertError::UnknownThreadState(x) && x@ == s@),
        },
{
    if str_eq(s, "Idle") {
        Ok(ThreadState::Idle)
    } else if str_eq(s, "Processing") {
        Ok(ThreadState::Processing)
    } else if str_eq(s, "AwaitingApproval") {
        Ok(ThreadState::AwaitingApproval)
    } else if str_eq(s, "Completed") {
        Ok(ThreadState::Completed)
    } else if str_eq(s, "Interrupted") {
        Ok(ThreadState::Interrupted)
    } else {
        Err(ConvertError::UnknownThreadState(s.to_owned()))
    }
}

// ── TurnState <-> text ──

/// The stored name of a turn state.
pub open spec fn turn_state_name(state: TurnState) -> Seq<char> {
    match state {
        TurnState::Processing => "Processing"@,
        TurnState::Completed => "Completed"@,
        TurnState::Failed => "Failed"@,
        TurnState::Interrupted => "Interrupted"@,
    }
}

/// The turn state stored under the name `s`.
pub open spec fn turn_state_named(s: Seq<char>) -> Option<TurnState> {
    if s == "Processing"@ {
        Some(TurnState::Processing)
    } else if s == "Completed"@ {
        Some(TurnState::Completed)
    } else if s == "Failed"@ {
        Some(TurnState::Failed)
    } else if s == "Interrupted"@ {
        Some(TurnState::Interrupted)
    } else {
        None
    }
}

/// The stored name of a turn state.
pub fn turn_state_to_str(state: TurnState) -> (s: &'static str)
    ensures
        s@ == turn_state_name(state),
{
    match state {
        TurnState::Processing => "Processing",
        TurnState::Completed => "Completed",
        TurnState::Failed => "Failed",
        TurnState::Interrupted => "Interrupted",
    }
}

/// Read a turn state from its stored name.
pub fn turn_state_from_str(s: &str) -> (r: Result<TurnState, ConvertError>)
    ensures
        match r {
            Ok(st) => turn_state_named(s@) == Some(st),
            Err(e) => turn_state_named(s@) is None && (e matches ConvertError::UnknownTurnState(x) && x@ == s@),
        },
{
    if str_eq(s, "Processing") {
        Ok(TurnState::Processing)
    } else if str_eq(s, "Completed") {
        Ok(TurnState::Completed)
    } else if str_eq(s, "Failed") {
        Ok(TurnState::Failed)
    } else if str_eq(s, "Interrupted") {
        Ok(TurnState::Interrupted)
    } else {
        Err(ConvertError::UnknownTurnState(s.to_owned()))
    }
}

/// Law: the name of each thread state reads back as that state, and a name
/// that reads as a state is that state's name.
pub proof fn law_thread_state_names(state: ThreadState, s: Seq<char>)
    ensures
        thread_state_named(thread_state_name(state)) == Some(state),
        thread_state_named(s) matches Some(st) ==> thread_state_name(st) == s,
{
    reveal_strlit("Idle");
    reveal_strlit("Processing");
    reveal_strlit("AwaitingApproval");
    reveal_strlit("Completed");
    reveal_strlit("Interrupted");
    assert("Idle"@.len() == 4);
    assert("Processing"@.len() == 10);
    assert("AwaitingApproval"@.len() == 16);
    assert("Completed"@.len() == 9);
    assert("Interrupted"@.len() == 11);
}

/// Law: the name of each turn state reads back as that state, and a name
/// that reads as a state is that state's name.
pub proof fn law_turn_state_names(state: TurnState, s: Seq<char>)
    ensures
        turn_state_named(turn_state_name(state)) == Some(state),
        turn_state_named(s) matches Some(st) ==> turn_state_name(st) == s,
{
    reveal_strlit("Processing");
    reveal_strlit("Completed");
    reveal_strlit("Failed");
    reveal_strlit("Interrupted");
    assert("Processing"@.len() == 10);
    assert("Completed"@.len() == 9);
    assert("Failed"@.len() == 6);
    assert("Interrupted"@.len() == 11);
}

// ── Timestamp and identifier helpers ──

fn dt_to_str(t: i64) -> (s: String)
    ensures
        s@ == rfc3339_text(t),
        rfc3339_parse(s@) == Some(t),
{
    rfc3339_of(t)
}

fn str_to_dt(s: &str) -> (r: Result<i64, ConvertError>)
    ensures
        match r {
            Ok(t) => rfc3339_parse(s@) == Some(t),
            Err(e) => rfc3339_parse(s@) is None && (e matches ConvertError::InvalidDatetime(x) && x@ == s@),
        },
{
    match parse_rfc3339(s) {
        Some(t) => Ok(t),
        None => Err(ConvertError::InvalidDatetime(s.to_owned())),
    }
}

fn opt_dt_to_str(t: Option<i64>) -> (s: Option<String>)
    ensures
        s.deep_view() == opt_text(t),
        opt_parse(s.deep_view()) == Some(t),
{
    match t {
        Some(x) => Some(dt_to_str(x)),
        None => None,
    }
}

fn opt_str_to_dt(s: &Option<String>) -> (r: Result<Option<i64>, ConvertError>)
    ensures
        match r {
            Ok(t) => opt_parse(s.deep_view()) == Some(t),
            Err(e) => opt_parse(s.deep_view()) is None && opt_instant_refusal(s.deep_view()) == Some(e@),
        },
{
    match s {
        Some(x) => match str_to_dt(x.as_str()) {
            Ok(t) => Ok(Some(t)),
            Err(e) => Err(e),
        },
        None => Ok(None),
    }
}

fn uuid_from_str(s: &str) -> (r: Result<u128, ConvertError>)
    ensures
        match r {
            Ok(id) => uuid_parse(s@) == Some(id),
            Err(e) => uuid_parse(s@) is None && (e matches ConvertError::InvalidUuid(x) && x@ == s@),
        },
{
    match parse_uuid(s) {
        Some(id) => Ok(id),
        None => Err(ConvertError::InvalidUuid(s.to_owned())),
    }
}

/// Text of an optional instant.
pub open spec fn opt_text(t: Option<i64>) -> Option<Seq<char>> {
    match t {
        Some(x) => Some(rfc3339_text(x)),
        None => None,
    }
}

/// An optional instant read from optional text; `None` when the text is refused.
pub open spec fn opt_parse(s: Option<Seq<char>>) -> Option<Option<i64>> {
    match s {
        Some(x) => match rfc3339_parse(x) {
            Some(t) => Some(Some(t)),
            None => None,
        },
        None => Some(None),
    }
}

/// The JSON document `text` is written exactly as `serde_json` writes it.
pub open spec fn is_canonical_json(text: Seq<char>) -> bool {
    json_canonical(text) == Some(text)
}

/// `text` read as JSON and written again, or `fallback` when it is refused.
pub open spec fn canonical_or(text: Seq<char>, fallback: Seq<char>) -> Seq<char> {
    match json_canonical(text) {
        Some(c) => c,
        None => fallback,
    }
}

fn canonical_json_or(text: &str, fallback: &str) -> (r: String)
    ensures
        r@ == canonical_or(text@, fallback@),
{
    match json_canonical_of(text) {
        Some(c) => c,
        None => fallback.to_owned(),
    }
}

// ── Session conversions ──

/// The values written for a new session row.
#[derive(Debug)]
pub struct SessionInsertValues {
    pub id: String,
    pub binding_id: String,
    pub active_thread_id: Option<String>,
    pub auto_approved_tools: String,
    pub metadata: String,
    pub created_at: String,
    pub last_active_at: String,
}

/// A session row as read from the database.
#[derive(Debug)]
pub struct SessionRow {
    pub id: String,
    pub binding_id: String,
    pub active_thread_id: Option<String>,
    pub auto_approved_tools: String,
    pub metadata: String,
    pub created_at: String,
    pub last_active_at: String,
}

/// The values of a new session row, borrowed for insertion.
pub struct NewSessionRow<'a> {
    pub id: &'a str,
    pub binding_id: &'a str,
    pub active_thread_id: Option<&'a str>,
    pub auto_approved_tools: &'a str,
    pub metadata: &'a str,
    pub created_at: &'a str,
    pub last_active_at: &'a str,
}

/// Optional text of an optional identifier.
pub open spec fn opt_uuid_text(id: Option<u128>) -> Option<Seq<char>> {
    match id {
        Some(x) => Some(uuid_text(x)),
        None => None,
    }
}

/// The row of session `s`: identifiers and instants as text, the tools as a JSON array.
pub open spec fn session_row_of(s: SessionView) -> SessionRowView {
    SessionRowView {
        id: uuid_text(s.id),
        binding_id: s.binding_id,
        active_thread_id: opt_uuid_text(s.active_thread),
        auto_approved_tools: json_string_list_text(s.auto_approved_tools),
        metadata: s.metadata,
        created_at: rfc3339_text(s.created_at),
        last_active_at: rfc3339_text(s.last_active_at),
    }
}

/// `r` is the row written for session `s`, and each of its identifiers,
/// instants and tool list reads back as the value written (as the wrappers
/// that wrote them state).
pub open spec fn session_row_written(r: SessionRowView, s: SessionView) -> bool {
    &&& r == session_row_of(s)
    &&& uuid_parse(r.id) == Some(s.id)
    &&& (s.active_thread matches Some(t) ==> uuid_parse(uuid_text(t)) == Some(t))
    &&& rfc3339_parse(r.created_at) == Some(s.created_at)
    &&& rfc3339_parse(r.last_active_at) == Some(s.last_active_at)
    &&& json_string_list(r.auto_approved_tools) == Some(s.auto_approved_tools)
}

pub struct SessionRowView {
    pub id: Seq<char>,
    pub binding_id: Seq<char>,
    pub active_thread_id: Option<Seq<char>>,
    pub auto_approved_tools: Seq<char>,
    pub metadata: Seq<char>,
    pub created_at: Seq<char>,
    pub last_active_at: Seq<char>,
}

impl View for SessionInsertValues {
    type V = SessionRowView;

    open spec fn view(&self) -> SessionRowView {
        SessionRowView {
            id: self.id@,
            binding_id: self.binding_id@,
            active_thread_id: self.active_thread_id.deep_view(),
            auto_approved_tools: self.auto_approved_tools@,
            metadata: self.metadata@,
            created_at: self.created_at@,
            last_active_at: self.last_active_at@,
        }
    }
}

impl View for SessionRow {
    type V = SessionRowView;

    open spec fn view(&self) -> SessionRowView {
        SessionRowView {
            id: self.id@,
            binding_id: self.binding_id@,
            active_thread_id: self.active_thread_id.deep_view(),
            auto_approved_tools: self.auto_approved_tools@,
            metadata: self.metadata@,
            created_at: self.created_at@,
            last_active_at: self.last_active_at@,
        }
    }
}

impl SessionInsertValues {
    /// The values of the row of `session`.
    pub fn from_session(session: &Session) -> (v: Self)
        ensures
            session_row_written(v@, session@),
    {
        SessionInsertValues {
            id: uuid_to_string(session.id),
            binding_id: session.binding_id.clone(),
            active_thread_id: match session.active_thread {
                Some(t) => Some(uuid_to_string(t)),
                None => None,
            },
            auto_approved_tools: json_string_list_of(&session.auto_approved_tools),
            metadata: session.metadata.clone(),
            created_at: dt_to_str(session.created_at),
            last_active_at: dt_to_str(session.last_active_at),
        }
    }

    /// The values borrowed for insertion.
    pub fn as_new_row(&self) -> (r: NewSessionRow<'_>)
        ensures
            r.id@ == self.id@,
            r.binding_id@ == self.binding_id@,
            r.active_thread_id.deep_view() == self.active_thread_id.deep_view(),
            r.auto_approved_tools@ == self.auto_approved_tools@,
            r.metadata@ == self.metadata@,
            r.created_at@ == self.created_at@,
            r.last_active_at@ == self.last_active_at@,
    {
        NewSessionRow {
            id: self.id.as_str(),
            binding_id: self.binding_id.as_str(),
            active_thread_id: match &self.active_thread_id {
                Some(t) => Some(t.as_str()),
                None => None,
            },
            auto_approved_tools: self.auto_approved_tools.as_str(),
            metadata: self.metadata.as_str(),
            created_at: self.created_at.as_str(),
            last_active_at: self.last_active_at.as_str(),
        }
    }
}

/// `s` without repeated strings, keeping first occurrences in order.
pub open spec fn dedup(s: Seq<Seq<char>>) -> Seq<Seq<char>>
    decreases s.len(),
{
    if s.len() == 0 {
        s
    } else {
        let d = dedup(s.drop_last());
        if d.contains(s.last()) {
            d
        } else {
            d.push(s.last())
        }
    }
}

proof fn lemma_dedup_distinct(s: Seq<Seq<char>>)
    ensures
        distinct_strings(dedup(s)),
        forall|x: Seq<char>| dedup(s).contains(x) <==> s.contains(x),
    decreases s.len(),
{
    if s.len() > 0 {
        let t = s.drop_last();
        lemma_dedup_distinct(t);
        let d = dedup(t);
        assert forall|x: Seq<char>| dedup(s).contains(x) <==> s.contains(x) by {
            if s.contains(x) {
                let i = choose|i: int| 0 <= i < s.len() && s[i] == x;
                if i < s.len() - 1 {
                    assert(t[i] == x);
                    assert(t.contains(x));
                    assert(d.contains(x));
                    if !d.contains(s.last()) {
                        let k = choose|k: int| 0 <= k < d.len() && d[k] == x;
                        assert(d.push(s.last())[k] == x);
                    }
                } else {
                    if !d.contains(s.last()) {
                        assert(d.push(s.last())[d.len() as int] == x);
                    }
                }
            }
            if dedup(s).contains(x) {
                let k = choose|k: int| 0 <= k < dedup(s).len() && dedup(s)[k] == x;
                if k < d.len() {
                    assert(d[k] == x);
                    assert(d.contains(x));
                    assert(t.contains(x));
                    let i = choose|i: int| 0 <= i < t.len() && t[i] == x;
                    assert(s[i] == x);
                } else {
                    assert(x == s.last());
                    assert(s[s.len() - 1] == x);
                }
            }
        }
    }
}

/// Law-side fact: a list without repeats is its own `dedup`.
pub proof fn lemma_dedup_of_distinct(s: Seq<Seq<char>>)
    requires
        distinct_strings(s),
    ensures
        dedup(s) == s,
    decreases s.len(),
{
    if s.len() > 0 {
        let t = s.drop_last();
        assert(distinct_strings(t));
        lemma_dedup_of_distinct(t);
        assert(!t.contains(s.last())) by {
            if t.contains(s.last()) {
                let i = choose|i: int| 0 <= i < t.len() && t[i] == s.last();
                assert(s[i] == s[s.len() - 1]);
            }
        }
        assert(t.push(s.last()) =~= s);
    }
}

fn contains_string(v: &Vec<String>, x: &str) -> (b: bool)
    ensures
        b == v.deep_view().contains(x@),
{
    let mut i: usize = 0;
    while i < v.len()
        invariant
            i <= v@.len(),
            forall|j: int| 0 <= j < i ==> v.deep_view()[j] != x@,
        decreases v@.len() - i,
    {
        if str_eq(v[i].as_str(), x) {
            proof {
                assert(v.deep_view()[i as int] == x@);
            }
            return true;
        }
        i = i + 1;
    }
    false
}

/// The strings of `v` without repeats, keeping first occurrences in order.
pub fn dedup_strings(v: Vec<String>) -> (r: Vec<String>)
    ensures
        r.deep_view() == dedup(v.deep_view()),
        distinct_strings(r.deep_view()),
{
    let mut r: Vec<String> = Vec::new();
    let ghost dv = v.deep_view();
    for i in 0..v.len()
        invariant
            dv == v.deep_view(),
            r.deep_view() == dedup(dv.take(i as int)),
    {
        proof {
            assert(dv.take(i + 1).drop_last() =~= dv.take(i as int));
        }
        if !contains_string(&r, v[i].as_str()) {
            r.push(v[i].clone());
            proof {
                assert(r.deep_view() =~= dedup(dv.take(i as int)).push(dv[i as int]));
            }
        }
    }
    proof {
        assert(dv.take(v.len() as int) =~= dv);
        lemma_dedup_distinct(dv);
    }
    r
}

/// The session read back from `row` with `threads`: `None` when an identifier
/// or instant is refused. The tools are the JSON array's strings without
/// repeats (none when refused); metadata is the row's JSON written again, or
/// `null` when refused.
pub open spec fn session_from_row_spec(row: SessionRowView, threads: Seq<ThreadView>) -> Option<SessionView> {
    match (uuid_parse(row.id), rfc3339_parse(row.created_at), rfc3339_parse(row.last_active_at)) {
        (Some(id), Some(created_at), Some(last_active_at)) => {
            let active = match row.active_thread_id {
                Some(t) => match uuid_parse(t) {
                    Some(x) => Some(Some(x)),
                    None => None,
                },
                None => Some(None),
            };
            match active {
                Some(active_thread) => Some(
                    SessionView {
                        id,
                        binding_id: row.binding_id,
                        active_thread,
                        threads,
                        auto_approved_tools: dedup(
                            match json_string_list(row.auto_approved_tools) {
                                Some(l) => l,
                                None => Seq::empty(),
                            },
                        ),
                        metadata: canonical_or(row.metadata, "null"@),
                        created_at,
                        last_active_at,
                    },
                ),
                None => None,
            }
        },
        _ => None,
    }
}

/// The refusal met first when reading a session row: its identifier, its
/// active thread, its creation and its last activity, in that order; `None`
/// when it reads back.
pub open spec fn session_row_error(row: SessionRowView) -> Option<ConvertErrorView> {
    or_else(
        uuid_refusal(row.id),
        or_else(
            match row.active_thread_id {
                Some(t) => uuid_refusal(t),
                None => None,
            },
            or_else(instant_refusal(row.created_at), instant_refusal(row.last_active_at)),
        ),
    )
}

/// Read a session back from its row and its threads.
pub fn session_from_row(row: SessionRow, threads: Vec<Thread>) -> (r: Result<Session, ConvertError>)
    requires
        distinct_thread_ids(threads_view(threads@)),
    ensures
        match r {
            Ok(s) => session_from_row_spec(row@, threads_view(threads@)) == Some(s@) && s@.wf() && session_row_error(row@) is None,
            Err(e) => session_from_row_spec(row@, threads_view(threads@)) is None && session_row_error(row@) == Some(e@),
        },
{
    let id = match uuid_from_str(row.id.as_str()) {
        Ok(x) => x,
        Err(e) => return Err(e),
    };
    let active_thread = match &row.active_thread_id {
        Some(t) => match uuid_from_str(t.as_str()) {
            Ok(x) => Some(x),
            Err(e) => {
                proof {
                    assert(session_from_row_spec(row@, threads_view(threads@)) is None);
                }
                return Err(e);
            },
        },
        None => None,
    };
    let created_at = match str_to_dt(row.created_at.as_str()) {
        Ok(x) => x,
        Err(e) => return Err(e),
    };
    let last_active_at = match str_to_dt(row.last_active_at.as_str()) {
        Ok(x) => x,
        Err(e) => return Err(e),
    };
    let metadata = canonical_json_or(row.metadata.as_str(), "null");
    let tools = match parse_json_string_list(row.auto_approved_tools.as_str()) {
        Some(l) => l,
        None => Vec::new(),
    };
    proof {
        assert(tools.deep_view() == match json_string_list(row.auto_approved_tools@) {
            Some(l) => l,
            None => Seq::<Seq<char>>::empty(),
        }) by {
            if json_string_list(row.auto_approved_tools@) is None {
                assert(tools.deep_view() =~= Seq::<Seq<char>>::empty());
            }
        }
    }
    let auto_approved_tools = dedup_strings(tools);
    Ok(Session {
        id,
        binding_id: row.binding_id,
        active_thread,
        threads,
        auto_approved_tools,
        metadata,
        created_at,
        last_active_at,
    })
}

/// Law: a session written as a row reads back as itself, when its metadata
/// is a JSON document as `serde_json` writes it.
pub proof fn law_session_row_round_trip(row: SessionRowView, s: SessionView)
    requires
        s.wf(),
        is_canonical_json(s.metadata),
        session_row_written(row, s),
    ensures
        session_from_row_spec(row, s.threads) == Some(s),
{
    lemma_dedup_of_distinct(s.auto_approved_tools);
}

// ── Thread conversions ──

/// The values written for a new thread row. `pending_approvals` is a JSON array.
#[derive(Debug)]
pub struct ThreadInsertValues {
    pub id: String,
    pub session_id: String,
    pub user_id: String,
    pub channel: String,
    pub external_thread_id: Option<String>,
    pub state: String,
    pub metadata: String,
    pub pending_approvals: String,
    pub created_at: String,
    pub updated_at: String,
}

/// A thread row as read from the database.
#[derive(Debug)]
pub struct ThreadRow {
    pub id: String,
    pub session_id: String,
    pub user_id: String,
    pub channel: String,
    pub external_thread_id: Option<String>,
    pub state: String,
    pub metadata: String,
    pub pending_approvals: String,
    pub created_at: String,
    pub updated_at: String,
}

/// The values of a new thread row, borrowed for insertion.
pub struct NewThreadRow<'a> {
    pub id: &'a str,
    pub session_id: &'a str,
    pub user_id: &'a str,
    pub channel: &'a str,
    pub external_thread_id: Option<&'a str>,
    pub state: &'a str,
    pub metadata: &'a str,
    pub pending_approvals: &'a str,
    pub created_at: &'a str,
    pub updated_at: &'a str,
}

pub struct ThreadRowView {
    pub id: Seq<char>,
    pub session_id: Seq<char>,
    pub user_id: Seq<char>,
    pub channel: Seq<char>,
    pub external_thread_id: Option<Seq<char>>,
    pub state: Seq<char>,
    pub metadata: Seq<char>,
    pub pending_approvals: Seq<char>,
    pub created_at: Seq<char>,
    pub updated_at: Seq<char>,
}

impl View for ThreadInsertValues {
    type V = ThreadRowView;

    open spec fn view(&self) -> ThreadRowView {
        ThreadRowView {
            id: self.id@,
            session_id: self.session_id@,
            user_id: self.user_id@,
            channel: self.channel@,
            external_thread_id: self.external_thread_id.deep_view(),
            state: self.state@,
            metadata: self.metadata@,
            pending_approvals: self.pending_approvals@,
            created_at: self.created_at@,
            updated_at: self.updated_at@,
        }
    }
}

impl View for ThreadRow {
    type V = ThreadRowView;

    open spec fn view(&self) -> ThreadRowView {
        ThreadRowView {
            id: self.id@,
            session_id: self.session_id@,
            user_id: self.user_id@,
            channel: self.channel@,
            external_thread_id: self.external_thread_id.deep_view(),
            state: self.state@,
            metadata: self.metadata@,
            pending_approvals: self.pending_approvals@,
            created_at: self.created_at@,
            updated_at: self.updated_at@,
        }
    }
}

/// The row of thread `t`, its pending approvals written as `pending_approvals`.
pub open spec fn thread_row_of(t: ThreadView, pending_approvals: Seq<char>) -> ThreadRowView {
    ThreadRowView {
        id: uuid_text(t.id),
        session_id: uuid_text(t.session_id),
        user_id: t.user_id,
        channel: t.channel,
        external_thread_id: t.external_thread_id,
        state: thread_state_name(t.state),
        metadata: t.metadata,
        pending_approvals,
        created_at: rfc3339_text(t.created_at),
        updated_at: rfc3339_text(t.updated_at),
    }
}

/// `r` is the row written for thread `t`, and its identifiers and instants
/// read back as the values written.
pub open spec fn thread_row_written(r: ThreadRowView, t: ThreadView, pending_approvals: Seq<char>) -> bool {
    &&& r == thread_row_of(t, pending_approvals)
    &&& uuid_parse(r.id) == Some(t.id)
    &&& uuid_parse(r.session_id) == Some(t.session_id)
    &&& rfc3339_parse(r.created_at) == Some(t.created_at)
    &&& rfc3339_parse(r.updated_at) == Some(t.updated_at)
}

impl ThreadInsertValues {
    /// The values of the row of `thread`; `pending_approvals` is the JSON text
    /// of its pending approvals.
    pub fn from_thread(thread: &Thread, pending_approvals: String) -> (v: Self)
        ensures
            thread_row_written(v@, thread@, pending_approvals@),
    {
        ThreadInsertValues {
            id: uuid_to_string(thread.id),
            session_id: uuid_to_string(thread.session_id),
            user_id: thread.user_id.clone(),
            channel: thread.channel.clone(),
            external_thread_id: clone_opt_string(&thread.external_thread_id),
            state: thread_state_to_str(thread.state).to_owned(),
            metadata: thread.metadata.clone(),
            pending_approvals,
            created_at: dt_to_str(thread.created_at),
            updated_at: dt_to_str(thread.updated_at),
        }
    }

    /// The values borrowed for insertion.
    pub fn as_new_row(&self) -> (r: NewThreadRow<'_>)
        ensures
            r.id@ == self.id@,
            r.session_id@ == self.session_id@,
            r.user_id@ == self.user_id@,
            r.channel@ == self.channel@,
            r.external_thread_id.deep_view() == self.external_thread_id.deep_view(),
            r.state@ == self.state@,
            r.metadata@ == self.metadata@,
            r.pending_approvals@ == self.pending_approvals@,
            r.created_at@ == self.created_at@,
            r.updated_at@ == self.updated_at@,
    {
        NewThreadRow {
            id: self.id.as_str(),
            session_id: self.session_id.as_str(),
            user_id: self.user_id.as_str(),
            channel: self.channel.as_str(),
            external_thread_id: match &self.external_thread_id {
                Some(t) => Some(t.as_str()),
                None => None,
            },
            state: self.state.as_str(),
            metadata: self.metadata.as_str(),
            pending_approvals: self.pending_approvals.as_str(),
            created_at: self.created_at.as_str(),
            updated_at: self.updated_at.as_str(),
        }
    }
}

/// The thread read back from `row` with its turns and pending approvals:
/// `None` when an identifier, the state or an instant is refused. Metadata is
/// the row's JSON written again, or `null` when refused.
pub open spec fn thread_from_row_spec(
    row: ThreadRowView,
    turns: Seq<TurnView>,
    pending_approvals: Seq<crate::session::approval::PendingApprovalView>,
) -> Option<ThreadView> {
    match (
        uuid_parse(row.id),
        uuid_parse(row.session_id),
        thread_state_named(row.state),
        rfc3339_parse(row.created_at),
        rfc3339_parse(row.updated_at),
    ) {
        (Some(id), Some(session_id), Some(state), Some(created_at), Some(updated_at)) => Some(
            ThreadView {
                id,
                session_id,
                user_id: row.user_id,
                channel: row.channel,
                external_thread_id: row.external_thread_id,
                state,
                turns,
                created_at,
                updated_at,
                metadata: canonical_or(row.metadata, "null"@),
                pending_approvals,
            },
        ),
        _ => None,
    }
}

/// The refusal met first when reading a thread row: its identifiers, its
/// state, its creation and its last update, in that order; `None` when it
/// reads back.
pub open spec fn thread_row_error(row: ThreadRowView) -> Option<ConvertErrorView> {
    or_else(
        uuid_refusal(row.id),
        or_else(
            uuid_refusal(row.session_id),
            or_else(
                if thread_state_named(row.state) is None {
                    Some(ConvertErrorView::UnknownThreadState(row.state))
                } else {
                    None
                },
                or_else(instant_refusal(row.created_at), instant_refusal(row.updated_at)),
            ),
        ),
    )
}

/// Read a thread back from its row, its turns and its pending approvals
/// (read from the row's `pending_approvals` JSON).
pub fn thread_from_row(row: ThreadRow, turns: Vec<Turn>, pending_approvals: Vec<PendingApproval>) -> (r: Result<Thread, ConvertError>)
    ensures
        match r {
            Ok(t) => thread_from_row_spec(row@, turns_view(turns@), approvals_view(pending_approvals@)) == Some(t@)
                && thread_row_error(row@) is None,
            Err(e) => thread_from_row_spec(row@, turns_view(turns@), approvals_view(pending_approvals@)) is None
                && thread_row_error(row@) == Some(e@),
        },
{
    let id = match uuid_from_str(row.id.as_str()) {
        Ok(x) => x,
        Err(e) => return Err(e),
    };
    let session_id = match uuid_from_str(row.session_id.as_str()) {
        Ok(x) => x,
        Err(e) => return Err(e),
    };
    let state = match thread_state_from_str(row.state.as_str()) {
        Ok(x) => x,
        Err(e) => return Err(e),
    };
    let created_at = match str_to_dt(row.created_at.as_str()) {
        Ok(x) => x,
        Err(e) => return Err(e),
    };
    let updated_at = match str_to_dt(row.updated_at.as_str()) {
        Ok(x) => x,
        Err(e) => return Err(e),
    };
    let metadata = canonical_json_or(row.metadata.as_str(), "null");
    Ok(Thread {
        id,
        session_id,
        user_id: row.user_id,
        channel: row.channel,
        external_thread_id: row.external_thread_id,
        state,
        turns,
        created_at,
        updated_at,
        metadata,
        pending_approvals,
    })
}

/// Law: a thread written as a row reads back as itself, when its metadata is
/// a JSON document as `serde_json` writes it.
pub proof fn law_thread_row_round_trip(row: ThreadRowView, t: ThreadView, pending_approvals: Seq<char>)
    requires
        is_canonical_json(t.metadata),
        thread_row_written(row, t, pending_approvals),
    ensures
        thread_from_row_spec(row, t.turns, t.pending_approvals) == Some(t),
{
    law_thread_state_names(t.state, row.state);
}

// ── Turn conversions ──

/// The values written for a new turn row.
#[derive(Debug)]
pub struct TurnInsertValues {
    pub id: String,
    pub thread_id: String,
    pub session_id: String,
    pub turn_number: i32,
    pub user_input: String,
    pub thinking: Option<String>,
    pub response: Option<String>,
    pub state: String,
    pub started_at: String,
    pub completed_at: Option<String>,
    pub error: Option<String>,
    pub current_tool_iterations: i32,
    pub draft_message_id: Option<String>,
}

/// A turn row as read from the database.
#[derive(Debug)]
pub struct TurnRow {
    pub id: String,
    pub thread_id: String,
    pub session_id: String,
    pub turn_number: i32,
    pub user_input: String,
    pub thinking: Option<String>,
    pub response: Option<String>,
    pub state: String,
    pub started_at: String,
    pub completed_at: Option<String>,
    pub error: Option<String>,
    pub current_tool_iterations: i32,
    pub draft_message_id: Option<String>,
}

/// The values of a new turn row, borrowed for insertion.
pub struct NewTurnRow<'a> {
    pub id: &'a str,
    pub thread_id: &'a str,
    pub session_id: &'a str,
    pub turn_number: i32,
    pub user_input: &'a str,
    pub thinking: Option<&'a str>,
    pub response: Option<&'a str>,
    pub state: &'a str,
    pub started_at: &'a str,
    pub completed_at: Option<&'a str>,
    pub error: Option<&'a str>,
    pub current_tool_iterations: i32,
    pub draft_message_id: Option<&'a str>,
}

pub struct TurnRowView {
    pub id: Seq<char>,
    pub thread_id: Seq<char>,
    pub session_id: Seq<char>,
    pub turn_number: i32,
    pub user_input: Seq<char>,
    pub thinking: Option<Seq<char>>,
    pub response: Option<Seq<char>>,
    pub state: Seq<char>,
    pub started_at: Seq<char>,
    pub completed_at: Option<Seq<char>>,
    pub error: Option<Seq<char>>,
    pub current_tool_iterations: i32,
    pub draft_message_id: Option<Seq<char>>,
}

impl View for TurnInsertValues {
    type V = TurnRowView;

    open spec fn view(&self) -> TurnRowView {
        TurnRowView {
            id: self.id@,
            thread_id: self.thread_id@,
            session_id: self.session_id@,
            turn_number: self.turn_number,
            user_input: self.user_input@,
            thinking: self.thinking.deep_view(),
            response: self.response.deep_view(),
            state: self.state@,
            started_at: self.started_at@,
            completed_at: self.completed_at.deep_view(),
            error: self.error.deep_view(),
            current_tool_iterations: self.current_tool_iterations,
            draft_message_id: self.draft_message_id.deep_view(),
        }
    }
}

impl View for TurnRow {
    type V = TurnRowView;

    open spec fn view(&self) -> TurnRowView {
        TurnRowView {
            id: self.id@,
            thread_id: self.thread_id@,
            session_id: self.session_id@,
            turn_number: self.turn_number,
            user_input: self.user_input@,
            thinking: self.thinking.deep_view(),
            response: self.response.deep_view(),
            state: self.state@,
            started_at: self.started_at@,
            completed_at: self.completed_at.deep_view(),
            error: self.error.deep_view(),
            current_tool_iterations: self.current_tool_iterations,
            draft_message_id: self.draft_message_id.deep_view(),
        }
    }
}

/// The row of turn `t`; the turn number and the tool iteration count are
/// cast to `i32` as `as` does.
pub open spec fn turn_row_of(t: TurnView) -> TurnRowView {
    TurnRowView {
        id: uuid_text(t.id),
        thread_id: uuid_text(t.thread_id),
        session_id: uuid_text(t.session_id),
        turn_number: t.turn_number as i32,
        user_input: t.user_input,
        thinking: t.thinking,
        response: t.response,
        state: turn_state_name(t.state),
        started_at: rfc3339_text(t.started_at),
        completed_at: opt_text(t.completed_at),
        error: t.error,
        current_tool_iterations: t.current_tool_iterations as i32,
        draft_message_id: t.draft_message_id,
    }
}

/// `r` is the row written for turn `t`, and its identifiers and instants
/// read back as the values written.
pub open spec fn turn_row_written(r: TurnRowView, t: TurnView) -> bool {
    &&& r == turn_row_of(t)
    &&& uuid_parse(r.id) == Some(t.id)
    &&& uuid_parse(r.thread_id) == Some(t.thread_id)
    &&& uuid_parse(r.session_id) == Some(t.session_id)
    &&& rfc3339_parse(r.started_at) == Some(t.started_at)
    &&& opt_parse(r.completed_at) == Some(t.completed_at)
}

impl TurnInsertValues {
    /// The values of the row of `turn`.
    pub fn from_turn(turn: &Turn) -> (v: Self)
        ensures
            turn_row_written(v@, turn@),
    {
        let completed_at = opt_dt_to_str(turn.completed_at);
        TurnInsertValues {
            id: uuid_to_string(turn.id),
            thread_id: uuid_to_string(turn.thread_id),
            session_id: uuid_to_string(turn.session_id),
            turn_number: #[verifier::truncate] (turn.turn_number as i32),
            user_input: turn.user_input.clone(),
            thinking: clone_opt_string(&turn.thinking),
            response: clone_opt_string(&turn.response),
            state: turn_state_to_str(turn.state).to_owned(),
            started_at: dt_to_str(turn.started_at),
            completed_at,
            error: clone_opt_string(&turn.error),
            current_tool_iterations: #[verifier::truncate] (turn.current_tool_iterations as i32),
            draft_message_id: clone_opt_string(&turn.draft_message_id),
        }
    }

    /// The values borrowed for insertion.
    pub fn as_new_row(&self) -> (r: NewTurnRow<'_>)
        ensures
            r.id@ == self.id@,
            r.thread_id@ == self.thread_id@,
            r.session_id@ == self.session_id@,
            r.turn_number == self.turn_number,
            r.user_input@ == self.user_input@,
            r.thinking.deep_view() == self.thinking.deep_view(),
            r.response.deep_view() == self.response.deep_view(),
            r.state@ == self.state@,
            r.started_at@ == self.started_at@,
            r.completed_at.deep_view() == self.completed_at.deep_view(),
            r.error.deep_view() == self.error.deep_view(),
            r.current_tool_iterations == self.current_tool_iterations,
            r.draft_message_id.deep_view() == self.draft_message_id.deep_view(),
    {
        NewTurnRow {
            id: self.id.as_str(),
            thread_id: self.thread_id.as_str(),
            session_id: self.session_id.as_str(),
            turn_number: self.turn_number,
            user_input: self.user_input.as_str(),
            thinking: opt_as_str(&self.thinking),
            response: opt_as_str(&self.response),
            state: self.state.as_str(),
            started_at: self.started_at.as_str(),
            completed_at: opt_as_str(&self.completed_at),
            error: opt_as_str(&self.error),
            current_tool_iterations: self.current_tool_iterations,
            draft_message_id: opt_as_str(&self.draft_message_id),
        }
    }
}

fn opt_as_str(s: &Option<String>) -> (r: Option<&str>)
    ensures
        r.deep_view() == s.deep_view(),
{
    match s {
        Some(x) => Some(x.as_str()),
        None => None,
    }
}

/// The turn read back from `row` with its tool calls: `None` when an
/// identifier, the state or an instant is refused. The turn number and the
/// tool iteration count are cast to `usize` as `as` does; the turn has no
/// image content and no attachments.
pub open spec fn turn_from_row_spec(row: TurnRowView, tool_calls: Seq<TurnToolCallView>) -> Option<TurnView> {
    match (
        uuid_parse(row.id),
        uuid_parse(row.thread_id),
        uuid_parse(row.session_id),
        turn_state_named(row.state),
        rfc3339_parse(row.started_at),
        opt_parse(row.completed_at),
    ) {
        (Some(id), Some(thread_id), Some(session_id), Some(state), Some(started_at), Some(completed_at)) => Some(
            TurnView {
                id,
                thread_id,
                session_id,
                turn_number: #[verifier::truncate] (row.turn_number as usize),
                user_input: row.user_input,
                thinking: row.thinking,
                response: row.response,
                tool_calls,
                state,
                started_at,
                completed_at,
                error: row.error,
                image_content_parts: Seq::empty(),
                current_tool_iterations: #[verifier::truncate] (row.current_tool_iterations as usize),
                draft_message_id: row.draft_message_id,
                attachments: Seq::empty(),
            },
        ),
        _ => None,
    }
}

/// The refusal met first when reading a turn row: its identifiers, its
/// state, its start and its end, in that order; `None` when it reads back.
pub open spec fn turn_row_error(row: TurnRowView) -> Option<ConvertErrorView> {
    or_else(
        uuid_refusal(row.id),
        or_else(
            uuid_refusal(row.thread_id),
            or_else(
                uuid_refusal(row.session_id),
                or_else(
                    if turn_state_named(row.state) is None {
                        Some(ConvertErrorView::UnknownTurnState(row.state))
                    } else {
                        None
                    },
                    or_else(instant_refusal(row.started_at), opt_instant_refusal(row.completed_at)),
                ),
            ),
        ),
    )
}

/// Read a turn back from its row and its tool calls.
pub fn turn_from_row(row: TurnRow, tool_calls: Vec<TurnToolCall>) -> (r: Result<Turn, ConvertError>)
    ensures
        match r {
            Ok(t) => turn_from_row_spec(row@, turn_tool_calls_view(tool_calls@)) == Some(t@) && turn_row_error(row@) is None,
            Err(e) => turn_from_row_spec(row@, turn_tool_calls_view(tool_calls@)) is None && turn_row_error(row@) == Some(e@),
        },
{
    let id = match uuid_from_str(row.id.as_str()) {
        Ok(x) => x,
        Err(e) => return Err(e),
    };
    let thread_id = match uuid_from_str(row.thread_id.as_str()) {
        Ok(x) => x,
        Err(e) => return Err(e),
    };
    let session_id = match uuid_from_str(row.session_id.as_str()) {
        Ok(x) => x,
        Err(e) => return Err(e),
    };
    let state = match turn_state_from_str(row.state.as_str()) {
        Ok(x) => x,
        Err(e) => return Err(e),
    };
    let started_at = match str_to_dt(row.started_at.as_str()) {
        Ok(x) => x,
        Err(e) => return Err(e),
    };
    let completed_at = match opt_str_to_dt(&row.completed_at) {
        Ok(x) => x,
        Err(e) => return Err(e),
    };
    let t = Turn {
        id,
        thread_id,
        session_id,
        turn_number: #[verifier::truncate] (row.turn_number as usize),
        user_input: row.user_input,
        thinking: row.thinking,
        response: row.response,
        tool_calls,
        state,
        started_at,
        completed_at,
        error: row.error,
        image_content_parts: Vec::new(),
        current_tool_iterations: #[verifier::truncate] (row.current_tool_iterations as usize),
        draft_message_id: row.draft_message_id,
        attachments: Vec::new(),
    };
    proof {
        assert(parts_view(t.image_content_parts@) =~= Seq::empty());
        assert(attachments_view(t.attachments@) =~= Seq::empty());
    }
    Ok(t)
}

/// Law: a turn written as a row reads back as itself, when its number and
/// tool iteration count fit in `i32` and it has no image content and no
/// attachments (which the row does not hold).
pub proof fn law_turn_row_round_trip(row: TurnRowView, t: TurnView)
    requires
        t.turn_number <= i32::MAX,
        t.current_tool_iterations <= i32::MAX,
        t.image_content_parts.len() == 0,
        t.attachments.len() == 0,
        turn_row_written(row, t),
    ensures
        turn_from_row_spec(row, t.tool_calls) == Some(t),
{
    law_turn_state_names(t.state, row.state);
    assert(t.image_content_parts =~= Seq::empty());
    assert(t.attachments =~= Seq::empty());
}

// ── Tool call conversions ──

/// The values written for a new tool call row.
#[derive(Debug)]
pub struct ToolCallInsertValues {
    pub turn_id: String,
    pub call_index: i32,
    pub name: String,
    pub parameters: String,
    pub result: Option<String>,
    pub error: Option<String>,
}

/// A tool call row as read from the database.
#[derive(Debug)]
pub struct ToolCallRow {
    pub id: i32,
    pub turn_id: String,
    pub call_index: i32,
    pub name: String,
    pub parameters: String,
    pub result: Option<String>,
    pub error: Option<String>,
}

/// The values of a new tool call row, borrowed for insertion.
pub struct NewToolCallRow<'a> {
    pub turn_id: &'a str,
    pub call_index: i32,
    pub name: &'a str,
    pub parameters: &'a str,
    pub result: Option<&'a str>,
    pub error: Option<&'a str>,
}

pub struct ToolCallRowView {
    pub turn_id: Seq<char>,
    pub call_index: i32,
    pub name: Seq<char>,
    pub parameters: Seq<char>,
    pub result: Option<Seq<char>>,
    pub error: Option<Seq<char>>,
}

impl View for ToolCallInsertValues {
    type V = ToolCallRowView;

    open spec fn view(&self) -> ToolCallRowView {
        ToolCallRowView {
            turn_id: self.turn_id@,
            call_index: self.call_index,
            name: self.name@,
            parameters: self.parameters@,
            result: self.result.deep_view(),
            error: self.error.deep_view(),
        }
    }
}

impl View for ToolCallRow {
    type V = ToolCallRowView;

    open spec fn view(&self) -> ToolCallRowView {
        ToolCallRowView {
            turn_id: self.turn_id@,
            call_index: self.call_index,
            name: self.name@,
            parameters: self.parameters@,
            result: self.result.deep_view(),
            error: self.error.deep_view(),
        }
    }
}

/// The row of the `index`-th tool call `tc` of turn `turn_id`.
pub open spec fn tool_call_row_of(turn_id: Seq<char>, index: usize, tc: TurnToolCallView) -> ToolCallRowView {
    ToolCallRowView {
        turn_id,
        call_index: #[verifier::truncate] (index as i32),
        name: tc.name,
        parameters: tc.parameters,
        result: tc.result,
        error: tc.error,
    }
}

impl ToolCallInsertValues {
    /// The values of the row of the `index`-th tool call of turn `turn_id`.
    pub fn from_tool_call(turn_id: &str, index: usize, tc: &TurnToolCall) -> (v: Self)
        ensures
            v@ == tool_call_row_of(turn_id@, index, tc@),
    {
        ToolCallInsertValues {
            turn_id: turn_id.to_owned(),
            call_index: #[verifier::truncate] (index as i32),
            name: tc.name.clone(),
            parameters: tc.parameters.clone(),
            result: clone_opt_string(&tc.result),
            error: clone_opt_string(&tc.error),
        }
    }

    /// The values borrowed for insertion.
    pub fn as_new_row(&self) -> (r: NewToolCallRow<'_>)
        ensures
            r.turn_id@ == self.turn_id@,
            r.call_index == self.call_index,
            r.name@ == self.name@,
            r.parameters@ == self.parameters@,
            r.result.deep_view() == self.result.deep_view(),
            r.error.deep_view() == self.error.deep_view(),
    {
        NewToolCallRow {
            turn_id: self.turn_id.as_str(),
            call_index: self.call_index,
            name: self.name.as_str(),
            parameters: self.parameters.as_str(),
            result: opt_as_str(&self.result),
            error: opt_as_str(&self.error),
        }
    }
}

/// The tool call read back from a row: parameters are the row's JSON written
/// again (`{}` when refused), the result likewise (none when refused).
pub open spec fn tool_call_from_row_spec(row: ToolCallRowView) -> TurnToolCallView {
    TurnToolCallView {
        name: row.name,
        parameters: canonical_or(row.parameters, "{}"@),
        result: match row.result {
            Some(r) => json_canonical(r),
            None => None,
        },
        error: row.error,
    }
}

/// Read a tool call back from its row.
pub fn tool_call_from_row(row: ToolCallRow) -> (tc: TurnToolCall)
    ensures
        tc@ == tool_call_from_row_spec(row@),
{
    let parameters = canonical_json_or(row.parameters.as_str(), "{}");
    let result = match &row.result {
        Some(r) => json_canonical_of(r.as_str()),
        None => None,
    };
    TurnToolCall { name: row.name, parameters, result, error: row.error }
}

/// Law: a tool call written as a row reads back as itself, when its
/// parameters and result are JSON documents as `serde_json` writes them.
pub proof fn law_tool_call_row_round_trip(row: ToolCallRowView, turn_id: Seq<char>, index: usize, tc: TurnToolCallView)
    requires
        is_canonical_json(tc.parameters),
        tc.result matches Some(r) ==> is_canonical_json(r),
        row == tool_call_row_of(turn_id, index, tc),
    ensures
        tool_call_from_row_spec(row) == tc,
{
}

} // verus!
