//! Reading the stored sessions back: the rows of the four tables grouped into
//! sessions, their threads, their turns and the turns' tool calls.
use vstd::prelude::*;
use crate::ext::{uuid_text, uuid_to_string};
use crate::session::approval::{PendingApproval, PendingApprovalView, approvals_view};
use crate::session::manager::sessions_view;
use crate::session::session::{
    Session, SessionView, distinct_thread_ids, has_thread, lemma_put_thread_has, put_thread, threads_view,
};
use crate::session::thread::{Thread, ThreadView, turns_view};
use crate::session::turn::{Turn, TurnToolCall, TurnToolCallView, TurnView, turn_tool_calls_view};
use crate::storage::convert::{
    ConvertError, ConvertErrorView, SessionRow, SessionRowView, ThreadRow, ThreadRowView, ToolCallRow,
    ToolCallRowView, TurnRow, TurnRowView, or_else, session_from_row, session_from_row_spec, session_row_error,
    thread_from_row, thread_from_row_spec, thread_row_error, tool_call_from_row, tool_call_from_row_spec,
    turn_from_row, turn_from_row_spec, turn_row_error,
};
use crate::text::str_eq;

verus! {

/// A thread row with the pending approvals read from its JSON column.
#[derive(Debug)]
pub struct StoredThread {
    pub row: ThreadRow,
    pub pending_approvals: Vec<PendingApproval>,
}

pub struct StoredThreadView {
    pub row: ThreadRowView,
    pub pending_approvals: Seq<PendingApprovalView>,
}

impl View for StoredThread {
    type V = StoredThreadView;

    open spec fn view(&self) -> StoredThreadView {
        StoredThreadView { row: self.row@, pending_approvals: approvals_view(self.pending_approvals@) }
    }
}

/// Views of session rows.
pub open spec fn session_rows_view(v: Seq<SessionRow>) -> Seq<SessionRowView> {
    v.map_values(|r: SessionRow| r@)
}

/// Views of stored threads.
pub open spec fn stored_threads_view(v: Seq<StoredThread>) -> Seq<StoredThreadView> {
    v.map_values(|r: StoredThread| r@)
}

/// Views of turn rows.
pub open spec fn turn_rows_view(v: Seq<TurnRow>) -> Seq<TurnRowView> {
    v.map_values(|r: TurnRow| r@)
}

/// Views of tool call rows.
pub open spec fn tool_call_rows_view(v: Seq<ToolCallRow>) -> Seq<ToolCallRowView> {
    v.map_values(|r: ToolCallRow| r@)
}

// ── Tool calls ──

/// The tool calls read from the first `n` of `calls` whose turn is stored as
/// `turn_id`, in row order.
pub open spec fn calls_of(calls: Seq<ToolCallRowView>, n: int, turn_id: Seq<char>) -> Seq<TurnToolCallView>
    decreases n,
{
    if n <= 0 {
        Seq::empty()
    } else {
        let before = calls_of(calls, n - 1, turn_id);
        if calls[n - 1].turn_id == turn_id {
            before.push(tool_call_from_row_spec(calls[n - 1]))
        } else {
            before
        }
    }
}

// ── Turns ──

/// No turn row before the `k`-th has its identifier.
pub open spec fn first_turn_row(turns: Seq<TurnRowView>, k: int) -> bool {
    forall|j: int| 0 <= j < k ==> #[trigger] turns[j].id != turns[k].id
}

/// The turn read from the `k`-th turn row. Its tool calls are those stored
/// under its identifier; a later row with an identifier already read gets none.
pub open spec fn loaded_turn(calls: Seq<ToolCallRowView>, turns: Seq<TurnRowView>, k: int) -> Option<TurnView> {
    turn_from_row_spec(
        turns[k],
        if first_turn_row(turns, k) {
            calls_of(calls, calls.len() as int, turns[k].id)
        } else {
            Seq::empty()
        },
    )
}

/// Every turn row reads back.
pub open spec fn turns_ok(calls: Seq<ToolCallRowView>, turns: Seq<TurnRowView>) -> bool {
    forall|k: int| 0 <= k < turns.len() ==> (#[trigger] loaded_turn(calls, turns, k)) is Some
}

/// The turns read from the first `n` turn rows whose thread identifier,
/// written as text, is `thread_id`, in row order.
pub open spec fn turns_of(calls: Seq<ToolCallRowView>, turns: Seq<TurnRowView>, n: int, thread_id: Seq<char>) -> Seq<TurnView>
    decreases n,
{
    if n <= 0 {
        Seq::empty()
    } else {
        let before = turns_of(calls, turns, n - 1, thread_id);
        let t = loaded_turn(calls, turns, n - 1)->0;
        if uuid_text(t.thread_id) == thread_id {
            before.push(t)
        } else {
            before
        }
    }
}

// ── Threads ──

/// No thread row before the `i`-th has its identifier.
pub open spec fn first_thread_row(threads: Seq<StoredThreadView>, i: int) -> bool {
    forall|j: int| 0 <= j < i ==> #[trigger] threads[j].row.id != threads[i].row.id
}

/// The thread read from the `i`-th thread row, with the turns stored under
/// its identifier; a later row with an identifier already read gets none.
pub open spec fn loaded_thread(
    calls: Seq<ToolCallRowView>,
    turns: Seq<TurnRowView>,
    threads: Seq<StoredThreadView>,
    i: int,
) -> Option<ThreadView> {
    thread_from_row_spec(
        threads[i].row,
        if first_thread_row(threads, i) {
            turns_of(calls, turns, turns.len() as int, threads[i].row.id)
        } else {
            Seq::empty()
        },
        threads[i].pending_approvals,
    )
}

/// Every thread row reads back.
pub open spec fn threads_ok(calls: Seq<ToolCallRowView>, turns: Seq<TurnRowView>, threads: Seq<StoredThreadView>) -> bool {
    forall|i: int| 0 <= i < threads.len() ==> (#[trigger] loaded_thread(calls, turns, threads, i)) is Some
}

/// The threads read from the first `n` thread rows whose session is stored
/// as `session_id`, each stored under its identifier: a later thread with the
/// identifier of an earlier one takes its place.
pub open spec fn threads_of(
    calls: Seq<ToolCallRowView>,
    turns: Seq<TurnRowView>,
    threads: Seq<StoredThreadView>,
    n: int,
    session_id: Seq<char>,
) -> Seq<ThreadView>
    decreases n,
{
    if n <= 0 {
        Seq::empty()
    } else {
        let before = threads_of(calls, turns, threads, n - 1, session_id);
        if threads[n - 1].row.session_id == session_id {
            put_thread(before, loaded_thread(calls, turns, threads, n - 1)->0)
        } else {
            before
        }
    }
}

// ── Sessions ──

/// No session row before the `s`-th has its identifier.
pub open spec fn first_session_row(sessions: Seq<SessionRowView>, s: int) -> bool {
    forall|j: int| 0 <= j < s ==> #[trigger] sessions[j].id != sessions[s].id
}

/// The session read from the `s`-th session row, with the threads stored
/// under its identifier; a later row with an identifier already read gets none.
pub open spec fn loaded_session(
    calls: Seq<ToolCallRowView>,
    turns: Seq<TurnRowView>,
    threads: Seq<StoredThreadView>,
    sessions: Seq<SessionRowView>,
    s: int,
) -> Option<SessionView> {
    session_from_row_spec(
        sessions[s],
        if first_session_row(sessions, s) {
            threads_of(calls, turns, threads, threads.len() as int, sessions[s].id)
        } else {
            Seq::empty()
        },
    )
}

/// Every session row reads back.
pub open spec fn sessions_ok(
    calls: Seq<ToolCallRowView>,
    turns: Seq<TurnRowView>,
    threads: Seq<StoredThreadView>,
    sessions: Seq<SessionRowView>,
) -> bool {
    forall|s: int| 0 <= s < sessions.len() ==> (#[trigger] loaded_session(calls, turns, threads, sessions, s)) is Some
}

/// The sessions read back from the stored rows, one per session row in row
/// order: `None` when some turn, thread or session row does not read back.
pub open spec fn sessions_read_back(
    calls: Seq<ToolCallRowView>,
    turns: Seq<TurnRowView>,
    threads: Seq<StoredThreadView>,
    sessions: Seq<SessionRowView>,
) -> Option<Seq<SessionView>> {
    if turns_ok(calls, turns) && threads_ok(calls, turns, threads) && sessions_ok(calls, turns, threads, sessions) {
        Some(Seq::new(sessions.len(), |s: int| loaded_session(calls, turns, threads, sessions, s)->0))
    } else {
        None
    }
}

/// The first refusal among the first `n` of `errs`.
pub open spec fn first_refusal(errs: Seq<Option<ConvertErrorView>>, n: int) -> Option<ConvertErrorView>
    decreases n,
{
    if n <= 0 {
        None
    } else {
        or_else(first_refusal(errs, n - 1), errs[n - 1])
    }
}

/// The refusal that reading the rows back meets first: turn rows are read
/// first, then thread rows, then session rows, each table in row order;
/// `None` when every row reads back.
pub open spec fn read_back_error(
    turns: Seq<TurnRowView>,
    threads: Seq<StoredThreadView>,
    sessions: Seq<SessionRowView>,
) -> Option<ConvertErrorView> {
    or_else(
        first_refusal(turns.map_values(|r: TurnRowView| turn_row_error(r)), turns.len() as int),
        or_else(
            first_refusal(threads.map_values(|t: StoredThreadView| thread_row_error(t.row)), threads.len() as int),
            first_refusal(sessions.map_values(|r: SessionRowView| session_row_error(r)), sessions.len() as int),
        ),
    )
}

proof fn lemma_first_refusal_stays(errs: Seq<Option<ConvertErrorView>>, n: int, m: int)
    requires
        0 <= n <= m,
        first_refusal(errs, n) is Some,
    ensures
        first_refusal(errs, m) == first_refusal(errs, n),
    decreases m - n,
{
    if m > n {
        lemma_first_refusal_stays(errs, n, m - 1);
    }
}

// ── Reading back ──

/// Whether the `k`-th of `ids` occurs before position `k`.
fn seen_before(ids: &Vec<String>, k: usize) -> (b: bool)
    requires
        k < ids@.len(),
    ensures
        b == exists|j: int| 0 <= j < k && ids@[j]@ == ids@[k as int]@,
{
    let mut j: usize = 0;
    while j < k
        invariant
            j <= k < ids@.len(),
            forall|i: int| 0 <= i < j ==> ids@[i]@ != ids@[k as int]@,
        decreases k - j,
    {
        if str_eq(ids[j].as_str(), ids[k].as_str()) {
            proof {
                assert(0 <= j < k && ids@[j as int]@ == ids@[k as int]@);
            }
            return true;
        }
        j = j + 1;
    }
    false
}

/// The tool calls of `calls` stored under `turn_id`, in row order.
fn calls_for(
    turn_ids: &Vec<String>,
    converted: &Vec<TurnToolCall>,
    turn_id: &str,
    Ghost(rows): Ghost<Seq<ToolCallRowView>>,
) -> (r: Vec<TurnToolCall>)
    requires
        turn_ids@.len() == rows.len(),
        converted@.len() == rows.len(),
        forall|j: int| 0 <= j < rows.len() ==> (#[trigger] turn_ids@[j])@ == rows[j].turn_id,
        forall|j: int| 0 <= j < rows.len() ==> (#[trigger] converted@[j])@ == tool_call_from_row_spec(rows[j]),
    ensures
        turn_tool_calls_view(r@) == calls_of(rows, rows.len() as int, turn_id@),
{
    let mut r: Vec<TurnToolCall> = Vec::new();
    let mut i: usize = 0;
    while i < converted.len()
        invariant
            i <= rows.len(),
            turn_ids@.len() == rows.len(),
            converted@.len() == rows.len(),
            forall|j: int| 0 <= j < rows.len() ==> (#[trigger] turn_ids@[j])@ == rows[j].turn_id,
            forall|j: int| 0 <= j < rows.len() ==> (#[trigger] converted@[j])@ == tool_call_from_row_spec(rows[j]),
            turn_tool_calls_view(r@) == calls_of(rows, i as int, turn_id@),
        decreases rows.len() - i,
    {
        let ghost before = r@;
        if str_eq(turn_ids[i].as_str(), turn_id) {
            proof {
                assert(turn_ids@[i as int]@ == rows[i as int].turn_id);
            }
            r.push(converted[i].clone());
            proof {
                assert(turn_tool_calls_view(r@) =~= turn_tool_calls_view(before).push(converted@[i as int]@));
            }
        } else {
            proof {
                assert(turn_ids@[i as int]@ == rows[i as int].turn_id);
            }
        }
        i = i + 1;
    }
    r
}

/// The turns of `loaded` whose thread identifier, written as text, is `thread_id`.
fn turns_for(
    loaded: &Vec<Turn>,
    thread_texts: &Vec<String>,
    thread_id: &str,
    Ghost(calls): Ghost<Seq<ToolCallRowView>>,
    Ghost(rows): Ghost<Seq<TurnRowView>>,
) -> (r: Vec<Turn>)
    requires
        loaded@.len() == rows.len(),
        thread_texts@.len() == rows.len(),
        forall|k: int| 0 <= k < rows.len() ==> loaded_turn(calls, rows, k) == Some((#[trigger] loaded@[k])@),
        forall|k: int| 0 <= k < rows.len() ==> (#[trigger] thread_texts@[k])@ == uuid_text(loaded@[k].thread_id),
    ensures
        turns_view(r@) == turns_of(calls, rows, rows.len() as int, thread_id@),
{
    let mut r: Vec<Turn> = Vec::new();
    let mut i: usize = 0;
    while i < loaded.len()
        invariant
            i <= rows.len(),
            loaded@.len() == rows.len(),
            thread_texts@.len() == rows.len(),
            forall|k: int| 0 <= k < rows.len() ==> loaded_turn(calls, rows, k) == Some((#[trigger] loaded@[k])@),
            forall|k: int| 0 <= k < rows.len() ==> (#[trigger] thread_texts@[k])@ == uuid_text(loaded@[k].thread_id),
            turns_view(r@) == turns_of(calls, rows, i as int, thread_id@),
        decreases rows.len() - i,
    {
        let ghost before = r@;
        proof {
            assert(loaded_turn(calls, rows, i as int) == Some(loaded@[i as int]@));
            assert(thread_texts@[i as int]@ == uuid_text(loaded@[i as int].thread_id));
        }
        if str_eq(thread_texts[i].as_str(), thread_id) {
            r.push(loaded[i].clone());
            proof {
                assert(turns_view(r@) =~= turns_view(before).push(loaded@[i as int]@));
            }
        }
        i = i + 1;
    }
    r
}

/// Position in `v` of the thread with identifier `id`.
fn position_of(v: &Vec<Thread>, id: u128) -> (r: Option<usize>)
    ensures
        match r {
            Some(i) => i < v@.len() && threads_view(v@)[i as int].id == id,
            None => !has_thread(threads_view(v@), id),
        },
{
    let mut i: usize = 0;
    while i < v.len()
        invariant
            i <= v@.len(),
            forall|j: int| 0 <= j < i ==> threads_view(v@)[j].id != id,
        decreases v@.len() - i,
    {
        if v[i].id == id {
            return Some(i);
        }
        i = i + 1;
    }
    None
}

/// Store `t` in `v` under its identifier: in place of the thread with the
/// same identifier, or last.
fn put_thread_into(v: &mut Vec<Thread>, t: Thread)
    requires
        distinct_thread_ids(threads_view(old(v)@)),
    ensures
        threads_view(final(v)@) == put_thread(threads_view(old(v)@), t@),
        distinct_thread_ids(threads_view(final(v)@)),
{
    let ghost tv = t@;
    let ghost ts = threads_view(v@);
    proof {
        lemma_put_thread_has(ts, tv);
    }
    match position_of(v, t.id) {
        Some(i) => {
            v.set(i, t);
            proof {
                let k = choose|k: int| 0 <= k < ts.len() && ts[k].id == tv.id;
                assert(k == i);
                assert(threads_view(v@) =~= ts.update(i as int, tv));
            }
        },
        None => {
            v.push(t);
            proof {
                assert(threads_view(v@) =~= ts.push(tv));
            }
        },
    }
}

/// The threads of `loaded` whose session is stored as `session_id`, each
/// stored under its identifier.
fn threads_for(
    loaded: &Vec<Thread>,
    session_ids: &Vec<String>,
    session_id: &str,
    Ghost(calls): Ghost<Seq<ToolCallRowView>>,
    Ghost(turns): Ghost<Seq<TurnRowView>>,
    Ghost(rows): Ghost<Seq<StoredThreadView>>,
) -> (r: Vec<Thread>)
    requires
        loaded@.len() == rows.len(),
        session_ids@.len() == rows.len(),
        forall|i: int| 0 <= i < rows.len() ==> loaded_thread(calls, turns, rows, i) == Some((#[trigger] loaded@[i])@),
        forall|i: int| 0 <= i < rows.len() ==> (#[trigger] session_ids@[i])@ == rows[i].row.session_id,
    ensures
        threads_view(r@) == threads_of(calls, turns, rows, rows.len() as int, session_id@),
        distinct_thread_ids(threads_view(r@)),
{
    let mut r: Vec<Thread> = Vec::new();
    proof {
        assert(threads_view(r@) =~= Seq::<ThreadView>::empty());
    }
    let mut i: usize = 0;
    while i < loaded.len()
        invariant
            i <= rows.len(),
            loaded@.len() == rows.len(),
            session_ids@.len() == rows.len(),
            forall|k: int| 0 <= k < rows.len() ==> loaded_thread(calls, turns, rows, k) == Some((#[trigger] loaded@[k])@),
            forall|k: int| 0 <= k < rows.len() ==> (#[trigger] session_ids@[k])@ == rows[k].row.session_id,
            threads_view(r@) == threads_of(calls, turns, rows, i as int, session_id@),
            distinct_thread_ids(threads_view(r@)),
        decreases rows.len() - i,
    {
        proof {
            assert(loaded_thread(calls, turns, rows, i as int) == Some(loaded@[i as int]@));
            assert(session_ids@[i as int]@ == rows[i as int].row.session_id);
        }
        if str_eq(session_ids[i].as_str(), session_id) {
            put_thread_into(&mut r, loaded[i].clone());
        }
        i = i + 1;
    }
    r
}

/// Read the stored sessions back from the rows of the four tables: turns are
/// grouped by thread and ordered as their rows are (by turn number), tool calls
/// grouped by turn and ordered as their rows are (by call index), threads
/// grouped by session. One session per session row, in row order, each
/// well-formed; an error when some turn, thread or session row does not read
/// back.
#[verifier::loop_isolation(false)]
pub fn sessions_from_rows(
    session_rows: Vec<SessionRow>,
    thread_rows: Vec<StoredThread>,
    turn_rows: Vec<TurnRow>,
    tool_call_rows: Vec<ToolCallRow>,
) -> (r: Result<Vec<Session>, ConvertError>)
    ensures
        match r {
            Ok(v) => {
                &&& sessions_read_back(
                    tool_call_rows_view(tool_call_rows@),
                    turn_rows_view(turn_rows@),
                    stored_threads_view(thread_rows@),
                    session_rows_view(session_rows@),
                ) == Some(sessions_view(v@))
                &&& forall|i: int| 0 <= i < v@.len() ==> (#[trigger] v@[i])@.wf()
                &&& read_back_error(
                    turn_rows_view(turn_rows@),
                    stored_threads_view(thread_rows@),
                    session_rows_view(session_rows@),
                ) is None
            },
            Err(e) => {
                &&& sessions_read_back(
                    tool_call_rows_view(tool_call_rows@),
                    turn_rows_view(turn_rows@),
                    stored_threads_view(thread_rows@),
                    session_rows_view(session_rows@),
                ) is None
                &&& read_back_error(
                    turn_rows_view(turn_rows@),
                    stored_threads_view(thread_rows@),
                    session_rows_view(session_rows@),
                ) == Some(e@)
            },
        },
{
    let ghost calls = tool_call_rows_view(tool_call_rows@);
    let ghost turns = turn_rows_view(turn_rows@);
    let ghost threads = stored_threads_view(thread_rows@);
    let ghost sessions = session_rows_view(session_rows@);
    let ghost turn_errs = turns.map_values(|r: TurnRowView| turn_row_error(r));
    let ghost thread_errs = threads.map_values(|t: StoredThreadView| thread_row_error(t.row));
    let ghost session_errs = sessions.map_values(|r: SessionRowView| session_row_error(r));

    // Tool calls, converted once, with the turn each belongs to.
    let mut call_turn_ids: Vec<String> = Vec::new();
    let mut converted: Vec<TurnToolCall> = Vec::new();
    let ghost calls_in = tool_call_rows@;
    for row in it: tool_call_rows.into_iter()
        invariant
            it.seq() == calls_in,
            calls == tool_call_rows_view(calls_in),
            call_turn_ids@.len() == it.index(),
            converted@.len() == it.index(),
            forall|j: int| 0 <= j < it.index() ==> (#[trigger] call_turn_ids@[j])@ == calls[j].turn_id,
            forall|j: int| 0 <= j < it.index() ==> (#[trigger] converted@[j])@ == tool_call_from_row_spec(calls[j]),
    {
        proof {
            assert(calls[it.index() as int] == row@);
        }
        call_turn_ids.push(row.turn_id.clone());
        converted.push(tool_call_from_row(row));
        proof {
            assert(call_turn_ids@[it.index() as int]@ == row.turn_id@);
        }
    }

    // Turns, in row order; the first row with an identifier takes its calls.
    let mut turn_ids: Vec<String> = Vec::new();
    let mut k: usize = 0;
    while k < turn_rows.len()
        invariant
            k <= turn_rows@.len(),
            turns == turn_rows_view(turn_rows@),
            turn_ids@.len() == k,
            forall|j: int| 0 <= j < k ==> (#[trigger] turn_ids@[j])@ == turns[j].id,
        decreases turn_rows@.len() - k,
    {
        turn_ids.push(turn_rows[k].id.clone());
        proof {
            assert(turn_ids@[k as int]@ == turns[k as int].id);
        }
        k = k + 1;
    }
    let mut loaded_turns: Vec<Turn> = Vec::new();
    let mut thread_texts: Vec<String> = Vec::new();
    let ghost turns_in = turn_rows@;
    for row in it: turn_rows.into_iter()
        invariant
            it.seq() == turns_in,
            turns == turn_rows_view(turns_in),
            turn_ids@.len() == turns.len(),
            forall|j: int| 0 <= j < turns.len() ==> (#[trigger] turn_ids@[j])@ == turns[j].id,
            call_turn_ids@.len() == calls.len(),
            converted@.len() == calls.len(),
            forall|j: int| 0 <= j < calls.len() ==> (#[trigger] call_turn_ids@[j])@ == calls[j].turn_id,
            forall|j: int| 0 <= j < calls.len() ==> (#[trigger] converted@[j])@ == tool_call_from_row_spec(calls[j]),
            loaded_turns@.len() == it.index(),
            thread_texts@.len() == it.index(),
            forall|j: int| 0 <= j < it.index() ==> loaded_turn(calls, turns, j) == Some((#[trigger] loaded_turns@[j])@),
            forall|j: int| 0 <= j < it.index() ==> (#[trigger] thread_texts@[j])@ == uuid_text(loaded_turns@[j].thread_id),
            first_refusal(turn_errs, it.index() as int) is None,
    {
        let k = loaded_turns.len();
        proof {
            assert(turns[k as int] == row@);
        }
        let seen = seen_before(&turn_ids, k);
        proof {
            if seen {
                let j = choose|j: int| 0 <= j < k && turn_ids@[j]@ == turn_ids@[k as int]@;
                assert(turns[j].id == turns[k as int].id);
                assert(!first_turn_row(turns, k as int));
            } else {
                assert forall|j: int| 0 <= j < k implies #[trigger] turns[j].id != turns[k as int].id by {
                    assert(turn_ids@[j]@ == turns[j].id);
                }
                assert(first_turn_row(turns, k as int));
            }
        }
        let tool_calls = if seen {
            Vec::new()
        } else {
            calls_for(&call_turn_ids, &converted, turn_ids[k].as_str(), Ghost(calls))
        };
        proof {
            if seen {
                assert(turn_tool_calls_view(tool_calls@) =~= Seq::<TurnToolCallView>::empty());
            }
        }
        match turn_from_row(row, tool_calls) {
            Ok(t) => {
                proof {
                    assert(turn_errs[k as int] is None);
                    assert(first_refusal(turn_errs, k + 1) is None);
                }
                thread_texts.push(uuid_to_string(t.thread_id));
                loaded_turns.push(t);
            },
            Err(e) => {
                proof {
                    assert(loaded_turn(calls, turns, k as int) is None);
                    assert(!turns_ok(calls, turns));
                    assert(turn_errs[k as int] == Some(e@));
                    assert(first_refusal(turn_errs, k + 1) == Some(e@));
                    lemma_first_refusal_stays(turn_errs, k + 1, turns.len() as int);
                }
                return Err(e);
            },
        }
    }

    proof {
        assert forall|j: int| 0 <= j < turns.len() implies (#[trigger] loaded_turn(calls, turns, j)) is Some by {
            assert(loaded_turn(calls, turns, j) == Some(loaded_turns@[j]@));
        }
    }

    // Threads, in row order; the first row with an identifier takes its turns.
    let mut thread_ids: Vec<String> = Vec::new();
    let mut thread_session_ids: Vec<String> = Vec::new();
    let mut i: usize = 0;
    while i < thread_rows.len()
        invariant
            i <= thread_rows@.len(),
            threads == stored_threads_view(thread_rows@),
            thread_ids@.len() == i,
            thread_session_ids@.len() == i,
            forall|j: int| 0 <= j < i ==> (#[trigger] thread_ids@[j])@ == threads[j].row.id,
            forall|j: int| 0 <= j < i ==> (#[trigger] thread_session_ids@[j])@ == threads[j].row.session_id,
        decreases thread_rows@.len() - i,
    {
        thread_ids.push(thread_rows[i].row.id.clone());
        thread_session_ids.push(thread_rows[i].row.session_id.clone());
        proof {
            assert(thread_ids@[i as int]@ == threads[i as int].row.id);
            assert(thread_session_ids@[i as int]@ == threads[i as int].row.session_id);
        }
        i = i + 1;
    }
    let mut loaded_threads: Vec<Thread> = Vec::new();
    let ghost threads_in = thread_rows@;
    for stored in it: thread_rows.into_iter()
        invariant
            it.seq() == threads_in,
            threads == stored_threads_view(threads_in),
            turns_ok(calls, turns),
            loaded_turns@.len() == turns.len(),
            thread_texts@.len() == turns.len(),
            forall|j: int| 0 <= j < turns.len() ==> loaded_turn(calls, turns, j) == Some((#[trigger] loaded_turns@[j])@),
            forall|j: int| 0 <= j < turns.len() ==> (#[trigger] thread_texts@[j])@ == uuid_text(loaded_turns@[j].thread_id),
            thread_ids@.len() == threads.len(),
            forall|j: int| 0 <= j < threads.len() ==> (#[trigger] thread_ids@[j])@ == threads[j].row.id,
            loaded_threads@.len() == it.index(),
            forall|j: int| 0 <= j < it.index() ==> loaded_thread(calls, turns, threads, j) == Some((#[trigger] loaded_threads@[j])@),
            first_refusal(turn_errs, turns.len() as int) is None,
            first_refusal(thread_errs, it.index() as int) is None,
    {
        let i = loaded_threads.len();
        proof {
            assert(threads[i as int] == stored@);
        }
        let seen = seen_before(&thread_ids, i);
        proof {
            if seen {
                let j = choose|j: int| 0 <= j < i && thread_ids@[j]@ == thread_ids@[i as int]@;
                assert(threads[j].row.id == threads[i as int].row.id);
                assert(!first_thread_row(threads, i as int));
            } else {
                assert forall|j: int| 0 <= j < i implies #[trigger] threads[j].row.id != threads[i as int].row.id by {
                    assert(thread_ids@[j]@ == threads[j].row.id);
                }
                assert(first_thread_row(threads, i as int));
            }
        }
        let thread_turns = if seen {
            Vec::new()
        } else {
            turns_for(&loaded_turns, &thread_texts, thread_ids[i].as_str(), Ghost(calls), Ghost(turns))
        };
        proof {
            if seen {
                assert(turns_view(thread_turns@) =~= Seq::<TurnView>::empty());
            }
        }
        let StoredThread { row, pending_approvals } = stored;
        match thread_from_row(row, thread_turns, pending_approvals) {
            Ok(t) => {
                proof {
                    assert(thread_errs[i as int] is None);
                    assert(first_refusal(thread_errs, i + 1) is None);
                }
                loaded_threads.push(t);
            },
            Err(e) => {
                proof {
                    assert(loaded_thread(calls, turns, threads, i as int) is None);
                    assert(!threads_ok(calls, turns, threads));
                    assert(thread_errs[i as int] == Some(e@));
                    assert(first_refusal(thread_errs, i + 1) == Some(e@));
                    lemma_first_refusal_stays(thread_errs, i + 1, threads.len() as int);
                }
                return Err(e);
            },
        }
    }

    proof {
        assert forall|j: int| 0 <= j < threads.len() implies (#[trigger] loaded_thread(calls, turns, threads, j)) is Some by {
            assert(loaded_thread(calls, turns, threads, j) == Some(loaded_threads@[j]@));
        }
    }

    // Sessions, in row order; the first row with an identifier takes its threads.
    let mut session_ids: Vec<String> = Vec::new();
    let mut s: usize = 0;
    while s < session_rows.len()
        invariant
            s <= session_rows@.len(),
            sessions == session_rows_view(session_rows@),
            session_ids@.len() == s,
            forall|j: int| 0 <= j < s ==> (#[trigger] session_ids@[j])@ == sessions[j].id,
        decreases session_rows@.len() - s,
    {
        session_ids.push(session_rows[s].id.clone());
        proof {
            assert(session_ids@[s as int]@ == sessions[s as int].id);
        }
        s = s + 1;
    }
    let mut result: Vec<Session> = Vec::new();
    let ghost sessions_in = session_rows@;
    for row in it: session_rows.into_iter()
        invariant
            it.seq() == sessions_in,
            sessions == session_rows_view(sessions_in),
            turns_ok(calls, turns),
            threads_ok(calls, turns, threads),
            loaded_threads@.len() == threads.len(),
            thread_session_ids@.len() == threads.len(),
            forall|j: int| 0 <= j < threads.len() ==> loaded_thread(calls, turns, threads, j) == Some((#[trigger] loaded_threads@[j])@),
            forall|j: int| 0 <= j < threads.len() ==> (#[trigger] thread_session_ids@[j])@ == threads[j].row.session_id,
            session_ids@.len() == sessions.len(),
            forall|j: int| 0 <= j < sessions.len() ==> (#[trigger] session_ids@[j])@ == sessions[j].id,
            result@.len() == it.index(),
            forall|j: int| 0 <= j < it.index() ==> loaded_session(calls, turns, threads, sessions, j) == Some((#[trigger] result@[j])@),
            forall|j: int| 0 <= j < it.index() ==> (#[trigger] result@[j])@.wf(),
            first_refusal(turn_errs, turns.len() as int) is None,
            first_refusal(thread_errs, threads.len() as int) is None,
            first_refusal(session_errs, it.index() as int) is None,
    {
        let s = result.len();
        proof {
            assert(sessions[s as int] == row@);
        }
        let seen = seen_before(&session_ids, s);
        proof {
            if seen {
                let j = choose|j: int| 0 <= j < s && session_ids@[j]@ == session_ids@[s as int]@;
                assert(sessions[j].id == sessions[s as int].id);
                assert(!first_session_row(sessions, s as int));
            } else {
                assert forall|j: int| 0 <= j < s implies #[trigger] sessions[j].id != sessions[s as int].id by {
                    assert(session_ids@[j]@ == sessions[j].id);
                }
                assert(first_session_row(sessions, s as int));
            }
        }
        let session_threads = if seen {
            let v: Vec<Thread> = Vec::new();
            proof {
                assert(threads_view(v@) =~= Seq::<ThreadView>::empty());
            }
            v
        } else {
            threads_for(
                &loaded_threads,
                &thread_session_ids,
                session_ids[s].as_str(),
                Ghost(calls),
                Ghost(turns),
                Ghost(threads),
            )
        };
        match session_from_row(row, session_threads) {
            Ok(x) => {
                proof {
                    assert(session_errs[s as int] is None);
                    assert(first_refusal(session_errs, s + 1) is None);
                }
                result.push(x);
            },
            Err(e) => {
                proof {
                    assert(loaded_session(calls, turns, threads, sessions, s as int) is None);
                    assert(!sessions_ok(calls, turns, threads, sessions));
                    assert(session_errs[s as int] == Some(e@));
                    assert(first_refusal(session_errs, s + 1) == Some(e@));
                    lemma_first_refusal_stays(session_errs, s + 1, sessions.len() as int);
                }
                return Err(e);
            },
        }
    }
    proof {
        assert forall|j: int| 0 <= j < sessions.len() implies (#[trigger] loaded_session(calls, turns, threads, sessions, j)) is Some by {
            assert(loaded_session(calls, turns, threads, sessions, j) == Some(result@[j]@));
        }
        assert(sessions_ok(calls, turns, threads, sessions));
        assert(sessions_view(result@) =~= Seq::new(
            sessions.len(),
            |j: int| loaded_session(calls, turns, threads, sessions, j)->0,
        ));
    }
    Ok(result)
}

} // verus!
