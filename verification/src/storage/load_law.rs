//! What the stored rows give back: sessions saved as rows, in whatever order
//! the database returns the rows of each table, read back as themselves.
use vstd::prelude::*;
use crate::ext::{uuid_parse, uuid_text};
use crate::session::session::{SessionView, has_thread, put_thread};
use crate::session::thread::ThreadView;
use crate::session::turn::{TurnToolCallView, TurnView};
use crate::storage::convert::{
    SessionRowView, ToolCallRowView, TurnRowView, is_canonical_json, law_session_row_round_trip,
    law_thread_row_round_trip, law_tool_call_row_round_trip, law_turn_row_round_trip, session_row_written,
    thread_row_written, tool_call_from_row_spec, tool_call_row_of, turn_row_written,
};
use crate::storage::load::{
    StoredThreadView, calls_of, first_session_row, first_thread_row, first_turn_row, loaded_session, loaded_thread,
    loaded_turn, sessions_ok, sessions_read_back, threads_of, threads_ok, turns_of, turns_ok,
};

verus! {

/// The rows among the first `n` of `calls` stored under turn `turn_id`, in order.
pub open spec fn call_rows_of(calls: Seq<ToolCallRowView>, n: int, turn_id: Seq<char>) -> Seq<ToolCallRowView>
    decreases n,
{
    if n <= 0 {
        Seq::empty()
    } else {
        let before = call_rows_of(calls, n - 1, turn_id);
        if calls[n - 1].turn_id == turn_id {
            before.push(calls[n - 1])
        } else {
            before
        }
    }
}

/// The rows written for the tool calls `tcs` of turn `turn_id`, by index.
pub open spec fn saved_calls(turn_id: Seq<char>, tcs: Seq<TurnToolCallView>) -> Seq<ToolCallRowView> {
    Seq::new(tcs.len(), |j: int| tool_call_row_of(turn_id, j as usize, tcs[j]))
}

/// The turns among the first `n` of `turns` that belong to thread `thread_id`, in order.
pub open spec fn turns_in(turns: Seq<TurnView>, n: int, thread_id: u128) -> Seq<TurnView>
    decreases n,
{
    if n <= 0 {
        Seq::empty()
    } else {
        let before = turns_in(turns, n - 1, thread_id);
        if turns[n - 1].thread_id == thread_id {
            before.push(turns[n - 1])
        } else {
            before
        }
    }
}

/// The threads among the first `n` of `threads` that belong to session `session_id`, in order.
pub open spec fn threads_in(threads: Seq<ThreadView>, n: int, session_id: u128) -> Seq<ThreadView>
    decreases n,
{
    if n <= 0 {
        Seq::empty()
    } else {
        let before = threads_in(threads, n - 1, session_id);
        if threads[n - 1].session_id == session_id {
            before.push(threads[n - 1])
        } else {
            before
        }
    }
}

/// The parameters and results of the tool calls are JSON documents as
/// `serde_json` writes them.
pub open spec fn calls_canonical(tcs: Seq<TurnToolCallView>) -> bool {
    forall|j: int|
        0 <= j < tcs.len() ==> is_canonical_json(#[trigger] tcs[j].parameters) && (tcs[j].result matches Some(r)
            ==> is_canonical_json(r))
}

/// `row` is the row saved for turn `t`, which the row can hold whole.
pub open spec fn turn_saved(row: TurnRowView, t: TurnView) -> bool {
    &&& turn_row_written(row, t)
    &&& t.turn_number <= i32::MAX
    &&& t.current_tool_iterations <= i32::MAX
    &&& t.image_content_parts.len() == 0
    &&& t.attachments.len() == 0
    &&& calls_canonical(t.tool_calls)
}

/// `st` is the row saved for thread `t`, with its pending approvals.
pub open spec fn thread_saved(st: StoredThreadView, t: ThreadView) -> bool {
    &&& thread_row_written(st.row, t, st.row.pending_approvals)
    &&& st.pending_approvals == t.pending_approvals
    &&& is_canonical_json(t.metadata)
}

/// `row` is the row saved for the well-formed session `s`.
pub open spec fn session_saved(row: SessionRowView, s: SessionView) -> bool {
    &&& session_row_written(row, s)
    &&& s.wf()
    &&& is_canonical_json(s.metadata)
}

proof fn lemma_calls_of_rows(calls: Seq<ToolCallRowView>, n: int, turn_id: Seq<char>)
    ensures
        calls_of(calls, n, turn_id) == call_rows_of(calls, n, turn_id).map_values(
            |r: ToolCallRowView| tool_call_from_row_spec(r),
        ),
    decreases n,
{
    if n <= 0 {
        assert(call_rows_of(calls, n, turn_id).map_values(|r: ToolCallRowView| tool_call_from_row_spec(r))
            =~= Seq::<TurnToolCallView>::empty());
    } else {
        lemma_calls_of_rows(calls, n - 1, turn_id);
        let before = call_rows_of(calls, n - 1, turn_id);
        if calls[n - 1].turn_id == turn_id {
            assert(before.push(calls[n - 1]).map_values(|r: ToolCallRowView| tool_call_from_row_spec(r)) =~= before.map_values(
                |r: ToolCallRowView| tool_call_from_row_spec(r),
            ).push(tool_call_from_row_spec(calls[n - 1])));
        }
    }
}

proof fn lemma_saved_calls_read_back(turn_id: Seq<char>, tcs: Seq<TurnToolCallView>)
    requires
        calls_canonical(tcs),
    ensures
        saved_calls(turn_id, tcs).map_values(|r: ToolCallRowView| tool_call_from_row_spec(r)) == tcs,
{
    let rows = saved_calls(turn_id, tcs);
    assert forall|j: int| 0 <= j < tcs.len() implies tool_call_from_row_spec(rows[j]) == tcs[j] by {
        assert(is_canonical_json(tcs[j].parameters));
        law_tool_call_row_round_trip(rows[j], turn_id, j as usize, tcs[j]);
    }
    assert(rows.map_values(|r: ToolCallRowView| tool_call_from_row_spec(r)) =~= tcs);
}

/// Every row of `turns` is the row saved for the turn at its position, and
/// each turn's tool calls are stored as saved.
pub open spec fn turns_saved(calls: Seq<ToolCallRowView>, turns: Seq<TurnRowView>, wt: Seq<TurnView>) -> bool {
    &&& turns.len() == wt.len()
    &&& forall|k: int| 0 <= k < wt.len() ==> turn_saved(#[trigger] turns[k], wt[k])
    &&& forall|j: int, k: int| 0 <= j < wt.len() && 0 <= k < wt.len() && j != k ==> wt[j].id != wt[k].id
    &&& forall|k: int|
        0 <= k < wt.len() ==> call_rows_of(calls, calls.len() as int, uuid_text(#[trigger] wt[k].id)) == saved_calls(
            uuid_text(wt[k].id),
            wt[k].tool_calls,
        )
}

proof fn lemma_turn_read_back(calls: Seq<ToolCallRowView>, turns: Seq<TurnRowView>, wt: Seq<TurnView>, k: int)
    requires
        turns_saved(calls, turns, wt),
        0 <= k < wt.len(),
    ensures
        loaded_turn(calls, turns, k) == Some(wt[k]),
{
    assert(turn_saved(turns[k], wt[k]));
    assert forall|j: int| 0 <= j < k implies #[trigger] turns[j].id != turns[k].id by {
        assert(turn_saved(turns[j], wt[j]));
        if turns[j].id == turns[k].id {
            assert(uuid_parse(turns[j].id) == Some(wt[j].id));
            assert(wt[j].id == wt[k].id);
        }
    }
    assert(first_turn_row(turns, k));
    let id = uuid_text(wt[k].id);
    assert(turns[k].id == id);
    lemma_calls_of_rows(calls, calls.len() as int, id);
    lemma_saved_calls_read_back(id, wt[k].tool_calls);
    assert(call_rows_of(calls, calls.len() as int, uuid_text(wt[k].id)) == saved_calls(uuid_text(wt[k].id), wt[k].tool_calls));
    assert(calls_of(calls, calls.len() as int, id) == wt[k].tool_calls);
    law_turn_row_round_trip(turns[k], wt[k]);
}

proof fn lemma_turns_read_back(calls: Seq<ToolCallRowView>, turns: Seq<TurnRowView>, wt: Seq<TurnView>, n: int, tid: u128)
    requires
        turns_saved(calls, turns, wt),
        0 <= n <= wt.len(),
        uuid_parse(uuid_text(tid)) == Some(tid),
    ensures
        turns_of(calls, turns, n, uuid_text(tid)) == turns_in(wt, n, tid),
    decreases n,
{
    if n > 0 {
        lemma_turns_read_back(calls, turns, wt, n - 1, tid);
        lemma_turn_read_back(calls, turns, wt, n - 1);
        let t = wt[n - 1];
        assert(turn_saved(turns[n - 1], t));
        if uuid_text(t.thread_id) == uuid_text(tid) {
            assert(uuid_parse(turns[n - 1].thread_id) == Some(t.thread_id));
            assert(t.thread_id == tid);
        }
    }
}

/// Every stored thread is the one saved for the thread at its position, and
/// each thread's turns are those saved under it.
pub open spec fn threads_saved(threads: Seq<StoredThreadView>, wth: Seq<ThreadView>, wt: Seq<TurnView>) -> bool {
    &&& threads.len() == wth.len()
    &&& forall|i: int| 0 <= i < wth.len() ==> thread_saved(#[trigger] threads[i], wth[i])
    &&& forall|i: int, j: int| 0 <= i < wth.len() && 0 <= j < wth.len() && i != j ==> wth[i].id != wth[j].id
    &&& forall|i: int| 0 <= i < wth.len() ==> turns_in(wt, wt.len() as int, (#[trigger] wth[i]).id) == wth[i].turns
}

proof fn lemma_thread_read_back(
    calls: Seq<ToolCallRowView>,
    turns: Seq<TurnRowView>,
    threads: Seq<StoredThreadView>,
    wt: Seq<TurnView>,
    wth: Seq<ThreadView>,
    i: int,
)
    requires
        turns_saved(calls, turns, wt),
        threads_saved(threads, wth, wt),
        0 <= i < wth.len(),
    ensures
        loaded_thread(calls, turns, threads, i) == Some(wth[i]),
{
    let t = wth[i];
    assert(thread_saved(threads[i], t));
    assert forall|j: int| 0 <= j < i implies #[trigger] threads[j].row.id != threads[i].row.id by {
        assert(thread_saved(threads[j], wth[j]));
        if threads[j].row.id == threads[i].row.id {
            assert(uuid_parse(threads[j].row.id) == Some(wth[j].id));
            assert(wth[j].id == t.id);
        }
    }
    assert(first_thread_row(threads, i));
    assert(threads[i].row.id == uuid_text(t.id));
    lemma_turns_read_back(calls, turns, wt, wt.len() as int, t.id);
    assert(turns_in(wt, wt.len() as int, wth[i].id) == wth[i].turns);
    law_thread_row_round_trip(threads[i].row, t, threads[i].row.pending_approvals);
}

proof fn lemma_threads_in_from(wth: Seq<ThreadView>, n: int, sid: u128)
    requires
        0 <= n <= wth.len(),
    ensures
        forall|q: int|
            #![trigger threads_in(wth, n, sid)[q]]
            0 <= q < threads_in(wth, n, sid).len() ==> exists|j: int|
                #![trigger wth[j]]
                0 <= j < n && threads_in(wth, n, sid)[q] == wth[j],
    decreases n,
{
    if n > 0 {
        lemma_threads_in_from(wth, n - 1, sid);
        let before = threads_in(wth, n - 1, sid);
        assert forall|q: int| #![trigger threads_in(wth, n, sid)[q]] 0 <= q < threads_in(wth, n, sid).len() implies exists|j: int|
            #![trigger wth[j]] 0 <= j < n && threads_in(wth, n, sid)[q] == wth[j] by {
            if q < before.len() {
                let j = choose|j: int| 0 <= j < n - 1 && before[q] == wth[j];
                assert(threads_in(wth, n, sid)[q] == wth[j]);
            } else {
                assert(threads_in(wth, n, sid)[q] == wth[n - 1]);
            }
        }
    }
}

proof fn lemma_threads_read_back(
    calls: Seq<ToolCallRowView>,
    turns: Seq<TurnRowView>,
    threads: Seq<StoredThreadView>,
    wt: Seq<TurnView>,
    wth: Seq<ThreadView>,
    n: int,
    sid: u128,
)
    requires
        turns_saved(calls, turns, wt),
        threads_saved(threads, wth, wt),
        0 <= n <= wth.len(),
        uuid_parse(uuid_text(sid)) == Some(sid),
    ensures
        threads_of(calls, turns, threads, n, uuid_text(sid)) == threads_in(wth, n, sid),
    decreases n,
{
    if n > 0 {
        lemma_threads_read_back(calls, turns, threads, wt, wth, n - 1, sid);
        lemma_thread_read_back(calls, turns, threads, wt, wth, n - 1);
        let t = wth[n - 1];
        assert(thread_saved(threads[n - 1], t));
        let before = threads_in(wth, n - 1, sid);
        if threads[n - 1].row.session_id == uuid_text(sid) {
            assert(uuid_parse(threads[n - 1].row.session_id) == Some(t.session_id));
            assert(t.session_id == sid);
            lemma_threads_in_from(wth, n - 1, sid);
            assert(!has_thread(before, t.id)) by {
                if has_thread(before, t.id) {
                    let q = choose|q: int| 0 <= q < before.len() && before[q].id == t.id;
                    let j = choose|j: int| 0 <= j < n - 1 && before[q] == wth[j];
                    assert(wth[j].id == wth[n - 1].id);
                }
            }
            assert(put_thread(before, t) == before.push(t));
        } else {
            if t.session_id == sid {
                assert(threads[n - 1].row.session_id == uuid_text(t.session_id));
            }
        }
    }
}

/// Law: sessions saved as rows read back as themselves, one per session row
/// in row order, whatever the order in which the rows of threads, turns and
/// tool calls come back, as long as the rows of each thread's turns and of each
/// turn's tool calls keep their order. `ss` are the sessions, `wth` the threads
/// and `wt` the turns the rows were written for, position by position; each
/// session's threads are the saved threads that belong to it, in order, each
/// thread's turns likewise; identifiers are distinct, metadata and tool call
/// documents are as `serde_json` writes them, and turns hold no images or
/// attachments (which the rows do not keep).
pub proof fn law_saved_sessions_read_back(
    ss: Seq<SessionView>,
    wth: Seq<ThreadView>,
    wt: Seq<TurnView>,
    sessions: Seq<SessionRowView>,
    threads: Seq<StoredThreadView>,
    turns: Seq<TurnRowView>,
    calls: Seq<ToolCallRowView>,
)
    requires
        sessions.len() == ss.len(),
        forall|i: int| 0 <= i < ss.len() ==> session_saved(#[trigger] sessions[i], ss[i]),
        forall|i: int, j: int| 0 <= i < ss.len() && 0 <= j < ss.len() && i != j ==> ss[i].id != ss[j].id,
        forall|i: int| 0 <= i < ss.len() ==> threads_in(wth, wth.len() as int, (#[trigger] ss[i]).id) == ss[i].threads,
        threads_saved(threads, wth, wt),
        turns_saved(calls, turns, wt),
    ensures
        sessions_read_back(calls, turns, threads, sessions) == Some(ss),
{
    assert forall|k: int| 0 <= k < turns.len() implies (#[trigger] loaded_turn(calls, turns, k)) is Some by {
        lemma_turn_read_back(calls, turns, wt, k);
    }
    assert(turns_ok(calls, turns));
    assert forall|i: int| 0 <= i < threads.len() implies (#[trigger] loaded_thread(calls, turns, threads, i)) is Some by {
        lemma_thread_read_back(calls, turns, threads, wt, wth, i);
    }
    assert(threads_ok(calls, turns, threads));
    assert forall|s: int| 0 <= s < sessions.len() implies (#[trigger] loaded_session(calls, turns, threads, sessions, s))
        == Some(ss[s]) by {
        assert(session_saved(sessions[s], ss[s]));
        assert forall|j: int| 0 <= j < s implies #[trigger] sessions[j].id != sessions[s].id by {
            assert(session_saved(sessions[j], ss[j]));
            if sessions[j].id == sessions[s].id {
                assert(uuid_parse(sessions[j].id) == Some(ss[j].id));
                assert(ss[j].id == ss[s].id);
            }
        }
        assert(first_session_row(sessions, s));
        assert(sessions[s].id == uuid_text(ss[s].id));
        lemma_threads_read_back(calls, turns, threads, wt, wth, wth.len() as int, ss[s].id);
        assert(threads_in(wth, wth.len() as int, ss[s].id) == ss[s].threads);
        law_session_row_round_trip(sessions[s], ss[s]);
    }
    assert(sessions_ok(calls, turns, threads, sessions));
    assert(Seq::new(sessions.len(), |s: int| loaded_session(calls, turns, threads, sessions, s)->0) =~= ss);
}

} // verus!
