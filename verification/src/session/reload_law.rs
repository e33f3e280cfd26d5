//! After a start from stored sessions, each stored thread is found again by
//! the conversation it belongs to.
use vstd::prelude::*;
use crate::session::manager::{
    SessionManagerView, ThreadKeyView, distinct_keys, fixed_session, fixed_sessions, fixed_thread, lemma_map_put,
    lemma_put_session, loaded_routes, loaded_sessions, map_get, resolved, route_key, session_has, session_pos, sessions_wf,
    thread_routes,
};
use crate::session::session::{SessionView, has_thread};
use crate::session::thread::ThreadView;

verus! {

/// The conversation of thread `t` of binding `b`.
pub open spec fn key_of(b: Seq<char>, t: ThreadView) -> ThreadKeyView {
    route_key(b, t.user_id, t.channel, t.external_thread_id)
}

proof fn lemma_thread_routes_distinct(m: Seq<(ThreadKeyView, u128)>, b: Seq<char>, ts: Seq<ThreadView>)
    requires
        distinct_keys(m),
    ensures
        distinct_keys(thread_routes(m, b, ts)),
    decreases ts.len(),
{
    if ts.len() > 0 {
        lemma_thread_routes_distinct(m, b, ts.drop_last());
        lemma_map_put(thread_routes(m, b, ts.drop_last()), key_of(b, ts.last()), ts.last().id);
    }
}

proof fn lemma_thread_routes_other(m: Seq<(ThreadKeyView, u128)>, b: Seq<char>, ts: Seq<ThreadView>, k: ThreadKeyView)
    requires
        distinct_keys(m),
        k.binding_id != b,
    ensures
        map_get(thread_routes(m, b, ts), k) == map_get(m, k),
    decreases ts.len(),
{
    if ts.len() > 0 {
        lemma_thread_routes_other(m, b, ts.drop_last(), k);
        lemma_thread_routes_distinct(m, b, ts.drop_last());
        lemma_map_put(thread_routes(m, b, ts.drop_last()), key_of(b, ts.last()), ts.last().id);
    }
}

proof fn lemma_thread_routes_get(m: Seq<(ThreadKeyView, u128)>, b: Seq<char>, ts: Seq<ThreadView>, k: ThreadKeyView, tid: u128)
    requires
        distinct_keys(m),
        exists|j: int| 0 <= j < ts.len() && key_of(b, #[trigger] ts[j]) == k,
        forall|j: int| 0 <= j < ts.len() && key_of(b, #[trigger] ts[j]) == k ==> ts[j].id == tid,
    ensures
        map_get(thread_routes(m, b, ts), k) == Some(tid),
    decreases ts.len(),
{
    let prev = ts.drop_last();
    lemma_thread_routes_distinct(m, b, prev);
    lemma_map_put(thread_routes(m, b, prev), key_of(b, ts.last()), ts.last().id);
    if key_of(b, ts.last()) != k {
        let j = choose|j: int| 0 <= j < ts.len() && key_of(b, #[trigger] ts[j]) == k;
        assert(j < ts.len() - 1);
        assert(prev[j] == ts[j]);
        assert forall|q: int| 0 <= q < prev.len() && key_of(b, #[trigger] prev[q]) == k implies prev[q].id == tid by {
            assert(prev[q] == ts[q]);
        }
        lemma_thread_routes_get(m, b, prev, k, tid);
    } else {
        assert(key_of(b, ts[ts.len() - 1]) == k);
    }
}

proof fn lemma_loaded_routes_distinct(ss: Seq<SessionView>)
    ensures
        distinct_keys(loaded_routes(ss)),
    decreases ss.len(),
{
    if ss.len() > 0 {
        lemma_loaded_routes_distinct(ss.drop_last());
        lemma_thread_routes_distinct(loaded_routes(ss.drop_last()), ss.last().binding_id, ss.last().threads);
    }
}

proof fn lemma_loaded_routes_get(ss: Seq<SessionView>, i: int, k: ThreadKeyView, tid: u128)
    requires
        0 <= i < ss.len(),
        forall|j: int| i < j < ss.len() ==> (#[trigger] ss[j]).binding_id != ss[i].binding_id,
        k.binding_id == ss[i].binding_id,
        exists|j: int| 0 <= j < ss[i].threads.len() && key_of(ss[i].binding_id, #[trigger] ss[i].threads[j]) == k,
        forall|j: int|
            0 <= j < ss[i].threads.len() && key_of(ss[i].binding_id, #[trigger] ss[i].threads[j]) == k ==> ss[i].threads[j].id
                == tid,
    ensures
        map_get(loaded_routes(ss), k) == Some(tid),
    decreases ss.len(),
{
    let prev = ss.drop_last();
    lemma_loaded_routes_distinct(prev);
    if i == ss.len() - 1 {
        lemma_thread_routes_get(loaded_routes(prev), ss.last().binding_id, ss.last().threads, k, tid);
    } else {
        assert(prev[i] == ss[i]);
        assert forall|j: int| i < j < prev.len() implies (#[trigger] prev[j]).binding_id != prev[i].binding_id by {
            assert(prev[j] == ss[j]);
        }
        lemma_loaded_routes_get(prev, i, k, tid);
        assert(ss[ss.len() - 1].binding_id != ss[i].binding_id);
        lemma_thread_routes_other(loaded_routes(prev), ss.last().binding_id, ss.last().threads, k);
    }
}

proof fn lemma_loaded_sessions_get(ss: Seq<SessionView>, i: int)
    requires
        forall|j: int| 0 <= j < ss.len() ==> (#[trigger] ss[j]).wf(),
        0 <= i < ss.len(),
        forall|j: int| i < j < ss.len() ==> (#[trigger] ss[j]).binding_id != ss[i].binding_id,
    ensures
        sessions_wf(loaded_sessions(ss)),
        session_has(loaded_sessions(ss), ss[i].binding_id),
        loaded_sessions(ss)[session_pos(loaded_sessions(ss), ss[i].binding_id)] == ss[i],
    decreases ss.len(),
{
    let prev = ss.drop_last();
    lemma_loaded_sessions_wf(prev);
    lemma_put_session(loaded_sessions(prev), ss.last());
    if i < ss.len() - 1 {
        assert(prev[i] == ss[i]);
        assert forall|j: int| i < j < prev.len() implies (#[trigger] prev[j]).binding_id != prev[i].binding_id by {
            assert(prev[j] == ss[j]);
        }
        lemma_loaded_sessions_get(prev, i);
        assert(ss[ss.len() - 1].binding_id != ss[i].binding_id);
    }
}

proof fn lemma_loaded_sessions_wf(ss: Seq<SessionView>)
    requires
        forall|j: int| 0 <= j < ss.len() ==> (#[trigger] ss[j]).wf(),
    ensures
        sessions_wf(loaded_sessions(ss)),
    decreases ss.len(),
{
    if ss.len() > 0 {
        let prev = ss.drop_last();
        assert forall|j: int| 0 <= j < prev.len() implies (#[trigger] prev[j]).wf() by {
            assert(prev[j] == ss[j]);
        }
        lemma_loaded_sessions_wf(prev);
        assert(ss[ss.len() - 1].wf());
        lemma_put_session(loaded_sessions(prev), ss.last());
    } else {
        assert(loaded_sessions(ss) =~= Seq::<SessionView>::empty());
    }
}

/// Law: after a start from the stored sessions `stored` (fixed at `now`),
/// the conversation of a stored thread `t` is resolved to `t` itself, and
/// resolving it creates nothing, as long as `t`'s session is the last stored
/// for its binding and no other thread of that session has the same
/// conversation.
pub proof fn law_loaded_thread_found_again(
    stored: Seq<SessionView>,
    now: i64,
    i: int,
    t: ThreadView,
    m1: SessionManagerView,
    tid: u128,
)
    requires
        forall|j: int| 0 <= j < stored.len() ==> (#[trigger] stored[j]).wf(),
        0 <= i < stored.len(),
        forall|j: int| i < j < stored.len() ==> (#[trigger] stored[j]).binding_id != stored[i].binding_id,
        stored[i].threads.contains(t),
        forall|u: ThreadView|
            stored[i].threads.contains(u) && key_of(stored[i].binding_id, u) == key_of(stored[i].binding_id, t) ==> u.id
                == t.id,
        resolved(
            SessionManagerView {
                sessions: loaded_sessions(fixed_sessions(stored, now)),
                thread_map: loaded_routes(fixed_sessions(stored, now)),
                pending_storage: Seq::empty(),
                persistent: true,
            },
            m1,
            key_of(stored[i].binding_id, t),
            tid,
        ),
    ensures
        tid == t.id,
        m1 == (SessionManagerView {
            sessions: loaded_sessions(fixed_sessions(stored, now)),
            thread_map: loaded_routes(fixed_sessions(stored, now)),
            pending_storage: Seq::empty(),
            persistent: true,
        }),
{
    let fs = fixed_sessions(stored, now);
    let b = stored[i].binding_id;
    let k = key_of(b, t);
    let m = SessionManagerView {
        sessions: loaded_sessions(fs),
        thread_map: loaded_routes(fs),
        pending_storage: Seq::empty(),
        persistent: true,
    };
    assert forall|j: int| 0 <= j < fs.len() implies (#[trigger] fs[j]).wf() by {
        let s = stored[j];
        assert(fs[j] == fixed_session(s, now));
        assert(s.wf());
        assert forall|p: int, q: int| 0 <= p < fs[j].threads.len() && 0 <= q < fs[j].threads.len() && p != q implies fs[j].threads[p].id
            != fs[j].threads[q].id by {
            assert(fs[j].threads[p] == fixed_thread(s.threads[p], now));
            assert(fs[j].threads[q] == fixed_thread(s.threads[q], now));
        }
    }
    assert forall|j: int| i < j < fs.len() implies (#[trigger] fs[j]).binding_id != fs[i].binding_id by {
        assert(fs[j] == fixed_session(stored[j], now));
        assert(stored[j].binding_id != stored[i].binding_id);
    }
    let w = choose|w: int| 0 <= w < stored[i].threads.len() && stored[i].threads[w] == t;
    let fi = fs[i];
    assert(fi == fixed_session(stored[i], now));
    assert(fi.threads[w] == fixed_thread(t, now));
    assert(key_of(fi.binding_id, fi.threads[w]) == k);
    assert forall|j: int| 0 <= j < fi.threads.len() && key_of(fi.binding_id, #[trigger] fi.threads[j]) == k implies fi.threads[j].id
        == t.id by {
        let u = stored[i].threads[j];
        assert(fi.threads[j] == fixed_thread(u, now));
        assert(stored[i].threads.contains(u));
    }
    lemma_loaded_routes_get(fs, i, k, t.id);
    lemma_loaded_sessions_get(fs, i);
    assert(m.session_of(b) == fi);
    assert(has_thread(fi.threads, t.id));
    assert(m.resolves_to(k) == Some(t.id));
}

} // verus!
