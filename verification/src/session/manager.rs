//! Session manager: one session per binding, and the routing of external
//! conversations to internal threads.
use vstd::prelude::*;
use crate::ext::{now_nanos, uuid_text, uuid_to_string};
use crate::message::clone_opt_string;
use crate::session::session::{
    Session, SessionView, threads_view, fresh_session, has_thread, lemma_put_thread_has, put_thread, thread_position,
};
use crate::session::thread::{
    Thread, ThreadState, ThreadView, turns_view, completed_turn, failed_turn, fresh_thread, fresh_turn_of,
    interrupted_turn, last_stamp, with_last,
};
use crate::session::turn::{Turn, TurnState, TurnToolCall, TurnView};
use crate::ext::{json_string_list_of, json_string_list_text, rfc3339_text};
use crate::storage::convert::{
    TurnInsertValues, thread_state_name, thread_state_to_str, turn_row_of,
};
use crate::storage::convert::{
    SessionInsertValues, ThreadInsertValues, ToolCallInsertValues, session_row_of, thread_row_of,
    tool_call_row_of,
};
use crate::storage::ops::{StorageOp, StorageOpView, lemma_ops_view_push, ops_view};
use crate::text::{contains_str, str_eq};

verus! {

/// Key routing an external conversation to an internal thread: binding,
/// user, channel and external thread. `None` and `Some(..)` external threads
/// are different keys.
#[derive(Debug)]
pub struct ThreadKey {
    pub binding_id: String,
    pub user_id: String,
    pub channel: String,
    pub external_thread_id: Option<String>,
}

pub struct ThreadKeyView {
    pub binding_id: Seq<char>,
    pub user_id: Seq<char>,
    pub channel: Seq<char>,
    pub external_thread_id: Option<Seq<char>>,
}

impl View for ThreadKey {
    type V = ThreadKeyView;

    open spec fn view(&self) -> ThreadKeyView {
        ThreadKeyView {
            binding_id: self.binding_id@,
            user_id: self.user_id@,
            channel: self.channel@,
            external_thread_id: self.external_thread_id.deep_view(),
        }
    }
}

impl ThreadKey {
    /// Create a new thread key.
    pub fn new(binding_id: &str, user_id: &str, channel: &str, external_thread_id: Option<String>) -> (k: Self)
        ensures
            k@ == (ThreadKeyView {
                binding_id: binding_id@,
                user_id: user_id@,
                channel: channel@,
                external_thread_id: external_thread_id.deep_view(),
            }),
    {
        ThreadKey {
            binding_id: binding_id.to_owned(),
            user_id: user_id.to_owned(),
            channel: channel.to_owned(),
            external_thread_id,
        }
    }

    /// Create a thread key without external thread (non-threaded platforms).
    pub fn without_thread(binding_id: &str, user_id: &str, channel: &str) -> (k: Self)
        ensures
            k@ == (ThreadKeyView {
                binding_id: binding_id@,
                user_id: user_id@,
                channel: channel@,
                external_thread_id: None,
            }),
    {
        Self::new(binding_id, user_id, channel, None)
    }

    /// Whether two keys are equal.
    pub fn same_as(&self, other: &ThreadKey) -> (b: bool)
        ensures
            b == (self@ == other@),
    {
        let ext = match (&self.external_thread_id, &other.external_thread_id) {
            (Some(a), Some(b)) => str_eq(a.as_str(), b.as_str()),
            (None, None) => true,
            _ => false,
        };
        str_eq(self.binding_id.as_str(), other.binding_id.as_str()) && str_eq(self.user_id.as_str(), other.user_id.as_str())
            && str_eq(self.channel.as_str(), other.channel.as_str()) && ext
    }
}

// ── Maps held as sequences ──

/// The routing map holds an entry for `k`.
pub open spec fn map_has(m: Seq<(ThreadKeyView, u128)>, k: ThreadKeyView) -> bool {
    exists|i: int| 0 <= i < m.len() && m[i].0 == k
}

/// Position of the entry for `k`.
pub open spec fn map_pos(m: Seq<(ThreadKeyView, u128)>, k: ThreadKeyView) -> int {
    choose|i: int| 0 <= i < m.len() && m[i].0 == k
}

/// The thread that the routing map holds for `k`.
pub open spec fn map_get(m: Seq<(ThreadKeyView, u128)>, k: ThreadKeyView) -> Option<u128> {
    if map_has(m, k) {
        Some(m[map_pos(m, k)].1)
    } else {
        None
    }
}

/// The routing map with `k` mapped to `t` (replacing its entry in place, or appended).
pub open spec fn map_put(m: Seq<(ThreadKeyView, u128)>, k: ThreadKeyView, t: u128) -> Seq<(ThreadKeyView, u128)> {
    if map_has(m, k) {
        m.update(map_pos(m, k), (k, t))
    } else {
        m.push((k, t))
    }
}

/// No key occurs twice.
pub open spec fn distinct_keys(m: Seq<(ThreadKeyView, u128)>) -> bool {
    forall|i: int, j: int| 0 <= i < m.len() && 0 <= j < m.len() && i != j ==> m[i].0 != m[j].0
}

/// Some session belongs to binding `b`.
pub open spec fn session_has(ss: Seq<SessionView>, b: Seq<char>) -> bool {
    exists|i: int| 0 <= i < ss.len() && ss[i].binding_id == b
}

/// Position of the session of binding `b`.
pub open spec fn session_pos(ss: Seq<SessionView>, b: Seq<char>) -> int {
    choose|i: int| 0 <= i < ss.len() && ss[i].binding_id == b
}

/// `ss` with `s` stored under its binding (replacing in place, or appended).
pub open spec fn put_session(ss: Seq<SessionView>, s: SessionView) -> Seq<SessionView> {
    if session_has(ss, s.binding_id) {
        ss.update(session_pos(ss, s.binding_id), s)
    } else {
        ss.push(s)
    }
}

/// No binding has two sessions, and each session is well formed.
pub open spec fn sessions_wf(ss: Seq<SessionView>) -> bool {
    &&& forall|i: int, j: int| 0 <= i < ss.len() && 0 <= j < ss.len() && i != j ==> ss[i].binding_id != ss[j].binding_id
    &&& forall|i: int| 0 <= i < ss.len() ==> (#[trigger] ss[i]).wf()
}

/// Views of a routing map.
pub open spec fn thread_map_view(m: Seq<(ThreadKey, u128)>) -> Seq<(ThreadKeyView, u128)> {
    m.map_values(|e: (ThreadKey, u128)| (e.0@, e.1))
}

/// Views of a list of sessions.
pub open spec fn sessions_view(v: Seq<Session>) -> Seq<SessionView> {
    v.map_values(|s: Session| s@)
}

/// Manages the sessions of the bindings and routes external conversations to
/// internal threads. When `persistent`, every change is also queued as a
/// database write in `pending_storage`, for the host to perform.
pub struct SessionManager {
    sessions: Vec<Session>,
    thread_map: Vec<(ThreadKey, u128)>,
    pending_storage: Vec<StorageOp>,
    persistent: bool,
}

pub struct SessionManagerView {
    pub sessions: Seq<SessionView>,
    pub thread_map: Seq<(ThreadKeyView, u128)>,
    pub pending_storage: Seq<StorageOpView>,
    pub persistent: bool,
}

impl View for SessionManager {
    type V = SessionManagerView;

    closed spec fn view(&self) -> SessionManagerView {
        SessionManagerView {
            sessions: sessions_view(self.sessions@),
            thread_map: thread_map_view(self.thread_map@),
            pending_storage: ops_view(self.pending_storage@),
            persistent: self.persistent,
        }
    }
}

impl SessionManagerView {
    /// Sessions are well formed and routing keys distinct.
    pub open spec fn wf(self) -> bool {
        &&& sessions_wf(self.sessions)
        &&& distinct_keys(self.thread_map)
    }

    /// The session of binding `b`.
    pub open spec fn session_of(self, b: Seq<char>) -> SessionView {
        self.sessions[session_pos(self.sessions, b)]
    }

    /// The thread that key `k` is routed to: the mapped thread, when it
    /// still exists in the session of the key's binding.
    pub open spec fn resolves_to(self, k: ThreadKeyView) -> Option<u128> {
        match map_get(self.thread_map, k) {
            Some(t) => if session_has(self.sessions, k.binding_id) && has_thread(
                self.session_of(k.binding_id).threads,
                t,
            ) {
                Some(t)
            } else {
                None
            },
            None => None,
        }
    }

    /// `ops` appended to the queued writes, when persistent.
    pub open spec fn queued(self, ops: Seq<StorageOpView>) -> Seq<StorageOpView> {
        if self.persistent {
            self.pending_storage + ops
        } else {
            self.pending_storage
        }
    }
}

/// The JSON text of an empty list of pending approvals.
pub open spec fn empty_json_array() -> Seq<char> {
    "[]"@
}

impl SessionManager {
    /// A session manager without persistence.
    pub fn new() -> (m: Self)
        ensures
            m@.sessions.len() == 0,
            m@.thread_map.len() == 0,
            m@.pending_storage.len() == 0,
            !m@.persistent,
            m@.wf(),
    {
        let m = SessionManager {
            sessions: Vec::new(),
            thread_map: Vec::new(),
            pending_storage: Vec::new(),
            persistent: false,
        };
        proof {
            assert(sessions_view(m.sessions@) =~= Seq::empty());
            assert(thread_map_view(m.thread_map@) =~= Seq::empty());
            assert(ops_view(m.pending_storage@) =~= Seq::empty());
        }
        m
    }

    pub(crate) fn queue(&mut self, op: StorageOp)
        ensures
            final(self)@ == (SessionManagerView { pending_storage: old(self)@.queued(seq![op@]), ..old(self)@ }),
    {
        if self.persistent {
            let ghost before = self.pending_storage@;
            self.pending_storage.push(op);
            proof {
                lemma_ops_view_push(before, op);
                assert(ops_view(before).push(op@) =~= ops_view(before) + seq![op@]);
            }
        }
    }

    /// Hand the queued database writes over, emptying the queue.
    pub fn take_storage_ops(&mut self) -> (ops: Vec<StorageOp>)
        ensures
            ops_view(ops@) == old(self)@.pending_storage,
            final(self)@ == (SessionManagerView { pending_storage: Seq::empty(), ..old(self)@ }),
    {
        let mut ops: Vec<StorageOp> = Vec::new();
        std::mem::swap(&mut ops, &mut self.pending_storage);
        proof {
            assert(ops_view(self.pending_storage@) =~= Seq::empty());
        }
        ops
    }

    /// Position of the session of `binding_id`.
    pub(crate) fn session_index(&self, binding_id: &str) -> (r: Option<usize>)
        ensures
            match r {
                Some(i) => i < self@.sessions.len() && self@.sessions[i as int].binding_id == binding_id@,
                None => !session_has(self@.sessions, binding_id@),
            },
    {
        let mut i: usize = 0;
        while i < self.sessions.len()
            invariant
                i <= self.sessions@.len(),
                forall|j: int| 0 <= j < i ==> self@.sessions[j].binding_id != binding_id@,
            decreases self.sessions@.len() - i,
        {
            if str_eq(self.sessions[i].binding_id.as_str(), binding_id) {
                proof {
                    assert(self@.sessions[i as int] == self.sessions@[i as int]@);
                }
                return Some(i);
            }
            proof {
                assert(self@.sessions[i as int] == self.sessions@[i as int]@);
            }
            i = i + 1;
        }
        None
    }

    /// Position of the routing entry for `key`.
    fn key_index(&self, key: &ThreadKey) -> (r: Option<usize>)
        ensures
            match r {
                Some(i) => i < self@.thread_map.len() && self@.thread_map[i as int].0 == key@,
                None => !map_has(self@.thread_map, key@),
            },
    {
        let mut i: usize = 0;
        while i < self.thread_map.len()
            invariant
                i <= self.thread_map@.len(),
                forall|j: int| 0 <= j < i ==> self@.thread_map[j].0 != key@,
            decreases self.thread_map@.len() - i,
        {
            if self.thread_map[i].0.same_as(key) {
                return Some(i);
            }
            i = i + 1;
        }
        None
    }

    /// The session of `binding_id`.
    pub fn session(&self, binding_id: &str) -> (r: Option<&Session>)
        ensures
            match r {
                Some(s) => session_has(self@.sessions, binding_id@) && self@.sessions.contains(s@)
                    && s@.binding_id == binding_id@,
                None => !session_has(self@.sessions, binding_id@),
            },
    {
        match self.session_index(binding_id) {
            Some(i) => {
                proof {
                    assert(self@.sessions[i as int] == self.sessions@[i as int]@);
                }
                Some(&self.sessions[i])
            },
            None => None,
        }
    }

    /// Get the session of a binding, creating (and queueing the insertion
    /// of) a fresh one when there is none; gives the session's identifier.
    pub fn get_or_create_session(&mut self, binding_id: &str) -> (id: u128)
        requires
            old(self)@.wf(),
        ensures
            final(self)@.wf(),
            session_has(final(self)@.sessions, binding_id@),
            final(self)@.session_of(binding_id@).id == id,
            session_has(old(self)@.sessions, binding_id@) ==> final(self)@ == old(self)@,
            !session_has(old(self)@.sessions, binding_id@) ==> {
                let s = final(self)@.session_of(binding_id@);
                &&& s == fresh_session(binding_id@, id, s.created_at)
                &&& final(self)@ == (SessionManagerView {
                    sessions: old(self)@.sessions.push(s),
                    pending_storage: old(self)@.queued(seq![StorageOpView::InsertSession(session_row_of(s))]),
                    ..old(self)@
                })
            },
    {
        match self.session_index(binding_id) {
            Some(i) => {
                proof {
                    assert(session_has(self@.sessions, binding_id@));
                    let p = session_pos(self@.sessions, binding_id@);
                    assert(p == i);
                }
                self.sessions[i].id
            },
            None => {
                let s = Session::new(binding_id);
                let id = s.id;
                let values = SessionInsertValues::from_session(&s);
                let ghost sv = s@;
                self.sessions.push(s);
                proof {
                    assert(sessions_view(self.sessions@) =~= old(self)@.sessions.push(sv));
                    let n = old(self)@.sessions.len() as int;
                    assert(self@.sessions[n].binding_id == binding_id@);
                    assert(session_has(self@.sessions, binding_id@));
                    let p = session_pos(self@.sessions, binding_id@);
                    assert(p == n);
                }
                self.queue(StorageOp::InsertSession(values));
                id
            },
        }
    }
}

/// What `resolve_thread` does when `k` is not yet routed: the session of the
/// key's binding (the old one, or a fresh one whose insertion is queued)
/// gets a fresh idle thread with the key's routing identities, which becomes
/// its active thread; the key is mapped to it, and the thread's insertion and
/// the session's new active thread are queued.
pub open spec fn resolved_fresh(old: SessionManagerView, new: SessionManagerView, k: ThreadKeyView, tid: u128) -> bool {
    let b = k.binding_id;
    let s = new.session_of(b);
    let had = session_has(old.sessions, b);
    let base = if had {
        old.session_of(b)
    } else {
        fresh_session(b, s.id, s.created_at)
    };
    let th = s.threads[thread_position(s.threads, tid)];
    &&& session_has(new.sessions, b)
    &&& has_thread(s.threads, tid)
    &&& th == fresh_thread(base.id, k.user_id, k.channel, k.external_thread_id, tid, th.created_at)
    &&& s == (SessionView { threads: put_thread(base.threads, th), active_thread: Some(tid), ..base })
    &&& new.sessions == put_session(old.sessions, s)
    &&& new.thread_map == map_put(old.thread_map, k, tid)
    &&& new.persistent == old.persistent
    &&& new.pending_storage == old.queued(
        (if had {
            Seq::empty()
        } else {
            seq![StorageOpView::InsertSession(session_row_of(base))]
        }) + seq![
            StorageOpView::InsertThread(thread_row_of(th, empty_json_array())),
            StorageOpView::UpdateSessionActiveThread { session_id: uuid_text(s.id), thread_id: uuid_text(tid) },
        ],
    )
}

pub(crate) proof fn lemma_map_put(m: Seq<(ThreadKeyView, u128)>, k: ThreadKeyView, t: u128)
    requires
        distinct_keys(m),
    ensures
        distinct_keys(map_put(m, k, t)),
        map_get(map_put(m, k, t), k) == Some(t),
        forall|k2: ThreadKeyView| k2 != k ==> map_get(map_put(m, k, t), k2) == map_get(m, k2),
{
    let r = map_put(m, k, t);
    if map_has(m, k) {
        let p = map_pos(m, k);
        assert(r[p] == (k, t));
    } else {
        assert(r[m.len() as int] == (k, t));
    }
    assert(map_has(r, k));
    let q = map_pos(r, k);
    assert(r[q].0 == k);
    assert forall|k2: ThreadKeyView| k2 != k implies map_get(r, k2) == map_get(m, k2) by {
        if map_has(m, k2) {
            let i = map_pos(m, k2);
            assert(r[i] == m[i]);
            assert(map_has(r, k2));
            let j = map_pos(r, k2);
            assert(r[j].0 == k2);
            assert(j == i);
        }
        if map_has(r, k2) {
            let j = map_pos(r, k2);
            assert(r[j] == m[j]);
            assert(map_has(m, k2));
        }
    }
}

pub(crate) proof fn lemma_put_session(ss: Seq<SessionView>, s: SessionView)
    requires
        sessions_wf(ss),
        s.wf(),
    ensures
        sessions_wf(put_session(ss, s)),
        session_has(put_session(ss, s), s.binding_id),
        put_session(ss, s)[session_pos(put_session(ss, s), s.binding_id)] == s,
        forall|b: Seq<char>| b != s.binding_id ==> (session_has(put_session(ss, s), b) <==> session_has(ss, b)),
        forall|b: Seq<char>|
            b != s.binding_id && session_has(ss, b) ==> put_session(ss, s)[session_pos(put_session(ss, s), b)] == ss[session_pos(ss, b)],
{
    let r = put_session(ss, s);
    if session_has(ss, s.binding_id) {
        let p = session_pos(ss, s.binding_id);
        assert(r[p] == s);
    } else {
        assert(r[ss.len() as int] == s);
    }
    assert(session_has(r, s.binding_id));
    assert forall|b: Seq<char>| b != s.binding_id implies (session_has(r, b) <==> session_has(ss, b)) by {
        if session_has(ss, b) {
            let i = session_pos(ss, b);
            assert(r[i] == ss[i]);
        }
        if session_has(r, b) {
            let j = session_pos(r, b);
            assert(r[j] == ss[j]);
        }
    }
    assert forall|b: Seq<char>| b != s.binding_id && session_has(ss, b) implies r[session_pos(r, b)] == ss[session_pos(ss, b)] by {
        let i = session_pos(ss, b);
        assert(r[i] == ss[i]);
        let j = session_pos(r, b);
        assert(r[j] == ss[j]);
    }
}

impl SessionManager {
    /// Position of the session of `binding_id`, created (and its insertion
    /// queued) when there is none.
    fn ensure_session(&mut self, binding_id: &str) -> (i: usize)
        requires
            old(self)@.wf(),
        ensures
            final(self)@.wf(),
            i < final(self)@.sessions.len(),
            i == session_pos(final(self)@.sessions, binding_id@),
            final(self)@.sessions[i as int].binding_id == binding_id@,
            session_has(old(self)@.sessions, binding_id@) ==> final(self)@ == old(self)@,
            !session_has(old(self)@.sessions, binding_id@) ==> {
                let s = final(self)@.session_of(binding_id@);
                &&& s == fresh_session(binding_id@, s.id, s.created_at)
                &&& final(self)@ == (SessionManagerView {
                    sessions: old(self)@.sessions.push(s),
                    pending_storage: old(self)@.queued(seq![StorageOpView::InsertSession(session_row_of(s))]),
                    ..old(self)@
                })
            },
    {
        self.get_or_create_session(binding_id);
        match self.session_index(binding_id) {
            Some(i) => {
                proof {
                    let p = session_pos(self@.sessions, binding_id@);
                    assert(self@.sessions[p].binding_id == binding_id@);
                    assert(p == i);
                }
                i
            },
            None => {
                proof {
                    assert(false);
                }
                0
            },
        }
    }

    /// Resolve an external conversation to an internal thread, creating the
    /// session and the thread when needed (see `resolved_fresh`).
    ///
    /// The same `(binding_id, user_id, channel, external_thread_id)` resolves
    /// to the same thread; `None` and `Some(..)` external threads are
    /// different keys.
    pub fn resolve_thread(
        &mut self,
        binding_id: &str,
        user_id: &str,
        channel: &str,
        external_thread_id: Option<&str>,
    ) -> (tid: u128)
        requires
            old(self)@.wf(),
        ensures
            resolved(
                old(self)@,
                final(self)@,
                route_key(binding_id@, user_id@, channel@, external_thread_id.deep_view()),
                tid,
            ),
    {
        let ghost k = route_key(binding_id@, user_id@, channel@, external_thread_id.deep_view());
        let ext: Option<String> = match external_thread_id {
            Some(e) => Some(e.to_owned()),
            None => None,
        };
        let key = ThreadKey::new(binding_id, user_id, channel, ext);
        let ghost v0 = self@;
        let si = self.ensure_session(binding_id);
        let ghost v1 = self@;
        match self.key_index(&key) {
            Some(ki) => {
                let t = self.thread_map[ki].1;
                proof {
                    assert(self@.thread_map[ki as int] == (self.thread_map@[ki as int].0@, t));
                    let p = map_pos(self@.thread_map, k);
                    assert(p == ki);
                }
                if self.sessions[si].contains_thread(t) {
                    proof {
                        assert(self@.sessions[si as int] == self.sessions@[si as int]@);
                        if !session_has(v0.sessions, binding_id@) {
                            assert(v1.thread_map == v0.thread_map);
                            let s = v1.session_of(binding_id@);
                            assert(s.threads =~= Seq::empty());
                            assert(false);
                        }
                    }
                    return t;
                }
            },
            None => {},
        }
        proof {
            if session_has(v0.sessions, binding_id@) {
                assert(v0.resolves_to(k) is None);
            } else {
                assert(v1.thread_map == v0.thread_map);
                assert(v0.resolves_to(k) is None);
            }
        }
        let mut sess = self.sessions.remove(si);
        let ghost base = sess@;
        let ext2: Option<String> = match external_thread_id {
            Some(e) => Some(e.to_owned()),
            None => None,
        };
        let th = Thread::with_routing(sess.id, user_id, channel, ext2);
        let ghost thv = th@;
        let th_values = ThreadInsertValues::from_thread(&th, "[]".to_owned());
        proof {
            assert(th_values@ == thread_row_of(thv, empty_json_array()));
        }
        proof {
            assert(sessions_view(self.sessions@) =~= v1.sessions.remove(si as int));
        }
        let tid = sess.store_thread(th);
        let sid_str = uuid_to_string(sess.id);
        let tid_str = uuid_to_string(tid);
        let ghost sv = sess@;
        self.sessions.insert(si, sess);
        proof {
            assert(sessions_view(self.sessions@) =~= v1.sessions.update(si as int, sv));
            lemma_put_thread_has(base.threads, thv);
            assert(sv.wf());
            lemma_put_session(v1.sessions, sv);
            assert(put_session(v1.sessions, sv) == v1.sessions.update(si as int, sv));
        }
        match self.key_index(&key) {
            Some(ki) => {
                let ghost before = self.thread_map@;
                self.thread_map.set(ki, (key, tid));
                proof {
                    assert(thread_map_view(self.thread_map@) =~= map_put(v1.thread_map, k, tid));
                }
            },
            None => {
                self.thread_map.push((key, tid));
                proof {
                    assert(thread_map_view(self.thread_map@) =~= map_put(v1.thread_map, k, tid));
                }
            },
        }
        proof {
            lemma_map_put(v1.thread_map, k, tid);
        }
        self.queue(StorageOp::InsertThread(th_values));
        self.queue(StorageOp::UpdateSessionActiveThread { session_id: sid_str, thread_id: tid_str });
        proof {
            assert(self@.wf());
            let b = k.binding_id;
            let s = self@.session_of(b);
            assert(s == sv);
            let had = session_has(v0.sessions, b);
            let base2 = if had { v0.session_of(b) } else { fresh_session(b, s.id, s.created_at) };
            assert(base2 == base);
            let th = s.threads[thread_position(s.threads, tid)];
            assert(th == thv);
            assert(session_has(self@.sessions, b));
            assert(has_thread(s.threads, tid));
            assert(th == fresh_thread(base2.id, k.user_id, k.channel, k.external_thread_id, tid, th.created_at));
            assert(s == (SessionView { threads: put_thread(base2.threads, th), active_thread: Some(tid), ..base2 }));
            assert(self@.sessions == put_session(v0.sessions, s));
            assert(self@.thread_map == map_put(v0.thread_map, k, tid));
            let a: Seq<StorageOpView> = if had {
                Seq::empty()
            } else {
                seq![StorageOpView::InsertSession(session_row_of(base2))]
            };
            assert(v1.pending_storage == v0.queued(a)) by {
                if had {
                    assert(v0.pending_storage + a =~= v0.pending_storage);
                }
            }
            let ops = seq![
                StorageOpView::InsertThread(thread_row_of(th, empty_json_array())),
                StorageOpView::UpdateSessionActiveThread { session_id: uuid_text(s.id), thread_id: uuid_text(tid) },
            ];
            assert(v1.persistent == v0.persistent);
            if v0.persistent {
                assert(self@.pending_storage =~= v0.pending_storage + (a + ops));
            }
        }
        tid
    }
}

/// `new` is `old` after resolving key `k` to thread `tid`: a routed key
/// keeps its thread and nothing changes; otherwise see `resolved_fresh`.
pub open spec fn resolved(old: SessionManagerView, new: SessionManagerView, k: ThreadKeyView, tid: u128) -> bool {
    &&& new.wf()
    &&& new.resolves_to(k) == Some(tid)
    &&& (old.resolves_to(k) matches Some(t) ==> tid == t && new == old)
    &&& (old.resolves_to(k) is None ==> resolved_fresh(old, new, k, tid))
}

/// Law: resolving the same conversation twice gives the same thread, and the
/// second resolution changes nothing.
pub proof fn law_resolve_same_key_same_thread(
    m0: SessionManagerView,
    m1: SessionManagerView,
    m2: SessionManagerView,
    k: ThreadKeyView,
    t1: u128,
    t2: u128,
)
    requires
        resolved(m0, m1, k, t1),
        resolved(m1, m2, k, t2),
    ensures
        t1 == t2,
        m2 == m1,
{
}

/// Law: resolving one conversation does not change the thread that any other
/// routed conversation resolves to (a different user, channel, binding or
/// external thread, or `None` against `Some(..)`).
pub proof fn law_resolve_keeps_other_routes(
    m0: SessionManagerView,
    m1: SessionManagerView,
    k: ThreadKeyView,
    tid: u128,
    other: ThreadKeyView,
)
    requires
        m0.wf(),
        resolved(m0, m1, k, tid),
        other != k,
        m0.resolves_to(other) is Some,
    ensures
        m1.resolves_to(other) == m0.resolves_to(other),
{
    if m0.resolves_to(k) is None {
        let t = m0.resolves_to(other)->0;
        lemma_map_put(m0.thread_map, k, tid);
        assert(map_get(m1.thread_map, other) == Some(t));
        let b = k.binding_id;
        let s = m1.session_of(b);
        assert(s.wf()) by {
            let p = session_pos(m1.sessions, b);
            assert(m1.sessions[p] == s);
        }
        lemma_put_session(m0.sessions, s);
        if other.binding_id == b {
            let base = m0.session_of(b);
            assert(base.wf()) by {
                let p = session_pos(m0.sessions, b);
                assert(m0.sessions[p] == base);
            }
            let th = s.threads[thread_position(s.threads, tid)];
            lemma_put_thread_has(base.threads, th);
            assert(has_thread(s.threads, t));
        }
    }
}

/// Law: a conversation not routed yet, resolved after another one of the same
/// binding, gets a thread of its own (unless the random identifier drawn for
/// it is one the session already holds): a thread other than the first, in the
/// same session, which keeps the first and its route. The new thread carries
/// the conversation's user, channel and external thread, is idle and has no
/// turns.
pub proof fn law_new_conversation_new_thread(
    m0: SessionManagerView,
    m1: SessionManagerView,
    m2: SessionManagerView,
    k1: ThreadKeyView,
    t1: u128,
    k2: ThreadKeyView,
    t2: u128,
)
    requires
        resolved(m0, m1, k1, t1),
        resolved(m1, m2, k2, t2),
        k2.binding_id == k1.binding_id,
        m1.resolves_to(k2) is None,
        !has_thread(m1.session_of(k1.binding_id).threads, t2),
    ensures
        t2 != t1,
        m2.resolves_to(k1) == Some(t1),
        m2.resolves_to(k2) == Some(t2),
        m2.session_of(k1.binding_id).id == m1.session_of(k1.binding_id).id,
        located(m2, k1.binding_id, t1),
        located(m2, k1.binding_id, t2),
        thread_of(m2, k1.binding_id, t2).user_id == k2.user_id,
        thread_of(m2, k1.binding_id, t2).channel == k2.channel,
        thread_of(m2, k1.binding_id, t2).external_thread_id == k2.external_thread_id,
        thread_of(m2, k1.binding_id, t2).state == ThreadState::Idle,
        thread_of(m2, k1.binding_id, t2).turns.len() == 0,
{
    law_resolve_keeps_other_routes(m1, m2, k2, t2, k1);
}

/// The routing key of an external conversation.
pub open spec fn route_key(
    binding_id: Seq<char>,
    user_id: Seq<char>,
    channel: Seq<char>,
    external_thread_id: Option<Seq<char>>,
) -> ThreadKeyView {
    ThreadKeyView { binding_id, user_id, channel, external_thread_id }
}

/// The session of binding `b` has a thread `tid`.
pub open spec fn located(v: SessionManagerView, b: Seq<char>, tid: u128) -> bool {
    session_has(v.sessions, b) && has_thread(v.session_of(b).threads, tid)
}

/// The thread `tid` of the session of binding `b`.
pub open spec fn thread_of(v: SessionManagerView, b: Seq<char>, tid: u128) -> ThreadView {
    let s = v.session_of(b);
    s.threads[thread_position(s.threads, tid)]
}

/// `v` with thread `tid` of the session of binding `b` replaced by `t`.
pub open spec fn with_thread(v: SessionManagerView, b: Seq<char>, tid: u128, t: ThreadView) -> Seq<SessionView> {
    let sp = session_pos(v.sessions, b);
    let s = v.sessions[sp];
    v.sessions.update(sp, SessionView { threads: s.threads.update(thread_position(s.threads, tid), t), ..s })
}

impl SessionManager {
    /// Positions of the session of `binding_id` and of its thread `thread_id`.
    pub(crate) fn locate(&self, binding_id: &str, thread_id: u128) -> (r: Option<(usize, usize)>)
        requires
            self@.wf(),
        ensures
            match r {
                Some((si, ti)) => {
                    &&& located(self@, binding_id@, thread_id)
                    &&& si == session_pos(self@.sessions, binding_id@)
                    &&& ti == thread_position(self@.session_of(binding_id@).threads, thread_id)
                    &&& si < self@.sessions.len()
                    &&& ti < self@.sessions[si as int].threads.len()
                },
                None => !located(self@, binding_id@, thread_id),
            },
    {
        match self.session_index(binding_id) {
            Some(si) => {
                proof {
                    let p = session_pos(self@.sessions, binding_id@);
                    assert(self@.sessions[p].binding_id == binding_id@);
                    assert(p == si);
                    assert(self@.sessions[si as int] == self.sessions@[si as int]@);
                }
                match self.sessions[si].thread_index(thread_id) {
                    Some(ti) => {
                        proof {
                            let s = self@.sessions[si as int];
                            let q = thread_position(s.threads, thread_id);
                            assert(s.threads[q].id == thread_id);
                            assert(s.wf());
                            assert(q == ti);
                        }
                        Some((si, ti))
                    },
                    None => None,
                }
            },
            None => None,
        }
    }

    /// The session at position `si`.
    pub(crate) fn session_at(&self, si: usize) -> (s: &Session)
        requires
            si < self@.sessions.len(),
        ensures
            s@ == self@.sessions[si as int],
    {
        &self.sessions[si]
    }

    /// Take out the session at `si`; `put_session_at` puts it back.
    pub(crate) fn take_session_at(&mut self, si: usize) -> (s: Session)
        requires
            si < old(self)@.sessions.len(),
        ensures
            s@ == old(self)@.sessions[si as int],
            final(self)@ == (SessionManagerView { sessions: old(self)@.sessions.remove(si as int), ..old(self)@ }),
    {
        let s = self.sessions.remove(si);
        proof {
            assert(sessions_view(self.sessions@) =~= old(self)@.sessions.remove(si as int));
        }
        s
    }

    /// Put a session back at `si`.
    pub(crate) fn put_session_at(&mut self, si: usize, s: Session)
        requires
            si <= old(self)@.sessions.len(),
        ensures
            final(self)@ == (SessionManagerView { sessions: old(self)@.sessions.insert(si as int, s@), ..old(self)@ }),
    {
        let ghost sv = s@;
        self.sessions.insert(si, s);
        proof {
            assert(sessions_view(self.sessions@) =~= old(self)@.sessions.insert(si as int, sv));
        }
    }

    /// Take out thread `ti` of session `si`.
    pub(crate) fn take_thread_at(&mut self, si: usize, ti: usize) -> (t: Thread)
        requires
            si < old(self)@.sessions.len(),
            ti < old(self)@.sessions[si as int].threads.len(),
        ensures
            t@ == old(self)@.sessions[si as int].threads[ti as int],
            final(self)@ == (SessionManagerView {
                sessions: old(self)@.sessions.update(
                    si as int,
                    SessionView {
                        threads: old(self)@.sessions[si as int].threads.remove(ti as int),
                        ..old(self)@.sessions[si as int]
                    },
                ),
                ..old(self)@
            }),
    {
        let mut sess = self.sessions.remove(si);
        proof {
            assert(sess@ == old(self)@.sessions[si as int]);
        }
        let t = sess.take_thread(ti);
        let ghost sv = sess@;
        self.sessions.insert(si, sess);
        proof {
            assert(sessions_view(self.sessions@) =~= old(self)@.sessions.update(si as int, sv));
        }
        t
    }

    /// Put thread `t` back at `ti` in session `si`.
    pub(crate) fn put_thread_at(&mut self, si: usize, ti: usize, t: Thread)
        requires
            si < old(self)@.sessions.len(),
            ti <= old(self)@.sessions[si as int].threads.len(),
        ensures
            final(self)@ == (SessionManagerView {
                sessions: old(self)@.sessions.update(
                    si as int,
                    SessionView {
                        threads: old(self)@.sessions[si as int].threads.insert(ti as int, t@),
                        ..old(self)@.sessions[si as int]
                    },
                ),
                ..old(self)@
            }),
    {
        let mut sess = self.sessions.remove(si);
        proof {
            assert(sess@ == old(self)@.sessions[si as int]);
        }
        sess.put_back(ti, t);
        let ghost sv = sess@;
        self.sessions.insert(si, sess);
        proof {
            assert(sessions_view(self.sessions@) =~= old(self)@.sessions.update(si as int, sv));
        }
    }
}

pub(crate) proof fn lemma_replace_thread(v: SessionManagerView, mid: SessionManagerView, fin: SessionManagerView, b: Seq<char>, tid: u128, si: int, ti: int, t: ThreadView)
    requires
        v.wf(),
        located(v, b, tid),
        si == session_pos(v.sessions, b),
        ti == thread_position(v.session_of(b).threads, tid),
        t.id == tid,
        mid == (SessionManagerView {
            sessions: v.sessions.update(si, SessionView { threads: v.sessions[si].threads.remove(ti), ..v.sessions[si] }),
            ..v
        }),
        fin == (SessionManagerView {
            sessions: mid.sessions.update(si, SessionView { threads: mid.sessions[si].threads.insert(ti, t), ..mid.sessions[si] }),
            ..mid
        }),
    ensures
        fin.sessions == with_thread(v, b, tid, t),
        fin.wf(),
        located(fin, b, tid),
        thread_of(fin, b, tid) == t,
{
    let s = v.sessions[si];
    assert(s.threads.remove(ti).insert(ti, t) =~= s.threads.update(ti, t));
    let ns = SessionView { threads: s.threads.update(ti, t), ..s };
    assert(fin.sessions =~= v.sessions.update(si, ns));
    assert(s.wf());
    assert(ns.wf()) by {
        assert forall|i: int, j: int| 0 <= i < ns.threads.len() && 0 <= j < ns.threads.len() && i != j implies ns.threads[i].id != ns.threads[j].id by {
            if i != ti && j != ti {
                assert(ns.threads[i] == s.threads[i]);
                assert(ns.threads[j] == s.threads[j]);
            } else if i == ti {
                assert(ns.threads[j] == s.threads[j]);
                assert(s.threads[ti].id == tid);
            } else {
                assert(ns.threads[i] == s.threads[i]);
                assert(s.threads[ti].id == tid);
            }
        }
    }
    assert(sessions_wf(fin.sessions)) by {
        assert forall|i: int| 0 <= i < fin.sessions.len() implies (#[trigger] fin.sessions[i]).wf() by {
            if i != si {
                assert(fin.sessions[i] == v.sessions[i]);
            }
        }
        assert forall|i: int, j: int| 0 <= i < fin.sessions.len() && 0 <= j < fin.sessions.len() && i != j implies fin.sessions[i].binding_id != fin.sessions[j].binding_id by {
            assert(fin.sessions[i].binding_id == v.sessions[i].binding_id);
            assert(fin.sessions[j].binding_id == v.sessions[j].binding_id);
        }
    }
    assert(fin.sessions[si] == ns);
    assert(session_has(fin.sessions, b));
    let p = session_pos(fin.sessions, b);
    assert(fin.sessions[p].binding_id == b);
    assert(p == si);
    assert(ns.threads[ti].id == tid);
    assert(has_thread(ns.threads, tid));
    let q = thread_position(ns.threads, tid);
    assert(q == ti);
}

/// The completion time of a turn as stored: its RFC 3339 text, or empty.
pub open spec fn stamp_text(t: TurnView) -> Seq<char> {
    match t.completed_at {
        Some(c) => rfc3339_text(c),
        None => Seq::empty(),
    }
}

fn stamp_string(t: &Turn) -> (s: String)
    ensures
        s@ == stamp_text(t@),
{
    match t.completed_at {
        Some(c) => crate::ext::rfc3339_of(c),
        None => String::new(),
    }
}

/// The write of a thread's new state and update time.
pub open spec fn state_op(t: ThreadView) -> StorageOpView {
    StorageOpView::UpdateThreadState {
        thread_id: uuid_text(t.id),
        state: thread_state_name(t.state),
        updated_at: rfc3339_text(t.updated_at),
    }
}

/// `new` is `old` after `thread_start_turn` on thread `thread_id` of binding `b`.
pub open spec fn turn_started(old: SessionManagerView, new: SessionManagerView, b: Seq<char>, thread_id: u128, user_input: Seq<char>) -> bool {
    &&& (!located(old, b, thread_id) ==> new == old)
    &&& (located(old, b, thread_id) ==> {
        let o = thread_of(old, b, thread_id);
        let n = thread_of(new, b, thread_id);
        &&& located(new, b, thread_id)
        &&& n == (ThreadView {
            turns: o.turns.push(fresh_turn_of(o, user_input, n.turns.last().id, n.turns.last().started_at)),
            state: ThreadState::Processing,
            updated_at: n.updated_at,
            ..o
        })
        &&& new == (SessionManagerView {
            sessions: with_thread(old, b, thread_id, n),
            pending_storage: old.queued(seq![StorageOpView::InsertTurn(turn_row_of(n.turns.last())), state_op(n)]),
            ..old
        })
    })
}

/// `new` is `old` after `thread_complete_turn` on thread `thread_id` of binding `b`.
pub open spec fn turn_completed(old: SessionManagerView, new: SessionManagerView, b: Seq<char>, thread_id: u128, response: Option<Seq<char>>) -> bool {
    &&& (!located(old, b, thread_id) ==> new == old)
    &&& (located(old, b, thread_id) ==> {
        let o = thread_of(old, b, thread_id);
        let n = thread_of(new, b, thread_id);
        &&& located(new, b, thread_id)
        &&& n == (ThreadView {
            turns: with_last(o.turns, completed_turn(o.turns.last(), response, last_stamp(n.turns))),
            state: ThreadState::Idle,
            updated_at: n.updated_at,
            ..o
        })
        &&& new == (SessionManagerView {
            sessions: with_thread(old, b, thread_id, n),
            pending_storage: old.queued(
                if n.turns.len() > 0 {
                    seq![
                        StorageOpView::CompleteTurn {
                            turn_id: uuid_text(n.turns.last().id),
                            response: response,
                            thinking: n.turns.last().thinking,
                            completed_at: stamp_text(n.turns.last()),
                        },
                        state_op(n),
                    ]
                } else {
                    Seq::empty()
                },
            ),
            ..old
        })
    })
}

/// `new` is `old` after `thread_fail_turn` on thread `thread_id` of binding `b`.
pub open spec fn turn_failed(old: SessionManagerView, new: SessionManagerView, b: Seq<char>, thread_id: u128, error: Seq<char>) -> bool {
    &&& (!located(old, b, thread_id) ==> new == old)
    &&& (located(old, b, thread_id) ==> {
        let o = thread_of(old, b, thread_id);
        let n = thread_of(new, b, thread_id);
        &&& located(new, b, thread_id)
        &&& n == (ThreadView {
            turns: with_last(o.turns, failed_turn(o.turns.last(), error, last_stamp(n.turns))),
            state: ThreadState::Idle,
            updated_at: n.updated_at,
            ..o
        })
        &&& new == (SessionManagerView {
            sessions: with_thread(old, b, thread_id, n),
            pending_storage: old.queued(
                if n.turns.len() > 0 {
                    seq![
                        StorageOpView::FailTurn {
                            turn_id: uuid_text(n.turns.last().id),
                            error: error,
                            completed_at: stamp_text(n.turns.last()),
                        },
                        state_op(n),
                    ]
                } else {
                    Seq::empty()
                },
            ),
            ..old
        })
    })
}

/// `new` is `old` after `thread_interrupt` on thread `thread_id` of binding `b`.
pub open spec fn turn_interrupted(old: SessionManagerView, new: SessionManagerView, b: Seq<char>, thread_id: u128) -> bool {
    &&& (!located(old, b, thread_id) ==> new == old)
    &&& (located(old, b, thread_id) ==> {
        let o = thread_of(old, b, thread_id);
        let n = thread_of(new, b, thread_id);
        &&& located(new, b, thread_id)
        &&& n == (ThreadView {
            turns: with_last(o.turns, interrupted_turn(o.turns.last(), last_stamp(n.turns))),
            state: ThreadState::Interrupted,
            updated_at: n.updated_at,
            ..o
        })
        &&& new == (SessionManagerView {
            sessions: with_thread(old, b, thread_id, n),
            pending_storage: old.queued(
                if n.turns.len() > 0 {
                    seq![
                        StorageOpView::InterruptTurn {
                            turn_id: uuid_text(n.turns.last().id),
                            completed_at: stamp_text(n.turns.last()),
                        },
                        state_op(n),
                    ]
                } else {
                    Seq::empty()
                },
            ),
            ..old
        })
    })
}

impl SessionManager {
    pub(crate) fn state_write(t: &Thread) -> (op: StorageOp)
        ensures
            op@ == state_op(t@),
    {
        StorageOp::UpdateThreadState {
            thread_id: uuid_to_string(t.id),
            state: thread_state_to_str(t.state).to_owned(),
            updated_at: crate::ext::rfc3339_of(t.updated_at),
        }
    }

    /// Start a new turn with `user_input` on thread `thread_id` of the
    /// binding's session (see `Thread::start_turn`), and queue the turn's
    /// insertion and the thread's new state. Nothing happens when there is no
    /// such thread.
    pub fn thread_start_turn(&mut self, binding_id: &str, thread_id: u128, user_input: &str)
        requires
            old(self)@.wf(),
        ensures
            final(self)@.wf(),
            turn_started(old(self)@, final(self)@, binding_id@, thread_id, user_input@),
    {
        match self.locate(binding_id, thread_id) {
            None => {},
            Some((si, ti)) => {
                let ghost v0 = self@;
                let mut th = self.take_thread_at(si, ti);
                let ghost mid = self@;
                th.start_turn(user_input);
                let n = th.turns.len();
                let values = TurnInsertValues::from_turn(&th.turns[n - 1]);
                let op2 = Self::state_write(&th);
                proof {
                    assert(th@.turns.last() == th.turns@[n - 1]@);
                }
                let ghost tv = th@;
                self.put_thread_at(si, ti, th);
                proof {
                    lemma_replace_thread(v0, mid, self@, binding_id@, thread_id, si as int, ti as int, tv);
                }
                let ghost v1 = self@;
                self.queue(StorageOp::InsertTurn(values));
                self.queue(op2);
                proof {
                    if v0.persistent {
                        assert(self@.pending_storage =~= v0.pending_storage + seq![
                            StorageOpView::InsertTurn(turn_row_of(tv.turns.last())),
                            state_op(tv),
                        ]);
                    }
                }
            },
        }
    }

    /// Complete the current turn of thread `thread_id` with `response` (see
    /// `Thread::complete_turn`), and queue the turn's completion and the
    /// thread's new state when the thread has a turn. Nothing happens when
    /// there is no such thread.
    pub fn thread_complete_turn(&mut self, binding_id: &str, thread_id: u128, response: Option<String>)
        requires
            old(self)@.wf(),
        ensures
            final(self)@.wf(),
            turn_completed(old(self)@, final(self)@, binding_id@, thread_id, response.deep_view()),
    {
        match self.locate(binding_id, thread_id) {
            None => {},
            Some((si, ti)) => {
                let ghost v0 = self@;
                let mut th = self.take_thread_at(si, ti);
                let ghost mid = self@;
                let resp_copy = clone_opt_string(&response);
                th.complete_turn(response);
                let n = th.turns.len();
                let mut ops: Vec<StorageOp> = Vec::new();
                if n > 0 {
                    let t = &th.turns[n - 1];
                    proof {
                        assert(th@.turns.last() == th.turns@[n - 1]@);
                    }
                    ops.push(StorageOp::CompleteTurn {
                        turn_id: uuid_to_string(t.id),
                        response: resp_copy,
                        thinking: clone_opt_string(&t.thinking),
                        completed_at: stamp_string(t),
                    });
                    ops.push(Self::state_write(&th));
                }
                let ghost tv = th@;
                self.put_thread_at(si, ti, th);
                proof {
                    lemma_replace_thread(v0, mid, self@, binding_id@, thread_id, si as int, ti as int, tv);
                }
                self.queue_all(ops);
                proof {
                    if n > 0 {
                        assert(ops_view(ops@) =~= seq![
                            StorageOpView::CompleteTurn {
                                turn_id: uuid_text(tv.turns.last().id),
                                response: resp_copy.deep_view(),
                                thinking: tv.turns.last().thinking,
                                completed_at: stamp_text(tv.turns.last()),
                            },
                            state_op(tv),
                        ]);
                    } else {
                        assert(ops_view(ops@) =~= Seq::empty());
                    }
                }
            },
        }
    }

    /// Fail the current turn of thread `thread_id` with `error` (see
    /// `Thread::fail_turn`), and queue the turn's failure and the thread's
    /// new state when the thread has a turn. Nothing happens when there is
    /// no such thread.
    pub fn thread_fail_turn(&mut self, binding_id: &str, thread_id: u128, error: &str)
        requires
            old(self)@.wf(),
        ensures
            final(self)@.wf(),
            turn_failed(old(self)@, final(self)@, binding_id@, thread_id, error@),
    {
        match self.locate(binding_id, thread_id) {
            None => {},
            Some((si, ti)) => {
                let ghost v0 = self@;
                let mut th = self.take_thread_at(si, ti);
                let ghost mid = self@;
                th.fail_turn(error);
                let n = th.turns.len();
                let mut ops: Vec<StorageOp> = Vec::new();
                if n > 0 {
                    let t = &th.turns[n - 1];
                    proof {
                        assert(th@.turns.last() == th.turns@[n - 1]@);
                    }
                    let err = match &t.error {
                        Some(e) => e.clone(),
                        None => String::new(),
                    };
                    ops.push(StorageOp::FailTurn { turn_id: uuid_to_string(t.id), error: err, completed_at: stamp_string(t) });
                    ops.push(Self::state_write(&th));
                }
                let ghost tv = th@;
                self.put_thread_at(si, ti, th);
                proof {
                    lemma_replace_thread(v0, mid, self@, binding_id@, thread_id, si as int, ti as int, tv);
                }
                self.queue_all(ops);
                proof {
                    if n > 0 {
                        assert(ops_view(ops@) =~= seq![
                            StorageOpView::FailTurn {
                                turn_id: uuid_text(tv.turns.last().id),
                                error: error@,
                                completed_at: stamp_text(tv.turns.last()),
                            },
                            state_op(tv),
                        ]);
                    } else {
                        assert(ops_view(ops@) =~= Seq::empty());
                    }
                }
            },
        }
    }

    /// Interrupt the current turn of thread `thread_id` (see
    /// `Thread::interrupt`), and queue the turn's interruption and the
    /// thread's new state when the thread has a turn. Nothing happens when
    /// there is no such thread.
    pub fn thread_interrupt(&mut self, binding_id: &str, thread_id: u128)
        requires
            old(self)@.wf(),
        ensures
            final(self)@.wf(),
            turn_interrupted(old(self)@, final(self)@, binding_id@, thread_id),
    {
        match self.locate(binding_id, thread_id) {
            None => {},
            Some((si, ti)) => {
                let ghost v0 = self@;
                let mut th = self.take_thread_at(si, ti);
                let ghost mid = self@;
                th.interrupt();
                let n = th.turns.len();
                let mut ops: Vec<StorageOp> = Vec::new();
                if n > 0 {
                    let t = &th.turns[n - 1];
                    proof {
                        assert(th@.turns.last() == th.turns@[n - 1]@);
                    }
                    ops.push(StorageOp::InterruptTurn { turn_id: uuid_to_string(t.id), completed_at: stamp_string(t) });
                    ops.push(Self::state_write(&th));
                }
                let ghost tv = th@;
                self.put_thread_at(si, ti, th);
                proof {
                    lemma_replace_thread(v0, mid, self@, binding_id@, thread_id, si as int, ti as int, tv);
                }
                self.queue_all(ops);
                proof {
                    if n > 0 {
                        assert(ops_view(ops@) =~= seq![
                            StorageOpView::InterruptTurn {
                                turn_id: uuid_text(tv.turns.last().id),
                                completed_at: stamp_text(tv.turns.last()),
                            },
                            state_op(tv),
                        ]);
                    } else {
                        assert(ops_view(ops@) =~= Seq::empty());
                    }
                }
            },
        }
    }

    /// Queue the insertion of tool call `call`, number `index` of turn `turn_id`.
    pub fn persist_tool_call(&mut self, turn_id: &str, index: usize, call: &TurnToolCall)
        ensures
            final(self)@ == (SessionManagerView {
                pending_storage: old(self)@.queued(
                    seq![StorageOpView::InsertToolCall(tool_call_row_of(turn_id@, index, call@))],
                ),
                ..old(self)@
            }),
    {
        self.queue(StorageOp::InsertToolCall(ToolCallInsertValues::from_tool_call(turn_id, index, call)));
    }

    /// Queue the recording of the outcome of tool call `index` of turn
    /// `turn_id`: its result as JSON text, or its error.
    pub fn persist_tool_result(&mut self, turn_id: &str, index: usize, result: Option<&str>, error: Option<&str>)
        ensures
            final(self)@ == (SessionManagerView {
                pending_storage: old(self)@.queued(
                    seq![
                        StorageOpView::UpdateToolCallResult {
                            turn_id: turn_id@,
                            index,
                            result: result.deep_view(),
                            tool_error: error.deep_view(),
                        },
                    ],
                ),
                ..old(self)@
            }),
    {
        let r: Option<String> = match result {
            Some(v) => Some(v.to_owned()),
            None => None,
        };
        let e: Option<String> = match error {
            Some(v) => Some(v.to_owned()),
            None => None,
        };
        self.queue(StorageOp::UpdateToolCallResult { turn_id: turn_id.to_owned(), index, result: r, tool_error: e });
    }

    /// Queue the new list of auto-approved tools of session `session_id`,
    /// written as a JSON array of strings.
    pub fn persist_auto_approve(&mut self, session_id: &str, tools: &Vec<String>)
        ensures
            final(self)@ == (SessionManagerView {
                pending_storage: old(self)@.queued(
                    seq![
                        StorageOpView::UpdateSessionAutoApprovedTools {
                            session_id: session_id@,
                            tools: json_string_list_text(tools.deep_view()),
                        },
                    ],
                ),
                ..old(self)@
            }),
    {
        let t = json_string_list_of(tools);
        self.queue(StorageOp::UpdateSessionAutoApprovedTools { session_id: session_id.to_owned(), tools: t });
    }

    /// Queue thread `thread_id` entering `AwaitingApproval`, with its pending
    /// approvals as JSON text.
    pub fn persist_thread_awaiting_approval(&mut self, thread_id: &str, pending_approvals_json: &str, updated_at: &str)
        ensures
            final(self)@ == (SessionManagerView {
                pending_storage: old(self)@.queued(
                    seq![
                        StorageOpView::UpdateThreadPendingApprovals {
                            thread_id: thread_id@,
                            state: thread_state_name(ThreadState::AwaitingApproval),
                            pending_approvals: pending_approvals_json@,
                            updated_at: updated_at@,
                        },
                    ],
                ),
                ..old(self)@
            }),
    {
        self.queue(StorageOp::UpdateThreadPendingApprovals {
            thread_id: thread_id.to_owned(),
            state: thread_state_to_str(ThreadState::AwaitingApproval).to_owned(),
            pending_approvals: pending_approvals_json.to_owned(),
            updated_at: updated_at.to_owned(),
        });
    }

    /// Queue a change of state of thread `thread_id`.
    pub fn persist_thread_state(&mut self, thread_id: &str, state: ThreadState, updated_at: &str)
        ensures
            final(self)@ == (SessionManagerView {
                pending_storage: old(self)@.queued(
                    seq![
                        StorageOpView::UpdateThreadState {
                            thread_id: thread_id@,
                            state: thread_state_name(state),
                            updated_at: updated_at@,
                        },
                    ],
                ),
                ..old(self)@
            }),
    {
        self.queue(StorageOp::UpdateThreadState {
            thread_id: thread_id.to_owned(),
            state: thread_state_to_str(state).to_owned(),
            updated_at: updated_at.to_owned(),
        });
    }

    pub(crate) fn queue_all(&mut self, ops: Vec<StorageOp>)
        ensures
            final(self)@ == (SessionManagerView { pending_storage: old(self)@.queued(ops_view(ops@)), ..old(self)@ }),
    {
        if self.persistent {
            let mut ops = ops;
            let ghost all = ops_view(ops@);
            self.pending_storage.append(&mut ops);
            proof {
                assert(ops_view(self.pending_storage@) =~= old(self)@.pending_storage + all);
            }
        }
    }
}

} // verus!

verus! {

// ── Pruning idle sessions ──

/// Sessions last active before `cutoff`.
pub open spec fn stale_session(cutoff: i64) -> spec_fn(SessionView) -> bool {
    |s: SessionView| s.last_active_at < cutoff
}

/// Sessions active at `cutoff` or later.
pub open spec fn live_session(cutoff: i64) -> spec_fn(SessionView) -> bool {
    |s: SessionView| !(s.last_active_at < cutoff)
}

/// Binding `b` has a session in `ss` last active before `cutoff`.
pub open spec fn stale_binding(ss: Seq<SessionView>, b: Seq<char>, cutoff: i64) -> bool {
    exists|k: int| 0 <= k < ss.len() && ss[k].binding_id == b && ss[k].last_active_at < cutoff
}

/// Routing entries whose binding has no session of `ss` last active before `cutoff`.
pub open spec fn live_route(ss: Seq<SessionView>, cutoff: i64) -> spec_fn((ThreadKeyView, u128)) -> bool {
    |e: (ThreadKeyView, u128)| !stale_binding(ss, e.0.binding_id, cutoff)
}

/// The deletion of session `s`.
pub open spec fn deletion_op(s: SessionView) -> StorageOpView {
    StorageOpView::DeleteSession { session_id: uuid_text(s.id) }
}

/// `new` is `old` with the sessions last active before `cutoff` removed,
/// the routes of their bindings dropped and their deletions queued; `count`
/// sessions were removed.
pub open spec fn pruned(old: SessionManagerView, new: SessionManagerView, cutoff: i64, count: usize) -> bool {
    let stale = old.sessions.filter(stale_session(cutoff));
    &&& new.sessions == old.sessions.filter(live_session(cutoff))
    &&& new.thread_map == old.thread_map.filter(live_route(old.sessions, cutoff))
    &&& new.persistent == old.persistent
    &&& new.pending_storage == old.queued(stale.map_values(|s: SessionView| deletion_op(s)))
    &&& count == stale.len()
}

/// The instant `secs` seconds before `now`, in nanoseconds; the earliest
/// instant that an `i64` holds when that lies before it.
pub open spec fn idle_cutoff(now: i64, secs: u64) -> i64 {
    let c = now - secs * 1_000_000_000;
    if c < i64::MIN {
        i64::MIN
    } else {
        c as i64
    }
}

proof fn lemma_filter_step<A>(s: Seq<A>, i: int, p: spec_fn(A) -> bool)
    requires
        0 <= i < s.len(),
    ensures
        s.take(i + 1).filter(p) == (if p(s[i]) {
            s.take(i).filter(p).push(s[i])
        } else {
            s.take(i).filter(p)
        }),
{
    reveal(Seq::filter);
    assert(s.take(i + 1).drop_last() =~= s.take(i));
    assert(s.take(i + 1).last() == s[i]);
}

fn idle_cutoff_exec(now: i64, secs: u64) -> (c: i64)
    ensures
        c == idle_cutoff(now, secs),
{
    let wide: i128 = (now as i128) - (secs as i128) * 1_000_000_000i128;
    if wide < (i64::MIN as i128) {
        i64::MIN
    } else {
        wide as i64
    }
}

impl SessionManager {
    /// Remove the sessions last active before `cutoff` (nanoseconds since
    /// the epoch), drop the routes of their bindings and queue their
    /// deletions; gives how many sessions were removed.
    pub fn prune_idle_before(&mut self, cutoff: i64) -> (count: usize)
        requires
            old(self)@.wf(),
        ensures
            final(self)@.wf(),
            pruned(old(self)@, final(self)@, cutoff, count),
    {
        let ghost v0 = self@;
        let ghost ss = v0.sessions;
        let mut rest: Vec<Session> = Vec::new();
        std::mem::swap(&mut rest, &mut self.sessions);
        let n = rest.len();
        let mut kept: Vec<Session> = Vec::new();
        let mut stale_names: Vec<String> = Vec::new();
        let mut ops: Vec<StorageOp> = Vec::new();
        let mut count: usize = 0;
        let mut i: usize = 0;
        proof {
            assert(sessions_view(rest@) =~= ss.subrange(0, n as int));
            assert(ss.take(0).filter(live_session(cutoff)) =~= Seq::empty()) by {
                reveal(Seq::filter);
            }
            assert(ss.take(0).filter(stale_session(cutoff)) =~= Seq::empty()) by {
                reveal(Seq::filter);
            }
            assert(sessions_view(kept@) =~= Seq::empty());
            assert(ops_view(ops@) =~= Seq::empty());
        }
        while i < n
            invariant
                n == ss.len(),
                i <= n,
                sessions_wf(ss),
                sessions_view(rest@) == ss.subrange(i as int, n as int),
                sessions_view(kept@) == ss.take(i as int).filter(live_session(cutoff)),
                ops_view(ops@) == ss.take(i as int).filter(stale_session(cutoff)).map_values(
                    |s: SessionView| deletion_op(s),
                ),
                count == ss.take(i as int).filter(stale_session(cutoff)).len(),
                count <= i,
                forall|b: Seq<char>|
                    stale_names.deep_view().contains(b) <==> (exists|k: int|
                        0 <= k < i && ss[k].binding_id == b && ss[k].last_active_at < cutoff),
                forall|j: int| 0 <= j < kept@.len() ==> (#[trigger] kept@[j])@.wf(),
                forall|j: int, m: int|
                    0 <= j < kept@.len() && i <= m < n ==> (#[trigger] kept@[j])@.binding_id != (#[trigger] ss[m]).binding_id,
                forall|j: int, l: int|
                    0 <= j < kept@.len() && 0 <= l < kept@.len() && j != l ==> (#[trigger] kept@[j])@.binding_id
                        != (#[trigger] kept@[l])@.binding_id,
            decreases n - i,
        {
            let ghost r0 = rest@;
            proof {
                assert(sessions_view(r0).len() == r0.len());
                assert(sessions_view(r0)[0] == ss[i as int]);
            }
            let s = rest.remove(0);
            proof {
                assert(s@ == ss[i as int]);
                lemma_filter_step(ss, i as int, live_session(cutoff));
                lemma_filter_step(ss, i as int, stale_session(cutoff));
                assert(rest@ =~= r0.subrange(1, r0.len() as int));
                assert(sessions_view(rest@) =~= sessions_view(r0).subrange(1, r0.len() as int));
                assert(sessions_view(rest@) =~= ss.subrange(i + 1, n as int));
            }
            if s.last_active_at < cutoff {
                let ghost names0 = stale_names.deep_view();
                let sid = uuid_to_string(s.id);
                stale_names.push(s.binding_id.clone());
                let ghost ops0 = ops@;
                let op = StorageOp::DeleteSession { session_id: sid };
                proof {
                    lemma_ops_view_push(ops0, op);
                    assert(op@ == deletion_op(ss[i as int]));
                    assert(stale_session(cutoff)(ss[i as int]));
                }
                ops.push(op);
                count = count + 1;
                proof {
                    assert(stale_names.deep_view() =~= names0.push(ss[i as int].binding_id));
                    assert forall|b: Seq<char>|
                        stale_names.deep_view().contains(b) <==> (exists|k: int|
                            0 <= k < i + 1 && ss[k].binding_id == b && ss[k].last_active_at < cutoff) by {
                        if stale_names.deep_view().contains(b) && !names0.contains(b) {
                            let w = choose|w: int| 0 <= w < stale_names.deep_view().len() && stale_names.deep_view()[w] == b;
                            assert(w == names0.len());
                            assert(ss[i as int].binding_id == b);
                        }
                        if exists|k: int| 0 <= k < i + 1 && ss[k].binding_id == b && ss[k].last_active_at < cutoff {
                            let k = choose|k: int| 0 <= k < i + 1 && ss[k].binding_id == b && ss[k].last_active_at < cutoff;
                            if k == i {
                                assert(stale_names.deep_view()[names0.len() as int] == b);
                            } else {
                                assert(names0.contains(b));
                                let w = choose|w: int| 0 <= w < names0.len() && names0[w] == b;
                                assert(stale_names.deep_view()[w] == b);
                            }
                        }
                    }
                    assert(ops_view(ops@) =~= ss.take(i + 1).filter(stale_session(cutoff)).map_values(
                        |s: SessionView| deletion_op(s),
                    ));
                }
            } else {
                let ghost k0 = kept@;
                kept.push(s);
                proof {
                    assert(sessions_view(kept@) =~= sessions_view(k0).push(ss[i as int]));
                    assert(ss[i as int].wf());
                }
            }
            i = i + 1;
        }
        proof {
            assert(ss.take(n as int) =~= ss);
            assert(sessions_view(kept@) == ss.filter(live_session(cutoff)));
            assert(sessions_wf(sessions_view(kept@)));
        }
        self.sessions = kept;
        // Routes of the stale bindings.
        let ghost ms = v0.thread_map;
        let mut routes: Vec<(ThreadKey, u128)> = Vec::new();
        std::mem::swap(&mut routes, &mut self.thread_map);
        let rn = routes.len();
        let mut kept_routes: Vec<(ThreadKey, u128)> = Vec::new();
        let mut r: usize = 0;
        proof {
            assert(thread_map_view(routes@) =~= ms.subrange(0, rn as int));
            assert(ms.take(0).filter(live_route(ss, cutoff)) =~= Seq::empty()) by {
                reveal(Seq::filter);
            }
            assert(thread_map_view(kept_routes@) =~= Seq::empty());
        }
        while r < rn
            invariant
                rn == ms.len(),
                r <= rn,
                distinct_keys(ms),
                forall|b: Seq<char>| stale_names.deep_view().contains(b) <==> stale_binding(ss, b, cutoff),
                thread_map_view(routes@) == ms.subrange(r as int, rn as int),
                thread_map_view(kept_routes@) == ms.take(r as int).filter(live_route(ss, cutoff)),
                forall|j: int, m: int|
                    0 <= j < kept_routes@.len() && r <= m < rn ==> (#[trigger] kept_routes@[j]).0@ != (#[trigger] ms[m]).0,
                forall|j: int, l: int|
                    0 <= j < kept_routes@.len() && 0 <= l < kept_routes@.len() && j != l ==> (#[trigger] kept_routes@[j]).0@
                        != (#[trigger] kept_routes@[l]).0@,
            decreases rn - r,
        {
            let ghost r0 = routes@;
            proof {
                assert(thread_map_view(r0).len() == r0.len());
                assert(thread_map_view(r0)[0] == ms[r as int]);
            }
            let e = routes.remove(0);
            proof {
                assert((e.0@, e.1) == ms[r as int]);
                lemma_filter_step(ms, r as int, live_route(ss, cutoff));
                assert(routes@ =~= r0.subrange(1, r0.len() as int));
                assert(thread_map_view(routes@) =~= thread_map_view(r0).subrange(1, r0.len() as int));
                assert(thread_map_view(routes@) =~= ms.subrange(r + 1, rn as int));
            }
            if !contains_str(&stale_names, e.0.binding_id.as_str()) {
                let ghost k0 = kept_routes@;
                kept_routes.push(e);
                proof {
                    assert(thread_map_view(kept_routes@) =~= thread_map_view(k0).push(ms[r as int]));
                }
            }
            r = r + 1;
        }
        proof {
            assert(ms.take(rn as int) =~= ms);
            assert(distinct_keys(thread_map_view(kept_routes@)));
        }
        self.thread_map = kept_routes;
        let ghost v1 = self@;
        proof {
            assert(v1 == (SessionManagerView {
                sessions: ss.filter(live_session(cutoff)),
                thread_map: ms.filter(live_route(ss, cutoff)),
                ..v0
            }));
        }
        self.queue_all(ops);
        proof {
            assert(ss.take(n as int) =~= ss);
        }
        count
    }

    /// Remove the sessions idle for more than `max_idle_secs` seconds (see
    /// `prune_idle_before`), measured from the current time; gives how many
    /// were removed.
    pub fn prune_stale_sessions(&mut self, max_idle_secs: u64) -> (count: usize)
        requires
            old(self)@.wf(),
            max_idle_secs <= (i64::MAX / 1000) as u64,
        ensures
            final(self)@.wf(),
            exists|now: i64| pruned(old(self)@, final(self)@, idle_cutoff(now, max_idle_secs), count),
    {
        let now = now_nanos();
        self.prune_idle_for(now, max_idle_secs)
    }

    /// Remove the sessions idle for more than `max_idle_secs` seconds at the
    /// instant `now` (nanoseconds since the epoch); gives how many were
    /// removed (see `law_idle_window_kept`).
    pub fn prune_idle_for(&mut self, now: i64, max_idle_secs: u64) -> (count: usize)
        requires
            old(self)@.wf(),
            max_idle_secs <= (i64::MAX / 1000) as u64,
        ensures
            final(self)@.wf(),
            pruned(old(self)@, final(self)@, idle_cutoff(now, max_idle_secs), count),
    {
        let cutoff = idle_cutoff_exec(now, max_idle_secs);
        self.prune_idle_before(cutoff)
    }
}

/// The first `i` sessions kept and removed at `cutoff` make up those `i`.
proof fn lemma_filter_split_upto(ss: Seq<SessionView>, cutoff: i64, i: int)
    requires
        0 <= i <= ss.len(),
    ensures
        ss.take(i).filter(live_session(cutoff)).len() + ss.take(i).filter(stale_session(cutoff)).len() == i,
    decreases i,
{
    if i == 0 {
        let e = ss.take(0);
        e.lemma_filter_len(live_session(cutoff));
        e.lemma_filter_len(stale_session(cutoff));
    } else {
        lemma_filter_split_upto(ss, cutoff, i - 1);
        lemma_filter_step(ss, i - 1, live_session(cutoff));
        lemma_filter_step(ss, i - 1, stale_session(cutoff));
    }
}

/// The sessions kept and the sessions removed at `cutoff` make up all of them.
proof fn lemma_filter_split(ss: Seq<SessionView>, cutoff: i64)
    ensures
        ss.filter(live_session(cutoff)).len() + ss.filter(stale_session(cutoff)).len() == ss.len(),
{
    lemma_filter_split_upto(ss, cutoff, ss.len() as int);
    assert(ss.take(ss.len() as int) =~= ss);
}

/// Law: pruning at the instant `now` for an idle time of `secs` seconds keeps
/// exactly the sessions last active within `secs` seconds (of a billion
/// nanoseconds each) before `now`, or later, and removes the others; it
/// counts the removed ones, and adds no session.
pub proof fn law_idle_window_kept(
    old: SessionManagerView,
    new: SessionManagerView,
    now: i64,
    secs: u64,
    count: usize,
    k: int,
)
    requires
        pruned(old, new, idle_cutoff(now, secs), count),
        0 <= k < old.sessions.len(),
    ensures
        old.sessions[k].last_active_at >= now - secs * 1_000_000_000 ==> new.sessions.contains(old.sessions[k]),
        old.sessions[k].last_active_at < now - secs * 1_000_000_000 ==> !new.sessions.contains(old.sessions[k]),
        forall|s: SessionView| #[trigger] new.sessions.contains(s) ==> old.sessions.contains(s),
        count + new.sessions.len() == old.sessions.len(),
{
    let c = idle_cutoff(now, secs);
    let p = live_session(c);
    let x = old.sessions[k];
    if x.last_active_at >= now - secs * 1_000_000_000 {
        old.sessions.lemma_filter_contains(p, k);
    } else {
        if new.sessions.contains(x) {
            let j = choose|j: int| 0 <= j < new.sessions.len() && new.sessions[j] == x;
            old.sessions.lemma_filter_pred(p, j);
        }
    }
    assert forall|s: SessionView| #[trigger] new.sessions.contains(s) implies old.sessions.contains(s) by {
        old.sessions.lemma_filter_contains_rev(p, s);
    }
    lemma_filter_split(old.sessions, c);
}


} // verus!

verus! {

// ── Routes added one by one, and startup from stored sessions ──

impl SessionManager {
    /// Route `key` to thread `tid`, replacing the key's entry or appending one.
    fn put_route(&mut self, key: ThreadKey, tid: u128)
        requires
            distinct_keys(old(self)@.thread_map),
        ensures
            final(self)@ == (SessionManagerView { thread_map: map_put(old(self)@.thread_map, key@, tid), ..old(self)@ }),
            distinct_keys(final(self)@.thread_map),
    {
        let ghost k = key@;
        match self.key_index(&key) {
            Some(ki) => {
                self.thread_map.set(ki, (key, tid));
                proof {
                    let p = map_pos(old(self)@.thread_map, k);
                    assert(p == ki);
                    assert(thread_map_view(self.thread_map@) =~= map_put(old(self)@.thread_map, k, tid));
                }
            },
            None => {
                self.thread_map.push((key, tid));
                proof {
                    assert(thread_map_view(self.thread_map@) =~= map_put(old(self)@.thread_map, k, tid));
                }
            },
        }
        proof {
            lemma_map_put(old(self)@.thread_map, k, tid);
        }
    }

    /// Route the conversation `(binding_id, user_id, channel,
    /// external_thread_id)` to the thread `thread_id`, and keep `session` as
    /// the session of `binding_id` when that binding has none yet.
    pub fn register_thread(
        &mut self,
        binding_id: &str,
        user_id: &str,
        channel: &str,
        external_thread_id: Option<&str>,
        thread_id: u128,
        session: Session,
    )
        requires
            old(self)@.wf(),
            session@.wf(),
        ensures
            final(self)@.wf(),
            final(self)@ == (SessionManagerView {
                thread_map: map_put(
                    old(self)@.thread_map,
                    route_key(binding_id@, user_id@, channel@, external_thread_id.deep_view()),
                    thread_id,
                ),
                sessions: if session_has(old(self)@.sessions, binding_id@) {
                    old(self)@.sessions
                } else {
                    old(self)@.sessions.push(SessionView { binding_id: binding_id@, ..session@ })
                },
                ..old(self)@
            }),
    {
        let ext: Option<String> = match external_thread_id {
            Some(e) => Some(e.to_owned()),
            None => None,
        };
        let key = ThreadKey::new(binding_id, user_id, channel, ext);
        self.put_route(key, thread_id);
        match self.session_index(binding_id) {
            Some(_) => {},
            None => {
                let mut s = session;
                s.binding_id = binding_id.to_owned();
                let ghost sv = s@;
                let ghost before = self@.sessions;
                self.sessions.push(s);
                proof {
                    assert(sessions_view(self.sessions@) =~= before.push(sv));
                    assert(sessions_wf(self@.sessions)) by {
                        assert forall|i: int| 0 <= i < self@.sessions.len() implies (#[trigger] self@.sessions[i]).wf() by {
                            if i < before.len() {
                                assert(self@.sessions[i] == before[i]);
                            }
                        }
                    }
                }
            },
        }
    }
}

/// A stored turn that was still processing is interrupted at `now`.
pub open spec fn fixed_turn(u: TurnView, now: i64) -> TurnView {
    if u.state == TurnState::Processing {
        TurnView { state: TurnState::Interrupted, completed_at: Some(now), ..u }
    } else {
        u
    }
}

/// A stored thread that was still processing goes back to `Idle` at `now`,
/// and its processing turns are interrupted.
pub open spec fn fixed_thread(t: ThreadView, now: i64) -> ThreadView {
    ThreadView {
        state: if t.state == ThreadState::Processing {
            ThreadState::Idle
        } else {
            t.state
        },
        updated_at: if t.state == ThreadState::Processing {
            now
        } else {
            t.updated_at
        },
        turns: t.turns.map_values(|u: TurnView| fixed_turn(u, now)),
        ..t
    }
}

/// A stored session with its threads fixed at `now`.
pub open spec fn fixed_session(s: SessionView, now: i64) -> SessionView {
    SessionView { threads: s.threads.map_values(|t: ThreadView| fixed_thread(t, now)), ..s }
}

/// `m` with the conversations of the threads `ts` of binding `b` routed to
/// them, in order.
pub open spec fn thread_routes(m: Seq<(ThreadKeyView, u128)>, b: Seq<char>, ts: Seq<ThreadView>) -> Seq<(ThreadKeyView, u128)>
    decreases ts.len(),
{
    if ts.len() == 0 {
        m
    } else {
        let t = ts.last();
        map_put(thread_routes(m, b, ts.drop_last()), route_key(b, t.user_id, t.channel, t.external_thread_id), t.id)
    }
}

/// The sessions `ss` stored in order under their bindings: a later session
/// of a binding takes the place of an earlier one.
pub open spec fn loaded_sessions(ss: Seq<SessionView>) -> Seq<SessionView>
    decreases ss.len(),
{
    if ss.len() == 0 {
        Seq::empty()
    } else {
        put_session(loaded_sessions(ss.drop_last()), ss.last())
    }
}

/// The routes of the threads of the sessions `ss`, added in order.
pub open spec fn loaded_routes(ss: Seq<SessionView>) -> Seq<(ThreadKeyView, u128)>
    decreases ss.len(),
{
    if ss.len() == 0 {
        Seq::empty()
    } else {
        thread_routes(loaded_routes(ss.drop_last()), ss.last().binding_id, ss.last().threads)
    }
}

/// Views of the stored sessions `ss` fixed at `now`.
pub open spec fn fixed_sessions(ss: Seq<SessionView>, now: i64) -> Seq<SessionView> {
    ss.map_values(|s: SessionView| fixed_session(s, now))
}

fn fix_turns(turns: Vec<Turn>, now: i64) -> (r: Vec<Turn>)
    ensures
        turns_view(r@) == turns_view(turns@).map_values(|u: TurnView| fixed_turn(u, now)),
{
    let ghost tv = turns_view(turns@);
    let mut rest = turns;
    let n = rest.len();
    let mut out: Vec<Turn> = Vec::new();
    let mut i: usize = 0;
    proof {
        assert(turns_view(rest@) =~= tv.subrange(0, n as int));
        assert(turns_view(out@) =~= tv.take(0).map_values(|u: TurnView| fixed_turn(u, now)));
    }
    while i < n
        invariant
            n == tv.len(),
            i <= n,
            turns_view(rest@) == tv.subrange(i as int, n as int),
            turns_view(out@) == tv.take(i as int).map_values(|u: TurnView| fixed_turn(u, now)),
        decreases n - i,
    {
        let ghost r0 = rest@;
        proof {
            assert(turns_view(r0).len() == r0.len());
            assert(turns_view(r0)[0] == tv[i as int]);
        }
        let mut u = rest.remove(0);
        proof {
            assert(rest@ =~= r0.subrange(1, r0.len() as int));
            assert(turns_view(rest@) =~= turns_view(r0).subrange(1, r0.len() as int));
            assert(turns_view(rest@) =~= tv.subrange(i + 1, n as int));
        }
        if u.state == TurnState::Processing {
            u.state = TurnState::Interrupted;
            u.completed_at = Some(now);
        }
        let ghost o0 = out@;
        out.push(u);
        proof {
            assert(turns_view(out@) =~= turns_view(o0).push(fixed_turn(tv[i as int], now)));
            assert(tv.take(i + 1).map_values(|u: TurnView| fixed_turn(u, now)) =~= tv.take(i as int).map_values(
                |u: TurnView| fixed_turn(u, now),
            ).push(fixed_turn(tv[i as int], now)));
        }
        i = i + 1;
    }
    proof {
        assert(tv.take(n as int) =~= tv);
    }
    out
}

fn fix_thread(t: Thread, now: i64) -> (r: Thread)
    ensures
        r@ == fixed_thread(t@, now),
{
    let mut t = t;
    if t.state == ThreadState::Processing {
        t.state = ThreadState::Idle;
        t.updated_at = now;
    }
    let mut turns: Vec<Turn> = Vec::new();
    std::mem::swap(&mut turns, &mut t.turns);
    t.turns = fix_turns(turns, now);
    t
}

fn fix_session(s: Session, now: i64) -> (r: Session)
    requires
        s@.wf(),
    ensures
        r@ == fixed_session(s@, now),
        r@.wf(),
{
    let ghost sv = s@;
    let ghost ts = sv.threads;
    let mut s = s;
    let mut rest: Vec<Thread> = Vec::new();
    std::mem::swap(&mut rest, &mut s.threads);
    let n = rest.len();
    let mut out: Vec<Thread> = Vec::new();
    let mut i: usize = 0;
    proof {
        assert(threads_view(rest@) =~= ts.subrange(0, n as int));
        assert(threads_view(out@) =~= ts.take(0).map_values(|t: ThreadView| fixed_thread(t, now)));
    }
    while i < n
        invariant
            n == ts.len(),
            i <= n,
            threads_view(rest@) == ts.subrange(i as int, n as int),
            threads_view(out@) == ts.take(i as int).map_values(|t: ThreadView| fixed_thread(t, now)),
        decreases n - i,
    {
        let ghost r0 = rest@;
        proof {
            assert(threads_view(r0).len() == r0.len());
            assert(threads_view(r0)[0] == ts[i as int]);
        }
        let t = rest.remove(0);
        proof {
            assert(rest@ =~= r0.subrange(1, r0.len() as int));
            assert(threads_view(rest@) =~= threads_view(r0).subrange(1, r0.len() as int));
            assert(threads_view(rest@) =~= ts.subrange(i + 1, n as int));
        }
        let ft = fix_thread(t, now);
        let ghost o0 = out@;
        out.push(ft);
        proof {
            assert(threads_view(out@) =~= threads_view(o0).push(fixed_thread(ts[i as int], now)));
            assert(ts.take(i + 1).map_values(|t: ThreadView| fixed_thread(t, now)) =~= ts.take(i as int).map_values(
                |t: ThreadView| fixed_thread(t, now),
            ).push(fixed_thread(ts[i as int], now)));
        }
        i = i + 1;
    }
    proof {
        assert(ts.take(n as int) =~= ts);
    }
    s.threads = out;
    proof {
        assert(s@ =~= fixed_session(sv, now));
        assert(s@.wf()) by {
            assert forall|a: int, b: int| 0 <= a < s@.threads.len() && 0 <= b < s@.threads.len() && a != b implies s@.threads[a].id
                != s@.threads[b].id by {
                assert(s@.threads[a].id == ts[a].id);
                assert(s@.threads[b].id == ts[b].id);
            }
        }
    }
    s
}

impl SessionManager {
    /// A persistent session manager holding the stored sessions `sessions`,
    /// as the database gave them back, with what a restart interrupted fixed
    /// at `now`: threads still processing go back to `Idle`, their turns
    /// still processing are interrupted. Sessions are kept under their
    /// bindings (a later session of a binding takes the place of an earlier
    /// one), and every thread's conversation is routed to it.
    pub fn from_loaded_at(sessions: Vec<Session>, now: i64) -> (m: Self)
        requires
            forall|i: int| 0 <= i < sessions@.len() ==> (#[trigger] sessions@[i])@.wf(),
        ensures
            m@.wf(),
            m@ == (SessionManagerView {
                sessions: loaded_sessions(fixed_sessions(sessions_view(sessions@), now)),
                thread_map: loaded_routes(fixed_sessions(sessions_view(sessions@), now)),
                pending_storage: Seq::empty(),
                persistent: true,
            }),
    {
        let ghost fs = fixed_sessions(sessions_view(sessions@), now);
        let ghost raw = sessions_view(sessions@);
        let mut m = SessionManager::new();
        m.persistent = true;
        let mut rest = sessions;
        let n = rest.len();
        let mut i: usize = 0;
        proof {
            assert(sessions_view(rest@) =~= raw.subrange(0, n as int));
            assert(fs.take(0) =~= Seq::<SessionView>::empty());
            assert(m@.sessions =~= loaded_sessions(fs.take(0)));
            assert(m@.thread_map =~= loaded_routes(fs.take(0)));
        }
        while i < n
            invariant
                n == raw.len(),
                fs == fixed_sessions(raw, now),
                i <= n,
                forall|k: int| i <= k < n ==> (#[trigger] raw[k]).wf(),
                sessions_view(rest@) == raw.subrange(i as int, n as int),
                m@.wf(),
                m@.sessions == loaded_sessions(fs.take(i as int)),
                m@.thread_map == loaded_routes(fs.take(i as int)),
                m@.pending_storage == Seq::<StorageOpView>::empty(),
                m@.persistent,
            decreases n - i,
        {
            let ghost r0 = rest@;
            proof {
                assert(sessions_view(r0).len() == r0.len());
                assert(sessions_view(r0)[0] == raw[i as int]);
            }
            let s = rest.remove(0);
            proof {
                assert(rest@ =~= r0.subrange(1, r0.len() as int));
                assert(sessions_view(rest@) =~= sessions_view(r0).subrange(1, r0.len() as int));
                assert(sessions_view(rest@) =~= raw.subrange(i + 1, n as int));
                assert(fs.take(i + 1).drop_last() =~= fs.take(i as int));
                assert(fs.take(i + 1).last() == fs[i as int]);
            }
            let f = fix_session(s, now);
            let ghost fv = f@;
            proof {
                assert(fv == fs[i as int]);
            }
            // Routes of the session's threads.
            let ghost m0 = m@.thread_map;
            let mut j: usize = 0;
            while j < f.threads.len()
                invariant
                    fv == f@,
                    j <= f.threads@.len(),
                    distinct_keys(m@.thread_map),
                    m@.thread_map == thread_routes(m0, fv.binding_id, fv.threads.take(j as int)),
                    m@.sessions == loaded_sessions(fs.take(i as int)),
                    sessions_wf(m@.sessions),
                    m@.pending_storage == Seq::<StorageOpView>::empty(),
                    m@.persistent,
                decreases f.threads@.len() - j,
            {
                let t = &f.threads[j];
                let key = ThreadKey::new(f.binding_id.as_str(), t.user_id.as_str(), t.channel.as_str(), clone_opt_string(&t.external_thread_id));
                proof {
                    assert(fv.threads[j as int] == t@);
                    assert(fv.threads.take(j + 1).drop_last() =~= fv.threads.take(j as int));
                    assert(fv.threads.take(j + 1).last() == t@);
                }
                m.put_route(key, t.id);
                j = j + 1;
            }
            proof {
                assert(fv.threads.take(f.threads@.len() as int) =~= fv.threads);
                assert(m@.thread_map == loaded_routes(fs.take(i + 1)));
            }
            // The session, under its binding.
            let ghost before = m@.sessions;
            match m.session_index(f.binding_id.as_str()) {
                Some(p) => {
                    m.sessions.set(p, f);
                    proof {
                        let q = session_pos(before, fv.binding_id);
                        assert(before[q].binding_id == fv.binding_id);
                        assert(q == p);
                        assert(sessions_view(m.sessions@) =~= before.update(p as int, fv));
                    }
                },
                None => {
                    m.sessions.push(f);
                    proof {
                        assert(sessions_view(m.sessions@) =~= before.push(fv));
                    }
                },
            }
            proof {
                assert(m@.sessions == put_session(before, fv));
                lemma_put_session(before, fv);
                assert(m@.sessions == loaded_sessions(fs.take(i + 1)));
            }
            i = i + 1;
        }
        proof {
            assert(fs.take(n as int) =~= fs);
        }
        m
    }

    /// A persistent session manager for the stored sessions `sessions` (see
    /// `from_loaded_at`), fixed at the current time.
    pub fn from_loaded(sessions: Vec<Session>) -> (m: Self)
        requires
            forall|i: int| 0 <= i < sessions@.len() ==> (#[trigger] sessions@[i])@.wf(),
        ensures
            m@.wf(),
            exists|now: i64| m@ == (SessionManagerView {
                sessions: loaded_sessions(fixed_sessions(sessions_view(sessions@), now)),
                thread_map: loaded_routes(fixed_sessions(sessions_view(sessions@), now)),
                pending_storage: Seq::empty(),
                persistent: true,
            }),
    {
        let now = now_nanos();
        Self::from_loaded_at(sessions, now)
    }
}

} // verus!

verus! {

proof fn lemma_loaded_from(ss: Seq<SessionView>)
    ensures
        forall|i: int| 0 <= i < loaded_sessions(ss).len() ==> ss.contains(#[trigger] loaded_sessions(ss)[i]),
    decreases ss.len(),
{
    if ss.len() > 0 {
        let prev = ss.drop_last();
        lemma_loaded_from(prev);
        let l = loaded_sessions(ss);
        assert forall|i: int| 0 <= i < l.len() implies ss.contains(#[trigger] l[i]) by {
            let lp = loaded_sessions(prev);
            if session_has(lp, ss.last().binding_id) {
                let p = session_pos(lp, ss.last().binding_id);
                if i == p {
                    assert(l[i] == ss.last());
                    assert(ss[ss.len() - 1] == l[i]);
                } else {
                    assert(l[i] == lp[i]);
                    assert(prev.contains(lp[i]));
                    let k = choose|k: int| 0 <= k < prev.len() && prev[k] == lp[i];
                    assert(ss[k] == l[i]);
                }
            } else {
                if i == lp.len() {
                    assert(ss[ss.len() - 1] == l[i]);
                } else {
                    assert(l[i] == lp[i]);
                    assert(prev.contains(lp[i]));
                    let k = choose|k: int| 0 <= k < prev.len() && prev[k] == lp[i];
                    assert(ss[k] == l[i]);
                }
            }
        }
    }
}

/// Law: after a start from stored sessions, no thread and no turn is still
/// processing: what a restart interrupted is never taken for running work.
pub proof fn law_loaded_nothing_processing(stored: Seq<SessionView>, now: i64)
    ensures
        forall|i: int, j: int|
            0 <= i < loaded_sessions(fixed_sessions(stored, now)).len() && 0 <= j
                < loaded_sessions(fixed_sessions(stored, now))[i].threads.len() ==> (#[trigger] loaded_sessions(
                fixed_sessions(stored, now),
            )[i].threads[j]).state != ThreadState::Processing,
        forall|i: int, j: int, k: int|
            0 <= i < loaded_sessions(fixed_sessions(stored, now)).len() && 0 <= j
                < loaded_sessions(fixed_sessions(stored, now))[i].threads.len() && 0 <= k < loaded_sessions(
                fixed_sessions(stored, now),
            )[i].threads[j].turns.len() ==> (#[trigger] loaded_sessions(fixed_sessions(stored, now))[i].threads[j].turns[k]).state
                != TurnState::Processing,
{
    let fs = fixed_sessions(stored, now);
    let l = loaded_sessions(fs);
    lemma_loaded_from(fs);
    assert forall|i: int, j: int| 0 <= i < l.len() && 0 <= j < l[i].threads.len() implies (#[trigger] l[i].threads[j]).state
        != ThreadState::Processing by {
        assert(fs.contains(l[i]));
        let m = choose|m: int| 0 <= m < fs.len() && fs[m] == l[i];
        assert(l[i] == fixed_session(stored[m], now));
        assert(l[i].threads[j] == fixed_thread(stored[m].threads[j], now));
    }
    assert forall|i: int, j: int, k: int|
        0 <= i < l.len() && 0 <= j < l[i].threads.len() && 0 <= k < l[i].threads[j].turns.len() implies (#[trigger] l[i].threads[j].turns[k]).state
        != TurnState::Processing by {
        assert(fs.contains(l[i]));
        let m = choose|m: int| 0 <= m < fs.len() && fs[m] == l[i];
        assert(l[i] == fixed_session(stored[m], now));
        let t = stored[m].threads[j];
        assert(l[i].threads[j] == fixed_thread(t, now));
        assert(l[i].threads[j].turns[k] == fixed_turn(t.turns[k], now));
    }
}

} // verus!
