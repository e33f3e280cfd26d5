//! A session: the runtime context of one binding, holding its threads.
use vstd::prelude::*;
use crate::ext::{new_uuid, now_nanos};
use crate::session::thread::{Thread, ThreadView, fresh_thread, json_null, turns_view};
use crate::text::str_eq;

verus! {

/// The runtime context of one binding. Thread identifiers are distinct, and
/// so are the names of the auto-approved tools (a set). `metadata` is a JSON
/// document; times are nanoseconds since the epoch.
#[derive(Debug)]
pub struct Session {
    pub id: u128,
    pub binding_id: String,
    pub active_thread: Option<u128>,
    pub threads: Vec<Thread>,
    pub auto_approved_tools: Vec<String>,
    pub metadata: String,
    pub created_at: i64,
    pub last_active_at: i64,
}

pub struct SessionView {
    pub id: u128,
    pub binding_id: Seq<char>,
    pub active_thread: Option<u128>,
    pub threads: Seq<ThreadView>,
    pub auto_approved_tools: Seq<Seq<char>>,
    pub metadata: Seq<char>,
    pub created_at: i64,
    pub last_active_at: i64,
}

/// Views of a list of threads.
pub open spec fn threads_view(v: Seq<Thread>) -> Seq<ThreadView> {
    v.map_values(|t: Thread| t@)
}

impl View for Session {
    type V = SessionView;

    open spec fn view(&self) -> SessionView {
        SessionView {
            id: self.id,
            binding_id: self.binding_id@,
            active_thread: self.active_thread,
            threads: threads_view(self.threads@),
            auto_approved_tools: self.auto_approved_tools.deep_view(),
            metadata: self.metadata@,
            created_at: self.created_at,
            last_active_at: self.last_active_at,
        }
    }
}

/// No two threads share an identifier.
pub open spec fn distinct_thread_ids(ts: Seq<ThreadView>) -> bool {
    forall|i: int, j: int| 0 <= i < ts.len() && 0 <= j < ts.len() && i != j ==> ts[i].id != ts[j].id
}

/// No string occurs twice.
pub open spec fn distinct_strings(s: Seq<Seq<char>>) -> bool {
    forall|i: int, j: int| 0 <= i < s.len() && 0 <= j < s.len() && i != j ==> s[i] != s[j]
}

/// Some thread of `ts` has identifier `id`.
pub open spec fn has_thread(ts: Seq<ThreadView>, id: u128) -> bool {
    exists|i: int| 0 <= i < ts.len() && ts[i].id == id
}

/// `ts` with `t` stored under its identifier: the thread with that
/// identifier is replaced in place, or `t` is appended.
pub open spec fn put_thread(ts: Seq<ThreadView>, t: ThreadView) -> Seq<ThreadView> {
    if has_thread(ts, t.id) {
        ts.update(choose|i: int| 0 <= i < ts.len() && ts[i].id == t.id, t)
    } else {
        ts.push(t)
    }
}

impl SessionView {
    /// Thread identifiers and tool names are distinct.
    pub open spec fn wf(self) -> bool {
        &&& distinct_thread_ids(self.threads)
        &&& distinct_strings(self.auto_approved_tools)
    }
}

/// A fresh session of `binding_id`, with identifier `id` created at `now`.
pub open spec fn fresh_session(binding_id: Seq<char>, id: u128, now: i64) -> SessionView {
    SessionView {
        id,
        binding_id,
        active_thread: None,
        threads: Seq::empty(),
        auto_approved_tools: Seq::empty(),
        metadata: json_null(),
        created_at: now,
        last_active_at: now,
    }
}

impl Session {
    /// A new session for a binding, with no threads.
    pub fn new(binding_id: &str) -> (s: Self)
        ensures
            s@ == fresh_session(binding_id@, s.id, s.created_at),
            s@.wf(),
    {
        let now = now_nanos();
        let s = Session {
            id: new_uuid(),
            binding_id: binding_id.to_owned(),
            active_thread: None,
            threads: Vec::new(),
            auto_approved_tools: Vec::new(),
            metadata: "null".to_owned(),
            created_at: now,
            last_active_at: now,
        };
        proof {
            assert(threads_view(s.threads@) =~= Seq::empty());
            assert(s.auto_approved_tools.deep_view() =~= Seq::<Seq<char>>::empty());
        }
        s
    }

    /// Position of the thread with identifier `id`.
    pub fn thread_index(&self, id: u128) -> (r: Option<usize>)
        ensures
            match r {
                Some(i) => i < self.threads@.len() && self@.threads[i as int].id == id,
                None => !has_thread(self@.threads, id),
            },
    {
        let mut i: usize = 0;
        while i < self.threads.len()
            invariant
                i <= self.threads@.len(),
                forall|j: int| 0 <= j < i ==> self@.threads[j].id != id,
            decreases self.threads@.len() - i,
        {
            if self.threads[i].id == id {
                return Some(i);
            }
            i = i + 1;
        }
        None
    }

    /// Whether the session has a thread with identifier `id`.
    pub fn contains_thread(&self, id: u128) -> (b: bool)
        ensures
            b == has_thread(self@.threads, id),
    {
        let r = self.thread_index(id);
        r.is_some()
    }

    /// The thread with identifier `id`.
    pub fn thread(&self, id: u128) -> (r: Option<&Thread>)
        ensures
            match r {
                Some(t) => has_thread(self@.threads, id) && t.id == id && self@.threads.contains(t@),
                None => !has_thread(self@.threads, id),
            },
    {
        match self.thread_index(id) {
            Some(i) => {
                proof {
                    assert(self@.threads[i as int] == self.threads@[i as int]@);
                }
                Some(&self.threads[i])
            },
            None => None,
        }
    }

    /// Take out the thread at `i`; `put_back` returns it.
    pub fn take_thread(&mut self, i: usize) -> (t: Thread)
        requires
            i < old(self).threads@.len(),
        ensures
            t@ == old(self)@.threads[i as int],
            final(self)@ == (SessionView { threads: old(self)@.threads.remove(i as int), ..old(self)@ }),
    {
        let t = self.threads.remove(i);
        proof {
            assert(threads_view(self.threads@) =~= threads_view(old(self).threads@).remove(i as int));
        }
        t
    }

    /// Put a thread back at position `i`.
    pub fn put_back(&mut self, i: usize, t: Thread)
        requires
            i <= old(self).threads@.len(),
        ensures
            final(self)@ == (SessionView { threads: old(self)@.threads.insert(i as int, t@), ..old(self)@ }),
    {
        self.threads.insert(i, t);
        proof {
            assert(threads_view(self.threads@) =~= threads_view(old(self).threads@).insert(i as int, t@));
        }
    }

    /// Store `t` under its identifier (replacing a thread with the same
    /// identifier), make it the active thread, and give its identifier.
    pub fn store_thread(&mut self, t: Thread) -> (id: u128)
        requires
            old(self)@.wf(),
        ensures
            id == t.id,
            final(self)@ == (SessionView {
                threads: put_thread(old(self)@.threads, t@),
                active_thread: Some(t.id),
                ..old(self)@
            }),
            final(self)@.wf(),
    {
        let id = t.id;
        match self.thread_index(id) {
            Some(i) => {
                let ghost tv = t@;
                self.threads.set(i, t);
                proof {
                    let k = choose|k: int| 0 <= k < old(self)@.threads.len() && old(self)@.threads[k].id == id;
                    assert(k == i);
                    assert(threads_view(self.threads@) =~= old(self)@.threads.update(i as int, tv));
                }
            },
            None => {
                let ghost tv = t@;
                self.threads.push(t);
                proof {
                    assert(threads_view(self.threads@) =~= old(self)@.threads.push(tv));
                }
            },
        }
        self.active_thread = Some(id);
        id
    }

    /// Create a new thread in this session, make it the active thread and
    /// give its identifier.
    pub fn create_thread(&mut self) -> (id: u128)
        requires
            old(self)@.wf(),
        ensures
            final(self)@ == (SessionView {
                threads: put_thread(
                    old(self)@.threads,
                    fresh_thread(old(self).id, Seq::empty(), Seq::empty(), None, id, final(self)@.threads[
                        thread_position(final(self)@.threads, id)].created_at),
                ),
                active_thread: Some(id),
                ..old(self)@
            }),
            has_thread(final(self)@.threads, id),
            final(self)@.wf(),
    {
        let t = Thread::new(self.id);
        let ghost tv = t@;
        let id = self.store_thread(t);
        proof {
            lemma_put_thread_has(old(self)@.threads, tv);
            let p = thread_position(self@.threads, id);
            assert(self@.threads[p] == tv);
        }
        id
    }

    /// Add `tool_name` to the auto-approved tools.
    pub fn auto_approve_tool(&mut self, tool_name: String)
        requires
            old(self)@.wf(),
        ensures
            final(self)@ == (SessionView {
                auto_approved_tools: if old(self)@.auto_approved_tools.contains(tool_name@) {
                    old(self)@.auto_approved_tools
                } else {
                    old(self)@.auto_approved_tools.push(tool_name@)
                },
                ..old(self)@
            }),
            final(self)@.wf(),
    {
        if !self.is_tool_auto_approved(tool_name.as_str()) {
            self.auto_approved_tools.push(tool_name);
            proof {
                assert(self.auto_approved_tools.deep_view() =~= old(self)@.auto_approved_tools.push(tool_name@));
            }
        }
    }

    /// Whether `tool_name` is auto-approved.
    pub fn is_tool_auto_approved(&self, tool_name: &str) -> (b: bool)
        ensures
            b == self@.auto_approved_tools.contains(tool_name@),
    {
        let mut i: usize = 0;
        while i < self.auto_approved_tools.len()
            invariant
                i <= self@.auto_approved_tools.len(),
                forall|j: int| 0 <= j < i ==> self@.auto_approved_tools[j] != tool_name@,
            decreases self@.auto_approved_tools.len() - i,
        {
            if str_eq(self.auto_approved_tools[i].as_str(), tool_name) {
                proof {
                    assert(self@.auto_approved_tools[i as int] == tool_name@);
                }
                return true;
            }
            i = i + 1;
        }
        false
    }
}

/// Position of the thread with identifier `id` in `ts`.
pub open spec fn thread_position(ts: Seq<ThreadView>, id: u128) -> int {
    choose|i: int| 0 <= i < ts.len() && ts[i].id == id
}

/// After `put_thread`, the thread is found under its identifier.
pub proof fn lemma_put_thread_has(ts: Seq<ThreadView>, t: ThreadView)
    requires
        distinct_thread_ids(ts),
    ensures
        has_thread(put_thread(ts, t), t.id),
        distinct_thread_ids(put_thread(ts, t)),
        put_thread(ts, t)[thread_position(put_thread(ts, t), t.id)] == t,
        forall|id: u128| id != t.id ==> (has_thread(put_thread(ts, t), id) <==> has_thread(ts, id)),
{
    let r = put_thread(ts, t);
    if has_thread(ts, t.id) {
        let k = choose|i: int| 0 <= i < ts.len() && ts[i].id == t.id;
        assert(r[k] == t);
        assert forall|id: u128| id != t.id implies (has_thread(r, id) <==> has_thread(ts, id)) by {
            if has_thread(ts, id) {
                let i = choose|i: int| 0 <= i < ts.len() && ts[i].id == id;
                assert(r[i] == ts[i]);
            }
            if has_thread(r, id) {
                let i = choose|i: int| 0 <= i < r.len() && r[i].id == id;
                assert(r[i] == ts[i]);
            }
        }
    } else {
        assert(r[ts.len() as int] == t);
        assert forall|id: u128| id != t.id implies (has_thread(r, id) <==> has_thread(ts, id)) by {
            if has_thread(ts, id) {
                let i = choose|i: int| 0 <= i < ts.len() && ts[i].id == id;
                assert(r[i] == ts[i]);
            }
            if has_thread(r, id) {
                let i = choose|i: int| 0 <= i < r.len() && r[i].id == id;
                assert(r[i] == ts[i]);
            }
        }
    }
    let p = thread_position(r, t.id);
    assert(r[p].id == t.id);
}

} // verus!
