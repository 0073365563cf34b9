use vstd::prelude::*;

use vstd::pervasive::VecAdditionalExecFns;
use vstd::string::StrSliceExecFns;
use vstd::string::StringExecFns;
use vstd::string::StringSliceAdditionalSpecFns;

use crate::text::{dec_bytes, u64_dec_bytes};

verus! {

/// A window's lifecycle state.
#[derive(Clone, Copy, PartialEq, Eq, Structural, Debug)]
pub enum WindowStatus {
    Idle,
    Starting,
    Running,
    Exited,
    Error,
}

/// The serialisable metadata of a window.
pub struct WindowSnapshot {
    pub session_name: String,
    pub window_name: String,
    pub status: WindowStatus,
    pub pid: Option<u32>,
    pub started_at: Option<i64>,
    pub exited_at: Option<i64>,
    pub exit_code: Option<i32>,
    pub signal: Option<String>,
    pub cols: u16,
    pub rows: u16,
}

impl WindowSnapshot {
    /// An equal copy of the snapshot.
    pub fn duplicate(&self) -> (r: WindowSnapshot)
        ensures
            r == *self,
    {
        WindowSnapshot {
            session_name: self.session_name.clone(),
            window_name: self.window_name.clone(),
            status: self.status,
            pid: self.pid,
            started_at: self.started_at,
            exited_at: self.exited_at,
            exit_code: self.exit_code,
            signal: match &self.signal {
                Some(s) => Some(s.clone()),
                None => None,
            },
            cols: self.cols,
            rows: self.rows,
        }
    }
}

/// A window as the supervisor owns it: the snapshot, the captured raw output,
/// and whether the writer, the PTY master and the child handle are currently
/// held (the handles themselves live with the process runner).
pub struct WindowRecord {
    pub snapshot: WindowSnapshot,
    pub buffer: Vec<u8>,
    pub has_writer: bool,
    pub has_master: bool,
    pub has_child: bool,
}

/// The process-wide registry: sessions with their environment overlays, the
/// windows by their `session:window` key, and the raw-buffer cap.
pub struct SidecarState {
    pub sessions: Vec<(String, Vec<(String, String)>)>,
    pub windows: Vec<(String, WindowRecord)>,
    pub max_buffer_bytes: usize,
}

/// The value an association list gives a key, scanning from entry `i`.
pub open spec fn assoc_from<V>(m: Seq<(String, V)>, k: Seq<char>, i: int) -> Option<V>
    decreases m.len() - i
    when 0 <= i <= m.len()
{
    if i >= m.len() {
        None
    } else if m[i].0@ == k {
        Some(m[i].1)
    } else {
        assoc_from(m, k, i + 1)
    }
}

/// The value an association list gives a key: that of its first entry with it.
pub open spec fn assoc_get<V>(m: Seq<(String, V)>, k: Seq<char>) -> Option<V> {
    assoc_from(m, k, 0)
}

/// Keys occur at most once.
pub open spec fn keys_unique<V>(m: Seq<(String, V)>) -> bool {
    forall|i: int, j: int| 0 <= i < j < m.len() ==> (#[trigger] m[i]).0@ != (#[trigger] m[j]).0@
}

proof fn lemma_assoc_found<V>(m: Seq<(String, V)>, k: Seq<char>, i: int)
    requires
        0 <= i <= m.len(),
        forall|j: int| 0 <= j < i ==> (#[trigger] m[j]).0@ != k,
    ensures
        assoc_get(m, k) == assoc_from(m, k, i),
    decreases i,
{
    if i > 0 {
        lemma_assoc_found(m, k, i - 1);
        lemma_assoc_from_step(m, k, i - 1);
    }
}

proof fn lemma_assoc_from_step<V>(m: Seq<(String, V)>, k: Seq<char>, i: int)
    requires
        0 <= i < m.len(),
        m[i].0@ != k,
    ensures
        assoc_from(m, k, i) == assoc_from(m, k, i + 1),
{
}

/// What a key's entry becomes after an update at index `i` with a pair whose
/// key reads the same: the new value for that key, everything else unchanged.
proof fn lemma_assoc_update<V>(m: Seq<(String, V)>, i: int, nk: String, v: V, k: Seq<char>, j: int)
    requires
        keys_unique(m),
        0 <= i < m.len(),
        nk@ == m[i].0@,
        0 <= j <= m.len(),
    ensures
        assoc_from(m.update(i, (nk, v)), k, j) == (if k == m[i].0@ && j <= i {
            Some(v)
        } else {
            assoc_from(m, k, j)
        }),
    decreases m.len() - j,
{
    if j < m.len() {
        lemma_assoc_update(m, i, nk, v, k, j + 1);
    }
}

/// What a push adds: the new key maps to the new value, everything else stands.
proof fn lemma_assoc_push<V>(m: Seq<(String, V)>, nk: String, v: V, k: Seq<char>, j: int)
    requires
        0 <= j <= m.len(),
    ensures
        assoc_from(m.push((nk, v)), k, j) == (if k == nk@ && assoc_from(m, k, j) is None {
            Some(v)
        } else {
            assoc_from(m, k, j)
        }),
    decreases m.len() - j,
{
    if j < m.len() {
        lemma_assoc_push(m, nk, v, k, j + 1);
        assert(m.push((nk, v))[j] == m[j]);
    } else {
        assert(m.push((nk, v))[m.len() as int] == (nk, v));
        if k != nk@ {
            assert(assoc_from(m.push((nk, v)), k, m.len() as int + 1) is None);
        }
    }
}

/// The environment value a session holds for a key.
pub open spec fn spec_env_val(st: SidecarState, session: Seq<char>, key: Seq<char>) -> Option<
    Seq<char>,
> {
    match assoc_get(st.sessions@, session) {
        None => None,
        Some(env) => match assoc_get(env@, key) {
            None => None,
            Some(v) => Some(v@),
        },
    }
}

/// The record of a window, by its `session:window` key.
pub open spec fn spec_window(st: SidecarState, k: Seq<char>) -> Option<WindowRecord> {
    assoc_get(st.windows@, k)
}

/// The composite key a window is registered under.
pub open spec fn spec_window_key(session: Seq<char>, window: Seq<char>) -> Seq<char> {
    session + ":"@ + window
}

/// The key a window is addressed by: `<session>:<window>`.
pub fn window_key(session_name: &str, window_name: &str) -> (r: String)
    ensures
        r@ == spec_window_key(session_name@, window_name@),
{
    let mut s = session_name.to_owned();
    s.append(":");
    s.append(window_name);
    s
}

/// The registry's invariant: session names, window keys and the keys of each
/// session's environment are unique.
pub open spec fn state_wf(st: SidecarState) -> bool {
    &&& keys_unique(st.sessions@)
    &&& keys_unique(st.windows@)
    &&& forall|i: int|
        0 <= i < st.sessions@.len() ==> keys_unique((#[trigger] st.sessions@[i]).1@)
}

/// A freshly created window record: idle, empty, default dimensions, holding
/// no process.
pub open spec fn is_idle_record(r: WindowRecord, session: Seq<char>, window: Seq<char>) -> bool {
    &&& r.snapshot.session_name@ == session
    &&& r.snapshot.window_name@ == window
    &&& r.snapshot.status == WindowStatus::Idle
    &&& r.snapshot.pid is None
    &&& r.snapshot.started_at is None
    &&& r.snapshot.exited_at is None
    &&& r.snapshot.exit_code is None
    &&& r.snapshot.signal is None
    &&& r.snapshot.cols == 140
    &&& r.snapshot.rows == 40
    &&& r.buffer@.len() == 0
    &&& !r.has_writer
    &&& !r.has_master
    &&& !r.has_child
}

fn make_idle_record(session_name: &String, window_name: &String) -> (r: WindowRecord)
    ensures
        is_idle_record(r, session_name@, window_name@),
{
    WindowRecord {
        snapshot: WindowSnapshot {
            session_name: session_name.clone(),
            window_name: window_name.clone(),
            status: WindowStatus::Idle,
            pid: None,
            started_at: None,
            exited_at: None,
            exit_code: None,
            signal: None,
            cols: 140,
            rows: 40,
        },
        buffer: Vec::new(),
        has_writer: false,
        has_master: false,
        has_child: false,
    }
}

impl SidecarState {
    /// A fresh registry: no sessions, no windows, the default 512 KiB cap.
    pub fn new() -> (st: SidecarState)
        ensures
            state_wf(st),
            st.sessions@.len() == 0,
            st.windows@.len() == 0,
            st.max_buffer_bytes == 524288,
    {
        SidecarState { sessions: Vec::new(), windows: Vec::new(), max_buffer_bytes: 512 * 1024 }
    }

    /// The index of a session, where it exists.
    #[verifier::loop_isolation(false)]
    fn find_session(&self, name: &String) -> (r: Option<usize>)
        ensures
            match r {
                Some(i) => i < self.sessions@.len() && self.sessions@[i as int].0@ == name@
                    && assoc_get(self.sessions@, name@) == Some(self.sessions@[i as int].1),
                None => assoc_get(self.sessions@, name@) is None,
            },
    {
        let mut i: usize = 0;
        while i < self.sessions.len()
            invariant
                i <= self.sessions@.len(),
                assoc_get(self.sessions@, name@) == assoc_from(self.sessions@, name@, i as int),
            decreases self.sessions@.len() - i,
        {
            if self.sessions[i].0 == *name {
                return Some(i);
            }
            i = i + 1;
        }
        None
    }

    /// The index of a window record, by key.
    #[verifier::loop_isolation(false)]
    fn find_window(&self, key: &String) -> (r: Option<usize>)
        ensures
            match r {
                Some(i) => i < self.windows@.len() && self.windows@[i as int].0@ == key@
                    && spec_window(*self, key@) == Some(self.windows@[i as int].1),
                None => spec_window(*self, key@) is None,
            },
    {
        let mut i: usize = 0;
        while i < self.windows.len()
            invariant
                i <= self.windows@.len(),
                assoc_get(self.windows@, key@) == assoc_from(self.windows@, key@, i as int),
            decreases self.windows@.len() - i,
        {
            if self.windows[i].0 == *key {
                return Some(i);
            }
            i = i + 1;
        }
        None
    }

    /// Create the session if it is absent; with a first window name given,
    /// create that window idle. An existing session or window stands untouched.
    pub fn get_or_create_session(&mut self, project_name: &String, first_window_name: &Option<
        String,
    >)
        requires
            state_wf(*old(self)),
        ensures
            state_wf(*final(self)),
            final(self).max_buffer_bytes == old(self).max_buffer_bytes,
            assoc_get(final(self).sessions@, project_name@) is Some,
            assoc_get(old(self).sessions@, project_name@) is Some ==> final(self).sessions
                == old(self).sessions,
            assoc_get(old(self).sessions@, project_name@) is None ==> (final(self).sessions@.len()
                == old(self).sessions@.len() + 1 && final(self).sessions@.last().0@
                == project_name@ && final(self).sessions@.last().1@.len() == 0
                && old(self).sessions@ == final(self).sessions@.drop_last()),
            forall|s: Seq<char>|
                s != project_name@ ==> #[trigger] assoc_get(final(self).sessions@, s) == assoc_get(
                    old(self).sessions@,
                    s,
                ),
            match first_window_name {
                Some(w) => {
                    let k = spec_window_key(project_name@, w@);
                    &&& spec_window(*final(self), k) is Some
                    &&& (spec_window(*old(self), k) is Some ==> final(self).windows == old(
                        self,
                    ).windows)
                    &&& (spec_window(*old(self), k) is None ==> (match spec_window(
                        *final(self),
                        k,
                    ) {
                        Some(nr) => is_idle_record(nr, project_name@, w@),
                        None => false,
                    }))
                    &&& (spec_window(*old(self), k) is None ==> final(self).windows@.len() == old(
                        self,
                    ).windows@.len() + 1 && final(self).windows@.last().0@ == k && is_idle_record(
                        final(self).windows@.last().1,
                        project_name@,
                        w@,
                    ) && final(self).windows@.drop_last() == old(self).windows@)
                    &&& forall|s: Seq<char>|
                        s != k ==> #[trigger] spec_window(*final(self), s) == spec_window(
                            *old(self),
                            s,
                        )
                },
                None => final(self).windows == old(self).windows,
            },
    {
        let existing = self.find_session(project_name);
        if existing.is_none() {
            let ghost pre = self.sessions@;
            let env: Vec<(String, String)> = Vec::new();
            self.sessions.push((project_name.clone(), env));
            proof {
                assert forall|s: Seq<char>| s != project_name@ implies #[trigger] assoc_get(
                    self.sessions@,
                    s,
                ) == assoc_get(pre, s) by {
                    lemma_assoc_push(pre, self.sessions@.last().0, self.sessions@.last().1, s, 0);
                }
                lemma_assoc_push(
                    pre,
                    self.sessions@.last().0,
                    self.sessions@.last().1,
                    project_name@,
                    0,
                );
                assert(self.sessions@.drop_last() =~= pre);
                assert forall|i: int, j: int|
                    0 <= i < j < self.sessions@.len() implies (#[trigger] self.sessions@[i]).0@ != (
                #[trigger] self.sessions@[j]).0@ by {
                    if j == self.sessions@.len() - 1 {
                        lemma_assoc_found(pre, pre[i].0@, i);
                        assert(assoc_from(pre, pre[i].0@, i) is Some);
                    }
                }
            }
        }
        match first_window_name {
            None => {},
            Some(w) => {
                let key = window_key(project_name.as_str(), w.as_str());
                let existing_w = self.find_window(&key);
                if existing_w.is_none() {
                    let ghost prew = self.windows@;
                    let rec = make_idle_record(project_name, w);
                    self.windows.push((key, rec));
                    proof {
                        assert forall|s: Seq<char>|
                            s != spec_window_key(project_name@, w@) implies #[trigger] assoc_get(
                            self.windows@,
                            s,
                        ) == assoc_get(prew, s) by {
                            lemma_assoc_push(
                                prew,
                                self.windows@.last().0,
                                self.windows@.last().1,
                                s,
                                0,
                            );
                        }
                        lemma_assoc_push(
                            prew,
                            self.windows@.last().0,
                            self.windows@.last().1,
                            spec_window_key(project_name@, w@),
                            0,
                        );
                        assert(self.windows@.drop_last() =~= prew);
                        assert forall|i: int, j: int|
                            0 <= i < j < self.windows@.len() implies (
                        #[trigger] self.windows@[i]).0@ != (#[trigger] self.windows@[j]).0@ by {
                            if j == self.windows@.len() - 1 {
                                lemma_assoc_found(prew, prew[i].0@, i);
                                assert(assoc_from(prew, prew[i].0@, i) is Some);
                            }
                        }
                    }
                }
            },
        }
    }

    /// Set one environment variable on a session, creating the session if it
    /// is absent; an existing value for the key is overwritten.
    #[verifier::rlimit(50)]
    pub fn set_session_env(&mut self, session_name: String, key: String, value: String)
        requires
            state_wf(*old(self)),
        ensures
            state_wf(*final(self)),
            final(self).max_buffer_bytes == old(self).max_buffer_bytes,
            final(self).windows == old(self).windows,
            spec_env_val(*final(self), session_name@, key@) == Some(value@),
            forall|k: Seq<char>|
                k != key@ ==> #[trigger] spec_env_val(*final(self), session_name@, k)
                    == spec_env_val(*old(self), session_name@, k),
            forall|s: Seq<char>|
                s != session_name@ ==> #[trigger] assoc_get(final(self).sessions@, s) == assoc_get(
                    old(self).sessions@,
                    s,
                ),
    {
        let found = self.find_session(&session_name);
        match found {
            None => {
                let ghost pre = self.sessions@;
                let mut env: Vec<(String, String)> = Vec::new();
                env.push((key, value));
                self.sessions.push((session_name, env));
                proof {
                    let nk = self.sessions@.last().0;
                    let nv = self.sessions@.last().1;
                    assert forall|s: Seq<char>| s != nk@ implies #[trigger] assoc_get(
                        self.sessions@,
                        s,
                    ) == assoc_get(pre, s) by {
                        lemma_assoc_push(pre, nk, nv, s, 0);
                    }
                    lemma_assoc_push(pre, nk, nv, nk@, 0);
                    assert(nv@[0].1@ == value@);
                    assert forall|k: Seq<char>| k != key@ implies assoc_get(nv@, k) is None by {
                        assert(nv@[0].0@ == key@);
                        assert(assoc_from(nv@, k, 0) == assoc_from(nv@, k, 1));
                        assert(assoc_from(nv@, k, 1) is None);
                    }
                    assert forall|i: int, j: int|
                        0 <= i < j < self.sessions@.len() implies (
                    #[trigger] self.sessions@[i]).0@ != (#[trigger] self.sessions@[j]).0@ by {
                        if j == self.sessions@.len() - 1 {
                            lemma_assoc_found(pre, pre[i].0@, i);
                            assert(assoc_from(pre, pre[i].0@, i) is Some);
                        }
                    }
                    assert forall|i: int|
                        0 <= i < self.sessions@.len() implies keys_unique(
                        (#[trigger] self.sessions@[i]).1@,
                    ) by {
                        if i < pre.len() {
                            assert(self.sessions@[i] == pre[i]);
                        } else {
                            assert(self.sessions@[i].1@.len() == 1);
                        }
                    }
                }
            },
            Some(i) => {
                let ghost pre = self.sessions@;
                let mut entry = (String::new(), Vec::<(String, String)>::new());
                self.sessions.set_and_swap(i, &mut entry);
                let ghost preenv = entry.1@;
                let kidx = find_env(&entry.1, &key);
                match kidx {
                    None => {
                        entry.1.push((key, value));
                        proof {
                            let nk = entry.1@.last().0;
                            let nv = entry.1@.last().1;
                            assert forall|s: Seq<char>| true implies #[trigger] assoc_get(
                                entry.1@,
                                s,
                            ) == (if s == nk@ && assoc_get(preenv, s) is None {
                                Some(nv)
                            } else {
                                assoc_get(preenv, s)
                            }) by {
                                lemma_assoc_push(preenv, nk, nv, s, 0);
                            }
                            assert forall|a: int, b: int|
                                0 <= a < b < entry.1@.len() implies (#[trigger] entry.1@[a]).0@
                                != (#[trigger] entry.1@[b]).0@ by {
                                if b == entry.1@.len() - 1 {
                                    lemma_assoc_found(preenv, preenv[a].0@, a);
                                    assert(assoc_from(preenv, preenv[a].0@, a) is Some);
                                }
                            }
                        }
                    },
                    Some(j) => {
                        let mut kv = (key, value);
                        entry.1.set_and_swap(j, &mut kv);
                        proof {
                            assert(keys_unique(preenv));
                            assert(entry.1@[j as int].0@ == preenv[j as int].0@);
                            assert(entry.1@ =~= preenv.update(
                                j as int,
                                (entry.1@[j as int].0, entry.1@[j as int].1),
                            ));
                            assert forall|s: Seq<char>| true implies #[trigger] assoc_get(
                                entry.1@,
                                s,
                            ) == (if s == preenv[j as int].0@ {
                                Some(entry.1@[j as int].1)
                            } else {
                                assoc_get(preenv, s)
                            }) by {
                                lemma_assoc_update(
                                    preenv,
                                    j as int,
                                    entry.1@[j as int].0,
                                    entry.1@[j as int].1,
                                    s,
                                    0,
                                );
                            }
                            assert forall|a: int, b: int|
                                0 <= a < b < entry.1@.len() implies (#[trigger] entry.1@[a]).0@
                                != (#[trigger] entry.1@[b]).0@ by {
                                assert(entry.1@[a].0@ == preenv[a].0@);
                                assert(entry.1@[b].0@ == preenv[b].0@);
                                assert(preenv[a].0@ != preenv[b].0@);
                            }
                        }
                    },
                }
                self.sessions.set_and_swap(i, &mut entry);
                proof {
                    let newkey = self.sessions@[i as int].0;
                    let newenv = self.sessions@[i as int].1;
                    assert(newkey@ == pre[i as int].0@);
                    assert(self.sessions@ =~= pre.update(i as int, (newkey, newenv)));
                    assert forall|s: Seq<char>| true implies #[trigger] assoc_get(
                        self.sessions@,
                        s,
                    ) == (if s == pre[i as int].0@ {
                        Some(newenv)
                    } else {
                        assoc_get(pre, s)
                    }) by {
                        lemma_assoc_update(pre, i as int, newkey, newenv, s, 0);
                    }
                    assert forall|a: int, b: int|
                        0 <= a < b < self.sessions@.len() implies (
                    #[trigger] self.sessions@[a]).0@ != (#[trigger] self.sessions@[b]).0@ by {
                        assert(self.sessions@[a].0@ == pre[a].0@);
                        assert(self.sessions@[b].0@ == pre[b].0@);
                        assert(pre[a].0@ != pre[b].0@);
                    }
                    assert forall|t: int|
                        0 <= t < self.sessions@.len() implies keys_unique(
                        (#[trigger] self.sessions@[t]).1@,
                    ) by {
                        if t != i {
                            assert(self.sessions@[t] == pre[t]);
                            assert(keys_unique(pre[t].1@));
                        }
                    }
                }
            },
        }
    }
}

/// The index of a key inside one environment list.
#[verifier::loop_isolation(false)]
fn find_env(env: &Vec<(String, String)>, key: &String) -> (r: Option<usize>)
    ensures
        match r {
            Some(i) => i < env@.len() && env@[i as int].0@ == key@ && assoc_get(env@, key@)
                == Some(env@[i as int].1),
            None => assoc_get(env@, key@) is None,
        },
{
    let mut i: usize = 0;
    while i < env.len()
        invariant
            i <= env@.len(),
            assoc_get(env@, key@) == assoc_from(env@, key@, i as int),
        decreases env@.len() - i,
    {
        if env[i].0 == *key {
            return Some(i);
        }
        i = i + 1;
    }
    None
}

/// What a window start resolves to: nothing to do, or a launch with the
/// session's environment snapshot and the window's dimensions.
pub enum StartDecision {
    AlreadyRunning,
    Launch { env: Vec<(String, String)>, cols: u16, rows: u16 },
}

/// All registry state apart from the one window stands; keys stay unique.
pub open spec fn window_updated(pre: SidecarState, post: SidecarState, k: Seq<char>) -> bool {
    &&& post.sessions == pre.sessions
    &&& post.max_buffer_bytes == pre.max_buffer_bytes
    &&& post.windows@.len() == pre.windows@.len()
    &&& forall|s: Seq<char>| s != k ==> #[trigger] spec_window(post, s) == spec_window(pre, s)
}

/// A record in the `starting` phase, derived from what stood before: timers
/// and exit data reset, the buffer cleared, names, dimensions and any held
/// handles kept.
pub open spec fn is_starting_of(r: WindowRecord, prev: WindowRecord, now: i64) -> bool {
    &&& r.snapshot.session_name@ == prev.snapshot.session_name@
    &&& r.snapshot.window_name@ == prev.snapshot.window_name@
    &&& r.snapshot.status == WindowStatus::Starting
    &&& r.snapshot.started_at == Some(now)
    &&& r.snapshot.exited_at is None
    &&& r.snapshot.exit_code is None
    &&& r.snapshot.signal is None
    &&& r.snapshot.pid == prev.snapshot.pid
    &&& r.snapshot.cols == prev.snapshot.cols
    &&& r.snapshot.rows == prev.snapshot.rows
    &&& r.buffer@.len() == 0
    &&& r.has_writer == prev.has_writer
    &&& r.has_master == prev.has_master
    &&& r.has_child == prev.has_child
}

/// The synthetic first line of a started window's buffer.
pub open spec fn marker_line(pid: int) -> Seq<u8> {
    ("[runtime] process started (pid=").spec_bytes() + dec_bytes(pid) + seq![41u8, 10u8]
}

/// A byte string cut down to a cap: the newest `cap` bytes stay.
pub open spec fn trim_to_cap(s: Seq<u8>, cap: int) -> Seq<u8> {
    if s.len() <= cap {
        s
    } else {
        s.subrange(s.len() - cap, s.len() as int)
    }
}

/// The error a lookup of an unregistered window yields.
pub open spec fn not_found_msg(k: Seq<char>) -> Seq<char> {
    ("window not found: ")@ + k
}

fn not_found_err(key: &String) -> (r: String)
    ensures
        r@ == not_found_msg(key@),
{
    let s = String::from_str("window not found: ");
    s.concat(key.as_str())
}

fn placeholder_record() -> WindowRecord {
    WindowRecord {
        snapshot: WindowSnapshot {
            session_name: String::new(),
            window_name: String::new(),
            status: WindowStatus::Idle,
            pid: None,
            started_at: None,
            exited_at: None,
            exit_code: None,
            signal: None,
            cols: 140,
            rows: 40,
        },
        buffer: Vec::new(),
        has_writer: false,
        has_master: false,
        has_child: false,
    }
}

proof fn lemma_window_frame(
    pre: Seq<(String, WindowRecord)>,
    post: Seq<(String, WindowRecord)>,
    i: int,
    k: Seq<char>,
)
    requires
        keys_unique(pre),
        0 <= i < pre.len(),
        post =~= pre.update(i, (post[i].0, post[i].1)),
        post[i].0@ == pre[i].0@,
        pre[i].0@ == k,
        assoc_get(pre, k) == Some(pre[i].1),
    ensures
        keys_unique(post),
        assoc_get(post, k) == Some(post[i].1),
        forall|s: Seq<char>| s != k ==> #[trigger] assoc_get(post, s) == assoc_get(pre, s),
        post.len() == pre.len(),
{
    assert forall|s: Seq<char>| true implies #[trigger] assoc_get(post, s) == (if s == k {
        Some(post[i].1)
    } else {
        assoc_get(pre, s)
    }) by {
        lemma_assoc_update(pre, i, post[i].0, post[i].1, s, 0);
        assert(pre.update(i, (post[i].0, post[i].1)) =~= post);
    }
    assert forall|a: int, b: int|
        0 <= a < b < post.len() implies (#[trigger] post[a]).0@ != (#[trigger] post[b]).0@ by {
        assert(post[a].0@ == pre[a].0@);
        assert(post[b].0@ == pre[b].0@);
        assert(pre[a].0@ != pre[b].0@);
    }
}

#[verifier::loop_isolation(false)]
fn clone_env(env: &Vec<(String, String)>) -> (r: Vec<(String, String)>)
    ensures
        r@ == env@,
{
    let mut r: Vec<(String, String)> = Vec::new();
    let mut i: usize = 0;
    while i < env.len()
        invariant
            i <= env@.len(),
            r@ == env@.subrange(0, i as int),
        decreases env@.len() - i,
    {
        r.push((env[i].0.clone(), env[i].1.clone()));
        proof {
            assert(r@ =~= env@.subrange(0, i + 1));
        }
        i = i + 1;
    }
    proof {
        assert(env@.subrange(0, env@.len() as int) =~= env@);
    }
    r
}

#[verifier::loop_isolation(false)]
fn push_bytes(dst: &mut Vec<u8>, src: &Vec<u8>)
    ensures
        final(dst)@ == old(dst)@ + src@,
{
    let mut k: usize = 0;
    while k < src.len()
        invariant
            k <= src@.len(),
            dst@ == old(dst)@ + src@.subrange(0, k as int),
        decreases src@.len() - k,
    {
        dst.push(src[k]);
        proof {
            assert(old(dst)@ + src@.subrange(0, k + 1) =~= (old(dst)@ + src@.subrange(
                0,
                k as int,
            )).push(src@[k as int]));
        }
        k = k + 1;
    }
    proof {
        assert(src@.subrange(0, src@.len() as int) =~= src@);
    }
}

impl SidecarState {
    /// Whether a window is registered under the session and window name.
    pub fn window_exists(&self, session_name: &String, window_name: &String) -> (r: bool)
        ensures
            r == (spec_window(*self, spec_window_key(session_name@, window_name@)) is Some),
    {
        let key = window_key(session_name.as_str(), window_name.as_str());
        self.find_window(&key).is_some()
    }

    /// Begin starting a window: create it idle if it is new; a window already
    /// running with a live child is left exactly as it is; anything else moves
    /// to `starting` with a fresh buffer, and the session's environment and
    /// the window's dimensions are handed back for the launch.
    #[verifier::rlimit(50)]
    pub fn start_window_begin(&mut self, session_name: &String, window_name: &String, now: i64) -> (r:
        StartDecision)
        requires
            state_wf(*old(self)),
        ensures
            state_wf(*final(self)),
            ({
                let k = spec_window_key(session_name@, window_name@);
                match spec_window(*old(self), k) {
                    Some(prev) => {
                        if prev.has_child && prev.snapshot.status == WindowStatus::Running {
                            &&& r is AlreadyRunning
                            &&& *final(self) == *old(self)
                        } else {
                            &&& window_updated(*old(self), *final(self), k)
                            &&& (match spec_window(*final(self), k) {
                                Some(nr) => is_starting_of(nr, prev, now),
                                None => false,
                            })
                            &&& (match r {
                                StartDecision::Launch { env, cols, rows } => {
                                    &&& cols == prev.snapshot.cols
                                    &&& rows == prev.snapshot.rows
                                    &&& env@ == (match assoc_get(
                                        old(self).sessions@,
                                        session_name@,
                                    ) {
                                        Some(e) => e@,
                                        None => Seq::<(String, String)>::empty(),
                                    })
                                },
                                _ => false,
                            })
                        }
                    },
                    None => {
                        &&& final(self).sessions == old(self).sessions
                        &&& final(self).max_buffer_bytes == old(self).max_buffer_bytes
                        &&& (forall|s: Seq<char>|
                            s != k ==> #[trigger] spec_window(*final(self), s) == spec_window(
                                *old(self),
                                s,
                            ))
                        &&& (match spec_window(*final(self), k) {
                            Some(nr) => {
                                &&& nr.snapshot.session_name@ == session_name@
                                &&& nr.snapshot.window_name@ == window_name@
                                &&& nr.snapshot.status == WindowStatus::Starting
                                &&& nr.snapshot.started_at == Some(now)
                                &&& nr.snapshot.exited_at is None
                                &&& nr.snapshot.exit_code is None
                                &&& nr.snapshot.signal is None
                                &&& nr.snapshot.pid is None
                                &&& nr.snapshot.cols == 140
                                &&& nr.snapshot.rows == 40
                                &&& nr.buffer@.len() == 0
                                &&& !nr.has_writer
                                &&& !nr.has_master
                                &&& !nr.has_child
                            },
                            None => false,
                        })
                        &&& (match r {
                            StartDecision::Launch { env, cols, rows } => {
                                &&& cols == 140
                                &&& rows == 40
                                &&& env@ == (match assoc_get(old(self).sessions@, session_name@) {
                                    Some(e) => e@,
                                    None => Seq::<(String, String)>::empty(),
                                })
                            },
                            _ => false,
                        })
                    },
                }
            }),
    {
        let env = match self.find_session(session_name) {
            Some(i) => clone_env(&self.sessions[i].1),
            None => Vec::new(),
        };
        let key = window_key(session_name.as_str(), window_name.as_str());
        let found = self.find_window(&key);
        match found {
            None => {
                let ghost prew = self.windows@;
                let rec = make_idle_record(session_name, window_name);
                let mut entry = (key, rec);
                let i = self.windows.len();
                self.windows.push(entry);
                proof {
                    let nk = self.windows@.last().0;
                    let nv = self.windows@.last().1;
                    assert forall|s: Seq<char>| true implies #[trigger] assoc_get(self.windows@, s)
                        == (if s == nk@ && assoc_get(prew, s) is None {
                        Some(nv)
                    } else {
                        assoc_get(prew, s)
                    }) by {
                        lemma_assoc_push(prew, nk, nv, s, 0);
                    }
                    assert forall|a: int, b: int|
                        0 <= a < b < self.windows@.len() implies (
                    #[trigger] self.windows@[a]).0@ != (#[trigger] self.windows@[b]).0@ by {
                        if b == self.windows@.len() - 1 {
                            lemma_assoc_found(prew, prew[a].0@, a);
                            assert(assoc_from(prew, prew[a].0@, a) is Some);
                        }
                    }
                }
                self.start_fresh(i, now);
                StartDecision::Launch { env, cols: 140, rows: 40 }
            },
            Some(i) => {
                if self.windows[i].1.has_child && matches!(
                    self.windows[i].1.snapshot.status,
                    WindowStatus::Running,
                ) {
                    return StartDecision::AlreadyRunning;
                }
                let cols = self.windows[i].1.snapshot.cols;
                let rows = self.windows[i].1.snapshot.rows;
                self.start_fresh(i, now);
                StartDecision::Launch { env, cols, rows }
            },
        }
    }

    /// Move the window at an index into `starting`: timers and exit data
    /// reset, the buffer cleared.
    fn start_fresh(&mut self, i: usize, now: i64)
        requires
            state_wf(*old(self)),
            i < old(self).windows@.len(),
        ensures
            state_wf(*final(self)),
            final(self).sessions == old(self).sessions,
            final(self).max_buffer_bytes == old(self).max_buffer_bytes,
            final(self).windows@.len() == old(self).windows@.len(),
            forall|s: Seq<char>|
                s != old(self).windows@[i as int].0@ ==> #[trigger] spec_window(*final(self), s)
                    == spec_window(*old(self), s),
            spec_window(*final(self), old(self).windows@[i as int].0@) == Some(
                final(self).windows@[i as int].1,
            ),
            is_starting_of(final(self).windows@[i as int].1, old(self).windows@[i as int].1, now),
            final(self).windows@[i as int].0 == old(self).windows@[i as int].0,
    {
        let ghost pre = self.windows@;
        proof {
            lemma_assoc_found(pre, pre[i as int].0@, i as int);
        }
        let mut entry = (String::new(), placeholder_record());
        self.windows.set_and_swap(i, &mut entry);
        entry.1.snapshot.status = WindowStatus::Starting;
        entry.1.snapshot.started_at = Some(now);
        entry.1.snapshot.exited_at = None;
        entry.1.snapshot.exit_code = None;
        entry.1.snapshot.signal = None;
        entry.1.buffer = Vec::new();
        self.windows.set_and_swap(i, &mut entry);
        proof {
            lemma_window_frame(pre, self.windows@, i as int, pre[i as int].0@);
        }
    }

    /// Record a successful launch: the window runs, holds its process id and
    /// all three handles, and its buffer opens with the synthetic marker line.
    pub fn start_window_finish(&mut self, key: &String, pid: Option<u32>) -> (r: Result<
        (),
        String,
    >)
        requires
            state_wf(*old(self)),
        ensures
            state_wf(*final(self)),
            spec_window(*old(self), key@) is None ==> (*final(self) == *old(self) && (match r {
                Err(e) => e@ == not_found_msg(key@),
                _ => false,
            })),
            match spec_window(*old(self), key@) {
                Some(prev) => {
                    &&& r is Ok
                    &&& window_updated(*old(self), *final(self), key@)
                    &&& (match spec_window(*final(self), key@) {
                        Some(nr) => {
                            &&& nr.snapshot == (WindowSnapshot {
                                status: WindowStatus::Running,
                                pid: pid,
                                ..prev.snapshot
                            })
                            &&& nr.buffer@ == prev.buffer@ + marker_line(
                                (match pid {
                                    Some(p) => p as int,
                                    None => 0,
                                }),
                            )
                            &&& nr.has_writer
                            &&& nr.has_master
                            &&& nr.has_child
                        },
                        None => false,
                    })
                },
                None => true,
            },
    {
        let found = self.find_window(key);
        match found {
            None => Err(not_found_err(key)),
            Some(i) => {
                let ghost pre = self.windows@;
                let mut entry = (String::new(), placeholder_record());
                self.windows.set_and_swap(i, &mut entry);
                entry.1.snapshot.status = WindowStatus::Running;
                entry.1.snapshot.pid = pid;
                entry.1.has_writer = true;
                entry.1.has_master = true;
                entry.1.has_child = true;
                let prefix = ("[runtime] process started (pid=").as_bytes_vec();
                push_bytes(&mut entry.1.buffer, &prefix);
                let p64: u64 = match pid {
                    Some(p) => p as u64,
                    None => 0,
                };
                let digits = u64_dec_bytes(p64);
                push_bytes(&mut entry.1.buffer, &digits);
                entry.1.buffer.push(41);
                entry.1.buffer.push(10);
                self.windows.set_and_swap(i, &mut entry);
                proof {
                    lemma_window_frame(pre, self.windows@, i as int, pre[i as int].0@);
                    assert(self.windows@[i as int].1.buffer@ =~= pre[i as int].1.buffer@
                        + marker_line(p64 as int));
                }
                Ok(())
            },
        }
    }

    /// Whether keys can be typed into a window: it must exist and hold a
    /// writer; the caller then performs the write.
    pub fn check_writer(&self, session_name: &String, window_name: &String) -> (r: Result<
        (),
        String,
    >)
        ensures
            ({
                let k = spec_window_key(session_name@, window_name@);
                match spec_window(*self, k) {
                    None => (match r {
                        Err(e) => e@ == not_found_msg(k),
                        _ => false,
                    }),
                    Some(rec) => {
                        if rec.has_writer {
                            r is Ok
                        } else {
                            match r {
                                Err(e) => e@ == ("window writer unavailable")@,
                                _ => false,
                            }
                        }
                    },
                }
            }),
    {
        let key = window_key(session_name.as_str(), window_name.as_str());
        match self.find_window(&key) {
            None => Err(not_found_err(&key)),
            Some(i) => {
                if self.windows[i].1.has_writer {
                    Ok(())
                } else {
                    Err(String::from_str("window writer unavailable"))
                }
            },
        }
    }

    /// Set a window's dimensions; the caller resizes the PTY where the answer
    /// says a master is held.
    pub fn resize_window(&mut self, session_name: &String, window_name: &String, cols: u16, rows:
        u16) -> (r: Result<bool, String>)
        requires
            state_wf(*old(self)),
        ensures
            state_wf(*final(self)),
            ({
                let k = spec_window_key(session_name@, window_name@);
                match spec_window(*old(self), k) {
                    None => *final(self) == *old(self) && (match r {
                        Err(e) => e@ == not_found_msg(k),
                        _ => false,
                    }),
                    Some(prev) => {
                        &&& r == Ok::<bool, String>(prev.has_master)
                        &&& window_updated(*old(self), *final(self), k)
                        &&& (match spec_window(*final(self), k) {
                            Some(nr) => nr.snapshot == (WindowSnapshot {
                                cols: cols,
                                rows: rows,
                                ..prev.snapshot
                            }) && nr.buffer == prev.buffer && nr.has_writer == prev.has_writer
                                && nr.has_master == prev.has_master && nr.has_child
                                == prev.has_child,
                            None => false,
                        })
                    },
                }
            }),
    {
        let key = window_key(session_name.as_str(), window_name.as_str());
        match self.find_window(&key) {
            None => Err(not_found_err(&key)),
            Some(i) => {
                let ghost pre = self.windows@;
                proof {
                    lemma_assoc_found(pre, pre[i as int].0@, i as int);
                }
                let has_master = self.windows[i].1.has_master;
                let mut entry = (String::new(), placeholder_record());
                self.windows.set_and_swap(i, &mut entry);
                entry.1.snapshot.cols = cols;
                entry.1.snapshot.rows = rows;
                self.windows.set_and_swap(i, &mut entry);
                proof {
                    lemma_window_frame(pre, self.windows@, i as int, pre[i as int].0@);
                }
                Ok(has_master)
            },
        }
    }

    /// Whether stopping a window has a child to kill: the caller kills it and
    /// then records the stop.
    pub fn stop_window_query(&self, session_name: &String, window_name: &String) -> (r: Result<
        bool,
        String,
    >)
        ensures
            ({
                let k = spec_window_key(session_name@, window_name@);
                match spec_window(*self, k) {
                    None => (match r {
                        Err(e) => e@ == not_found_msg(k),
                        _ => false,
                    }),
                    Some(rec) => r == Ok::<bool, String>(rec.has_child),
                }
            }),
    {
        let key = window_key(session_name.as_str(), window_name.as_str());
        match self.find_window(&key) {
            None => Err(not_found_err(&key)),
            Some(i) => Ok(self.windows[i].1.has_child),
        }
    }

    /// Record a stop after the child was killed: the window is `exited` at the
    /// given time under SIGTERM, and every handle is dropped.
    pub fn stop_window_finish(&mut self, session_name: &String, window_name: &String, now: i64) -> (r:
        Result<(), String>)
        requires
            state_wf(*old(self)),
        ensures
            state_wf(*final(self)),
            ({
                let k = spec_window_key(session_name@, window_name@);
                match spec_window(*old(self), k) {
                    None => *final(self) == *old(self) && (match r {
                        Err(e) => e@ == not_found_msg(k),
                        _ => false,
                    }),
                    Some(prev) => {
                        &&& r is Ok
                        &&& window_updated(*old(self), *final(self), k)
                        &&& (match spec_window(*final(self), k) {
                            Some(nr) => {
                                &&& nr.snapshot.status == WindowStatus::Exited
                                &&& nr.snapshot.exited_at == Some(now)
                                &&& (match nr.snapshot.signal {
                                    Some(sg) => sg@ == ("SIGTERM")@,
                                    None => false,
                                })
                                &&& nr.snapshot.pid == prev.snapshot.pid
                                &&& nr.snapshot.started_at == prev.snapshot.started_at
                                &&& nr.snapshot.session_name@ == prev.snapshot.session_name@
                                &&& nr.snapshot.window_name@ == prev.snapshot.window_name@
                                &&& nr.snapshot.cols == prev.snapshot.cols
                                &&& nr.snapshot.rows == prev.snapshot.rows
                                &&& nr.buffer == prev.buffer
                                &&& !nr.has_writer
                                &&& !nr.has_master
                                &&& !nr.has_child
                            },
                            None => false,
                        })
                    },
                }
            }),
    {
        let key = window_key(session_name.as_str(), window_name.as_str());
        match self.find_window(&key) {
            None => Err(not_found_err(&key)),
            Some(i) => {
                let ghost pre = self.windows@;
                proof {
                    lemma_assoc_found(pre, pre[i as int].0@, i as int);
                }
                let mut entry = (String::new(), placeholder_record());
                self.windows.set_and_swap(i, &mut entry);
                entry.1.snapshot.status = WindowStatus::Exited;
                entry.1.snapshot.exited_at = Some(now);
                entry.1.snapshot.signal = Some(String::from_str("SIGTERM"));
                entry.1.has_writer = false;
                entry.1.has_master = false;
                entry.1.has_child = false;
                self.windows.set_and_swap(i, &mut entry);
                proof {
                    lemma_window_frame(pre, self.windows@, i as int, pre[i as int].0@);
                }
                Ok(())
            },
        }
    }

    /// The raw captured bytes of a window.
    pub fn window_buffer(&self, session_name: &String, window_name: &String) -> (r: Result<
        Vec<u8>,
        String,
    >)
        ensures
            ({
                let k = spec_window_key(session_name@, window_name@);
                match spec_window(*self, k) {
                    None => (match r {
                        Err(e) => e@ == not_found_msg(k),
                        _ => false,
                    }),
                    Some(rec) => (match r {
                        Ok(b) => b@ == rec.buffer@,
                        _ => false,
                    }),
                }
            }),
    {
        let key = window_key(session_name.as_str(), window_name.as_str());
        match self.find_window(&key) {
            None => Err(not_found_err(&key)),
            Some(i) => {
                let mut out: Vec<u8> = Vec::new();
                push_bytes(&mut out, &self.windows[i].1.buffer);
                proof {
                    assert(out@ =~= self.windows@[i as int].1.buffer@);
                }
                Ok(out)
            },
        }
    }

    /// A window's current dimensions.
    pub fn window_dims(&self, session_name: &String, window_name: &String) -> (r: Result<
        (u16, u16),
        String,
    >)
        ensures
            ({
                let k = spec_window_key(session_name@, window_name@);
                match spec_window(*self, k) {
                    None => (match r {
                        Err(e) => e@ == not_found_msg(k),
                        _ => false,
                    }),
                    Some(rec) => r == Ok::<(u16, u16), String>(
                        (rec.snapshot.cols, rec.snapshot.rows),
                    ),
                }
            }),
    {
        let key = window_key(session_name.as_str(), window_name.as_str());
        match self.find_window(&key) {
            None => Err(not_found_err(&key)),
            Some(i) => Ok((self.windows[i].1.snapshot.cols, self.windows[i].1.snapshot.rows)),
        }
    }

    /// Append what the reader took from the PTY: the buffer grows by the data
    /// and is cut to the cap from the front, so it always ends within the cap.
    pub fn append_window_output(&mut self, key: &String, data: &Vec<u8>) -> (r: Result<(), String>)
        requires
            state_wf(*old(self)),
        ensures
            state_wf(*final(self)),
            spec_window(*old(self), key@) is None ==> (*final(self) == *old(self) && (match r {
                Err(e) => e@ == not_found_msg(key@),
                _ => false,
            })),
            match spec_window(*old(self), key@) {
                Some(prev) => {
                    &&& r is Ok
                    &&& window_updated(*old(self), *final(self), key@)
                    &&& (match spec_window(*final(self), key@) {
                        Some(nr) => {
                            &&& nr.snapshot == prev.snapshot
                            &&& nr.buffer@ == trim_to_cap(
                                prev.buffer@ + data@,
                                old(self).max_buffer_bytes as int,
                            )
                            &&& nr.buffer@.len() <= old(self).max_buffer_bytes
                            &&& nr.has_writer == prev.has_writer
                            &&& nr.has_master == prev.has_master
                            &&& nr.has_child == prev.has_child
                        },
                        None => false,
                    })
                },
                None => true,
            },
    {
        let found = self.find_window(key);
        match found {
            None => Err(not_found_err(key)),
            Some(i) => {
                let ghost pre = self.windows@;
                let cap = self.max_buffer_bytes;
                let mut entry = (String::new(), placeholder_record());
                self.windows.set_and_swap(i, &mut entry);
                push_bytes(&mut entry.1.buffer, data);
                if entry.1.buffer.len() > cap {
                    let keep_from = entry.1.buffer.len() - cap;
                    let tail = entry.1.buffer.split_off(keep_from);
                    entry.1.buffer = tail;
                }
                self.windows.set_and_swap(i, &mut entry);
                proof {
                    lemma_window_frame(pre, self.windows@, i as int, pre[i as int].0@);
                }
                Ok(())
            },
        }
    }

    /// What the reader records at end of file: a window still starting or
    /// running has exited now; a window already stopped keeps its record.
    pub fn window_eof(&mut self, key: &String, now: i64) -> (r: Result<(), String>)
        requires
            state_wf(*old(self)),
        ensures
            state_wf(*final(self)),
            spec_window(*old(self), key@) is None ==> (*final(self) == *old(self) && r is Err),
            match spec_window(*old(self), key@) {
                Some(prev) => {
                    &&& r is Ok
                    &&& window_updated(*old(self), *final(self), key@)
                    &&& (match spec_window(*final(self), key@) {
                        Some(nr) => {
                            if prev.snapshot.status == WindowStatus::Running
                                || prev.snapshot.status == WindowStatus::Starting {
                                &&& nr.snapshot == (WindowSnapshot {
                                    status: WindowStatus::Exited,
                                    exited_at: Some(now),
                                    ..prev.snapshot
                                })
                                &&& nr.buffer == prev.buffer
                                &&& nr.has_writer == prev.has_writer
                                &&& nr.has_master == prev.has_master
                                &&& nr.has_child == prev.has_child
                            } else {
                                nr == prev
                            }
                        },
                        None => false,
                    })
                },
                None => true,
            },
    {
        let found = self.find_window(key);
        match found {
            None => Err(not_found_err(key)),
            Some(i) => {
                let ghost pre = self.windows@;
                let running = matches!(
                    self.windows[i].1.snapshot.status,
                    WindowStatus::Running | WindowStatus::Starting,
                );
                if running {
                    let mut entry = (String::new(), placeholder_record());
                    self.windows.set_and_swap(i, &mut entry);
                    entry.1.snapshot.status = WindowStatus::Exited;
                    entry.1.snapshot.exited_at = Some(now);
                    self.windows.set_and_swap(i, &mut entry);
                    proof {
                        lemma_window_frame(pre, self.windows@, i as int, pre[i as int].0@);
                    }
                } else {
                    proof {
                        lemma_window_frame(pre, self.windows@, i as int, pre[i as int].0@);
                    }
                }
                Ok(())
            },
        }
    }

    /// What the reader records on a read error: the window is in `error`, with
    /// the time of failure.
    pub fn window_read_error(&mut self, key: &String, now: i64) -> (r: Result<(), String>)
        requires
            state_wf(*old(self)),
        ensures
            state_wf(*final(self)),
            spec_window(*old(self), key@) is None ==> (*final(self) == *old(self) && r is Err),
            match spec_window(*old(self), key@) {
                Some(prev) => {
                    &&& r is Ok
                    &&& window_updated(*old(self), *final(self), key@)
                    &&& (match spec_window(*final(self), key@) {
                        Some(nr) => {
                            &&& nr.snapshot == (WindowSnapshot {
                                status: WindowStatus::Error,
                                exited_at: Some(now),
                                ..prev.snapshot
                            })
                            &&& nr.buffer == prev.buffer
                            &&& nr.has_writer == prev.has_writer
                            &&& nr.has_master == prev.has_master
                            &&& nr.has_child == prev.has_child
                        },
                        None => false,
                    })
                },
                None => true,
            },
    {
        let found = self.find_window(key);
        match found {
            None => Err(not_found_err(key)),
            Some(i) => {
                let ghost pre = self.windows@;
                let mut entry = (String::new(), placeholder_record());
                self.windows.set_and_swap(i, &mut entry);
                entry.1.snapshot.status = WindowStatus::Error;
                entry.1.snapshot.exited_at = Some(now);
                self.windows.set_and_swap(i, &mut entry);
                proof {
                    lemma_window_frame(pre, self.windows@, i as int, pre[i as int].0@);
                }
                Ok(())
            },
        }
    }
}

/// The snapshots of the windows from entry `i` on that pass the session
/// filter, in registry order.
pub open spec fn snaps_from(
    ws: Seq<(String, WindowRecord)>,
    f: Option<Seq<char>>,
    i: int,
) -> Seq<WindowSnapshot>
    decreases ws.len() - i
    when 0 <= i <= ws.len()
{
    if i >= ws.len() {
        Seq::<WindowSnapshot>::empty()
    } else if matches_filter(ws[i].1.snapshot, f) {
        seq![ws[i].1.snapshot] + snaps_from(ws, f, i + 1)
    } else {
        snaps_from(ws, f, i + 1)
    }
}

/// Whether a snapshot passes a session filter: always without one, and by the
/// session name with one.
pub open spec fn matches_filter(s: WindowSnapshot, f: Option<Seq<char>>) -> bool {
    match f {
        None => true,
        Some(x) => s.session_name@ == x,
    }
}

/// A listing holds only snapshots that pass the filter, and it holds the
/// snapshot of every window that passes it: exactly those with the session
/// name asked for.
pub proof fn lemma_list_windows_exact(ws: Seq<(String, WindowRecord)>, f: Option<Seq<char>>, i: int)
    requires
        0 <= i <= ws.len(),
    ensures
        forall|k: int|
            0 <= k < snaps_from(ws, f, i).len() ==> matches_filter(
                #[trigger] snaps_from(ws, f, i)[k],
                f,
            ),
        forall|j: int|
            i <= j < ws.len() && matches_filter((#[trigger] ws[j]).1.snapshot, f) ==> snaps_from(
                ws,
                f,
                i,
            ).contains(ws[j].1.snapshot),
    decreases ws.len() - i,
{
    if i < ws.len() {
        lemma_list_windows_exact(ws, f, i + 1);
        let rest = snaps_from(ws, f, i + 1);
        let whole = snaps_from(ws, f, i);
        if matches_filter(ws[i].1.snapshot, f) {
            assert(whole[0] == ws[i].1.snapshot);
            assert(whole.contains(ws[i].1.snapshot));
            assert forall|j: int|
                i + 1 <= j < ws.len() && matches_filter(
                    (#[trigger] ws[j]).1.snapshot,
                    f,
                ) implies whole.contains(ws[j].1.snapshot) by {
                let idx = choose|idx: int|
                    0 <= idx < rest.len() && rest[idx] == ws[j].1.snapshot;
                assert(whole[idx + 1] == ws[j].1.snapshot);
            }
        } else {
            assert forall|j: int|
                i <= j < ws.len() && matches_filter(
                    (#[trigger] ws[j]).1.snapshot,
                    f,
                ) implies whole.contains(ws[j].1.snapshot) by {
                if j > i {
                    let idx = choose|idx: int|
                        0 <= idx < rest.len() && rest[idx] == ws[j].1.snapshot;
                    assert(whole[idx] == ws[j].1.snapshot);
                }
            }
        }
    }
}

impl SidecarState {
    /// List the windows' snapshots, in registry order: exactly those whose
    /// session name equals the filter, or all of them without one.
    #[verifier::loop_isolation(false)]
    pub fn list_windows(&self, session_filter: &Option<String>) -> (r: Vec<WindowSnapshot>)
        ensures
            r@ == snaps_from(
                self.windows@,
                (match session_filter {
                    Some(f) => Some(f@),
                    None => None,
                }),
                0,
            ),
    {
        let ghost f = match session_filter {
            Some(f) => Some(f@),
            None => None,
        };
        let mut r: Vec<WindowSnapshot> = Vec::new();
        let mut i: usize = 0;
        proof {
            assert(r@ + snaps_from(self.windows@, f, 0) =~= snaps_from(self.windows@, f, 0));
        }
        while i < self.windows.len()
            invariant
                i <= self.windows@.len(),
                snaps_from(self.windows@, f, 0) == r@ + snaps_from(self.windows@, f, i as int),
            decreases self.windows@.len() - i,
        {
            let keep = match session_filter {
                None => true,
                Some(fname) => self.windows[i].1.snapshot.session_name == *fname,
            };
            if keep {
                r.push(self.windows[i].1.snapshot.duplicate());
                proof {
                    assert(matches_filter(self.windows@[i as int].1.snapshot, f) == (
                    match f {
                        Some(x) => self.windows@[i as int].1.snapshot.session_name@ == x,
                        None => true,
                    }));
                    assert(r@ + snaps_from(self.windows@, f, i + 1) =~= r@.drop_last() + (seq![
                        self.windows@[i as int].1.snapshot,
                    ] + snaps_from(self.windows@, f, i + 1)));
                }
            } else {
                proof {
                    assert(!matches_filter(self.windows@[i as int].1.snapshot, f));
                }
            }
            i = i + 1;
        }
        proof {
            assert(snaps_from(self.windows@, f, self.windows@.len() as int)
                =~= Seq::<WindowSnapshot>::empty());
            assert(r@ + snaps_from(self.windows@, f, self.windows@.len() as int) =~= r@);
        }
        r
    }

    /// Tear everything down: every window is `exited` at the given time and
    /// every handle is dropped; names, buffers and timers otherwise stand.
    #[verifier::loop_isolation(false)]
    pub fn dispose_all(&mut self, now: i64)
        requires
            state_wf(*old(self)),
        ensures
            state_wf(*final(self)),
            final(self).sessions == old(self).sessions,
            final(self).max_buffer_bytes == old(self).max_buffer_bytes,
            final(self).windows@.len() == old(self).windows@.len(),
            forall|i: int|
                0 <= i < old(self).windows@.len() ==> {
                    let prev = (#[trigger] old(self).windows@[i]).1;
                    let nr = final(self).windows@[i].1;
                    &&& final(self).windows@[i].0 == old(self).windows@[i].0
                    &&& nr.snapshot == (WindowSnapshot {
                        status: WindowStatus::Exited,
                        exited_at: Some(now),
                        ..prev.snapshot
                    })
                    &&& nr.buffer == prev.buffer
                    &&& !nr.has_writer
                    &&& !nr.has_master
                    &&& !nr.has_child
                },
    {
        let ghost pre = self.windows@;
        let mut i: usize = 0;
        while i < self.windows.len()
            invariant
                i <= self.windows@.len(),
                self.sessions == old(self).sessions,
                self.max_buffer_bytes == old(self).max_buffer_bytes,
                self.windows@.len() == pre.len(),
                forall|j: int|
                    (i as int) <= j < pre.len() ==> #[trigger] self.windows@[j] == pre[j],
                forall|j: int|
                    0 <= j < (i as int) ==> {
                        let prev = (#[trigger] pre[j]).1;
                        let nr = self.windows@[j].1;
                        &&& self.windows@[j].0 == pre[j].0
                        &&& nr.snapshot == (WindowSnapshot {
                            status: WindowStatus::Exited,
                            exited_at: Some(now),
                            ..prev.snapshot
                        })
                        &&& nr.buffer == prev.buffer
                        &&& !nr.has_writer
                        &&& !nr.has_master
                        &&& !nr.has_child
                    },
            decreases self.windows@.len() - i,
        {
            let mut entry = (String::new(), placeholder_record());
            self.windows.set_and_swap(i, &mut entry);
            entry.1.snapshot.status = WindowStatus::Exited;
            entry.1.snapshot.exited_at = Some(now);
            entry.1.has_writer = false;
            entry.1.has_master = false;
            entry.1.has_child = false;
            self.windows.set_and_swap(i, &mut entry);
            i = i + 1;
        }
        proof {
            assert forall|a: int, b: int|
                0 <= a < b < self.windows@.len() implies (#[trigger] self.windows@[a]).0@ != (
            #[trigger] self.windows@[b]).0@ by {
                assert(self.windows@[a].0 == pre[a].0);
                assert(self.windows@[b].0 == pre[b].0);
                assert(pre[a].0@ != pre[b].0@);
            }
        }
    }
}

/// The environment snapshot a launch takes reads each key exactly as the
/// session's map does: setting a variable and then starting a window hands the
/// child the latest value for that key.
pub proof fn lemma_launch_env_latest(
    st: SidecarState,
    env: Vec<(String, String)>,
    session: Seq<char>,
    key: Seq<char>,
    v: Seq<char>,
)
    requires
        spec_env_val(st, session, key) == Some(v),
        (match assoc_get(st.sessions@, session) {
            Some(e) => env@ == e@,
            None => false,
        }),
    ensures
        (match assoc_get(env@, key) {
            Some(val) => val@ == v,
            None => false,
        }),
{
}

} // verus!
