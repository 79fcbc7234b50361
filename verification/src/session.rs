//! The registry of Codex session tabs: what each session is and how its
//! status moves when it is attached, closed, or exits.

use vstd::prelude::*;

use crate::models::{CloseMode, SessionMetadata, SessionMetadataView, SessionStatus, SessionStatusEvent};
use crate::text::{concat_str, decimal, decimal_string, str_eq, text_le, text_less, text_lt};
use crate::text::{lemma_text_le_total, lemma_text_le_trans};

verus! {

broadcast use vstd::string::group_string_axioms;

// ---------------------------------------------------------------------------
// The model
// ---------------------------------------------------------------------------

/// The sessions of a sequence of entries, by id; a later entry replaces an
/// earlier one with the same id.
pub open spec fn map_of(s: Seq<SessionMetadataView>) -> Map<Seq<char>, SessionMetadataView>
    decreases s.len(),
{
    if s.len() == 0 {
        Map::empty()
    } else {
        map_of(s.drop_last()).insert(s.last().id, s.last())
    }
}

/// No two entries share an id.
pub open spec fn ids_distinct(s: Seq<SessionMetadataView>) -> bool {
    forall|i: int, j: int|
        0 <= i < s.len() && 0 <= j < s.len() && i != j ==> #[trigger] s[i].id != #[trigger] s[j].id
}

/// The entries are in order of their titles.
pub open spec fn sorted_by_title(s: Seq<SessionMetadataView>) -> bool {
    forall|a: int, b: int| 0 <= a < b < s.len() ==> text_le(#[trigger] s[a].title, #[trigger] s[b].title)
}

/// Input and resizing reach a session only while it is attached to a live
/// terminal.
pub open spec fn is_live(m: SessionMetadataView) -> bool {
    m.status != SessionStatus::Detached && m.reconnectable
}

/// A session after it is attached: running again where its terminal is still
/// there, detached otherwise.
pub open spec fn attached(m: SessionMetadataView) -> SessionMetadataView {
    SessionMetadataView {
        status: if m.reconnectable {
            SessionStatus::Running
        } else {
            SessionStatus::Detached
        },
        ..m
    }
}

/// A session after its tab is closed.
pub open spec fn closed(m: SessionMetadataView, mode: CloseMode) -> SessionMetadataView {
    match mode {
        CloseMode::Detach => SessionMetadataView {
            status: SessionStatus::Detached,
            reconnectable: false,
            ..m
        },
        CloseMode::Terminate => SessionMetadataView {
            status: SessionStatus::Exited,
            exit_code: Some(-1i32),
            reconnectable: false,
            ..m
        },
    }
}

/// A session after its process exited with `code`.
pub open spec fn exited(m: SessionMetadataView, code: i32) -> SessionMetadataView {
    SessionMetadataView {
        status: SessionStatus::Exited,
        exit_code: Some(code),
        reconnectable: false,
        pid: None,
        ..m
    }
}

/// `pid` names a process that was found alive.
pub open spec fn pid_alive(pid: Option<u32>, live_pids: Seq<u32>) -> bool {
    match pid {
        Some(p) => live_pids.contains(p),
        None => false,
    }
}

/// A stored session as it is restored when the overlay starts again: its
/// terminal is gone, so it is detached where its process still runs and
/// exited (with code -1 if none was known) where it does not.
pub open spec fn restored(m: SessionMetadataView, alive: bool) -> SessionMetadataView {
    if alive {
        SessionMetadataView { status: SessionStatus::Detached, reconnectable: false, ..m }
    } else {
        SessionMetadataView {
            status: SessionStatus::Exited,
            pid: None,
            exit_code: if m.exit_code is Some {
                m.exit_code
            } else {
                Some(-1i32)
            },
            reconnectable: false,
            ..m
        }
    }
}

/// The sessions restored from a stored list, by id; a later entry replaces
/// an earlier one with the same id.
pub open spec fn restored_map(s: Seq<SessionMetadataView>, live_pids: Seq<u32>) -> Map<
    Seq<char>,
    SessionMetadataView,
>
    decreases s.len(),
{
    if s.len() == 0 {
        Map::empty()
    } else {
        restored_map(s.drop_last(), live_pids).insert(
            s.last().id,
            restored(s.last(), pid_alive(s.last().pid, live_pids)),
        )
    }
}

/// The views of a sequence of sessions.
pub open spec fn views(s: Seq<SessionMetadata>) -> Seq<SessionMetadataView> {
    s.map_values(|m: SessionMetadata| m@)
}

/// `"Codex "`.
pub open spec fn default_title_prefix() -> Seq<char> {
    seq!['C', 'o', 'd', 'e', 'x', ' ']
}

/// The title a new session gets when none is given: `"Codex {n}"` with `n`
/// one more than the number of sessions before it.
pub open spec fn default_title(count: nat) -> Seq<char> {
    default_title_prefix() + decimal(count + 1)
}

/// `"ConPTY"`.
pub open spec fn conpty() -> Seq<char> {
    seq!['C', 'o', 'n', 'P', 'T', 'Y']
}

/// A session as it is registered when its terminal has just been opened.
pub open spec fn new_session(
    id: Seq<char>,
    title: Seq<char>,
    cwd: Seq<char>,
    codex_command: Seq<char>,
    pid: Option<u32>,
) -> SessionMetadataView {
    SessionMetadataView {
        id,
        title,
        cwd,
        shell: conpty(),
        codex_command,
        status: SessionStatus::Running,
        persist_on_close: true,
        pid,
        exit_code: None,
        reconnectable: true,
    }
}

/// A lower-case hexadecimal digit.
pub open spec fn is_lower_hex(c: char) -> bool {
    ('0' <= c && c <= '9') || ('a' <= c && c <= 'f')
}

/// The hyphenated lower-case text of a random (version 4) UUID:
/// `xxxxxxxx-xxxx-4xxx-yxxx-xxxxxxxxxxxx` with `y` one of `8 9 a b`.
pub open spec fn is_v4_uuid_text(s: Seq<char>) -> bool {
    &&& s.len() == 36
    &&& forall|i: int|
        0 <= i < 36 ==> if i == 8 || i == 13 || i == 18 || i == 23 {
            #[trigger] s[i] == '-'
        } else {
            is_lower_hex(s[i])
        }
    &&& s[14] == '4'
    &&& (s[19] == '8' || s[19] == '9' || s[19] == 'a' || s[19] == 'b')
}

/// A fresh session id: `uuid::Uuid::new_v4()` printed by `to_string`, which
/// writes the UUID hyphenated in lower case. `new_v4` draws the bits at
/// random and then sets the version nibble to 4 and the variant bits to
/// `10`; which UUID comes out is left open.
#[verifier::external_body]
fn new_session_id() -> (id: String)
    ensures
        is_v4_uuid_text(id@),
{
    uuid::Uuid::new_v4().to_string()
}

// ---------------------------------------------------------------------------
// Errors
// ---------------------------------------------------------------------------

/// Why a request on a session was refused; each carries the session id.
#[derive(Debug)]
pub enum SessionError {
    NotFound(String),
    NotAttachable(String),
}

/// `"session not found: "`.
pub open spec fn not_found_prefix() -> Seq<char> {
    seq!['s', 'e', 's', 's', 'i', 'o', 'n', ' ', 'n', 'o', 't', ' ', 'f', 'o', 'u', 'n', 'd', ':', ' ']
}

/// `"session "`.
pub open spec fn session_prefix() -> Seq<char> {
    seq!['s', 'e', 's', 's', 'i', 'o', 'n', ' ']
}

/// `" is not currently attachable"`.
pub open spec fn not_attachable_suffix() -> Seq<char> {
    seq![
        ' ', 'i', 's', ' ', 'n', 'o', 't', ' ', 'c', 'u', 'r', 'r', 'e', 'n', 't', 'l', 'y', ' ',
        'a', 't', 't', 'a', 'c', 'h', 'a', 'b', 'l', 'e',
    ]
}

impl SessionError {
    /// The message shown for the error.
    pub open spec fn message_spec(&self) -> Seq<char> {
        match self {
            SessionError::NotFound(id) => not_found_prefix() + id@,
            SessionError::NotAttachable(id) => session_prefix() + id@ + not_attachable_suffix(),
        }
    }

    /// The message shown for the error.
    pub fn message(&self) -> (r: String)
        ensures
            r@ == self.message_spec(),
    {
        match self {
            SessionError::NotFound(id) => {
                let prefix = "session not found: ";
                proof {
                    reveal_strlit("session not found: ");
                    assert(prefix@ =~= not_found_prefix());
                }
                concat_str(prefix, id.as_str())
            },
            SessionError::NotAttachable(id) => {
                let prefix = "session ";
                let suffix = " is not currently attachable";
                proof {
                    reveal_strlit("session ");
                    reveal_strlit(" is not currently attachable");
                    assert(prefix@ =~= session_prefix());
                    assert(suffix@ =~= not_attachable_suffix());
                }
                let head = concat_str(prefix, id.as_str());
                concat_str(head.as_str(), suffix)
            },
        }
    }
}

// ---------------------------------------------------------------------------
// Lemmas on the model
// ---------------------------------------------------------------------------

proof fn lemma_map_of(s: Seq<SessionMetadataView>)
    requires
        ids_distinct(s),
    ensures
        forall|k: Seq<char>|
            #[trigger] map_of(s).contains_key(k) <==> exists|i: int|
                0 <= i < s.len() && s[i].id == k,
        forall|i: int| 0 <= i < s.len() ==> map_of(s)[#[trigger] s[i].id] == s[i],
        map_of(s).dom().finite(),
        map_of(s).dom().len() == s.len(),
    decreases s.len(),
{
    if s.len() > 0 {
        let t = s.drop_last();
        assert(ids_distinct(t)) by {
            assert forall|i: int, j: int|
                0 <= i < t.len() && 0 <= j < t.len() && i != j implies #[trigger] t[i].id
                != #[trigger] t[j].id by {
                assert(t[i] == s[i] && t[j] == s[j]);
            }
        }
        lemma_map_of(t);
        let last = s.last();
        assert(!map_of(t).contains_key(last.id)) by {
            if map_of(t).contains_key(last.id) {
                let i = choose|i: int| 0 <= i < t.len() && t[i].id == last.id;
                assert(s[i].id == s[s.len() - 1].id);
            }
        }
        assert forall|k: Seq<char>|
            #[trigger] map_of(s).contains_key(k) <==> exists|i: int|
                0 <= i < s.len() && s[i].id == k by {
            if map_of(s).contains_key(k) && k != last.id {
                let i = choose|i: int| 0 <= i < t.len() && t[i].id == k;
                assert(s[i].id == k);
            }
            if exists|i: int| 0 <= i < s.len() && s[i].id == k {
                let i = choose|i: int| 0 <= i < s.len() && s[i].id == k;
                if i < s.len() - 1 {
                    assert(t[i].id == k);
                }
            }
        }
        assert forall|i: int| 0 <= i < s.len() implies map_of(s)[#[trigger] s[i].id] == s[i] by {
            if i < s.len() - 1 {
                assert(t[i] == s[i]);
                assert(s[i].id != last.id);
            }
        }
    }
}

proof fn lemma_map_of_push(s: Seq<SessionMetadataView>, v: SessionMetadataView)
    ensures
        map_of(s.push(v)) == map_of(s).insert(v.id, v),
{
    assert(s.push(v).drop_last() =~= s);
}

proof fn lemma_map_of_update(s: Seq<SessionMetadataView>, i: int, v: SessionMetadataView)
    requires
        ids_distinct(s),
        0 <= i < s.len(),
        v.id == s[i].id,
    ensures
        ids_distinct(s.update(i, v)),
        map_of(s.update(i, v)) == map_of(s).insert(v.id, v),
{
    let s2 = s.update(i, v);
    assert(ids_distinct(s2)) by {
        assert forall|a: int, b: int|
            0 <= a < s2.len() && 0 <= b < s2.len() && a != b implies #[trigger] s2[a].id
            != #[trigger] s2[b].id by {
            assert(s2[a].id == s[a].id && s2[b].id == s[b].id);
        }
    }
    lemma_map_of(s);
    lemma_map_of(s2);
    let m1 = map_of(s).insert(v.id, v);
    let m2 = map_of(s2);
    assert forall|k: Seq<char>| #[trigger] m2.contains_key(k) == m1.contains_key(k) by {
        if m2.contains_key(k) {
            let j = choose|j: int| 0 <= j < s2.len() && s2[j].id == k;
            if j == i {
                assert(k == v.id);
            } else {
                assert(s[j] == s2[j]);
                assert(map_of(s).contains_key(s[j].id));
            }
        }
        if m1.contains_key(k) {
            if k == v.id {
                assert(s2[i].id == k);
                assert(m2.contains_key(s2[i].id));
            } else {
                let j = choose|j: int| 0 <= j < s.len() && s[j].id == k;
                assert(j != i);
                assert(s2[j] == s[j]);
                assert(m2.contains_key(s2[j].id));
            }
        }
    }
    assert forall|k: Seq<char>| m2.contains_key(k) implies m2[k] == m1[k] by {
        let j = choose|j: int| 0 <= j < s2.len() && s2[j].id == k;
        assert(m2[s2[j].id] == s2[j]);
        if j != i {
            assert(s[j].id == k);
            assert(map_of(s)[s[j].id] == s[j]);
        }
    }
    assert(m2 =~= m1);
}

proof fn lemma_views_update(s: Seq<SessionMetadata>, i: int, m: SessionMetadata)
    requires
        0 <= i < s.len(),
    ensures
        views(s.update(i, m)) == views(s).update(i, m@),
{
    assert(views(s.update(i, m)) =~= views(s).update(i, m@));
}

proof fn lemma_views_push(s: Seq<SessionMetadata>, m: SessionMetadata)
    ensures
        views(s.push(m)) == views(s).push(m@),
{
    assert(views(s.push(m)) =~= views(s).push(m@));
}

// ---------------------------------------------------------------------------
// The registry
// ---------------------------------------------------------------------------

/// The session tabs of the overlay, by id.
pub struct SessionManager {
    sessions: Vec<SessionMetadata>,
}

impl View for SessionManager {
    type V = Map<Seq<char>, SessionMetadataView>;

    closed spec fn view(&self) -> Map<Seq<char>, SessionMetadataView> {
        map_of(views(self.sessions@))
    }
}

impl SessionManager {
    /// The registry's invariant: no two entries share an id.
    pub closed spec fn wf(&self) -> bool {
        ids_distinct(views(self.sessions@))
    }

    /// A well-formed registry holds finitely many sessions.
    pub proof fn lemma_finite(&self)
        requires
            self.wf(),
        ensures
            self@.dom().finite(),
    {
        lemma_map_of(views(self.sessions@));
    }

    /// Every session is stored under its own id.
    pub proof fn lemma_keys(&self)
        requires
            self.wf(),
        ensures
            forall|k: Seq<char>| #[trigger] self@.contains_key(k) ==> self@[k].id == k,
    {
        let src = views(self.sessions@);
        lemma_map_of(src);
        assert forall|k: Seq<char>| #[trigger] self@.contains_key(k) implies self@[k].id == k by {
            let i = choose|i: int| 0 <= i < src.len() && src[i].id == k;
            assert(map_of(src)[src[i].id] == src[i]);
        }
    }

    /// An empty registry.
    pub fn new() -> (r: Self)
        ensures
            r.wf(),
            r@ == Map::<Seq<char>, SessionMetadataView>::empty(),
    {
        SessionManager { sessions: Vec::new() }
    }

    /// The number of sessions.
    pub fn len(&self) -> (n: usize)
        requires
            self.wf(),
        ensures
            self@.dom().finite(),
            n == self@.dom().len(),
    {
        proof {
            lemma_map_of(views(self.sessions@));
        }
        self.sessions.len()
    }

    /// The position of the entry with the given id.
    fn find(&self, id: &str) -> (r: Option<usize>)
        requires
            self.wf(),
        ensures
            match r {
                Some(i) => {
                    &&& i < self.sessions@.len()
                    &&& self.sessions@[i as int].id@ == id@
                    &&& self@.contains_key(id@)
                    &&& self@[id@] == self.sessions@[i as int]@
                },
                None => !self@.contains_key(id@),
            },
    {
        proof {
            lemma_map_of(views(self.sessions@));
        }
        let mut i: usize = 0;
        while i < self.sessions.len()
            invariant
                self.wf(),
                i <= self.sessions@.len(),
                forall|j: int| 0 <= j < i ==> (#[trigger] self.sessions@[j]).id@ != id@,
            decreases self.sessions@.len() - i,
        {
            if str_eq(self.sessions[i].id.as_str(), id) {
                proof {
                    let src = views(self.sessions@);
                    lemma_map_of(src);
                    assert(src[i as int] == self.sessions@[i as int]@);
                    assert(map_of(src)[src[i as int].id] == src[i as int]);
                }
                return Some(i);
            }
            i += 1;
        }
        proof {
            lemma_map_of(views(self.sessions@));
            if self@.contains_key(id@) {
                let j = choose|j: int|
                    0 <= j < views(self.sessions@).len() && views(self.sessions@)[j].id == id@;
                assert(self.sessions@[j].id@ == id@);
            }
        }
        None
    }

    /// Replaces the entry at `i` by `m`, which has the same id.
    fn replace_at(&mut self, i: usize, m: SessionMetadata)
        requires
            old(self).wf(),
            i < old(self).sessions@.len(),
            m.id@ == old(self).sessions@[i as int].id@,
        ensures
            final(self).wf(),
            final(self)@ == old(self)@.insert(m.id@, m@),
    {
        proof {
            lemma_views_update(self.sessions@, i as int, m);
            lemma_map_of_update(views(self.sessions@), i as int, m@);
        }
        self.sessions.set(i, m);
    }

    /// Adds `m`, replacing the entry with the same id if there is one.
    fn insert_entry(&mut self, m: SessionMetadata)
        requires
            old(self).wf(),
        ensures
            final(self).wf(),
            final(self)@ == old(self)@.insert(m.id@, m@),
    {
        match self.find(m.id.as_str()) {
            Some(i) => {
                self.replace_at(i, m);
            },
            None => {
                proof {
                    lemma_map_of(views(self.sessions@));
                    lemma_views_push(self.sessions@, m);
                    lemma_map_of_push(views(self.sessions@), m@);
                    let s2 = views(self.sessions@).push(m@);
                    assert forall|a: int, b: int|
                        0 <= a < s2.len() && 0 <= b < s2.len() && a != b implies #[trigger] s2[a].id
                        != #[trigger] s2[b].id by {
                        if a == s2.len() - 1 {
                            assert(views(self.sessions@)[b].id == s2[b].id);
                        } else if b == s2.len() - 1 {
                            assert(views(self.sessions@)[a].id == s2[a].id);
                        } else {
                            assert(views(self.sessions@)[a] == s2[a]);
                            assert(views(self.sessions@)[b] == s2[b]);
                        }
                    }
                }
                self.sessions.push(m);
            },
        }
    }

    /// The registry restored from a stored list of sessions, given the pids
    /// of the processes that were found alive. Every restored session is
    /// detached from any terminal (see `restored`).
    pub fn from_snapshot(snapshot: &[SessionMetadata], live_pids: &[u32]) -> (r: Self)
        ensures
            r.wf(),
            r@ == restored_map(views(snapshot@), live_pids@),
    {
        let mut r = SessionManager::new();
        let mut i: usize = 0;
        while i < snapshot.len()
            invariant
                i <= snapshot@.len(),
                r.wf(),
                r@ == restored_map(views(snapshot@.take(i as int)), live_pids@),
            decreases snapshot@.len() - i,
        {
            let item = &snapshot[i];
            let alive = match item.pid {
                Some(p) => contains_pid(live_pids, p),
                None => false,
            };
            let mut stale = item.clone();
            if alive {
                stale.status = SessionStatus::Detached;
            } else {
                stale.pid = None;
                stale.exit_code = match stale.exit_code {
                    Some(c) => Some(c),
                    None => Some(-1),
                };
                stale.status = SessionStatus::Exited;
            }
            stale.reconnectable = false;
            r.insert_entry(stale);
            proof {
                let t = views(snapshot@.take(i + 1));
                assert(t.drop_last() =~= views(snapshot@.take(i as int)));
                assert(t.last() == snapshot@[i as int]@);
            }
            i += 1;
        }
        assert(snapshot@.take(snapshot@.len() as int) =~= snapshot@);
        r
    }

    /// The session with the given id, or `NotFound`.
    pub fn get_session(&self, id: &str) -> (r: Result<SessionMetadata, SessionError>)
        requires
            self.wf(),
        ensures
            match r {
                Ok(m) => self@.contains_key(id@) && m@ == self@[id@] && m.id@ == id@,
                Err(e) => !self@.contains_key(id@) && (e matches SessionError::NotFound(x) && x@
                    == id@),
            },
    {
        match self.find(id) {
            Some(i) => Ok(self.sessions[i].clone()),
            None => Err(SessionError::NotFound(id.to_owned())),
        }
    }

    /// The session with the given id if it is live (see `is_live`): what input
    /// and resizing go through. `NotFound` if there is no such session,
    /// `NotAttachable` if it is not live.
    pub fn get_live_session(&self, id: &str) -> (r: Result<SessionMetadata, SessionError>)
        requires
            self.wf(),
        ensures
            match r {
                Ok(m) => self@.contains_key(id@) && is_live(self@[id@]) && m@ == self@[id@] && m.id@
                    == id@,
                Err(SessionError::NotFound(x)) => !self@.contains_key(id@) && x@ == id@,
                Err(SessionError::NotAttachable(x)) => self@.contains_key(id@) && !is_live(
                    self@[id@],
                ) && x@ == id@,
            },
    {
        let m = self.get_session(id)?;
        if m.status == SessionStatus::Detached || !m.reconnectable {
            return Err(SessionError::NotAttachable(id.to_owned()));
        }
        Ok(m)
    }

    /// Attaches the tab to its session: the session runs again where its
    /// terminal is still there and is detached otherwise (see `attached`).
    pub fn attach_session(&mut self, id: &str) -> (r: Result<SessionMetadata, SessionError>)
        requires
            old(self).wf(),
        ensures
            final(self).wf(),
            match r {
                Ok(m) => {
                    &&& old(self)@.contains_key(id@)
                    &&& m@ == attached(old(self)@[id@])
                    &&& m.id@ == id@
                    &&& final(self)@ == old(self)@.insert(id@, m@)
                },
                Err(e) => {
                    &&& !old(self)@.contains_key(id@)
                    &&& e matches SessionError::NotFound(x) && x@ == id@
                    &&& final(self)@ == old(self)@
                },
            },
    {
        match self.find(id) {
            Some(i) => {
                let mut m = self.sessions[i].clone();
                m.status = if m.reconnectable {
                    SessionStatus::Running
                } else {
                    SessionStatus::Detached
                };
                let out = m.clone();
                self.replace_at(i, m);
                Ok(out)
            },
            None => Err(SessionError::NotFound(id.to_owned())),
        }
    }

    /// The process that has to be ended before the tab is closed in `mode`:
    /// the session's pid when it is terminated, none when it is detached.
    /// `NotFound` if there is no such session.
    pub fn termination_target(&self, id: &str, mode: CloseMode) -> (r: Result<
        Option<u32>,
        SessionError,
    >)
        requires
            self.wf(),
        ensures
            match r {
                Ok(pid) => self@.contains_key(id@) && pid == match mode {
                    CloseMode::Terminate => self@[id@].pid,
                    CloseMode::Detach => None,
                },
                Err(e) => !self@.contains_key(id@) && (e matches SessionError::NotFound(x) && x@
                    == id@),
            },
    {
        let m = self.get_session(id)?;
        match mode {
            CloseMode::Terminate => Ok(m.pid),
            CloseMode::Detach => Ok(None),
        }
    }

    /// Closes the session's tab in `mode` (see `closed`); a process to end
    /// (see `termination_target`) has been ended before.
    pub fn close_session(&mut self, id: &str, mode: CloseMode) -> (r: Result<
        SessionMetadata,
        SessionError,
    >)
        requires
            old(self).wf(),
        ensures
            final(self).wf(),
            match r {
                Ok(m) => {
                    &&& old(self)@.contains_key(id@)
                    &&& m@ == closed(old(self)@[id@], mode)
                    &&& m.id@ == id@
                    &&& final(self)@ == old(self)@.insert(id@, m@)
                },
                Err(e) => {
                    &&& !old(self)@.contains_key(id@)
                    &&& e matches SessionError::NotFound(x) && x@ == id@
                    &&& final(self)@ == old(self)@
                },
            },
    {
        match self.find(id) {
            Some(i) => {
                let mut m = self.sessions[i].clone();
                match mode {
                    CloseMode::Detach => {
                        m.status = SessionStatus::Detached;
                        m.reconnectable = false;
                    },
                    CloseMode::Terminate => {
                        m.status = SessionStatus::Exited;
                        m.exit_code = Some(-1);
                        m.reconnectable = false;
                    },
                }
                let out = m.clone();
                self.replace_at(i, m);
                Ok(out)
            },
            None => Err(SessionError::NotFound(id.to_owned())),
        }
    }

    /// Records that the session's process exited with `exit_code` (see
    /// `exited`); nothing happens for an unknown id.
    pub fn mark_exited(&mut self, id: &str, exit_code: i32)
        requires
            old(self).wf(),
        ensures
            final(self).wf(),
            old(self)@.contains_key(id@) ==> final(self)@ == old(self)@.insert(
                id@,
                exited(old(self)@[id@], exit_code),
            ),
            !old(self)@.contains_key(id@) ==> final(self)@ == old(self)@,
    {
        match self.find(id) {
            Some(i) => {
                let mut m = self.sessions[i].clone();
                m.status = SessionStatus::Exited;
                m.exit_code = Some(exit_code);
                m.reconnectable = false;
                m.pid = None;
                self.replace_at(i, m);
            },
            None => {},
        }
    }

    /// Records the end of a session's process, whose exit status reported
    /// `exit_status` (`None` where waiting for it failed), and gives the
    /// status event to announce: the session is marked exited with that code
    /// taken as an `i32`, or -1 without one.
    pub fn record_exit(&mut self, id: &str, exit_status: Option<u32>) -> (ev: SessionStatusEvent)
        requires
            old(self).wf(),
        ensures
            final(self).wf(),
            ev.session_id@ == id@,
            ev.status == SessionStatus::Exited,
            ev.exit_code == match exit_status {
                Some(c) => Some(c as i32),
                None => None::<i32>,
            },
            ev.message is None,
            old(self)@.contains_key(id@) ==> final(self)@ == old(self)@.insert(
                id@,
                exited(
                    old(self)@[id@],
                    match exit_status {
                        Some(c) => c as i32,
                        None => -1i32,
                    },
                ),
            ),
            !old(self)@.contains_key(id@) ==> final(self)@ == old(self)@,
    {
        let exit_code: Option<i32> = match exit_status {
            Some(c) => Some(c as i32),
            None => None,
        };
        let code: i32 = match exit_code {
            Some(c) => c,
            None => -1,
        };
        self.mark_exited(id, code);
        SessionStatusEvent {
            session_id: id.to_owned(),
            status: SessionStatus::Exited,
            exit_code,
            message: None,
        }
    }

    /// Registers a session whose terminal has just been opened, under `id`
    /// (see `new_session`); without a title it is named by `default_title`.
    pub fn register_session(
        &mut self,
        id: String,
        cwd: String,
        title: Option<String>,
        codex_command: String,
        pid: Option<u32>,
    ) -> (m: SessionMetadata)
        requires
            old(self).wf(),
            old(self)@.dom().len() < usize::MAX,
        ensures
            final(self).wf(),
            m@ == new_session(
                id@,
                match title {
                    Some(t) => t@,
                    None => default_title(old(self)@.dom().len()),
                },
                cwd@,
                codex_command@,
                pid,
            ),
            final(self)@ == old(self)@.insert(id@, m@),
    {
        let count = self.len();
        let session_title = match title {
            Some(t) => t,
            None => {
                let prefix = "Codex ";
                proof {
                    reveal_strlit("Codex ");
                    assert(prefix@ =~= default_title_prefix());
                }
                let n = decimal_string((count + 1) as u64);
                concat_str(prefix, n.as_str())
            },
        };
        let shell = "ConPTY";
        proof {
            reveal_strlit("ConPTY");
            assert(shell@ =~= conpty());
        }
        let m = SessionMetadata {
            id,
            title: session_title,
            cwd,
            shell: shell.to_owned(),
            codex_command,
            status: SessionStatus::Running,
            persist_on_close: true,
            pid,
            exit_code: None,
            reconnectable: true,
        };
        let out = m.clone();
        self.insert_entry(m);
        out
    }

    /// Registers a new session under a fresh random id (see `new_session_id`
    /// and `register_session`).
    pub fn create_session(
        &mut self,
        cwd: String,
        title: Option<String>,
        codex_command: String,
        pid: Option<u32>,
    ) -> (m: SessionMetadata)
        requires
            old(self).wf(),
            old(self)@.dom().len() < usize::MAX,
        ensures
            final(self).wf(),
            is_v4_uuid_text(m.id@),
            m@ == new_session(
                m.id@,
                match title {
                    Some(t) => t@,
                    None => default_title(old(self)@.dom().len()),
                },
                cwd@,
                codex_command@,
                pid,
            ),
            final(self)@ == old(self)@.insert(m.id@, m@),
    {
        let id = new_session_id();
        self.register_session(id, cwd, title, codex_command, pid)
    }

    /// Every session, in order of title (sessions with equal titles in no
    /// particular order).
    pub fn list(&self) -> (r: Vec<SessionMetadata>)
        requires
            self.wf(),
        ensures
            sorted_by_title(views(r@)),
            ids_distinct(views(r@)),
            r@.len() == self@.dom().len(),
            forall|i: int|
                0 <= i < r@.len() ==> self@.contains_key(#[trigger] r@[i].id@) && self@[r@[i].id@]
                    == r@[i]@,
            forall|k: Seq<char>|
                #[trigger] self@.contains_key(k) ==> exists|i: int| 0 <= i < r@.len() && r@[i].id@ == k,
    {
        let ghost src = views(self.sessions@);
        let mut out: Vec<SessionMetadata> = Vec::new();
        let mut i: usize = 0;
        proof {
            lemma_cover_empty(views(out@), src);
        }
        while i < self.sessions.len()
            invariant
                src == views(self.sessions@),
                ids_distinct(src),
                i <= src.len(),
                out@.len() == i,
                sorted_by_title(views(out@)),
                ids_distinct(views(out@)),
                drawn_from(views(out@), src, i as int),
                includes(views(out@), src, i as int),
            decreases src.len() - i,
        {
            let e = self.sessions[i].clone();
            let ghost before = out@;
            let p = insert_by_title(&mut out, e);
            proof {
                assert(src[i as int] == e@);
                lemma_drawn_insert(views(before), src, i as int, p as int);
                lemma_includes_insert(views(before), src, i as int, p as int);
                lemma_fresh(views(before), src, i as int);
                lemma_distinct_insert(views(before), p as int, e@);
                assert(views(out@) =~= views(before).insert(p as int, e@));
            }
            i += 1;
        }
        proof {
            let ov = views(out@);
            lemma_cover_map(ov, src);
            assert forall|q: int|
                0 <= q < out@.len() implies self@.contains_key(#[trigger] out@[q].id@)
                    && self@[out@[q].id@] == out@[q]@ by {
                assert(ov[q] == out@[q]@);
                assert(self@ == map_of(src));
                assert(map_of(src).contains_key(ov[q].id) && map_of(src)[ov[q].id] == ov[q]);
            }
            assert forall|k: Seq<char>| #[trigger] self@.contains_key(k) implies exists|q: int|
                0 <= q < out@.len() && out@[q].id@ == k by {
                let q = choose|q: int| 0 <= q < ov.len() && ov[q].id == k;
                assert(ov[q] == out@[q]@);
            }
        }
        out
    }
}

/// Puts `e` into a title-sorted vector after every entry whose title does not
/// sort after it, and says where.
fn insert_by_title(out: &mut Vec<SessionMetadata>, e: SessionMetadata) -> (p: usize)
    requires
        sorted_by_title(views(old(out)@)),
    ensures
        p <= old(out)@.len(),
        final(out)@ == old(out)@.insert(p as int, e),
        sorted_by_title(views(final(out)@)),
{
    let mut p: usize = 0;
    while p < out.len() && !text_less(e.title.as_str(), out[p].title.as_str())
        invariant
            p <= out@.len(),
            forall|q: int| 0 <= q < p ==> !text_lt(e.title@, (#[trigger] out@[q]).title@),
        decreases out@.len() - p,
    {
        p += 1;
    }
    proof {
        let bv = views(out@);
        assert forall|q: int| 0 <= q < p implies !text_lt(e@.title, (#[trigger] bv[q]).title) by {
            assert(bv[q] == out@[q]@);
        }
        if p < out@.len() {
            assert(bv[p as int] == out@[p as int]@);
        }
        lemma_sorted_insert(bv, p as int, e@);
        assert(views(out@.insert(p as int, e)) =~= bv.insert(p as int, e@));
    }
    out.insert(p, e);
    p
}

/// Every entry of `out` is one of the first `n` entries of `src`.
#[verifier::opaque]
pub open spec fn drawn_from(out: Seq<SessionMetadataView>, src: Seq<SessionMetadataView>, n: int) -> bool {
    forall|q: int| #![trigger out[q]] 0 <= q < out.len() ==> exists|j: int| 0 <= j < n && src[j] == out[q]
}

/// Each of the first `n` entries of `src` is in `out`.
#[verifier::opaque]
pub open spec fn includes(out: Seq<SessionMetadataView>, src: Seq<SessionMetadataView>, n: int) -> bool {
    forall|j: int| #![trigger src[j]] 0 <= j < n ==> exists|q: int| 0 <= q < out.len() && out[q] == src[j]
}

proof fn lemma_cover_empty(out: Seq<SessionMetadataView>, src: Seq<SessionMetadataView>)
    requires
        out.len() == 0,
    ensures
        drawn_from(out, src, 0),
        includes(out, src, 0),
{
    reveal(drawn_from);
    reveal(includes);
}

proof fn lemma_drawn_insert(out: Seq<SessionMetadataView>, src: Seq<SessionMetadataView>, n: int, p: int)
    requires
        drawn_from(out, src, n),
        0 <= n < src.len(),
        0 <= p <= out.len(),
    ensures
        drawn_from(out.insert(p, src[n]), src, n + 1),
{
    reveal(drawn_from);
    let t = out.insert(p, src[n]);
    assert forall|q: int| #![trigger t[q]] 0 <= q < t.len() implies exists|j: int| 0 <= j < n + 1 && src[j] == t[q] by {
        if q < p {
            assert(t[q] == out[q]);
        } else if q == p {
            assert(src[n] == t[q]);
        } else {
            assert(t[q] == out[q - 1]);
        }
    }
}

proof fn lemma_includes_insert(out: Seq<SessionMetadataView>, src: Seq<SessionMetadataView>, n: int, p: int)
    requires
        includes(out, src, n),
        0 <= n < src.len(),
        0 <= p <= out.len(),
    ensures
        includes(out.insert(p, src[n]), src, n + 1),
{
    reveal(includes);
    let t = out.insert(p, src[n]);
    assert forall|j: int| #![trigger src[j]] 0 <= j < n + 1 implies exists|q: int| 0 <= q < t.len() && t[q] == src[j] by {
        if j < n {
            let q0 = choose|q: int| 0 <= q < out.len() && out[q] == src[j];
            if q0 < p {
                assert(t[q0] == out[q0]);
            } else {
                assert(t[q0 + 1] == out[q0]);
            }
        } else {
            assert(t[p] == src[n]);
        }
    }
}

proof fn lemma_fresh(out: Seq<SessionMetadataView>, src: Seq<SessionMetadataView>, n: int)
    requires
        drawn_from(out, src, n),
        ids_distinct(src),
        0 <= n < src.len(),
    ensures
        forall|q: int| 0 <= q < out.len() ==> (#[trigger] out[q]).id != src[n].id,
{
    reveal(drawn_from);
    assert forall|q: int| 0 <= q < out.len() implies (#[trigger] out[q]).id != src[n].id by {
        let j = choose|j: int| 0 <= j < n && src[j] == out[q];
        assert(src[j].id != src[n].id);
    }
}

proof fn lemma_cover_map(out: Seq<SessionMetadataView>, src: Seq<SessionMetadataView>)
    requires
        drawn_from(out, src, src.len() as int),
        includes(out, src, src.len() as int),
        ids_distinct(src),
        out.len() == src.len(),
    ensures
        forall|q: int|
            0 <= q < out.len() ==> map_of(src).contains_key(#[trigger] out[q].id) && map_of(src)[out[q].id]
                == out[q],
        forall|k: Seq<char>|
            #[trigger] map_of(src).contains_key(k) ==> exists|q: int| 0 <= q < out.len() && out[q].id == k,
        map_of(src).dom().len() == out.len(),
{
    lemma_map_of(src);
    assert forall|q: int|
        0 <= q < out.len() implies map_of(src).contains_key(#[trigger] out[q].id) && map_of(src)[out[q].id]
            == out[q] by {
        reveal(drawn_from);
        let j = choose|j: int| 0 <= j < src.len() && src[j] == out[q];
        assert(map_of(src)[src[j].id] == src[j]);
    }
    assert forall|k: Seq<char>| #[trigger] map_of(src).contains_key(k) implies exists|q: int|
        0 <= q < out.len() && out[q].id == k by {
        reveal(includes);
        let j = choose|j: int| 0 <= j < src.len() && src[j].id == k;
        let q = choose|q: int| 0 <= q < out.len() && out[q] == src[j];
        assert(out[q].id == k);
    }
}

// ---------------------------------------------------------------------------
// Laws
// ---------------------------------------------------------------------------

proof fn lemma_restored_map(s: Seq<SessionMetadataView>, live_pids: Seq<u32>)
    requires
        ids_distinct(s),
    ensures
        forall|k: Seq<char>|
            #[trigger] restored_map(s, live_pids).contains_key(k) <==> exists|i: int|
                0 <= i < s.len() && s[i].id == k,
        forall|i: int|
            0 <= i < s.len() ==> restored_map(s, live_pids)[#[trigger] s[i].id] == restored(
                s[i],
                pid_alive(s[i].pid, live_pids),
            ),
    decreases s.len(),
{
    if s.len() > 0 {
        let t = s.drop_last();
        assert(ids_distinct(t)) by {
            assert forall|i: int, j: int|
                0 <= i < t.len() && 0 <= j < t.len() && i != j implies #[trigger] t[i].id
                != #[trigger] t[j].id by {
                assert(t[i] == s[i] && t[j] == s[j]);
            }
        }
        lemma_restored_map(t, live_pids);
        let last = s.last();
        assert forall|k: Seq<char>|
            #[trigger] restored_map(s, live_pids).contains_key(k) <==> exists|i: int|
                0 <= i < s.len() && s[i].id == k by {
            if restored_map(s, live_pids).contains_key(k) && k != last.id {
                let i = choose|i: int| 0 <= i < t.len() && t[i].id == k;
                assert(s[i].id == k);
            }
            if exists|i: int| 0 <= i < s.len() && s[i].id == k {
                let i = choose|i: int| 0 <= i < s.len() && s[i].id == k;
                if i < s.len() - 1 {
                    assert(t[i].id == k);
                }
            }
        }
        assert forall|i: int| 0 <= i < s.len() implies restored_map(s, live_pids)[#[trigger] s[i].id]
            == restored(s[i], pid_alive(s[i].pid, live_pids)) by {
            if i < s.len() - 1 {
                assert(t[i] == s[i]);
                assert(s[i].id != last.id);
            }
        }
    }
}

/// Restarting keeps the tabs: restoring the stored list of a registry's
/// sessions (as `list` gives them) yields a session under every id the
/// registry had and no other, each as `restored` makes it.
pub proof fn lemma_restore_round_trip(
    stored: Seq<SessionMetadataView>,
    sessions: Map<Seq<char>, SessionMetadataView>,
    live_pids: Seq<u32>,
)
    requires
        ids_distinct(stored),
        forall|i: int|
            0 <= i < stored.len() ==> sessions.contains_key(#[trigger] stored[i].id)
                && sessions[stored[i].id] == stored[i],
        forall|k: Seq<char>|
            #[trigger] sessions.contains_key(k) ==> exists|i: int| 0 <= i < stored.len() && stored[i].id == k,
    ensures
        forall|k: Seq<char>|
            #[trigger] restored_map(stored, live_pids).contains_key(k) == sessions.contains_key(k),
        forall|k: Seq<char>|
            #[trigger] sessions.contains_key(k) ==> restored_map(stored, live_pids)[k] == restored(
                sessions[k],
                pid_alive(sessions[k].pid, live_pids),
            ),
{
    lemma_restored_map(stored, live_pids);
    assert forall|k: Seq<char>|
        #[trigger] restored_map(stored, live_pids).contains_key(k) == sessions.contains_key(k) by {
        if restored_map(stored, live_pids).contains_key(k) {
            let i = choose|i: int| 0 <= i < stored.len() && stored[i].id == k;
            assert(sessions.contains_key(stored[i].id));
        }
    }
    assert forall|k: Seq<char>| #[trigger] sessions.contains_key(k) implies restored_map(
        stored,
        live_pids,
    )[k] == restored(sessions[k], pid_alive(sessions[k].pid, live_pids)) by {
        let i = choose|i: int| 0 <= i < stored.len() && stored[i].id == k;
        assert(restored_map(stored, live_pids)[stored[i].id] == restored(
            stored[i],
            pid_alive(stored[i].pid, live_pids),
        ));
    }
}

/// A restored session has no terminal: it is detached or exited, cannot be
/// reconnected, and takes no input; it keeps its id.
pub proof fn lemma_restored_not_live(s: Seq<SessionMetadataView>, live_pids: Seq<u32>)
    ensures
        forall|k: Seq<char>|
            #[trigger] restored_map(s, live_pids).contains_key(k) ==> {
                let m = restored_map(s, live_pids)[k];
                &&& m.id == k
                &&& m.status == SessionStatus::Detached || m.status == SessionStatus::Exited
                &&& !m.reconnectable
                &&& !is_live(m)
            },
    decreases s.len(),
{
    if s.len() > 0 {
        lemma_restored_not_live(s.drop_last(), live_pids);
    }
}

/// A session that has just been registered takes input.
pub proof fn lemma_new_session_live(
    id: Seq<char>,
    title: Seq<char>,
    cwd: Seq<char>,
    codex_command: Seq<char>,
    pid: Option<u32>,
)
    ensures
        is_live(new_session(id, title, cwd, codex_command, pid)),
{
}

/// A closed tab's session takes no more input, and attaching it again
/// leaves it detached rather than running.
pub proof fn lemma_closed_stays_closed(m: SessionMetadataView, mode: CloseMode)
    ensures
        !is_live(closed(m, mode)),
        attached(closed(m, mode)).status == SessionStatus::Detached,
        !is_live(attached(closed(m, mode))),
{
}

/// A session whose process exited takes no more input, and attaching it
/// again leaves it detached.
pub proof fn lemma_exited_stays_exited(m: SessionMetadataView, code: i32)
    ensures
        !is_live(exited(m, code)),
        exited(m, code).pid is None,
        attached(exited(m, code)).status == SessionStatus::Detached,
{
}

/// The sessions after `attach_session(id)`: the session under `id`
/// attached, or nothing changed where there is none.
pub open spec fn attach_step(
    sessions: Map<Seq<char>, SessionMetadataView>,
    id: Seq<char>,
) -> Map<Seq<char>, SessionMetadataView> {
    if sessions.contains_key(id) {
        sessions.insert(id, attached(sessions[id]))
    } else {
        sessions
    }
}

/// The sessions after `attach_session` was called with each of `ids` in turn.
pub open spec fn attach_all(
    sessions: Map<Seq<char>, SessionMetadataView>,
    ids: Seq<Seq<char>>,
) -> Map<Seq<char>, SessionMetadataView>
    decreases ids.len(),
{
    if ids.len() == 0 {
        sessions
    } else {
        attach_step(attach_all(sessions, ids.drop_last()), ids.last())
    }
}

/// Once a session cannot be reconnected (it was restored, closed, or its
/// process exited), no sequence of attaches makes it live again, so input
/// and resizing stay refused; and an unknown id stays unknown.
pub proof fn lemma_never_live_again(
    sessions: Map<Seq<char>, SessionMetadataView>,
    ids: Seq<Seq<char>>,
    k: Seq<char>,
)
    ensures
        sessions.contains_key(k) && !sessions[k].reconnectable ==> attach_all(
            sessions,
            ids,
        ).contains_key(k) && !attach_all(sessions, ids)[k].reconnectable && !is_live(
            attach_all(sessions, ids)[k],
        ),
        !sessions.contains_key(k) ==> !attach_all(sessions, ids).contains_key(k),
    decreases ids.len(),
{
    if ids.len() > 0 {
        lemma_never_live_again(sessions, ids.drop_last(), k);
    }
}

/// Every field but the status of two sessions agrees.
pub open spec fn same_but_status(a: SessionMetadataView, b: SessionMetadataView) -> bool {
    &&& a.id == b.id
    &&& a.title == b.title
    &&& a.cwd == b.cwd
    &&& a.shell == b.shell
    &&& a.codex_command == b.codex_command
    &&& a.persist_on_close == b.persist_on_close
    &&& a.pid == b.pid
    &&& a.exit_code == b.exit_code
    &&& a.reconnectable == b.reconnectable
}

/// Attaching changes only the status: it is `Running` where the session can
/// still be reconnected and `Detached` where it cannot, and the pid, exit
/// code and every other field stay as they were.
pub proof fn lemma_attach_changes_only_status(m: SessionMetadataView)
    ensures
        same_but_status(attached(m), m),
        m.reconnectable ==> attached(m).status == SessionStatus::Running,
        !m.reconnectable ==> attached(m).status == SessionStatus::Detached,
{
}

/// Closing in `Terminate` mode always leaves the session exited with code
/// -1 and not reconnectable, whatever it was before; closing in `Detach`
/// mode leaves it detached and not reconnectable with its exit code. Either
/// way the pid and the tab's id, title, directory, shell, command and
/// persistence flag are kept.
pub proof fn lemma_close_outcome(m: SessionMetadataView, mode: CloseMode)
    ensures
        closed(m, mode).id == m.id,
        closed(m, mode).title == m.title,
        closed(m, mode).cwd == m.cwd,
        closed(m, mode).shell == m.shell,
        closed(m, mode).codex_command == m.codex_command,
        closed(m, mode).persist_on_close == m.persist_on_close,
        closed(m, mode).pid == m.pid,
        !closed(m, mode).reconnectable,
        mode == CloseMode::Terminate ==> closed(m, mode).status == SessionStatus::Exited
            && closed(m, mode).exit_code == Some(-1i32),
        mode == CloseMode::Detach ==> closed(m, mode).status == SessionStatus::Detached
            && closed(m, mode).exit_code == m.exit_code,
{
}

/// Recording an exit with code `code` leaves the session exited with exactly
/// that code (0 included), without pid, not reconnectable, and with its
/// id, title, directory, shell, command and persistence flag kept.
pub proof fn lemma_exit_records_code(m: SessionMetadataView, code: i32)
    ensures
        exited(m, code).status == SessionStatus::Exited,
        exited(m, code).exit_code == Some(code),
        exited(m, code).pid is None,
        !exited(m, code).reconnectable,
        exited(m, code).id == m.id,
        exited(m, code).title == m.title,
        exited(m, code).cwd == m.cwd,
        exited(m, code).shell == m.shell,
        exited(m, code).codex_command == m.codex_command,
        exited(m, code).persist_on_close == m.persist_on_close,
{
}

/// Restoring goes by whether the process is alive and by nothing else of
/// the stored status: a session whose process is alive is detached and keeps
/// its pid and exit code, whatever status and reconnect flag were stored; one
/// whose process is gone is exited, without pid, with its stored exit code or
/// -1. Neither can be reconnected, and the rest of the tab is kept.
pub proof fn lemma_restore_outcome(m: SessionMetadataView, alive: bool)
    ensures
        restored(m, alive).id == m.id,
        restored(m, alive).title == m.title,
        restored(m, alive).cwd == m.cwd,
        restored(m, alive).shell == m.shell,
        restored(m, alive).codex_command == m.codex_command,
        restored(m, alive).persist_on_close == m.persist_on_close,
        !restored(m, alive).reconnectable,
        alive ==> restored(m, alive).status == SessionStatus::Detached && restored(m, alive).pid
            == m.pid && restored(m, alive).exit_code == m.exit_code,
        !alive ==> restored(m, alive).status == SessionStatus::Exited && restored(m, alive).pid
            is None,
        !alive && m.exit_code is Some ==> restored(m, alive).exit_code == m.exit_code,
        !alive && m.exit_code is None ==> restored(m, alive).exit_code == Some(-1i32),
{
}

/// What `from_snapshot` gives for each stored tab (the last one with its id):
/// detached with its pid and exit code kept when its pid is among the live
/// pids, whatever status it was stored with; exited without pid otherwise,
/// with its stored exit code or -1.
pub proof fn lemma_from_snapshot_outcome(s: Seq<SessionMetadataView>, live_pids: Seq<u32>, i: int)
    requires
        0 <= i < s.len(),
        forall|j: int| i < j < s.len() ==> #[trigger] s[j].id != s[i].id,
    ensures
        restored_map(s, live_pids).contains_key(s[i].id),
        ({
            let r = restored_map(s, live_pids)[s[i].id];
            &&& r.id == s[i].id
            &&& r.title == s[i].title
            &&& !r.reconnectable
            &&& (s[i].pid matches Some(p) && live_pids.contains(p)) ==> r.status
                == SessionStatus::Detached && r.pid == s[i].pid && r.exit_code == s[i].exit_code
            &&& !(s[i].pid matches Some(p) && live_pids.contains(p)) ==> r.status
                == SessionStatus::Exited && r.pid is None && r.exit_code == (if s[i].exit_code is Some {
                s[i].exit_code
            } else {
                Some(-1i32)
            })
        }),
    decreases s.len(),
{
    if i < s.len() - 1 {
        let t = s.drop_last();
        assert forall|j: int| i < j < t.len() implies #[trigger] t[j].id != t[i].id by {
            assert(t[j] == s[j] && t[i] == s[i]);
        }
        lemma_from_snapshot_outcome(t, live_pids, i);
        assert(t[i] == s[i]);
        assert(s.last().id != s[i].id);
    } else {
        lemma_restore_outcome(s[i], pid_alive(s[i].pid, live_pids));
    }
}

/// Attaching twice is attaching once.
pub proof fn lemma_attach_idempotent(m: SessionMetadataView)
    ensures
        attached(attached(m)) == attached(m),
{
}

/// Whether `pid` is among `pids`.
fn contains_pid(pids: &[u32], pid: u32) -> (r: bool)
    ensures
        r == pids@.contains(pid),
{
    let mut i: usize = 0;
    while i < pids.len()
        invariant
            i <= pids@.len(),
            forall|j: int| 0 <= j < i ==> pids@[j] != pid,
        decreases pids@.len() - i,
    {
        if pids[i] == pid {
            assert(pids@[i as int] == pid);
            return true;
        }
        i += 1;
    }
    false
}

/// Inserting an entry at the first position whose title sorts after it keeps
/// a title-sorted sequence sorted.
proof fn lemma_sorted_insert(s: Seq<SessionMetadataView>, p: int, e: SessionMetadataView)
    requires
        sorted_by_title(s),
        0 <= p <= s.len(),
        forall|q: int| 0 <= q < p ==> !text_lt(e.title, (#[trigger] s[q]).title),
        p < s.len() ==> text_lt(e.title, s[p].title),
    ensures
        sorted_by_title(s.insert(p, e)),
{
    let t = s.insert(p, e);
    assert forall|a: int, b: int| 0 <= a < b < t.len() implies text_le(
        #[trigger] t[a].title,
        #[trigger] t[b].title,
    ) by {
        if b < p {
            assert(t[a] == s[a] && t[b] == s[b]);
        } else if b == p {
            assert(t[a] == s[a]);
            assert(!text_lt(e.title, s[a].title));
        } else if a == p {
            assert(t[b] == s[b - 1]);
            lemma_text_le_total(e.title, s[p].title);
            if b - 1 > p {
                lemma_text_le_trans(e.title, s[p].title, s[b - 1].title);
            }
        } else if a < p {
            assert(t[a] == s[a] && t[b] == s[b - 1]);
        } else {
            assert(t[a] == s[a - 1] && t[b] == s[b - 1]);
        }
    }
}

/// Inserting an entry whose id no entry has keeps the ids distinct.
proof fn lemma_distinct_insert(s: Seq<SessionMetadataView>, p: int, e: SessionMetadataView)
    requires
        ids_distinct(s),
        0 <= p <= s.len(),
        forall|q: int| 0 <= q < s.len() ==> (#[trigger] s[q]).id != e.id,
    ensures
        ids_distinct(s.insert(p, e)),
{
    let t = s.insert(p, e);
    assert forall|a: int, b: int|
        0 <= a < t.len() && 0 <= b < t.len() && a != b implies #[trigger] t[a].id
        != #[trigger] t[b].id by {
        let sa = if a < p { a } else { a - 1 };
        let sb = if b < p { b } else { b - 1 };
        if a != p && b != p {
            assert(t[a] == s[sa] && t[b] == s[sb]);
        } else if a == p {
            assert(t[b] == s[sb]);
        } else {
            assert(t[a] == s[sa]);
        }
    }
}

} // verus!
