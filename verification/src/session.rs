//! The session registry: the in-memory collection of launched terminal
//! sessions. Callers serialize access through one lock around the whole
//! registry; the registry itself is a plain sequential structure, and every
//! read hands back a deep copy, never a reference into the collection.

use vstd::prelude::*;
use crate::terminal::TerminalType;
use crate::text::str_eq;

verus! {

/// Lifecycle state of one session. `Running` is the initial state; `Stopped`
/// and `Interrupted` are terminal: no later action moves a session out of
/// them short of removing the record.
#[derive(Debug, Clone, Copy, PartialEq, Eq, Structural)]
pub enum SessionStatus {
    Running,
    Stopped,
    Interrupted,
}

/// One tracked launch of the assistant inside a terminal window.
///
/// Every field except `status` is fixed at creation. `pid` is present only
/// when the launcher spawned the process directly; `terminal_type` and
/// `window_id` describe the hosting terminal window, where known. A window
/// handle is only meaningful together with a terminal kind; Terminal.app
/// sessions carry the kind without a handle, since that application exposes
/// no queryable window identifier.
pub struct Session {
    pub id: String,
    pub pid: Option<u32>,
    pub env_name: String,
    pub perm_mode: String,
    pub working_dir: String,
    pub start_time: String,
    pub status: SessionStatus,
    pub terminal_type: Option<TerminalType>,
    pub window_id: Option<String>,
}

impl Session {
    /// A window handle never appears without its terminal kind.
    pub open spec fn wf(self) -> bool {
        self.window_id is Some ==> self.terminal_type is Some
    }

    /// The same record with only the status replaced.
    pub open spec fn with_status(self, status: SessionStatus) -> Session {
        Session { status, ..self }
    }

    /// True of a record the process-liveness pass looks at.
    pub open spec fn is_running_with_pid(self) -> bool {
        self.status == SessionStatus::Running && self.pid is Some
    }

    /// True of a record the terminal passes look at.
    pub open spec fn is_running_with_terminal(self) -> bool {
        self.status == SessionStatus::Running && self.terminal_type is Some
    }
}

impl Clone for Session {
    fn clone(&self) -> (r: Self)
        ensures
            r == *self,
    {
        Session {
            id: self.id.clone(),
            pid: self.pid,
            env_name: self.env_name.clone(),
            perm_mode: self.perm_mode.clone(),
            working_dir: self.working_dir.clone(),
            start_time: self.start_time.clone(),
            status: self.status,
            terminal_type: self.terminal_type,
            window_id: match &self.window_id {
                Some(w) => Some(w.clone()),
                None => None,
            },
        }
    }
}

/// Failures surfaced by the registry. Lookups that miss are reported through
/// `Option` instead.
#[derive(Debug, Clone, Copy, PartialEq, Eq, Structural)]
pub enum RegistryError {
    DuplicateId,
}

/// True when some record in the sequence carries this id.
pub open spec fn contains_id(s: Seq<Session>, id: Seq<char>) -> bool {
    exists|i: int| 0 <= i < s.len() && s[i].id@ == id
}

/// Index of the first record carrying this id, or -1 when none does.
pub open spec fn first_index_of(s: Seq<Session>, id: Seq<char>) -> int
    decreases s.len(),
{
    if s.len() == 0 {
        -1
    } else if s[0].id@ == id {
        0
    } else {
        let r = first_index_of(s.drop_first(), id);
        if r < 0 {
            -1
        } else {
            r + 1
        }
    }
}

/// No two records share an id.
pub open spec fn unique_ids(s: Seq<Session>) -> bool {
    forall|i: int, j: int| 0 <= i < j < s.len() ==> s[i].id@ != s[j].id@
}

/// What removal leaves behind: every record whose id differs.
pub open spec fn spec_remove(v: Seq<Session>, id: Seq<char>) -> Seq<Session> {
    v.filter(|s: Session| s.id@ != id)
}

/// What a status update leaves behind: the first record with the id gets the
/// new status, everything else is untouched; an absent id changes nothing.
pub open spec fn spec_update_status(
    v: Seq<Session>,
    id: Seq<char>,
    status: SessionStatus,
) -> Seq<Session> {
    if contains_id(v, id) {
        v.update(first_index_of(v, id), v[first_index_of(v, id)].with_status(status))
    } else {
        v
    }
}

/// `first_index_of` finds exactly the first matching position.
pub proof fn lemma_first_index_of(s: Seq<Session>, id: Seq<char>)
    ensures
        !contains_id(s, id) ==> first_index_of(s, id) == -1,
        contains_id(s, id) ==> {
            let k = first_index_of(s, id);
            &&& 0 <= k < s.len()
            &&& s[k].id@ == id
            &&& forall|j: int| 0 <= j < k ==> s[j].id@ != id
        },
    decreases s.len(),
{
    if s.len() > 0 && s[0].id@ != id {
        let rest = s.drop_first();
        lemma_first_index_of(rest, id);
        assert(forall|i: int| 0 <= i < rest.len() ==> rest[i] == s[i + 1]);
        if contains_id(s, id) {
            let i = choose|i: int| 0 <= i < s.len() && s[i].id@ == id;
            assert(rest[i - 1].id@ == id);
            assert(contains_id(rest, id));
        }
        if contains_id(rest, id) {
            let i = choose|i: int| 0 <= i < rest.len() && rest[i].id@ == id;
            assert(s[i + 1].id@ == id);
            assert(contains_id(s, id));
        }
        if contains_id(s, id) {
            let k = first_index_of(s, id);
            let kr = first_index_of(rest, id);
            assert(k == kr + 1);
            assert(rest[kr] == s[kr + 1]);
            assert forall|j: int| 0 <= j < k implies s[j].id@ != id by {
                if j > 0 {
                    assert(rest[j - 1] == s[j]);
                    assert(rest[j - 1].id@ != id);
                }
            }
        }
    }
}

/// Law: starting from any registry and inserting records whose ids are fresh
/// and pairwise distinct, every insertion is accepted by `add_session`, and
/// the registry — which `list_sessions` hands back verbatim — afterwards
/// holds exactly the old records followed by the inserted records, each
/// with every field unchanged.
pub proof fn lemma_list_after_inserts(base: Seq<Session>, added: Seq<Session>)
    requires
        unique_ids(base + added),
    ensures
        forall|j: int|
            0 <= j < added.len() ==> !contains_id(
                base + #[trigger] added.subrange(0, j),
                added[j].id@,
            ),
        forall|j: int| 0 <= j < added.len() ==> (base + added)[base.len() + j] == added[j],
        forall|j: int| 0 <= j < base.len() ==> (base + added)[j] == base[j],
        forall|id: Seq<char>|
            #![auto]
            contains_id(base + added, id) <==> contains_id(base, id) || contains_id(added, id),
{
    assert forall|j: int| 0 <= j < added.len() implies !contains_id(
        base + added.subrange(0, j),
        added[j].id@,
    ) by {
        let pre = base + added.subrange(0, j);
        if contains_id(pre, added[j].id@) {
            let k = choose|k: int| 0 <= k < pre.len() && pre[k].id@ == added[j].id@;
            assert(pre[k] == (base + added)[k]);
            assert((base + added)[base.len() + j] == added[j]);
        }
    }
    assert forall|id: Seq<char>|
        #![auto]
        contains_id(base + added, id) <==> contains_id(base, id) || contains_id(
            added,
            id,
        ) by {
        if contains_id(base + added, id) {
            let k = choose|k: int| 0 <= k < (base + added).len() && (base + added)[k].id@ == id;
            if k < base.len() {
                assert(base[k].id@ == id);
            } else {
                assert(added[k - base.len()].id@ == id);
            }
        }
        if contains_id(base, id) {
            let k = choose|k: int| 0 <= k < base.len() && base[k].id@ == id;
            assert((base + added)[k].id@ == id);
        }
        if contains_id(added, id) {
            let k = choose|k: int| 0 <= k < added.len() && added[k].id@ == id;
            assert((base + added)[base.len() + k].id@ == id);
        }
    }
}

/// Law: removing an id and then updating that id's status is a no-op — the
/// update finds no record and does not reintroduce one.
pub proof fn lemma_remove_then_update(v: Seq<Session>, id: Seq<char>, status: SessionStatus)
    ensures
        !contains_id(spec_remove(v, id), id),
        spec_update_status(spec_remove(v, id), id, status) == spec_remove(v, id),
{
    let removed = spec_remove(v, id);
    if contains_id(removed, id) {
        let j = choose|j: int| 0 <= j < removed.len() && removed[j].id@ == id;
        v.lemma_filter_pred(|s: Session| s.id@ != id, j);
    }
}

/// The id minted for a launch at this timestamp.
pub open spec fn spec_session_id(millis: nat) -> Seq<char> {
    "session-"@ + crate::text::spec_dec_nat(millis)
}

/// Writes the session id for a launch timestamp, milliseconds since the Unix
/// epoch.
pub fn session_id_for(millis: u128) -> (r: String)
    ensures
        r@ == spec_session_id(millis as nat),
{
    let mut out = String::from_str("session-");
    crate::text::append_decimal_u128(&mut out, millis);
    out
}

/// Relies on std::time::SystemTime::now and duration_since: milliseconds
/// since the Unix epoch, or zero should the clock read earlier than the
/// epoch. Nothing is promised of the value.
#[verifier::external_body]
fn now_unix_millis() -> u128 {
    match std::time::SystemTime::now().duration_since(std::time::UNIX_EPOCH) {
        Ok(d) => d.as_millis(),
        Err(_) => 0,
    }
}

/// Mints a fresh session id from the current time.
pub fn generate_session_id() -> (r: String)
    ensures
        exists|millis: nat| r@ == spec_session_id(millis),
{
    let millis = now_unix_millis();
    let r = session_id_for(millis);
    proof {
        assert(r@ == spec_session_id(millis as nat));
    }
    r
}

/// Reads an exit code out of a marker file's content: the text is trimmed
/// and read as a decimal integer; anything unreadable counts as no marker.
pub fn parse_exit_code(content: &str) -> (r: Option<i32>)
    ensures
        match r {
            Some(v) => crate::text::spec_parse_i32(crate::text::spec_trim(content@)) == Some(
                v as int,
            ),
            None => crate::text::spec_parse_i32(crate::text::spec_trim(content@)) is None,
        },
{
    let trimmed = crate::text::trim_str(content);
    crate::text::parse_i32(trimmed.as_str())
}

/// Filtering a sequence extended by one element keeps the filtered prefix and
/// appends the new element exactly when it satisfies the predicate.
pub proof fn lemma_filter_push<A>(s: Seq<A>, pred: spec_fn(A) -> bool, x: A)
    ensures
        pred(x) ==> s.push(x).filter(pred) == s.filter(pred).push(x),
        !pred(x) ==> s.push(x).filter(pred) == s.filter(pred),
{
    reveal(Seq::filter);
    assert(s.push(x).drop_last() =~= s);
    assert(s.push(x).last() == x);
}

/// The in-memory registry of sessions, in insertion order.
pub struct SessionManager {
    pub sessions: Vec<Session>,
}

impl View for SessionManager {
    type V = Seq<Session>;

    open spec fn view(&self) -> Seq<Session> {
        self.sessions@
    }
}

/// Position of the first record with this id, if any.
fn find_index(sessions: &Vec<Session>, id: &str) -> (r: Option<usize>)
    ensures
        match r {
            Some(i) => i == first_index_of(sessions@, id@) && i < sessions@.len()
                && sessions@[i as int].id@ == id@,
            None => !contains_id(sessions@, id@),
        },
{
    let n = sessions.len();
    let mut i: usize = 0;
    while i < n
        invariant
            n == sessions@.len(),
            i <= n,
            forall|j: int| 0 <= j < i ==> sessions@[j].id@ != id@,
        decreases n - i,
    {
        if str_eq(sessions[i].id.as_str(), id) {
            proof {
                assert(contains_id(sessions@, id@));
                lemma_first_index_of(sessions@, id@);
                let k = first_index_of(sessions@, id@);
                assert(!(k < i) && !(i < k));
            }
            return Some(i);
        }
        i += 1;
    }
    None
}

impl Default for SessionManager {
    /// A fresh registry is empty; records never survive a restart.
    fn default() -> (r: Self)
        ensures
            r@ == Seq::<Session>::empty(),
    {
        SessionManager { sessions: Vec::new() }
    }
}

impl SessionManager {
    /// Inserts a new record; refuses an id that is already present and leaves
    /// the registry unchanged in that case. Unique ids stay unique. A record
    /// must be well formed: a window handle only comes with a terminal kind.
    pub fn add_session(&mut self, session: Session) -> (r: Result<(), RegistryError>)
        requires
            session.wf(),
        ensures
            r is Ok <==> !contains_id(old(self)@, session.id@),
            r is Ok ==> final(self)@ == old(self)@.push(session),
            r is Err ==> final(self)@ == old(self)@ && r == Err::<(), RegistryError>(
                RegistryError::DuplicateId,
            ),
            unique_ids(old(self)@) ==> unique_ids(final(self)@),
    {
        match find_index(&self.sessions, session.id.as_str()) {
            Some(_) => Err(RegistryError::DuplicateId),
            None => {
                self.sessions.push(session);
                proof {
                    if unique_ids(old(self)@) {
                        assert forall|i: int, j: int| 0 <= i < j < self@.len() implies self@[i].id@
                            != self@[j].id@ by {
                            if j == self@.len() - 1 {
                                assert(old(self)@[i].id@ != session.id@);
                            }
                        }
                    }
                }
                Ok(())
            },
        }
    }

    /// Drops every record with this id; absent ids are a silent no-op.
    pub fn remove_session(&mut self, id: &str)
        ensures
            final(self)@ == spec_remove(old(self)@, id@),
            !contains_id(final(self)@, id@),
    {
        let ghost pred = |s: Session| s.id@ != id@;
        let n = self.sessions.len();
        let mut kept: Vec<Session> = Vec::new();
        let mut i: usize = 0;
        while i < n
            invariant
                n == self.sessions@.len(),
                i <= n,
                pred == (|s: Session| s.id@ != id@),
                kept@ == self.sessions@.subrange(0, i as int).filter(pred),
            decreases n - i,
    {
            let ghost prefix = self.sessions@.subrange(0, i as int);
            let ghost x = self.sessions@[i as int];
            if !str_eq(self.sessions[i].id.as_str(), id) {
                kept.push(self.sessions[i].clone());
            }
            proof {
                assert(self.sessions@.subrange(0, i as int + 1) =~= prefix.push(x));
                lemma_filter_push(prefix, pred, x);
            }
            i += 1;
        }
        proof {
            assert(self.sessions@.subrange(0, n as int) =~= self.sessions@);
        }
        self.sessions = kept;
        proof {
            if contains_id(self@, id@) {
                let j = choose|j: int| 0 <= j < self@.len() && self@[j].id@ == id@;
                old(self)@.lemma_filter_pred(pred, j);
            }
        }
    }

    /// Sets the status of the first record with this id; absent ids are a
    /// silent no-op (a monitor update may race with removal by the user).
    /// Every other field of every record is untouched.
    pub fn update_session_status(&mut self, id: &str, status: SessionStatus)
        ensures
            final(self)@ == spec_update_status(old(self)@, id@, status),
    {
        match find_index(&self.sessions, id) {
            Some(i) => {
                self.sessions[i].status = status;
                proof {
                    let k = first_index_of(old(self)@, id@);
                    assert(self@ =~= old(self)@.update(k, old(self)@[k].with_status(status)));
                }
            },
            None => {},
        }
    }

    /// A snapshot copy of every record, in insertion order.
    pub fn list_sessions(&self) -> (r: Vec<Session>)
        ensures
            r@ == self@,
    {
        let n = self.sessions.len();
        let mut out: Vec<Session> = Vec::new();
        let mut i: usize = 0;
        while i < n
            invariant
                n == self.sessions@.len(),
                i <= n,
                out@ == self.sessions@.subrange(0, i as int),
            decreases n - i,
        {
            out.push(self.sessions[i].clone());
            proof {
                assert(self.sessions@.subrange(0, i as int + 1) =~= self.sessions@.subrange(
                    0,
                    i as int,
                ).push(self.sessions@[i as int]));
            }
            i += 1;
        }
        proof {
            assert(self.sessions@.subrange(0, n as int) =~= self.sessions@);
        }
        out
    }

    /// A copy of the first record with this id, or nothing.
    pub fn get_session(&self, id: &str) -> (r: Option<Session>)
        ensures
            match r {
                Some(s) => contains_id(self@, id@) && s == self@[first_index_of(self@, id@)],
                None => !contains_id(self@, id@),
            },
    {
        match find_index(&self.sessions, id) {
            Some(i) => Some(self.sessions[i].clone()),
            None => None,
        }
    }

    /// Ids and process ids of the running sessions that have a process id;
    /// this feeds the process-liveness probe.
    pub fn get_running_sessions_with_pid(&self) -> (r: Vec<(String, u32)>)
        ensures
            r@ == self@.filter(|s: Session| s.is_running_with_pid()).map_values(
                |s: Session| (s.id, s.pid->0),
            ),
    {
        let ghost pred = |s: Session| s.is_running_with_pid();
        let ghost f = |s: Session| (s.id, s.pid->0);
        let n = self.sessions.len();
        let mut out: Vec<(String, u32)> = Vec::new();
        let mut i: usize = 0;
        while i < n
            invariant
                n == self.sessions@.len(),
                i <= n,
                pred == (|s: Session| s.is_running_with_pid()),
                f == (|s: Session| (s.id, s.pid->0)),
                out@ == self.sessions@.subrange(0, i as int).filter(pred).map_values(f),
            decreases n - i,
        {
            let ghost prefix = self.sessions@.subrange(0, i as int);
            let ghost x = self.sessions@[i as int];
            let s = &self.sessions[i];
            if matches!(s.status, SessionStatus::Running) && s.pid.is_some() {
                let pid = match s.pid {
                    Some(p) => p,
                    None => 0,
                };
                out.push((s.id.clone(), pid));
            }
            proof {
                assert(self.sessions@.subrange(0, i as int + 1) =~= prefix.push(x));
                lemma_filter_push(prefix, pred, x);
                if pred(x) {
                    assert(prefix.filter(pred).push(x).map_values(f) =~= prefix.filter(
                        pred,
                    ).map_values(f).push(f(x)));
                }
            }
            i += 1;
        }
        proof {
            assert(self.sessions@.subrange(0, n as int) =~= self.sessions@);
        }
        out
    }

    /// Copies of all running sessions, with or without a process id.
    pub fn get_running_sessions(&self) -> (r: Vec<Session>)
        ensures
            r@ == self@.filter(|s: Session| s.status == SessionStatus::Running),
    {
        let ghost pred = |s: Session| s.status == SessionStatus::Running;
        let n = self.sessions.len();
        let mut out: Vec<Session> = Vec::new();
        let mut i: usize = 0;
        while i < n
            invariant
                n == self.sessions@.len(),
                i <= n,
                pred == (|s: Session| s.status == SessionStatus::Running),
                out@ == self.sessions@.subrange(0, i as int).filter(pred),
            decreases n - i,
        {
            let ghost prefix = self.sessions@.subrange(0, i as int);
            let ghost x = self.sessions@[i as int];
            if matches!(self.sessions[i].status, SessionStatus::Running) {
                out.push(self.sessions[i].clone());
            }
            proof {
                assert(self.sessions@.subrange(0, i as int + 1) =~= prefix.push(x));
                lemma_filter_push(prefix, pred, x);
            }
            i += 1;
        }
        proof {
            assert(self.sessions@.subrange(0, n as int) =~= self.sessions@);
        }
        out
    }

    /// Copies of all running sessions that carry terminal metadata; this
    /// feeds the window-liveness and exit-marker checks.
    pub fn get_running_terminal_sessions(&self) -> (r: Vec<Session>)
        ensures
            r@ == self@.filter(|s: Session| s.is_running_with_terminal()),
    {
        let ghost pred = |s: Session| s.is_running_with_terminal();
        let n = self.sessions.len();
        let mut out: Vec<Session> = Vec::new();
        let mut i: usize = 0;
        while i < n
            invariant
                n == self.sessions@.len(),
                i <= n,
                pred == (|s: Session| s.is_running_with_terminal()),
                out@ == self.sessions@.subrange(0, i as int).filter(pred),
            decreases n - i,
        {
            let ghost prefix = self.sessions@.subrange(0, i as int);
            let ghost x = self.sessions@[i as int];
            if matches!(self.sessions[i].status, SessionStatus::Running)
                && self.sessions[i].terminal_type.is_some() {
                out.push(self.sessions[i].clone());
            }
            proof {
                assert(self.sessions@.subrange(0, i as int + 1) =~= prefix.push(x));
                lemma_filter_push(prefix, pred, x);
            }
            i += 1;
        }
        proof {
            assert(self.sessions@.subrange(0, n as int) =~= self.sessions@);
        }
        out
    }
}

} // verus!
