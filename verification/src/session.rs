//! The session store: a bounded set of conversations keyed by identifier,
//! with expiry after a period without updates.

use vstd::prelude::*;
use std::time::{Duration, SystemTime};

use crate::types::{duration_nanos, ulid_text, Message, Session, SessionConfig, SessionError, SessionId};

verus! {

/// Length of a duration in nanoseconds.
///
/// Trusted: `Duration::as_nanos` returns the total number of nanoseconds of
/// the duration.
pub assume_specification[ Duration::as_nanos ](d: &Duration) -> (n: u128)
    ensures
        n as nat == duration_nanos(*d),
;

/// The current wall-clock time.
///
/// Trusted: calls `SystemTime::now`; the clock decides, so nothing is stated.
#[verifier::external_body]
fn current_time() -> SystemTime {
    SystemTime::now()
}

/// Time since `t`, or `None` when the clock reads earlier than `t`.
///
/// Trusted: calls `SystemTime::elapsed`, which reads the clock, so nothing
/// is stated of the result.
#[verifier::external_body]
fn time_since(t: &SystemTime) -> Option<Duration> {
    t.elapsed().ok()
}

/// Whether a session of age `age` has outlived `timeout`: only a known age
/// strictly longer than the timeout counts.
pub open spec fn age_exceeds(age: Option<Duration>, timeout: Duration) -> bool {
    age matches Some(a) && duration_nanos(a) > duration_nanos(timeout)
}

/// Whether a session of age `age` is still within `timeout`.
pub open spec fn age_within(age: Option<Duration>, timeout: Duration) -> bool {
    age matches Some(a) && duration_nanos(a) <= duration_nanos(timeout)
}

/// Whether a session of age `age` has expired under `timeout`.
pub fn is_expired(age: Option<Duration>, timeout: &Duration) -> (b: bool)
    ensures
        b == age_exceeds(age, *timeout),
{
    match age {
        Some(a) => a.as_nanos() > timeout.as_nanos(),
        None => false,
    }
}

/// No two sessions share an identifier.
pub open spec fn ids_distinct(s: Seq<Session>) -> bool {
    forall|i: int, j: int|
        0 <= i < s.len() && 0 <= j < s.len() && i != j ==> #[trigger] s[i].id.value()
            != #[trigger] s[j].id.value()
}

/// Index of the session with identifier `id`, searching from `i`.
pub open spec fn position_from(s: Seq<Session>, id: SessionId, i: int) -> Option<int>
    decreases s.len() - i,
{
    if i < 0 || i >= s.len() {
        None
    } else if s[i].id.value() == id.value() {
        Some(i)
    } else {
        position_from(s, id, i + 1)
    }
}

/// Index of the session with identifier `id`.
pub open spec fn position_of(s: Seq<Session>, id: SessionId) -> Option<int> {
    position_from(s, id, 0)
}

/// The session stored under `id`, if any.
pub open spec fn lookup(s: Seq<Session>, id: SessionId) -> Option<Session> {
    match position_of(s, id) {
        Some(k) => Some(s[k]),
        None => None,
    }
}

proof fn lemma_position_from(s: Seq<Session>, id: SessionId, i: int)
    requires
        0 <= i,
    ensures
        position_from(s, id, i) matches Some(k) ==> i <= k < s.len() && s[k].id.value()
            == id.value(),
        position_from(s, id, i) is None ==> forall|k: int|
            i <= k < s.len() ==> s[k].id.value() != id.value(),
    decreases s.len() - i,
{
    if i < s.len() && s[i].id.value() != id.value() {
        lemma_position_from(s, id, i + 1);
    }
}

/// In a store without duplicate identifiers, the session at `k` is the one
/// found under its identifier.
pub proof fn lemma_position_unique(s: Seq<Session>, k: int)
    requires
        ids_distinct(s),
        0 <= k < s.len(),
    ensures
        position_of(s, s[k].id) == Some(k),
{
    lemma_position_from(s, s[k].id, 0);
    match position_of(s, s[k].id) {
        Some(j) => {
            if j != k {
                assert(s[j].id.value() != s[k].id.value());
            }
        },
        None => {},
    }
}

/// Whether `id` is absent from the store.
pub open spec fn absent(s: Seq<Session>, id: SessionId) -> bool {
    forall|k: int| 0 <= k < s.len() ==> #[trigger] s[k].id.value() != id.value()
}

proof fn lemma_position_facts(s: Seq<Session>, id: SessionId)
    ensures
        position_of(s, id) matches Some(k) ==> 0 <= k < s.len() && s[k].id.value()
            == id.value(),
        position_of(s, id) is None <==> absent(s, id),
{
    lemma_position_from(s, id, 0);
}

/// A session that has just been opened: nothing in it yet.
pub open spec fn is_fresh(s: Session) -> bool {
    &&& s.messages@.len() == 0
    &&& s.mcp_servers@.len() == 0
    &&& s.available_tools@.len() == 0
    &&& s.available_prompts@.len() == 0
    &&& s.created_at == s.updated_at
}

/// For each age, whether a session of that age has expired under `timeout`.
pub open spec fn expiry_flags(ages: Seq<Option<Duration>>, timeout: Duration) -> Seq<bool> {
    Seq::new(ages.len(), |k: int| age_exceeds(ages[k], timeout))
}

/// The sessions of `s` whose flag in `drop` is not set, in order.
pub open spec fn kept(s: Seq<Session>, drop: Seq<bool>) -> Seq<Session>
    decreases s.len(),
{
    if s.len() == 0 || drop.len() == 0 {
        s
    } else {
        let rest = kept(s.drop_last(), drop.drop_last());
        if drop.last() { rest } else { rest.push(s.last()) }
    }
}

/// Number of set flags.
pub open spec fn count_set(f: Seq<bool>) -> nat
    decreases f.len(),
{
    if f.len() == 0 {
        0
    } else {
        count_set(f.drop_last()) + if f.last() { 1nat } else { 0nat }
    }
}

/// Total number of messages over all sessions.
pub open spec fn message_total(s: Seq<Session>) -> nat
    decreases s.len(),
{
    if s.len() == 0 {
        0
    } else {
        message_total(s.drop_last()) + s.last().messages@.len()
    }
}

/// Number of ages that satisfy `within` (or, when `within` is false, exceed) `timeout`.
pub open spec fn count_ages(ages: Seq<Option<Duration>>, timeout: Duration, within: bool) -> nat
    decreases ages.len(),
{
    if ages.len() == 0 {
        0
    } else {
        let hit = if within { age_within(ages.last(), timeout) } else { age_exceeds(ages.last(), timeout) };
        count_ages(ages.drop_last(), timeout, within) + if hit { 1nat } else { 0nat }
    }
}

proof fn lemma_kept_subset(s: Seq<Session>, drop: Seq<bool>)
    requires
        s.len() == drop.len(),
    ensures
        kept(s, drop).len() + count_set(drop) == s.len(),
        forall|j: int| 0 <= j < kept(s, drop).len() ==> exists|i: int|
            0 <= i < s.len() && #[trigger] kept(s, drop)[j] == s[i],
    decreases s.len(),
{
    if s.len() > 0 {
        let s0 = s.drop_last();
        let d0 = drop.drop_last();
        lemma_kept_subset(s0, d0);
        let r0 = kept(s0, d0);
        let r = kept(s, drop);
        assert forall|j: int| 0 <= j < r.len() implies exists|i: int|
            0 <= i < s.len() && #[trigger] r[j] == s[i] by {
            if j < r0.len() {
                let i = choose|i: int| 0 <= i < s0.len() && r0[j] == s0[i];
                assert(r[j] == s[i]);
            } else {
                assert(r[j] == s[s.len() - 1]);
            }
        }
    }
}

/// Removing sessions keeps identifiers distinct.
pub proof fn lemma_kept_distinct(s: Seq<Session>, drop: Seq<bool>)
    requires
        s.len() == drop.len(),
        ids_distinct(s),
    ensures
        ids_distinct(kept(s, drop)),
    decreases s.len(),
{
    if s.len() > 0 {
        let s0 = s.drop_last();
        let d0 = drop.drop_last();
        assert forall|i: int, j: int|
            0 <= i < s0.len() && 0 <= j < s0.len() && i != j implies #[trigger] s0[i].id.value()
                != #[trigger] s0[j].id.value() by {
            assert(s[i].id.value() != s[j].id.value());
        }
        lemma_kept_distinct(s0, d0);
        lemma_kept_subset(s0, d0);
        let r0 = kept(s0, d0);
        let r = kept(s, drop);
        if !drop.last() {
            let last = s.last();
            assert forall|a: int, b: int|
                0 <= a < r.len() && 0 <= b < r.len() && a != b implies #[trigger] r[a].id.value()
                    != #[trigger] r[b].id.value() by {
                if a < r0.len() && b < r0.len() {
                    assert(r0[a].id.value() != r0[b].id.value());
                } else if a < r0.len() {
                    let i = choose|i: int| 0 <= i < s0.len() && #[trigger] r0[a] == s0[i];
                    assert(s[i].id.value() != s[s.len() - 1].id.value());
                } else {
                    let i = choose|i: int| 0 <= i < s0.len() && #[trigger] r0[b] == s0[i];
                    assert(s[i].id.value() != s[s.len() - 1].id.value());
                }
            }
        }
    }
}

proof fn lemma_message_total_prefix(s: Seq<Session>, i: int)
    requires
        0 <= i <= s.len(),
    ensures
        message_total(s.take(i)) <= message_total(s),
    decreases s.len(),
{
    if i < s.len() {
        assert(s.drop_last().take(i) =~= s.take(i));
        lemma_message_total_prefix(s.drop_last(), i);
    } else {
        assert(s.take(i) =~= s);
    }
}

proof fn lemma_count_ages_bound(ages: Seq<Option<Duration>>, timeout: Duration)
    ensures
        count_ages(ages, timeout, true) + count_ages(ages, timeout, false) <= ages.len(),
    decreases ages.len(),
{
    if ages.len() > 0 {
        lemma_count_ages_bound(ages.drop_last(), timeout);
    }
}

/// Counts over the sessions of the store.
#[derive(Debug, Clone, Copy)]
pub struct SessionStats {
    pub total_sessions: usize,
    pub active_sessions: usize,
    pub expired_sessions: usize,
    pub total_messages: usize,
    pub max_sessions: usize,
    pub session_timeout: Duration,
}

/// Holds the open sessions, at most `max_sessions` of them created here,
/// each under its own identifier.
#[derive(Debug)]
pub struct SessionManager {
    sessions: Vec<Session>,
    config: SessionConfig,
}

impl SessionManager {
    /// The stored sessions, in the order they were added.
    pub closed spec fn spec_sessions(&self) -> Seq<Session> {
        self.sessions@
    }

    /// The settings of the store.
    pub closed spec fn spec_config(&self) -> SessionConfig {
        self.config
    }

    /// The store's invariant: no identifier occurs twice, and the store
    /// never holds more sessions than its limit allows.
    pub open spec fn wf(&self) -> bool {
        &&& ids_distinct(self.spec_sessions())
        &&& self.spec_sessions().len() <= self.spec_config().max_sessions
    }

    /// An empty store with the given settings.
    pub fn new(config: SessionConfig) -> (m: Self)
        ensures
            m.wf(),
            m.spec_sessions().len() == 0,
            m.spec_config() == config,
    {
        Self { sessions: Vec::new(), config }
    }

    fn find(&self, id: &SessionId) -> (r: Option<usize>)
        ensures
            match position_of(self.spec_sessions(), *id) {
                Some(k) => r == Some(k as usize) && 0 <= k < self.sessions.len(),
                None => r is None,
            },
    {
        proof { lemma_position_from(self.sessions@, *id, 0); }
        let n = self.sessions.len();
        let mut i: usize = 0;
        while i < n
            invariant
                n == self.sessions@.len(),
                i <= n,
                position_of(self.sessions@, *id) == position_from(self.sessions@, *id, i as int),
            decreases n - i,
        {
            if self.sessions[i].id.to_value() == id.to_value() {
                return Some(i);
            }
            i = i + 1;
        }
        None
    }

    /// Open a new, empty session, unless the store already holds
    /// `max_sessions` sessions.
    pub fn create_session(&mut self) -> (r: Result<Session, SessionError>)
        requires
            old(self).wf(),
        ensures
            final(self).wf(),
            final(self).spec_config() == old(self).spec_config(),
            (r is Err) <==> old(self).spec_sessions().len() >= old(self).spec_config().max_sessions,
            r is Err ==> (r matches Err(SessionError::LimitExceeded) && final(self).spec_sessions()
                == old(self).spec_sessions()),
            r matches Ok(s) ==> {
                &&& is_fresh(s)
                &&& lookup(final(self).spec_sessions(), s.id) matches Some(t)
                &&& is_fresh(t) && t.created_at == s.created_at
                &&& absent(old(self).spec_sessions(), s.id) ==> final(self).spec_sessions()
                    == old(self).spec_sessions().push(t)
                &&& !absent(old(self).spec_sessions(), s.id) ==> final(self).spec_sessions().len()
                    == old(self).spec_sessions().len()
                &&& forall|other: SessionId|
                    other.value() != s.id.value() ==> lookup(
                        final(self).spec_sessions(),
                        other,
                    ) == lookup(old(self).spec_sessions(), other)
            },
    {
        if self.sessions.len() >= self.config.max_sessions {
            return Err(SessionError::LimitExceeded);
        }
        let now = current_time();
        let id = SessionId::new();
        let stored = Session {
            id,
            messages: Vec::new(),
            mcp_servers: Vec::new(),
            available_tools: Vec::new(),
            available_prompts: Vec::new(),
            created_at: now,
            updated_at: now,
        };
        let returned = Session {
            id,
            messages: Vec::new(),
            mcp_servers: Vec::new(),
            available_tools: Vec::new(),
            available_prompts: Vec::new(),
            created_at: now,
            updated_at: now,
        };
        let ghost old_s = self.sessions@;
        proof { lemma_position_facts(old_s, id); }
        match self.find(&id) {
            Some(k) => {
                self.sessions.set(k, stored);
                proof {
                    let new_s = self.sessions@;
                    assert forall|i: int, j: int|
                        0 <= i < new_s.len() && 0 <= j < new_s.len() && i != j implies #[trigger] new_s[i].id.value()
                            != #[trigger] new_s[j].id.value() by {
                        assert(old_s[i].id.value() != old_s[j].id.value());
                    }
                    lemma_position_unique(new_s, k as int);
                    assert forall|other: SessionId| other.value() != id.value() implies lookup(new_s, other)
                        == lookup(old_s, other) by {
                        lemma_position_facts(old_s, other);
                        lemma_position_facts(new_s, other);
                        if let Some(j) = position_of(old_s, other) {
                            lemma_position_unique(old_s, j);
                            lemma_position_unique(new_s, j);
                        }
                        if let Some(j) = position_of(new_s, other) {
                            lemma_position_unique(new_s, j);
                            lemma_position_unique(old_s, j);
                        }
                    }
                }
            },
            None => {
                self.sessions.push(stored);
                proof {
                    let new_s = self.sessions@;
                    assert forall|i: int, j: int|
                        0 <= i < new_s.len() && 0 <= j < new_s.len() && i != j implies #[trigger] new_s[i].id.value()
                            != #[trigger] new_s[j].id.value() by {
                        if i < old_s.len() && j < old_s.len() {
                            assert(old_s[i].id.value() != old_s[j].id.value());
                        } else if i < old_s.len() {
                            assert(old_s[i].id.value() != id.value());
                        } else {
                            assert(old_s[j].id.value() != id.value());
                        }
                    }
                    lemma_position_unique(new_s, old_s.len() as int);
                    assert forall|other: SessionId| other.value() != id.value() implies lookup(new_s, other)
                        == lookup(old_s, other) by {
                        lemma_position_facts(old_s, other);
                        lemma_position_facts(new_s, other);
                        if let Some(j) = position_of(old_s, other) {
                            lemma_position_unique(old_s, j);
                            lemma_position_unique(new_s, j);
                        }
                        if let Some(j) = position_of(new_s, other) {
                            lemma_position_unique(new_s, j);
                            if j < old_s.len() {
                                lemma_position_unique(old_s, j);
                            }
                        }
                    }
                }
            },
        }
        Ok(returned)
    }

    /// The session stored under `id`, unless it is missing or has gone
    /// longer than the session timeout without an update.
    pub fn get_session(&self, id: &SessionId) -> (r: Option<&Session>)
        ensures
            position_of(self.spec_sessions(), *id) is None ==> r is None,
            position_of(self.spec_sessions(), *id) matches Some(k) ==> (r matches Some(s) ==> *s
                == self.spec_sessions()[k]),
    {
        match self.find(id) {
            Some(k) => {
                let age = time_since(&self.sessions[k].updated_at);
                self.get_session_at_age(id, age)
            },
            None => None,
        }
    }

    /// The session stored under `id`, given `age`, the time since its last
    /// update (`None` where the clock reads earlier than that update):
    /// nothing when it is missing or has outlived the session timeout.
    pub fn get_session_at_age(&self, id: &SessionId, age: Option<Duration>) -> (r: Option<&Session>)
        ensures
            match position_of(self.spec_sessions(), *id) {
                None => r is None,
                Some(k) => if age_exceeds(age, self.spec_config().session_timeout) {
                    r is None
                } else {
                    r matches Some(s) && *s == self.spec_sessions()[k]
                },
            },
    {
        match self.find(id) {
            Some(k) => {
                if is_expired(age, &self.config.session_timeout) {
                    None
                } else {
                    let found = &self.sessions[k];
                    assert(position_of(self.spec_sessions(), *id) == Some(k as int));
                    assert(*found == self.spec_sessions()[k as int]);
                    Some(found)
                }
            },
            None => None,
        }
    }

    /// Replace the stored session that has the same identifier as `session`,
    /// stamping it with the current time.
    pub fn update_session(&mut self, session: Session) -> (r: Result<(), SessionError>)
        requires
            old(self).wf(),
        ensures
            final(self).wf(),
            final(self).spec_config() == old(self).spec_config(),
            r is Ok <==> position_of(old(self).spec_sessions(), session.id) is Some,
            r is Err ==> (r matches Err(SessionError::NotFound(t)) && t@ == ulid_text(session.id.value()) && final(self).spec_sessions()
                == old(self).spec_sessions()),
            r is Ok ==> {
                let k = position_of(old(self).spec_sessions(), session.id)->0;
                &&& final(self).spec_sessions() == old(self).spec_sessions().update(
                    k,
                    Session { updated_at: final(self).spec_sessions()[k].updated_at, ..session },
                )
                &&& lookup(final(self).spec_sessions(), session.id) == Some(final(self).spec_sessions()[k])
            },
    {
        match self.find(&session.id) {
            Some(k) => {
                let ghost old_s = self.sessions@;
                let mut updated = session;
                updated.updated_at = current_time();
                self.sessions.set(k, updated);
                proof {
                    let new_s = self.sessions@;
                    lemma_position_facts(old_s, session.id);
                    assert forall|i: int, j: int|
                        0 <= i < new_s.len() && 0 <= j < new_s.len() && i != j implies #[trigger] new_s[i].id.value()
                            != #[trigger] new_s[j].id.value() by {
                        assert(old_s[i].id.value() != old_s[j].id.value());
                    }
                    lemma_position_unique(new_s, k as int);
                }
                Ok(())
            },
            None => Err(SessionError::NotFound(session.id.to_text())),
        }
    }

    /// Append `message` to the session stored under `id`, stamping it with
    /// the current time.
    pub fn add_message(&mut self, id: &SessionId, message: Message) -> (r: Result<(), SessionError>)
        requires
            old(self).wf(),
        ensures
            final(self).wf(),
            final(self).spec_config() == old(self).spec_config(),
            r is Ok <==> position_of(old(self).spec_sessions(), *id) is Some,
            r is Err ==> (r matches Err(SessionError::NotFound(t)) && t@ == ulid_text(id.value()) && final(self).spec_sessions()
                == old(self).spec_sessions()),
            r is Ok ==> {
                let k = position_of(old(self).spec_sessions(), *id)->0;
                let before = old(self).spec_sessions()[k];
                let after = final(self).spec_sessions()[k];
                &&& final(self).spec_sessions().len() == old(self).spec_sessions().len()
                &&& forall|j: int|
                    0 <= j < old(self).spec_sessions().len() && j != k ==> final(self).spec_sessions()[j]
                        == old(self).spec_sessions()[j]
                &&& after.messages@ == before.messages@.push(message)
                &&& after.id == before.id
                &&& after.mcp_servers == before.mcp_servers
                &&& after.available_tools == before.available_tools
                &&& after.available_prompts == before.available_prompts
                &&& after.created_at == before.created_at
                &&& lookup(final(self).spec_sessions(), *id) == Some(after)
            },
    {
        match self.find(id) {
            Some(k) => {
                let ghost old_s = self.sessions@;
                let now = current_time();
                let mut s = self.sessions.remove(k);
                s.messages.push(message);
                s.updated_at = now;
                self.sessions.insert(k, s);
                proof {
                    let new_s = self.sessions@;
                    assert forall|j: int| 0 <= j < old_s.len() && j != k implies new_s[j] == old_s[j] by {
                        if j < k {
                            assert(new_s[j] == old_s[j]);
                        } else {
                            assert(new_s[j] == old_s[j]);
                        }
                    }
                    assert forall|i: int, j: int|
                        0 <= i < new_s.len() && 0 <= j < new_s.len() && i != j implies #[trigger] new_s[i].id.value()
                            != #[trigger] new_s[j].id.value() by {
                        assert(old_s[i].id.value() != old_s[j].id.value());
                    }
                    lemma_position_facts(old_s, *id);
                    lemma_position_unique(new_s, k as int);
                    SessionId::lemma_value_eq(new_s[k as int].id, *id);
                }
                Ok(())
            },
            None => Err(SessionError::NotFound(id.to_text())),
        }
    }

    /// Remove the session stored under `id`; whether there was one.
    pub fn delete_session(&mut self, id: &SessionId) -> (removed: bool)
        requires
            old(self).wf(),
        ensures
            final(self).wf(),
            final(self).spec_config() == old(self).spec_config(),
            removed <==> position_of(old(self).spec_sessions(), *id) is Some,
            !removed ==> final(self).spec_sessions() == old(self).spec_sessions(),
            removed ==> final(self).spec_sessions() == old(self).spec_sessions().remove(
                position_of(old(self).spec_sessions(), *id)->0,
            ),
            lookup(final(self).spec_sessions(), *id) is None,
    {
        let ghost old_s = self.sessions@;
        proof { lemma_position_facts(old_s, *id); }
        match self.find(id) {
            Some(k) => {
                self.sessions.remove(k);
                proof {
                    let new_s = self.sessions@;
                    assert forall|i: int, j: int|
                        0 <= i < new_s.len() && 0 <= j < new_s.len() && i != j implies #[trigger] new_s[i].id.value()
                            != #[trigger] new_s[j].id.value() by {
                        let oi = if i < k { i } else { i + 1 };
                        let oj = if j < k { j } else { j + 1 };
                        assert(old_s[oi].id.value() != old_s[oj].id.value());
                    }
                    assert forall|j: int| 0 <= j < new_s.len() implies #[trigger] new_s[j].id.value()
                        != id.value() by {
                        let oj = if j < k { j } else { j + 1 };
                        assert(old_s[oj].id.value() != old_s[k as int].id.value());
                    }
                    lemma_position_facts(new_s, *id);
                }
                true
            },
            None => false,
        }
    }

    /// The identifiers of the stored sessions.
    pub fn list_sessions(&self) -> (ids: Vec<SessionId>)
        ensures
            ids@.len() == self.spec_sessions().len(),
            forall|k: int| 0 <= k < ids@.len() ==> #[trigger] ids@[k] == self.spec_sessions()[k].id,
    {
        let mut ids: Vec<SessionId> = Vec::new();
        let n = self.sessions.len();
        let mut i: usize = 0;
        while i < n
            invariant
                n == self.sessions@.len(),
                i <= n,
                ids@.len() == i,
                forall|k: int| 0 <= k < i ==> #[trigger] ids@[k] == self.sessions@[k].id,
            decreases n - i,
        {
            ids.push(self.sessions[i].id);
            i = i + 1;
        }
        ids
    }

    /// Number of stored sessions, expired ones included.
    pub fn get_session_count(&self) -> (n: usize)
        ensures
            n == self.spec_sessions().len(),
    {
        self.sessions.len()
    }

    /// Remove the sessions whose flag is set; how many were removed.
    pub fn remove_flagged(&mut self, flags: &Vec<bool>) -> (removed: usize)
        requires
            old(self).wf(),
            flags@.len() == old(self).spec_sessions().len(),
        ensures
            final(self).wf(),
            final(self).spec_config() == old(self).spec_config(),
            final(self).spec_sessions() == kept(old(self).spec_sessions(), flags@),
            removed == count_set(flags@),
    {
        let ghost old_s = self.sessions@;
        let n = self.sessions.len();
        let mut out: Vec<Session> = Vec::new();
        let mut removed: usize = 0;
        let mut i: usize = 0;
        let mut rest: Vec<Session> = Vec::new();
        std::mem::swap(&mut rest, &mut self.sessions);
        while i < n
            invariant
                n == old_s.len(),
                n == flags@.len(),
                i <= n,
                rest@ == old_s.skip(i as int),
                out@ == kept(old_s.take(i as int), flags@.take(i as int)),
                removed == count_set(flags@.take(i as int)),
                removed <= i,
            decreases n - i,
        {
            let s = rest.remove(0);
            assert(s == old_s[i as int]);
            assert(rest@ =~= old_s.skip(i + 1));
            assert(old_s.take(i + 1).drop_last() =~= old_s.take(i as int));
            assert(flags@.take(i + 1).drop_last() =~= flags@.take(i as int));
            if flags[i] {
                removed = removed + 1;
            } else {
                out.push(s);
            }
            i = i + 1;
        }
        assert(old_s.take(n as int) =~= old_s);
        assert(flags@.take(n as int) =~= flags@);
        proof {
            lemma_kept_distinct(old_s, flags@);
            lemma_kept_subset(old_s, flags@);
        }
        self.sessions = out;
        removed
    }

    /// Remove every session whose age, given in `ages` (`None` where the
    /// clock reads earlier than its last update), is longer than the session
    /// timeout; how many were removed.
    pub fn cleanup_at_ages(&mut self, ages: &Vec<Option<Duration>>) -> (removed: usize)
        requires
            old(self).wf(),
            ages@.len() == old(self).spec_sessions().len(),
        ensures
            final(self).wf(),
            final(self).spec_config() == old(self).spec_config(),
            final(self).spec_sessions() == kept(
                old(self).spec_sessions(),
                expiry_flags(ages@, old(self).spec_config().session_timeout),
            ),
            removed == count_set(expiry_flags(ages@, old(self).spec_config().session_timeout)),
    {
        let mut flags: Vec<bool> = Vec::new();
        let n = ages.len();
        let mut i: usize = 0;
        while i < n
            invariant
                n == ages@.len(),
                i <= n,
                flags@ == expiry_flags(ages@, self.config.session_timeout).take(i as int),
            decreases n - i,
        {
            flags.push(is_expired(ages[i], &self.config.session_timeout));
            i = i + 1;
            assert(flags@ =~= expiry_flags(ages@, self.config.session_timeout).take(i as int));
        }
        assert(flags@ =~= expiry_flags(ages@, self.config.session_timeout));
        self.remove_flagged(&flags)
    }

    /// Remove every session that has gone longer than the session timeout
    /// without an update; how many were removed. The ages are read from the
    /// clock, one per session, and judged as `cleanup_at_ages` judges them.
    pub fn cleanup_expired_sessions(&mut self) -> (removed: usize)
        requires
            old(self).wf(),
        ensures
            final(self).wf(),
            final(self).spec_config() == old(self).spec_config(),
            exists|flags: Seq<bool>|
                flags.len() == old(self).spec_sessions().len() && final(self).spec_sessions()
                    == kept(old(self).spec_sessions(), flags) && removed == count_set(flags),
            exists|ages: Seq<Option<Duration>>|
                ages.len() == old(self).spec_sessions().len() && final(self).spec_sessions() == kept(
                    old(self).spec_sessions(),
                    #[trigger] expiry_flags(ages, old(self).spec_config().session_timeout),
                ) && removed == count_set(expiry_flags(ages, old(self).spec_config().session_timeout)),
    {
        let mut ages: Vec<Option<Duration>> = Vec::new();
        let n = self.sessions.len();
        let mut i: usize = 0;
        while i < n
            invariant
                n == self.sessions@.len(),
                i <= n,
                ages@.len() == i,
            decreases n - i,
        {
            ages.push(time_since(&self.sessions[i].updated_at));
            i = i + 1;
        }
        let ghost before = self.spec_sessions();
        let ghost timeout = self.spec_config().session_timeout;
        let removed = self.cleanup_at_ages(&ages);
        assert(expiry_flags(ages@, timeout).len() == before.len());
        removed
    }

    /// Counts over the stored sessions, given the age of each one (`None`
    /// where the clock reads earlier than its last update).
    pub fn stats_for_ages(&self, ages: &Vec<Option<Duration>>) -> (st: SessionStats)
        requires
            ages@.len() == self.spec_sessions().len(),
            message_total(self.spec_sessions()) <= usize::MAX,
        ensures
            st.total_sessions == self.spec_sessions().len(),
            st.active_sessions == count_ages(ages@, self.spec_config().session_timeout, true),
            st.expired_sessions == count_ages(ages@, self.spec_config().session_timeout, false),
            st.total_messages == message_total(self.spec_sessions()),
            st.max_sessions == self.spec_config().max_sessions,
            st.session_timeout == self.spec_config().session_timeout,
    {
        let n = self.sessions.len();
        let timeout = self.config.session_timeout;
        let mut total_messages: usize = 0;
        let mut active: usize = 0;
        let mut expired: usize = 0;
        let mut i: usize = 0;
        while i < n
            invariant
                n == self.sessions@.len(),
                n == ages@.len(),
                timeout == self.config.session_timeout,
                i <= n,
                message_total(self.sessions@) <= usize::MAX,
                total_messages == message_total(self.sessions@.take(i as int)),
                active == count_ages(ages@.take(i as int), timeout, true),
                expired == count_ages(ages@.take(i as int), timeout, false),
                active + expired <= i,
            decreases n - i,
        {
            assert(self.sessions@.take(i + 1).drop_last() =~= self.sessions@.take(i as int));
            assert(ages@.take(i + 1).drop_last() =~= ages@.take(i as int));
            proof { lemma_message_total_prefix(self.sessions@, i as int + 1); }
            total_messages = total_messages + self.sessions[i].messages.len();
            let age = ages[i];
            match age {
                Some(a) => {
                    if a.as_nanos() <= timeout.as_nanos() {
                        active = active + 1;
                    } else {
                        expired = expired + 1;
                    }
                },
                None => {},
            }
            i = i + 1;
        }
        assert(self.sessions@.take(n as int) =~= self.sessions@);
        assert(ages@.take(n as int) =~= ages@);
        SessionStats {
            total_sessions: n,
            active_sessions: active,
            expired_sessions: expired,
            total_messages,
            max_sessions: self.config.max_sessions,
            session_timeout: timeout,
        }
    }

    /// Counts over the stored sessions, each aged by the clock now.
    pub fn get_session_stats(&self) -> (st: SessionStats)
        requires
            message_total(self.spec_sessions()) <= usize::MAX,
        ensures
            st.total_sessions == self.spec_sessions().len(),
            st.active_sessions + st.expired_sessions <= st.total_sessions,
            st.total_messages == message_total(self.spec_sessions()),
            st.max_sessions == self.spec_config().max_sessions,
            st.session_timeout == self.spec_config().session_timeout,
    {
        let mut ages: Vec<Option<Duration>> = Vec::new();
        let n = self.sessions.len();
        let mut i: usize = 0;
        while i < n
            invariant
                n == self.sessions@.len(),
                i <= n,
                ages@.len() == i,
            decreases n - i,
        {
            ages.push(time_since(&self.sessions[i].updated_at));
            i = i + 1;
        }
        proof {
            lemma_count_ages_bound(ages@, self.config.session_timeout);
        }
        self.stats_for_ages(&ages)
    }
}

/// Cleaning up removes exactly the flagged sessions: what is left and what
/// was removed add up to what there was.
pub proof fn lemma_cleanup_accounts(s: Seq<Session>, flags: Seq<bool>)
    requires
        s.len() == flags.len(),
    ensures
        kept(s, flags).len() + count_set(flags) == s.len(),
{
    lemma_kept_subset(s, flags);
}

/// In a store without duplicate identifiers, a session is kept exactly when
/// its flag is not set.
proof fn lemma_kept_membership(s: Seq<Session>, drop: Seq<bool>)
    requires
        s.len() == drop.len(),
        ids_distinct(s),
    ensures
        forall|k: int| 0 <= k < s.len() ==> (kept(s, drop).contains(#[trigger] s[k]) <==> !drop[k]),
    decreases s.len(),
{
    if s.len() > 0 {
        let s0 = s.drop_last();
        let d0 = drop.drop_last();
        let n = s.len() - 1;
        assert forall|i: int, j: int|
            0 <= i < s0.len() && 0 <= j < s0.len() && i != j implies #[trigger] s0[i].id.value()
                != #[trigger] s0[j].id.value() by {
            assert(s[i].id.value() != s[j].id.value());
        }
        lemma_kept_membership(s0, d0);
        lemma_kept_subset(s0, d0);
        let r0 = kept(s0, d0);
        let r = kept(s, drop);
        assert(!r0.contains(s[n])) by {
            if r0.contains(s[n]) {
                let j = choose|j: int| 0 <= j < r0.len() && r0[j] == s[n];
                let i = choose|i: int| 0 <= i < s0.len() && #[trigger] r0[j] == s0[i];
                assert(s[i].id.value() != s[n].id.value());
            }
        }
        assert forall|k: int| 0 <= k < s.len() implies (r.contains(#[trigger] s[k]) <==> !drop[k]) by {
            if k < n {
                assert(s[k] == s0[k]);
                assert(s[k].id.value() != s[n].id.value());
                assert(s[k] != s[n]);
                if !drop.last() {
                    assert(r == r0.push(s[n]));
                    if r0.contains(s0[k]) {
                        let j = choose|j: int| 0 <= j < r0.len() && r0[j] == s0[k];
                        assert(r[j] == s[k]);
                    }
                    if r.contains(s[k]) {
                        let j = choose|j: int| 0 <= j < r.len() && r[j] == s[k];
                        assert(j < r0.len());
                        assert(r0[j] == s0[k]);
                    }
                }
            } else {
                if !drop.last() {
                    assert(r == r0.push(s[n]));
                    assert(r[r0.len() as int] == s[n]);
                }
            }
        }
    }
}

proof fn lemma_count_expired(ages: Seq<Option<Duration>>, timeout: Duration)
    ensures
        count_set(expiry_flags(ages, timeout)) == count_ages(ages, timeout, false),
    decreases ages.len(),
{
    if ages.len() > 0 {
        assert(expiry_flags(ages, timeout).drop_last() =~= expiry_flags(ages.drop_last(), timeout));
        lemma_count_expired(ages.drop_last(), timeout);
    }
}

/// Cleaning up at given ages removes exactly the sessions whose known age is
/// strictly longer than the session timeout and keeps every other one; it
/// reports as many removals as the statistics count expired sessions at
/// those ages, and what is kept and what is removed add up to the store.
pub proof fn lemma_cleanup_removes_exactly_expired(s: Seq<Session>, ages: Seq<Option<Duration>>, timeout: Duration)
    requires
        s.len() == ages.len(),
        ids_distinct(s),
    ensures
        forall|k: int| 0 <= k < s.len() ==> (kept(s, expiry_flags(ages, timeout)).contains(#[trigger] s[k])
            <==> !(ages[k] matches Some(a) && duration_nanos(a) > duration_nanos(timeout))),
        count_set(expiry_flags(ages, timeout)) == count_ages(ages, timeout, false),
        kept(s, expiry_flags(ages, timeout)).len() + count_set(expiry_flags(ages, timeout)) == s.len(),
{
    let f = expiry_flags(ages, timeout);
    lemma_kept_membership(s, f);
    lemma_count_expired(ages, timeout);
    lemma_kept_subset(s, f);
}

} // verus!
