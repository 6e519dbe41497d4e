//! The durable store: sessions and events persisted in SQLite. The store's
//! two tables are modeled by a map from id to session record and a sequence
//! of events; every operation's contract speaks of those models.

use vstd::prelude::*;
use crate::error::KenError;
use crate::jsontext::{ids_lit, push_ids};
use crate::session::{
    completed, slept, with_status, Event, EventV, Session, SessionStatus, SessionV,
};
use crate::strutil::{lex_le, string_from_chars};
use vstd::string::StringExecFns;

verus! {

#[verifier::external_type_specification]
#[verifier::external_body]
pub struct ExConnection(rusqlite::Connection);

/// Storage layer: wraps the SQLite database holding sessions and events.
pub struct Storage {
    conn: rusqlite::Connection,
}

/// The sessions table of the store, keyed by id.
pub uninterp spec fn db_sessions(s: &Storage) -> Map<Seq<char>, SessionV>;

/// The events table of the store, oldest first.
pub uninterp spec fn db_events(s: &Storage) -> Seq<EventV>;

/// Builds a session record from its stored columns; an unknown status
/// column decodes to the defensive default.
fn session_from_row(
    id: String,
    ken: String,
    task: String,
    status: String,
    parent_id: Option<String>,
    trigger: Option<String>,
    checkpoint: Option<String>,
    result: Option<String>,
    created_at: String,
    updated_at: String,
) -> (s: Session)
    ensures
        s@ == (SessionV {
            id: id@,
            ken: ken@,
            task: task@,
            status: crate::session::status_of_str(status@),
            parent_id: crate::strutil::opt_view(parent_id),
            trigger: crate::strutil::opt_view(trigger),
            checkpoint: crate::strutil::opt_view(checkpoint),
            result: crate::strutil::opt_view(result),
            created_at: created_at@,
            updated_at: updated_at@,
        }),
{
    let status = SessionStatus::from_str(status.as_str());
    Session { id, ken, task, status, parent_id, trigger, checkpoint, result, created_at, updated_at }
}

/// `list` holds exactly the records of `m` that satisfy `pred`, each under
/// its own id and without repetition, ordered by `created_at` ascending.
pub open spec fn lists_matching(
    m: Map<Seq<char>, SessionV>,
    pred: spec_fn(SessionV) -> bool,
    list: Seq<SessionV>,
) -> bool {
    &&& forall|i: int|
        0 <= i < list.len() ==> m.contains_key(#[trigger] list[i].id) && m[list[i].id] == list[i]
            && pred(list[i])
    &&& forall|i: int, j: int| 0 <= i < j < list.len() ==> list[i].id != list[j].id
    &&& forall|id: Seq<char>|
        #[trigger] m.contains_key(id) && pred(m[id]) ==> exists|i: int|
            0 <= i < list.len() && (#[trigger] list[i]).id == id
    &&& forall|i: int, j: int|
        0 <= i < j < list.len() ==> lex_le(list[i].created_at, list[j].created_at)
}

impl Storage {
    /// The sessions in the store, keyed by id.
    pub open spec fn sessions(&self) -> Map<Seq<char>, SessionV> {
        db_sessions(self)
    }

    /// The events in the store, oldest first.
    pub open spec fn events(&self) -> Seq<EventV> {
        db_events(self)
    }

    /// Relies on rusqlite::Connection::open and execute_batch: attaches to
    /// the database file at `path` and enables write-ahead logging. The
    /// contents are whatever the file holds.
    #[verifier::external_body]
    pub fn open(path: &str) -> (r: Result<Storage, KenError>)
    {
        let conn = rusqlite::Connection::open(path).map_err(|e| KenError::Database(e.to_string()))?;
        conn.execute_batch("PRAGMA journal_mode=WAL;").map_err(
            |e| KenError::Database(e.to_string()),
        )?;
        Ok(Storage { conn })
    }

    /// Relies on rusqlite::Connection::open and execute_batch: attaches to
    /// the database file at `path`, enables write-ahead logging, and
    /// installs the schema (two tables and their indices) if absent.
    #[verifier::external_body]
    pub fn create(path: &str) -> (r: Result<Storage, KenError>)
    {
        let conn = rusqlite::Connection::open(path).map_err(|e| KenError::Database(e.to_string()))?;
        conn.execute_batch("PRAGMA journal_mode=WAL;").map_err(
            |e| KenError::Database(e.to_string()),
        )?;
        conn.execute_batch(
            "CREATE TABLE IF NOT EXISTS sessions (id TEXT PRIMARY KEY, ken TEXT NOT NULL, task TEXT NOT NULL, status TEXT NOT NULL, parent_id TEXT, trigger TEXT, checkpoint TEXT, result TEXT, created_at TEXT NOT NULL, updated_at TEXT NOT NULL, FOREIGN KEY (parent_id) REFERENCES sessions(id));
             CREATE INDEX IF NOT EXISTS idx_sessions_status ON sessions(status);
             CREATE INDEX IF NOT EXISTS idx_sessions_parent ON sessions(parent_id);
             CREATE TABLE IF NOT EXISTS events (id INTEGER PRIMARY KEY AUTOINCREMENT, ts TEXT NOT NULL, session_id TEXT, event_type TEXT NOT NULL, data TEXT, FOREIGN KEY (session_id) REFERENCES sessions(id));
             CREATE INDEX IF NOT EXISTS idx_events_session ON events(session_id);
             CREATE INDEX IF NOT EXISTS idx_events_ts ON events(ts);",
        ).map_err(|e| KenError::Database(e.to_string()))?;
        Ok(Storage { conn })
    }

    /// Relies on rusqlite::Connection::execute running an INSERT on the
    /// sessions table: the row is stored under its id; the primary key
    /// rejects an id already present; a failed single statement changes
    /// nothing.
    #[verifier::external_body]
    pub fn insert_session(&mut self, session: &Session) -> (r: Result<(), KenError>)
        ensures
            r is Ok ==> !db_sessions(old(self)).contains_key(session@.id) && db_sessions(final(self))
                == db_sessions(old(self)).insert(session@.id, session@),
            db_sessions(old(self)).contains_key(session@.id) ==> r is Err,
            r is Err ==> db_sessions(final(self)) == db_sessions(old(self)),
            db_events(final(self)) == db_events(old(self)),
    {
        self.conn.execute(
            "INSERT INTO sessions (id, ken, task, status, parent_id, trigger, checkpoint, result, created_at, updated_at) VALUES (?1, ?2, ?3, ?4, ?5, ?6, ?7, ?8, ?9, ?10)",
            (
                &session.id, &session.ken, &session.task, session.status.as_str(),
                &session.parent_id, &session.trigger, &session.checkpoint, &session.result,
                &session.created_at, &session.updated_at,
            ),
        ).map_err(|e| KenError::Database(e.to_string()))?;
        Ok(())
    }

    /// Relies on rusqlite::Connection::prepare and Statement::query_row
    /// running a SELECT by primary key: the row returned is the stored
    /// record; only the engine's no-row answer (the id is absent) becomes
    /// the not-found error, every other failure a database error, so
    /// callers can tell the protocol case from the structural one.
    #[verifier::external_body]
    pub fn get_session(&self, id: &str) -> (r: Result<Session, KenError>)
        ensures
            r matches Ok(s) ==> db_sessions(self).contains_key(id@) && s@ == db_sessions(self)[id@],
            !db_sessions(self).contains_key(id@) ==> r is Err,
            r matches Err(KenError::SessionNotFound(missing)) ==> missing@ == id@ && !db_sessions(
                self,
            ).contains_key(id@),
            r is Err ==> r matches Err(KenError::SessionNotFound(_)) || r matches Err(
                KenError::Database(_),
            ),
    {
        let mut stmt = self.conn.prepare(
            "SELECT id, ken, task, status, parent_id, trigger, checkpoint, result, created_at, updated_at FROM sessions WHERE id = ?1",
        ).map_err(|e| KenError::Database(e.to_string()))?;
        stmt.query_row((id,), |row| Ok(session_from_row(row.get(0)?, row.get(1)?, row.get(2)?, row.get(3)?,
            row.get(4)?, row.get(5)?, row.get(6)?, row.get(7)?, row.get(8)?, row.get(9)?))).map_err(|e| match e {
            rusqlite::Error::QueryReturnedNoRows => KenError::SessionNotFound(id.to_string()),
            other => KenError::Database(other.to_string()),
        })
    }

    /// Relies on rusqlite prepare/query_map running a SELECT filtered by
    /// status and ordered by created_at (SQLite's binary text order, which
    /// on RFC 3339 text is lexicographic). The filter matches the decode
    /// class of the asked-for status: rows whose status text is not one of
    /// the four non-default names decode to pending, so a pending query
    /// matches them too; for the other statuses the text match is exact.
    #[verifier::external_body]
    pub fn get_sessions_by_status(&self, status: SessionStatus) -> (r: Result<
        Vec<Session>,
        KenError,
    >)
        ensures
            r matches Ok(v) ==> lists_matching(
                db_sessions(self),
                |s: SessionV| s.status == status,
                v.deep_view(),
            ),
    {
        let mut stmt = self.conn.prepare(
            "SELECT id, ken, task, status, parent_id, trigger, checkpoint, result, created_at, updated_at FROM sessions WHERE (status = ?1 OR (?1 = 'pending' AND status NOT IN ('active','sleeping','complete','failed'))) ORDER BY created_at",
        ).map_err(|e| KenError::Database(e.to_string()))?;
        let rows = stmt.query_map((status.as_str(),), |row| Ok(session_from_row(row.get(0)?, row.get(1)?, row.get(2)?, row.get(3)?,
            row.get(4)?, row.get(5)?, row.get(6)?, row.get(7)?, row.get(8)?, row.get(9)?))).map_err(|e| KenError::Database(e.to_string()))?;
        rows.collect::<Result<Vec<_>, _>>().map_err(|e| KenError::Database(e.to_string()))
    }

    /// Relies on rusqlite prepare/query_map running an unfiltered SELECT
    /// ordered by created_at: every stored row comes back.
    #[verifier::external_body]
    pub fn get_all_sessions(&self) -> (r: Result<Vec<Session>, KenError>)
        ensures
            r matches Ok(v) ==> lists_matching(db_sessions(self), |s: SessionV| true, v.deep_view()),
    {
        let mut stmt = self.conn.prepare(
            "SELECT id, ken, task, status, parent_id, trigger, checkpoint, result, created_at, updated_at FROM sessions ORDER BY created_at",
        ).map_err(|e| KenError::Database(e.to_string()))?;
        let rows = stmt.query_map([], |row| Ok(session_from_row(row.get(0)?, row.get(1)?, row.get(2)?, row.get(3)?,
            row.get(4)?, row.get(5)?, row.get(6)?, row.get(7)?, row.get(8)?, row.get(9)?))).map_err(|e| KenError::Database(e.to_string()))?;
        rows.collect::<Result<Vec<_>, _>>().map_err(|e| KenError::Database(e.to_string()))
    }

    /// Relies on rusqlite prepare/query_map running a SELECT filtered by
    /// parent_id and ordered by created_at: exactly the stored rows whose
    /// parent is the given session come back.
    #[verifier::external_body]
    pub fn get_children(&self, parent_id: &str) -> (r: Result<Vec<Session>, KenError>)
        ensures
            r matches Ok(v) ==> lists_matching(
                db_sessions(self),
                |s: SessionV| s.parent_id == Some(parent_id@),
                v.deep_view(),
            ),
    {
        let mut stmt = self.conn.prepare(
            "SELECT id, ken, task, status, parent_id, trigger, checkpoint, result, created_at, updated_at FROM sessions WHERE parent_id = ?1 ORDER BY created_at",
        ).map_err(|e| KenError::Database(e.to_string()))?;
        let rows = stmt.query_map((parent_id,), |row| Ok(session_from_row(row.get(0)?, row.get(1)?, row.get(2)?, row.get(3)?,
            row.get(4)?, row.get(5)?, row.get(6)?, row.get(7)?, row.get(8)?, row.get(9)?))).map_err(|e| KenError::Database(e.to_string()))?;
        rows.collect::<Result<Vec<_>, _>>().map_err(|e| KenError::Database(e.to_string()))
    }

    /// Relies on rusqlite::Connection::execute running an UPDATE by id:
    /// when the row exists its status and updated_at change; otherwise
    /// nothing does. A failed single statement changes nothing.
    #[verifier::external_body]
    pub fn update_session_status(&mut self, id: &str, status: SessionStatus, updated_at: &str)
        -> (r: Result<(), KenError>)
        ensures
            r is Ok && db_sessions(old(self)).contains_key(id@) ==> db_sessions(final(self)) == old(
                self,
            ).sessions().insert(id@, with_status(db_sessions(old(self))[id@], status, updated_at@)),
            r is Ok && !db_sessions(old(self)).contains_key(id@) ==> db_sessions(final(self)) == old(
                self,
            ).sessions(),
            r is Err ==> db_sessions(final(self)) == db_sessions(old(self)),
            db_events(final(self)) == db_events(old(self)),
    {
        self.conn.execute(
            "UPDATE sessions SET status = ?1, updated_at = ?2 WHERE id = ?3",
            (status.as_str(), updated_at, id),
        ).map_err(|e| KenError::Database(e.to_string()))?;
        Ok(())
    }

    /// Relies on rusqlite::Connection::execute running a conditional
    /// UPDATE and its changed-row count: the compare-and-swap succeeds
    /// exactly when the row exists with the expected status, and then
    /// changes only that row's status and updated_at. The condition
    /// matches the decode class of the expected status (status text
    /// outside the four non-default names decodes to pending); a failed
    /// single statement changes nothing.
    #[verifier::external_body]
    pub fn try_update_session_status(
        &mut self,
        id: &str,
        expected: SessionStatus,
        new_status: SessionStatus,
        updated_at: &str,
    ) -> (r: Result<bool, KenError>)
        ensures
            r matches Ok(b) ==> b == (db_sessions(old(self)).contains_key(id@) && old(
                self,
            ).sessions()[id@].status == expected),
            r == Ok::<bool, KenError>(true) ==> db_sessions(final(self)) == db_sessions(old(self)).insert(
                id@,
                with_status(db_sessions(old(self))[id@], new_status, updated_at@),
            ),
            r == Ok::<bool, KenError>(false) ==> db_sessions(final(self)) == db_sessions(old(self)),
            r is Err ==> db_sessions(final(self)) == db_sessions(old(self)),
            db_events(final(self)) == db_events(old(self)),
    {
        let n = self.conn.execute(
            "UPDATE sessions SET status = ?1, updated_at = ?2 WHERE id = ?3 AND (status = ?4 OR (?4 = 'pending' AND status NOT IN ('active','sleeping','complete','failed')))",
            (new_status.as_str(), updated_at, id, expected.as_str()),
        ).map_err(|e| KenError::Database(e.to_string()))?;
        Ok(n > 0)
    }

    /// Relies on rusqlite::Connection::execute running an UPDATE by id
    /// that sets status to complete, stores the result, and bumps
    /// updated_at; a missing id changes nothing, and a failed single
    /// statement changes nothing.
    #[verifier::external_body]
    pub fn complete_session(&mut self, id: &str, result: &str, updated_at: &str) -> (r: Result<
        (),
        KenError,
    >)
        ensures
            r is Ok && db_sessions(old(self)).contains_key(id@) ==> db_sessions(final(self)) == old(
                self,
            ).sessions().insert(id@, completed(db_sessions(old(self))[id@], result@, updated_at@)),
            r is Ok && !db_sessions(old(self)).contains_key(id@) ==> db_sessions(final(self)) == old(
                self,
            ).sessions(),
            r is Err ==> db_sessions(final(self)) == db_sessions(old(self)),
            db_events(final(self)) == db_events(old(self)),
    {
        self.conn.execute(
            "UPDATE sessions SET status = 'complete', result = ?1, updated_at = ?2 WHERE id = ?3",
            (result, updated_at, id),
        ).map_err(|e| KenError::Database(e.to_string()))?;
        Ok(())
    }

    /// Relies on rusqlite::Connection::execute running an UPDATE by id
    /// that sets status to sleeping, stores the trigger and checkpoint,
    /// and bumps updated_at; a missing id changes nothing, and a failed
    /// single statement changes nothing.
    #[verifier::external_body]
    pub fn sleep_session(&mut self, id: &str, trigger: &str, checkpoint: &str, updated_at: &str)
        -> (r: Result<(), KenError>)
        ensures
            r is Ok && db_sessions(old(self)).contains_key(id@) ==> db_sessions(final(self)) == old(
                self,
            ).sessions().insert(
                id@,
                slept(db_sessions(old(self))[id@], trigger@, checkpoint@, updated_at@),
            ),
            r is Ok && !db_sessions(old(self)).contains_key(id@) ==> db_sessions(final(self)) == old(
                self,
            ).sessions(),
            r is Err ==> db_sessions(final(self)) == db_sessions(old(self)),
            db_events(final(self)) == db_events(old(self)),
    {
        self.conn.execute(
            "UPDATE sessions SET status = 'sleeping', trigger = ?1, checkpoint = ?2, updated_at = ?3 WHERE id = ?4",
            (trigger, checkpoint, updated_at, id),
        ).map_err(|e| KenError::Database(e.to_string()))?;
        Ok(())
    }

    /// Relies on rusqlite::Connection::execute running an INSERT on the
    /// events table: the event is appended; a failed single statement
    /// changes nothing.
    #[verifier::external_body]
    pub fn insert_event(&mut self, event: &Event) -> (r: Result<(), KenError>)
        ensures
            r is Ok ==> db_events(final(self)) == db_events(old(self)).push(event@),
            r is Err ==> db_events(final(self)) == db_events(old(self)),
            db_sessions(final(self)) == db_sessions(old(self)),
    {
        self.conn.execute(
            "INSERT INTO events (ts, session_id, event_type, data) VALUES (?1, ?2, ?3, ?4)",
            (&event.ts, &event.session_id, &event.event_type, &event.data),
        ).map_err(|e| KenError::Database(e.to_string()))?;
        Ok(())
    }

    /// Relies on rusqlite::Connection::execute running BEGIN: opens a
    /// transaction; the visible contents do not change.
    #[verifier::external_body]
    pub fn begin_transaction(&mut self) -> (r: Result<(), KenError>)
        ensures
            db_sessions(final(self)) == db_sessions(old(self)),
            db_events(final(self)) == db_events(old(self)),
    {
        self.conn.execute("BEGIN", []).map_err(|e| KenError::Database(e.to_string()))?;
        Ok(())
    }

    /// Relies on rusqlite::Connection::execute running COMMIT: on success
    /// the open transaction becomes durable and the visible contents do
    /// not change. On failure the engine may have rolled the transaction
    /// back on its own, so nothing is claimed then.
    #[verifier::external_body]
    pub fn commit(&mut self) -> (r: Result<(), KenError>)
        ensures
            r is Ok ==> db_sessions(final(self)) == db_sessions(old(self)),
            r is Ok ==> db_events(final(self)) == db_events(old(self)),
    {
        self.conn.execute("COMMIT", []).map_err(|e| KenError::Database(e.to_string()))?;
        Ok(())
    }

    /// Relies on rusqlite::Connection::execute running ROLLBACK: discards
    /// the open transaction, returning the contents to their state at the
    /// matching BEGIN. Which state that is cannot be said here, so nothing
    /// is claimed of the contents afterwards.
    #[verifier::external_body]
    pub fn rollback(&mut self) -> Result<(), KenError> {
        self.conn.execute("ROLLBACK", []).map_err(|e| KenError::Database(e.to_string()))?;
        Ok(())
    }
}

/// The event log grew by exactly one entry with the given fields (the
/// timestamp is the writer's concern and is not constrained).
pub open spec fn appended_event(
    e0: Seq<EventV>,
    e1: Seq<EventV>,
    event_type: Seq<char>,
    session_id: Option<Seq<char>>,
    data: Option<Seq<char>>,
) -> bool {
    &&& e1.len() == e0.len() + 1
    &&& e1.take(e0.len() as int) == e0
    &&& e1.last().event_type == event_type
    &&& e1.last().session_id == session_id
    &&& e1.last().data == data
}

/// `e0` is a prefix of `e1`: the log only grows.
pub open spec fn events_extended(e0: Seq<EventV>, e1: Seq<EventV>) -> bool {
    e1.len() >= e0.len() && e1.take(e0.len() as int) == e0
}

/// Store well-formedness: a complete or failed session carries a result,
/// and every child's parent exists and was created no later than the
/// child.
pub open spec fn wf_store(m: Map<Seq<char>, SessionV>) -> bool {
    forall|id: Seq<char>|
        #![trigger m[id]]
        m.contains_key(id) ==> {
            &&& ((m[id].status == SessionStatus::Complete || m[id].status == SessionStatus::Failed)
                ==> m[id].result is Some)
            &&& (m[id].parent_id matches Some(p) ==> m.contains_key(p) && lex_le(
                m[p].created_at,
                m[id].created_at,
            ))
        }
}

/// The empty store is well formed: there is nothing to constrain.
pub proof fn lemma_wf_empty()
    ensures
        wf_store(Map::<Seq<char>, SessionV>::empty()),
{
}

pub proof fn lemma_events_extended_refl(e: Seq<EventV>)
    ensures
        events_extended(e, e),
{
    assert(e.take(e.len() as int) =~= e);
}

/// A grown log keeps its old entries in place.
pub proof fn lemma_events_extended_index(e0: Seq<EventV>, e1: Seq<EventV>, j: int)
    requires
        events_extended(e0, e1),
        0 <= j < e0.len(),
    ensures
        e1[j] == e0[j],
{
    assert(e1.take(e0.len() as int)[j] == e1[j]);
}

pub proof fn lemma_events_extended_trans(e0: Seq<EventV>, e1: Seq<EventV>, e2: Seq<EventV>)
    requires
        events_extended(e0, e1),
        events_extended(e1, e2),
    ensures
        events_extended(e0, e2),
{
    assert(e2.take(e0.len() as int) =~= e0) by {
        assert forall|j: int| 0 <= j < e0.len() implies e2.take(e0.len() as int)[j] == e0[j] by {
            assert(e2.take(e1.len() as int)[j] == e2[j]);
            assert(e1.take(e0.len() as int)[j] == e1[j]);
        }
    }
}

pub proof fn lemma_events_extended_push(e0: Seq<EventV>, e1: Seq<EventV>, x: EventV)
    requires
        events_extended(e0, e1),
    ensures
        events_extended(e0, e1.push(x)),
{
    assert(e1.push(x).take(e0.len() as int) =~= e1.take(e0.len() as int));
}

/// Some child among the first `n` carries the id.
pub open spec fn child_id_among(cs: Seq<SessionV>, n: int, id: Seq<char>) -> bool {
    exists|k: int| 0 <= k < n && (#[trigger] cs[k]).id == id
}

/// Post-state of a successful composite spawn: every child inserted under
/// its fresh id, the parent (when present) asleep with the trigger and
/// checkpoint, everything else untouched.
pub open spec fn spawn_post(
    m0: Map<Seq<char>, SessionV>,
    m1: Map<Seq<char>, SessionV>,
    parent_id: Seq<char>,
    cs: Seq<SessionV>,
    trigger: Seq<char>,
    checkpoint: Seq<char>,
    updated_at: Seq<char>,
) -> bool {
    &&& forall|i: int| 0 <= i < cs.len() ==> !m0.contains_key((#[trigger] cs[i]).id)
    &&& forall|i: int, j: int| 0 <= i < j < cs.len() ==> (#[trigger] cs[i]).id != (#[trigger] cs[j]).id
    &&& forall|i: int| 0 <= i < cs.len() ==> m1.contains_key((#[trigger] cs[i]).id)
    &&& forall|i: int|
        0 <= i < cs.len() && (#[trigger] cs[i]).id != parent_id ==> m1[cs[i].id] == cs[i]
    &&& forall|i: int|
        0 <= i < cs.len() && (#[trigger] cs[i]).id == parent_id ==> m1[cs[i].id] == slept(
            cs[i],
            trigger,
            checkpoint,
            updated_at,
        )
    &&& (m0.contains_key(parent_id) ==> m1.contains_key(parent_id) && m1[parent_id] == slept(
        m0[parent_id],
        trigger,
        checkpoint,
        updated_at,
    ))
    &&& ((!m0.contains_key(parent_id) && !child_id_among(cs, cs.len() as int, parent_id))
        ==> !m1.contains_key(parent_id))
    &&& forall|id: Seq<char>|
        #![trigger m1.contains_key(id)]
        #![trigger m1[id]]
        id != parent_id && !child_id_among(cs, cs.len() as int, id) ==> m1.contains_key(id)
            == m0.contains_key(id) && (m0.contains_key(id) ==> m1[id] == m0[id])
}

impl Storage {
    /// Atomic composite: inserts every child, puts the parent to sleep
    /// with the trigger and checkpoint, and appends a children_spawned
    /// event carrying the JSON array of the child ids — all inside one
    /// transaction. On failure the engine rolls the transaction back, but
    /// the rollback's effect on the contents is not modeled here, so the
    /// contract speaks only of the successful path. Returns the child ids
    /// in order.
    #[verifier::rlimit(80)]
    pub fn spawn_and_sleep(
        &mut self,
        parent_id: &str,
        children: Vec<Session>,
        trigger: &str,
        checkpoint: &str,
        updated_at: &str,
    ) -> (r: Result<Vec<String>, KenError>)
        ensures
            r matches Ok(ids) ==> {
                &&& ids.deep_view().len() == children.deep_view().len()
                &&& forall|i: int|
                    0 <= i < children.deep_view().len() ==> ids.deep_view()[i] == (
                    #[trigger] children.deep_view()[i]).id
                &&& spawn_post(
                    db_sessions(old(self)),
                    db_sessions(final(self)),
                    parent_id@,
                    children.deep_view(),
                    trigger@,
                    checkpoint@,
                    updated_at@,
                )
                &&& db_events(final(self)) == db_events(old(self)).push(
                    EventV {
                        ts: updated_at@,
                        session_id: Some(parent_id@),
                        event_type: "children_spawned"@,
                        data: Some(ids_lit(ids.deep_view())),
                    },
                )
            },
    {
        let ghost m0 = self.sessions();
        let ghost e0 = self.events();
        let ghost cs = children.deep_view();
        match self.begin_transaction() {
            Ok(()) => {},
            Err(e) => {
                return Err(e);
            },
        }
        let mut child_ids: Vec<String> = Vec::new();
        let n = children.len();
        let mut i: usize = 0;
        while i < n
            invariant
                n == children@.len(),
                cs == children.deep_view(),
                i <= n,
                child_ids@.len() == i,
                self.events() == e0,
                forall|k: int| 0 <= k < i ==> child_ids@[k]@ == (#[trigger] cs[k]).id,
                forall|k: int| 0 <= k < i ==> !m0.contains_key((#[trigger] cs[k]).id),
                forall|k: int, l: int|
                    0 <= k < l < i ==> (#[trigger] cs[k]).id != (#[trigger] cs[l]).id,
                forall|k: int|
                    0 <= k < i ==> self.sessions().contains_key((#[trigger] cs[k]).id)
                        && self.sessions()[cs[k].id] == cs[k],
                forall|id: Seq<char>|
                    #![trigger self.sessions().contains_key(id)]
                    #![trigger self.sessions()[id]]
                    !child_id_among(cs, i as int, id) ==> {
                        &&& self.sessions().contains_key(id) == m0.contains_key(id)
                        &&& (m0.contains_key(id) ==> self.sessions()[id] == m0[id])
                    },
            decreases n - i,
        {
            let ghost pre = self.sessions();
            proof {
                assert(cs[i as int] == children@[i as int]@);
            }
            match self.insert_session(&children[i]) {
                Ok(()) => {},
                Err(e) => {
                    let _ = self.rollback();
                    return Err(e);
                },
            }
            proof {
                let cid = cs[i as int].id;
                if child_id_among(cs, i as int, cid) {
                    let k = choose|k: int| 0 <= k < i && (#[trigger] cs[k]).id == cid;
                    assert(pre.contains_key(cid));
                    assert(false);
                }
                assert(pre.contains_key(cid) == m0.contains_key(cid));
                assert(self.sessions() == pre.insert(cid, cs[i as int]));
                assert forall|k: int, l: int|
                    0 <= k < l < i + 1 implies (#[trigger] cs[k]).id != (#[trigger] cs[l]).id by {
                    if l == i && cs[k].id == cid {
                        assert(child_id_among(cs, i as int, cid));
                    }
                }
                assert forall|k: int|
                    0 <= k < i + 1 implies self.sessions().contains_key((#[trigger] cs[k]).id)
                        && self.sessions()[cs[k].id] == cs[k] by {
                    if k < i {
                        assert(cs[k].id != cid);
                        assert(pre.contains_key(cs[k].id) && pre[cs[k].id] == cs[k]);
                    }
                }
                assert forall|id: Seq<char>|
                    #![trigger self.sessions().contains_key(id)]
                    #![trigger self.sessions()[id]]
                    !child_id_among(cs, i + 1, id) implies {
                        &&& self.sessions().contains_key(id) == m0.contains_key(id)
                        &&& (m0.contains_key(id) ==> self.sessions()[id] == m0[id])
                    } by {
                    assert(cs[i as int].id != id) by {
                        if cs[i as int].id == id {
                            assert(child_id_among(cs, i + 1, id));
                        }
                    }
                    assert(!child_id_among(cs, i as int, id)) by {
                        if child_id_among(cs, i as int, id) {
                            let k = choose|k: int| 0 <= k < i && (#[trigger] cs[k]).id == id;
                            assert(child_id_among(cs, i + 1, id));
                        }
                    }
                    assert(pre.contains_key(id) == m0.contains_key(id));
                }
            }
            child_ids.push(children[i].id.clone());
            i += 1;
        }
        let ghost mc = self.sessions();
        match self.sleep_session(parent_id, trigger, checkpoint, updated_at) {
            Ok(()) => {},
            Err(e) => {
                let _ = self.rollback();
                return Err(e);
            },
        }
        proof {
            lemma_spawn_post_from_parts(m0, mc, self.sessions(), parent_id@, cs, trigger@,
                checkpoint@, updated_at@);
        }
        let mut json_chars: Vec<char> = Vec::new();
        push_ids(&mut json_chars, &child_ids);
        proof {
            assert(json_chars@ =~= ids_lit(child_ids.deep_view()));
        }
        let ids_json = string_from_chars(&json_chars);
        let ev = Event {
            ts: updated_at.to_owned(),
            session_id: Some(parent_id.to_owned()),
            event_type: <String as StringExecFns>::from_str("children_spawned"),
            data: Some(ids_json),
        };
        match self.insert_event(&ev) {
            Ok(()) => {},
            Err(e) => {
                let _ = self.rollback();
                return Err(e);
            },
        }
        match self.commit() {
            Ok(()) => {},
            Err(e) => {
                let _ = self.rollback();
                return Err(e);
            },
        }
        proof {
            assert(self.events() =~= e0.push(
                EventV {
                    ts: updated_at@,
                    session_id: Some(parent_id@),
                    event_type: "children_spawned"@,
                    data: Some(ids_lit(child_ids.deep_view())),
                },
            ));
        }
        Ok(child_ids)
    }
}

/// From the state after the child inserts and the conditional update of
/// the parent row, the composite post-state follows.
#[verifier::rlimit(80)]
proof fn lemma_spawn_post_from_parts(
    m0: Map<Seq<char>, SessionV>,
    mc: Map<Seq<char>, SessionV>,
    m1: Map<Seq<char>, SessionV>,
    parent_id: Seq<char>,
    cs: Seq<SessionV>,
    trigger: Seq<char>,
    checkpoint: Seq<char>,
    updated_at: Seq<char>,
)
    requires
        forall|k: int| 0 <= k < cs.len() ==> !m0.contains_key((#[trigger] cs[k]).id),
        forall|k: int, l: int|
            0 <= k < l < cs.len() ==> (#[trigger] cs[k]).id != (#[trigger] cs[l]).id,
        forall|k: int|
            0 <= k < cs.len() ==> mc.contains_key((#[trigger] cs[k]).id) && mc[cs[k].id] == cs[k],
        forall|id: Seq<char>|
            #![trigger mc.contains_key(id)]
            #![trigger mc[id]]
            !child_id_among(cs, cs.len() as int, id) ==> {
                &&& mc.contains_key(id) == m0.contains_key(id)
                &&& (m0.contains_key(id) ==> mc[id] == m0[id])
            },
        mc.contains_key(parent_id) ==> m1 == mc.insert(
            parent_id,
            slept(mc[parent_id], trigger, checkpoint, updated_at),
        ),
        !mc.contains_key(parent_id) ==> m1 == mc,
    ensures
        spawn_post(m0, m1, parent_id, cs, trigger, checkpoint, updated_at),
{
    if m0.contains_key(parent_id) {
        assert(!child_id_among(cs, cs.len() as int, parent_id)) by {
            if child_id_among(cs, cs.len() as int, parent_id) {
                let k = choose|k: int|
                    0 <= k < cs.len() && (#[trigger] cs[k]).id == parent_id;
                assert(!m0.contains_key(cs[k].id));
            }
        }
        assert(mc.contains_key(parent_id) && mc[parent_id] == m0[parent_id]);
    }
    assert forall|k: int|
        0 <= k < cs.len() && (#[trigger] cs[k]).id != parent_id implies m1[cs[k].id] == cs[k] by {
        assert(mc.contains_key(cs[k].id) && mc[cs[k].id] == cs[k]);
    }
    assert forall|k: int|
        0 <= k < cs.len() && (#[trigger] cs[k]).id == parent_id implies m1[cs[k].id] == slept(
            cs[k],
            trigger,
            checkpoint,
            updated_at,
        ) by {
        assert(mc.contains_key(parent_id));
        assert(mc[parent_id] == cs[k]);
    }
    assert forall|id: Seq<char>|
        #![trigger m1.contains_key(id)]
        #![trigger m1[id]]
        id != parent_id && !child_id_among(cs, cs.len() as int, id) implies m1.contains_key(id)
            == m0.contains_key(id) && (m0.contains_key(id) ==> m1[id] == m0[id]) by {
        assert(mc.contains_key(id) == m0.contains_key(id));
    }
}

/// A compare-and-swap transition is not repeatable: once it has succeeded
/// and moved the row from `expected` to a different status, the row no
/// longer carries `expected`, so by the contract of
/// `try_update_session_status` a second call with the same id and
/// expectation returns false and changes nothing.
pub proof fn lemma_cas_idempotent(
    m0: Map<Seq<char>, SessionV>,
    m1: Map<Seq<char>, SessionV>,
    id: Seq<char>,
    expected: SessionStatus,
    new_status: SessionStatus,
    now: Seq<char>,
)
    requires
        expected != new_status,
        m0.contains_key(id),
        m0[id].status == expected,
        m1 == m0.insert(id, with_status(m0[id], new_status, now)),
    ensures
        !(m1.contains_key(id) && m1[id].status == expected),
{
}

} // verus!
