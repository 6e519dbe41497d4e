//! Session records, events, and the status enumeration.

use vstd::prelude::*;
use crate::strutil::opt_view;

verus! {

/// Status of a session in the workflow state machine.
#[derive(Debug, Clone, Copy, PartialEq, Eq, Structural)]
pub enum SessionStatus {
    Pending,
    Active,
    Sleeping,
    Complete,
    Failed,
}

/// The canonical string form of a status.
pub open spec fn status_str(s: SessionStatus) -> Seq<char> {
    match s {
        SessionStatus::Pending => "pending"@,
        SessionStatus::Active => "active"@,
        SessionStatus::Sleeping => "sleeping"@,
        SessionStatus::Complete => "complete"@,
        SessionStatus::Failed => "failed"@,
    }
}

/// Decoding of a string to a status; unknown strings decode to the
/// defensive default `Pending`.
pub open spec fn status_of_str(s: Seq<char>) -> SessionStatus {
    if s == "pending"@ {
        SessionStatus::Pending
    } else if s == "active"@ {
        SessionStatus::Active
    } else if s == "sleeping"@ {
        SessionStatus::Sleeping
    } else if s == "complete"@ {
        SessionStatus::Complete
    } else if s == "failed"@ {
        SessionStatus::Failed
    } else {
        SessionStatus::Pending
    }
}

impl SessionStatus {
    pub fn as_str(&self) -> (r: &'static str)
        ensures
            r@ == status_str(*self),
    {
        match self {
            SessionStatus::Pending => "pending",
            SessionStatus::Active => "active",
            SessionStatus::Sleeping => "sleeping",
            SessionStatus::Complete => "complete",
            SessionStatus::Failed => "failed",
        }
    }

    pub fn from_str(s: &str) -> (r: Self)
        ensures
            r == status_of_str(s@),
    {
        if crate::strutil::str_eq(s, "pending") {
            SessionStatus::Pending
        } else if crate::strutil::str_eq(s, "active") {
            SessionStatus::Active
        } else if crate::strutil::str_eq(s, "sleeping") {
            SessionStatus::Sleeping
        } else if crate::strutil::str_eq(s, "complete") {
            SessionStatus::Complete
        } else if crate::strutil::str_eq(s, "failed") {
            SessionStatus::Failed
        } else {
            SessionStatus::Pending
        }
    }
}

/// Encoding a status and decoding the result always returns the same
/// status: the string forms are a bijection on the legal values.
pub proof fn lemma_status_round_trip(s: SessionStatus)
    ensures
        status_of_str(status_str(s)) == s,
{
    reveal_strlit("pending");
    reveal_strlit("active");
    reveal_strlit("sleeping");
    reveal_strlit("complete");
    reveal_strlit("failed");
    assert("active"@ != "pending"@) by {
        assert("active"@.len() != "pending"@.len());
    }
    assert("sleeping"@ != "pending"@) by {
        assert("sleeping"@.len() != "pending"@.len());
    }
    assert("complete"@ != "pending"@) by {
        assert("complete"@[1] != "pending"@[1]);
    }
    assert("complete"@ != "sleeping"@) by {
        assert("complete"@[0] != "sleeping"@[0]);
    }
    assert("failed"@ != "pending"@) by {
        assert("failed"@.len() != "pending"@.len());
    }
    assert("failed"@ != "active"@) by {
        assert("failed"@[0] != "active"@[0]);
    }
}


/// A session: the unit of durable work within a ken.
#[derive(Debug)]
pub struct Session {
    pub id: String,
    pub ken: String,
    pub task: String,
    pub status: SessionStatus,
    pub parent_id: Option<String>,
    pub trigger: Option<String>,
    pub checkpoint: Option<String>,
    pub result: Option<String>,
    pub created_at: String,
    pub updated_at: String,
}

/// Mathematical model of a session record.
pub struct SessionV {
    pub id: Seq<char>,
    pub ken: Seq<char>,
    pub task: Seq<char>,
    pub status: SessionStatus,
    pub parent_id: Option<Seq<char>>,
    pub trigger: Option<Seq<char>>,
    pub checkpoint: Option<Seq<char>>,
    pub result: Option<Seq<char>>,
    pub created_at: Seq<char>,
    pub updated_at: Seq<char>,
}

impl View for Session {
    type V = SessionV;

    open spec fn view(&self) -> SessionV {
        SessionV {
            id: self.id@,
            ken: self.ken@,
            task: self.task@,
            status: self.status,
            parent_id: opt_view(self.parent_id),
            trigger: opt_view(self.trigger),
            checkpoint: opt_view(self.checkpoint),
            result: opt_view(self.result),
            created_at: self.created_at@,
            updated_at: self.updated_at@,
        }
    }
}

impl DeepView for Session {
    type V = SessionV;

    open spec fn deep_view(&self) -> SessionV {
        self.view()
    }
}

/// The record `s` with its status changed and `updated_at` bumped.
pub open spec fn with_status(s: SessionV, status: SessionStatus, updated_at: Seq<char>) -> SessionV {
    SessionV { status, updated_at, ..s }
}

/// The record `s` completed: status complete, the result stored, and
/// `updated_at` bumped.
pub open spec fn completed(s: SessionV, result: Seq<char>, updated_at: Seq<char>) -> SessionV {
    SessionV { status: SessionStatus::Complete, result: Some(result), updated_at, ..s }
}

/// The record `s` put to sleep: status sleeping, the trigger and
/// checkpoint stored, and `updated_at` bumped.
pub open spec fn slept(
    s: SessionV,
    trigger: Seq<char>,
    checkpoint: Seq<char>,
    updated_at: Seq<char>,
) -> SessionV {
    SessionV {
        status: SessionStatus::Sleeping,
        trigger: Some(trigger),
        checkpoint: Some(checkpoint),
        updated_at,
        ..s
    }
}

/// A character of a minted identifier: a lowercase hexadecimal digit or a
/// hyphen.
pub open spec fn uuid_char(c: char) -> bool {
    c == '-' || (48 <= (c as u32) <= 57) || (97 <= (c as u32) <= 102)
}

/// Every character of the text is from the minted-identifier alphabet.
pub open spec fn uuid_text(s: Seq<char>) -> bool {
    forall|k: int| 0 <= k < s.len() ==> uuid_char(#[trigger] s[k])
}

/// Relies on uuid::Uuid::new_v4 and its Display form: a fresh random
/// version-4 identifier rendered as 36 characters, each a lowercase
/// hexadecimal digit or a hyphen.
#[verifier::external_body]
fn fresh_id() -> (r: String)
    ensures
        r@.len() == 36,
        uuid_text(r@),
{
    uuid::Uuid::new_v4().to_string()
}

/// Relies on chrono::Utc::now and DateTime::to_rfc3339: the current wall
/// clock in RFC 3339 form. Nothing is assumed of the returned text.
#[verifier::external_body]
pub(crate) fn now_rfc3339() -> String {
    chrono::Utc::now().to_rfc3339()
}

/// The Unix-epoch seconds an RFC 3339 text denotes, or nothing when it
/// does not parse; a function of the text alone.
pub uninterp spec fn rfc3339_secs(s: Seq<char>) -> Option<int>;

/// Relies on chrono::DateTime::parse_from_rfc3339 and
/// chrono::DateTime::timestamp: the Unix-epoch seconds of an RFC 3339
/// timestamp, determined by the text alone; `None` when it does not parse.
#[verifier::external_body]
pub fn parse_rfc3339_secs(s: &str) -> (r: Option<i64>)
    ensures
        (match r {
            Some(x) => rfc3339_secs(s@) == Some(x as int),
            None => rfc3339_secs(s@) is None,
        }),
{
    match chrono::DateTime::parse_from_rfc3339(s) {
        Ok(dt) => Some(dt.timestamp()),
        Err(_) => None,
    }
}

pub(crate) fn clone_opt(o: &Option<String>) -> (r: Option<String>)
    ensures
        r == *o,
{
    match o {
        Some(s) => Some(s.clone()),
        None => None,
    }
}

impl Session {
    fn build(id: String, ken: &str, task: &str, parent_id: Option<String>, now: &str) -> (s:
        Session)
        ensures
            s@ == (SessionV {
                id: id@,
                ken: ken@,
                task: task@,
                status: SessionStatus::Pending,
                parent_id: opt_view(parent_id),
                trigger: None,
                checkpoint: None,
                result: None,
                created_at: now@,
                updated_at: now@,
            }),
    {
        Session {
            id,
            ken: ken.to_owned(),
            task: task.to_owned(),
            status: SessionStatus::Pending,
            parent_id,
            trigger: None,
            checkpoint: None,
            result: None,
            created_at: now.to_owned(),
            updated_at: now.to_owned(),
        }
    }

    /// Creates a pending session with a freshly generated id, stamped with
    /// the current time.
    pub fn new(ken: &str, task: &str, parent_id: Option<String>) -> (s: Session)
        ensures
            s@.id.len() == 36,
            uuid_text(s@.id),
            s@.ken == ken@,
            s@.task == task@,
            s@.status == SessionStatus::Pending,
            s@.parent_id == opt_view(parent_id),
            s@.trigger is None,
            s@.checkpoint is None,
            s@.result is None,
            s@.created_at == s@.updated_at,
    {
        let now = now_rfc3339();
        let id = fresh_id();
        Session::build(id, ken, task, parent_id, now.as_str())
    }

    /// Creates a pending session with a freshly generated id, stamped with
    /// the given time.
    pub fn new_at(ken: &str, task: &str, parent_id: Option<String>, now: &str) -> (s: Session)
        ensures
            s@.id.len() == 36,
            uuid_text(s@.id),
            s@.ken == ken@,
            s@.task == task@,
            s@.status == SessionStatus::Pending,
            s@.parent_id == opt_view(parent_id),
            s@.trigger is None,
            s@.checkpoint is None,
            s@.result is None,
            s@.created_at == now@,
            s@.updated_at == now@,
    {
        let id = fresh_id();
        Session::build(id, ken, task, parent_id, now)
    }

    /// Creates a pending session with an explicit id, stamped with the
    /// current time.
    pub fn with_id(id: &str, ken: &str, task: &str, parent_id: Option<String>) -> (s: Session)
        ensures
            s@.id == id@,
            s@.ken == ken@,
            s@.task == task@,
            s@.status == SessionStatus::Pending,
            s@.parent_id == opt_view(parent_id),
            s@.trigger is None,
            s@.checkpoint is None,
            s@.result is None,
            s@.created_at == s@.updated_at,
    {
        let now = now_rfc3339();
        Session::build(id.to_owned(), ken, task, parent_id, now.as_str())
    }

    /// An owned copy of the record.
    pub fn dup(&self) -> (r: Session)
        ensures
            r@ == self@,
    {
        Session {
            id: self.id.clone(),
            ken: self.ken.clone(),
            task: self.task.clone(),
            status: self.status,
            parent_id: clone_opt(&self.parent_id),
            trigger: clone_opt(&self.trigger),
            checkpoint: clone_opt(&self.checkpoint),
            result: clone_opt(&self.result),
            created_at: self.created_at.clone(),
            updated_at: self.updated_at.clone(),
        }
    }
}

/// An append-only log entry.
#[derive(Debug)]
pub struct Event {
    pub ts: String,
    pub session_id: Option<String>,
    pub event_type: String,
    pub data: Option<String>,
}

/// Mathematical model of an event record.
pub struct EventV {
    pub ts: Seq<char>,
    pub session_id: Option<Seq<char>>,
    pub event_type: Seq<char>,
    pub data: Option<Seq<char>>,
}

impl View for Event {
    type V = EventV;

    open spec fn view(&self) -> EventV {
        EventV {
            ts: self.ts@,
            session_id: opt_view(self.session_id),
            event_type: self.event_type@,
            data: opt_view(self.data),
        }
    }
}

impl Event {
    /// Creates an event stamped with the current time.
    pub fn new(event_type: &str, session_id: Option<&str>, data: Option<String>) -> (e: Event)
        ensures
            e@.event_type == event_type@,
            e@.session_id == (match session_id {
                Some(s) => Some(s@),
                None => None::<Seq<char>>,
            }),
            e@.data == opt_view(data),
    {
        Event {
            ts: now_rfc3339(),
            session_id: match session_id {
                Some(s) => Some(s.to_owned()),
                None => None,
            },
            event_type: event_type.to_owned(),
            data,
        }
    }
}

/// The edges of the session state machine: the tick promotes pending to
/// active and wakes sleeping to pending; a request completes or suspends
/// an active session.
pub open spec fn machine_edge(a: SessionStatus, b: SessionStatus) -> bool {
    ||| (a == SessionStatus::Pending && b == SessionStatus::Active)
    ||| (a == SessionStatus::Active && b == SessionStatus::Complete)
    ||| (a == SessionStatus::Active && b == SessionStatus::Sleeping)
    ||| (a == SessionStatus::Sleeping && b == SessionStatus::Pending)
}

} // verus!

