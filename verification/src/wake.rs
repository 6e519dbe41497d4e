//! The wake command: creates a new pending root session.

use vstd::prelude::*;
use crate::error::KenError;
use crate::session::{Event, Session, SessionStatus, SessionV};
use crate::storage::{appended_event, db_sessions, Storage};

verus! {

/// The fresh pending root record a wake inserts.
pub open spec fn root_record(id: Seq<char>, ken: Seq<char>, task: Seq<char>, now: Seq<char>)
    -> SessionV {
    SessionV {
        id,
        ken,
        task,
        status: SessionStatus::Pending,
        parent_id: None,
        trigger: None,
        checkpoint: None,
        result: None,
        created_at: now,
        updated_at: now,
    }
}

/// What any wake call leaves behind, aborted or not: the store untouched,
/// or extended by exactly one fresh pending root for this ken and task;
/// the log gains nothing but creation events.
pub open spec fn wake_frame(
    m0: Map<Seq<char>, SessionV>,
    m1: Map<Seq<char>, SessionV>,
    ken: Seq<char>,
    task: Seq<char>,
    now: Seq<char>,
) -> bool {
    m1 == m0 || exists|id: Seq<char>|
        !m0.contains_key(id) && m1 == #[trigger] m0.insert(id, root_record(id, ken, task, now))
}

/// Creates one pending root session for `ken` and `task`, logs its
/// creation, and returns the fresh id.
pub fn run(storage: &mut Storage, ken: &str, task: &str, now: &str) -> (r: Result<String, KenError>)
    ensures
        wake_frame(
            db_sessions(old(storage)),
            db_sessions(final(storage)),
            ken@,
            task@,
            now@,
        ),
        crate::storage::events_extended(old(storage).events(), final(storage).events()),
        forall|j: int|
            old(storage).events().len() <= j < final(storage).events().len()
                ==> (#[trigger] final(storage).events()[j]).event_type == "session_created"@,
        r matches Ok(id) ==> {
            &&& !db_sessions(old(storage)).contains_key(id@)
            &&& db_sessions(final(storage)) == db_sessions(old(storage)).insert(
                id@,
                SessionV {
                    id: id@,
                    ken: ken@,
                    task: task@,
                    status: SessionStatus::Pending,
                    parent_id: None,
                    trigger: None,
                    checkpoint: None,
                    result: None,
                    created_at: now@,
                    updated_at: now@,
                },
            )
            &&& appended_event(
                old(storage).events(),
                final(storage).events(),
                "session_created"@,
                Some(id@),
                None,
            )
        },
{
    proof {
        crate::storage::lemma_events_extended_refl(old(storage).events());
    }
    let session = Session::new_at(ken, task, None, now);
    proof {
        assert(session@ == root_record(session@.id, ken@, task@, now@));
    }
    match storage.insert_session(&session) {
        Ok(()) => {},
        Err(e) => {
            return Err(e);
        },
    }
    let ev = Event::new("session_created", Some(session.id.as_str()), None);
    match storage.insert_event(&ev) {
        Ok(()) => {
            proof {
                assert(storage.events().take(old(storage).events().len() as int) =~= old(
                    storage,
                ).events());
            }
        },
        Err(e) => {
            return Err(e);
        },
    }
    Ok(session.id)
}

/// Creating a root session preserves store well-formedness: the new
/// record is pending, has no parent and no result, and its fresh id can
/// be nobody's parent (a parent reference always names an existing
/// session).
pub proof fn lemma_wake_preserves_wf(
    m0: Map<Seq<char>, SessionV>,
    m1: Map<Seq<char>, SessionV>,
    rec: SessionV,
)
    requires
        crate::storage::wf_store(m0),
        !m0.contains_key(rec.id),
        rec.status == SessionStatus::Pending,
        rec.parent_id is None,
        rec.result is None,
        m1 == m0.insert(rec.id, rec),
    ensures
        crate::storage::wf_store(m1),
{
    assert forall|id: Seq<char>| m1.contains_key(id) implies {
        &&& (((#[trigger] m1[id]).status == SessionStatus::Complete || m1[id].status
            == SessionStatus::Failed) ==> m1[id].result is Some)
        &&& (m1[id].parent_id matches Some(p) ==> m1.contains_key(p) && crate::strutil::lex_le(
            m1[p].created_at,
            m1[id].created_at,
        ))
    } by {
        if id != rec.id {
            assert(m1[id] == m0[id]);
            match m0[id].parent_id {
                Some(p) => {
                    assert(m0.contains_key(p));
                    assert(p != rec.id);
                    assert(m1[p] == m0[p]);
                },
                None => {},
            }
        }
    }
}

} // verus!
