//! The request command: validates one agent request and applies it to the
//! store atomically.

use vstd::prelude::*;
use crate::error::KenError;
use crate::protocol::{
    lemma_uuid_text_resolvable, parse_agent_request, quoted_children_token, resolvable_id,
    resolve_trigger, response_json, sp_request, AgentRequest, AgentRequestV, AgentResponse,
    AgentResponseV, ChildSpecV,
};
use crate::session::{completed, slept, Event, EventV, Session, SessionStatus, SessionV, status_str};
use crate::storage::{appended_event, db_sessions, spawn_post, Storage};
use crate::strutil::replace_all;
use crate::trigger::template_json;
use crate::jsontext::ids_lit;
use vstd::string::StringExecFns;

verus! {

/// The refusal message for a request whose session is not active.
pub open spec fn not_active_msg(id: Seq<char>, st: SessionStatus) -> Seq<char> {
    "Session "@ + id + " is not active (status: "@ + status_str(st) + ")"@
}

/// The refusal message for a request naming a session the store cannot
/// produce.
pub open spec fn not_found_msg(id: Seq<char>) -> Seq<char> {
    "Session "@ + id + " not found"@
}

/// The session a request is about.
pub open spec fn target_id(req: AgentRequestV) -> Seq<char> {
    match req {
        AgentRequestV::Complete { session_id, .. } => session_id,
        AgentRequestV::SpawnAndSleep { session_id, .. } => session_id,
        AgentRequestV::Sleep { session_id, .. } => session_id,
    }
}

/// A refused request: the store is untouched and the envelope carries
/// the not-found message — only for a target absent from the store — or,
/// for a target present with a status other than active, the not-active
/// message naming that status.
pub open spec fn refused_outcome(
    req: AgentRequestV,
    m0: Map<Seq<char>, SessionV>,
    m1: Map<Seq<char>, SessionV>,
    e0: Seq<EventV>,
    e1: Seq<EventV>,
    resp: AgentResponseV,
) -> bool {
    &&& m1 == m0
    &&& e1 == e0
    &&& resp.data is None
    &&& ((!m0.contains_key(target_id(req)) && resp.error == Some(not_found_msg(target_id(req))))
        || (m0.contains_key(target_id(req)) && m0[target_id(req)].status != SessionStatus::Active
        && resp.error == Some(not_active_msg(target_id(req), m0[target_id(req)].status))))
}

/// What any call leaves behind, aborted or not: for a complete or sleep
/// request the store is untouched or carries exactly the request's
/// transition of its active target, and the log only grows. The composite
/// spawn promises this only on its non-aborting path (`ok_outcome`): a
/// failure inside its transaction is undone by the engine's rollback,
/// whose effect the trusted layer does not model.
pub open spec fn request_frame(
    req: AgentRequestV,
    m0: Map<Seq<char>, SessionV>,
    m1: Map<Seq<char>, SessionV>,
    e0: Seq<EventV>,
    e1: Seq<EventV>,
    now: Seq<char>,
) -> bool {
    match req {
        AgentRequestV::Complete { session_id, result } => {
            &&& (m1 == m0 || (m0.contains_key(session_id) && m0[session_id].status
                == SessionStatus::Active && m1 == m0.insert(
                session_id,
                completed(m0[session_id], result, now),
            )))
            &&& crate::storage::events_extended(e0, e1)
        },
        AgentRequestV::Sleep { session_id, trigger, checkpoint } => {
            &&& (m1 == m0 || (m0.contains_key(session_id) && m0[session_id].status
                == SessionStatus::Active && m1 == m0.insert(
                session_id,
                slept(m0[session_id], template_json(trigger), checkpoint, now),
            )))
            &&& crate::storage::events_extended(e0, e1)
        },
        AgentRequestV::SpawnAndSleep { .. } => true,
    }
}

/// Every status change a complete or sleep call leaves behind — aborted or
/// not — is an edge of the state machine. (For a spawn the same follows
/// from `ok_outcome` on the non-aborting path.)
pub proof fn lemma_request_frame_follows_machine(
    req: AgentRequestV,
    m0: Map<Seq<char>, SessionV>,
    m1: Map<Seq<char>, SessionV>,
    e0: Seq<EventV>,
    e1: Seq<EventV>,
    now: Seq<char>,
    id: Seq<char>,
)
    requires
        request_frame(req, m0, m1, e0, e1, now),
        !(req matches AgentRequestV::SpawnAndSleep { .. }),
        m0.contains_key(id),
        m1.contains_key(id),
        m0[id].status != m1[id].status,
    ensures
        crate::session::machine_edge(m0[id].status, m1[id].status),
{
    match req {
        AgentRequestV::Complete { session_id, result } => {
            if id != session_id || m1 == m0 {
                assert(m1[id] == m0[id]);
            }
        },
        AgentRequestV::Sleep { session_id, trigger, checkpoint } => {
            if id != session_id || m1 == m0 {
                assert(m1[id] == m0[id]);
            }
        },
        AgentRequestV::SpawnAndSleep { .. } => {},
    }
}

/// A request applied successfully: the target was active, the transition
/// named by the request happened, the matching event was logged, and the
/// envelope carries the payload the request earns.
pub open spec fn ok_outcome(
    req: AgentRequestV,
    m0: Map<Seq<char>, SessionV>,
    m1: Map<Seq<char>, SessionV>,
    e0: Seq<EventV>,
    e1: Seq<EventV>,
    now: Seq<char>,
    resp: AgentResponseV,
) -> bool {
    match req {
        AgentRequestV::Complete { session_id, result } => {
            &&& m0.contains_key(session_id)
            &&& m0[session_id].status == SessionStatus::Active
            &&& m1 == m0.insert(session_id, completed(m0[session_id], result, now))
            &&& appended_event(e0, e1, "session_completed"@, Some(session_id), Some(result))
            &&& resp.data is None
            &&& resp.error is None
        },
        AgentRequestV::Sleep { session_id, trigger, checkpoint } => {
            &&& m0.contains_key(session_id)
            &&& m0[session_id].status == SessionStatus::Active
            &&& m1 == m0.insert(
                session_id,
                slept(m0[session_id], template_json(trigger), checkpoint, now),
            )
            &&& appended_event(
                e0,
                e1,
                "session_sleeping"@,
                Some(session_id),
                Some(template_json(trigger)),
            )
            &&& resp.data is None
            &&& resp.error is None
        },
        AgentRequestV::SpawnAndSleep { session_id, children, trigger, checkpoint } => {
            &&& m0.contains_key(session_id)
            &&& m0[session_id].status == SessionStatus::Active
            &&& exists|cs: Seq<SessionV>, ids: Seq<Seq<char>>|
                #[trigger] spawned_outcome(
                    cs,
                    ids,
                    session_id,
                    children,
                    trigger,
                    checkpoint,
                    m0,
                    m1,
                    e0,
                    e1,
                    now,
                    resp,
                )
        },
    }
}

/// The witness relation for a successful spawn: `cs` are the freshly
/// minted child records and `ids` their ids, carried back in the
/// response; the store moved by the atomic composite with the trigger
/// text resolved against those ids.
pub open spec fn spawned_outcome(
    cs: Seq<SessionV>,
    ids: Seq<Seq<char>>,
    session_id: Seq<char>,
    children: Seq<ChildSpecV>,
    trigger: crate::trigger::TriggerTemplateV,
    checkpoint: Seq<char>,
    m0: Map<Seq<char>, SessionV>,
    m1: Map<Seq<char>, SessionV>,
    e0: Seq<EventV>,
    e1: Seq<EventV>,
    now: Seq<char>,
    resp: AgentResponseV,
) -> bool {
    &&& cs.len() == children.len()
    &&& ids.len() == cs.len()
    &&& forall|i: int| 0 <= i < cs.len() ==> ids[i] == (#[trigger] cs[i]).id
    &&& forall|i: int| 0 <= i < ids.len() ==> resolvable_id(#[trigger] ids[i])
    &&& forall|i: int|
        0 <= i < cs.len() ==> (#[trigger] cs[i]) == (SessionV {
            id: cs[i].id,
            ken: children[i].ken,
            task: children[i].task,
            status: SessionStatus::Pending,
            parent_id: Some(session_id),
            trigger: None,
            checkpoint: None,
            result: None,
            created_at: now,
            updated_at: now,
        })
    &&& spawn_post(
        m0,
        m1,
        session_id,
        cs,
        replace_all(template_json(trigger), quoted_children_token(), ids_lit(ids)),
        checkpoint,
        now,
    )
    &&& e1 == e0.push(
        EventV {
            ts: now,
            session_id: Some(session_id),
            event_type: "children_spawned"@,
            data: Some(ids_lit(ids)),
        },
    )
    &&& resp.data == Some(ids)
    &&& resp.error is None
}

proof fn lemma_ok_outcome_spawn(
    req: AgentRequestV,
    cs: Seq<SessionV>,
    ids: Seq<Seq<char>>,
    sid: Seq<char>,
    ch: Seq<ChildSpecV>,
    tr: crate::trigger::TriggerTemplateV,
    cp: Seq<char>,
    m0: Map<Seq<char>, SessionV>,
    m1: Map<Seq<char>, SessionV>,
    e0: Seq<EventV>,
    e1: Seq<EventV>,
    now: Seq<char>,
    resp: AgentResponseV,
)
    requires
        req == (AgentRequestV::SpawnAndSleep {
            session_id: sid,
            children: ch,
            trigger: tr,
            checkpoint: cp,
        }),
        m0.contains_key(sid),
        m0[sid].status == SessionStatus::Active,
        spawned_outcome(cs, ids, sid, ch, tr, cp, m0, m1, e0, e1, now, resp),
    ensures
        ok_outcome(req, m0, m1, e0, e1, now, resp),
{
    match req {
        AgentRequestV::SpawnAndSleep { session_id, children, trigger, checkpoint } => {
            assert(spawned_outcome(
                cs,
                ids,
                session_id,
                children,
                trigger,
                checkpoint,
                m0,
                m1,
                e0,
                e1,
                now,
                resp,
            ));
            assert(exists|cs2: Seq<SessionV>, ids2: Seq<Seq<char>>|
                #[trigger] spawned_outcome(
                    cs2,
                    ids2,
                    session_id,
                    children,
                    trigger,
                    checkpoint,
                    m0,
                    m1,
                    e0,
                    e1,
                    now,
                    resp,
                ));
        },
        _ => {
            assert(false);
        },
    }
}

fn not_active_message(id: &str, st: SessionStatus) -> (r: String)
    ensures
        r@ == not_active_msg(id@, st),
{
    let r = <String as StringExecFns>::from_str("Session ").concat(id).concat(
        " is not active (status: ",
    ).concat(st.as_str()).concat(")");
    proof {
        assert(r@ =~= not_active_msg(id@, st));
    }
    r
}

fn not_found_message(id: &str) -> (r: String)
    ensures
        r@ == not_found_msg(id@),
{
    let r = <String as StringExecFns>::from_str("Session ").concat(id).concat(" not found");
    proof {
        assert(r@ =~= not_found_msg(id@));
    }
    r
}

/// Looks the target session up and refuses the request unless it is
/// active: `Ok(None)` exactly when the session is present with status
/// active; `Ok(Some(_))` the refusal envelope, not-found only for an
/// absent target; a database failure aborts.
fn gate_active(storage: &Storage, session_id: &str) -> (r: Result<Option<AgentResponse>, KenError>)
    ensures
        r matches Err(e) ==> e matches KenError::Database(_),
        r matches Ok(opt) ==> match opt {
            None => db_sessions(storage).contains_key(session_id@) && db_sessions(
                storage,
            )[session_id@].status == SessionStatus::Active,
            Some(resp) => {
                &&& !resp@.ok
                &&& resp@.data is None
                &&& ((!db_sessions(storage).contains_key(session_id@) && resp@.error == Some(
                    not_found_msg(session_id@),
                )) || (db_sessions(storage).contains_key(session_id@) && db_sessions(
                    storage,
                )[session_id@].status != SessionStatus::Active && resp@.error == Some(
                    not_active_msg(session_id@, db_sessions(storage)[session_id@].status),
                )))
            },
        },
{
    match storage.get_session(session_id) {
        Err(KenError::SessionNotFound(_)) => Ok(
            Some(AgentResponse::error(not_found_message(session_id).as_str())),
        ),
        Err(e) => Err(e),
        Ok(s) => {
            if matches!(s.status, SessionStatus::Active) {
                Ok(None)
            } else {
                Ok(
                    Some(
                        AgentResponse::error(not_active_message(session_id, s.status).as_str()),
                    ),
                )
            }
        },
    }
}

/// Applies one agent request. A request whose target is not active (or
/// cannot be produced by the store) is refused with `ok = false` and the
/// store untouched; structural store failures abort with an error.
#[verifier::rlimit(100)]
pub fn handle_request_with_storage(storage: &mut Storage, request: AgentRequest, now: &str) -> (r:
    Result<AgentResponse, KenError>)
    ensures
        request_frame(
            request@,
            db_sessions(old(storage)),
            db_sessions(final(storage)),
            old(storage).events(),
            final(storage).events(),
            now@,
        ),
        (db_sessions(old(storage)).contains_key(target_id(request@)) && db_sessions(
            old(storage),
        )[target_id(request@)].status == SessionStatus::Active) ==> (r matches Ok(resp)
            ==> resp@.ok),
        (!db_sessions(old(storage)).contains_key(target_id(request@)) && r is Err) ==> r matches Err(
            KenError::Database(_),
        ),
        r matches Ok(resp) ==> {
            &&& (resp@.ok ==> ok_outcome(
                request@,
                db_sessions(old(storage)),
                db_sessions(final(storage)),
                old(storage).events(),
                final(storage).events(),
                now@,
                resp@,
            ))
            &&& (!resp@.ok ==> refused_outcome(
                request@,
                db_sessions(old(storage)),
                db_sessions(final(storage)),
                old(storage).events(),
                final(storage).events(),
                resp@,
            ))
        },
{
    proof {
        crate::storage::lemma_events_extended_refl(old(storage).events());
    }
    match request {
        AgentRequest::Complete { session_id, result } => {
            match gate_active(storage, session_id.as_str()) {
                Err(e) => Err(e),
                Ok(Some(resp)) => Ok(resp),
                Ok(None) => {
                    match storage.complete_session(session_id.as_str(), result.as_str(), now) {
                        Ok(()) => {},
                        Err(e) => {
                            return Err(e);
                        },
                    }
                    let ev = Event::new(
                        "session_completed",
                        Some(session_id.as_str()),
                        Some(result),
                    );
                    match storage.insert_event(&ev) {
                        Ok(()) => {},
                        Err(e) => {
                            return Err(e);
                        },
                    }
                    proof {
                        assert(storage.events().take(old(storage).events().len() as int)
                            =~= old(storage).events());
                    }
                    let resp = AgentResponse::success(None);
                    proof {
                        assert(ok_outcome(
                            request@,
                            db_sessions(old(storage)),
                            db_sessions(storage),
                            old(storage).events(),
                            storage.events(),
                            now@,
                            resp@,
                        ));
                    }
                    Ok(resp)
                },
            }
        },
        AgentRequest::Sleep { session_id, trigger, checkpoint } => {
            match gate_active(storage, session_id.as_str()) {
                Err(e) => Err(e),
                Ok(Some(resp)) => Ok(resp),
                Ok(None) => {
                    let trigger_str = trigger.to_json();
                    match storage.sleep_session(
                        session_id.as_str(),
                        trigger_str.as_str(),
                        checkpoint.as_str(),
                        now,
                    ) {
                        Ok(()) => {},
                        Err(e) => {
                            return Err(e);
                        },
                    }
                    let ev = Event::new(
                        "session_sleeping",
                        Some(session_id.as_str()),
                        Some(trigger_str),
                    );
                    match storage.insert_event(&ev) {
                        Ok(()) => {},
                        Err(e) => {
                            return Err(e);
                        },
                    }
                    proof {
                        assert(storage.events().take(old(storage).events().len() as int)
                            =~= old(storage).events());
                    }
                    let resp = AgentResponse::success(None);
                    proof {
                        assert(ok_outcome(
                            request@,
                            db_sessions(old(storage)),
                            db_sessions(storage),
                            old(storage).events(),
                            storage.events(),
                            now@,
                            resp@,
                        ));
                    }
                    Ok(resp)
                },
            }
        },
        AgentRequest::SpawnAndSleep { session_id, children, trigger, checkpoint } => {
            match gate_active(storage, session_id.as_str()) {
                Err(e) => Err(e),
                Ok(Some(resp)) => Ok(resp),
                Ok(None) => {
                    let nc = children.len();
                    let mut child_sessions: Vec<Session> = Vec::new();
                    let mut i: usize = 0;
                    while i < nc
                        invariant
                            nc == children@.len(),
                            i <= nc,
                            child_sessions@.len() == i,
                            forall|k: int|
                                0 <= k < i ==> crate::session::uuid_text(
                                    (#[trigger] child_sessions.deep_view()[k]).id,
                                ),
                            forall|k: int|
                                0 <= k < i ==> (#[trigger] child_sessions.deep_view()[k])
                                    == (SessionV {
                                    id: child_sessions.deep_view()[k].id,
                                    ken: children.deep_view()[k].ken,
                                    task: children.deep_view()[k].task,
                                    status: SessionStatus::Pending,
                                    parent_id: Some(session_id@),
                                    trigger: None,
                                    checkpoint: None,
                                    result: None,
                                    created_at: now@,
                                    updated_at: now@,
                                }),
                        decreases nc - i,
                    {
                        let ghost dv0 = child_sessions.deep_view();
                        let child = Session::new_at(
                            children[i].ken.as_str(),
                            children[i].task.as_str(),
                            Some(session_id.clone()),
                            now,
                        );
                        child_sessions.push(child);
                        proof {
                            assert(children.deep_view()[i as int] == children@[i as int]@);
                            assert(child_sessions.deep_view() =~= dv0.push(
                                child_sessions@[i as int]@,
                            ));
                        }
                        i += 1;
                    }
                    let mut child_ids: Vec<String> = Vec::new();
                    let mut j: usize = 0;
                    while j < nc
                        invariant
                            nc == child_sessions@.len(),
                            j <= nc,
                            child_ids@.len() == j,
                            forall|k: int|
                                0 <= k < j ==> child_ids.deep_view()[k] == (
                                #[trigger] child_sessions.deep_view()[k]).id,
                        decreases nc - j,
                    {
                        let ghost iv0 = child_ids.deep_view();
                        child_ids.push(child_sessions[j].id.clone());
                        proof {
                            assert(child_ids.deep_view() =~= iv0.push(child_ids@[j as int]@));
                            assert(child_sessions.deep_view()[j as int]
                                == child_sessions@[j as int]@);
                        }
                        j += 1;
                    }
                    let trigger_str = trigger.to_json();
                    let resolved = resolve_trigger(trigger_str.as_str(), &child_ids);
                    let ghost cs = child_sessions.deep_view();
                    let spawned = match storage.spawn_and_sleep(
                        session_id.as_str(),
                        child_sessions,
                        resolved.as_str(),
                        checkpoint.as_str(),
                        now,
                    ) {
                        Ok(ids) => ids,
                        Err(e) => {
                            return Err(e);
                        },
                    };
                    proof {
                        assert(child_ids.deep_view() =~= cs.map_values(|c: SessionV| c.id)) by {
                            assert(forall|k: int|
                                0 <= k < cs.len() ==> child_ids.deep_view()[k] == (
                                #[trigger] cs[k]).id);
                        }
                        assert(spawned.deep_view() =~= child_ids.deep_view()) by {
                            assert(forall|k: int|
                                0 <= k < cs.len() ==> spawned.deep_view()[k] == (
                                #[trigger] cs[k]).id);
                        }
                    }
                    let ghost idsg = spawned.deep_view();
                    let resp = AgentResponse::success(Some(spawned));
                    proof {
                        assert forall|k: int| 0 <= k < idsg.len() implies resolvable_id(
                            #[trigger] idsg[k],
                        ) by {
                            assert(idsg[k] == cs[k].id);
                            lemma_uuid_text_resolvable(cs[k].id);
                        }
                        assert(spawned_outcome(
                            cs,
                            idsg,
                            session_id@,
                            children.deep_view(),
                            trigger@,
                            checkpoint@,
                            db_sessions(old(storage)),
                            db_sessions(storage),
                            old(storage).events(),
                            storage.events(),
                            now@,
                            resp@,
                        ));
                        assert(request@ == (AgentRequestV::SpawnAndSleep {
                            session_id: session_id@,
                            children: children.deep_view(),
                            trigger: trigger@,
                            checkpoint: checkpoint@,
                        }));
                        lemma_ok_outcome_spawn(
                            request@,
                            cs,
                            idsg,
                            session_id@,
                            children.deep_view(),
                            trigger@,
                            checkpoint@,
                            db_sessions(old(storage)),
                            db_sessions(storage),
                            old(storage).events(),
                            storage.events(),
                            now@,
                            resp@,
                        );
                    }
                    Ok(resp)
                },
            }
        },
    }
}

/// Completing the active target preserves store well-formedness: the
/// record enters a terminal state carrying its result, and no creation
/// time or parent reference changes.
pub proof fn lemma_complete_preserves_wf(
    m0: Map<Seq<char>, SessionV>,
    m1: Map<Seq<char>, SessionV>,
    id: Seq<char>,
    result: Seq<char>,
    now: Seq<char>,
)
    requires
        crate::storage::wf_store(m0),
        m0.contains_key(id),
        m1 == m0.insert(id, completed(m0[id], result, now)),
    ensures
        crate::storage::wf_store(m1),
{
    assert forall|x: Seq<char>| m1.contains_key(x) implies {
        &&& (((#[trigger] m1[x]).status == SessionStatus::Complete || m1[x].status
            == SessionStatus::Failed) ==> m1[x].result is Some)
        &&& (m1[x].parent_id matches Some(p) ==> m1.contains_key(p) && crate::strutil::lex_le(
            m1[p].created_at,
            m1[x].created_at,
        ))
    } by {
        if x != id {
            assert(m1[x] == m0[x]);
        }
        match m0[x].parent_id {
            Some(p) => {
                assert(m0.contains_key(p));
                assert(m1[p].created_at == m0[p].created_at);
                assert(m1[x].created_at == m0[x].created_at);
                assert(m1[x].parent_id == m0[x].parent_id);
            },
            None => {},
        }
    }
}

/// Putting the active target to sleep preserves store well-formedness:
/// sleeping is not terminal, and no creation time or parent reference
/// changes.
pub proof fn lemma_sleep_preserves_wf(
    m0: Map<Seq<char>, SessionV>,
    m1: Map<Seq<char>, SessionV>,
    id: Seq<char>,
    trigger: Seq<char>,
    checkpoint: Seq<char>,
    now: Seq<char>,
)
    requires
        crate::storage::wf_store(m0),
        m0.contains_key(id),
        m1 == m0.insert(id, slept(m0[id], trigger, checkpoint, now)),
    ensures
        crate::storage::wf_store(m1),
{
    assert forall|x: Seq<char>| m1.contains_key(x) implies {
        &&& (((#[trigger] m1[x]).status == SessionStatus::Complete || m1[x].status
            == SessionStatus::Failed) ==> m1[x].result is Some)
        &&& (m1[x].parent_id matches Some(p) ==> m1.contains_key(p) && crate::strutil::lex_le(
            m1[p].created_at,
            m1[x].created_at,
        ))
    } by {
        if x != id {
            assert(m1[x] == m0[x]);
        }
        match m0[x].parent_id {
            Some(p) => {
                assert(m0.contains_key(p));
                assert(m1[p].created_at == m0[p].created_at);
                assert(m1[x].created_at == m0[x].created_at);
                assert(m1[x].parent_id == m0[x].parent_id);
            },
            None => {},
        }
    }
}

/// A successful spawn preserves store well-formedness, provided the clock
/// has not run backwards past the parent's creation time: every child is
/// born pending with its parent present in the store and a creation time
/// no earlier than the parent's.
pub proof fn lemma_spawn_preserves_wf(
    m0: Map<Seq<char>, SessionV>,
    m1: Map<Seq<char>, SessionV>,
    parent_id: Seq<char>,
    cs: Seq<SessionV>,
    trigger: Seq<char>,
    checkpoint: Seq<char>,
    now: Seq<char>,
)
    requires
        crate::storage::wf_store(m0),
        m0.contains_key(parent_id),
        crate::strutil::lex_le(m0[parent_id].created_at, now),
        forall|i: int|
            0 <= i < cs.len() ==> {
                &&& (#[trigger] cs[i]).status == SessionStatus::Pending
                &&& cs[i].parent_id == Some(parent_id)
                &&& cs[i].result is None
                &&& cs[i].created_at == now
            },
        spawn_post(m0, m1, parent_id, cs, trigger, checkpoint, now),
    ensures
        crate::storage::wf_store(m1),
{
    assert(!crate::storage::child_id_among(cs, cs.len() as int, parent_id)) by {
        if crate::storage::child_id_among(cs, cs.len() as int, parent_id) {
            let k = choose|k: int| 0 <= k < cs.len() && (#[trigger] cs[k]).id == parent_id;
            assert(!m0.contains_key(cs[k].id));
        }
    }
    assert(m1[parent_id] == slept(m0[parent_id], trigger, checkpoint, now));
    assert forall|x: Seq<char>| m1.contains_key(x) implies {
        &&& (((#[trigger] m1[x]).status == SessionStatus::Complete || m1[x].status
            == SessionStatus::Failed) ==> m1[x].result is Some)
        &&& (m1[x].parent_id matches Some(p) ==> m1.contains_key(p) && crate::strutil::lex_le(
            m1[p].created_at,
            m1[x].created_at,
        ))
    } by {
        if crate::storage::child_id_among(cs, cs.len() as int, x) {
            let k = choose|k: int| 0 <= k < cs.len() && (#[trigger] cs[k]).id == x;
            if cs[k].id != parent_id {
                assert(m1[x] == cs[k]);
                assert(m1[parent_id].created_at == m0[parent_id].created_at);
            }
        } else if x == parent_id {
            assert(m1[x].status == SessionStatus::Sleeping);
            match m0[x].parent_id {
                Some(p) => {
                    assert(m0.contains_key(p));
                    assert(!crate::storage::child_id_among(cs, cs.len() as int, p)) by {
                        if crate::storage::child_id_among(cs, cs.len() as int, p) {
                            let k = choose|k: int|
                                0 <= k < cs.len() && (#[trigger] cs[k]).id == p;
                            assert(!m0.contains_key(cs[k].id));
                        }
                    }
                    if p == parent_id {
                    } else {
                        assert(m1[p] == m0[p]);
                    }
                },
                None => {},
            }
        } else {
            assert(m1.contains_key(x) == m0.contains_key(x));
            assert(m1[x] == m0[x]);
            match m0[x].parent_id {
                Some(p) => {
                    assert(m0.contains_key(p));
                    assert(!crate::storage::child_id_among(cs, cs.len() as int, p)) by {
                        if crate::storage::child_id_among(cs, cs.len() as int, p) {
                            let k = choose|k: int|
                                0 <= k < cs.len() && (#[trigger] cs[k]).id == p;
                            assert(!m0.contains_key(cs[k].id));
                        }
                    }
                    if p == parent_id {
                        assert(m1[p].created_at == m0[p].created_at);
                    } else {
                        assert(m1[p] == m0[p]);
                    }
                },
                None => {},
            }
        }
    }
}

/// Every status change a successful request makes is an edge of the state
/// machine: the active target completes or goes to sleep; freshly spawned
/// children are created pending, which is no transition.
pub proof fn lemma_request_follows_machine(
    req: AgentRequestV,
    m0: Map<Seq<char>, SessionV>,
    m1: Map<Seq<char>, SessionV>,
    e0: Seq<EventV>,
    e1: Seq<EventV>,
    now: Seq<char>,
    resp: AgentResponseV,
    id: Seq<char>,
)
    requires
        ok_outcome(req, m0, m1, e0, e1, now, resp),
        m0.contains_key(id),
        m1.contains_key(id),
        m0[id].status != m1[id].status,
    ensures
        crate::session::machine_edge(m0[id].status, m1[id].status),
{
    match req {
        AgentRequestV::Complete { session_id, result } => {
            if id != session_id {
                assert(m1[id] == m0[id]);
            }
        },
        AgentRequestV::Sleep { session_id, trigger, checkpoint } => {
            if id != session_id {
                assert(m1[id] == m0[id]);
            }
        },
        AgentRequestV::SpawnAndSleep { session_id, children, trigger, checkpoint } => {
            let (cs, ids) = choose|cs: Seq<SessionV>, ids: Seq<Seq<char>>|
                #[trigger] spawned_outcome(
                    cs,
                    ids,
                    session_id,
                    children,
                    trigger,
                    checkpoint,
                    m0,
                    m1,
                    e0,
                    e1,
                    now,
                    resp,
                );
            assert(!crate::storage::child_id_among(cs, cs.len() as int, id)) by {
                if crate::storage::child_id_among(cs, cs.len() as int, id) {
                    let k = choose|k: int| 0 <= k < cs.len() && (#[trigger] cs[k]).id == id;
                    assert(!m0.contains_key(cs[k].id));
                }
            }
            if id != session_id {
                assert(m1[id] == m0[id]);
            } else {
                assert(m1[id] == slept(m0[id], replace_all(template_json(trigger),
                    quoted_children_token(), ids_lit(ids)), checkpoint, now));
            }
        },
    }
}

/// The request command's computation: parses the request text, applies it,
/// and renders the response envelope. A malformed request aborts with
/// `InvalidRequest`, as the command does before touching the store.
pub fn run(storage: &mut Storage, json: &str, now: &str) -> (r: Result<String, KenError>)
    ensures
        sp_request(json@) matches Some(req) ==> request_frame(
            req,
            db_sessions(old(storage)),
            db_sessions(final(storage)),
            old(storage).events(),
            final(storage).events(),
            now@,
        ),
        sp_request(json@) is None ==> db_sessions(final(storage)) == db_sessions(old(storage))
            && final(storage).events() == old(storage).events(),
        r matches Ok(line) ==> sp_request(json@) matches Some(req) && exists|resp: AgentResponseV|
            {
                &&& #[trigger] response_json(resp) == line@
                &&& (db_sessions(old(storage)).contains_key(target_id(req)) && db_sessions(
                    old(storage),
                )[target_id(req)].status == SessionStatus::Active ==> resp.ok)
                &&& (resp.ok ==> ok_outcome(
                    req,
                    db_sessions(old(storage)),
                    db_sessions(final(storage)),
                    old(storage).events(),
                    final(storage).events(),
                    now@,
                    resp,
                ))
                &&& (!resp.ok ==> refused_outcome(
                    req,
                    db_sessions(old(storage)),
                    db_sessions(final(storage)),
                    old(storage).events(),
                    final(storage).events(),
                    resp,
                ))
            },
        sp_request(json@) is None ==> r is Err,
{
    let request = match parse_agent_request(json) {
        Ok(req) => req,
        Err(e) => {
            return Err(e);
        },
    };
    let response = match handle_request_with_storage(storage, request, now) {
        Ok(resp) => resp,
        Err(e) => {
            return Err(e);
        },
    };
    Ok(response.to_json())
}

} // verus!
