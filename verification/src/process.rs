//! The process command (the tick): scans sleeping sessions for satisfied
//! triggers and promotes at most one pending session to active.

use vstd::prelude::*;
use crate::error::KenError;
use crate::jsontext::{opt_lit, push_json_string, push_opt_string};
use crate::session::{
    clone_opt, machine_edge, parse_rfc3339_secs, with_status, Event, EventV, Session,
    SessionStatus, SessionV,
};
use crate::storage::{db_sessions, events_extended, lists_matching, Storage};
use crate::strutil::{chars_of, lex_lt, string_from_chars};
use crate::trigger::{
    lemma_snap_lookup_entry, lemma_snap_lookup_push, snap_lookup, trigger_of_json, trigger_sat,
    StatusSnapshot, Trigger, TriggerV,
};
use vstd::string::StringExecFns;

verus! {

/// What one tick did: which sleepers it woke, and the session it
/// activated, if any.
pub struct TickOutcome {
    pub woken: Vec<String>,
    pub activated: Option<Session>,
}

/// How one record may move during a tick: unchanged, woken
/// (sleeping to pending), activated (pending to active), or woken and
/// activated within the same call.
pub open spec fn tick_step(a: SessionStatus, b: SessionStatus) -> bool {
    ||| a == b
    ||| (a == SessionStatus::Sleeping && b == SessionStatus::Pending)
    ||| (a == SessionStatus::Pending && b == SessionStatus::Active)
    ||| (a == SessionStatus::Sleeping && b == SessionStatus::Active)
}

/// A tick changes no set of sessions and no field but status and
/// `updated_at`, and each status move is a tick step; a changed record
/// carries the tick's own timestamp.
pub open spec fn tick_frame(
    m0: Map<Seq<char>, SessionV>,
    m1: Map<Seq<char>, SessionV>,
    now: Seq<char>,
) -> bool {
    &&& forall|id: Seq<char>|
        #[trigger] m1.contains_key(id) == m0.contains_key(id)
    &&& forall|id: Seq<char>|
        #![trigger m1[id]]
        m0.contains_key(id) ==> {
            &&& tick_step(m0[id].status, m1[id].status)
            &&& (m1[id].status == m0[id].status ==> m1[id] == m0[id])
            &&& (m1[id].status != m0[id].status ==> m1[id] == with_status(
                m0[id],
                m1[id].status,
                now,
            ))
        }
}

/// The record moved into the active state during the tick.
pub open spec fn newly_active(
    m0: Map<Seq<char>, SessionV>,
    m1: Map<Seq<char>, SessionV>,
    id: Seq<char>,
) -> bool {
    m0.contains_key(id) && m1.contains_key(id) && m0[id].status != SessionStatus::Active
        && m1[id].status == SessionStatus::Active
}

/// Waking one sleeping record preserves the tick frame and activates
/// nothing.
proof fn lemma_frame_wake(
    m0: Map<Seq<char>, SessionV>,
    cur: Map<Seq<char>, SessionV>,
    new: Map<Seq<char>, SessionV>,
    id: Seq<char>,
    now: Seq<char>,
)
    requires
        tick_frame(m0, cur, now),
        forall|x: Seq<char>| !newly_active(m0, cur, x),
        cur.contains_key(id),
        cur[id].status == SessionStatus::Sleeping,
        new == cur.insert(id, with_status(cur[id], SessionStatus::Pending, now)),
    ensures
        tick_frame(m0, new, now),
        forall|x: Seq<char>| !newly_active(m0, new, x),
{
    assert(m0.contains_key(id));
    assert(m0[id].status == SessionStatus::Sleeping);
    assert(cur[id] == m0[id]);
    assert forall|x: Seq<char>| #![trigger new[x]] m0.contains_key(x) implies {
        &&& tick_step(m0[x].status, new[x].status)
        &&& (new[x].status == m0[x].status ==> new[x] == m0[x])
        &&& (new[x].status != m0[x].status ==> new[x] == with_status(m0[x], new[x].status, now))
    } by {
        if x != id {
            assert(new[x] == cur[x]);
        }
    }
    assert forall|x: Seq<char>| !newly_active(m0, new, x) by {
        if x == id {
            assert(new[id] == with_status(cur[id], SessionStatus::Pending, now));
        } else {
            if new.contains_key(x) {
                assert(new[x] == cur[x]);
                assert(!newly_active(m0, cur, x));
            }
        }
    }
}

/// Activating one pending record preserves the tick frame and makes that
/// record the only newly active one.
proof fn lemma_frame_activate(
    m0: Map<Seq<char>, SessionV>,
    cur: Map<Seq<char>, SessionV>,
    new: Map<Seq<char>, SessionV>,
    id: Seq<char>,
    now: Seq<char>,
)
    requires
        tick_frame(m0, cur, now),
        forall|x: Seq<char>| !newly_active(m0, cur, x),
        cur.contains_key(id),
        cur[id].status == SessionStatus::Pending,
        new == cur.insert(id, with_status(cur[id], SessionStatus::Active, now)),
    ensures
        tick_frame(m0, new, now),
        newly_active(m0, new, id),
        forall|x: Seq<char>| newly_active(m0, new, x) ==> x == id,
        new[id].ken == cur[id].ken,
        new[id].task == cur[id].task,
        new[id].checkpoint == cur[id].checkpoint,
    new[id].status == SessionStatus::Active,
{
    assert(m0.contains_key(id));
    assert(m0[id].status == SessionStatus::Pending || m0[id].status == SessionStatus::Sleeping);
    assert forall|x: Seq<char>| #![trigger new[x]] m0.contains_key(x) implies {
        &&& tick_step(m0[x].status, new[x].status)
        &&& (new[x].status == m0[x].status ==> new[x] == m0[x])
        &&& (new[x].status != m0[x].status ==> new[x] == with_status(m0[x], new[x].status, now))
    } by {
        if x != id {
            assert(new[x] == cur[x]);
        } else {
            assert(cur[id].status != m0[id].status ==> cur[id] == with_status(
                m0[id],
                SessionStatus::Pending,
                now,
            ));
        }
    }
    assert forall|x: Seq<char>| newly_active(m0, new, x) implies x == id by {
        if x != id {
            if new.contains_key(x) {
                assert(new[x] == cur[x]);
                assert(!newly_active(m0, cur, x));
            }
        }
    }
}


/// The record exists and is complete.
pub open spec fn store_complete(m: Map<Seq<char>, SessionV>, id: Seq<char>) -> bool {
    m.contains_key(id) && m[id].status == SessionStatus::Complete
}

/// Satisfaction of a trigger directly against the store: `all_complete`
/// holds when every referenced session is stored complete (absent ids
/// count as not complete), `any_complete` when at least one is, and a
/// timeout when at least `n` seconds separate the reference time from now.
pub open spec fn trigger_sat_store(
    t: TriggerV,
    m: Map<Seq<char>, SessionV>,
    now: int,
    reference: Option<int>,
) -> bool {
    match t {
        TriggerV::AllComplete(ids) => forall|k: int|
            0 <= k < ids.len() ==> store_complete(m, #[trigger] ids[k]),
        TriggerV::AnyComplete(ids) => exists|k: int|
            0 <= k < ids.len() && store_complete(m, #[trigger] ids[k]),
        TriggerV::TimeoutSeconds(n) => reference matches Some(r) && now - r >= n,
    }
}

/// The record is sleeping and its stored trigger parses to a trigger that
/// is satisfied against the store, with the record's own `updated_at` as
/// reference time: the tick owes it a wake.
pub open spec fn sleeper_due(m: Map<Seq<char>, SessionV>, id: Seq<char>, now_secs: int) -> bool {
    &&& m.contains_key(id)
    &&& m[id].status == SessionStatus::Sleeping
    &&& m[id].trigger matches Some(tj) && trigger_of_json(tj) matches Some(t) && trigger_sat_store(
        t,
        m,
        now_secs,
        crate::session::rfc3339_secs(m[id].updated_at),
    )
}

/// The id stands in the list.
pub open spec fn names(w: Seq<String>, id: Seq<char>) -> bool {
    exists|k: int| 0 <= k < w.len() && (#[trigger] w[k])@ == id
}

/// The message logged when a stored trigger does not parse.
pub open spec fn parse_error_msg(tj: Seq<char>) -> Seq<char> {
    "Failed to parse trigger: "@ + tj
}

/// The log grew only by tick events, each naming a stored session.
pub open spec fn tick_event_kinds(
    m0: Map<Seq<char>, SessionV>,
    e0: Seq<EventV>,
    e1: Seq<EventV>,
) -> bool {
    &&& events_extended(e0, e1)
    &&& forall|j: int|
        e0.len() <= j < e1.len() ==> {
            let ev = #[trigger] e1[j];
            &&& (ev.event_type == "trigger_parse_error"@ || ev.event_type == "trigger_satisfied"@
                || ev.event_type == "session_activated"@)
            &&& ev.session_id matches Some(x) && m0.contains_key(x)
        }
}

/// An event of the given shape was appended.
pub open spec fn logged(
    e0: Seq<EventV>,
    e1: Seq<EventV>,
    ty: Seq<char>,
    sid: Seq<char>,
    data: Option<Seq<char>>,
) -> bool {
    exists|j: int|
        e0.len() <= j < e1.len() && (#[trigger] e1[j]).event_type == ty && e1[j].session_id
            == Some(sid) && e1[j].data == data
}

/// A tick frame preserves the completed set in both directions: nothing
/// enters or leaves the complete status during a tick.
proof fn lemma_frame_complete_agree(
    m0: Map<Seq<char>, SessionV>,
    cur: Map<Seq<char>, SessionV>,
    now: Seq<char>,
)
    requires
        tick_frame(m0, cur, now),
    ensures
        forall|x: Seq<char>| #[trigger] store_complete(cur, x) == store_complete(m0, x),
{
    assert forall|x: Seq<char>| #[trigger] store_complete(cur, x) == store_complete(m0, x) by {
        if m0.contains_key(x) {
            assert(tick_step(m0[x].status, cur[x].status));
        }
    }
}

/// Satisfaction against two stores with the same completed set agrees.
proof fn lemma_sat_store_agree(
    t: TriggerV,
    m0: Map<Seq<char>, SessionV>,
    cur: Map<Seq<char>, SessionV>,
    now: int,
    reference: Option<int>,
)
    requires
        forall|x: Seq<char>| #[trigger] store_complete(cur, x) == store_complete(m0, x),
    ensures
        trigger_sat_store(t, cur, now, reference) == trigger_sat_store(t, m0, now, reference),
{
    match t {
        TriggerV::AllComplete(ids) => {
            if trigger_sat_store(t, cur, now, reference) {
                assert forall|k: int| 0 <= k < ids.len() implies store_complete(
                    m0,
                    #[trigger] ids[k],
                ) by {
                    assert(store_complete(cur, ids[k]));
                }
            }
            if trigger_sat_store(t, m0, now, reference) {
                assert forall|k: int| 0 <= k < ids.len() implies store_complete(
                    cur,
                    #[trigger] ids[k],
                ) by {
                    assert(store_complete(m0, ids[k]));
                }
            }
        },
        TriggerV::AnyComplete(ids) => {
            if trigger_sat_store(t, cur, now, reference) {
                let k = choose|k: int| 0 <= k < ids.len() && store_complete(cur, #[trigger] ids[k]);
                assert(store_complete(m0, ids[k]));
            }
            if trigger_sat_store(t, m0, now, reference) {
                let k = choose|k: int| 0 <= k < ids.len() && store_complete(m0, #[trigger] ids[k]);
                assert(store_complete(cur, ids[k]));
            }
        },
        TriggerV::TimeoutSeconds(_) => {},
    }
}

/// Whether a sleeper is due agrees between two tick-frame-related stores
/// that hold the same record for it.
proof fn lemma_due_agree(
    m0: Map<Seq<char>, SessionV>,
    cur: Map<Seq<char>, SessionV>,
    id: Seq<char>,
    now: Seq<char>,
    now_secs: int,
)
    requires
        tick_frame(m0, cur, now),
        m0.contains_key(id),
        cur.contains_key(id),
        cur[id] == m0[id],
    ensures
        sleeper_due(cur, id, now_secs) == sleeper_due(m0, id, now_secs),
{
    lemma_frame_complete_agree(m0, cur, now);
    match m0[id].trigger {
        Some(tj) => {
            match trigger_of_json(tj) {
                Some(t) => {
                    lemma_sat_store_agree(
                        t,
                        m0,
                        cur,
                        now_secs,
                        crate::session::rfc3339_secs(m0[id].updated_at),
                    );
                },
                None => {},
            }
        },
        None => {},
    }
}

/// Builds the evaluation snapshot for the referenced ids by reading the
/// store: a present session is recorded with its current status, an id the
/// store does not hold is left out (and so counts as not complete), and a
/// database failure aborts.
fn build_snapshot(storage: &Storage, ids: &Vec<String>) -> (r: Result<StatusSnapshot, KenError>)
    ensures
        r matches Ok(snap) ==> {
            &&& forall|j: int|
                0 <= j < ids.deep_view().len() && store_complete(
                    db_sessions(storage),
                    #[trigger] ids.deep_view()[j],
                ) ==> snap_lookup(snap@, ids.deep_view()[j]) == Some(SessionStatus::Complete)
            &&& forall|e: int|
                0 <= e < snap@.len() ==> db_sessions(storage).contains_key(
                    (#[trigger] snap@[e]).0,
                ) && db_sessions(storage)[snap@[e].0].status == snap@[e].1
        },
{
    let mut snap = StatusSnapshot::new();
    let n = ids.len();
    let mut k: usize = 0;
    while k < n
        invariant
            n == ids@.len(),
            k <= n,
            forall|j: int|
                0 <= j < k && store_complete(db_sessions(storage), #[trigger] ids.deep_view()[j])
                    ==> snap_lookup(snap@, ids.deep_view()[j]) == Some(SessionStatus::Complete),
            forall|e: int|
                0 <= e < snap@.len() ==> db_sessions(storage).contains_key(
                    (#[trigger] snap@[e]).0,
                ) && db_sessions(storage)[snap@[e].0].status == snap@[e].1,
        decreases n - k,
    {
        proof {
            assert(ids.deep_view()[k as int] == ids@[k as int]@);
        }
        match storage.get_session(ids[k].as_str()) {
            Ok(s) => {
                let ghost snap0 = snap@;
                let st = s.status;
                snap.push(ids[k].clone(), st);
                proof {
                    assert forall|j: int|
                        0 <= j < k + 1 && store_complete(
                            db_sessions(storage),
                            #[trigger] ids.deep_view()[j],
                        ) implies snap_lookup(snap@, ids.deep_view()[j]) == Some(
                        SessionStatus::Complete,
                    ) by {
                        lemma_snap_lookup_push(
                            snap0,
                            (ids.deep_view()[k as int], st),
                            ids.deep_view()[j],
                        );
                        if j == k {
                            if snap_lookup(snap0, ids.deep_view()[j]) is Some {
                                lemma_snap_lookup_entry(snap0, ids.deep_view()[j]);
                            }
                        }
                    }
                }
            },
            Err(KenError::SessionNotFound(_)) => {
                proof {
                    assert(!db_sessions(storage).contains_key(ids.deep_view()[k as int]));
                }
            },
            Err(e) => {
                return Err(e);
            },
        }
        k += 1;
    }
    Ok(snap)
}

/// Handles one sleeping session of the wake scan: parses its stored
/// trigger (logging a parse error and moving on when it does not parse),
/// evaluates it, and wakes the session exactly when it is due. Returns
/// the id on a wake.
fn process_sleeper(storage: &mut Storage, s: &Session, now: &str, now_secs: i64) -> (r: Result<
    Option<String>,
    KenError,
>)
    requires
        db_sessions(old(storage)).contains_key(s@.id),
        db_sessions(old(storage))[s@.id] == s@,
        s@.status == SessionStatus::Sleeping,
    ensures
        r matches Ok(Some(id)) ==> {
            &&& id@ == s@.id
            &&& sleeper_due(db_sessions(old(storage)), s@.id, now_secs as int)
            &&& db_sessions(final(storage)) == db_sessions(old(storage)).insert(
                s@.id,
                with_status(s@, SessionStatus::Pending, now@),
            )
            &&& logged(
                old(storage).events(),
                final(storage).events(),
                "trigger_satisfied"@,
                s@.id,
                s@.trigger,
            )
        },
        r matches Ok(None) ==> {
            &&& !sleeper_due(db_sessions(old(storage)), s@.id, now_secs as int)
            &&& db_sessions(final(storage)) == db_sessions(old(storage))
            &&& (match s@.trigger {
                Some(tj) => trigger_of_json(tj) is None ==> logged(
                    old(storage).events(),
                    final(storage).events(),
                    "trigger_parse_error"@,
                    s@.id,
                    Some(parse_error_msg(tj)),
                ),
                None => true,
            })
        },
        r is Err ==> db_sessions(final(storage)) == db_sessions(old(storage)) || db_sessions(
            final(storage),
        ) == db_sessions(old(storage)).insert(s@.id, with_status(s@, SessionStatus::Pending, now@)),
        events_extended(old(storage).events(), final(storage).events()),
        forall|j: int|
            old(storage).events().len() <= j < final(storage).events().len() ==> {
                let ev = #[trigger] final(storage).events()[j];
                &&& (ev.event_type == "trigger_parse_error"@ || ev.event_type
                    == "trigger_satisfied"@)
                &&& ev.session_id == Some(s@.id)
            },
{
    proof {
        crate::storage::lemma_events_extended_refl(old(storage).events());
    }
    let trigger_opt = clone_opt(&s.trigger);
    match trigger_opt {
        None => Ok(None),
        Some(trigger_text) => {
            match Trigger::from_json(trigger_text.as_str()) {
                Err(_) => {
                    let msg = <String as StringExecFns>::from_str(
                        "Failed to parse trigger: ",
                    ).concat(trigger_text.as_str());
                    let ev = Event::new("trigger_parse_error", Some(s.id.as_str()), Some(msg));
                    let ghost epre = storage.events();
                    match storage.insert_event(&ev) {
                        Ok(()) => {
                            proof {
                                crate::storage::lemma_events_extended_push(epre, epre, ev@);
                                assert(storage.events()[epre.len() as int] == ev@);
                                assert(ev@.data == Some(parse_error_msg(trigger_text@)));
                            }
                        },
                        Err(e) => {
                            return Err(e);
                        },
                    }
                    Ok(None)
                },
                Ok(trig) => {
                    let snap = match &trig {
                        Trigger::AllComplete(ids) => {
                            let sn = match build_snapshot(storage, ids) {
                                Ok(sn) => sn,
                                Err(e) => {
                                    return Err(e);
                                },
                            };
                            proof {
                                lemma_snap_agrees(trig@, sn@, db_sessions(storage));
                            }
                            sn
                        },
                        Trigger::AnyComplete(ids) => {
                            let sn = match build_snapshot(storage, ids) {
                                Ok(sn) => sn,
                                Err(e) => {
                                    return Err(e);
                                },
                            };
                            proof {
                                lemma_snap_agrees(trig@, sn@, db_sessions(storage));
                            }
                            sn
                        },
                        Trigger::TimeoutSeconds(_) => StatusSnapshot::new(),
                    };
                    proof {
                        assert(forall|refx: Option<int>|
                            #[trigger] trigger_sat(trig@, snap@, now_secs as int, refx)
                                == trigger_sat_store(
                                trig@,
                                db_sessions(storage),
                                now_secs as int,
                                refx,
                            ));
                    }
                    let ref_secs = parse_rfc3339_secs(s.updated_at.as_str());
                    let sat = trig.is_satisfied(&snap, now_secs, ref_secs);
                    proof {
                        let refv = crate::session::rfc3339_secs(s@.updated_at);
                        assert((match ref_secs {
                            Some(x) => Some(x as int),
                            None => None::<int>,
                        }) == refv);
                        assert(sat == trigger_sat_store(
                            trig@,
                            db_sessions(old(storage)),
                            now_secs as int,
                            refv,
                        ));
                        if sat {
                            assert(sleeper_due(db_sessions(old(storage)), s@.id, now_secs as int));
                        } else {
                            assert(!sleeper_due(db_sessions(old(storage)), s@.id, now_secs as int))
                                by {
                                if sleeper_due(db_sessions(old(storage)), s@.id, now_secs as int) {
                                    assert(trigger_sat_store(
                                        trig@,
                                        db_sessions(old(storage)),
                                        now_secs as int,
                                        refv,
                                    ));
                                }
                            }
                        }
                    }
                    if sat {
                        let woke = match storage.try_update_session_status(
                            s.id.as_str(),
                            SessionStatus::Sleeping,
                            SessionStatus::Pending,
                            now,
                        ) {
                            Ok(b) => b,
                            Err(e) => {
                                return Err(e);
                            },
                        };
                        proof {
                            assert(woke);
                        }
                        let ev = Event::new(
                            "trigger_satisfied",
                            Some(s.id.as_str()),
                            clone_opt(&s.trigger),
                        );
                        let ghost epre = storage.events();
                        match storage.insert_event(&ev) {
                            Ok(()) => {
                                proof {
                                    crate::storage::lemma_events_extended_push(epre, epre, ev@);
                                    assert(storage.events()[epre.len() as int] == ev@);
                                    assert(ev@.data == s@.trigger);
                                }
                            },
                            Err(e) => {
                                return Err(e);
                            },
                        }
                        Ok(Some(s.id.clone()))
                    } else {
                        Ok(None)
                    }
                },
            }
        },
    }
}

/// Evaluation against the snapshot a `build_snapshot` call produced for a
/// trigger's own ids agrees with satisfaction against the store.
proof fn lemma_snap_agrees(
    t: TriggerV,
    snap: Seq<(Seq<char>, SessionStatus)>,
    m: Map<Seq<char>, SessionV>,
)
    requires
        t matches TriggerV::AllComplete(ids) ==> forall|j: int|
            0 <= j < ids.len() && store_complete(m, #[trigger] ids[j]) ==> snap_lookup(
                snap,
                ids[j],
            ) == Some(SessionStatus::Complete),
        t matches TriggerV::AnyComplete(ids) ==> forall|j: int|
            0 <= j < ids.len() && store_complete(m, #[trigger] ids[j]) ==> snap_lookup(
                snap,
                ids[j],
            ) == Some(SessionStatus::Complete),
        forall|e: int|
            0 <= e < snap.len() ==> m.contains_key((#[trigger] snap[e]).0) && m[snap[e].0].status
                == snap[e].1,
    ensures
        forall|refx: Option<int>, now: int|
            #[trigger] trigger_sat(t, snap, now, refx) == trigger_sat_store(t, m, now, refx),
{
    assert forall|refx: Option<int>, now: int|
        #[trigger] trigger_sat(t, snap, now, refx) == trigger_sat_store(t, m, now, refx) by {
        match t {
            TriggerV::AllComplete(ids) => {
                if trigger_sat_store(t, m, now, refx) {
                    assert forall|k: int| 0 <= k < ids.len() implies snap_lookup(
                        snap,
                        #[trigger] ids[k],
                    ) == Some(SessionStatus::Complete) by {
                        assert(store_complete(m, ids[k]));
                    }
                }
                if trigger_sat(t, snap, now, refx) {
                    assert forall|k: int| 0 <= k < ids.len() implies store_complete(
                        m,
                        #[trigger] ids[k],
                    ) by {
                        assert(snap_lookup(snap, ids[k]) == Some(SessionStatus::Complete));
                        lemma_snap_lookup_entry(snap, ids[k]);
                    }
                }
            },
            TriggerV::AnyComplete(ids) => {
                if trigger_sat_store(t, m, now, refx) {
                    let k = choose|k: int| 0 <= k < ids.len() && store_complete(m, #[trigger] ids[k]);
                    assert(snap_lookup(snap, ids[k]) == Some(SessionStatus::Complete));
                }
                if trigger_sat(t, snap, now, refx) {
                    let k = choose|k: int|
                        0 <= k < ids.len() && snap_lookup(snap, #[trigger] ids[k]) == Some(
                            SessionStatus::Complete,
                        );
                    lemma_snap_lookup_entry(snap, ids[k]);
                    assert(store_complete(m, ids[k]));
                }
            },
            TriggerV::TimeoutSeconds(_) => {},
        }
    }
}

/// A listed id stays listed as the list grows.
proof fn lemma_names_push(w: Seq<String>, y: String, x: Seq<char>)
    requires
        names(w, x),
    ensures
        names(w.push(y), x),
{
    let k = choose|k: int| 0 <= k < w.len() && (#[trigger] w[k])@ == x;
    assert(w.push(y)[k] == w[k]);
}

/// A logged event stays logged as the log grows.
proof fn lemma_logged_extends(
    e0: Seq<EventV>,
    e1: Seq<EventV>,
    e2: Seq<EventV>,
    ty: Seq<char>,
    sid: Seq<char>,
    data: Option<Seq<char>>,
)
    requires
        logged(e0, e1, ty, sid, data),
        events_extended(e1, e2),
    ensures
        logged(e0, e2, ty, sid, data),
{
    let j = choose|j: int|
        e0.len() <= j < e1.len() && (#[trigger] e1[j]).event_type == ty && e1[j].session_id
            == Some(sid) && e1[j].data == data;
    crate::storage::lemma_events_extended_index(e1, e2, j);
}

/// Growing the log by events of the wake scan's two kinds, all naming one
/// stored session, keeps the tick's event discipline.
proof fn lemma_kinds_extend(
    m0: Map<Seq<char>, SessionV>,
    e0: Seq<EventV>,
    e1: Seq<EventV>,
    e2: Seq<EventV>,
    sid: Seq<char>,
)
    requires
        tick_event_kinds(m0, e0, e1),
        events_extended(e1, e2),
        m0.contains_key(sid),
        forall|j: int|
            e1.len() <= j < e2.len() ==> {
                let ev = #[trigger] e2[j];
                &&& (ev.event_type == "trigger_parse_error"@ || ev.event_type
                    == "trigger_satisfied"@ || ev.event_type == "session_activated"@)
                &&& ev.session_id == Some(sid)
            },
    ensures
        tick_event_kinds(m0, e0, e2),
{
    crate::storage::lemma_events_extended_trans(e0, e1, e2);
    assert forall|j: int| e0.len() <= j < e2.len() implies {
        let ev = #[trigger] e2[j];
        &&& (ev.event_type == "trigger_parse_error"@ || ev.event_type == "trigger_satisfied"@
            || ev.event_type == "session_activated"@)
        &&& ev.session_id matches Some(x) && m0.contains_key(x)
    } by {
        if j < e1.len() {
            crate::storage::lemma_events_extended_index(e1, e2, j);
        }
    }
}

/// One tick invocation: wakes exactly the sleeping sessions whose stored
/// trigger parses and is satisfied against the store (logging a
/// trigger_satisfied event for each, and a trigger_parse_error event for
/// each sleeper whose trigger does not parse), then activates the first
/// pending session it can, logging session_activated. At most one session
/// becomes active; a session is created or removed by no tick; the log
/// gains nothing but those three kinds of event, each naming a stored
/// session. When the call returns without an activation, the store held
/// no pending session and is unchanged.
#[verifier::rlimit(100)]
pub fn run(storage: &mut Storage, now: &str, now_secs: i64) -> (r: Result<TickOutcome, KenError>)
    ensures
        tick_frame(db_sessions(old(storage)), db_sessions(final(storage)), now@),
        tick_event_kinds(
            db_sessions(old(storage)),
            old(storage).events(),
            final(storage).events(),
        ),
        forall|id1: Seq<char>, id2: Seq<char>|
            newly_active(db_sessions(old(storage)), db_sessions(final(storage)), id1)
                && newly_active(db_sessions(old(storage)), db_sessions(final(storage)), id2)
                ==> id1 == id2,
        r matches Ok(out) ==> {
            &&& (out.activated matches Some(s) ==> {
                &&& newly_active(db_sessions(old(storage)), db_sessions(final(storage)), s@.id)
                &&& db_sessions(final(storage))[s@.id].status == SessionStatus::Active
                &&& db_sessions(final(storage))[s@.id].ken == s@.ken
                &&& db_sessions(final(storage))[s@.id].task == s@.task
                &&& db_sessions(final(storage))[s@.id].checkpoint == s@.checkpoint
                &&& forall|id: Seq<char>|
                    newly_active(db_sessions(old(storage)), db_sessions(final(storage)), id)
                        ==> id == s@.id
                &&& final(storage).events().len() > old(storage).events().len()
                &&& final(storage).events().last().event_type == "session_activated"@
                &&& final(storage).events().last().session_id == Some(s@.id)
                &&& final(storage).events().last().data is None
            })
            &&& (out.activated is None ==> {
                &&& db_sessions(final(storage)) == db_sessions(old(storage))
                &&& forall|id: Seq<char>|
                    db_sessions(old(storage)).contains_key(id) ==> (#[trigger] db_sessions(
                        old(storage),
                    )[id]).status != SessionStatus::Pending
            })
            &&& forall|id: Seq<char>|
                sleeper_due(db_sessions(old(storage)), id, now_secs as int) ==> names(
                    out.woken@,
                    id,
                )
            &&& forall|k: int|
                0 <= k < out.woken@.len() ==> sleeper_due(
                    db_sessions(old(storage)),
                    #[trigger] out.woken@[k]@,
                    now_secs as int,
                )
            &&& forall|k: int|
                0 <= k < out.woken@.len() ==> logged(
                    old(storage).events(),
                    final(storage).events(),
                    "trigger_satisfied"@,
                    #[trigger] out.woken@[k]@,
                    db_sessions(old(storage))[out.woken@[k]@].trigger,
                )
            &&& forall|id: Seq<char>|
                #![trigger db_sessions(old(storage))[id]]
                db_sessions(old(storage)).contains_key(id) && db_sessions(old(storage))[id].status
                    == SessionStatus::Sleeping && db_sessions(final(storage))[id] != db_sessions(
                    old(storage),
                )[id] ==> names(out.woken@, id)
            &&& forall|id: Seq<char>|
                #![trigger db_sessions(old(storage))[id]]
                db_sessions(old(storage)).contains_key(id) && db_sessions(old(storage))[id].status
                    == SessionStatus::Sleeping ==> (match db_sessions(old(storage))[id].trigger {
                    Some(tj) => trigger_of_json(tj) is None ==> logged(
                        old(storage).events(),
                        final(storage).events(),
                        "trigger_parse_error"@,
                        id,
                        Some(parse_error_msg(tj)),
                    ),
                    None => true,
                })
        },
{
    let ghost m0 = db_sessions(storage);
    let ghost e0 = storage.events();
    proof {
        crate::storage::lemma_events_extended_refl(e0);
    }
    let mut woken: Vec<String> = Vec::new();

    let sleeping = match storage.get_sessions_by_status(SessionStatus::Sleeping) {
        Ok(v) => v,
        Err(e) => {
            return Err(e);
        },
    };
    let ghost dv = sleeping.deep_view();
    let ns = sleeping.len();
    let mut i: usize = 0;
    while i < ns
        invariant
            m0 == db_sessions(old(storage)),
            e0 == old(storage).events(),
            ns == sleeping@.len(),
            dv == sleeping.deep_view(),
            i <= ns,
            lists_matching(m0, |s: SessionV| s.status == SessionStatus::Sleeping, dv),
            tick_frame(m0, db_sessions(storage), now@),
            forall|x: Seq<char>| !newly_active(m0, db_sessions(storage), x),
            tick_event_kinds(m0, e0, storage.events()),
            woken@.len() == 0 ==> db_sessions(storage) == m0,
            forall|k: int|
                0 <= k < woken@.len() ==> {
                    &&& sleeper_due(m0, #[trigger] woken@[k]@, now_secs as int)
                    &&& db_sessions(storage).contains_key(woken@[k]@)
                    &&& db_sessions(storage)[woken@[k]@].status == SessionStatus::Pending
                    &&& logged(
                        e0,
                        storage.events(),
                        "trigger_satisfied"@,
                        woken@[k]@,
                        m0[woken@[k]@].trigger,
                    )
                    &&& exists|j: int| 0 <= j < i && (#[trigger] dv[j]).id == woken@[k]@
                },
            forall|id: Seq<char>|
                #![trigger db_sessions(storage)[id]]
                m0.contains_key(id) && db_sessions(storage)[id] != m0[id] ==> names(woken@, id),
            forall|j: int|
                0 <= j < i && sleeper_due(m0, (#[trigger] dv[j]).id, now_secs as int) ==> names(
                    woken@,
                    dv[j].id,
                ),
            forall|j: int|
                0 <= j < i ==> (match (#[trigger] dv[j]).trigger {
                    Some(tj) => trigger_of_json(tj) is None ==> logged(
                        e0,
                        storage.events(),
                        "trigger_parse_error"@,
                        dv[j].id,
                        Some(parse_error_msg(tj)),
                    ),
                    None => true,
                }),
        decreases ns - i,
    {
        let ghost cur = db_sessions(storage);
        let ghost e_pre = storage.events();
        proof {
            assert(dv[i as int] == sleeping@[i as int]@);
            assert(m0.contains_key(dv[i as int].id) && m0[dv[i as int].id] == dv[i as int]);
            assert(cur[dv[i as int].id] == m0[dv[i as int].id]) by {
                if cur[dv[i as int].id] != m0[dv[i as int].id] {
                    assert(names(woken@, dv[i as int].id));
                    let k = choose|k: int|
                        0 <= k < woken@.len() && (#[trigger] woken@[k])@ == dv[i as int].id;
                    let j = choose|j: int| 0 <= j < i && (#[trigger] dv[j]).id == woken@[k]@;
                }
            }
        }
        match process_sleeper(storage, &sleeping[i], now, now_secs) {
            Err(e) => {
                proof {
                    if db_sessions(storage) != cur {
                        lemma_frame_wake(m0, cur, db_sessions(storage), dv[i as int].id, now@);
                    }
                    lemma_kinds_extend(m0, e0, e_pre, storage.events(), dv[i as int].id);
                }
                return Err(e);
            },
            Ok(None) => {
                proof {
                    lemma_due_agree(m0, cur, dv[i as int].id, now@, now_secs as int);
                    lemma_kinds_extend(m0, e0, e_pre, storage.events(), dv[i as int].id);
                    assert forall|k: int| 0 <= k < woken@.len() implies logged(
                        e0,
                        storage.events(),
                        "trigger_satisfied"@,
                        #[trigger] woken@[k]@,
                        m0[woken@[k]@].trigger,
                    ) by {
                        lemma_logged_extends(
                            e0,
                            e_pre,
                            storage.events(),
                            "trigger_satisfied"@,
                            woken@[k]@,
                            m0[woken@[k]@].trigger,
                        );
                    }
                    assert forall|j: int|
                        0 <= j < i + 1 implies (match (#[trigger] dv[j]).trigger {
                        Some(tj) => trigger_of_json(tj) is None ==> logged(
                            e0,
                            storage.events(),
                            "trigger_parse_error"@,
                            dv[j].id,
                            Some(parse_error_msg(tj)),
                        ),
                        None => true,
                    }) by {
                        match dv[j].trigger {
                            Some(tj) => {
                                if trigger_of_json(tj) is None {
                                    if j < i {
                                        lemma_logged_extends(
                                            e0,
                                            e_pre,
                                            storage.events(),
                                            "trigger_parse_error"@,
                                            dv[j].id,
                                            Some(parse_error_msg(tj)),
                                        );
                                    }
                                }
                            },
                            None => {},
                        }
                    }
                }
            },
            Ok(Some(wid)) => {
                let ghost w0 = woken@;
                woken.push(wid);
                proof {
                    lemma_due_agree(m0, cur, dv[i as int].id, now@, now_secs as int);
                    lemma_frame_wake(m0, cur, db_sessions(storage), dv[i as int].id, now@);
                    lemma_kinds_extend(m0, e0, e_pre, storage.events(), dv[i as int].id);
                    assert(woken@ == w0.push(wid));
                    assert(woken@[w0.len() as int]@ == dv[i as int].id);
                    assert(names(woken@, dv[i as int].id));
                    assert(logged(
                        e0,
                        storage.events(),
                        "trigger_satisfied"@,
                        dv[i as int].id,
                        m0[dv[i as int].id].trigger,
                    )) by {
                        let jw = choose|jw: int|
                            e_pre.len() <= jw < storage.events().len() && (
                            #[trigger] storage.events()[jw]).event_type == "trigger_satisfied"@
                                && storage.events()[jw].session_id == Some(dv[i as int].id)
                                && storage.events()[jw].data == dv[i as int].trigger;
                    }
                    assert forall|k: int| 0 <= k < woken@.len() implies {
                        &&& sleeper_due(m0, #[trigger] woken@[k]@, now_secs as int)
                        &&& db_sessions(storage).contains_key(woken@[k]@)
                        &&& db_sessions(storage)[woken@[k]@].status == SessionStatus::Pending
                        &&& logged(
                            e0,
                            storage.events(),
                            "trigger_satisfied"@,
                            woken@[k]@,
                            m0[woken@[k]@].trigger,
                        )
                        &&& exists|j2: int| 0 <= j2 < i + 1 && (#[trigger] dv[j2]).id == woken@[k]@
                    } by {
                        if k < w0.len() {
                            assert(woken@[k] == w0[k]);
                            let j2 = choose|j2: int|
                                0 <= j2 < i && (#[trigger] dv[j2]).id == w0[k]@;
                            assert(dv[j2].id != dv[i as int].id);
                            assert(db_sessions(storage)[w0[k]@] == cur[w0[k]@]);
                            lemma_logged_extends(
                                e0,
                                e_pre,
                                storage.events(),
                                "trigger_satisfied"@,
                                w0[k]@,
                                m0[w0[k]@].trigger,
                            );
                        }
                    }
                    assert forall|x: Seq<char>|
                        #![trigger db_sessions(storage)[x]]
                        m0.contains_key(x) && db_sessions(storage)[x] != m0[x] implies names(
                        woken@,
                        x,
                    ) by {
                        if x != dv[i as int].id {
                            assert(db_sessions(storage)[x] == cur[x]);
                            if cur[x] != m0[x] {
                                lemma_names_push(w0, wid, x);
                            }
                        }
                    }
                    assert forall|j2: int|
                        0 <= j2 < i + 1 && sleeper_due(m0, (#[trigger] dv[j2]).id, now_secs as int)
                        implies names(woken@, dv[j2].id) by {
                        if j2 < i {
                            lemma_names_push(w0, wid, dv[j2].id);
                        }
                    }
                    assert forall|j2: int|
                        0 <= j2 < i + 1 implies (match (#[trigger] dv[j2]).trigger {
                        Some(tj) => trigger_of_json(tj) is None ==> logged(
                            e0,
                            storage.events(),
                            "trigger_parse_error"@,
                            dv[j2].id,
                            Some(parse_error_msg(tj)),
                        ),
                        None => true,
                    }) by {
                        match dv[j2].trigger {
                            Some(tj) => {
                                if trigger_of_json(tj) is None {
                                    if j2 < i {
                                        lemma_logged_extends(
                                            e0,
                                            e_pre,
                                            storage.events(),
                                            "trigger_parse_error"@,
                                            dv[j2].id,
                                            Some(parse_error_msg(tj)),
                                        );
                                    } else {
                                        assert(sleeper_due(cur, dv[i as int].id, now_secs as int));
                                    }
                                }
                            },
                            None => {},
                        }
                    }
                }
            },
        }
        i += 1;
    }

    let ghost m_mid = db_sessions(storage);
    let ghost e_mid = storage.events();
    proof {
        assert forall|id: Seq<char>|
            sleeper_due(m0, id, now_secs as int) implies names(woken@, id) by {
            let j = choose|j: int| 0 <= j < dv.len() && (#[trigger] dv[j]).id == id;
        }
        assert forall|id: Seq<char>|
            #![trigger m0[id]]
            m0.contains_key(id) && m0[id].status == SessionStatus::Sleeping implies (
        match m0[id].trigger {
            Some(tj) => trigger_of_json(tj) is None ==> logged(
                e0,
                storage.events(),
                "trigger_parse_error"@,
                id,
                Some(parse_error_msg(tj)),
            ),
            None => true,
        }) by {
            let j = choose|j: int| 0 <= j < dv.len() && (#[trigger] dv[j]).id == id;
        }
    }
    let pending = match storage.get_sessions_by_status(SessionStatus::Pending) {
        Ok(v) => v,
        Err(e) => {
            return Err(e);
        },
    };
    let np = pending.len();
    let mut j: usize = 0;
    while j < np
        invariant
            m0 == db_sessions(old(storage)),
            e0 == old(storage).events(),
            np == pending@.len(),
            j == 0,
            m_mid == db_sessions(storage),
            e_mid == storage.events(),
            lists_matching(
                m_mid,
                |s: SessionV| s.status == SessionStatus::Pending,
                pending.deep_view(),
            ),
            tick_frame(m0, m_mid, now@),
            forall|x: Seq<char>| !newly_active(m0, m_mid, x),
            tick_event_kinds(m0, e0, e_mid),
            woken@.len() == 0 ==> m_mid == m0,
            forall|k: int|
                0 <= k < woken@.len() ==> {
                    &&& sleeper_due(m0, #[trigger] woken@[k]@, now_secs as int)
                    &&& m_mid.contains_key(woken@[k]@)
                    &&& m_mid[woken@[k]@].status == SessionStatus::Pending
                    &&& logged(e0, e_mid, "trigger_satisfied"@, woken@[k]@, m0[woken@[k]@].trigger)
                },
            forall|id: Seq<char>|
                #![trigger m_mid[id]]
                m0.contains_key(id) && m_mid[id] != m0[id] ==> names(woken@, id),
            forall|id: Seq<char>|
                sleeper_due(m0, id, now_secs as int) ==> names(woken@, id),
            forall|id: Seq<char>|
                #![trigger m0[id]]
                m0.contains_key(id) && m0[id].status == SessionStatus::Sleeping ==> (
                match m0[id].trigger {
                    Some(tj) => trigger_of_json(tj) is None ==> logged(
                        e0,
                        e_mid,
                        "trigger_parse_error"@,
                        id,
                        Some(parse_error_msg(tj)),
                    ),
                    None => true,
                }),
        decreases np - j,
    {
        proof {
            assert(pending.deep_view()[j as int] == pending@[j as int]@);
            assert(m_mid.contains_key(pending.deep_view()[j as int].id));
            assert(m_mid[pending.deep_view()[j as int].id].status == SessionStatus::Pending);
        }
        let woke = match storage.try_update_session_status(
            pending[j].id.as_str(),
            SessionStatus::Pending,
            SessionStatus::Active,
            now,
        ) {
            Ok(b) => b,
            Err(e) => {
                return Err(e);
            },
        };
        if woke {
            proof {
                lemma_frame_activate(
                    m0,
                    m_mid,
                    db_sessions(storage),
                    pending@[j as int]@.id,
                    now@,
                );
            }
            let ev = Event::new("session_activated", Some(pending[j].id.as_str()), None);
            let ghost epre = storage.events();
            match storage.insert_event(&ev) {
                Ok(()) => {
                    proof {
                        crate::storage::lemma_events_extended_push(e0, epre, ev@);
                        crate::storage::lemma_events_extended_refl(epre);
                        crate::storage::lemma_events_extended_push(epre, epre, ev@);
                        assert(storage.events().last() == ev@);
                        lemma_kinds_extend(
                            m0,
                            e0,
                            epre,
                            storage.events(),
                            pending.deep_view()[j as int].id,
                        );
                        assert forall|k: int| 0 <= k < woken@.len() implies logged(
                            e0,
                            storage.events(),
                            "trigger_satisfied"@,
                            #[trigger] woken@[k]@,
                            m0[woken@[k]@].trigger,
                        ) by {
                            lemma_logged_extends(
                                e0,
                                epre,
                                storage.events(),
                                "trigger_satisfied"@,
                                woken@[k]@,
                                m0[woken@[k]@].trigger,
                            );
                        }
                        assert forall|id: Seq<char>|
                            #![trigger m0[id]]
                            m0.contains_key(id) && m0[id].status == SessionStatus::Sleeping implies
                            (match m0[id].trigger {
                            Some(tj) => trigger_of_json(tj) is None ==> logged(
                                e0,
                                storage.events(),
                                "trigger_parse_error"@,
                                id,
                                Some(parse_error_msg(tj)),
                            ),
                            None => true,
                        }) by {
                            match m0[id].trigger {
                                Some(tj) => {
                                    if trigger_of_json(tj) is None {
                                        lemma_logged_extends(
                                            e0,
                                            epre,
                                            storage.events(),
                                            "trigger_parse_error"@,
                                            id,
                                            Some(parse_error_msg(tj)),
                                        );
                                    }
                                },
                                None => {},
                            }
                        }
                    }
                },
                Err(e) => {
                    return Err(e);
                },
            }
            let s = pending[j].dup();
            return Ok(TickOutcome { woken, activated: Some(s) });
        }
        proof {
            assert(false);
        }
        j += 1;
    }
    proof {
        assert(np == 0);
        assert forall|id: Seq<char>|
            m_mid.contains_key(id) implies (#[trigger] m_mid[id]).status
            != SessionStatus::Pending by {
            if m_mid[id].status == SessionStatus::Pending {
                let k = choose|k: int|
                    0 <= k < pending.deep_view().len() && (#[trigger] pending.deep_view()[k]).id
                        == id;
            }
        }
        assert(woken@.len() == 0) by {
            if woken@.len() > 0 {
                assert(m_mid[woken@[0]@].status == SessionStatus::Pending);
            }
        }
        assert(m_mid == m0);
        assert forall|id: Seq<char>|
            m0.contains_key(id) implies (#[trigger] m0[id]).status != SessionStatus::Pending by {}
    }
    Ok(TickOutcome { woken, activated: None })
}

/// When trigger evaluation was satisfied and the compare-and-swap
/// succeeded, the record is pending and carries the tick's timestamp; a
/// clock that has advanced past the record's previous `updated_at` makes
/// the new value strictly greater.
pub proof fn lemma_wake_advances(
    m0: Map<Seq<char>, SessionV>,
    m1: Map<Seq<char>, SessionV>,
    id: Seq<char>,
    now: Seq<char>,
)
    requires
        m0.contains_key(id),
        m1 == m0.insert(id, with_status(m0[id], SessionStatus::Pending, now)),
        lex_lt(m0[id].updated_at, now),
    ensures
        m1[id].status == SessionStatus::Pending,
        lex_lt(m0[id].updated_at, m1[id].updated_at),
{
}

/// Every status change a tick makes follows the state machine: directly
/// an edge, or — for a sleeper woken and activated in the same call — two
/// edges through pending.
pub proof fn lemma_tick_follows_machine(a: SessionStatus, b: SessionStatus)
    requires
        tick_step(a, b),
        a != b,
    ensures
        machine_edge(a, b) || (machine_edge(a, SessionStatus::Pending) && machine_edge(
            SessionStatus::Pending,
            b,
        )),
{
}

/// A tick preserves store well-formedness: it moves no session into a
/// terminal state and touches no field the invariants speak of.
pub proof fn lemma_tick_preserves_wf(
    m0: Map<Seq<char>, SessionV>,
    m1: Map<Seq<char>, SessionV>,
    now: Seq<char>,
)
    requires
        tick_frame(m0, m1, now),
        crate::storage::wf_store(m0),
    ensures
        crate::storage::wf_store(m1),
{
    assert forall|id: Seq<char>| m1.contains_key(id) implies {
        &&& (((#[trigger] m1[id]).status == SessionStatus::Complete || m1[id].status
            == SessionStatus::Failed) ==> m1[id].result is Some)
        &&& (m1[id].parent_id matches Some(p) ==> m1.contains_key(p) && crate::strutil::lex_le(
            m1[p].created_at,
            m1[id].created_at,
        ))
    } by {
        assert(m0.contains_key(id));
        assert(tick_step(m0[id].status, m1[id].status));
        if m1[id].status == SessionStatus::Complete || m1[id].status == SessionStatus::Failed {
            assert(m0[id].status == m1[id].status);
            assert(m1[id] == m0[id]);
        }
        match m0[id].parent_id {
            Some(p) => {
                assert(m0.contains_key(p));
                assert(m1[id].parent_id == m0[id].parent_id);
                assert(m1[id].created_at == m0[id].created_at);
                assert(m1[p].created_at == m0[p].created_at);
            },
            None => {
                assert(m1[id].parent_id == m0[id].parent_id);
            },
        }
    }
}

/// The spawn line the tick emits for an activated session.
pub open spec fn spawn_json(s: SessionV) -> Seq<char> {
    "{\"action\":\"spawn\",\"session\":{\"id\":"@ + crate::jsontext::str_lit(s.id) + ",\"ken\":"@
        + crate::jsontext::str_lit(s.ken) + ",\"task\":"@ + crate::jsontext::str_lit(s.task)
        + ",\"checkpoint\":"@ + opt_lit(s.checkpoint) + "}}"@
}

/// Renders the spawn line for an activated session.
pub fn render_spawn_json(s: &Session) -> (r: String)
    ensures
        r@ == spawn_json(s@),
{
    let mut out = chars_of("{\"action\":\"spawn\",\"session\":{\"id\":");
    push_json_string(&mut out, s.id.as_str());
    let mut lit = chars_of(",\"ken\":");
    out.append(&mut lit);
    push_json_string(&mut out, s.ken.as_str());
    let mut lit2 = chars_of(",\"task\":");
    out.append(&mut lit2);
    push_json_string(&mut out, s.task.as_str());
    let mut lit3 = chars_of(",\"checkpoint\":");
    out.append(&mut lit3);
    push_opt_string(&mut out, &s.checkpoint);
    let mut close = chars_of("}}");
    out.append(&mut close);
    proof {
        assert(out@ =~= spawn_json(s@));
    }
    string_from_chars(&out)
}

/// The line the tick emits when nothing could be activated.
pub fn render_none_json() -> (r: String)
    ensures
        r@ == "{\"action\":\"none\"}"@,
{
    <String as StringExecFns>::from_str("{\"action\":\"none\"}")
}

/// Whether any session is pending, active, or sleeping: whether the
/// workflow still has work in flight.
pub fn has_work_with_storage(storage: &Storage) -> (r: Result<bool, KenError>)
    ensures
        r matches Ok(b) ==> b == exists|id: Seq<char>|
            #![trigger db_sessions(storage)[id]]
            db_sessions(storage).contains_key(id) && (db_sessions(storage)[id].status
                == SessionStatus::Pending || db_sessions(storage)[id].status
                == SessionStatus::Active || db_sessions(storage)[id].status
                == SessionStatus::Sleeping),
{
    let pending = match storage.get_sessions_by_status(SessionStatus::Pending) {
        Ok(v) => v,
        Err(e) => {
            return Err(e);
        },
    };
    let active = match storage.get_sessions_by_status(SessionStatus::Active) {
        Ok(v) => v,
        Err(e) => {
            return Err(e);
        },
    };
    let sleeping = match storage.get_sessions_by_status(SessionStatus::Sleeping) {
        Ok(v) => v,
        Err(e) => {
            return Err(e);
        },
    };
    let b = pending.len() > 0 || active.len() > 0 || sleeping.len() > 0;
    proof {
        if b {
            if pending@.len() > 0 {
                assert(db_sessions(storage).contains_key(pending.deep_view()[0].id));
            } else if active@.len() > 0 {
                assert(db_sessions(storage).contains_key(active.deep_view()[0].id));
            } else {
                assert(db_sessions(storage).contains_key(sleeping.deep_view()[0].id));
            }
        } else {
            assert forall|id: Seq<char>|
                db_sessions(storage).contains_key(id) implies !((#[trigger] db_sessions(
                storage,
            )[id]).status == SessionStatus::Pending || db_sessions(storage)[id].status
                == SessionStatus::Active || db_sessions(storage)[id].status
                == SessionStatus::Sleeping) by {
                if db_sessions(storage)[id].status == SessionStatus::Pending {
                    let k = choose|k: int|
                        0 <= k < pending.deep_view().len() && (
                        #[trigger] pending.deep_view()[k]).id == id;
                } else if db_sessions(storage)[id].status == SessionStatus::Active {
                    let k = choose|k: int|
                        0 <= k < active.deep_view().len() && (#[trigger] active.deep_view()[k]).id
                            == id;
                } else if db_sessions(storage)[id].status == SessionStatus::Sleeping {
                    let k = choose|k: int|
                        0 <= k < sleeping.deep_view().len() && (
                        #[trigger] sleeping.deep_view()[k]).id == id;
                }
            }
        }
    }
    Ok(b)
}

} // verus!
