//! The status command: a read-only summary of every session.

use vstd::prelude::*;
use crate::error::KenError;
use crate::jsontext::{opt_lit, push_json_string, push_opt_string, str_lit};
use crate::session::{status_str, Session, SessionStatus, SessionV};
use crate::storage::{db_sessions, lists_matching, Storage};
use crate::strutil::{chars_of, string_from_chars};

verus! {

/// A read-only summary: every session (ordered by creation) and the count
/// per status.
pub struct StatusReport {
    pub sessions: Vec<Session>,
    pub pending: usize,
    pub active: usize,
    pub sleeping: usize,
    pub complete: usize,
    pub failed: usize,
}

/// How many records of `l` carry the status.
pub open spec fn count_status(l: Seq<SessionV>, st: SessionStatus) -> int
    decreases l.len(),
{
    if l.len() == 0 {
        0
    } else {
        count_status(l.drop_last(), st) + if l.last().status == st {
            1int
        } else {
            0int
        }
    }
}

/// Gathers every session and counts them by status.
pub fn run(storage: &Storage) -> (r: Result<StatusReport, KenError>)
    ensures
        r matches Ok(rep) ==> {
            &&& lists_matching(db_sessions(storage), |s: SessionV| true, rep.sessions.deep_view())
            &&& rep.pending == count_status(rep.sessions.deep_view(), SessionStatus::Pending)
            &&& rep.active == count_status(rep.sessions.deep_view(), SessionStatus::Active)
            &&& rep.sleeping == count_status(rep.sessions.deep_view(), SessionStatus::Sleeping)
            &&& rep.complete == count_status(rep.sessions.deep_view(), SessionStatus::Complete)
            &&& rep.failed == count_status(rep.sessions.deep_view(), SessionStatus::Failed)
        },
{
    let sessions = match storage.get_all_sessions() {
        Ok(v) => v,
        Err(e) => {
            return Err(e);
        },
    };
    let n = sessions.len();
    let mut pending: usize = 0;
    let mut active: usize = 0;
    let mut sleeping: usize = 0;
    let mut complete: usize = 0;
    let mut failed: usize = 0;
    let mut i: usize = 0;
    while i < n
        invariant
            n == sessions@.len(),
            i <= n,
            pending == count_status(sessions.deep_view().take(i as int), SessionStatus::Pending),
            active == count_status(sessions.deep_view().take(i as int), SessionStatus::Active),
            sleeping == count_status(sessions.deep_view().take(i as int), SessionStatus::Sleeping),
            complete == count_status(sessions.deep_view().take(i as int), SessionStatus::Complete),
            failed == count_status(sessions.deep_view().take(i as int), SessionStatus::Failed),
            pending <= i && active <= i && sleeping <= i && complete <= i && failed <= i,
        decreases n - i,
    {
        proof {
            let dv = sessions.deep_view();
            assert(dv.take(i + 1).drop_last() =~= dv.take(i as int));
            assert(dv.take(i + 1).last() == dv[i as int]);
            assert(dv[i as int] == sessions@[i as int]@);
            lemma_count_bound(dv.take(i as int), SessionStatus::Pending);
            lemma_count_bound(dv.take(i as int), SessionStatus::Active);
            lemma_count_bound(dv.take(i as int), SessionStatus::Sleeping);
            lemma_count_bound(dv.take(i as int), SessionStatus::Complete);
            lemma_count_bound(dv.take(i as int), SessionStatus::Failed);
        }
        match sessions[i].status {
            SessionStatus::Pending => {
                pending += 1;
            },
            SessionStatus::Active => {
                active += 1;
            },
            SessionStatus::Sleeping => {
                sleeping += 1;
            },
            SessionStatus::Complete => {
                complete += 1;
            },
            SessionStatus::Failed => {
                failed += 1;
            },
        }
        i += 1;
    }
    proof {
        assert(sessions.deep_view().take(n as int) =~= sessions.deep_view());
    }
    Ok(StatusReport { sessions, pending, active, sleeping, complete, failed })
}

proof fn lemma_count_bound(l: Seq<SessionV>, st: SessionStatus)
    ensures
        0 <= count_status(l, st) <= l.len(),
    decreases l.len(),
{
    if l.len() > 0 {
        lemma_count_bound(l.drop_last(), st);
    }
}

/// The JSON object for one session in the status dump.
pub open spec fn session_json(s: SessionV) -> Seq<char> {
    "{\"id\":"@ + str_lit(s.id) + ",\"ken\":"@ + str_lit(s.ken) + ",\"task\":"@ + str_lit(s.task)
        + ",\"status\":"@ + str_lit(status_str(s.status)) + ",\"parent_id\":"@ + opt_lit(
        s.parent_id,
    ) + ",\"checkpoint\":"@ + opt_lit(s.checkpoint) + ",\"result\":"@ + opt_lit(s.result) + "}"@
}

/// The items of the sessions array, comma separated.
pub open spec fn sessions_json_items(l: Seq<SessionV>) -> Seq<char>
    decreases l.len(),
{
    if l.len() == 0 {
        Seq::empty()
    } else if l.len() == 1 {
        session_json(l[0])
    } else {
        session_json(l[0]) + seq![','] + sessions_json_items(l.drop_first())
    }
}

/// The whole status dump.
pub open spec fn status_json(l: Seq<SessionV>) -> Seq<char> {
    "{\"sessions\":["@ + sessions_json_items(l) + "]}"@
}

proof fn lemma_sessions_json_snoc(l: Seq<SessionV>, s: SessionV)
    ensures
        l.len() == 0 ==> sessions_json_items(l.push(s)) == session_json(s),
        l.len() > 0 ==> sessions_json_items(l.push(s)) == sessions_json_items(l) + seq![',']
            + session_json(s),
    decreases l.len(),
{
    if l.len() == 0 {
        assert(l.push(s) =~= seq![s]);
    } else if l.len() == 1 {
        assert(l.push(s).drop_first() =~= seq![s]);
        assert(l.push(s)[0] == l[0]);
        assert(session_json(l[0]) + seq![','] + sessions_json_items(seq![s]) =~= sessions_json_items(
            l,
        ) + seq![','] + session_json(s));
    } else {
        assert(l.push(s).drop_first() =~= l.drop_first().push(s));
        lemma_sessions_json_snoc(l.drop_first(), s);
        assert(l.push(s)[0] == l[0]);
        assert(session_json(l[0]) + seq![','] + (sessions_json_items(l.drop_first()) + seq![',']
            + session_json(s)) =~= (session_json(l[0]) + seq![','] + sessions_json_items(
            l.drop_first(),
        )) + seq![','] + session_json(s));
    }
}

/// Appends the JSON object for one session.
fn push_session_json(out: &mut Vec<char>, s: &Session)
    ensures
        final(out)@ == old(out)@ + session_json(s@),
{
    let mut lit = chars_of("{\"id\":");
    out.append(&mut lit);
    push_json_string(out, s.id.as_str());
    let mut l2 = chars_of(",\"ken\":");
    out.append(&mut l2);
    push_json_string(out, s.ken.as_str());
    let mut l3 = chars_of(",\"task\":");
    out.append(&mut l3);
    push_json_string(out, s.task.as_str());
    let mut l4 = chars_of(",\"status\":");
    out.append(&mut l4);
    push_json_string(out, s.status.as_str());
    let mut l5 = chars_of(",\"parent_id\":");
    out.append(&mut l5);
    push_opt_string(out, &s.parent_id);
    let mut l6 = chars_of(",\"checkpoint\":");
    out.append(&mut l6);
    push_opt_string(out, &s.checkpoint);
    let mut l7 = chars_of(",\"result\":");
    out.append(&mut l7);
    push_opt_string(out, &s.result);
    let mut l8 = chars_of("}");
    out.append(&mut l8);
    proof {
        assert(out@ =~= old(out)@ + session_json(s@));
    }
}

/// Renders the status dump as one JSON object holding every session.
pub fn run_json_with_storage(storage: &Storage) -> (r: Result<String, KenError>)
    ensures
        r matches Ok(line) ==> exists|l: Seq<SessionV>|
            lists_matching(db_sessions(storage), |s: SessionV| true, l) && line@ == #[trigger]
            status_json(l),
{
    let sessions = match storage.get_all_sessions() {
        Ok(v) => v,
        Err(e) => {
            return Err(e);
        },
    };
    let mut out = chars_of("{\"sessions\":[");
    let ghost base = out@;
    let n = sessions.len();
    let mut i: usize = 0;
    while i < n
        invariant
            n == sessions@.len(),
            i <= n,
            out@ == base + sessions_json_items(sessions.deep_view().take(i as int)),
        decreases n - i,
    {
        if i > 0 {
            out.push(',');
        }
        push_session_json(&mut out, &sessions[i]);
        proof {
            let dv = sessions.deep_view();
            assert(dv.take(i + 1) =~= dv.take(i as int).push(dv[i as int]));
            assert(dv[i as int] == sessions@[i as int]@);
            lemma_sessions_json_snoc(dv.take(i as int), dv[i as int]);
            if i == 0 {
                assert((base + sessions_json_items(dv.take(0))) + session_json(dv[0]) =~= base
                    + sessions_json_items(dv.take(1)));
            } else {
                assert(((base + sessions_json_items(dv.take(i as int))) + seq![','])
                    + session_json(dv[i as int]) =~= base + sessions_json_items(dv.take(i + 1)));
            }
        }
        i += 1;
    }
    let mut close = chars_of("]}");
    out.append(&mut close);
    proof {
        assert(sessions.deep_view().take(n as int) =~= sessions.deep_view());
        assert(out@ =~= status_json(sessions.deep_view()));
    }
    Ok(string_from_chars(&out))
}

} // verus!
