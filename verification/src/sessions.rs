//! Workflow sessions: which are active, lookup by id, and rewriting a list of
//! sessions.
use crate::ids::{is_uuid_char, short_uuid, slug, slugify};
use crate::models::{
    ActivitySource, MutationActor, SessionContextInput, SessionModel, SessionStatus, SessionsFile,
    WorkflowSession, copy_opt, copy_strings, ostr,
};
use crate::text::{concat2, concat3, opt_view, trimmed_nonblank, trimmed_nonblank_of};
use vstd::prelude::*;

verus! {

/// Whether some session has the id `id`.
pub open spec fn has_session_id(ss: Seq<SessionModel>, id: Seq<char>) -> bool {
    exists|k: int| 0 <= k < ss.len() && (#[trigger] ss[k]).id == id
}

/// The predicate "the session is active".
pub open spec fn is_active_session() -> spec_fn(SessionModel) -> bool {
    |s: SessionModel| s.status == SessionStatus::Active
}

/// `active_session_ids`: the ids of the active sessions, in order.
pub open spec fn active_ids(ss: Seq<SessionModel>) -> Seq<Seq<char>> {
    ss.filter(is_active_session()).map_values(|s: SessionModel| s.id)
}

/// Whether a session with the id `id` is in the list.
pub fn contains_session_id(sessions: &Vec<WorkflowSession>, id: &String) -> (r: bool)
    ensures
        r == has_session_id(sessions.deep_view(), id@),
{
    let ghost ss = sessions.deep_view();
    let mut k: usize = 0;
    while k < sessions.len()
        invariant
            ss == sessions.deep_view(),
            k <= sessions@.len(),
            forall|m: int| 0 <= m < k ==> (#[trigger] ss[m]).id != id@,
        decreases sessions@.len() - k,
    {
        assert(ss[k as int] == sessions@[k as int]@);
        if sessions[k].id == *id {
            assert(ss[k as int].id == id@);
            return true;
        }
        k += 1;
    }
    false
}

/// `active_session_ids`: the ids of the active sessions, in order.
pub fn active_session_ids(sessions: &Vec<WorkflowSession>) -> (r: Vec<String>)
    ensures
        r.deep_view() == active_ids(sessions.deep_view()),
{
    let ghost ss = sessions.deep_view();
    let ghost pred = is_active_session();
    let mut r: Vec<String> = Vec::new();
    let mut k: usize = 0;
    while k < sessions.len()
        invariant
            ss == sessions.deep_view(),
            pred == is_active_session(),
            k <= sessions@.len(),
            r.deep_view() == ss.take(k as int).filter(pred).map_values(|s: SessionModel| s.id),
        decreases sessions@.len() - k,
    {
        proof {
            reveal_with_fuel(Seq::<_>::filter, 1);
            assert(ss.take(k + 1).drop_last() =~= ss.take(k as int));
            assert(ss[k as int] == sessions@[k as int]@);
        }
        let ghost before = r.deep_view();
        if sessions[k].status == SessionStatus::Active {
            r.push(sessions[k].id.clone());
            assert(r.deep_view() =~= before.push(ss[k as int].id));
            assert(ss.take(k + 1).filter(pred) == ss.take(k as int).filter(pred).push(ss[k as int]));
            assert(ss.take(k + 1).filter(pred).map_values(|s: SessionModel| s.id) =~= before.push(
                ss[k as int].id,
            ));
        } else {
            assert(ss.take(k + 1).filter(pred) == ss.take(k as int).filter(pred));
        }
        k += 1;
    }
    assert(ss.take(sessions@.len() as int) =~= ss);
    r
}

/// The session with empty fields: no id, title, actor or times, source
/// `System`, no branch, active, owning and having observed no step.
pub open spec fn blank_session_model() -> SessionModel {
    SessionModel {
        id: Seq::empty(),
        title: Seq::empty(),
        actor: Seq::empty(),
        source: ActivitySource::System,
        branch: None,
        status: SessionStatus::Active,
        owned_step_id: None,
        observed_step_ids: Seq::empty(),
        started_at: Seq::empty(),
        last_updated_at: Seq::empty(),
    }
}

/// A session with empty fields.
fn blank_session() -> (s: WorkflowSession)
    ensures
        s@ == blank_session_model(),
{
    let s = WorkflowSession {
        id: String::new(),
        title: String::new(),
        actor: String::new(),
        source: ActivitySource::System,
        branch: None,
        status: SessionStatus::Active,
        owned_step_id: None,
        observed_step_ids: Vec::new(),
        started_at: String::new(),
        last_updated_at: String::new(),
    };
    assert(s@ =~= blank_session_model());
    s
}

/// Rewrites every session of the list with `f`, whose effect on a session's
/// model is `g`.
pub(crate) fn map_sessions<F: Fn(WorkflowSession) -> WorkflowSession>(
    sessions: &mut Vec<WorkflowSession>,
    f: F,
    Ghost(g): Ghost<spec_fn(SessionModel) -> SessionModel>,
)
    requires
        forall|s: WorkflowSession| f.requires((s,)),
        forall|s: WorkflowSession, r: WorkflowSession| f.ensures((s,), r) ==> r@ == g(s@),
    ensures
        final(sessions).deep_view() == old(sessions).deep_view().map_values(g),
{
    let ghost s0 = sessions.deep_view();
    let mut src: Vec<WorkflowSession> = Vec::new();
    std::mem::swap(&mut src, sessions);
    let ghost orig = src@;
    let n = src.len();
    let mut out: Vec<WorkflowSession> = Vec::new();
    let mut i: usize = 0;
    while i < n
        invariant
            n == src@.len(),
            n == orig.len(),
            n == s0.len(),
            i <= n,
            forall|k: int| i <= k < n ==> #[trigger] src@[k] == orig[k],
            forall|k: int| 0 <= k < n ==> #[trigger] s0[k] == orig[k]@,
            out@.len() == i,
            forall|k: int| 0 <= k < i ==> #[trigger] out@[k]@ == g(s0[k]),
            forall|s: WorkflowSession| f.requires((s,)),
            forall|s: WorkflowSession, r: WorkflowSession| f.ensures((s,), r) ==> r@ == g(s@),
        decreases n - i,
    {
        let mut cur = blank_session();
        src.set_and_swap(i, &mut cur);
        let r = f(cur);
        out.push(r);
        i += 1;
    }
    *sessions = out;
    assert(sessions.deep_view() =~= s0.map_values(g));
}

// ---------------------------------------------------------------------------
// Creating and resuming sessions
// ---------------------------------------------------------------------------

impl Clone for WorkflowSession {
    fn clone(&self) -> (r: Self)
        ensures
            r@ == self@,
    {
        WorkflowSession {
            id: self.id.clone(),
            title: self.title.clone(),
            actor: self.actor.clone(),
            source: self.source,
            branch: copy_opt(&self.branch),
            status: self.status,
            owned_step_id: copy_opt(&self.owned_step_id),
            observed_step_ids: copy_strings(&self.observed_step_ids),
            started_at: self.started_at.clone(),
            last_updated_at: self.last_updated_at.clone(),
        }
    }
}

/// The title a new session gets: the trimmed given title when it is not
/// blank, otherwise "<actor> session".
pub open spec fn session_title_for(actor: Seq<char>, title: Option<Seq<char>>) -> Seq<char> {
    match trimmed_nonblank(title) {
        Some(t) => t,
        None => actor + " session"@,
    }
}

/// Whether `s` is a session as `create_session_record` makes it, apart from
/// its id.
pub open spec fn fresh_session_shape(
    s: SessionModel,
    actor: Seq<char>,
    source: ActivitySource,
    branch: Option<Seq<char>>,
    title: Option<Seq<char>>,
    now: Seq<char>,
) -> bool {
    &&& s.title == session_title_for(actor, title)
    &&& s.actor == actor
    &&& s.source == source
    &&& s.branch == branch
    &&& s.status == SessionStatus::Active
    &&& s.owned_step_id is None
    &&& s.observed_step_ids.len() == 0
    &&& s.started_at == now
    &&& s.last_updated_at == now
}

/// Whether `id` is a generated session id for `title`: the slug of the title,
/// a dash, and eight characters of a random UUID.
pub open spec fn generated_session_id(id: Seq<char>, title: Seq<char>) -> bool {
    let prefix = slug(title) + "-"@;
    &&& id.len() == prefix.len() + 8
    &&& id.subrange(0, prefix.len() as int) == prefix
    &&& forall|i: int| prefix.len() <= i < id.len() ==> is_uuid_char(#[trigger] id[i])
}

/// `create_session_record`: a new active session; its id is the preferred
/// one when given, otherwise generated from the title.
pub fn create_session_record(
    actor: &MutationActor,
    branch: Option<String>,
    title: Option<String>,
    now: &str,
    preferred_id: Option<String>,
) -> (r: WorkflowSession)
    ensures
        fresh_session_shape(r@, actor.actor@, actor.source, ostr(branch), ostr(title), now@),
        match preferred_id {
            Some(p) => r@.id == p@,
            None => generated_session_id(r@.id, r@.title),
        },
{
    let session_title = match trimmed_nonblank_of(&title) {
        Some(t) => t,
        None => concat2(actor.actor.as_str(), " session"),
    };
    assert(opt_view(title) == ostr(title));
    let id = match preferred_id {
        Some(p) => p,
        None => {
            let slug_text = slugify(session_title.as_str());
            let short = short_uuid();
            let id = concat3(slug_text.as_str(), "-", short.as_str());
            proof {
                reveal_strlit("-");
                let prefix = slug(session_title@) + "-"@;
                assert(id@.subrange(0, prefix.len() as int) =~= prefix);
                assert forall|i: int| prefix.len() <= i < id@.len() implies is_uuid_char(
                    #[trigger] id@[i],
                ) by {
                    assert(id@[i] == short@[i - prefix.len()]);
                }
            }
            id
        },
    };
    WorkflowSession {
        id,
        title: session_title,
        actor: actor.actor.clone(),
        source: actor.source,
        branch,
        status: SessionStatus::Active,
        owned_step_id: None,
        observed_step_ids: Vec::new(),
        started_at: String::from_str(now),
        last_updated_at: String::from_str(now),
    }
}

/// The position of the first session with the id `id`.
pub open spec fn first_session_from(ss: Seq<SessionModel>, id: Seq<char>, k: int) -> Option<int>
    decreases ss.len() - k,
{
    if k < 0 || k >= ss.len() {
        None
    } else if ss[k].id == id {
        Some(k)
    } else {
        first_session_from(ss, id, k + 1)
    }
}

pub open spec fn first_session(ss: Seq<SessionModel>, id: Seq<char>) -> Option<int> {
    first_session_from(ss, id, 0)
}

pub proof fn lemma_first_session(ss: Seq<SessionModel>, id: Seq<char>, k: int)
    requires
        0 <= k,
    ensures
        match first_session_from(ss, id, k) {
            Some(m) => k <= m < ss.len() && ss[m].id == id,
            None => forall|m: int| k <= m < ss.len() ==> (#[trigger] ss[m]).id != id,
        },
    decreases ss.len() - k,
{
    if k < ss.len() && ss[k].id != id {
        lemma_first_session(ss, id, k + 1);
    }
}

/// The position of the first session with the id `id`.
pub fn find_session(sessions: &Vec<WorkflowSession>, id: &String) -> (r: Option<usize>)
    ensures
        match r {
            Some(k) => first_session(sessions.deep_view(), id@) == Some(k as int),
            None => first_session(sessions.deep_view(), id@) is None,
        },
{
    let ghost ss = sessions.deep_view();
    let mut k: usize = 0;
    while k < sessions.len()
        invariant
            ss == sessions.deep_view(),
            k <= sessions@.len(),
            first_session(ss, id@) == first_session_from(ss, id@, k as int),
        decreases sessions@.len() - k,
    {
        assert(ss[k as int] == sessions@[k as int]@);
        if sessions[k].id == *id {
            return Some(k);
        }
        k += 1;
    }
    None
}

/// Whether a session matches an actor, source and branch as
/// `matching_active_sessions` tests it.
pub open spec fn session_matches(
    s: SessionModel,
    actor: Seq<char>,
    source: ActivitySource,
    branch: Option<Seq<char>>,
) -> bool {
    s.status == SessionStatus::Active && s.actor == actor && s.source == source && s.branch == branch
}

pub open spec fn matcher(actor: Seq<char>, source: ActivitySource, branch: Option<Seq<char>>) -> spec_fn(
    SessionModel,
) -> bool {
    |s: SessionModel| session_matches(s, actor, source, branch)
}

/// `matching_active_sessions`: the active sessions of the actor and source on
/// the branch, in order.
pub open spec fn matching(
    ss: Seq<SessionModel>,
    actor: Seq<char>,
    source: ActivitySource,
    branch: Option<Seq<char>>,
) -> Seq<SessionModel> {
    ss.filter(matcher(actor, source, branch))
}

/// `matching_active_sessions`: the positions of the matching sessions, in
/// order.
pub fn matching_active_sessions(
    sessions: &Vec<WorkflowSession>,
    actor: &String,
    source: ActivitySource,
    branch: &Option<String>,
) -> (r: Vec<usize>)
    ensures
        r@.len() == matching(sessions.deep_view(), actor@, source, ostr(*branch)).len(),
        forall|k: int|
            0 <= k < r@.len() ==> (#[trigger] r@[k]) < sessions@.len() && sessions.deep_view()[r@[k] as int]
                == matching(sessions.deep_view(), actor@, source, ostr(*branch))[k],
{
    let ghost ss = sessions.deep_view();
    let ghost pred = matcher(actor@, source, ostr(*branch));
    let mut r: Vec<usize> = Vec::new();
    let mut k: usize = 0;
    while k < sessions.len()
        invariant
            ss == sessions.deep_view(),
            pred == matcher(actor@, source, ostr(*branch)),
            k <= sessions@.len(),
            r@.len() == ss.take(k as int).filter(pred).len(),
            forall|m: int|
                0 <= m < r@.len() ==> (#[trigger] r@[m]) < k && ss[r@[m] as int] == ss.take(
                    k as int,
                ).filter(pred)[m],
        decreases sessions@.len() - k,
    {
        proof {
            reveal_with_fuel(Seq::<_>::filter, 1);
            assert(ss.take(k + 1).drop_last() =~= ss.take(k as int));
            assert(ss[k as int] == sessions@[k as int]@);
        }
        let s = &sessions[k];
        let same_branch = match (&s.branch, branch) {
            (Some(a), Some(b)) => *a == *b,
            (None, None) => true,
            _ => false,
        };
        if s.status == SessionStatus::Active && s.actor == *actor && s.source == source && same_branch {
            assert(pred(ss[k as int]));
            r.push(k);
        } else {
            assert(!pred(ss[k as int]));
        }
        k += 1;
    }
    assert(ss.take(sessions@.len() as int) =~= ss);
    r
}

/// A resumed session: the trimmed title when one is given and not blank.
pub open spec fn retitled(s: SessionModel, title: Option<Seq<char>>) -> SessionModel {
    match trimmed_nonblank(title) {
        Some(t) => SessionModel { title: t, ..s },
        None => s,
    }
}

/// `ensure_session_record`: resumes the session the context names, or the one
/// active session of the same actor, source and branch, or creates one.
pub open spec fn ensure_session_spec(
    old_ss: Seq<SessionModel>,
    new_ss: Seq<SessionModel>,
    r: SessionModel,
    actor: Seq<char>,
    source: ActivitySource,
    branch: Option<Seq<char>>,
    ctx_id: Option<Seq<char>>,
    ctx_title: Option<Seq<char>>,
    now: Seq<char>,
) -> bool {
    match ctx_id {
        Some(sid) => match first_session(old_ss, sid) {
            Some(k) => {
                &&& new_ss == old_ss.update(
                    k,
                    SessionModel {
                        branch: branch,
                        status: SessionStatus::Active,
                        last_updated_at: now,
                        ..retitled(old_ss[k], ctx_title)
                    },
                )
                &&& r == new_ss[k]
            },
            None => {
                &&& new_ss == old_ss.push(r)
                &&& r.id == sid
                &&& fresh_session_shape(r, actor, source, branch, ctx_title, now)
            },
        },
        None => {
            let m = matching(old_ss, actor, source, branch);
            if m.len() == 1 && first_session(old_ss, m[0].id) is Some {
                let k = first_session(old_ss, m[0].id)->0;
                &&& new_ss == old_ss.update(
                    k,
                    SessionModel { last_updated_at: now, ..retitled(old_ss[k], ctx_title) },
                )
                &&& r == new_ss[k]
            } else {
                &&& new_ss == old_ss.push(r)
                &&& generated_session_id(r.id, r.title)
                &&& fresh_session_shape(r, actor, source, branch, ctx_title, now)
            }
        },
    }
}

/// Replaces the session at position `k` by `f` applied to it, in place.
pub(crate) fn take_session(sessions: &mut Vec<WorkflowSession>, k: usize) -> (r: WorkflowSession)
    requires
        k < old(sessions)@.len(),
    ensures
        r == old(sessions)@[k as int],
        final(sessions)@ == old(sessions)@.update(k as int, final(sessions)@[k as int]),
        final(sessions)@.len() == old(sessions)@.len(),
{
    let mut cur = blank_session();
    sessions.set_and_swap(k, &mut cur);
    cur
}

/// The session a mutation runs in: the one the context names (resumed and
/// retitled), else the one active session of the same actor, source and
/// branch, else a new one; the session list is updated to match.
pub fn ensure_session_record(
    sessions: &mut SessionsFile,
    actor: &MutationActor,
    branch: Option<String>,
    context: &SessionContextInput,
    now: &str,
) -> (r: WorkflowSession)
    ensures
        final(sessions).version == old(sessions).version,
        ensure_session_spec(
            old(sessions).sessions.deep_view(),
            final(sessions).sessions.deep_view(),
            r@,
            actor.actor@,
            actor.source,
            ostr(branch),
            ostr(context.session_id),
            ostr(context.session_title),
            now@,
        ),
{
    let ghost old_ss = sessions.sessions.deep_view();
    let new_title = trimmed_nonblank_of(&context.session_title);
    assert(opt_view(context.session_title) == ostr(context.session_title));
    match &context.session_id {
        Some(sid) => {
            match find_session(&sessions.sessions, sid) {
                Some(k) => {
                    proof {
                        lemma_first_session(old_ss, sid@, 0);
                    }
                    let mut s = take_session(&mut sessions.sessions, k);
                    assert(s@ == old_ss[k as int]);
                    match new_title {
                        Some(t) => {
                            s.title = t;
                        },
                        None => {},
                    }
                    s.branch = branch;
                    s.status = SessionStatus::Active;
                    s.last_updated_at = String::from_str(now);
                    let out = s.clone();
                    sessions.sessions.set(k, s);
                    assert(sessions.sessions.deep_view() =~= old_ss.update(k as int, out@));
                    out
                },
                None => {
                    let created = create_session_record(
                        actor,
                        branch,
                        copy_opt(&context.session_title),
                        now,
                        Some(sid.clone()),
                    );
                    let out = created.clone();
                    sessions.sessions.push(created);
                    assert(sessions.sessions.deep_view() =~= old_ss.push(out@));
                    out
                },
            }
        },
        None => {
            let matches = matching_active_sessions(&sessions.sessions, &actor.actor, actor.source, &branch);
            if matches.len() == 1 {
                let existing_id = sessions.sessions[matches[0]].id.clone();
                match find_session(&sessions.sessions, &existing_id) {
                    Some(k) => {
                        proof {
                            lemma_first_session(old_ss, existing_id@, 0);
                        }
                        let mut s = take_session(&mut sessions.sessions, k);
                        match new_title {
                            Some(t) => {
                                s.title = t;
                            },
                            None => {},
                        }
                        s.last_updated_at = String::from_str(now);
                        let out = s.clone();
                        sessions.sessions.set(k, s);
                        assert(sessions.sessions.deep_view() =~= old_ss.update(k as int, out@));
                        return out;
                    },
                    None => {},
                }
            }
            let created = create_session_record(
                actor,
                branch,
                copy_opt(&context.session_title),
                now,
                None,
            );
            let out = created.clone();
            sessions.sessions.push(created);
            assert(sessions.sessions.deep_view() =~= old_ss.push(out@));
            out
        },
    }
}

/// `ensure_observed_step`: the session records the step as observed unless it
/// owns it or already observes it.
pub open spec fn observe_step(s: SessionModel, step_id: Option<Seq<char>>) -> SessionModel {
    match step_id {
        Some(id) => if s.owned_step_id == Some(id) || s.observed_step_ids.contains(id) {
            s
        } else {
            SessionModel { observed_step_ids: s.observed_step_ids.push(id), ..s }
        },
        None => s,
    }
}

/// Adds the step to the steps the session has observed, unless the session
/// owns it, has observed it already, or no step is given.
pub fn ensure_observed_step(session: &mut WorkflowSession, step_id: Option<&str>)
    ensures
        final(session)@ == observe_step(
            old(session)@,
            match step_id {
                Some(s) => Some(s@),
                None => None,
            },
        ),
{
    let id = match step_id {
        Some(s) => String::from_str(s),
        None => {
            return;
        },
    };
    let owned = match &session.owned_step_id {
        Some(o) => *o == id,
        None => false,
    };
    if owned || crate::ids::used_has(&session.observed_step_ids, &id) {
        return;
    }
    let ghost before = session.observed_step_ids.deep_view();
    session.observed_step_ids.push(id);
    assert(session.observed_step_ids.deep_view() =~= before.push(id@));
}

} // verus!
