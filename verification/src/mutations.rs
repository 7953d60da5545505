//! The state transitions of a project: starting and completing steps,
//! blockers, sessions, notes, activity and decision proposals. Each takes the
//! project state read from disk and returns what is to be written back and
//! the activity event that records the change.
use crate::models::{
    AcceptedDecisionModel, ActivitySource, DecisionProposalsFile, JsonValue, MutationActor, Plan, PlanModel, RuntimeModel,
    RuntimeState, SessionContextInput, SessionModel, SessionsFile, StepModel, StepStatus,
    copy_opt, copy_strings, ostr};
use crate::plan::{lemma_locate_some_iff, locate, locate_step, map_steps, normalize_plan_in_progress_states,
    normalizer, put_step, release_ownership, releaser, set_step, step_of, take_step, valid_pos};
use crate::runtime::{
    dep_done, dependency_done, refresh_runtime_state, refreshed, session_reconciler, step_reconciler};
use crate::sessions::{active_ids, active_session_ids, ensure_session_record, ensure_session_spec, find_session, first_session,
    lemma_first_session};
use crate::text::{concat3, owned};
use vstd::prelude::*;

verus! {

/// The project state that a mutation reads.
pub struct ProjectState {
    pub plan: Plan,
    pub runtime: RuntimeState,
    pub sessions: SessionsFile,
    pub proposals: DecisionProposalsFile,
}

/// What the activity event of a mutation refers to.
pub struct EventContext {
    pub session_id: Option<String>,
    pub step_id: Option<String>,
    pub subtask_id: Option<String>,
}

/// The result of a mutation: the event to append and the files to write.
pub struct MutationOutcome {
    pub summary: String,
    pub event_type: String,
    pub payload: JsonValue,
    pub write_plan: Option<Plan>,
    pub write_runtime: Option<RuntimeState>,
    pub write_sessions: Option<SessionsFile>,
    pub write_proposals: Option<DecisionProposalsFile>,
    pub event_context: EventContext,
}

/// Why a mutation was refused.
#[derive(Debug)]
pub enum WorkflowError {
    /// No step has the id.
    UnknownStep(String),
    /// The step (first) depends on the step (second), which is not done.
    DependencyNotDone(String, String),
    /// The step with this title is owned by another session.
    OwnedByAnotherSession(String),
    /// No pending proposal has the id.
    UnknownProposal(String),
}

/// The message of a refused mutation.
pub open spec fn workflow_error_message(e: WorkflowError) -> Seq<char> {
    match e {
        WorkflowError::UnknownStep(id) => "Unknown step \""@ + id@ + "\""@,
        WorkflowError::DependencyNotDone(id, dep) => "Cannot start \""@ + id@ + "\" until \""@ + dep@ + "\" is done"@,
        WorkflowError::OwnedByAnotherSession(title) => "Step \""@ + title@ + "\" is owned by another session"@,
        WorkflowError::UnknownProposal(id) => "Unknown decision proposal \""@ + id@ + "\""@,
    }
}

impl WorkflowError {
    /// The error's message, as the command line and the bridge report it.
    pub fn message(&self) -> (r: String)
        ensures
            r@ == workflow_error_message(*self),
    {
        match self {
            WorkflowError::UnknownStep(id) => concat3("Unknown step \"", id.as_str(), "\""),
            WorkflowError::DependencyNotDone(id, dep) => {
                let a = concat3("Cannot start \"", id.as_str(), "\" until \"");
                concat3(a.as_str(), dep.as_str(), "\" is done")
            },
            WorkflowError::OwnedByAnotherSession(title) => concat3(
                "Step \"",
                title.as_str(),
                "\" is owned by another session",
            ),
            WorkflowError::UnknownProposal(id) => concat3(
                "Unknown decision proposal \"",
                id.as_str(),
                "\"",
            ),
        }
    }
}

/// Whether `v` is a JSON object whose members are the given keys with string
/// values, in order.
pub open spec fn string_object(v: JsonValue, entries: Seq<(Seq<char>, Seq<char>)>) -> bool {
    match v {
        JsonValue::Object(fields) => {
            &&& fields@.len() == entries.len()
            &&& forall|i: int|
                0 <= i < entries.len() ==> (#[trigger] fields@[i]).0@ == entries[i].0 && (
                match fields@[i].1 {
                    JsonValue::Str(s) => s@ == entries[i].1,
                    _ => false,
                })
        },
        _ => false,
    }
}

/// A JSON object with one string member.
pub fn object1(k: &str, v: &str) -> (r: JsonValue)
    ensures
        string_object(r, seq![(k@, v@)]),
{
    let mut fields: Vec<(String, JsonValue)> = Vec::new();
    fields.push((owned(k), JsonValue::Str(owned(v))));
    JsonValue::Object(fields)
}

/// A JSON object with two string members.
pub fn object2(k1: &str, v1: &str, k2: &str, v2: &str) -> (r: JsonValue)
    ensures
        string_object(r, seq![(k1@, v1@), (k2@, v2@)]),
{
    let mut fields: Vec<(String, JsonValue)> = Vec::new();
    fields.push((owned(k1), JsonValue::Str(owned(v1))));
    fields.push((owned(k2), JsonValue::Str(owned(v2))));
    JsonValue::Object(fields)
}

/// A copy of a runtime state.
pub fn copy_runtime(r: &RuntimeState) -> (c: RuntimeState)
    ensures
        c@ == r@,
{
    RuntimeState {
        version: r.version,
        current_phase_id: copy_opt(&r.current_phase_id),
        current_step_id: copy_opt(&r.current_step_id),
        focus_session_id: copy_opt(&r.focus_session_id),
        next_action: r.next_action.clone(),
        status: r.status,
        blockers: copy_strings(&r.blockers),
        last_updated_at: r.last_updated_at.clone(),
        active_branch: copy_opt(&r.active_branch),
        active_session_ids: copy_strings(&r.active_session_ids),
    }
}

// ---------------------------------------------------------------------------
// Starting a step
// ---------------------------------------------------------------------------

/// The first dependency, from position `k` on, that is not met.
pub open spec fn first_unmet_from(p: PlanModel, deps: Seq<Seq<char>>, k: int) -> Option<Seq<char>>
    decreases deps.len() - k,
{
    if k < 0 || k >= deps.len() {
        None
    } else if !dep_done(p, deps[k]) {
        Some(deps[k])
    } else {
        first_unmet_from(p, deps, k + 1)
    }
}

/// The first dependency of the list that is not met.
pub open spec fn first_unmet(p: PlanModel, deps: Seq<Seq<char>>) -> Option<Seq<char>> {
    first_unmet_from(p, deps, 0)
}

/// The step once a session has started it.
pub open spec fn started_step(s: StepModel, session_id: Seq<char>, blocked: bool) -> StepModel {
    StepModel {
        owner_session_id: Some(session_id),
        status: if blocked {
            StepStatus::Blocked
        } else {
            StepStatus::InProgress
        },
        completed_at: None,
        completed_by: None,
        ..s
    }
}

/// Whether the step is held by a session of `keep` other than `session_id`.
pub open spec fn held_by_other(s: StepModel, session_id: Seq<char>, keep: Seq<Seq<char>>) -> bool {
    s.owner_session_id matches Some(o) && o != session_id && keep.contains(o)
}

/// The plan once the session starts the step at `pos`: the session releases
/// what it owned, the other steps are normalised except those held by a
/// session in `keep` (the active sessions), and the step is started.
pub open spec fn start_plan(
    p: PlanModel,
    pos: (int, int),
    step_id: Seq<char>,
    session_id: Seq<char>,
    blocked: bool,
    keep: Seq<Seq<char>>,
) -> PlanModel {
    let p1 = map_steps(map_steps(p, releaser(session_id)), normalizer(Some(step_id), keep));
    set_step(p1, pos.0, pos.1, started_step(step_of(p1, pos), session_id, blocked))
}

/// The sessions once the session with id `session_id` owns the step.
pub open spec fn sessions_owning(
    ss: Seq<SessionModel>,
    session_id: Seq<char>,
    step_id: Option<Seq<char>>,
    now: Seq<char>,
) -> Seq<SessionModel> {
    match first_session(ss, session_id) {
        Some(k) => ss.update(k, SessionModel { owned_step_id: step_id, last_updated_at: now, ..ss[k] }),
        None => ss,
    }
}

/// Whether the written plan, sessions and runtime are those that refreshing
/// the runtime state computes from the plan `p1`, the sessions `ss2` and the
/// runtime `rt`.
pub open spec fn writes_refreshed(
    out: MutationOutcome,
    p1: PlanModel,
    ss2: Seq<SessionModel>,
    version: u32,
    rt: RuntimeModel,
    branch: Option<Seq<char>>,
    now: Seq<char>,
) -> bool {
    let fp = map_steps(p1, step_reconciler(ss2));
    let fs = ss2.map_values(session_reconciler(p1));
    &&& out.write_plan matches Some(wp) && wp@ == fp
    &&& out.write_sessions matches Some(ws) && ws.sessions.deep_view() == fs && ws.version == version
    &&& out.write_runtime matches Some(wr) && wr@ == refreshed(fp, rt, fs, branch, now)
}

/// What `start_step` produces when it succeeds with the resumed or created
/// session `sess`.
pub open spec fn start_written(
    out: MutationOutcome,
    st: (PlanModel, RuntimeModel, Seq<SessionModel>, u32),
    pos: (int, int),
    step_id: Seq<char>,
    sess: SessionModel,
    ss1: Seq<SessionModel>,
    branch: Option<Seq<char>>,
    now: Seq<char>,
) -> bool {
    let (p0, rt, _ss0, version) = st;
    let blocked = rt.blockers.len() > 0;
    let p1 = start_plan(p0, pos, step_id, sess.id, blocked, active_ids(ss1));
    let ss2 = sessions_owning(ss1, sess.id, Some(step_id), now);
    let rt1 = RuntimeModel {
        current_phase_id: Some(p0.phases[pos.0].id),
        current_step_id: Some(step_id),
        focus_session_id: Some(sess.id),
        status: if blocked {
            StepStatus::Blocked
        } else {
            StepStatus::InProgress
        },
        last_updated_at: now,
        ..rt
    };
    &&& writes_refreshed(out, p1, ss2, version, rt1, branch, now)
    &&& forall|q: (int, int)|
        #![trigger step_of(p0, q)]
        valid_pos(p0, q) && step_of(p0, q).id != step_id && held_by_other(step_of(p0, q), sess.id, active_ids(ss1))
            ==> (out.write_plan matches Some(wp) && valid_pos(wp@, q) && step_of(wp@, q) == step_of(p0, q))
    &&& out.write_proposals is None
    &&& out.summary@ == "Started step \""@ + step_of(p0, pos).title + "\""@
    &&& out.event_type@ == "step.started"@
    &&& string_object(out.payload, seq![("stepId"@, step_id), ("sessionId"@, sess.id)])
    &&& ostr(out.event_context.session_id) == Some(sess.id)
    &&& ostr(out.event_context.step_id) == Some(step_id)
    &&& out.event_context.subtask_id is None
}

/// A step held by another active session comes out of `start_step`'s plan,
/// reconciled against the sessions it writes, as it was.
proof fn lemma_start_keeps_held(
    p0: PlanModel,
    pos: (int, int),
    step_id: Seq<char>,
    sess_id: Seq<char>,
    blocked: bool,
    ss1: Seq<SessionModel>,
    now: Seq<char>,
    q: (int, int),
)
    requires
        valid_pos(p0, pos),
        valid_pos(p0, q),
        step_of(p0, pos).id == step_id,
        step_of(p0, q).id != step_id,
        held_by_other(step_of(p0, q), sess_id, active_ids(ss1)),
    ensures
        ({
            let fp = map_steps(
                start_plan(p0, pos, step_id, sess_id, blocked, active_ids(ss1)),
                step_reconciler(sessions_owning(ss1, sess_id, Some(step_id), now)),
            );
            valid_pos(fp, q) && step_of(fp, q) == step_of(p0, q)
        }),
{
    let keep = active_ids(ss1);
    crate::laws::law_start_keeps_other_sessions_steps(p0, pos, sess_id, blocked, keep, q);
    let started = start_plan(p0, pos, step_id, sess_id, blocked, keep);
    let ss2 = sessions_owning(ss1, sess_id, Some(step_id), now);
    let o = step_of(p0, q).owner_session_id->0;
    let act = ss1.filter(crate::sessions::is_active_session());
    let j = choose|j: int| 0 <= j < keep.len() && keep[j] == o;
    assert(keep[j] == act[j].id);
    assert(act.contains(act[j]));
    ss1.lemma_filter_contains_rev(crate::sessions::is_active_session(), act[j]);
    let k = choose|k: int| 0 <= k < ss1.len() && ss1[k] == act[j];
    lemma_first_session(ss1, sess_id, 0);
    assert(ss2[k].id == o);
    assert(crate::sessions::has_session_id(ss2, o));
    assert(valid_pos(started, q));
}

/// `start_step`: the session named by the context (or resumed or created for
/// the actor) claims the step and starts it, once its dependencies are done
/// and no other session owns it.
#[verifier::loop_isolation(false)]
pub fn start_step(
    state: ProjectState,
    step_id: &str,
    actor: &MutationActor,
    context: &SessionContextInput,
    branch: Option<String>,
    now: &str,
) -> (r: Result<MutationOutcome, WorkflowError>)
    ensures
        ({
            let p0 = state.plan@;
            let ss0 = state.sessions.sessions.deep_view();
            match r {
                Err(WorkflowError::UnknownStep(id)) => id@ == step_id@ && locate(p0, step_id@) is None,
                Err(WorkflowError::DependencyNotDone(id, dep)) => {
                    &&& id@ == step_id@
                    &&& locate(p0, step_id@) matches Some(pos)
                    &&& first_unmet(p0, step_of(p0, pos).depends_on) == Some(dep@)
                },
                Err(WorkflowError::OwnedByAnotherSession(title)) => {
                    &&& locate(p0, step_id@) matches Some(pos)
                    &&& first_unmet(p0, step_of(p0, pos).depends_on) is None
                    &&& title@ == step_of(p0, pos).title
                    &&& exists|ss1: Seq<SessionModel>, sess: SessionModel|
                        #[trigger] ensure_session_spec(ss0, ss1, sess, actor.actor@, actor.source, ostr(branch),
                            ostr(context.session_id), ostr(context.session_title), now@)
                        && (step_of(p0, pos).owner_session_id matches Some(o) && o != sess.id)
                },
                Err(WorkflowError::UnknownProposal(_)) => false,
                Ok(out) => {
                    &&& locate(p0, step_id@) matches Some(pos)
                    &&& first_unmet(p0, step_of(p0, pos).depends_on) is None
                    &&& exists|ss1: Seq<SessionModel>, sess: SessionModel|
                        #[trigger] ensure_session_spec(ss0, ss1, sess, actor.actor@, actor.source, ostr(branch),
                            ostr(context.session_id), ostr(context.session_title), now@)
                        && !(step_of(p0, pos).owner_session_id matches Some(o) && o != sess.id)
                        && start_written(out, (p0, state.runtime@, ss0, state.sessions.version), pos,
                            step_id@, sess, ss1, ostr(branch), now@)
                },
            }
        }),
{
    let ghost p0 = state.plan@;
    let ghost ss0 = state.sessions.sessions.deep_view();
    let ProjectState { plan, runtime, sessions, proposals: _ } = state;
    let mut plan = plan;
    let mut sessions = sessions;
    let (pi, si) = match locate_step(&plan, step_id) {
        Some(x) => x,
        None => {
            return Err(WorkflowError::UnknownStep(owned(step_id)));
        },
    };
    let ghost pos = (pi as int, si as int);
    proof {
        lemma_locate_some_iff(p0, step_id@);
    }
    assert(step_of(p0, pos) == plan.phases@[pi as int].steps@[si as int]@);
    let mut k: usize = 0;
    while k < plan.phases[pi].steps[si].depends_on.len()
        invariant
            plan@ == p0,
            locate(p0, step_id@) == Some(pos),
            valid_pos(p0, pos),
            pos == (pi as int, si as int),
            step_of(p0, pos) == plan.phases@[pi as int].steps@[si as int]@,
            k <= step_of(p0, pos).depends_on.len(),
            first_unmet(p0, step_of(p0, pos).depends_on) == first_unmet_from(
                p0,
                step_of(p0, pos).depends_on,
                k as int,
            ),
        decreases step_of(p0, pos).depends_on.len() - k,
    {
        let dep = &plan.phases[pi].steps[si].depends_on[k];
        assert(step_of(p0, pos).depends_on[k as int] == dep@);
        if !dependency_done(&plan, dep.as_str()) {
            assert(first_unmet_from(p0, step_of(p0, pos).depends_on, k as int) == Some(dep@));
            return Err(WorkflowError::DependencyNotDone(owned(step_id), dep.clone()));
        }
        k += 1;
    }
    let session = ensure_session_record(&mut sessions, actor, copy_opt(&branch), context, now);
    let ghost ss1 = sessions.sessions.deep_view();
    let conflict = match &plan.phases[pi].steps[si].owner_session_id {
        Some(o) => *o != session.id,
        None => false,
    };
    if conflict {
        return Err(WorkflowError::OwnedByAnotherSession(plan.phases[pi].steps[si].title.clone()));
    }
    let keep = active_session_ids(&sessions.sessions);
    release_ownership(&mut plan, session.id.as_str());
    normalize_plan_in_progress_states(&mut plan, Some(step_id), &keep);
    let ghost p1 = plan@;
    assert(p1 == map_steps(map_steps(p0, releaser(session@.id)), normalizer(Some(step_id@), active_ids(ss1))));
    let blocked = runtime.blockers.len() > 0;
    let mut st = take_step(&mut plan, pi, si);
    let ghost st0 = st@;
    assert(st0 == step_of(p1, pos));
    st.owner_session_id = Some(session.id.clone());
    st.status = if blocked {
        StepStatus::Blocked
    } else {
        StepStatus::InProgress
    };
    st.completed_at = None;
    st.completed_by = None;
    assert(st@.id == st0.id);
    assert(st@.owner_session_id == Some(session@.id));
    assert(st@.depends_on == st0.depends_on);
    assert(st@.status == started_step(st0, session@.id, blocked).status);
    assert(st@ =~= started_step(st0, session@.id, blocked));
    put_step(&mut plan, pi, si, st);
    proof {
        crate::plan::lemma_set_step_twice(p1, pi as int, si as int, crate::plan::blank_model(), st0);
        crate::plan::lemma_set_step_twice(
            p1,
            pi as int,
            si as int,
            crate::plan::blank_model(),
            started_step(st0, session@.id, blocked),
        );
    }
    assert(plan@ =~= start_plan(p0, pos, step_id@, session@.id, blocked, active_ids(ss1)));
    assert(plan@.phases.len() == p0.phases.len());
    assert(plan.phases.deep_view().len() == plan.phases@.len());
    assert(plan@.phases[pi as int] == plan.phases@[pi as int]@);
    assert(plan@.phases[pi as int].steps.len() == plan.phases@[pi as int].steps@.len());
    assert(plan@.phases[pi as int].id == p0.phases[pi as int].id);
    assert(plan@.phases[pi as int].steps[si as int].title == step_of(p0, pos).title);
    set_session_owned(&mut sessions, &session.id, Some(owned(step_id)), now);
    let ghost ss2 = sessions.sessions.deep_view();
    assert(ss2 =~= sessions_owning(ss1, session@.id, Some(step_id@), now@));
    let mut rt_in = copy_runtime(&runtime);
    rt_in.current_phase_id = Some(plan.phases[pi].id.clone());
    rt_in.current_step_id = Some(owned(step_id));
    rt_in.focus_session_id = Some(session.id.clone());
    rt_in.status = if blocked {
        StepStatus::Blocked
    } else {
        StepStatus::InProgress
    };
    rt_in.last_updated_at = owned(now);
    let title = plan.phases[pi].steps[si].title.clone();
    let next_runtime = refresh_runtime_state(&mut plan, &rt_in, &mut sessions, copy_opt(&branch), now);
    let out = MutationOutcome {
        summary: concat3("Started step \"", title.as_str(), "\""),
        event_type: owned("step.started"),
        payload: object2("stepId", step_id, "sessionId", session.id.as_str()),
        write_plan: Some(plan),
        write_runtime: Some(next_runtime),
        write_sessions: Some(sessions),
        write_proposals: None,
        event_context: EventContext {
            session_id: Some(session.id.clone()),
            step_id: Some(owned(step_id)),
            subtask_id: None,
        },
    };
    proof {
        assert forall|q: (int, int)|
            #![trigger step_of(p0, q)]
            valid_pos(p0, q) && step_of(p0, q).id != step_id@ && held_by_other(step_of(p0, q), session@.id, active_ids(ss1))
                implies (out.write_plan matches Some(wp) && valid_pos(wp@, q) && step_of(wp@, q) == step_of(p0, q)) by {
            lemma_start_keeps_held(p0, pos, step_id@, session@.id, blocked, ss1, now@, q);
        }
    }
    assert(start_written(out, (p0, runtime@, ss0, state.sessions.version), pos, step_id@, session@, ss1, ostr(branch), now@));
    out_ok(out)
}

// ---------------------------------------------------------------------------
// Completing a step
// ---------------------------------------------------------------------------

/// Whether the source may complete a step that another session owns.
pub open spec fn human_override(source: ActivitySource) -> bool {
    source == ActivitySource::Human || source == ActivitySource::Desktop
}

/// Whether the source may complete a step another session owns: a person at
/// the command line or the desktop app.
pub fn human_override_allowed(source: ActivitySource) -> (r: bool)
    ensures
        r == human_override(source),
{
    match source {
        ActivitySource::Human | ActivitySource::Desktop => true,
        _ => false,
    }
}

/// The step once the actor completes it.
pub open spec fn completed_step(s: StepModel, actor: Seq<char>, now: Seq<char>) -> StepModel {
    StepModel {
        status: StepStatus::Done,
        owner_session_id: None,
        completed_at: Some(now),
        completed_by: Some(actor),
        ..s
    }
}

/// The runtime handed to the refresh after most mutations: focus on the
/// session, updated now.
pub open spec fn focused(rt: RuntimeModel, session_id: Option<Seq<char>>, now: Seq<char>) -> RuntimeModel {
    RuntimeModel { focus_session_id: session_id, last_updated_at: now, ..rt }
}

/// What `complete_step` produces when it succeeds with the session `sess`.
pub open spec fn complete_written(
    out: MutationOutcome,
    st: (PlanModel, RuntimeModel, u32),
    pos: (int, int),
    step_id: Seq<char>,
    actor: Seq<char>,
    sess: SessionModel,
    ss1: Seq<SessionModel>,
    branch: Option<Seq<char>>,
    now: Seq<char>,
) -> bool {
    let (p0, rt, version) = st;
    let p1 = set_step(p0, pos.0, pos.1, completed_step(step_of(p0, pos), actor, now));
    let ss2 = sessions_owning(ss1, sess.id, None, now);
    &&& writes_refreshed(out, p1, ss2, version, focused(rt, Some(sess.id), now), branch, now)
    &&& out.write_proposals is None
    &&& out.summary@ == "Completed step \""@ + step_of(p0, pos).title + "\""@
    &&& out.event_type@ == "step.completed"@
    &&& string_object(out.payload, seq![("stepId"@, step_id), ("sessionId"@, sess.id)])
    &&& ostr(out.event_context.session_id) == Some(sess.id)
    &&& ostr(out.event_context.step_id) == Some(step_id)
    &&& out.event_context.subtask_id is None
}

/// `complete_step`: marks the step done, completed now by the actor, unless
/// another session owns it and the actor is not a human or the desktop.
pub fn complete_step(
    state: ProjectState,
    step_id: &str,
    actor: &MutationActor,
    context: &SessionContextInput,
    branch: Option<String>,
    now: &str,
) -> (r: Result<MutationOutcome, WorkflowError>)
    ensures
        ({
            let p0 = state.plan@;
            let ss0 = state.sessions.sessions.deep_view();
            match r {
                Err(WorkflowError::UnknownStep(id)) => id@ == step_id@ && locate(p0, step_id@) is None,
                Err(WorkflowError::OwnedByAnotherSession(title)) => {
                    &&& locate(p0, step_id@) matches Some(pos)
                    &&& title@ == step_of(p0, pos).title
                    &&& !human_override(actor.source)
                    &&& exists|ss1: Seq<SessionModel>, sess: SessionModel|
                        #[trigger] ensure_session_spec(ss0, ss1, sess, actor.actor@, actor.source, ostr(branch),
                            ostr(context.session_id), ostr(context.session_title), now@)
                        && (step_of(p0, pos).owner_session_id matches Some(o) && o != sess.id)
                },
                Err(_) => false,
                Ok(out) => {
                    &&& locate(p0, step_id@) matches Some(pos)
                    &&& exists|ss1: Seq<SessionModel>, sess: SessionModel|
                        #[trigger] ensure_session_spec(ss0, ss1, sess, actor.actor@, actor.source, ostr(branch),
                            ostr(context.session_id), ostr(context.session_title), now@)
                        && (human_override(actor.source) || !(step_of(p0, pos).owner_session_id matches Some(o) && o != sess.id))
                        && complete_written(out, (p0, state.runtime@, state.sessions.version), pos,
                            step_id@, actor.actor@, sess, ss1, ostr(branch), now@)
                },
            }
        }),
        (actor.source == ActivitySource::Human || actor.source == ActivitySource::Desktop) ==> (r is Ok <==> locate(
            state.plan@,
            step_id@,
        ) is Some),
{
    let ghost p0 = state.plan@;
    let ghost ss0 = state.sessions.sessions.deep_view();
    let ProjectState { plan, runtime, sessions, proposals: _ } = state;
    let mut plan = plan;
    let mut sessions = sessions;
    let (pi, si) = match locate_step(&plan, step_id) {
        Some(x) => x,
        None => {
            return Err(WorkflowError::UnknownStep(owned(step_id)));
        },
    };
    let ghost pos = (pi as int, si as int);
    proof {
        lemma_locate_some_iff(p0, step_id@);
    }
    assert(step_of(p0, pos) == plan.phases@[pi as int].steps@[si as int]@);
    let title = plan.phases[pi].steps[si].title.clone();
    let session = ensure_session_record(&mut sessions, actor, copy_opt(&branch), context, now);
    let ghost ss1 = sessions.sessions.deep_view();
    let conflict = match &plan.phases[pi].steps[si].owner_session_id {
        Some(o) => *o != session.id && !human_override_allowed(actor.source),
        None => false,
    };
    if conflict {
        return Err(WorkflowError::OwnedByAnotherSession(title));
    }
    let mut st = take_step(&mut plan, pi, si);
    let ghost st0 = st@;
    st.status = StepStatus::Done;
    st.owner_session_id = None;
    st.completed_at = Some(owned(now));
    st.completed_by = Some(actor.actor.clone());
    assert(st@ =~= completed_step(st0, actor.actor@, now@));
    put_step(&mut plan, pi, si, st);
    proof {
        crate::plan::lemma_set_step_twice(
            p0,
            pi as int,
            si as int,
            crate::plan::blank_model(),
            completed_step(st0, actor.actor@, now@),
        );
    }
    set_session_owned(&mut sessions, &session.id, None, now);
    let mut rt_in = copy_runtime(&runtime);
    rt_in.focus_session_id = Some(session.id.clone());
    rt_in.last_updated_at = owned(now);
    let next_runtime = refresh_runtime_state(&mut plan, &rt_in, &mut sessions, copy_opt(&branch), now);
    let out = MutationOutcome {
        summary: concat3("Completed step \"", title.as_str(), "\""),
        event_type: owned("step.completed"),
        payload: object2("stepId", step_id, "sessionId", session.id.as_str()),
        write_plan: Some(plan),
        write_runtime: Some(next_runtime),
        write_sessions: Some(sessions),
        write_proposals: None,
        event_context: EventContext {
            session_id: Some(session.id.clone()),
            step_id: Some(owned(step_id)),
            subtask_id: None,
        },
    };
    assert(complete_written(out, (p0, runtime@, state.sessions.version), pos, step_id@, actor.actor@, session@, ss1, ostr(branch), now@));
    out_ok(out)
}

// ---------------------------------------------------------------------------
// Blockers
// ---------------------------------------------------------------------------

/// The blockers with `b` added when it is not already listed.
pub open spec fn with_blocker(bs: Seq<Seq<char>>, b: Seq<char>) -> Seq<Seq<char>> {
    if bs.contains(b) {
        bs
    } else {
        bs.push(b)
    }
}

/// The step at the runtime's current position, if the current step exists.
pub open spec fn current_step_pos(p: PlanModel, rt: RuntimeModel) -> Option<(int, int)> {
    match rt.current_step_id {
        Some(id) => locate(p, id),
        None => None,
    }
}

/// The current step once a blocker is added: blocked, and owned by the
/// session when nobody owned it.
pub open spec fn blocked_step(s: StepModel, session_id: Seq<char>) -> StepModel {
    StepModel {
        status: StepStatus::Blocked,
        owner_session_id: match s.owner_session_id {
            Some(o) => Some(o),
            None => Some(session_id),
        },
        ..s
    }
}

/// The plan with the step at `pos` (if any) rewritten by `f`.
pub open spec fn update_at(p: PlanModel, pos: Option<(int, int)>, s: spec_fn(StepModel) -> StepModel) -> PlanModel {
    match pos {
        Some(q) => set_step(p, q.0, q.1, s(step_of(p, q))),
        None => p,
    }
}

pub open spec fn blocker_of(session_id: Seq<char>) -> spec_fn(StepModel) -> StepModel {
    |s: StepModel| blocked_step(s, session_id)
}

/// What `add_blocker` produces with the session `sess`.
pub open spec fn blocker_added(
    out: MutationOutcome,
    st: (PlanModel, RuntimeModel, u32),
    blocker: Seq<char>,
    sess: SessionModel,
    ss1: Seq<SessionModel>,
    branch: Option<Seq<char>>,
    now: Seq<char>,
) -> bool {
    let (p0, rt, version) = st;
    let p1 = update_at(p0, current_step_pos(p0, rt), blocker_of(sess.id));
    let rt1 = RuntimeModel { blockers: with_blocker(rt.blockers, blocker), ..focused(rt, Some(sess.id), now) };
    &&& writes_refreshed(out, p1, ss1, version, rt1, branch, now)
    &&& out.write_proposals is None
    &&& out.summary@ == "Added blocker: "@ + blocker
    &&& out.event_type@ == "blocker.added"@
    &&& string_object(out.payload, seq![("blocker"@, blocker)])
    &&& ostr(out.event_context.session_id) == Some(sess.id)
    &&& ostr(out.event_context.step_id) == rt.current_step_id
    &&& out.event_context.subtask_id is None
}

fn contains_string(v: &Vec<String>, x: &str) -> (r: bool)
    ensures
        r == v.deep_view().contains(x@),
{
    crate::ids::used_has(v, &owned(x))
}

/// `add_blocker`: records the blocker once, blocks the current step (which
/// the session owns when nobody did) and refreshes the runtime.
pub fn add_blocker(
    state: ProjectState,
    blocker: &str,
    actor: &MutationActor,
    context: &SessionContextInput,
    branch: Option<String>,
    now: &str,
) -> (out: MutationOutcome)
    ensures
        exists|ss1: Seq<SessionModel>, sess: SessionModel|
            #[trigger] ensure_session_spec(state.sessions.sessions.deep_view(), ss1, sess, actor.actor@,
                actor.source, ostr(branch), ostr(context.session_id), ostr(context.session_title), now@)
            && blocker_added(out, (state.plan@, state.runtime@, state.sessions.version), blocker@, sess, ss1,
                ostr(branch), now@),
{
    let ghost p0 = state.plan@;
    let ProjectState { plan, runtime, sessions, proposals: _ } = state;
    let mut plan = plan;
    let mut sessions = sessions;
    let session = ensure_session_record(&mut sessions, actor, copy_opt(&branch), context, now);
    let ghost ss1 = sessions.sessions.deep_view();
    let mut blockers = copy_strings(&runtime.blockers);
    if !contains_string(&blockers, blocker) {
        let ghost before = blockers.deep_view();
        blockers.push(owned(blocker));
        assert(blockers.deep_view() =~= before.push(blocker@));
    }
    let current = match &runtime.current_step_id {
        Some(id) => locate_step(&plan, id.as_str()),
        None => None,
    };
    match current {
        Some((pi, si)) => {
            proof {
                lemma_locate_some_iff(p0, runtime@.current_step_id->0);
            }
            let mut st = take_step(&mut plan, pi, si);
            let ghost st0 = st@;
            st.status = StepStatus::Blocked;
            if st.owner_session_id.is_none() {
                st.owner_session_id = Some(session.id.clone());
            }
            assert(st@ =~= blocked_step(st0, session@.id));
            put_step(&mut plan, pi, si, st);
            proof {
                crate::plan::lemma_set_step_twice(
                    p0,
                    pi as int,
                    si as int,
                    crate::plan::blank_model(),
                    blocked_step(st0, session@.id),
                );
            }
        },
        None => {},
    }
    assert(plan@ == update_at(p0, current_step_pos(p0, runtime@), blocker_of(session@.id)));
    let mut rt_in = copy_runtime(&runtime);
    rt_in.blockers = blockers;
    rt_in.focus_session_id = Some(session.id.clone());
    rt_in.last_updated_at = owned(now);
    let next_runtime = refresh_runtime_state(&mut plan, &rt_in, &mut sessions, copy_opt(&branch), now);
    let out = MutationOutcome {
        summary: crate::text::concat2("Added blocker: ", blocker),
        event_type: owned("blocker.added"),
        payload: object1("blocker", blocker),
        write_plan: Some(plan),
        write_runtime: Some(next_runtime),
        write_sessions: Some(sessions),
        write_proposals: None,
        event_context: EventContext {
            session_id: Some(session.id.clone()),
            step_id: copy_opt(&runtime.current_step_id),
            subtask_id: None,
        },
    };
    assert(blocker_added(out, (p0, runtime@, state.sessions.version), blocker@, session@, ss1, ostr(branch), now@));
    out
}

/// The predicate "differs from `x`".
pub open spec fn differs_from(x: Seq<char>) -> spec_fn(Seq<char>) -> bool {
    |c: Seq<char>| c != x
}

/// The blockers left by `clear_blocker`: all but `b` when a non-empty `b` is
/// given, none otherwise.
pub open spec fn cleared_blockers(bs: Seq<Seq<char>>, b: Option<Seq<char>>) -> Seq<Seq<char>> {
    match b {
        Some(x) => if x.len() > 0 {
            bs.filter(differs_from(x))
        } else {
            Seq::empty()
        },
        None => Seq::empty(),
    }
}

/// The current step once its blockers are cleared: back in progress when it
/// has an owner, to-do otherwise.
pub open spec fn unblocked_step(s: StepModel) -> StepModel {
    if s.status == StepStatus::Blocked {
        StepModel {
            status: if s.owner_session_id is Some {
                StepStatus::InProgress
            } else {
                StepStatus::Todo
            },
            ..s
        }
    } else {
        s
    }
}

pub open spec fn unblocker() -> spec_fn(StepModel) -> StepModel {
    |s: StepModel| unblocked_step(s)
}

/// What `clear_blocker` produces with the session `sess`.
pub open spec fn blocker_cleared(
    out: MutationOutcome,
    st: (PlanModel, RuntimeModel, u32),
    blocker: Option<Seq<char>>,
    sess: SessionModel,
    ss1: Seq<SessionModel>,
    branch: Option<Seq<char>>,
    now: Seq<char>,
) -> bool {
    let (p0, rt, version) = st;
    let left = cleared_blockers(rt.blockers, blocker);
    let p1 = if left.len() == 0 {
        update_at(p0, current_step_pos(p0, rt), unblocker())
    } else {
        p0
    };
    let rt1 = RuntimeModel { blockers: left, ..focused(rt, Some(sess.id), now) };
    let named = match blocker {
        Some(x) => x.len() > 0,
        None => false,
    };
    &&& writes_refreshed(out, p1, ss1, version, rt1, branch, now)
    &&& out.write_proposals is None
    &&& out.summary@ == if named {
        "Cleared blocker: "@ + blocker->0
    } else {
        "Cleared all blockers"@
    }
    &&& out.event_type@ == "blocker.cleared"@
    &&& if named {
        string_object(out.payload, seq![("blocker"@, blocker->0)])
    } else {
        string_object(out.payload, seq![("cleared"@, "all"@)])
    }
    &&& ostr(out.event_context.session_id) == Some(sess.id)
    &&& ostr(out.event_context.step_id) == rt.current_step_id
    &&& out.event_context.subtask_id is None
}

/// The blockers other than `x`, in order.
fn without_blocker(bs: &Vec<String>, x: &str) -> (r: Vec<String>)
    ensures
        r.deep_view() == bs.deep_view().filter(differs_from(x@)),
{
    let ghost s = bs.deep_view();
    let ghost pred = differs_from(x@);
    let target = owned(x);
    let mut r: Vec<String> = Vec::new();
    let mut k: usize = 0;
    while k < bs.len()
        invariant
            s == bs.deep_view(),
            pred == differs_from(x@),
            target@ == x@,
            k <= bs@.len(),
            r.deep_view() == s.take(k as int).filter(pred),
        decreases bs@.len() - k,
    {
        proof {
            reveal_with_fuel(Seq::<_>::filter, 1);
            assert(s.take(k + 1).drop_last() =~= s.take(k as int));
            assert(s[k as int] == bs@[k as int]@);
        }
        let ghost before = r.deep_view();
        if bs[k] != target {
            r.push(bs[k].clone());
            assert(r.deep_view() =~= before.push(s[k as int]));
        }
        k += 1;
    }
    assert(s.take(bs@.len() as int) =~= s);
    r
}

/// `clear_blocker`: removes the named blocker, or all of them, and unblocks
/// the current step once none is left.
pub fn clear_blocker(
    state: ProjectState,
    blocker: Option<&str>,
    actor: &MutationActor,
    context: &SessionContextInput,
    branch: Option<String>,
    now: &str,
) -> (out: MutationOutcome)
    ensures
        exists|ss1: Seq<SessionModel>, sess: SessionModel|
            #[trigger] ensure_session_spec(state.sessions.sessions.deep_view(), ss1, sess, actor.actor@,
                actor.source, ostr(branch), ostr(context.session_id), ostr(context.session_title), now@)
            && blocker_cleared(out, (state.plan@, state.runtime@, state.sessions.version),
                match blocker { Some(b) => Some(b@), None => None }, sess, ss1, ostr(branch), now@),
{
    let ghost p0 = state.plan@;
    let ghost bm = match blocker {
        Some(b) => Some(b@),
        None => None::<Seq<char>>,
    };
    let ProjectState { plan, runtime, sessions, proposals: _ } = state;
    let mut plan = plan;
    let mut sessions = sessions;
    let session = ensure_session_record(&mut sessions, actor, copy_opt(&branch), context, now);
    let ghost ss1 = sessions.sessions.deep_view();
    let named: Option<&str> = match blocker {
        Some(b) => if b.unicode_len() > 0 {
            Some(b)
        } else {
            None
        },
        None => None,
    };
    let blockers = match named {
        Some(b) => without_blocker(&runtime.blockers, b),
        None => Vec::new(),
    };
    assert(blockers.deep_view() =~= cleared_blockers(runtime@.blockers, bm));
    let current = match &runtime.current_step_id {
        Some(id) => locate_step(&plan, id.as_str()),
        None => None,
    };
    if blockers.len() == 0 {
        match current {
            Some((pi, si)) => {
                proof {
                    lemma_locate_some_iff(p0, runtime@.current_step_id->0);
                }
                let mut st = take_step(&mut plan, pi, si);
                let ghost st0 = st@;
                if st.status == StepStatus::Blocked {
                    st.status = if st.owner_session_id.is_some() {
                        StepStatus::InProgress
                    } else {
                        StepStatus::Todo
                    };
                }
                assert(st@ =~= unblocked_step(st0));
                put_step(&mut plan, pi, si, st);
                proof {
                    crate::plan::lemma_set_step_twice(
                        p0,
                        pi as int,
                        si as int,
                        crate::plan::blank_model(),
                        unblocked_step(st0),
                    );
                }
            },
            None => {},
        }
    }
    let mut rt_in = copy_runtime(&runtime);
    rt_in.blockers = blockers;
    rt_in.focus_session_id = Some(session.id.clone());
    rt_in.last_updated_at = owned(now);
    let next_runtime = refresh_runtime_state(&mut plan, &rt_in, &mut sessions, copy_opt(&branch), now);
    let (summary, payload) = match named {
        Some(b) => (crate::text::concat2("Cleared blocker: ", b), object1("blocker", b)),
        None => (owned("Cleared all blockers"), object1("cleared", "all")),
    };
    let out = MutationOutcome {
        summary,
        event_type: owned("blocker.cleared"),
        payload,
        write_plan: Some(plan),
        write_runtime: Some(next_runtime),
        write_sessions: Some(sessions),
        write_proposals: None,
        event_context: EventContext {
            session_id: Some(session.id.clone()),
            step_id: copy_opt(&runtime.current_step_id),
            subtask_id: None,
        },
    };
    assert(blocker_cleared(out, (p0, runtime@, state.sessions.version), bm, session@, ss1, ostr(branch), now@));
    out
}

// ---------------------------------------------------------------------------
// Sessions, activity and proposals
// ---------------------------------------------------------------------------

/// Whether the outcome writes the refreshed runtime and the reconciled
/// sessions, but not the plan.
pub open spec fn writes_runtime_sessions(
    out: MutationOutcome,
    p0: PlanModel,
    ss: Seq<SessionModel>,
    version: u32,
    rt: RuntimeModel,
    branch: Option<Seq<char>>,
    now: Seq<char>,
) -> bool {
    let fp = map_steps(p0, step_reconciler(ss));
    let fs = ss.map_values(session_reconciler(p0));
    &&& out.write_plan is None
    &&& out.write_sessions matches Some(ws) && ws.sessions.deep_view() == fs && ws.version == version
    &&& out.write_runtime matches Some(wr) && wr@ == refreshed(fp, rt, fs, branch, now)
}

/// What `ensure_session` produces with the session `sess`.
pub open spec fn session_ensured(
    out: MutationOutcome,
    st: (PlanModel, RuntimeModel, u32),
    sess: SessionModel,
    ss1: Seq<SessionModel>,
    branch: Option<Seq<char>>,
    now: Seq<char>,
) -> bool {
    let (p0, rt, version) = st;
    &&& writes_runtime_sessions(out, p0, ss1, version, focused(rt, Some(sess.id), now), branch, now)
    &&& out.write_proposals is None
    &&& out.summary@ == "Ensured session \""@ + sess.title + "\""@
    &&& out.event_type@ == "session.ensured"@
    &&& string_object(out.payload, seq![("sessionId"@, sess.id)])
    &&& ostr(out.event_context.session_id) == Some(sess.id)
    &&& out.event_context.step_id is None
    &&& out.event_context.subtask_id is None
}

/// `ensure_session`: resumes or creates the session and focuses the runtime
/// on it.
pub fn ensure_session(
    state: ProjectState,
    actor: &MutationActor,
    context: &SessionContextInput,
    branch: Option<String>,
    now: &str,
) -> (out: MutationOutcome)
    ensures
        exists|ss1: Seq<SessionModel>, sess: SessionModel|
            #[trigger] ensure_session_spec(state.sessions.sessions.deep_view(), ss1, sess, actor.actor@,
                actor.source, ostr(branch), ostr(context.session_id), ostr(context.session_title), now@)
            && session_ensured(out, (state.plan@, state.runtime@, state.sessions.version), sess, ss1,
                ostr(branch), now@),
{
    let ghost p0 = state.plan@;
    let ProjectState { plan, runtime, sessions, proposals: _ } = state;
    let mut plan = plan;
    let mut sessions = sessions;
    let session = ensure_session_record(&mut sessions, actor, copy_opt(&branch), context, now);
    let ghost ss1 = sessions.sessions.deep_view();
    let mut rt_in = copy_runtime(&runtime);
    rt_in.focus_session_id = Some(session.id.clone());
    rt_in.last_updated_at = owned(now);
    let next_runtime = refresh_runtime_state(&mut plan, &rt_in, &mut sessions, copy_opt(&branch), now);
    let out = MutationOutcome {
        summary: concat3("Ensured session \"", session.title.as_str(), "\""),
        event_type: owned("session.ensured"),
        payload: object1("sessionId", session.id.as_str()),
        write_plan: None,
        write_runtime: Some(next_runtime),
        write_sessions: Some(sessions),
        write_proposals: None,
        event_context: EventContext { session_id: Some(session.id.clone()), step_id: None, subtask_id: None },
    };
    assert(session_ensured(out, (p0, runtime@, state.sessions.version), session@, ss1, ostr(branch), now@));
    out
}

/// The branch a runtime patch refreshes with: the patched runtime's, else
/// the stored runtime's, else the repository's.
pub open spec fn patch_branch(
    patched: Option<Seq<char>>,
    stored: Option<Seq<char>>,
    repo: Option<Seq<char>>,
) -> Option<Seq<char>> {
    match patched {
        Some(b) => Some(b),
        None => match stored {
            Some(b) => Some(b),
            None => repo,
        },
    }
}

/// `update_runtime`, once the patch is merged into the stored runtime (the
/// merge and its `last_updated_at` are made on the serialised form): the
/// patched runtime is refreshed against the plan and sessions, and the
/// event carries the patch, the given summary and type (by default
/// "runtime.updated"), and the new focus.
pub fn update_runtime(
    state: ProjectState,
    patched: RuntimeState,
    patch: JsonValue,
    summary: String,
    event_type: Option<String>,
    repo_branch: Option<String>,
    now: &str,
) -> (out: MutationOutcome)
    ensures
        writes_runtime_sessions(
            out,
            state.plan@,
            state.sessions.sessions.deep_view(),
            state.sessions.version,
            patched@,
            patch_branch(ostr(patched.active_branch), ostr(state.runtime.active_branch), ostr(repo_branch)),
            now@,
        ),
        out.summary == summary,
        out.event_type@ == match event_type {
            Some(t) => t@,
            None => "runtime.updated"@,
        },
        out.payload == patch,
        out.write_runtime matches Some(wr) && ostr(out.event_context.session_id) == wr@.focus_session_id
            && ostr(out.event_context.step_id) == wr@.current_step_id,
        out.event_context.subtask_id is None,
{
    let ProjectState { plan, runtime, sessions, proposals: _ } = state;
    let mut plan = plan;
    let mut sessions = sessions;
    let branch = match &patched.active_branch {
        Some(b) => Some(b.clone()),
        None => match &runtime.active_branch {
            Some(b) => Some(b.clone()),
            None => repo_branch,
        },
    };
    let next_runtime = refresh_runtime_state(&mut plan, &patched, &mut sessions, branch, now);
    let session_id = copy_opt(&next_runtime.focus_session_id);
    let step_id = copy_opt(&next_runtime.current_step_id);
    MutationOutcome {
        summary,
        event_type: match event_type {
            Some(t) => t,
            None => owned("runtime.updated"),
        },
        payload: patch,
        write_plan: None,
        write_runtime: Some(next_runtime),
        write_sessions: Some(sessions),
        write_proposals: None,
        event_context: EventContext { session_id, step_id, subtask_id: None },
    }
}

/// The sessions once the session with id `sid` has observed the step.
pub open spec fn sessions_observing(
    ss: Seq<SessionModel>,
    sid: Seq<char>,
    step_id: Option<Seq<char>>,
    now: Seq<char>,
) -> Seq<SessionModel> {
    match step_id {
        Some(x) => match first_session(ss, sid) {
            Some(k) => ss.update(
                k,
                SessionModel { last_updated_at: now, ..crate::sessions::observe_step(ss[k], Some(x)) },
            ),
            None => ss,
        },
        None => ss,
    }
}

/// Whether the payload is the given one, or an empty object when none is
/// given.
pub open spec fn payload_or_empty(out: JsonValue, given: Option<JsonValue>) -> bool {
    match given {
        Some(v) => out == v,
        None => out matches JsonValue::Object(f) && f@.len() == 0,
    }
}

/// The fields of an activity to append.
pub open spec fn activity_of(e: crate::models::AppendActivityInput) -> (
    Seq<char>,
    Seq<char>,
    Option<Seq<char>>,
    Option<Seq<char>>,
) {
    (e.event_type@, e.summary@, ostr(e.step_id), ostr(e.subtask_id))
}

/// What `append_activity_event` produces; `sess` is the session it resumed
/// or created, if the event's source called for one.
pub open spec fn activity_written(
    out: MutationOutcome,
    st: (PlanModel, RuntimeModel, u32),
    ev: (Seq<char>, Seq<char>, Option<Seq<char>>, Option<Seq<char>>),
    payload: Option<JsonValue>,
    sess: Option<SessionModel>,
    ss1: Seq<SessionModel>,
    branch: Option<Seq<char>>,
    now: Seq<char>,
) -> bool {
    let (p0, rt, version) = st;
    let (event_type, summary, step_id, subtask_id) = ev;
    let ss2 = match sess {
        Some(s) => sessions_observing(ss1, s.id, step_id, now),
        None => ss1,
    };
    let focus = match sess {
        Some(s) => Some(s.id),
        None => rt.focus_session_id,
    };
    let refresh_branch = match branch {
        Some(b) => Some(b),
        None => rt.active_branch,
    };
    &&& writes_runtime_sessions(out, p0, ss2, version, focused(rt, focus, now), refresh_branch, now)
    &&& out.write_proposals is None
    &&& out.summary@ == summary
    &&& out.event_type@ == event_type
    &&& payload_or_empty(out.payload, payload)
    &&& ostr(out.event_context.session_id) == match sess {
        Some(s) => Some(s.id),
        None => None,
    }
    &&& ostr(out.event_context.step_id) == step_id
    &&& ostr(out.event_context.subtask_id) == subtask_id
}

/// Whether an activity calls for a session: any source but the system, or
/// an explicit session id.
pub open spec fn wants_session(source: ActivitySource, session_id: Option<String>) -> bool {
    source != ActivitySource::System || session_id is Some
}

/// `append_activity_event`: resumes or creates the session (unless the
/// system writes without one), records the step it observed, and refreshes
/// the runtime. `branch` is the event's branch, or the repository's.
pub fn append_activity_event(
    state: ProjectState,
    event: crate::models::AppendActivityInput,
    branch: Option<String>,
    now: &str,
) -> (out: MutationOutcome)
    ensures
        ({
            let ss0 = state.sessions.sessions.deep_view();
            let st = (state.plan@, state.runtime@, state.sessions.version);
            if wants_session(event.source, event.session_id) {
                exists|ss1: Seq<SessionModel>, sess: SessionModel|
                    #[trigger] ensure_session_spec(ss0, ss1, sess, event.actor@, event.source, ostr(branch),
                        ostr(event.session_id), ostr(event.session_title), now@)
                    && activity_written(out, st, activity_of(event), event.payload, Some(sess), ss1, ostr(branch), now@)
            } else {
                activity_written(out, st, activity_of(event), event.payload, None, ss0, ostr(branch), now@)
            }
        }),
{
    let ghost p0 = state.plan@;
    let ghost ss0 = state.sessions.sessions.deep_view();
    let ghost ev = activity_of(event);
    let ghost given = event.payload;
    let ProjectState { plan, runtime, sessions, proposals: _ } = state;
    let mut plan = plan;
    let mut sessions = sessions;
    let crate::models::AppendActivityInput {
        actor,
        source,
        session_id,
        session_title,
        branch: _,
        event_type,
        summary,
        payload,
        step_id,
        subtask_id,
        index_db_path: _,
    } = event;
    let should = match source {
        ActivitySource::System => session_id.is_some(),
        _ => true,
    };
    let mutation_actor = MutationActor { actor, source };
    let session: Option<crate::models::WorkflowSession> = if should {
        let ctx = SessionContextInput {
            session_id: copy_opt(&session_id),
            session_title: copy_opt(&session_title),
            branch: copy_opt(&branch),
        };
        Some(ensure_session_record(&mut sessions, &mutation_actor, copy_opt(&branch), &ctx, now))
    } else {
        None
    };
    let ghost ss1 = sessions.sessions.deep_view();
    match (&session, &step_id) {
        (Some(sess), Some(sid)) => {
            let ghost ss = sessions.sessions.deep_view();
            match find_session(&sessions.sessions, &sess.id) {
                Some(m) => {
                    proof {
                        lemma_first_session(ss, sess@.id, 0);
                    }
                    let mut s = crate::sessions::take_session(&mut sessions.sessions, m);
                    crate::sessions::ensure_observed_step(&mut s, Some(sid.as_str()));
                    s.last_updated_at = owned(now);
                    sessions.sessions.set(m, s);
                    assert(sessions.sessions.deep_view() =~= sessions_observing(ss, sess@.id, ostr(step_id), now@));
                },
                None => {},
            }
        },
        _ => {},
    }
    let mut rt_in = copy_runtime(&runtime);
    rt_in.focus_session_id = match &session {
        Some(s) => Some(s.id.clone()),
        None => copy_opt(&runtime.focus_session_id),
    };
    rt_in.last_updated_at = owned(now);
    let refresh_branch = match &branch {
        Some(b) => Some(b.clone()),
        None => copy_opt(&runtime.active_branch),
    };
    let next_runtime = refresh_runtime_state(&mut plan, &rt_in, &mut sessions, refresh_branch, now);
    let payload = match payload {
        Some(v) => v,
        None => JsonValue::Object(Vec::new()),
    };
    let out = MutationOutcome {
        summary,
        event_type,
        payload,
        write_plan: None,
        write_runtime: Some(next_runtime),
        write_sessions: Some(sessions),
        write_proposals: None,
        event_context: EventContext {
            session_id: match &session {
                Some(s) => Some(s.id.clone()),
                None => None,
            },
            step_id,
            subtask_id,
        },
    };
    proof {
        let sm = match session {
            Some(s) => Some(s@),
            None => None::<SessionModel>,
        };
        assert(activity_written(out, (p0, runtime@, state.sessions.version), ev, given, sm, ss1, ostr(branch), now@));
    }
    out
}

/// `add_note`: appends a "note.added" activity with the note as summary.
pub fn add_note(
    state: ProjectState,
    note: &str,
    actor: &MutationActor,
    context: &SessionContextInput,
    branch: Option<String>,
    now: &str,
) -> (out: MutationOutcome)
    ensures
        ({
            let ss0 = state.sessions.sessions.deep_view();
            let st = (state.plan@, state.runtime@, state.sessions.version);
            let ev = ("note.added"@, note@, None::<Seq<char>>, None::<Seq<char>>);
            if wants_session(actor.source, context.session_id) {
                exists|ss1: Seq<SessionModel>, sess: SessionModel|
                    #[trigger] ensure_session_spec(ss0, ss1, sess, actor.actor@, actor.source, ostr(branch),
                        ostr(context.session_id), ostr(context.session_title), now@)
                    && activity_written(out, st, ev, None, Some(sess), ss1, ostr(branch), now@)
            } else {
                activity_written(out, st, ev, None, None, ss0, ostr(branch), now@)
            }
        }),
{
    let event = crate::models::AppendActivityInput {
        actor: actor.actor.clone(),
        source: actor.source,
        session_id: copy_opt(&context.session_id),
        session_title: copy_opt(&context.session_title),
        branch: copy_opt(&context.branch),
        event_type: owned("note.added"),
        summary: owned(note),
        payload: None,
        step_id: None,
        subtask_id: None,
        index_db_path: String::new(),
    };
    append_activity_event(state, event, branch, now)
}

/// What `propose_decision` produces with the session `sess`.
pub open spec fn decision_proposed(
    out: MutationOutcome,
    st: (PlanModel, RuntimeModel, u32, crate::models::DecisionProposalsFile),
    input: crate::models::DecisionProposalInput,
    actor: Seq<char>,
    sess: SessionModel,
    ss1: Seq<SessionModel>,
    branch: Option<Seq<char>>,
    now: Seq<char>,
) -> bool {
    let (p0, rt, version, proposals) = st;
    &&& writes_runtime_sessions(out, p0, ss1, version, focused(rt, Some(sess.id), now), branch, now)
    &&& out.write_proposals matches Some(pf) && {
        let n = proposals.proposals@.len();
        let added = pf.proposals.deep_view()[n as int];
        &&& pf.version == proposals.version
        &&& pf.proposals.deep_view().len() == n + 1
        &&& pf.proposals.deep_view().take(n as int) == proposals.proposals.deep_view()
        &&& added.id.len() == 36
        &&& (forall|i: int| 0 <= i < 36 ==> crate::ids::is_uuid_char(#[trigger] added.id[i]))
        &&& added.proposed_at == now
        &&& added.proposed_by == actor
        &&& added.title == input.title@
        &&& added.context == input.context@
        &&& added.decision == input.decision@
        &&& added.impact == input.impact@
        &&& added.status == crate::models::DecisionProposalStatus::Proposed
        &&& string_object(out.payload, seq![("proposalId"@, added.id)])
    }
    &&& out.summary@ == "Proposed decision \""@ + input.title@ + "\""@
    &&& out.event_type@ == "decision.proposed"@
    &&& ostr(out.event_context.session_id) == Some(sess.id)
    &&& (out.write_runtime matches Some(wr) && ostr(out.event_context.step_id) == wr@.current_step_id)
    &&& out.event_context.subtask_id is None
}

/// `propose_decision`: records a pending proposal with a fresh id, proposed
/// now by the actor.
pub fn propose_decision(
    state: ProjectState,
    proposal: &crate::models::DecisionProposalInput,
    actor: &MutationActor,
    context: &SessionContextInput,
    branch: Option<String>,
    now: &str,
) -> (out: MutationOutcome)
    ensures
        exists|ss1: Seq<SessionModel>, sess: SessionModel|
            #[trigger] ensure_session_spec(state.sessions.sessions.deep_view(), ss1, sess, actor.actor@,
                actor.source, ostr(branch), ostr(context.session_id), ostr(context.session_title), now@)
            && decision_proposed(out, (state.plan@, state.runtime@, state.sessions.version, state.proposals),
                *proposal, actor.actor@, sess, ss1, ostr(branch), now@),
{
    let ghost p0 = state.plan@;
    let ghost pf0 = state.proposals;
    let ProjectState { plan, runtime, sessions, proposals } = state;
    let mut plan = plan;
    let mut sessions = sessions;
    let session = ensure_session_record(&mut sessions, actor, copy_opt(&branch), context, now);
    let ghost ss1 = sessions.sessions.deep_view();
    let next = crate::models::DecisionProposal {
        id: crate::ids::new_uuid(),
        proposed_at: owned(now),
        proposed_by: actor.actor.clone(),
        title: proposal.title.clone(),
        context: proposal.context.clone(),
        decision: proposal.decision.clone(),
        impact: proposal.impact.clone(),
        status: crate::models::DecisionProposalStatus::Proposed,
    };
    let payload = object1("proposalId", next.id.as_str());
    let mut list = crate::models::copy_proposals(&proposals.proposals);
    let ghost before = list.deep_view();
    list.push(next);
    assert(list.deep_view().take(before.len() as int) =~= before);
    let next_proposals = crate::models::DecisionProposalsFile { version: proposals.version, proposals: list };
    let mut rt_in = copy_runtime(&runtime);
    rt_in.focus_session_id = Some(session.id.clone());
    rt_in.last_updated_at = owned(now);
    let next_runtime = refresh_runtime_state(&mut plan, &rt_in, &mut sessions, copy_opt(&branch), now);
    let step_id = copy_opt(&next_runtime.current_step_id);
    let out = MutationOutcome {
        summary: concat3("Proposed decision \"", proposal.title.as_str(), "\""),
        event_type: owned("decision.proposed"),
        payload,
        write_plan: None,
        write_runtime: Some(next_runtime),
        write_sessions: Some(sessions),
        write_proposals: Some(next_proposals),
        event_context: EventContext { session_id: Some(session.id.clone()), step_id, subtask_id: None },
    };
    assert(decision_proposed(out, (p0, runtime@, state.sessions.version, pf0), *proposal, actor.actor@, session@, ss1, ostr(branch), now@));
    out
}

// ---------------------------------------------------------------------------
// Accepting a decision
// ---------------------------------------------------------------------------

/// What accepting a proposal writes: the remaining proposals, the new
/// decisions Markdown, and the activity event.
pub struct AcceptOutcome {
    pub proposals: crate::models::DecisionProposalsFile,
    pub decisions_markdown: String,
    pub summary: String,
    pub event_type: String,
    pub payload: JsonValue,
}

/// The position of the first proposal with the id.
pub open spec fn first_proposal_from(ps: Seq<crate::models::ProposalModel>, id: Seq<char>, k: int) -> Option<int>
    decreases ps.len() - k,
{
    if k < 0 || k >= ps.len() {
        None
    } else if ps[k].id == id {
        Some(k)
    } else {
        first_proposal_from(ps, id, k + 1)
    }
}

pub open spec fn proposal_id_differs(id: Seq<char>) -> spec_fn(crate::models::ProposalModel) -> bool {
    |p: crate::models::ProposalModel| p.id != id
}

/// The decision recorded when a proposal is accepted: dated by the first ten
/// characters of its proposal time.
pub open spec fn accepted_from(p: crate::models::ProposalModel) -> AcceptedDecisionModel {
    AcceptedDecisionModel {
        date: if p.proposed_at.len() > 10 {
            p.proposed_at.take(10)
        } else {
            p.proposed_at
        },
        title: p.title,
        context: p.context,
        decision: p.decision,
        impact: p.impact,
    }
}

/// `accept_decision`: the proposal leaves the pending list (all proposals
/// with its id do), and its decision is appended to the accepted decisions
/// read from the Markdown, which is written anew.
pub fn accept_decision(
    proposals: &crate::models::DecisionProposalsFile,
    decisions_markdown: &str,
    proposal_id: &str,
) -> (r: Result<AcceptOutcome, WorkflowError>)
    ensures
        ({
            let ps = proposals.proposals.deep_view();
            match r {
                Err(WorkflowError::UnknownProposal(id)) => id@ == proposal_id@
                    && first_proposal_from(ps, proposal_id@, 0) is None,
                Err(_) => false,
                Ok(out) => first_proposal_from(ps, proposal_id@, 0) matches Some(k) && {
                    &&& out.proposals.version == 1
                    &&& out.proposals.proposals.deep_view() == ps.filter(proposal_id_differs(proposal_id@))
                    &&& out.decisions_markdown@ == crate::decisions::decisions_markdown(
                        crate::decisions::parse_decisions(decisions_markdown@).push(accepted_from(ps[k])),
                    )
                    &&& out.summary@ == "Accepted decision \""@ + ps[k].title + "\""@
                    &&& out.event_type@ == "decision.accepted"@
                    &&& string_object(out.payload, seq![("proposalId"@, proposal_id@)])
                },
            }
        }),
{
    let ghost ps = proposals.proposals.deep_view();
    let target_id = owned(proposal_id);
    let mut found: Option<usize> = None;
    let mut k: usize = 0;
    while k < proposals.proposals.len()
        invariant_except_break
            found is None,
        invariant
            ps == proposals.proposals.deep_view(),
            target_id@ == proposal_id@,
            k <= ps.len(),
            first_proposal_from(ps, proposal_id@, 0) == first_proposal_from(ps, proposal_id@, k as int),
        ensures
            match found {
                Some(m) => first_proposal_from(ps, proposal_id@, 0) == Some(m as int) && m < ps.len(),
                None => first_proposal_from(ps, proposal_id@, 0) is None,
            },
        decreases ps.len() - k,
    {
        assert(ps[k as int] == proposals.proposals@[k as int]@);
        if proposals.proposals[k].id == target_id {
            found = Some(k);
            break;
        }
        k += 1;
    }
    let m = match found {
        Some(m) => m,
        None => {
            return Err(WorkflowError::UnknownProposal(target_id));
        },
    };
    assert(ps[m as int] == proposals.proposals@[m as int]@);
    let target = &proposals.proposals[m];
    let ghost pred = proposal_id_differs(proposal_id@);
    let mut remaining: Vec<crate::models::DecisionProposal> = Vec::new();
    let mut j: usize = 0;
    while j < proposals.proposals.len()
        invariant
            ps == proposals.proposals.deep_view(),
            pred == proposal_id_differs(proposal_id@),
            target_id@ == proposal_id@,
            j <= ps.len(),
            remaining.deep_view() == ps.take(j as int).filter(pred),
        decreases ps.len() - j,
    {
        proof {
            reveal_with_fuel(Seq::<_>::filter, 1);
            assert(ps.take(j + 1).drop_last() =~= ps.take(j as int));
            assert(ps[j as int] == proposals.proposals@[j as int]@);
        }
        let ghost before = remaining.deep_view();
        if proposals.proposals[j].id != target_id {
            remaining.push(proposals.proposals[j].clone());
            assert(remaining.deep_view() =~= before.push(ps[j as int]));
        }
        j += 1;
    }
    assert(ps.take(ps.len() as int) =~= ps);
    let mut accepted = crate::decisions::parse_accepted_decisions(decisions_markdown);
    let at = crate::text::chars_of(target.proposed_at.as_str());
    let date_chars = if at.len() > 10 {
        crate::text::sub_vec(&at, 0, 10)
    } else {
        crate::text::sub_vec(&at, 0, at.len())
    };
    assert(date_chars@ =~= accepted_from(ps[m as int]).date);
    let entry = crate::models::AcceptedDecision {
        date: crate::text::string_from(date_chars.as_slice()),
        title: target.title.clone(),
        context: target.context.clone(),
        decision: target.decision.clone(),
        impact: target.impact.clone(),
    };
    let ghost before = accepted.deep_view();
    let ghost em = entry@;
    accepted.push(entry);
    assert(accepted.deep_view() =~= before.push(em));
    let markdown = crate::decisions::build_accepted_decision_markdown(&accepted);
    Ok(
        AcceptOutcome {
            proposals: crate::models::DecisionProposalsFile { version: 1, proposals: remaining },
            decisions_markdown: markdown,
            summary: concat3("Accepted decision \"", target.title.as_str(), "\""),
            event_type: owned("decision.accepted"),
            payload: object1("proposalId", proposal_id),
        },
    )
}

/// Records in the first session with id `sid` the step it owns and the time.
fn set_session_owned(sessions: &mut SessionsFile, sid: &String, owned_step: Option<String>, now: &str)
    ensures
        final(sessions).version == old(sessions).version,
        final(sessions).sessions.deep_view() == sessions_owning(
            old(sessions).sessions.deep_view(),
            sid@,
            ostr(owned_step),
            now@,
        ),
{
    let ghost ss = sessions.sessions.deep_view();
    match find_session(&sessions.sessions, sid) {
        Some(m) => {
            proof {
                lemma_first_session(ss, sid@, 0);
            }
            let mut s = crate::sessions::take_session(&mut sessions.sessions, m);
            s.owned_step_id = owned_step;
            s.last_updated_at = owned(now);
            sessions.sessions.set(m, s);
            assert(sessions.sessions.deep_view() =~= sessions_owning(ss, sid@, ostr(owned_step), now@));
        },
        None => {},
    }
}

fn out_ok(out: MutationOutcome) -> (r: Result<MutationOutcome, WorkflowError>)
    ensures
        r == Ok::<MutationOutcome, WorkflowError>(out),
{
    Ok(out)
}

// ---------------------------------------------------------------------------
// Committing a mutation
// ---------------------------------------------------------------------------

/// `mutate_project`'s writes, in memory: each file the outcome writes
/// replaces the state's; the others stay.
pub fn apply_writes(state: ProjectState, out: MutationOutcome) -> (r: (ProjectState, ActivityParts))
    ensures
        r.0.plan == match out.write_plan {
            Some(p) => p,
            None => state.plan,
        },
        r.0.runtime == match out.write_runtime {
            Some(x) => x,
            None => state.runtime,
        },
        r.0.sessions == match out.write_sessions {
            Some(x) => x,
            None => state.sessions,
        },
        r.0.proposals == match out.write_proposals {
            Some(x) => x,
            None => state.proposals,
        },
        r.1.summary == out.summary,
        r.1.event_type == out.event_type,
        r.1.payload == out.payload,
        r.1.context == out.event_context,
{
    let MutationOutcome {
        summary,
        event_type,
        payload,
        write_plan,
        write_runtime,
        write_sessions,
        write_proposals,
        event_context,
    } = out;
    let ProjectState { plan, runtime, sessions, proposals } = state;
    let next = ProjectState {
        plan: match write_plan {
            Some(p) => p,
            None => plan,
        },
        runtime: match write_runtime {
            Some(x) => x,
            None => runtime,
        },
        sessions: match write_sessions {
            Some(x) => x,
            None => sessions,
        },
        proposals: match write_proposals {
            Some(x) => x,
            None => proposals,
        },
    };
    (next, ActivityParts { summary, event_type, payload, context: event_context })
}

/// What a mutation records in the activity log, before it is stamped.
pub struct ActivityParts {
    pub summary: String,
    pub event_type: String,
    pub payload: JsonValue,
    pub context: EventContext,
}

/// The activity event `mutate_project` appends: the actor, the project,
/// the time, and what the mutation recorded.
pub fn activity_event_for(parts: ActivityParts, actor: &MutationActor, project_id: &str, timestamp: &str) -> (r:
    crate::models::ActivityEvent)
    ensures
        r.timestamp@ == timestamp@,
        r.actor@ == actor.actor@,
        r.source == actor.source,
        r.project_id@ == project_id@,
        r.session_id == parts.context.session_id,
        r.step_id == parts.context.step_id,
        r.subtask_id == parts.context.subtask_id,
        r.event_type == parts.event_type,
        r.summary == parts.summary,
        r.payload == parts.payload,
{
    let ActivityParts { summary, event_type, payload, context } = parts;
    crate::models::ActivityEvent {
        timestamp: owned(timestamp),
        actor: actor.actor.clone(),
        source: actor.source,
        project_id: owned(project_id),
        session_id: context.session_id,
        step_id: context.step_id,
        subtask_id: context.subtask_id,
        event_type,
        summary,
        payload,
    }
}

/// `get_project`'s pending proposals: those proposed and not yet accepted
/// or rejected.
pub fn pending_proposals(proposals: Vec<crate::models::DecisionProposal>) -> (r: Vec<crate::models::DecisionProposal>)
    ensures
        r.deep_view() == proposals.deep_view().filter(
            |p: crate::models::ProposalModel| p.status == crate::models::DecisionProposalStatus::Proposed,
        ),
{
    let ghost orig = proposals.deep_view();
    let total: usize = proposals.len();
    let mut rest = proposals;
    let mut out: Vec<crate::models::DecisionProposal> = Vec::new();
    let mut k: usize = 0;
    while rest.len() > 0
        invariant
            orig.len() == total,
            k <= orig.len(),
            rest.deep_view() == orig.skip(k as int),
            out.deep_view() == orig.take(k as int).filter(
                |p: crate::models::ProposalModel| p.status == crate::models::DecisionProposalStatus::Proposed,
            ),
        decreases rest@.len(),
    {
        let ghost before_rest = rest;
        assert(orig.skip(k as int).len() == orig.len() - k);
        let x = rest.remove(0);
        proof {
            crate::models::lemma_deep_remove_first(before_rest, rest, x);
        }
        assert(x@ == orig[k as int]);
        assert(rest.deep_view() =~= orig.skip(k as int + 1));
        assert(orig.take(k as int + 1).drop_last() =~= orig.take(k as int));
        proof {
            reveal(Seq::filter);
        }
        if x.status == crate::models::DecisionProposalStatus::Proposed {
            let ghost before = out;
            let ghost xv = x;
            out.push(x);
            proof {
                crate::models::lemma_deep_push(before, out, xv);
            }
        }
        k += 1;
    }
    assert(orig.take(orig.len() as int) =~= orig);
    out
}

} // verus!
