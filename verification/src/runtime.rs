//! The runtime focus of a project: the next actionable step, the
//! reconciliation of sessions with the plan, and the recomputation of the
//! runtime state after every mutation.
use crate::models::{
    ostr, Plan, PlanModel, RuntimeModel, RuntimeState, SessionModel, SessionsFile, Step, StepModel,
    StepStatus, WorkflowSession, copy_opt, copy_strings,
};
use crate::plan::{
    first_in_steps, first_step, first_step_from, has_step_id, lemma_locate_some_iff, locate,
    locate_step, map_plan_steps, map_steps, step_of, valid_pos,
};
use crate::sessions::{
    active_ids, active_session_ids, contains_session_id, has_session_id, map_sessions,
};
use crate::text::concat3;
use vstd::prelude::*;

verus! {

// ---------------------------------------------------------------------------
// The next actionable step
// ---------------------------------------------------------------------------

/// Whether the dependency `dep` is met: the first step with that id exists
/// and is done.
pub open spec fn dep_done(p: PlanModel, dep: Seq<char>) -> bool {
    match locate(p, dep) {
        Some(pos) => step_of(p, pos).status == StepStatus::Done,
        None => false,
    }
}

/// A step is actionable when it is not done and all its dependencies are met.
pub open spec fn actionable(p: PlanModel, s: StepModel) -> bool {
    s.status != StepStatus::Done && forall|k: int|
        0 <= k < s.depends_on.len() ==> dep_done(p, #[trigger] s.depends_on[k])
}

pub open spec fn actionable_in(p: PlanModel) -> spec_fn(StepModel) -> bool {
    |s: StepModel| actionable(p, s)
}

/// `get_next_actionable_step`: the first actionable step in plan order.
pub open spec fn next_actionable(p: PlanModel) -> Option<(int, int)> {
    first_step(p, actionable_in(p))
}

/// Whether the dependency `dep` is met.
pub fn dependency_done(plan: &Plan, dep: &str) -> (r: bool)
    ensures
        r == dep_done(plan@, dep@),
{
    match locate_step(plan, dep) {
        Some((i, j)) => {
            proof {
                lemma_locate_some_iff(plan@, dep@);
            }
            assert(plan@.phases[i as int].steps[j as int] == plan.phases@[i as int].steps@[j as int]@);
            plan.phases[i].steps[j].status == StepStatus::Done
        },
        None => false,
    }
}

/// Whether a step is actionable in the plan.
pub fn step_actionable(plan: &Plan, step: &Step) -> (r: bool)
    ensures
        r == actionable(plan@, step@),
{
    if step.status == StepStatus::Done {
        return false;
    }
    let mut k: usize = 0;
    while k < step.depends_on.len()
        invariant
            k <= step.depends_on@.len(),
            forall|m: int| 0 <= m < k ==> dep_done(plan@, #[trigger] step@.depends_on[m]),
        decreases step.depends_on@.len() - k,
    {
        assert(step@.depends_on[k as int] == step.depends_on@[k as int]@);
        if !dependency_done(plan, step.depends_on[k].as_str()) {
            return false;
        }
        k += 1;
    }
    true
}

/// `get_next_actionable_step`: the position of the first step that is not
/// done and whose dependencies are all done.
pub fn get_next_actionable_step(plan: &Plan) -> (r: Option<(usize, usize)>)
    ensures
        match r {
            Some((i, j)) => next_actionable(plan@) == Some((i as int, j as int)),
            None => next_actionable(plan@) is None,
        },
{
    let ghost p = plan@;
    let ghost pred = actionable_in(p);
    let mut i: usize = 0;
    while i < plan.phases.len()
        invariant
            p == plan@,
            pred == actionable_in(p),
            i <= plan.phases@.len(),
            next_actionable(p) == first_step_from(p.phases, pred, i as int),
        decreases plan.phases@.len() - i,
    {
        let steps = &plan.phases[i].steps;
        let ghost ps = p.phases[i as int].steps;
        let mut j: usize = 0;
        while j < steps.len()
            invariant
                steps == &plan.phases@[i as int].steps,
                ps == p.phases[i as int].steps,
                p == plan@,
                pred == actionable_in(p),
                i < plan.phases@.len(),
                j <= steps@.len(),
                next_actionable(p) == first_step_from(p.phases, pred, i as int),
                first_in_steps(ps, pred, 0) == first_in_steps(ps, pred, j as int),
            decreases steps@.len() - j,
        {
            assert(ps[j as int] == steps@[j as int]@);
            if step_actionable(plan, &steps[j]) {
                assert(pred(ps[j as int]));
                assert(first_in_steps(ps, pred, j as int) == Some(j as int));
                assert(first_step_from(p.phases, pred, i as int) == Some((i as int, j as int)));
                return Some((i, j));
            }
            j += 1;
        }
        i += 1;
    }
    None
}

// ---------------------------------------------------------------------------
// Reconciliation of sessions and plan
// ---------------------------------------------------------------------------

/// The predicate "some step of the plan has this id".
pub open spec fn step_known(p: PlanModel) -> spec_fn(Seq<char>) -> bool {
    |id: Seq<char>| has_step_id(p, id)
}

/// A session after reconciliation: it keeps its owned step only when that
/// step exists, and its observed steps only where they exist.
pub open spec fn reconcile_session(s: SessionModel, p: PlanModel) -> SessionModel {
    SessionModel {
        owned_step_id: match s.owned_step_id {
            Some(x) => if has_step_id(p, x) {
                Some(x)
            } else {
                None
            },
            None => None,
        },
        observed_step_ids: s.observed_step_ids.filter(step_known(p)),
        ..s
    }
}

/// A step after reconciliation: it keeps its owner only when that session
/// exists.
pub open spec fn reconcile_step(st: StepModel, ss: Seq<SessionModel>) -> StepModel {
    match st.owner_session_id {
        Some(o) => if has_session_id(ss, o) {
            st
        } else {
            StepModel { owner_session_id: None, ..st }
        },
        None => st,
    }
}

pub open spec fn session_reconciler(p: PlanModel) -> spec_fn(SessionModel) -> SessionModel {
    |s: SessionModel| reconcile_session(s, p)
}

pub open spec fn step_reconciler(ss: Seq<SessionModel>) -> spec_fn(StepModel) -> StepModel {
    |st: StepModel| reconcile_step(st, ss)
}

/// Whether some step of the plan has the id `id`.
pub fn plan_has_step(plan: &Plan, id: &str) -> (r: bool)
    ensures
        r == has_step_id(plan@, id@),
{
    proof {
        lemma_locate_some_iff(plan@, id@);
    }
    locate_step(plan, id).is_some()
}

/// The ids of `ids` that name a step of the plan, in order.
pub fn retain_known_steps(ids: &Vec<String>, plan: &Plan) -> (r: Vec<String>)
    ensures
        r.deep_view() == ids.deep_view().filter(step_known(plan@)),
{
    let ghost s = ids.deep_view();
    let ghost pred = step_known(plan@);
    let mut r: Vec<String> = Vec::new();
    let mut k: usize = 0;
    while k < ids.len()
        invariant
            s == ids.deep_view(),
            pred == step_known(plan@),
            k <= ids@.len(),
            r.deep_view() == s.take(k as int).filter(pred),
        decreases ids@.len() - k,
    {
        proof {
            reveal_with_fuel(Seq::<_>::filter, 1);
            assert(s.take(k + 1).drop_last() =~= s.take(k as int));
            assert(s[k as int] == ids@[k as int]@);
        }
        let ghost before = r.deep_view();
        if plan_has_step(plan, ids[k].as_str()) {
            r.push(ids[k].clone());
            assert(r.deep_view() =~= before.push(s[k as int]));
        }
        k += 1;
    }
    assert(s.take(ids@.len() as int) =~= s);
    r
}

fn reconcile_session_one(s: WorkflowSession, plan: &Plan) -> (r: WorkflowSession)
    ensures
        r@ == reconcile_session(s@, plan@),
{
    let mut s = s;
    let keep = match &s.owned_step_id {
        Some(x) => plan_has_step(plan, x.as_str()),
        None => true,
    };
    if !keep {
        s.owned_step_id = None;
    }
    let observed = retain_known_steps(&s.observed_step_ids, plan);
    s.observed_step_ids = observed;
    s
}

fn reconcile_step_one(st: Step, sessions: &Vec<WorkflowSession>) -> (r: Step)
    ensures
        r@ == reconcile_step(st@, sessions.deep_view()),
{
    let mut st = st;
    let keep = match &st.owner_session_id {
        Some(o) => contains_session_id(sessions, o),
        None => true,
    };
    if !keep {
        st.owner_session_id = None;
    }
    st
}

pub proof fn lemma_session_ids_kept(ss: Seq<SessionModel>, p: PlanModel, id: Seq<char>)
    ensures
        has_session_id(ss.map_values(session_reconciler(p)), id) == has_session_id(ss, id),
{
    let t = ss.map_values(session_reconciler(p));
    if has_session_id(ss, id) {
        let k = choose|k: int| 0 <= k < ss.len() && (#[trigger] ss[k]).id == id;
        assert(t[k].id == id);
    }
    if has_session_id(t, id) {
        let k = choose|k: int| 0 <= k < t.len() && (#[trigger] t[k]).id == id;
        assert(ss[k].id == id);
    }
}

/// `reconcile_sessions_and_plan`: sessions drop references to steps that no
/// longer exist, and steps drop owners that are not a known session.
pub fn reconcile_sessions_and_plan(plan: &mut Plan, sessions: &mut SessionsFile)
    ensures
        final(sessions).version == old(sessions).version,
        final(sessions).sessions.deep_view() == old(sessions).sessions.deep_view().map_values(
            session_reconciler(old(plan)@),
        ),
        final(plan)@ == map_steps(old(plan)@, step_reconciler(old(sessions).sessions.deep_view())),
{
    let ghost p0 = plan@;
    let ghost s0 = sessions.sessions.deep_view();
    {
        let pr: &Plan = plan;
        let f = |s: WorkflowSession| -> (r: WorkflowSession)
            ensures
                r@ == reconcile_session(s@, pr@),
            { reconcile_session_one(s, pr) };
        map_sessions(&mut sessions.sessions, f, Ghost(session_reconciler(p0)));
    }
    {
        let sr: &Vec<WorkflowSession> = &sessions.sessions;
        let f = |st: Step| -> (r: Step)
            ensures
                r@ == reconcile_step(st@, sr.deep_view()),
            { reconcile_step_one(st, sr) };
        map_plan_steps(plan, f, Ghost(step_reconciler(sessions.sessions.deep_view())));
    }
    proof {
        let s1 = sessions.sessions.deep_view();
        assert forall|id: Seq<char>| has_session_id(s1, id) == has_session_id(s0, id) by {
            lemma_session_ids_kept(s0, p0, id);
        }
        assert(step_reconciler(s1) =~= step_reconciler(s0));
    }
}

// ---------------------------------------------------------------------------
// Recomputing the runtime state
// ---------------------------------------------------------------------------

/// The stored current step, when it exists and is not done.
pub open spec fn stored_current(p: PlanModel, rt: RuntimeModel) -> Option<(int, int)> {
    match rt.current_step_id {
        Some(id) => match locate(p, id) {
            Some(pos) => if step_of(p, pos).status != StepStatus::Done {
                Some(pos)
            } else {
                None
            },
            None => None,
        },
        None => None,
    }
}

/// The step that the runtime focuses on: the stored current step while it is
/// open, otherwise the next actionable step.
pub open spec fn current_pos(p: PlanModel, rt: RuntimeModel) -> Option<(int, int)> {
    match stored_current(p, rt) {
        Some(pos) => Some(pos),
        None => next_actionable(p),
    }
}

/// The next action shown for the current step.
pub open spec fn next_action_for(p: PlanModel, cur: Option<(int, int)>) -> Seq<char> {
    match cur {
        Some(pos) => {
            let s = step_of(p, pos);
            if s.owner_session_id is Some {
                if s.summary.len() > 0 {
                    s.summary
                } else if s.details.len() > 0 {
                    s.details[0]
                } else {
                    "Continue \""@ + s.title + "\""@
                }
            } else {
                "Start \""@ + s.title + "\""@
            }
        },
        None => "No remaining steps"@,
    }
}

/// The focus session: the owner of the current step, otherwise the stored
/// focus while that session exists.
pub open spec fn focus_for(p: PlanModel, rt: RuntimeModel, ss: Seq<SessionModel>, cur: Option<(int, int)>) -> Option<
    Seq<char>,
> {
    let owner = match cur {
        Some(pos) => step_of(p, pos).owner_session_id,
        None => None,
    };
    match owner {
        Some(o) => Some(o),
        None => match rt.focus_session_id {
            Some(f) => if has_session_id(ss, f) {
                Some(f)
            } else {
                None
            },
            None => None,
        },
    }
}

/// The runtime state that `refresh_runtime_state` computes from the
/// reconciled plan and sessions.
pub open spec fn refreshed(
    p: PlanModel,
    rt: RuntimeModel,
    ss: Seq<SessionModel>,
    branch: Option<Seq<char>>,
    now: Seq<char>,
) -> RuntimeModel {
    let cur = current_pos(p, rt);
    RuntimeModel {
        version: 2,
        current_phase_id: match cur {
            Some(pos) => Some(p.phases[pos.0].id),
            None => None,
        },
        current_step_id: match cur {
            Some(pos) => Some(step_of(p, pos).id),
            None => None,
        },
        focus_session_id: focus_for(p, rt, ss, cur),
        next_action: next_action_for(p, cur),
        status: if rt.blockers.len() > 0 {
            StepStatus::Blocked
        } else {
            match cur {
                Some(pos) => step_of(p, pos).status,
                None => StepStatus::Done,
            }
        },
        blockers: rt.blockers,
        last_updated_at: now,
        active_branch: branch,
        active_session_ids: active_ids(ss),
    }
}

pub proof fn lemma_current_pos_valid(p: PlanModel, rt: RuntimeModel)
    ensures
        match current_pos(p, rt) {
            Some(pos) => valid_pos(p, pos),
            None => true,
        },
{
    crate::plan::lemma_first_step(p, actionable_in(p));
    match rt.current_step_id {
        Some(id) => lemma_locate_some_iff(p, id),
        None => {},
    }
}

fn next_action_exec(plan: &Plan, cur: Option<(usize, usize)>) -> (r: String)
    requires
        match cur {
            Some(pos) => valid_pos(plan@, (pos.0 as int, pos.1 as int)),
            None => true,
        },
    ensures
        r@ == next_action_for(
            plan@,
            match cur {
                Some(pos) => Some((pos.0 as int, pos.1 as int)),
                None => None,
            },
        ),
{
    match cur {
        Some((i, j)) => {
            let s = &plan.phases[i].steps[j];
            assert(plan@.phases[i as int].steps[j as int] == s@);
            if s.owner_session_id.is_some() {
                if s.summary.unicode_len() > 0 {
                    s.summary.clone()
                } else if s.details.len() > 0 {
                    assert(s@.details[0] == s.details@[0]@);
                    s.details[0].clone()
                } else {
                    concat3("Continue \"", s.title.as_str(), "\"")
                }
            } else {
                concat3("Start \"", s.title.as_str(), "\"")
            }
        },
        None => String::from_str("No remaining steps"),
    }
}

/// `refresh_runtime_state`: reconciles sessions with the plan, then
/// recomputes the current phase and step, the focus session, the status, the
/// next action and the active sessions, keeping the blockers.
pub fn refresh_runtime_state(
    plan: &mut Plan,
    runtime: &RuntimeState,
    sessions: &mut SessionsFile,
    active_branch: Option<String>,
    now: &str,
) -> (r: RuntimeState)
    ensures
        final(sessions).version == old(sessions).version,
        final(sessions).sessions.deep_view() == old(sessions).sessions.deep_view().map_values(
            session_reconciler(old(plan)@),
        ),
        final(plan)@ == map_steps(old(plan)@, step_reconciler(old(sessions).sessions.deep_view())),
        r@ == refreshed(
            final(plan)@,
            runtime@,
            final(sessions).sessions.deep_view(),
            ostr(active_branch),
            now@,
        ),
{
    reconcile_sessions_and_plan(plan, sessions);
    let ghost p = plan@;
    let stored: Option<(usize, usize)> = match &runtime.current_step_id {
        Some(id) => match locate_step(plan, id.as_str()) {
            Some((i, j)) => {
                proof {
                    lemma_locate_some_iff(p, id@);
                }
                assert(p.phases[i as int].steps[j as int] == plan.phases@[i as int].steps@[j as int]@);
                if plan.phases[i].steps[j].status != StepStatus::Done {
                    Some((i, j))
                } else {
                    None
                }
            },
            None => None,
        },
        None => None,
    };
    let current = match stored {
        Some(x) => Some(x),
        None => get_next_actionable_step(plan),
    };
    let ghost cur = match current {
        Some(pos) => Some((pos.0 as int, pos.1 as int)),
        None => None::<(int, int)>,
    };
    assert(cur == current_pos(p, runtime@));
    proof {
        lemma_current_pos_valid(p, runtime@);
    }
    let owner: Option<String> = match current {
        Some((i, j)) => {
            assert(p.phases[i as int].steps[j as int] == plan.phases@[i as int].steps@[j as int]@);
            copy_opt(&plan.phases[i].steps[j].owner_session_id)
        },
        None => None,
    };
    let focus: Option<String> = match owner {
        Some(o) => Some(o),
        None => match &runtime.focus_session_id {
            Some(f) => if contains_session_id(&sessions.sessions, f) {
                Some(f.clone())
            } else {
                None
            },
            None => None,
        },
    };
    let status = if runtime.blockers.len() > 0 {
        StepStatus::Blocked
    } else {
        match current {
            Some((i, j)) => {
                assert(p.phases[i as int].steps[j as int] == plan.phases@[i as int].steps@[j as int]@);
                plan.phases[i].steps[j].status
            },
            None => StepStatus::Done,
        }
    };
    let next_action = next_action_exec(plan, current);
    let (phase_id, step_id): (Option<String>, Option<String>) = match current {
        Some((i, j)) => {
            assert(p.phases[i as int].steps[j as int] == plan.phases@[i as int].steps@[j as int]@);
            assert(p.phases[i as int].id == plan.phases@[i as int].id@);
            (Some(plan.phases[i].id.clone()), Some(plan.phases[i].steps[j].id.clone()))
        },
        None => (None, None),
    };
    let r = RuntimeState {
        version: 2,
        current_phase_id: phase_id,
        current_step_id: step_id,
        focus_session_id: focus,
        next_action,
        status,
        blockers: copy_strings(&runtime.blockers),
        last_updated_at: String::from_str(now),
        active_branch,
        active_session_ids: active_session_ids(&sessions.sessions),
    };
    assert(r@ =~= refreshed(p, runtime@, sessions.sessions.deep_view(), ostr(active_branch), now@));
    r
}

} // verus!
