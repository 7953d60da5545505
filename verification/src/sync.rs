//! Synchronising the canonical plan with a plan handed in by an agent or a
//! person: ids are kept where the step or subtask already existed, fresh
//! ones are made otherwise, and the result is validated.
use crate::ids::{lemma_unique_fresh, lemma_unique_len, phase_id_from_title, slug_or, step_id_from_title, subtask_id_from_title,
    unique, unique_id, used_has};
use crate::models::{
    copy_opt, copy_strings, lemma_deep_push, ostr, JsonValue, MutationActor, RuntimeModel,
    SessionContextInput, SessionModel, Phase, PhaseModel, Plan, PlanModel, PlanSyncPhaseInput, PlanSyncStepInput,
    PlanSyncSubtaskInput, Step, StepModel, StepStatus, Subtask, SubtaskModel, SubtaskStatus};
use crate::mutations::{copy_runtime, focused, writes_refreshed, EventContext, MutationOutcome, ProjectState};
use crate::plan::{id_is, map_steps};
use crate::runtime::{reconcile_sessions_and_plan, refresh_runtime_state, session_reconciler, step_reconciler};
use crate::sessions::{ensure_session_record, ensure_session_spec};
use crate::text::{
    blank, chars_of, concat3, dec, decimal, eq_ignore_ascii_case, equal_ignoring_ascii_case, is_blank, lowercase,
    opt_view, owned, str_lowercase, trim, trim_str, trimmed_nonblank, trimmed_nonblank_of};

use vstd::prelude::*;

verus! {

// ---------------------------------------------------------------------------
// The input plan
// ---------------------------------------------------------------------------

#[verifier::ext_equal]
pub struct SyncSubtaskModel {
    pub id: Option<Seq<char>>,
    pub title: Seq<char>,
    pub status: Option<SubtaskStatus>,
}

#[verifier::ext_equal]
pub struct SyncStepModel {
    pub id: Option<Seq<char>>,
    pub title: Seq<char>,
    pub summary: Option<Seq<char>>,
    pub details: Option<Seq<Seq<char>>>,
    pub depends_on: Option<Seq<Seq<char>>>,
    pub subtasks: Option<Seq<SyncSubtaskModel>>,
}

#[verifier::ext_equal]
pub struct SyncPhaseModel {
    pub id: Option<Seq<char>>,
    pub title: Seq<char>,
    pub steps: Seq<SyncStepModel>,
}

pub open spec fn opt_strings(o: Option<Vec<String>>) -> Option<Seq<Seq<char>>> {
    match o {
        Some(v) => Some(v.deep_view()),
        None => None,
    }
}

impl View for PlanSyncSubtaskInput {
    type V = SyncSubtaskModel;

    open spec fn view(&self) -> SyncSubtaskModel {
        SyncSubtaskModel { id: opt_view(self.id), title: self.title@, status: self.status }
    }
}

impl DeepView for PlanSyncSubtaskInput {
    type V = SyncSubtaskModel;

    open spec fn deep_view(&self) -> SyncSubtaskModel {
        self@
    }
}

impl View for PlanSyncStepInput {
    type V = SyncStepModel;

    open spec fn view(&self) -> SyncStepModel {
        SyncStepModel {
            id: opt_view(self.id),
            title: self.title@,
            summary: opt_view(self.summary),
            details: opt_strings(self.details),
            depends_on: opt_strings(self.depends_on),
            subtasks: match self.subtasks {
                Some(v) => Some(v.deep_view()),
                None => None,
            },
        }
    }
}

impl DeepView for PlanSyncStepInput {
    type V = SyncStepModel;

    open spec fn deep_view(&self) -> SyncStepModel {
        self@
    }
}

impl View for PlanSyncPhaseInput {
    type V = SyncPhaseModel;

    open spec fn view(&self) -> SyncPhaseModel {
        SyncPhaseModel { id: opt_view(self.id), title: self.title@, steps: self.steps.deep_view() }
    }
}

impl DeepView for PlanSyncPhaseInput {
    type V = SyncPhaseModel;

    open spec fn deep_view(&self) -> SyncPhaseModel {
        self@
    }
}

// ---------------------------------------------------------------------------
// All steps of a plan, in order
// ---------------------------------------------------------------------------

/// The steps of the phases, phase after phase.
pub open spec fn flat_steps(phases: Seq<PhaseModel>) -> Seq<StepModel>
    decreases phases.len(),
{
    if phases.len() == 0 {
        Seq::empty()
    } else {
        flat_steps(phases.drop_last()) + phases.last().steps
    }
}

/// The ids of the steps of the phases, in order.
pub open spec fn flat_ids(phases: Seq<PhaseModel>) -> Seq<Seq<char>> {
    flat_steps(phases).map_values(|s: StepModel| s.id)
}

/// The ids of the phases, in order.
pub open spec fn phase_ids(phases: Seq<PhaseModel>) -> Seq<Seq<char>> {
    phases.map_values(|ph: PhaseModel| ph.id)
}

proof fn lemma_flat_steps_take(phases: Seq<PhaseModel>, i: int)
    requires
        0 <= i < phases.len(),
    ensures
        flat_steps(phases.take(i + 1)) == flat_steps(phases.take(i)) + phases[i].steps,
{
    assert(phases.take(i + 1).drop_last() =~= phases.take(i));
}

/// A copy of every step of the plan, phase after phase.
pub fn all_steps(plan: &Plan) -> (r: Vec<Step>)
    ensures
        r.deep_view() == flat_steps(plan@.phases),
{
    let ghost ps = plan@.phases;
    let mut out: Vec<Step> = Vec::new();
    let mut i: usize = 0;
    while i < plan.phases.len()
        invariant
            ps == plan@.phases,
            i <= ps.len(),
            out.deep_view() == flat_steps(ps.take(i as int)),
        decreases ps.len() - i,
    {
        let ghost before = out.deep_view();
        let ghost steps = ps[i as int].steps;
        assert(plan.phases@[i as int]@ == ps[i as int]);
        let mut j: usize = 0;
        while j < plan.phases[i].steps.len()
            invariant
                ps == plan@.phases,
                i < ps.len(),
                steps == ps[i as int].steps,
                steps == plan.phases@[i as int].steps.deep_view(),
                j <= steps.len(),
                out.deep_view() == before + steps.take(j as int),
            decreases steps.len() - j,
        {
            let s = plan.phases[i].steps[j].clone();
            assert(s.deep_view() == steps[j as int]);
            let ghost prev_out = out;
            let ghost sv = s;
            out.push(s);
            proof {
                lemma_deep_push(prev_out, out, sv);
            }
            assert(steps.take(j as int + 1) =~= steps.take(j as int).push(steps[j as int]));
            assert(out.deep_view() =~= before + steps.take(j as int + 1));
            j += 1;
        }
        proof {
            lemma_flat_steps_take(ps, i as int);
            assert(steps.take(steps.len() as int) =~= steps);
        }
        i += 1;
    }
    assert(ps.take(ps.len() as int) =~= ps);
    out
}

// ---------------------------------------------------------------------------
// Validation
// ---------------------------------------------------------------------------

/// Why a plan is not valid.
#[derive(Debug, PartialEq, Eq)]
pub enum PlanError {
    NoPhases,
    EmptyPhaseId,
    DuplicatePhaseId(String),
    EmptyStepId,
    DuplicateStepId(String),
    UnknownDependency(String),
}

/// [`PlanError`] over character sequences.
pub enum PlanFault {
    NoPhases,
    EmptyPhaseId,
    DuplicatePhaseId(Seq<char>),
    EmptyStepId,
    DuplicateStepId(Seq<char>),
    UnknownDependency(Seq<char>),
}

impl View for PlanError {
    type V = PlanFault;

    open spec fn view(&self) -> PlanFault {
        match self {
            PlanError::NoPhases => PlanFault::NoPhases,
            PlanError::EmptyPhaseId => PlanFault::EmptyPhaseId,
            PlanError::DuplicatePhaseId(id) => PlanFault::DuplicatePhaseId(id@),
            PlanError::EmptyStepId => PlanFault::EmptyStepId,
            PlanError::DuplicateStepId(id) => PlanFault::DuplicateStepId(id@),
            PlanError::UnknownDependency(id) => PlanFault::UnknownDependency(id@),
        }
    }
}

impl PlanError {
    /// The error's message.
    pub fn message(&self) -> (r: String)
        ensures
            r@ == plan_fault_message(self@),
    {
        match self {
            PlanError::NoPhases => owned("plan must contain at least one phase"),
            PlanError::EmptyPhaseId => owned("phase id cannot be empty"),
            PlanError::DuplicatePhaseId(id) => concat3("Duplicate phase id \"", id.as_str(), "\""),
            PlanError::EmptyStepId => owned("step id cannot be empty"),
            PlanError::DuplicateStepId(id) => concat3("Duplicate step id \"", id.as_str(), "\""),
            PlanError::UnknownDependency(id) => concat3("Unknown dependency \"", id.as_str(), "\""),
        }
    }
}

/// The message of each plan fault.
pub open spec fn plan_fault_message(f: PlanFault) -> Seq<char> {
    match f {
        PlanFault::NoPhases => "plan must contain at least one phase"@,
        PlanFault::EmptyPhaseId => "phase id cannot be empty"@,
        PlanFault::DuplicatePhaseId(id) => "Duplicate phase id \""@ + id + "\""@,
        PlanFault::EmptyStepId => "step id cannot be empty"@,
        PlanFault::DuplicateStepId(id) => "Duplicate step id \""@ + id + "\""@,
        PlanFault::UnknownDependency(id) => "Unknown dependency \""@ + id + "\""@,
    }
}

/// The first fault among the first `m` steps of a phase, given the ids of
/// the steps that came before the phase.
pub open spec fn step_fault(steps: Seq<StepModel>, m: int, seen: Seq<Seq<char>>) -> Option<PlanFault>
    decreases m,
{
    if m <= 0 {
        None
    } else {
        match step_fault(steps, m - 1, seen) {
            Some(f) => Some(f),
            None => {
                let id = steps[m - 1].id;
                if is_blank(id) {
                    Some(PlanFault::EmptyStepId)
                } else if (seen + steps.take(m - 1).map_values(|s: StepModel| s.id)).contains(id) {
                    Some(PlanFault::DuplicateStepId(id))
                } else {
                    None
                }
            },
        }
    }
}

/// The first fault of the ids of the first `n` phases and their steps, in
/// the order phase id, then its steps.
pub open spec fn id_fault(phases: Seq<PhaseModel>, n: int) -> Option<PlanFault>
    decreases n,
{
    if n <= 0 {
        None
    } else {
        match id_fault(phases, n - 1) {
            Some(f) => Some(f),
            None => {
                let ph = phases[n - 1];
                if is_blank(ph.id) {
                    Some(PlanFault::EmptyPhaseId)
                } else if phase_ids(phases.take(n - 1)).contains(ph.id) {
                    Some(PlanFault::DuplicatePhaseId(ph.id))
                } else {
                    step_fault(ph.steps, ph.steps.len() as int, flat_ids(phases.take(n - 1)))
                }
            },
        }
    }
}

/// The first dependency, over the steps in order and each step's
/// dependencies in order, that is no step id of `ids`.
pub open spec fn dependency_fault(steps: Seq<StepModel>, ids: Seq<Seq<char>>) -> Option<Seq<char>>
    decreases steps.len(),
{
    if steps.len() == 0 {
        None
    } else {
        match dependency_fault(steps.drop_last(), ids) {
            Some(d) => Some(d),
            None => first_missing(steps.last().depends_on, ids),
        }
    }
}

/// The first of `deps` that `ids` does not contain.
pub open spec fn first_missing(deps: Seq<Seq<char>>, ids: Seq<Seq<char>>) -> Option<Seq<char>>
    decreases deps.len(),
{
    if deps.len() == 0 {
        None
    } else {
        match first_missing(deps.drop_last(), ids) {
            Some(d) => Some(d),
            None => if ids.contains(deps.last()) {
                None
            } else {
                Some(deps.last())
            },
        }
    }
}

/// `validate_plan`: why the plan is invalid, if it is.
pub open spec fn plan_fault(p: PlanModel) -> Option<PlanFault> {
    if p.phases.len() == 0 {
        Some(PlanFault::NoPhases)
    } else {
        match id_fault(p.phases, p.phases.len() as int) {
            Some(f) => Some(f),
            None => match dependency_fault(flat_steps(p.phases), flat_ids(p.phases)) {
                Some(d) => Some(PlanFault::UnknownDependency(d)),
                None => None,
            },
        }
    }
}

/// The first of `deps` that is not among the ids of `ids`.
fn first_missing_of(deps: &Vec<String>, ids: &Vec<String>) -> (r: Option<String>)
    ensures
        ostr(r) == first_missing(deps.deep_view(), ids.deep_view()),
{
    let ghost d = deps.deep_view();
    let mut k: usize = 0;
    while k < deps.len()
        invariant
            d == deps.deep_view(),
            k <= d.len(),
            first_missing(d.take(k as int), ids.deep_view()) is None,
        decreases d.len() - k,
    {
        assert(d.take(k as int + 1).drop_last() =~= d.take(k as int));
        if !used_has(ids, &deps[k]) {
            proof {
                lemma_first_missing_prefix(d, ids.deep_view(), k as int + 1);
            }
            return Some(deps[k].clone());
        }
        k += 1;
    }
    assert(d.take(d.len() as int) =~= d);
    None
}

proof fn lemma_first_missing_prefix(deps: Seq<Seq<char>>, ids: Seq<Seq<char>>, k: int)
    requires
        0 < k <= deps.len(),
        first_missing(deps.take(k), ids) is Some,
    ensures
        first_missing(deps, ids) == first_missing(deps.take(k), ids),
    decreases deps.len() - k,
{
    if k < deps.len() {
        assert(deps.take(k + 1).drop_last() =~= deps.take(k));
        lemma_first_missing_prefix(deps, ids, k + 1);
    } else {
        assert(deps.take(k) =~= deps);
    }
}

proof fn lemma_dependency_fault_prefix(steps: Seq<StepModel>, ids: Seq<Seq<char>>, k: int)
    requires
        0 < k <= steps.len(),
        dependency_fault(steps.take(k), ids) is Some,
    ensures
        dependency_fault(steps, ids) == dependency_fault(steps.take(k), ids),
    decreases steps.len() - k,
{
    if k < steps.len() {
        assert(steps.take(k + 1).drop_last() =~= steps.take(k));
        lemma_dependency_fault_prefix(steps, ids, k + 1);
    } else {
        assert(steps.take(k) =~= steps);
    }
}

proof fn lemma_id_fault_prefix(phases: Seq<PhaseModel>, n: int, m: int)
    requires
        0 < n <= m <= phases.len(),
        id_fault(phases, n) is Some,
    ensures
        id_fault(phases, m) == id_fault(phases, n),
    decreases m - n,
{
    if n < m {
        lemma_id_fault_prefix(phases, n, m - 1);
    }
}

proof fn lemma_step_fault_prefix(steps: Seq<StepModel>, seen: Seq<Seq<char>>, n: int, m: int)
    requires
        0 < n <= m,
        step_fault(steps, n, seen) is Some,
    ensures
        step_fault(steps, m, seen) == step_fault(steps, n, seen),
    decreases m - n,
{
    if n < m {
        lemma_step_fault_prefix(steps, seen, n, m - 1);
    }
}

/// `validate_plan`: the plan must have a phase, non-blank and distinct phase
/// ids, non-blank step ids distinct over the whole plan, and dependencies
/// that name steps of the plan.
pub fn validate_plan(plan: &Plan) -> (r: Result<(), PlanError>)
    ensures
        match r {
            Ok(()) => plan_fault(plan@) is None,
            Err(e) => plan_fault(plan@) == Some(e@),
        },
{
    let ghost ps = plan@.phases;
    if plan.phases.len() == 0 {
        return Err(PlanError::NoPhases);
    }
    let mut phase_seen: Vec<String> = Vec::new();
    let mut step_seen: Vec<String> = Vec::new();
    let mut i: usize = 0;
    while i < plan.phases.len()
        invariant
            ps == plan@.phases,
            ps.len() > 0,
            i <= ps.len(),
            id_fault(ps, i as int) is None,
            phase_seen.deep_view() == phase_ids(ps.take(i as int)),
            step_seen.deep_view() == flat_ids(ps.take(i as int)),
        decreases ps.len() - i,
    {
        let phase = &plan.phases[i];
        let ghost ph = ps[i as int];
        assert(phase@ == ph);
        assert(ps.take(i as int + 1).drop_last() =~= ps.take(i as int));
        if blank(phase.id.as_str()) {
            proof {
                lemma_id_fault_prefix(ps, i as int + 1, ps.len() as int);
            }
            return Err(PlanError::EmptyPhaseId);
        }
        if used_has(&phase_seen, &phase.id) {
            proof {
                lemma_id_fault_prefix(ps, i as int + 1, ps.len() as int);
            }
            return Err(PlanError::DuplicatePhaseId(phase.id.clone()));
        }
        let ghost before = step_seen.deep_view();
        let mut j: usize = 0;
        while j < phase.steps.len()
            invariant
                ps == plan@.phases,
                i < ps.len(),
                ph == ps[i as int],
                phase@ == ph,
                id_fault(ps, i as int) is None,
                !is_blank(ph.id),
                !phase_ids(ps.take(i as int)).contains(ph.id),
                before == flat_ids(ps.take(i as int)),
                j <= ph.steps.len(),
                step_fault(ph.steps, j as int, before) is None,
                step_seen.deep_view() == before + ph.steps.take(j as int).map_values(|s: StepModel| s.id),
            decreases ph.steps.len() - j,
        {
            let step = &phase.steps[j];
            assert(step@ == ph.steps[j as int]);
            if blank(step.id.as_str()) {
                proof {
                    lemma_step_fault_prefix(ph.steps, before, j as int + 1, ph.steps.len() as int);
                    lemma_id_fault_prefix(ps, i as int + 1, ps.len() as int);
                }
                return Err(PlanError::EmptyStepId);
            }
            if used_has(&step_seen, &step.id) {
                proof {
                    lemma_step_fault_prefix(ph.steps, before, j as int + 1, ph.steps.len() as int);
                    lemma_id_fault_prefix(ps, i as int + 1, ps.len() as int);
                }
                return Err(PlanError::DuplicateStepId(step.id.clone()));
            }
            let sid = step.id.clone();
            let ghost prev_seen = step_seen;
            let ghost sv = sid;
            step_seen.push(sid);
            proof {
                lemma_deep_push(prev_seen, step_seen, sv);
            }
            assert(ph.steps.take(j as int + 1) =~= ph.steps.take(j as int).push(ph.steps[j as int]));
            assert(ph.steps.take(j as int + 1).map_values(|s: StepModel| s.id) =~= ph.steps.take(
                j as int,
            ).map_values(|s: StepModel| s.id).push(ph.steps[j as int].id));
            assert(step_seen.deep_view() =~= before + ph.steps.take(j as int + 1).map_values(
                |s: StepModel| s.id,
            ));
            j += 1;
        }
        phase_seen.push(phase.id.clone());
        proof {
            assert(ph.steps.take(ph.steps.len() as int) =~= ph.steps);
            lemma_flat_steps_take(ps, i as int);
            assert(flat_ids(ps.take(i as int + 1)) =~= before + ph.steps.map_values(|s: StepModel| s.id));
            assert(phase_ids(ps.take(i as int + 1)) =~= phase_ids(ps.take(i as int)).push(ph.id));
        }
        i += 1;
    }
    assert(ps.take(ps.len() as int) =~= ps);
    let steps = all_steps(plan);
    let ghost fs = steps.deep_view();
    let mut k: usize = 0;
    while k < steps.len()
        invariant
            fs == steps.deep_view(),
            fs == flat_steps(ps),
            step_seen.deep_view() == flat_ids(ps),
            id_fault(ps, ps.len() as int) is None,
            ps.len() > 0,
            ps == plan@.phases,
            k <= fs.len(),
            dependency_fault(fs.take(k as int), flat_ids(ps)) is None,
        decreases fs.len() - k,
    {
        assert(fs.take(k as int + 1).drop_last() =~= fs.take(k as int));
        assert(steps@[k as int]@ == fs[k as int]);
        match first_missing_of(&steps[k].depends_on, &step_seen) {
            Some(d) => {
                proof {
                    lemma_dependency_fault_prefix(fs, flat_ids(ps), k as int + 1);
                }
                return Err(PlanError::UnknownDependency(d));
            },
            None => {},
        }
        k += 1;
    }
    assert(fs.take(fs.len() as int) =~= fs);
    Ok(())
}


// ---------------------------------------------------------------------------
// Searching the previous plan
// ---------------------------------------------------------------------------

/// The last index of `s` whose element satisfies `pred` (what a map built
/// from `s` keeps when keys repeat).
pub open spec fn last_index<A>(s: Seq<A>, pred: spec_fn(A) -> bool) -> Option<int>
    decreases s.len(),
{
    if s.len() == 0 {
        None
    } else if pred(s.last()) {
        Some(s.len() - 1)
    } else {
        last_index(s.drop_last(), pred)
    }
}

/// The first index of `s` whose element satisfies `pred`.
pub open spec fn first_index<A>(s: Seq<A>, pred: spec_fn(A) -> bool) -> Option<int>
    decreases s.len(),
{
    if s.len() == 0 {
        None
    } else {
        match first_index(s.drop_last(), pred) {
            Some(i) => Some(i),
            None => if pred(s.last()) {
                Some(s.len() - 1)
            } else {
                None
            },
        }
    }
}

pub proof fn lemma_last_index_range<A>(s: Seq<A>, pred: spec_fn(A) -> bool)
    ensures
        last_index(s, pred) matches Some(i) ==> 0 <= i < s.len() && pred(s[i]),
    decreases s.len(),
{
    if s.len() > 0 {
        lemma_last_index_range(s.drop_last(), pred);
    }
}

pub proof fn lemma_first_index_range<A>(s: Seq<A>, pred: spec_fn(A) -> bool)
    ensures
        first_index(s, pred) matches Some(i) ==> 0 <= i < s.len() && pred(s[i]),
    decreases s.len(),
{
    if s.len() > 0 {
        lemma_first_index_range(s.drop_last(), pred);
    }
}

pub proof fn lemma_first_index_prefix<A>(s: Seq<A>, pred: spec_fn(A) -> bool, k: int)
    requires
        0 < k <= s.len(),
        first_index(s.take(k), pred) is Some,
    ensures
        first_index(s, pred) == first_index(s.take(k), pred),
    decreases s.len() - k,
{
    if k < s.len() {
        assert(s.take(k + 1).drop_last() =~= s.take(k));
        lemma_first_index_prefix(s, pred, k + 1);
    } else {
        assert(s.take(k) =~= s);
    }
}

/// An index as a mathematical integer.
pub open spec fn oidx(r: Option<usize>) -> Option<int> {
    match r {
        Some(i) => Some(i as int),
        None => None,
    }
}

/// The key under which a title is looked up: trimmed, then lowercased.
pub open spec fn title_key(t: Seq<char>) -> Seq<char> {
    str_lowercase(trim(t))
}

/// The predicate "the step's title has the key `key`".
pub open spec fn key_is(key: Seq<char>) -> spec_fn(StepModel) -> bool {
    |s: StepModel| title_key(s.title) == key
}

/// The predicate "the step's title equals `t` but for ASCII case".
pub open spec fn title_ci(t: Seq<char>) -> spec_fn(StepModel) -> bool {
    |s: StepModel| eq_ignore_ascii_case(s.title, t)
}

/// The predicate "the subtask's id is `id`".
pub open spec fn sub_id_is(id: Seq<char>) -> spec_fn(SubtaskModel) -> bool {
    |s: SubtaskModel| s.id == id
}

/// The predicate "the subtask's title has the key `key`".
pub open spec fn sub_key_is(key: Seq<char>) -> spec_fn(SubtaskModel) -> bool {
    |s: SubtaskModel| title_key(s.title) == key
}

/// The key of a title: `title.trim().to_lowercase()`.
pub fn key_of(t: &str) -> (r: String)
    ensures
        r@ == title_key(t@),
{
    let tr = trim_str(t);
    lowercase(tr.as_str())
}

/// The last step with the id.
fn last_step_with_id(steps: &Vec<Step>, id: &String) -> (r: Option<usize>)
    ensures
        oidx(r) == last_index(steps.deep_view(), id_is(id@)),
{
    let ghost s = steps.deep_view();
    let mut found: Option<usize> = None;
    let mut k: usize = 0;
    while k < steps.len()
        invariant
            s == steps.deep_view(),
            k <= s.len(),
            oidx(found) == last_index(s.take(k as int), id_is(id@)),
        decreases s.len() - k,
    {
        assert(s.take(k as int + 1).drop_last() =~= s.take(k as int));
        assert(s.take(k as int + 1).last() == steps@[k as int]@);
        if steps[k].id == *id {
            found = Some(k);
        }
        k += 1;
    }
    assert(s.take(s.len() as int) =~= s);
    found
}

/// The last step whose title has the key.
fn last_step_with_key(steps: &Vec<Step>, key: &String) -> (r: Option<usize>)
    ensures
        oidx(r) == last_index(steps.deep_view(), key_is(key@)),
{
    let ghost s = steps.deep_view();
    let mut found: Option<usize> = None;
    let mut k: usize = 0;
    while k < steps.len()
        invariant
            s == steps.deep_view(),
            k <= s.len(),
            oidx(found) == last_index(s.take(k as int), key_is(key@)),
        decreases s.len() - k,
    {
        assert(s.take(k as int + 1).drop_last() =~= s.take(k as int));
        assert(s.take(k as int + 1).last() == steps@[k as int]@);
        let kk = key_of(steps[k].title.as_str());
        if kk == *key {
            found = Some(k);
        }
        k += 1;
    }
    assert(s.take(s.len() as int) =~= s);
    found
}

/// The first step whose title equals `title` but for ASCII case.
fn first_step_with_title(steps: &Vec<Step>, title: &str) -> (r: Option<usize>)
    ensures
        oidx(r) == first_index(steps.deep_view(), title_ci(title@)),
{
    let ghost s = steps.deep_view();
    let t = chars_of(title);
    let mut k: usize = 0;
    while k < steps.len()
        invariant
            s == steps.deep_view(),
            t@ == title@,
            k <= s.len(),
            first_index(s.take(k as int), title_ci(title@)) is None,
        decreases s.len() - k,
    {
        assert(s.take(k as int + 1).drop_last() =~= s.take(k as int));
        assert(s.take(k as int + 1).last() == steps@[k as int]@);
        let c = chars_of(steps[k].title.as_str());
        if equal_ignoring_ascii_case(&c, &t) {
            proof {
                lemma_first_index_prefix(s, title_ci(title@), k as int + 1);
            }
            return Some(k);
        }
        k += 1;
    }
    assert(s.take(s.len() as int) =~= s);
    None
}

/// The last subtask with the id.
fn last_subtask_with_id(subs: &Vec<Subtask>, id: &String) -> (r: Option<usize>)
    ensures
        oidx(r) == last_index(subs.deep_view(), sub_id_is(id@)),
{
    let ghost s = subs.deep_view();
    let mut found: Option<usize> = None;
    let mut k: usize = 0;
    while k < subs.len()
        invariant
            s == subs.deep_view(),
            k <= s.len(),
            oidx(found) == last_index(s.take(k as int), sub_id_is(id@)),
        decreases s.len() - k,
    {
        assert(s.take(k as int + 1).drop_last() =~= s.take(k as int));
        assert(s.take(k as int + 1).last() == subs@[k as int]@);
        if subs[k].id == *id {
            found = Some(k);
        }
        k += 1;
    }
    assert(s.take(s.len() as int) =~= s);
    found
}

/// The last subtask whose title has the key.
fn last_subtask_with_key(subs: &Vec<Subtask>, key: &String) -> (r: Option<usize>)
    ensures
        oidx(r) == last_index(subs.deep_view(), sub_key_is(key@)),
{
    let ghost s = subs.deep_view();
    let mut found: Option<usize> = None;
    let mut k: usize = 0;
    while k < subs.len()
        invariant
            s == subs.deep_view(),
            k <= s.len(),
            oidx(found) == last_index(s.take(k as int), sub_key_is(key@)),
        decreases s.len() - k,
    {
        assert(s.take(k as int + 1).drop_last() =~= s.take(k as int));
        assert(s.take(k as int + 1).last() == subs@[k as int]@);
        let kk = key_of(subs[k].title.as_str());
        if kk == *key {
            found = Some(k);
        }
        k += 1;
    }
    assert(s.take(s.len() as int) =~= s);
    found
}

// ---------------------------------------------------------------------------
// The synchronised plan
// ---------------------------------------------------------------------------

/// Which previous step an input step continues: the last one with its id,
/// else the last one whose title has the same key, else the first one whose
/// title equals it but for ASCII case.
pub open spec fn previous_index(prev: Seq<StepModel>, inp: SyncStepModel) -> Option<int> {
    let by_id = match inp.id {
        Some(id) => last_index(prev, id_is(id)),
        None => None,
    };
    match by_id {
        Some(i) => Some(i),
        None => match last_index(prev, key_is(title_key(inp.title))) {
            Some(i) => Some(i),
            None => first_index(prev, title_ci(inp.title)),
        },
    }
}

/// Which previous subtask an input subtask continues: the last one with its
/// id, else the last one whose title has the same key.
pub open spec fn previous_subtask_index(prev: Seq<SubtaskModel>, inp: SyncSubtaskModel) -> Option<int> {
    let by_id = match inp.id {
        Some(id) => last_index(prev, sub_id_is(id)),
        None => None,
    };
    match by_id {
        Some(i) => Some(i),
        None => last_index(prev, sub_key_is(title_key(inp.title))),
    }
}

/// The subtasks synchronised from the inputs, with the ids they used.
pub open spec fn synced_subtasks(prev: Seq<SubtaskModel>, inputs: Seq<SyncSubtaskModel>) -> (
    Seq<SubtaskModel>,
    Seq<Seq<char>>,
)
    decreases inputs.len(),
{
    if inputs.len() == 0 {
        (Seq::empty(), Seq::empty())
    } else {
        let (done, used) = synced_subtasks(prev, inputs.drop_last());
        let inp = inputs.last();
        let pi = previous_subtask_index(prev, inp);
        let base = match trimmed_nonblank(inp.id) {
            Some(t) => t,
            None => match pi {
                Some(i) => prev[i].id,
                None => slug_or(inp.title, "subtask"@),
            },
        };
        let id = unique(base, used);
        let status = match inp.status {
            Some(st) => st,
            None => match pi {
                Some(i) => prev[i].status,
                None => SubtaskStatus::Todo,
            },
        };
        (done.push(SubtaskModel { id, title: inp.title, status }), used.push(id))
    }
}

/// The id of a synchronised step, with the step ids used afterwards: the
/// input id (trimmed), else the previous step's id, made unique; if that
/// gives the empty id, a fresh one from the title.
pub open spec fn synced_step_id(inp: SyncStepModel, prev: Option<StepModel>, used: Seq<Seq<char>>) -> (
    Seq<char>,
    Seq<Seq<char>>,
) {
    let base = match trimmed_nonblank(inp.id) {
        Some(t) => t,
        None => match prev {
            Some(p) => p.id,
            None => ""@,
        },
    };
    let first = unique(base, used);
    let used1 = used.push(first);
    if first.len() == 0 {
        let second = unique(slug_or(inp.title, "step"@), used1);
        (second, used1.push(second))
    } else {
        (first, used1)
    }
}

/// The previous step at an index, if any.
pub open spec fn step_at(prev: Seq<StepModel>, i: Option<int>) -> Option<StepModel> {
    match i {
        Some(k) => Some(prev[k]),
        None => None,
    }
}

/// A synchronised step, with the step ids used afterwards.
pub open spec fn synced_step(prev_all: Seq<StepModel>, inp: SyncStepModel, used: Seq<Seq<char>>) -> (
    StepModel,
    Seq<Seq<char>>,
) {
    let prev = step_at(prev_all, previous_index(prev_all, inp));
    let (id, used2) = synced_step_id(inp, prev, used);
    let prev_subs = match prev {
        Some(p) => p.subtasks,
        None => Seq::empty(),
    };
    let sub_inputs = match inp.subtasks {
        Some(v) => v,
        None => Seq::empty(),
    };
    let step = StepModel {
        id,
        title: inp.title,
        summary: match trimmed_nonblank(inp.summary) {
            Some(t) => t,
            None => match prev {
                Some(p) => p.summary,
                None => ""@,
            },
        },
        status: match prev {
            Some(p) => p.status,
            None => StepStatus::Todo,
        },
        depends_on: match inp.depends_on {
            Some(d) => d,
            None => match prev {
                Some(p) => p.depends_on,
                None => Seq::empty(),
            },
        },
        details: match inp.details {
            Some(d) => d,
            None => match prev {
                Some(p) => p.details,
                None => Seq::empty(),
            },
        },
        subtasks: synced_subtasks(prev_subs, sub_inputs).0,
        owner_session_id: match prev {
            Some(p) => p.owner_session_id,
            None => None,
        },
        completed_at: match prev {
            Some(p) => p.completed_at,
            None => None,
        },
        completed_by: match prev {
            Some(p) => p.completed_by,
            None => None,
        },
    };
    (step, used2)
}

/// The synchronised steps of one phase, with the step ids used afterwards.
pub open spec fn synced_steps(prev_all: Seq<StepModel>, inputs: Seq<SyncStepModel>, used: Seq<Seq<char>>) -> (
    Seq<StepModel>,
    Seq<Seq<char>>,
)
    decreases inputs.len(),
{
    if inputs.len() == 0 {
        (Seq::empty(), used)
    } else {
        let (done, used1) = synced_steps(prev_all, inputs.drop_last(), used);
        let (step, used2) = synced_step(prev_all, inputs.last(), used1);
        (done.push(step), used2)
    }
}

/// The synchronised phases, with the phase ids and step ids used.
pub open spec fn synced_phases(prev_all: Seq<StepModel>, inputs: Seq<SyncPhaseModel>) -> (
    Seq<PhaseModel>,
    Seq<Seq<char>>,
    Seq<Seq<char>>,
)
    decreases inputs.len(),
{
    if inputs.len() == 0 {
        (Seq::empty(), Seq::empty(), Seq::empty())
    } else {
        let (done, phase_used, step_used) = synced_phases(prev_all, inputs.drop_last());
        let inp = inputs.last();
        let base = match trimmed_nonblank(inp.id) {
            Some(t) => t,
            None => slug_or(inp.title, "phase"@),
        };
        let id = unique(base, phase_used);
        let (steps, step_used2) = synced_steps(prev_all, inp.steps, step_used);
        (done.push(PhaseModel { id, title: inp.title, steps }), phase_used.push(id), step_used2)
    }
}

/// `build_synced_plan` before validation: the input phases, each step and
/// subtask continuing the previous one it matches.
pub open spec fn synced_plan(prev: PlanModel, inputs: Seq<SyncPhaseModel>) -> PlanModel {
    PlanModel { version: 2, phases: synced_phases(flat_steps(prev.phases), inputs).0 }
}

/// Which previous step an input step continues.
fn previous_step_of(prev: &Vec<Step>, inp: &PlanSyncStepInput) -> (r: Option<usize>)
    ensures
        oidx(r) == previous_index(prev.deep_view(), inp@),
        r matches Some(i) ==> i < prev@.len(),
{
    let ghost s = prev.deep_view();
    proof {
        lemma_last_index_range(s, key_is(title_key(inp@.title)));
        lemma_first_index_range(s, title_ci(inp@.title));
    }
    let by_id = match &inp.id {
        Some(id) => {
            proof {
                lemma_last_index_range(s, id_is(id@));
            }
            last_step_with_id(prev, id)
        },
        None => None,
    };
    match by_id {
        Some(i) => Some(i),
        None => {
            let key = key_of(inp.title.as_str());
            match last_step_with_key(prev, &key) {
                Some(i) => Some(i),
                None => first_step_with_title(prev, inp.title.as_str()),
            }
        },
    }
}

/// Which previous subtask an input subtask continues.
fn previous_subtask_of(prev: &Vec<Subtask>, inp: &PlanSyncSubtaskInput) -> (r: Option<usize>)
    ensures
        oidx(r) == previous_subtask_index(prev.deep_view(), inp@),
        r matches Some(i) ==> i < prev@.len(),
{
    let ghost s = prev.deep_view();
    proof {
        lemma_last_index_range(s, sub_key_is(title_key(inp@.title)));
    }
    let by_id = match &inp.id {
        Some(id) => {
            proof {
                lemma_last_index_range(s, sub_id_is(id@));
            }
            last_subtask_with_id(prev, id)
        },
        None => None,
    };
    match by_id {
        Some(i) => Some(i),
        None => {
            let key = key_of(inp.title.as_str());
            last_subtask_with_key(prev, &key)
        },
    }
}

/// The synchronised subtasks of a step.
fn sync_subtasks(prev: &Vec<Subtask>, inputs: &Vec<PlanSyncSubtaskInput>) -> (r: Vec<Subtask>)
    ensures
        r.deep_view() == synced_subtasks(prev.deep_view(), inputs.deep_view()).0,
{
    let ghost ps = prev.deep_view();
    let ghost ins = inputs.deep_view();
    let mut out: Vec<Subtask> = Vec::new();
    let mut used: Vec<String> = Vec::new();
    let mut k: usize = 0;
    assert(ins.take(0) =~= Seq::<SyncSubtaskModel>::empty());
    while k < inputs.len()
        invariant
            ps == prev.deep_view(),
            ins == inputs.deep_view(),
            k <= ins.len(),
            (out.deep_view(), used.deep_view()) == synced_subtasks(ps, ins.take(k as int)),
        decreases ins.len() - k,
    {
        let inp = &inputs[k];
        assert(inp@ == ins[k as int]);
        assert(ins.take(k as int + 1).drop_last() =~= ins.take(k as int));
        assert(ins.take(k as int + 1).last() == ins[k as int]);
        let pi = previous_subtask_of(prev, inp);
        let base = match trimmed_nonblank_of(&inp.id) {
            Some(t) => t,
            None => match pi {
                Some(i) => prev[i].id.clone(),
                None => subtask_id_from_title(inp.title.as_str()),
            },
        };
        let id = unique_id(base.as_str(), &mut used);
        let status = match inp.status {
            Some(st) => st,
            None => match pi {
                Some(i) => prev[i].status,
                None => SubtaskStatus::Todo,
            },
        };
        let sub = Subtask { id, title: inp.title.clone(), status };
        let ghost prev_out = out;
        let ghost sv = sub;
        out.push(sub);
        proof {
            lemma_deep_push(prev_out, out, sv);
        }
        k += 1;
    }
    assert(ins.take(ins.len() as int) =~= ins);
    out
}

/// A copy of an optional list of strings, or of a fallback when it is absent.
fn strings_or(v: &Option<Vec<String>>, fallback: &Vec<String>) -> (r: Vec<String>)
    ensures
        r.deep_view() == match opt_strings(*v) {
            Some(d) => d,
            None => fallback.deep_view(),
        },
{
    match v {
        Some(d) => copy_strings(d),
        None => copy_strings(fallback),
    }
}

/// One synchronised step; its ids are recorded in `used`.
fn sync_step(prev: &Vec<Step>, inp: &PlanSyncStepInput, used: &mut Vec<String>) -> (r: Step)
    ensures
        (r@, final(used).deep_view()) == synced_step(prev.deep_view(), inp@, old(used).deep_view()),
{
    let ghost s = prev.deep_view();
    let pi = previous_step_of(prev, inp);
    let ghost pm = step_at(s, previous_index(s, inp@));
    assert(pi matches Some(i) ==> pm == Some(prev@[i as int]@));
    assert(pi is None ==> pm is None);
    let ghost u0 = used.deep_view();
    let ghost (sid, su) = synced_step_id(inp@, pm, u0);
    proof {
        reveal_strlit("");
    }
    let empty_strings: Vec<String> = Vec::new();
    let empty_subtasks: Vec<Subtask> = Vec::new();
    let empty_inputs: Vec<PlanSyncSubtaskInput> = Vec::new();
    let base = match trimmed_nonblank_of(&inp.id) {
        Some(t) => t,
        None => match pi {
            Some(i) => prev[i].id.clone(),
            None => String::new(),
        },
    };
    assert(base@ == match trimmed_nonblank(inp@.id) {
        Some(t) => t,
        None => match pm {
            Some(p) => p.id,
            None => ""@,
        },
    });
    let first = unique_id(base.as_str(), used);
    let id = if first.unicode_len() == 0 {
        let fresh = step_id_from_title(inp.title.as_str());
        unique_id(fresh.as_str(), used)
    } else {
        first
    };
    assert(id@ == sid);
    assert(used.deep_view() == su);
    let prev_subs = match pi {
        Some(i) => &prev[i].subtasks,
        None => &empty_subtasks,
    };
    let sub_inputs = match &inp.subtasks {
        Some(v) => v,
        None => &empty_inputs,
    };
    assert(empty_subtasks.deep_view() =~= Seq::<SubtaskModel>::empty());
    assert(empty_inputs.deep_view() =~= Seq::<SyncSubtaskModel>::empty());
    assert(prev_subs.deep_view() == match pm {
        Some(p) => p.subtasks,
        None => Seq::empty(),
    });
    assert(sub_inputs.deep_view() == match inp@.subtasks {
        Some(v) => v,
        None => Seq::empty(),
    });
    let subtasks = sync_subtasks(prev_subs, sub_inputs);
    let summary = match trimmed_nonblank_of(&inp.summary) {
        Some(t) => t,
        None => match pi {
            Some(i) => prev[i].summary.clone(),
            None => String::new(),
        },
    };
    let (status, owner, completed_at, completed_by) = match pi {
        Some(i) => (
            prev[i].status,
            prev[i].owner_session_id.clone(),
            prev[i].completed_at.clone(),
            prev[i].completed_by.clone(),
        ),
        None => (StepStatus::Todo, None, None, None),
    };
    let depends_on = match pi {
        Some(i) => strings_or(&inp.depends_on, &prev[i].depends_on),
        None => strings_or(&inp.depends_on, &empty_strings),
    };
    let details = match pi {
        Some(i) => strings_or(&inp.details, &prev[i].details),
        None => strings_or(&inp.details, &empty_strings),
    };
    let step = Step {
        id,
        title: inp.title.clone(),
        summary,
        status,
        depends_on,
        details,
        subtasks,
        owner_session_id: owner,
        completed_at,
        completed_by,
    };
    assert(subtasks.deep_view() == synced_step(s, inp@, u0).0.subtasks);
    assert(summary@ == synced_step(s, inp@, u0).0.summary);
    assert(depends_on.deep_view() == synced_step(s, inp@, u0).0.depends_on);
    assert(details.deep_view() == synced_step(s, inp@, u0).0.details);
    assert(ostr(owner) == synced_step(s, inp@, u0).0.owner_session_id);
    assert(step@ =~= synced_step(s, inp@, u0).0);
    step
}

/// The synchronised steps of one phase; their ids are recorded in `used`.
fn sync_steps(prev: &Vec<Step>, inputs: &Vec<PlanSyncStepInput>, used: &mut Vec<String>) -> (r: Vec<Step>)
    ensures
        (r.deep_view(), final(used).deep_view()) == synced_steps(
            prev.deep_view(),
            inputs.deep_view(),
            old(used).deep_view(),
        ),
{
    let ghost s = prev.deep_view();
    let ghost ins = inputs.deep_view();
    let ghost u0 = used.deep_view();
    let mut out: Vec<Step> = Vec::new();
    let mut k: usize = 0;
    assert(ins.take(0) =~= Seq::<SyncStepModel>::empty());
    while k < inputs.len()
        invariant
            s == prev.deep_view(),
            ins == inputs.deep_view(),
            k <= ins.len(),
            (out.deep_view(), used.deep_view()) == synced_steps(s, ins.take(k as int), u0),
        decreases ins.len() - k,
    {
        let inp = &inputs[k];
        assert(inp@ == ins[k as int]);
        assert(ins.take(k as int + 1).drop_last() =~= ins.take(k as int));
        assert(ins.take(k as int + 1).last() == ins[k as int]);
        let step = sync_step(prev, inp, used);
        let ghost prev_out = out;
        let ghost sv = step;
        out.push(step);
        proof {
            lemma_deep_push(prev_out, out, sv);
        }
        k += 1;
    }
    assert(ins.take(ins.len() as int) =~= ins);
    out
}

/// The synchronised phases.
fn sync_phases(prev: &Vec<Step>, inputs: &Vec<PlanSyncPhaseInput>) -> (r: Vec<Phase>)
    ensures
        r.deep_view() == synced_phases(prev.deep_view(), inputs.deep_view()).0,
{
    let ghost s = prev.deep_view();
    let ghost ins = inputs.deep_view();
    let mut out: Vec<Phase> = Vec::new();
    let mut phase_used: Vec<String> = Vec::new();
    let mut step_used: Vec<String> = Vec::new();
    let mut k: usize = 0;
    assert(ins.take(0) =~= Seq::<SyncPhaseModel>::empty());
    while k < inputs.len()
        invariant
            s == prev.deep_view(),
            ins == inputs.deep_view(),
            k <= ins.len(),
            (out.deep_view(), phase_used.deep_view(), step_used.deep_view()) == synced_phases(
                s,
                ins.take(k as int),
            ),
        decreases ins.len() - k,
    {
        let inp = &inputs[k];
        assert(inp@ == ins[k as int]);
        assert(ins.take(k as int + 1).drop_last() =~= ins.take(k as int));
        assert(ins.take(k as int + 1).last() == ins[k as int]);
        let base = match trimmed_nonblank_of(&inp.id) {
            Some(t) => t,
            None => phase_id_from_title(inp.title.as_str()),
        };
        let id = unique_id(base.as_str(), &mut phase_used);
        let steps = sync_steps(prev, &inp.steps, &mut step_used);
        let phase = Phase { id, title: inp.title.clone(), steps };
        let ghost prev_out = out;
        let ghost pv = phase;
        out.push(phase);
        proof {
            lemma_deep_push(prev_out, out, pv);
        }
        k += 1;
    }
    assert(ins.take(ins.len() as int) =~= ins);
    out
}

/// `build_synced_plan`: the plan the input phases describe, each step and
/// subtask keeping the id, status and history of the previous one it
/// continues, validated.
pub fn build_synced_plan(previous: &Plan, phases: &Vec<PlanSyncPhaseInput>) -> (r: Result<Plan, PlanError>)
    ensures
        match r {
            Ok(p) => p@ == synced_plan(previous@, phases.deep_view()) && plan_fault(p@) is None,
            Err(e) => plan_fault(synced_plan(previous@, phases.deep_view())) == Some(e@),
        },
{
    let prev = all_steps(previous);
    let next = sync_phases(&prev, phases);
    let plan = Plan { version: 2, phases: next };
    assert(plan@ =~= synced_plan(previous@, phases.deep_view()));
    match validate_plan(&plan) {
        Ok(()) => Ok(plan),
        Err(e) => Err(e),
    }
}

// ---------------------------------------------------------------------------
// The mutation
// ---------------------------------------------------------------------------

/// Whether `v` is a JSON object with the one member `key`, a number written
/// `digits`.
pub open spec fn number_object(v: JsonValue, key: Seq<char>, digits: Seq<char>) -> bool {
    match v {
        JsonValue::Object(fields) => {
            &&& fields@.len() == 1
            &&& fields@[0].0@ == key
            &&& fields@[0].1 matches JsonValue::Number(n) && n@ == digits
        },
        _ => false,
    }
}

/// What `sync_plan` produces from the synchronised plan `p1` with the
/// resumed or created session `sess`.
pub open spec fn synced_written(
    out: MutationOutcome,
    st: (RuntimeModel, u32),
    p1: PlanModel,
    sess: SessionModel,
    ss1: Seq<SessionModel>,
    branch: Option<Seq<char>>,
    now: Seq<char>,
) -> bool {
    let (rt, version) = st;
    let p2 = map_steps(p1, step_reconciler(ss1));
    let ss2 = ss1.map_values(session_reconciler(p1));
    &&& writes_refreshed(out, p2, ss2, version, focused(rt, Some(sess.id), now), branch, now)
    &&& out.write_proposals is None
    &&& out.summary@ == "Synced canonical project plan"@
    &&& out.event_type@ == "plan.synced"@
    &&& number_object(out.payload, "phaseCount"@, dec(p1.phases.len()))
    &&& ostr(out.event_context.session_id) == Some(sess.id)
    &&& (out.write_runtime matches Some(wr) && ostr(out.event_context.step_id) == wr@.current_step_id)
    &&& out.event_context.subtask_id is None
}

/// `sync_plan`: replaces the plan by the one the input phases describe (see
/// [`build_synced_plan`]), resumes or creates the session, reconciles
/// ownership and refreshes the runtime; refused when the new plan is not
/// valid.
pub fn sync_plan(
    state: ProjectState,
    phases: &Vec<PlanSyncPhaseInput>,
    actor: &MutationActor,
    context: &SessionContextInput,
    branch: Option<String>,
    now: &str,
) -> (r: Result<MutationOutcome, PlanError>)
    ensures
        ({
            let p1 = synced_plan(state.plan@, phases.deep_view());
            match r {
                Err(e) => plan_fault(p1) == Some(e@),
                Ok(out) => {
                    &&& plan_fault(p1) is None
                    &&& exists|ss1: Seq<SessionModel>, sess: SessionModel|
                        #[trigger] ensure_session_spec(state.sessions.sessions.deep_view(), ss1, sess,
                            actor.actor@, actor.source, ostr(branch), ostr(context.session_id),
                            ostr(context.session_title), now@)
                        && synced_written(out, (state.runtime@, state.sessions.version), p1, sess, ss1,
                            ostr(branch), now@)
                },
            }
        }),
{
    let ProjectState { plan, runtime, sessions, proposals: _ } = state;
    let mut sessions = sessions;
    let mut next_plan = match build_synced_plan(&plan, phases) {
        Ok(p) => p,
        Err(e) => {
            return Err(e);
        },
    };
    let ghost p1 = next_plan@;
    let session = ensure_session_record(&mut sessions, actor, copy_opt(&branch), context, now);
    let ghost ss1 = sessions.sessions.deep_view();
    reconcile_sessions_and_plan(&mut next_plan, &mut sessions);
    let phase_count = next_plan.phases.len();
    assert(next_plan@.phases.len() == p1.phases.len());
    let mut rt_in = copy_runtime(&runtime);
    rt_in.focus_session_id = Some(session.id.clone());
    rt_in.last_updated_at = owned(now);
    let next_runtime = refresh_runtime_state(&mut next_plan, &rt_in, &mut sessions, copy_opt(&branch), now);
    let step_id = copy_opt(&next_runtime.current_step_id);
    let mut fields: Vec<(String, JsonValue)> = Vec::new();
    fields.push((owned("phaseCount"), JsonValue::Number(decimal(phase_count as u128))));
    let out = MutationOutcome {
        summary: owned("Synced canonical project plan"),
        event_type: owned("plan.synced"),
        payload: JsonValue::Object(fields),
        write_plan: Some(next_plan),
        write_runtime: Some(next_runtime),
        write_sessions: Some(sessions),
        write_proposals: None,
        event_context: EventContext { session_id: Some(session.id.clone()), step_id, subtask_id: None },
    };
    assert(synced_written(out, (runtime@, state.sessions.version), p1, session@, ss1, ostr(branch), now@));
    Ok(out)
}

// ---------------------------------------------------------------------------
// Synchronising the same input again
// ---------------------------------------------------------------------------

/// The steps of the input phases, phase after phase.
pub open spec fn input_steps(inputs: Seq<SyncPhaseModel>) -> Seq<SyncStepModel>
    decreases inputs.len(),
{
    if inputs.len() == 0 {
        Seq::empty()
    } else {
        input_steps(inputs.drop_last()) + inputs.last().steps
    }
}

/// The subtasks synchronised from the first `n` inputs are the first `n`
/// of those synchronised from all, and each has its input's title.
pub proof fn lemma_synced_subtasks_prefix(prev: Seq<SubtaskModel>, ins: Seq<SyncSubtaskModel>, n: int)
    requires
        0 <= n <= ins.len(),
    ensures
        synced_subtasks(prev, ins).0.len() == ins.len(),
        synced_subtasks(prev, ins).0.take(n) == synced_subtasks(prev, ins.take(n)).0,
        forall|j: int| 0 <= j < ins.len() ==> (#[trigger] synced_subtasks(prev, ins).0[j]).title == ins[j].title,
    decreases ins.len(),
{
    if ins.len() == 0 {
        assert(ins.take(n) =~= ins);
    } else {
        let m = ins.len() - 1;
        let init = ins.drop_last();
        lemma_synced_subtasks_prefix(prev, init, if n <= m { n } else { m });
        let all = synced_subtasks(prev, ins).0;
        let done = synced_subtasks(prev, init).0;
        assert(all == done.push(all[m]));
        if n <= m {
            assert(init.take(n) =~= ins.take(n));
            assert(all.take(n) =~= done.take(n));
        } else {
            assert(ins.take(n) =~= ins);
            assert(all.take(n) =~= all);
        }
        assert forall|j: int| 0 <= j < ins.len() implies (#[trigger] all[j]).title == ins[j].title by {
            if j < m {
                assert(all[j] == done[j]);
                assert(init[j] == ins[j]);
            }
        }
    }
}

/// The same for the steps of a phase.
pub proof fn lemma_synced_steps_prefix(prev: Seq<StepModel>, ins: Seq<SyncStepModel>, used: Seq<Seq<char>>, n: int)
    requires
        0 <= n <= ins.len(),
    ensures
        synced_steps(prev, ins, used).0.len() == ins.len(),
        synced_steps(prev, ins, used).0.take(n) == synced_steps(prev, ins.take(n), used).0,
        forall|j: int| 0 <= j < ins.len() ==> (#[trigger] synced_steps(prev, ins, used).0[j]).title == ins[j].title,
    decreases ins.len(),
{
    if ins.len() == 0 {
        assert(ins.take(n) =~= ins);
    } else {
        let m = ins.len() - 1;
        let init = ins.drop_last();
        lemma_synced_steps_prefix(prev, init, used, if n <= m { n } else { m });
        let all = synced_steps(prev, ins, used).0;
        let done = synced_steps(prev, init, used).0;
        assert(all == done.push(all[m]));
        if n <= m {
            assert(init.take(n) =~= ins.take(n));
            assert(all.take(n) =~= done.take(n));
        } else {
            assert(ins.take(n) =~= ins);
            assert(all.take(n) =~= all);
        }
        assert forall|j: int| 0 <= j < ins.len() implies (#[trigger] all[j]).title == ins[j].title by {
            if j < m {
                assert(all[j] == done[j]);
                assert(init[j] == ins[j]);
            }
        }
    }
}

/// The same for the phases.
pub proof fn lemma_synced_phases_prefix(prev: Seq<StepModel>, ins: Seq<SyncPhaseModel>, n: int)
    requires
        0 <= n <= ins.len(),
    ensures
        synced_phases(prev, ins).0.len() == ins.len(),
        synced_phases(prev, ins).0.take(n) == synced_phases(prev, ins.take(n)).0,
    decreases ins.len(),
{
    if ins.len() == 0 {
        assert(ins.take(n) =~= ins);
    } else {
        let m = ins.len() - 1;
        let init = ins.drop_last();
        lemma_synced_phases_prefix(prev, init, if n <= m { n } else { m });
        let all = synced_phases(prev, ins).0;
        let done = synced_phases(prev, init).0;
        assert(all == done.push(all[m]));
        if n <= m {
            assert(init.take(n) =~= ins.take(n));
            assert(all.take(n) =~= done.take(n));
        } else {
            assert(ins.take(n) =~= ins);
            assert(all.take(n) =~= all);
        }
    }
}

/// The id a synchronised step takes is not among those used before, is not
/// empty, and is used afterwards, with all that was used before.
pub proof fn lemma_synced_step_id(inp: SyncStepModel, prev: Option<StepModel>, used: Seq<Seq<char>>)
    ensures
        ({
            let (id, used2) = synced_step_id(inp, prev, used);
            &&& !used.contains(id)
            &&& id.len() > 0
            &&& used2.contains(id)
            &&& forall|x: Seq<char>| used.contains(x) ==> used2.contains(x)
        }),
{
    let base = match trimmed_nonblank(inp.id) {
        Some(t) => t,
        None => match prev {
            Some(p) => p.id,
            None => ""@,
        },
    };
    let first = unique(base, used);
    let used1 = used.push(first);
    lemma_unique_fresh(base, used);
    assert(used1.contains(first)) by {
        assert(used1[used.len() as int] == first);
    }
    assert forall|x: Seq<char>| used.contains(x) implies used1.contains(x) by {
        let k = choose|k: int| 0 <= k < used.len() && used[k] == x;
        assert(used1[k] == x);
    }
    if first.len() == 0 {
        let fb = slug_or(inp.title, "step"@);
        reveal_strlit("step");
        assert(fb.len() > 0);
        let second = unique(fb, used1);
        lemma_unique_fresh(fb, used1);
        lemma_unique_len(fb, used1);
        let used2 = used1.push(second);
        assert(used2.contains(second)) by {
            assert(used2[used1.len() as int] == second);
        }
        assert forall|x: Seq<char>| used1.contains(x) implies used2.contains(x) by {
            let k = choose|k: int| 0 <= k < used1.len() && used1[k] == x;
            assert(used2[k] == x);
        }
    }
}

/// The last index satisfying `pred` is `t` when `t` is the only one.
pub proof fn lemma_last_index_only<A>(s: Seq<A>, pred: spec_fn(A) -> bool, t: int)
    requires
        0 <= t < s.len(),
        pred(s[t]),
        forall|m: int| 0 <= m < s.len() && m != t ==> !pred(#[trigger] s[m]),
    ensures
        last_index(s, pred) == Some(t),
    decreases s.len(),
{
    if t < s.len() - 1 {
        let init = s.drop_last();
        assert(!pred(s[s.len() - 1]));
        assert forall|m: int| 0 <= m < init.len() && m != t implies !pred(#[trigger] init[m]) by {
            assert(init[m] == s[m]);
        }
        assert(init[t] == s[t]);
        lemma_last_index_only(init, pred, t);
    }
}

/// Subtask inputs that give no ids and whose titles have distinct keys.
pub open spec fn subtasks_keyed_without_ids(ins: Seq<SyncSubtaskModel>) -> bool {
    &&& forall|k: int| 0 <= k < ins.len() ==> (#[trigger] ins[k]).id is None
    &&& forall|k1: int, k2: int|
        0 <= k1 < k2 < ins.len() ==> title_key((#[trigger] ins[k1]).title) != title_key((#[trigger] ins[k2]).title)
}

/// The subtask inputs of a step input.
pub open spec fn subtask_inputs(inp: SyncStepModel) -> Seq<SyncSubtaskModel> {
    match inp.subtasks {
        Some(v) => v,
        None => Seq::empty(),
    }
}

/// Synchronising subtask inputs without ids against the subtasks they
/// produced gives those subtasks again, with the same ids used.
pub proof fn lemma_resync_subtasks(prev: Seq<SubtaskModel>, ins: Seq<SyncSubtaskModel>, n: int)
    requires
        0 <= n <= ins.len(),
        subtasks_keyed_without_ids(ins),
    ensures
        synced_subtasks(synced_subtasks(prev, ins).0, ins.take(n)) == synced_subtasks(prev, ins.take(n)),
    decreases n,
{
    let full = synced_subtasks(prev, ins).0;
    lemma_synced_subtasks_prefix(prev, ins, n);
    if n > 0 {
        lemma_resync_subtasks(prev, ins, n - 1);
        let t = ins.take(n);
        assert(t.drop_last() =~= ins.take(n - 1));
        let inp = t.last();
        assert(inp == ins[n - 1]);
        let (done, used) = synced_subtasks(prev, ins.take(n - 1));
        let x = synced_subtasks(prev, t).0[n - 1];
        assert(full.take(n)[n - 1] == x);
        assert(full[n - 1] == x);
        assert(x.title == inp.title);
        let key = title_key(inp.title);
        assert forall|m: int| 0 <= m < full.len() && m != n - 1 implies !sub_key_is(key)(#[trigger] full[m]) by {
            assert(full[m].title == ins[m].title);
            if m < n - 1 {
                assert(title_key(ins[m].title) != title_key(ins[n - 1].title));
            } else {
                assert(title_key(ins[n - 1].title) != title_key(ins[m].title));
            }
        }
        lemma_last_index_only(full, sub_key_is(key), n - 1);
        assert(previous_subtask_index(full, inp) == Some(n - 1));
        assert(ins[n - 1].id is None);
        assert(trimmed_nonblank(inp.id) is None);
        let pi0 = previous_subtask_index(prev, inp);
        let base0 = match pi0 {
            Some(i) => prev[i].id,
            None => slug_or(inp.title, "subtask"@),
        };
        assert(synced_subtasks(prev, t) == (done.push(x), used.push(x.id)));
        assert(x.id == unique(base0, used));
        lemma_unique_fresh(base0, used);
        lemma_unique_fresh(x.id, used);
        assert(unique(x.id, used) == x.id);
        let y = synced_subtasks(full, t).0[n - 1];
        assert(synced_subtasks(full, t) == (done.push(y), used.push(y.id)));
        assert(y.id == x.id);
        assert(y.status == x.status);
        assert(y =~= x);
    } else {
        assert(ins.take(0) =~= Seq::<SyncSubtaskModel>::empty());
    }
}

/// A step input that gives no id, with subtask inputs that give none and
/// whose titles have distinct keys.
pub open spec fn step_keyed_without_ids(inp: SyncStepModel) -> bool {
    inp.id is None && subtasks_keyed_without_ids(subtask_inputs(inp))
}

/// Synchronising the step inputs of a phase again, against the steps they
/// produced (found at `o` onwards in `prev1`), gives the same steps and
/// uses no id that the first pass had not used.
pub proof fn lemma_resync_steps(
    prev0: Seq<StepModel>,
    prev1: Seq<StepModel>,
    ins: Seq<SyncStepModel>,
    u: Seq<Seq<char>>,
    w: Seq<Seq<char>>,
    o: int,
    n: int,
)
    requires
        0 <= n <= ins.len(),
        0 <= o,
        o + ins.len() <= prev1.len(),
        forall|j: int| 0 <= j < ins.len() ==> step_keyed_without_ids(#[trigger] ins[j]),
        forall|j: int| 0 <= j < ins.len() ==> prev1[o + j] == (#[trigger] synced_steps(prev0, ins, u).0[j]),
        forall|j: int| 0 <= j < ins.len() ==> previous_index(prev1, #[trigger] ins[j]) == Some(o + j),
        forall|x: Seq<char>| w.contains(x) ==> u.contains(x),
    ensures
        synced_steps(prev1, ins.take(n), w).0 == synced_steps(prev0, ins.take(n), u).0,
        forall|x: Seq<char>|
            synced_steps(prev1, ins.take(n), w).1.contains(x) ==> synced_steps(prev0, ins.take(n), u).1.contains(x),
    decreases n,
{
    if n == 0 {
        assert(ins.take(0) =~= Seq::<SyncStepModel>::empty());
    } else {
        lemma_resync_steps(prev0, prev1, ins, u, w, o, n - 1);
        lemma_synced_steps_prefix(prev0, ins, u, n);
        let t = ins.take(n);
        assert(t.drop_last() =~= ins.take(n - 1));
        let inp = t.last();
        assert(inp == ins[n - 1]);
        assert(step_keyed_without_ids(ins[n - 1]));
        let (done, used_a) = synced_steps(prev0, ins.take(n - 1), u);
        let used_b = synced_steps(prev1, ins.take(n - 1), w).1;
        let full = synced_steps(prev0, ins, u).0;
        let (st, used2) = synced_step(prev0, inp, used_a);
        assert(synced_steps(prev0, t, u) == (done.push(st), used2));
        lemma_synced_steps_prefix(prev0, ins.take(n - 1), u, 0);
        assert(done.len() == n - 1);
        assert(full.take(n) == synced_steps(prev0, t, u).0);
        assert(full.take(n)[n - 1] == st);
        assert(full[n - 1] == st);
        assert(prev1[o + n - 1] == st);
        let prev_a = step_at(prev0, previous_index(prev0, inp));
        lemma_synced_step_id(inp, prev_a, used_a);
        assert(st.id == synced_step_id(inp, prev_a, used_a).0);
        assert(previous_index(prev1, inp) == Some(o + n - 1));
        assert(step_at(prev1, previous_index(prev1, inp)) == Some(st));
        assert(trimmed_nonblank(inp.id) is None);
        assert(!used_b.contains(st.id));
        lemma_unique_fresh(st.id, used_b);
        assert(synced_step_id(inp, Some(st), used_b) == (st.id, used_b.push(st.id)));
        let prev_subs = match prev_a {
            Some(p) => p.subtasks,
            None => Seq::empty(),
        };
        let sub_in = subtask_inputs(inp);
        lemma_resync_subtasks(prev_subs, sub_in, sub_in.len() as int);
        assert(sub_in.take(sub_in.len() as int) =~= sub_in);
        assert(st.subtasks == synced_subtasks(prev_subs, sub_in).0);
        let y = synced_step(prev1, inp, used_b).0;
        assert(y =~= st);
        assert(synced_steps(prev1, t, w) == (done.push(y), used_b.push(st.id)));
        assert forall|x: Seq<char>| used_b.push(st.id).contains(x) implies used2.contains(x) by {
            if x != st.id {
                let k = choose|k: int| 0 <= k < used_b.push(st.id).len() && used_b.push(st.id)[k] == x;
                assert(used_b[k] == x);
            }
        }
    }
}

/// An input plan whose steps give no ids, whose step titles have distinct
/// keys over the whole plan, and whose subtask inputs give no ids and have
/// distinct title keys within their step.
pub open spec fn keyed_without_ids(inputs: Seq<SyncPhaseModel>) -> bool {
    let steps = input_steps(inputs);
    &&& forall|t: int| 0 <= t < steps.len() ==> step_keyed_without_ids(#[trigger] steps[t])
    &&& forall|t1: int, t2: int|
        0 <= t1 < t2 < steps.len() ==> title_key((#[trigger] steps[t1]).title) != title_key(
            (#[trigger] steps[t2]).title,
        )
}

/// The steps of the first `k` phases come first among the steps of all.
proof fn lemma_flat_steps_prefix(ph: Seq<PhaseModel>, k: int)
    requires
        0 <= k <= ph.len(),
    ensures
        flat_steps(ph.take(k)).len() <= flat_steps(ph).len(),
        forall|t: int| 0 <= t < flat_steps(ph.take(k)).len() ==> flat_steps(ph)[t] == #[trigger] flat_steps(ph.take(k))[t],
    decreases ph.len() - k,
{
    if k == ph.len() {
        assert(ph.take(k) =~= ph);
    } else {
        lemma_flat_steps_prefix(ph, k + 1);
        lemma_flat_steps_take(ph, k);
        let a = flat_steps(ph.take(k));
        let b = flat_steps(ph.take(k + 1));
        assert forall|t: int| 0 <= t < a.len() implies flat_steps(ph)[t] == #[trigger] a[t] by {
            assert(b[t] == a[t]);
        }
    }
}

/// The step inputs of the first `k` phases come first among those of all.
proof fn lemma_input_steps_prefix(ins: Seq<SyncPhaseModel>, k: int)
    requires
        0 <= k <= ins.len(),
    ensures
        input_steps(ins.take(k)).len() <= input_steps(ins).len(),
        forall|t: int|
            0 <= t < input_steps(ins.take(k)).len() ==> input_steps(ins)[t] == #[trigger] input_steps(ins.take(k))[t],
    decreases ins.len() - k,
{
    if k == ins.len() {
        assert(ins.take(k) =~= ins);
    } else {
        lemma_input_steps_prefix(ins, k + 1);
        assert(ins.take(k + 1).drop_last() =~= ins.take(k));
        let a = input_steps(ins.take(k));
        let b = input_steps(ins.take(k + 1));
        assert(b == a + ins[k].steps);
        assert forall|t: int| 0 <= t < a.len() implies input_steps(ins)[t] == #[trigger] a[t] by {
            assert(b[t] == a[t]);
        }
    }
}

/// The synchronised steps, phase after phase, carry the input titles.
proof fn lemma_synced_flat_titles(prev: Seq<StepModel>, ins: Seq<SyncPhaseModel>)
    ensures
        flat_steps(synced_phases(prev, ins).0).len() == input_steps(ins).len(),
        forall|t: int|
            0 <= t < input_steps(ins).len() ==> (#[trigger] flat_steps(synced_phases(prev, ins).0)[t]).title
                == input_steps(ins)[t].title,
    decreases ins.len(),
{
    if ins.len() > 0 {
        let init = ins.drop_last();
        lemma_synced_flat_titles(prev, init);
        let (done, _pu, su) = synced_phases(prev, init);
        let all = synced_phases(prev, ins).0;
        let steps = synced_steps(prev, ins.last().steps, su).0;
        lemma_synced_steps_prefix(prev, ins.last().steps, su, 0);
        assert(all.drop_last() =~= done);
        assert(all.last().steps == steps);
        let fa = flat_steps(all);
        let fd = flat_steps(done);
        assert(fa == fd + steps);
        let ia = input_steps(ins);
        let id = input_steps(init);
        assert(ia == id + ins.last().steps);
        assert forall|t: int| 0 <= t < ia.len() implies (#[trigger] fa[t]).title == ia[t].title by {
            if t < id.len() {
                assert(fa[t] == fd[t]);
                assert(ia[t] == id[t]);
            } else {
                assert(fa[t] == steps[t - fd.len()]);
                assert(ia[t] == ins.last().steps[t - id.len()]);
            }
        }
    }
}

/// Synchronising the first `n` input phases again, against the steps the
/// whole input produced, gives the same phases and phase ids, and uses no
/// step id the first pass had not used.
pub proof fn lemma_resync_phases(prev: Seq<StepModel>, ins: Seq<SyncPhaseModel>, n: int)
    requires
        0 <= n <= ins.len(),
        keyed_without_ids(ins),
    ensures
        ({
            let again = synced_phases(flat_steps(synced_phases(prev, ins).0), ins.take(n));
            let first = synced_phases(prev, ins.take(n));
            &&& again.0 == first.0
            &&& again.1 == first.1
            &&& forall|x: Seq<char>| again.2.contains(x) ==> first.2.contains(x)
        }),
    decreases n,
{
    let all = synced_phases(prev, ins).0;
    let f1 = flat_steps(all);
    if n == 0 {
        assert(ins.take(0) =~= Seq::<SyncPhaseModel>::empty());
    } else {
        lemma_resync_phases(prev, ins, n - 1);
        let t = ins.take(n);
        assert(t.drop_last() =~= ins.take(n - 1));
        let inp = ins[n - 1];
        assert(t.last() == inp);
        let (done, pu, su) = synced_phases(prev, ins.take(n - 1));
        let sw = synced_phases(f1, ins.take(n - 1)).2;
        let steps_in = inp.steps;
        let full = synced_steps(prev, steps_in, su).0;
        lemma_synced_steps_prefix(prev, steps_in, su, 0);
        let pn = synced_phases(prev, t).0;
        assert(pn.drop_last() =~= done);
        assert(pn.last().steps == full);
        lemma_synced_phases_prefix(prev, ins, n);
        assert(all.take(n) == pn);
        lemma_flat_steps_prefix(all, n);
        let fpn = flat_steps(pn);
        let o = flat_steps(done).len() as int;
        assert(fpn == flat_steps(done) + full);
        lemma_synced_flat_titles(prev, ins.take(n - 1));
        lemma_synced_flat_titles(prev, ins);
        lemma_input_steps_prefix(ins, n);
        let itn = input_steps(t);
        let itd = input_steps(ins.take(n - 1));
        assert(itn == itd + steps_in);
        assert(itd.len() == o);
        let steps = input_steps(ins);
        assert forall|j: int| 0 <= j < steps_in.len() implies f1[o + j] == (#[trigger] full[j]) by {
            assert(fpn[o + j] == full[j]);
        }
        assert forall|j: int| 0 <= j < steps_in.len() implies step_keyed_without_ids(#[trigger] steps_in[j]) by {
            assert(itn[o + j] == steps_in[j]);
            assert(steps[o + j] == itn[o + j]);
        }
        assert forall|j: int| 0 <= j < steps_in.len() implies previous_index(f1, #[trigger] steps_in[j]) == Some(
            o + j,
        ) by {
            assert(itn[o + j] == steps_in[j]);
            assert(steps[o + j] == steps_in[j]);
            assert(step_keyed_without_ids(steps[o + j]));
            let key = title_key(steps_in[j].title);
            assert(f1[o + j].title == steps[o + j].title);
            assert forall|m: int| 0 <= m < f1.len() && m != o + j implies !key_is(key)(#[trigger] f1[m]) by {
                assert(f1[m].title == steps[m].title);
                if m < o + j {
                    assert(title_key(steps[m].title) != title_key(steps[o + j].title));
                } else {
                    assert(title_key(steps[o + j].title) != title_key(steps[m].title));
                }
            }
            lemma_last_index_only(f1, key_is(key), o + j);
        }
        lemma_resync_steps(prev, f1, steps_in, su, sw, o, steps_in.len() as int);
        assert(steps_in.take(steps_in.len() as int) =~= steps_in);
    }
}

/// Two input plans with the same phases and steps by count and step title.
pub open spec fn same_step_titles(a: Seq<SyncPhaseModel>, b: Seq<SyncPhaseModel>) -> bool {
    &&& a.len() == b.len()
    &&& forall|i: int|
        0 <= i < a.len() ==> {
            &&& (#[trigger] a[i]).steps.len() == b[i].steps.len()
            &&& forall|j: int| 0 <= j < a[i].steps.len() ==> (#[trigger] a[i].steps[j]).title == b[i].steps[j].title
        }
}

proof fn lemma_same_input_titles(a: Seq<SyncPhaseModel>, b: Seq<SyncPhaseModel>)
    requires
        same_step_titles(a, b),
    ensures
        input_steps(a).len() == input_steps(b).len(),
        forall|t: int| 0 <= t < input_steps(a).len() ==> (#[trigger] input_steps(a)[t]).title == input_steps(b)[t].title,
    decreases a.len(),
{
    if a.len() > 0 {
        let (ai, bi) = (a.drop_last(), b.drop_last());
        assert forall|i: int| 0 <= i < ai.len() implies {
            &&& (#[trigger] ai[i]).steps.len() == bi[i].steps.len()
            &&& forall|j: int| 0 <= j < ai[i].steps.len() ==> (#[trigger] ai[i].steps[j]).title == bi[i].steps[j].title
        } by {
            assert(ai[i] == a[i] && bi[i] == b[i]);
        }
        lemma_same_input_titles(ai, bi);
        let (x, y) = (input_steps(a), input_steps(b));
        assert(x == input_steps(ai) + a.last().steps);
        assert(y == input_steps(bi) + b.last().steps);
        assert(a.last() == a[a.len() - 1] && b.last() == b[b.len() - 1]);
        assert forall|t: int| 0 <= t < x.len() implies (#[trigger] x[t]).title == y[t].title by {
            if t >= input_steps(ai).len() {
                let j = t - input_steps(ai).len();
                assert(x[t] == a[a.len() - 1].steps[j]);
                assert(y[t] == b[b.len() - 1].steps[j]);
            }
        }
    }
}

/// Synchronising other step inputs with the same titles, without ids,
/// against the steps a first pass produced gives steps with the ids of that
/// pass, and uses no id the first pass had not used.
pub proof fn lemma_resync_step_ids(
    prev0: Seq<StepModel>,
    prev1: Seq<StepModel>,
    ins1: Seq<SyncStepModel>,
    ins2: Seq<SyncStepModel>,
    u: Seq<Seq<char>>,
    w: Seq<Seq<char>>,
    o: int,
    n: int,
)
    requires
        ins1.len() == ins2.len(),
        0 <= n <= ins2.len(),
        0 <= o,
        o + ins1.len() <= prev1.len(),
        forall|j: int| 0 <= j < ins2.len() ==> (#[trigger] ins2[j]).id is None,
        forall|j: int| 0 <= j < ins1.len() ==> prev1[o + j] == (#[trigger] synced_steps(prev0, ins1, u).0[j]),
        forall|j: int| 0 <= j < ins2.len() ==> previous_index(prev1, #[trigger] ins2[j]) == Some(o + j),
        forall|x: Seq<char>| w.contains(x) ==> u.contains(x),
    ensures
        synced_steps(prev1, ins2.take(n), w).0.len() == n,
        forall|k: int|
            0 <= k < n ==> (#[trigger] synced_steps(prev1, ins2.take(n), w).0[k]).id == synced_steps(
                prev0,
                ins1.take(n),
                u,
            ).0[k].id,
        forall|x: Seq<char>|
            synced_steps(prev1, ins2.take(n), w).1.contains(x) ==> synced_steps(prev0, ins1.take(n), u).1.contains(x),
    decreases n,
{
    if n == 0 {
        assert(ins2.take(0) =~= Seq::<SyncStepModel>::empty());
        assert(ins1.take(0) =~= Seq::<SyncStepModel>::empty());
    } else {
        lemma_resync_step_ids(prev0, prev1, ins1, ins2, u, w, o, n - 1);
        lemma_synced_steps_prefix(prev0, ins1, u, n);
        let t1 = ins1.take(n);
        let t2 = ins2.take(n);
        assert(t1.drop_last() =~= ins1.take(n - 1));
        assert(t2.drop_last() =~= ins2.take(n - 1));
        let inp1 = t1.last();
        let inp2 = t2.last();
        assert(inp1 == ins1[n - 1] && inp2 == ins2[n - 1]);
        let (done, used_a) = synced_steps(prev0, ins1.take(n - 1), u);
        let (done_b, used_b) = synced_steps(prev1, ins2.take(n - 1), w);
        let full = synced_steps(prev0, ins1, u).0;
        let (st, used2) = synced_step(prev0, inp1, used_a);
        assert(synced_steps(prev0, t1, u) == (done.push(st), used2));
        lemma_synced_steps_prefix(prev0, ins1.take(n - 1), u, 0);
        assert(full.take(n) == synced_steps(prev0, t1, u).0);
        assert(full.take(n)[n - 1] == st);
        assert(full[n - 1] == st);
        assert(prev1[o + n - 1] == st);
        let prev_a = step_at(prev0, previous_index(prev0, inp1));
        lemma_synced_step_id(inp1, prev_a, used_a);
        assert(st.id == synced_step_id(inp1, prev_a, used_a).0);
        assert(previous_index(prev1, inp2) == Some(o + n - 1));
        assert(step_at(prev1, previous_index(prev1, inp2)) == Some(st));
        assert(ins2[n - 1].id is None);
        assert(trimmed_nonblank(inp2.id) is None);
        assert(!used_b.contains(st.id));
        lemma_unique_fresh(st.id, used_b);
        assert(synced_step_id(inp2, Some(st), used_b) == (st.id, used_b.push(st.id)));
        let y = synced_step(prev1, inp2, used_b).0;
        assert(y.id == st.id);
        assert(synced_steps(prev1, t2, w) == (done_b.push(y), used_b.push(st.id)));
        assert forall|x: Seq<char>| used_b.push(st.id).contains(x) implies used2.contains(x) by {
            if x != st.id {
                let k = choose|k: int| 0 <= k < used_b.push(st.id).len() && used_b.push(st.id)[k] == x;
                assert(used_b[k] == x);
            }
        }
        let b_n = done_b.push(y);
        let a_n = done.push(st);
        assert forall|k: int| 0 <= k < n implies (#[trigger] b_n[k]).id == a_n[k].id by {
            if k < n - 1 {
                assert(b_n[k] == done_b[k] && a_n[k] == done[k]);
            }
        }
    }
}

/// Synchronising, against the steps a first input produced, a second input
/// with the same step titles and no step ids gives each step the id the first
/// pass gave it.
pub proof fn lemma_resync_phase_ids(prev: Seq<StepModel>, ins1: Seq<SyncPhaseModel>, ins2: Seq<SyncPhaseModel>, n: int)
    requires
        0 <= n <= ins1.len(),
        same_step_titles(ins1, ins2),
        keyed_without_ids(ins2),
    ensures
        ({
            let again = synced_phases(flat_steps(synced_phases(prev, ins1).0), ins2.take(n));
            let first = synced_phases(prev, ins1.take(n));
            &&& again.0.len() == first.0.len()
            &&& forall|i: int|
                0 <= i < first.0.len() ==> (#[trigger] again.0[i]).steps.len() == first.0[i].steps.len() && forall|
                    j: int,
                | 0 <= j < first.0[i].steps.len() ==> (#[trigger] again.0[i].steps[j]).id == first.0[i].steps[j].id
            &&& forall|x: Seq<char>| again.2.contains(x) ==> first.2.contains(x)
        }),
    decreases n,
{
    let all = synced_phases(prev, ins1).0;
    let f1 = flat_steps(all);
    lemma_synced_phases_prefix(prev, ins1.take(n), 0);
    lemma_synced_phases_prefix(f1, ins2.take(n), 0);
    if n == 0 {
        assert(ins1.take(0) =~= Seq::<SyncPhaseModel>::empty());
        assert(ins2.take(0) =~= Seq::<SyncPhaseModel>::empty());
    } else {
        lemma_resync_phase_ids(prev, ins1, ins2, n - 1);
        let t1 = ins1.take(n);
        let t2 = ins2.take(n);
        assert(t1.drop_last() =~= ins1.take(n - 1));
        assert(t2.drop_last() =~= ins2.take(n - 1));
        let inp1 = ins1[n - 1];
        let inp2 = ins2[n - 1];
        assert(t1.last() == inp1 && t2.last() == inp2);
        let (done, pu, su) = synced_phases(prev, ins1.take(n - 1));
        let (done_b, pu_b, sw) = synced_phases(f1, ins2.take(n - 1));
        let steps_in = inp1.steps;
        let steps_in2 = inp2.steps;
        assert(steps_in.len() == steps_in2.len());
        let full = synced_steps(prev, steps_in, su).0;
        lemma_synced_steps_prefix(prev, steps_in, su, 0);
        let pn = synced_phases(prev, t1).0;
        assert(pn.drop_last() =~= done);
        assert(pn.last().steps == full);
        lemma_synced_phases_prefix(prev, ins1, n);
        assert(all.take(n) == pn);
        lemma_flat_steps_prefix(all, n);
        let fpn = flat_steps(pn);
        let o = flat_steps(done).len() as int;
        assert(fpn == flat_steps(done) + full);
        lemma_synced_flat_titles(prev, ins1.take(n - 1));
        lemma_synced_flat_titles(prev, ins1);
        lemma_input_steps_prefix(ins1, n);
        lemma_input_steps_prefix(ins2, n);
        lemma_same_input_titles(ins1, ins2);
        let itn = input_steps(t1);
        let itd = input_steps(ins1.take(n - 1));
        assert(itn == itd + steps_in);
        assert(itd.len() == o);
        let itn2 = input_steps(t2);
        let itd2 = input_steps(ins2.take(n - 1));
        assert(itn2 == itd2 + steps_in2);
        assert(same_step_titles(ins1.take(n - 1), ins2.take(n - 1))) by {
            assert forall|i: int| 0 <= i < n - 1 implies {
                &&& (#[trigger] ins1.take(n - 1)[i]).steps.len() == ins2.take(n - 1)[i].steps.len()
                &&& forall|j: int| 0 <= j < ins1.take(n - 1)[i].steps.len() ==> (#[trigger] ins1.take(n - 1)[i].steps[j]).title
                    == ins2.take(n - 1)[i].steps[j].title
            } by {
                assert(ins1.take(n - 1)[i] == ins1[i] && ins2.take(n - 1)[i] == ins2[i]);
            }
        }
        lemma_same_input_titles(ins1.take(n - 1), ins2.take(n - 1));
        assert(itd2.len() == o);
        let steps1 = input_steps(ins1);
        let steps2 = input_steps(ins2);
        assert forall|j: int| 0 <= j < steps_in.len() implies f1[o + j] == (#[trigger] full[j]) by {
            assert(fpn[o + j] == full[j]);
        }
        assert forall|j: int| 0 <= j < steps_in2.len() implies (#[trigger] steps_in2[j]).id is None by {
            assert(itn2[o + j] == steps_in2[j]);
            assert(steps2[o + j] == itn2[o + j]);
            assert(step_keyed_without_ids(steps2[o + j]));
        }
        assert forall|j: int| 0 <= j < steps_in2.len() implies previous_index(f1, #[trigger] steps_in2[j]) == Some(
            o + j,
        ) by {
            assert(itn2[o + j] == steps_in2[j]);
            assert(steps2[o + j] == steps_in2[j]);
            assert(step_keyed_without_ids(steps2[o + j]));
            assert(itn[o + j] == steps_in[j]);
            assert(steps1[o + j] == itn[o + j]);
            assert(steps_in[j].title == steps_in2[j].title);
            let key = title_key(steps_in2[j].title);
            assert(f1[o + j].title == steps1[o + j].title);
            assert forall|m: int| 0 <= m < f1.len() && m != o + j implies !key_is(key)(#[trigger] f1[m]) by {
                assert(f1[m].title == steps1[m].title);
                assert(steps1[m].title == steps2[m].title);
                if m < o + j {
                    assert(title_key(steps2[m].title) != title_key(steps2[o + j].title));
                } else {
                    assert(title_key(steps2[o + j].title) != title_key(steps2[m].title));
                }
            }
            lemma_last_index_only(f1, key_is(key), o + j);
        }
        lemma_resync_step_ids(prev, f1, steps_in, steps_in2, su, sw, o, steps_in2.len() as int);
        assert(steps_in.take(steps_in.len() as int) =~= steps_in);
        assert(steps_in2.take(steps_in2.len() as int) =~= steps_in2);
        let again_n = synced_phases(f1, t2).0;
        let st2 = synced_steps(f1, steps_in2, sw).0;
        assert(again_n == done_b.push(again_n[n - 1]));
        assert(again_n[n - 1].steps == st2);
        assert(pn == done.push(pn[n - 1]));
        assert forall|i: int| 0 <= i < pn.len() implies (#[trigger] again_n[i]).steps.len() == pn[i].steps.len() && forall|
            j: int,
        | 0 <= j < pn[i].steps.len() ==> (#[trigger] again_n[i].steps[j]).id == pn[i].steps[j].id by {
            if i < n - 1 {
                assert(again_n[i] == done_b[i] && pn[i] == done[i]);
            }
        }
    }
}

} // verus!
