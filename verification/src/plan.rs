//! Queries and transformations of a project plan: locating steps, progress,
//! the next actionable step, and the normalisations that keep ownership and
//! in-progress states consistent.
use crate::models::{ostr, Phase, PhaseModel, Plan, PlanModel, Step, StepModel, StepStatus};

use vstd::prelude::*;

verus! {

// ---------------------------------------------------------------------------
// Positions in a plan
// ---------------------------------------------------------------------------

/// The step at position `pos` (phase index, step index).
pub open spec fn step_of(p: PlanModel, pos: (int, int)) -> StepModel {
    p.phases[pos.0].steps[pos.1]
}

/// Whether `pos` names a step of the plan.
pub open spec fn valid_pos(p: PlanModel, pos: (int, int)) -> bool {
    0 <= pos.0 < p.phases.len() && 0 <= pos.1 < p.phases[pos.0].steps.len()
}

/// Whether position `a` comes before position `b` in plan order.
pub open spec fn pos_before(a: (int, int), b: (int, int)) -> bool {
    a.0 < b.0 || (a.0 == b.0 && a.1 < b.1)
}

/// The first step index at or after `j` whose step satisfies `pred`.
pub open spec fn first_in_steps(steps: Seq<StepModel>, pred: spec_fn(StepModel) -> bool, j: int) -> Option<
    int,
>
    decreases steps.len() - j,
{
    if j < 0 || j >= steps.len() {
        None
    } else if pred(steps[j]) {
        Some(j)
    } else {
        first_in_steps(steps, pred, j + 1)
    }
}

/// The first position, at or after phase `i`, whose step satisfies `pred`.
pub open spec fn first_step_from(
    phases: Seq<PhaseModel>,
    pred: spec_fn(StepModel) -> bool,
    i: int,
) -> Option<(int, int)>
    decreases phases.len() - i,
{
    if i < 0 || i >= phases.len() {
        None
    } else {
        match first_in_steps(phases[i].steps, pred, 0) {
            Some(j) => Some((i, j)),
            None => first_step_from(phases, pred, i + 1),
        }
    }
}

/// The first step of the plan, in phase order and then step order, that
/// satisfies `pred`.
pub open spec fn first_step(p: PlanModel, pred: spec_fn(StepModel) -> bool) -> Option<(int, int)> {
    first_step_from(p.phases, pred, 0)
}

/// The predicate "the step's id is `id`".
pub open spec fn id_is(id: Seq<char>) -> spec_fn(StepModel) -> bool {
    |s: StepModel| s.id == id
}

/// `locate_step`: the first step whose id is `id`.
pub open spec fn locate(p: PlanModel, id: Seq<char>) -> Option<(int, int)> {
    first_step(p, id_is(id))
}

pub proof fn lemma_first_in_steps(steps: Seq<StepModel>, pred: spec_fn(StepModel) -> bool, j: int)
    requires
        0 <= j,
    ensures
        match first_in_steps(steps, pred, j) {
            Some(k) => j <= k < steps.len() && pred(steps[k]) && forall|m: int|
                j <= m < k ==> !pred(#[trigger] steps[m]),
            None => forall|m: int| j <= m < steps.len() ==> !pred(#[trigger] steps[m]),
        },
    decreases steps.len() - j,
{
    if j < steps.len() && !pred(steps[j]) {
        lemma_first_in_steps(steps, pred, j + 1);
    }
}

pub proof fn lemma_first_step_from(phases: Seq<PhaseModel>, pred: spec_fn(StepModel) -> bool, i: int)
    requires
        0 <= i,
    ensures
        match first_step_from(phases, pred, i) {
            Some(pos) => i <= pos.0 < phases.len() && 0 <= pos.1 < phases[pos.0].steps.len() && pred(
                phases[pos.0].steps[pos.1],
            ) && forall|a: int, b: int|
                i <= a && 0 <= b && #[trigger] pos_before((a, b), pos) && b < phases[a].steps.len()
                    ==> !pred(phases[a].steps[b]),
            None => forall|a: int, b: int|
                i <= a < phases.len() && 0 <= b < phases[a].steps.len() ==> !pred(
                    #[trigger] phases[a].steps[b],
                ),
        },
    decreases phases.len() - i,
{
    if i < phases.len() {
        lemma_first_in_steps(phases[i].steps, pred, 0);
        lemma_first_step_from(phases, pred, i + 1);
        match first_in_steps(phases[i].steps, pred, 0) {
            Some(j) => {
                assert forall|a: int, b: int|
                    i <= a && 0 <= b && #[trigger] pos_before((a, b), (i, j)) && b
                        < phases[a].steps.len() implies !pred(phases[a].steps[b]) by {
                    assert(a == i);
                }
            },
            None => {
                match first_step_from(phases, pred, i + 1) {
                    Some(pos) => {
                        assert forall|a: int, b: int|
                            i <= a && 0 <= b && #[trigger] pos_before((a, b), pos) && b
                                < phases[a].steps.len() implies !pred(phases[a].steps[b]) by {
                            if a == i {
                                assert(!pred(phases[i].steps[b]));
                            } else {
                                assert(pos_before((a, b), pos));
                            }
                        }
                    },
                    None => {
                        assert forall|a: int, b: int|
                            i <= a < phases.len() && 0 <= b < phases[a].steps.len() implies !pred(
                                #[trigger] phases[a].steps[b],
                            ) by {
                            if a == i {
                                assert(!pred(phases[i].steps[b]));
                            }
                        }
                    },
                }
            },
        }
    }
}

/// What `first_step` returns: the earliest position whose step satisfies
/// `pred`, or none when no step does.
pub proof fn lemma_first_step(p: PlanModel, pred: spec_fn(StepModel) -> bool)
    ensures
        match first_step(p, pred) {
            Some(pos) => valid_pos(p, pos) && pred(step_of(p, pos)) && forall|a: int, b: int|
                #[trigger] pos_before((a, b), pos) && valid_pos(p, (a, b)) ==> !pred(
                    step_of(p, (a, b)),
                ),
            None => forall|a: int, b: int| #[trigger]
                valid_pos(p, (a, b)) ==> !pred(step_of(p, (a, b))),
        },
{
    lemma_first_step_from(p.phases, pred, 0);
    match first_step(p, pred) {
        Some(pos) => {
            assert forall|a: int, b: int| #[trigger]
                pos_before((a, b), pos) && valid_pos(p, (a, b)) implies !pred(
                step_of(p, (a, b)),
            ) by {
                assert(0 <= a && 0 <= b && pos_before((a, b), pos) && b < p.phases[a].steps.len());
            }
        },
        None => {
            assert forall|a: int, b: int| #[trigger] valid_pos(p, (a, b)) implies !pred(
                step_of(p, (a, b)),
            ) by {
                assert(0 <= a < p.phases.len() && 0 <= b < p.phases[a].steps.len());
                assert(!pred(p.phases[a].steps[b]));
            }
        },
    }
}

/// Whether some step of the plan has the id `id`.
pub open spec fn has_step_id(p: PlanModel, id: Seq<char>) -> bool {
    exists|a: int, b: int| #[trigger] valid_pos(p, (a, b)) && step_of(p, (a, b)).id == id
}

pub proof fn lemma_locate_some_iff(p: PlanModel, id: Seq<char>)
    ensures
        locate(p, id) is Some <==> has_step_id(p, id),
        match locate(p, id) {
            Some(pos) => valid_pos(p, pos) && step_of(p, pos).id == id,
            None => true,
        },
{
    let pred = id_is(id);
    lemma_first_step(p, pred);
    match locate(p, id) {
        Some(pos) => {
            assert(pred(step_of(p, pos)));
        },
        None => {
            if has_step_id(p, id) {
                let (a, b) = choose|a: int, b: int| #[trigger]
                    valid_pos(p, (a, b)) && step_of(p, (a, b)).id == id;
                assert(!pred(step_of(p, (a, b))));
            }
        },
    }
}

/// `locate_step`: the phase and step index of the first step with id
/// `step_id`.
pub fn locate_step(plan: &Plan, step_id: &str) -> (r: Option<(usize, usize)>)
    ensures
        match r {
            Some((i, j)) => locate(plan@, step_id@) == Some((i as int, j as int)),
            None => locate(plan@, step_id@) is None,
        },
{
    let target = String::from_str(step_id);
    let ghost p = plan@;
    let ghost pred = id_is(step_id@);
    let mut i: usize = 0;
    while i < plan.phases.len()
        invariant
            p == plan@,
            i <= plan.phases@.len(),
            target@ == step_id@,
            pred == id_is(step_id@),
            locate(p, step_id@) == first_step_from(p.phases, pred, i as int),
        decreases plan.phases@.len() - i,
    {
        let steps = &plan.phases[i].steps;
        let ghost ps = p.phases[i as int].steps;
        let mut j: usize = 0;
        while j < steps.len()
            invariant
                steps == &plan.phases@[i as int].steps,
                ps == p.phases[i as int].steps,
                p == plan@,
                i < plan.phases@.len(),
                j <= steps@.len(),
                target@ == step_id@,
                pred == id_is(step_id@),
                locate(p, step_id@) == first_step_from(p.phases, pred, i as int),
                first_in_steps(ps, pred, 0) == first_in_steps(ps, pred, j as int),
            decreases steps@.len() - j,
        {
            assert(ps[j as int] == steps@[j as int]@);
            assert(pred(ps[j as int]) == (steps@[j as int].id@ == step_id@));
            if steps[j].id == target {
                assert(first_in_steps(ps, pred, j as int) == Some(j as int));
                assert(first_step_from(p.phases, pred, i as int) == Some((i as int, j as int)));
                return Some((i, j));
            }
            j += 1;
        }
        i += 1;
    }
    None
}

// ---------------------------------------------------------------------------
// Progress and titles
// ---------------------------------------------------------------------------

/// The number of steps in phases `0..i`.
pub open spec fn steps_before(phases: Seq<PhaseModel>, i: int) -> nat
    decreases i,
{
    if i <= 0 || phases.len() == 0 {
        0
    } else if i > phases.len() {
        steps_before(phases, phases.len() as int)
    } else {
        steps_before(phases, i - 1) + phases[i - 1].steps.len()
    }
}

/// The number of done steps in `steps[0..j]`.
pub open spec fn done_in(steps: Seq<StepModel>, j: int) -> nat
    decreases j,
{
    if j <= 0 || steps.len() == 0 {
        0
    } else if j > steps.len() {
        done_in(steps, steps.len() as int)
    } else {
        done_in(steps, j - 1) + if steps[j - 1].status == StepStatus::Done {
            1nat
        } else {
            0nat
        }
    }
}

/// The number of done steps in phases `0..i`.
pub open spec fn done_before(phases: Seq<PhaseModel>, i: int) -> nat
    decreases i,
{
    if i <= 0 || phases.len() == 0 {
        0
    } else if i > phases.len() {
        done_before(phases, phases.len() as int)
    } else {
        done_before(phases, i - 1) + done_in(phases[i - 1].steps, phases[i - 1].steps.len() as int)
    }
}

/// All steps of the plan.
pub open spec fn total_steps(p: PlanModel) -> nat {
    steps_before(p.phases, p.phases.len() as int)
}

/// The steps of the plan whose status is done.
pub open spec fn done_steps(p: PlanModel) -> nat {
    done_before(p.phases, p.phases.len() as int)
}

proof fn lemma_done_in_le(steps: Seq<StepModel>, j: int)
    requires
        0 <= j <= steps.len(),
    ensures
        done_in(steps, j) <= j,
    decreases j,
{
    if j > 0 {
        lemma_done_in_le(steps, j - 1);
    }
}

proof fn lemma_done_before_le(phases: Seq<PhaseModel>, i: int)
    requires
        0 <= i <= phases.len(),
    ensures
        done_before(phases, i) <= steps_before(phases, i),
    decreases i,
{
    if i > 0 {
        lemma_done_before_le(phases, i - 1);
        lemma_done_in_le(phases[i - 1].steps, phases[i - 1].steps.len() as int);
    }
}

/// `get_plan_progress`: the number of steps and the number of done steps.
pub fn get_plan_progress(plan: &Plan) -> (r: (i64, i64))
    requires
        total_steps(plan@) <= i64::MAX,
    ensures
        r.0 == total_steps(plan@),
        r.1 == done_steps(plan@),
{
    let ghost p = plan@;
    let mut total: i64 = 0;
    let mut done: i64 = 0;
    let mut i: usize = 0;
    proof {
        lemma_steps_before_mono(p.phases, 0, p.phases.len() as int);
    }
    while i < plan.phases.len()
        invariant
            p == plan@,
            i <= p.phases.len(),
            total == steps_before(p.phases, i as int),
            done == done_before(p.phases, i as int),
            steps_before(p.phases, p.phases.len() as int) <= i64::MAX,
        decreases p.phases.len() - i,
    {
        let steps = &plan.phases[i].steps;
        let ghost ps = p.phases[i as int].steps;
        proof {
            lemma_steps_before_mono(p.phases, i as int, p.phases.len() as int);
            assert(ps == steps.deep_view());
            assert(ps.len() == steps@.len());
        }
        let mut j: usize = 0;
        let mut d: i64 = 0;
        while j < steps.len()
            invariant
                steps == &plan.phases@[i as int].steps,
                p == plan@,
                i < plan.phases@.len(),
                ps == p.phases[i as int].steps,
                ps.len() == steps@.len(),
                j <= steps@.len(),
                d == done_in(ps, j as int),
                d <= j,
                steps@.len() <= i64::MAX,
            decreases steps@.len() - j,
        {
            assert(ps[j as int] == steps@[j as int]@);
            if steps[j].status == StepStatus::Done {
                d += 1;
            }
            j += 1;
        }
        proof {
            lemma_done_before_le(p.phases, i as int);
        }
        total = total + steps.len() as i64;
        done = done + d;
        i += 1;
    }
    (total, done)
}

proof fn lemma_steps_before_mono(phases: Seq<PhaseModel>, i: int, k: int)
    requires
        0 <= i <= k <= phases.len(),
    ensures
        steps_before(phases, i) <= steps_before(phases, k),
        i < k ==> steps_before(phases, i) + phases[i].steps.len() <= steps_before(phases, k),
    decreases k - i,
{
    if i < k {
        lemma_steps_before_mono(phases, i + 1, k);
    }
}

/// `find_current_step_title`: the title of the step with the given id, if
/// the id is given and some step has it.
pub fn find_current_step_title(plan: &Plan, current_step_id: Option<&str>) -> (r: Option<String>)
    ensures
        ostr(r) == match current_step_id {
            Some(id) => match locate(plan@, id@) {
                Some(pos) => Some(step_of(plan@, pos).title),
                None => None,
            },
            None => None,
        },
{
    match current_step_id {
        Some(id) => match locate_step(plan, id) {
            Some((i, j)) => {
                proof {
                    lemma_locate_some_iff(plan@, id@);
                }
                assert(plan@.phases[i as int].steps[j as int] == plan.phases@[i as int].steps@[j as int]@);
                Some(plan.phases[i].steps[j].title.clone())
            },
            None => None,
        },
        None => None,
    }
}

// ---------------------------------------------------------------------------
// Step-wise rewriting of a plan
// ---------------------------------------------------------------------------

/// The plan with every step rewritten by `f`; phases keep their ids and
/// titles and steps keep their order.
pub open spec fn map_steps(p: PlanModel, f: spec_fn(StepModel) -> StepModel) -> PlanModel {
    PlanModel {
        version: p.version,
        phases: Seq::new(
            p.phases.len(),
            |i: int|
                PhaseModel {
                    id: p.phases[i].id,
                    title: p.phases[i].title,
                    steps: Seq::new(p.phases[i].steps.len(), |j: int| f(p.phases[i].steps[j])),
                },
        ),
    }
}

/// The model of a step with empty fields.
pub open spec fn blank_model() -> StepModel {
    StepModel {
        id: Seq::empty(),
        title: Seq::empty(),
        summary: Seq::empty(),
        status: StepStatus::Todo,
        depends_on: Seq::empty(),
        details: Seq::empty(),
        subtasks: Seq::empty(),
        owner_session_id: None,
        completed_at: None,
        completed_by: None,
    }
}

/// A step with empty fields.
pub fn blank_step() -> (s: Step)
    ensures
        s@ == blank_model(),
{
    let s = Step {
        id: String::new(),
        title: String::new(),
        summary: String::new(),
        status: StepStatus::Todo,
        depends_on: Vec::new(),
        details: Vec::new(),
        subtasks: Vec::new(),
        owner_session_id: None,
        completed_at: None,
        completed_by: None,
    };
    assert(s@ =~= blank_model());
    s
}

/// Rewrites every step of `plan` with `f`, whose effect on a step's model
/// is `g`.
pub(crate) fn map_plan_steps<F: Fn(Step) -> Step>(
    plan: &mut Plan,
    f: F,
    Ghost(g): Ghost<spec_fn(StepModel) -> StepModel>,
)
    requires
        forall|s: Step| f.requires((s,)),
        forall|s: Step, r: Step| f.ensures((s,), r) ==> r@ == g(s@),
    ensures
        final(plan)@ == map_steps(old(plan)@, g),
{
    let ghost p0 = plan@;
    let mut phases: Vec<Phase> = Vec::new();
    std::mem::swap(&mut phases, &mut plan.phases);
    let ghost src = phases@;
    assert(p0.phases =~= phases.deep_view());
    let n = phases.len();
    let mut out: Vec<Phase> = Vec::new();
    let mut i: usize = 0;
    while i < n
        invariant
            n == phases@.len(),
            n == src.len(),
            i <= n,
            forall|k: int| i <= k < n ==> #[trigger] phases@[k] == src[k],
            forall|k: int| 0 <= k < n ==> #[trigger] p0.phases[k] == src[k]@,
            p0.phases.len() == n,
            out@.len() == i,
            forall|k: int| 0 <= k < i ==> #[trigger] out@[k]@ == map_steps(p0, g).phases[k],
            forall|s: Step| f.requires((s,)),
            forall|s: Step, r: Step| f.ensures((s,), r) ==> r@ == g(s@),
        decreases n - i,
    {
        let mut ph = Phase { id: String::new(), title: String::new(), steps: Vec::new() };
        phases.set_and_swap(i, &mut ph);
        let ghost orig = ph;
        assert(orig == src[i as int]);
        let mut steps: Vec<Step> = Vec::new();
        std::mem::swap(&mut steps, &mut ph.steps);
        let ghost ssrc = steps@;
        let m = steps.len();
        let mut new_steps: Vec<Step> = Vec::new();
        let mut j: usize = 0;
        while j < m
            invariant
                m == steps@.len(),
                m == ssrc.len(),
                j <= m,
                forall|k: int| j <= k < m ==> #[trigger] steps@[k] == ssrc[k],
                new_steps@.len() == j,
                forall|k: int| 0 <= k < j ==> #[trigger] new_steps@[k]@ == g(ssrc[k]@),
                forall|s: Step| f.requires((s,)),
                forall|s: Step, r: Step| f.ensures((s,), r) ==> r@ == g(s@),
            decreases m - j,
        {
            let mut st = blank_step();
            steps.set_and_swap(j, &mut st);
            let r = f(st);
            new_steps.push(r);
            j += 1;
        }
        let ghost mapped = map_steps(p0, g).phases[i as int];
        assert(p0.phases[i as int] == orig@);
        assert(ssrc == orig.steps@);
        assert(mapped.steps.len() == m);
        assert forall|k: int| 0 <= k < m implies #[trigger] new_steps@[k]@ == mapped.steps[k] by {
            assert(p0.phases[i as int].steps[k] == orig.steps@[k]@);
            assert(mapped.steps[k] == g(p0.phases[i as int].steps[k]));
        }
        let np = Phase { id: ph.id, title: ph.title, steps: new_steps };
        assert(np@.steps =~= mapped.steps);
        assert(np@ =~= mapped);
        out.push(np);
        i += 1;
    }
    plan.phases = out;
    assert(plan@.phases =~= map_steps(p0, g).phases);
}

/// Whether the step is held by one of the sessions in `keep`.
pub open spec fn kept_owner(s: StepModel, keep: Seq<Seq<char>>) -> bool {
    s.owner_session_id matches Some(o) && keep.contains(o)
}

/// `normalize_plan_in_progress_states` on one step: the active step, and a
/// step held by a session in `keep` (the active sessions), stay as they are;
/// any other step loses its owner, and if it is in progress or blocked it
/// becomes done when it has a completion time, to-do otherwise.
pub open spec fn normalize_step(s: StepModel, active: Option<Seq<char>>, keep: Seq<Seq<char>>) -> StepModel {
    if active == Some(s.id) || kept_owner(s, keep) {
        s
    } else {
        StepModel {
            status: if s.status == StepStatus::InProgress || s.status == StepStatus::Blocked {
                if s.completed_at is Some {
                    StepStatus::Done
                } else {
                    StepStatus::Todo
                }
            } else {
                s.status
            },
            owner_session_id: None,
            ..s
        }
    }
}

fn normalize_one(s: Step, active: &Option<String>, keep: &Vec<String>) -> (r: Step)
    ensures
        r@ == normalize_step(s@, ostr(*active), keep.deep_view()),
{
    let is_active = match active {
        Some(a) => s.id == *a,
        None => false,
    };
    let kept = match &s.owner_session_id {
        Some(o) => crate::ids::used_has(keep, o),
        None => false,
    };
    if is_active || kept {
        return s;
    }
    let mut s = s;
    if s.status == StepStatus::InProgress || s.status == StepStatus::Blocked {
        s.status = if s.completed_at.is_some() {
            StepStatus::Done
        } else {
            StepStatus::Todo
        };
    }
    s.owner_session_id = None;
    s
}

/// The rewriting of [`normalize_step`] for a given active step and kept
/// owners.
pub open spec fn normalizer(active: Option<Seq<char>>, keep: Seq<Seq<char>>) -> spec_fn(StepModel) -> StepModel {
    |s: StepModel| normalize_step(s, active, keep)
}

/// The rewriting of [`release_step`] for a given session.
pub open spec fn releaser(session_id: Seq<char>) -> spec_fn(StepModel) -> StepModel {
    |s: StepModel| release_step(s, session_id)
}

/// `normalize_plan_in_progress_states`: every step other than the active one
/// and those held by a session in `keep_owners` loses its owner, and an
/// in-progress or blocked one becomes done when it has a completion time,
/// to-do otherwise.
pub fn normalize_plan_in_progress_states(plan: &mut Plan, active_step_id: Option<&str>, keep_owners: &Vec<String>)
    ensures
        final(plan)@ == map_steps(
            old(plan)@,
            normalizer(
                match active_step_id {
                    Some(a) => Some(a@),
                    None => None,
                },
                keep_owners.deep_view(),
            ),
        ),
{
    let active: Option<String> = match active_step_id {
        Some(a) => Some(String::from_str(a)),
        None => None,
    };
    let ghost am = ostr(active);
    let ar = &active;
    let f = |s: Step| -> (r: Step)
        ensures
            r@ == normalize_step(s@, ostr(*ar), keep_owners.deep_view()),
        { normalize_one(s, ar, keep_owners) };
    map_plan_steps(plan, f, Ghost(normalizer(am, keep_owners.deep_view())));
    assert(am == match active_step_id {
        Some(a) => Some(a@),
        None => None::<Seq<char>>,
    });
}

/// `release_ownership` on one step.
pub open spec fn release_step(s: StepModel, session_id: Seq<char>) -> StepModel {
    if s.owner_session_id == Some(session_id) {
        StepModel {
            owner_session_id: None,
            status: if s.status == StepStatus::InProgress || s.status == StepStatus::Blocked {
                StepStatus::Todo
            } else {
                s.status
            },
            ..s
        }
    } else {
        s
    }
}

fn release_one(s: Step, session_id: &String) -> (r: Step)
    ensures
        r@ == release_step(s@, session_id@),
{
    let owned = match &s.owner_session_id {
        Some(o) => *o == *session_id,
        None => false,
    };
    if !owned {
        return s;
    }
    let mut s = s;
    s.owner_session_id = None;
    if s.status == StepStatus::InProgress || s.status == StepStatus::Blocked {
        s.status = StepStatus::Todo;
    }
    s
}

/// `release_ownership`: every step owned by the session loses its owner, and
/// an in-progress or blocked one goes back to to-do.
pub fn release_ownership(plan: &mut Plan, session_id: &str)
    ensures
        final(plan)@ == map_steps(old(plan)@, releaser(session_id@)),
{
    let sid = String::from_str(session_id);
    let ghost sm = sid@;
    let sr = &sid;
    let f = |s: Step| -> (r: Step)
        ensures
            r@ == release_step(s@, sr@),
        { release_one(s, sr) };
    map_plan_steps(plan, f, Ghost(releaser(sm)));
}

// ---------------------------------------------------------------------------
// Single-step updates
// ---------------------------------------------------------------------------

/// The plan with the step at `(i, j)` replaced by `s`.
pub open spec fn set_step(p: PlanModel, i: int, j: int, s: StepModel) -> PlanModel {
    PlanModel {
        phases: p.phases.update(i, PhaseModel { steps: p.phases[i].steps.update(j, s), ..p.phases[i] }),
        ..p
    }
}

/// Takes the step at `(i, j)` out of the plan, leaving a blank step there.
pub fn take_step(plan: &mut Plan, i: usize, j: usize) -> (r: Step)
    requires
        valid_pos(old(plan)@, (i as int, j as int)),
    ensures
        r@ == step_of(old(plan)@, (i as int, j as int)),
        final(plan)@ == set_step(old(plan)@, i as int, j as int, blank_model()),
{
    let ghost p0 = plan@;
    let mut ph = Phase { id: String::new(), title: String::new(), steps: Vec::new() };
    plan.phases.set_and_swap(i, &mut ph);
    assert(ph@ == p0.phases[i as int]);
    let mut st = blank_step();
    let ghost b = st@;
    ph.steps.set_and_swap(j, &mut st);
    plan.phases.set(i, ph);
    assert(plan@.phases[i as int].steps =~= p0.phases[i as int].steps.update(j as int, b));
    assert(plan@.phases =~= set_step(p0, i as int, j as int, b).phases);
    st
}

/// Puts `s` at position `(i, j)` of the plan.
pub fn put_step(plan: &mut Plan, i: usize, j: usize, s: Step)
    requires
        valid_pos(old(plan)@, (i as int, j as int)),
    ensures
        final(plan)@ == set_step(old(plan)@, i as int, j as int, s@),
{
    let ghost p0 = plan@;
    let ghost sm = s@;
    let mut ph = Phase { id: String::new(), title: String::new(), steps: Vec::new() };
    plan.phases.set_and_swap(i, &mut ph);
    assert(ph@ == p0.phases[i as int]);
    ph.steps.set(j, s);
    plan.phases.set(i, ph);
    assert(plan@.phases[i as int].steps =~= p0.phases[i as int].steps.update(j as int, sm));
    assert(plan@.phases =~= set_step(p0, i as int, j as int, sm).phases);
}

/// When a rewriting keeps what a predicate sees, the first step that
/// satisfies it stays where it was.
pub proof fn lemma_first_step_map(
    p: PlanModel,
    f: spec_fn(StepModel) -> StepModel,
    pred1: spec_fn(StepModel) -> bool,
    pred2: spec_fn(StepModel) -> bool,
)
    requires
        forall|s: StepModel| #[trigger] pred2(f(s)) == pred1(s),
    ensures
        first_step(map_steps(p, f), pred2) == first_step(p, pred1),
{
    let q = map_steps(p, f);
    assert forall|i: int| 0 <= i <= p.phases.len() implies first_step_from(q.phases, pred2, i)
        == first_step_from(p.phases, pred1, i) by {
        lemma_first_step_from_map(p, f, pred1, pred2, i);
    }
}

proof fn lemma_first_in_steps_map(
    steps: Seq<StepModel>,
    f: spec_fn(StepModel) -> StepModel,
    pred1: spec_fn(StepModel) -> bool,
    pred2: spec_fn(StepModel) -> bool,
    j: int,
)
    requires
        0 <= j,
        forall|s: StepModel| #[trigger] pred2(f(s)) == pred1(s),
    ensures
        first_in_steps(Seq::new(steps.len(), |k: int| f(steps[k])), pred2, j) == first_in_steps(
            steps,
            pred1,
            j,
        ),
    decreases steps.len() - j,
{
    if j < steps.len() {
        lemma_first_in_steps_map(steps, f, pred1, pred2, j + 1);
        assert(Seq::new(steps.len(), |k: int| f(steps[k]))[j] == f(steps[j]));
    }
}

proof fn lemma_first_step_from_map(
    p: PlanModel,
    f: spec_fn(StepModel) -> StepModel,
    pred1: spec_fn(StepModel) -> bool,
    pred2: spec_fn(StepModel) -> bool,
    i: int,
)
    requires
        0 <= i,
        forall|s: StepModel| #[trigger] pred2(f(s)) == pred1(s),
    ensures
        first_step_from(map_steps(p, f).phases, pred2, i) == first_step_from(p.phases, pred1, i),
    decreases p.phases.len() - i,
{
    if i < p.phases.len() {
        lemma_first_step_from_map(p, f, pred1, pred2, i + 1);
        lemma_first_in_steps_map(p.phases[i].steps, f, pred1, pred2, 0);
    }
}

/// Rewritings that keep step ids keep where each id is found.
pub proof fn lemma_locate_map(p: PlanModel, f: spec_fn(StepModel) -> StepModel, id: Seq<char>)
    requires
        forall|s: StepModel| (#[trigger] f(s)).id == s.id,
    ensures
        locate(map_steps(p, f), id) == locate(p, id),
{
    assert forall|s: StepModel| #[trigger] id_is(id)(f(s)) == id_is(id)(s) by {
        assert(f(s).id == s.id);
    }
    lemma_first_step_map(p, f, id_is(id), id_is(id));
}

/// Setting a step twice keeps the second.
pub proof fn lemma_set_step_twice(p: PlanModel, i: int, j: int, a: StepModel, b: StepModel)
    requires
        valid_pos(p, (i, j)),
    ensures
        set_step(set_step(p, i, j, a), i, j, b) == set_step(p, i, j, b),
{
    let q = set_step(set_step(p, i, j, a), i, j, b);
    let r = set_step(p, i, j, b);
    assert(q.phases[i].steps =~= r.phases[i].steps);
    assert(q.phases[i] =~= r.phases[i]);
    assert(q.phases =~= r.phases);
}

} // verus!
