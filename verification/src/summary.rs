//! What a project looks like from outside: the files a new project starts
//! with, the summary the index keeps of it, whether it went stale, and the
//! board's view of its active work.
use crate::handoff::status_word;
use crate::ids::{short_uuid, slug, slugify, is_uuid_char};
use crate::models::{DiscoverySource, 
    ostr, ActivityEvent, BoardProjectDetail, BoardStepDetail, InitProjectInput, Manifest, Phase,
    Plan, PlanModel, ProjectSummary, RuntimeState, SessionModel, SessionStatus, Step, StepModel,
    StepStatus, WorkflowSession};
use crate::plan::{done_steps, find_current_step_title, get_plan_progress, locate, locate_step, step_of, total_steps};
use crate::runtime::{get_next_actionable_step, next_actionable};
use crate::sessions::{active_ids, active_session_ids};
use crate::text::{concat3, less_than, chars_of, owned, seq_lt};

use vstd::prelude::*;

verus! {

// ---------------------------------------------------------------------------
// A new project's files
// ---------------------------------------------------------------------------

/// The text of the default step.
pub open spec fn default_step_text() -> Seq<char> {
    "Write the initial problem statement and success criteria."@
}

/// `create_default_plan`: one phase, `define`, with one step,
/// `capture-requirements`, to do.
pub fn create_default_plan() -> (r: Plan)
    ensures
        r@.version == 2,
        r@.phases.len() == 1,
        r@.phases[0].id == "define"@,
        r@.phases[0].title == "Define"@,
        r@.phases[0].steps.len() == 1,
        r@.phases[0].steps[0] == (StepModel {
            id: "capture-requirements"@,
            title: "Capture requirements"@,
            summary: default_step_text(),
            status: StepStatus::Todo,
            depends_on: Seq::empty(),
            details: seq![default_step_text()],
            subtasks: Seq::empty(),
            owner_session_id: None,
            completed_at: None,
            completed_by: None,
        }),
{
    let mut details: Vec<String> = Vec::new();
    details.push(owned("Write the initial problem statement and success criteria."));
    let step = Step {
        id: owned("capture-requirements"),
        title: owned("Capture requirements"),
        summary: owned("Write the initial problem statement and success criteria."),
        details,
        depends_on: Vec::new(),
        subtasks: Vec::new(),
        status: StepStatus::Todo,
        owner_session_id: None,
        completed_at: None,
        completed_by: None,
    };
    let mut steps: Vec<Step> = Vec::new();
    steps.push(step);
    let mut phases: Vec<Phase> = Vec::new();
    phases.push(Phase { id: owned("define"), title: owned("Define"), steps });
    let p = Plan { version: 2, phases };
    assert(p@.phases[0].steps[0].details =~= seq![default_step_text()]);
    assert(p@.phases[0].steps[0].depends_on =~= Seq::<Seq<char>>::empty());
    assert(p@.phases[0].steps[0].subtasks =~= Seq::<crate::models::SubtaskModel>::empty());
    p
}

/// `create_default_runtime`: focused on the first actionable step, to do;
/// or, without one, done with the next action of adding a step.
pub fn create_default_runtime(plan: &Plan, active_branch: Option<String>, timestamp: &str) -> (r: RuntimeState)
    ensures
        r@.version == 2,
        r@.focus_session_id is None,
        r@.blockers.len() == 0,
        r@.last_updated_at == timestamp@,
        r@.active_branch == ostr(active_branch),
        r@.active_session_ids.len() == 0,
        match next_actionable(plan@) {
            Some(pos) => {
                &&& r@.current_phase_id == Some(plan@.phases[pos.0].id)
                &&& r@.current_step_id == Some(step_of(plan@, pos).id)
                &&& r@.next_action == "Start \""@ + step_of(plan@, pos).title + "\""@
                &&& r@.status == StepStatus::Todo
            },
            None => {
                &&& r@.current_phase_id is None
                &&& r@.current_step_id is None
                &&& r@.next_action == "Add the first project step"@
                &&& r@.status == StepStatus::Done
            },
        },
{
    let first = get_next_actionable_step(plan);
    let r = match first {
        Some((i, j)) => {
            proof {
                crate::plan::lemma_first_step(plan@, crate::runtime::actionable_in(plan@));
            }
            assert(plan@.phases[i as int] == plan.phases@[i as int]@);
            assert(step_of(plan@, (i as int, j as int)) == plan.phases@[i as int].steps@[j as int]@);
            RuntimeState {
                version: 2,
                current_phase_id: Some(plan.phases[i].id.clone()),
                current_step_id: Some(plan.phases[i].steps[j].id.clone()),
                focus_session_id: None,
                next_action: concat3("Start \"", plan.phases[i].steps[j].title.as_str(), "\""),
                status: StepStatus::Todo,
                blockers: Vec::new(),
                last_updated_at: owned(timestamp),
                active_branch,
                active_session_ids: Vec::new(),
            }
        },
        None => RuntimeState {
            version: 2,
            current_phase_id: None,
            current_step_id: None,
            focus_session_id: None,
            next_action: owned("Add the first project step"),
            status: StepStatus::Done,
            blockers: Vec::new(),
            last_updated_at: owned(timestamp),
            active_branch,
            active_session_ids: Vec::new(),
        },
    };
    assert(r@.blockers =~= Seq::<Seq<char>>::empty());
    assert(r@.active_session_ids =~= Seq::<Seq<char>>::empty());
    r
}

/// What `Path::file_name` gives for a path: its last component, when it is
/// a name.
pub uninterp spec fn path_file_name(p: Seq<char>) -> Option<Seq<char>>;

/// The last component of a path: std `Path::file_name`, as text.
/// Claimed: the result is [`path_file_name`] of the path, a function of it
/// alone.
#[verifier::external_body]
fn file_name(p: &str) -> (r: Option<String>)
    ensures
        ostr(r) == path_file_name(p@),
{
    std::path::Path::new(p).file_name().and_then(|v| v.to_str()).map(|v| v.to_string())
}

/// The default name of a project: the last component of its root.
pub open spec fn root_name(root: Seq<char>, fallback: Seq<char>) -> Seq<char> {
    match path_file_name(root) {
        Some(n) => n,
        None => fallback,
    }
}

/// `create_default_manifest`: the given name (else the root's last
/// component, else `project`), an id of the name's slug and eight fresh
/// characters of a UUID, and the given kind, owner and tags (by default
/// `software`, the actor, none).
pub fn create_default_manifest(root: &str, input: &InitProjectInput, timestamp: &str) -> (r: Manifest)
    ensures
        r.version == 1,
        r.name@ == match input.name {
            Some(n) => n@,
            None => root_name(root@, "project"@),
        },
        exists|u: Seq<char>|
            u.len() == 8 && (forall|i: int| 0 <= i < 8 ==> is_uuid_char(#[trigger] u[i])) && r.id@ == slug(r.name@)
                + "-"@ + u,
        r.root@ == root@,
        r.kind@ == match input.kind {
            Some(k) => k@,
            None => "software"@,
        },
        r.owner@ == match input.owner {
            Some(o) => o@,
            None => input.actor@,
        },
        r.tags.deep_view() == match input.tags {
            Some(t) => t.deep_view(),
            None => Seq::empty(),
        },
        r.created_at@ == timestamp@,
{
    let name = match &input.name {
        Some(n) => n.clone(),
        None => match file_name(root) {
            Some(n) => n,
            None => owned("project"),
        },
    };
    let s = slugify(name.as_str());
    let u = short_uuid();
    let id = concat3(s.as_str(), "-", u.as_str());
    let tags = match &input.tags {
        Some(t) => crate::models::copy_strings(t),
        None => {
            let v: Vec<String> = Vec::new();
            assert(v.deep_view() =~= Seq::<Seq<char>>::empty());
            v
        },
    };
    Manifest {
        version: 1,
        id,
        name,
        root: owned(root),
        kind: match &input.kind {
            Some(k) => k.clone(),
            None => owned("software"),
        },
        owner: match &input.owner {
            Some(o) => o.clone(),
            None => input.actor.clone(),
        },
        tags,
        created_at: owned(timestamp),
    }
}

// ---------------------------------------------------------------------------
// Staleness
// ---------------------------------------------------------------------------

/// Nanoseconds in a week.
pub open spec fn week_nanos() -> int {
    604_800_000_000_000int
}

/// What chrono reads from an RFC 3339 timestamp, as nanoseconds since the
/// epoch (`DateTime::parse_from_rfc3339`; `None` when it does not parse).
pub uninterp spec fn rfc3339_nanos(text: Seq<char>) -> Option<int>;

/// A time as whole seconds since the epoch and the nanoseconds past them.
pub open spec fn nanos_of(t: (i64, u32)) -> int {
    t.0 as int * 1_000_000_000 + t.1 as int
}

/// chrono `DateTime::parse_from_rfc3339`, then `DateTime::timestamp` and
/// `DateTime::timestamp_subsec_nanos`, which take any time chrono can hold.
/// Claimed: the time is [`rfc3339_nanos`] of the text, a function of it
/// alone; `None` exactly when that is `None`.
#[verifier::external_body]
fn parse_rfc3339(text: &str) -> (r: Option<(i64, u32)>)
    ensures
        match r {
            Some(t) => rfc3339_nanos(text@) == Some(nanos_of(t)),
            None => rfc3339_nanos(text@) is None,
        },
{
    chrono::DateTime::parse_from_rfc3339(text).ok().map(|d| (d.timestamp(), d.timestamp_subsec_nanos()))
}

/// The current time: chrono `Utc::now`, as `timestamp` and
/// `timestamp_subsec_nanos`. Nothing is claimed of it: it is the clock.
#[verifier::external_body]
fn now_time() -> (r: (i64, u32)) {
    let now = chrono::Utc::now();
    (now.timestamp(), now.timestamp_subsec_nanos())
}

/// Whether a project is stale, given when its runtime was last updated
/// (`None` without a readable time) and the time now, in nanoseconds: a
/// missing repository always is; otherwise a runtime untouched for a week or
/// more.
pub open spec fn stale_given(repo_exists: bool, has_runtime: bool, updated: Option<int>, now: int) -> bool {
    if !repo_exists {
        true
    } else if !has_runtime {
        false
    } else {
        match updated {
            Some(u) => now - u >= week_nanos(),
            None => false,
        }
    }
}

/// The staleness decision for the given times (seconds and nanoseconds).
pub fn stale_at(repo_exists: bool, has_runtime: bool, updated: Option<(i64, u32)>, now: (i64, u32)) -> (r: bool)
    ensures
        r == stale_given(
            repo_exists,
            has_runtime,
            match updated {
                Some(u) => Some(nanos_of(u)),
                None => None,
            },
            nanos_of(now),
        ),
{
    if !repo_exists {
        return true;
    }
    if !has_runtime {
        return false;
    }
    match updated {
        Some(u) => {
            let ds: i128 = (now.0 as i128) - (u.0 as i128);
            assert(-0x1_0000_0000_0000_0000 < ds < 0x1_0000_0000_0000_0000);
            let dn: i128 = (now.1 as i128) - (u.1 as i128);
            assert(ds * 1_000_000_000 + dn == nanos_of(now) - nanos_of(u)) by (nonlinear_arith)
                requires
                    ds == now.0 as int - u.0 as int,
                    dn == now.1 as int - u.1 as int,
            ;
            assert(-0x1_0000_0000_0000_0000 * 1_000_000_000 < ds * 1_000_000_000 < 0x1_0000_0000_0000_0000
                * 1_000_000_000) by (nonlinear_arith)
                requires
                    -0x1_0000_0000_0000_0000 < ds < 0x1_0000_0000_0000_0000,
            ;
            ds * 1_000_000_000 + dn >= 604_800_000_000_000i128
        },
        None => false,
    }
}

/// When a runtime was last updated, in nanoseconds since the epoch.
pub open spec fn updated_nanos(runtime: Option<&RuntimeState>) -> Option<int> {
    match runtime {
        Some(rt) => rfc3339_nanos(rt.last_updated_at@),
        None => None,
    }
}

/// `determine_project_stale`: stale when the repository is missing, or when
/// the runtime was last updated a week or more before now.
pub fn determine_project_stale(runtime: Option<&RuntimeState>, repo_exists: bool) -> (r: bool)
    ensures
        exists|now: int| r == #[trigger] stale_given(repo_exists, runtime is Some, updated_nanos(runtime), now),
{
    if !repo_exists {
        let r = stale_at(repo_exists, runtime.is_some(), None, (0, 0));
        assert(r == stale_given(repo_exists, runtime is Some, updated_nanos(runtime), 0));
        return r;
    }
    match runtime {
        None => {
            let r = stale_at(repo_exists, false, None, (0, 0));
            assert(r == stale_given(repo_exists, false, None, 0));
            r
        },
        Some(rt) => {
            let updated = parse_rfc3339(rt.last_updated_at.as_str());
            let now = now_time();
            let r = stale_at(repo_exists, true, updated, now);
            assert(r == stale_given(repo_exists, true, rfc3339_nanos(rt.last_updated_at@), nanos_of(now)));
            r
        },
    }
}

// ---------------------------------------------------------------------------
// Summaries
// ---------------------------------------------------------------------------

/// `build_initialized_project_summary` from the project's files (the
/// manifest, plan, runtime, sessions and pending proposals), whether the
/// repository exists, and when it was seen.
pub fn build_initialized_project_summary(
    root: &str,
    manifest: Manifest,
    plan: &Plan,
    runtime: &RuntimeState,
    sessions: &Vec<WorkflowSession>,
    pending_proposals: usize,
    repo_exists: bool,
    last_seen_at: String,
) -> (r: ProjectSummary)
    requires
        total_steps(plan@) <= i64::MAX,
        runtime.blockers@.len() <= i64::MAX,
        sessions@.len() <= i64::MAX,
        pending_proposals <= i64::MAX,
    ensures
        ostr(r.id) == Some(manifest.id@),
        r.name@ == manifest.name@,
        r.root@ == root@,
        ostr(r.kind) == Some(manifest.kind@),
        ostr(r.owner) == Some(manifest.owner@),
        r.tags == manifest.tags,
        r.initialized,
        r.status@ == status_word(runtime.status),
        exists|now: int|
            r.stale == #[trigger] stale_given(repo_exists, true, rfc3339_nanos(runtime.last_updated_at@), now),
        r.missing == !repo_exists,
        ostr(r.current_step_id) == ostr(runtime.current_step_id),
        ostr(r.current_step_title) == match ostr(runtime.current_step_id) {
            Some(id) => match locate(plan@, id) {
                Some(pos) => Some(step_of(plan@, pos).title),
                None => None,
            },
            None => None,
        },
        r.blocker_count == runtime.blockers@.len(),
        r.total_step_count == total_steps(plan@),
        r.completed_step_count == done_steps(plan@),
        r.active_session_count == active_ids(sessions.deep_view()).len(),
        ostr(r.focus_session_id) == ostr(runtime.focus_session_id),
        ostr(r.last_updated_at) == Some(runtime.last_updated_at@),
        ostr(r.next_action) == Some(runtime.next_action@),
        ostr(r.active_branch) == ostr(runtime.active_branch),
        r.pending_proposal_count == pending_proposals,
        r.discovery_source == Some(DiscoverySource::Parallel),
        r.discovery_path is None,
        r.last_seen_at == Some(last_seen_at),
{
    let (total, completed) = get_plan_progress(plan);
    let title = match &runtime.current_step_id {
        Some(id) => find_current_step_title(plan, Some(id.as_str())),
        None => None,
    };
    let active = active_session_ids(sessions);
    proof {
        sessions.deep_view().lemma_filter_len(crate::sessions::is_active_session());
    }
    let stale = determine_project_stale(Some(runtime), repo_exists);
    let status = crate::handoff::status_text(runtime.status);
    let Manifest { version: _, id, name, root: _, kind, owner, tags, created_at: _ } = manifest;
    ProjectSummary {
        id: Some(id),
        name,
        root: owned(root),
        kind: Some(kind),
        owner: Some(owner),
        tags,
        initialized: true,
        status,
        stale,
        missing: !repo_exists,
        current_step_id: crate::models::copy_opt(&runtime.current_step_id),
        current_step_title: title,
        blocker_count: runtime.blockers.len() as i64,
        total_step_count: total,
        completed_step_count: completed,
        active_session_count: active.len() as i64,
        focus_session_id: crate::models::copy_opt(&runtime.focus_session_id),
        last_updated_at: Some(runtime.last_updated_at.clone()),
        next_action: Some(runtime.next_action.clone()),
        active_branch: crate::models::copy_opt(&runtime.active_branch),
        pending_proposal_count: pending_proposals as i64,
        discovery_source: Some(DiscoverySource::Parallel),
        discovery_path: None,
        last_seen_at: Some(last_seen_at),
    }
}

/// `build_uninitialized_project_summary`: a repository without workflow
/// files, named by its root's last component, with the branch its HEAD
/// names.
pub fn build_uninitialized_project_summary(
    root: &str,
    repo_exists: bool,
    active_branch: Option<String>,
    last_seen_at: String,
) -> (r: ProjectSummary)
    ensures
        r.id is None,
        r.name@ == root_name(root@, root@),
        r.root@ == root@,
        r.kind is None,
        r.owner is None,
        r.tags@.len() == 0,
        !r.initialized,
        r.status@ == "uninitialized"@,
        r.stale == !repo_exists,
        r.missing == !repo_exists,
        r.current_step_id is None,
        r.current_step_title is None,
        r.blocker_count == 0,
        r.total_step_count == 0,
        r.completed_step_count == 0,
        r.active_session_count == 0,
        r.focus_session_id is None,
        r.last_updated_at is None,
        ostr(r.next_action) == Some("Initialize workflow metadata"@),
        r.active_branch == active_branch,
        r.pending_proposal_count == 0,
        r.discovery_source is None,
        r.discovery_path is None,
        r.last_seen_at == Some(last_seen_at),
{
    let name = match file_name(root) {
        Some(n) => n,
        None => owned(root),
    };
    ProjectSummary {
        id: None,
        name,
        root: owned(root),
        kind: None,
        owner: None,
        tags: Vec::new(),
        initialized: false,
        status: owned("uninitialized"),
        stale: !repo_exists,
        missing: !repo_exists,
        current_step_id: None,
        current_step_title: None,
        blocker_count: 0,
        total_step_count: 0,
        completed_step_count: 0,
        active_session_count: 0,
        focus_session_id: None,
        last_updated_at: None,
        next_action: Some(owned("Initialize workflow metadata")),
        active_branch,
        pending_proposal_count: 0,
        discovery_source: None,
        discovery_path: None,
        last_seen_at: Some(last_seen_at),
    }
}

// ---------------------------------------------------------------------------
// The board
// ---------------------------------------------------------------------------

/// The predicate "the element's key comes before `k`".
pub open spec fn below<A>(key: spec_fn(A) -> Seq<char>, k: Seq<char>) -> spec_fn(A) -> bool {
    |e: A| seq_lt(key(e), k)
}

/// Where a stable sort from latest to earliest puts an element with key
/// `k` among the sorted `t`: before the first element with an earlier key.
pub open spec fn insert_pos<A>(t: Seq<A>, k: Seq<char>, key: spec_fn(A) -> Seq<char>) -> int {
    match crate::sync::first_index(t, below(key, k)) {
        Some(i) => i,
        None => t.len() as int,
    }
}

/// A stable sort from the latest key to the earliest (`sort_by` with the
/// comparison reversed): each element in turn goes after those whose keys
/// are not earlier than its own.
pub open spec fn sort_desc<A>(s: Seq<A>, key: spec_fn(A) -> Seq<char>) -> Seq<A>
    decreases s.len(),
{
    if s.len() == 0 {
        s
    } else {
        let t = sort_desc(s.drop_last(), key);
        t.insert(insert_pos(t, key(s.last()), key), s.last())
    }
}

pub open spec fn timestamp_key() -> spec_fn(ActivityEvent) -> Seq<char> {
    |e: ActivityEvent| e.timestamp@
}

pub open spec fn updated_key() -> spec_fn(SessionModel) -> Seq<char> {
    |s: SessionModel| s.last_updated_at
}

proof fn lemma_sort_desc_len<A>(s: Seq<A>, key: spec_fn(A) -> Seq<char>)
    ensures
        sort_desc(s, key).len() == s.len(),
    decreases s.len(),
{
    if s.len() > 0 {
        lemma_sort_desc_len(s.drop_last(), key);
        crate::sync::lemma_first_index_range(sort_desc(s.drop_last(), key), below(key, key(s.last())));
    }
}

/// The events sorted from the latest timestamp to the earliest.
fn sort_events_desc(events: Vec<ActivityEvent>) -> (r: Vec<ActivityEvent>)
    ensures
        r@ == sort_desc(events@, timestamp_key()),
{
    let ghost orig = events@;
    let total: usize = events.len();
    let mut rest = events;
    let mut out: Vec<ActivityEvent> = Vec::new();
    let mut k: usize = 0;
    while rest.len() > 0
        invariant
            orig.len() == total,
            k <= orig.len(),
            rest@ == orig.skip(k as int),
            out@ == sort_desc(orig.take(k as int), timestamp_key()),
        decreases rest@.len(),
    {
        assert(orig.skip(k as int).len() == orig.len() - k);
        let x = rest.remove(0);
        assert(x == orig[k as int]);
        assert(orig.take(k as int + 1).drop_last() =~= orig.take(k as int));
        assert(orig.skip(k as int).remove(0) =~= orig.skip(k as int + 1));
        let ghost t = out@;
        proof {
            lemma_sort_desc_len(orig.take(k as int), timestamp_key());
        }
        let xk = chars_of(x.timestamp.as_str());
        let mut i: usize = 0;
        while i < out.len() && !less_than(&chars_of(out[i].timestamp.as_str()), &xk)
            invariant
                t == out@,
                xk@ == x.timestamp@,
                i <= t.len(),
                crate::sync::first_index(t.take(i as int), below(timestamp_key(), x.timestamp@)) is None,
            decreases t.len() - i,
        {
            assert(t.take(i as int + 1).drop_last() =~= t.take(i as int));
            i += 1;
        }
        proof {
            if i < t.len() {
                assert(t.take(i as int + 1).drop_last() =~= t.take(i as int));
                crate::sync::lemma_first_index_prefix(t, below(timestamp_key(), x.timestamp@), i as int + 1);
            } else {
                assert(t.take(t.len() as int) =~= t);
            }
        }
        out.insert(i, x);
        k += 1;
    }
    assert(orig.take(orig.len() as int) =~= orig);
    out
}

/// The sessions sorted from the latest update to the earliest.
fn sort_sessions_desc(sessions: Vec<WorkflowSession>) -> (r: Vec<WorkflowSession>)
    ensures
        r.deep_view() == sort_desc(sessions.deep_view(), updated_key()),
{
    let ghost orig = sessions.deep_view();
    let total: usize = sessions.len();
    let mut rest = sessions;
    let mut out: Vec<WorkflowSession> = Vec::new();
    let mut k: usize = 0;
    while rest.len() > 0
        invariant
            orig.len() == total,
            k <= orig.len(),
            rest.deep_view() == orig.skip(k as int),
            out.deep_view() == sort_desc(orig.take(k as int), updated_key()),
        decreases rest@.len(),
    {
        let ghost before_rest = rest;
        assert(orig.skip(k as int).len() == orig.len() - k);
        let x = rest.remove(0);
        proof {
            crate::models::lemma_deep_remove_first(before_rest, rest, x);
        }
        assert(x@ == orig[k as int]);
        assert(rest.deep_view() =~= orig.skip(k as int + 1));
        assert(orig.take(k as int + 1).drop_last() =~= orig.take(k as int));
        let ghost t = out.deep_view();
        proof {
            lemma_sort_desc_len(orig.take(k as int), updated_key());
        }
        let xk = chars_of(x.last_updated_at.as_str());
        let mut i: usize = 0;
        while i < out.len() && !less_than(&chars_of(out[i].last_updated_at.as_str()), &xk)
            invariant
                t == out.deep_view(),
                xk@ == x@.last_updated_at,
                i <= t.len(),
                crate::sync::first_index(t.take(i as int), below(updated_key(), x@.last_updated_at)) is None,
            decreases t.len() - i,
        {
            assert(t.take(i as int + 1).drop_last() =~= t.take(i as int));
            assert(t[i as int] == out@[i as int]@);
            i += 1;
        }
        proof {
            if i < t.len() {
                assert(t[i as int] == out@[i as int]@);
                assert(t.take(i as int + 1).drop_last() =~= t.take(i as int));
                crate::sync::lemma_first_index_prefix(t, below(updated_key(), x@.last_updated_at), i as int + 1);
            } else {
                assert(t.take(t.len() as int) =~= t);
            }
        }
        let ghost before = out;
        let ghost xv = x;
        out.insert(i, x);
        proof {
            crate::models::lemma_deep_insert(before, out, i as int, xv);
        }
        k += 1;
    }
    assert(orig.take(orig.len() as int) =~= orig);
    out
}

/// The active sessions, in order.
fn active_sessions(sessions: Vec<WorkflowSession>) -> (r: Vec<WorkflowSession>)
    ensures
        r.deep_view() == sessions.deep_view().filter(crate::sessions::is_active_session()),
{
    let ghost orig = sessions.deep_view();
    let total: usize = sessions.len();
    let mut rest = sessions;
    let mut out: Vec<WorkflowSession> = Vec::new();
    let mut k: usize = 0;
    while rest.len() > 0
        invariant
            orig.len() == total,
            k <= orig.len(),
            rest.deep_view() == orig.skip(k as int),
            out.deep_view() == orig.take(k as int).filter(crate::sessions::is_active_session()),
        decreases rest@.len(),
    {
        let ghost before_rest = rest;
        assert(orig.skip(k as int).len() == orig.len() - k);
        let x = rest.remove(0);
        proof {
            crate::models::lemma_deep_remove_first(before_rest, rest, x);
        }
        assert(x@ == orig[k as int]);
        assert(rest.deep_view() =~= orig.skip(k as int + 1));
        assert(orig.take(k as int + 1).drop_last() =~= orig.take(k as int));
        proof {
            reveal(Seq::filter);
        }
        if x.status == SessionStatus::Active {
            let ghost before = out;
            let ghost xv = x;
            out.push(x);
            proof {
                crate::models::lemma_deep_push(before, out, xv);
            }
        }
        k += 1;
    }
    assert(orig.take(orig.len() as int) =~= orig);
    out
}

/// The steps the board details: those the active sessions own and the
/// current one, each by its id, when a step has it.
pub open spec fn board_step_ids(p: PlanModel, active: Seq<SessionModel>, current: Option<Seq<char>>) -> Seq<Seq<char>>
    decreases active.len(),
{
    if active.len() == 0 {
        match current {
            Some(c) => if locate(p, c) is Some {
                seq![c]
            } else {
                Seq::empty()
            },
            None => Seq::empty(),
        }
    } else {
        let rest = board_step_ids(p, active.drop_first(), current);
        match active[0].owned_step_id {
            Some(id) => if locate(p, id) is Some {
                seq![id] + rest
            } else {
                rest
            },
            None => rest,
        }
    }
}

proof fn lemma_board_ids_locate(p: PlanModel, active: Seq<SessionModel>, current: Option<Seq<char>>)
    ensures
        forall|x: Seq<char>| board_step_ids(p, active, current).contains(x) ==> locate(p, x) is Some,
    decreases active.len(),
{
    let ids = board_step_ids(p, active, current);
    if active.len() == 0 {
        assert forall|x: Seq<char>| ids.contains(x) implies locate(p, x) is Some by {
            let k = choose|k: int| 0 <= k < ids.len() && ids[k] == x;
            assert(current matches Some(c) && ids == seq![c] && locate(p, c) is Some);
        }
    } else {
        lemma_board_ids_locate(p, active.drop_first(), current);
        let rest = board_step_ids(p, active.drop_first(), current);
        assert forall|x: Seq<char>| ids.contains(x) implies locate(p, x) is Some by {
            let k = choose|k: int| 0 <= k < ids.len() && ids[k] == x;
            match active[0].owned_step_id {
                Some(id) => {
                    if locate(p, id) is Some {
                        assert(ids == seq![id] + rest);
                        if k > 0 {
                            assert(rest[k - 1] == x);
                            assert(rest.contains(x));
                        } else {
                            assert(x == id);
                        }
                    } else {
                        assert(rest[k] == x);
                        assert(rest.contains(x));
                    }
                },
                None => {
                    assert(rest[k] == x);
                    assert(rest.contains(x));
                },
            }
        }
    }
}

/// Whether a lookup entry holds the title and summary of the step its key
/// locates.
pub open spec fn detail_of_step(p: PlanModel, e: (String, BoardStepDetail)) -> bool {
    locate(p, e.0@) matches Some(pos) && e.1.title@ == step_of(p, pos).title && e.1.summary@ == step_of(p, pos).summary
}

/// `board_project_detail` from the project's plan, runtime, sessions and
/// recent activity: the active sessions from the latest update on, the five
/// latest events, and the title and summary of each step the active
/// sessions own or the runtime is on, ordered by step id.
pub fn board_project_detail(
    root: &str,
    plan: &Plan,
    runtime: RuntimeState,
    sessions: Vec<WorkflowSession>,
    recent_activity: Vec<ActivityEvent>,
) -> (r: BoardProjectDetail)
    ensures
        r.root@ == root@,
        r.sessions.deep_view() == sort_desc(
            sessions.deep_view().filter(crate::sessions::is_active_session()),
            updated_key(),
        ),
        r.recent_activity@ == sort_desc(recent_activity@, timestamp_key()).take(
            if recent_activity@.len() < 5 {
                recent_activity@.len() as int
            } else {
                5
            },
        ),
        r.runtime_next_action == runtime.next_action,
        r.blockers == runtime.blockers,
        r.active_step_lookup@.map_values(|e: (String, BoardStepDetail)| e.0@) == crate::roots::sorted_form(
            board_step_ids(
                plan@,
                sessions.deep_view().filter(crate::sessions::is_active_session()),
                ostr(runtime.current_step_id),
            ),
        ),
        forall|i: int|
            0 <= i < r.active_step_lookup@.len() ==> detail_of_step(plan@, #[trigger] r.active_step_lookup@[i]),
{
    let active = active_sessions(sessions);
    let ghost act = active.deep_view();
    let mut events = sort_events_desc(recent_activity);
    proof {
        lemma_sort_desc_len(recent_activity@, timestamp_key());
    }
    events.truncate(5);
    let mut ids: Vec<String> = Vec::new();
    let n = active.len();
    let mut k: usize = n;
    let ghost cur = ostr(runtime.current_step_id);
    match &runtime.current_step_id {
        Some(c) => {
            if locate_step(plan, c.as_str()).is_some() {
                ids.push(c.clone());
            }
        },
        None => {},
    }
    assert(ids.deep_view() =~= board_step_ids(plan@, act.skip(n as int), cur));
    while k > 0
        invariant
            n == act.len(),
            act == active.deep_view(),
            k <= n,
            ids.deep_view() == board_step_ids(plan@, act.skip(k as int), cur),
        decreases k,
    {
        assert(act.skip(k - 1).drop_first() =~= act.skip(k as int));
        assert(act.skip(k - 1)[0] == active@[k - 1]@);
        match &active[k - 1].owned_step_id {
            Some(id) => {
                if locate_step(plan, id.as_str()).is_some() {
                    let ghost before = ids.deep_view();
                    ids.insert(0, id.clone());
                    assert(ids.deep_view() =~= seq![id@] + before);
                }
            },
            None => {},
        }
        k -= 1;
    }
    assert(act.skip(0) =~= act);
    proof {
        lemma_board_ids_locate(plan@, act, cur);
    }
    let keys = crate::roots::sorted_set(&ids);
    let mut lookup: Vec<(String, BoardStepDetail)> = Vec::new();
    let mut j: usize = 0;
    let ghost ks = keys.deep_view();
    while j < keys.len()
        invariant
            ks == keys.deep_view(),
            ks == crate::roots::sorted_form(ids.deep_view()),
            j <= ks.len(),
            lookup@.map_values(|e: (String, BoardStepDetail)| e.0@) == ks.take(j as int),
            forall|i: int| 0 <= i < lookup@.len() ==> detail_of_step(plan@, #[trigger] lookup@[i]),
            forall|x: Seq<char>| ks.contains(x) ==> locate(plan@, x) is Some,
        decreases ks.len() - j,
    {
        let key = &keys[j];
        assert(ks[j as int] == key@);
        assert(ks.contains(key@));
        match locate_step(plan, key.as_str()) {
            Some((pi, si)) => {
                proof {
                    crate::plan::lemma_locate_some_iff(plan@, key@);
                }
                assert(step_of(plan@, (pi as int, si as int)) == plan.phases@[pi as int].steps@[si as int]@);
                let detail = BoardStepDetail {
                    title: plan.phases[pi].steps[si].title.clone(),
                    summary: plan.phases[pi].steps[si].summary.clone(),
                };
                let kc = key.clone();
                assert(kc@ == key@);
                assert(detail_of_step(plan@, (kc, detail)));
                let ghost before_keys = lookup@.map_values(|e: (String, BoardStepDetail)| e.0@);
                lookup.push((kc, detail));
                assert(lookup@.map_values(|e: (String, BoardStepDetail)| e.0@) =~= before_keys.push(key@));
                assert(ks.take(j as int + 1) =~= ks.take(j as int).push(ks[j as int]));
            },
            None => {
                assert(false);
            },
        }
        j += 1;
    }
    assert(ks.take(ks.len() as int) =~= ks);
    let active_sorted = sort_sessions_desc(active);
    let RuntimeState { next_action, blockers, .. } = runtime;
    BoardProjectDetail {
        root: owned(root),
        sessions: active_sorted,
        runtime_next_action: next_action,
        blockers,
        recent_activity: events,
        active_step_lookup: lookup,
    }
}

} // verus!
