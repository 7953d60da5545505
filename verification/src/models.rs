//! The workflow data model: plans, runtime focus, sessions, activity and
//! decision proposals.
use vstd::prelude::*;

verus! {

#[derive(Debug, Clone, Copy, PartialEq, Eq, Structural, Default)]
pub enum StepStatus {
    #[default]
    Todo,
    InProgress,
    Blocked,
    Done,
}

#[derive(Debug, Clone, Copy, PartialEq, Eq, Structural, Default)]
pub enum SubtaskStatus {
    #[default]
    Todo,
    Done,
}

#[derive(Debug, Clone, Copy, PartialEq, Eq, Structural, Default)]
pub enum SessionStatus {
    #[default]
    Active,
    Paused,
    Done,
}

#[derive(Debug, Clone, Copy, PartialEq, Eq, Structural)]
pub enum ActivitySource {
    Cli,
    Mcp,
    Desktop,
    Agent,
    Human,
    System,
}

#[derive(Debug, Clone, Copy, PartialEq, Eq, Structural)]
pub enum DecisionProposalStatus {
    Proposed,
    Accepted,
    Rejected,
}

/// A JSON value, as activity payloads and agent configuration files hold it.
/// A number is kept as its literal text.
#[derive(Debug, PartialEq)]
pub enum JsonValue {
    Null,
    Bool(bool),
    Number(String),
    Str(String),
    Array(Vec<JsonValue>),
    Object(Vec<(String, JsonValue)>),
}

#[derive(Debug, PartialEq, Eq)]
pub struct Manifest {
    pub version: u32,
    pub id: String,
    pub name: String,
    pub root: String,
    pub kind: String,
    pub owner: String,
    pub tags: Vec<String>,
    pub created_at: String,
}

#[derive(Debug, PartialEq, Eq)]
pub struct Subtask {
    pub id: String,
    pub title: String,
    pub status: SubtaskStatus,
}

#[derive(Debug, PartialEq, Eq)]
pub struct Step {
    pub id: String,
    pub title: String,
    pub summary: String,
    pub status: StepStatus,
    pub depends_on: Vec<String>,
    pub details: Vec<String>,
    pub subtasks: Vec<Subtask>,
    pub owner_session_id: Option<String>,
    pub completed_at: Option<String>,
    pub completed_by: Option<String>,
}

#[derive(Debug, PartialEq, Eq)]
pub struct Phase {
    pub id: String,
    pub title: String,
    pub steps: Vec<Step>,
}

#[derive(Debug, PartialEq, Eq)]
pub struct Plan {
    pub version: u32,
    pub phases: Vec<Phase>,
}

#[derive(Debug, PartialEq, Eq)]
pub struct RuntimeState {
    pub version: u32,
    pub current_phase_id: Option<String>,
    pub current_step_id: Option<String>,
    pub focus_session_id: Option<String>,
    pub next_action: String,
    pub status: StepStatus,
    pub blockers: Vec<String>,
    pub last_updated_at: String,
    pub active_branch: Option<String>,
    pub active_session_ids: Vec<String>,
}

#[derive(Debug, PartialEq, Eq)]
pub struct WorkflowSession {
    pub id: String,
    pub title: String,
    pub actor: String,
    pub source: ActivitySource,
    pub branch: Option<String>,
    pub status: SessionStatus,
    pub owned_step_id: Option<String>,
    pub observed_step_ids: Vec<String>,
    pub started_at: String,
    pub last_updated_at: String,
}

#[derive(Debug, PartialEq)]
pub struct SessionsFile {
    pub version: u32,
    pub sessions: Vec<WorkflowSession>,
}

#[derive(Debug, PartialEq)]
pub struct ActivityEvent {
    pub timestamp: String,
    pub actor: String,
    pub source: ActivitySource,
    pub project_id: String,
    pub session_id: Option<String>,
    pub step_id: Option<String>,
    pub subtask_id: Option<String>,
    pub event_type: String,
    pub summary: String,
    pub payload: JsonValue,
}

#[derive(Debug, PartialEq, Eq)]
pub struct DecisionProposal {
    pub id: String,
    pub proposed_at: String,
    pub proposed_by: String,
    pub title: String,
    pub context: String,
    pub decision: String,
    pub impact: String,
    pub status: DecisionProposalStatus,
}

#[derive(Debug, PartialEq, Eq)]
pub struct DecisionProposalsFile {
    pub version: u32,
    pub proposals: Vec<DecisionProposal>,
}

#[derive(Debug, PartialEq, Eq)]
pub struct AcceptedDecision {
    pub date: String,
    pub title: String,
    pub context: String,
    pub decision: String,
    pub impact: String,
}

#[derive(Debug)]
pub struct ProjectSummary {
    pub id: Option<String>,
    pub name: String,
    pub root: String,
    pub kind: Option<String>,
    pub owner: Option<String>,
    pub tags: Vec<String>,
    pub initialized: bool,
    pub status: String,
    pub stale: bool,
    pub missing: bool,
    pub current_step_id: Option<String>,
    pub current_step_title: Option<String>,
    pub blocker_count: i64,
    pub total_step_count: i64,
    pub completed_step_count: i64,
    pub active_session_count: i64,
    pub focus_session_id: Option<String>,
    pub last_updated_at: Option<String>,
    pub next_action: Option<String>,
    pub active_branch: Option<String>,
    pub pending_proposal_count: i64,
    /// What made the project show up in a refresh.
    pub discovery_source: Option<DiscoverySource>,
    /// The working directory of the session that backs the project, when it
    /// is not the project's root.
    pub discovery_path: Option<String>,
    pub last_seen_at: Option<String>,
}

/// What made a directory count as a project: its own workflow files, or a
/// Codex thread whose working directory lies in it.
#[derive(Debug, Clone, Copy, PartialEq, Eq, Structural)]
pub enum DiscoverySource {
    Parallel,
    Codex,
}

/// A directory that a refresh surfaces as a project, with what backs it.
#[derive(Debug)]
pub struct DiscoveredProject {
    pub root: String,
    pub discovery_source: DiscoverySource,
    pub discovery_path: Option<String>,
}

#[derive(Debug)]
pub struct ProjectIndexRecord {
    pub summary: ProjectSummary,
    pub watched_root: String,
}

#[derive(Debug, PartialEq, Eq)]
pub struct BoardStepDetail {
    pub title: String,
    pub summary: String,
}

#[derive(Debug, PartialEq)]
pub struct BoardProjectDetail {
    pub root: String,
    pub sessions: Vec<WorkflowSession>,
    pub runtime_next_action: String,
    pub blockers: Vec<String>,
    pub recent_activity: Vec<ActivityEvent>,
    /// Step id to detail, ordered by step id.
    pub active_step_lookup: Vec<(String, BoardStepDetail)>,
}

#[derive(Debug)]
pub struct ProjectDetail {
    pub manifest: Manifest,
    pub plan: Plan,
    pub runtime: RuntimeState,
    pub sessions: Vec<WorkflowSession>,
    pub recent_activity: Vec<ActivityEvent>,
    pub blockers: Vec<String>,
    pub pending_proposals: Vec<DecisionProposal>,
    pub handoff: String,
    pub decisions: Vec<AcceptedDecision>,
}

#[derive(Debug)]
pub struct MutationActor {
    pub actor: String,
    pub source: ActivitySource,
}

#[derive(Debug, Default)]
pub struct SessionContextInput {
    pub session_id: Option<String>,
    pub session_title: Option<String>,
    pub branch: Option<String>,
}

#[derive(Debug)]
pub struct InitProjectInput {
    pub root: String,
    pub actor: String,
    pub source: ActivitySource,
    pub name: Option<String>,
    pub kind: Option<String>,
    pub owner: Option<String>,
    pub tags: Option<Vec<String>>,
    pub index_db_path: String,
}

#[derive(Debug)]
pub struct EnsureSessionInput {
    pub root: String,
    pub actor: String,
    pub source: ActivitySource,
    pub session_id: Option<String>,
    pub session_title: Option<String>,
    pub branch: Option<String>,
    pub index_db_path: String,
}

#[derive(Debug)]
pub struct AppendActivityInput {
    pub actor: String,
    pub source: ActivitySource,
    pub session_id: Option<String>,
    pub session_title: Option<String>,
    pub branch: Option<String>,
    pub event_type: String,
    pub summary: String,
    pub payload: Option<JsonValue>,
    pub step_id: Option<String>,
    pub subtask_id: Option<String>,
    pub index_db_path: String,
}

#[derive(Debug)]
pub struct PlanSyncSubtaskInput {
    pub id: Option<String>,
    pub title: String,
    pub status: Option<SubtaskStatus>,
}

#[derive(Debug)]
pub struct PlanSyncStepInput {
    pub id: Option<String>,
    pub title: String,
    pub summary: Option<String>,
    pub details: Option<Vec<String>>,
    pub depends_on: Option<Vec<String>>,
    pub subtasks: Option<Vec<PlanSyncSubtaskInput>>,
}

#[derive(Debug)]
pub struct PlanSyncPhaseInput {
    pub id: Option<String>,
    pub title: String,
    pub steps: Vec<PlanSyncStepInput>,
}

#[derive(Debug)]
pub struct SyncPlanInput {
    pub root: String,
    pub actor: String,
    pub source: ActivitySource,
    pub session_id: Option<String>,
    pub session_title: Option<String>,
    pub branch: Option<String>,
    pub phases: Vec<PlanSyncPhaseInput>,
    pub index_db_path: String,
}

#[derive(Debug)]
pub struct DecisionProposalInput {
    pub title: String,
    pub context: String,
    pub decision: String,
    pub impact: String,
}

pub fn default_manifest_version() -> (v: u32)
    ensures
        v == 1,
{
    1
}

pub fn default_plan_version() -> (v: u32)
    ensures
        v == 2,
{
    2
}

pub fn default_runtime_version() -> (v: u32)
    ensures
        v == 2,
{
    2
}

pub fn default_sessions_version() -> (v: u32)
    ensures
        v == 1,
{
    1
}

pub fn default_decisions_version() -> (v: u32)
    ensures
        v == 1,
{
    1
}

// ---------------------------------------------------------------------------
// Models
// ---------------------------------------------------------------------------

pub open spec fn ostr(o: Option<String>) -> Option<Seq<char>> {
    match o {
        Some(s) => Some(s@),
        None => None,
    }
}

#[verifier::ext_equal]
pub struct SubtaskModel {
    pub id: Seq<char>,
    pub title: Seq<char>,
    pub status: SubtaskStatus,
}

#[verifier::ext_equal]
pub struct StepModel {
    pub id: Seq<char>,
    pub title: Seq<char>,
    pub summary: Seq<char>,
    pub status: StepStatus,
    pub depends_on: Seq<Seq<char>>,
    pub details: Seq<Seq<char>>,
    pub subtasks: Seq<SubtaskModel>,
    pub owner_session_id: Option<Seq<char>>,
    pub completed_at: Option<Seq<char>>,
    pub completed_by: Option<Seq<char>>,
}

#[verifier::ext_equal]
pub struct PhaseModel {
    pub id: Seq<char>,
    pub title: Seq<char>,
    pub steps: Seq<StepModel>,
}

#[verifier::ext_equal]
pub struct PlanModel {
    pub version: u32,
    pub phases: Seq<PhaseModel>,
}

#[verifier::ext_equal]
pub struct RuntimeModel {
    pub version: u32,
    pub current_phase_id: Option<Seq<char>>,
    pub current_step_id: Option<Seq<char>>,
    pub focus_session_id: Option<Seq<char>>,
    pub next_action: Seq<char>,
    pub status: StepStatus,
    pub blockers: Seq<Seq<char>>,
    pub last_updated_at: Seq<char>,
    pub active_branch: Option<Seq<char>>,
    pub active_session_ids: Seq<Seq<char>>,
}

#[verifier::ext_equal]
pub struct SessionModel {
    pub id: Seq<char>,
    pub title: Seq<char>,
    pub actor: Seq<char>,
    pub source: ActivitySource,
    pub branch: Option<Seq<char>>,
    pub status: SessionStatus,
    pub owned_step_id: Option<Seq<char>>,
    pub observed_step_ids: Seq<Seq<char>>,
    pub started_at: Seq<char>,
    pub last_updated_at: Seq<char>,
}

#[verifier::ext_equal]
pub struct ProposalModel {
    pub id: Seq<char>,
    pub proposed_at: Seq<char>,
    pub proposed_by: Seq<char>,
    pub title: Seq<char>,
    pub context: Seq<char>,
    pub decision: Seq<char>,
    pub impact: Seq<char>,
    pub status: DecisionProposalStatus,
}

#[verifier::ext_equal]
pub struct AcceptedDecisionModel {
    pub date: Seq<char>,
    pub title: Seq<char>,
    pub context: Seq<char>,
    pub decision: Seq<char>,
    pub impact: Seq<char>,
}

impl View for StepStatus {
    type V = StepStatus;

    open spec fn view(&self) -> StepStatus {
        *self
    }
}

impl DeepView for StepStatus {
    type V = StepStatus;

    open spec fn deep_view(&self) -> StepStatus {
        *self
    }
}

impl View for SubtaskStatus {
    type V = SubtaskStatus;

    open spec fn view(&self) -> SubtaskStatus {
        *self
    }
}

impl DeepView for SubtaskStatus {
    type V = SubtaskStatus;

    open spec fn deep_view(&self) -> SubtaskStatus {
        *self
    }
}

impl View for Subtask {
    type V = SubtaskModel;

    open spec fn view(&self) -> SubtaskModel {
        SubtaskModel { id: self.id@, title: self.title@, status: self.status }
    }
}

impl DeepView for Subtask {
    type V = SubtaskModel;

    open spec fn deep_view(&self) -> SubtaskModel {
        self@
    }
}

impl View for Step {
    type V = StepModel;

    open spec fn view(&self) -> StepModel {
        StepModel {
            id: self.id@,
            title: self.title@,
            summary: self.summary@,
            status: self.status,
            depends_on: self.depends_on.deep_view(),
            details: self.details.deep_view(),
            subtasks: self.subtasks.deep_view(),
            owner_session_id: ostr(self.owner_session_id),
            completed_at: ostr(self.completed_at),
            completed_by: ostr(self.completed_by),
        }
    }
}

impl DeepView for Step {
    type V = StepModel;

    open spec fn deep_view(&self) -> StepModel {
        self@
    }
}

impl View for Phase {
    type V = PhaseModel;

    open spec fn view(&self) -> PhaseModel {
        PhaseModel { id: self.id@, title: self.title@, steps: self.steps.deep_view() }
    }
}

impl DeepView for Phase {
    type V = PhaseModel;

    open spec fn deep_view(&self) -> PhaseModel {
        self@
    }
}

impl View for Plan {
    type V = PlanModel;

    open spec fn view(&self) -> PlanModel {
        PlanModel { version: self.version, phases: self.phases.deep_view() }
    }
}

impl View for RuntimeState {
    type V = RuntimeModel;

    open spec fn view(&self) -> RuntimeModel {
        RuntimeModel {
            version: self.version,
            current_phase_id: ostr(self.current_phase_id),
            current_step_id: ostr(self.current_step_id),
            focus_session_id: ostr(self.focus_session_id),
            next_action: self.next_action@,
            status: self.status,
            blockers: self.blockers.deep_view(),
            last_updated_at: self.last_updated_at@,
            active_branch: ostr(self.active_branch),
            active_session_ids: self.active_session_ids.deep_view(),
        }
    }
}

impl View for WorkflowSession {
    type V = SessionModel;

    open spec fn view(&self) -> SessionModel {
        SessionModel {
            id: self.id@,
            title: self.title@,
            actor: self.actor@,
            source: self.source,
            branch: ostr(self.branch),
            status: self.status,
            owned_step_id: ostr(self.owned_step_id),
            observed_step_ids: self.observed_step_ids.deep_view(),
            started_at: self.started_at@,
            last_updated_at: self.last_updated_at@,
        }
    }
}

impl DeepView for WorkflowSession {
    type V = SessionModel;

    open spec fn deep_view(&self) -> SessionModel {
        self@
    }
}

impl View for DecisionProposal {
    type V = ProposalModel;

    open spec fn view(&self) -> ProposalModel {
        ProposalModel {
            id: self.id@,
            proposed_at: self.proposed_at@,
            proposed_by: self.proposed_by@,
            title: self.title@,
            context: self.context@,
            decision: self.decision@,
            impact: self.impact@,
            status: self.status,
        }
    }
}

impl DeepView for DecisionProposal {
    type V = ProposalModel;

    open spec fn deep_view(&self) -> ProposalModel {
        self@
    }
}

impl View for AcceptedDecision {
    type V = AcceptedDecisionModel;

    open spec fn view(&self) -> AcceptedDecisionModel {
        AcceptedDecisionModel {
            date: self.date@,
            title: self.title@,
            context: self.context@,
            decision: self.decision@,
            impact: self.impact@,
        }
    }
}

impl DeepView for AcceptedDecision {
    type V = AcceptedDecisionModel;

    open spec fn deep_view(&self) -> AcceptedDecisionModel {
        self@
    }
}

// ---------------------------------------------------------------------------
// Copies
// ---------------------------------------------------------------------------

/// A copy of a list of strings.
pub fn copy_strings(v: &Vec<String>) -> (r: Vec<String>)
    ensures
        r.deep_view() == v.deep_view(),
{
    let mut r: Vec<String> = Vec::new();
    let mut i: usize = 0;
    while i < v.len()
        invariant
            i <= v@.len(),
            r@.len() == i,
            forall|k: int| 0 <= k < i ==> #[trigger] r@[k]@ == v@[k]@,
        decreases v@.len() - i,
    {
        r.push(v[i].clone());
        i += 1;
    }
    assert(r.deep_view() =~= v.deep_view());
    r
}

pub fn copy_opt(v: &Option<String>) -> (r: Option<String>)
    ensures
        ostr(r) == ostr(*v),
{
    match v {
        Some(s) => Some(s.clone()),
        None => None,
    }
}

impl Clone for Subtask {
    fn clone(&self) -> (r: Self)
        ensures
            r@ == self@,
    {
        Subtask { id: self.id.clone(), title: self.title.clone(), status: self.status }
    }
}

/// Pushing onto a vector pushes the element's deep view onto its deep view.
pub proof fn lemma_deep_push<T: DeepView>(v: Vec<T>, w: Vec<T>, x: T)
    requires
        w@ == v@.push(x),
    ensures
        w.deep_view() == v.deep_view().push(x.deep_view()),
{
    assert(w.deep_view() =~= v.deep_view().push(x.deep_view()));
}

/// Inserting into a vector inserts the element's deep view into its deep
/// view.
pub proof fn lemma_deep_insert<T: DeepView>(v: Vec<T>, w: Vec<T>, i: int, x: T)
    requires
        0 <= i <= v@.len(),
        w@ == v@.insert(i, x),
    ensures
        w.deep_view() == v.deep_view().insert(i, x.deep_view()),
{
    assert(w.deep_view() =~= v.deep_view().insert(i, x.deep_view()));
}

/// Removing the first element of a vector drops the first element of its
/// deep view.
pub proof fn lemma_deep_remove_first<T: DeepView>(v: Vec<T>, w: Vec<T>, x: T)
    requires
        v@.len() > 0,
        x == v@[0],
        w@ == v@.remove(0),
    ensures
        w.deep_view() == v.deep_view().drop_first(),
        x.deep_view() == v.deep_view()[0],
{
    assert(w.deep_view() =~= v.deep_view().drop_first());
}

pub fn copy_subtasks(v: &Vec<Subtask>) -> (r: Vec<Subtask>)
    ensures
        r.deep_view() == v.deep_view(),
{
    let mut r: Vec<Subtask> = Vec::new();
    let mut i: usize = 0;
    while i < v.len()
        invariant
            i <= v@.len(),
            r@.len() == i,
            forall|k: int| 0 <= k < i ==> #[trigger] r@[k]@ == v@[k]@,
        decreases v@.len() - i,
    {
        r.push(v[i].clone());
        i += 1;
    }
    assert(r.deep_view() =~= v.deep_view());
    r
}

impl Clone for Step {
    fn clone(&self) -> (r: Self)
        ensures
            r@ == self@,
    {
        Step {
            id: self.id.clone(),
            title: self.title.clone(),
            summary: self.summary.clone(),
            status: self.status,
            depends_on: copy_strings(&self.depends_on),
            details: copy_strings(&self.details),
            subtasks: copy_subtasks(&self.subtasks),
            owner_session_id: copy_opt(&self.owner_session_id),
            completed_at: copy_opt(&self.completed_at),
            completed_by: copy_opt(&self.completed_by),
        }
    }
}

impl Clone for DecisionProposal {
    fn clone(&self) -> (r: Self)
        ensures
            r@ == self@,
    {
        DecisionProposal {
            id: self.id.clone(),
            proposed_at: self.proposed_at.clone(),
            proposed_by: self.proposed_by.clone(),
            title: self.title.clone(),
            context: self.context.clone(),
            decision: self.decision.clone(),
            impact: self.impact.clone(),
            status: self.status,
        }
    }
}

impl View for DecisionProposalStatus {
    type V = DecisionProposalStatus;

    open spec fn view(&self) -> DecisionProposalStatus {
        *self
    }
}

/// A copy of a list of proposals.
pub fn copy_proposals(v: &Vec<DecisionProposal>) -> (r: Vec<DecisionProposal>)
    ensures
        r.deep_view() == v.deep_view(),
{
    let mut r: Vec<DecisionProposal> = Vec::new();
    let mut i: usize = 0;
    while i < v.len()
        invariant
            i <= v@.len(),
            r@.len() == i,
            forall|k: int| 0 <= k < i ==> #[trigger] r@[k]@ == v@[k]@,
        decreases v@.len() - i,
    {
        r.push(v[i].clone());
        i += 1;
    }
    assert(r.deep_view() =~= v.deep_view());
    r
}

impl Clone for AcceptedDecision {
    fn clone(&self) -> (r: Self)
        ensures
            r@ == self@,
    {
        AcceptedDecision {
            date: self.date.clone(),
            title: self.title.clone(),
            context: self.context.clone(),
            decision: self.decision.clone(),
            impact: self.impact.clone(),
        }
    }
}

} // verus!
