use parallel_workflow::decisions::{build_accepted_decision_markdown, parse_accepted_decisions};
use parallel_workflow::handoff::{generate_handoff, HandoffInput};
use parallel_workflow::ids::{slugify, unique_id};
use parallel_workflow::models::{
    AcceptedDecision, ActivityEvent, ActivitySource, DecisionProposal, DecisionProposalStatus, DecisionProposalsFile, JsonValue, Manifest, MutationActor, Phase,
    Plan,
    PlanSyncPhaseInput, PlanSyncStepInput, PlanSyncSubtaskInput, SessionContextInput, SessionStatus, SessionsFile,
    StepStatus, SubtaskStatus, WorkflowSession,
};
use parallel_workflow::mutations::{
    accept_decision, add_blocker, add_note, apply_writes, clear_blocker, complete_step, copy_runtime, ensure_session, start_step, update_runtime,
    ProjectState,
    WorkflowError,
};
use parallel_workflow::summary::{
    board_project_detail, build_uninitialized_project_summary, create_default_plan, create_default_runtime,
    determine_project_stale, stale_at,
};
use parallel_workflow::plan::normalize_plan_in_progress_states;
use parallel_workflow::runtime::refresh_runtime_state;
use parallel_workflow::sync::{build_synced_plan, sync_plan, validate_plan, PlanError};

fn fresh_state() -> ProjectState {
    let plan = create_default_plan();
    let runtime = create_default_runtime(&plan, Some("main".to_string()), "2026-01-01T00:00:00.000Z");
    ProjectState {
        plan,
        runtime,
        sessions: SessionsFile { version: 1, sessions: Vec::new() },
        proposals: DecisionProposalsFile { version: 1, proposals: Vec::new() },
    }
}

fn agent() -> MutationActor {
    MutationActor { actor: "agent-1".to_string(), source: ActivitySource::Agent }
}

fn step_input(title: &str, details: &str) -> PlanSyncStepInput {
    PlanSyncStepInput {
        id: None,
        title: title.to_string(),
        summary: Some("Record venue-native events.".to_string()),
        details: Some(vec![details.to_string()]),
        depends_on: None,
        subtasks: None,
    }
}

#[test]
fn default_plan_starts_on_capture_requirements() {
    let state = fresh_state();
    assert_eq!(state.plan.phases[0].id, "define");
    assert_eq!(state.runtime.current_step_id.as_deref(), Some("capture-requirements"));
    assert_eq!(state.runtime.next_action, "Start \"Capture requirements\"");
    assert_eq!(state.runtime.status, StepStatus::Todo);
}

fn clone_state(s: &ProjectState) -> ProjectState {
    ProjectState {
        plan: Plan {
            version: s.plan.version,
            phases: s
                .plan
                .phases
                .iter()
                .map(|p| Phase { id: p.id.clone(), title: p.title.clone(), steps: p.steps.clone() })
                .collect(),
        },
        runtime: copy_runtime(&s.runtime),
        sessions: SessionsFile { version: s.sessions.version, sessions: s.sessions.sessions.clone() },
        proposals: DecisionProposalsFile { version: s.proposals.version, proposals: s.proposals.proposals.clone() },
    }
}

#[test]
fn supports_step_and_blocker_flow() {
    let state = fresh_state();
    let first_step_id = state.plan.phases[0].steps[0].id.clone();
    let ctx = SessionContextInput::default();
    let now = "2026-01-02T00:00:00.000Z";
    let out = start_step(clone_state(&state), &first_step_id, &agent(), &ctx, None, now).expect("start");
    let (state, _) = apply_writes(state, out);
    assert_eq!(state.plan.phases[0].steps[0].status, StepStatus::InProgress);
    let out = add_blocker(clone_state(&state), "Need sign-off", &agent(), &ctx, None, now);
    let (state, _) = apply_writes(state, out);
    assert_eq!(state.runtime.blockers, vec!["Need sign-off".to_string()]);
    assert_eq!(state.runtime.status, StepStatus::Blocked);
    let out = clear_blocker(clone_state(&state), Some("Need sign-off"), &agent(), &ctx, None, now);
    let (state, _) = apply_writes(state, out);
    assert!(state.runtime.blockers.is_empty());
    let out = add_note(clone_state(&state), "Captured initial requirements", &agent(), &ctx, None, now);
    let (state, parts) = apply_writes(state, out);
    assert_eq!(parts.event_type, "note.added");
    let out = complete_step(clone_state(&state), &first_step_id, &agent(), &ctx, None, now).expect("complete");
    let (completed, _) = apply_writes(state, out);
    assert_eq!(completed.plan.phases[0].steps[0].status, StepStatus::Done);
    assert_eq!(completed.plan.phases[0].steps[0].completed_by.as_deref(), Some("agent-1"));
}

#[test]
fn unknown_step_is_refused() {
    let out = start_step(fresh_state(), "nope", &agent(), &SessionContextInput::default(), None, "t");
    match out {
        Err(e) => {
            assert!(matches!(e, WorkflowError::UnknownStep(_)));
            assert_eq!(e.message(), "Unknown step \"nope\"");
        },
        Ok(_) => panic!("unknown step accepted"),
    }
}

#[test]
fn preserves_step_ids_on_sync() {
    let state = fresh_state();
    let phases = vec![PlanSyncPhaseInput {
        id: None,
        title: "Build".to_string(),
        steps: vec![step_input("Build recorder", "Record snapshots.")],
    }];
    let first = build_synced_plan(&state.plan, &phases).expect("first sync");
    let step_id = first.phases[0].steps[0].id.clone();
    assert_eq!(step_id, "build-recorder");
    let phases2 = vec![PlanSyncPhaseInput {
        id: None,
        title: "Build".to_string(),
        steps: vec![step_input("Build recorder", "Record snapshots and trades.")],
    }];
    let second = build_synced_plan(&first, &phases2).expect("second sync");
    assert_eq!(second.phases[0].steps[0].id, step_id);
    assert_eq!(second.phases[0].steps[0].details, vec!["Record snapshots and trades.".to_string()]);
}

#[test]
fn preserves_step_ids_through_two_plan_syncs() {
    let actor = MutationActor { actor: "codex".to_string(), source: ActivitySource::Agent };
    let context = SessionContextInput { session_id: None, session_title: Some("Spec sync".to_string()), branch: None };
    let phases = vec![PlanSyncPhaseInput {
        id: None,
        title: "Build".to_string(),
        steps: vec![step_input("Build recorder", "Record snapshots.")],
    }];
    let out = sync_plan(fresh_state(), &phases, &actor, &context, None, "t1").expect("first sync");
    let (first, _) = apply_writes(fresh_state(), out);
    let step_id = first.plan.phases[0].steps[0].id.clone();
    let phases2 = vec![PlanSyncPhaseInput {
        id: None,
        title: "Build".to_string(),
        steps: vec![step_input("Build recorder", "Record snapshots and trades.")],
    }];
    let out = sync_plan(clone_state(&first), &phases2, &actor, &context, None, "t2").expect("second sync");
    let (second, _) = apply_writes(first, out);
    assert_eq!(second.plan.phases[0].steps[0].id, step_id);
    assert_eq!(second.plan.phases[0].steps[0].details, vec!["Record snapshots and trades.".to_string()]);
}

#[test]
fn sync_matches_steps_by_title_case_insensitively_and_keeps_status() {
    let state = fresh_state();
    let phases = vec![PlanSyncPhaseInput {
        id: Some(" ".to_string()),
        title: "Define".to_string(),
        steps: vec![PlanSyncStepInput {
            id: None,
            title: "  CAPTURE requirements ".to_string(),
            summary: None,
            details: None,
            depends_on: None,
            subtasks: Some(vec![
                PlanSyncSubtaskInput { id: None, title: "Draft".to_string(), status: Some(SubtaskStatus::Done) },
                PlanSyncSubtaskInput { id: None, title: "Draft".to_string(), status: None },
            ]),
        }],
    }];
    let plan = build_synced_plan(&state.plan, &phases).expect("sync");
    assert_eq!(plan.phases[0].id, "define");
    let step = &plan.phases[0].steps[0];
    assert_eq!(step.id, "capture-requirements");
    assert_eq!(step.summary, "Write the initial problem statement and success criteria.");
    assert_eq!(step.subtasks[0].id, "draft");
    assert_eq!(step.subtasks[1].id, "draft-2");
    assert_eq!(step.subtasks[1].status, SubtaskStatus::Todo);
}

#[test]
fn sync_rejects_unknown_dependencies_and_empty_plans() {
    let state = fresh_state();
    let mut s = step_input("A", "x");
    s.depends_on = Some(vec!["missing".to_string()]);
    let phases = vec![PlanSyncPhaseInput { id: None, title: "P".to_string(), steps: vec![s] }];
    let err = build_synced_plan(&state.plan, &phases).err().expect("refused");
    assert_eq!(err, PlanError::UnknownDependency("missing".to_string()));
    assert_eq!(err.message(), "Unknown dependency \"missing\"");
    let none = build_synced_plan(&state.plan, &Vec::new()).err().expect("refused");
    assert_eq!(none.message(), "plan must contain at least one phase");
    assert!(validate_plan(&state.plan).is_ok());
}

#[test]
fn sync_plan_reports_phase_count() {
    let state = fresh_state();
    let phases = vec![PlanSyncPhaseInput {
        id: None,
        title: "Build".to_string(),
        steps: vec![step_input("Build recorder", "Record snapshots.")],
    }];
    let out = sync_plan(state, &phases, &agent(), &SessionContextInput::default(), None, "t").expect("sync");
    assert_eq!(out.summary, "Synced canonical project plan");
    assert_eq!(out.event_type, "plan.synced");
    assert_eq!(
        out.payload,
        JsonValue::Object(vec![("phaseCount".to_string(), JsonValue::Number("1".to_string()))])
    );
    let runtime = out.write_runtime.expect("runtime");
    assert_eq!(runtime.current_step_id.as_deref(), Some("build-recorder"));
}

#[test]
fn unique_ids_count_up_from_two() {
    let mut used = Vec::new();
    assert_eq!(unique_id("step", &mut used), "step");
    assert_eq!(unique_id("step", &mut used), "step-2");
    assert_eq!(unique_id("step", &mut used), "step-3");
    assert_eq!(used, vec!["step".to_string(), "step-2".to_string(), "step-3".to_string()]);
}

#[test]
fn slugify_lowercases_and_collapses_separators() {
    assert_eq!(slugify("  Build the Recorder!! "), "build-the-recorder");
    assert_eq!(slugify("***"), "");
}

#[test]
fn handoff_lists_state_sessions_and_blockers() {
    let mut state = fresh_state();
    state.runtime.blockers = vec!["Need sign-off".to_string()];
    let session = WorkflowSession {
        id: "s1".to_string(),
        title: "Agent run".to_string(),
        actor: "codex".to_string(),
        source: ActivitySource::Agent,
        branch: None,
        status: SessionStatus::Active,
        owned_step_id: Some("capture-requirements".to_string()),
        observed_step_ids: vec![],
        started_at: "t".to_string(),
        last_updated_at: "t".to_string(),
    };
    let event = ActivityEvent {
        timestamp: "2026-01-01T00:00:00.000Z".to_string(),
        actor: "codex".to_string(),
        source: ActivitySource::Mcp,
        project_id: "p".to_string(),
        session_id: Some("s1".to_string()),
        step_id: None,
        subtask_id: None,
        event_type: "note.added".to_string(),
        summary: "Did things".to_string(),
        payload: JsonValue::Null,
    };
    let manifest = Manifest {
        version: 1,
        id: "p".to_string(),
        name: "Parallel".to_string(),
        root: "/r".to_string(),
        kind: "software".to_string(),
        owner: "me".to_string(),
        tags: vec![],
        created_at: "t".to_string(),
    };
    let text = generate_handoff(&HandoffInput {
        manifest,
        plan: state.plan,
        runtime: state.runtime,
        sessions: vec![session],
        activity: vec![event],
        proposals: vec![],
    });
    let expected = "# Project Handoff\n\n## Current state\n- Project: Parallel\n- status: todo\n- Current step: Capture requirements\n- Next action: Start \"Capture requirements\"\n- Active branch: main\n- Last updated: 2026-01-01T00:00:00.000Z\n\n## Active sessions\n- Agent run (codex/Agent) -> capture-requirements\n\n## What changed\n- 2026-01-01T00:00:00.000Z: Did things (codex/Mcp | s1)\n\n## Blockers\n- Need sign-off\n\n## Open questions\n- None.\n";
    assert_eq!(text, expected);
}

#[test]
fn decisions_markdown_round_trips() {
    let entries = vec![AcceptedDecision {
        date: "2026-01-01".to_string(),
        title: "Use YAML".to_string(),
        context: "Readable".to_string(),
        decision: String::new(),
        impact: "Files".to_string(),
    }];
    let md = build_accepted_decision_markdown(&entries);
    assert_eq!(
        md,
        "# Accepted Decisions\n\n## 2026-01-01 - Use YAML\n\n### Context\nReadable\n\n### Decision\n_No decision text provided._\n\n### Impact\nFiles\n"
    );
    let parsed = parse_accepted_decisions(&md);
    assert_eq!(parsed.len(), 1);
    assert_eq!(parsed[0].title, "Use YAML");
    assert_eq!(parsed[0].context, "Readable");
    assert_eq!(parsed[0].impact, "Files");
}

#[test]
fn staleness_needs_a_week() {
    let week: (i64, u32) = (604_800, 0);
    assert!(stale_at(false, true, None, (0, 0)));
    assert!(!stale_at(true, false, Some((0, 0)), week));
    assert!(stale_at(true, true, Some((0, 0)), week));
    assert!(!stale_at(true, true, Some((0, 1)), week));
    assert!(stale_at(true, true, Some((-1, 999_999_999)), (604_799, 999_999_999)));
    assert!(!stale_at(true, true, None, week));
}

#[test]
fn uninitialized_summary_is_named_after_the_root() {
    let s = build_uninitialized_project_summary("/tmp/work/alpha", true, Some("main".to_string()), "t".to_string());
    assert_eq!(s.name, "alpha");
    assert_eq!(s.status, "uninitialized");
    assert!(!s.stale);
    assert_eq!(s.next_action.as_deref(), Some("Initialize workflow metadata"));
}

#[test]
fn board_projection_filters_active_sessions_and_trims_recent_activity() {
    let state = fresh_state();
    let first_step_id = state.plan.phases[0].steps[0].id.clone();
    let ctx = SessionContextInput::default();
    let out = start_step(clone_state(&state), &first_step_id, &agent(), &ctx, None, "2026-04-16T19:00:00Z")
        .expect("start");
    let (state, _) = apply_writes(state, out);
    let out = add_blocker(clone_state(&state), "Need sign-off", &agent(), &ctx, None, "2026-04-16T19:00:30Z");
    let (state, _) = apply_writes(state, out);
    let first_session = state.sessions.sessions.first().map(|session| session.id.clone());
    let events: Vec<ActivityEvent> = [1, 6, 3, 5, 2, 4]
        .iter()
        .map(|minute| ActivityEvent {
            timestamp: format!("2026-04-16T19:{minute:02}:00Z"),
            actor: "agent-1".to_string(),
            source: ActivitySource::Agent,
            project_id: "parallel-project".to_string(),
            session_id: first_session.clone(),
            step_id: Some(first_step_id.clone()),
            subtask_id: None,
            event_type: "note".to_string(),
            summary: format!("Event {minute}"),
            payload: JsonValue::Object(vec![]),
        })
        .collect();
    let mut sessions = state.sessions.sessions.clone();
    if let Some(session) = sessions.first_mut() {
        session.status = SessionStatus::Paused;
    }
    sessions.push(WorkflowSession {
        id: "active-session".to_string(),
        title: "Active session".to_string(),
        actor: "agent-2".to_string(),
        source: ActivitySource::Agent,
        branch: Some("main".to_string()),
        status: SessionStatus::Active,
        owned_step_id: Some(first_step_id.clone()),
        observed_step_ids: Vec::new(),
        started_at: "2026-04-16T19:00:00Z".to_string(),
        last_updated_at: "2026-04-16T19:07:00Z".to_string(),
    });
    let board = board_project_detail("/work/parallel-project", &state.plan, state.runtime, sessions, events);
    assert_eq!(board.root, "/work/parallel-project");
    assert_eq!(board.sessions.len(), 1);
    assert_eq!(board.sessions[0].id, "active-session");
    assert_eq!(board.blockers, vec!["Need sign-off"]);
    assert_eq!(board.runtime_next_action, "Write the initial problem statement and success criteria.");
    assert_eq!(board.recent_activity.len(), 5);
    assert_eq!(
        board.recent_activity.iter().map(|event| event.summary.clone()).collect::<Vec<_>>(),
        vec!["Event 6", "Event 5", "Event 4", "Event 3", "Event 2"]
    );
    assert_eq!(board.active_step_lookup.len(), 1);
    assert_eq!(board.active_step_lookup[0].0, first_step_id);
    assert_eq!(board.active_step_lookup[0].1.title, "Capture requirements");
    assert_eq!(board.active_step_lookup[0].1.summary, "Write the initial problem statement and success criteria.");
}

#[test]
fn runtime_patch_is_refreshed_against_the_plan() {
    let state = fresh_state();
    let mut patched = copy_runtime(&state.runtime);
    patched.blockers = vec!["Waiting on review".to_string()];
    patched.active_branch = None;
    patched.last_updated_at = "2026-01-03T00:00:00.000Z".to_string();
    let out = update_runtime(
        clone_state(&state),
        patched,
        JsonValue::Object(vec![("blockers".to_string(), JsonValue::Array(vec![JsonValue::Str("Waiting on review".to_string())]))]),
        "Updated runtime state".to_string(),
        None,
        Some("feature".to_string()),
        "2026-01-03T00:00:00.000Z",
    );
    assert_eq!(out.event_type, "runtime.updated");
    assert_eq!(out.summary, "Updated runtime state");
    assert!(out.write_plan.is_none());
    let runtime = out.write_runtime.as_ref().expect("runtime written");
    assert_eq!(runtime.status, StepStatus::Blocked);
    assert_eq!(runtime.blockers, vec!["Waiting on review".to_string()]);
    assert_eq!(runtime.current_step_id.as_deref(), Some("capture-requirements"));
    assert_eq!(runtime.active_branch.as_deref(), Some("main"));
    assert_eq!(runtime.last_updated_at, "2026-01-03T00:00:00.000Z");
    assert_eq!(out.event_context.step_id.as_deref(), Some("capture-requirements"));

    let out = update_runtime(
        clone_state(&state),
        copy_runtime(&state.runtime),
        JsonValue::Object(Vec::new()),
        "Focus".to_string(),
        Some("runtime.focus".to_string()),
        None,
        "2026-01-04T00:00:00.000Z",
    );
    assert_eq!(out.event_type, "runtime.focus");
    assert_eq!(out.write_runtime.expect("runtime").status, StepStatus::Todo);
}

#[test]
fn well_formed_decisions_read_back_exactly() {
    let entries = vec![
        AcceptedDecision {
            date: "2026-01-01".to_string(),
            title: "Use YAML - for now".to_string(),
            context: "Readable\nand diffable".to_string(),
            decision: "Store plans as YAML".to_string(),
            impact: "Files # stay small".to_string(),
        },
        AcceptedDecision {
            date: "2026-02-03".to_string(),
            title: String::new(),
            context: "Second".to_string(),
            decision: "Keep ## inside lines".to_string(),
            impact: "None".to_string(),
        },
    ];
    let md = build_accepted_decision_markdown(&entries);
    let parsed = parse_accepted_decisions(&md);
    assert_eq!(parsed, entries);
    assert_eq!(parse_accepted_decisions(&build_accepted_decision_markdown(&Vec::new())), Vec::new());
}

#[test]
fn several_active_sessions_own_different_steps() {
    let state = fresh_state();
    let phases = vec![PlanSyncPhaseInput {
        id: None,
        title: "Build".to_string(),
        steps: vec![step_input("Build recorder", "Record."), step_input("Build player", "Play.")],
    }];
    let plan = build_synced_plan(&state.plan, &phases).expect("sync");
    // a new step without an id takes the empty base first, so later ones get its suffixes
    assert_eq!(plan.phases[0].steps[0].id, "build-recorder");
    assert_eq!(plan.phases[0].steps[1].id, "-2");
    let state = ProjectState { plan, ..state };
    let now = "2026-01-02T00:00:00.000Z";
    let first = SessionContextInput { session_id: Some("s-1".to_string()), session_title: None, branch: None };
    let out = start_step(clone_state(&state), "build-recorder", &agent(), &first, None, now).expect("start");
    let (state, _) = apply_writes(state, out);
    assert_eq!(state.plan.phases[0].steps[0].owner_session_id.as_deref(), Some("s-1"));
    let second = SessionContextInput { session_id: Some("s-2".to_string()), session_title: None, branch: None };
    let out = start_step(clone_state(&state), "-2", &agent(), &second, None, now).expect("start");
    let (state, _) = apply_writes(state, out);
    assert_eq!(state.plan.phases[0].steps[1].owner_session_id.as_deref(), Some("s-2"));
    assert_eq!(state.plan.phases[0].steps[1].status, StepStatus::InProgress);
    assert_eq!(state.plan.phases[0].steps[0].owner_session_id.as_deref(), Some("s-1"));
    assert_eq!(state.plan.phases[0].steps[0].status, StepStatus::InProgress);
    // a session that moves to another step gives up the one it held
    let out = start_step(clone_state(&state), "build-recorder", &agent(), &second, None, now);
    assert!(matches!(out, Err(WorkflowError::OwnedByAnotherSession(_))));
}

#[test]
fn staleness_reads_the_runtime_timestamp() {
    let plan = create_default_plan();
    let old = create_default_runtime(&plan, None, "2000-01-01T00:00:00.000Z");
    assert!(determine_project_stale(Some(&old), true));
    let future = create_default_runtime(&plan, None, "2999-01-01T00:00:00.000Z");
    assert!(!determine_project_stale(Some(&future), true));
    let unreadable = create_default_runtime(&plan, None, "yesterday");
    assert!(!determine_project_stale(Some(&unreadable), true));
    assert!(!determine_project_stale(None, true));
    assert!(determine_project_stale(Some(&future), false));
    let ancient = create_default_runtime(&plan, None, "1600-01-01T00:00:00Z");
    assert!(determine_project_stale(Some(&ancient), true));
}

#[test]
fn clearing_a_named_blocker_restores_the_earlier_blockers() {
    let state = fresh_state();
    let ctx = SessionContextInput::default();
    let out = add_blocker(clone_state(&state), "waiting on design", &agent(), &ctx, None, "2026-01-02T00:00:00.000Z");
    let (state, _) = apply_writes(state, out);
    let out = add_blocker(clone_state(&state), "missing credentials", &agent(), &ctx, None, "2026-01-02T00:01:00.000Z");
    let (state, _) = apply_writes(state, out);
    assert_eq!(state.runtime.blockers, vec!["waiting on design".to_string(), "missing credentials".to_string()]);
    let out = clear_blocker(
        clone_state(&state),
        Some("missing credentials"),
        &agent(),
        &ctx,
        None,
        "2026-01-02T00:02:00.000Z",
    );
    assert_eq!(out.summary, "Cleared blocker: missing credentials");
    let (state, _) = apply_writes(state, out);
    assert_eq!(state.runtime.blockers, vec!["waiting on design".to_string()]);
    assert_eq!(state.runtime.status, StepStatus::Blocked);
    let out = clear_blocker(clone_state(&state), None, &agent(), &ctx, None, "2026-01-02T00:03:00.000Z");
    assert_eq!(out.summary, "Cleared all blockers");
    let (state, _) = apply_writes(state, out);
    assert!(state.runtime.blockers.is_empty());
    assert_ne!(state.runtime.status, StepStatus::Blocked);
}

#[test]
fn ensuring_a_session_by_id_twice_resumes_it() {
    let state = fresh_state();
    let ctx = SessionContextInput {
        session_id: Some("board-work".to_string()),
        session_title: Some("Implement session board".to_string()),
        ..SessionContextInput::default()
    };
    let out = ensure_session(clone_state(&state), &agent(), &ctx, Some("main".to_string()), "2026-01-02T00:00:00.000Z");
    let (state, _) = apply_writes(state, out);
    assert_eq!(state.sessions.sessions.len(), 1);
    assert_eq!(state.sessions.sessions[0].id, "board-work");
    let again = SessionContextInput { session_id: Some("board-work".to_string()), ..SessionContextInput::default() };
    let out = ensure_session(clone_state(&state), &agent(), &again, Some("main".to_string()), "2026-01-02T01:00:00.000Z");
    let (state, _) = apply_writes(state, out);
    assert_eq!(state.sessions.sessions.len(), 1);
    let session = &state.sessions.sessions[0];
    assert_eq!(session.id, "board-work");
    assert_eq!(session.title, "Implement session board");
    assert_eq!(session.status, SessionStatus::Active);
    assert_eq!(session.last_updated_at, "2026-01-02T01:00:00.000Z");
}

#[test]
fn refreshing_a_refreshed_runtime_changes_nothing() {
    let state = fresh_state();
    let ctx = SessionContextInput::default();
    let step_id = state.plan.phases[0].steps[0].id.clone();
    let out = start_step(clone_state(&state), &step_id, &agent(), &ctx, None, "2026-01-02T00:00:00.000Z").expect("start");
    let (state, _) = apply_writes(state, out);
    let ProjectState { mut plan, runtime, mut sessions, .. } = state;
    let now = "2026-01-03T00:00:00.000Z";
    let once = refresh_runtime_state(&mut plan, &runtime, &mut sessions, Some("main".to_string()), now);
    let twice = refresh_runtime_state(&mut plan, &once, &mut sessions, Some("main".to_string()), now);
    assert_eq!(once.current_step_id.as_deref(), Some(step_id.as_str()));
    assert_eq!(once.status, StepStatus::InProgress);
    assert_eq!(twice, once);
}

#[test]
fn accepting_a_proposal_appends_exactly_its_decision() {
    let existing = build_accepted_decision_markdown(&vec![AcceptedDecision {
        date: "2026-01-01".to_string(),
        title: "Use YAML".to_string(),
        context: "Readable files.".to_string(),
        decision: "Store state as YAML.".to_string(),
        impact: "Humans can diff it.".to_string(),
    }]);
    let proposal = |id: &str, title: &str| DecisionProposal {
        id: id.to_string(),
        proposed_at: "2026-02-03T04:05:06.000Z".to_string(),
        proposed_by: "agent-1".to_string(),
        title: title.to_string(),
        context: "Two surfaces share state.".to_string(),
        decision: "Route writes through one lock.".to_string(),
        impact: "No torn writes.".to_string(),
        status: DecisionProposalStatus::Proposed,
    };
    let proposals = DecisionProposalsFile {
        version: 1,
        proposals: vec![proposal("p-1", "Lock writes"), proposal("p-2", "Other")],
    };
    let out = accept_decision(&proposals, &existing, "p-1").expect("accept");
    assert_eq!(out.summary, "Accepted decision \"Lock writes\"");
    assert_eq!(out.proposals.proposals.len(), 1);
    assert_eq!(out.proposals.proposals[0].id, "p-2");
    let read = parse_accepted_decisions(&out.decisions_markdown);
    assert_eq!(read.len(), 2);
    assert_eq!(read[0].title, "Use YAML");
    assert_eq!(read[1].date, "2026-02-03");
    assert_eq!(read[1].title, "Lock writes");
    assert_eq!(read[1].context, "Two surfaces share state.");
    assert_eq!(read[1].decision, "Route writes through one lock.");
    assert_eq!(read[1].impact, "No torn writes.");
    assert!(matches!(
        accept_decision(&proposals, &existing, "missing"),
        Err(WorkflowError::UnknownProposal(id)) if id == "missing"
    ));
}

#[test]
fn normalizing_keeps_only_the_active_step_in_progress() {
    let mut plan = create_default_plan();
    let mut extra = plan.phases[0].steps[0].clone();
    extra.id = "write-the-spec".to_string();
    plan.phases[0].steps.push(extra);
    let first = plan.phases[0].steps[0].id.clone();
    let second = plan.phases[0].steps[1].id.clone();
    plan.phases[0].steps[0].status = StepStatus::InProgress;
    plan.phases[0].steps[0].owner_session_id = Some("s-1".to_string());
    plan.phases[0].steps[1].status = StepStatus::Blocked;
    plan.phases[0].steps[1].owner_session_id = Some("s-2".to_string());
    plan.phases[0].steps[1].completed_at = Some("2026-01-01T00:00:00.000Z".to_string());
    normalize_plan_in_progress_states(&mut plan, Some(first.as_str()), &Vec::new());
    assert_eq!(plan.phases[0].steps[0].status, StepStatus::InProgress);
    assert_eq!(plan.phases[0].steps[0].owner_session_id.as_deref(), Some("s-1"));
    assert_eq!(plan.phases[0].steps[1].id, second);
    assert_eq!(plan.phases[0].steps[1].status, StepStatus::Done);
    assert_eq!(plan.phases[0].steps[1].owner_session_id, None);
    let once = Plan {
        version: plan.version,
        phases: plan
            .phases
            .iter()
            .map(|p| Phase { id: p.id.clone(), title: p.title.clone(), steps: p.steps.clone() })
            .collect(),
    };
    normalize_plan_in_progress_states(&mut plan, Some(first.as_str()), &Vec::new());
    assert_eq!(plan, once);
}

#[test]
fn syncing_the_same_plan_again_gives_it_back() {
    let state = fresh_state();
    let phases = || {
        vec![
            PlanSyncPhaseInput {
                id: None,
                title: "Build".to_string(),
                steps: vec![
                    step_input("Build recorder", "Record snapshots."),
                    PlanSyncStepInput {
                        subtasks: Some(vec![
                            PlanSyncSubtaskInput {
                                id: None,
                                title: "Write schema".to_string(),
                                status: Some(SubtaskStatus::Done),
                            },
                            PlanSyncSubtaskInput { id: None, title: "Load fixtures".to_string(), status: None },
                        ]),
                        ..step_input("Replay trades", "Feed the recorder.")
                    },
                ],
            },
            PlanSyncPhaseInput {
                id: None,
                title: "Ship".to_string(),
                steps: vec![step_input("Capture requirements", "Keep the first step.")],
            },
        ]
    };
    let first = build_synced_plan(&state.plan, &phases()).expect("first sync");
    let again = build_synced_plan(&first, &phases()).expect("second sync");
    assert_eq!(again, first);
    assert_eq!(first.phases[1].steps[0].id, "capture-requirements");
    assert_eq!(first.phases[0].steps[1].subtasks[1].id, "load-fixtures");
}

#[test]
fn completing_the_focused_step_moves_focus_to_the_next_one() {
    let state = fresh_state();
    let phases = vec![PlanSyncPhaseInput {
        id: None,
        title: "Build".to_string(),
        steps: vec![
            step_input("Build recorder", "Record snapshots."),
            step_input("Replay trades", "Feed the recorder."),
        ],
    }];
    let plan = build_synced_plan(&state.plan, &phases).expect("sync");
    let state = ProjectState { plan, ..state };
    let ctx = SessionContextInput::default();
    let out = start_step(clone_state(&state), "build-recorder", &agent(), &ctx, None, "2026-01-02T00:00:00.000Z")
        .expect("start");
    let (state, _) = apply_writes(state, out);
    assert_eq!(state.runtime.current_step_id.as_deref(), Some("build-recorder"));
    let out = complete_step(clone_state(&state), "build-recorder", &agent(), &ctx, None, "2026-01-02T01:00:00.000Z")
        .expect("complete");
    let (state, _) = apply_writes(state, out);
    let next = state.plan.phases[0].steps[1].id.clone();
    assert_eq!(state.runtime.current_step_id.as_deref(), Some(next.as_str()));
    assert_eq!(state.runtime.next_action, "Start \"Replay trades\"");
}

#[test]
fn ensuring_a_session_without_an_id_twice_resumes_it() {
    let state = fresh_state();
    let ctx = SessionContextInput::default();
    let out = ensure_session(clone_state(&state), &agent(), &ctx, Some("main".to_string()), "2026-01-02T00:00:00.000Z");
    let (state, _) = apply_writes(state, out);
    assert_eq!(state.sessions.sessions.len(), 1);
    let id = state.sessions.sessions[0].id.clone();
    let out = ensure_session(clone_state(&state), &agent(), &ctx, Some("main".to_string()), "2026-01-02T02:00:00.000Z");
    let (state, _) = apply_writes(state, out);
    assert_eq!(state.sessions.sessions.len(), 1);
    assert_eq!(state.sessions.sessions[0].id, id);
    assert_eq!(state.sessions.sessions[0].last_updated_at, "2026-01-02T02:00:00.000Z");
    let other = MutationActor { actor: "agent-2".to_string(), source: ActivitySource::Agent };
    let out = ensure_session(clone_state(&state), &other, &ctx, Some("main".to_string()), "2026-01-02T03:00:00.000Z");
    let (state, _) = apply_writes(state, out);
    assert_eq!(state.sessions.sessions.len(), 2);
}

#[test]
fn normalizing_keeps_steps_of_kept_owners() {
    let mut plan = create_default_plan();
    let mut extra = plan.phases[0].steps[0].clone();
    extra.id = "write-the-spec".to_string();
    extra.status = StepStatus::InProgress;
    extra.owner_session_id = Some("s-2".to_string());
    plan.phases[0].steps.push(extra);
    let mut stale = plan.phases[0].steps[0].clone();
    stale.id = "old-work".to_string();
    stale.status = StepStatus::Blocked;
    stale.owner_session_id = Some("gone".to_string());
    plan.phases[0].steps.push(stale);
    normalize_plan_in_progress_states(&mut plan, Some("capture-requirements"), &vec!["s-2".to_string()]);
    assert_eq!(plan.phases[0].steps[1].status, StepStatus::InProgress);
    assert_eq!(plan.phases[0].steps[1].owner_session_id.as_deref(), Some("s-2"));
    assert_eq!(plan.phases[0].steps[2].status, StepStatus::Todo);
    assert_eq!(plan.phases[0].steps[2].owner_session_id, None);
}

#[test]
fn decisions_with_spaced_dates_read_back_exactly() {
    let entries = vec![AcceptedDecision {
        date: "2026 01".to_string(),
        title: "Use YAML".to_string(),
        context: "Readable files.".to_string(),
        decision: "Store state as YAML.".to_string(),
        impact: "Humans can diff it.".to_string(),
    }];
    let read = parse_accepted_decisions(&build_accepted_decision_markdown(&entries));
    assert_eq!(read, entries);
}

#[test]
fn slugs_hold_lowercase_letters_digits_and_single_dashes() {
    let s = slugify("  Build: The Recorder -- v2!! ");
    assert_eq!(s, "build-the-recorder-v2");
    assert!(s.chars().all(|c| c.is_ascii_lowercase() || c.is_ascii_digit() || c == '-'));
    assert_eq!(slugify("!!! ---"), "");
    let long = slugify(&"ab ".repeat(30));
    assert_eq!(long.chars().count(), 48);
    assert!(long.ends_with('-'));
    assert!(!long.contains("--"));
}
