//! The handoff note: a markdown summary of a project's state for whoever
//! picks the work up next.
use crate::models::{
    ostr, ActivityEvent, ActivitySource, DecisionProposal, Manifest, Plan, PlanModel, RuntimeState,
    SessionModel, SessionStatus, StepStatus, WorkflowSession,
};
use crate::plan::{find_current_step_title, locate, step_of};
use crate::text::{concat2, concat3, join, join_strings, owned, replace_all, replace_str};

use vstd::prelude::*;

verus! {

/// What a handoff note is written from.
pub struct HandoffInput {
    pub manifest: Manifest,
    pub plan: Plan,
    pub runtime: RuntimeState,
    pub sessions: Vec<WorkflowSession>,
    pub activity: Vec<ActivityEvent>,
    pub proposals: Vec<DecisionProposal>,
}

/// A step status as the note writes it: its name, lower-cased.
pub open spec fn status_word(s: StepStatus) -> Seq<char> {
    match s {
        StepStatus::Todo => "todo"@,
        StepStatus::InProgress => "inprogress"@,
        StepStatus::Blocked => "blocked"@,
        StepStatus::Done => "done"@,
    }
}

/// The name of a source, as `Debug` writes it.
pub open spec fn source_name(s: ActivitySource) -> Seq<char> {
    match s {
        ActivitySource::Cli => "Cli"@,
        ActivitySource::Mcp => "Mcp"@,
        ActivitySource::Desktop => "Desktop"@,
        ActivitySource::Agent => "Agent"@,
        ActivitySource::Human => "Human"@,
        ActivitySource::System => "System"@,
    }
}

/// A line with every `ActivitySource::` removed.
pub open spec fn unqualified(line: Seq<char>) -> Seq<char> {
    replace_all(line, "ActivitySource::"@, ""@)
}

/// The line of an active session.
pub open spec fn session_line(s: SessionModel) -> Seq<char> {
    let owner = match s.owned_step_id {
        Some(id) => " -> "@ + id,
        None => ""@,
    };
    unqualified("- "@ + s.title + " ("@ + s.actor + "/"@ + source_name(s.source) + ")"@ + owner)
}

/// The lines of the active sessions, in order.
pub open spec fn session_lines(ss: Seq<SessionModel>) -> Seq<Seq<char>>
    decreases ss.len(),
{
    if ss.len() == 0 {
        Seq::empty()
    } else if ss.last().status == SessionStatus::Active {
        session_lines(ss.drop_last()).push(session_line(ss.last()))
    } else {
        session_lines(ss.drop_last())
    }
}

/// The session and step an event refers to, those it has.
pub open spec fn event_context(e: ActivityEvent) -> Seq<Seq<char>> {
    match (e.session_id, e.step_id) {
        (Some(s), Some(t)) => seq![s@, t@],
        (Some(s), None) => seq![s@],
        (None, Some(t)) => seq![t@],
        (None, None) => Seq::empty(),
    }
}

/// The line of an activity event.
pub open spec fn event_line(e: ActivityEvent) -> Seq<char> {
    let context = event_context(e);
    let suffix = if context.len() == 0 {
        ""@
    } else {
        " | "@ + join(context, " / "@)
    };
    unqualified(
        "- "@ + e.timestamp@ + ": "@ + e.summary@ + " ("@ + e.actor@ + "/"@ + source_name(e.source) + suffix
            + ")"@,
    )
}

/// The most recent events, newest first: the last eight, reversed.
pub open spec fn recent(events: Seq<ActivityEvent>) -> Seq<ActivityEvent> {
    let n = if events.len() < 8 {
        events.len() as int
    } else {
        8
    };
    Seq::new(n as nat, |i: int| events[events.len() - 1 - i])
}

/// The lines of a section: the items, or `- None.`-like text when there
/// are none.
pub open spec fn or_none(items: Seq<Seq<char>>, none: Seq<char>) -> Seq<Seq<char>> {
    if items.len() == 0 {
        seq![none]
    } else {
        items
    }
}

/// The lines of the handoff note.
pub open spec fn handoff_lines(
    name: Seq<char>,
    plan: PlanModel,
    rt: RuntimeState,
    sessions: Seq<SessionModel>,
    activity: Seq<ActivityEvent>,
    proposals: Seq<DecisionProposal>,
) -> Seq<Seq<char>> {
    let current = match ostr(rt.current_step_id) {
        Some(id) => match locate(plan, id) {
            Some(pos) => step_of(plan, pos).title,
            None => "None"@,
        },
        None => "None"@,
    };
    let next = if rt.next_action@.len() == 0 {
        "No next action recorded."@
    } else {
        rt.next_action@
    };
    let branch = match ostr(rt.active_branch) {
        Some(b) => b,
        None => "Unknown"@,
    };
    seq![
        "# Project Handoff"@,
        ""@,
        "## Current state"@,
        "- Project: "@ + name,
        "- status: "@ + status_word(rt.status),
        "- Current step: "@ + current,
        "- Next action: "@ + next,
        "- Active branch: "@ + branch,
        "- Last updated: "@ + rt.last_updated_at@,
        ""@,
        "## Active sessions"@,
    ] + or_none(session_lines(sessions), "- None."@) + seq![""@, "## What changed"@] + or_none(recent(activity).map_values(|e: ActivityEvent| event_line(e)), "- No recent activity."@)
        + seq![""@, "## Blockers"@] + or_none(
        rt.blockers.deep_view().map_values(|b: Seq<char>| "- "@ + b),
        "- None."@,
    ) + seq![""@, "## Open questions"@] + or_none(
        proposals.map_values(|p: DecisionProposal| "- Review proposal: "@ + p.title@),
        "- None."@,
    )
}

/// Appends the strings of `more`.
fn extend(lines: &mut Vec<String>, more: Vec<String>)
    ensures
        final(lines).deep_view() == old(lines).deep_view() + more.deep_view(),
{
    let ghost l0 = lines.deep_view();
    let ghost m = more.deep_view();
    let mut k: usize = 0;
    while k < more.len()
        invariant
            m == more.deep_view(),
            k <= m.len(),
            lines.deep_view() == l0 + m.take(k as int),
        decreases m.len() - k,
    {
        let ghost before = *lines;
        let x = more[k].clone();
        lines.push(x);
        proof {
            crate::models::lemma_deep_push(before, *lines, x);
            assert(m.take(k as int + 1) =~= m.take(k as int).push(m[k as int]));
            assert(lines.deep_view() =~= l0 + m.take(k as int + 1));
        }
        k += 1;
    }
    assert(m.take(m.len() as int) =~= m);
}

/// Pushes one line.
fn push_line(lines: &mut Vec<String>, line: String)
    ensures
        final(lines).deep_view() == old(lines).deep_view().push(line@),
{
    let ghost before = *lines;
    let ghost x = line;
    lines.push(line);
    proof {
        crate::models::lemma_deep_push(before, *lines, x);
    }
}

/// The items, or the one line `none` when there are none.
fn or_none_lines(items: Vec<String>, none: &str) -> (r: Vec<String>)
    ensures
        r.deep_view() == or_none(items.deep_view(), none@),
{
    if items.len() == 0 {
        let mut r: Vec<String> = Vec::new();
        push_line(&mut r, owned(none));
        assert(r.deep_view() =~= seq![none@]);
        r
    } else {
        items
    }
}

/// The name of a source, as `Debug` writes it.
fn source_text(s: ActivitySource) -> (r: String)
    ensures
        r@ == source_name(s),
{
    match s {
        ActivitySource::Cli => owned("Cli"),
        ActivitySource::Mcp => owned("Mcp"),
        ActivitySource::Desktop => owned("Desktop"),
        ActivitySource::Agent => owned("Agent"),
        ActivitySource::Human => owned("Human"),
        ActivitySource::System => owned("System"),
    }
}

/// A line with every `ActivitySource::` removed.
fn unqualify(line: &str) -> (r: String)
    ensures
        r@ == unqualified(line@),
{
    proof {
        reveal_strlit("ActivitySource::");
    }
    replace_str(line, "ActivitySource::", "")
}

fn session_text(s: &WorkflowSession) -> (r: String)
    ensures
        r@ == session_line(s@),
{
    let a = concat3("- ", s.title.as_str(), " (");
    let b = concat3(a.as_str(), s.actor.as_str(), "/");
    let src = source_text(s.source);
    let c = concat3(b.as_str(), src.as_str(), ")");
    let d = match &s.owned_step_id {
        Some(id) => concat3(c.as_str(), " -> ", id.as_str()),
        None => c,
    };
    proof {
        reveal_strlit("");
    }
    assert(d@ =~= "- "@ + s@.title + " ("@ + s@.actor + "/"@ + source_name(s@.source) + ")"@ + match s@.owned_step_id {
        Some(id) => " -> "@ + id,
        None => ""@,
    });
    unqualify(d.as_str())
}

fn active_session_lines(sessions: &Vec<WorkflowSession>) -> (r: Vec<String>)
    ensures
        r.deep_view() == session_lines(sessions.deep_view()),
{
    let ghost ss = sessions.deep_view();
    let mut out: Vec<String> = Vec::new();
    let mut k: usize = 0;
    while k < sessions.len()
        invariant
            ss == sessions.deep_view(),
            k <= ss.len(),
            out.deep_view() == session_lines(ss.take(k as int)),
        decreases ss.len() - k,
    {
        assert(ss.take(k as int + 1).drop_last() =~= ss.take(k as int));
        assert(ss.take(k as int + 1).last() == sessions@[k as int]@);
        if sessions[k].status == SessionStatus::Active {
            let line = session_text(&sessions[k]);
            push_line(&mut out, line);
        }
        k += 1;
    }
    assert(ss.take(ss.len() as int) =~= ss);
    out
}

fn event_text(e: &ActivityEvent) -> (r: String)
    ensures
        r@ == event_line(*e),
{
    let a = concat3("- ", e.timestamp.as_str(), ": ");
    let b = concat3(a.as_str(), e.summary.as_str(), " (");
    let c = concat3(b.as_str(), e.actor.as_str(), "/");
    let src = source_text(e.source);
    let d = concat2(c.as_str(), src.as_str());
    let mut context: Vec<String> = Vec::new();
    match &e.session_id {
        Some(sid) => push_line(&mut context, sid.clone()),
        None => {},
    }
    match &e.step_id {
        Some(tid) => push_line(&mut context, tid.clone()),
        None => {},
    }
    let ghost expected = event_context(*e);
    assert(context.deep_view() =~= expected);
    let f = if context.len() == 0 {
        concat2(d.as_str(), ")")
    } else {
        let joined = join_strings(&context, " / ");
        let g = concat3(d.as_str(), " | ", joined.as_str());
        concat2(g.as_str(), ")")
    };
    proof {
        reveal_strlit("");
    }
    assert(f@ =~= "- "@ + e.timestamp@ + ": "@ + e.summary@ + " ("@ + e.actor@ + "/"@ + source_name(e.source) + (
    if expected.len() == 0 {
        ""@
    } else {
        " | "@ + join(expected, " / "@)
    }) + ")"@);
    unqualify(f.as_str())
}

fn recent_event_lines(activity: &Vec<ActivityEvent>) -> (r: Vec<String>)
    ensures
        r.deep_view() == recent(activity@).map_values(|e: ActivityEvent| event_line(e)),
{
    let ghost want = recent(activity@).map_values(|e: ActivityEvent| event_line(e));
    let n = activity.len();
    let m: usize = if n < 8 {
        n
    } else {
        8
    };
    let mut out: Vec<String> = Vec::new();
    let mut i: usize = 0;
    while i < m
        invariant
            n == activity@.len(),
            want == recent(activity@).map_values(|e: ActivityEvent| event_line(e)),
            m == want.len(),
            m <= n,
            i <= m,
            out.deep_view() == want.take(i as int),
        decreases m - i,
    {
        let line = event_text(&activity[n - 1 - i]);
        assert(recent(activity@)[i as int] == activity@[n - 1 - i]);
        assert(line@ == want[i as int]);
        push_line(&mut out, line);
        assert(want.take(i as int + 1) =~= want.take(i as int).push(want[i as int]));
        i += 1;
    }
    assert(want.take(m as int) =~= want);
    out
}

fn blocker_lines(blockers: &Vec<String>) -> (r: Vec<String>)
    ensures
        r.deep_view() == blockers.deep_view().map_values(|b: Seq<char>| "- "@ + b),
{
    let ghost want = blockers.deep_view().map_values(|b: Seq<char>| "- "@ + b);
    let mut out: Vec<String> = Vec::new();
    let mut i: usize = 0;
    while i < blockers.len()
        invariant
            want.len() == blockers@.len(),
            want == blockers.deep_view().map_values(|b: Seq<char>| "- "@ + b),
            i <= want.len(),
            out.deep_view() == want.take(i as int),
        decreases want.len() - i,
    {
        let line = concat2("- ", blockers[i].as_str());
        assert(line@ == want[i as int]);
        push_line(&mut out, line);
        assert(want.take(i as int + 1) =~= want.take(i as int).push(want[i as int]));
        i += 1;
    }
    assert(want.take(want.len() as int) =~= want);
    out
}

fn proposal_lines(proposals: &Vec<DecisionProposal>) -> (r: Vec<String>)
    ensures
        r.deep_view() == proposals@.map_values(|p: DecisionProposal| "- Review proposal: "@ + p.title@),
{
    let ghost want = proposals@.map_values(|p: DecisionProposal| "- Review proposal: "@ + p.title@);
    let mut out: Vec<String> = Vec::new();
    let mut i: usize = 0;
    while i < proposals.len()
        invariant
            want.len() == proposals@.len(),
            want == proposals@.map_values(|p: DecisionProposal| "- Review proposal: "@ + p.title@),
            i <= want.len(),
            out.deep_view() == want.take(i as int),
        decreases want.len() - i,
    {
        let line = concat2("- Review proposal: ", proposals[i].title.as_str());
        assert(line@ == want[i as int]);
        push_line(&mut out, line);
        assert(want.take(i as int + 1) =~= want.take(i as int).push(want[i as int]));
        i += 1;
    }
    assert(want.take(want.len() as int) =~= want);
    out
}

pub fn status_text(s: StepStatus) -> (r: String)
    ensures
        r@ == status_word(s),
{
    match s {
        StepStatus::Todo => owned("todo"),
        StepStatus::InProgress => owned("inprogress"),
        StepStatus::Blocked => owned("blocked"),
        StepStatus::Done => owned("done"),
    }
}

/// `generate_handoff`: the note's lines joined by newlines, with a final
/// newline. It gives the project's name, status, current step, next action,
/// branch and last update; the active sessions; the last eight events,
/// newest first; the blockers; and the pending proposals.
#[verifier::spinoff_prover]
#[verifier::rlimit(50)]
pub fn generate_handoff(input: &HandoffInput) -> (r: String)
    ensures
        r@ == join(
            handoff_lines(
                input.manifest.name@,
                input.plan@,
                input.runtime,
                input.sessions.deep_view(),
                input.activity@,
                input.proposals@,
            ),
            "\n"@,
        ) + "\n"@,
{
    let rt = &input.runtime;
    let mut lines: Vec<String> = Vec::new();
    push_line(&mut lines, owned("# Project Handoff"));
    push_line(&mut lines, owned(""));
    push_line(&mut lines, owned("## Current state"));
    push_line(&mut lines, concat2("- Project: ", input.manifest.name.as_str()));
    let st = status_text(rt.status);
    push_line(&mut lines, concat2("- status: ", st.as_str()));
    let current = match &rt.current_step_id {
        Some(id) => find_current_step_title(&input.plan, Some(id.as_str())),
        None => None,
    };
    let current_text = match current {
        Some(t) => t,
        None => owned("None"),
    };
    push_line(&mut lines, concat2("- Current step: ", current_text.as_str()));
    let next = if rt.next_action.unicode_len() == 0 {
        owned("No next action recorded.")
    } else {
        rt.next_action.clone()
    };
    push_line(&mut lines, concat2("- Next action: ", next.as_str()));
    let branch = match &rt.active_branch {
        Some(b) => b.clone(),
        None => owned("Unknown"),
    };
    push_line(&mut lines, concat2("- Active branch: ", branch.as_str()));
    push_line(&mut lines, concat2("- Last updated: ", rt.last_updated_at.as_str()));
    push_line(&mut lines, owned(""));
    push_line(&mut lines, owned("## Active sessions"));
    extend(&mut lines, or_none_lines(active_session_lines(&input.sessions), "- None."));
    push_line(&mut lines, owned(""));
    push_line(&mut lines, owned("## What changed"));
    extend(&mut lines, or_none_lines(recent_event_lines(&input.activity), "- No recent activity."));
    push_line(&mut lines, owned(""));
    push_line(&mut lines, owned("## Blockers"));
    extend(&mut lines, or_none_lines(blocker_lines(&rt.blockers), "- None."));
    push_line(&mut lines, owned(""));
    push_line(&mut lines, owned("## Open questions"));
    extend(&mut lines, or_none_lines(proposal_lines(&input.proposals), "- None."));
    assert(lines.deep_view() =~= handoff_lines(
        input.manifest.name@,
        input.plan@,
        input.runtime,
        input.sessions.deep_view(),
        input.activity@,
        input.proposals@,
    ));
    let body = join_strings(&lines, "\n");
    concat2(body.as_str(), "\n")
}

} // verus!
