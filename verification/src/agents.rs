//! Agent defaults: whether an agent client is set up to reach the workflow
//! bridge, what to install or update, and the instruction blocks kept in
//! agent guidance files.
use crate::desktop::HostOs;
use crate::models::ostr;
use crate::paths::{join_path, path_listed};
use crate::roots::{sorted_form, sorted_set};
use crate::text::{
    chars_of, concat2, concat3, find_first, find_in, join, occurs_at, owned, split_char, split_on_vec, starts_with,
    string_from, strip_end, trim_end_vec, strip_prefix_all, strip_prefix_all_vec};

use vstd::prelude::*;

verus! {

// ---------------------------------------------------------------------------
// Clients, scopes, statuses
// ---------------------------------------------------------------------------

/// The agent clients whose configuration this library inspects and writes,
/// and for which it gives setup snippets. Codex is the only one: the
/// product's desktop-assistant clients are not handled here, and
/// [`parse_client_kind`] refuses their names.
#[derive(Debug, Clone, Copy, PartialEq, Eq, Structural)]
pub enum ClientKind {
    Codex,
}

pub open spec fn kind_name(k: ClientKind) -> Seq<char> {
    match k {
        ClientKind::Codex => "codex"@,
    }
}

pub open spec fn kind_label(k: ClientKind) -> Seq<char> {
    match k {
        ClientKind::Codex => "Codex"@,
    }
}

impl ClientKind {
    /// Every client, in order.
    pub fn all() -> (r: Vec<ClientKind>)
        ensures
            r@ == seq![ClientKind::Codex],
    {
        let v = vec![ClientKind::Codex];
        assert(v@ =~= seq![ClientKind::Codex]);
        v
    }

    /// The client's name in settings and commands.
    pub fn as_str(self) -> (r: &'static str)
        ensures
            r@ == kind_name(self),
    {
        match self {
            ClientKind::Codex => "codex",
        }
    }

    /// The client's name for people.
    pub fn label(self) -> (r: &'static str)
        ensures
            r@ == kind_label(self),
    {
        match self {
            ClientKind::Codex => "Codex",
        }
    }
}

/// `parse_client_kind`: the client named `raw`, or the message for an
/// unknown one.
pub fn parse_client_kind(raw: &str) -> (r: Result<ClientKind, String>)
    ensures
        match r {
            Ok(k) => kind_name(k) == raw@,
            Err(m) => {
                &&& raw@ != "codex"@
                &&& m@ == "Unknown client kind: "@ + raw@
            },
        },
{
    if crate::text::str_eq(raw, "codex") {
        Ok(ClientKind::Codex)
    } else {
        Err(concat2("Unknown client kind: ", raw))
    }
}

#[derive(Debug, Clone, Copy, PartialEq, Eq, Structural)]
pub enum InstallScope {
    Global,
    Repo,
    Both,
}

#[derive(Debug, Clone, Copy, PartialEq, Eq, Structural)]
pub enum InstallStatus {
    Installed,
    Missing,
    Stale,
    Unsupported,
    Error,
}

#[derive(Debug, Clone, Copy, PartialEq, Eq, Structural)]
pub enum InstallAction {
    Install,
    Update,
    Reinstall,
}

pub open spec fn action_name(a: InstallAction) -> Seq<char> {
    match a {
        InstallAction::Install => "install"@,
        InstallAction::Update => "update"@,
        InstallAction::Reinstall => "reinstall"@,
    }
}

/// `parse_install_action`: the action named `raw`, or the message for an
/// unknown one.
pub fn parse_install_action(raw: &str) -> (r: Result<InstallAction, String>)
    ensures
        match r {
            Ok(a) => action_name(a) == raw@,
            Err(m) => {
                &&& raw@ != "install"@ && raw@ != "update"@ && raw@ != "reinstall"@
                &&& m@ == "Unknown install action: "@ + raw@
            },
        },
{
    if crate::text::str_eq(raw, "install") {
        Ok(InstallAction::Install)
    } else if crate::text::str_eq(raw, "update") {
        Ok(InstallAction::Update)
    } else if crate::text::str_eq(raw, "reinstall") {
        Ok(InstallAction::Reinstall)
    } else {
        Err(concat2("Unknown install action: ", raw))
    }
}

/// The state of one scope (global or repo) of a client.
#[derive(Debug, PartialEq, Eq)]
pub struct AgentScopeStatus {
    pub scope: String,
    pub status: InstallStatus,
    pub reasons: Vec<String>,
    pub changed_paths: Vec<String>,
}

/// The state of a client over the scopes asked for.
#[derive(Debug, PartialEq, Eq)]
pub struct AgentTargetStatus {
    pub kind: String,
    pub label: String,
    pub status: InstallStatus,
    pub reasons: Vec<String>,
    pub global: Option<AgentScopeStatus>,
    pub repo: Option<AgentScopeStatus>,
    pub changed_paths: Vec<String>,
}

/// A setup snippet for a client.
#[derive(Debug, PartialEq, Eq)]
pub struct BridgeSnippet {
    pub kind: String,
    pub label: String,
    pub content: String,
    pub copy_label: String,
    pub notes: String,
    pub stale: bool,
}

/// What the agent defaults are inspected and applied with.
#[derive(Debug, Default)]
pub struct AgentDefaultsContext {
    pub repo_root: Option<String>,
    pub bridge_url: Option<String>,
    pub bridge_token: Option<String>,
    pub projectctl_command_path: Option<String>,
    pub path_env: Option<String>,
    pub home_dir: Option<String>,
    pub appdata_dir: Option<String>,
}

/// The state of one file a client reads.
#[derive(Debug, PartialEq, Eq)]
pub struct SurfaceStatus {
    pub status: InstallStatus,
    pub reasons: Vec<String>,
}

pub fn installed() -> (r: SurfaceStatus)
    ensures
        r.status == InstallStatus::Installed,
        r.reasons@.len() == 0,
{
    SurfaceStatus { status: InstallStatus::Installed, reasons: Vec::new() }
}

pub fn missing() -> (r: SurfaceStatus)
    ensures
        r.status == InstallStatus::Missing,
        r.reasons@.len() == 0,
{
    SurfaceStatus { status: InstallStatus::Missing, reasons: Vec::new() }
}

pub fn stale(reason: &str) -> (r: SurfaceStatus)
    ensures
        r.status == InstallStatus::Stale,
        r.reasons.deep_view() == seq![reason@],
{
    let mut v: Vec<String> = Vec::new();
    v.push(owned(reason));
    assert(v.deep_view() =~= seq![reason@]);
    SurfaceStatus { status: InstallStatus::Stale, reasons: v }
}

pub fn error(reason: &str) -> (r: SurfaceStatus)
    ensures
        r.status == InstallStatus::Error,
        r.reasons.deep_view() == seq![reason@],
{
    let mut v: Vec<String> = Vec::new();
    v.push(owned(reason));
    assert(v.deep_view() =~= seq![reason@]);
    SurfaceStatus { status: InstallStatus::Error, reasons: v }
}

/// `should_apply`: installing fixes what is missing, updating what is
/// stale, reinstalling anything not in error.
pub open spec fn applies(status: InstallStatus, action: InstallAction) -> bool {
    match action {
        InstallAction::Install => status == InstallStatus::Missing,
        InstallAction::Update => status == InstallStatus::Stale,
        InstallAction::Reinstall => status != InstallStatus::Error,
    }
}

/// Whether an action rewrites a scope in the given status: install a missing
/// one, update a stale one, reinstall any that is not in error.
pub fn should_apply(status: InstallStatus, action: InstallAction) -> (r: bool)
    ensures
        r == applies(status, action),
{
    match action {
        InstallAction::Install => status == InstallStatus::Missing,
        InstallAction::Update => status == InstallStatus::Stale,
        InstallAction::Reinstall => status != InstallStatus::Error,
    }
}

/// `combine_statuses`: the worst status, in the order error, stale,
/// missing, unsupported, installed; installed when there is none.
pub open spec fn combined(statuses: Seq<InstallStatus>) -> InstallStatus {
    if statuses.contains(InstallStatus::Error) {
        InstallStatus::Error
    } else if statuses.contains(InstallStatus::Stale) {
        InstallStatus::Stale
    } else if statuses.contains(InstallStatus::Missing) {
        InstallStatus::Missing
    } else if statuses.contains(InstallStatus::Unsupported) {
        InstallStatus::Unsupported
    } else {
        InstallStatus::Installed
    }
}

fn has_status(statuses: &Vec<InstallStatus>, s: InstallStatus) -> (r: bool)
    ensures
        r == statuses@.contains(s),
{
    let mut k: usize = 0;
    while k < statuses.len()
        invariant
            k <= statuses@.len(),
            forall|m: int| 0 <= m < k ==> statuses@[m] != s,
        decreases statuses@.len() - k,
    {
        if statuses[k] == s {
            assert(statuses@[k as int] == s);
            return true;
        }
        k += 1;
    }
    false
}

/// The overall status of several scopes: error over stale over missing over
/// unsupported over installed.
pub fn combine_statuses(statuses: &Vec<InstallStatus>) -> (r: InstallStatus)
    ensures
        r == combined(statuses@),
{
    if has_status(statuses, InstallStatus::Error) {
        InstallStatus::Error
    } else if has_status(statuses, InstallStatus::Stale) {
        InstallStatus::Stale
    } else if has_status(statuses, InstallStatus::Missing) {
        InstallStatus::Missing
    } else if has_status(statuses, InstallStatus::Unsupported) {
        InstallStatus::Unsupported
    } else {
        InstallStatus::Installed
    }
}

/// The reasons of the surfaces, one after the other.
pub open spec fn all_reasons(surfaces: Seq<SurfaceStatus>) -> Seq<Seq<char>>
    decreases surfaces.len(),
{
    if surfaces.len() == 0 {
        Seq::empty()
    } else {
        all_reasons(surfaces.drop_last()) + surfaces.last().reasons.deep_view()
    }
}

/// Appends copies of the strings of `more`.
fn append_strings(v: &mut Vec<String>, more: &Vec<String>)
    ensures
        final(v).deep_view() == old(v).deep_view() + more.deep_view(),
{
    let ghost v0 = v.deep_view();
    let ghost m = more.deep_view();
    let mut k: usize = 0;
    while k < more.len()
        invariant
            m == more.deep_view(),
            k <= m.len(),
            v.deep_view() == v0 + m.take(k as int),
        decreases m.len() - k,
    {
        let ghost before = *v;
        let x = more[k].clone();
        let ghost xv = x;
        v.push(x);
        proof {
            crate::models::lemma_deep_push(before, *v, xv);
            assert(m.take(k as int + 1) =~= m.take(k as int).push(m[k as int]));
        }
        k += 1;
    }
    assert(m.take(m.len() as int) =~= m);
}

/// `to_scope_status`: the surfaces' combined status and their reasons,
/// sorted, each once.
pub fn to_scope_status(scope: &str, surfaces: &Vec<SurfaceStatus>) -> (r: AgentScopeStatus)
    ensures
        r.scope@ == scope@,
        r.status == combined(surfaces@.map_values(|s: SurfaceStatus| s.status)),
        r.reasons.deep_view() == sorted_form(all_reasons(surfaces@)),
        r.changed_paths@.len() == 0,
{
    let mut statuses: Vec<InstallStatus> = Vec::new();
    let mut reasons: Vec<String> = Vec::new();
    let mut k: usize = 0;
    while k < surfaces.len()
        invariant
            k <= surfaces@.len(),
            statuses@ == surfaces@.take(k as int).map_values(|s: SurfaceStatus| s.status),
            reasons.deep_view() == all_reasons(surfaces@.take(k as int)),
        decreases surfaces@.len() - k,
    {
        assert(surfaces@.take(k as int + 1).drop_last() =~= surfaces@.take(k as int));
        statuses.push(surfaces[k].status);
        append_strings(&mut reasons, &surfaces[k].reasons);
        assert(statuses@ =~= surfaces@.take(k as int + 1).map_values(|s: SurfaceStatus| s.status));
        k += 1;
    }
    assert(surfaces@.take(surfaces@.len() as int) =~= surfaces@);
    AgentScopeStatus {
        scope: owned(scope),
        status: combine_statuses(&statuses),
        reasons: sorted_set(&reasons),
        changed_paths: Vec::new(),
    }
}

/// The scopes that are present.
pub open spec fn present(global: Option<AgentScopeStatus>, repo: Option<AgentScopeStatus>) -> Seq<AgentScopeStatus> {
    match (global, repo) {
        (Some(g), Some(r)) => seq![g, r],
        (Some(g), None) => seq![g],
        (None, Some(r)) => seq![r],
        (None, None) => Seq::empty(),
    }
}

/// The reasons of the scopes, one after the other.
pub open spec fn scope_reasons(scopes: Seq<AgentScopeStatus>) -> Seq<Seq<char>>
    decreases scopes.len(),
{
    if scopes.len() == 0 {
        Seq::empty()
    } else {
        scope_reasons(scopes.drop_last()) + scopes.last().reasons.deep_view()
    }
}

/// `build_target_status`: the client's status over the scopes present, with
/// their reasons sorted, each once.
pub fn build_target_status(
    kind: ClientKind,
    global: Option<AgentScopeStatus>,
    repo: Option<AgentScopeStatus>,
) -> (r: AgentTargetStatus)
    ensures
        r.kind@ == kind_name(kind),
        r.label@ == kind_label(kind),
        r.status == combined(present(global, repo).map_values(|s: AgentScopeStatus| s.status)),
        r.reasons.deep_view() == sorted_form(scope_reasons(present(global, repo))),
        r.global == global,
        r.repo == repo,
        r.changed_paths@.len() == 0,
{
    let mut statuses: Vec<InstallStatus> = Vec::new();
    let mut reasons: Vec<String> = Vec::new();
    match &global {
        Some(g) => {
            statuses.push(g.status);
            append_strings(&mut reasons, &g.reasons);
        },
        None => {},
    }
    match &repo {
        Some(r) => {
            statuses.push(r.status);
            append_strings(&mut reasons, &r.reasons);
        },
        None => {},
    }
    let ghost ps = present(global, repo);
    assert(statuses@ =~= ps.map_values(|s: AgentScopeStatus| s.status));
    proof {
        assert(scope_reasons(Seq::<AgentScopeStatus>::empty()) =~= Seq::<Seq<char>>::empty());
        if ps.len() > 0 {
            let one = seq![ps[0]];
            assert(one.drop_last() =~= Seq::<AgentScopeStatus>::empty());
            assert(one.last() == ps[0]);
            assert(scope_reasons(one) =~= Seq::<Seq<char>>::empty() + ps[0].reasons.deep_view());
        }
        if ps.len() == 2 {
            assert(ps.drop_last() =~= seq![ps[0]]);
            assert(seq![ps[0]].drop_last() =~= Seq::<AgentScopeStatus>::empty());
            assert(scope_reasons(seq![ps[0]]) =~= ps[0].reasons.deep_view());
        } else if ps.len() == 1 {
            assert(ps.drop_last() =~= Seq::<AgentScopeStatus>::empty());
            assert(scope_reasons(ps) =~= ps[0].reasons.deep_view());
        } else {
            assert(scope_reasons(ps) =~= Seq::<Seq<char>>::empty());
        }
        assert(reasons.deep_view() =~= scope_reasons(ps));
    }
    let kind_text = kind.as_str();
    let label_text = kind.label();
    AgentTargetStatus {
        kind: owned(kind_text),
        label: owned(label_text),
        status: combine_statuses(&statuses),
        reasons: sorted_set(&reasons),
        global,
        repo,
        changed_paths: Vec::new(),
    }
}

// ---------------------------------------------------------------------------
// Managed instruction blocks
// ---------------------------------------------------------------------------

pub open spec fn block_start() -> Seq<char> {
    "<!-- parallel-agent-defaults:v1:start -->"@
}

pub open spec fn block_end() -> Seq<char> {
    "<!-- parallel-agent-defaults:v1:end -->"@
}

/// `managed_block`: the body, its trailing whitespace trimmed, between the
/// start and end markers, each on a line of its own.
pub open spec fn managed(body: Seq<char>) -> Seq<char> {
    block_start() + "\n"@ + strip_end(body, crate::decisions::ws()) + "\n"@ + block_end() + "\n"@
}

/// The managed block around `body`: the start marker, the body without
/// trailing whitespace, the end marker, each on its own line.
pub fn managed_block(body: &str) -> (r: String)
    ensures
        r@ == managed(body@),
{
    let bv = chars_of(body);
    let t = trim_end_vec(&bv);
    let ts = string_from(t.as_slice());
    let a = concat3("<!-- parallel-agent-defaults:v1:start -->", "\n", ts.as_str());
    let b = concat3(a.as_str(), "\n", "<!-- parallel-agent-defaults:v1:end -->");
    let r = concat2(b.as_str(), "\n");
    assert(r@ =~= managed(body@));
    r
}

/// Whether the markers of a text are in an order that lets the block be
/// cut out: when both occur, the end marker does not end before the start
/// marker begins.
pub open spec fn markers_ordered(e: Seq<char>) -> bool {
    match (find_first(e, block_start()), find_first(e, block_end())) {
        (Some(s), Some(t)) => s <= t + block_end().len(),
        _ => true,
    }
}

/// `find_managed_block`: from the first start marker to the end of the
/// first end marker, with a newline.
pub open spec fn found_block(e: Seq<char>) -> Option<Seq<char>> {
    match (find_first(e, block_start()), find_first(e, block_end())) {
        (Some(s), Some(t)) => Some(e.subrange(s, t + block_end().len()) + "\n"@),
        _ => None,
    }
}

/// The managed block of a file's text, from its start marker to its end
/// marker, if both are there.
pub fn find_managed_block(existing: &str) -> (r: Option<String>)
    requires
        markers_ordered(existing@),
    ensures
        ostr(r) == found_block(existing@),
{
    let v = chars_of(existing);
    let sv = chars_of("<!-- parallel-agent-defaults:v1:start -->");
    let ev = chars_of("<!-- parallel-agent-defaults:v1:end -->");
    let start = match find_in(&v, &sv) {
        Some(s) => s,
        None => {
            return None;
        },
    };
    let end = match find_in(&v, &ev) {
        Some(t) => t,
        None => {
            return None;
        },
    };
    proof {
        crate::text::lemma_find_from(v@, ev@, 0);
        crate::text::lemma_find_from(v@, sv@, 0);
    }
    assert(occurs_at(v@, ev@, end as int));
    let vl = v.len();
    assert(end + ev@.len() <= vl);
    let end_index = end + ev.len();
    let w = crate::text::sub_vec(&v, start, end_index);
    let block = string_from(w.as_slice());
    Some(concat2(block.as_str(), "\n"))
}

/// `inspect_managed_text`: missing without the file or without a block;
/// installed when the block is the expected one; stale otherwise.
pub fn inspect_managed_text(existing: Option<&str>, body: &str) -> (r: SurfaceStatus)
    requires
        existing matches Some(e) ==> markers_ordered(e@),
    ensures
        match existing {
            None => r.status == InstallStatus::Missing && r.reasons@.len() == 0,
            Some(e) => match found_block(e@) {
                None => r.status == InstallStatus::Missing && r.reasons@.len() == 0,
                Some(b) => if b == managed(body@) {
                    r.status == InstallStatus::Installed && r.reasons@.len() == 0
                } else {
                    r.status == InstallStatus::Stale && r.reasons.deep_view() == seq!["managed_block_outdated"@]
                },
            },
        },
{
    let e = match existing {
        Some(e) => e,
        None => {
            return missing();
        },
    };
    let expected = managed_block(body);
    match find_managed_block(e) {
        Some(block) => {
            if block == expected {
                installed()
            } else {
                stale("managed_block_outdated")
            }
        },
        None => missing(),
    }
}

/// `upsert_managed_block`: the text with its block replaced by the expected
/// one; without a block, the expected block appended after a blank line;
/// without a file, the block alone.
pub open spec fn upserted(existing: Option<Seq<char>>, body: Seq<char>) -> Seq<char> {
    let expected = managed(body);
    match existing {
        None => expected,
        Some(e) => match find_first(e, block_start()) {
            None => {
                let t = strip_end(e, crate::decisions::ws());
                if t.len() > 0 {
                    t + "\n\n"@ + expected
                } else {
                    expected
                }
            },
            Some(s) => match find_first(e, block_end()) {
                None => strip_end(e, crate::decisions::ws()) + "\n\n"@ + expected,
                Some(t) => {
                    let after = e.skip(t + block_end().len());
                    e.take(s) + expected + (if starts_with(after, "\n"@) {
                        ""@
                    } else {
                        "\n"@
                    }) + strip_prefix_all(after, "\n"@)
                },
            },
        },
    }
}

/// The file's text with the managed block for `body` in place: a new file is
/// the block alone; an existing block is replaced where it is; otherwise the
/// block is appended after a blank line.
pub fn upsert_managed_block(existing: Option<&str>, body: &str) -> (r: String)
    ensures
        r@ == upserted(
            match existing {
                Some(e) => Some(e@),
                None => None,
            },
            body@,
        ),
{
    let expected = managed_block(body);
    let e = match existing {
        Some(e) => e,
        None => {
            return expected;
        },
    };
    proof {
        reveal_strlit("");
        reveal_strlit("\n");
    }
    let v = chars_of(e);
    let sv = chars_of("<!-- parallel-agent-defaults:v1:start -->");
    let ev = chars_of("<!-- parallel-agent-defaults:v1:end -->");
    let start = match find_in(&v, &sv) {
        Some(s) => s,
        None => {
            let t = trim_end_vec(&v);
            let ts = string_from(t.as_slice());
            if t.len() > 0 {
                return concat3(ts.as_str(), "\n\n", expected.as_str());
            } else {
                return expected;
            }
        },
    };
    let end = match find_in(&v, &ev) {
        Some(t) => t,
        None => {
            let t = trim_end_vec(&v);
            let ts = string_from(t.as_slice());
            return concat3(ts.as_str(), "\n\n", expected.as_str());
        },
    };
    proof {
        crate::text::lemma_find_from(v@, ev@, 0);
        crate::text::lemma_find_from(v@, sv@, 0);
    }
    assert(occurs_at(v@, ev@, end as int));
    let vl = v.len();
    assert(end + ev@.len() <= vl);
    let end_index = end + ev.len();
    let before = crate::text::sub_vec(&v, 0, start);
    let after = crate::text::sub_vec(&v, end_index, v.len());
    assert(before@ =~= e@.take(start as int));
    assert(after@ =~= e@.skip(end_index as int));
    let nl = chars_of("\n");
    let after_starts = crate::text::has_prefix(&after, &nl);
    let rest = strip_prefix_all_vec(&after, &nl);
    let bs = string_from(before.as_slice());
    let rs = string_from(rest.as_slice());
    let mut out = concat2(bs.as_str(), expected.as_str());
    if !after_starts {
        out.append("\n");
    }
    out.append(rs.as_str());
    out
}

/// The instructions kept in a client's global guidance file.
pub open spec fn global_text() -> Seq<char> {
    "When a task is about workflow state rather than code implementation, use Parallel through MCP or projectctl before proceeding.\n\nUse this sequence unless the task is clearly read-only:\n1. list_projects\n2. get_project\n3. ensure_session\n4. claim or start a step only when actively executing it\n5. append activity, blockers, and handoff through Parallel\n\nDo not edit workflow files directly unless repairing broken state.\nDo not use Parallel when modifying the Parallel product itself."@
}

/// The instructions kept in a repository's `AGENTS.md`.
pub open spec fn repo_text() -> Seq<char> {
    "Workflow state in this repo is managed through Parallel.\nUse Parallel MCP or projectctl for current step, sessions, blockers, notes, decisions, and handoff instead of editing workflow files directly."@
}

/// The instruction text the global agent file holds in its managed block.
pub fn global_text_body() -> (r: &'static str)
    ensures
        r@ == global_text(),
{
    "When a task is about workflow state rather than code implementation, use Parallel through MCP or projectctl before proceeding.\n\nUse this sequence unless the task is clearly read-only:\n1. list_projects\n2. get_project\n3. ensure_session\n4. claim or start a step only when actively executing it\n5. append activity, blockers, and handoff through Parallel\n\nDo not edit workflow files directly unless repairing broken state.\nDo not use Parallel when modifying the Parallel product itself."
}

/// The instruction text a repository's agent file holds in its managed block.
pub fn repo_text_body() -> (r: &'static str)
    ensures
        r@ == repo_text(),
{
    "Workflow state in this repo is managed through Parallel.\nUse Parallel MCP or projectctl for current step, sessions, blockers, notes, decisions, and handoff instead of editing workflow files directly."
}

// ---------------------------------------------------------------------------
// Paths
// ---------------------------------------------------------------------------

/// The non-empty entries of a PATH value, split on the platform's list
/// separator.
pub open spec fn listed_dirs(path_env: Option<Seq<char>>, os: HostOs) -> Seq<Seq<char>> {
    let raw = match path_env {
        Some(p) => p,
        None => Seq::empty(),
    };
    split_char(raw, if os == HostOs::Windows { ';' } else { ':' }).filter(non_empty())
}

pub open spec fn non_empty() -> spec_fn(Seq<char>) -> bool {
    |e: Seq<char>| e.len() > 0
}

/// `path_entries` of the agent defaults.
pub fn listed_path_dirs(path_env: Option<&str>, os: HostOs) -> (r: Vec<String>)
    ensures
        r.deep_view() == listed_dirs(
            match path_env {
                Some(p) => Some(p@),
                None => None,
            },
            os,
        ),
{
    let raw = match path_env {
        Some(p) => chars_of(p),
        None => Vec::new(),
    };
    let sep: Vec<char> = if os == HostOs::Windows {
        vec![';']
    } else {
        vec![':']
    };
    assert(sep@ =~= seq![if os == HostOs::Windows { ';' } else { ':' }]);
    let pieces = split_on_vec(&raw, &sep);
    let ghost ps = pieces.deep_view();
    let mut out: Vec<String> = Vec::new();
    let mut k: usize = 0;
    while k < pieces.len()
        invariant
            ps == pieces.deep_view(),
            k <= ps.len(),
            out.deep_view() == ps.take(k as int).filter(non_empty()),
        decreases ps.len() - k,
    {
        assert(ps.take(k as int + 1).drop_last() =~= ps.take(k as int));
        assert(ps[k as int] == pieces@[k as int]@);
        proof {
            reveal(Seq::filter);
        }
        if pieces[k].len() > 0 {
            let s = string_from(pieces[k].as_slice());
            let ghost before = out;
            let ghost sv = s;
            out.push(s);
            proof {
                crate::models::lemma_deep_push(before, out, sv);
            }
        }
        k += 1;
    }
    assert(ps.take(ps.len() as int) =~= ps);
    out
}

/// The platform's path separator.
pub open spec fn os_sep(os: HostOs) -> char {
    if os == HostOs::Windows {
        '\\'
    } else {
        '/'
    }
}

/// `stable_projectctl_install_path`: `~/bin` when PATH lists it, else
/// `~/.local/bin` when PATH lists it, else `~/bin` on macOS and
/// `~/.local/bin` elsewhere; PATH entries are compared as paths, and paths
/// are joined with the platform's separator.
pub open spec fn stable_install_path(path_env: Option<Seq<char>>, home: Seq<char>, os: HostOs) -> Seq<char> {
    let name = if os == HostOs::Windows {
        "projectctl.exe"@
    } else {
        "projectctl"@
    };
    let sep = os_sep(os);
    let windows = os == HostOs::Windows;
    let home_bin = join_path(home, "bin"@, sep);
    let local_bin = join_path(join_path(home, ".local"@, sep), "bin"@, sep);
    let dirs = listed_dirs(path_env, os);
    if path_listed(dirs, home_bin, windows) {
        join_path(home_bin, name, sep)
    } else if path_listed(dirs, local_bin, windows) {
        join_path(local_bin, name, sep)
    } else if os == HostOs::MacOs {
        join_path(home_bin, name, sep)
    } else {
        join_path(local_bin, name, sep)
    }
}

/// Where the CLI is installed for the user: `~/bin` when it is on PATH, else
/// `~/.local/bin` when that is, else `~/bin` on macOS and `~/.local/bin`
/// elsewhere; the file is `projectctl` (`projectctl.exe` on Windows).
pub fn stable_projectctl_install_path(path_env: Option<&str>, home_dir: &str, os: HostOs) -> (r: String)
    ensures
        r@ == stable_install_path(
            match path_env {
                Some(p) => Some(p@),
                None => None,
            },
            home_dir@,
            os,
        ),
{
    let windows = os == HostOs::Windows;
    let name = if windows {
        "projectctl.exe"
    } else {
        "projectctl"
    };
    let sep = if windows {
        '\\'
    } else {
        '/'
    };
    let home_bin = crate::paths::join_with(home_dir, "bin", sep);
    let local = crate::paths::join_with(home_dir, ".local", sep);
    let local_bin = crate::paths::join_with(local.as_str(), "bin", sep);
    let dirs = listed_path_dirs(path_env, os);
    if crate::paths::path_in(&dirs, home_bin.as_str(), windows) {
        crate::paths::join_with(home_bin.as_str(), name, sep)
    } else if crate::paths::path_in(&dirs, local_bin.as_str(), windows) {
        crate::paths::join_with(local_bin.as_str(), name, sep)
    } else if os == HostOs::MacOs {
        crate::paths::join_with(home_bin.as_str(), name, sep)
    } else {
        crate::paths::join_with(local_bin.as_str(), name, sep)
    }
}

/// `home_dir`: the context's home directory, else `$HOME`.
pub fn home_dir(context: &AgentDefaultsContext, env_home: Option<String>) -> (r: Result<String, String>)
    ensures
        match context.home_dir {
            Some(h) => r == Ok::<String, String>(h),
            None => match env_home {
                Some(h) => r == Ok::<String, String>(h),
                None => r matches Err(m) && m@ == "HOME is not set"@,
            },
        },
{
    match &context.home_dir {
        Some(h) => Ok(h.clone()),
        None => match env_home {
            Some(h) => Ok(h),
            None => Err(owned("HOME is not set")),
        },
    }
}

/// The bridge URL the context gives, or the message that it is required.
pub fn required_bridge_url(context: &AgentDefaultsContext) -> (r: Result<String, String>)
    ensures
        match context.bridge_url {
            Some(u) => r == Ok::<String, String>(u),
            None => r matches Err(m) && m@ == "--url is required"@,
        },
{
    match &context.bridge_url {
        Some(u) => Ok(u.clone()),
        None => Err(owned("--url is required")),
    }
}

/// The bridge token the context gives, or the message that it is required.
pub fn required_bridge_token(context: &AgentDefaultsContext) -> (r: Result<String, String>)
    ensures
        match context.bridge_token {
            Some(t) => r == Ok::<String, String>(t),
            None => r matches Err(m) && m@ == "--token is required"@,
        },
{
    match &context.bridge_token {
        Some(t) => Ok(t.clone()),
        None => Err(owned("--token is required")),
    }
}

/// The CLI path the context gives, or the message that it is required.
pub fn required_projectctl_command_path(context: &AgentDefaultsContext) -> (r: Result<String, String>)
    ensures
        match context.projectctl_command_path {
            Some(p) => r == Ok::<String, String>(p),
            None => r matches Err(m) && m@ == "--projectctl-path is required"@,
        },
{
    match &context.projectctl_command_path {
        Some(p) => Ok(p.clone()),
        None => Err(owned("--projectctl-path is required")),
    }
}

/// Whether the scope covers the global files.
pub open spec fn covers_global(scope: InstallScope) -> bool {
    scope == InstallScope::Global || scope == InstallScope::Both
}

/// Whether the scope covers the repository's files.
pub open spec fn covers_repo(scope: InstallScope) -> bool {
    scope == InstallScope::Repo || scope == InstallScope::Both
}

/// `resolved_repo_root`, given the repository root made canonical: a
/// repository scope needs one.
pub fn resolved_repo_root(scope: InstallScope, repo_root: Option<String>) -> (r: Result<Option<String>, String>)
    ensures
        match r {
            Ok(root) => root == repo_root && !(covers_repo(scope) && repo_root is None),
            Err(m) => covers_repo(scope) && repo_root is None && m@ == "--repo is required for repo or both scope"@,
        },
{
    let needs = match scope {
        InstallScope::Repo | InstallScope::Both => true,
        InstallScope::Global => false,
    };
    if needs && repo_root.is_none() {
        return Err(owned("--repo is required for repo or both scope"));
    }
    Ok(repo_root)
}

/// `inspect_repo`: a repository that is the product itself manages its own
/// guidance; any other is judged by the block in its `AGENTS.md`.
pub fn inspect_repo(is_product_repo: bool, agents_md: Option<&str>) -> (r: AgentScopeStatus)
    requires
        agents_md matches Some(e) ==> markers_ordered(e@),
    ensures
        r.scope@ == "repo"@,
        r.changed_paths@.len() == 0,
        is_product_repo ==> r.status == InstallStatus::Installed && r.reasons.deep_view() == seq![
            "repo_manages_parallel_guidance"@,
        ],
        !is_product_repo ==> match agents_md {
            None => r.status == InstallStatus::Missing && r.reasons@.len() == 0,
            Some(e) => match found_block(e@) {
                None => r.status == InstallStatus::Missing && r.reasons@.len() == 0,
                Some(b) => if b == managed(repo_text()) {
                    r.status == InstallStatus::Installed && r.reasons@.len() == 0
                } else {
                    r.status == InstallStatus::Stale && r.reasons.deep_view() == seq!["managed_block_outdated"@]
                },
            },
        },
{
    if is_product_repo {
        let mut reasons: Vec<String> = Vec::new();
        reasons.push(owned("repo_manages_parallel_guidance"));
        assert(reasons.deep_view() =~= seq!["repo_manages_parallel_guidance"@]);
        return AgentScopeStatus {
            scope: owned("repo"),
            status: InstallStatus::Installed,
            reasons,
            changed_paths: Vec::new(),
        };
    }
    let text = inspect_managed_text(agents_md, repo_text_body());
    AgentScopeStatus { scope: owned("repo"), status: text.status, reasons: text.reasons, changed_paths: Vec::new() }
}

// ---------------------------------------------------------------------------
// Inspecting and applying
// ---------------------------------------------------------------------------

/// `inspect_agent_defaults`, given the state of the client's global files
/// (asked for when the scope covers them) and of the repository (likewise):
/// the global scope is those surfaces' status, the repository scope is
/// taken as given.
pub fn inspect_agent_defaults(
    kind: ClientKind,
    scope: InstallScope,
    global_surfaces: Option<Vec<SurfaceStatus>>,
    repo: Option<AgentScopeStatus>,
) -> (r: AgentTargetStatus)
    requires
        covers_global(scope) ==> global_surfaces is Some,
        covers_repo(scope) ==> repo is Some,
    ensures
        r.kind@ == kind_name(kind),
        r.label@ == kind_label(kind),
        covers_global(scope) ==> (r.global matches Some(g) && g.scope@ == "global"@
            && g.status == combined(global_surfaces.unwrap()@.map_values(|s: SurfaceStatus| s.status))
            && g.reasons.deep_view() == sorted_form(all_reasons(global_surfaces.unwrap()@))),
        !covers_global(scope) ==> r.global is None,
        covers_repo(scope) ==> r.repo == repo,
        !covers_repo(scope) ==> r.repo is None,
        r.status == combined(present(r.global, r.repo).map_values(|s: AgentScopeStatus| s.status)),
        r.reasons.deep_view() == sorted_form(scope_reasons(present(r.global, r.repo))),
        r.changed_paths@.len() == 0,
{
    let global = match scope {
        InstallScope::Global | InstallScope::Both => {
            let surfaces = global_surfaces.unwrap();
            Some(to_scope_status("global", &surfaces))
        },
        InstallScope::Repo => None,
    };
    let repo_status = match scope {
        InstallScope::Repo | InstallScope::Both => repo,
        InstallScope::Global => None,
    };
    build_target_status(kind, global, repo_status)
}

/// Which scopes `apply_agent_defaults` rewrites.
#[derive(Debug, PartialEq, Eq)]
pub struct ApplyPlan {
    pub apply_global: bool,
    pub apply_repo: bool,
}

/// The status a scope had before applying, installed when it was not
/// inspected.
pub open spec fn status_before(s: Option<AgentScopeStatus>) -> InstallStatus {
    match s {
        Some(x) => x.status,
        None => InstallStatus::Installed,
    }
}

/// `apply_agent_defaults`' decision: a covered scope is rewritten when the
/// action applies to its status.
pub fn plan_apply(scope: InstallScope, action: InstallAction, initial: &AgentTargetStatus) -> (r: ApplyPlan)
    ensures
        r.apply_global == (covers_global(scope) && initial.global is Some && applies(
            status_before(initial.global),
            action,
        )),
        r.apply_repo == (covers_repo(scope) && initial.repo is Some && applies(status_before(initial.repo), action)),
{
    let g = match &initial.global {
        Some(x) => (scope == InstallScope::Global || scope == InstallScope::Both) && should_apply(x.status, action),
        None => false,
    };
    let rp = match &initial.repo {
        Some(x) => (scope == InstallScope::Repo || scope == InstallScope::Both) && should_apply(x.status, action),
        None => false,
    };
    ApplyPlan { apply_global: g, apply_repo: rp }
}

/// `apply_agent_defaults`' report: the status inspected afterwards, with
/// the paths of the scope (all of them on the target), and on each scope
/// whose action applied before, that scope's paths.
pub fn finish_apply(
    next: AgentTargetStatus,
    scope: InstallScope,
    action: InstallAction,
    initial: &AgentTargetStatus,
    global_paths: Vec<String>,
    repo_paths: Vec<String>,
) -> (r: AgentTargetStatus)
    ensures
        r.kind == next.kind,
        r.label == next.label,
        r.status == next.status,
        r.reasons == next.reasons,
        r.changed_paths.deep_view() == sorted_form(
            (if covers_global(scope) {
                global_paths.deep_view()
            } else {
                Seq::empty()
            }) + (if covers_repo(scope) {
                repo_paths.deep_view()
            } else {
                Seq::empty()
            }),
        ),
        match next.global {
            None => r.global is None,
            Some(g) => r.global matches Some(rg) && rg.scope == g.scope && rg.status == g.status && rg.reasons
                == g.reasons && rg.changed_paths@ == if covers_global(scope) && applies(
                status_before(initial.global),
                action,
            ) {
                global_paths@
            } else {
                g.changed_paths@
            },
        },
        match next.repo {
            None => r.repo is None,
            Some(g) => r.repo matches Some(rg) && rg.scope == g.scope && rg.status == g.status && rg.reasons
                == g.reasons && rg.changed_paths@ == if covers_repo(scope) && applies(
                status_before(initial.repo),
                action,
            ) {
                repo_paths@
            } else {
                g.changed_paths@
            },
        },
{
    let gs = scope == InstallScope::Global || scope == InstallScope::Both;
    let rs = scope == InstallScope::Repo || scope == InstallScope::Both;
    let mut all: Vec<String> = Vec::new();
    if gs {
        append_strings(&mut all, &global_paths);
    }
    if rs {
        append_strings(&mut all, &repo_paths);
    }
    proof {
        assert(all.deep_view() =~= (if covers_global(scope) {
            global_paths.deep_view()
        } else {
            Seq::empty()
        }) + (if covers_repo(scope) {
            repo_paths.deep_view()
        } else {
            Seq::empty()
        }));
    }
    let changed = sorted_set(&all);
    let before_global = match &initial.global {
        Some(x) => x.status,
        None => InstallStatus::Installed,
    };
    let before_repo = match &initial.repo {
        Some(x) => x.status,
        None => InstallStatus::Installed,
    };
    let AgentTargetStatus { kind, label, status, reasons, global, repo, changed_paths: _ } = next;
    let global = match global {
        Some(mut g) => {
            if gs && should_apply(before_global, action) {
                g.changed_paths = global_paths;
            }
            Some(g)
        },
        None => None,
    };
    let repo = match repo {
        Some(mut g) => {
            if rs && should_apply(before_repo, action) {
                g.changed_paths = repo_paths;
            }
            Some(g)
        },
        None => None,
    };
    AgentTargetStatus { kind, label, status, reasons, global, repo, changed_paths: changed }
}

/// `global_paths_for`: the files a client's global setup writes.
pub fn global_paths_for(kind: ClientKind, home: &str) -> (r: Vec<String>)
    ensures
        r.deep_view() == match kind {
            ClientKind::Codex => seq![
                join_path(join_path(home@, ".codex"@, '/'), "config.toml"@, '/'),
                join_path(join_path(home@, ".codex"@, '/'), "AGENTS.md"@, '/'),
            ],
        },
{
    let mut v: Vec<String> = Vec::new();
    match kind {
        ClientKind::Codex => {
            let d = crate::paths::join(home, ".codex");
            v.push(crate::paths::join(d.as_str(), "config.toml"));
            v.push(crate::paths::join(d.as_str(), "AGENTS.md"));
        },
    }
    proof {
        assert(v.deep_view() =~= match kind {
            ClientKind::Codex => seq![
                join_path(join_path(home@, ".codex"@, '/'), "config.toml"@, '/'),
                join_path(join_path(home@, ".codex"@, '/'), "AGENTS.md"@, '/'),
            ],
        });
    }
    v
}

/// `repo_paths_for`: a repository's `AGENTS.md`, unless it is the product
/// itself.
pub fn repo_paths_for(repo_root: &str, is_product_repo: bool) -> (r: Vec<String>)
    ensures
        r.deep_view() == if is_product_repo {
            Seq::<Seq<char>>::empty()
        } else {
            seq![join_path(repo_root@, "AGENTS.md"@, '/')]
        },
{
    let mut v: Vec<String> = Vec::new();
    if !is_product_repo {
        v.push(crate::paths::join(repo_root, "AGENTS.md"));
    }
    proof {
        assert(v.deep_view() =~= if is_product_repo {
            Seq::<Seq<char>>::empty()
        } else {
            seq![join_path(repo_root@, "AGENTS.md"@, '/')]
        });
    }
    v
}

// ---------------------------------------------------------------------------
// Setup snippets
// ---------------------------------------------------------------------------

/// The arguments a desktop client starts the bridge's stdio proxy with.
pub open spec fn proxy_args(url: Seq<char>, token: Seq<char>) -> Seq<Seq<char>> {
    seq!["mcp"@, "proxy-stdio"@, "--url"@, url, "--token"@, token]
}

/// The arguments a desktop client starts the bridge's stdio proxy with.
pub fn canonical_proxy_args(url: &str, token: &str) -> (r: Vec<String>)
    ensures
        r.deep_view() == proxy_args(url@, token@),
{
    let mut v: Vec<String> = Vec::new();
    v.push(owned("mcp"));
    v.push(owned("proxy-stdio"));
    v.push(owned("--url"));
    v.push(owned(url));
    v.push(owned("--token"));
    v.push(owned(token));
    assert(v.deep_view() =~= proxy_args(url@, token@));
    v
}

/// The snippet text for each client.
pub open spec fn snippet_text(kind: ClientKind, url: Seq<char>, token: Seq<char>) -> Seq<char> {
    match kind {
        ClientKind::Codex => "export PARALLEL_MCP_TOKEN='"@ + token
            + "'\ncodex mcp add parallel --url "@ + url + " --bearer-token-env-var PARALLEL_MCP_TOKEN"@,
    }
}

/// `build_client_snippet`: the copyable setup for a client.
pub fn build_client_snippet(kind: ClientKind, bridge_url: &str, bridge_token: &str, stale: bool) -> (r: Result<
    BridgeSnippet,
    String,
>)
    ensures
        r matches Ok(s) && {
            &&& s.kind@ == kind_name(kind)
            &&& s.content@ == snippet_text(kind, bridge_url@, bridge_token@)
            &&& s.stale == stale
            &&& s.label@ == "Codex setup"@
            &&& s.copy_label@ == "Copy Codex setup"@
            &&& s.notes@ == "Direct streamable HTTP MCP setup for Codex."@
        },
{
    let kind_text = owned(kind.as_str());
    match kind {
        ClientKind::Codex => {
            let a = concat3("export PARALLEL_MCP_TOKEN='", bridge_token, "'\ncodex mcp add parallel --url ");
            let content = concat3(a.as_str(), bridge_url, " --bearer-token-env-var PARALLEL_MCP_TOKEN");
            Ok(BridgeSnippet {
                kind: kind_text,
                label: owned("Codex setup"),
                copy_label: owned("Copy Codex setup"),
                notes: owned("Direct streamable HTTP MCP setup for Codex."),
                stale,
                content,
            })
        },
    }
}

} // verus!
