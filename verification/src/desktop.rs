//! The desktop shell's own logic: the agent bridge's settings and runtime
//! state, the bridge supervisor's bookkeeping, the suppression of the
//! watcher's echoes of local writes, and the command-line install status.
use crate::paths::{join_path, parent, parent_of, relative, relative_to, workflow_dir_prefix};
use crate::text::{
    chars_of, concat2, concat3, contains_seq, trim_str, contains_text, dec, decimal, is_blank, lines_of, lines_vec, owned,
    split_char, split_on_vec, starts_with, starts_with_text, string_from, trim, trim_vec};

use base64::Engine;
use rand::RngCore;
use vstd::prelude::*;

verus! {

// ---------------------------------------------------------------------------
// Bridge settings and state
// ---------------------------------------------------------------------------

/// The port the bridge listens on unless told otherwise.
pub const DEFAULT_BRIDGE_PORT: u16 = 4855;

/// The bridge's persisted settings.
#[derive(Debug, PartialEq, Eq)]
pub struct BridgeSettings {
    pub enabled: bool,
    pub port: u16,
    pub token: String,
}

impl Default for BridgeSettings {
    fn default() -> (r: Self)
        ensures
            !r.enabled,
            r.port == DEFAULT_BRIDGE_PORT,
            r.token@.len() == 0,
    {
        BridgeSettings { enabled: false, port: DEFAULT_BRIDGE_PORT, token: String::new() }
    }
}

/// What the bridge is doing now.
#[derive(Debug, PartialEq, Eq)]
pub struct BridgeRuntimeSnapshot {
    pub status: String,
    pub bound_port: Option<u16>,
    pub pid: Option<u32>,
    pub started_at: Option<String>,
    pub last_error: Option<String>,
}

impl Default for BridgeRuntimeSnapshot {
    fn default() -> (r: Self)
        ensures
            r.status@.len() == 0,
            r.bound_port is None,
            r.pid is None,
            r.started_at is None,
            r.last_error is None,
    {
        BridgeRuntimeSnapshot { status: String::new(), bound_port: None, pid: None, started_at: None, last_error: None }
    }
}

/// The event the shell emits when the bridge's state changes.
#[derive(Debug, PartialEq, Eq)]
pub struct BridgeStateEvent {
    pub reason: String,
    pub mcp: BridgeSettings,
    pub mcp_runtime: BridgeRuntimeSnapshot,
}

/// `resolve_bridge_url`: the bridge's MCP endpoint on the loopback address.
pub fn resolve_bridge_url(port: u16) -> (r: String)
    ensures
        r@ == "http://127.0.0.1:"@ + dec(port as nat) + "/mcp"@,
{
    let p = decimal(port as u128);
    concat3("http://127.0.0.1:", p.as_str(), "/mcp")
}

/// `apply_bridge_failure`: the bridge is in error, with this error.
pub fn apply_bridge_failure(runtime: &mut BridgeRuntimeSnapshot, error: String)
    ensures
        final(runtime).status@ == "error"@,
        final(runtime).last_error == Some(error),
        final(runtime).bound_port == old(runtime).bound_port,
        final(runtime).pid == old(runtime).pid,
        final(runtime).started_at == old(runtime).started_at,
{
    runtime.status = owned("error");
    runtime.last_error = Some(error);
}

/// `apply_bridge_health_success`: the bridge runs on the port, with no
/// error.
pub fn apply_bridge_health_success(runtime: &mut BridgeRuntimeSnapshot, port: u16)
    ensures
        final(runtime).status@ == "running"@,
        final(runtime).bound_port == Some(port),
        final(runtime).last_error is None,
        final(runtime).pid == old(runtime).pid,
        final(runtime).started_at == old(runtime).started_at,
{
    runtime.status = owned("running");
    runtime.bound_port = Some(port);
    runtime.last_error = None;
}

// ---------------------------------------------------------------------------
// The bridge supervisor
// ---------------------------------------------------------------------------

/// What the shell tracks of the bridge process; the child handle itself
/// stays with the shell.
#[derive(Debug, PartialEq, Eq)]
pub struct BridgeSupervisor {
    pub child_pid: Option<u32>,
    pub stopping_pid: Option<u32>,
    pub runtime: BridgeRuntimeSnapshot,
}

/// What became of a terminated bridge process.
#[derive(Debug, PartialEq, Eq)]
pub struct Termination {
    /// The process was being stopped on purpose.
    pub intentional: bool,
    /// It was the current child, which is now gone.
    pub child_gone: bool,
}

/// `handle_terminated_bridge_process`: a process that was being stopped is
/// no longer awaited; if it was the current child, there is no child any
/// more.
pub fn handle_terminated_bridge_process(supervisor: &mut BridgeSupervisor, monitored_pid: u32) -> (r: Termination)
    ensures
        r.intentional == (old(supervisor).stopping_pid == Some(monitored_pid)),
        r.child_gone == (old(supervisor).child_pid == Some(monitored_pid)),
        final(supervisor).stopping_pid == if r.intentional {
            None
        } else {
            old(supervisor).stopping_pid
        },
        final(supervisor).child_pid == if r.child_gone {
            None
        } else {
            old(supervisor).child_pid
        },
        final(supervisor).runtime == old(supervisor).runtime,
{
    let intentional = supervisor.stopping_pid == Some(monitored_pid);
    if intentional {
        supervisor.stopping_pid = None;
    }
    let child_gone = supervisor.child_pid == Some(monitored_pid);
    if child_gone {
        supervisor.child_pid = None;
    }
    Termination { intentional, child_gone }
}

/// `register_bridge_child`: the new child's pid and port, started now.
pub fn register_bridge_child(supervisor: &mut BridgeSupervisor, pid: u32, port: u16, now: String)
    ensures
        final(supervisor).child_pid == Some(pid),
        final(supervisor).stopping_pid == old(supervisor).stopping_pid,
        final(supervisor).runtime.pid == Some(pid),
        final(supervisor).runtime.bound_port == Some(port),
        final(supervisor).runtime.started_at == Some(now),
        final(supervisor).runtime.status == old(supervisor).runtime.status,
        final(supervisor).runtime.last_error == old(supervisor).runtime.last_error,
{
    supervisor.child_pid = Some(pid);
    supervisor.runtime.pid = Some(pid);
    supervisor.runtime.bound_port = Some(port);
    supervisor.runtime.started_at = Some(now);
}

/// `stop_bridge`'s bookkeeping: a running child is now awaited as stopping;
/// the runtime is stopped and forgets its process.
pub fn stop_bridge_state(supervisor: &mut BridgeSupervisor, had_child: bool)
    ensures
        final(supervisor).stopping_pid == if had_child {
            old(supervisor).child_pid
        } else {
            old(supervisor).stopping_pid
        },
        final(supervisor).child_pid == if had_child {
            None
        } else {
            old(supervisor).child_pid
        },
        final(supervisor).runtime.status@ == "stopped"@,
        final(supervisor).runtime.pid is None,
        final(supervisor).runtime.bound_port is None,
        final(supervisor).runtime.started_at is None,
        final(supervisor).runtime.last_error is None,
{
    if had_child {
        supervisor.stopping_pid = supervisor.child_pid;
        supervisor.child_pid = None;
    }
    supervisor.runtime.status = owned("stopped");
    supervisor.runtime.pid = None;
    supervisor.runtime.bound_port = None;
    supervisor.runtime.started_at = None;
    supervisor.runtime.last_error = None;
}

// ---------------------------------------------------------------------------
// Echoes of local writes
// ---------------------------------------------------------------------------

/// How long, in milliseconds, the watcher ignores the workflow files of a
/// root the shell itself just wrote.
pub const LOCAL_WRITE_SUPPRESSION_WINDOW_MS: u64 = 1500;

/// Whether a write recorded at `at` is still recent at `now` (times in
/// milliseconds of a monotonic clock; an earlier `now` counts as no time).
pub open spec fn recent_write(at: u64, now: u64) -> bool {
    if now >= at {
        now - at < LOCAL_WRITE_SUPPRESSION_WINDOW_MS
    } else {
        true
    }
}

/// The recorded writes still recent at `now`, in order.
pub open spec fn kept_writes(entries: Seq<(Seq<char>, u64)>, now: u64) -> Seq<(Seq<char>, u64)>
    decreases entries.len(),
{
    if entries.len() == 0 {
        Seq::empty()
    } else if recent_write(entries.last().1, now) {
        kept_writes(entries.drop_last(), now).push(entries.last())
    } else {
        kept_writes(entries.drop_last(), now)
    }
}

pub open spec fn writes_view(v: Vec<(String, u64)>) -> Seq<(Seq<char>, u64)> {
    v@.map_values(|e: (String, u64)| (e.0@, e.1))
}

/// `cleanup_suppressed_writes`: forgets the writes that are no longer
/// recent.
pub fn cleanup_suppressed_writes(entries: &mut Vec<(String, u64)>, now: u64)
    ensures
        writes_view(*final(entries)) == kept_writes(writes_view(*old(entries)), now),
{
    let ghost w = writes_view(*entries);
    let mut kept: Vec<(String, u64)> = Vec::new();
    let mut k: usize = 0;
    while k < entries.len()
        invariant
            w == writes_view(*entries),
            k <= w.len(),
            writes_view(kept) == kept_writes(w.take(k as int), now),
        decreases w.len() - k,
    {
        assert(w.take(k as int + 1).drop_last() =~= w.take(k as int));
        assert(w[k as int] == (entries@[k as int].0@, entries@[k as int].1));
        let at = entries[k].1;
        let recent = if now >= at {
            now - at < LOCAL_WRITE_SUPPRESSION_WINDOW_MS
        } else {
            true
        };
        if recent {
            let e = (entries[k].0.clone(), at);
            let ghost before = writes_view(kept);
            kept.push(e);
            assert(writes_view(kept) =~= before.push((e.0@, e.1)));
        }
        k += 1;
    }
    assert(w.take(w.len() as int) =~= w);
    *entries = kept;
}

/// The writes once the root's write is recorded at `now`: its earlier
/// record, if any, is replaced.
pub open spec fn with_write(entries: Seq<(Seq<char>, u64)>, root: Seq<char>, now: u64) -> Seq<(Seq<char>, u64)> {
    entries.filter(other_root(root)).push((root, now))
}

/// The predicate "the write is of another root than `root`".
pub open spec fn other_root(root: Seq<char>) -> spec_fn((Seq<char>, u64)) -> bool {
    |e: (Seq<char>, u64)| e.0 != root
}

/// The predicate "the PATH entry is not blank".
pub open spec fn not_blank() -> spec_fn(Seq<char>) -> bool {
    |e: Seq<char>| !is_blank(e)
}

/// `record_local_workflow_write`, given the root made canonical: old writes
/// are forgotten and this one is recorded now.
pub fn record_local_workflow_write(entries: &mut Vec<(String, u64)>, root: &str, now: u64)
    ensures
        writes_view(*final(entries)) == with_write(kept_writes(writes_view(*old(entries)), now), root@, now),
{
    cleanup_suppressed_writes(entries, now);
    let ghost w = writes_view(*entries);
    let mut kept: Vec<(String, u64)> = Vec::new();
    let mut k: usize = 0;
    while k < entries.len()
        invariant
            w == writes_view(*entries),
            k <= w.len(),
            writes_view(kept) == w.take(k as int).filter(other_root(root@)),
        decreases w.len() - k,
    {
        assert(w.take(k as int + 1).drop_last() =~= w.take(k as int));
        assert(w[k as int] == (entries@[k as int].0@, entries@[k as int].1));
        proof {
            reveal(Seq::filter);
        }
        if !crate::text::str_eq(entries[k].0.as_str(), root) {
            let e = (entries[k].0.clone(), entries[k].1);
            let ghost before = writes_view(kept);
            kept.push(e);
            assert(writes_view(kept) =~= before.push((e.0@, e.1)));
        }
        k += 1;
    }
    assert(w.take(w.len() as int) =~= w);
    let ghost before = writes_view(kept);
    kept.push((owned(root), now));
    assert(writes_view(kept) =~= before.push((root@, now)));
    *entries = kept;
}

/// Whether some path lies in the workflow directory of a recorded root.
pub open spec fn suppressed(entries: Seq<(Seq<char>, u64)>, paths: Seq<Seq<char>>) -> bool {
    exists|i: int, j: int|
        0 <= i < paths.len() && 0 <= j < entries.len() && starts_with(
            #[trigger] paths[i],
            #[trigger] entries[j].0 + "/"@ + ".project-workflow"@,
        )
}

/// `should_suppress_snapshot_event`, given the changed paths made
/// canonical: old writes are forgotten, then the event is an echo when a
/// path lies in the workflow directory of a root written recently.
#[verifier::loop_isolation(false)]
pub fn should_suppress_snapshot_event(entries: &mut Vec<(String, u64)>, paths: &Vec<String>, now: u64) -> (r: bool)
    ensures
        writes_view(*final(entries)) == kept_writes(writes_view(*old(entries)), now),
        r == suppressed(writes_view(*final(entries)), paths.deep_view()),
{
    cleanup_suppressed_writes(entries, now);
    let ghost w = writes_view(*entries);
    let ghost ps = paths.deep_view();
    let mut i: usize = 0;
    while i < paths.len()
        invariant
            w == writes_view(*entries),
            ps == paths.deep_view(),
            i <= ps.len(),
            forall|a: int, b: int|
                0 <= a < i && 0 <= b < w.len() ==> !starts_with(
                    #[trigger] ps[a],
                    #[trigger] w[b].0 + "/"@ + ".project-workflow"@,
                ),
        decreases ps.len() - i,
    {
        let mut j: usize = 0;
        while j < entries.len()
            invariant
                w == writes_view(*entries),
                ps == paths.deep_view(),
                i < ps.len(),
                j <= w.len(),
                forall|a: int, b: int|
                    0 <= a < i && 0 <= b < w.len() ==> !starts_with(
                        #[trigger] ps[a],
                        #[trigger] w[b].0 + "/"@ + ".project-workflow"@,
                    ),
                forall|b: int|
                    0 <= b < j ==> !starts_with(ps[i as int], #[trigger] w[b].0 + "/"@ + ".project-workflow"@),
            decreases w.len() - j,
        {
            let prefix = workflow_dir_prefix(entries[j].0.as_str());
            assert(w[j as int].0 == entries@[j as int].0@);
            assert(ps[i as int] == paths@[i as int]@);
            if starts_with_text(paths[i].as_str(), prefix.as_str()) {
                assert(starts_with(ps[i as int], w[j as int].0 + "/"@ + ".project-workflow"@));
                assert(suppressed(w, ps));
                return true;
            }
            j += 1;
        }
        i += 1;
    }
    false
}

// ---------------------------------------------------------------------------
// The command-line install
// ---------------------------------------------------------------------------

/// The PATH entries that are not blank: `path_entries` of the shell.
pub open spec fn path_entries_of(path_env: Option<Seq<char>>) -> Seq<Seq<char>> {
    let raw = match path_env {
        Some(p) => p,
        None => Seq::empty(),
    };
    split_char(raw, ':').filter(not_blank())
}

/// `path_entries`: the entries of a PATH value that are not blank.
pub fn path_entries(path_env: Option<&str>) -> (r: Vec<String>)
    ensures
        r.deep_view() == path_entries_of(
            match path_env {
                Some(p) => Some(p@),
                None => None,
            },
        ),
{
    let raw = match path_env {
        Some(p) => chars_of(p),
        None => Vec::new(),
    };
    let colon: Vec<char> = vec![':'];
    assert(colon@ =~= seq![':']);
    let pieces = split_on_vec(&raw, &colon);
    let ghost ps = pieces.deep_view();
    let mut out: Vec<String> = Vec::new();
    let mut k: usize = 0;
    while k < pieces.len()
        invariant
            ps == pieces.deep_view(),
            k <= ps.len(),
            out.deep_view() == ps.take(k as int).filter(not_blank()),
        decreases ps.len() - k,
    {
        assert(ps.take(k as int + 1).drop_last() =~= ps.take(k as int));
        assert(ps[k as int] == pieces@[k as int]@);
        proof {
            reveal(Seq::filter);
        }
        let t = trim_vec(&pieces[k]);
        if t.len() > 0 {
            let s = string_from(pieces[k].as_slice());
            let ghost before = out;
            let ghost sv = s;
            out.push(s);
            proof {
                crate::models::lemma_deep_push(before, out, sv);
            }
        }
        k += 1;
    }
    assert(ps.take(ps.len() as int) =~= ps);
    out
}

/// `shell_profile_path`: the profile of the shell named by `$SHELL`.
pub open spec fn shell_profile_of(shell: Seq<char>, home: Seq<char>) -> Seq<char> {
    if contains_seq(shell, "zsh"@) {
        join_path(home, ".zshrc"@, '/')
    } else if contains_seq(shell, "bash"@) {
        join_path(home, ".bashrc"@, '/')
    } else if contains_seq(shell, "fish"@) {
        join_path(join_path(join_path(home, ".config"@, '/'), "fish"@, '/'), "config.fish"@, '/')
    } else {
        join_path(home, ".profile"@, '/')
    }
}

pub open spec fn opt_text(o: Option<&str>) -> Seq<char> {
    match o {
        Some(s) => s@,
        None => Seq::empty(),
    }
}

/// The profile file of the user's shell, under the home directory:
/// `.zshrc` for zsh, `.bashrc` for bash, `.config/fish/config.fish` for
/// fish, `.profile` otherwise.
pub fn shell_profile_path(shell_env: Option<&str>, home_dir: &str) -> (r: String)
    ensures
        r@ == shell_profile_of(opt_text(shell_env), home_dir@),
{
    let shell = match shell_env {
        Some(s) => s,
        None => "",
    };
    proof {
        reveal_strlit("");
    }
    assert(shell@ == opt_text(shell_env));
    if contains_text(shell, "zsh") {
        crate::paths::join(home_dir, ".zshrc")
    } else if contains_text(shell, "bash") {
        crate::paths::join(home_dir, ".bashrc")
    } else if contains_text(shell, "fish") {
        let a = crate::paths::join(home_dir, ".config");
        let b = crate::paths::join(a.as_str(), "fish");
        crate::paths::join(b.as_str(), "config.fish")
    } else {
        crate::paths::join(home_dir, ".profile")
    }
}

/// `display_home_relative`: a path under the home directory written from
/// `$HOME`, any other path as it is.
pub open spec fn home_relative(path: Seq<char>, home: Seq<char>) -> Seq<char> {
    match relative_to(path, home) {
        Some(r) => "$HOME/"@ + r,
        None => path,
    }
}

/// A path shown relative to the home directory (`$HOME/...`) when it is below
/// it, as it is otherwise.
pub fn display_home_relative(path: &str, home_dir: &str) -> (r: String)
    ensures
        r@ == home_relative(path@, home_dir@),
{
    match relative(path, home_dir) {
        Some(r) => concat2("$HOME/", r.as_str()),
        None => owned(path),
    }
}

/// `install_dir_on_path`: whether the install's directory is an entry of
/// PATH.
pub open spec fn install_dir_listed(path_env: Option<Seq<char>>, install: Seq<char>) -> bool {
    match parent_of(install) {
        None => false,
        Some(dir) => crate::paths::path_listed(path_entries_of(path_env), dir, false),
    }
}

/// Whether the directory of the installed CLI is an entry of PATH.
#[verifier::loop_isolation(false)]
pub fn install_dir_on_path(path_env: Option<&str>, install_path: &str) -> (r: bool)
    ensures
        r == install_dir_listed(
            match path_env {
                Some(p) => Some(p@),
                None => None,
            },
            install_path@,
        ),
{
    let dir = match parent(install_path) {
        Some(d) => d,
        None => {
            return false;
        },
    };
    let entries = path_entries(path_env);
    crate::paths::path_in(&entries, dir.as_str(), false)
}

/// `install_dir_variants`: how a profile may write the install directory:
/// as it is, and from `$HOME` and `~` when it lies under the home directory.
pub open spec fn dir_variants(dir: Seq<char>, home: Seq<char>) -> Seq<Seq<char>> {
    match relative_to(dir, home) {
        Some(r) => seq![dir, "$HOME/"@ + r, "~/"@ + r],
        None => seq![dir],
    }
}

/// The ways a profile may write the install directory: as it is, and as
/// `$HOME/...` and `~/...` when it is below the home directory.
pub fn install_dir_variants(install_dir: &str, home_dir: &str) -> (r: Vec<String>)
    ensures
        r.deep_view() == dir_variants(install_dir@, home_dir@),
{
    let mut v: Vec<String> = Vec::new();
    v.push(owned(install_dir));
    match relative(install_dir, home_dir) {
        Some(r) => {
            v.push(concat2("$HOME/", r.as_str()));
            v.push(concat2("~/", r.as_str()));
        },
        None => {},
    }
    assert(v.deep_view() =~= dir_variants(install_dir@, home_dir@));
    v
}

/// Whether a profile line puts one of the variants on PATH: a line that is
/// neither blank nor a comment, mentions `PATH`, `fish_add_path` or
/// `fish_user_paths`, and contains a variant.
pub open spec fn line_configures(line: Seq<char>, variants: Seq<Seq<char>>) -> bool {
    let t = trim(line);
    &&& t.len() > 0
    &&& !starts_with(t, "#"@)
    &&& (contains_seq(t, "PATH"@) || contains_seq(t, "fish_add_path"@) || contains_seq(t, "fish_user_paths"@))
    &&& exists|k: int| 0 <= k < variants.len() && contains_seq(t, #[trigger] variants[k])
}

/// `shell_profile_configures_install_dir`, given the profile's contents
/// (`None` when it could not be read).
pub open spec fn profile_configures(contents: Option<Seq<char>>, install: Seq<char>, home: Seq<char>) -> bool {
    match parent_of(install) {
        None => false,
        Some(dir) => match contents {
            None => false,
            Some(c) => exists|i: int|
                0 <= i < lines_of(c).len() && line_configures(#[trigger] lines_of(c)[i], dir_variants(dir, home)),
        },
    }
}

#[verifier::loop_isolation(false)]
fn line_configures_exec(line: &Vec<char>, variants: &Vec<String>) -> (r: bool)
    ensures
        r == line_configures(line@, variants.deep_view()),
{
    let tv = trim_vec(line);
    let t = string_from(tv.as_slice());
    if t.unicode_len() == 0 || starts_with_text(t.as_str(), "#") {
        return false;
    }
    if !(contains_text(t.as_str(), "PATH") || contains_text(t.as_str(), "fish_add_path") || contains_text(
        t.as_str(),
        "fish_user_paths",
    )) {
        return false;
    }
    let ghost vs = variants.deep_view();
    let mut k: usize = 0;
    while k < variants.len()
        invariant
            vs == variants.deep_view(),
            t@ == trim(line@),
            k <= vs.len(),
            forall|m: int| 0 <= m < k ==> !contains_seq(t@, #[trigger] vs[m]),
        decreases vs.len() - k,
    {
        assert(vs[k as int] == variants@[k as int]@);
        if contains_text(t.as_str(), variants[k].as_str()) {
            assert(contains_seq(trim(line@), vs[k as int]));
            return true;
        }
        k += 1;
    }
    false
}

/// Whether the shell profile's text puts the install directory on PATH in
/// one of its written forms.
#[verifier::loop_isolation(false)]
#[verifier::spinoff_prover]
pub fn shell_profile_configures_install_dir(contents: Option<&str>, install_path: &str, home_dir: &str) -> (r: bool)
    ensures
        r == profile_configures(
            match contents {
                Some(c) => Some(c@),
                None => None,
            },
            install_path@,
            home_dir@,
        ),
{
    let dir = match parent(install_path) {
        Some(d) => d,
        None => {
            return false;
        },
    };
    let c = match contents {
        Some(c) => c,
        None => {
            return false;
        },
    };
    let variants = install_dir_variants(dir.as_str(), home_dir);
    let cv = chars_of(c);
    let lines = lines_vec(&cv);
    let ghost ls = lines.deep_view();
    let mut i: usize = 0;
    while i < lines.len()
        invariant
            ls == lines.deep_view(),
            ls == lines_of(c@),
            variants.deep_view() == dir_variants(dir@, home_dir@),
            i <= ls.len(),
            forall|m: int| 0 <= m < i ==> !line_configures(#[trigger] ls[m], variants.deep_view()),
        decreases ls.len() - i,
    {
        assert(ls[i as int] == lines@[i as int]@);
        if line_configures_exec(&lines[i], &variants) {
            assert(line_configures(lines_of(c@)[i as int], dir_variants(dir@, home_dir@)));
            assert(parent_of(install_path@) == Some(dir@));
            assert(contents == Some(c));
            assert(profile_configures(Some(c@), install_path@, home_dir@));
            return true;
        }
        i += 1;
    }
    false
}

/// The install status the shell reports.
#[derive(Debug, PartialEq, Eq)]
pub struct CliInstallStatus {
    pub bundled_path: String,
    pub install_path: String,
    pub installed: bool,
    pub install_dir_on_path: bool,
    pub shell_profile_configured: bool,
    pub shell_export: String,
    pub shell_profile: String,
    pub persist_command: String,
}

/// The command that puts the install directory on PATH.
pub open spec fn export_command(shell: Seq<char>, install: Seq<char>, home: Seq<char>) -> Seq<char> {
    let dir = match parent_of(install) {
        Some(d) => d,
        None => "."@,
    };
    if contains_seq(shell, "fish"@) {
        "fish_add_path "@ + home_relative(dir, home)
    } else {
        "export PATH=\""@ + home_relative(dir, home) + ":$PATH\""@
    }
}

/// `build_cli_install_status`, given whether the install is the bundled
/// binary (`installed`, which looks at the disk) and the shell profile's
/// contents.
pub fn build_cli_install_status(
    bundled_path: &str,
    install_path: &str,
    path_env: Option<&str>,
    shell_env: Option<&str>,
    home_dir: &str,
    installed: bool,
    profile_contents: Option<&str>,
) -> (r: CliInstallStatus)
    ensures
        r.bundled_path@ == bundled_path@,
        r.install_path@ == install_path@,
        r.installed == installed,
        r.install_dir_on_path == install_dir_listed(
            match path_env {
                Some(p) => Some(p@),
                None => None,
            },
            install_path@,
        ),
        r.shell_profile_configured == profile_configures(
            match profile_contents {
                Some(c) => Some(c@),
                None => None,
            },
            install_path@,
            home_dir@,
        ),
        r.shell_profile@ == shell_profile_of(opt_text(shell_env), home_dir@),
        r.shell_export@ == export_command(opt_text(shell_env), install_path@, home_dir@),
        r.persist_command@ == if contains_seq(opt_text(shell_env), "fish"@) {
            export_command(opt_text(shell_env), install_path@, home_dir@)
        } else {
            "echo '"@ + export_command(opt_text(shell_env), install_path@, home_dir@) + "' >> "@
                + home_relative(shell_profile_of(opt_text(shell_env), home_dir@), home_dir@)
        },
{
    let shell = match shell_env {
        Some(s) => s,
        None => "",
    };
    proof {
        reveal_strlit("");
        reveal_strlit(".");
    }
    assert(shell@ == opt_text(shell_env));
    let profile = shell_profile_path(shell_env, home_dir);
    let dir = match parent(install_path) {
        Some(d) => d,
        None => owned("."),
    };
    let shown = display_home_relative(dir.as_str(), home_dir);
    let fish = contains_text(shell, "fish");
    let export = if fish {
        concat2("fish_add_path ", shown.as_str())
    } else {
        concat3("export PATH=\"", shown.as_str(), ":$PATH\"")
    };
    let persist = if fish {
        export.clone()
    } else {
        let shown_profile = display_home_relative(profile.as_str(), home_dir);
        let a = concat3("echo '", export.as_str(), "' >> ");
        concat2(a.as_str(), shown_profile.as_str())
    };
    CliInstallStatus {
        bundled_path: owned(bundled_path),
        install_path: owned(install_path),
        installed,
        install_dir_on_path: install_dir_on_path(path_env, install_path),
        shell_profile_configured: shell_profile_configures_install_dir(profile_contents, install_path, home_dir),
        shell_export: export,
        shell_profile: profile,
        persist_command: persist,
    }
}

// ---------------------------------------------------------------------------
// The bundled command-line binary
// ---------------------------------------------------------------------------

#[derive(Debug, Clone, Copy, PartialEq, Eq, Structural)]
pub enum HostOs {
    MacOs,
    Linux,
    Windows,
    Other,
}

#[derive(Debug, Clone, Copy, PartialEq, Eq, Structural)]
pub enum HostArch {
    Aarch64,
    X86_64,
    Other,
}

/// The system the shell was built for.
#[derive(Debug, Clone, Copy, PartialEq, Eq, Structural)]
pub struct HostTarget {
    pub os: HostOs,
    pub arch: HostArch,
}

/// The target triple of the supported hosts.
pub open spec fn triple_of(h: HostTarget) -> Seq<char> {
    match (h.os, h.arch) {
        (HostOs::MacOs, HostArch::Aarch64) => "aarch64-apple-darwin"@,
        (HostOs::MacOs, HostArch::X86_64) => "x86_64-apple-darwin"@,
        (HostOs::Linux, HostArch::X86_64) => "x86_64-unknown-linux-gnu"@,
        (HostOs::Windows, HostArch::X86_64) => "x86_64-pc-windows-msvc"@,
        _ => "unknown-target"@,
    }
}

/// The extension of executables.
pub open spec fn exe_extension(h: HostTarget) -> Seq<char> {
    if h.os == HostOs::Windows {
        ".exe"@
    } else {
        ""@
    }
}

/// The Rust target triple of the host the desktop app runs on.
pub fn target_triple(host: HostTarget) -> (r: String)
    ensures
        r@ == triple_of(host),
{
    match (host.os, host.arch) {
        (HostOs::MacOs, HostArch::Aarch64) => owned("aarch64-apple-darwin"),
        (HostOs::MacOs, HostArch::X86_64) => owned("x86_64-apple-darwin"),
        (HostOs::Linux, HostArch::X86_64) => owned("x86_64-unknown-linux-gnu"),
        (HostOs::Windows, HostArch::X86_64) => owned("x86_64-pc-windows-msvc"),
        _ => owned("unknown-target"),
    }
}

fn extension(host: HostTarget) -> (r: String)
    ensures
        r@ == exe_extension(host),
{
    if host.os == HostOs::Windows {
        owned(".exe")
    } else {
        owned("")
    }
}

/// `sidecar_binary_filename`: `projectctl-<triple>` with the executable
/// extension.
pub fn sidecar_binary_filename(host: HostTarget) -> (r: String)
    ensures
        r@ == "projectctl-"@ + triple_of(host) + exe_extension(host),
{
    let t = target_triple(host);
    let e = extension(host);
    concat3("projectctl-", t.as_str(), e.as_str())
}

/// `bundled_sidecar_binary_filename`: `projectctl` with the executable
/// extension.
pub fn bundled_sidecar_binary_filename(host: HostTarget) -> (r: String)
    ensures
        r@ == "projectctl"@ + exe_extension(host),
{
    let e = extension(host);
    concat2("projectctl", e.as_str())
}

/// Where the bundled binary may be, in the order it is looked for: beside
/// the running executable under its packaged name, beside it under its
/// target-suffixed name, and in the development `binaries` directory.
pub open spec fn projectctl_places(exe: Seq<char>, manifest_dir: Seq<char>, h: HostTarget) -> Seq<Seq<char>> {
    let dir = match parent_of(exe) {
        Some(d) => d,
        None => "."@,
    };
    let suffixed = "projectctl-"@ + triple_of(h) + exe_extension(h);
    seq![
        join_path(dir, "projectctl"@ + exe_extension(h), '/'),
        join_path(dir, suffixed, '/'),
        join_path(join_path(manifest_dir, "binaries"@, '/'), suffixed, '/'),
    ]
}

/// The places [`resolve_bundled_projectctl_path`] looks at.
pub fn projectctl_candidates(current_exe: &str, manifest_dir: &str, host: HostTarget) -> (r: Vec<String>)
    ensures
        r.deep_view() == projectctl_places(current_exe@, manifest_dir@, host),
{
    proof {
        reveal_strlit(".");
    }
    let dir = match parent(current_exe) {
        Some(d) => d,
        None => owned("."),
    };
    let bundled = bundled_sidecar_binary_filename(host);
    let suffixed = sidecar_binary_filename(host);
    let bins = crate::paths::join(manifest_dir, "binaries");
    let mut v: Vec<String> = Vec::new();
    v.push(crate::paths::join(dir.as_str(), bundled.as_str()));
    v.push(crate::paths::join(dir.as_str(), suffixed.as_str()));
    v.push(crate::paths::join(bins.as_str(), suffixed.as_str()));
    assert(v.deep_view() =~= projectctl_places(current_exe@, manifest_dir@, host));
    v
}

/// The first place that exists, else the packaged sibling.
pub open spec fn first_existing(places: Seq<Seq<char>>, exists: Seq<bool>) -> Seq<char> {
    if exists[0] {
        places[0]
    } else if exists[1] {
        places[1]
    } else if exists[2] {
        places[2]
    } else {
        places[0]
    }
}

/// `resolve_bundled_projectctl_path`, given which of the candidates exist.
pub fn resolve_bundled_projectctl_path(candidates: &Vec<String>, exists: &Vec<bool>) -> (r: String)
    requires
        candidates@.len() == 3,
        exists@.len() == 3,
    ensures
        r@ == first_existing(candidates.deep_view(), exists@),
{
    let k: usize = if exists[0] {
        0
    } else if exists[1] {
        1
    } else if exists[2] {
        2
    } else {
        0
    };
    candidates[k].clone()
}

/// `watched_roots_need_startup_refresh`, given the roots the index does not
/// yet cover.
pub fn watched_roots_need_startup_refresh(watched_roots: &Vec<String>, uncovered: &Vec<String>) -> (r: bool)
    ensures
        r == (watched_roots@.len() > 0 && uncovered@.len() > 0),
{
    watched_roots.len() > 0 && uncovered.len() > 0
}

// ---------------------------------------------------------------------------
// Bridge tokens
// ---------------------------------------------------------------------------

/// The character of the URL-safe base64 alphabet for a six-bit value:
/// `A`-`Z`, `a`-`z`, `0`-`9`, then `-` and `_`.
pub open spec fn url_safe_char(v: int) -> char {
    if v < 26 {
        (65 + v) as char
    } else if v < 52 {
        (97 + v - 26) as char
    } else if v < 62 {
        (48 + v - 52) as char
    } else if v == 62 {
        '-'
    } else {
        '_'
    }
}

/// The URL-safe base64 encoding of the bytes without padding
/// (`base64::engine::general_purpose::URL_SAFE_NO_PAD`): each group of three
/// bytes gives four characters of six bits each, a last group of one or two
/// bytes gives two or three, its missing bits taken as zero.
pub open spec fn base64_url_unpadded(b: Seq<u8>) -> Seq<char>
    decreases b.len(),
{
    if b.len() == 0 {
        Seq::empty()
    } else if b.len() == 1 {
        seq![url_safe_char((b[0] as int) / 4), url_safe_char(((b[0] as int) % 4) * 16)]
    } else if b.len() == 2 {
        seq![
            url_safe_char((b[0] as int) / 4),
            url_safe_char(((b[0] as int) % 4) * 16 + (b[1] as int) / 16),
            url_safe_char(((b[1] as int) % 16) * 4),
        ]
    } else {
        seq![
            url_safe_char((b[0] as int) / 4),
            url_safe_char(((b[0] as int) % 4) * 16 + (b[1] as int) / 16),
            url_safe_char(((b[1] as int) % 16) * 4 + (b[2] as int) / 64),
            url_safe_char((b[2] as int) % 64),
        ] + base64_url_unpadded(b.skip(3))
    }
}

/// The encoding has [`unpadded_len`] characters.
pub proof fn lemma_base64_len(b: Seq<u8>)
    ensures
        base64_url_unpadded(b).len() == unpadded_len(b.len()),
    decreases b.len(),
{
    if b.len() >= 3 {
        lemma_base64_len(b.skip(3));
        assert(b.len() / 3 == b.skip(3).len() / 3 + 1);
        assert(b.len() % 3 == b.skip(3).len() % 3);
    }
}

/// The length of an unpadded base64 encoding of `n` bytes.
pub open spec fn unpadded_len(n: nat) -> nat {
    (n / 3) * 4 + if n % 3 == 0 {
        0nat
    } else if n % 3 == 1 {
        2nat
    } else {
        3nat
    }
}

/// base64 `Engine::encode` with `URL_SAFE_NO_PAD`.
/// Claimed: the text is [`base64_url_unpadded`] of the bytes, the standard
/// encoding in the URL-safe alphabet without `=` padding.
#[verifier::external_body]
fn encode_url_safe(bytes: &Vec<u8>) -> (r: String)
    ensures
        r@ == base64_url_unpadded(bytes@),
{
    base64::engine::general_purpose::URL_SAFE_NO_PAD.encode(bytes)
}

/// Thirty-two random bytes: rand `thread_rng().fill_bytes`.
/// Claimed: only the length. Which bytes come back is random; the call
/// panics only when the system's random source fails.
#[verifier::external_body]
fn random_bytes32() -> (r: Vec<u8>)
    ensures
        r@.len() == 32,
{
    let mut bytes = [0u8; 32];
    rand::thread_rng().fill_bytes(&mut bytes);
    bytes.to_vec()
}

/// `generate_token`: 32 random bytes in unpadded URL-safe base64, 43
/// characters.
pub fn generate_token() -> (r: String)
    ensures
        exists|b: Seq<u8>| b.len() == 32 && r@ == base64_url_unpadded(b),
        r@.len() == 43,
{
    let bytes = random_bytes32();
    let t = encode_url_safe(&bytes);
    proof {
        lemma_base64_len(bytes@);
    }
    assert(unpadded_len(32) == 43);
    t
}

// ---------------------------------------------------------------------------
// Starting the bridge
// ---------------------------------------------------------------------------

/// The port a start looks from: the configured one, but not below the
/// default.
pub fn bridge_start_port(configured: u16) -> (r: u16)
    ensures
        r == if configured >= DEFAULT_BRIDGE_PORT {
            configured
        } else {
            DEFAULT_BRIDGE_PORT
        },
{
    if configured >= DEFAULT_BRIDGE_PORT {
        configured
    } else {
        DEFAULT_BRIDGE_PORT
    }
}

/// Whether output the bridge printed announces that it is ready: once
/// trimmed, it starts with `AGENT_BRIDGE_READY `.
pub fn is_bridge_ready_line(output: &str) -> (r: bool)
    ensures
        r == starts_with(trim(output@), "AGENT_BRIDGE_READY "@),
{
    let t = trim_str(output);
    starts_with_text(t.as_str(), "AGENT_BRIDGE_READY ")
}

/// What the start heard from the bridge process within its first wait.
pub enum StartupSignal {
    /// It printed its ready line.
    Ready,
    /// It failed to start, or exited, with this message.
    Failed(String),
    /// Nothing came within the wait.
    TimedOut,
    /// The monitor stopped before saying anything.
    Disconnected,
}

/// What the start does next.
#[derive(Debug, PartialEq, Eq)]
pub enum ReadinessStep {
    /// Probe the health endpoint up to `attempts` times, `delay_ms` apart.
    ProbeHealth { attempts: u32, delay_ms: u64 },
    /// Give up with this error.
    Fail(String),
}

/// The step after the startup signal: a short health probe after the ready
/// line (10 tries, 100 ms apart), a longer one when nothing came (30 tries,
/// 250 ms apart), and failure otherwise.
pub fn readiness_step(signal: StartupSignal) -> (r: ReadinessStep)
    ensures
        match signal {
            StartupSignal::Ready => r == ReadinessStep::ProbeHealth { attempts: 10, delay_ms: 100 },
            StartupSignal::TimedOut => r == ReadinessStep::ProbeHealth { attempts: 30, delay_ms: 250 },
            StartupSignal::Failed(e) => r matches ReadinessStep::Fail(m) && m@ == e@,
            StartupSignal::Disconnected => r matches ReadinessStep::Fail(m) && m@
                == "Agent Bridge startup channel disconnected before readiness"@,
        },
{
    match signal {
        StartupSignal::Ready => ReadinessStep::ProbeHealth { attempts: 10, delay_ms: 100 },
        StartupSignal::TimedOut => ReadinessStep::ProbeHealth { attempts: 30, delay_ms: 250 },
        StartupSignal::Failed(e) => ReadinessStep::Fail(e),
        StartupSignal::Disconnected => ReadinessStep::Fail(
            owned("Agent Bridge startup channel disconnected before readiness"),
        ),
    }
}

/// The error a failed start reports: the failure, followed by what the
/// bridge last wrote to its error output when that is not blank.
pub fn start_failure_message(error: &str, previous: Option<&str>) -> (r: String)
    ensures
        r@ == match previous {
            Some(p) => if !is_blank(p@) {
                error@ + ". Sidecar output: "@ + p@
            } else {
                error@
            },
            None => error@,
        },
{
    match previous {
        Some(p) => if !crate::text::blank(p) {
            concat3(error, ". Sidecar output: ", p)
        } else {
            owned(error)
        },
        None => owned(error),
    }
}

} // verus!
