use parallel_workflow::desktop::{
    apply_bridge_failure, apply_bridge_health_success, build_cli_install_status, bundled_sidecar_binary_filename,
    handle_terminated_bridge_process, resolve_bridge_url, BridgeRuntimeSnapshot, BridgeSupervisor, HostArch, HostOs,
    HostTarget, projectctl_candidates, record_local_workflow_write, resolve_bundled_projectctl_path,
    should_suppress_snapshot_event, sidecar_binary_filename, watched_roots_need_startup_refresh, generate_token,
    bridge_start_port, is_bridge_ready_line, readiness_step, start_failure_message, ReadinessStep, StartupSignal,
};
use parallel_workflow::agents::stable_projectctl_install_path;
use parallel_workflow::paths::{join, path_is_root_or_descendant};

fn mac() -> HostTarget {
    HostTarget { os: HostOs::MacOs, arch: HostArch::Aarch64 }
}

#[test]
fn apply_bridge_failure_marks_runtime_error() {
    let mut runtime = BridgeRuntimeSnapshot { status: "starting".to_string(), ..BridgeRuntimeSnapshot::default() };

    apply_bridge_failure(&mut runtime, "boom".to_string());

    assert_eq!(runtime.status, "error");
    assert_eq!(runtime.last_error.as_deref(), Some("boom"));
}

#[test]
fn apply_bridge_health_success_marks_runtime_running() {
    let mut runtime = BridgeRuntimeSnapshot {
        status: "starting".to_string(),
        last_error: Some("waiting".to_string()),
        ..BridgeRuntimeSnapshot::default()
    };

    apply_bridge_health_success(&mut runtime, 4857);

    assert_eq!(runtime.status, "running");
    assert_eq!(runtime.bound_port, Some(4857));
    assert_eq!(runtime.last_error, None);
}

#[test]
fn old_bridge_termination_does_not_clear_new_child() {
    let mut supervisor = BridgeSupervisor {
        child_pid: Some(222),
        stopping_pid: Some(111),
        runtime: BridgeRuntimeSnapshot::default(),
    };

    let termination = handle_terminated_bridge_process(&mut supervisor, 111);

    assert!(termination.intentional);
    assert!(!termination.child_gone);
    assert_eq!(supervisor.child_pid, Some(222));
    assert_eq!(supervisor.stopping_pid, None);
}

#[test]
fn root_or_descendant_check_excludes_sibling_paths() {
    let root = "/tmp/workspace/root";
    assert!(path_is_root_or_descendant("/tmp/workspace/root", root));
    assert!(path_is_root_or_descendant("/tmp/workspace/root/nested/project", root));
    assert!(!path_is_root_or_descendant("/tmp/workspace/root-sibling", root));
}

#[test]
fn cli_install_path_prefers_visible_home_bin_on_macos() {
    let home = "/tmp/test-home";
    let install = stable_projectctl_install_path(Some("/usr/bin:/tmp/test-home/bin"), home, HostOs::MacOs);
    let bin = join(home, "bin");
    assert_eq!(install, join(&bin, &bundled_sidecar_binary_filename(mac())));
}

#[test]
fn cli_install_status_reports_path_export_command() {
    let home = "/tmp/test-home";
    let bundled = "/tmp/test-home/parallel.app/Contents/MacOS/projectctl";
    let install = "/tmp/test-home/bin/projectctl";
    let status = build_cli_install_status(bundled, install, Some("/usr/bin"), Some("/bin/zsh"), home, false, None);

    assert!(!status.install_dir_on_path);
    assert_eq!(status.shell_export, "export PATH=\"$HOME/bin:$PATH\"");
    assert_eq!(status.shell_profile, "/tmp/test-home/.zshrc");
    assert_eq!(status.persist_command, "echo 'export PATH=\"$HOME/bin:$PATH\"' >> $HOME/.zshrc");
}

#[test]
fn cli_install_status_detects_shell_profile_path_configuration() {
    let home = "/tmp/test-home";
    let bundled = "/tmp/test-home/parallel.app/Contents/MacOS/projectctl";
    let install = "/tmp/test-home/bin/projectctl";
    let status = build_cli_install_status(
        bundled,
        install,
        Some("/usr/bin"),
        Some("/bin/zsh"),
        home,
        false,
        Some("export PATH=\"$HOME/bin:$PATH\"\n"),
    );

    assert!(!status.install_dir_on_path);
    assert!(status.shell_profile_configured);
}

#[test]
fn fish_shell_gets_fish_add_path() {
    let status = build_cli_install_status(
        "/b/projectctl",
        "/tmp/h/.local/bin/projectctl",
        Some("/tmp/h/.local/bin"),
        Some("/usr/bin/fish"),
        "/tmp/h",
        true,
        Some("# fish_add_path $HOME/.local/bin\nset -gx fish_user_paths ~/.local/bin\n"),
    );
    assert!(status.installed);
    assert!(status.install_dir_on_path);
    assert!(status.shell_profile_configured);
    assert_eq!(status.shell_export, "fish_add_path $HOME/.local/bin");
    assert_eq!(status.persist_command, "fish_add_path $HOME/.local/bin");
    assert_eq!(status.shell_profile, "/tmp/h/.config/fish/config.fish");
}

#[test]
fn bridge_url_uses_loopback_and_port() {
    assert_eq!(resolve_bridge_url(4855), "http://127.0.0.1:4855/mcp");
    assert_eq!(resolve_bridge_url(0), "http://127.0.0.1:0/mcp");
}

#[test]
fn prefers_packaged_projectctl_sibling_for_bundled_apps() {
    let root = "/tmp/packaged-sibling";
    let contents_dir = join(root, "parallel.app/Contents/MacOS");
    let current_exe = join(&contents_dir, "parallel");
    let packaged_sidecar = join(&contents_dir, &bundled_sidecar_binary_filename(mac()));
    let candidates = projectctl_candidates(&current_exe, &join(root, "src-tauri"), mac());
    let exists: Vec<bool> = candidates.iter().map(|c| *c == packaged_sidecar).collect();

    let resolved = resolve_bundled_projectctl_path(&candidates, &exists);
    assert_eq!(resolved, packaged_sidecar);
    assert_eq!(resolved, "/tmp/packaged-sibling/parallel.app/Contents/MacOS/projectctl");
}

#[test]
fn falls_back_to_target_suffixed_dev_binary_when_packaged_sidecar_is_missing() {
    let root = "/tmp/dev-fallback";
    let run_dir = join(root, "target/debug");
    let manifest_dir = join(root, "src-tauri");
    let binaries_dir = join(&manifest_dir, "binaries");
    let current_exe = join(&run_dir, "parallel-desktop");
    let dev_binary = join(&binaries_dir, &sidecar_binary_filename(mac()));
    let candidates = projectctl_candidates(&current_exe, &manifest_dir, mac());
    let exists: Vec<bool> = candidates.iter().map(|c| *c == dev_binary).collect();

    let resolved = resolve_bundled_projectctl_path(&candidates, &exists);
    assert_eq!(resolved, dev_binary);
    assert_eq!(resolved, "/tmp/dev-fallback/src-tauri/binaries/projectctl-aarch64-apple-darwin");
}

#[test]
fn missing_sidecar_falls_back_to_packaged_name() {
    let candidates = projectctl_candidates("/opt/app/parallel", "/src/app", mac());
    let resolved = resolve_bundled_projectctl_path(&candidates, &vec![false, false, false]);
    assert_eq!(resolved, "/opt/app/projectctl");
}

#[test]
fn local_write_suppression_ignores_recent_workflow_events() {
    let repo = "/tmp/suppression/repo";
    let mut writes: Vec<(String, u64)> = Vec::new();
    record_local_workflow_write(&mut writes, repo, 10_000);

    let changed = vec![format!("{repo}/.project-workflow/local/runtime.yaml")];
    assert!(should_suppress_snapshot_event(&mut writes, &changed, 10_100));
}

#[test]
fn local_write_suppression_expires_after_window() {
    let repo = "/tmp/suppression/repo";
    let mut writes: Vec<(String, u64)> = Vec::new();
    record_local_workflow_write(&mut writes, repo, 10_000);

    let changed = vec![format!("{repo}/.project-workflow/local/runtime.yaml")];
    assert!(!should_suppress_snapshot_event(&mut writes, &changed, 11_500));
    assert!(writes.is_empty());
    let sibling = vec!["/tmp/suppression/repo-other/.project-workflow/local/runtime.yaml".to_string()];
    record_local_workflow_write(&mut writes, repo, 20_000);
    assert!(!should_suppress_snapshot_event(&mut writes, &sibling, 20_001));
}

#[test]
fn startup_refresh_runs_once_for_uncovered_watched_roots() {
    let watched = vec!["/tmp/startup-coverage/watched-root".to_string()];
    assert!(watched_roots_need_startup_refresh(&watched, &watched));
    assert!(!watched_roots_need_startup_refresh(&watched, &Vec::new()));
    assert!(!watched_roots_need_startup_refresh(&Vec::new(), &Vec::new()));
}

#[test]
fn bridge_tokens_are_url_safe_and_fresh() {
    let a = generate_token();
    let b = generate_token();
    assert_eq!(a.len(), 43);
    assert!(a.chars().all(|c| c.is_ascii_alphanumeric() || c == '-' || c == '_'));
    assert_ne!(a, b);
}

#[test]
fn bridge_start_decisions() {
    assert_eq!(bridge_start_port(80), 4855);
    assert_eq!(bridge_start_port(5000), 5000);
    assert!(is_bridge_ready_line("  AGENT_BRIDGE_READY http://127.0.0.1:4855/mcp\n"));
    assert!(!is_bridge_ready_line("AGENT_BRIDGE_READY"));
    assert!(!is_bridge_ready_line("starting"));
    assert_eq!(readiness_step(StartupSignal::Ready), ReadinessStep::ProbeHealth { attempts: 10, delay_ms: 100 });
    assert_eq!(readiness_step(StartupSignal::TimedOut), ReadinessStep::ProbeHealth { attempts: 30, delay_ms: 250 });
    assert_eq!(
        readiness_step(StartupSignal::Failed("boom".to_string())),
        ReadinessStep::Fail("boom".to_string())
    );
    assert_eq!(
        readiness_step(StartupSignal::Disconnected),
        ReadinessStep::Fail("Agent Bridge startup channel disconnected before readiness".to_string())
    );
    assert_eq!(start_failure_message("timed out", Some("port in use")), "timed out. Sidecar output: port in use");
    assert_eq!(start_failure_message("timed out", Some("  ")), "timed out");
    assert_eq!(start_failure_message("timed out", None), "timed out");
}
