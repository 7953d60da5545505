use parallel_workflow::paths::{get_workflow_paths, gitignore_with_entry, read_git_branch, workflow_dir_prefix};
use parallel_workflow::roots::{
    canonical_index_db_path_from_env, normalize_roots, resolve_index_db_path, resolve_watched_roots, split_roots,
    DataDirEnv, Platform, RootResolutionSurface,
};

fn strings(items: &[&str]) -> Vec<String> {
    items.iter().map(|s| s.to_string()).collect()
}

#[test]
fn builds_canonical_index_path_from_platform_env() {
    let env = DataDirEnv {
        home: None,
        appdata: None,
        userprofile: None,
        xdg_data_home: Some("/home/tester/.local/share".to_string()),
    };
    let path = canonical_index_db_path_from_env(Platform::Unix, &env).expect("linux path should resolve");
    assert!(path.ends_with("workflow-index.sqlite"));
    assert!(path.contains("ai.light.projectworkflowos"));
}

#[test]
fn canonical_index_path_on_other_platforms() {
    let mac = DataDirEnv { home: Some("/Users/tester".to_string()), appdata: None, userprofile: None, xdg_data_home: None };
    assert_eq!(
        canonical_index_db_path_from_env(Platform::MacOs, &mac).as_deref(),
        Some("/Users/tester/Library/Application Support/ai.light.projectworkflowos/workflow-index.sqlite")
    );
    let win = DataDirEnv {
        home: None,
        appdata: Some(r"C:\Users\tester\AppData\Roaming".to_string()),
        userprofile: None,
        xdg_data_home: None,
    };
    assert_eq!(
        canonical_index_db_path_from_env(Platform::Windows, &win).as_deref(),
        Some(r"C:\Users\tester\AppData\Roaming\ai.light.projectworkflowos\workflow-index.sqlite")
    );
    let bare = DataDirEnv { home: None, appdata: None, userprofile: None, xdg_data_home: None };
    assert_eq!(canonical_index_db_path_from_env(Platform::Unix, &bare), None);
}

#[test]
fn resolve_index_db_prefers_flag_then_env_then_canonical_default() {
    let canonical = Some("/data/workflow-index.sqlite".to_string());
    assert_eq!(
        resolve_index_db_path(Some("/tmp/from-flag.sqlite"), Some("/tmp/from-env.sqlite"), canonical.clone())
            .expect("flag path should resolve"),
        "/tmp/from-flag.sqlite".to_string()
    );
    assert_eq!(
        resolve_index_db_path(None, Some("/tmp/from-env.sqlite"), canonical.clone()).expect("env path should resolve"),
        "/tmp/from-env.sqlite".to_string()
    );
    assert_eq!(
        resolve_index_db_path(Some("  "), None, canonical.clone()).expect("default path should resolve"),
        "/data/workflow-index.sqlite".to_string()
    );
    assert!(resolve_index_db_path(None, None, None).is_err());
}

#[test]
fn roots_are_sorted_deduplicated_and_non_empty() {
    assert_eq!(normalize_roots(&strings(&["/b", "", "/a", "/b"])), strings(&["/a", "/b"]));
    assert_eq!(split_roots(" /a : :/b ", ':'), strings(&["/a", "/b"]));
}

#[test]
fn bridge_returns_empty_when_no_roots_are_available() {
    let roots = resolve_watched_roots(RootResolutionSurface::Bridge, None, None, Some(Vec::new()), None);
    assert_eq!(roots, Some(Vec::new()));
}

#[test]
fn cli_uses_cwd_only_when_no_explicit_env_or_canonical_roots_exist() {
    let before_migration = resolve_watched_roots(RootResolutionSurface::Cli, None, None, None, Some("/w/cwd".to_string()));
    assert_eq!(before_migration, None);
    let roots =
        resolve_watched_roots(RootResolutionSurface::Cli, None, None, Some(Vec::new()), Some("/w/cwd".to_string()));
    assert_eq!(roots, Some(strings(&["/w/cwd"])));
    let explicit = resolve_watched_roots(
        RootResolutionSurface::Cli,
        Some(strings(&["/z", "/y"])),
        Some(strings(&["/e"])),
        None,
        Some("/w/cwd".to_string()),
    );
    assert_eq!(explicit, Some(strings(&["/y", "/z"])));
}

#[test]
fn workflow_paths_live_under_the_root() {
    let p = get_workflow_paths("/repo");
    assert_eq!(p.workflow_dir, "/repo/.project-workflow");
    assert_eq!(p.runtime_path, "/repo/.project-workflow/local/runtime.yaml");
    assert_eq!(p.proposed_decisions_path, "/repo/.project-workflow/local/decisions-proposed.yaml");
    assert_eq!(workflow_dir_prefix("/repo"), "/repo/.project-workflow");
}

#[test]
fn git_branch_comes_from_head() {
    assert_eq!(read_git_branch(Some("ref: refs/heads/feature/x\n")).as_deref(), Some("x"));
    assert_eq!(read_git_branch(Some("abc123\n")).as_deref(), Some("abc123"));
    assert_eq!(read_git_branch(None), None);
}

#[test]
fn gitignore_gets_the_local_entry_once() {
    assert_eq!(gitignore_with_entry(None).as_deref(), Some(".project-workflow/local/\n"));
    assert_eq!(gitignore_with_entry(Some("target")).as_deref(), Some("target\n.project-workflow/local/\n"));
    assert_eq!(gitignore_with_entry(Some("x\n.project-workflow/local/\n")), None);
}

#[test]
fn desktop_watched_roots_resolve_from_env_before_canonical_store() {
    let env_roots = split_roots("/base/env-root", ':');
    let resolved = resolve_watched_roots(
        RootResolutionSurface::Desktop,
        None,
        Some(env_roots),
        Some(strings(&["/base/canonical-root"])),
        None,
    );
    assert_eq!(resolved, Some(strings(&["/base/env-root"])));
}
