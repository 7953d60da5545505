use parallel_workflow::index::{
    discover_project_roots, discovered_summary, mark_missing_projects, migrate_legacy_watched_roots,
    missing_watched_root_coverage, most_specific_watched_root, refreshed_indexed_summary,
    resolve_project_watched_root, surfaced_root,
};
use parallel_workflow::models::{DiscoveredProject, DiscoverySource, ProjectIndexRecord, ProjectSummary};
use parallel_workflow::summary::build_uninitialized_project_summary;

fn strings(items: &[&str]) -> Vec<String> {
    items.iter().map(|s| s.to_string()).collect()
}

fn summary(root: &str, exists: bool) -> ProjectSummary {
    build_uninitialized_project_summary(root, exists, None, "2026-01-01T00:00:00Z".to_string())
}

#[test]
fn coverage_lists_unscanned_roots_once_until_scanned() {
    let roots = strings(&["/w/b", "/w/a", "/w/a", ""]);
    assert_eq!(missing_watched_root_coverage(&roots, &strings(&[])), strings(&["/w/a", "/w/b"]));
    assert_eq!(missing_watched_root_coverage(&roots, &strings(&["/w/a"])), strings(&["/w/b"]));
    assert!(missing_watched_root_coverage(&roots, &strings(&["/w/a", "/w/b"])).is_empty());
}

#[test]
fn migration_takes_the_union_of_seeded_and_legacy_roots() {
    let seeded = strings(&["/t/existing", "/t/scan-root"]);
    let legacy = strings(&["/t/legacy", "/t/existing"]);
    let roots = migrate_legacy_watched_roots(Vec::new(), &seeded, &legacy);
    assert_eq!(roots, strings(&["/t/existing", "/t/legacy", "/t/scan-root"]));
    // once the index keeps roots, they win
    let again = migrate_legacy_watched_roots(roots.clone(), &strings(&["/t/other"]), &legacy);
    assert_eq!(again, roots);
    assert!(migrate_legacy_watched_roots(Vec::new(), &strings(&[]), &strings(&[""])).is_empty());
}

#[test]
fn projects_belong_to_the_most_specific_watched_root() {
    let roots = strings(&["/w", "/w/group"]);
    assert_eq!(most_specific_watched_root("/w/group/parallel-project", &roots), Some("/w/group".to_string()));
    assert_eq!(most_specific_watched_root("/w/groupie/p", &roots), Some("/w".to_string()));
    assert_eq!(most_specific_watched_root("/w/group", &roots), Some("/w/group".to_string()));
    assert_eq!(most_specific_watched_root("/elsewhere/p", &roots), None);
}

#[test]
fn project_watched_root_prefers_explicit_then_stored() {
    let roots = strings(&["/w", "/w/group"]);
    let root = "/w/group/p";
    assert_eq!(
        resolve_project_watched_root(root, Some("/x".to_string()), Some("/w".to_string()), &roots),
        Some("/x".to_string())
    );
    assert_eq!(
        resolve_project_watched_root(root, Some("  ".to_string()), Some("/w".to_string()), &roots),
        Some("/w".to_string())
    );
    assert_eq!(resolve_project_watched_root(root, None, None, &roots), Some("/w/group".to_string()));
    assert_eq!(resolve_project_watched_root("/elsewhere", None, None, &roots), None);
}

#[test]
fn codex_threads_surface_the_child_of_the_watched_root() {
    let roots = strings(&["/w"]);
    assert_eq!(surfaced_root("/w/git-project/nested", &roots), Some("/w/git-project".to_string()));
    assert_eq!(surfaced_root("/w/foo", &roots), Some("/w/foo".to_string()));
    assert_eq!(surfaced_root("/w/.hidden-project", &roots), None);
    assert_eq!(surfaced_root("/w", &roots), None);
    assert_eq!(surfaced_root("/elsewhere/foo", &roots), None);
}

fn view(d: &DiscoveredProject) -> (&str, DiscoverySource, Option<&str>) {
    (d.root.as_str(), d.discovery_source, d.discovery_path.as_deref())
}

#[test]
fn discovery_lists_each_backed_project_once() {
    let roots = strings(&["/w"]);
    let initialized = strings(&["/w/group/parallel-project"]);
    let cwds = strings(&["/w/foo", "/w/foo/bar", "/w/git-project/nested", "/w/.hidden-project", "/w/foo"]);
    let found = discover_project_roots(&roots, &initialized, &cwds);
    let views: Vec<_> = found.iter().map(view).collect();
    assert_eq!(
        views,
        vec![
            ("/w/group/parallel-project", DiscoverySource::Parallel, None),
            ("/w/foo", DiscoverySource::Codex, None),
            ("/w/git-project", DiscoverySource::Codex, Some("/w/git-project/nested")),
        ]
    );
    // plain directories without workflow files or threads are no projects
    assert!(discover_project_roots(&roots, &strings(&[]), &strings(&[])).is_empty());
}

#[test]
fn own_workflow_files_win_over_a_codex_thread() {
    let roots = strings(&["/w"]);
    let found = discover_project_roots(&roots, &strings(&["/w/repo"]), &strings(&["/w/repo"]));
    assert_eq!(found.len(), 1);
    assert_eq!(view(&found[0]), ("/w/repo", DiscoverySource::Parallel, None));
}

fn record(root: &str, watched: &str) -> ProjectIndexRecord {
    ProjectIndexRecord { summary: summary(root, true), watched_root: watched.to_string() }
}

#[test]
fn refresh_marks_only_rows_it_did_not_find_again() {
    let rows = vec![record("/w/a", "/w"), record("/w/b", "/w"), record("/v/c", "/v"), record("/w/d", "/w")];
    let marked = mark_missing_projects(&rows, &strings(&["/w"]), &strings(&["/w/b"]));
    assert_eq!(marked, strings(&["/w/a", "/w/d"]));
    assert!(mark_missing_projects(&rows, &strings(&[]), &strings(&[])).is_empty());
}

#[test]
fn refresh_keeps_the_indexed_summary_of_a_vanished_initialized_project() {
    let mut existing = summary("/w/gone", true);
    existing.initialized = true;
    existing.name = "Indexed".to_string();
    let current = summary("/w/gone", false);
    let found = DiscoveredProject {
        root: "/w/gone".to_string(),
        discovery_source: DiscoverySource::Codex,
        discovery_path: Some("/w/gone/sub".to_string()),
    };
    let s = discovered_summary(Some(existing), false, current, found);
    assert_eq!(s.name, "Indexed");
    assert!(s.stale && s.missing);
    assert_eq!(s.discovery_source, Some(DiscoverySource::Codex));
    assert_eq!(s.discovery_path.as_deref(), Some("/w/gone/sub"));

    let found = DiscoveredProject {
        root: "/w/here".to_string(),
        discovery_source: DiscoverySource::Parallel,
        discovery_path: None,
    };
    let s = discovered_summary(None, true, summary("/w/here", true), found);
    assert_eq!(s.name, "here");
    assert!(!s.missing);
    assert_eq!(s.discovery_source, Some(DiscoverySource::Parallel));
}

#[test]
fn snapshot_keeps_provenance_and_degrades_missing_roots() {
    let mut row = record("/w/foo", "/w");
    row.summary.discovery_source = Some(DiscoverySource::Codex);
    let s = refreshed_indexed_summary(row, Some(summary("/w/foo", true)));
    assert_eq!(s.discovery_source, Some(DiscoverySource::Codex));
    assert_eq!(s.discovery_path, None);
    assert!(!s.missing);

    let s = refreshed_indexed_summary(record("/w/gone", "/w"), None);
    assert!(s.missing && s.stale);
    assert_eq!(s.root, "/w/gone");
}
