use parallel_workflow::agent_config::{inspect_http_client_config, inspect_proxy_client_config};
use parallel_workflow::agents::{
    build_client_snippet, build_target_status, canonical_proxy_args, combine_statuses, global_paths_for,
    inspect_managed_text, managed_block, parse_client_kind, parse_install_action, plan_apply, repo_text_body,
    should_apply, stable_projectctl_install_path, to_scope_status, upsert_managed_block, AgentScopeStatus, ClientKind,
    InstallAction, InstallScope, InstallStatus, SurfaceStatus,
};
use parallel_workflow::codex_config::{
    codex_config_status, codex_config_text, codex_config_text_checked, inspect_codex_config, is_projectctl_package, product_manifest_step, ProductCheck, TomlServer,
};
use parallel_workflow::agents::{global_text_body, inspect_agent_defaults, inspect_repo};
use parallel_workflow::desktop::HostOs;
use parallel_workflow::models::JsonValue;

#[test]
fn stable_cli_path_prefers_visible_home_bin() {
    let path = stable_projectctl_install_path(Some("/usr/bin:/tmp/test-home/bin"), "/tmp/test-home", HostOs::Linux);
    assert_eq!(path, "/tmp/test-home/bin/projectctl");
}

#[test]
fn stable_cli_path_defaults_by_platform() {
    assert_eq!(stable_projectctl_install_path(Some("/usr/bin"), "/h", HostOs::MacOs), "/h/bin/projectctl");
    assert_eq!(stable_projectctl_install_path(None, "/h", HostOs::Linux), "/h/.local/bin/projectctl");
    assert_eq!(
        stable_projectctl_install_path(Some("/h/.local/bin"), "/h", HostOs::MacOs),
        "/h/.local/bin/projectctl"
    );
}

#[test]
fn codex_snippet_uses_env_var_indirection() {
    let snippet =
        build_client_snippet(ClientKind::Codex, "http://127.0.0.1:4855/mcp", "token-123", false).expect("snippet should build");

    assert!(snippet.content.contains("bearer-token-env-var PARALLEL_MCP_TOKEN"));
    assert_eq!(
        snippet.content,
        "export PARALLEL_MCP_TOKEN='token-123'\ncodex mcp add parallel --url http://127.0.0.1:4855/mcp --bearer-token-env-var PARALLEL_MCP_TOKEN"
    );
}

#[test]
fn codex_global_paths_are_under_dot_codex() {
    assert_eq!(
        global_paths_for(ClientKind::Codex, "/h"),
        vec!["/h/.codex/config.toml".to_string(), "/h/.codex/AGENTS.md".to_string()]
    );
}

#[test]
fn kinds_and_actions_parse_by_name() {
    assert_eq!(parse_client_kind("codex"), Ok(ClientKind::Codex));
    assert_eq!(parse_client_kind("vim"), Err("Unknown client kind: vim".to_string()));
    assert_eq!(parse_install_action("reinstall"), Ok(InstallAction::Reinstall));
    assert_eq!(parse_install_action("x"), Err("Unknown install action: x".to_string()));
    assert_eq!(ClientKind::Codex.as_str(), "codex");
    assert_eq!(ClientKind::Codex.label(), "Codex");
}

#[test]
fn statuses_combine_to_the_worst() {
    assert_eq!(combine_statuses(&vec![]), InstallStatus::Installed);
    assert_eq!(
        combine_statuses(&vec![InstallStatus::Installed, InstallStatus::Missing, InstallStatus::Unsupported]),
        InstallStatus::Missing
    );
    assert_eq!(combine_statuses(&vec![InstallStatus::Stale, InstallStatus::Error]), InstallStatus::Error);
    assert!(should_apply(InstallStatus::Missing, InstallAction::Install));
    assert!(!should_apply(InstallStatus::Stale, InstallAction::Install));
    assert!(should_apply(InstallStatus::Stale, InstallAction::Update));
    assert!(!should_apply(InstallStatus::Error, InstallAction::Reinstall));
}

#[test]
fn scope_reasons_are_sorted_and_unique() {
    let surfaces = vec![
        SurfaceStatus { status: InstallStatus::Stale, reasons: vec!["shape_mismatch".to_string()] },
        SurfaceStatus {
            status: InstallStatus::Missing,
            reasons: vec!["managed_block_outdated".to_string(), "shape_mismatch".to_string()],
        },
    ];
    let scope = to_scope_status("global", &surfaces);
    assert_eq!(scope.status, InstallStatus::Stale);
    assert_eq!(scope.reasons, vec!["managed_block_outdated".to_string(), "shape_mismatch".to_string()]);
    let target = build_target_status(
        ClientKind::Codex,
        Some(scope),
        Some(AgentScopeStatus {
            scope: "repo".to_string(),
            status: InstallStatus::Error,
            reasons: vec!["a".to_string()],
            changed_paths: vec![],
        }),
    );
    assert_eq!(target.status, InstallStatus::Error);
    assert_eq!(target.reasons, vec!["a".to_string(), "managed_block_outdated".to_string(), "shape_mismatch".to_string()]);
    let plan = plan_apply(InstallScope::Global, InstallAction::Update, &target);
    assert!(plan.apply_global);
    assert!(!plan.apply_repo);
}

#[test]
fn managed_block_round_trips_through_upsert() {
    let body = repo_text_body();
    let block = managed_block(body);
    assert!(block.starts_with("<!-- parallel-agent-defaults:v1:start -->\n"));
    assert!(block.ends_with("<!-- parallel-agent-defaults:v1:end -->\n"));
    let fresh = upsert_managed_block(Some("# Agents\n\nnotes\n\n"), body);
    assert_eq!(fresh, format!("# Agents\n\nnotes\n\n{block}"));
    assert_eq!(inspect_managed_text(Some(&fresh), body).status, InstallStatus::Installed);
    let outdated = fresh.replace("managed through Parallel", "managed elsewhere");
    let status = inspect_managed_text(Some(&outdated), body);
    assert_eq!(status.status, InstallStatus::Stale);
    assert_eq!(status.reasons, vec!["managed_block_outdated".to_string()]);
    let repaired = upsert_managed_block(Some(&outdated), body);
    assert_eq!(repaired, fresh);
    assert_eq!(inspect_managed_text(None, body).status, InstallStatus::Missing);
    assert_eq!(upsert_managed_block(None, body), block);
}

fn obj(fields: Vec<(&str, JsonValue)>) -> JsonValue {
    JsonValue::Object(fields.into_iter().map(|(k, v)| (k.to_string(), v)).collect())
}

fn text(s: &str) -> JsonValue {
    JsonValue::Str(s.to_string())
}

fn code_entry(url: &str, token: &str) -> JsonValue {
    obj(vec![
        ("type", text("http")),
        ("url", text(url)),
        ("headers", obj(vec![("Authorization", text(&format!("Bearer {token}")))])),
    ])
}

#[test]
fn user_scope_entry_is_recognized_as_installed() {
    let root = obj(vec![("mcpServers", obj(vec![("parallel", code_entry("http://u/mcp", "tok"))]))]);
    let status = inspect_http_client_config(&root, None, "http://u/mcp", "tok").expect("status");
    assert_eq!(status.status, InstallStatus::Installed);
    let stale = inspect_http_client_config(&root, None, "http://u/mcp", "other").expect("status");
    assert_eq!(stale.status, InstallStatus::Stale);
    assert_eq!(stale.reasons, vec!["shape_mismatch".to_string()]);
}

#[test]
fn local_scope_entry_is_reported_as_legacy() {
    let root = obj(vec![("projects", obj(vec![]))]);
    let project = obj(vec![("mcpServers", obj(vec![("parallel", code_entry("http://u/mcp", "tok"))]))]);
    let status = inspect_http_client_config(&root, Some(&project), "http://u/mcp", "tok").expect("status");
    assert_eq!(status.status, InstallStatus::Stale);
    assert_eq!(status.reasons, vec!["legacy_local_scope".to_string()]);
    let missing = inspect_http_client_config(&root, None, "http://u/mcp", "tok").expect("status");
    assert_eq!(missing.status, InstallStatus::Missing);
}

#[test]
fn error_on_name_collision_for_matching_endpoint() {
    let root = obj(vec![("mcpServers", obj(vec![("other", obj(vec![("url", text("http://u/mcp"))]))]))]);
    let status = inspect_http_client_config(&root, None, "http://u/mcp", "tok").expect("status");
    assert_eq!(status.status, InstallStatus::Error);
    assert_eq!(status.reasons, vec!["parallel_name_collision".to_string()]);
    assert!(inspect_http_client_config(&text("x"), None, "u", "t").is_none());
}

#[test]
fn proxy_entry_is_checked_by_command_and_args() {
    let args = canonical_proxy_args("http://u/mcp", "tok");
    let entry = obj(vec![
        ("command", text("/bin/projectctl")),
        ("args", JsonValue::Array(args.iter().map(|a| text(a)).collect())),
    ]);
    let root = obj(vec![("mcpServers", obj(vec![("parallel", entry)]))]);
    let status = inspect_proxy_client_config(&root, "http://u/mcp", "tok", "/bin/projectctl").expect("status");
    assert_eq!(status.status, InstallStatus::Installed);
    let stale = inspect_proxy_client_config(&root, "http://u/mcp", "tok", "/other/projectctl").expect("status");
    assert_eq!(stale.status, InstallStatus::Stale);
    let empty = obj(vec![]);
    let missing = inspect_proxy_client_config(&empty, "http://u/mcp", "tok", "/bin/projectctl").expect("status");
    assert_eq!(missing.status, InstallStatus::Missing);
}

#[test]
fn stale_on_shape_mismatch_for_parallel_entry() {
    let url = "http://127.0.0.1:4855/mcp";
    let config = inspect_codex_config(Some("[mcp_servers.parallel]\ncommand = \"projectctl\"\n"), url).expect("parses");
    let text = inspect_managed_text(None, global_text_body());
    let status = inspect_agent_defaults(ClientKind::Codex, InstallScope::Global, Some(vec![config, text]), None);

    assert_eq!(status.status, InstallStatus::Stale);
    assert!(status.reasons.iter().any(|reason| reason == "shape_mismatch"));
}

#[test]
fn codex_config_reports_each_state() {
    let url = "http://127.0.0.1:4855/mcp";
    assert_eq!(inspect_codex_config(None, url).expect("absent").status, InstallStatus::Missing);
    assert_eq!(inspect_codex_config(Some("# nothing\n"), url).expect("empty").status, InstallStatus::Missing);
    let installed = format!("[mcp_servers.parallel]\nurl = \"{url}\"\nbearer_token_env_var = \"PARALLEL_MCP_TOKEN\"\n");
    assert_eq!(inspect_codex_config(Some(&installed), url).expect("installed").status, InstallStatus::Installed);
    let inline = format!("mcp_servers = {{ parallel = {{ url = \"{url}\", bearer_token_env_var = \"PARALLEL_MCP_TOKEN\" }} }}\n");
    assert_eq!(inspect_codex_config(Some(&inline), url).expect("inline").status, InstallStatus::Installed);
    let collision = format!("[mcp_servers.other]\nurl = \"{url}\"\n");
    let status = inspect_codex_config(Some(&collision), url).expect("collision");
    assert_eq!(status.status, InstallStatus::Error);
    assert_eq!(status.reasons, vec!["parallel_name_collision".to_string()]);
    assert!(inspect_codex_config(Some("[mcp_servers\n"), url).is_err());
    let scalar = "[mcp_servers]\nparallel = \"x\"\n";
    assert_eq!(inspect_codex_config(Some(scalar), url).expect("scalar").status, InstallStatus::Missing);
}

#[test]
fn codex_status_reads_plain_entries() {
    let url = "http://127.0.0.1:4855/mcp";
    let entry = |name: &str, url: Option<&str>, var: Option<&str>| TomlServer {
        name: name.to_string(),
        is_table: true,
        url: url.map(str::to_string),
        token_env_var: var.map(str::to_string),
    };
    assert_eq!(codex_config_status(&None, url).status, InstallStatus::Missing);
    let wrong_var = Some(vec![entry("parallel", Some(url), Some("OTHER"))]);
    assert_eq!(codex_config_status(&wrong_var, url).reasons, vec!["shape_mismatch".to_string()]);
    let other_first = Some(vec![entry("alpha", Some("http://x"), None), entry("parallel", Some(url), Some("PARALLEL_MCP_TOKEN"))]);
    assert_eq!(codex_config_status(&other_first, url).status, InstallStatus::Installed);
}

#[test]
fn repo_scope_skips_parallel_repo() {
    let status = inspect_repo(true, Some("do not touch\n"));
    assert_eq!(status.status, InstallStatus::Installed);
    assert!(status.reasons.iter().any(|reason| reason == "repo_manages_parallel_guidance"));
}

#[test]
fn product_repo_is_told_by_its_manifests() {
    let workspace = "[workspace]\nmembers = [\"crates/projectctl-rs\"]\nresolver = \"2\"\n";
    assert_eq!(product_manifest_step(workspace), Ok(ProductCheck::CheckMember));
    let member = "[package]\nname = \"parallel-projectctl\"\nversion = \"0.1.0\"\nedition = \"2021\"\n";
    assert_eq!(is_projectctl_package(member), Ok(true));
    assert_eq!(is_projectctl_package("[package]\nname = \"other\"\n"), Ok(false));
    assert_eq!(product_manifest_step("[package]\nname = \"solo\"\n"), Ok(ProductCheck::Continue));
    assert_eq!(product_manifest_step("[workspace]\nmembers = [\"crates/other\", 3]\n"), Ok(ProductCheck::NotProduct));
    assert_eq!(product_manifest_step("[workspace]\nresolver = \"2\"\n"), Ok(ProductCheck::NotProduct));
    assert!(product_manifest_step("[workspace").is_err());
}

#[test]
fn codex_install_preserves_existing_comments() {
    let url = "http://127.0.0.1:4855/mcp";
    let updated = codex_config_text("# keep me\n[mcp_servers.other]\nurl = \"http://example.test\"\n", url)
        .expect("install should succeed");
    assert!(updated.contains("# keep me"));
    assert!(updated.contains("[mcp_servers.parallel]"));
    assert!(updated.contains("bearer_token_env_var = \"PARALLEL_MCP_TOKEN\""));
    assert_eq!(inspect_codex_config(Some(&updated), url).expect("parses").status, InstallStatus::Installed);
}

#[test]
fn codex_config_text_starts_blank_files_anew_and_updates_entries() {
    let url = "http://127.0.0.1:4855/mcp";
    let fresh = codex_config_text("  \n", url).expect("blank file");
    assert_eq!(inspect_codex_config(Some(&fresh), url).expect("parses").status, InstallStatus::Installed);
    assert!(!fresh.starts_with(' '));
    let stale = "[mcp_servers.parallel]\nurl = \"http://old\"\ncommand = \"x\"\n";
    let updated = codex_config_text(stale, url).expect("update");
    assert!(updated.contains("command = \"x\""));
    assert_eq!(inspect_codex_config(Some(&updated), url).expect("parses").status, InstallStatus::Installed);
    let replaced = codex_config_text("[mcp_servers]\nparallel = 1\n", url).expect("entry replaced");
    assert_eq!(inspect_codex_config(Some(&replaced), url).expect("parses").status, InstallStatus::Installed);
    assert!(codex_config_text("not = [toml", url).is_err());
    assert!(codex_config_text_checked("mcp_servers = 1\n", url).is_none());
    assert!(codex_config_text_checked("", url).is_some());
}
