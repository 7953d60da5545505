use parallel_workflow::cli::{
    flag, parse_args, phase_inputs_from_json, positional_tail_or_flag, required_flag, resolve_source,
    split_comma_values, ParsedArgs,
};
use parallel_workflow::models::{ActivitySource, JsonValue};

fn strings(items: &[&str]) -> Vec<String> {
    items.iter().map(|s| s.to_string()).collect()
}

#[test]
fn split_comma_values_trims_and_drops_empty_entries() {
    assert_eq!(
        split_comma_values(" alpha, beta ,, gamma "),
        vec!["alpha".to_string(), "beta".to_string(), "gamma".to_string()]
    );
}

#[test]
fn positional_tail_or_flag_prefers_positional_tail() {
    let parsed = ParsedArgs {
        positionals: vec!["note".to_string(), "add".to_string(), "from".to_string(), "tail".to_string()],
        flags: vec![("summary".to_string(), "from flag".to_string())],
        booleans: Default::default(),
    };

    assert_eq!(positional_tail_or_flag(&parsed, 2, "summary"), "from tail");
}

#[test]
fn positional_tail_falls_back_to_flag_then_empty() {
    let parsed = ParsedArgs {
        positionals: strings(&["note", "add"]),
        flags: vec![("summary".to_string(), "from flag".to_string())],
        booleans: Vec::new(),
    };
    assert_eq!(positional_tail_or_flag(&parsed, 2, "summary"), "from flag");
    assert_eq!(positional_tail_or_flag(&parsed, 2, "other"), "");
}

#[test]
fn parse_args_reads_flags_values_and_switches() {
    let parsed =
        parse_args(&strings(&["step", "start", "--root=/tmp/x", "--actor", "me", "--json", "--force", "s1", "--dry"]));
    assert_eq!(parsed.positionals, strings(&["step", "start"]));
    assert_eq!(flag(&parsed, "root").as_deref(), Some("/tmp/x"));
    assert_eq!(flag(&parsed, "actor").as_deref(), Some("me"));
    assert_eq!(flag(&parsed, "force").as_deref(), Some("s1"));
    assert_eq!(parsed.booleans, strings(&["json", "dry"]));
    assert_eq!(required_flag(&parsed, "plan"), Err("Missing required flag --plan".to_string()));
}

#[test]
fn repeated_flag_keeps_last_value() {
    let parsed = parse_args(&strings(&["--source", "agent", "--source=human"]));
    assert_eq!(flag(&parsed, "source").as_deref(), Some("human"));
    assert_eq!(resolve_source(flag(&parsed, "source")), ActivitySource::Human);
    assert_eq!(resolve_source(Some("bogus".to_string())), ActivitySource::Cli);
    assert_eq!(resolve_source(None), ActivitySource::Cli);
}

fn obj(fields: Vec<(&str, JsonValue)>) -> JsonValue {
    JsonValue::Object(fields.into_iter().map(|(k, v)| (k.to_string(), v)).collect())
}

fn text(s: &str) -> JsonValue {
    JsonValue::Str(s.to_string())
}

#[test]
fn plan_json_is_read_into_phase_inputs() {
    let plan = obj(vec![(
        "phases",
        JsonValue::Array(vec![obj(vec![
            ("title", text("Build")),
            (
                "steps",
                JsonValue::Array(vec![obj(vec![
                    ("title", text("Write code")),
                    ("id", text("code")),
                    ("depends_on", JsonValue::Array(vec![text("design"), JsonValue::Null])),
                    (
                        "subtasks",
                        JsonValue::Array(vec![obj(vec![("title", text("Tests")), ("status", text("done"))])]),
                    ),
                ])]),
            ),
        ])]),
    )]);
    let phases = phase_inputs_from_json(&plan).expect("plan should read");
    assert_eq!(phases.len(), 1);
    assert_eq!(phases[0].title, "Build");
    assert_eq!(phases[0].steps[0].id.as_deref(), Some("code"));
    assert_eq!(phases[0].steps[0].depends_on, Some(strings(&["design"])));
    let subtasks = phases[0].steps[0].subtasks.as_ref().expect("subtasks");
    assert_eq!(subtasks[0].title, "Tests");
    assert_eq!(subtasks[0].status, Some(parallel_workflow::models::SubtaskStatus::Done));
}

#[test]
fn plan_json_errors_name_the_missing_part() {
    assert_eq!(
        phase_inputs_from_json(&text("x")).err(),
        Some("--plan must be a JSON array of phases or an object with phases".to_string())
    );
    assert_eq!(
        phase_inputs_from_json(&JsonValue::Array(vec![obj(vec![])])).err(),
        Some("phase title is required".to_string())
    );
    assert_eq!(
        phase_inputs_from_json(&JsonValue::Array(vec![obj(vec![("title", text("P"))])])).err(),
        Some("phase steps are required".to_string())
    );
    assert_eq!(
        phase_inputs_from_json(&JsonValue::Array(vec![obj(vec![
            ("title", text("P")),
            ("steps", JsonValue::Array(vec![obj(vec![])]))
        ])]))
        .err(),
        Some("step title is required".to_string())
    );
}
