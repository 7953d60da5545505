use parallel_workflow::json::{merge_runtime_patch, patched_runtime_json};
use parallel_workflow::models::JsonValue;

fn obj(members: Vec<(&str, JsonValue)>) -> JsonValue {
    JsonValue::Object(members.into_iter().map(|(k, v)| (k.to_string(), v)).collect())
}

fn num(n: &str) -> JsonValue {
    JsonValue::Number(n.to_string())
}

fn text(s: &str) -> JsonValue {
    JsonValue::Str(s.to_string())
}

#[test]
fn patch_objects_merge_member_by_member() {
    let target = obj(vec![("a", num("1")), ("b", obj(vec![("x", num("1")), ("y", num("2"))]))]);
    let patch = obj(vec![("b", obj(vec![("y", num("3")), ("z", num("4"))])), ("c", JsonValue::Null)]);
    let merged = merge_runtime_patch(target, &patch);
    assert_eq!(
        merged,
        obj(vec![
            ("a", num("1")),
            ("b", obj(vec![("x", num("1")), ("y", num("3")), ("z", num("4"))])),
            ("c", JsonValue::Null),
        ])
    );
}

#[test]
fn a_patch_that_is_not_an_object_replaces_the_target() {
    let replaced = merge_runtime_patch(obj(vec![("a", num("1"))]), &JsonValue::Array(vec![num("1")]));
    assert_eq!(replaced, JsonValue::Array(vec![num("1")]));
    let over_scalar = merge_runtime_patch(text("plain"), &obj(vec![("k", JsonValue::Bool(true))]));
    assert_eq!(over_scalar, obj(vec![("k", JsonValue::Bool(true))]));
    let member_over_scalar = merge_runtime_patch(obj(vec![("k", text("v"))]), &obj(vec![("k", obj(vec![("x", num("2"))]))]));
    assert_eq!(member_over_scalar, obj(vec![("k", obj(vec![("x", num("2"))]))]));
}

#[test]
fn runtime_patch_sets_the_update_time() {
    let stored = obj(vec![
        ("status", text("todo")),
        ("last_updated_at", text("2026-01-01T00:00:00.000Z")),
        ("blockers", JsonValue::Array(vec![])),
    ]);
    let patch = obj(vec![("status", text("blocked")), ("blockers", JsonValue::Array(vec![text("waiting")]))]);
    let patched = patched_runtime_json(stored, &patch, "2026-02-02T00:00:00.000Z");
    assert_eq!(
        patched,
        obj(vec![
            ("status", text("blocked")),
            ("last_updated_at", text("2026-02-02T00:00:00.000Z")),
            ("blockers", JsonValue::Array(vec![text("waiting")])),
        ])
    );
    let without_time = patched_runtime_json(obj(vec![("version", num("2"))]), &obj(vec![]), "now");
    assert_eq!(without_time, obj(vec![("version", num("2")), ("last_updated_at", text("now"))]));
}
