use parallel_workflow::bridge::{
    authorize, blocker_request, ends_headers, header_content_length, remote_tool_text, route_failure, rpc_route,
    subtask_status_of, AuthFailure, BlockerRequest, RemoteFailure, RpcRoute,
};
use parallel_workflow::discovery::should_descend;
use parallel_workflow::models::{JsonValue, SubtaskStatus};

#[test]
fn routes_follow_the_method_after_the_version() {
    assert_eq!(rpc_route(Some("2.0"), "initialize"), RpcRoute::Initialize);
    assert_eq!(rpc_route(Some("2.0"), "notifications/initialized"), RpcRoute::Initialized);
    assert_eq!(rpc_route(Some("2.0"), "ping"), RpcRoute::Ping);
    assert_eq!(rpc_route(Some("2.0"), "tools/list"), RpcRoute::ToolsList);
    assert_eq!(rpc_route(Some("2.0"), "tools/call"), RpcRoute::ToolsCall);
    assert_eq!(rpc_route(Some("2.0"), "resources/list"), RpcRoute::Unsupported);
    assert_eq!(rpc_route(Some("1.0"), "ping"), RpcRoute::BadVersion);
    assert_eq!(rpc_route(None, "ping"), RpcRoute::BadVersion);
}

#[test]
fn route_failures_carry_json_rpc_codes() {
    let bad = route_failure(RpcRoute::BadVersion, "ping").expect("failure");
    assert_eq!(bad.code, -32600);
    assert_eq!(bad.message, "jsonrpc must be 2.0");
    let unknown = route_failure(RpcRoute::Unsupported, "resources/list").expect("failure");
    assert_eq!(unknown.code, -32601);
    assert_eq!(unknown.message, "unsupported method resources/list");
    assert!(route_failure(RpcRoute::ToolsCall, "tools/call").is_none());
}

#[test]
fn health_requires_valid_bearer_token() {
    assert_eq!(authorize(None, "secret"), Err(AuthFailure::Missing));
    assert_eq!(authorize(Some("Bearer wrong"), "secret"), Err(AuthFailure::Invalid));
    assert_eq!(authorize(Some("bearer secret"), "secret"), Err(AuthFailure::Invalid));
    assert_eq!(authorize(Some("Bearer secret"), "secret"), Ok(()));
    assert_eq!(AuthFailure::Missing.message(), "missing authorization");
    assert_eq!(AuthFailure::Invalid.message(), "invalid bearer token");
}

#[test]
fn stdio_headers_give_the_body_length() {
    assert_eq!(header_content_length("Content-Length: 42\r\n"), Some(Some(42)));
    assert_eq!(header_content_length("content-length:+7\n"), Some(Some(7)));
    assert_eq!(header_content_length("CONTENT-LENGTH: 12x\r\n"), Some(None));
    assert_eq!(header_content_length("Content-Length: \r\n"), Some(None));
    assert_eq!(header_content_length("Content-Length: 99999999999999999999999\r\n"), Some(None));
    assert_eq!(header_content_length("Content-Type: application/json\r\n"), None);
    assert_eq!(header_content_length("no colon here"), None);
    assert!(ends_headers("\r\n"));
    assert!(ends_headers("\n"));
    assert!(!ends_headers(" \n"));
}

#[test]
fn subtask_statuses_are_todo_or_done() {
    assert_eq!(subtask_status_of(None), Ok(SubtaskStatus::Todo));
    assert_eq!(subtask_status_of(Some("todo")), Ok(SubtaskStatus::Todo));
    assert_eq!(subtask_status_of(Some("done")), Ok(SubtaskStatus::Done));
    assert_eq!(subtask_status_of(Some("blocked")), Err("unsupported subtask status blocked".to_string()));
}

#[test]
fn set_blocker_needs_text_unless_clearing() {
    assert_eq!(blocker_request(true, None), Ok(BlockerRequest::Clear(None)));
    assert_eq!(blocker_request(true, Some("x".to_string())), Ok(BlockerRequest::Clear(Some("x".to_string()))));
    assert_eq!(blocker_request(false, Some("waiting".to_string())), Ok(BlockerRequest::Add("waiting".to_string())));
    assert_eq!(blocker_request(false, Some("  ".to_string())), Err("blocker is required when clear=false".to_string()));
    assert_eq!(blocker_request(false, None), Err("blocker is required when clear=false".to_string()));
}

fn obj(fields: Vec<(&str, JsonValue)>) -> JsonValue {
    JsonValue::Object(fields.into_iter().map(|(k, v)| (k.to_string(), v)).collect())
}

#[test]
fn remote_replies_give_their_first_text() {
    let reply = obj(vec![(
        "result",
        obj(vec![(
            "content",
            JsonValue::Array(vec![obj(vec![("type", JsonValue::Str("text".into())), ("text", JsonValue::Str("{}".into()))])]),
        )]),
    )]);
    assert_eq!(remote_tool_text(&reply), Ok("{}".to_string()));
    let failed = obj(vec![("error", obj(vec![("code", JsonValue::Number("-32601".into()))]))]);
    assert_eq!(remote_tool_text(&failed), Err(RemoteFailure::Error));
    let empty = obj(vec![("result", obj(vec![("content", JsonValue::Array(vec![]))]))]);
    assert_eq!(remote_tool_text(&empty), Err(RemoteFailure::NoContent));
}

#[test]
fn skips_hidden_directories_under_watched_roots() {
    assert!(should_descend(0, ".hidden-root"));
    assert!(should_descend(1, "visible-repo"));
    assert!(should_descend(2, ".git"));
    assert!(!should_descend(1, ".hidden"));
    assert!(!should_descend(1, "node_modules"));
    assert!(!should_descend(3, "target"));
    assert!(should_descend(3, "targets"));
}
