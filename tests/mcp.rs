use commitmux::mcp::{
    missing_text, route_message, search_request, tool_named, touches_request, unknown_method_text,
    unknown_tool_text, Route, Tool,
};
use commitmux::types::{SearchInput, TouchesInput};

#[test]
fn routes_requests_and_notifications() {
    assert_eq!(route_message(false, "notifications/initialized"), Route::Silent);
    assert_eq!(route_message(true, "initialize"), Route::Initialize);
    assert_eq!(route_message(true, "tools/list"), Route::ToolsList);
    assert_eq!(route_message(true, "tools/call"), Route::ToolsCall);
    assert_eq!(route_message(true, "tools/cal"), Route::UnknownMethod);
}

#[test]
fn names_the_four_tools() {
    assert_eq!(tool_named("commitmux_search"), Some(Tool::Search));
    assert_eq!(tool_named("commitmux_touches"), Some(Tool::Touches));
    assert_eq!(tool_named("commitmux_get_commit"), Some(Tool::GetCommit));
    assert_eq!(tool_named("commitmux_get_patch"), Some(Tool::GetPatch));
    assert_eq!(tool_named("commitmux_other"), None);
}

#[test]
fn error_reply_texts() {
    assert_eq!(unknown_tool_text("x"), "Unknown tool: x");
    assert_eq!(unknown_method_text("y"), "Method not found: y");
    assert_eq!(missing_text("Commit", "nonexistent", "000000"), "Commit nonexistent:000000 not found");
}

#[test]
fn tool_inputs_become_options() {
    let (q, o) = search_request(SearchInput {
        query: "foo".into(),
        since: None,
        repos: None,
        paths: Some(vec!["src/".into()]),
        limit: Some(5),
    });
    assert_eq!(q, "foo");
    assert_eq!(o.limit, Some(5));
    assert_eq!(o.paths, Some(vec!["src/".to_string()]));
    let (p, t) = touches_request(TouchesInput { path_glob: "src/".into(), since: Some(3), repos: None, limit: None });
    assert_eq!(p, "src/");
    assert_eq!(t.since, Some(3));
    assert!(t.limit.is_none());
}

#[test]
fn test_notification_no_response() {
    // A message without an id is a notification: it gets no reply.
    assert_eq!(route_message(false, "notifications/initialized"), Route::Silent, "notifications must not produce a response");
}
