//! Dispatch decisions of the tool server: which handler a JSON-RPC message
//! goes to, which tool a call names, and the texts of its error replies.
use vstd::prelude::*;
use vstd::string::*;
use crate::text::same_text;
use crate::types::{SearchInput, SearchOpts, TouchOpts, TouchesInput};

verus! {

/// Where a JSON-RPC message goes.
#[derive(Debug, Clone, Copy, PartialEq, Eq, Structural)]
pub enum Route {
    /// A notification (no `id`): no reply.
    Silent,
    Initialize,
    ToolsList,
    ToolsCall,
    /// A request for a method the server does not have: reply with an error.
    UnknownMethod,
}

/// The route of a message with or without an `id` and with the given method.
pub open spec fn route_of(has_id: bool, method: Seq<char>) -> Route {
    if !has_id {
        Route::Silent
    } else if method == "initialize"@ {
        Route::Initialize
    } else if method == "tools/list"@ {
        Route::ToolsList
    } else if method == "tools/call"@ {
        Route::ToolsCall
    } else {
        Route::UnknownMethod
    }
}

/// Routes a message.
pub fn route_message(has_id: bool, method: &str) -> (r: Route)
    ensures
        r == route_of(has_id, method@),
{
    if !has_id {
        Route::Silent
    } else if same_text(method, "initialize") {
        Route::Initialize
    } else if same_text(method, "tools/list") {
        Route::ToolsList
    } else if same_text(method, "tools/call") {
        Route::ToolsCall
    } else {
        Route::UnknownMethod
    }
}

/// The four tools of the server.
#[derive(Debug, Clone, Copy, PartialEq, Eq, Structural)]
pub enum Tool {
    Search,
    Touches,
    GetCommit,
    GetPatch,
}

/// The tool a call names, if the server has it.
pub open spec fn tool_of(name: Seq<char>) -> Option<Tool> {
    if name == "commitmux_search"@ {
        Some(Tool::Search)
    } else if name == "commitmux_touches"@ {
        Some(Tool::Touches)
    } else if name == "commitmux_get_commit"@ {
        Some(Tool::GetCommit)
    } else if name == "commitmux_get_patch"@ {
        Some(Tool::GetPatch)
    } else {
        None
    }
}

/// Looks a tool up by name.
pub fn tool_named(name: &str) -> (r: Option<Tool>)
    ensures
        r == tool_of(name@),
{
    if same_text(name, "commitmux_search") {
        Some(Tool::Search)
    } else if same_text(name, "commitmux_touches") {
        Some(Tool::Touches)
    } else if same_text(name, "commitmux_get_commit") {
        Some(Tool::GetCommit)
    } else if same_text(name, "commitmux_get_patch") {
        Some(Tool::GetPatch)
    } else {
        None
    }
}

/// The reply text for a call to a tool the server does not have.
pub fn unknown_tool_text(name: &str) -> (r: String)
    ensures
        r@ == "Unknown tool: "@ + name@,
{
    let mut m = String::from_str("Unknown tool: ");
    m.push_str(name);
    m
}

/// The reply text for a request to a method the server does not have.
pub fn unknown_method_text(method: &str) -> (r: String)
    ensures
        r@ == "Method not found: "@ + method@,
{
    let mut m = String::from_str("Method not found: ");
    m.push_str(method);
    m
}

/// The reply text when a commit or patch (`what`) is absent: `What repo:sha not found`.
pub fn missing_text(what: &str, repo: &str, sha: &str) -> (r: String)
    ensures
        r@ == what@ + " "@ + repo@ + ":"@ + sha@ + " not found"@,
{
    let mut m = String::from_str(what);
    m.push_str(" ");
    m.push_str(repo);
    m.push_str(":");
    m.push_str(sha);
    m.push_str(" not found");
    m
}

/// The match text and options a search call asks for.
pub fn search_request(input: SearchInput) -> (r: (String, SearchOpts))
    ensures
        r.0 == input.query,
        r.1.since == input.since,
        r.1.limit == input.limit,
        r.1.repos == input.repos,
        r.1.paths == input.paths,
{
    (input.query, SearchOpts { since: input.since, repos: input.repos, paths: input.paths, limit: input.limit })
}

/// The path substring and options a path lookup call asks for.
pub fn touches_request(input: TouchesInput) -> (r: (String, TouchOpts))
    ensures
        r.0 == input.path_glob,
        r.1.since == input.since,
        r.1.limit == input.limit,
        r.1.repos == input.repos,
{
    (input.path_glob, TouchOpts { since: input.since, repos: input.repos, limit: input.limit })
}

} // verus!
