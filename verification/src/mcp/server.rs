//! Requests and responses.
//!
//! [`McpServer::handle_line`] answers a request, or says which tool needs the
//! file system; [`tool_response`] answers for such a tool once it has run.
//! [`response_line`] is what is sent back.
use vstd::prelude::*;
use vstd::string::*;

use super::lease::{
    acquired, as_secs, released, seconds, AcquireResult, LeaseManager, ReleaseResult,
    LEASE_DURATION,
};
use super::params::{argument, duration_text, format_duration, required_text};
use super::tools::{tool_nodes, tools_json};
use crate::json::{
    get_text_or_empty, json_array, json_compact, json_get, json_integer, json_node, json_nodes,
    json_null, json_object, json_parsed, json_text, member, member_text_or_empty, no_members,
    parse_json, plain_json, print_json_line, put, JsonNode,
};
use crate::text::{decimal, number, same, trim, trimmed};

verus! {

// ---------------------------------------------------------------------------
// Requests
// ---------------------------------------------------------------------------

/// The tools that the server offers.
#[derive(Debug, Clone, Copy, PartialEq, Eq, Structural)]
pub enum Tool {
    /// `acquire_lease`.
    AcquireLease,
    /// `release_lease`.
    ReleaseLease,
    /// `scan_project`.
    ScanProject,
    /// `add_rule`.
    AddRule,
    /// `remove_rule`.
    RemoveRule,
    /// `check_change`.
    CheckChange,
    /// `apply_guarded_change`.
    ApplyGuardedChange,
}

/// What a request asks for.
#[derive(Debug, Clone, Copy, PartialEq, Eq, Structural)]
pub enum Route {
    /// `initialize`.
    Initialize,
    /// `tools/list`.
    ListTools,
    /// `tools/call` of a tool.
    Call(Tool),
    /// `tools/call` of a tool that is not offered.
    UnknownTool,
    /// Any other method.
    UnknownMethod,
}

/// The member of an object, or `null`.
pub open spec fn member_or_null(node: JsonNode, key: Seq<char>) -> JsonNode {
    match member(node, key) {
        Some(v) => v,
        None => JsonNode::Null,
    }
}

/// The tool of a name.
pub open spec fn tool_named(name: Seq<char>) -> Option<Tool> {
    if name == "acquire_lease"@ {
        Some(Tool::AcquireLease)
    } else if name == "release_lease"@ {
        Some(Tool::ReleaseLease)
    } else if name == "scan_project"@ {
        Some(Tool::ScanProject)
    } else if name == "add_rule"@ {
        Some(Tool::AddRule)
    } else if name == "remove_rule"@ {
        Some(Tool::RemoveRule)
    } else if name == "check_change"@ {
        Some(Tool::CheckChange)
    } else if name == "apply_guarded_change"@ {
        Some(Tool::ApplyGuardedChange)
    } else {
        None
    }
}

/// What a request asks for.
pub open spec fn route_of(request: JsonNode) -> Route {
    let method = member_text_or_empty(request, "method"@);
    if method == "initialize"@ {
        Route::Initialize
    } else if method == "tools/list"@ {
        Route::ListTools
    } else if method == "tools/call"@ {
        match tool_named(
            member_text_or_empty(member_or_null(request, "params"@), "name"@),
        ) {
            Some(tool) => Route::Call(tool),
            None => Route::UnknownTool,
        }
    } else {
        Route::UnknownMethod
    }
}

/// The arguments of a tool call.
pub open spec fn arguments_of(request: JsonNode) -> JsonNode {
    member_or_null(member_or_null(request, "params"@), "arguments"@)
}

// ---------------------------------------------------------------------------
// Responses
// ---------------------------------------------------------------------------

/// A response with a result.
pub open spec fn result_node(id: JsonNode, result: JsonNode) -> JsonNode {
    JsonNode::Object(
        no_members().insert("jsonrpc"@, JsonNode::Text("2.0"@)).insert("id"@, id).insert(
            "result"@,
            result,
        ),
    )
}

/// A response with an error.
pub open spec fn error_node(id: JsonNode, code: int, message: Seq<char>) -> JsonNode {
    JsonNode::Object(
        no_members().insert("jsonrpc"@, JsonNode::Text("2.0"@)).insert("id"@, id).insert(
            "error"@,
            JsonNode::Object(
                no_members().insert("code"@, JsonNode::Integer(code)).insert(
                    "message"@,
                    JsonNode::Text(message),
                ),
            ),
        ),
    )
}

/// The result of a tool that answers with a text.
pub open spec fn text_content(text: Seq<char>) -> JsonNode {
    JsonNode::Object(
        no_members().insert(
            "content"@,
            JsonNode::Array(
                seq![
                    JsonNode::Object(
                        no_members().insert("type"@, JsonNode::Text("text"@)).insert(
                            "text"@,
                            JsonNode::Text(text),
                        ),
                    ),
                ],
            ),
        ),
    )
}

/// The result of `initialize`.
pub open spec fn server_info(version: Seq<char>) -> JsonNode {
    JsonNode::Object(
        no_members().insert("protocolVersion"@, JsonNode::Text("2024-11-05"@)).insert(
            "capabilities"@,
            JsonNode::Object(no_members().insert("tools"@, JsonNode::Object(no_members()))),
        ).insert(
            "serverInfo"@,
            JsonNode::Object(
                no_members().insert("name"@, JsonNode::Text("aetherlink"@)).insert(
                    "version"@,
                    JsonNode::Text(version),
                ),
            ),
        ),
    )
}

/// The error code of a failed tool.
pub open spec fn failure_code(tool: Tool) -> int {
    match tool {
        Tool::AcquireLease | Tool::ReleaseLease => -32602,
        _ => -32000,
    }
}

/// What an error message of a failed tool starts with.
pub open spec fn failure_prefix(tool: Tool) -> Seq<char> {
    match tool {
        Tool::AcquireLease => "acquire_lease failed: "@,
        Tool::ReleaseLease => "release_lease failed: "@,
        Tool::ScanProject => "scan failed: "@,
        Tool::AddRule => "add_rule failed: "@,
        Tool::RemoveRule => "remove_rule failed: "@,
        Tool::CheckChange => "check_change failed: "@,
        Tool::ApplyGuardedChange => "apply_guarded_change failed: "@,
    }
}

/// The response for a tool that has run.
pub open spec fn tool_node_response(
    id: JsonNode,
    tool: Tool,
    outcome: Result<Seq<char>, Seq<char>>,
) -> JsonNode {
    match outcome {
        Ok(text) => result_node(id, text_content(text)),
        Err(e) => error_node(id, failure_code(tool), failure_prefix(tool) + e),
    }
}

// ---------------------------------------------------------------------------
// Leases
// ---------------------------------------------------------------------------

/// The reply to an attempt to acquire a lease.
pub open spec fn acquire_text(path: Seq<char>, result: AcquireResult) -> Seq<char> {
    match result {
        AcquireResult::Granted { expires_in } => "LEASE GRANTED: "@ + path
            + " is now locked for editing for "@ + decimal(seconds(expires_in as u128) as nat)
            + " seconds (until "@ + duration_text(expires_in as u128)
            + " from now). Release happens automatically on expiry."@,
        AcquireResult::Denied { remaining } => "Access Denied: File is currently being modified by another agent.\nFile: "@
            + path + "\nRemaining lock time: "@ + duration_text(remaining) + " (~"@ + decimal(
            seconds(remaining) as nat,
        ) + " seconds)\nRetry after the existing lease expires (max lease duration: "@ + decimal(
            seconds(LEASE_DURATION as u128) as nat,
        ) + " seconds)."@,
    }
}

/// The reply to a release.
pub open spec fn release_text(path: Seq<char>, result: ReleaseResult) -> Seq<char> {
    match result {
        ReleaseResult::Released => "LEASE RELEASED: "@ + path
            + " is now Open. Other agents can acquire it immediately."@,
        ReleaseResult::AlreadyExpired => "Lease on "@ + path
            + " had already expired and was cleaned up. The file was already Open."@,
        ReleaseResult::NotHeld => "No active lease on "@ + path + " — nothing to release."@,
    }
}

/// Whether a call of `acquire_lease` at some time can lead from the leases
/// `before` to the leases `after` with the outcome.
pub open spec fn acquire_step(
    before: Map<Seq<char>, int>,
    args: JsonNode,
    after: Map<Seq<char>, int>,
    outcome: Result<Seq<char>, Seq<char>>,
) -> bool {
    match argument(args, "file_path"@) {
        Err(e) => after == before && outcome == Err::<Seq<char>, Seq<char>>(e),
        Ok(path) => exists|now: u64|
            {
                let (leases, result) = #[trigger] acquired(before, path, now);
                after == leases && outcome == Ok::<Seq<char>, Seq<char>>(
                    acquire_text(path, result),
                )
            },
    }
}

/// Whether a call of `release_lease` at some time can lead from the leases
/// `before` to the leases `after` with the outcome.
pub open spec fn release_step(
    before: Map<Seq<char>, int>,
    args: JsonNode,
    after: Map<Seq<char>, int>,
    outcome: Result<Seq<char>, Seq<char>>,
) -> bool {
    match argument(args, "file_path"@) {
        Err(e) => after == before && outcome == Err::<Seq<char>, Seq<char>>(e),
        Ok(path) => exists|now: u64|
            {
                let (leases, result) = #[trigger] released(before, path, now);
                after == leases && outcome == Ok::<Seq<char>, Seq<char>>(
                    release_text(path, result),
                )
            },
    }
}

/// The reply to an attempt to acquire a lease.
pub fn acquire_reply(path: &str, result: AcquireResult) -> (s: String)
    ensures
        s@ == acquire_text(path@, result),
{
    match result {
        AcquireResult::Granted { expires_in } => {
            let mut s = "LEASE GRANTED: ".to_owned();
            s.append(path);
            s.append(" is now locked for editing for ");
            s.append(&number(as_secs(expires_in as u128)));
            s.append(" seconds (until ");
            s.append(&format_duration(expires_in as u128));
            s.append(" from now). Release happens automatically on expiry.");
            s
        },
        AcquireResult::Denied { remaining } => {
            let mut s =
                "Access Denied: File is currently being modified by another agent.\nFile: ".to_owned();
            s.append(path);
            s.append("\nRemaining lock time: ");
            s.append(&format_duration(remaining));
            s.append(" (~");
            s.append(&number(as_secs(remaining)));
            s.append(" seconds)\nRetry after the existing lease expires (max lease duration: ");
            s.append(&number(as_secs(LEASE_DURATION as u128)));
            s.append(" seconds).");
            s
        },
    }
}

/// The reply to a release.
pub fn release_reply(path: &str, result: ReleaseResult) -> (s: String)
    ensures
        s@ == release_text(path@, result),
{
    match result {
        ReleaseResult::Released => {
            let mut s = "LEASE RELEASED: ".to_owned();
            s.append(path);
            s.append(" is now Open. Other agents can acquire it immediately.");
            s
        },
        ReleaseResult::AlreadyExpired => {
            let mut s = "Lease on ".to_owned();
            s.append(path);
            s.append(" had already expired and was cleaned up. The file was already Open.");
            s
        },
        ReleaseResult::NotHeld => {
            let mut s = "No active lease on ".to_owned();
            s.append(path);
            s.append(" — nothing to release.");
            s
        },
    }
}

// ---------------------------------------------------------------------------
// The functions
// ---------------------------------------------------------------------------

fn get_or_null(v: &serde_json::Value, key: &str) -> (r: serde_json::Value)
    ensures
        json_node(r) == member_or_null(json_node(*v), key@),
{
    match json_get(v, key) {
        Some(x) => x.clone(),
        None => json_null(),
    }
}

fn find_tool(name: &str) -> (r: Option<Tool>)
    ensures
        r == tool_named(name@),
{
    if same(name, "acquire_lease") {
        Some(Tool::AcquireLease)
    } else if same(name, "release_lease") {
        Some(Tool::ReleaseLease)
    } else if same(name, "scan_project") {
        Some(Tool::ScanProject)
    } else if same(name, "add_rule") {
        Some(Tool::AddRule)
    } else if same(name, "remove_rule") {
        Some(Tool::RemoveRule)
    } else if same(name, "check_change") {
        Some(Tool::CheckChange)
    } else if same(name, "apply_guarded_change") {
        Some(Tool::ApplyGuardedChange)
    } else {
        None
    }
}

/// What a request asks for.
pub fn route(request: &serde_json::Value) -> (r: Route)
    ensures
        r == route_of(json_node(*request)),
{
    let method = get_text_or_empty(request, "method");
    if same(&method, "initialize") {
        Route::Initialize
    } else if same(&method, "tools/list") {
        Route::ListTools
    } else if same(&method, "tools/call") {
        let params = get_or_null(request, "params");
        match find_tool(&get_text_or_empty(&params, "name")) {
            Some(tool) => Route::Call(tool),
            None => Route::UnknownTool,
        }
    } else {
        Route::UnknownMethod
    }
}

fn result_json(id: &serde_json::Value, result: serde_json::Value) -> (v: serde_json::Value)
    ensures
        json_node(v) == result_node(json_node(*id), json_node(result)),
{
    let mut m = serde_json::Map::new();
    put(&mut m, "jsonrpc", json_text("2.0"));
    put(&mut m, "id", id.clone());
    put(&mut m, "result", result);
    json_object(m)
}

/// A response with an error.
pub fn error_response(id: &serde_json::Value, code: i32, message: &str) -> (v: serde_json::Value)
    ensures
        json_node(v) == error_node(json_node(*id), code as int, message@),
{
    let mut e = serde_json::Map::new();
    put(&mut e, "code", json_integer(code as i64));
    put(&mut e, "message", json_text(message));
    let mut m = serde_json::Map::new();
    put(&mut m, "jsonrpc", json_text("2.0"));
    put(&mut m, "id", id.clone());
    put(&mut m, "error", json_object(e));
    json_object(m)
}

fn text_json(text: &str) -> (v: serde_json::Value)
    ensures
        json_node(v) == text_content(text@),
{
    let mut item = serde_json::Map::new();
    put(&mut item, "type", json_text("text"));
    put(&mut item, "text", json_text(text));
    let mut list: Vec<serde_json::Value> = Vec::new();
    let item = json_object(item);
    let ghost node = json_node(item);
    list.push(item);
    assert(json_nodes(list@) =~= seq![node]);
    let mut m = serde_json::Map::new();
    put(&mut m, "content", json_array(list));
    json_object(m)
}

fn info_json(version: &str) -> (v: serde_json::Value)
    ensures
        json_node(v) == server_info(version@),
{
    let mut capabilities = serde_json::Map::new();
    put(&mut capabilities, "tools", json_object(serde_json::Map::new()));
    let mut info = serde_json::Map::new();
    put(&mut info, "name", json_text("aetherlink"));
    put(&mut info, "version", json_text(version));
    let mut m = serde_json::Map::new();
    put(&mut m, "protocolVersion", json_text("2024-11-05"));
    put(&mut m, "capabilities", json_object(capabilities));
    put(&mut m, "serverInfo", json_object(info));
    json_object(m)
}

fn list_json() -> (v: serde_json::Value)
    ensures
        json_node(v) == JsonNode::Object(
            no_members().insert("tools"@, JsonNode::Array(tool_nodes())),
        ),
{
    let mut m = serde_json::Map::new();
    put(&mut m, "tools", tools_json());
    json_object(m)
}

fn prefix_of(tool: Tool) -> (s: &'static str)
    ensures
        s@ == failure_prefix(tool),
{
    match tool {
        Tool::AcquireLease => "acquire_lease failed: ",
        Tool::ReleaseLease => "release_lease failed: ",
        Tool::ScanProject => "scan failed: ",
        Tool::AddRule => "add_rule failed: ",
        Tool::RemoveRule => "remove_rule failed: ",
        Tool::CheckChange => "check_change failed: ",
        Tool::ApplyGuardedChange => "apply_guarded_change failed: ",
    }
}

/// The response for a tool that has run, with its reply or with what went
/// wrong.
pub fn tool_response(id: &serde_json::Value, tool: Tool, outcome: &Result<String, String>) -> (v:
    serde_json::Value)
    ensures
        json_node(v) == tool_node_response(
            json_node(*id),
            tool,
            match outcome {
                Ok(s) => Ok(s@),
                Err(e) => Err(e@),
            },
        ),
{
    match outcome {
        Ok(text) => result_json(id, text_json(text)),
        Err(e) => {
            let mut message = prefix_of(tool).to_owned();
            message.append(e);
            let code: i32 = match tool {
                Tool::AcquireLease | Tool::ReleaseLease => -32602,
                _ => -32000,
            };
            error_response(id, code, &message)
        },
    }
}

/// What becomes of a request.
pub enum Handled {
    /// It is answered.
    Response(serde_json::Value),
    /// A tool needs the file system before the request can be answered.
    Pending {
        /// The tool.
        tool: Tool,
        /// The identifier of the request.
        id: serde_json::Value,
        /// The arguments of the tool.
        args: serde_json::Value,
    },
}

/// What becomes of a request, and of the leases: `before` are the leases that
/// the request found, `after` those that it leaves.
pub open spec fn handled_as(
    before: Map<Seq<char>, int>,
    request: JsonNode,
    version: Seq<char>,
    after: Map<Seq<char>, int>,
    h: Handled,
) -> bool {
    let id = member_or_null(request, "id"@);
    let args = arguments_of(request);
    match route_of(request) {
        Route::Initialize => after == before && (h matches Handled::Response(v) && json_node(v)
            == result_node(id, server_info(version))),
        Route::ListTools => after == before && (h matches Handled::Response(v) && json_node(v)
            == result_node(
            id,
            JsonNode::Object(no_members().insert("tools"@, JsonNode::Array(tool_nodes()))),
        )),
        Route::Call(Tool::AcquireLease) => h matches Handled::Response(v) && exists|
            outcome: Result<Seq<char>, Seq<char>>,
        | #[trigger]
            acquire_step(before, args, after, outcome) && json_node(v) == tool_node_response(
                id,
                Tool::AcquireLease,
                outcome,
            ),
        Route::Call(Tool::ReleaseLease) => h matches Handled::Response(v) && exists|
            outcome: Result<Seq<char>, Seq<char>>,
        | #[trigger]
            release_step(before, args, after, outcome) && json_node(v) == tool_node_response(
                id,
                Tool::ReleaseLease,
                outcome,
            ),
        Route::Call(t) => after == before && (h matches Handled::Pending { tool, id: i, args: a }
            && tool == t && json_node(i) == id && json_node(a) == args),
        Route::UnknownTool => after == before && (h matches Handled::Response(v) && json_node(v)
            == error_node(id, -32601, "Unknown tool"@)),
        Route::UnknownMethod => after == before && (h matches Handled::Response(v) && json_node(v)
            == error_node(id, -32601, "Method not found"@)),
    }
}

/// MCP server.
pub struct McpServer {
    leases: LeaseManager,
}

impl View for McpServer {
    type V = Map<Seq<char>, int>;

    /// When the lease on each file expires.
    closed spec fn view(&self) -> Map<Seq<char>, int> {
        self.leases@
    }
}

impl McpServer {
    /// A server without leases.
    pub fn new() -> (s: McpServer)
        ensures
            s@ == Map::<Seq<char>, int>::empty(),
    {
        McpServer { leases: LeaseManager::new() }
    }

    /// Acquire an exclusive editing lease on a file for `LEASE_DURATION`.
    /// Returns the user-facing message describing whether the lease was
    /// granted.
    pub fn run_acquire_lease(&mut self, args: &serde_json::Value) -> (r: Result<String, String>)
        ensures
            acquire_step(
                old(self)@,
                json_node(*args),
                final(self)@,
                match r {
                    Ok(s) => Ok(s@),
                    Err(e) => Err(e@),
                },
            ),
    {
        let path = match required_text(args, "file_path") {
            Ok(path) => path,
            Err(e) => return Err(e),
        };
        let result = self.leases.acquire(&path);
        Ok(acquire_reply(&path, result))
    }

    /// Release a previously acquired lease early, freeing the file for other
    /// agents.
    pub fn run_release_lease(&mut self, args: &serde_json::Value) -> (r: Result<String, String>)
        ensures
            release_step(
                old(self)@,
                json_node(*args),
                final(self)@,
                match r {
                    Ok(s) => Ok(s@),
                    Err(e) => Err(e@),
                },
            ),
    {
        let path = match required_text(args, "file_path") {
            Ok(path) => path,
            Err(e) => return Err(e),
        };
        let result = self.leases.release(&path);
        Ok(release_reply(&path, result))
    }

    /// Answers a request, or says which tool needs the file system.
    pub fn handle_request(&mut self, request: &serde_json::Value, version: &str) -> (h: Handled)
        ensures
            handled_as(old(self)@, json_node(*request), version@, final(self)@, h),
    {
        let id = get_or_null(request, "id");
        match route(request) {
            Route::Initialize => Handled::Response(result_json(&id, info_json(version))),
            Route::ListTools => Handled::Response(result_json(&id, list_json())),
            Route::Call(tool) => {
                let params = get_or_null(request, "params");
                let args = get_or_null(&params, "arguments");
                match tool {
                    Tool::AcquireLease => {
                        let outcome = self.run_acquire_lease(&args);
                        Handled::Response(tool_response(&id, tool, &outcome))
                    },
                    Tool::ReleaseLease => {
                        let outcome = self.run_release_lease(&args);
                        Handled::Response(tool_response(&id, tool, &outcome))
                    },
                    _ => Handled::Pending { tool, id, args },
                }
            },
            Route::UnknownTool => Handled::Response(error_response(&id, -32601, "Unknown tool")),
            Route::UnknownMethod => Handled::Response(
                error_response(&id, -32601, "Method not found"),
            ),
        }
    }

    /// Answers a line of input. A line that is not JSON is passed over.
    pub fn handle_line(&mut self, line: &str, version: &str) -> (r: Option<Handled>)
        ensures
            match json_parsed(trimmed(line@)) {
                Some(request) => r matches Some(h) && handled_as(
                    old(self)@,
                    request,
                    version@,
                    final(self)@,
                    h,
                ),
                None => r is None && final(self)@ == old(self)@,
            },
    {
        match parse_json(&trim(line)) {
            Ok(request) => Some(self.handle_request(&request, version)),
            Err(_) => None,
        }
    }
}

/// The line of output for a response. It ends with its only line feed; where
/// the response holds no fraction and is not too deep, the rest of the line
/// reads as the response again.
pub fn response_line(response: &serde_json::Value) -> (s: String)
    ensures
        s@ == json_compact(json_node(*response)).push('\n'),
        forall|i: int| 0 <= i < s@.len() - 1 ==> #[trigger] s@[i] != '\n',
        plain_json(json_node(*response), 100) ==> json_parsed(s@.drop_last()) == Some(
            json_node(*response),
        ),
{
    match print_json_line(response) {
        Ok(mut s) => {
            let ghost text = s@;
            s.push('\n');
            assert(s@.drop_last() =~= text);
            assert forall|i: int| 0 <= i < s@.len() - 1 implies #[trigger] s@[i] != '\n' by {
                assert(text[i] == s@[i]);
                assert(text.contains(text[i]));
            }
            s
        },
        Err(_) => String::new(),
    }
}

// ---------------------------------------------------------------------------
// Laws
// ---------------------------------------------------------------------------

proof fn lemma_response_keys()
    ensures
        "id"@ != "jsonrpc"@ && "id"@ != "result"@ && "id"@ != "error"@,
        "result"@ != "jsonrpc"@ && "error"@ != "jsonrpc"@ && "result"@ != "error"@,
{
    reveal_strlit("id");
    reveal_strlit("result");
    reveal_strlit("error");
    reveal_strlit("jsonrpc");
    assert("id"@.len() == 2 && "result"@.len() == 6 && "error"@.len() == 5 && "jsonrpc"@.len()
        == 7);
}

/// The response for a tool that has run carries the identifier of the request,
/// and it is either a result or an error.
pub proof fn law_response_carries_id(
    id: JsonNode,
    tool: Tool,
    outcome: Result<Seq<char>, Seq<char>>,
)
    ensures
        member(tool_node_response(id, tool, outcome), "id"@) == Some(id),
        member(tool_node_response(id, tool, outcome), "result"@) is Some <==> outcome is Ok,
        member(tool_node_response(id, tool, outcome), "error"@) is Some <==> outcome is Err,
{
    lemma_response_keys();
}

/// Every request is answered under its own identifier, or kept pending under
/// it.
pub proof fn law_every_request_is_answered_under_its_id(
    before: Map<Seq<char>, int>,
    request: JsonNode,
    version: Seq<char>,
    after: Map<Seq<char>, int>,
    h: Handled,
)
    requires
        handled_as(before, request, version, after, h),
    ensures
        match h {
            Handled::Response(v) => member(json_node(v), "id"@) == Some(
                member_or_null(request, "id"@),
            ),
            Handled::Pending { tool, id, args } => json_node(id) == member_or_null(request, "id"@),
        },
{
    lemma_response_keys();
}

/// Only the tools for leases touch them: every other request leaves them as
/// they were.
pub proof fn law_only_lease_tools_touch_leases(
    before: Map<Seq<char>, int>,
    request: JsonNode,
    version: Seq<char>,
    after: Map<Seq<char>, int>,
    h: Handled,
)
    requires
        handled_as(before, request, version, after, h),
        route_of(request) != Route::Call(Tool::AcquireLease),
        route_of(request) != Route::Call(Tool::ReleaseLease),
    ensures
        after == before,
{
}

} // verus!
