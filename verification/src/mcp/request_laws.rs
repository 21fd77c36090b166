//! What a request must hold, and what its answer holds.
use vstd::prelude::*;
use vstd::string::*;

use super::lease::{acquired, released, time_after, AcquireResult, ReleaseResult};
use super::params::{change_param, cycles_param, forbidden_param, limit_param};
use super::rule_reply::{add_request, add_step, remove_request, remove_step, rule_reply};
use super::server::{
    acquire_step, acquire_text, handled_as, release_step, release_text, tool_node_response,
    Handled, Tool,
};
use super::tools::{property_entries, property_node, tool_node, tool_nodes};
use crate::json::{json_node, JsonNode};
use crate::paths::canonical;
use crate::rules::config::arrow_pair;
use crate::rules::edit::{text_added, text_removed, AdditionView, RemovalOutcome, RemovalView};
use crate::scanner::file_scanner::path_language;

verus! {

/// Whether the entry is there and is a text.
pub open spec fn has_text_entry(args: JsonNode, key: Seq<char>) -> bool {
    args matches JsonNode::Object(m) && m.contains_key(key) && m[key] is Text
}

/// A change is understood exactly where it names the project, the file and the
/// new content, and it is then just these, in the language of the file.
pub proof fn law_changes_name_all_three(args: JsonNode)
    ensures
        change_param(args) is Ok <==> has_text_entry(args, "project_path"@) && has_text_entry(
            args,
            "file_path"@,
        ) && has_text_entry(args, "new_content"@),
        change_param(args) matches Ok(c) ==> {
            let m = args->Object_0;
            &&& m["project_path"@] == JsonNode::Text(c.root)
            &&& m["file_path"@] == JsonNode::Text(c.target)
            &&& m["new_content"@] == JsonNode::Text(c.new_content)
            &&& c.language == path_language(c.target)
        },
{
}

/// A rule is asked for in a project by its type; without either the request is
/// not understood, and otherwise the project is the one that it names.
pub proof fn law_rule_requests_name_the_project(args: JsonNode)
    ensures
        !(has_text_entry(args, "project_path"@) && has_text_entry(args, "rule_type"@))
            ==> add_request(args) is Err && remove_request(args) is Err,
        add_request(args) matches Ok((path, _)) ==> args->Object_0["project_path"@]
            == JsonNode::Text(path),
        remove_request(args) matches Ok((path, _)) ==> args->Object_0["project_path"@]
            == JsonNode::Text(path),
{
}

/// An addition is written where it can be made. A removal is written exactly
/// where it takes something away: nothing is written without a rules file, or
/// where the rule was not there.
pub proof fn law_only_changes_are_written(
    project: Seq<char>,
    addition: AdditionView,
    removal: RemovalView,
    existing: Seq<char>,
)
    ensures
        match text_added(existing, addition) {
            Ok(text) => add_step(project, addition, existing) matches Ok(step) && step.write
                == Some(text),
            Err(_) => add_step(project, addition, existing) is Err,
        },
        remove_step(project, removal, None) matches Ok(step) && step.write is None,
        match text_removed(existing, removal) {
            Ok((text, RemovalOutcome::Removed)) => remove_step(
                project,
                removal,
                Some(existing),
            ) matches Ok(step) && step.write == Some(text),
            Ok((_, RemovalOutcome::NotPresent)) => remove_step(
                project,
                removal,
                Some(existing),
            ) matches Ok(step) && step.write is None,
            Err(_) => remove_step(project, removal, Some(existing)) is Err,
        },
{
}

/// The reply to a rule request ends with the outcome of the scan, whole.
pub proof fn law_rule_reply_ends_with_the_scan(head: Seq<char>, scan: Seq<char>)
    ensures
        rule_reply(head, Ok(scan)) == head + scan,
        rule_reply(head, Err(scan)).len() > head.len() + scan.len(),
        rule_reply(head, Err(scan)).subrange(0, head.len() as int) == head,
{
    reveal_strlit("(re-scan failed: ");
    let all = rule_reply(head, Err(scan));
    assert(all.subrange(0, head.len() as int) =~= head);
}

/// A reply carries the text of the outcome, or an error with a code: that of a
/// wrong parameter for the lease tools, and the server's own for the others.
pub proof fn law_outcomes_become_replies(id: JsonNode, tool: Tool, text: Seq<char>)
    ensures
        ({
            let good = tool_node_response(id, tool, Ok(text))->Object_0;
            let bad = tool_node_response(id, tool, Err(text))->Object_0;
            let content = good["result"@]->Object_0["content"@]->Array_0;
            &&& good["jsonrpc"@] == JsonNode::Text("2.0"@)
            &&& bad["jsonrpc"@] == JsonNode::Text("2.0"@)
            &&& content.len() == 1
            &&& content[0]->Object_0["type"@] == JsonNode::Text("text"@)
            &&& content[0]->Object_0["text"@] == JsonNode::Text(text)
            &&& bad["error"@]->Object_0["code"@] == JsonNode::Integer(
                if tool == Tool::AcquireLease || tool == Tool::ReleaseLease {
                    -32602
                } else {
                    -32000
                },
            )
            &&& bad["error"@]->Object_0["message"@] matches JsonNode::Text(m) && m.len()
                > text.len() && m.subrange(m.len() - text.len(), m.len() as int) == text
        }),
{
    reveal_strlit("jsonrpc");
    reveal_strlit("id");
    reveal_strlit("result");
    reveal_strlit("error");
    reveal_strlit("code");
    reveal_strlit("message");
    reveal_strlit("type");
    reveal_strlit("text");
    assert("jsonrpc"@.len() == 7 && "id"@.len() == 2 && "result"@.len() == 6 && "error"@.len()
        == 5 && "code"@.len() == 4 && "message"@.len() == 7);
    assert("type"@[1] == 'y' && "text"@[1] == 'e');
    reveal_strlit("acquire_lease failed: ");
    reveal_strlit("release_lease failed: ");
    reveal_strlit("scan failed: ");
    reveal_strlit("add_rule failed: ");
    reveal_strlit("remove_rule failed: ");
    reveal_strlit("check_change failed: ");
    reveal_strlit("apply_guarded_change failed: ");
    let m = tool_node_response(
        id,
        tool,
        Err(text),
    )->Object_0["error"@]->Object_0["message"@]->Text_0;
    assert(m.subrange(m.len() - text.len(), m.len() as int) =~= text);
}

/// An answer on a lease tells whether it was granted: it begins otherwise than a
/// denial. The same holds of the three answers on a release.
pub proof fn law_lease_answers_differ(path: Seq<char>, expires_in: u64, remaining: u128)
    ensures
        acquire_text(path, AcquireResult::Granted { expires_in })[0] == 'L',
        acquire_text(path, AcquireResult::Denied { remaining })[0] == 'A',
        release_text(path, ReleaseResult::Released)[1] == 'E',
        release_text(path, ReleaseResult::AlreadyExpired)[1] == 'e',
        release_text(path, ReleaseResult::NotHeld)[1] == 'o',
{
    reveal_strlit("LEASE GRANTED: ");
    reveal_strlit(
        "Access Denied: File is currently being modified by another agent.\nFile: ",
    );
    reveal_strlit("LEASE RELEASED: ");
    reveal_strlit("Lease on ");
    reveal_strlit("No active lease on ");
}

/// A lease that is granted locks the file for the whole lease from the time of
/// the call, and no other file; one that is refused leaves all as it was.
pub proof fn law_a_lease_call_touches_one_file(
    leases: Map<Seq<char>, int>,
    path: Seq<char>,
    now: u64,
    other: Seq<char>,
)
    requires
        other != canonical(path),
    ensures
        acquired(leases, path, now).1 is Granted <==> !(leases.contains_key(canonical(path))
            && leases[canonical(path)] > now),
        acquired(leases, path, now).1 is Granted ==> acquired(
            leases,
            path,
            now,
        ).0[canonical(path)] == now + 300_000_000_000,
        acquired(leases, path, now).0.contains_key(other) == leases.contains_key(other),
        leases.contains_key(other) ==> acquired(leases, path, now).0[other] == leases[other],
        released(leases, path, now).0.contains_key(other) == leases.contains_key(other),
        leases.contains_key(other) ==> released(leases, path, now).0[other] == leases[other],
        !released(leases, path, now).0.contains_key(canonical(path)),
{
}

/// The clock stops at the last time that can be told and is exact before it.
pub proof fn law_clock_is_exact(nanos: u128)
    ensures
        nanos <= 0xffff_ffff_ffff_ffff ==> time_after(nanos) == nanos,
        nanos > 0xffff_ffff_ffff_ffff ==> time_after(nanos) == 0xffff_ffff_ffff_ffff,
{
}

/// A tool that is listed describes each of its arguments and requires each of
/// them, however many it has.
pub proof fn law_tools_describe_every_argument(
    name: Seq<char>,
    description: Seq<char>,
    p: Seq<(Seq<char>, Seq<char>, Seq<char>)>,
    i: int,
)
    requires
        0 <= i < p.len(),
        forall|j: int| i < j < p.len() ==> (#[trigger] p[j]).0 != p[i].0,
    ensures
        ({
            let tool = tool_node(name, description, p)->Object_0;
            let schema = tool["inputSchema"@]->Object_0;
            let property = schema["properties"@]->Object_0[p[i].0]->Object_0;
            &&& tool["name"@] == JsonNode::Text(name)
            &&& tool["description"@] == JsonNode::Text(description)
            &&& schema["type"@] == JsonNode::Text("object"@)
            &&& schema["required"@]->Array_0.len() == p.len()
            &&& schema["required"@]->Array_0[i] == JsonNode::Text(p[i].0)
            &&& schema["properties"@]->Object_0.contains_key(p[i].0)
            &&& property["type"@] == JsonNode::Text(p[i].1)
            &&& property["description"@] == JsonNode::Text(p[i].2)
        }),
{
    reveal_strlit("name");
    reveal_strlit("description");
    reveal_strlit("inputSchema");
    reveal_strlit("type");
    reveal_strlit("properties");
    reveal_strlit("required");
    assert("name"@.len() == 4 && "description"@[0] == 'd' && "inputSchema"@[0] == 'i'
        && "name"@[0] == 'n');
    assert("type"@[0] == 't' && "properties"@[0] == 'p' && "required"@[0] == 'r');
    lemma_property(p, i, p.len() as int);
}

proof fn lemma_property(p: Seq<(Seq<char>, Seq<char>, Seq<char>)>, i: int, n: int)
    requires
        0 <= i < n <= p.len(),
        forall|j: int| i < j < p.len() ==> (#[trigger] p[j]).0 != p[i].0,
    ensures
        property_entries(p, n).contains_key(p[i].0),
        property_entries(p, n)[p[i].0] == property_node(p[i]),
    decreases n,
{
    if n - 1 > i {
        assert(p[n - 1].0 != p[i].0);
        lemma_property(p, i, n - 1);
    }
}

/// A request is answered by its method: the first call with the name and version
/// of the server, the list with every tool, and a method or a tool that is not
/// known with an error. None of these touches a lease.
pub proof fn law_methods_are_told_apart(
    before: Map<Seq<char>, int>,
    request: Map<Seq<char>, JsonNode>,
    method: Seq<char>,
    version: Seq<char>,
    after: Map<Seq<char>, int>,
    h: Handled,
)
    requires
        request.contains_key("method"@) && request["method"@] == JsonNode::Text(method),
        method != "tools/call"@,
        handled_as(before, JsonNode::Object(request), version, after, h),
    ensures
        after == before,
        h matches Handled::Response(v) && {
            let reply = json_node(v)->Object_0;
            &&& request.contains_key("id"@) ==> reply["id"@] == request["id"@]
            &&& method == "initialize"@ ==> {
                let info = reply["result"@]->Object_0;
                &&& info["serverInfo"@]->Object_0["name"@] == JsonNode::Text("aetherlink"@)
                &&& info["serverInfo"@]->Object_0["version"@] == JsonNode::Text(version)
                &&& info["protocolVersion"@] == JsonNode::Text("2024-11-05"@)
                &&& info["capabilities"@]->Object_0.contains_key("tools"@)
            }
            &&& method == "tools/list"@ ==> reply["result"@]->Object_0["tools"@]
                == JsonNode::Array(tool_nodes())
            &&& method != "initialize"@ && method != "tools/list"@
                ==> reply["error"@]->Object_0["code"@] == JsonNode::Integer(-32601)
        },
{
    reveal_strlit("initialize");
    reveal_strlit("tools/list");
    assert("initialize"@[0] == 'i' && "tools/list"@[0] == 't');
    reveal_strlit("jsonrpc");
    reveal_strlit("id");
    reveal_strlit("result");
    reveal_strlit("error");
    reveal_strlit("code");
    reveal_strlit("message");
    assert("jsonrpc"@.len() == 7 && "id"@.len() == 2 && "result"@.len() == 6 && "error"@.len()
        == 5 && "code"@.len() == 4 && "message"@.len() == 7);
    reveal_strlit("protocolVersion");
    reveal_strlit("capabilities");
    reveal_strlit("serverInfo");
    reveal_strlit("name");
    reveal_strlit("version");
    assert("protocolVersion"@.len() == 15 && "capabilities"@.len() == 12 && "serverInfo"@.len()
        == 10 && "name"@.len() == 4 && "version"@.len() == 7);
}

/// A call for a lease changes nothing but the lease on the file that it names,
/// and nothing at all where it names none.
pub proof fn law_lease_calls_go_by_their_argument(
    before: Map<Seq<char>, int>,
    args: JsonNode,
    after: Map<Seq<char>, int>,
    outcome: Result<Seq<char>, Seq<char>>,
    other: Seq<char>,
)
    requires
        acquire_step(before, args, after, outcome) || release_step(before, args, after, outcome),
    ensures
        outcome is Ok <==> has_text_entry(args, "file_path"@),
        outcome is Err ==> after == before,
        outcome is Ok && other != canonical(args->Object_0["file_path"@]->Text_0)
            ==> after.contains_key(other) == before.contains_key(other) && (before.contains_key(
            other,
        ) ==> after[other] == before[other]),
{
}

/// A forbidden import may be given as its text, alone or under its name; it is
/// then the rule that the text writes down, and no rule where it writes none.
pub proof fn law_arrow_texts_are_rules(params: Map<Seq<char>, JsonNode>, text: Seq<char>)
    requires
        params.contains_key("rule"@),
        params["rule"@] == JsonNode::Text(text),
    ensures
        arrow_pair(text) matches Ok(pair) ==> forbidden_param(JsonNode::Text(text)) == Ok::<
            (Seq<char>, Seq<char>),
            Seq<char>,
        >(pair) && forbidden_param(JsonNode::Object(params)) == Ok::<
            (Seq<char>, Seq<char>),
            Seq<char>,
        >(pair),
        arrow_pair(text) is Err ==> forbidden_param(JsonNode::Text(text)) is Err
            && forbidden_param(JsonNode::Object(params)) is Err,
{
}

/// Of several names for a line limit the first counts, and of two for a switch.
pub proof fn law_first_name_of_a_parameter_counts(
    params: Map<Seq<char>, JsonNode>,
    n: i64,
    b: bool,
)
    ensures
        params.contains_key("value"@) && params["value"@] == JsonNode::Integer(n as int)
            ==> limit_param(JsonNode::Object(params)) == Some(n),
        params.contains_key("enabled"@) && params["enabled"@] == JsonNode::Bool(b) ==> cycles_param(
            JsonNode::Object(params),
        ) == Some(b),
        limit_param(JsonNode::Object(params)) matches Some(m) ==> params.contains_value(
            JsonNode::Integer(m as int),
        ),
        cycles_param(JsonNode::Object(params)) matches Some(c) ==> params.contains_value(
            JsonNode::Bool(c),
        ),
{
    if limit_param(JsonNode::Object(params)) is Some {
        let m = limit_param(JsonNode::Object(params))->0;
        let node = JsonNode::Integer(m as int);
        assert(exists|k: Seq<char>| #[trigger] params.dom().contains(k) && params[k] == node) by {
            if params.contains_key("value"@) && params["value"@] == node {
                assert(params.dom().contains("value"@));
            } else if params.contains_key("max"@) && params["max"@] == node {
                assert(params.dom().contains("max"@));
            } else {
                assert(params.dom().contains("limit"@));
            }
        }
    }
    if cycles_param(JsonNode::Object(params)) is Some {
        let node = JsonNode::Bool(cycles_param(JsonNode::Object(params))->0);
        assert(exists|k: Seq<char>| #[trigger] params.dom().contains(k) && params[k] == node) by {
            if params.contains_key("enabled"@) && params["enabled"@] == node {
                assert(params.dom().contains("enabled"@));
            } else {
                assert(params.dom().contains("value"@));
            }
        }
    }
}

} // verus!
