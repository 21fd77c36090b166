//! The tools that the server offers, as it lists them.
use vstd::prelude::*;

use crate::json::{
    json_array, json_entries, json_node, json_nodes, json_object, json_text, no_members, put,
    JsonNode,
};

verus! {

/// A parameter of a tool.
#[derive(Clone, Copy)]
pub struct Property {
    /// Its name.
    pub name: &'static str,
    /// Its JSON type.
    pub kind: &'static str,
    /// What it is for.
    pub description: &'static str,
}

impl View for Property {
    type V = (Seq<char>, Seq<char>, Seq<char>);

    open spec fn view(&self) -> (Seq<char>, Seq<char>, Seq<char>) {
        (self.name@, self.kind@, self.description@)
    }
}

/// The views of a sequence of parameters.
pub open spec fn properties_view(v: Seq<Property>) -> Seq<(Seq<char>, Seq<char>, Seq<char>)> {
    Seq::new(v.len(), |i: int| v[i]@)
}

/// A parameter as JSON.
pub open spec fn property_node(p: (Seq<char>, Seq<char>, Seq<char>)) -> JsonNode {
    JsonNode::Object(
        no_members().insert("type"@, JsonNode::Text(p.1)).insert(
            "description"@,
            JsonNode::Text(p.2),
        ),
    )
}

/// The first `n` parameters as the entries of a JSON object.
pub open spec fn property_entries(p: Seq<(Seq<char>, Seq<char>, Seq<char>)>, n: int) -> Map<
    Seq<char>,
    JsonNode,
>
    decreases n,
{
    if n <= 0 {
        no_members()
    } else {
        property_entries(p, n - 1).insert(p[n - 1].0, property_node(p[n - 1]))
    }
}

/// A tool as JSON. All of its parameters are required.
pub open spec fn tool_node(
    name: Seq<char>,
    description: Seq<char>,
    p: Seq<(Seq<char>, Seq<char>, Seq<char>)>,
) -> JsonNode {
    JsonNode::Object(
        no_members().insert("name"@, JsonNode::Text(name)).insert(
            "description"@,
            JsonNode::Text(description),
        ).insert(
            "inputSchema"@,
            JsonNode::Object(
                no_members().insert("type"@, JsonNode::Text("object"@)).insert(
                    "properties"@,
                    JsonNode::Object(property_entries(p, p.len() as int)),
                ).insert(
                    "required"@,
                    JsonNode::Array(Seq::new(p.len(), |i: int| JsonNode::Text(p[i].0))),
                ),
            ),
        ),
    )
}

/// The tool `scan_project`.
pub open spec fn scan_project_tool() -> JsonNode {
    tool_node(
        "scan_project"@,
        "Scan the project directory and build a dependency graph"@,
        seq![
            ("path"@, "string"@, "Root directory of the project to scan"@),
        ],
    )
}

/// The tool `acquire_lease`.
pub open spec fn acquire_lease_tool() -> JsonNode {
    tool_node(
        "acquire_lease"@,
        "Acquire an exclusive 5-minute editing lease on a file. Returns 'Access Denied' if another agent already holds the lease. Use this before modifying any file to prevent merge conflicts between concurrent agents."@,
        seq![
            ("file_path"@, "string"@, "Absolute path of the file you intend to modify"@),
        ],
    )
}

/// The tool `release_lease`.
pub open spec fn release_lease_tool() -> JsonNode {
    tool_node(
        "release_lease"@,
        "Release an active editing lease early so other agents don't have to wait for the 5-minute timeout. Call this as soon as you finish editing a file."@,
        seq![
            ("file_path"@, "string"@, "Absolute path of the file whose lease should be released"@),
        ],
    )
}

/// The tool `add_rule`.
pub open spec fn add_rule_tool() -> JsonNode {
    tool_node(
        "add_rule"@,
        "Add a new architectural rule to the project's AetherLink.toml and immediately re-scan to surface any code that already violates it. Use this when the user says 'add a rule for X' or 'enforce X'. Supported rule_type values: 'forbidden_import' (params: {from, to} OR {rule: 'ui -> db'}), 'line_limit' / 'max_file_lines' (params: {value: 500}), 'no_cycles' (params: {enabled: true}). The AetherLink.toml is created if it does not exist; existing rules are preserved."@,
        seq![
            ("project_path"@, "string"@, "Root directory of the project where AetherLink.toml lives or should be created"@),
            ("rule_type"@, "string"@, "One of: forbidden_import, line_limit, max_file_lines, no_cycles"@),
            ("params"@, "object"@, "Rule-specific parameters. forbidden_import: {from, to} or {rule}. line_limit: {value}. no_cycles: {enabled}."@),
        ],
    )
}

/// The tool `remove_rule`.
pub open spec fn remove_rule_tool() -> JsonNode {
    tool_node(
        "remove_rule"@,
        "Remove an architectural rule from AetherLink.toml and immediately re-scan so the tray icon flips back to green if the project is now clean. Use this when the user says 'remove the X rule', 'stop enforcing X', or 'allow X again'. Supported rule_type values: 'forbidden_import' (params: {from, to} OR {rule: 'ui -> db'}) — removes only the matching entry from the array, leaving other forbidden imports alone; 'line_limit' / 'max_file_lines' — drops the line entirely (params can be empty {}); 'no_cycles' — drops the line entirely. Removing a rule that isn't set is a safe no-op."@,
        seq![
            ("project_path"@, "string"@, "Root directory of the project where AetherLink.toml lives"@),
            ("rule_type"@, "string"@, "One of: forbidden_import, line_limit, max_file_lines, no_cycles"@),
            ("params"@, "object"@, "For forbidden_import: {from, to} or {rule}. For line_limit and no_cycles: {} (no params needed)."@),
        ],
    )
}

/// The tool `apply_guarded_change`.
pub open spec fn apply_guarded_change_tool() -> JsonNode {
    tool_node(
        "apply_guarded_change"@,
        "**THIS IS THE ONLY WAY TO SAVE FILES IN A PROJECT GUARDED BY AETHERLINK.** Validate a proposed file edit and, IF AND ONLY IF every architectural rule passes, write it to disk atomically in the same call. There is no gap between the check and the write — a stale check_change result cannot be silently bypassed. Pass the project root, the file path being changed, and the full proposed new contents. Returns either 'APPLIED' (the file was written) or 'WRITE BLOCKED' (the file was NOT written and the on-disk project is unchanged). DO NOT use any other file-writing tool to modify files in this project — bypass attempts leave the project in an inconsistent state and defeat the entire purpose of AetherLink."@,
        seq![
            ("project_path"@, "string"@, "Root directory of the project (where AetherLink.toml lives)"@),
            ("file_path"@, "string"@, "Absolute path of the file to write"@),
            ("new_content"@, "string"@, "The full proposed new contents of the file"@),
        ],
    )
}

/// The tool `check_change`.
pub open spec fn check_change_tool() -> JsonNode {
    tool_node(
        "check_change"@,
        "Dry-run validator for a proposed file edit — does NOT write to disk. Useful when an agent wants to ask 'would this be legal?' without committing. To actually save a file, use `apply_guarded_change` instead, which validates and writes atomically. Pass the project root, file path, and full proposed contents. Returns APPROVED or WRITE BLOCKED with violations."@,
        seq![
            ("project_path"@, "string"@, "Root directory of the project (where AetherLink.toml lives)"@),
            ("file_path"@, "string"@, "Absolute path of the file being created or modified"@),
            ("new_content"@, "string"@, "The full proposed new contents of the file"@),
        ],
    )
}

/// The tools, in the order in which they are listed.
pub open spec fn tool_nodes() -> Seq<JsonNode> {
    seq![
        scan_project_tool(),
        acquire_lease_tool(),
        release_lease_tool(),
        add_rule_tool(),
        remove_rule_tool(),
        apply_guarded_change_tool(),
        check_change_tool(),
    ]
}

fn property_json(p: &Property) -> (v: serde_json::Value)
    ensures
        json_node(v) == property_node(p@),
{
    let mut m = serde_json::Map::new();
    put(&mut m, "type", json_text(p.kind));
    put(&mut m, "description", json_text(p.description));
    json_object(m)
}

fn tool_json(name: &str, description: &str, p: &Vec<Property>) -> (v: serde_json::Value)
    ensures
        json_node(v) == tool_node(name@, description@, properties_view(p@)),
{
    let ghost all = properties_view(p@);
    let mut properties = serde_json::Map::new();
    let mut required: Vec<serde_json::Value> = Vec::new();
    let mut i: usize = 0;
    while i < p.len()
        invariant
            i <= p@.len(),
            all == properties_view(p@),
            json_entries(properties) == property_entries(all, i as int),
            required@.len() == i,
            forall|k: int|
                0 <= k < i ==> json_node(#[trigger] required@[k]) == JsonNode::Text(all[k].0),
        decreases p.len() - i,
    {
        assert(all[i as int] == p@[i as int]@);
        put(&mut properties, p[i].name, property_json(&p[i]));
        required.push(json_text(p[i].name));
        i += 1;
    }
    assert(json_nodes(required@) =~= Seq::new(all.len(), |i: int| JsonNode::Text(all[i].0)));
    let mut schema = serde_json::Map::new();
    put(&mut schema, "type", json_text("object"));
    put(&mut schema, "properties", json_object(properties));
    put(&mut schema, "required", json_array(required));
    let mut m = serde_json::Map::new();
    put(&mut m, "name", json_text(name));
    put(&mut m, "description", json_text(description));
    put(&mut m, "inputSchema", json_object(schema));
    json_object(m)
}

fn scan_project_json() -> (v: serde_json::Value)
    ensures
        json_node(v) == scan_project_tool(),
{
    let mut p: Vec<Property> = Vec::new();
    p.push(
        Property {
            name: "path",
            kind: "string",
            description: "Root directory of the project to scan",
        },
    );
    assert(properties_view(p@) =~= seq![
        ("path"@, "string"@, "Root directory of the project to scan"@),
    ]);
    tool_json(
        "scan_project",
        "Scan the project directory and build a dependency graph",
        &p,
    )
}

fn acquire_lease_json() -> (v: serde_json::Value)
    ensures
        json_node(v) == acquire_lease_tool(),
{
    let mut p: Vec<Property> = Vec::new();
    p.push(
        Property {
            name: "file_path",
            kind: "string",
            description: "Absolute path of the file you intend to modify",
        },
    );
    assert(properties_view(p@) =~= seq![
        ("file_path"@, "string"@, "Absolute path of the file you intend to modify"@),
    ]);
    tool_json(
        "acquire_lease",
        "Acquire an exclusive 5-minute editing lease on a file. Returns 'Access Denied' if another agent already holds the lease. Use this before modifying any file to prevent merge conflicts between concurrent agents.",
        &p,
    )
}

fn release_lease_json() -> (v: serde_json::Value)
    ensures
        json_node(v) == release_lease_tool(),
{
    let mut p: Vec<Property> = Vec::new();
    p.push(
        Property {
            name: "file_path",
            kind: "string",
            description: "Absolute path of the file whose lease should be released",
        },
    );
    assert(properties_view(p@) =~= seq![
        ("file_path"@, "string"@, "Absolute path of the file whose lease should be released"@),
    ]);
    tool_json(
        "release_lease",
        "Release an active editing lease early so other agents don't have to wait for the 5-minute timeout. Call this as soon as you finish editing a file.",
        &p,
    )
}

fn add_rule_json() -> (v: serde_json::Value)
    ensures
        json_node(v) == add_rule_tool(),
{
    let mut p: Vec<Property> = Vec::new();
    p.push(
        Property {
            name: "project_path",
            kind: "string",
            description: "Root directory of the project where AetherLink.toml lives or should be created",
        },
    );
    p.push(
        Property {
            name: "rule_type",
            kind: "string",
            description: "One of: forbidden_import, line_limit, max_file_lines, no_cycles",
        },
    );
    p.push(
        Property {
            name: "params",
            kind: "object",
            description: "Rule-specific parameters. forbidden_import: {from, to} or {rule}. line_limit: {value}. no_cycles: {enabled}.",
        },
    );
    assert(properties_view(p@) =~= seq![
        ("project_path"@, "string"@, "Root directory of the project where AetherLink.toml lives or should be created"@),
        ("rule_type"@, "string"@, "One of: forbidden_import, line_limit, max_file_lines, no_cycles"@),
        ("params"@, "object"@, "Rule-specific parameters. forbidden_import: {from, to} or {rule}. line_limit: {value}. no_cycles: {enabled}."@),
    ]);
    tool_json(
        "add_rule",
        "Add a new architectural rule to the project's AetherLink.toml and immediately re-scan to surface any code that already violates it. Use this when the user says 'add a rule for X' or 'enforce X'. Supported rule_type values: 'forbidden_import' (params: {from, to} OR {rule: 'ui -> db'}), 'line_limit' / 'max_file_lines' (params: {value: 500}), 'no_cycles' (params: {enabled: true}). The AetherLink.toml is created if it does not exist; existing rules are preserved.",
        &p,
    )
}

fn remove_rule_json() -> (v: serde_json::Value)
    ensures
        json_node(v) == remove_rule_tool(),
{
    let mut p: Vec<Property> = Vec::new();
    p.push(
        Property {
            name: "project_path",
            kind: "string",
            description: "Root directory of the project where AetherLink.toml lives",
        },
    );
    p.push(
        Property {
            name: "rule_type",
            kind: "string",
            description: "One of: forbidden_import, line_limit, max_file_lines, no_cycles",
        },
    );
    p.push(
        Property {
            name: "params",
            kind: "object",
            description: "For forbidden_import: {from, to} or {rule}. For line_limit and no_cycles: {} (no params needed).",
        },
    );
    assert(properties_view(p@) =~= seq![
        ("project_path"@, "string"@, "Root directory of the project where AetherLink.toml lives"@),
        ("rule_type"@, "string"@, "One of: forbidden_import, line_limit, max_file_lines, no_cycles"@),
        ("params"@, "object"@, "For forbidden_import: {from, to} or {rule}. For line_limit and no_cycles: {} (no params needed)."@),
    ]);
    tool_json(
        "remove_rule",
        "Remove an architectural rule from AetherLink.toml and immediately re-scan so the tray icon flips back to green if the project is now clean. Use this when the user says 'remove the X rule', 'stop enforcing X', or 'allow X again'. Supported rule_type values: 'forbidden_import' (params: {from, to} OR {rule: 'ui -> db'}) — removes only the matching entry from the array, leaving other forbidden imports alone; 'line_limit' / 'max_file_lines' — drops the line entirely (params can be empty {}); 'no_cycles' — drops the line entirely. Removing a rule that isn't set is a safe no-op.",
        &p,
    )
}

fn apply_guarded_change_json() -> (v: serde_json::Value)
    ensures
        json_node(v) == apply_guarded_change_tool(),
{
    let mut p: Vec<Property> = Vec::new();
    p.push(
        Property {
            name: "project_path",
            kind: "string",
            description: "Root directory of the project (where AetherLink.toml lives)",
        },
    );
    p.push(
        Property {
            name: "file_path",
            kind: "string",
            description: "Absolute path of the file to write",
        },
    );
    p.push(
        Property {
            name: "new_content",
            kind: "string",
            description: "The full proposed new contents of the file",
        },
    );
    assert(properties_view(p@) =~= seq![
        ("project_path"@, "string"@, "Root directory of the project (where AetherLink.toml lives)"@),
        ("file_path"@, "string"@, "Absolute path of the file to write"@),
        ("new_content"@, "string"@, "The full proposed new contents of the file"@),
    ]);
    tool_json(
        "apply_guarded_change",
        "**THIS IS THE ONLY WAY TO SAVE FILES IN A PROJECT GUARDED BY AETHERLINK.** Validate a proposed file edit and, IF AND ONLY IF every architectural rule passes, write it to disk atomically in the same call. There is no gap between the check and the write — a stale check_change result cannot be silently bypassed. Pass the project root, the file path being changed, and the full proposed new contents. Returns either 'APPLIED' (the file was written) or 'WRITE BLOCKED' (the file was NOT written and the on-disk project is unchanged). DO NOT use any other file-writing tool to modify files in this project — bypass attempts leave the project in an inconsistent state and defeat the entire purpose of AetherLink.",
        &p,
    )
}

fn check_change_json() -> (v: serde_json::Value)
    ensures
        json_node(v) == check_change_tool(),
{
    let mut p: Vec<Property> = Vec::new();
    p.push(
        Property {
            name: "project_path",
            kind: "string",
            description: "Root directory of the project (where AetherLink.toml lives)",
        },
    );
    p.push(
        Property {
            name: "file_path",
            kind: "string",
            description: "Absolute path of the file being created or modified",
        },
    );
    p.push(
        Property {
            name: "new_content",
            kind: "string",
            description: "The full proposed new contents of the file",
        },
    );
    assert(properties_view(p@) =~= seq![
        ("project_path"@, "string"@, "Root directory of the project (where AetherLink.toml lives)"@),
        ("file_path"@, "string"@, "Absolute path of the file being created or modified"@),
        ("new_content"@, "string"@, "The full proposed new contents of the file"@),
    ]);
    tool_json(
        "check_change",
        "Dry-run validator for a proposed file edit — does NOT write to disk. Useful when an agent wants to ask 'would this be legal?' without committing. To actually save a file, use `apply_guarded_change` instead, which validates and writes atomically. Pass the project root, file path, and full proposed contents. Returns APPROVED or WRITE BLOCKED with violations.",
        &p,
    )
}

/// The tools, in the order in which they are listed.
pub fn tools_json() -> (v: serde_json::Value)
    ensures
        json_node(v) == JsonNode::Array(tool_nodes()),
{
    let mut list: Vec<serde_json::Value> = Vec::new();
    list.push(scan_project_json());
    list.push(acquire_lease_json());
    list.push(release_lease_json());
    list.push(add_rule_json());
    list.push(remove_rule_json());
    list.push(apply_guarded_change_json());
    list.push(check_change_json());
    assert(json_nodes(list@) =~= tool_nodes());
    json_array(list)
}

} // verus!
