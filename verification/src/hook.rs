//! The `PreToolUse` hook: whether a tool call that writes a file may run.
//!
//! The harness invokes the hook before a tool runs, with the name and the
//! arguments of the call. The hook allows the call (exit code 0) or blocks it
//! (exit code 2, with the reason on the error stream). Whatever cannot be
//! understood is allowed.
use vstd::prelude::*;
use vstd::string::*;

use crate::change::{edited, evaluate_content, evaluation, graph_fits, patched};
use crate::disk::{DiskSnapshot, DiskView};
use crate::json::{
    bool_of, get_bool, get_text, get_text_or_empty, json_get, json_node, json_nodes, json_null,
    json_parsed, member, member_text, member_text_or_empty, parse_json, JsonNode,
};
use crate::mcp::change_reply::apply_outcome;
use crate::mcp::params::ChangeView;
use crate::mcp::server::member_or_null;
use crate::paths::{
    absolute, extension_of, join_path, join_paths, lemma_parent_shrinks, parent, parent_of,
};
use crate::report::{append_counted, counted, number_violations, numbered_lines};
use crate::rules::baseline::{Baseline, BaselineView};
use crate::rules::config::{config_file_name, RulesFileView};
use crate::rules::{violations_view, RuleViolation, RulesFile, ViolationView};
use crate::scanner::file_scanner::path_language;
use crate::scanner::import_parser::{unready_language, ParserError};
use crate::scanner::{files_view, Language, ScannedFile, ScannedView};
use crate::text::{
    chars_of, join, joined, opt_view, replace_all, replace_first, replaced_all, replaced_first,
    same, views,
};

verus! {

// ---------------------------------------------------------------------------
// What a tool call writes
// ---------------------------------------------------------------------------

/// A tool call.
pub struct HookPayload {
    /// The name of the tool.
    pub tool_name: String,
    /// Its arguments.
    pub tool_input: serde_json::Value,
}

/// What is needed to validate a proposed write: the path of the target file and
/// the *full post-write content* of that file.
#[derive(Debug, PartialEq, Eq)]
pub struct ProposedWrite {
    /// The file.
    pub file_path: String,
    /// Its full new content.
    pub new_content: String,
}

impl View for ProposedWrite {
    type V = (Seq<char>, Seq<char>);

    open spec fn view(&self) -> (Seq<char>, Seq<char>) {
        (self.file_path@, self.new_content@)
    }
}

/// The tools whose calls write a file.
pub enum WriteTool {
    /// Gives the whole content.
    Write,
    /// Replaces a text.
    Edit,
    /// Replaces several texts, one after the other.
    MultiEdit,
    /// Any other tool.
    Other,
}

/// The kind of tool that a name stands for.
pub open spec fn write_tool(name: Seq<char>) -> WriteTool {
    if name == "Write"@ {
        WriteTool::Write
    } else if name == "Edit"@ {
        WriteTool::Edit
    } else if name == "MultiEdit"@ || name == "NotebookEdit"@ {
        WriteTool::MultiEdit
    } else {
        WriteTool::Other
    }
}

/// A text after an edit: every occurrence of the old text is replaced by the
/// new one, or only the first.
pub open spec fn after_edit(content: Seq<char>, edit: JsonNode) -> Seq<char> {
    let old_text = member_text_or_empty(edit, "old_string"@);
    let new_text = member_text_or_empty(edit, "new_string"@);
    if bool_of(member(edit, "replace_all"@)) == Some(true) {
        replaced_all(content, old_text, new_text)
    } else {
        replaced_first(content, old_text, new_text)
    }
}

/// A text after the first `n` edits.
pub open spec fn after_edits(content: Seq<char>, edits: Seq<JsonNode>, n: int) -> Seq<char>
    decreases n,
{
    if n <= 0 {
        content
    } else {
        after_edit(after_edits(content, edits, n - 1), edits[n - 1])
    }
}

/// What a tool call would write, given the present text of the file: nothing
/// where the tool writes no file; an error where the call cannot be understood.
pub open spec fn proposed(tool: Seq<char>, input: JsonNode, existing: Seq<char>) -> Result<
    Option<(Seq<char>, Seq<char>)>,
    Seq<char>,
> {
    let path = member_text(input, "file_path"@);
    match write_tool(tool) {
        WriteTool::Write => match path {
            Some(p) => Ok(Some((p, member_text_or_empty(input, "content"@)))),
            None => Err("Write missing file_path"@),
        },
        WriteTool::Edit => match path {
            Some(p) => Ok(Some((p, after_edit(existing, input)))),
            None => Err("Edit missing file_path"@),
        },
        WriteTool::MultiEdit => match path {
            Some(p) => match member(input, "edits"@) {
                Some(JsonNode::Array(edits)) => Ok(
                    Some((p, after_edits(existing, edits, edits.len() as int))),
                ),
                _ => Err("MultiEdit missing edits[]"@),
            },
            None => Err("MultiEdit missing file_path"@),
        },
        WriteTool::Other => Ok(None),
    }
}

fn kind_of(name: &str) -> (t: WriteTool)
    ensures
        t == write_tool(name@),
{
    if same(name, "Write") {
        WriteTool::Write
    } else if same(name, "Edit") {
        WriteTool::Edit
    } else if same(name, "MultiEdit") || same(name, "NotebookEdit") {
        WriteTool::MultiEdit
    } else {
        WriteTool::Other
    }
}

fn apply_edit(content: &str, edit: &serde_json::Value) -> (s: String)
    ensures
        s@ == after_edit(content@, json_node(*edit)),
{
    let old_text = get_text_or_empty(edit, "old_string");
    let new_text = get_text_or_empty(edit, "new_string");
    let all = match get_bool(edit, "replace_all") {
        Some(b) => b,
        None => false,
    };
    if all {
        replace_all(content, &old_text, &new_text)
    } else {
        replace_first(content, &old_text, &new_text)
    }
}

fn apply_edits(content: &str, edits: &Vec<serde_json::Value>) -> (s: String)
    ensures
        s@ == after_edits(content@, json_nodes(edits@), edits@.len() as int),
{
    let mut s = content.to_owned();
    let mut i: usize = 0;
    while i < edits.len()
        invariant
            i <= edits@.len(),
            s@ == after_edits(content@, json_nodes(edits@), i as int),
        decreases edits.len() - i,
    {
        s = apply_edit(&s, &edits[i]);
        i += 1;
        assert(json_nodes(edits@)[i - 1] == json_node(edits@[i - 1]));
    }
    s
}

/// What a tool call would write, given the present text of the file (empty
/// where it cannot be read).
pub fn extract_proposed_write(
    tool_name: &str,
    input: &serde_json::Value,
    existing: &str,
) -> (r: Result<Option<ProposedWrite>, &'static str>)
    ensures
        proposed(tool_name@, json_node(*input), existing@) == (match r {
            Ok(Some(p)) => Ok(Some(p@)),
            Ok(None) => Ok(None),
            Err(e) => Err(e@),
        }),
{
    let path = get_text(input, "file_path");
    match kind_of(tool_name) {
        WriteTool::Write => match path {
            Some(file_path) => Ok(
                Some(
                    ProposedWrite { file_path, new_content: get_text_or_empty(input, "content") },
                ),
            ),
            None => Err("Write missing file_path"),
        },
        WriteTool::Edit => match path {
            Some(file_path) => Ok(
                Some(ProposedWrite { file_path, new_content: apply_edit(existing, input) }),
            ),
            None => Err("Edit missing file_path"),
        },
        WriteTool::MultiEdit => match path {
            Some(file_path) => {
                let edits = match json_get(input, "edits") {
                    Some(v) => match v.as_array() {
                        Some(edits) => edits,
                        None => return Err("MultiEdit missing edits[]"),
                    },
                    None => return Err("MultiEdit missing edits[]"),
                };
                Ok(Some(ProposedWrite { file_path, new_content: apply_edits(existing, edits) }))
            },
            None => Err("MultiEdit missing file_path"),
        },
        WriteTool::Other => Ok(None),
    }
}

/// The name and the arguments of the tool call that a payload describes.
pub open spec fn payload_call(text: Seq<char>) -> Option<(Seq<char>, JsonNode)> {
    match json_parsed(text) {
        Some(node) => Some(
            (member_text_or_empty(node, "tool_name"@), member_or_null(node, "tool_input"@)),
        ),
        None => None,
    }
}

impl HookPayload {
    /// Reads a payload. A text that is not JSON has none.
    pub fn read(text: &str) -> (r: Option<HookPayload>)
        ensures
            payload_call(text@) == (match r {
                Some(p) => Some((p.tool_name@, json_node(p.tool_input))),
                None => None,
            }),
    {
        let node = match parse_json(text) {
            Ok(v) => v,
            Err(_) => return None,
        };
        Some(HookPayload::from_value(&node))
    }

    /// The tool call that a JSON value describes.
    pub fn from_value(node: &serde_json::Value) -> (p: HookPayload)
        ensures
            p.tool_name@ == member_text_or_empty(json_node(*node), "tool_name"@),
            json_node(p.tool_input) == member_or_null(json_node(*node), "tool_input"@),
    {
        let tool_input = match json_get(node, "tool_input") {
            Some(x) => x.clone(),
            None => json_null(),
        };
        HookPayload { tool_name: get_text_or_empty(node, "tool_name"), tool_input }
    }

    /// The file whose present text is needed to tell what the call would write.
    pub fn file_to_read(&self) -> (r: Option<String>)
        ensures
            opt_view(r) == (match write_tool(self.tool_name@) {
                WriteTool::Edit | WriteTool::MultiEdit => member_text(
                    json_node(self.tool_input),
                    "file_path"@,
                ),
                _ => None,
            }),
    {
        match kind_of(&self.tool_name) {
            WriteTool::Edit | WriteTool::MultiEdit => get_text(&self.tool_input, "file_path"),
            _ => None,
        }
    }
}

// ---------------------------------------------------------------------------
// The project
// ---------------------------------------------------------------------------

/// The nearest of the folder and its ancestors with an `AetherLink.toml` in it.
pub open spec fn root_from(folder: Seq<char>, disk: DiskView) -> Option<Seq<char>>
    decreases folder.len(),
{
    if disk.present.contains(join_paths(folder, config_file_name())) {
        Some(folder)
    } else {
        match parent(folder) {
            Some(up) => {
                proof {
                    lemma_parent_shrinks(folder);
                }
                root_from(up, disk)
            },
            None => None,
        }
    }
}

/// The folder in which the search for the project root of a file starts. A
/// relative path is taken from the current directory.
pub open spec fn start_folder(file_path: Seq<char>, cwd: Option<Seq<char>>) -> Option<Seq<char>> {
    if absolute(file_path) {
        parent(file_path)
    } else {
        match cwd {
            Some(dir) => parent(join_paths(dir, file_path)),
            None => None,
        }
    }
}

/// The project root of a file.
pub open spec fn project_root(
    file_path: Seq<char>,
    cwd: Option<Seq<char>>,
    disk: DiskView,
) -> Option<Seq<char>> {
    match start_folder(file_path, cwd) {
        Some(folder) => root_from(folder, disk),
        None => None,
    }
}

/// The paths at which the rules of the folder or of one of its ancestors would
/// be written down.
pub open spec fn rules_lineage(folder: Seq<char>) -> Seq<Seq<char>>
    decreases folder.len(),
{
    seq![join_paths(folder, config_file_name())] + (match parent(folder) {
        Some(up) => {
            proof {
                lemma_parent_shrinks(folder);
            }
            rules_lineage(up)
        },
        None => Seq::empty(),
    })
}

fn start_of(file_path: &str, cwd: Option<&str>) -> (r: Option<String>)
    ensures
        opt_view(r) == start_folder(
            file_path@,
            match cwd {
                Some(d) => Some(d@),
                None => None,
            },
        ),
{
    let chars = chars_of(file_path);
    if chars.len() > 0 && chars[0] == '/' {
        parent_of(file_path)
    } else {
        match cwd {
            Some(dir) => parent_of(&join_path(dir, file_path)),
            None => None,
        }
    }
}

/// The paths that the search for the project root of a file needs to know of.
pub fn root_probes(file_path: &str, cwd: Option<&str>) -> (out: Vec<String>)
    ensures
        views(out@) == (match start_folder(
            file_path@,
            match cwd {
                Some(d) => Some(d@),
                None => None,
            },
        ) {
            Some(folder) => rules_lineage(folder),
            None => Seq::empty(),
        }),
{
    let mut out: Vec<String> = Vec::new();
    let mut folder = match start_of(file_path, cwd) {
        Some(folder) => folder,
        None => {
            assert(views(out@) =~= Seq::<Seq<char>>::empty());
            return out;
        },
    };
    let ghost all = rules_lineage(folder@);
    assert(views(out@) + rules_lineage(folder@) =~= all);
    loop
        invariant
            views(out@) + rules_lineage(folder@) == all,
            start_folder(
                file_path@,
                match cwd {
                    Some(d) => Some(d@),
                    None => None,
                },
            ) matches Some(start) && all == rules_lineage(start),
        decreases folder@.len(),
    {
        let ghost before = views(out@);
        let probe = join_path(&folder, "AetherLink.toml");
        let ghost added = probe@;
        out.push(probe);
        assert(views(out@) =~= before.push(added));
        match parent_of(&folder) {
            Some(up) => {
                proof {
                    lemma_parent_shrinks(folder@);
                }
                assert(views(out@) + rules_lineage(up@) =~= before + rules_lineage(folder@));
                folder = up;
            },
            None => {
                assert(views(out@) =~= before + rules_lineage(folder@));
                return out;
            },
        }
    }
}

/// Walk up from a file path looking for an `AetherLink.toml`. Returns the
/// directory containing it (i.e. the project root) if found.
pub fn find_project_root(file_path: &str, cwd: Option<&str>, disk: &DiskSnapshot) -> (r: Option<
    String,
>)
    ensures
        opt_view(r) == project_root(
            file_path@,
            match cwd {
                Some(d) => Some(d@),
                None => None,
            },
            disk@,
        ),
{
    let mut folder = match start_of(file_path, cwd) {
        Some(folder) => folder,
        None => return None,
    };
    let ghost start = folder@;
    loop
        invariant
            root_from(folder@, disk@) == root_from(start, disk@),
            start_folder(
                file_path@,
                match cwd {
                    Some(d) => Some(d@),
                    None => None,
                },
            ) == Some(start),
        decreases folder@.len(),
    {
        if disk.has(&join_path(&folder, "AetherLink.toml")) {
            return Some(folder);
        }
        match parent_of(&folder) {
            Some(up) => {
                proof {
                    lemma_parent_shrinks(folder@);
                }
                folder = up;
            },
            None => return None,
        }
    }
}

// ---------------------------------------------------------------------------
// The verdict
// ---------------------------------------------------------------------------

/// The violations that block a write. A file in an unknown language is never
/// blocked.
pub open spec fn hook_violations(
    root: Seq<char>,
    file_path: Seq<char>,
    content: Seq<char>,
    files: Seq<ScannedView>,
    disk: DiskView,
    config: RulesFileView,
    baseline: Option<BaselineView>,
) -> Seq<ViolationView> {
    let language = path_language(file_path);
    if language == Language::Unknown {
        Seq::empty()
    } else {
        evaluation(
            root,
            edited(file_path, content, language),
            files,
            disk,
            config,
            baseline,
        ).violations
    }
}

/// Whether the verdict on a write depends on the rest of the project.
pub fn needs_project(proposed: &ProposedWrite) -> (r: bool)
    ensures
        r == (path_language(proposed@.0) != Language::Unknown),
{
    Language::from_extension(&extension_of(&proposed.file_path)) != Language::Unknown
}

/// Run the same validation that the guarded writer uses, but driven from a hook
/// payload instead of an MCP request. Returns the list of *blocking*
/// violations; `Ok(None)` where the project is too large for a dependency
/// graph.
pub fn evaluate(
    project_root: &str,
    proposed: &ProposedWrite,
    files: &[ScannedFile],
    disk: &DiskSnapshot,
    rules_file: &RulesFile,
    baseline: Option<&Baseline>,
) -> (r: Result<Option<Vec<RuleViolation>>, ParserError>)
    ensures
        ({
            let language = path_language(proposed@.0);
            let all = files_view(files@);
            let fits = graph_fits(all) && graph_fits(
                patched(all, edited(proposed@.0, proposed@.1, language)),
            );
            match r {
                Ok(Some(v)) => (language == Language::Unknown || (unready_language() is None
                    && fits)) && violations_view(v@) == hook_violations(
                    project_root@,
                    proposed@.0,
                    proposed@.1,
                    all,
                    disk@,
                    rules_file@,
                    match baseline {
                        Some(b) => Some(b@),
                        None => None,
                    },
                ),
                Ok(None) => language != Language::Unknown && unready_language() is None && !fits,
                Err(e) => language != Language::Unknown && unready_language() == Some(e.language),
            }
        }),
{
    let language = Language::from_extension(&extension_of(&proposed.file_path));
    if language == Language::Unknown {
        let none: Vec<RuleViolation> = Vec::new();
        assert(violations_view(none@) =~= Seq::<ViolationView>::empty());
        return Ok(Some(none));
    }
    match evaluate_content(
        project_root,
        &proposed.file_path,
        &proposed.new_content,
        language,
        files,
        disk,
        rules_file,
        baseline,
    ) {
        Ok(Some(e)) => Ok(Some(e.violations)),
        Ok(None) => Ok(None),
        Err(e) => Err(e),
    }
}

/// How the hook ends.
#[derive(Debug, PartialEq, Eq)]
pub struct Verdict {
    /// The exit code: 0 allows the tool call, 2 blocks it.
    pub exit_code: i32,
    /// What is said on the error stream.
    pub note: String,
}

impl View for Verdict {
    type V = (i32, Seq<char>);

    open spec fn view(&self) -> (i32, Seq<char>) {
        (self.exit_code, self.note@)
    }
}

/// The reason why a write is blocked.
pub open spec fn block_text(root: Seq<char>, violations: Seq<ViolationView>) -> Seq<char> {
    "BLOCKED by AetherLink (project: "@ + root + ").\n"@ + counted(
        violations.len(),
        " architectural rule violation"@,
    ) + " would be introduced:\n"@ + joined(
        numbered_lines(violations, "  ["@, "] "@, ": "@),
        "\n"@,
    )
        + "\nFix the issues above and retry, or use apply_guarded_change (which runs the same checks atomically). To temporarily disable enforcement, create .aetherlink_bypass in the project root.\n"@
}

/// What is said of a tool call that cannot be understood.
pub open spec fn unclear_text(tool: Seq<char>, e: Seq<char>) -> Seq<char> {
    "aetherlink hook: could not interpret "@ + tool + " call: "@ + e + "\n"@
}

/// The file that a tool call writes, and its new content: nothing where the
/// call writes no file or cannot be understood.
pub open spec fn written_by(call: Option<(Seq<char>, JsonNode)>, existing: Seq<char>) -> Option<
    (Seq<char>, Seq<char>),
> {
    match call {
        Some((tool, input)) => match proposed(tool, input, existing) {
            Ok(w) => w,
            Err(_) => None,
        },
        None => None,
    }
}

/// The verdict that needs no look at the project: a payload that is not JSON
/// and a tool call that writes no file are allowed; a call that cannot be
/// understood is allowed with a note.
pub open spec fn early_verdict(call: Option<(Seq<char>, JsonNode)>, existing: Seq<char>) -> Option<
    (i32, Seq<char>),
> {
    match call {
        None => Some((0, Seq::empty())),
        Some((tool, input)) => match proposed(tool, input, existing) {
            Ok(None) => Some((0, Seq::empty())),
            Ok(Some(_)) => None,
            Err(e) => Some((0, unclear_text(tool, e))),
        },
    }
}

/// The verdict on a write: it is allowed outside of projects with rules, with
/// the bypass engaged, and where no violation blocks it; where the evaluation
/// failed it is allowed with a note. The evaluation is there where the write
/// comes as far as that.
pub open spec fn settled(
    root: Option<Seq<char>>,
    bypass: bool,
    evaluated: Option<Result<Seq<ViolationView>, Seq<char>>>,
) -> (i32, Seq<char>) {
    match root {
        None => (0, Seq::empty()),
        Some(root) => if bypass {
            (0, "aetherlink hook: bypass file present in "@ + root + ", allowing write\n"@)
        } else {
            match evaluated->0 {
                Ok(violations) => if violations.len() == 0 {
                    (0, Seq::empty())
                } else {
                    (2, block_text(root, violations))
                },
                Err(e) => (0, "aetherlink hook: internal error, allowing write: "@ + e + "\n"@),
            }
        },
    }
}

/// The verdict on a tool call.
pub open spec fn verdict(
    call: Option<(Seq<char>, JsonNode)>,
    existing: Seq<char>,
    root: Option<Seq<char>>,
    bypass: bool,
    evaluated: Option<Result<Seq<ViolationView>, Seq<char>>>,
) -> (i32, Seq<char>) {
    match early_verdict(call, existing) {
        Some(v) => v,
        None => settled(root, bypass, evaluated),
    }
}

fn allow() -> (v: Verdict)
    ensures
        v@ == (0i32, Seq::<char>::empty()),
{
    let note = String::new();
    assert(note@ =~= Seq::<char>::empty());
    Verdict { exit_code: 0, note }
}

/// What a tool call would write, given the present text of the file (empty
/// where it cannot be read), or the verdict that needs no look at the project.
/// `payload` is missing where it is not JSON.
pub fn propose(payload: Option<&HookPayload>, existing: &str) -> (r: Result<ProposedWrite, Verdict>)
    ensures
        ({
            let call = match payload {
                Some(p) => Some((p.tool_name@, json_node(p.tool_input))),
                None => None,
            };
            match r {
                Ok(w) => early_verdict(call, existing@) is None && written_by(call, existing@)
                    == Some(w@),
                Err(v) => early_verdict(call, existing@) == Some(v@),
            }
        }),
{
    let payload = match payload {
        Some(p) => p,
        None => return Err(allow()),
    };
    match extract_proposed_write(&payload.tool_name, &payload.tool_input, existing) {
        Ok(Some(w)) => Ok(w),
        Ok(None) => Err(allow()),
        Err(e) => {
            let mut note = "aetherlink hook: could not interpret ".to_owned();
            note.append(&payload.tool_name);
            note.append(" call: ");
            note.append(e);
            note.append("\n");
            Err(Verdict { exit_code: 0, note })
        },
    }
}

/// The verdict on a write into the project with the given root, `None` where
/// there is none. A write that comes as far as its evaluation has the
/// violations that block it, or what went wrong.
pub fn settle(
    project_root: Option<&str>,
    bypass: bool,
    evaluated: Option<&Result<Vec<RuleViolation>, String>>,
) -> (v: Verdict)
    requires
        project_root is Some && !bypass ==> evaluated is Some,
    ensures
        v@ == settled(
            match project_root {
                Some(r) => Some(r@),
                None => None,
            },
            bypass,
            match evaluated {
                Some(Ok(v)) => Some(Ok(violations_view(v@))),
                Some(Err(e)) => Some(Err(e@)),
                None => None,
            },
        ),
{
    let project_root = match project_root {
        Some(r) => r,
        None => return allow(),
    };
    if bypass {
        let mut note = "aetherlink hook: bypass file present in ".to_owned();
        note.append(project_root);
        note.append(", allowing write\n");
        return Verdict { exit_code: 0, note };
    }
    match evaluated.unwrap() {
        Ok(violations) => {
            assert(violations_view(violations@).len() == violations@.len());
            if violations.len() == 0 {
                return allow();
            }
            let mut note = "BLOCKED by AetherLink (project: ".to_owned();
            note.append(project_root);
            note.append(").\n");
            append_counted(&mut note, violations.len(), " architectural rule violation");
            note.append(" would be introduced:\n");
            note.append(&join(&number_violations(violations, "  [", "] ", ": "), "\n"));
            note.append(
                "\nFix the issues above and retry, or use apply_guarded_change (which runs the same checks atomically). To temporarily disable enforcement, create .aetherlink_bypass in the project root.\n",
            );
            Verdict { exit_code: 2, note }
        },
        Err(e) => {
            let mut note = "aetherlink hook: internal error, allowing write: ".to_owned();
            note.append(e);
            note.append("\n");
            Verdict { exit_code: 0, note }
        },
    }
}

// ---------------------------------------------------------------------------
// Laws
// ---------------------------------------------------------------------------

/// The hook and the guarded writer agree: without the bypass, a write of a file
/// in a known language inside the project root is blocked by the hook if and
/// only if the guarded writer refuses it.
pub proof fn law_hook_agrees_with_writer(
    change: ChangeView,
    path: Seq<char>,
    files: Seq<ScannedView>,
    disk: DiskView,
    config: RulesFileView,
    baseline: Option<BaselineView>,
    was_illegal: bool,
)
    requires
        change.language == path_language(change.target),
        change.language != Language::Unknown,
    ensures
        ({
            let e = evaluation(
                change.root,
                edited(change.target, change.new_content, change.language),
                files,
                disk,
                config,
                baseline,
            );
            let blocked = hook_violations(
                change.root,
                change.target,
                change.new_content,
                files,
                disk,
                config,
                baseline,
            );
            settled(Some(change.root), false, Some(Ok(blocked))).0 == 2 <==> apply_outcome(
                change,
                Ok(path),
                Some(e),
                false,
                was_illegal,
            ).write is None
        }),
{
}

/// A call is blocked if and only if it writes a file of a project with rules,
/// the bypass is not engaged, and its evaluation finds a violation that blocks
/// it. In particular the hook fails open: whatever cannot be understood or goes
/// wrong is allowed.
pub proof fn law_hook_blocks_violations_only(
    call: Option<(Seq<char>, JsonNode)>,
    existing: Seq<char>,
    root: Option<Seq<char>>,
    bypass: bool,
    evaluated: Option<Result<Seq<ViolationView>, Seq<char>>>,
)
    ensures
        verdict(call, existing, root, bypass, evaluated).0 == 2 <==> {
            &&& written_by(call, existing) is Some
            &&& root is Some
            &&& !bypass
            &&& evaluated->0 matches Ok(v) && v.len() > 0
        },
        verdict(call, existing, root, bypass, evaluated).0 != 2 ==> verdict(
            call,
            existing,
            root,
            bypass,
            evaluated,
        ).0 == 0,
{
}

/// A project root has the rules in it, and no folder nearer to the file has.
pub proof fn law_root_holds_rules(folder: Seq<char>, disk: DiskView)
    ensures
        root_from(folder, disk) matches Some(r) ==> disk.present.contains(
            join_paths(r, config_file_name()),
        ),
        disk.present.contains(join_paths(folder, config_file_name())) ==> root_from(folder, disk)
            == Some(folder),
    decreases folder.len(),
{
    if !disk.present.contains(join_paths(folder, config_file_name())) && parent(folder) is Some {
        lemma_parent_shrinks(folder);
        law_root_holds_rules(parent(folder)->0, disk);
    }
}

/// The search depends on no more of the disk than the paths that
/// [`root_probes`] lists.
pub proof fn law_search_looks_at_probes_only(folder: Seq<char>, disk: DiskView, other: DiskView)
    requires
        forall|i: int|
            0 <= i < rules_lineage(folder).len() ==> disk.present.contains(
                #[trigger] rules_lineage(folder)[i],
            ) == other.present.contains(rules_lineage(folder)[i]),
    ensures
        root_from(folder, disk) == root_from(folder, other),
    decreases folder.len(),
{
    let all = rules_lineage(folder);
    assert(all[0] == join_paths(folder, config_file_name()));
    if parent(folder) is Some {
        lemma_parent_shrinks(folder);
        let up = parent(folder)->0;
        assert forall|i: int| 0 <= i < rules_lineage(up).len() implies disk.present.contains(
            #[trigger] rules_lineage(up)[i],
        ) == other.present.contains(rules_lineage(up)[i]) by {
            assert(all[i + 1] == rules_lineage(up)[i]);
        }
        law_search_looks_at_probes_only(up, disk, other);
    }
}

} // verus!
