//! What the hook makes of a tool call, and where it finds the project, whatever
//! the call and the disk.
use vstd::prelude::*;
use vstd::string::*;

use crate::change::{edited, evaluation};
use crate::disk::DiskView;
use crate::hook::{
    after_edit, after_edits, hook_violations, payload_call, project_root, proposed, root_from,
    rules_lineage, start_folder, write_tool, WriteTool,
};
use crate::json::{json_parsed, JsonNode};
use crate::path_laws::{ancestor, is_plain_name, lemma_ancestor_of_parent};
use crate::paths::{join_paths, lemma_parent_shrinks, parent};
use crate::rules::baseline::BaselineView;
use crate::rules::config::RulesFileView;
use crate::scanner::file_scanner::path_language;
use crate::scanner::scan_laws::law_language_goes_by_the_extension;
use crate::scanner::ScannedView;
use crate::text_laws::{
    is_tally, law_empty_occurrences_are_replaced, law_every_occurrence_is_replaced,
    law_first_occurrence_is_replaced, law_replacement_changes_the_length, stands_first,
    stands_nowhere,
};

verus! {

// ---------------------------------------------------------------------------
// What a tool call writes
// ---------------------------------------------------------------------------

proof fn lemma_tool_names()
    ensures
        write_tool("Write"@) == WriteTool::Write,
        write_tool("Edit"@) == WriteTool::Edit,
        write_tool("MultiEdit"@) == WriteTool::MultiEdit,
        write_tool("NotebookEdit"@) == WriteTool::MultiEdit,
{
    reveal_strlit("Write");
    reveal_strlit("Edit");
    reveal_strlit("MultiEdit");
    reveal_strlit("NotebookEdit");
    assert("Write"@[0] == 'W');
    assert("Edit"@[0] == 'E');
    assert("MultiEdit"@[0] == 'M');
    assert("NotebookEdit"@[0] == 'N');
}

/// An edit of one occurrence writes the file with the first occurrence of the
/// old text replaced by the new one, be it empty or not, and everything else as
/// it was. A file without the old text stays as it is.
pub proof fn law_edit_replaces_the_first_occurrence(
    input: Map<Seq<char>, JsonNode>,
    path: Seq<char>,
    old_text: Seq<char>,
    new_text: Seq<char>,
    existing: Seq<char>,
    k: int,
)
    requires
        input.contains_key("file_path"@) && input["file_path"@] == JsonNode::Text(path),
        input.contains_key("old_string"@) && input["old_string"@] == JsonNode::Text(old_text),
        input.contains_key("new_string"@) && input["new_string"@] == JsonNode::Text(new_text),
        !(input.contains_key("replace_all"@) && input["replace_all"@] == JsonNode::Bool(true)),
    ensures
        stands_first(existing, old_text, k) ==> {
            let now = existing.subrange(0, k) + new_text + existing.subrange(
                k + old_text.len(),
                existing.len() as int,
            );
            &&& proposed("Edit"@, JsonNode::Object(input), existing) == Ok::<
                Option<(Seq<char>, Seq<char>)>,
                Seq<char>,
            >(Some((path, now)))
            &&& now.len() == existing.len() - old_text.len() + new_text.len()
        },
        stands_nowhere(existing, old_text) ==> proposed("Edit"@, JsonNode::Object(input), existing)
            == Ok::<Option<(Seq<char>, Seq<char>)>, Seq<char>>(Some((path, existing))),
{
    lemma_tool_names();
    law_first_occurrence_is_replaced(existing, old_text, new_text, k);
}

/// An edit of all occurrences replaces the first one, and then those in the text
/// behind it, as the same call would if that text were the file. So the length
/// changes by the same number of characters with each of them. A file without
/// the old text stays as it is.
pub proof fn law_edit_replaces_every_occurrence(
    input: Map<Seq<char>, JsonNode>,
    path: Seq<char>,
    old_text: Seq<char>,
    new_text: Seq<char>,
    existing: Seq<char>,
    k: int,
    n: nat,
)
    requires
        input.contains_key("file_path"@) && input["file_path"@] == JsonNode::Text(path),
        input.contains_key("old_string"@) && input["old_string"@] == JsonNode::Text(old_text),
        input.contains_key("new_string"@) && input["new_string"@] == JsonNode::Text(new_text),
        input.contains_key("replace_all"@) && input["replace_all"@] == JsonNode::Bool(true),
        old_text.len() > 0,
    ensures
        stands_first(existing, old_text, k) ==> {
            let behind = existing.subrange(k + old_text.len(), existing.len() as int);
            proposed("Edit"@, JsonNode::Object(input), behind) matches Ok(Some((p, done))) && p
                == path && proposed("Edit"@, JsonNode::Object(input), existing) == Ok::<
                Option<(Seq<char>, Seq<char>)>,
                Seq<char>,
            >(Some((path, existing.subrange(0, k) + new_text + done)))
        },
        stands_nowhere(existing, old_text) ==> proposed("Edit"@, JsonNode::Object(input), existing)
            == Ok::<Option<(Seq<char>, Seq<char>)>, Seq<char>>(Some((path, existing))),
        is_tally(existing, old_text, n) ==> (proposed(
            "Edit"@,
            JsonNode::Object(input),
            existing,
        ) matches Ok(Some((_, now))) && now.len() == existing.len() + n * (new_text.len()
            - old_text.len())),
{
    lemma_tool_names();
    law_every_occurrence_is_replaced(existing, old_text, new_text, k);
    if is_tally(existing, old_text, n) {
        law_replacement_changes_the_length(existing, old_text, new_text, n);
    }
}

/// The empty old text stands before every character and at the end.
pub proof fn law_edit_replaces_the_empty_text_everywhere(
    input: Map<Seq<char>, JsonNode>,
    path: Seq<char>,
    new_text: Seq<char>,
    c: char,
    rest: Seq<char>,
)
    requires
        input.contains_key("file_path"@) && input["file_path"@] == JsonNode::Text(path),
        input.contains_key("old_string"@) && input["old_string"@] == JsonNode::Text(Seq::empty()),
        input.contains_key("new_string"@) && input["new_string"@] == JsonNode::Text(new_text),
        input.contains_key("replace_all"@) && input["replace_all"@] == JsonNode::Bool(true),
    ensures
        proposed("Edit"@, JsonNode::Object(input), Seq::empty()) == Ok::<
            Option<(Seq<char>, Seq<char>)>,
            Seq<char>,
        >(Some((path, new_text))),
        proposed("Edit"@, JsonNode::Object(input), rest) matches Ok(Some((_, done))) && proposed(
            "Edit"@,
            JsonNode::Object(input),
            seq![c] + rest,
        ) == Ok::<Option<(Seq<char>, Seq<char>)>, Seq<char>>(
            Some((path, new_text + seq![c] + done)),
        ),
{
    lemma_tool_names();
    law_empty_occurrences_are_replaced(rest, c, new_text);
}

/// A text that a call leaves out, or that is no string, counts as the empty one,
/// and so an edit without both changes nothing.
pub proof fn law_missing_texts_are_empty(
    input: Map<Seq<char>, JsonNode>,
    key: Seq<char>,
    existing: Seq<char>,
)
    requires
        key == "old_string"@ || key == "new_string"@ || key == "content"@,
        !(input.contains_key(key) && input[key] is Text),
    ensures
        proposed("Write"@, JsonNode::Object(input), existing) == proposed(
            "Write"@,
            JsonNode::Object(input.insert(key, JsonNode::Text(Seq::empty()))),
            existing,
        ),
        proposed("Edit"@, JsonNode::Object(input), existing) == proposed(
            "Edit"@,
            JsonNode::Object(input.insert(key, JsonNode::Text(Seq::empty()))),
            existing,
        ),
{
    lemma_tool_names();
    lemma_input_keys();
}

proof fn lemma_input_keys()
    ensures
        "file_path"@ != "old_string"@,
        "file_path"@ != "new_string"@,
        "file_path"@ != "content"@,
        "file_path"@ != "replace_all"@,
        "file_path"@ != "edits"@,
        "replace_all"@ != "old_string"@,
        "replace_all"@ != "new_string"@,
        "replace_all"@ != "content"@,
        "old_string"@ != "new_string"@,
        "old_string"@ != "content"@,
        "new_string"@ != "content"@,
{
    reveal_strlit("file_path");
    reveal_strlit("old_string");
    reveal_strlit("new_string");
    reveal_strlit("content");
    reveal_strlit("replace_all");
    reveal_strlit("edits");
    assert("file_path"@[0] == 'f');
    assert("old_string"@[0] == 'o');
    assert("new_string"@[0] == 'n');
    assert("content"@[0] == 'c');
    assert("replace_all"@[0] == 'r');
    assert("edits"@[0] == 'e');
}

/// A call with several edits writes what the last of them, made alone, writes
/// over what the others leave; without edits the file stays as it is. An edit
/// that is no object changes nothing.
pub proof fn law_edits_follow_one_another(
    tool: Seq<char>,
    input: Map<Seq<char>, JsonNode>,
    path: Seq<char>,
    edits: Seq<JsonNode>,
    last: JsonNode,
    existing: Seq<char>,
)
    requires
        tool == "MultiEdit"@ || tool == "NotebookEdit"@,
        input.contains_key("file_path"@) && input["file_path"@] == JsonNode::Text(path),
    ensures
        proposed(
            tool,
            JsonNode::Object(input.insert("edits"@, JsonNode::Array(Seq::empty()))),
            existing,
        ) == Ok::<Option<(Seq<char>, Seq<char>)>, Seq<char>>(Some((path, existing))),
        proposed(
            tool,
            JsonNode::Object(input.insert("edits"@, JsonNode::Array(edits))),
            existing,
        ) matches Ok(Some((p, before))) && p == path && proposed(
            tool,
            JsonNode::Object(input.insert("edits"@, JsonNode::Array(edits.push(last)))),
            existing,
        ) == (match last {
            JsonNode::Object(edit) => proposed(
                "Edit"@,
                JsonNode::Object(edit.insert("file_path"@, JsonNode::Text(path))),
                before,
            ),
            _ => Ok::<Option<(Seq<char>, Seq<char>)>, Seq<char>>(Some((path, before))),
        }),
{
    lemma_tool_names();
    lemma_input_keys();
    let more = edits.push(last);
    lemma_edits_front(existing, edits, more, edits.len() as int);
    let before = after_edits(existing, edits, edits.len() as int);
    assert(more[edits.len() as int] == last);
    assert(after_edits(existing, more, more.len() as int) == after_edit(before, last));
    match last {
        JsonNode::Object(edit) => {
            let whole = edit.insert("file_path"@, JsonNode::Text(path));
            assert(after_edit(before, JsonNode::Object(whole)) == after_edit(before, last));
        },
        _ => {
            assert(before.subrange(0, 0) =~= Seq::<char>::empty());
            law_first_occurrence_is_replaced(before, Seq::empty(), Seq::empty(), 0);
            assert(stands_first(before, Seq::empty(), 0));
            assert(before.subrange(0, 0) + Seq::<char>::empty() + before.subrange(
                0,
                before.len() as int,
            ) =~= before);
            assert(after_edit(before, last) == before);
        },
    }
}

proof fn lemma_edits_front(
    content: Seq<char>,
    edits: Seq<JsonNode>,
    more: Seq<JsonNode>,
    n: int,
)
    requires
        0 <= n <= edits.len(),
        edits.is_prefix_of(more),
    ensures
        after_edits(content, edits, n) == after_edits(content, more, n),
    decreases n,
{
    if n > 0 {
        lemma_edits_front(content, edits, more, n - 1);
        assert(edits[n - 1] == more[n - 1]);
    }
}

/// A call that gives the whole content writes that content, whatever the file
/// held before.
pub proof fn law_write_gives_the_content(
    input: Map<Seq<char>, JsonNode>,
    path: Seq<char>,
    content: Seq<char>,
    existing: Seq<char>,
)
    requires
        input.contains_key("file_path"@) && input["file_path"@] == JsonNode::Text(path),
        input.contains_key("content"@) && input["content"@] == JsonNode::Text(content),
    ensures
        proposed("Write"@, JsonNode::Object(input), existing) == Ok::<
            Option<(Seq<char>, Seq<char>)>,
            Seq<char>,
        >(Some((path, content))),
{
    lemma_tool_names();
}

/// A call writes a file exactly where its tool is one of the four that do, it
/// names the file, and, for several edits, it lists them. It cannot be
/// understood exactly where the tool is one of the four and one of these is
/// missing.
pub proof fn law_which_calls_write(tool: Seq<char>, input: JsonNode, existing: Seq<char>)
    ensures
        ({
            let several = tool == "MultiEdit"@ || tool == "NotebookEdit"@;
            let writes = tool == "Write"@ || tool == "Edit"@ || several;
            let named = input matches JsonNode::Object(m) && m.contains_key("file_path"@)
                && m["file_path"@] is Text;
            let listed = input matches JsonNode::Object(m) && m.contains_key("edits"@)
                && m["edits"@] is Array;
            let clear = named && (several ==> listed);
            &&& proposed(tool, input, existing) is Err <==> writes && !clear
            &&& !writes ==> proposed(tool, input, existing) == Ok::<
                Option<(Seq<char>, Seq<char>)>,
                Seq<char>,
            >(None)
            &&& writes && clear ==> (proposed(tool, input, existing) matches Ok(Some((p, _)))
                && JsonNode::Text(p) == input->Object_0["file_path"@])
        }),
{
    lemma_tool_names();
}

// ---------------------------------------------------------------------------
// The project
// ---------------------------------------------------------------------------

/// Whether the folder `n` steps above another exists and has rules in it.
pub open spec fn has_rules_at(folder: Seq<char>, disk: DiskView, n: nat) -> bool {
    ancestor(folder, n) matches Some(f) && disk.present.contains(
        join_paths(f, "AetherLink.toml"@),
    )
}

/// Whether the search for the project of a file starts at the folder: the one
/// that holds the file, where a relative path is taken from the current
/// directory.
pub open spec fn starts_at(file_path: Seq<char>, cwd: Option<Seq<char>>, folder: Seq<char>) -> bool {
    if file_path.len() > 0 && file_path[0] == '/' {
        parent(file_path) == Some(folder)
    } else {
        cwd matches Some(dir) && parent(join_paths(dir, file_path)) == Some(folder)
    }
}

proof fn lemma_first_rules(folder: Seq<char>, disk: DiskView, n: nat)
    requires
        has_rules_at(folder, disk, n),
        forall|m: nat| m < n ==> !has_rules_at(folder, disk, m),
    ensures
        root_from(folder, disk) == ancestor(folder, n),
    decreases n,
{
    if n == 0 {
        assert(ancestor(folder, 0) == Some(folder));
    } else {
        assert(!has_rules_at(folder, disk, 0));
        assert(ancestor(folder, 0) == Some(folder));
        lemma_ancestor_of_parent(folder, (n - 1) as nat);
        let up = parent(folder)->0;
        lemma_parent_shrinks(folder);
        assert forall|m: nat| m < n - 1 implies !has_rules_at(up, disk, m) by {
            lemma_ancestor_of_parent(folder, m);
            assert(!has_rules_at(folder, disk, m + 1));
        }
        lemma_first_rules(up, disk, (n - 1) as nat);
    }
}

proof fn lemma_no_rules(folder: Seq<char>, disk: DiskView)
    requires
        forall|m: nat| !has_rules_at(folder, disk, m),
    ensures
        root_from(folder, disk) is None,
    decreases folder.len(),
{
    assert(!has_rules_at(folder, disk, 0));
    assert(ancestor(folder, 0) == Some(folder));
    if parent(folder) is Some {
        let up = parent(folder)->0;
        lemma_parent_shrinks(folder);
        assert forall|m: nat| !has_rules_at(up, disk, m) by {
            lemma_ancestor_of_parent(folder, m);
            assert(!has_rules_at(folder, disk, m + 1));
        }
        lemma_no_rules(up, disk);
    }
}

/// The project root of a file is the first folder that has the rules in it, in
/// the order from the folder of the file upwards, any number of steps.
pub proof fn law_project_is_the_nearest_folder_with_rules(
    file_path: Seq<char>,
    cwd: Option<Seq<char>>,
    folder: Seq<char>,
    disk: DiskView,
    n: nat,
)
    requires
        starts_at(file_path, cwd, folder),
        has_rules_at(folder, disk, n),
        forall|m: nat| m < n ==> !has_rules_at(folder, disk, m),
    ensures
        project_root(file_path, cwd, disk) == ancestor(folder, n),
        project_root(file_path, cwd, disk) is Some,
{
    lemma_first_rules(folder, disk, n);
}

proof fn lemma_least_rules(folder: Seq<char>, disk: DiskView, n: nat) -> (k: nat)
    requires
        has_rules_at(folder, disk, n),
    ensures
        k <= n,
        has_rules_at(folder, disk, k),
        forall|m: nat| m < k ==> !has_rules_at(folder, disk, m),
    decreases n,
{
    if exists|m: nat| m < n && has_rules_at(folder, disk, m) {
        let m = choose|m: nat| m < n && has_rules_at(folder, disk, m);
        lemma_least_rules(folder, disk, m)
    } else {
        n
    }
}

/// A file belongs to a project exactly where its folder or one above it, however
/// far, has the rules in it.
pub proof fn law_project_is_found_if_there_is_one(
    file_path: Seq<char>,
    cwd: Option<Seq<char>>,
    folder: Seq<char>,
    disk: DiskView,
)
    requires
        starts_at(file_path, cwd, folder),
    ensures
        project_root(file_path, cwd, disk) is Some <==> exists|n: nat|
            has_rules_at(folder, disk, n),
        project_root(file_path, cwd, disk) matches Some(r) ==> disk.present.contains(
            join_paths(r, "AetherLink.toml"@),
        ) && exists|n: nat| ancestor(folder, n) == Some(r),
{
    if exists|n: nat| has_rules_at(folder, disk, n) {
        let n = choose|n: nat| has_rules_at(folder, disk, n);
        let k = lemma_least_rules(folder, disk, n);
        law_project_is_the_nearest_folder_with_rules(file_path, cwd, folder, disk, k);
    } else {
        lemma_no_rules(folder, disk);
    }
}

/// A file that no folder holds belongs to no project: the search has nowhere to
/// start.
pub proof fn law_no_folder_no_project(
    file_path: Seq<char>,
    cwd: Option<Seq<char>>,
    disk: DiskView,
)
    requires
        forall|folder: Seq<char>| !starts_at(file_path, cwd, folder),
    ensures
        project_root(file_path, cwd, disk) is None,
{
    if start_folder(file_path, cwd) is Some {
        assert(starts_at(file_path, cwd, start_folder(file_path, cwd)->0));
    }
}

/// The search asks for the rules of every folder above the file, nearest first,
/// and for nothing else.
pub proof fn law_every_ancestor_is_probed(folder: Seq<char>, n: nat)
    ensures
        n < rules_lineage(folder).len() <==> ancestor(folder, n) is Some,
        ancestor(folder, n) matches Some(f) ==> rules_lineage(folder)[n as int] == join_paths(
            f,
            "AetherLink.toml"@,
        ),
    decreases n,
{
    assert(ancestor(folder, 0) == Some(folder));
    let all = rules_lineage(folder);
    assert(all[0] == join_paths(folder, "AetherLink.toml"@));
    if n > 0 {
        let m = (n - 1) as nat;
        lemma_ancestor_of_parent(folder, m);
        if parent(folder) is Some {
            let up = parent(folder)->0;
            lemma_parent_shrinks(folder);
            law_every_ancestor_is_probed(up, m);
            assert(all == seq![join_paths(folder, "AetherLink.toml"@)] + rules_lineage(up));
        }
    }
}

/// A payload names its tool and carries its input; a name that is missing is the
/// empty one, and a missing input is null.
pub proof fn law_payloads_carry_the_call(text: Seq<char>, m: Map<Seq<char>, JsonNode>)
    ensures
        json_parsed(text) is None ==> payload_call(text) is None,
        json_parsed(text) == Some(JsonNode::Object(m)) ==> (payload_call(text) matches Some((
            name,
            input,
        )) && (m.contains_key("tool_name"@) && m["tool_name"@] is Text ==> m["tool_name"@]
            == JsonNode::Text(name)) && (!(m.contains_key("tool_name"@) && m["tool_name"@] is Text)
            ==> name.len() == 0) && input == (if m.contains_key("tool_input"@) {
            m["tool_input"@]
        } else {
            JsonNode::Null
        })),
{
}

/// The hook stops a write of a source file exactly by what the evaluation of that
/// file, with its new content, finds; a file in no known language is never
/// stopped.
pub proof fn law_hook_judges_source_files(
    root: Seq<char>,
    front: Seq<char>,
    stem: Seq<char>,
    ext: Seq<char>,
    content: Seq<char>,
    files: Seq<ScannedView>,
    disk: DiskView,
    config: RulesFileView,
    baseline: Option<BaselineView>,
)
    requires
        front.len() == 0 || front.last() == '/',
        is_plain_name(stem),
        forall|i: int| 0 <= i < ext.len() ==> #[trigger] ext[i] != '.' && ext[i] != '/',
    ensures
        ({
            let path = front + stem + seq!['.'] + ext;
            let stopped = hook_violations(root, path, content, files, disk, config, baseline);
            let language = path_language(path);
            if ext == "rs"@ || ext == "ts"@ || ext == "tsx"@ || ext == "js"@ || ext == "jsx"@ || ext
                == "py"@ {
                stopped == evaluation(
                    root,
                    edited(path, content, language),
                    files,
                    disk,
                    config,
                    baseline,
                ).violations
            } else {
                stopped.len() == 0
            }
        }),
{
    law_language_goes_by_the_extension(front, stem, ext);
}

} // verus!
