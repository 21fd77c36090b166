//! The hook entry in the client's settings.
//!
//! The entry goes under `hooks.PreToolUse`:
//!
//! ```json
//! {
//!   "hooks": {
//!     "PreToolUse": [
//!       {
//!         "matcher": "Edit|Write|MultiEdit|NotebookEdit",
//!         "owner": "aetherlink",
//!         "hooks": [
//!           { "type": "command", "command": "<aetherlink-path> --hook-check" }
//!         ]
//!       }
//!     ]
//!   }
//! }
//! ```
use vstd::prelude::*;
use vstd::string::*;

use crate::client::{settings_folder, settings_folder_name};
use crate::json::{
    get_text, json_array, json_entries, json_entry_or, json_member_mut, json_node, json_nodes,
    json_object, json_parsed, json_pretty, json_text, member, member_text, no_members, parse_json,
    plain_json, print_json, put, JsonNode,
};
use crate::paths::{join_path, join_paths, replace_extension, with_extension};
use crate::text::{
    chars_of, joined, opt_view, same, split, string_of_range, trim, trimmed, CharClass,
};
use crate::text_laws::{
    all_in, law_join_then_split, law_parts_are_joined_in_order, law_trim_removes_the_ends,
};

verus! {

// ---------------------------------------------------------------------------
// Settings
// ---------------------------------------------------------------------------

/// The mark on the entries that are AetherLink's own.
pub open spec fn owner_tag() -> Seq<char> {
    "aetherlink"@
}

/// Whether an entry is AetherLink's own.
pub open spec fn is_owned(entry: JsonNode) -> bool {
    member_text(entry, "owner"@) == Some(owner_tag())
}

/// The entries that are not AetherLink's own, in order.
pub open spec fn others(entries: Seq<JsonNode>) -> Seq<JsonNode>
    decreases entries.len(),
{
    if entries.len() == 0 {
        Seq::empty()
    } else {
        let before = others(entries.drop_last());
        if is_owned(entries.last()) {
            before
        } else {
            before.push(entries.last())
        }
    }
}

/// The entry that runs the hook.
pub open spec fn hook_entry(exe: Seq<char>) -> JsonNode {
    JsonNode::Object(
        no_members().insert("matcher"@, JsonNode::Text("Edit|Write|MultiEdit|NotebookEdit"@)).insert(
            "owner"@,
            JsonNode::Text(owner_tag()),
        ).insert(
            "hooks"@,
            JsonNode::Array(
                seq![
                    JsonNode::Object(
                        no_members().insert("type"@, JsonNode::Text("command"@)).insert(
                            "command"@,
                            JsonNode::Text(exe + " --hook-check"@),
                        ),
                    ),
                ],
            ),
        ),
    )
}

/// Why settings cannot take the entry.
#[derive(Debug, Clone, Copy, PartialEq, Eq, Structural)]
pub enum InstallError {
    /// The settings are not JSON.
    Parse,
    /// The settings are not an object.
    Root,
    /// `hooks` is not an object.
    Hooks,
    /// `hooks.PreToolUse` is not an array.
    PreToolUse,
}

impl InstallError {
    /// What the error says of the settings at the path.
    pub open spec fn text(self, path: Seq<char>) -> Seq<char> {
        match self {
            InstallError::Parse => "parsing "@ + path,
            InstallError::Root => "settings.json root is not a JSON object"@,
            InstallError::Hooks => "'hooks' exists but is not a JSON object"@,
            InstallError::PreToolUse => "'hooks.PreToolUse' exists but is not a JSON array"@,
        }
    }

    /// What the error says of the settings at the path.
    pub fn message(self, path: &str) -> (s: String)
        ensures
            s@ == self.text(path@),
    {
        match self {
            InstallError::Parse => {
                let mut s = "parsing ".to_owned();
                s.append(path);
                s
            },
            InstallError::Root => "settings.json root is not a JSON object".to_owned(),
            InstallError::Hooks => "'hooks' exists but is not a JSON object".to_owned(),
            InstallError::PreToolUse => {
                "'hooks.PreToolUse' exists but is not a JSON array".to_owned()
            },
        }
    }
}

/// The entries of an object that may be missing.
pub open spec fn object_or_empty(node: Option<JsonNode>) -> Option<Map<Seq<char>, JsonNode>> {
    match node {
        None => Some(no_members()),
        Some(JsonNode::Object(m)) => Some(m),
        Some(_) => None,
    }
}

/// The elements of an array that may be missing.
pub open spec fn array_or_empty(node: Option<JsonNode>) -> Option<Seq<JsonNode>> {
    match node {
        None => Some(Seq::empty()),
        Some(JsonNode::Array(a)) => Some(a),
        Some(_) => None,
    }
}

/// The settings with the entries under `hooks.PreToolUse`.
pub open spec fn with_entries(
    m: Map<Seq<char>, JsonNode>,
    hooks: Map<Seq<char>, JsonNode>,
    entries: Seq<JsonNode>,
) -> JsonNode {
    JsonNode::Object(
        m.insert("hooks"@, JsonNode::Object(hooks.insert("PreToolUse"@, JsonNode::Array(entries)))),
    )
}

/// The settings after the hook was installed: AetherLink's own entries are
/// replaced by a fresh one, and everything else is kept.
pub open spec fn installed(settings: JsonNode, exe: Seq<char>) -> Result<JsonNode, InstallError> {
    match settings {
        JsonNode::Object(m) => match object_or_empty(member(settings, "hooks"@)) {
            None => Err(InstallError::Hooks),
            Some(hooks) => match array_or_empty(member(JsonNode::Object(hooks), "PreToolUse"@)) {
                None => Err(InstallError::PreToolUse),
                Some(entries) => Ok(
                    with_entries(m, hooks, others(entries).push(hook_entry(exe))),
                ),
            },
        },
        _ => Err(InstallError::Root),
    }
}

/// The settings after the hook was uninstalled, and whether it was there. Only
/// AetherLink's own entries go.
pub open spec fn uninstalled(settings: JsonNode) -> (JsonNode, bool) {
    match settings {
        JsonNode::Object(m) => match member(settings, "hooks"@) {
            Some(JsonNode::Object(hooks)) => match member(
                JsonNode::Object(hooks),
                "PreToolUse"@,
            ) {
                Some(JsonNode::Array(entries)) => (
                    with_entries(m, hooks, others(entries)),
                    others(entries).len() != entries.len(),
                ),
                _ => (settings, false),
            },
            _ => (settings, false),
        },
        _ => (settings, false),
    }
}

fn owned(v: &serde_json::Value) -> (r: bool)
    ensures
        r == is_owned(json_node(*v)),
{
    match get_text(v, "owner") {
        Some(s) => same(&s, "aetherlink"),
        None => false,
    }
}

fn retain_unowned(a: &mut Vec<serde_json::Value>)
    ensures
        json_nodes(final(a)@) == others(json_nodes(old(a)@)),
{
    let ghost all = json_nodes(a@);
    let total: usize = a.len();
    let mut seen: usize = 0;
    let mut i: usize = 0;
    assert(all.subrange(0, 0) =~= Seq::<JsonNode>::empty());
    assert(json_nodes(a@) =~= others(all.subrange(0, 0)) + all.subrange(0, total as int));
    while seen < total
        invariant
            all == json_nodes(old(a)@),
            all.len() == total,
            i <= seen <= total,
            others(all.subrange(0, seen as int)).len() == i,
            json_nodes(a@) == others(all.subrange(0, seen as int)) + all.subrange(
                seen as int,
                total as int,
            ),
        decreases total - seen,
    {
        let ghost done = others(all.subrange(0, seen as int));
        let ghost before = json_nodes(a@);
        proof {
            let next = all.subrange(0, seen + 1);
            assert(next.drop_last() =~= all.subrange(0, seen as int));
            assert(json_nodes(a@).len() == a@.len());
            assert(before[i as int] == all[seen as int]);
            assert(before[i as int] == json_node(a@[i as int]));
        }
        if owned(&a[i]) {
            a.remove(i);
            assert(json_nodes(a@) =~= done + all.subrange(seen + 1, total as int)) by {
                assert forall|k: int| 0 <= k < json_nodes(a@).len() implies json_nodes(a@)[k] == (
                done + all.subrange(seen + 1, total as int))[k] by {
                    if k < i {
                        assert(json_nodes(a@)[k] == before[k]);
                    } else {
                        assert(json_nodes(a@)[k] == before[k + 1]);
                    }
                }
            }
        } else {
            assert(before =~= done.push(all[seen as int]) + all.subrange(seen + 1, total as int));
            i += 1;
        }
        seen += 1;
    }
    assert(all.subrange(0, total as int) =~= all);
    assert(all.subrange(total as int, total as int) =~= Seq::<JsonNode>::empty());
    assert(json_nodes(a@) =~= others(all));
}

fn entry_json(exe: &str) -> (v: serde_json::Value)
    ensures
        json_node(v) == hook_entry(exe@),
{
    let mut command = exe.to_owned();
    command.append(" --hook-check");
    let mut item = serde_json::Map::new();
    put(&mut item, "type", json_text("command"));
    put(&mut item, "command", json_text(&command));
    let item = json_object(item);
    let ghost node = json_node(item);
    let mut list: Vec<serde_json::Value> = Vec::new();
    list.push(item);
    assert(json_nodes(list@) =~= seq![node]);
    let mut m = serde_json::Map::new();
    put(&mut m, "matcher", json_text("Edit|Write|MultiEdit|NotebookEdit"));
    put(&mut m, "owner", json_text("aetherlink"));
    put(&mut m, "hooks", json_array(list));
    json_object(m)
}

/// Insert (or replace) the AetherLink PreToolUse entry. Existing entries for
/// other tools are preserved. The owner tag lets us find our own previous entry
/// across re-installs.
pub fn upsert_hook_entry(root: &mut serde_json::Value, exe: &str) -> (r: Result<(), InstallError>)
    ensures
        match r {
            Ok(_) => installed(json_node(*old(root)), exe@) == Ok::<_, InstallError>(
                json_node(*final(root)),
            ),
            Err(e) => installed(json_node(*old(root)), exe@) == Err::<JsonNode, _>(e) && json_node(
                *final(root),
            ) == json_node(*old(root)),
        },
{
    let obj = match root.as_object_mut() {
        Some(obj) => obj,
        None => return Err(InstallError::Root),
    };
    let ghost m = json_entries(*obj);
    let hooks = match json_entry_or(
        obj,
        "hooks",
        json_object(serde_json::Map::new()),
    ).as_object_mut() {
        Some(hooks) => hooks,
        None => {
            assert(m.insert("hooks"@, m["hooks"@]) =~= m);
            return Err(InstallError::Hooks);
        },
    };
    let ghost h = json_entries(*hooks);
    let none: Vec<serde_json::Value> = Vec::new();
    assert(json_nodes(none@) =~= Seq::<JsonNode>::empty());
    let pre = match json_entry_or(hooks, "PreToolUse", json_array(none)).as_array_mut() {
        Some(pre) => pre,
        None => {
            assert(h.insert("PreToolUse"@, h["PreToolUse"@]) =~= h);
            assert(m.insert("hooks"@, m["hooks"@]) =~= m);
            return Err(InstallError::PreToolUse);
        },
    };
    retain_unowned(pre);
    let ghost kept = json_nodes(pre@);
    pre.push(entry_json(exe));
    assert(json_nodes(pre@) =~= kept.push(hook_entry(exe@)));
    Ok(())
}

/// Drop AetherLink's own entries. Returns whether there were any.
pub fn remove_hook_entry(root: &mut serde_json::Value) -> (r: bool)
    ensures
        (json_node(*final(root)), r) == uninstalled(json_node(*old(root))),
{
    let obj = match root.as_object_mut() {
        Some(obj) => obj,
        None => return false,
    };
    let ghost m = json_entries(*obj);
    let hooks = match json_member_mut(obj, "hooks") {
        Some(v) => match v.as_object_mut() {
            Some(hooks) => hooks,
            None => {
                assert(m.insert("hooks"@, m["hooks"@]) =~= m);
                return false;
            },
        },
        None => return false,
    };
    let ghost h = json_entries(*hooks);
    let pre = match json_member_mut(hooks, "PreToolUse") {
        Some(v) => match v.as_array_mut() {
            Some(pre) => pre,
            None => {
                assert(h.insert("PreToolUse"@, h["PreToolUse"@]) =~= h);
                assert(m.insert("hooks"@, m["hooks"@]) =~= m);
                return false;
            },
        },
        None => {
            assert(m.insert("hooks"@, m["hooks"@]) =~= m);
            return false;
        },
    };
    let before: usize = pre.len();
    let ghost all = json_nodes(pre@);
    retain_unowned(pre);
    assert(json_nodes(pre@).len() == pre@.len());
    assert(all.len() == before);
    pre.len() != before
}

/// A text without the byte order mark that it may start with.
pub open spec fn without_mark(text: Seq<char>) -> Seq<char> {
    if text.len() > 0 && text[0] == '\u{feff}' {
        text.subrange(1, text.len() as int)
    } else {
        text
    }
}

/// The settings that a text writes down. A missing or empty file holds no
/// settings; a text that is not JSON is none.
pub open spec fn settings_of(text: Option<Seq<char>>) -> Option<JsonNode> {
    match text {
        None => Some(JsonNode::Object(no_members())),
        Some(t) => if trimmed(without_mark(t)).len() == 0 {
            Some(JsonNode::Object(no_members()))
        } else {
            json_parsed(without_mark(t))
        },
    }
}

/// Reads settings. `text` is missing where there is no file. A byte order mark
/// is stripped (PowerShell and Notepad write one).
pub fn load_or_default(text: Option<&str>) -> (r: Option<serde_json::Value>)
    ensures
        settings_of(
            match text {
                Some(t) => Some(t@),
                None => None,
            },
        ) == (match r {
            Some(v) => Some(json_node(v)),
            None => None::<JsonNode>,
        }),
{
    let text = match text {
        Some(t) => t,
        None => return Some(json_object(serde_json::Map::new())),
    };
    let chars = chars_of(text);
    let start: usize = if chars.len() > 0 && chars[0] == '\u{feff}' {
        1
    } else {
        0
    };
    let body = string_of_range(&chars, start, chars.len());
    assert(body@ =~= without_mark(text@));
    if trim(&body).as_str().is_empty() {
        return Some(json_object(serde_json::Map::new()));
    }
    match parse_json(&body) {
        Ok(v) => Some(v),
        Err(_) => None,
    }
}

/// The text of settings: pretty JSON with LF line endings on every platform.
/// Where the settings hold no fraction and are not too deep, the text reads as
/// the settings again.
pub fn settings_text(value: &serde_json::Value) -> (s: String)
    ensures
        s@ == json_pretty(json_node(*value)).push('\n'),
        !s@.contains('\r'),
        plain_json(json_node(*value), 100) ==> json_parsed(s@) == Some(json_node(*value)),
{
    match print_json(value) {
        Ok(mut s) => {
            let ghost before = s@;
            s.push('\n');
            assert(!s@.contains('\r')) by {
                if s@.contains('\r') {
                    let i = choose|i: int| 0 <= i < s@.len() && s@[i] == '\r';
                    assert(before[i] == '\r');
                }
            }
            s
        },
        Err(_) => String::new(),
    }
}

/// The settings after the hook was installed in those that a text writes down.
pub open spec fn installed_in(text: Option<Seq<char>>, exe: Seq<char>) -> Result<
    JsonNode,
    InstallError,
> {
    match settings_of(text) {
        Some(settings) => installed(settings, exe),
        None => Err(InstallError::Parse),
    }
}

/// The new text of the settings, with the hook installed in them. `text` is
/// missing where there is no file.
pub fn install(text: Option<&str>, exe: &str) -> (r: Result<String, InstallError>)
    ensures
        ({
            let done = installed_in(
                match text {
                    Some(t) => Some(t@),
                    None => None,
                },
                exe@,
            );
            match r {
                Ok(s) => done matches Ok(settings) && s@ == json_pretty(settings).push('\n')
                    && !s@.contains('\r') && (plain_json(settings, 100) ==> json_parsed(s@) == Some(
                    settings,
                )),
                Err(e) => done == Err::<JsonNode, _>(e),
            }
        }),
{
    let mut root = match load_or_default(text) {
        Some(root) => root,
        None => return Err(InstallError::Parse),
    };
    match upsert_hook_entry(&mut root, exe) {
        Ok(()) => Ok(settings_text(&root)),
        Err(e) => Err(e),
    }
}

/// The new text of the settings, without the hook, and whether it was there.
/// Where there is no file, nothing is to be done.
pub fn uninstall(text: Option<&str>) -> (r: Result<Option<(String, bool)>, InstallError>)
    ensures
        match text {
            None => r matches Ok(None),
            Some(t) => match settings_of(Some(t@)) {
                None => r matches Err(InstallError::Parse),
                Some(settings) => r matches Ok(Some((s, removed))) && {
                    let left = uninstalled(settings).0;
                    &&& removed == uninstalled(settings).1
                    &&& s@ == json_pretty(left).push('\n')
                    &&& !s@.contains('\r')
                    &&& plain_json(left, 100) ==> json_parsed(s@) == Some(left)
                },
            },
        },
{
    if text.is_none() {
        return Ok(None);
    }
    let mut root = match load_or_default(text) {
        Some(root) => root,
        None => return Err(InstallError::Parse),
    };
    let removed = remove_hook_entry(&mut root);
    Ok(Some((settings_text(&root), removed)))
}

/// Where the settings are written before they replace the old ones.
pub fn temporary_path(path: &str) -> (p: String)
    ensures
        p@ == with_extension(path@, "json.tmp"@),
{
    replace_extension(path, "json.tmp")
}

/// The home directory, by the values of `HOME` and `USERPROFILE`: the first of
/// them that is set and not empty.
pub open spec fn home_folder(home: Option<Seq<char>>, profile: Option<Seq<char>>) -> Option<
    Seq<char>,
> {
    match (home, profile) {
        (Some(h), _) if h.len() > 0 => Some(h),
        (_, Some(p)) if p.len() > 0 => Some(p),
        _ => None,
    }
}

/// The home directory, by the values of `HOME` and `USERPROFILE`.
pub fn home_dir(home: Option<&str>, profile: Option<&str>) -> (r: Option<String>)
    ensures
        opt_view(r) == home_folder(
            match home {
                Some(s) => Some(s@),
                None => None,
            },
            match profile {
                Some(s) => Some(s@),
                None => None,
            },
        ),
{
    match home {
        Some(h) => if !h.is_empty() {
            return Some(h.to_owned());
        },
        None => {},
    }
    match profile {
        Some(p) => if !p.is_empty() {
            return Some(p.to_owned());
        },
        None => {},
    }
    None
}

/// The folder of the client's user-level settings.
pub fn claude_code_settings_dir(home: &str) -> (p: String)
    ensures
        p@ == join_paths(home@, settings_folder_name()),
{
    join_path(home, &settings_folder())
}

/// Cross-platform location of the client's user-level settings.
pub fn claude_code_settings_path(home: &str) -> (p: String)
    ensures
        p@ == join_paths(join_paths(home@, settings_folder_name()), "settings.json"@),
{
    join_path(&claude_code_settings_dir(home), "settings.json")
}

// ---------------------------------------------------------------------------
// Laws
// ---------------------------------------------------------------------------

proof fn lemma_others(entries: Seq<JsonNode>)
    ensures
        others(entries).len() <= entries.len(),
        forall|i: int| 0 <= i < others(entries).len() ==> !is_owned(#[trigger] others(entries)[i]),
        (forall|i: int| 0 <= i < entries.len() ==> !is_owned(#[trigger] entries[i])) ==> others(
            entries,
        ) == entries,
    decreases entries.len(),
{
    if entries.len() > 0 {
        let front = entries.drop_last();
        lemma_others(front);
        if forall|i: int| 0 <= i < entries.len() ==> !is_owned(#[trigger] entries[i]) {
            assert forall|i: int| 0 <= i < front.len() implies !is_owned(#[trigger] front[i]) by {
                assert(front[i] == entries[i]);
            }
            assert(!is_owned(entries[entries.len() - 1]));
            assert(front.push(entries.last()) =~= entries);
        }
    } else {
        assert(others(entries) =~= entries);
    }
}

proof fn lemma_hook_entry_is_owned(exe: Seq<char>)
    ensures
        is_owned(hook_entry(exe)),
{
    reveal_strlit("owner");
    reveal_strlit("hooks");
    reveal_strlit("matcher");
    assert("owner"@[0] == 'o' && "hooks"@[0] == 'h' && "matcher"@[0] == 'm');
}

proof fn lemma_others_push(entries: Seq<JsonNode>, entry: JsonNode)
    ensures
        others(entries.push(entry)) == (if is_owned(entry) {
            others(entries)
        } else {
            others(entries).push(entry)
        }),
{
    assert(entries.push(entry).drop_last() =~= entries);
}

/// A second installation replaces the entry of the first: only the last one
/// counts.
pub proof fn law_install_is_idempotent(settings: JsonNode, first: Seq<char>, second: Seq<char>)
    requires
        installed(settings, first) is Ok,
    ensures
        installed(installed(settings, first)->Ok_0, second) == installed(settings, second),
{
    let m = settings->Object_0;
    let hooks = object_or_empty(member(settings, "hooks"@))->0;
    let entries = array_or_empty(member(JsonNode::Object(hooks), "PreToolUse"@))->0;
    let once = others(entries).push(hook_entry(first));
    lemma_hook_entry_is_owned(first);
    lemma_others(entries);
    lemma_others(others(entries));
    lemma_others_push(others(entries), hook_entry(first));
    assert(others(once) == others(entries));
    let done = installed(settings, first)->Ok_0;
    let m1 = m.insert("hooks"@, JsonNode::Object(hooks.insert("PreToolUse"@, JsonNode::Array(once))));
    let h1 = hooks.insert("PreToolUse"@, JsonNode::Array(once));
    let twice = others(entries).push(hook_entry(second));
    assert(h1.insert("PreToolUse"@, JsonNode::Array(twice)) =~= hooks.insert(
        "PreToolUse"@,
        JsonNode::Array(twice),
    ));
    assert(m1.insert(
        "hooks"@,
        JsonNode::Object(hooks.insert("PreToolUse"@, JsonNode::Array(twice))),
    ) =~= m.insert(
        "hooks"@,
        JsonNode::Object(hooks.insert("PreToolUse"@, JsonNode::Array(twice))),
    ));
}

/// An installation keeps everything that is not AetherLink's own: every other
/// setting, every other kind of hook, and the other entries in order, with the
/// new entry behind them.
pub proof fn law_install_preserves_the_rest(settings: JsonNode, exe: Seq<char>, key: Seq<char>)
    requires
        installed(settings, exe) is Ok,
    ensures
        ({
            let done = installed(settings, exe)->Ok_0;
            let before = object_or_empty(member(settings, "hooks"@))->0;
            let after = member(done, "hooks"@)->0;
            &&& key != "hooks"@ ==> member(done, key) == member(settings, key)
            &&& key != "PreToolUse"@ ==> member(after, key) == member(
                JsonNode::Object(before),
                key,
            )
            &&& member(after, "PreToolUse"@) == Some(
                JsonNode::Array(
                    others(
                        array_or_empty(member(JsonNode::Object(before), "PreToolUse"@))->0,
                    ).push(hook_entry(exe)),
                ),
            )
        }),
{
}

/// Uninstalling undoes an installation: settings with an array of entries, none
/// of them AetherLink's own, come back as they were.
pub proof fn law_uninstall_undoes_install(settings: JsonNode, exe: Seq<char>)
    requires
        installed(settings, exe) is Ok,
        member(settings, "hooks"@) is Some,
        member(member(settings, "hooks"@)->0, "PreToolUse"@) is Some,
        forall|i: int|
            0 <= i < member(member(settings, "hooks"@)->0, "PreToolUse"@)->0->Array_0.len()
                ==> !is_owned(
                #[trigger] member(member(settings, "hooks"@)->0, "PreToolUse"@)->0->Array_0[i],
            ),
    ensures
        uninstalled(installed(settings, exe)->Ok_0) == (settings, true),
{
    let m = settings->Object_0;
    let hooks = member(settings, "hooks"@)->0->Object_0;
    let entries = hooks["PreToolUse"@]->Array_0;
    lemma_hook_entry_is_owned(exe);
    lemma_others(entries);
    lemma_others_push(entries, hook_entry(exe));
    let once = entries.push(hook_entry(exe));
    let h1 = hooks.insert("PreToolUse"@, JsonNode::Array(once));
    let m1 = m.insert("hooks"@, JsonNode::Object(h1));
    assert(h1.insert("PreToolUse"@, JsonNode::Array(entries)) =~= hooks);
    assert(m1.insert("hooks"@, JsonNode::Object(hooks)) =~= m);
}

/// After an uninstallation nothing of AetherLink's own is left: a second one
/// finds nothing and changes nothing.
pub proof fn law_uninstall_leaves_nothing(settings: JsonNode)
    ensures
        ({
            let done = uninstalled(settings).0;
            uninstalled(done) == (done, false)
        }),
{
    match settings {
        JsonNode::Object(m) => match member(settings, "hooks"@) {
            Some(JsonNode::Object(hooks)) => match member(
                JsonNode::Object(hooks),
                "PreToolUse"@,
            ) {
                Some(JsonNode::Array(entries)) => {
                    lemma_others(entries);
                    lemma_others(others(entries));
                    let left = JsonNode::Array(others(entries));
                    let h1 = hooks.insert("PreToolUse"@, left);
                    let m1 = m.insert("hooks"@, JsonNode::Object(h1));
                    assert(h1.insert("PreToolUse"@, left) =~= h1);
                    assert(m1.insert("hooks"@, JsonNode::Object(h1)) =~= m1);
                },
                _ => {},
            },
            _ => {},
        },
        _ => {},
    }
}

/// The entries of others are all entries but those that carry the owner tag, in
/// their order.
pub proof fn law_only_tagged_entries_go(entries: Seq<JsonNode>)
    ensures
        others(entries) == entries.filter(
            |e: JsonNode|
                !(e matches JsonNode::Object(m) && m.contains_key("owner"@) && m["owner"@]
                    == JsonNode::Text("aetherlink"@)),
        ),
    decreases entries.len(),
{
    reveal(Seq::filter);
    if entries.len() > 0 {
        law_only_tagged_entries_go(entries.drop_last());
    } else {
        assert(others(entries) =~= entries);
    }
}

/// After an installation the last hook before tool use is the one of this
/// program: it runs the program with the flag for the hook, whatever its path,
/// and it is called for each of the four tools that write files.
pub proof fn law_installed_hook_runs_the_program(settings: JsonNode, exe: Seq<char>)
    requires
        installed(settings, exe) is Ok,
    ensures
        ({
            let entries = installed(
                settings,
                exe,
            )->Ok_0->Object_0["hooks"@]->Object_0["PreToolUse"@]->Array_0;
            let entry = entries.last()->Object_0;
            &&& entries.len() > 0
            &&& entry["owner"@] == JsonNode::Text("aetherlink"@)
            &&& entry["matcher"@] == JsonNode::Text("Edit|Write|MultiEdit|NotebookEdit"@)
            &&& entry["hooks"@]->Array_0.len() == 1
            &&& entry["hooks"@]->Array_0[0]->Object_0["type"@] == JsonNode::Text("command"@)
            &&& entry["hooks"@]->Array_0[0]->Object_0["command"@] == JsonNode::Text(
                exe + " --hook-check"@,
            )
            &&& split("Edit|Write|MultiEdit|NotebookEdit"@, seq!['|']) == seq![
                "Edit"@,
                "Write"@,
                "MultiEdit"@,
                "NotebookEdit"@,
            ]
        }),
{
    reveal_strlit("owner");
    reveal_strlit("matcher");
    reveal_strlit("hooks");
    reveal_strlit("type");
    reveal_strlit("command");
    assert("owner"@[0] == 'o' && "matcher"@[0] == 'm' && "hooks"@[0] == 'h');
    assert("type"@[0] == 't' && "command"@[0] == 'c');
    let names = seq!["Edit"@, "Write"@, "MultiEdit"@, "NotebookEdit"@];
    reveal_strlit("Edit");
    reveal_strlit("Write");
    reveal_strlit("MultiEdit");
    reveal_strlit("NotebookEdit");
    reveal_strlit("Edit|Write|MultiEdit|NotebookEdit");
    assert forall|i: int| 0 <= i < names.len() implies !(#[trigger] names[i]).contains('|') by {
        assert(i == 0 || i == 1 || i == 2 || i == 3);
    }
    law_join_then_split(names, seq!['|']);
    let bar = seq!['|'];
    law_parts_are_joined_in_order(names[0], seq![names[1], names[2], names[3]], bar);
    law_parts_are_joined_in_order(names[1], seq![names[2], names[3]], bar);
    law_parts_are_joined_in_order(names[2], seq![names[3]], bar);
    law_parts_are_joined_in_order(names[3], Seq::empty(), bar);
    assert(seq![names[0]] + seq![names[1], names[2], names[3]] =~= names);
    assert(seq![names[1]] + seq![names[2], names[3]] =~= seq![names[1], names[2], names[3]]);
    assert(seq![names[2]] + seq![names[3]] =~= seq![names[2], names[3]]);
    assert(joined(names, bar) =~= "Edit|Write|MultiEdit|NotebookEdit"@);
}

/// A file without settings, an empty one, and one of white space alone, with or
/// without a byte order mark, count as settings without an entry.
pub proof fn law_blank_settings_are_empty(blank: Seq<char>)
    requires
        all_in(blank, CharClass::Space),
    ensures
        settings_of(None) == Some(JsonNode::Object(Map::<Seq<char>, JsonNode>::empty())),
        settings_of(Some(blank)) == Some(JsonNode::Object(Map::<Seq<char>, JsonNode>::empty())),
        settings_of(Some(seq!['\u{feff}'] + blank)) == Some(
            JsonNode::Object(Map::<Seq<char>, JsonNode>::empty()),
        ),
{
    let none = Seq::<char>::empty();
    law_trim_removes_the_ends(blank, none, none, CharClass::Space);
    assert(blank + none + none =~= blank);
    if blank.len() > 0 {
        assert(CharClass::Space.has(blank[0]));
    }
    let marked = seq!['\u{feff}'] + blank;
    assert(marked.subrange(1, marked.len() as int) =~= blank);
}

/// The home folder is the first of the two that is named and not empty.
pub proof fn law_home_is_the_first_that_is_named(home: Seq<char>, profile: Seq<char>)
    ensures
        home.len() > 0 ==> home_folder(Some(home), None) == Some(home) && home_folder(
            Some(home),
            Some(profile),
        ) == Some(home),
        profile.len() > 0 ==> home_folder(None, Some(profile)) == Some(profile) && home_folder(
            Some(Seq::empty()),
            Some(profile),
        ) == Some(profile),
        home_folder(None, None) is None,
        home_folder(Some(Seq::empty()), Some(Seq::empty())) is None,
{
}

} // verus!
