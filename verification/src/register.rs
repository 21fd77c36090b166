//! The entry in the configuration of the desktop client, and the starter rules.
use vstd::prelude::*;
use vstd::string::*;

use crate::client::{client_folder, client_title};
use crate::install_hook::{load_or_default, object_or_empty, settings_of};
use crate::json::{
    json_array, json_entries, json_entry_or, json_node, json_nodes, json_object, json_parsed,
    json_pretty, json_text, member, no_members, plain_json, print_json, put, JsonNode,
};
use crate::paths::{join_path, join_paths};
use crate::rules::config::config_file_name;
use crate::status::Platform;

verus! {

// ---------------------------------------------------------------------------
// The configuration of the desktop client
// ---------------------------------------------------------------------------

/// The entry that runs the server.
pub open spec fn server_entry(exe: Seq<char>) -> JsonNode {
    JsonNode::Object(
        no_members().insert("command"@, JsonNode::Text(exe)).insert(
            "args"@,
            JsonNode::Array(Seq::empty()),
        ),
    )
}

/// Why the server cannot be registered.
#[derive(Debug, Clone, Copy, PartialEq, Eq, Structural)]
pub enum RegisterError {
    /// The configuration is not JSON.
    Parse,
    /// The configuration is not an object.
    Root,
    /// `mcpServers` is not an object.
    Servers,
}

impl RegisterError {
    /// What the error says of the configuration at the path.
    pub open spec fn text(self, path: Seq<char>) -> Seq<char> {
        match self {
            RegisterError::Parse => "parsing existing "@ + path,
            RegisterError::Root => client_title() + " config root is not a JSON object"@,
            RegisterError::Servers => "'mcpServers' exists but is not a JSON object"@,
        }
    }

    /// What the error says of the configuration at the path.
    pub fn message(self, path: &str) -> (s: String)
        ensures
            s@ == self.text(path@),
    {
        match self {
            RegisterError::Parse => {
                let mut s = "parsing existing ".to_owned();
                s.append(path);
                s
            },
            RegisterError::Root => {
                let mut s = client_folder();
                s.append(" config root is not a JSON object");
                s
            },
            RegisterError::Servers => "'mcpServers' exists but is not a JSON object".to_owned(),
        }
    }
}

/// The configuration after the server was registered: its entry is put under
/// `mcpServers`, in place of an older one, and everything else is kept.
pub open spec fn registered(config: JsonNode, exe: Seq<char>) -> Result<JsonNode, RegisterError> {
    match config {
        JsonNode::Object(m) => match object_or_empty(member(config, "mcpServers"@)) {
            None => Err(RegisterError::Servers),
            Some(servers) => Ok(
                JsonNode::Object(
                    m.insert(
                        "mcpServers"@,
                        JsonNode::Object(servers.insert("aetherlink"@, server_entry(exe))),
                    ),
                ),
            ),
        },
        _ => Err(RegisterError::Root),
    }
}

/// The configuration that a text writes down, after the server was registered.
pub open spec fn registered_text(text: Option<Seq<char>>, exe: Seq<char>) -> Result<
    JsonNode,
    RegisterError,
> {
    match settings_of(text) {
        None => Err(RegisterError::Parse),
        Some(config) => registered(config, exe),
    }
}

fn server_json(exe: &str) -> (v: serde_json::Value)
    ensures
        json_node(v) == server_entry(exe@),
{
    let none: Vec<serde_json::Value> = Vec::new();
    assert(json_nodes(none@) =~= Seq::<JsonNode>::empty());
    let mut m = serde_json::Map::new();
    put(&mut m, "command", json_text(exe));
    put(&mut m, "args", json_array(none));
    json_object(m)
}

/// Put the server's entry into a configuration. Always overwrites, so that
/// re-running after moving the binary updates the path correctly.
pub fn register_entry(config: &mut serde_json::Value, exe: &str) -> (r: Result<(), RegisterError>)
    ensures
        match r {
            Ok(_) => registered(json_node(*old(config)), exe@) == Ok::<_, RegisterError>(
                json_node(*final(config)),
            ),
            Err(e) => registered(json_node(*old(config)), exe@) == Err::<JsonNode, _>(e)
                && json_node(*final(config)) == json_node(*old(config)),
        },
{
    let root = match config.as_object_mut() {
        Some(root) => root,
        None => return Err(RegisterError::Root),
    };
    let ghost m = json_entries(*root);
    let servers = match json_entry_or(
        root,
        "mcpServers",
        json_object(serde_json::Map::new()),
    ).as_object_mut() {
        Some(servers) => servers,
        None => {
            assert(m.insert("mcpServers"@, m["mcpServers"@]) =~= m);
            return Err(RegisterError::Servers);
        },
    };
    put(servers, "aetherlink", server_json(exe));
    Ok(())
}

/// The new text of the configuration, with the server registered in it.
/// `existing` is missing where there is no file. Where the configuration holds
/// no fraction and is not too deep, the text reads as the configuration again.
pub fn register_mcp_server(existing: Option<&str>, exe: &str) -> (r: Result<String, RegisterError>)
    ensures
        ({
            let done = registered_text(
                match existing {
                    Some(t) => Some(t@),
                    None => None,
                },
                exe@,
            );
            match r {
                Ok(s) => done matches Ok(node) && s@ == json_pretty(node) && (plain_json(node, 100)
                    ==> json_parsed(s@) == Some(node)),
                Err(e) => done == Err::<JsonNode, _>(e),
            }
        }),
{
    let mut config = match load_or_default(existing) {
        Some(config) => config,
        None => return Err(RegisterError::Parse),
    };
    match register_entry(&mut config, exe) {
        Ok(()) => {},
        Err(e) => return Err(e),
    }
    match print_json(&config) {
        Ok(s) => Ok(s),
        Err(_) => Err(RegisterError::Parse),
    }
}

/// The folder of the desktop client's configuration, below the folder that the
/// platform's environment names. Other platforms are not supported.
pub open spec fn config_folder(platform: Platform, base: Seq<char>) -> Option<Seq<char>> {
    match platform {
        Platform::Windows => Some(join_paths(base, client_title())),
        Platform::MacOs => Some(
            join_paths(
                join_paths(join_paths(base, "Library"@), "Application Support"@),
                client_title(),
            ),
        ),
        Platform::Linux => Some(join_paths(join_paths(base, ".config"@), client_title())),
        Platform::Other => None,
    }
}

/// What is said where the folder cannot be told.
pub open spec fn no_folder(platform: Platform) -> Seq<char> {
    match platform {
        Platform::Windows => "APPDATA environment variable is not set"@,
        Platform::Other => "unsupported operating system"@,
        _ => "HOME environment variable is not set"@,
    }
}

/// The folder of the desktop client's configuration, given the value of the
/// environment variable that names the folder of application data.
pub fn locate_claude_config(platform: Platform, base: Option<&str>) -> (r: Result<
    String,
    &'static str,
>)
    ensures
        match r {
            Ok(p) => base matches Some(b) && config_folder(platform, b@) == Some(p@),
            Err(e) => (base is None || platform == Platform::Other) && e@ == no_folder(platform),
        },
{
    match (platform, base) {
        (Platform::Windows, Some(base)) => Ok(join_path(base, &client_folder())),
        (Platform::MacOs, Some(base)) => Ok(
            join_path(
                &join_path(&join_path(base, "Library"), "Application Support"),
                &client_folder(),
            ),
        ),
        (Platform::Linux, Some(base)) => Ok(join_path(&join_path(base, ".config"), &client_folder())),
        (Platform::Windows, None) => Err("APPDATA environment variable is not set"),
        (Platform::Other, _) => Err("unsupported operating system"),
        (_, None) => Err("HOME environment variable is not set"),
    }
}

// ---------------------------------------------------------------------------
// The starter rules
// ---------------------------------------------------------------------------

/// The rules file that a project starts with.
pub open spec fn starter_rules() -> Seq<char> {
    "# AetherLink architectural rules.\n# Edit these to define the laws AetherLink will enforce on your project.\n\n[rules]\n# Reject any source file longer than this many lines.\nmax_file_lines = 500\n\n# Block circular dependencies in the import graph.\nno_cycles = true\n\n# Block specific cross-folder imports. Format: \"from -> to\".\n# Each side matches any directory component of a file's path.\n# Example: forbidden_imports = [\"ui -> db\", \"api -> secret\"]\nforbidden_imports = []\n"@
}

/// The rules file that a project starts with.
pub fn starter_toml() -> (s: &'static str)
    ensures
        s@ == starter_rules(),
{
    "# AetherLink architectural rules.\n# Edit these to define the laws AetherLink will enforce on your project.\n\n[rules]\n# Reject any source file longer than this many lines.\nmax_file_lines = 500\n\n# Block circular dependencies in the import graph.\nno_cycles = true\n\n# Block specific cross-folder imports. Format: \"from -> to\".\n# Each side matches any directory component of a file's path.\n# Example: forbidden_imports = [\"ui -> db\", \"api -> secret\"]\nforbidden_imports = []\n"
}

/// What becomes of the rules file of a folder.
#[derive(Debug, PartialEq, Eq)]
pub enum StarterTomlOutcome {
    /// The starter rules are written to the path.
    Created(String),
    /// The rules at the path are left untouched.
    AlreadyExists(String),
}

/// Drop a starter `AetherLink.toml` into a folder if one is not already there.
/// Never overwrites: users may have customized it.
pub fn ensure_starter_toml(folder: &str, already_there: bool) -> (r: StarterTomlOutcome)
    ensures
        match r {
            StarterTomlOutcome::Created(p) => !already_there && p@ == join_paths(
                folder@,
                config_file_name(),
            ),
            StarterTomlOutcome::AlreadyExists(p) => already_there && p@ == join_paths(
                folder@,
                config_file_name(),
            ),
        },
{
    let path = join_path(folder, "AetherLink.toml");
    if already_there {
        StarterTomlOutcome::AlreadyExists(path)
    } else {
        StarterTomlOutcome::Created(path)
    }
}

// ---------------------------------------------------------------------------
// Laws
// ---------------------------------------------------------------------------

/// A registration keeps every other setting and every other server.
pub proof fn law_registration_preserves_the_rest(config: JsonNode, exe: Seq<char>, key: Seq<char>)
    requires
        registered(config, exe) is Ok,
    ensures
        ({
            let done = registered(config, exe)->Ok_0;
            let before = object_or_empty(member(config, "mcpServers"@))->0;
            let after = member(done, "mcpServers"@)->0;
            &&& key != "mcpServers"@ ==> member(done, key) == member(config, key)
            &&& key != "aetherlink"@ ==> member(after, key) == member(
                JsonNode::Object(before),
                key,
            )
            &&& member(after, "aetherlink"@) == Some(server_entry(exe))
        }),
{
}

/// A second registration replaces the entry of the first: only the last one
/// counts.
pub proof fn law_registration_is_idempotent(
    config: JsonNode,
    first: Seq<char>,
    second: Seq<char>,
)
    requires
        registered(config, first) is Ok,
    ensures
        registered(registered(config, first)->Ok_0, second) == registered(config, second),
{
    let m = config->Object_0;
    let servers = object_or_empty(member(config, "mcpServers"@))->0;
    let s1 = servers.insert("aetherlink"@, server_entry(first));
    let s2 = servers.insert("aetherlink"@, server_entry(second));
    let m1 = m.insert("mcpServers"@, JsonNode::Object(s1));
    assert(s1.insert("aetherlink"@, server_entry(second)) =~= s2);
    assert(m1.insert("mcpServers"@, JsonNode::Object(s2)) =~= m.insert(
        "mcpServers"@,
        JsonNode::Object(s2),
    ));
}

/// A registered server runs the program under its path, without arguments.
pub proof fn law_registered_server_runs_the_program(config: JsonNode, exe: Seq<char>)
    ensures
        registered(config, exe) is Ok <==> (config matches JsonNode::Object(m) && (
        m.contains_key("mcpServers"@) ==> m["mcpServers"@] is Object)),
        registered(config, exe) matches Ok(done) ==> {
            let server = done->Object_0["mcpServers"@]->Object_0["aetherlink"@]->Object_0;
            &&& server["command"@] == JsonNode::Text(exe)
            &&& server["args"@] == JsonNode::Array(Seq::empty())
        },
{
    reveal_strlit("command");
    reveal_strlit("args");
    assert("command"@.len() == 7 && "args"@.len() == 4);
}

} // verus!
