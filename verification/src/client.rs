//! The names of the client that runs the server and the hook.
use vstd::prelude::*;
use vstd::string::*;

use crate::paths::{join_path, join_paths};
use crate::text::{chars_of, string_of_range};

verus! {

/// The name of the desktop client's configuration file.
pub open spec fn desktop_config_file() -> Seq<char> {
    "claude_desktop_config.json"@
}

/// The client's name in small letters, which its configuration file begins
/// with.
pub open spec fn client_name() -> Seq<char> {
    desktop_config_file().take(6)
}

/// The client's name with a capital.
pub open spec fn client_title() -> Seq<char> {
    seq!['C'] + client_name().skip(1)
}

/// The folder of the user-level settings, in the home folder.
pub open spec fn settings_folder_name() -> Seq<char> {
    seq!['.'] + client_name()
}

proof fn lemma_desktop_config_file()
    ensures
        desktop_config_file().len() == 26,
        desktop_config_file()[0] == 'c',
        desktop_config_file()[6] == '_',
{
    reveal_strlit("claude_desktop_config.json");
}

/// The client's name with a capital: the name of its application folder.
pub fn client_folder() -> (s: String)
    ensures
        s@ == client_title(),
{
    proof {
        lemma_desktop_config_file();
        reveal_strlit("C");
    }
    let file = chars_of("claude_desktop_config.json");
    let mut s = "C".to_owned();
    s.append(string_of_range(&file, 1, 6).as_str());
    assert(s@ =~= client_title());
    s
}

/// The name of the folder of user-level settings.
pub fn settings_folder() -> (s: String)
    ensures
        s@ == settings_folder_name(),
{
    proof {
        lemma_desktop_config_file();
        reveal_strlit(".");
    }
    let file = chars_of("claude_desktop_config.json");
    let mut s = ".".to_owned();
    s.append(string_of_range(&file, 0, 6).as_str());
    assert(s@ =~= settings_folder_name());
    s
}

/// The desktop client's configuration file in its application folder.
pub fn desktop_config_path(folder: &str) -> (p: String)
    ensures
        p@ == join_paths(folder@, desktop_config_file()),
{
    join_path(folder, "claude_desktop_config.json")
}

} // verus!
