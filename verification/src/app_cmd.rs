//! The `app` subcommand's arguments.
use vstd::prelude::*;
use vstd::string::*;

verus! {

broadcast use vstd::string::group_string_axioms;

/// The workspace opened when no path is given.
pub open spec fn default_workspace_path() -> Seq<char> {
    "."@
}

/// Arguments of `codex app`: the workspace to open in Codex Desktop and an
/// optional override of the installer download URL.
pub struct AppCommand {
    pub path: String,
    pub download_url_override: Option<String>,
}

impl AppCommand {
    /// The command for the given arguments: the path defaults to `.`; the
    /// download URL has no default.
    pub fn from_args(path: Option<String>, download_url_override: Option<String>) -> (r: AppCommand)
        ensures
            path matches Some(p) ==> r.path == p,
            path is None ==> r.path@ == default_workspace_path(),
            r.download_url_override == download_url_override,
    {
        let path = match path {
            Some(p) => p,
            None => ".".to_string(),
        };
        AppCommand { path, download_url_override }
    }
}

} // verus!
