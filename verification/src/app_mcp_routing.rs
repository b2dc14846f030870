//! Which of the declared apps and configured MCP servers a session keeps.
use vstd::prelude::*;
use vstd::string::*;

use crate::mcp_server_map::McpServerMap;
use crate::text::lemma_same_multiset;
use crate::text::sort_strings;
use crate::text::sorted_lex;
use crate::text::str_starts_with;
use crate::text::string_views;

verus! {

broadcast use vstd::string::group_string_axioms;

/// How the session authenticates.
#[derive(Clone, Copy, Debug, PartialEq, Eq, Structural)]
pub enum AuthMode {
    ApiKey,
    Chatgpt,
    AgentIdentity,
}

impl AuthMode {
    /// Whether requests in this mode go through the Codex backend; only an
    /// API key talks to the model provider directly.
    pub fn uses_codex_backend(self) -> (r: bool)
        ensures
            r == !(self is ApiKey),
    {
        match self {
            AuthMode::ApiKey => false,
            AuthMode::Chatgpt => true,
            AuthMode::AgentIdentity => true,
        }
    }
}

/// The identifier of the connector behind an app.
pub struct AppConnectorId(pub String);

/// An app that a plugin declares.
pub struct AppDeclaration {
    pub name: String,
    pub connector_id: AppConnectorId,
    pub category: Option<String>,
}

/// The prefix of the connector ids of apps from the app directory.
pub open spec fn app_directory_prefix() -> Seq<char> {
    "asdk_app_"@
}

/// Apps are reachable only when the session authenticates through the
/// Codex backend.
pub open spec fn spec_apps_route_available(auth_mode: Option<AuthMode>) -> bool {
    auth_mode matches Some(mode) && !(mode is ApiKey)
}

/// Whether the apps route is available for `auth_mode`.
pub fn apps_route_available(auth_mode: Option<AuthMode>) -> (r: bool)
    ensures
        r == spec_apps_route_available(auth_mode),
{
    match auth_mode {
        Some(mode) => mode.uses_codex_backend(),
        None => false,
    }
}

/// Whether the connector id belongs to the app directory.
pub fn is_app_directory_connector_id(connector_id: &str) -> (r: bool)
    ensures
        r == app_directory_prefix().is_prefix_of(connector_id@),
{
    str_starts_with(connector_id, "asdk_app_")
}

/// `name` is the name of a declared app whose connector is not from the app
/// directory: such an app takes over the MCP server of the same name.
pub open spec fn is_routed_app_name(apps: Seq<AppDeclaration>, name: Seq<char>) -> bool {
    exists|i: int|
        0 <= i < apps.len() && #[trigger] apps[i].name@ == name
            && !app_directory_prefix().is_prefix_of(apps[i].connector_id.0@)
}

/// The names of the routed apps of `apps`.
pub open spec fn routed_app_names(apps: Seq<AppDeclaration>) -> Set<Seq<char>> {
    Set::new(|name: Seq<char>| is_routed_app_name(apps, name))
}

/// Collects the names of the apps whose connector is not from the app
/// directory.
fn routed_names(apps: &Vec<AppDeclaration>) -> (r: Vec<String>)
    ensures
        string_views(r@).to_set() == routed_app_names(apps@),
{
    let mut r: Vec<String> = Vec::new();
    let mut i: usize = 0;
    while i < apps.len()
        invariant
            i <= apps@.len(),
            forall|n: Seq<char>|
                #[trigger] string_views(r@).contains(n) <==> is_routed_app_name(
                    apps@.take(i as int),
                    n,
                ),
        decreases apps.len() - i,
    {
        let ghost before = string_views(r@);
        let directory = is_app_directory_connector_id(apps[i].connector_id.0.as_str());
        if !directory {
            let name = apps[i].name.clone();
            r.push(name);
            assert(string_views(r@) =~= before.push(apps@[i as int].name@));
        } else {
            assert(string_views(r@) =~= before);
        }
        proof {
            let t = apps@.take(i + 1);
            let p = apps@.take(i as int);
            assert(t.take(i as int) =~= p);
            assert(t[i as int] == apps@[i as int]);
            assert forall|n: Seq<char>|
                #[trigger] string_views(r@).contains(n) <==> is_routed_app_name(t, n) by {
                let own = !directory && n == apps@[i as int].name@;
                if is_routed_app_name(t, n) {
                    let k = choose|k: int|
                        0 <= k < t.len() && #[trigger] t[k].name@ == n
                            && !app_directory_prefix().is_prefix_of(t[k].connector_id.0@);
                    if k < i {
                        assert(p[k] == t[k]);
                        assert(is_routed_app_name(p, n));
                    } else {
                        assert(own);
                    }
                }
                if is_routed_app_name(p, n) {
                    let k = choose|k: int|
                        0 <= k < p.len() && #[trigger] p[k].name@ == n
                            && !app_directory_prefix().is_prefix_of(p[k].connector_id.0@);
                    assert(t[k] == p[k]);
                    assert(is_routed_app_name(t, n));
                }
                if own {
                    assert(is_routed_app_name(t, n));
                }
                if string_views(r@).contains(n) {
                    let k = choose|k: int| 0 <= k < string_views(r@).len() && string_views(r@)[k] == n;
                    if k < before.len() {
                        assert(before[k] == n);
                        assert(before.contains(n));
                    } else {
                        assert(own);
                    }
                }
                if before.contains(n) {
                    let k = choose|k: int| 0 <= k < before.len() && before[k] == n;
                    assert(string_views(r@)[k] == n);
                }
                if own {
                    assert(string_views(r@)[before.len() as int] == n);
                }
            }
        }
        i = i + 1;
    }
    proof {
        assert(apps@.take(apps@.len() as int) =~= apps@);
        assert(string_views(r@).to_set() =~= routed_app_names(apps@));
    }
    r
}

/// The app/MCP routing policy, on the declared apps and the MCP servers.
///
/// Without the apps route, no app is kept and MCP servers are untouched.
/// With it and an active plugin that declares apps, every MCP server that
/// has the name of a routed app (one whose connector is not from the app
/// directory) is dropped; apps are untouched. Otherwise nothing changes.
pub open spec fn routing_outcome<M>(
    apps: Seq<AppDeclaration>,
    mcp_servers: Map<Seq<char>, M>,
    auth_mode: Option<AuthMode>,
    plugin_active: bool,
) -> (Seq<AppDeclaration>, Map<Seq<char>, M>) {
    if !spec_apps_route_available(auth_mode) {
        (Seq::empty(), mcp_servers)
    } else if plugin_active && apps.len() > 0 {
        (apps, mcp_servers.remove_keys(routed_app_names(apps)))
    } else {
        (apps, mcp_servers)
    }
}

/// Applies the app/MCP routing policy; see [`routing_outcome`].
pub fn apply_app_mcp_routing_policy<M>(
    apps: &mut Vec<AppDeclaration>,
    mcp_servers: &mut McpServerMap<M>,
    auth_mode: Option<AuthMode>,
    plugin_active: bool,
)
    ensures
        (final(apps)@, final(mcp_servers)@) == routing_outcome(
            old(apps)@,
            old(mcp_servers)@,
            auth_mode,
            plugin_active,
        ),
{
    if !apps_route_available(auth_mode) {
        apps.clear();
        assert(apps@ =~= Seq::<AppDeclaration>::empty());
        return ;
    }
    if plugin_active && !apps.is_empty() {
        let names = routed_names(apps);
        mcp_servers.remove_named(&names);
    }
}

/// A declared app named `name` whose connector id is `connector_<name>`.
pub fn app(name: &str) -> (r: AppDeclaration)
    ensures
        r.name@ == name@,
        r.connector_id.0@ == "connector_"@ + name@,
        r.category is None,
{
    let mut connector_id = String::new();
    connector_id.append("connector_");
    connector_id.append(name);
    app_with_connector_id(name, connector_id.as_str())
}

/// A declared app with the given name and connector id and no category.
pub fn app_with_connector_id(name: &str, connector_id: &str) -> (r: AppDeclaration)
    ensures
        r.name@ == name@,
        r.connector_id.0@ == connector_id@,
        r.category is None,
{
    AppDeclaration {
        name: name.to_string(),
        connector_id: AppConnectorId(connector_id.to_string()),
        category: None,
    }
}

/// The map that a list of `(name, value)` pairs describes, later pairs
/// winning.
pub open spec fn pairs_map(pairs: Seq<(&str, i32)>) -> Map<Seq<char>, i32>
    decreases pairs.len(),
{
    if pairs.len() == 0 {
        Map::empty()
    } else {
        pairs_map(pairs.drop_last()).insert(pairs.last().0@, pairs.last().1)
    }
}

/// Builds an MCP server map from `(name, value)` pairs.
pub fn mcp_servers(pairs: Vec<(&str, i32)>) -> (r: McpServerMap<i32>)
    ensures
        r@ == pairs_map(pairs@),
{
    let mut r = McpServerMap::new();
    let mut i: usize = 0;
    while i < pairs.len()
        invariant
            i <= pairs@.len(),
            r@ == pairs_map(pairs@.take(i as int)),
        decreases pairs.len() - i,
    {
        let (name, value) = pairs[i];
        r.insert(name.to_string(), value);
        assert(pairs@.take(i + 1).drop_last() =~= pairs@.take(i as int));
        i = i + 1;
    }
    assert(pairs@.take(pairs@.len() as int) =~= pairs@);
    r
}

/// The names of `apps`, sorted.
pub fn sorted_app_names(apps: &Vec<AppDeclaration>) -> (r: Vec<String>)
    ensures
        string_views(r@).to_multiset() == apps@.map_values(|a: AppDeclaration| a.name@).to_multiset(),
        sorted_lex(string_views(r@)),
{
    let mut names: Vec<String> = Vec::new();
    let mut i: usize = 0;
    while i < apps.len()
        invariant
            i <= apps@.len(),
            string_views(names@) == apps@.take(i as int).map_values(|a: AppDeclaration| a.name@),
        decreases apps.len() - i,
    {
        let ghost before = string_views(names@);
        let name = apps[i].name.clone();
        names.push(name);
        assert(string_views(names@) =~= before.push(apps@[i as int].name@));
        assert(apps@.take(i + 1) =~= apps@.take(i as int).push(apps@[i as int]));
        assert(apps@.take(i + 1).map_values(|a: AppDeclaration| a.name@) =~= apps@.take(
            i as int,
        ).map_values(|a: AppDeclaration| a.name@).push(apps@[i as int].name@));
        i = i + 1;
    }
    assert(apps@.take(apps@.len() as int) =~= apps@);
    sort_strings(names)
}

/// The names of the configured MCP servers, sorted.
pub fn sorted_mcp_server_names<M>(mcp_servers: &McpServerMap<M>) -> (r: Vec<String>)
    ensures
        string_views(r@).no_duplicates(),
        string_views(r@).to_set() == mcp_servers@.dom(),
        sorted_lex(string_views(r@)),
{
    let keys = mcp_servers.keys();
    let r = sort_strings(keys);
    proof {
        lemma_same_multiset(string_views(keys@), string_views(r@));
    }
    r
}

/// Applying the routing policy a second time changes nothing.
pub proof fn lemma_routing_idempotent<M>(
    apps: Seq<AppDeclaration>,
    mcp_servers: Map<Seq<char>, M>,
    auth_mode: Option<AuthMode>,
    plugin_active: bool,
)
    ensures
        ({
            let once = routing_outcome(apps, mcp_servers, auth_mode, plugin_active);
            routing_outcome(once.0, once.1, auth_mode, plugin_active) == once
        }),
{
    let once = routing_outcome(apps, mcp_servers, auth_mode, plugin_active);
    if spec_apps_route_available(auth_mode) && plugin_active && apps.len() > 0 {
        let names = routed_app_names(apps);
        assert(once.1.remove_keys(names) =~= once.1);
    }
}

/// The policy never adds an MCP server nor changes one: the servers kept
/// are a part of the servers given.
pub proof fn lemma_routing_only_drops_servers<M>(
    apps: Seq<AppDeclaration>,
    mcp_servers: Map<Seq<char>, M>,
    auth_mode: Option<AuthMode>,
    plugin_active: bool,
)
    ensures
        routing_outcome(apps, mcp_servers, auth_mode, plugin_active).1.submap_of(mcp_servers),
{
}

/// An MCP server survives unless an app with a connector outside the app
/// directory is declared under its name.
pub proof fn lemma_routing_keeps_unclaimed_servers<M>(
    apps: Seq<AppDeclaration>,
    mcp_servers: Map<Seq<char>, M>,
    auth_mode: Option<AuthMode>,
    plugin_active: bool,
    name: Seq<char>,
)
    requires
        mcp_servers.dom().contains(name),
        !is_routed_app_name(apps, name),
    ensures
        routing_outcome(apps, mcp_servers, auth_mode, plugin_active).1.dom().contains(name),
        routing_outcome(apps, mcp_servers, auth_mode, plugin_active).1[name] == mcp_servers[name],
{
}

/// Apps whose connectors all come from the app directory never displace an
/// MCP server.
pub proof fn lemma_directory_apps_keep_all_servers<M>(
    apps: Seq<AppDeclaration>,
    mcp_servers: Map<Seq<char>, M>,
    auth_mode: Option<AuthMode>,
    plugin_active: bool,
)
    requires
        forall|i: int|
            0 <= i < apps.len() ==> app_directory_prefix().is_prefix_of(
                #[trigger] apps[i].connector_id.0@,
            ),
    ensures
        routing_outcome(apps, mcp_servers, auth_mode, plugin_active).1 == mcp_servers,
{
    assert(routed_app_names(apps) =~= Set::<Seq<char>>::empty());
    assert(mcp_servers.remove_keys(routed_app_names(apps)) =~= mcp_servers);
}

/// With the apps route (ChatGPT or agent-identity sign-in) and an active
/// plugin, every declared app whose connector id does not start with
/// `asdk_app_` takes over the MCP server of its name, however many apps
/// are declared: that server is dropped, and the apps are kept as given.
pub proof fn lemma_routing_drops_servers_of_routed_apps<M>(
    apps: Seq<AppDeclaration>,
    mcp_servers: Map<Seq<char>, M>,
    auth_mode: Option<AuthMode>,
    i: int,
)
    requires
        auth_mode == Some(AuthMode::Chatgpt) || auth_mode == Some(AuthMode::AgentIdentity),
        0 <= i < apps.len(),
        !"asdk_app_"@.is_prefix_of(apps[i].connector_id.0@),
    ensures
        !routing_outcome(apps, mcp_servers, auth_mode, true).1.dom().contains(apps[i].name@),
        routing_outcome(apps, mcp_servers, auth_mode, true).0 == apps,
{
    assert(is_routed_app_name(apps, apps[i].name@));
    assert(routed_app_names(apps).contains(apps[i].name@));
}

/// Without the apps route (no sign-in, or an API key) no app is kept and
/// the MCP servers stay as they are.
pub proof fn lemma_routing_without_apps_route<M>(
    apps: Seq<AppDeclaration>,
    mcp_servers: Map<Seq<char>, M>,
    auth_mode: Option<AuthMode>,
    plugin_active: bool,
)
    requires
        auth_mode is None || auth_mode == Some(AuthMode::ApiKey),
    ensures
        routing_outcome(apps, mcp_servers, auth_mode, plugin_active).0.len() == 0,
        routing_outcome(apps, mcp_servers, auth_mode, plugin_active).1 == mcp_servers,
{
}

/// With the apps route but no active plugin, apps and MCP servers stay as
/// they are.
pub proof fn lemma_routing_with_inactive_plugin<M>(
    apps: Seq<AppDeclaration>,
    mcp_servers: Map<Seq<char>, M>,
    auth_mode: Option<AuthMode>,
)
    requires
        auth_mode == Some(AuthMode::Chatgpt) || auth_mode == Some(AuthMode::AgentIdentity),
    ensures
        routing_outcome(apps, mcp_servers, auth_mode, false) == (apps, mcp_servers),
{
}

} // verus!
