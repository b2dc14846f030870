use codex_logic::app_mcp_routing::app;
use codex_logic::app_mcp_routing::app_with_connector_id;
use codex_logic::app_mcp_routing::apply_app_mcp_routing_policy;
use codex_logic::app_mcp_routing::apps_route_available;
use codex_logic::app_mcp_routing::is_app_directory_connector_id;
use codex_logic::app_mcp_routing::mcp_servers;
use codex_logic::app_mcp_routing::sorted_app_names;
use codex_logic::app_mcp_routing::sorted_mcp_server_names;
use codex_logic::app_mcp_routing::AuthMode;

#[test]
fn apps_route_available_tracks_auth_mode() {
    assert!(apps_route_available(Some(AuthMode::Chatgpt)));
    assert!(apps_route_available(Some(AuthMode::AgentIdentity)));
    assert!(!apps_route_available(Some(AuthMode::ApiKey)));
    assert!(!apps_route_available(None));
}

#[test]
fn app_mcp_routing_clears_apps_when_apps_route_is_unavailable() {
    let mut apps = vec![app("linear")];
    let mut mcp_servers = mcp_servers(vec![("linear", 1), ("docs", 2)]);

    apply_app_mcp_routing_policy(&mut apps, &mut mcp_servers, Some(AuthMode::ApiKey), true);

    assert!(apps.is_empty());
    assert_eq!(
        sorted_mcp_server_names(&mcp_servers),
        vec!["docs".to_string(), "linear".to_string()]
    );
}

#[test]
fn app_mcp_routing_preserves_conflicting_mcp_and_removes_app_with_apps_route() {
    let mut apps = vec![app("linear"), app("notion")];
    let mut mcp_servers = mcp_servers(vec![("linear", 1), ("docs", 2), ("notion", 3)]);

    apply_app_mcp_routing_policy(&mut apps, &mut mcp_servers, Some(AuthMode::Chatgpt), true);

    assert_eq!(
        sorted_app_names(&apps),
        vec!["linear".to_string(), "notion".to_string()]
    );
    assert_eq!(sorted_mcp_server_names(&mcp_servers), vec!["docs".to_string()]);
}

#[test]
fn app_mcp_routing_preserves_mcp_conflict_for_app_directory_connectors() {
    let mut apps = vec![app_with_connector_id(
        "context7",
        "asdk_app_69ef18c674308191a2f952431f91ea61",
    )];
    let mut mcp_servers = mcp_servers(vec![("context7", 1), ("docs", 2)]);

    apply_app_mcp_routing_policy(&mut apps, &mut mcp_servers, Some(AuthMode::Chatgpt), true);

    assert_eq!(sorted_app_names(&apps), vec!["context7".to_string()]);
    assert_eq!(
        sorted_mcp_server_names(&mcp_servers),
        vec!["context7".to_string(), "docs".to_string()]
    );
}

#[test]
fn app_mcp_routing_preserves_mcp_conflicts_when_plugin_is_inactive() {
    let mut apps = vec![app("linear")];
    let mut mcp_servers = mcp_servers(vec![("linear", 1), ("docs", 2)]);

    apply_app_mcp_routing_policy(&mut apps, &mut mcp_servers, Some(AuthMode::Chatgpt), false);

    assert_eq!(sorted_app_names(&apps), vec!["linear".to_string()]);
    assert_eq!(
        sorted_mcp_server_names(&mcp_servers),
        vec!["docs".to_string(), "linear".to_string()]
    );
}

#[test]
fn app_connector_id_is_derived_from_name() {
    let a = app("linear");
    assert_eq!(a.name, "linear");
    assert_eq!(a.connector_id.0, "connector_linear");
    assert!(a.category.is_none());
}

#[test]
fn app_directory_connector_ids_are_recognised_by_prefix() {
    assert!(is_app_directory_connector_id("asdk_app_123"));
    assert!(is_app_directory_connector_id("asdk_app_"));
    assert!(!is_app_directory_connector_id("asdk_ap"));
    assert!(!is_app_directory_connector_id("connector_asdk_app_1"));
    assert!(!is_app_directory_connector_id(""));
}

#[test]
fn routing_policy_applied_twice_is_applied_once() {
    let mut apps = vec![app("linear"), app("notion")];
    let mut servers = mcp_servers(vec![("linear", 1), ("docs", 2), ("notion", 3)]);
    apply_app_mcp_routing_policy(&mut apps, &mut servers, Some(AuthMode::AgentIdentity), true);
    let first = sorted_mcp_server_names(&servers);
    apply_app_mcp_routing_policy(&mut apps, &mut servers, Some(AuthMode::AgentIdentity), true);
    assert_eq!(sorted_mcp_server_names(&servers), first);
    assert_eq!(first, vec!["docs".to_string()]);
}

#[test]
fn routing_with_no_apps_keeps_every_server() {
    let mut apps = Vec::new();
    let mut servers = mcp_servers(vec![("linear", 1), ("docs", 2)]);
    apply_app_mcp_routing_policy(&mut apps, &mut servers, Some(AuthMode::Chatgpt), true);
    assert_eq!(
        sorted_mcp_server_names(&servers),
        vec!["docs".to_string(), "linear".to_string()]
    );
}

#[test]
fn mcp_server_map_keeps_last_value_for_repeated_name() {
    let servers = mcp_servers(vec![("docs", 1), ("docs", 5), ("a", 2)]);
    assert_eq!(sorted_mcp_server_names(&servers), vec!["a".to_string(), "docs".to_string()]);
    assert!(servers.contains_key("docs"));
    assert!(!servers.contains_key("linear"));
}

#[test]
fn sorted_names_use_byte_order() {
    let apps = vec![app("beta"), app("Alpha"), app("alpha"), app("é"), app("alph")];
    assert_eq!(
        sorted_app_names(&apps),
        vec![
            "Alpha".to_string(),
            "alph".to_string(),
            "alpha".to_string(),
            "beta".to_string(),
            "é".to_string()
        ]
    );
}
