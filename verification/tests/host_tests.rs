use aish::error::Error;
use aish::host::BridgeHost;
use aish::plugins::{DiscoveredPlugin, McpToolId, PluginPolicyToml, PluginToml, ToolDescriptor};

fn plugin(id: &str, namespace: &str, enabled: bool) -> DiscoveredPlugin {
    DiscoveredPlugin {
        config: PluginToml {
            id: id.to_string(),
            namespace: namespace.to_string(),
            display_name: None,
            command: "run".to_string(),
            args: Vec::new(),
            cwd: None,
            env_allowlist: Vec::new(),
            enabled,
            timeout_ms: None,
            policy: PluginPolicyToml { default_tool_mode: None, capabilities_hint: Vec::new(), notes: None },
        },
        source: format!("/p/{}.toml", id),
    }
}

fn tool(id: &str) -> ToolDescriptor {
    ToolDescriptor { id: McpToolId::new(id.to_string()), display_name: id.to_string(), schema: "{}".to_string(), capabilities_hint: Vec::new() }
}

fn message(e: Error) -> String {
    match e {
        Error::InvalidArgument(m) => m,
        other => panic!("expected a usage error, got {:?}", other),
    }
}

fn host() -> BridgeHost {
    let mut h = BridgeHost::new();
    assert!(h.needs_refresh());
    h.refresh(vec![plugin("docs", "acme", true), plugin("off", "beta", false), plugin("docs", "other", true)]);
    assert!(!h.needs_refresh());
    h
}

#[test]
fn plugins_are_found_by_id_and_must_be_enabled() {
    let h = host();
    assert_eq!(h.plugin_by_id("docs"), Some(0));
    assert_eq!(h.usable_plugin("docs").unwrap(), 0);
    assert_eq!(message(h.usable_plugin("nope").unwrap_err()), "plugin not found: nope");
    assert_eq!(message(h.usable_plugin("off").unwrap_err()), "plugin disabled: off (deny-by-default)");
}

#[test]
fn listed_tools_are_called_through_their_server_and_name() {
    let mut h = host();
    let out = h.record_tools("docs", vec![(tool("acme.search"), "search".to_string()), (tool("acme.get"), "get".to_string())]);
    assert_eq!(out.len(), 2);
    assert_eq!(out[0].id.0, "acme.search");
    assert_eq!(h.binding_for_tool_id("acme.search"), Some(("docs".to_string(), "search".to_string())));
    assert_eq!(h.resolve_call("acme.get").unwrap(), (0, "get".to_string()));
    // A later listing of the same id takes its place.
    h.record_tools("docs", vec![(tool("acme.get"), "get2".to_string())]);
    assert_eq!(h.binding_for_tool_id("acme.get"), Some(("docs".to_string(), "get2".to_string())));
    assert_eq!(h.bindings.len(), 2);
}

#[test]
fn unlisted_tools_are_found_by_namespace() {
    let h = host();
    assert_eq!(h.resolve_call("acme.search").unwrap(), (0, "acme.search".to_string()));
    assert_eq!(message(h.resolve_call("beta.x").unwrap_err()), "tool not registered: beta.x");
    assert_eq!(message(h.resolve_call("zzz").unwrap_err()), "tool not registered: zzz");
}

#[test]
fn a_binding_to_a_disabled_plugin_is_refused() {
    let mut h = host();
    h.record_tools("off", vec![(tool("beta.x"), "x".to_string())]);
    assert_eq!(message(h.resolve_call("beta.x").unwrap_err()), "plugin disabled: off (deny-by-default)");
}
