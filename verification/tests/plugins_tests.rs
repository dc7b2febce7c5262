use aish::error::Error;
use aish::plugins::{
    canonical_tool_id, discover_plugins_with_catalog, is_manifest_path, is_toml_path, read_legacy_yaml_manifest,
    server_descriptor_from_plugin, tool_descriptor_from_item, DiscoveredPlugin, ListToolsItem, PluginPolicyToml,
    PluginToml, manifest_paths, DirEntryInfo,
};

fn acme(capabilities: Vec<String>) -> PluginToml {
    PluginToml {
        id: "acme-docs".to_string(),
        namespace: "acme".to_string(),
        display_name: Some("Acme Docs".to_string()),
        command: "python".to_string(),
        args: vec!["server.py".to_string()],
        cwd: None,
        env_allowlist: Vec::new(),
        enabled: true,
        timeout_ms: Some(10_000),
        policy: PluginPolicyToml {
            default_tool_mode: Some("require_approval".to_string()),
            capabilities_hint: capabilities,
            notes: Some("Calls internal docs/search API".to_string()),
        },
    }
}

#[test]
fn server_descriptor_includes_policy_hints() {
    let plugin = DiscoveredPlugin { config: acme(vec!["network".to_string()]), source: "/tmp/plugin.toml".to_string() };
    let desc = server_descriptor_from_plugin(&plugin);
    assert_eq!(desc.id.0, "acme-docs".to_string());
    assert_eq!(desc.namespace, "acme".to_string());
    assert_eq!(desc.display_name, "Acme Docs".to_string());
    assert_eq!(desc.enabled, true);
    assert_eq!(desc.source.as_deref(), Some("/tmp/plugin.toml"));
    assert_eq!(desc.default_tool_mode_hint.as_deref(), Some("require_approval"));
    assert_eq!(desc.notes.as_deref(), Some("Calls internal docs/search API"));
}

#[test]
fn tool_descriptor_includes_capabilities_hint_from_policy() {
    let cfg = acme(vec!["network".to_string(), "fs_read".to_string()]);
    let item = ListToolsItem {
        name: "search".to_string(),
        description: "Search docs".to_string(),
        input_schema: r#"{"type":"object"}"#.to_string(),
    };
    let desc = tool_descriptor_from_item(&cfg, item);
    assert_eq!(desc.id.0, "acme.search".to_string());
    assert_eq!(desc.display_name, "Search docs".to_string());
    assert_eq!(desc.capabilities_hint, vec!["network".to_string(), "fs_read".to_string()]);
}

#[test]
fn tool_descriptor_defaults() {
    let cfg = acme(vec![]);
    let item = ListToolsItem { name: "x.y".to_string(), description: "   ".to_string(), input_schema: "null".to_string() };
    let desc = tool_descriptor_from_item(&cfg, item);
    assert_eq!(desc.id.0, "x.y");
    assert_eq!(desc.display_name, "x.y");
    assert_eq!(desc.schema, "{\"properties\":{},\"type\":\"object\"}");
    assert_eq!(canonical_tool_id("ns", "t").0, "ns.t");
}

#[test]
fn server_display_name_falls_back_to_id() {
    let mut cfg = acme(vec![]);
    cfg.display_name = None;
    let d = server_descriptor_from_plugin(&DiscoveredPlugin { config: cfg, source: "s".to_string() });
    assert_eq!(d.display_name, "acme-docs");
}

#[test]
fn legacy_yaml_is_parsed_with_deny_by_default_enabled() {
    let text = "id: yaml-plugin\ntransport:\n  type: stdio\n  command: /bin/echo\n  args: [hello]\ntimeouts:\n  call_ms: 1234\n";
    let p = read_legacy_yaml_manifest(text, "/p/legacy.yaml").unwrap();
    assert_eq!(p.id, "yaml-plugin");
    assert_eq!(p.namespace, "yaml-plugin");
    assert_eq!(p.display_name.as_deref(), Some("yaml-plugin"));
    assert_eq!(p.command, "/bin/echo");
    assert_eq!(p.args, vec!["hello".to_string()]);
    assert!(!p.enabled);
    assert_eq!(p.timeout_ms, Some(1234));
    assert!(p.cwd.is_none());
    assert!(p.env_allowlist.is_empty());
    assert!(p.policy.default_tool_mode.is_none());
}

#[test]
fn legacy_yaml_policy_section_is_parsed_if_present() {
    let text = "id: yaml-plugin-policy\nenabled: true\ntransport:\n  command: run\npolicy:\n  default_tool_mode: deny\n  capabilities_hint: [fs_read, network, 3]\n  notes: Sensitive internal plugin\n";
    let p = read_legacy_yaml_manifest(text, "/p/legacy_policy.yaml").unwrap();
    assert!(p.enabled);
    assert_eq!(p.policy.default_tool_mode.as_deref(), Some("deny"));
    assert_eq!(p.policy.capabilities_hint, vec!["fs_read".to_string(), "network".to_string()]);
    assert_eq!(p.policy.notes.as_deref(), Some("Sensitive internal plugin"));
}

fn message(e: Error) -> String {
    e.message()
}

#[test]
fn legacy_yaml_errors() {
    assert_eq!(message(read_legacy_yaml_manifest("- a\n- b\n", "/x").unwrap_err()), "manifest must be a YAML object");
    assert_eq!(message(read_legacy_yaml_manifest("transport: {command: c}\n", "/x").unwrap_err()), "missing id");
    assert_eq!(message(read_legacy_yaml_manifest("id: a\n", "/x").unwrap_err()), "missing transport");
    assert_eq!(
        message(read_legacy_yaml_manifest("id: a\ntransport: {type: http, command: c}\n", "/x").unwrap_err()),
        "unsupported transport type: http"
    );
    assert_eq!(message(read_legacy_yaml_manifest("id: a\ntransport: {type: stdio}\n", "/x").unwrap_err()), "transport.command required");
    let e = read_legacy_yaml_manifest("id: [", "/x").unwrap_err();
    assert!(e.is_usage());
    assert!(message(e).starts_with("invalid yaml /x: "));
}

fn plugin(id: &str, cmd: &str) -> PluginToml {
    let mut p = acme(vec![]);
    p.id = id.to_string();
    p.command = cmd.to_string();
    p
}

#[test]
fn duplicate_ids_prefer_first_and_skip_later() {
    let found = discover_plugins_with_catalog(vec![
        ("01_first.yaml".to_string(), Ok(plugin("same-id", "cmd-first"))),
        ("02_second.yaml".to_string(), Ok(plugin("same-id", "cmd-second"))),
        ("03_other.yaml".to_string(), Ok(plugin("other", "x"))),
    ])
    .unwrap();
    assert_eq!(found.len(), 2);
    assert_eq!(found[0].config.id, "same-id");
    assert_eq!(found[0].config.command, "cmd-first");
    assert_eq!(found[0].source, "01_first.yaml");
    assert_eq!(found[1].config.id, "other");
}

#[test]
fn the_first_unreadable_manifest_stops_discovery() {
    let r = discover_plugins_with_catalog(vec![
        ("a.toml".to_string(), Ok(plugin("a", "x"))),
        ("b.toml".to_string(), Err(Error::invalid_argument("invalid plugin.toml b.toml: bad"))),
        ("c.toml".to_string(), Err(Error::io_msg("read c.toml: gone"))),
    ]);
    let e = r.unwrap_err();
    assert_eq!(e.message(), "invalid plugin.toml b.toml: bad");
}

#[test]
fn manifest_files_are_recognised() {
    assert!(is_manifest_path("/p/plugin.toml"));
    assert!(is_manifest_path("/p/x.toml"));
    assert!(is_manifest_path("/p/x.yaml"));
    assert!(is_manifest_path("/p/x.yml"));
    assert!(!is_manifest_path("/p/x.json"));
    assert!(!is_manifest_path("/p/.toml"));
    assert!(is_toml_path("/p/plugin.toml"));
    assert!(is_toml_path("/p/a.toml"));
    assert!(!is_toml_path("/p/a.yaml"));
}

#[test]
fn enabled_flag_is_parsed_from_manifests() {
    let enabled = "\nid: enabled\nenabled: true\ntransport:\n  type: stdio\n  command: cmd-enabled\n";
    let disabled = "\nid: disabled\nenabled: false\ntransport:\n  type: stdio\n  command: cmd-disabled\n";
    let discovered = discover_plugins_with_catalog(vec![
        ("a_enabled.yaml".to_string(), read_legacy_yaml_manifest(enabled, "a_enabled.yaml")),
        ("b_disabled.yaml".to_string(), read_legacy_yaml_manifest(disabled, "b_disabled.yaml")),
    ])
    .unwrap();
    assert_eq!(discovered.len(), 2);
    let mut ids: Vec<(String, bool)> = discovered.into_iter().map(|d| (d.config.id, d.config.enabled)).collect();
    ids.sort_by(|a, b| a.0.cmp(&b.0));
    assert_eq!(ids, vec![("disabled".to_string(), false), ("enabled".to_string(), true)]);
}

fn entry(name: &str, is_dir: bool, is_file: bool, has_manifest: bool) -> DirEntryInfo {
    DirEntryInfo { name: name.to_string(), is_dir, is_file, has_manifest }
}

#[test]
fn plugin_directory_manifests_come_in_name_order() {
    let entries = vec![
        entry("x.toml", false, true, false),
        entry("notes.txt", false, true, false),
        entry("x", true, false, true),
        entry("empty", true, false, false),
        entry("b.yml", false, true, false),
        entry("a.yaml", false, true, false),
        entry("plugin.toml", false, true, false),
    ];
    assert_eq!(
        manifest_paths("/p", entries),
        vec![
            "/p/a.yaml".to_string(),
            "/p/b.yml".to_string(),
            "/p/plugin.toml".to_string(),
            "/p/x/plugin.toml".to_string(),
            "/p/x.toml".to_string(),
        ]
    );
    assert!(manifest_paths("/p", Vec::new()).is_empty());
}
