use acl_build::builder::{
    build_manifest, check_set_references, AclRecord, AppManifest, DefaultPermissionRule,
    InlinedPlugin,
};
use acl_build::autogen::autogenerate_command_permissions;
use acl_build::ident::{make_canonical, split_ref, str_eq, str_lt};
use acl_build::json::{encode, JsonValue};
use acl_build::model::{AclError, Capability, Manifest, Permission, PermissionEntry, PermissionSet,
    Platform};
use acl_build::ordmap::OrdMap;
use acl_build::parse::{parse_acl_manifests, parse_permission, parse_permission_document};
use acl_build::persist::{acl_manifests_to_json, save_acl_manifests, save_capabilities,
    should_write};
use acl_build::pipeline::{app_manifest_permissions, build, get_manifests_from_plugins,
    inline_plugin_manifest, inline_plugins, InlinedPluginInput, PluginRecords};
use acl_build::schema::generate_schema;
use acl_build::validate::validate_capabilities;
use acl_build::APP_ACL_KEY;

fn perm(id: &str) -> Permission {
    Permission {
        identifier: id.to_string(),
        description: None,
        commands_allow: Vec::new(),
        commands_deny: Vec::new(),
        scope: None,
    }
}

fn bare_entry(id: &str) -> PermissionEntry {
    PermissionEntry { identifier: id.to_string(), allow: None, deny: None }
}

fn manifest_of(records: Vec<AclRecord>) -> Manifest {
    build_manifest("ns", records, None).expect("manifest should build")
}

fn map_with(entries: Vec<(&str, Manifest)>) -> OrdMap<Manifest> {
    let mut ms = OrdMap::new();
    for (k, m) in entries {
        assert!(ms.insert_or_fail(k.to_string(), m));
    }
    ms
}

fn cap(id: &str, platforms: Option<Vec<Platform>>, perms: Vec<&str>) -> Capability {
    Capability {
        identifier: id.to_string(),
        platforms,
        permissions: perms.into_iter().map(bare_entry).collect(),
    }
}

fn cap_map(caps: Vec<Capability>) -> OrdMap<Capability> {
    let mut m = OrdMap::new();
    for c in caps {
        let k = c.identifier.clone();
        assert!(m.insert_or_fail(k, c));
    }
    m
}

#[test]
fn string_helpers_behave() {
    assert!(str_eq("abc", "abc"));
    assert!(!str_eq("abc", "abd"));
    assert!(str_lt("abc", "abd"));
    assert!(str_lt("ab", "abc"));
    assert!(!str_lt("abc", "abc"));
    assert_eq!(make_canonical("fs", "read-file"), "fs:read-file");
    assert_eq!(make_canonical(APP_ACL_KEY, "allow-ping"), "allow-ping");
    let (ns, base) = split_ref("fs:read-file");
    assert_eq!(ns.as_deref(), Some("fs"));
    assert_eq!(base, "read-file");
    let (ns2, base2) = split_ref("allow-ping");
    assert!(ns2.is_none());
    assert_eq!(base2, "allow-ping");
}

#[test]
fn json_encoding_exact() {
    let v = JsonValue::Obj(vec![(
        "a".to_string(),
        JsonValue::Arr(vec![
            JsonValue::Int(-12),
            JsonValue::Bool(true),
            JsonValue::Null,
            JsonValue::Str("x\"y\n".to_string()),
        ]),
    )]);
    assert_eq!(encode(&v), "{\"a\":[-12,true,null,\"x\\\"y\\n\"]}");
}

#[test]
fn autogenerates_allow_and_deny_pairs() {
    let commands = vec!["ping".to_string(), "pong".to_string()];
    let auto = autogenerate_command_permissions(&commands);
    assert_eq!(auto.permissions.len(), 4);
    assert_eq!(auto.permissions[0].identifier, "allow-ping");
    assert_eq!(auto.permissions[1].identifier, "deny-ping");
    assert_eq!(auto.permissions[2].identifier, "allow-pong");
    assert_eq!(auto.permissions[3].identifier, "deny-pong");
    assert_eq!(auto.permissions[0].commands_allow, vec!["ping".to_string()]);
    assert!(auto.permissions[0].commands_deny.is_empty());
    assert_eq!(auto.permissions[1].commands_deny, vec!["ping".to_string()]);
    assert_eq!(auto.allowed, vec!["allow-ping".to_string(), "allow-pong".to_string()]);
    assert_eq!(auto.denied, vec!["deny-ping".to_string(), "deny-pong".to_string()]);
    for a in &auto.allowed {
        assert!(!auto.denied.contains(a));
    }
}

#[test]
fn duplicate_identifier_fails_construction() {
    let records = vec![
        AclRecord::Perm(perm("read-file")),
        AclRecord::Perm(perm("read-file")),
    ];
    match build_manifest("fs", records, None) {
        Err(AclError::DuplicateIdentifier { namespace, identifier }) => {
            assert_eq!(namespace, "fs");
            assert_eq!(identifier, "read-file");
        },
        _ => panic!("expected a duplicate identifier error"),
    }
    let records2 = vec![
        AclRecord::PermSet(PermissionSet {
            identifier: "group".to_string(),
            description: "g".to_string(),
            permissions: vec![],
        }),
        AclRecord::PermSet(PermissionSet {
            identifier: "group".to_string(),
            description: "h".to_string(),
            permissions: vec![],
        }),
    ];
    assert!(matches!(
        build_manifest("fs", records2, None),
        Err(AclError::DuplicateIdentifier { .. })
    ));
}

#[test]
fn unresolved_set_reference_is_reported() {
    let m = manifest_of(vec![
        AclRecord::Perm(perm("read-file")),
        AclRecord::PermSet(PermissionSet {
            identifier: "group".to_string(),
            description: "g".to_string(),
            permissions: vec!["read-file".to_string(), "missing".to_string()],
        }),
    ]);
    match check_set_references("fs", &m) {
        Err(AclError::UnresolvedReference { namespace, set_identifier, permission }) => {
            assert_eq!(namespace, "fs");
            assert_eq!(set_identifier, "group");
            assert_eq!(permission, "missing");
        },
        _ => panic!("expected an unresolved reference error"),
    }
    let ok = manifest_of(vec![
        AclRecord::Perm(perm("read-file")),
        AclRecord::PermSet(PermissionSet {
            identifier: "group".to_string(),
            description: "g".to_string(),
            permissions: vec!["read-file".to_string(), "default".to_string()],
        }),
    ]);
    assert!(check_set_references("fs", &ok).is_ok());
}

#[test]
fn scenario_fs_namespace_validation() {
    let m = manifest_of(vec![
        AclRecord::Perm(perm("read-file")),
        AclRecord::PermSet(PermissionSet {
            identifier: "default".to_string(),
            description: "default grants".to_string(),
            permissions: vec!["allow-read-file".to_string()],
        }),
    ]);
    let ms = map_with(vec![("fs", m)]);
    let good = cap_map(vec![cap("main", None, vec!["fs:read-file"])]);
    assert!(validate_capabilities(&ms, &good, Platform::Linux).is_ok());
    let bad = cap_map(vec![cap("main", None, vec!["fs:write-file"])]);
    match validate_capabilities(&ms, &bad, Platform::Linux) {
        Err(AclError::InvalidCapabilityPermission { identifier, available }) => {
            assert_eq!(identifier, "fs:write-file");
            assert!(available.contains(&"fs:read-file".to_string()));
            assert!(available.contains(&"fs:default".to_string()));
        },
        _ => panic!("expected an invalid capability permission error"),
    }
}

#[test]
fn scenario_app_namespace_resolution() {
    let commands = vec!["ping".to_string()];
    let auto = autogenerate_command_permissions(&commands);
    let records = auto.permissions.into_iter().map(AclRecord::Perm).collect();
    let app = build_manifest(APP_ACL_KEY, records, None).expect("app manifest");
    let ms = map_with(vec![(APP_ACL_KEY, app)]);
    let good = cap_map(vec![cap("main", None, vec!["allow-ping"])]);
    assert!(validate_capabilities(&ms, &good, Platform::Linux).is_ok());
    let wrong_ns = cap_map(vec![cap("main", None, vec!["ping:allow-ping"])]);
    assert!(validate_capabilities(&ms, &wrong_ns, Platform::Linux).is_err());
}

#[test]
fn scenario_platform_scoped_capability_is_skipped() {
    let ms = map_with(vec![("fs", manifest_of(vec![AclRecord::Perm(perm("read-file"))]))]);
    let scoped = cap_map(vec![cap(
        "win-only",
        Some(vec![Platform::Windows]),
        vec!["nonexistent:nothing"],
    )]);
    assert!(validate_capabilities(&ms, &scoped, Platform::Linux).is_ok());
    assert!(validate_capabilities(&ms, &scoped, Platform::Windows).is_err());
}

#[test]
fn scenario_default_rule_keeps_exact_list() {
    let plugin = InlinedPlugin::new()
        .commands(vec!["ping".to_string(), "pong".to_string()])
        .default_permission(DefaultPermissionRule::Allow(vec!["allow-ping".to_string()]));
    let m = inline_plugin_manifest(&"app".to_string(), plugin, Vec::new()).expect("manifest");
    let d = m.default_permission.expect("default permission materialized");
    assert_eq!(d.permissions, vec!["allow-ping".to_string()]);
    let plugin2 = InlinedPlugin::new()
        .commands(vec!["ping".to_string(), "pong".to_string()])
        .default_permission(DefaultPermissionRule::AllowAllCommands);
    let m2 = inline_plugin_manifest(&"app".to_string(), plugin2, Vec::new()).expect("manifest");
    let d2 = m2.default_permission.expect("default permission materialized");
    assert_eq!(d2.permissions, vec!["allow-ping".to_string(), "allow-pong".to_string()]);
}

#[test]
fn core_default_is_always_accepted() {
    let ms: OrdMap<Manifest> = OrdMap::new();
    let caps = cap_map(vec![cap("main", None, vec!["core:default"])]);
    assert!(validate_capabilities(&ms, &caps, Platform::Linux).is_ok());
}

#[test]
fn default_base_needs_existing_namespace() {
    let ms = map_with(vec![("fs", manifest_of(vec![AclRecord::Perm(perm("read-file"))]))]);
    let ok = cap_map(vec![cap("main", None, vec!["fs:default"])]);
    assert!(validate_capabilities(&ms, &ok, Platform::Linux).is_ok());
    let missing = cap_map(vec![cap("main", None, vec!["gone:default"])]);
    assert!(validate_capabilities(&ms, &missing, Platform::Linux).is_err());
}

#[test]
fn schema_synthesis_is_deterministic() {
    let m1 = manifest_of(vec![AclRecord::Perm(perm("read-file"))]);
    let m2 = manifest_of(vec![AclRecord::Perm(perm("ping"))]);
    let ms_a = map_with(vec![("fs", m1), ("net", m2)]);
    let m1b = manifest_of(vec![AclRecord::Perm(perm("read-file"))]);
    let m2b = manifest_of(vec![AclRecord::Perm(perm("ping"))]);
    let ms_b = map_with(vec![("net", m2b), ("fs", m1b)]);
    let s_a = generate_schema(&ms_a);
    let s_b = generate_schema(&ms_b);
    assert_eq!(s_a, s_b);
    assert_eq!(s_a, generate_schema(&ms_a));
    assert!(s_a.contains("fs:read-file"));
    assert!(s_a.contains("net:ping"));
}

#[test]
fn schema_lists_sets_default_and_permissions() {
    let m = manifest_of(vec![
        AclRecord::Perm(perm("read-file")),
        AclRecord::PermSet(PermissionSet {
            identifier: "all".to_string(),
            description: "everything".to_string(),
            permissions: vec!["read-file".to_string()],
        }),
    ]);
    let ms = map_with(vec![("fs", m)]);
    let s = generate_schema(&ms);
    assert!(s.contains("\"fs:all\""));
    assert!(s.contains("\"fs:default\""));
    assert!(s.contains("\"fs:read-file\""));
    assert!(s.contains("all -> everything"));
}

#[test]
fn persistence_round_trip_and_idempotence() {
    let m = manifest_of(vec![
        AclRecord::Perm(Permission {
            identifier: "read-file".to_string(),
            description: Some("reads a file".to_string()),
            commands_allow: vec!["read_file".to_string()],
            commands_deny: Vec::new(),
            scope: Some(JsonValue::Obj(vec![(
                "type".to_string(),
                JsonValue::Str("string".to_string()),
            )])),
        }),
        AclRecord::PermSet(PermissionSet {
            identifier: "group".to_string(),
            description: "g".to_string(),
            permissions: vec!["read-file".to_string()],
        }),
    ]);
    let ms = map_with(vec![("fs", m)]);
    let saved = save_acl_manifests(&ms);
    let doc = acl_manifests_to_json(&ms);
    let reloaded = parse_acl_manifests(&doc).expect("reload should succeed");
    let saved_again = save_acl_manifests(&reloaded);
    assert_eq!(saved, saved_again);
    assert!(!should_write(Some(&saved), &saved_again));
    assert!(should_write(None, &saved));
    assert!(should_write(Some(&saved), "{}"));
}

#[test]
fn capability_document_is_stable() {
    let caps = cap_map(vec![
        cap("b", Some(vec![Platform::Windows, Platform::Linux]), vec!["fs:read-file"]),
        cap("a", None, vec!["core:default"]),
    ]);
    let one = save_capabilities(&caps);
    let two = save_capabilities(&caps);
    assert_eq!(one, two);
    assert!(one.starts_with("{\"a\":"));
    assert!(one.contains("\"windows\""));
    assert!(one.contains("\"linux\""));
}

#[test]
fn permission_document_parsing() {
    let doc = JsonValue::Obj(vec![
        ("default".to_string(), JsonValue::Null),
        (
            "permission".to_string(),
            JsonValue::Arr(vec![JsonValue::Obj(vec![
                ("identifier".to_string(), JsonValue::Str("read-file".to_string())),
                ("description".to_string(), JsonValue::Null),
                ("commands_allow".to_string(), JsonValue::Arr(vec![])),
                ("commands_deny".to_string(), JsonValue::Arr(vec![])),
                ("scope".to_string(), JsonValue::Null),
            ])]),
        ),
        ("set".to_string(), JsonValue::Arr(vec![])),
    ]);
    let records = parse_permission_document(&doc).expect("document should parse");
    assert_eq!(records.len(), 1);
    assert!(matches!(&records[0], AclRecord::Perm(p) if p.identifier == "read-file"));
}

#[test]
fn default_entry_identifier_must_be_default() {
    let doc = JsonValue::Obj(vec![
        (
            "default".to_string(),
            JsonValue::Obj(vec![
                ("identifier".to_string(), JsonValue::Str("not-default".to_string())),
                ("description".to_string(), JsonValue::Null),
                ("permissions".to_string(), JsonValue::Arr(vec![])),
            ]),
        ),
        ("permission".to_string(), JsonValue::Arr(vec![])),
        ("set".to_string(), JsonValue::Arr(vec![])),
    ]);
    assert!(matches!(parse_permission_document(&doc), Err(AclError::ParseError { .. })));
}

#[test]
fn malformed_permission_is_a_parse_error() {
    let v = JsonValue::Arr(vec![]);
    assert!(matches!(parse_permission(&v), Err(AclError::ParseError { .. })));
}

#[test]
fn pipeline_builds_and_validates() {
    let plugins = vec![PluginRecords {
        namespace: "fs".to_string(),
        records: vec![AclRecord::Perm(perm("read-file"))],
        global_scope_schema: None,
    }];
    let app = AppManifest::new().commands(vec!["ping".to_string()]);
    let inlined = vec![InlinedPluginInput {
        name: "inline".to_string(),
        plugin: InlinedPlugin::new()
            .commands(vec!["go".to_string()])
            .default_permission(DefaultPermissionRule::AllowAllCommands),
        file_records: Vec::new(),
    }];
    let caps = cap_map(vec![cap(
        "main",
        None,
        vec!["fs:read-file", "allow-ping", "inline:allow-go", "inline:default", "core:default"],
    )]);
    let out = build(plugins, app, Vec::new(), inlined, &caps, Platform::Linux)
        .expect("pipeline should pass");
    assert!(out.schema_json.contains("fs:read-file"));
    assert!(out.schema_json.contains("inline:default"));
    assert!(out.manifests_json.contains("\"fs\""));
    assert!(out.capabilities_json.contains("\"main\""));

    let caps_bad = cap_map(vec![cap("main", None, vec!["fs:write-file"])]);
    let plugins2 = vec![PluginRecords {
        namespace: "fs".to_string(),
        records: vec![AclRecord::Perm(perm("read-file"))],
        global_scope_schema: None,
    }];
    let app2 = AppManifest::new();
    let r = build(plugins2, app2, Vec::new(), Vec::new(), &caps_bad, Platform::Linux);
    assert!(matches!(r, Err(AclError::InvalidCapabilityPermission { .. })));
}

#[test]
fn plugin_maps_reject_duplicate_namespaces() {
    let plugins = vec![
        PluginRecords {
            namespace: "fs".to_string(),
            records: vec![],
            global_scope_schema: None,
        },
        PluginRecords {
            namespace: "fs".to_string(),
            records: vec![],
            global_scope_schema: None,
        },
    ];
    assert!(matches!(
        get_manifests_from_plugins(plugins),
        Err(AclError::DuplicateIdentifier { .. })
    ));
    let inl = vec![
        InlinedPluginInput {
            name: "x".to_string(),
            plugin: InlinedPlugin::new(),
            file_records: Vec::new(),
        },
        InlinedPluginInput {
            name: "x".to_string(),
            plugin: InlinedPlugin::new(),
            file_records: Vec::new(),
        },
    ];
    assert!(matches!(inline_plugins(inl), Err(AclError::DuplicateIdentifier { .. })));
}

#[test]
fn app_manifest_autogenerates_commands() {
    let app = AppManifest::new().commands(vec!["ping".to_string()]);
    let m = app_manifest_permissions(app, Vec::new()).expect("app manifest");
    assert!(m.permissions.get("allow-ping").is_some());
    assert!(m.permissions.get("deny-ping").is_some());
    assert!(m.permissions.get("allow-pong").is_none());
}

#[test]
fn schema_extends_entry_for_scope_schemas() {
    let scope = JsonValue::Obj(vec![
        ("type".to_string(), JsonValue::Str("string".to_string())),
        (
            "definitions".to_string(),
            JsonValue::Obj(vec![(
                "Inner".to_string(),
                JsonValue::Obj(vec![("type".to_string(), JsonValue::Str("number".to_string()))]),
            )]),
        ),
    ]);
    let records = vec![AclRecord::Perm(perm("read-file"))];
    let m = build_manifest("fs", records, Some(scope)).expect("manifest");
    let ms = map_with(vec![("fs", m)]);
    let s = generate_schema(&ms);
    assert!(s.contains("\"Inner\""));
    assert!(s.contains("\"oneOf\""));
    assert!(s.contains("\"allow\""));
    assert!(s.contains("\"deny\""));
}

#[test]
fn inlined_plugin_duplicate_records_fail() {
    let inl = vec![InlinedPluginInput {
        name: "x".to_string(),
        plugin: InlinedPlugin::new(),
        file_records: vec![
            AclRecord::Perm(perm("read-file")),
            AclRecord::Perm(perm("read-file")),
        ],
    }];
    match inline_plugins(inl) {
        Err(AclError::DuplicateIdentifier { namespace, identifier }) => {
            assert_eq!(namespace, "x");
            assert_eq!(identifier, "read-file");
        },
        _ => panic!("expected a duplicate identifier error"),
    }
    // a file record reusing a generated identifier collides too
    let inl2 = vec![InlinedPluginInput {
        name: "x".to_string(),
        plugin: InlinedPlugin::new().commands(vec!["ping".to_string()]),
        file_records: vec![AclRecord::Perm(perm("allow-ping"))],
    }];
    assert!(matches!(inline_plugins(inl2), Err(AclError::DuplicateIdentifier { .. })));
}

#[test]
fn inlined_plugin_manifest_holds_exactly_the_generated_pairs() {
    let m = inline_plugin_manifest(
        &"x".to_string(),
        InlinedPlugin::new().commands(vec!["ping".to_string()]),
        Vec::new(),
    )
    .expect("manifest");
    assert_eq!(m.permissions.len(), 2);
    assert!(m.permissions.get("allow-ping").is_some());
    assert!(m.permissions.get("deny-ping").is_some());
    assert_eq!(m.permission_sets.len(), 0);
    assert!(m.default_permission.is_none());
}
