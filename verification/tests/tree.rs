use nixos_option_tree::documentation::DisplayData;
use nixos_option_tree::json::JsonValue;
use nixos_option_tree::node::OptionNode;
use nixos_option_tree::node::OptionType;
use nixos_option_tree::parse::NixGuardedValue;
use nixos_option_tree::run::get_config;
use nixos_option_tree::run::get_options;
use nixos_option_tree::sort::sort_siblings;

fn obj(entries: Vec<(&str, JsonValue)>) -> JsonValue {
    JsonValue::Obj(entries.into_iter().map(|(k, v)| (k.to_string(), v)).collect())
}

fn str_val(s: &str) -> JsonValue {
    JsonValue::Str(s.to_string())
}

fn leaf_type(name: &str, description: &str) -> JsonValue {
    obj(vec![
        ("_type", JsonValue::Bool(true)),
        ("description", str_val(description)),
        ("functorName", str_val(name)),
        ("name", str_val(name)),
        ("nestedTypes", obj(vec![])),
    ])
}

fn wrapper_type(name: &str, elem: JsonValue) -> JsonValue {
    obj(vec![
        ("_type", JsonValue::Bool(true)),
        ("description", str_val(name)),
        ("functorName", str_val(name)),
        ("name", str_val(name)),
        ("nestedTypes", obj(vec![("elemType", elem)])),
    ])
}

fn submodule_type(options: Vec<(&str, JsonValue)>) -> JsonValue {
    obj(vec![("_submodule", JsonValue::Bool(true)), ("options", obj(options))])
}

fn bool_option(description: &str) -> JsonValue {
    obj(vec![
        ("_option", JsonValue::Bool(true)),
        ("description", str_val(description)),
        ("type", leaf_type("bool", "boolean")),
    ])
}

fn build(schema: JsonValue) -> OptionNode {
    let bytes = serde_json_like(&schema);
    let root = get_options(&bytes).expect("schema should decode");
    OptionNode::new("root".to_string(), root)
}

/// Writes a JsonValue back out as JSON text, for feeding the byte-level
/// entry points.
fn serde_json_like(v: &JsonValue) -> Vec<u8> {
    let mut out = String::new();
    write_json(v, &mut out);
    out.into_bytes()
}

fn write_json(v: &JsonValue, out: &mut String) {
    match v {
        JsonValue::Null => out.push_str("null"),
        JsonValue::Bool(b) => out.push_str(if *b { "true" } else { "false" }),
        JsonValue::Int(i) => out.push_str(&format!("{}", i)),
        JsonValue::Num(s) => out.push_str(s),
        JsonValue::Str(s) => {
            out.push('"');
            out.push_str(s);
            out.push('"');
        },
        JsonValue::Arr(items) => {
            out.push('[');
            for (i, item) in items.iter().enumerate() {
                if i > 0 {
                    out.push(',');
                }
                write_json(item, out);
            }
            out.push(']');
        },
        JsonValue::Obj(entries) => {
            out.push('{');
            for (i, (k, val)) in entries.iter().enumerate() {
                if i > 0 {
                    out.push(',');
                }
                out.push('"');
                out.push_str(k);
                out.push_str("\":");
                write_json(val, out);
            }
            out.push('}');
        },
    }
}

fn grouping(name: &str) -> OptionNode {
    OptionNode {
        name: name.to_string(),
        documentation: None,
        option_type: None,
        value: None,
        children: Vec::new(),
        expanded: false,
    }
}

fn bool_leaf(name: &str) -> OptionNode {
    OptionNode {
        name: name.to_string(),
        documentation: None,
        option_type: Some(OptionType::Bool),
        value: None,
        children: Vec::new(),
        expanded: false,
    }
}

#[test]
fn sort_policy_orders_siblings() {
    // Groupings before option leaves; "enable" first within a category; an
    // empty name last; lexicographic otherwise.
    let nodes = vec![
        bool_leaf("zeta"),
        bool_leaf(""),
        grouping("beta"),
        bool_leaf("enable"),
        grouping("alpha"),
        bool_leaf("delta"),
    ];
    let sorted = sort_siblings(nodes);
    let names: Vec<&str> = sorted.iter().map(|n| n.name.as_str()).collect();
    assert_eq!(names, vec!["alpha", "beta", "enable", "delta", "zeta", ""]);
    assert!(sorted[0].option_type.is_none());
    assert!(sorted[1].option_type.is_none());
}

#[test]
fn sort_is_idempotent() {
    let nodes = vec![bool_leaf("b"), grouping("c"), bool_leaf("a")];
    let once = sort_siblings(nodes);
    let names_once: Vec<String> = once.iter().map(|n| n.name.clone()).collect();
    let twice = sort_siblings(once);
    let names_twice: Vec<String> = twice.iter().map(|n| n.name.clone()).collect();
    assert_eq!(names_once, names_twice);
}

#[test]
fn build_sorts_children_and_keeps_documentation() {
    let tree = build(obj(vec![
        ("zoo", bool_option("z option")),
        ("bar", obj(vec![("enable", bool_option("inner"))])),
    ]));
    assert_eq!(tree.name, "root");
    assert!(tree.option_type.is_none());
    assert_eq!(tree.children.len(), 2);
    // The grouping "bar" sorts before the option leaf "zoo".
    assert_eq!(tree.children[0].name, "bar");
    assert_eq!(tree.children[1].name, "zoo");
    let doc = tree.children[1].documentation.as_ref().unwrap();
    assert_eq!(doc.description, "z option");
    assert_eq!(doc.type_label, "boolean");
}

#[test]
fn attrs_of_submodule_shows_template_child() {
    let tree = build(obj(vec![(
        "virtualHosts",
        obj(vec![
            ("_option", JsonValue::Bool(true)),
            ("description", str_val("hosts")),
            (
                "type",
                wrapper_type(
                    "attrsOf",
                    submodule_type(vec![("enable", bool_option("host on"))]),
                ),
            ),
        ]),
    )]));
    let hosts = &tree.children[0];
    assert_eq!(hosts.name, "virtualHosts");
    // One documentation-only child, its name suffixed `.<name>`.
    assert_eq!(hosts.children.len(), 1);
    assert_eq!(hosts.children[0].name, "virtualHosts.<name>");
    assert!(hosts.children[0].option_type.is_none());
    assert_eq!(hosts.children[0].children.len(), 1);
    assert_eq!(hosts.children[0].children[0].name, "enable");
}

#[test]
fn list_of_submodule_shows_template_child() {
    let tree = build(obj(vec![(
        "rules",
        obj(vec![
            ("_option", JsonValue::Bool(true)),
            ("description", str_val("rules")),
            (
                "type",
                wrapper_type("listOf", submodule_type(vec![("enable", bool_option("on"))])),
            ),
        ]),
    )]));
    let rules = &tree.children[0];
    assert_eq!(rules.children.len(), 1);
    assert_eq!(rules.children[0].name, "rules.*");
}

fn attrs(entries: Vec<(&str, NixGuardedValue)>) -> NixGuardedValue {
    NixGuardedValue::Attrs(entries.into_iter().map(|(k, v)| (k.to_string(), v)).collect())
}

#[test]
fn overlay_assigns_leaf_values() {
    let mut tree = build(obj(vec![("foo", bool_option("d"))]));
    tree.add_config(Some(attrs(vec![("foo", NixGuardedValue::Bool(true))])));
    assert!(matches!(tree.children[0].value, Some(NixGuardedValue::Bool(true))));
}

#[test]
fn overlay_twice_equals_overlay_once() {
    // Overlay idempotence, checked on a leaf's stored value.
    let mut tree = build(obj(vec![("foo", bool_option("d"))]));
    tree.add_config(Some(attrs(vec![("foo", NixGuardedValue::Bool(true))])));
    tree.add_config(Some(attrs(vec![("foo", NixGuardedValue::Bool(true))])));
    assert!(matches!(tree.children[0].value, Some(NixGuardedValue::Bool(true))));
    assert_eq!(tree.children.len(), 1);
}

#[test]
fn attrs_of_round_trip() {
    let mut tree = build(obj(vec![(
        "hosts",
        obj(vec![
            ("_option", JsonValue::Bool(true)),
            ("description", str_val("hosts")),
            (
                "type",
                wrapper_type(
                    "attrsOf",
                    submodule_type(vec![("enable", bool_option("host on"))]),
                ),
            ),
        ]),
    )]));
    let cfg = attrs(vec![(
        "hosts",
        attrs(vec![
            ("b", attrs(vec![("enable", NixGuardedValue::Bool(false))])),
            ("a", attrs(vec![("enable", NixGuardedValue::Bool(true))])),
        ]),
    )]);
    tree.add_config(Some(cfg));
    let hosts = &tree.children[0];
    // The template child is replaced by one instance per key, sorted.
    assert_eq!(hosts.children.len(), 2);
    assert_eq!(hosts.children[0].name, "a");
    assert_eq!(hosts.children[1].name, "b");
    let a_enable = &hosts.children[0].children[0];
    assert_eq!(a_enable.name, "enable");
    assert!(matches!(a_enable.value, Some(NixGuardedValue::Bool(true))));
    let b_enable = &hosts.children[1].children[0];
    assert!(matches!(b_enable.value, Some(NixGuardedValue::Bool(false))));
}

#[test]
fn attrs_of_empty_config_clears_children() {
    let mut tree = build(obj(vec![(
        "hosts",
        obj(vec![
            ("_option", JsonValue::Bool(true)),
            ("description", str_val("hosts")),
            (
                "type",
                wrapper_type(
                    "attrsOf",
                    submodule_type(vec![("enable", bool_option("host on"))]),
                ),
            ),
        ]),
    )]));
    tree.add_config(Some(attrs(vec![("hosts", attrs(vec![]))])));
    assert_eq!(tree.children[0].children.len(), 0);
}

#[test]
fn list_of_indexing() {
    let mut tree = build(obj(vec![(
        "rules",
        obj(vec![
            ("_option", JsonValue::Bool(true)),
            ("description", str_val("rules")),
            (
                "type",
                wrapper_type("listOf", submodule_type(vec![("enable", bool_option("on"))])),
            ),
        ]),
    )]));
    let cfg = attrs(vec![(
        "rules",
        NixGuardedValue::List(vec![
            attrs(vec![("enable", NixGuardedValue::Bool(true))]),
            attrs(vec![("enable", NixGuardedValue::Bool(false))]),
        ]),
    )]);
    tree.add_config(Some(cfg));
    let rules = &tree.children[0];
    assert_eq!(rules.children.len(), 2);
    assert_eq!(rules.children[0].name, "Element 0");
    assert_eq!(rules.children[1].name, "Element 1");
    assert!(matches!(
        rules.children[0].children[0].value,
        Some(NixGuardedValue::Bool(true))
    ));
    assert!(matches!(
        rules.children[1].children[0].value,
        Some(NixGuardedValue::Bool(false))
    ));
}

#[test]
fn mismatch_falls_back_to_raw_value() {
    let mut tree = build(obj(vec![(
        "hosts",
        obj(vec![
            ("_option", JsonValue::Bool(true)),
            ("description", str_val("hosts")),
            (
                "type",
                wrapper_type(
                    "attrsOf",
                    submodule_type(vec![("enable", bool_option("host on"))]),
                ),
            ),
        ]),
    )]));
    let before = tree.children[0].children.len();
    tree.add_config(Some(attrs(vec![("hosts", NixGuardedValue::Number(7))])));
    let hosts = &tree.children[0];
    assert_eq!(hosts.children.len(), before);
    assert!(matches!(hosts.value, Some(NixGuardedValue::Number(7))));
}

#[test]
fn end_to_end_example() {
    let schema = br#"{"services": {"foo": {"enable": {"_option": true,
        "description": "whether to enable foo", "type": {"_type": true,
        "description": "boolean", "functorName": "bool", "name": "bool",
        "nestedTypes": {}}}}}}"#;
    let config = br#"{"services": {"foo": {"enable": true}}}"#;
    let root = get_options(schema).expect("schema should decode");
    let cfg = get_config(config).expect("config should decode");
    let mut tree = OptionNode::new("NixOS Configuration".to_string(), root);
    tree.add_config(Some(cfg));

    let services = &tree.children[0];
    assert_eq!(services.name, "services");
    let foo = &services.children[0];
    assert_eq!(foo.name, "foo");
    let enable = &foo.children[0];
    assert_eq!(enable.name, "enable");
    assert!(matches!(enable.value, Some(NixGuardedValue::Bool(true))));
}

#[test]
fn same_detects_structural_equality() {
    let a = OptionType::AttrsOf(Box::new(OptionType::Int(Some(0), Some(255))));
    let b = OptionType::AttrsOf(Box::new(OptionType::Int(Some(0), Some(255))));
    let c = OptionType::AttrsOf(Box::new(OptionType::Int(Some(0), None)));
    assert!(a.same(&b));
    assert!(!a.same(&c));
    assert!(!a.same(&OptionType::Bool));
    let e1 = OptionType::Enum(vec!["x".to_string(), "y".to_string()]);
    let e2 = OptionType::Enum(vec!["x".to_string(), "y".to_string()]);
    let e3 = OptionType::Enum(vec!["x".to_string()]);
    assert!(e1.same(&e2));
    assert!(!e1.same(&e3));
}

#[test]
fn name_extension_and_nested_submodule() {
    let sub = OptionType::Submodule(vec![bool_leaf("enable")]);
    let a = OptionType::AttrsOf(Box::new(sub));
    assert_eq!(a.get_name_extension(), Some("<name>"));
    assert!(a.has_nested_submodule());
    let l = OptionType::ListOf(Box::new(OptionType::Submodule(vec![])));
    assert_eq!(l.get_name_extension(), Some("*"));
    let plain = OptionType::AttrsOf(Box::new(OptionType::Bool));
    assert!(plain.get_name_extension().is_none());
    assert!(!plain.has_nested_submodule());
    assert!(OptionType::Submodule(vec![]).has_nested_submodule());
}

#[test]
fn icons_and_leaf_tests() {
    let mut g = grouping("g");
    assert_eq!(g.get_icon(), "[+]");
    g.expanded = true;
    assert_eq!(g.get_icon(), "[-]");
    assert!(g.is_leaf());
    assert!(!g.is_branch());
    let e = bool_leaf("enable");
    assert_eq!(e.get_icon(), "[x]");
    assert!(e.is_branch());
    let o = bool_leaf("port");
    assert_eq!(o.get_icon(), "[ ]");
    let s = OptionNode {
        name: "sub".to_string(),
        documentation: None,
        option_type: Some(OptionType::Submodule(vec![])),
        value: None,
        children: Vec::new(),
        expanded: false,
    };
    assert_eq!(s.get_icon(), "[+]");
}

#[test]
fn children_accessors_and_expansion() {
    let mut tree = build(obj(vec![("a", bool_option("d")), ("b", bool_option("d"))]));
    assert_eq!(tree.children_count(), 2);
    assert_eq!(tree.get_child(0).name, "a");
    assert_eq!(tree.get_child(1).name, "b");
    assert!(!tree.is_expanded());
    tree.toggle_expanded();
    assert!(tree.is_expanded());
    tree.toggle_expanded();
    assert!(!tree.is_expanded());
}

#[test]
fn value_rendering() {
    assert_eq!(NixGuardedValue::Number(42).display_text(), "42");
    assert_eq!(NixGuardedValue::Number(-7).display_text(), "-7");
    assert_eq!(
        NixGuardedValue::Number(i64::MIN).display_text(),
        "-9223372036854775808"
    );
    assert_eq!(NixGuardedValue::Null.display_text(), "null");
    assert_eq!(NixGuardedValue::Bool(true).display_text(), "true");
    assert_eq!(NixGuardedValue::String("hi".to_string()).display_text(), "\"hi\"");
    assert_eq!(NixGuardedValue::Float("3.5".to_string()).display_text(), "3.5");
    let d = nixos_option_tree::parse::NixDerivation { name: "hello-2.12".to_string() };
    assert_eq!(
        NixGuardedValue::Derivation(d).display_text(),
        "<build of hello-2.12>"
    );
    let v = attrs(vec![
        ("a", NixGuardedValue::Number(1)),
        ("b", NixGuardedValue::List(vec![NixGuardedValue::Bool(false), NixGuardedValue::Null])),
    ]);
    assert_eq!(v.display_text(), "{\"a\": 1, \"b\": [false, null]}");
}

#[test]
fn display_data_rendering() {
    let empty = DisplayData::new();
    assert_eq!(empty.display_text(), "No documentation available.");

    let mut tree = build(obj(vec![("foo", bool_option("turns foo on"))]));
    tree.add_config(Some(attrs(vec![("foo", NixGuardedValue::Bool(true))])));
    let data = tree.children[0].focused_display_data();
    assert_eq!(
        data.display_text(),
        "Value: true\n\n\nDescription: turns foo on\n\nType: boolean"
    );
}

#[test]
fn element_names_use_full_indices() {
    let mut tree = build(obj(vec![(
        "rules",
        obj(vec![
            ("_option", JsonValue::Bool(true)),
            ("description", str_val("rules")),
            (
                "type",
                wrapper_type("listOf", submodule_type(vec![("enable", bool_option("on"))])),
            ),
        ]),
    )]));
    let items: Vec<NixGuardedValue> = (0..12)
        .map(|_| attrs(vec![("enable", NixGuardedValue::Bool(true))]))
        .collect();
    tree.add_config(Some(attrs(vec![("rules", NixGuardedValue::List(items))])));
    let names: Vec<String> = tree.children[0].children.iter().map(|n| n.name.clone()).collect();
    // Built in index order, then sorted lexicographically.
    assert!(names.contains(&"Element 10".to_string()));
    assert!(names.contains(&"Element 11".to_string()));
    assert_eq!(names[0], "Element 0");
    assert_eq!(names[1], "Element 1");
    assert_eq!(names[2], "Element 10");
    assert_eq!(names[3], "Element 11");
    assert_eq!(names[4], "Element 2");
}

#[test]
fn duplicate_child_names_consume_entries_once() {
    // Each config entry is consumed by the first child that matches it, so
    // a second child with the same name gets nothing.
    let mut tree = OptionNode {
        name: "root".to_string(),
        documentation: None,
        option_type: None,
        value: None,
        children: vec![bool_leaf("x"), bool_leaf("x")],
        expanded: false,
    };
    tree.add_config(Some(attrs(vec![("x", NixGuardedValue::Bool(true))])));
    assert!(matches!(tree.children[0].value, Some(NixGuardedValue::Bool(true))));
    assert!(tree.children[1].value.is_none());
}

#[test]
fn select_data_extracts_pair() {
    let chosen = nixos_option_tree::select::SelectData {
        flake_location: "/etc/nixos".to_string(),
        hostname: Some("machine".to_string()),
    };
    assert_eq!(
        chosen.extract_results(),
        Some(("/etc/nixos".to_string(), "machine".to_string()))
    );
    let unchosen = nixos_option_tree::select::SelectData {
        flake_location: "/etc/nixos".to_string(),
        hostname: None,
    };
    assert_eq!(unchosen.extract_results(), None);
}
