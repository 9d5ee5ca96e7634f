use nixos_option_tree::json::JsonValue;
use nixos_option_tree::parse::NixGuardedValue;
use nixos_option_tree::parse::NixTypeValue;
use nixos_option_tree::parse::NixValue;
use nixos_option_tree::parse::decode_guarded;
use nixos_option_tree::parse::decode_nix_value;
use nixos_option_tree::parse::decode_type_value;
use nixos_option_tree::node::OptionType;
use nixos_option_tree::run::LoadJsonError;
use nixos_option_tree::run::get_config;
use nixos_option_tree::run::get_options;
use nixos_option_tree::run::parse_nixos_configurations;

fn obj(entries: Vec<(&str, JsonValue)>) -> JsonValue {
    JsonValue::Obj(entries.into_iter().map(|(k, v)| (k.to_string(), v)).collect())
}

fn str_val(s: &str) -> JsonValue {
    JsonValue::Str(s.to_string())
}

/// A raw type object with the given name and description and no nested
/// types.
fn leaf_type(name: &str, description: &str) -> JsonValue {
    obj(vec![
        ("_type", JsonValue::Bool(true)),
        ("description", str_val(description)),
        ("functorName", str_val(name)),
        ("name", str_val(name)),
        ("nestedTypes", obj(vec![])),
    ])
}

/// A raw wrapper type with one nested element type.
fn wrapper_type(name: &str, elem: JsonValue) -> JsonValue {
    obj(vec![
        ("_type", JsonValue::Bool(true)),
        ("description", str_val(name)),
        ("functorName", str_val(name)),
        ("name", str_val(name)),
        ("nestedTypes", obj(vec![("elemType", elem)])),
    ])
}

#[test]
fn decode_scalars() {
    assert!(matches!(decode_guarded(JsonValue::Null), NixGuardedValue::Null));
    assert!(matches!(decode_guarded(JsonValue::Bool(true)), NixGuardedValue::Bool(true)));
    match decode_guarded(JsonValue::Int(42)) {
        NixGuardedValue::Number(n) => assert_eq!(n, 42),
        other => panic!("expected a number, got {:?}", other),
    }
    match decode_guarded(JsonValue::Num("3.25".to_string())) {
        NixGuardedValue::Float(s) => assert_eq!(s, "3.25"),
        other => panic!("expected a float, got {:?}", other),
    }
    match decode_guarded(str_val("hello")) {
        NixGuardedValue::String(s) => assert_eq!(s, "hello"),
        other => panic!("expected a string, got {:?}", other),
    }
}

#[test]
fn decode_derivation_marker() {
    let j = obj(vec![("_derivation", JsonValue::Bool(true)), ("name", str_val("hello-2.12"))]);
    match decode_guarded(j) {
        NixGuardedValue::Derivation(d) => assert_eq!(d.name, "hello-2.12"),
        other => panic!("expected a derivation, got {:?}", other),
    }
}

#[test]
fn decode_function_error_markers() {
    let f = obj(vec![("_function", JsonValue::Bool(true))]);
    assert!(matches!(decode_guarded(f), NixGuardedValue::Function(_)));
    let e = obj(vec![("_error", JsonValue::Bool(true))]);
    assert!(matches!(decode_guarded(e), NixGuardedValue::Error(_)));
}

#[test]
fn decode_literal_expression_and_option_type() {
    // A string `_type` tag beside text is a literal expression; a boolean
    // `_type` flag alone is the option type marker.
    let lit = obj(vec![("_type", str_val("literalExpression")), ("text", str_val("pkgs.hello"))]);
    match decode_guarded(lit) {
        NixGuardedValue::LiteralExpression(l) => assert_eq!(l.text, "pkgs.hello"),
        other => panic!("expected a literal expression, got {:?}", other),
    }
    let marker = obj(vec![("_type", JsonValue::Bool(true))]);
    assert!(matches!(decode_guarded(marker), NixGuardedValue::OptionType(_)));
}

#[test]
fn decode_marker_priority() {
    // The derivation shape wins over the function shape when both match.
    let j = obj(vec![
        ("_derivation", JsonValue::Bool(true)),
        ("name", str_val("x")),
        ("_function", JsonValue::Bool(true)),
    ]);
    assert!(matches!(decode_guarded(j), NixGuardedValue::Derivation(_)));
}

#[test]
fn decode_generic_attrs_and_list() {
    let j = obj(vec![("a", JsonValue::Int(1)), ("b", JsonValue::Arr(vec![JsonValue::Bool(false)]))]);
    match decode_guarded(j) {
        NixGuardedValue::Attrs(entries) => {
            assert_eq!(entries.len(), 2);
            assert_eq!(entries[0].0, "a");
            assert!(matches!(entries[0].1, NixGuardedValue::Number(1)));
            assert_eq!(entries[1].0, "b");
            match &entries[1].1 {
                NixGuardedValue::List(items) => {
                    assert_eq!(items.len(), 1);
                    assert!(matches!(items[0], NixGuardedValue::Bool(false)));
                },
                other => panic!("expected a list, got {:?}", other),
            }
        },
        other => panic!("expected attrs, got {:?}", other),
    }
}

#[test]
fn decode_type_wrappers() {
    let t = decode_type_value(&wrapper_type("attrsOf", leaf_type("bool", "boolean"))).unwrap();
    match OptionType::from_raw(t) {
        OptionType::AttrsOf(e) => assert!(matches!(*e, OptionType::Bool)),
        other => panic!("expected attrsOf, got {:?}", other),
    }
    let t = decode_type_value(&wrapper_type("listOf", leaf_type("str", "string"))).unwrap();
    match OptionType::from_raw(t) {
        OptionType::ListOf(e) => assert!(matches!(*e, OptionType::String)),
        other => panic!("expected listOf, got {:?}", other),
    }
    let t = decode_type_value(&wrapper_type("nullOr", leaf_type("int", "integer"))).unwrap();
    match OptionType::from_raw(t) {
        OptionType::NullOr(e) => assert!(matches!(*e, OptionType::Int(None, None))),
        other => panic!("expected nullOr, got {:?}", other),
    }
}

#[test]
fn decode_either_type() {
    let j = obj(vec![
        ("_type", JsonValue::Bool(true)),
        ("description", str_val("either int or bool")),
        ("functorName", str_val("either")),
        ("name", str_val("either")),
        (
            "nestedTypes",
            obj(vec![("left", leaf_type("int", "integer")), ("right", leaf_type("bool", "b"))]),
        ),
    ]);
    let t = decode_type_value(&j).unwrap();
    match OptionType::from_raw(t) {
        OptionType::Either(l, r) => {
            assert!(matches!(*l, OptionType::Int(None, None)));
            assert!(matches!(*r, OptionType::Bool));
        },
        other => panic!("expected either, got {:?}", other),
    }
}

#[test]
fn decode_int_bounds() {
    let cases: Vec<(&str, Option<i64>, Option<i64>)> = vec![
        ("int", None, None),
        ("positiveInt", Some(1), None),
        ("unsignedInt", Some(0), None),
        ("unsignedInt8", Some(0), Some(255)),
        ("unsignedInt16", Some(0), Some(65535)),
        ("unsignedInt32", Some(0), Some(4294967295)),
        ("signedInt8", Some(-128), Some(127)),
        ("signedInt16", Some(-32768), Some(32767)),
        ("signedInt32", Some(-2147483648), Some(2147483647)),
    ];
    for (name, lo, hi) in cases {
        let t = decode_type_value(&leaf_type(name, name)).unwrap();
        match OptionType::from_raw(t) {
            OptionType::Int(l, h) => {
                assert_eq!(l, lo);
                assert_eq!(h, hi);
            },
            other => panic!("expected an int for {}, got {:?}", name, other),
        }
    }
}

#[test]
fn decode_unknown_type_name() {
    let t = decode_type_value(&leaf_type("functionTo", "function that returns x")).unwrap();
    match OptionType::from_raw(t) {
        OptionType::Unknown(d) => assert_eq!(d, "function that returns x"),
        other => panic!("expected unknown, got {:?}", other),
    }
}

#[test]
fn decode_infinite_recursion() {
    let j = obj(vec![("_infiniteRecursion", JsonValue::Bool(true))]);
    let t = decode_type_value(&j).unwrap();
    assert!(matches!(t, NixTypeValue::InfiniteRecursion(_)));
    match OptionType::from_raw(t) {
        OptionType::Unknown(d) => assert_eq!(d, "infinite recursion error"),
        other => panic!("expected unknown, got {:?}", other),
    }
}

#[test]
fn decode_option_leaf_and_set() {
    let opt = obj(vec![
        ("_option", JsonValue::Bool(true)),
        ("description", str_val("whether to enable")),
        ("type", leaf_type("bool", "boolean")),
        ("default", JsonValue::Bool(false)),
    ]);
    match decode_nix_value(&opt).unwrap() {
        NixValue::Option(o) => {
            assert_eq!(o.description, "whether to enable");
            assert!(matches!(o.type_value, NixTypeValue::Type(_)));
            assert!(matches!(o.default, Some(NixGuardedValue::Bool(false))));
            assert!(o.example.is_none());
        },
        other => panic!("expected an option, got {:?}", other),
    }

    let set = obj(vec![(
        "services",
        obj(vec![(
            "foo",
            obj(vec![
                ("_option", JsonValue::Bool(true)),
                ("description", str_val("d")),
                ("type", leaf_type("bool", "boolean")),
            ]),
        )]),
    )]);
    match decode_nix_value(&set).unwrap() {
        NixValue::Group(entries) => {
            assert_eq!(entries.len(), 1);
            assert_eq!(entries[0].0, "services");
        },
        other => panic!("expected a set, got {:?}", other),
    }
}

#[test]
fn decode_null_default_is_absent() {
    let opt = obj(vec![
        ("_option", JsonValue::Bool(true)),
        ("description", str_val("d")),
        ("type", leaf_type("bool", "boolean")),
        ("default", JsonValue::Null),
    ]);
    match decode_nix_value(&opt).unwrap() {
        NixValue::Option(o) => assert!(o.default.is_none()),
        other => panic!("expected an option, got {:?}", other),
    }
}

#[test]
fn get_options_parses_bytes() {
    let schema = br#"{"foo": {"_option": true, "description": "d", "type":
        {"_type": true, "description": "boolean", "functorName": "bool",
         "name": "bool", "nestedTypes": {}}}}"#;
    match get_options(schema).unwrap() {
        NixValue::Group(entries) => {
            assert_eq!(entries.len(), 1);
            assert_eq!(entries[0].0, "foo");
            assert!(matches!(entries[0].1, NixValue::Option(_)));
        },
        other => panic!("expected a set, got {:?}", other),
    }
}

#[test]
fn get_options_rejects_malformed_json() {
    assert!(matches!(get_options(b"{ not json"), Err(LoadJsonError::ParseRelated(_))));
}

#[test]
fn get_options_rejects_wrong_shape() {
    assert!(matches!(get_options(b"[1, 2, 3]"), Err(LoadJsonError::UnexpectedShape)));
}

#[test]
fn get_config_is_total_on_json() {
    let config = br#"{"a": 1, "b": [true, null], "c": {"_function": true}}"#;
    match get_config(config).unwrap() {
        NixGuardedValue::Attrs(entries) => {
            assert_eq!(entries.len(), 3);
            assert!(matches!(entries[2].1, NixGuardedValue::Function(_)));
        },
        other => panic!("expected attrs, got {:?}", other),
    }
    assert!(matches!(get_config(b"]["), Err(LoadJsonError::ParseRelated(_))));
}

#[test]
fn parse_configuration_names() {
    let names = parse_nixos_configurations(br#"["alpha", "beta"]"#).unwrap();
    assert_eq!(names, vec!["alpha".to_string(), "beta".to_string()]);
    assert!(parse_nixos_configurations(br#"{"alpha": 1}"#).is_none());
    assert!(parse_nixos_configurations(br#"["alpha", 2]"#).is_none());
    assert!(parse_nixos_configurations(b"nonsense").is_none());
}

#[test]
fn big_numbers_keep_their_text() {
    // A number that does not fit i64 keeps its decimal text.
    match decode_guarded(JsonValue::Num("18446744073709551615".to_string())) {
        NixGuardedValue::Float(s) => assert_eq!(s, "18446744073709551615"),
        other => panic!("expected a float, got {:?}", other),
    }
    match get_config(b"18446744073709551615").unwrap() {
        NixGuardedValue::Float(s) => assert_eq!(s, "18446744073709551615"),
        other => panic!("expected a float, got {:?}", other),
    }
}
