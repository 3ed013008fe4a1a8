//! JSON pointers and generated examples.
use phyllotaxis::commands::examples::generate_example;
use phyllotaxis::document::{
    bundle_step, child_pointer, inline_part, json_pointer_get, record_location, revisit, BundleStep, Revisit,
};
use phyllotaxis::models::json::{clone_json, JsonValue};
use phyllotaxis::models::openapi::{SchemaKind, SchemaNode, SchemaRef, StringFormat};

fn obj(members: Vec<(&str, JsonValue)>) -> JsonValue {
    JsonValue::Object(members.into_iter().map(|(k, v)| (k.to_string(), v)).collect())
}

fn num(n: &str) -> JsonValue {
    JsonValue::Number(n.to_string())
}

fn s(x: &str) -> JsonValue {
    JsonValue::Str(x.to_string())
}

#[test]
fn test_json_pointer_root() {
    let val = obj(vec![("a", num("1"))]);
    assert_eq!(json_pointer_get(&val, ""), Some(&val));
}

#[test]
fn test_json_pointer_simple() {
    let val = obj(vec![("components", obj(vec![("schemas", obj(vec![("Pet", obj(vec![("type", s("object"))]))]))]))]);
    let result = json_pointer_get(&val, "/components/schemas/Pet");
    assert_eq!(result, Some(&obj(vec![("type", s("object"))])));
}

#[test]
fn test_json_pointer_missing_key() {
    let val = obj(vec![("a", num("1"))]);
    assert_eq!(json_pointer_get(&val, "/b"), None);
}

#[test]
fn test_json_pointer_escape_tilde1() {
    let val = obj(vec![("a/b", num("42"))]);
    assert_eq!(json_pointer_get(&val, "/a~1b"), Some(&num("42")));
}

#[test]
fn test_json_pointer_escape_tilde0() {
    let val = obj(vec![("a~b", num("99"))]);
    assert_eq!(json_pointer_get(&val, "/a~0b"), Some(&num("99")));
}

#[test]
fn test_json_pointer_intermediate_not_object() {
    let val = obj(vec![("a", s("not_an_object"))]);
    assert_eq!(json_pointer_get(&val, "/a/b"), None);
}

#[test]
fn json_pointer_decodes_in_order() {
    // `~01` is `~1` after decoding: `~1` is replaced first, `~0` second.
    let val = obj(vec![("~1", num("1")), ("/", num("2"))]);
    assert_eq!(json_pointer_get(&val, "/~01"), Some(&num("1")));
    assert_eq!(json_pointer_get(&val, "/~1"), Some(&num("2")));
}

#[test]
fn cloning_keeps_a_value() {
    let v = obj(vec![("a", JsonValue::Array(vec![JsonValue::Null, JsonValue::Bool(true), num("1.5")]))]);
    assert_eq!(clone_json(&v), v);
}

fn node(kind: SchemaKind) -> SchemaNode {
    SchemaNode {
        kind,
        title: None,
        description: None,
        nullable: false,
        read_only: false,
        write_only: false,
        deprecated: false,
        default: None,
        example: None,
        discriminator: None,
    }
}

fn string_fmt(format: StringFormat, enumeration: Vec<Option<String>>) -> SchemaNode {
    node(SchemaKind::String { format, enumeration, min_length: None, max_length: None, pattern: None })
}

fn item(n: SchemaNode) -> SchemaRef {
    SchemaRef::Item(Box::new(n))
}

fn reference(name: &str) -> SchemaRef {
    SchemaRef::Reference(format!("#/components/schemas/{}", name))
}

fn object(ps: Vec<(&str, SchemaRef)>, required: &[&str]) -> SchemaNode {
    node(SchemaKind::Object {
        properties: ps.into_iter().map(|(n, r)| (n.to_string(), r)).collect(),
        required: required.iter().map(|x| x.to_string()).collect(),
        min_properties: None,
        max_properties: None,
    })
}

fn components() -> Vec<(String, SchemaRef)> {
    let user = object(
        vec![
            ("id", item(string_fmt(StringFormat::Unknown("uuid".to_string()), vec![]))),
            ("created_at", item(string_fmt(StringFormat::DateTime, vec![]))),
            ("email", item(string_fmt(StringFormat::Unknown("email".to_string()), vec![]))),
            ("age", item(node(SchemaKind::Integer {
                enumeration: vec![],
                minimum: None,
                exclusive_minimum: false,
                maximum: None,
                exclusive_maximum: false,
                multiple_of: None,
            }))),
        ],
        &["id"],
    );
    let create = object(
        vec![
            ("username", item(string_fmt(StringFormat::Empty, vec![]))),
            ("role", item(string_fmt(StringFormat::Empty, vec![None, Some("admin".to_string()), Some("editor".to_string())]))),
        ],
        &["username"],
    );
    let tree = object(vec![("value", item(node(SchemaKind::Boolean))), ("children", item(node(SchemaKind::Array {
        items: Some(reference("TreeNode")),
        min_items: None,
        max_items: None,
        unique_items: false,
    })))], &["value", "children"]);
    let flag = object(vec![("isActive", item(node(SchemaKind::Any {
        typ: Some("boolean".to_string()),
        properties: vec![],
        required: vec![],
        items: None,
    })))], &["isActive"]);
    let mut entity = object(vec![("kind", item(string_fmt(StringFormat::Empty, vec![]))), ("id", item(string_fmt(StringFormat::Empty, vec![])))], &["kind", "id"]);
    entity.discriminator = Some((
        "kind".to_string(),
        vec![
            ("widget".to_string(), "#/components/schemas/WidgetEntity".to_string()),
            ("gadget".to_string(), "GadgetEntity".to_string()),
        ],
    ));
    let widget = node(SchemaKind::AllOf(vec![reference("BaseEntity"), item(object(vec![("size", item(node(SchemaKind::Number { constraints: vec![], enum_values: vec![] })))], &["size"]))]));
    let gadget = node(SchemaKind::AllOf(vec![reference("BaseEntity")]));
    let mut given = object(vec![("x", item(node(SchemaKind::Boolean)))], &["x"]);
    given.example = Some(obj(vec![("x", JsonValue::Bool(false))]));
    vec![
        ("User".to_string(), item(user)),
        ("CreateUserRequest".to_string(), item(create)),
        ("TreeNode".to_string(), item(tree)),
        ("BooleanFormatEntity".to_string(), item(flag)),
        ("BaseEntity".to_string(), item(entity)),
        ("WidgetEntity".to_string(), item(widget)),
        ("GadgetEntity".to_string(), item(gadget)),
        ("Given".to_string(), item(given)),
    ]
}

fn get<'a>(v: &'a JsonValue, k: &str) -> Option<&'a JsonValue> {
    match v {
        JsonValue::Object(ms) => ms.iter().find(|(key, _)| key == k).map(|(_, v)| v),
        _ => None,
    }
}

#[test]
fn example_required_fields_only() {
    let comps = components();
    let out = generate_example(&comps, "CreateUserRequest", false).unwrap();
    assert_eq!(out, obj(vec![("username", s("string"))]));
    let all = generate_example(&comps, "CreateUserRequest", true).unwrap();
    assert_eq!(get(&all, "role"), Some(&s("admin")));
}

#[test]
fn example_formats() {
    let comps = components();
    let out = generate_example(&comps, "User", true).unwrap();
    assert_eq!(get(&out, "id"), Some(&s("550e8400-e29b-41d4-a716-446655440000")));
    assert_eq!(get(&out, "created_at"), Some(&s("2024-01-15T10:30:00Z")));
    assert_eq!(get(&out, "email"), Some(&s("user@example.com")));
    assert_eq!(get(&out, "age"), Some(&num("0")));
}

#[test]
fn example_of_unknown_schema_is_none() {
    assert!(generate_example(&components(), "NonExistentSchema", false).is_none());
}

#[test]
fn example_of_self_reference_stops() {
    let out = generate_example(&components(), "TreeNode", false).unwrap();
    // The top schema is not yet being generated, so one level of children
    // is, and inside it the reference to itself gives null.
    let inner = obj(vec![("value", JsonValue::Bool(true)), ("children", JsonValue::Array(vec![JsonValue::Null]))]);
    assert_eq!(out, obj(vec![("value", JsonValue::Bool(true)), ("children", JsonValue::Array(vec![inner]))]));
}

#[test]
fn example_boolean_with_format_annotation() {
    let out = generate_example(&components(), "BooleanFormatEntity", false).unwrap();
    assert_eq!(get(&out, "isActive"), Some(&JsonValue::Bool(true)));
}

#[test]
fn example_allof_subtype_discriminator_value() {
    let comps = components();
    let widget = generate_example(&comps, "WidgetEntity", false).unwrap();
    assert_eq!(get(&widget, "kind"), Some(&s("widget")));
    assert_eq!(get(&widget, "size"), Some(&num("0.0")));
    let gadget = generate_example(&comps, "GadgetEntity", false).unwrap();
    assert_eq!(get(&gadget, "kind"), Some(&s("gadget")));
}

#[test]
fn example_given_in_the_document_wins() {
    let out = generate_example(&components(), "Given", false).unwrap();
    assert_eq!(out, obj(vec![("x", JsonValue::Bool(false))]));
}

#[test]
fn bundling_loads_external_yaml_and_json_refs() {
    match bundle_step(&obj(vec![("$ref", s("common.yaml#/components/schemas/Error"))])) {
        BundleStep::Load { reference, file, fragment } => {
            assert_eq!(reference, "common.yaml#/components/schemas/Error");
            assert_eq!(file, "common.yaml");
            assert_eq!(fragment.as_deref(), Some("/components/schemas/Error"));
        }
        other => panic!("unexpected step {:?}", other),
    }
    assert!(matches!(bundle_step(&obj(vec![("$ref", s("#/components/schemas/Pet"))])), BundleStep::Keep));
    assert!(matches!(bundle_step(&obj(vec![("$ref", s("Sample.cs"))])), BundleStep::Keep));
    assert!(matches!(bundle_step(&obj(vec![("$ref", num("3"))])), BundleStep::Descend));
    assert!(matches!(bundle_step(&obj(vec![("type", s("object"))])), BundleStep::Descend));
    assert!(matches!(bundle_step(&JsonValue::Array(vec![])), BundleStep::Descend));
}

#[test]
fn bundling_turns_a_cycle_into_a_local_ref() {
    let visited = vec!["/specs/user.yaml".to_string()];
    let mut locations = Vec::new();
    record_location(&mut locations, "/specs/other.yaml", "/paths/~1a");
    record_location(&mut locations, "/specs/user.yaml", "/components/schemas/User");
    assert!(matches!(revisit(&visited, &locations, "/specs/pet.yaml"), Revisit::Inline));
    match revisit(&visited, &locations, "/specs/user.yaml") {
        Revisit::Replace(v) => assert_eq!(v, obj(vec![("$ref", s("#/components/schemas/User"))])),
        other => panic!("unexpected {:?}", other),
    }
    let visited = vec!["/specs/lost.yaml".to_string()];
    assert!(matches!(revisit(&visited, &locations, "/specs/lost.yaml"), Revisit::Keep));
    record_location(&mut locations, "/specs/user.yaml", "/elsewhere");
    match revisit(&vec!["/specs/user.yaml".to_string()], &locations, "/specs/user.yaml") {
        Revisit::Replace(v) => assert_eq!(v, obj(vec![("$ref", s("#/elsewhere"))])),
        other => panic!("unexpected {:?}", other),
    }
}

#[test]
fn bundling_pointers_and_fragments() {
    assert_eq!(child_pointer("", "paths"), "/paths");
    assert_eq!(child_pointer("/paths", "0"), "/paths/0");
    let file = obj(vec![("components", obj(vec![("schemas", obj(vec![("Error", obj(vec![("type", s("object"))]))]))]))]);
    assert_eq!(inline_part(clone_json(&file), &None), Some(clone_json(&file)));
    assert_eq!(
        inline_part(clone_json(&file), &Some("/components/schemas/Error".to_string())),
        Some(obj(vec![("type", s("object"))]))
    );
    assert_eq!(inline_part(file, &Some("/components/missing".to_string())), None);
}
