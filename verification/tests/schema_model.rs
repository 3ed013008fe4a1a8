//! Schema lookup, the schema model, field expansion and schema usage.
use phyllotaxis::commands::schemas::{
    build_schema_model, expand_fields, find_schema, find_schema_usage, list_schemas,
};
use phyllotaxis::models::json::JsonValue;
use phyllotaxis::models::openapi::{
    build_fields, extract_object_properties, SchemaKind, SchemaNode, SchemaRef, StringFormat,
};
use phyllotaxis::models::operation::{
    ApiDef, BodyRef, MediaDef, OperationDef, ParamDef, ParamKind, ParamRef, PathItemDef, PathRef,
    RequestBodyDef, ResponseDef, ResponseRef, StatusKey, ValueSchema,
};
use phyllotaxis::models::schema::Composition;

fn node(kind: SchemaKind) -> SchemaNode {
    SchemaNode {
        kind,
        title: None,
        description: None,
        nullable: false,
        read_only: false,
        write_only: false,
        deprecated: false,
        default: None,
        example: None,
        discriminator: None,
    }
}

fn string() -> SchemaNode {
    node(SchemaKind::String {
        format: StringFormat::Empty,
        enumeration: vec![],
        min_length: None,
        max_length: None,
        pattern: None,
    })
}

fn integer() -> SchemaNode {
    node(SchemaKind::Integer {
        enumeration: vec![],
        minimum: None,
        exclusive_minimum: false,
        maximum: None,
        exclusive_maximum: false,
        multiple_of: None,
    })
}

fn number() -> SchemaNode {
    node(SchemaKind::Number { constraints: vec![], enum_values: vec![] })
}

fn item(s: SchemaNode) -> SchemaRef {
    SchemaRef::Item(Box::new(s))
}

fn reference(name: &str) -> SchemaRef {
    SchemaRef::Reference(format!("#/components/schemas/{}", name))
}

fn object(props: Vec<(&str, SchemaRef)>, required: &[&str]) -> SchemaNode {
    node(SchemaKind::Object {
        properties: props.into_iter().map(|(n, r)| (n.to_string(), r)).collect(),
        required: required.iter().map(|s| s.to_string()).collect(),
        min_properties: None,
        max_properties: None,
    })
}

fn array_of(items: SchemaRef) -> SchemaNode {
    node(SchemaKind::Array { items: Some(items), min_items: None, max_items: None, unique_items: false })
}

fn components() -> Vec<(String, SchemaRef)> {
    let pet = object(
        vec![
            ("id", item(integer())),
            ("name", item(string())),
            ("tag", item(string())),
            ("owner", reference("Owner")),
        ],
        &["id", "name"],
    );
    let owner = object(vec![("name", item(string()))], &["name"]);
    let status = node(SchemaKind::String {
        format: StringFormat::Empty,
        enumeration: vec![Some("available".to_string()), None, Some("sold".to_string())],
        min_length: None,
        max_length: None,
        pattern: None,
    });
    let circle = object(vec![("radius", item(number()))], &[]);
    let square = object(vec![("side", item(number())), ("radius", item(string()))], &[]);
    let shape = node(SchemaKind::OneOf(vec![reference("Circle"), reference("Square"), item(string())]));
    let dog = node(SchemaKind::AllOf(vec![
        reference("Pet"),
        item(object(vec![("bark", item(node(SchemaKind::Boolean)))], &["bark"])),
    ]));
    let mut animal = object(vec![("kind", item(string()))], &["kind"]);
    animal.discriminator = Some((
        "kind".to_string(),
        vec![
            ("dog".to_string(), "#/components/schemas/Dog".to_string()),
            ("cat".to_string(), "Cat".to_string()),
        ],
    ));
    let tree = object(vec![("children", item(array_of(reference("TreeNode"))))], &[]);
    vec![
        ("Pet".to_string(), item(pet)),
        ("Owner".to_string(), item(owner)),
        ("Status".to_string(), item(status)),
        ("Circle".to_string(), item(circle)),
        ("Square".to_string(), item(square)),
        ("Shape".to_string(), item(shape)),
        ("Dog".to_string(), item(dog)),
        ("Animal".to_string(), item(animal)),
        ("TreeNode".to_string(), item(tree)),
        ("Alias".to_string(), reference("Owner")),
        ("PetList".to_string(), item(array_of(reference("Pet")))),
        ("Price".to_string(), item(number())),
    ]
}

fn names(fields: &[phyllotaxis::models::resource::Field]) -> Vec<&str> {
    fields.iter().map(|f| f.name.as_str()).collect()
}

#[test]
fn list_schemas_is_sorted() {
    let comps = components();
    let names = list_schemas(&comps);
    assert_eq!(
        names,
        vec!["Alias", "Animal", "Circle", "Dog", "Owner", "Pet", "PetList", "Price", "Shape", "Square", "Status", "TreeNode"]
    );
    assert!(list_schemas(&vec![]).is_empty());
}

#[test]
fn find_schema_exact_then_ignoring_case() {
    let comps = components();
    let (key, _) = find_schema(&comps, "Pet").unwrap();
    assert_eq!(key, "Pet");
    let (key, _) = find_schema(&comps, "pet").unwrap();
    assert_eq!(key, "Pet");
    let (key, _) = find_schema(&comps, "STATUS").unwrap();
    assert_eq!(key, "Status");
    assert!(find_schema(&comps, "Missing").is_none());
}

#[test]
fn find_schema_follows_a_reference_entry() {
    let comps = components();
    let (key, s) = find_schema(&comps, "Alias").unwrap();
    assert_eq!(key, "Owner");
    assert!(matches!(s.kind, SchemaKind::Object { .. }));
}

#[test]
fn build_fields_of_an_object() {
    let comps = components();
    let (_, pet) = find_schema(&comps, "Pet").unwrap();
    let fields = build_fields(&comps, pet, &["id".to_string(), "name".to_string()]);
    assert_eq!(names(&fields), vec!["id", "name", "tag", "owner"]);
    assert_eq!(fields[0].type_display, "integer");
    assert!(fields[0].required && !fields[0].optional);
    assert!(!fields[2].required && fields[2].optional);
    assert_eq!(fields[3].type_display, "Owner");
    assert_eq!(fields[3].nested_schema_name.as_deref(), Some("Owner"));
}

#[test]
fn schema_model_of_an_object() {
    let comps = components();
    let m = build_schema_model(&comps, "pet", false, 3).unwrap();
    assert_eq!(m.name, "Pet");
    assert_eq!(names(&m.fields), vec!["id", "name", "tag", "owner"]);
    assert!(m.composition.is_none());
    assert!(m.base_type.is_none());
    assert!(m.discriminator.is_none());
    assert!(m.fields[3].nested_fields.is_empty());
}

#[test]
fn schema_model_of_a_string_enum() {
    let comps = components();
    let m = build_schema_model(&comps, "Status", false, 3).unwrap();
    assert!(m.fields.is_empty());
    match m.composition {
        Some(Composition::Enum(v)) => assert_eq!(v, vec!["available", "sold"]),
        other => panic!("expected an enum, got {:?}", other),
    }
    assert!(m.base_type.is_none());
}

#[test]
fn schema_model_of_a_one_of() {
    let comps = components();
    let m = build_schema_model(&comps, "Shape", false, 3).unwrap();
    match &m.composition {
        Some(Composition::OneOf(v)) => assert_eq!(v, &vec!["Circle", "Square", "string"]),
        other => panic!("expected oneOf, got {:?}", other),
    }
    // Square's `radius` replaces Circle's.
    assert_eq!(names(&m.fields), vec!["side", "radius"]);
    assert_eq!(m.fields[1].type_display, "string");
}

#[test]
fn schema_model_of_an_all_of() {
    let comps = components();
    let m = build_schema_model(&comps, "Dog", false, 3).unwrap();
    assert!(matches!(m.composition, Some(Composition::AllOf)));
    assert_eq!(names(&m.fields), vec!["id", "name", "tag", "owner", "bark"]);
    assert!(m.fields[0].required);
    assert!(m.fields[4].required);
}

#[test]
fn schema_model_discriminator_and_base_type() {
    let comps = components();
    let m = build_schema_model(&comps, "Animal", false, 3).unwrap();
    let d = m.discriminator.unwrap();
    assert_eq!(d.property_name, "kind");
    assert_eq!(d.mapping, vec![("dog".to_string(), "Dog".to_string()), ("cat".to_string(), "Cat".to_string())]);
    let price = build_schema_model(&comps, "Price", false, 3).unwrap();
    assert_eq!(price.base_type.as_deref(), Some("number"));
    let list = build_schema_model(&comps, "PetList", false, 3).unwrap();
    assert_eq!(list.base_type.as_deref(), Some("array"));
    assert!(list.composition.is_none());
    assert!(build_schema_model(&comps, "Nope", false, 3).is_none());
}

#[test]
fn expanding_fills_referenced_fields() {
    let comps = components();
    let m = build_schema_model(&comps, "Pet", true, 3).unwrap();
    assert_eq!(names(&m.fields[3].nested_fields), vec!["name"]);
    assert!(m.fields[0].nested_fields.is_empty());
}

#[test]
fn expanding_never_enters_a_schema_inside_itself() {
    let comps = components();
    let m = build_schema_model(&comps, "TreeNode", true, 5).unwrap();
    assert_eq!(names(&m.fields), vec!["children"]);
    assert_eq!(m.fields[0].nested_schema_name.as_deref(), Some("TreeNode"));
    assert!(m.fields[0].nested_fields.is_empty());
}

#[test]
fn expanding_stops_at_the_depth_limit() {
    let comps = components();
    let (_, pet) = find_schema(&comps, "Pet").unwrap();
    let fields = build_fields(&comps, pet, &[]);
    let mut visited = vec![];
    let out = expand_fields(&comps, fields, &mut visited, 2, 1);
    assert!(out[3].nested_fields.is_empty());
    assert!(visited.is_empty());
}

fn op(tags: &[&str], body: Option<BodyRef>, responses: Vec<(StatusKey, ResponseRef)>, params: Vec<ParamRef>) -> OperationDef {
    OperationDef {
        operation_id: None,
        summary: None,
        description: None,
        deprecated: false,
        alpha: false,
        tags: tags.iter().map(|t| t.to_string()).collect(),
        parameters: params,
        request_body: body,
        responses,
        default_response: None,
        security: None,
        callbacks: vec![],
    }
}

fn json_media(schema: SchemaRef) -> MediaDef {
    MediaDef { content_type: "application/json".to_string(), schema: Some(schema), example: None }
}

fn response(schema: SchemaRef) -> ResponseRef {
    ResponseRef::Item(ResponseDef { description: "ok".to_string(), content: vec![json_media(schema)], headers: vec![], links: vec![] })
}

fn usage_api() -> ApiDef {
    let create = op(
        &["Pets"],
        Some(BodyRef::Item(RequestBodyDef { content: vec![json_media(reference("Pet"))] })),
        vec![(StatusKey::Code(201), response(reference("Pet")))],
        vec![],
    );
    let show_owner = op(
        &[],
        None,
        vec![(StatusKey::Code(200), response(reference("Owner")))],
        vec![ParamRef::Item(ParamDef {
            name: "owner".to_string(),
            kind: ParamKind::Query,
            required: false,
            description: None,
            schema: ValueSchema::Schema(reference("Owner")),
        })],
    );
    ApiDef {
        paths: vec![
            ("/pets".to_string(), PathRef::Item(PathItemDef { parameters: vec![], operations: vec![("POST".to_string(), create)] })),
            ("/v1/owners/{id}".to_string(), PathRef::Item(PathItemDef { parameters: vec![], operations: vec![("GET".to_string(), show_owner)] })),
        ],
        schemas: components(),
        parameters: vec![],
        request_bodies: vec![],
        security: None,
    }
}

#[test]
fn schema_usage_direct_and_through_fields() {
    let api = usage_api();
    let pet = find_schema_usage(&api, "Pet");
    let got: Vec<(&str, &str, &str, Option<&str>)> = pet
        .iter()
        .map(|u| (u.method.as_str(), u.path.as_str(), u.usage_type.as_str(), u.resource_slug.as_deref()))
        .collect();
    assert_eq!(got, vec![("POST", "/pets", "request body", Some("pets")), ("POST", "/pets", "response", Some("pets"))]);
    // Owner is a field of Pet, returned by GET and named by a parameter.
    let owner = find_schema_usage(&api, "Owner");
    let got: Vec<(&str, &str, Option<&str>)> =
        owner.iter().map(|u| (u.path.as_str(), u.usage_type.as_str(), u.resource_slug.as_deref())).collect();
    assert_eq!(
        got,
        vec![
            ("/pets", "request body", Some("pets")),
            ("/pets", "response", Some("pets")),
            ("/v1/owners/{id}", "response", Some("owners")),
            ("/v1/owners/{id}", "parameter", Some("owners")),
        ]
    );
    assert!(find_schema_usage(&api, "Circle").is_empty());
}

#[test]
fn example_values_are_kept_on_fields() {
    let mut comps = components();
    if let SchemaRef::Item(b) = &mut comps[1].1 {
        if let SchemaKind::Object { properties, .. } = &mut b.kind {
            if let SchemaRef::Item(n) = &mut properties[0].1 {
                n.example = Some(JsonValue::Str("Ann".to_string()));
            }
        }
    }
    let (_, owner) = find_schema(&comps, "Owner").unwrap();
    let fields = build_fields(&comps, owner, &[]);
    assert_eq!(fields[0].example, Some(JsonValue::Str("Ann".to_string())));
}

#[test]
fn object_properties_of_objects_and_untyped_schemas() {
    let obj = node(SchemaKind::Object {
        properties: vec![("id".to_string(), item(integer()))],
        required: vec!["id".to_string()],
        min_properties: None,
        max_properties: None,
    });
    let (props, req) = extract_object_properties(&obj).expect("object has properties");
    assert_eq!(props.len(), 1);
    assert_eq!(props[0].0, "id");
    assert_eq!(req, vec!["id".to_string()]);

    let untyped = node(SchemaKind::Any {
        typ: None,
        properties: vec![("name".to_string(), item(string()))],
        required: vec![],
        items: None,
    });
    let (props, req) = extract_object_properties(&untyped).expect("untyped schema with properties");
    assert_eq!(props[0].0, "name");
    assert!(req.is_empty());

    let empty_any = node(SchemaKind::Any { typ: None, properties: vec![], required: vec![], items: None });
    assert!(extract_object_properties(&empty_any).is_none());
    assert!(extract_object_properties(&string()).is_none());
}

#[test]
fn search_reads_own_or_inline_allof_properties() {
    use_search_entries();
}

fn use_search_entries() {
    let obj = |names: &[&str]| {
        node(SchemaKind::Object {
            properties: names.iter().map(|n| (n.to_string(), item(string()))).collect(),
            required: vec![],
            min_properties: None,
            max_properties: None,
        })
    };
    let comps: Vec<(String, SchemaRef)> = vec![
        ("Pet".to_string(), item(obj(&["name", "tag"]))),
        (
            "Dog".to_string(),
            item(node(SchemaKind::AllOf(vec![reference("Pet"), item(obj(&["bark"])), item(obj(&["breed", "size"]))]))),
        ),
        ("Id".to_string(), item(string())),
    ];
    let pet = phyllotaxis::commands::search::schema_entry(&comps, "Pet");
    assert_eq!(pet.name, "Pet");
    assert_eq!(pet.field_names, vec!["name".to_string(), "tag".to_string()]);
    let dog = phyllotaxis::commands::search::schema_entry(&comps, "Dog");
    assert_eq!(dog.field_names, vec!["bark".to_string(), "breed".to_string(), "size".to_string()]);
    assert!(phyllotaxis::commands::search::schema_entry(&comps, "Id").field_names.is_empty());
    assert!(phyllotaxis::commands::search::schema_entry(&comps, "Nope").field_names.is_empty());
    assert_eq!(phyllotaxis::commands::search::searchable_fields(&obj(&["a"])), vec!["a".to_string()]);
}

#[test]
fn schema_usage_counts_an_operation_once_per_kind() {
    let create = op(
        &[],
        None,
        vec![(StatusKey::Code(200), response(reference("Pet"))), (StatusKey::Code(201), response(reference("Pet")))],
        vec![],
    );
    let api = ApiDef {
        paths: vec![("/x".to_string(), PathRef::Item(PathItemDef { parameters: vec![], operations: vec![("POST".to_string(), create)] }))],
        schemas: components(),
        parameters: vec![],
        request_bodies: vec![],
        security: None,
    };
    let usages = find_schema_usage(&api, "Pet");
    assert_eq!(usages.len(), 1);
    assert_eq!(usages[0].method, "POST");
    assert_eq!(usages[0].path, "/x");
    assert_eq!(usages[0].usage_type, "response");
}
