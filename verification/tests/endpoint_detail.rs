//! Endpoint detail: parameters, request bodies, responses, links,
//! callbacks and drill-down hints.
use phyllotaxis::commands::endpoint::{
    build_link_drill_command, collect_related_schemas, expand_response_schema, extract_callbacks_from_operation,
    extract_param_schema_info, extract_request_body, extract_responses, extract_security,
    find_callback, get_endpoint_detail, list_all_callbacks, merge_parameters,
    related_schema_names, resolve_response_schema_ref, split_str, strip_prefix_exec,
};
use phyllotaxis::models::openapi::{SchemaKind, SchemaNode, SchemaRef, StringFormat};
use phyllotaxis::models::operation::{
    ApiDef, BodyRef, HeaderDef, HeaderRef, LinkDef, LinkRef, LinkTarget, MediaDef, OperationDef,
    ParamDef, ParamKind, ParamRef, PathItemDef, PathRef, RequestBodyDef, ResponseDef, ResponseRef,
    StatusKey, ValueSchema,
};
use phyllotaxis::models::resource::ParameterLocation;

fn node(kind: SchemaKind) -> SchemaNode {
    SchemaNode {
        kind,
        title: None,
        description: None,
        nullable: false,
        read_only: false,
        write_only: false,
        deprecated: false,
        default: None,
        example: None,
        discriminator: None,
    }
}

fn string_fmt(format: StringFormat, enumeration: Vec<Option<String>>) -> SchemaNode {
    node(SchemaKind::String { format, enumeration, min_length: None, max_length: None, pattern: None })
}

fn string() -> SchemaNode {
    string_fmt(StringFormat::Empty, vec![])
}

fn boolean() -> SchemaNode {
    node(SchemaKind::Boolean)
}

fn item(s: SchemaNode) -> SchemaRef {
    SchemaRef::Item(Box::new(s))
}

fn reference(name: &str) -> SchemaRef {
    SchemaRef::Reference(format!("#/components/schemas/{}", name))
}

fn props(ps: Vec<(&str, SchemaRef)>) -> Vec<(String, SchemaRef)> {
    ps.into_iter().map(|(n, r)| (n.to_string(), r)).collect()
}

fn object(ps: Vec<(&str, SchemaRef)>, required: &[&str]) -> SchemaNode {
    node(SchemaKind::Object {
        properties: props(ps),
        required: required.iter().map(|s| s.to_string()).collect(),
        min_properties: None,
        max_properties: None,
    })
}

fn array_of(items: SchemaRef) -> SchemaNode {
    node(SchemaKind::Array { items: Some(items), min_items: None, max_items: None, unique_items: false })
}

fn op() -> OperationDef {
    OperationDef {
        operation_id: None,
        summary: None,
        description: None,
        deprecated: false,
        alpha: false,
        tags: vec![],
        parameters: vec![],
        request_body: None,
        responses: vec![],
        default_response: None,
        security: None,
        callbacks: vec![],
    }
}

fn media(ct: &str, schema: Option<SchemaRef>) -> MediaDef {
    MediaDef { content_type: ct.to_string(), schema, example: None }
}

fn response(desc: &str, content: Vec<MediaDef>) -> ResponseDef {
    ResponseDef { description: desc.to_string(), content, headers: vec![], links: vec![] }
}

fn param(name: &str, kind: ParamKind, schema: ValueSchema) -> ParamDef {
    ParamDef { name: name.to_string(), kind, required: false, description: None, schema }
}

fn api(paths: Vec<(&str, PathItemDef)>, schemas: Vec<(&str, SchemaRef)>) -> ApiDef {
    ApiDef {
        paths: paths.into_iter().map(|(p, i)| (p.to_string(), PathRef::Item(i))).collect(),
        schemas: props(schemas),
        parameters: vec![],
        request_bodies: vec![],
        security: None,
    }
}

fn components() -> Vec<(&'static str, SchemaRef)> {
    vec![
        ("User", item(object(vec![("id", item(string())), ("manager", reference("User"))], &["id"]))),
        ("DeletedUser", item(object(vec![("id", item(string())), ("deleted", item(boolean()))], &[]))),
        ("Owner", item(object(vec![("name", item(string()))], &[]))),
        ("Pet", item(object(vec![("name", item(string())), ("owner", reference("Owner"))], &["name"]))),
    ]
}

#[test]
fn test_implicit_object_request_body_extracted() {
    let schema = node(SchemaKind::Any {
        typ: None,
        properties: props(vec![
            ("message", item(SchemaNode { description: Some("Message to display".to_string()), ..string() })),
            ("color", item(SchemaNode { description: Some("Background color".to_string()), ..string() })),
            ("active", item(SchemaNode { description: Some("Whether the message is active".to_string()), ..boolean() })),
        ]),
        required: vec!["message".to_string()],
        items: None,
    });
    let post = OperationDef {
        operation_id: Some("createMessage".to_string()),
        request_body: Some(BodyRef::Item(RequestBodyDef { content: vec![media("application/json", Some(item(schema)))] })),
        responses: vec![(StatusKey::Code(201), ResponseRef::Item(response("Created", vec![])))],
        ..op()
    };
    let api = api(vec![("/messages", PathItemDef { parameters: vec![], operations: vec![("POST".to_string(), post)] })], vec![]);
    let ep = get_endpoint_detail(&api, "POST", "/messages", false, "phyllotaxis")
        .expect("Expected POST /messages endpoint");
    let body = ep.request_body.expect("Implicit object request body should be extracted");
    assert_eq!(body.content_type, "application/json");
    assert!(!body.fields.is_empty(), "Implicit object should have fields, got empty (was 'Raw body' bug)");
    let field_names: Vec<&str> = body.fields.iter().map(|f| f.name.as_str()).collect();
    assert!(field_names.contains(&"message"), "missing 'message': {:?}", field_names);
    assert!(field_names.contains(&"color"), "missing 'color': {:?}", field_names);
    assert!(field_names.contains(&"active"), "missing 'active': {:?}", field_names);
    let msg_field = body.fields.iter().find(|f| f.name == "message").unwrap();
    assert!(msg_field.required, "'message' should be required");
    let color_field = body.fields.iter().find(|f| f.name == "color").unwrap();
    assert!(!color_field.required, "'color' should be optional");
}

#[test]
fn response_schema_names() {
    assert_eq!(resolve_response_schema_ref(&reference("Pet")).as_deref(), Some("Pet"));
    assert_eq!(resolve_response_schema_ref(&item(array_of(reference("Pet")))).as_deref(), Some("Pet[]"));
    assert_eq!(resolve_response_schema_ref(&item(array_of(item(string())))).as_deref(), Some("string[]"));
    assert_eq!(
        resolve_response_schema_ref(&item(node(SchemaKind::Array { items: None, min_items: None, max_items: None, unique_items: false }))).as_deref(),
        Some("array")
    );
    let any_of = node(SchemaKind::AnyOf(vec![reference("User"), reference("DeletedUser")]));
    assert_eq!(resolve_response_schema_ref(&item(any_of)).as_deref(), Some("User | DeletedUser"));
    let empty_one_of = node(SchemaKind::OneOf(vec![]));
    assert_eq!(resolve_response_schema_ref(&item(empty_one_of)), None);
    let page = object(vec![("data", item(array_of(reference("Pet")))), ("next", item(string()))], &[]);
    assert_eq!(resolve_response_schema_ref(&item(page)).as_deref(), Some("Pet[] (list)"));
    let wrapped = object(vec![("data", reference("Pet"))], &[]);
    assert_eq!(resolve_response_schema_ref(&item(wrapped)).as_deref(), Some("Pet (list)"));
    let plain = object(vec![("x", item(string()))], &[]);
    assert_eq!(resolve_response_schema_ref(&item(plain)).as_deref(), Some("object"));
    assert_eq!(resolve_response_schema_ref(&item(boolean())), None);
}

#[test]
fn splitting_and_stripping() {
    assert_eq!(split_str("A | B | C", " | "), vec!["A", "B", "C"]);
    assert_eq!(split_str("A", " | "), vec!["A"]);
    assert_eq!(split_str("", "/"), vec![""]);
    assert_eq!(split_str("/a//b", "/"), vec!["", "a", "", "b"]);
    assert_eq!(strip_prefix_exec("#/components/parameters/limit", "#/components/parameters/").as_deref(), Some("limit"));
    assert_eq!(strip_prefix_exec("#/x", "#/components/"), None);
}

#[test]
fn response_fields_merge_variants() {
    let comps = props(components());
    let fields = expand_response_schema(&comps, &Some("User | DeletedUser".to_string()));
    let names: Vec<&str> = fields.iter().map(|f| f.name.as_str()).collect();
    assert_eq!(names, vec!["manager", "id", "deleted"]);
    let listed = expand_response_schema(&comps, &Some("Pet[] (list)".to_string()));
    let names: Vec<&str> = listed.iter().map(|f| f.name.as_str()).collect();
    assert_eq!(names, vec!["name", "owner"]);
    // The owner reference is expanded; `User` is not expanded inside itself.
    assert_eq!(listed[1].nested_fields.len(), 1);
    let users = expand_response_schema(&comps, &Some("User".to_string()));
    assert!(users[1].nested_fields.is_empty());
    assert!(expand_response_schema(&comps, &None).is_empty());
    assert!(expand_response_schema(&comps, &Some("object".to_string())).is_empty());
}

#[test]
fn parameters_merge_by_name_in_order() {
    let mut a = api(vec![], components());
    a.parameters = vec![(
        "limit".to_string(),
        ParamRef::Item(param("limit", ParamKind::Query, ValueSchema::Schema(item(node(SchemaKind::Integer {
            enumeration: vec![],
            minimum: None,
            exclusive_minimum: false,
            maximum: None,
            exclusive_maximum: false,
            multiple_of: None,
        }))))),
    )];
    let path_item = PathItemDef {
        parameters: vec![
            ParamRef::Item(param("id", ParamKind::Path, ValueSchema::Schema(item(string())))),
            ParamRef::Item(param("session", ParamKind::Cookie, ValueSchema::Schema(item(string())))),
        ],
        operations: vec![],
    };
    let operation = OperationDef {
        parameters: vec![
            ParamRef::Reference("#/components/parameters/limit".to_string()),
            ParamRef::Reference("#/components/parameters/missing".to_string()),
            ParamRef::Item(ParamDef { required: true, ..param("id", ParamKind::Path, ValueSchema::Schema(reference("Owner"))) }),
            ParamRef::Item(param("X-Trace", ParamKind::Header, ValueSchema::Content)),
            ParamRef::Item(param("when", ParamKind::Query, ValueSchema::Schema(item(string_fmt(StringFormat::DateTime, vec![]))))),
        ],
        ..op()
    };
    let ps = merge_parameters(&a, &path_item, &operation);
    let got: Vec<(&str, ParameterLocation, bool, &str, Option<&str>)> = ps
        .iter()
        .map(|p| (p.name.as_str(), p.location, p.required, p.schema_type.as_str(), p.format.as_deref()))
        .collect();
    assert_eq!(
        got,
        vec![
            ("X-Trace", ParameterLocation::Header, false, "string", None),
            ("id", ParameterLocation::Path, true, "object", None),
            ("limit", ParameterLocation::Query, false, "integer", None),
            ("when", ParameterLocation::Query, false, "string/date-time", Some("date-time")),
        ]
    );
}

#[test]
fn parameter_schema_info() {
    let comps = props(components());
    let status = string_fmt(StringFormat::Empty, vec![Some("on".to_string()), Some("off".to_string())]);
    let (t, f, e) = extract_param_schema_info(&comps, &ValueSchema::Schema(item(status)));
    assert_eq!((t.as_str(), f, e), ("string", None, vec!["on".to_string(), "off".to_string()]));
    let (t, _, _) = extract_param_schema_info(&comps, &ValueSchema::Schema(reference("Nowhere")));
    assert_eq!(t, "Nowhere");
    let (t, _, _) = extract_param_schema_info(&comps, &ValueSchema::Schema(SchemaRef::Reference("#/x".to_string())));
    assert_eq!(t, "string");
    let (t, _, _) = extract_param_schema_info(&comps, &ValueSchema::Content);
    assert_eq!(t, "string");
}

#[test]
fn request_body_kinds() {
    let mut a = api(vec![], components());
    let one_of = node(SchemaKind::OneOf(vec![reference("User"), item(string()), reference("Pet")]));
    let o = OperationDef {
        request_body: Some(BodyRef::Item(RequestBodyDef {
            content: vec![media("text/plain", Some(item(string()))), media("multipart/form-data", Some(item(one_of)))],
        })),
        ..op()
    };
    let b = extract_request_body(&a, &o, false).unwrap();
    assert_eq!(b.content_type, "multipart/form-data");
    assert_eq!(b.options, vec!["User", "Pet"]);
    assert!(b.fields.is_empty() && b.schema_ref.is_none());

    a.request_bodies = vec![(
        "Pets".to_string(),
        BodyRef::Item(RequestBodyDef { content: vec![media("application/json", Some(item(array_of(reference("Pet")))))] }),
    )];
    let o = OperationDef { request_body: Some(BodyRef::Reference("#/components/requestBodies/Pets".to_string())), ..op() };
    let b = extract_request_body(&a, &o, true).unwrap();
    assert_eq!(b.array_item_type.as_deref(), Some("Pet"));
    assert_eq!(b.schema_ref.as_deref(), Some("Pet"));
    assert_eq!(b.fields.len(), 2);
    assert_eq!(b.fields[1].nested_fields.len(), 1);

    let o = OperationDef {
        request_body: Some(BodyRef::Item(RequestBodyDef { content: vec![media("text/plain", Some(reference("Pet")))] })),
        ..op()
    };
    let b = extract_request_body(&a, &o, false).unwrap();
    assert_eq!(b.content_type, "text/plain");
    assert_eq!(b.schema_ref.as_deref(), Some("Pet"));
    assert!(b.fields[1].nested_fields.is_empty());

    let none = OperationDef {
        request_body: Some(BodyRef::Item(RequestBodyDef { content: vec![media("application/json", None)] })),
        ..op()
    };
    assert!(extract_request_body(&a, &none, false).is_none());
    let missing = OperationDef { request_body: Some(BodyRef::Reference("#/components/requestBodies/Nope".to_string())), ..op() };
    assert!(extract_request_body(&a, &missing, false).is_none());
    assert!(extract_request_body(&a, &op(), false).is_none());
}

#[test]
fn responses_with_headers_links_and_default() {
    let target = OperationDef { operation_id: Some("getPet".to_string()), tags: vec!["Pet Store".to_string()], ..op() };
    let mut ok = response("OK", vec![MediaDef {
        content_type: "application/json".to_string(),
        schema: Some(reference("Pet")),
        example: Some("{\"name\": \"Rex\"}".to_string()),
    }]);
    ok.headers = vec![
        HeaderRef::Item(HeaderDef { name: "X-Rate".to_string(), schema: ValueSchema::Schema(item(string())), description: None }),
        HeaderRef::Reference("#/components/headers/X".to_string()),
        HeaderRef::Item(HeaderDef { name: "X-Other".to_string(), schema: ValueSchema::Content, description: Some("d".to_string()) }),
    ];
    ok.links = vec![
        LinkRef::Item(LinkDef {
            name: "GetPet".to_string(),
            target: LinkTarget::OperationId("getPet".to_string()),
            parameters: vec![("petId".to_string(), "$response.body#/id".to_string())],
            description: None,
        }),
        LinkRef::Item(LinkDef {
            name: "Ref".to_string(),
            target: LinkTarget::OperationRef("#/paths/x".to_string()),
            parameters: vec![],
            description: None,
        }),
    ];
    let o = OperationDef {
        responses: vec![
            (StatusKey::Code(200), ResponseRef::Item(ok)),
            (StatusKey::Range(4), ResponseRef::Item(response("Client error", vec![]))),
            (StatusKey::Code(500), ResponseRef::Reference("#/components/responses/E".to_string())),
        ],
        default_response: Some(ResponseRef::Item(response("Other", vec![]))),
        ..op()
    };
    let a = api(
        vec![("/pets/{id}", PathItemDef { parameters: vec![], operations: vec![("GET".to_string(), target)] })],
        components(),
    );
    let rs = extract_responses(&a, &o, false, "phyll");
    let codes: Vec<&str> = rs.iter().map(|r| r.status_code.as_str()).collect();
    assert_eq!(codes, vec!["200", "4XX", "default"]);
    assert_eq!(rs[0].schema_ref.as_deref(), Some("Pet"));
    assert_eq!(rs[0].example.as_deref(), Some("{\"name\": \"Rex\"}"));
    let hs: Vec<(&str, &str)> = rs[0].headers.iter().map(|h| (h.name.as_str(), h.type_display.as_str())).collect();
    assert_eq!(hs, vec![("X-Rate", "string"), ("X-Other", "string")]);
    assert_eq!(rs[0].links.len(), 1);
    assert_eq!(rs[0].links[0].parameters, vec!["petId = $response.body#/id"]);
    assert_eq!(rs[0].links[0].drill_command.as_deref(), Some("phyll resources pet-store GET /pets/{id}"));
    assert!(rs[0].fields.is_empty());
    let expanded = extract_responses(&a, &o, true, "phyll");
    assert_eq!(expanded[0].fields.len(), 2);
    assert_eq!(build_link_drill_command(&a, "nope", "phyll"), None);
}

#[test]
fn security_falls_back_to_the_document() {
    let mut a = api(vec![], vec![]);
    a.security = Some(vec![vec!["apiKey".to_string()], vec!["oauth".to_string(), "basic".to_string()]]);
    assert_eq!(extract_security(&a, &op()), vec!["apiKey", "oauth", "basic"]);
    let own = OperationDef { security: Some(vec![]), ..op() };
    assert!(extract_security(&a, &own).is_empty());
}

fn callback_api() -> ApiDef {
    let hook = OperationDef {
        summary: Some("Event delivered".to_string()),
        request_body: Some(BodyRef::Item(RequestBodyDef { content: vec![media("application/json", Some(reference("Pet")))] })),
        responses: vec![(StatusKey::Code(200), ResponseRef::Item(response("Received", vec![])))],
        ..op()
    };
    let ack = OperationDef {
        request_body: Some(BodyRef::Item(RequestBodyDef { content: vec![media("text/plain", Some(item(string())))] })),
        responses: vec![(StatusKey::Code(204), ResponseRef::Reference("#/x".to_string()))],
        ..op()
    };
    let cb = PathItemDef { parameters: vec![], operations: vec![("GET".to_string(), ack), ("POST".to_string(), hook)] };
    let subscribe = OperationDef {
        operation_id: Some("subscribe".to_string()),
        callbacks: vec![
            ("onEvent".to_string(), vec![("{$request.body#/url}".to_string(), cb)]),
            ("empty".to_string(), vec![]),
        ],
        responses: vec![(StatusKey::Code(201), ResponseRef::Item(response("Subscribed", vec![])))],
        ..op()
    };
    api(
        vec![("/notifications/subscribe", PathItemDef { parameters: vec![], operations: vec![("POST".to_string(), subscribe)] })],
        components(),
    )
}

#[test]
fn callbacks_of_an_operation() {
    let a = callback_api();
    let all = list_all_callbacks(&a);
    assert_eq!(all.len(), 1);
    let cb = &all[0];
    assert_eq!(cb.name, "onEvent");
    assert_eq!(cb.defined_on_operation_id.as_deref(), Some("subscribe"));
    assert_eq!(cb.defined_on_method, "POST");
    assert_eq!(cb.defined_on_path, "/notifications/subscribe");
    let ops: Vec<(&str, Option<&str>)> = cb.operations.iter().map(|o| (o.method.as_str(), o.body_schema.as_deref())).collect();
    assert_eq!(ops, vec![("POST", Some("Pet")), ("GET", Some("inline object"))]);
    assert_eq!(cb.operations[1].responses[0].status_code, "204");
    assert_eq!(cb.operations[1].responses[0].description, "");
    assert!(find_callback(&a, "onEvent").is_some());
    assert!(find_callback(&a, "onevent").is_none());
    let PathRef::Item(pi) = &a.paths[0].1 else { panic!() };
    let direct = extract_callbacks_from_operation(&pi.operations[0].1, "post", "/notifications/subscribe");
    assert_eq!(direct[0].defined_on_method, "POST");
}

#[test]
fn endpoint_detail_with_drill_hints() {
    let get = OperationDef {
        summary: Some("Show".to_string()),
        tags: vec!["pets".to_string()],
        responses: vec![
            (StatusKey::Code(200), ResponseRef::Item(response("OK", vec![media("application/json", Some(item(node(SchemaKind::AnyOf(vec![reference("User"), reference("Pet"), item(object(vec![], &[]))])))))]))),
            (StatusKey::Code(201), ResponseRef::Item(response("Made", vec![media("application/json", Some(item(array_of(reference("Pet")))))]))),
            (StatusKey::Code(404), ResponseRef::Item(response("Missing", vec![media("application/json", Some(reference("Owner")))]))),
        ],
        request_body: Some(BodyRef::Item(RequestBodyDef { content: vec![media("application/json", Some(reference("User")))] })),
        ..op()
    };
    let a = api(
        vec![("/pets/{id}", PathItemDef {
            parameters: vec![ParamRef::Item(param("id", ParamKind::Path, ValueSchema::Schema(item(string()))))],
            operations: vec![("GET".to_string(), get)],
        })],
        components(),
    );
    let ep = get_endpoint_detail(&a, "get", "/pets/{id}", false, "phyll").unwrap();
    assert_eq!(ep.method, "GET");
    assert_eq!(ep.summary.as_deref(), Some("Show"));
    assert_eq!(ep.parameters.len(), 1);
    assert_eq!(ep.responses.len(), 3);
    assert_eq!(ep.responses[0].schema_ref.as_deref(), Some("User | Pet | object"));
    assert_eq!(ep.drill_deeper, vec!["phyll schemas User", "phyll schemas Pet"]);
    assert_eq!(related_schema_names(&ep), vec!["User".to_string(), "Pet".to_string()]);
    let related = collect_related_schemas(&a.schemas, &ep);
    assert_eq!(related.len(), 2);
    assert_eq!(related[0].name, "User");
    assert_eq!(related[0].fields.len(), 2);
    assert_eq!(related[1].name, "Pet");
    assert_eq!(related[1].fields[0].name, "name");
    assert!(get_endpoint_detail(&a, "DELETE", "/pets/{id}", false, "phyll").is_none());
    assert!(get_endpoint_detail(&a, "GET", "/nope", false, "phyll").is_none());
}
