//! Plain-text rendering: overview, resources, schemas, endpoints, search
//! and callbacks.
use phyllotaxis::commands::overview::{OverviewData, ServerVar};
use phyllotaxis::commands::search::{
    CallbackMatch, EndpointMatch, ResourceMatch, SchemaMatch, SearchResults, SecuritySchemeMatch,
};
use phyllotaxis::models::resource::{
    CallbackEntry, CallbackOperation, CallbackResponse, Endpoint, Field, Parameter,
    ParameterLocation, RequestBody, ResourceGroup, Response, ResponseHeader, ResponseLink,
};
use phyllotaxis::models::schema::{Composition, DiscriminatorInfo, SchemaModel};
use phyllotaxis::render::sanitize::{sanitize, strip_html};
use phyllotaxis::commands::endpoint::schema_drill_commands;
use phyllotaxis::render::text::{
    render_callback_detail, render_callback_list, render_endpoint_detail, render_overview,
    render_resource_detail, render_resource_list, render_schema_detail, render_schema_list,
    render_search,
};
#[test]
fn test_render_overview_basic() {
    let data = OverviewData {
        title: "Petstore API".to_string(),
        description: None,
        base_urls: vec!["https://api.example.com".to_string()],
        server_variables: vec![],
        auth_schemes: vec!["bearerAuth".to_string()],
        resource_count: 3,
        endpoint_count: 12,
        path_count: 8,
        schema_count: 4,
        callback_count: 0,
        top_resources: vec![],
    };
    let output = render_overview(&data, "phyllotaxis", true);
    assert!(output.contains("API: Petstore API"), "Missing title");
    assert!(
        output.contains("phyllotaxis --resources"),
        "Missing resources command"
    );
    assert!(
        output.contains("phyllotaxis --schemas"),
        "Missing schemas command"
    );
    assert!(
        output.contains("3 groups, 12 endpoints"),
        "Missing resource/endpoint count"
    );
    assert!(output.contains("Auth:"), "Missing auth line");
}

#[test]
fn test_render_overview_no_auth() {
    let data = OverviewData {
        title: "Test".to_string(),
        description: None,
        base_urls: vec![],
        server_variables: vec![],
        auth_schemes: vec![],
        resource_count: 0,
        endpoint_count: 0,
        path_count: 0,
        schema_count: 0,
        callback_count: 0,
        top_resources: vec![],
    };
    let output = render_overview(&data, "phyllotaxis", true);
    assert!(!output.contains("Auth:"), "Auth line should be omitted");
}

#[test]
fn test_render_overview_with_description() {
    let data = OverviewData {
        title: "Test".to_string(),
        description: Some("A simple API".to_string()),
        base_urls: vec!["https://api.example.com".to_string()],
        server_variables: vec![],
        auth_schemes: vec![],
        resource_count: 0,
        endpoint_count: 0,
        path_count: 0,
        schema_count: 0,
        callback_count: 0,
        top_resources: vec![],
    };
    let output = render_overview(&data, "phyllotaxis", true);
    assert!(output.contains("A simple API"), "Missing description");
}

#[test]
fn test_render_overview_with_variables() {
    let data = OverviewData {
        title: "Test".to_string(),
        description: None,
        base_urls: vec!["https://prod.example.com".to_string()],
        server_variables: vec![ServerVar {
            name: "env".to_string(),
            required: false,
            description: Some("Environment name".to_string()),
            default: Some("prod".to_string()),
        }],
        auth_schemes: vec![],
        resource_count: 0,
        endpoint_count: 0,
        path_count: 0,
        schema_count: 0,
        callback_count: 0,
        top_resources: vec![],
    };
    let output = render_overview(&data, "phyllotaxis", true);
    assert!(output.contains("Variables:"), "Missing variables section");
    assert!(output.contains("env"), "Missing variable name");
}

#[test]
fn test_render_resource_list() {
    let groups = vec![
        ResourceGroup {
            slug: "pets".to_string(),
            display_name: "Pets".to_string(),
            description: Some("Pet management".to_string()),
            is_deprecated: false,
            is_alpha: false,
            endpoints: vec![],
        },
        ResourceGroup {
            slug: "old-pets".to_string(),
            display_name: "Old Pets".to_string(),
            description: Some("Legacy endpoints".to_string()),
            is_deprecated: true,
            is_alpha: false,
            endpoints: vec![],
        },
    ];
    let output = render_resource_list(&groups, "phyllotaxis", true);
    assert!(output.contains("Resources:"), "Missing header");
    assert!(output.contains("pets"), "Missing pets");
    assert!(output.contains("[DEPRECATED]"), "Missing deprecated marker");
    assert!(
        output.find("[DEPRECATED]").unwrap() > output.find("old-pets").unwrap(),
        "DEPRECATED marker should be on the old-pets line"
    );
    assert!(
        output.contains("Drill deeper:"),
        "Missing drill deeper hint"
    );
    assert!(
        output.contains("phyll --resources <name>"),
        "Missing drill command"
    );
}

#[test]
fn test_render_resource_detail() {

    let group = ResourceGroup {
        slug: "pets".to_string(),
        display_name: "Pets".to_string(),
        description: Some("Pet management".to_string()),
        is_deprecated: false,
        is_alpha: false,
        endpoints: vec![
            Endpoint {
                method: "GET".to_string(),
                path: "/pets".to_string(),
                summary: Some("List all pets".to_string()),
                description: None,
                is_deprecated: false,
                is_alpha: false,
                external_docs: None,
                parameters: vec![],
                request_body: None,
                responses: vec![],
                security_schemes: vec![],
                callbacks: vec![],
                links: vec![],
                drill_deeper: vec![],
            },
            Endpoint {
                method: "DELETE".to_string(),
                path: "/pets/{id}".to_string(),
                summary: Some("Delete a pet".to_string()),
                description: None,
                is_deprecated: true,
                is_alpha: false,
                external_docs: None,
                parameters: vec![],
                request_body: None,
                responses: vec![],
                security_schemes: vec![],
                callbacks: vec![],
                links: vec![],
                drill_deeper: vec![],
            },
        ],
    };

    let output = render_resource_detail(&group, "phyllotaxis", true);
    assert!(output.contains("Resource: Pets"));
    assert!(output.contains("Description: Pet management"));
    assert!(output.contains("GET") && output.contains("/pets"));
    assert!(
        output.contains("[DEPRECATED]"),
        "DELETE endpoint should be marked deprecated"
    );
    assert!(output.contains("Drill deeper:"));
    assert!(output.contains("phyll --endpoint"));
}

#[test]
fn test_render_schema_list() {
    let names = vec![
        "Owner".to_string(),
        "Pet".to_string(),
        "PetList".to_string(),
    ];
    let output = render_schema_list(&names, "phyllotaxis", true);
    assert!(
        output.contains("Schemas (3 total):"),
        "Missing header with count"
    );
    assert!(output.contains("  Pet"), "Missing Pet in list");
    assert!(output.contains("  Owner"), "Missing Owner in list");
    assert!(output.contains("Drill deeper:"), "Missing drill deeper");
    assert!(
        output.contains("phyll --schemas <name>"),
        "Missing drill command"
    );
}

#[test]
fn test_render_schema_list_empty() {
    let output = render_schema_list(&[], "phyllotaxis", true);
    assert!(output.contains("Schemas (0 total):"));
    assert!(output.contains("(none)"));
}

#[test]
fn test_render_schema_detail_simple() {

    let model = SchemaModel {
        name: "Pet".to_string(),
        title: None,
        description: Some("A pet in the store".to_string()),
        fields: vec![
            Field {
                name: "id".to_string(),
                type_display: "string/uuid".to_string(),
                required: true,
                optional: false,
                nullable: false,
                read_only: true,
                write_only: false,
                deprecated: false,
                constraints: vec![],
                description: Some("Unique identifier".to_string()),
                enum_values: vec![],
                default_value: None,
                example: None,
                nested_schema_name: None,
                nested_fields: vec![],
            },
            Field {
                name: "status".to_string(),
                type_display: "string".to_string(),
                required: false,
                optional: true,
                nullable: false,
                read_only: false,
                write_only: false,
                deprecated: false,
                constraints: vec![],
                description: None,
                enum_values: vec!["available".to_string(), "sold".to_string()],
                default_value: None,
                example: None,
                nested_schema_name: None,
                nested_fields: vec![],
            },
        ],
        composition: None,
        discriminator: None,
        external_docs: None,
        base_type: None,
    };

    let output = render_schema_detail(&model, "phyllotaxis", false, None, true);
    assert!(output.contains("Schema: Pet"), "Missing header");
    assert!(output.contains("A pet in the store"), "Missing description");
    assert!(output.contains("Fields:"), "Missing fields section");
    assert!(output.contains("string/uuid"), "Missing uuid type");
    assert!(output.contains("required, read-only"), "Missing modifiers");
    assert!(output.contains("Enum:"), "Missing enum values");
}

#[test]
fn test_render_schema_detail_expanded() {

    let model = SchemaModel {
        name: "Pet".to_string(),
        title: None,
        description: None,
        fields: vec![
            Field {
                name: "name".to_string(),
                type_display: "string".to_string(),
                required: true,
                optional: false,
                nullable: false,
                read_only: false,
                write_only: false,
                deprecated: false,
                constraints: vec![],
                description: None,
                enum_values: vec![],
                default_value: None,
                example: None,
                nested_schema_name: None,
                nested_fields: vec![],
            },
            Field {
                name: "owner".to_string(),
                type_display: "Owner".to_string(),
                required: false,
                optional: true,
                nullable: false,
                read_only: false,
                write_only: false,
                deprecated: false,
                constraints: vec![],
                description: None,
                enum_values: vec![],
                default_value: None,
                example: None,
                nested_schema_name: Some("Owner".to_string()),
                nested_fields: vec![Field {
                    name: "id".to_string(),
                    type_display: "string".to_string(),
                    required: false,
                    optional: false,
                    nullable: false,
                    read_only: true,
                    write_only: false,
                    deprecated: false,
                    constraints: vec![],
                    description: None,
                    enum_values: vec![],
                    default_value: None,
                    example: None,
                    nested_schema_name: None,
                    nested_fields: vec![],
                }],
            },
        ],
        composition: None,
        discriminator: None,
        external_docs: None,
        base_type: None,
    };

    let output = render_schema_detail(&model, "phyllotaxis", true, None, true);
    assert!(
        output.contains("Schema: Pet (expanded)"),
        "Missing expanded label"
    );
    assert!(output.contains("Owner:"), "Missing nested schema colon");
    assert!(
        !output.contains("Related schemas"),
        "Related schemas should be hidden when expanded"
    );
}

#[test]
fn test_render_schema_detail_oneof() {

    let model = SchemaModel {
        name: "PetOrOwner".to_string(),
        title: None,
        description: None,
        fields: vec![],
        composition: Some(Composition::OneOf(vec![
            "Pet".to_string(),
            "Owner".to_string(),
        ])),
        discriminator: None,
        external_docs: None,
        base_type: None,
    };

    let output = render_schema_detail(&model, "phyllotaxis", false, None, true);
    assert!(output.contains("oneOf"), "Missing oneOf");
    assert!(
        output.contains("phyll --schemas Pet"),
        "Missing Pet variant"
    );
    assert!(
        output.contains("phyll --schemas Owner"),
        "Missing Owner variant"
    );
}

#[test]
fn test_render_endpoint_detail_post_pets() {

    let endpoint = Endpoint {
        method: "POST".to_string(),
        path: "/pets".to_string(),
        summary: Some("Create a pet".to_string()),
        description: None,
        is_deprecated: false,
        is_alpha: false,
        external_docs: None,
        parameters: vec![],
        request_body: Some(RequestBody {
            content_type: "application/json".to_string(),
            fields: vec![Field {
                name: "name".to_string(),
                type_display: "string".to_string(),
                required: true,
                optional: false,
                nullable: false,
                read_only: false,
                write_only: false,
                deprecated: false,
                constraints: vec![],
                description: Some("Pet name".to_string()),
                enum_values: vec![],
                default_value: None,
                example: None,
                nested_schema_name: None,
                nested_fields: vec![],
            }],
            options: vec![],
            schema_ref: None,
            example: Some(serde_json::to_string_pretty(&serde_json::from_str::<serde_json::Value>("{\"name\": \"Fido\"}").unwrap()).unwrap()),
            array_item_type: None,
        }),
        responses: vec![
            Response {
                status_code: "201".to_string(),
                description: "Created".to_string(),
                schema_ref: Some("Pet".to_string()),
                example: None,
                headers: vec![],
                links: vec![],
                fields: vec![],
            },
            Response {
                status_code: "400".to_string(),
                description: "Invalid input".to_string(),
                schema_ref: None,
                example: None,
                headers: vec![],
                links: vec![],
                fields: vec![],
            },
        ],
        security_schemes: vec!["bearerAuth".to_string()],
        callbacks: vec![],
        links: vec![],
        drill_deeper: vec![],
    };

    let output = render_endpoint_detail(&endpoint, true);
    assert!(output.contains("POST /pets"), "Missing method/path");
    assert!(
        output.contains("Request Body"),
        "Missing request body section"
    );
    assert!(output.contains("Authentication:"), "Missing authentication");
    assert!(output.contains("Errors:"), "Missing errors section");
    assert!(output.contains("400"), "Missing 400 error");
    assert!(
        output.contains("Request Example:"),
        "Missing request example"
    );
}

#[test]
fn test_render_default_response_not_in_errors() {

    let endpoint = Endpoint {
        method: "GET".to_string(),
        path: "/users".to_string(),
        summary: None,
        description: None,
        is_deprecated: false,
        is_alpha: false,
        external_docs: None,
        parameters: vec![],
        request_body: None,
        responses: vec![
            Response {
                status_code: "200".to_string(),
                description: "OK".to_string(),
                schema_ref: Some("UserList".to_string()),
                example: None,
                headers: vec![],
                links: vec![],
                fields: vec![],
            },
            Response {
                status_code: "default".to_string(),
                description: "Unexpected server error".to_string(),
                schema_ref: Some("Error".to_string()),
                example: None,
                headers: vec![],
                links: vec![],
                fields: vec![],
            },
            Response {
                status_code: "401".to_string(),
                description: "Unauthorized".to_string(),
                schema_ref: None,
                example: None,
                headers: vec![],
                links: vec![],
                fields: vec![],
            },
        ],
        security_schemes: vec![],
        callbacks: vec![],
        links: vec![],
        drill_deeper: vec![],
    };

    let output = render_endpoint_detail(&endpoint, false);

    // "default" should appear in its own section, not under Errors
    assert!(
        output.contains("Default Response:"),
        "Missing 'Default Response:' section, got:\n{}",
        output
    );
    assert!(
        output.contains("Unexpected server error"),
        "Missing default response description, got:\n{}",
        output
    );

    // The Errors section should only have 401, not "default"
    let errors_pos = output.find("Errors:").expect("Missing Errors: section");
    let errors_section = &output[errors_pos..];
    assert!(
        !errors_section.contains("default"),
        "default response should NOT appear under Errors:, got:\n{}",
        output
    );
    assert!(
        errors_section.contains("401"),
        "401 should still appear under Errors:, got:\n{}",
        output
    );

    // Default response should include its schema ref
    assert!(
        output.contains("Error"),
        "Missing schema ref in default response, got:\n{}",
        output
    );
}

#[test]
fn test_render_endpoint_detail_drill_deeper_shown_on_tty() {

    let endpoint = Endpoint {
        method: "GET".to_string(),
        path: "/pets/{id}".to_string(),
        summary: None,
        description: None,
        is_deprecated: false,
        is_alpha: false,
        external_docs: None,
        parameters: vec![],
        request_body: None,
        responses: vec![],
        security_schemes: vec![],
        callbacks: vec![],
        links: vec![],
        drill_deeper: vec!["phyll --schemas Pet".to_string()],
    };

    let output = render_endpoint_detail(&endpoint, true);
    assert!(
        output.contains("Drill deeper:"),
        "Missing drill deeper header"
    );
    assert!(
        output.contains("phyll --schemas Pet"),
        "Missing drill deeper command"
    );
}

#[test]
fn test_render_endpoint_detail_drill_deeper_hidden_off_tty() {

    let endpoint = Endpoint {
        method: "GET".to_string(),
        path: "/pets/{id}".to_string(),
        summary: None,
        description: None,
        is_deprecated: false,
        is_alpha: false,
        external_docs: None,
        parameters: vec![],
        request_body: None,
        responses: vec![],
        security_schemes: vec![],
        callbacks: vec![],
        links: vec![],
        drill_deeper: vec!["phyll --schemas Pet".to_string()],
    };

    let output = render_endpoint_detail(&endpoint, false);
    assert!(
        !output.contains("Drill deeper:"),
        "Drill deeper should be hidden when not a TTY"
    );
}

#[test]
fn test_render_endpoint_detail_no_drill_deeper_when_empty() {

    let endpoint = Endpoint {
        method: "GET".to_string(),
        path: "/pets".to_string(),
        summary: None,
        description: None,
        is_deprecated: false,
        is_alpha: false,
        external_docs: None,
        parameters: vec![],
        request_body: None,
        responses: vec![],
        security_schemes: vec![],
        callbacks: vec![],
        links: vec![],
        drill_deeper: vec![],
    };

    let output = render_endpoint_detail(&endpoint, true);
    assert!(
        !output.contains("Drill deeper:"),
        "Drill deeper section should not appear when empty"
    );
}

#[test]
fn test_render_search_endpoint_includes_drill_command() {

    let results = SearchResults {
        term: "pets".to_string(),
        resources: vec![],
        endpoints: vec![EndpointMatch {
            method: "GET".to_string(),
            path: "/pets/{id}".to_string(),
            summary: None,
            resource_slug: "pets".to_string(),
            matched_on: None,
        }],
        schemas: vec![],
        callbacks: vec![],
        security_schemes: vec![],
        suggestions: vec![],
    };

    let output = render_search(&results, "phyllotaxis", None, true);
    assert!(
        output.contains("phyll --endpoint GET /pets/{id}"),
        "Should include drill-down command, got:\n{}",
        output
    );
}

#[test]
fn test_render_search_endpoint_no_slug_omits_drill_command() {

    let results = SearchResults {
        term: "test".to_string(),
        resources: vec![],
        endpoints: vec![EndpointMatch {
            method: "GET".to_string(),
            path: "/test".to_string(),
            summary: None,
            resource_slug: "".to_string(),
            matched_on: None,
        }],
        schemas: vec![],
        callbacks: vec![],
        security_schemes: vec![],
        suggestions: vec![],
    };

    let output = render_search(&results, "phyllotaxis", None, true);
    assert!(
        !output.contains("phyll --endpoint  GET"),
        "Should not include drill command when slug is empty"
    );
}

#[test]
fn test_render_search_drill_command_shown_off_tty() {

    let results = SearchResults {
        term: "pets".to_string(),
        resources: vec![],
        endpoints: vec![EndpointMatch {
            method: "GET".to_string(),
            path: "/pets/{id}".to_string(),
            summary: None,
            resource_slug: "pets".to_string(),
            matched_on: None,
        }],
        schemas: vec![],
        callbacks: vec![],
        security_schemes: vec![],
        suggestions: vec![],
    };

    let output = render_search(&results, "phyllotaxis", None, false);
    assert!(
        output.contains("phyll --endpoint GET /pets/{id}"),
        "Drill command should appear even when piped (not TTY)"
    );
}

// ─── Task 15: write_only, deprecated, constraints rendering ───

#[test]
fn test_render_write_only_flag() {

    let model = SchemaModel {
        name: "Test".to_string(),
        title: None,
        description: None,
        fields: vec![Field {
            name: "password".to_string(),
            type_display: "string".to_string(),
            required: true,
            optional: false,
            nullable: false,
            read_only: false,
            write_only: true,
            deprecated: false,
            description: None,
            enum_values: vec![],
            constraints: vec![],
            default_value: None,
            example: None,
            nested_schema_name: None,
            nested_fields: vec![],
        }],
        composition: None,
        discriminator: None,
        external_docs: None,
        base_type: None,
    };
    let output = render_schema_detail(&model, "phyllotaxis", false, None, false);
    assert!(
        output.contains("write-only"),
        "Missing write-only flag, got:\n{}",
        output
    );
}

#[test]
fn test_render_deprecated_field_flag() {

    let model = SchemaModel {
        name: "Test".to_string(),
        title: None,
        description: None,
        fields: vec![Field {
            name: "legacy_code".to_string(),
            type_display: "string".to_string(),
            required: false,
            optional: true,
            nullable: false,
            read_only: false,
            write_only: false,
            deprecated: true,
            description: None,
            enum_values: vec![],
            constraints: vec![],
            default_value: None,
            example: None,
            nested_schema_name: None,
            nested_fields: vec![],
        }],
        composition: None,
        discriminator: None,
        external_docs: None,
        base_type: None,
    };
    let output = render_schema_detail(&model, "phyllotaxis", false, None, false);
    assert!(
        output.contains("DEPRECATED"),
        "Missing DEPRECATED flag, got:\n{}",
        output
    );
}

#[test]
fn test_render_constraints_inline() {

    let model = SchemaModel {
        name: "Test".to_string(),
        title: None,
        description: None,
        fields: vec![Field {
            name: "username".to_string(),
            type_display: "string".to_string(),
            required: true,
            optional: false,
            nullable: false,
            read_only: false,
            write_only: false,
            deprecated: false,
            description: Some("Unique username".to_string()),
            enum_values: vec![],
            constraints: vec![
                "min:3".to_string(),
                "max:32".to_string(),
                "pattern:^[a-zA-Z0-9_-]+$".to_string(),
            ],
            default_value: None,
            example: None,
            nested_schema_name: None,
            nested_fields: vec![],
        }],
        composition: None,
        discriminator: None,
        external_docs: None,
        base_type: None,
    };
    let output = render_schema_detail(&model, "phyllotaxis", false, None, false);
    assert!(output.contains("min:3"), "Missing min:3, got:\n{}", output);
    assert!(
        output.contains("max:32"),
        "Missing max:32, got:\n{}",
        output
    );
    assert!(
        output.contains("pattern:"),
        "Missing pattern, got:\n{}",
        output
    );
}

// ─── Task 16: Response headers rendering ───

#[test]
fn test_render_response_headers() {

    let endpoint = Endpoint {
        method: "GET".to_string(),
        path: "/users".to_string(),
        summary: None,
        description: None,
        is_deprecated: false,
        is_alpha: false,
        external_docs: None,
        parameters: vec![],
        request_body: None,
        responses: vec![Response {
            status_code: "200".to_string(),
            description: "OK".to_string(),
            schema_ref: None,
            example: None,
            headers: vec![ResponseHeader {
                name: "X-Total-Count".to_string(),
                type_display: "integer".to_string(),
                description: Some("Total count".to_string()),
            }],
            links: vec![],
            fields: vec![],
        }],
        security_schemes: vec![],
        callbacks: vec![],
        links: vec![],
        drill_deeper: vec![],
    };

    let output = render_endpoint_detail(&endpoint, false);
    assert!(
        output.contains("X-Total-Count"),
        "Missing header name, got:\n{}",
        output
    );
    assert!(
        output.contains("integer"),
        "Missing header type, got:\n{}",
        output
    );
}

// ─── Task 17: Links rendering ───

#[test]
fn test_render_links_section() {

    let endpoint = Endpoint {
        method: "POST".to_string(),
        path: "/users".to_string(),
        summary: None,
        description: None,
        is_deprecated: false,
        is_alpha: false,
        external_docs: None,
        parameters: vec![],
        request_body: None,
        responses: vec![Response {
            status_code: "201".to_string(),
            description: "Created".to_string(),
            schema_ref: None,
            example: None,
            headers: vec![],
            links: vec![ResponseLink {
                name: "GetCreatedUser".to_string(),
                operation_id: "getUser".to_string(),
                parameters: vec!["userId = $response.body#/id".to_string()],
                description: None,
                drill_command: Some("phyll --endpoint GET /users/{userId}".to_string()),
            }],
            fields: vec![],
        }],
        security_schemes: vec![],
        callbacks: vec![],
        links: vec![ResponseLink {
            name: "GetCreatedUser".to_string(),
            operation_id: "getUser".to_string(),
            parameters: vec!["userId = $response.body#/id".to_string()],
            description: None,
            drill_command: Some("phyllotaxis --endpoint GET /users/{userId}".to_string()),
        }],
        drill_deeper: vec![],
    };

    let output = render_endpoint_detail(&endpoint, false);
    assert!(
        output.contains("Links:"),
        "Missing Links section, got:\n{}",
        output
    );
    assert!(
        output.contains("GetCreatedUser"),
        "Missing link name, got:\n{}",
        output
    );
    assert!(
        output.contains("getUser"),
        "Missing operationId, got:\n{}",
        output
    );
    assert!(
        output.contains("userId = $response.body#/id"),
        "Missing parameter mapping, got:\n{}",
        output
    );
}

// ─── Task 18: Callbacks inline rendering ───

#[test]
fn test_render_callbacks_inline() {

    let endpoint = Endpoint {
        method: "POST".to_string(),
        path: "/notifications/subscribe".to_string(),
        summary: None,
        description: None,
        is_deprecated: false,
        is_alpha: false,
        external_docs: None,
        parameters: vec![],
        request_body: None,
        responses: vec![],
        security_schemes: vec![],
        callbacks: vec![CallbackEntry {
            name: "onEvent".to_string(),
            defined_on_operation_id: Some("subscribeNotifications".to_string()),
            defined_on_method: "POST".to_string(),
            defined_on_path: "/notifications/subscribe".to_string(),
            operations: vec![CallbackOperation {
                method: "POST".to_string(),
                url_expression: "{$request.query.callbackUrl}/events".to_string(),
                summary: Some("Event notification callback".to_string()),
                body_schema: Some("EventPayload".to_string()),
                responses: vec![CallbackResponse {
                    status_code: "200".to_string(),
                    description: "Acknowledged".to_string(),
                }],
            }],
        }],
        links: vec![],
        drill_deeper: vec![],
    };

    let output = render_endpoint_detail(&endpoint, false);
    assert!(
        output.contains("Callbacks:"),
        "Missing Callbacks section, got:\n{}",
        output
    );
    assert!(
        output.contains("onEvent"),
        "Missing callback name, got:\n{}",
        output
    );
    assert!(
        output.contains("EventPayload"),
        "Missing body schema, got:\n{}",
        output
    );
    assert!(
        output.contains("{$request.query.callbackUrl}/events"),
        "Missing URL expression, got:\n{}",
        output
    );
}

// ─── Task 19: Schema title rendering ───

#[test]
fn test_render_schema_title_shown_when_different() {

    let model = SchemaModel {
        name: "GeoLocation".to_string(),
        title: Some("Geographic Location".to_string()),
        description: Some("GPS coordinates".to_string()),
        fields: vec![],
        composition: None,
        discriminator: None,
        external_docs: None,
        base_type: None,
    };

    let output = render_schema_detail(&model, "phyllotaxis", false, None, false);
    assert!(
        output.contains("Schema: GeoLocation"),
        "Missing schema name, got:\n{}",
        output
    );
    assert!(
        output.contains("Geographic Location"),
        "Missing title, got:\n{}",
        output
    );
}

#[test]
fn test_render_schema_title_hidden_when_same_as_name() {

    let model = SchemaModel {
        name: "User".to_string(),
        title: Some("User".to_string()),
        description: None,
        fields: vec![],
        composition: None,
        discriminator: None,
        external_docs: None,
        base_type: None,
    };

    let output = render_schema_detail(&model, "phyllotaxis", false, None, false);
    assert!(
        !output.contains("Title:"),
        "Title should be hidden when same as name, got:\n{}",
        output
    );
}

// ─── Task 22: Callback list/detail rendering ───

#[test]
fn test_render_callback_list() {
    let callbacks = vec![CallbackEntry {
        name: "onEvent".to_string(),
        defined_on_operation_id: Some("subscribeNotifications".to_string()),
        defined_on_method: "POST".to_string(),
        defined_on_path: "/notifications/subscribe".to_string(),
        operations: vec![],
    }];
    let output = render_callback_list(&callbacks, "phyllotaxis", true);
    assert!(output.contains("Callbacks"), "Missing header");
    assert!(output.contains("onEvent"), "Missing callback name");
    assert!(
        output.contains("phyll --callbacks <name>"),
        "Missing drill hint"
    );
}

#[test]
fn test_render_callback_detail() {
    let cb = CallbackEntry {
        name: "onEvent".to_string(),
        defined_on_operation_id: Some("subscribeNotifications".to_string()),
        defined_on_method: "POST".to_string(),
        defined_on_path: "/notifications/subscribe".to_string(),
        operations: vec![CallbackOperation {
            method: "POST".to_string(),
            url_expression: "{$request.query.callbackUrl}/events".to_string(),
            summary: None,
            body_schema: Some("EventPayload".to_string()),
            responses: vec![CallbackResponse {
                status_code: "200".to_string(),
                description: "OK".to_string(),
            }],
        }],
    };
    let output = render_callback_detail(&cb, "phyllotaxis", false);
    assert!(
        output.contains("Callback: onEvent"),
        "Missing callback name, got:\n{}",
        output
    );
    assert!(
        output.contains("POST /notifications/subscribe"),
        "Missing defined-on line, got:\n{}",
        output
    );
    assert!(
        output.contains("EventPayload"),
        "Missing body schema, got:\n{}",
        output
    );
    assert!(
        output.contains("200"),
        "Missing response code, got:\n{}",
        output
    );
}

#[test]
fn example_under_its_heading() {
    let out = phyllotaxis::render::text::render_example("Pet", "{\n  \"name\": \"string\"\n}", false);
    assert_eq!(out, "Example (Pet, required fields, auto-generated):\n{\n  \"name\": \"string\"\n}\n");
}

#[test]
fn search_suggestions_are_sanitized() {
    let results = SearchResults {
        term: "pte".to_string(),
        resources: vec![],
        endpoints: vec![],
        schemas: vec![],
        callbacks: vec![],
        security_schemes: vec![],
        suggestions: vec!["Pe\u{1b}[31mt".to_string()],
    };
    let output = render_search(&results, "phyllotaxis", None, false);
    assert!(!output.contains('\u{1b}'), "escape reached the output:\n{:?}", output);
    assert!(output.contains("Did you mean:\n  phyll search Pe"), "got:\n{}", output);
}

#[test]
fn related_schema_names_are_sanitized() {
    let model = SchemaModel {
        name: "Pet".to_string(),
        title: None,
        description: None,
        fields: vec![Field {
            name: "owner".to_string(),
            type_display: "Owner".to_string(),
            required: false,
            optional: true,
            nullable: false,
            read_only: false,
            write_only: false,
            deprecated: false,
            constraints: vec![],
            description: None,
            enum_values: vec![],
            default_value: None,
            example: None,
            nested_schema_name: Some("Own\u{1b}[31mer".to_string()),
            nested_fields: vec![],
        }],
        composition: None,
        discriminator: None,
        external_docs: None,
        base_type: None,
    };
    let output = render_schema_detail(&model, "phyllotaxis", false, None, true);
    assert!(!output.contains('\u{1b}'), "escape reached the output:\n{:?}", output);
    assert!(output.contains("phyll --schemas Own"), "got:\n{}", output);
}

#[test]
fn a_bare_ampersand_is_kept_as_it_is() {
    assert_eq!(strip_html("Tom & Jerry"), "Tom & Jerry");
    assert_eq!(sanitize("Tom & Jerry"), "Tom & Jerry");
    assert_eq!(strip_html("fish &"), "fish &");
    assert_eq!(strip_html("&amp"), "&amp");
    assert_eq!(strip_html("AT&T; rocks"), "AT&T; rocks");
    assert_eq!(strip_html("a &amp; b &lt;c&gt;"), "a & b <c>");
    assert_eq!(strip_html("x & a long run of text"), "x & a long run of text");
    assert_eq!(strip_html("<p>Tom</p> & Jerry"), "Tom\n\n & Jerry");
}

fn field_naming(name: &str, nested: Option<&str>) -> Field {
    Field {
        name: name.to_string(),
        type_display: "object".to_string(),
        required: false,
        optional: true,
        nullable: false,
        read_only: false,
        write_only: false,
        deprecated: false,
        constraints: vec![],
        description: None,
        enum_values: vec![],
        default_value: None,
        example: None,
        nested_schema_name: nested.map(str::to_string),
        nested_fields: vec![],
    }
}

#[test]
fn schema_drill_commands_name_each_schema_once() {
    let fields = vec![
        field_naming("owner", Some("Owner")),
        field_naming("id", None),
        field_naming("tags", Some("Tag")),
        field_naming("co_owner", Some("Owner")),
    ];
    assert_eq!(
        schema_drill_commands(&fields, "phyllotaxis"),
        vec!["phyllotaxis schemas Owner".to_string(), "phyllotaxis schemas Tag".to_string()]
    );
}
