//! What a search looks through and why each hit matched.
use phyllotaxis::commands::search::{
    search, with_suggestions, CallbackMatch, OperationEntry, SchemaEntry, SearchIndex, SecuritySchemeMatch,
};

fn operation(path: &str, summary: Option<&str>) -> OperationEntry {
    OperationEntry {
        method: "GET".to_string(),
        path: path.to_string(),
        summary: summary.map(str::to_string),
        description: None,
        tags: vec!["pets".to_string()],
        parameters: vec![],
        body_description: None,
        response_descriptions: vec![],
    }
}

fn index() -> SearchIndex {
    let mut by_description = operation("/a", None);
    by_description.description = Some("Lists every Widget".to_string());
    let mut by_param = operation("/b", None);
    by_param.parameters = vec![("widget_id".to_string(), None)];
    let mut by_body = operation("/c", None);
    by_body.body_description = Some("The widget to create".to_string());
    let mut by_response = operation("/d", None);
    by_response.response_descriptions = vec!["Not found".to_string(), "A widget".to_string()];
    SearchIndex {
        groups: vec![],
        operations: vec![
            operation("/widgets", None),
            operation("/x", Some("Get a widget")),
            by_description,
            by_param,
            by_body,
            by_response,
            operation("/unrelated", None),
        ],
        schemas: vec![
            SchemaEntry { name: "Widget".to_string(), description: None, field_names: vec![] },
            SchemaEntry { name: "Order".to_string(), description: None, field_names: vec!["widget_count".to_string()] },
            SchemaEntry { name: "Part".to_string(), description: Some("Part of a WIDGET".to_string()), field_names: vec![] },
            SchemaEntry { name: "User".to_string(), description: Some("A person".to_string()), field_names: vec![] },
        ],
        callbacks: vec![CallbackMatch { name: "onWidget".to_string(), defined_on_path: "/hooks".to_string() }],
        security_schemes: vec![
            SecuritySchemeMatch { name: "widgetKey".to_string(), scheme_type: "apiKey".to_string(), description: None },
            SecuritySchemeMatch {
                name: "bearer".to_string(),
                scheme_type: "http".to_string(),
                description: Some("Token for the widget API".to_string()),
            },
            SecuritySchemeMatch { name: "basic".to_string(), scheme_type: "http".to_string(), description: None },
        ],
    }
}

#[test]
fn endpoints_match_with_their_reason() {
    let r = search(&index(), "Widget");
    let got: Vec<(&str, Option<&str>)> =
        r.endpoints.iter().map(|e| (e.path.as_str(), e.matched_on.as_deref())).collect();
    assert_eq!(
        got,
        vec![
            ("/widgets", None),
            ("/x", None),
            ("/a", Some("description")),
            ("/b", Some("parameter: widget_id")),
            ("/c", Some("request body description")),
            ("/d", Some("response description")),
        ]
    );
}

#[test]
fn schemas_match_by_name_field_or_description() {
    let r = search(&index(), "widget");
    let got: Vec<(&str, Option<&str>, Option<&str>)> = r
        .schemas
        .iter()
        .map(|s| (s.name.as_str(), s.matched_field.as_deref(), s.matched_on.as_deref()))
        .collect();
    assert_eq!(
        got,
        vec![("Widget", None, None), ("Order", Some("widget_count"), None), ("Part", None, Some("description"))]
    );
}

#[test]
fn security_schemes_match_by_name_or_description() {
    let r = search(&index(), "widget");
    let got: Vec<(&str, &str)> = r.security_schemes.iter().map(|s| (s.name.as_str(), s.scheme_type.as_str())).collect();
    assert_eq!(got, vec![("widgetKey", "apiKey"), ("bearer", "http")]);
    assert_eq!(r.callbacks.len(), 1);
}

#[test]
fn a_security_scheme_hit_is_a_result() {
    let r = search(&index(), "basic");
    assert_eq!(r.security_schemes.len(), 1);
    let r = with_suggestions(r, &vec!["basics".to_string()], &vec![]);
    assert!(r.suggestions.is_empty());
}

#[test]
fn nothing_found_gives_suggestions() {
    let r = search(&index(), "zzz");
    assert!(r.endpoints.is_empty() && r.schemas.is_empty() && r.security_schemes.is_empty());
    let r = with_suggestions(r, &vec!["pets".to_string()], &vec!["Pet".to_string()]);
    assert_eq!(r.suggestions, vec!["pets".to_string(), "Pet".to_string()]);
}
