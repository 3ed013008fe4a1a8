//! Building the overview from a document summary.
use phyllotaxis::commands::overview::{
    build, replace_str, top_resources, ApiSummary, ServerInfo, ServerVariableInfo,
};
use phyllotaxis::document::Config;
use phyllotaxis::models::resource::{Endpoint, ResourceGroup};

fn endpoint(method: &str, path: &str) -> Endpoint {
    Endpoint {
        method: method.to_string(),
        path: path.to_string(),
        summary: None,
        description: None,
        is_deprecated: false,
        is_alpha: false,
        external_docs: None,
        parameters: vec![],
        request_body: None,
        responses: vec![],
        security_schemes: vec![],
        callbacks: vec![],
        links: vec![],
        drill_deeper: vec![],
    }
}

fn group(slug: &str, n: usize) -> ResourceGroup {
    ResourceGroup {
        slug: slug.to_string(),
        display_name: slug.to_string(),
        description: None,
        is_deprecated: false,
        is_alpha: false,
        endpoints: (0..n).map(|i| endpoint("GET", &format!("/{}/{}", slug, i))).collect(),
    }
}

fn summary(groups: Vec<ResourceGroup>) -> ApiSummary {
    ApiSummary {
        title: "Kitchen Sink".to_string(),
        description: None,
        servers: vec![],
        security_schemes: vec![],
        resource_groups: groups,
        path_count: 0,
        schema_count: 0,
        callback_count: 0,
    }
}

#[test]
fn test_top_resources_present_and_sorted() {
    let api = summary(vec![
        group("accounts", 2),
        group("pets", 7),
        group("orders", 4),
        group("users", 7),
        group("stores", 1),
        group("tags", 3),
        group("reports", 5),
    ]);
    let data = build(&api, &Config::default());
    assert!(
        !data.top_resources.is_empty(),
        "top_resources should be populated"
    );
    for window in data.top_resources.windows(2) {
        assert!(
            window[0].1 >= window[1].1,
            "top_resources should be sorted descending: {:?}",
            data.top_resources
        );
    }
    assert!(data.top_resources.len() <= 5);
}

#[test]
fn top_resources_are_stable_and_cut_at_five() {
    let groups = vec![
        group("accounts", 2),
        group("pets", 7),
        group("orders", 4),
        group("users", 7),
        group("stores", 1),
        group("tags", 3),
        group("reports", 5),
    ];
    let top = top_resources(&groups);
    let expected: Vec<(String, usize)> = vec![
        ("pets".to_string(), 7),
        ("users".to_string(), 7),
        ("reports".to_string(), 5),
        ("orders".to_string(), 4),
        ("tags".to_string(), 3),
    ];
    assert_eq!(top, expected);
}

#[test]
fn counts_and_title_are_carried_over() {
    let mut api = summary(vec![group("pets", 3), group("users", 2)]);
    api.path_count = 4;
    api.schema_count = 6;
    api.callback_count = 1;
    api.security_schemes = vec!["bearerAuth".to_string(), "apiKey".to_string()];
    let data = build(&api, &Config::default());
    assert_eq!(data.title, "Kitchen Sink");
    assert_eq!(data.resource_count, 2);
    assert_eq!(data.endpoint_count, 5);
    assert_eq!(data.path_count, 4);
    assert_eq!(data.schema_count, 6);
    assert_eq!(data.callback_count, 1);
    assert_eq!(data.auth_schemes, vec!["bearerAuth".to_string(), "apiKey".to_string()]);
}

#[test]
fn long_description_is_cut_at_200_characters() {
    let mut api = summary(vec![]);
    let long: String = "é".repeat(250);
    api.description = Some(long);
    let data = build(&api, &Config::default());
    let d = data.description.unwrap();
    assert_eq!(d.chars().count(), 203);
    assert!(d.ends_with("..."));
    assert_eq!(d, format!("{}...", "é".repeat(200)));

    let mut api = summary(vec![]);
    api.description = Some("x".repeat(200));
    let data = build(&api, &Config::default());
    assert_eq!(data.description.unwrap(), "x".repeat(200));
}

#[test]
fn server_variables_filled_from_defaults_and_config() {
    let mut api = summary(vec![]);
    api.servers = vec![
        ServerInfo {
            url: "https://{env}.example.com/{version}/{env}".to_string(),
            variables: vec![
                ServerVariableInfo {
                    name: "env".to_string(),
                    default: "prod".to_string(),
                    description: Some("Environment".to_string()),
                },
                ServerVariableInfo {
                    name: "version".to_string(),
                    default: "v1".to_string(),
                    description: None,
                },
            ],
        },
        ServerInfo { url: "https://backup.example.com".to_string(), variables: vec![] },
    ];
    let data = build(&api, &Config::default());
    assert_eq!(
        data.base_urls,
        vec![
            "https://prod.example.com/v1/prod".to_string(),
            "https://backup.example.com".to_string()
        ]
    );
    assert_eq!(data.server_variables.len(), 2);
    assert_eq!(data.server_variables[0].name, "env");
    assert!(!data.server_variables[0].required);
    assert_eq!(data.server_variables[0].default.as_deref(), Some("prod"));
    assert_eq!(data.server_variables[0].description.as_deref(), Some("Environment"));
    assert_eq!(data.server_variables[1].description, None);

    let config = Config {
        active: None,
        documents: vec![],
        variables: Some(vec![("env".to_string(), "staging".to_string())]),
    };
    let data = build(&api, &config);
    assert_eq!(data.base_urls[0], "https://staging.example.com/v1/staging");
}

#[test]
fn replace_takes_matches_from_the_left() {
    assert_eq!(replace_str("aaaa", "aa", "b"), "bb");
    assert_eq!(replace_str("aaa", "aa", "b"), "ba");
    assert_eq!(replace_str("{x}{x}", "{x}", "1"), "11");
    assert_eq!(replace_str("none here", "{x}", "1"), "none here");
    assert_eq!(replace_str("", "{x}", "1"), "");
}
