//! Tag naming: slugs, display names and status markers.
use phyllotaxis::commands::resources::find_resource_group;
use phyllotaxis::models::resource::{humanize_tag_name, is_alpha_tag, is_deprecated_tag, slugify};
use phyllotaxis::commands::resources::{get_resource_detail, OperationSummary, TagInfo};
#[test]
fn test_slugify_spaces() {
    assert_eq!(slugify("Access Policies"), "access-policies");
}

#[test]
fn test_slugify_pascal() {
    assert_eq!(slugify("DiscoveryIntegration"), "discovery-integration");
}

#[test]
fn test_slugify_deprecated_stripped() {
    assert_eq!(slugify("Old Pets (Deprecated)"), "old-pets");
}

#[test]
fn test_slugify_alpha_stripped() {
    assert_eq!(slugify("New Feature (Alpha)"), "new-feature");
}

#[test]
fn test_slugify_experimental_alpha() {
    assert_eq!(slugify("Experimental (Alpha)"), "experimental");
}

#[test]
fn test_deprecated_by_name() {
    assert!(is_deprecated_tag("Old Pets (Deprecated)"));
    assert!(is_deprecated_tag("Legacy API (deprecated)"));
    assert!(!is_deprecated_tag("Old Pets"));
}

#[test]
fn test_alpha_by_name() {
    assert!(is_alpha_tag("Beta Feature (Alpha)"));
    assert!(is_alpha_tag("New Stuff (alpha)"));
    assert!(!is_alpha_tag("Beta Feature"));
}

#[test]
fn test_not_deprecated() {
    assert!(!is_deprecated_tag("Access Policies"));
    assert!(!is_alpha_tag("Access Policies"));
}

#[test]
fn test_humanize_pascal_case() {
    assert_eq!(
        humanize_tag_name("DiscoveryIntegration"),
        "Discovery Integration"
    );
    assert_eq!(
        humanize_tag_name("CredentialProvider"),
        "Credential Provider"
    );
    assert_eq!(
        humanize_tag_name("PascalCaseResource"),
        "Pascal Case Resource"
    );
}

#[test]
fn test_humanize_already_spaced() {
    assert_eq!(
        humanize_tag_name("Credential Provider v2"),
        "Credential Provider v2"
    );
    assert_eq!(humanize_tag_name("Access Policies"), "Access Policies");
}

#[test]
fn test_humanize_strips_status_qualifiers() {
    assert_eq!(humanize_tag_name("OldPets (Deprecated)"), "Old Pets");
    assert_eq!(humanize_tag_name("NewFeature (Alpha)"), "New Feature");
}

#[test]
fn test_humanize_simple() {
    assert_eq!(humanize_tag_name("Pets"), "Pets");
}

fn make_group(slug: &str) -> phyllotaxis::models::resource::ResourceGroup {
    phyllotaxis::models::resource::ResourceGroup {
        slug: slug.to_string(),
        display_name: slug.to_string(),
        description: None,
        is_deprecated: false,
        is_alpha: false,
        endpoints: vec![],
    }
}

#[test]
fn test_find_group_exact() {
    let groups = vec![make_group("pets"), make_group("owners")];
    assert_eq!(find_resource_group(&groups, "pets"), Some(0));
    assert_eq!(find_resource_group(&groups, "PETS"), Some(0));
    assert_eq!(find_resource_group(&groups, "owners"), Some(1));
}

#[test]
fn test_find_group_not_found() {
    let groups = vec![make_group("pets")];
    assert_eq!(find_resource_group(&groups, "widgets"), None);
}

fn op(method: &str, path: &str, tags: &[&str]) -> OperationSummary {
    OperationSummary {
        method: method.to_string(),
        path: path.to_string(),
        summary: None,
        description: None,
        deprecated: false,
        alpha: false,
        tags: tags.iter().map(|t| t.to_string()).collect(),
    }
}

#[test]
fn resource_detail_by_slug_ignoring_case() {
    let tags = vec![TagInfo { name: "Pet Store".to_string(), description: Some("Pets".to_string()) }];
    let ops = vec![op("GET", "/pets", &["Pet Store"]), op("POST", "/pets", &["Pet Store"]), op("GET", "/users", &["Users"])];
    let g = get_resource_detail(&tags, &ops, "PET-STORE").expect("group found");
    assert_eq!(g.slug, "pet-store");
    assert_eq!(g.description.as_deref(), Some("Pets"));
    assert_eq!(g.endpoints.len(), 2);
    assert!(get_resource_detail(&tags, &ops, "orders").is_none());
}

#[test]
fn resource_detail_by_path_prefix_without_tags() {
    let ops = vec![op("GET", "/orders", &[]), op("GET", "/orders/{id}", &[])];
    let g = get_resource_detail(&Vec::new(), &ops, "orders").expect("group found");
    assert_eq!(g.endpoints.len(), 2);
}

#[test]
fn test_no_empty_resource_groups() {
    use_groups_without_empty_tags();
}

fn use_groups_without_empty_tags() {
    let tags = vec![
        TagInfo { name: "Pets".to_string(), description: Some("Pet things".to_string()) },
        TagInfo { name: "Unused".to_string(), description: None },
    ];
    let ops = vec![op("GET", "/pets", &["Pets"]), op("GET", "/users", &["Users"])];
    let groups = phyllotaxis::commands::resources::extract_resource_groups(&tags, &ops);
    let slugs: Vec<&str> = groups.iter().map(|g| g.slug.as_str()).collect();
    assert_eq!(slugs, vec!["pets", "users"]);
    assert!(groups.iter().all(|g| !g.endpoints.is_empty()));
    assert_eq!(groups[0].description.as_deref(), Some("Pet things"));
    assert!(get_resource_detail(&tags, &ops, "unused").is_none());
}

#[test]
fn a_slug_is_its_own_slug() {
    for tag in ["Access Policies", "DiscoveryIntegration", "Old Pets (Deprecated)", "--Weird  Tag--", "v2 API", "pets"] {
        let s = slugify(tag);
        assert_eq!(slugify(&s), s, "tag {:?}", tag);
    }
}
