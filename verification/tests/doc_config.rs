//! Listing configured documents and deriving nicknames.
use phyllotaxis::commands::init::{
    build_list_docs_json, format_list_docs_section, resolve_nickname, PhyllotaxisConfig,
};
use phyllotaxis::document::{project_config_path, resolve_doc_path, resolve_relative, Config, DocPlan, ScopedConfig};
use phyllotaxis::commands::init::target_config_path;
use phyllotaxis::commands::init::{add_document, framework_spec_dirs, has_document, remove_document};
#[test]
fn test_list_docs_output_contains_active_marker() {
    let mut cfg = PhyllotaxisConfig::default();
    cfg.active = Some("pets".to_string());
    cfg.documents.push(("pets".to_string(), "./api/petstore.yaml".to_string()));
    cfg.documents.push(("internal".to_string(), "./api/internal.yaml".to_string()));

    let output = format_list_docs_section("Project (.phyllotaxis/)", &cfg, false);
    assert!(
        output.contains("(active)"),
        "Active doc must be marked. Got:\n{}",
        output
    );
    assert!(
        output.contains("pets"),
        "pets must appear. Got:\n{}",
        output
    );
    assert!(
        output.contains("internal"),
        "internal must appear. Got:\n{}",
        output
    );
}

#[test]
fn test_list_docs_section_empty() {
    let cfg = PhyllotaxisConfig::default();
    let output = format_list_docs_section("Project", &cfg, false);
    assert!(
        output.contains("(none)"),
        "Empty section should show (none). Got:\n{}",
        output
    );
}

#[test]
fn test_build_list_docs_json_structure() {
    let mut cfg = Config::default();
    cfg.active = Some("pets".to_string());
    cfg.documents.push(("pets".to_string(), "./petstore.yaml".to_string()));

    let scoped = ScopedConfig {
        project: Some((cfg, "/tmp/test".to_string())),
        user: None,
    };

    let json = build_list_docs_json(&scoped, None);
    assert!(json.project.is_some());
    assert!(json.user.is_none());
    let project = json.project.unwrap();
    assert_eq!(project.active.as_deref(), Some("pets"));
    assert_eq!(project.documents.len(), 1);
    assert!(project.documents[0].active);
}

#[test]
fn test_resolve_nickname_explicit() {
    assert_eq!(
        resolve_nickname(Some("myapi"), "./path.yaml").unwrap(),
        "myapi"
    );
}

#[test]
fn test_resolve_nickname_from_path() {
    assert_eq!(
        resolve_nickname(None, "./petstore.yaml").unwrap(),
        "petstore"
    );
    assert_eq!(
        resolve_nickname(None, "stripe-openapi.json").unwrap(),
        "stripe-openapi"
    );
}

#[test]
fn test_resolve_nickname_empty_errors() {
    let result = resolve_nickname(Some(""), "./path.yaml");
    assert!(result.is_err());
    assert!(result.unwrap_err().to_string().contains("cannot be empty"));
}

#[test]
fn adding_a_document_keeps_the_rest() {
    let mut cfg = PhyllotaxisConfig::default();
    cfg.documents.push(("pets".to_string(), "./petstore.yaml".to_string()));
    assert_eq!(add_document(&mut cfg, "users", "./users.yaml"), Ok(()));
    assert!(has_document(&cfg, "pets"));
    assert!(has_document(&cfg, "users"));
    assert!(!has_document(&cfg, "orders"));
    assert_eq!(cfg.active, None);
    assert_eq!(cfg.documents.len(), 2);
}

#[test]
fn adding_a_known_nickname_is_refused() {
    let mut cfg = PhyllotaxisConfig::default();
    cfg.documents.push(("pets".to_string(), "./petstore.yaml".to_string()));
    assert_eq!(
        add_document(&mut cfg, "pets", "./other.yaml"),
        Err("Document 'pets' already exists. Use --remove-doc pets first, or choose a different --name."
            .to_string())
    );
    assert_eq!(cfg.documents, vec![("pets".to_string(), "./petstore.yaml".to_string())]);
}

#[test]
fn removing_the_active_document_clears_it() {
    let mut cfg = PhyllotaxisConfig::default();
    cfg.active = Some("pets".to_string());
    cfg.documents.push(("pets".to_string(), "./petstore.yaml".to_string()));
    cfg.documents.push(("users".to_string(), "./users.yaml".to_string()));
    assert_eq!(remove_document(&mut cfg, "pets"), Ok(()));
    assert!(!has_document(&cfg, "pets"));
    assert!(has_document(&cfg, "users"));
    assert_eq!(cfg.active, None);
}

#[test]
fn removing_another_document_keeps_the_active_one() {
    let mut cfg = PhyllotaxisConfig::default();
    cfg.active = Some("users".to_string());
    cfg.documents.push(("pets".to_string(), "./petstore.yaml".to_string()));
    cfg.documents.push(("users".to_string(), "./users.yaml".to_string()));
    assert_eq!(remove_document(&mut cfg, "pets"), Ok(()));
    assert_eq!(cfg.active.as_deref(), Some("users"));
    assert_eq!(cfg.documents, vec![("users".to_string(), "./users.yaml".to_string())]);
}

#[test]
fn removing_an_unknown_document_is_refused() {
    let mut cfg = PhyllotaxisConfig::default();
    cfg.documents.push(("pets".to_string(), "./petstore.yaml".to_string()));
    assert_eq!(remove_document(&mut cfg, "orders"), Err("Document 'orders' not found in config.".to_string()));
    assert_eq!(cfg.documents.len(), 1);
}

#[test]
fn add_then_remove_gives_back_the_documents() {
    let mut cfg = PhyllotaxisConfig::default();
    cfg.documents.push(("pets".to_string(), "./petstore.yaml".to_string()));
    let before = cfg.documents.clone();
    add_document(&mut cfg, "users", "./users.yaml").unwrap();
    remove_document(&mut cfg, "users").unwrap();
    assert_eq!(cfg.documents, before);
}

#[test]
fn framework_directories() {
    assert_eq!(framework_spec_dirs("Astro"), vec!["src/content"]);
    assert_eq!(framework_spec_dirs("Docusaurus"), vec!["static"]);
    assert_eq!(framework_spec_dirs("Hugo"), vec!["static"]);
    assert_eq!(framework_spec_dirs("Jekyll"), vec!["assets"]);
    assert_eq!(framework_spec_dirs("MkDocs"), vec!["docs"]);
    assert!(framework_spec_dirs("Sphinx").is_empty());
}

#[test]
fn config_paths_are_joined_under_the_root() {
    assert_eq!(project_config_path("/home/me/proj"), "/home/me/proj/.phyllotaxis/config.yaml");
    assert_eq!(resolve_relative("api/openapi.yaml", "/proj"), "/proj/api/openapi.yaml");
    assert_eq!(resolve_relative("/abs/openapi.yaml", "/proj"), "/abs/openapi.yaml");
}

#[test]
fn commands_write_to_the_project_unless_asked_otherwise() {
    assert_eq!(
        target_config_path(Some("/proj"), false, Some("/home/me/.config/phyllotaxis/config.yaml")),
        Ok("/proj/.phyllotaxis/config.yaml".to_string())
    );
    assert_eq!(
        target_config_path(Some("/proj"), true, Some("/home/me/.config/phyllotaxis/config.yaml")),
        Ok("/home/me/.config/phyllotaxis/config.yaml".to_string())
    );
    assert_eq!(
        target_config_path(None, false, None),
        Err("Cannot determine home directory for user config".to_string())
    );
}

#[test]
fn document_plans_follow_flag_env_and_config() {
    let mut project = Config::default();
    project.active = Some("pets".to_string());
    project.documents.push(("pets".to_string(), "specs/petstore.yaml".to_string()));
    let scoped = ScopedConfig { project: Some((project, "/proj".to_string())), user: None };

    match resolve_doc_path(Some("pets"), None, &scoped, "/work") {
        DocPlan::File { path, missing } => {
            assert_eq!(path, "/proj/specs/petstore.yaml");
            assert_eq!(missing, "Named document 'pets' → 'specs/petstore.yaml' not found (from /proj)");
        }
        other => panic!("unexpected plan {:?}", other),
    }
    match resolve_doc_path(Some("other.yaml"), None, &scoped, "/work") {
        DocPlan::File { path, missing } => {
            assert_eq!(path, "/work/other.yaml");
            assert_eq!(missing, "Document 'other.yaml' not found as a named document or file path.");
        }
        other => panic!("unexpected plan {:?}", other),
    }
    match resolve_doc_path(None, Some("env.yaml"), &scoped, "/work") {
        DocPlan::File { path, .. } => assert_eq!(path, "/work/env.yaml"),
        other => panic!("unexpected plan {:?}", other),
    }
    match resolve_doc_path(None, Some(""), &scoped, "/work") {
        DocPlan::File { path, .. } => assert_eq!(path, "/proj/specs/petstore.yaml"),
        other => panic!("unexpected plan {:?}", other),
    }
    let empty = ScopedConfig { project: None, user: None };
    match resolve_doc_path(None, None, &empty, "/work") {
        DocPlan::AutoDetect { missing } => assert!(missing.starts_with("No OpenAPI document found.")),
        other => panic!("unexpected plan {:?}", other),
    }
    let mut no_active = Config::default();
    no_active.documents.push(("a".to_string(), "a.yaml".to_string()));
    let scoped = ScopedConfig { project: Some((no_active, "/proj".to_string())), user: None };
    match resolve_doc_path(None, None, &scoped, "/work") {
        DocPlan::Fail { message } => assert_eq!(
            message,
            "Project has documents configured but no active set.\nUse: phyll --set-doc <name>  (available: a)"
        ),
        other => panic!("unexpected plan {:?}", other),
    }
}
