//! The decisions the command makes around its views: output format,
//! removed subcommands, JSON pointers, search terms, not-found errors, and
//! which references and files the loader follows.
use phyllotaxis::cli::{
    migration_hint, normalize_pointer, not_found_message, not_found_text, output_is_json, search_term,
    set_doc_user_scope, styled_output, suggestion_commands,
};
use phyllotaxis::strutil::blank;
use phyllotaxis::cli::merge_view_outputs;
use phyllotaxis::models::json::JsonValue;
use phyllotaxis::document::{
    document_file_names, external_ref_target, is_document_extension, mentions_openapi, peek_is_openapi,
    MAX_DOC_SIZE,
};

#[test]
fn json_flag_text_flag_and_terminal() {
    assert!(output_is_json(true, false, true));
    assert!(!output_is_json(false, true, false));
    assert!(output_is_json(false, false, false));
    assert!(!output_is_json(false, false, true));
}

#[test]
fn styling_needs_a_terminal_and_no_opt_out() {
    assert!(styled_output(true, false, None, None));
    assert!(styled_output(true, false, Some("xterm"), Some("1")));
    assert!(!styled_output(false, false, None, None));
    assert!(!styled_output(true, true, None, None));
    assert!(!styled_output(true, false, Some("dumb"), None));
    assert!(!styled_output(true, false, None, Some("0")));
}

#[test]
fn removed_subcommands_get_a_hint() {
    assert_eq!(
        migration_hint("resources", "phyll").as_deref(),
        Some("Subcommand 'resources' was removed in v2.0. Use: phyll --resources [name]")
    );
    assert_eq!(
        migration_hint("endpoints", "phyll").as_deref(),
        Some("Subcommand 'endpoints' was removed in v2.0. Use: phyll --resources [name]")
    );
    assert_eq!(
        migration_hint("schemas", "px").as_deref(),
        Some("Subcommand 'schemas' was removed in v2.0. Use: px --schemas [name]")
    );
    assert_eq!(
        migration_hint("auth", "px").as_deref(),
        Some("Subcommand 'auth' was removed in v2.0. Use: px --auth")
    );
    assert_eq!(
        migration_hint("callbacks", "px").as_deref(),
        Some("Subcommand 'callbacks' was removed in v2.0. Use: px --callbacks [name]")
    );
    assert_eq!(migration_hint("openapi.yaml", "px"), None);
}

#[test]
fn set_doc_scope_follows_the_owner_of_the_nickname() {
    assert!(set_doc_user_scope(true, true, false, true));
    assert!(!set_doc_user_scope(false, true, true, true));
    assert!(set_doc_user_scope(false, false, true, true));
    assert!(!set_doc_user_scope(false, false, false, true));
    assert!(set_doc_user_scope(false, false, false, false));
}

#[test]
fn pointers_drop_one_hash_and_must_start_with_a_slash() {
    assert_eq!(normalize_pointer("#/components/schemas/Pet"), Ok("/components/schemas/Pet".to_string()));
    assert_eq!(normalize_pointer("/paths"), Ok("/paths".to_string()));
    assert_eq!(normalize_pointer(""), Ok(String::new()));
    assert_eq!(normalize_pointer("#"), Ok(String::new()));
    assert_eq!(
        normalize_pointer("components"),
        Err("Invalid JSON Pointer 'components': must start with '/'".to_string())
    );
    assert_eq!(
        normalize_pointer("##/a"),
        Err("Invalid JSON Pointer '##/a': must start with '/'".to_string())
    );
}

#[test]
fn search_terms_are_trimmed_and_must_not_be_blank() {
    assert_eq!(search_term("  pet \n", false, "phyll"), Ok("pet".to_string()));
    assert_eq!(search_term("   ", true, "phyll"), Err("Please provide a search term.".to_string()));
    assert_eq!(
        search_term("", false, "phyll"),
        Err("Please provide a search term.\nUse 'phyll --resources' or 'phyll --schemas' to list all items."
            .to_string())
    );
}

#[test]
fn not_found_errors_list_close_matches() {
    let msg = not_found_message("Schema", "Pett");
    assert_eq!(msg, "Schema 'Pett' not found.");
    let cmds = suggestion_commands("phyll", "schemas", &vec!["Pet".to_string(), "Pets".to_string()]);
    assert_eq!(cmds, vec!["phyll --schemas Pet".to_string(), "phyll --schemas Pets".to_string()]);
    assert_eq!(
        not_found_text(&msg, &cmds),
        "Schema 'Pett' not found.\nDid you mean:\n  phyll --schemas Pet\n  phyll --schemas Pets"
    );
    assert_eq!(not_found_text(&msg, &Vec::new()), "Schema 'Pett' not found.");
}

#[test]
fn document_names_and_extensions() {
    assert_eq!(
        document_file_names(),
        vec!["openapi.yaml", "openapi.yml", "openapi.json", "swagger.yaml", "swagger.yml", "swagger.json"]
    );
    assert!(is_document_extension("yaml"));
    assert!(is_document_extension("yml"));
    assert!(is_document_extension("json"));
    assert!(!is_document_extension("YAML"));
    assert!(!is_document_extension("toml"));
    assert_eq!(MAX_DOC_SIZE, 100 * 1024 * 1024);
}

#[test]
fn openapi_headers_in_the_first_bytes() {
    assert!(peek_is_openapi("openapi: 3.0.0\ninfo:"));
    assert!(peek_is_openapi("{\n  \"openapi\": \"3.1.0\""));
    assert!(!peek_is_openapi("swagger: '2.0'"));
    assert!(!peek_is_openapi("# openapi notes"));
    assert!(mentions_openapi("# openapi notes"));
    assert!(!mentions_openapi("swagger: '2.0'"));
}

#[test]
fn external_refs_to_yaml_and_json_files_are_followed() {
    assert_eq!(external_ref_target("#/components/schemas/Pet"), None);
    assert_eq!(
        external_ref_target("./schemas/pet.yaml"),
        Some(("./schemas/pet.yaml".to_string(), None))
    );
    assert_eq!(
        external_ref_target("common.json#/components/schemas/Error"),
        Some(("common.json".to_string(), Some("/components/schemas/Error".to_string())))
    );
    assert_eq!(external_ref_target("defs.yml#"), Some(("defs.yml".to_string(), None)));
    assert_eq!(external_ref_target("samples/Client.cs"), None);
    assert_eq!(external_ref_target("README"), None);
}

#[test]
fn white_space_is_the_unicode_set() {
    for u in 0u32..=0x10FFFF {
        if let Some(c) = char::from_u32(u) {
            let mut s = String::new();
            s.push(c);
            assert_eq!(blank(&s), c.is_whitespace(), "U+{:04X}", u);
        }
    }
}

#[test]
fn several_views_merge_under_their_names() {
    let a = || JsonValue::Str("a".to_string());
    let b = || JsonValue::Bool(true);
    assert_eq!(merge_view_outputs(vec![]), None);
    assert_eq!(merge_view_outputs(vec![("resources".to_string(), a())]), Some(a()));
    assert_eq!(
        merge_view_outputs(vec![("resources".to_string(), a()), ("auth".to_string(), b())]),
        Some(JsonValue::Object(vec![("resources".to_string(), a()), ("auth".to_string(), b())]))
    );
}
