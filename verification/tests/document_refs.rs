//! `$ref` syntax and where the document is looked for.
use phyllotaxis::document::{parse_external_ref, schema_name_from_ref};
#[test]
fn test_schema_name_from_ref() {
    assert_eq!(
        schema_name_from_ref("#/components/schemas/Pet"),
        Some("Pet")
    );
    assert_eq!(
        schema_name_from_ref("#/components/schemas/PetList"),
        Some("PetList")
    );
}

#[test]
fn test_schema_name_invalid() {
    assert_eq!(schema_name_from_ref("#/components/other/Pet"), None);
    assert_eq!(schema_name_from_ref("#/definitions/Pet"), None);
    assert_eq!(schema_name_from_ref(""), None);
}

#[test]
fn test_parse_external_ref_bare_file() {
    let (path, fragment) = parse_external_ref("./schemas/pet.yaml");
    assert_eq!(path, "./schemas/pet.yaml");
    assert_eq!(fragment, None);
}

#[test]
fn test_parse_external_ref_with_fragment() {
    let (path, fragment) = parse_external_ref("./schemas.yaml#/components/schemas/Pet");
    assert_eq!(path, "./schemas.yaml");
    assert_eq!(fragment.as_deref(), Some("/components/schemas/Pet"));
}

#[test]
fn test_parse_external_ref_empty_fragment() {
    let (path, fragment) = parse_external_ref("./file.yaml#");
    assert_eq!(path, "./file.yaml");
    assert_eq!(fragment, None);
}

#[test]
fn test_parse_external_ref_absolute_path_with_fragment() {
    let (path, fragment) = parse_external_ref("/abs/path/schema.yaml#/Foo");
    assert_eq!(path, "/abs/path/schema.yaml");
    assert_eq!(fragment.as_deref(), Some("/Foo"));
}

#[test]
fn test_parse_external_ref_no_dot_prefix() {
    let (path, fragment) = parse_external_ref("schemas/pet.yaml");
    assert_eq!(path, "schemas/pet.yaml");
    assert_eq!(fragment, None);
}
