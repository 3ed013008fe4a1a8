# phyllotaxis

Progressive disclosure for OpenAPI documents: an overview first, then
resource groups, endpoints, schemas, authentication, callbacks and search,
each in plain text or JSON.

## Layout

- `src/` — the verified library (Verus). Every public function states what
  it returns in its contract.
  - `models/` — the document model the library reads (`ApiDef`,
    `SchemaNode`, JSON values) and the shown models (`Endpoint`, `Field`,
    `SchemaModel`, `ResourceGroup`).
  - `commands/` — building what each view shows: overview, resource groups,
    endpoint detail, schema detail and usage, examples, auth, search, and
    the document configuration.
  - `render/` — the plain-text renderers, and the sanitizing of document
    text before it is printed.
  - `document.rs` — where the document is looked for, `$ref` syntax, JSON
    pointers, and which referenced files are read.
  - `cli.rs` — the decisions around the views: output format, messages,
    pointers and search terms.
- `app/` — the command: arguments, files, parsing the document with
  `openapiv3`/`serde`, JSON output, and close-match suggestions.
- `tests/` — tests of the library on concrete values.
