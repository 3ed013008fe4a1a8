//! Which OpenAPI document to load, and the small pieces of `$ref` syntax:
//! the configuration model, the order in which a document is looked for,
//! and the errors given when none is found.
use vstd::prelude::*;
use crate::strutil::{contains_seq, join, push_str, seq_contains, to_chars};
use crate::render::sanitize::{owned, str_eq};
use crate::models::json::{clone_json, jmembers, jview, JsonValue, JsonView};
use crate::commands::endpoint::{split_from, split_on, split_str};
use crate::commands::overview::{replace_all, replace_str};

verus! {

// ───────────────────────── `$ref` syntax ─────────────────────────

/// Index of the first `c` at or after `i`, or the end of `s`.
pub open spec fn char_pos(s: Seq<char>, c: char, i: int) -> int
    decreases s.len() - i,
{
    if i >= s.len() {
        s.len() as int
    } else if s[i] == c {
        i
    } else {
        char_pos(s, c, i + 1)
    }
}

pub proof fn lemma_char_pos(s: Seq<char>, c: char, i: int)
    requires
        0 <= i <= s.len(),
    ensures
        i <= char_pos(s, c, i) <= s.len(),
        char_pos(s, c, i) < s.len() ==> s[char_pos(s, c, i)] == c,
        forall|k: int| i <= k < char_pos(s, c, i) ==> s[k] != c,
    decreases s.len() - i,
{
    if i < s.len() && s[i] != c {
        lemma_char_pos(s, c, i + 1);
    }
}

fn find_char(v: &Vec<char>, c: char) -> (k: usize)
    ensures
        k == char_pos(v@, c, 0),
{
    let mut k: usize = 0;
    while k < v.len() && v[k] != c
        invariant
            k <= v.len(),
            char_pos(v@, c, 0) == char_pos(v@, c, k as int),
        decreases v.len() - k,
    {
        k = k + 1;
    }
    k
}

/// The name of a schema under `#/components/schemas/`: what follows the
/// prefix, when that is not empty and holds no `/`.
pub open spec fn spec_schema_name_from_ref(r: Seq<char>) -> Option<Seq<char>> {
    let p = "#/components/schemas/"@;
    if r.len() >= p.len() && r.take(p.len() as int) == p && r.len() > p.len()
        && char_pos(r, '/', p.len() as int) == r.len() {
        Some(r.skip(p.len() as int))
    } else {
        None
    }
}

/// Extracts the schema name from a reference such as
/// `#/components/schemas/Pet`.
pub fn schema_name_from_ref(reference: &str) -> (r: Option<&str>)
    ensures
        match r {
            Some(n) => spec_schema_name_from_ref(reference@) == Some(n@),
            None => spec_schema_name_from_ref(reference@) is None,
        },
{
    let v = to_chars(reference);
    let p = to_chars("#/components/schemas/");
    if v.len() <= p.len() {
        return None;
    }
    let mut i: usize = 0;
    while i < p.len()
        invariant
            i <= p.len() < v.len(),
            v@ == reference@,
            p@ == "#/components/schemas/"@,
            forall|k: int| 0 <= k < i ==> v@[k] == p@[k],
        decreases p.len() - i,
    {
        if v[i] != p[i] {
            proof {
                assert(v@.take(p.len() as int)[i as int] != p@[i as int]);
            }
            return None;
        }
        i = i + 1;
    }
    assert(v@.take(p.len() as int) =~= p@);
    let mut k: usize = p.len();
    while k < v.len() && v[k] != '/'
        invariant
            p.len() <= k <= v.len(),
            char_pos(v@, '/', p.len() as int) == char_pos(v@, '/', k as int),
        decreases v.len() - k,
    {
        k = k + 1;
    }
    if k < v.len() {
        return None;
    }
    let n = reference.substring_char(p.len(), v.len());
    assert(n@ =~= reference@.skip(p.len() as int));
    Some(n)
}

/// A `$ref` split at its first `#`: the file part, and the fragment after
/// the `#` unless that is empty.
pub open spec fn spec_parse_external_ref(r: Seq<char>) -> (Seq<char>, Option<Seq<char>>) {
    let k = char_pos(r, '#', 0);
    if k >= r.len() {
        (r, None)
    } else if k + 1 == r.len() {
        (r.take(k), None)
    } else {
        (r.take(k), Some(r.skip(k + 1)))
    }
}

/// Splits an external `$ref` into its file part and its JSON Pointer
/// fragment.
pub fn parse_external_ref(ref_str: &str) -> (r: (&str, Option<String>))
    ensures
        r.0@ == spec_parse_external_ref(ref_str@).0,
        match r.1 {
            Some(f) => spec_parse_external_ref(ref_str@).1 == Some(f@),
            None => spec_parse_external_ref(ref_str@).1 is None,
        },
{
    let v = to_chars(ref_str);
    let k = find_char(&v, '#');
    proof { lemma_char_pos(v@, '#', 0); }
    if k >= v.len() {
        return (ref_str, None);
    }
    let path = ref_str.substring_char(0, k);
    assert(path@ =~= ref_str@.take(k as int));
    if k + 1 == v.len() {
        return (path, None);
    }
    let frag = ref_str.substring_char(k + 1, v.len());
    assert(frag@ =~= ref_str@.skip(k + 1));
    (path, Some(owned(frag)))
}


/// Reading back a schema reference gives the name it was written with.
pub proof fn lemma_schema_ref_round_trip(name: Seq<char>)
    requires
        name.len() > 0,
        !name.contains('/'),
    ensures
        spec_schema_name_from_ref("#/components/schemas/"@ + name) == Some(name),
{
    let p = "#/components/schemas/"@;
    let r = p + name;
    assert(r.take(p.len() as int) =~= p);
    assert(r.skip(p.len() as int) =~= name);
    lemma_char_pos(r, '/', p.len() as int);
    if char_pos(r, '/', p.len() as int) < r.len() {
        let k = char_pos(r, '/', p.len() as int);
        assert(name[k - p.len()] == r[k]);
        assert(name.contains('/'));
    }
}

/// A file part without `#` and a non-empty fragment joined by `#` split
/// back into the two; a reference without `#` is a file part alone.
pub proof fn lemma_external_ref_round_trip(path: Seq<char>, fragment: Seq<char>)
    requires
        !path.contains('#'),
    ensures
        fragment.len() > 0 ==> spec_parse_external_ref(path + seq!['#'] + fragment) == (path, Some(fragment)),
        spec_parse_external_ref(path) == (path, None::<Seq<char>>),
{
    let r = path + seq!['#'] + fragment;
    lemma_char_pos(r, '#', 0);
    let k = char_pos(r, '#', 0);
    if k < path.len() {
        assert(path[k] == r[k]);
    }
    if k > path.len() {
        assert(r[path.len() as int] == '#');
    }
    assert(k == path.len());
    assert(r.take(k) =~= path);
    assert(r.skip(k + 1) =~= fragment);
    lemma_char_pos(path, '#', 0);
    if char_pos(path, '#', 0) < path.len() {
        assert(path.contains('#'));
    }
}

// ───────────────────────── paths ─────────────────────────

/// What `Path::join` gives for a base and a path (the path itself where it
/// is absolute).
pub uninterp spec fn joined_path(base: Seq<char>, p: Seq<char>) -> Seq<char>;

/// Whether `Path::is_absolute` holds of a path.
pub uninterp spec fn is_absolute_path(p: Seq<char>) -> bool;

/// `Path::join`, on paths held as text.
#[verifier::external_body]
pub(crate) fn path_join(base: &str, p: &str) -> (r: String)
    ensures
        r@ == joined_path(base@, p@),
{
    std::path::Path::new(base).join(p).to_string_lossy().into_owned()
}

/// `Path::is_absolute`, on a path held as text.
#[verifier::external_body]
fn path_is_absolute(p: &str) -> (r: bool)
    ensures
        r == is_absolute_path(p@),
{
    std::path::Path::new(p).is_absolute()
}

/// The path that `rel` names from `base`: `rel` itself where absolute.
pub open spec fn spec_resolve_relative(rel: Seq<char>, base: Seq<char>) -> Seq<char> {
    if is_absolute_path(rel) {
        rel
    } else {
        joined_path(base, rel)
    }
}

/// The path that `rel` names from `base` (whether a file is there is for
/// the caller to find out).
pub fn resolve_relative(rel: &str, base: &str) -> (r: String)
    ensures
        r@ == spec_resolve_relative(rel@, base@),
{
    if path_is_absolute(rel) {
        owned(rel)
    } else {
        path_join(base, rel)
    }
}

pub open spec fn spec_project_config_path(root: Seq<char>) -> Seq<char> {
    joined_path(joined_path(root, ".phyllotaxis"@), "config.yaml"@)
}

/// `.phyllotaxis/config.yaml` under a project root.
pub fn project_config_path(project_root: &str) -> (r: String)
    ensures
        r@ == spec_project_config_path(project_root@),
{
    let d = path_join(project_root, ".phyllotaxis");
    path_join(d.as_str(), "config.yaml")
}

/// What `Path::extension` gives for a path: the part of its file name
/// after the last `.`, where there is one.
pub uninterp spec fn path_extension(p: Seq<char>) -> Option<Seq<char>>;

/// `Path::extension`, on a path held as text.
#[verifier::external_body]
fn path_extension_of(p: &str) -> (r: Option<String>)
    ensures
        match r {
            Some(e) => path_extension(p@) == Some(e@),
            None => path_extension(p@) is None,
        },
{
    match std::path::Path::new(p).extension() {
        Some(e) => match e.to_str() {
            Some(t) => Some(t.to_string()),
            None => None,
        },
        None => None,
    }
}

// ───────────────────────── reading the document ─────────────────────────

/// The largest document file that is read, in bytes.
pub const MAX_DOC_SIZE: u64 = 104857600;

/// The file names looked for first, in order, when a directory is searched
/// for a document.
pub fn document_file_names() -> (r: Vec<&'static str>)
    ensures
        r@ == seq!["openapi.yaml", "openapi.yml", "openapi.json", "swagger.yaml", "swagger.yml", "swagger.json"],
{
    let mut v: Vec<&'static str> = Vec::new();
    v.push("openapi.yaml");
    v.push("openapi.yml");
    v.push("openapi.json");
    v.push("swagger.yaml");
    v.push("swagger.yml");
    v.push("swagger.json");
    assert(v@ =~= seq!["openapi.yaml", "openapi.yml", "openapi.json", "swagger.yaml", "swagger.yml", "swagger.json"]);
    v
}

/// The extensions of files that may hold a document: YAML or JSON.
pub open spec fn is_document_ext(ext: Seq<char>) -> bool {
    ext == "yaml"@ || ext == "yml"@ || ext == "json"@
}

/// Whether a file extension is one of `yaml`, `yml` or `json`.
pub fn is_document_extension(ext: &str) -> (r: bool)
    ensures
        r == is_document_ext(ext@),
{
    str_eq(ext, "yaml") || str_eq(ext, "yml") || str_eq(ext, "json")
}

/// Whether the first bytes of a file, read as text, show an OpenAPI
/// document: they hold `openapi:` or `"openapi"`.
pub fn peek_is_openapi(peek: &str) -> (r: bool)
    ensures
        r == (contains_seq(peek@, "openapi:"@) || contains_seq(peek@, "\"openapi\""@)),
{
    let v = to_chars(peek);
    let a = to_chars("openapi:");
    let b = to_chars("\"openapi\"");
    seq_contains(&v, &a) || seq_contains(&v, &b)
}

/// Whether the first bytes of a file, read as text, mention `openapi` at
/// all (how setup picks its candidates).
pub fn mentions_openapi(snippet: &str) -> (r: bool)
    ensures
        r == contains_seq(snippet@, "openapi"@),
{
    let v = to_chars(snippet);
    let a = to_chars("openapi");
    seq_contains(&v, &a)
}

/// The file and fragment of a `$ref` that names another YAML or JSON file;
/// none for a local reference (starting with `#`) or one to a file of
/// another kind.
pub open spec fn spec_external_ref_target(r: Seq<char>) -> Option<(Seq<char>, Option<Seq<char>>)> {
    if r.len() > 0 && r[0] == '#' {
        None
    } else {
        let parts = spec_parse_external_ref(r);
        match path_extension(parts.0) {
            Some(e) => if is_document_ext(e) { Some(parts) } else { None },
            None => None,
        }
    }
}

/// The file to read and the fragment to take from it, for a `$ref` that
/// names another YAML or JSON file; `None` where the reference is to be
/// left as it is.
pub fn external_ref_target(ref_str: &str) -> (r: Option<(String, Option<String>)>)
    ensures
        match r {
            Some((file, frag)) => spec_external_ref_target(ref_str@) == Some((file@, match frag {
                Some(f) => Some(f@),
                None => None::<Seq<char>>,
            })),
            None => spec_external_ref_target(ref_str@) is None,
        },
{
    let v = to_chars(ref_str);
    if v.len() > 0 && v[0] == '#' {
        return None;
    }
    let (file, frag) = parse_external_ref(ref_str);
    match path_extension_of(file) {
        Some(e) => {
            if is_document_extension(e.as_str()) {
                Some((owned(file), frag))
            } else {
                None
            }
        },
        None => None,
    }
}

// ───────────────────────── configuration ─────────────────────────

/// A configuration file: the active document's nickname, the documents by
/// nickname (each nickname once), and server variables.
#[derive(Debug)]
pub struct Config {
    pub active: Option<String>,
    pub documents: Vec<(String, String)>,
    pub variables: Option<Vec<(String, String)>>,
}

impl Default for Config {
    fn default() -> (r: Self)
        ensures
            r.active is None,
            r.documents@.len() == 0,
            r.variables is None,
    {
        Config { active: None, documents: Vec::new(), variables: None }
    }
}

/// The project configuration with the directory that holds
/// `.phyllotaxis/`, and the user configuration, each where there is one.
#[derive(Debug)]
pub struct ScopedConfig {
    pub project: Option<(Config, String)>,
    pub user: Option<Config>,
}

/// What a nickname stands for in a list of documents.
pub open spec fn doc_lookup(docs: Seq<(String, String)>, k: Seq<char>) -> Option<Seq<char>>
    decreases docs.len(),
{
    if docs.len() == 0 {
        None
    } else if docs[0].0@ == k {
        Some(docs[0].1@)
    } else {
        doc_lookup(docs.drop_first(), k)
    }
}

/// The nicknames of the documents, in order.
pub open spec fn doc_names(docs: Seq<(String, String)>) -> Seq<Seq<char>> {
    docs.map_values(|p: (String, String)| p.0@)
}

fn find_doc(docs: &Vec<(String, String)>, k: &str) -> (r: Option<usize>)
    ensures
        match r {
            Some(i) => i < docs@.len() && doc_lookup(docs@, k@) == Some(docs@[i as int].1@),
            None => doc_lookup(docs@, k@) is None,
        },
{
    let mut i: usize = 0;
    assert(docs@.skip(0) =~= docs@);
    while i < docs.len()
        invariant
            i <= docs.len(),
            doc_lookup(docs@, k@) == doc_lookup(docs@.skip(i as int), k@),
        decreases docs.len() - i,
    {
        if str_eq(docs[i].0.as_str(), k) {
            return Some(i);
        }
        assert(docs@.skip(i as int).drop_first() =~= docs@.skip(i + 1));
        i = i + 1;
    }
    None
}


// ───────────────────────── finding the document ─────────────────────────

/// How to find the document: check one file, or look in the start
/// directory; each with the error to give when nothing is there. Or fail.
#[derive(Debug)]
pub enum DocPlan {
    File { path: String, missing: String },
    AutoDetect { missing: String },
    Fail { message: String },
}

/// A plan as text: what `DocPlan` holds.
pub enum PlanView {
    File(Seq<char>, Seq<char>),
    AutoDetect(Seq<char>),
    Fail(Seq<char>),
}

impl DocPlan {
    pub open spec fn plan_view(&self) -> PlanView {
        match self {
            DocPlan::File { path, missing } => PlanView::File(path@, missing@),
            DocPlan::AutoDetect { missing } => PlanView::AutoDetect(missing@),
            DocPlan::Fail { message } => PlanView::Fail(message@),
        }
    }
}

pub open spec fn msg_named_project(doc: Seq<char>, rel: Seq<char>, root: Seq<char>) -> Seq<char> {
    "Named document '"@ + doc + "' → '"@ + rel + "' not found (from "@ + root + ")"@
}

pub open spec fn msg_named_user(doc: Seq<char>, path: Seq<char>) -> Seq<char> {
    "Named document '"@ + doc + "' → '"@ + path + "' not found in user config"@
}

pub open spec fn msg_not_found(doc: Seq<char>) -> Seq<char> {
    "Document '"@ + doc + "' not found as a named document or file path."@
}

pub open spec fn msg_env(v: Seq<char>) -> Seq<char> {
    "PHYLLOTAXIS_DOCUMENT='"@ + v + "' was set but the file was not found."@
}

pub open spec fn msg_active(a: Seq<char>, rel: Seq<char>, root: Seq<char>) -> Seq<char> {
    "Active document '"@ + a + "' → '"@ + rel + "' not found (from "@ + root + ")"@
}

pub open spec fn msg_active_unknown(a: Seq<char>) -> Seq<char> {
    "Active document '"@ + a + "' not found in project config."@
}

pub open spec fn msg_no_active(names: Seq<Seq<char>>) -> Seq<char> {
    "Project has documents configured but no active set.\nUse: phyll --set-doc <name>  (available: "@
        + join(names, ", "@) + ")"@
}

pub open spec fn msg_user_active(a: Seq<char>, path: Seq<char>) -> Seq<char> {
    "Active user document '"@ + a + "' → '"@ + path + "' not found."@
}

pub open spec fn msg_user_active_unknown(a: Seq<char>) -> Seq<char> {
    "Active user document '"@ + a + "' not found in user config."@
}

pub open spec fn msg_nothing(project_found: bool, start: Seq<char>) -> Seq<char> {
    "No OpenAPI document found. Tried:\n1. --doc flag (not provided)\n2. PHYLLOTAXIS_DOCUMENT env var (not set)\n3. Project config ("@
        + (if project_found { "found, no active doc"@ } else { "not found"@ })
        + ")\n4. User config (~/.config/phyllotaxis/config.yaml)\n5. Auto-detect in "@ + start
        + " (no openapi files found)\n\nAdd a document to get started:\n  phyll --add-doc ./path/to/openapi.yaml\n  phyll --doc ./path/to/openapi.yaml  (one-shot, no config needed)"@
}

pub open spec fn project_lookup(sc: ScopedConfig, k: Seq<char>) -> Option<Seq<char>> {
    match sc.project {
        Some(p) => doc_lookup(p.0.documents@, k),
        None => None,
    }
}

pub open spec fn project_root(sc: ScopedConfig) -> Seq<char> {
    match sc.project {
        Some(p) => p.1@,
        None => seq![],
    }
}

pub open spec fn user_lookup(sc: ScopedConfig, k: Seq<char>) -> Option<Seq<char>> {
    match sc.user {
        Some(u) => doc_lookup(u.documents@, k),
        None => None,
    }
}

/// `--doc`: a project nickname, then a user nickname, then a file path.
pub open spec fn flag_plan(doc: Seq<char>, sc: ScopedConfig, start: Seq<char>) -> PlanView {
    match project_lookup(sc, doc) {
        Some(rel) => PlanView::File(spec_resolve_relative(rel, project_root(sc)),
            msg_named_project(doc, rel, project_root(sc))),
        None => match user_lookup(sc, doc) {
            Some(p) => PlanView::File(p, msg_named_user(doc, p)),
            None => PlanView::File(spec_resolve_relative(doc, start), msg_not_found(doc)),
        },
    }
}

/// The user's active document, or else whatever is in the start directory.
pub open spec fn user_plan(sc: ScopedConfig, start: Seq<char>) -> PlanView {
    match sc.user {
        Some(u) => match u.active {
            Some(a) => match doc_lookup(u.documents@, a@) {
                Some(p) => PlanView::File(p, msg_user_active(a@, p)),
                None => PlanView::Fail(msg_user_active_unknown(a@)),
            },
            None => PlanView::AutoDetect(msg_nothing(sc.project is Some, start)),
        },
        None => PlanView::AutoDetect(msg_nothing(sc.project is Some, start)),
    }
}

/// The project's active document; a project with documents but none
/// active is an error; else the user plan.
pub open spec fn config_plan(sc: ScopedConfig, start: Seq<char>) -> PlanView {
    match sc.project {
        Some(p) => match p.0.active {
            Some(a) => match doc_lookup(p.0.documents@, a@) {
                Some(rel) => PlanView::File(spec_resolve_relative(rel, p.1@), msg_active(a@, rel, p.1@)),
                None => PlanView::Fail(msg_active_unknown(a@)),
            },
            None => if p.0.documents@.len() > 0 {
                PlanView::Fail(msg_no_active(doc_names(p.0.documents@)))
            } else {
                user_plan(sc, start)
            },
        },
        None => user_plan(sc, start),
    }
}

/// The order in which a document is looked for: the `--doc` flag, the
/// `PHYLLOTAXIS_DOCUMENT` variable (where set and not empty), the project's
/// active document, the user's, and the start directory.
pub open spec fn spec_resolve_doc_path(
    flag: Option<Seq<char>>,
    env: Option<Seq<char>>,
    sc: ScopedConfig,
    start: Seq<char>,
) -> PlanView {
    match flag {
        Some(doc) => flag_plan(doc, sc, start),
        None => match env {
            Some(e) => if e.len() > 0 {
                PlanView::File(spec_resolve_relative(e, start), msg_env(e))
            } else {
                config_plan(sc, start)
            },
            None => config_plan(sc, start),
        },
    }
}

/// The `--doc` flag decides alone: the environment variable does not
/// matter when it is given.
pub proof fn lemma_flag_wins(doc: Seq<char>, e1: Option<Seq<char>>, e2: Option<Seq<char>>, sc: ScopedConfig, start: Seq<char>)
    ensures
        spec_resolve_doc_path(Some(doc), e1, sc, start) == spec_resolve_doc_path(Some(doc), e2, sc, start),
{
}

/// A non-empty `PHYLLOTAXIS_DOCUMENT` decides over any configuration.
pub proof fn lemma_env_wins_over_config(e: Seq<char>, sc1: ScopedConfig, sc2: ScopedConfig, start: Seq<char>)
    requires
        e.len() > 0,
    ensures
        spec_resolve_doc_path(None, Some(e), sc1, start) == spec_resolve_doc_path(None, Some(e), sc2, start),
{
}

/// An empty `PHYLLOTAXIS_DOCUMENT` counts as not set.
pub proof fn lemma_empty_env_ignored(sc: ScopedConfig, start: Seq<char>)
    ensures
        spec_resolve_doc_path(None, Some(seq![]), sc, start) == spec_resolve_doc_path(None, None, sc, start),
{
}

fn cat3(a: &str, b: &str, c: &str) -> (r: String)
    ensures
        r@ == a@ + b@ + c@,
{
    let mut r = owned(a);
    push_str(&mut r, b);
    push_str(&mut r, c);
    r
}

fn named_msg(head: &str, x: &str, y: &str, tail: &str) -> (r: String)
    ensures
        r@ == head@ + x@ + "' → '"@ + y@ + tail@,
{
    let mut r = owned(head);
    push_str(&mut r, x);
    push_str(&mut r, "' → '");
    push_str(&mut r, y);
    push_str(&mut r, tail);
    r
}

fn msg_nothing_exec(project_found: bool, start: &str) -> (r: String)
    ensures
        r@ == msg_nothing(project_found, start@),
{
    let mut r = owned("No OpenAPI document found. Tried:\n1. --doc flag (not provided)\n2. PHYLLOTAXIS_DOCUMENT env var (not set)\n3. Project config (");
    if project_found {
        push_str(&mut r, "found, no active doc");
    } else {
        push_str(&mut r, "not found");
    }
    push_str(&mut r, ")\n4. User config (~/.config/phyllotaxis/config.yaml)\n5. Auto-detect in ");
    push_str(&mut r, start);
    push_str(&mut r, " (no openapi files found)\n\nAdd a document to get started:\n  phyll --add-doc ./path/to/openapi.yaml\n  phyll --doc ./path/to/openapi.yaml  (one-shot, no config needed)");
    r
}

fn names_joined(docs: &Vec<(String, String)>) -> (r: String)
    ensures
        r@ == join(doc_names(docs@), ", "@),
{
    let ghost views = doc_names(docs@);
    let mut r = String::new();
    let mut i: usize = 0;
    while i < docs.len()
        invariant
            i <= docs.len(),
            views == doc_names(docs@),
            r@ == join(views.take(i as int), ", "@),
        decreases docs.len() - i,
    {
        proof {
            assert(views.take(i + 1) =~= views.take(i as int).push(views[i as int]));
            crate::strutil::lemma_join_push(views.take(i as int), views[i as int], ", "@);
        }
        if i > 0 {
            push_str(&mut r, ", ");
        }
        push_str(&mut r, docs[i].0.as_str());
        i = i + 1;
    }
    assert(views.take(docs@.len() as int) =~= views);
    r
}

fn user_plan_exec(scoped: &ScopedConfig, start_dir: &str) -> (r: DocPlan)
    ensures
        r.plan_view() == user_plan(*scoped, start_dir@),
{
    match &scoped.user {
        Some(u) => match &u.active {
            Some(a) => match find_doc(&u.documents, a.as_str()) {
                Some(i) => {
                    let p = &u.documents[i].1;
                    DocPlan::File {
                        path: owned(p.as_str()),
                        missing: named_msg("Active user document '", a.as_str(), p.as_str(), "' not found."),
                    }
                },
                None => DocPlan::Fail {
                    message: cat3("Active user document '", a.as_str(), "' not found in user config."),
                },
            },
            None => DocPlan::AutoDetect { missing: msg_nothing_exec(scoped.project.is_some(), start_dir) },
        },
        None => DocPlan::AutoDetect { missing: msg_nothing_exec(scoped.project.is_some(), start_dir) },
    }
}

fn config_plan_exec(scoped: &ScopedConfig, start_dir: &str) -> (r: DocPlan)
    ensures
        r.plan_view() == config_plan(*scoped, start_dir@),
{
    match &scoped.project {
        Some(p) => match &p.0.active {
            Some(a) => match find_doc(&p.0.documents, a.as_str()) {
                Some(i) => {
                    let rel = &p.0.documents[i].1;
                    let mut m = named_msg("Active document '", a.as_str(), rel.as_str(), "' not found (from ");
                    push_str(&mut m, p.1.as_str());
                    push_str(&mut m, ")");
                    DocPlan::File { path: resolve_relative(rel.as_str(), p.1.as_str()), missing: m }
                },
                None => DocPlan::Fail {
                    message: cat3("Active document '", a.as_str(), "' not found in project config."),
                },
            },
            None => {
                if p.0.documents.len() > 0 {
                    let mut m = owned("Project has documents configured but no active set.\nUse: phyll --set-doc <name>  (available: ");
                    let n = names_joined(&p.0.documents);
                    push_str(&mut m, n.as_str());
                    push_str(&mut m, ")");
                    DocPlan::Fail { message: m }
                } else {
                    user_plan_exec(scoped, start_dir)
                }
            },
        },
        None => user_plan_exec(scoped, start_dir),
    }
}

fn flag_plan_exec(doc: &str, scoped: &ScopedConfig, start_dir: &str) -> (r: DocPlan)
    ensures
        r.plan_view() == flag_plan(doc@, *scoped, start_dir@),
{
    match &scoped.project {
        Some(p) => match find_doc(&p.0.documents, doc) {
            Some(i) => {
                let rel = &p.0.documents[i].1;
                let mut m = named_msg("Named document '", doc, rel.as_str(), "' not found (from ");
                push_str(&mut m, p.1.as_str());
                push_str(&mut m, ")");
                return DocPlan::File { path: resolve_relative(rel.as_str(), p.1.as_str()), missing: m };
            },
            None => {},
        },
        None => {},
    }
    match &scoped.user {
        Some(u) => match find_doc(&u.documents, doc) {
            Some(i) => {
                let path = &u.documents[i].1;
                return DocPlan::File {
                    path: owned(path.as_str()),
                    missing: named_msg("Named document '", doc, path.as_str(), "' not found in user config"),
                };
            },
            None => {},
        },
        None => {},
    }
    DocPlan::File {
        path: resolve_relative(doc, start_dir),
        missing: cat3("Document '", doc, "' not found as a named document or file path."),
    }
}

/// Decides where the document is to be found: `doc_flag` is the `--doc`
/// argument, `env_doc` the value of `PHYLLOTAXIS_DOCUMENT` where it is set.
/// Whether a file is there, and what the start directory holds, is for the
/// caller to find out; each plan carries the error to give if not.
pub fn resolve_doc_path(
    doc_flag: Option<&str>,
    env_doc: Option<&str>,
    scoped: &ScopedConfig,
    start_dir: &str,
) -> (r: DocPlan)
    ensures
        r.plan_view() == spec_resolve_doc_path(
            match doc_flag { Some(d) => Some(d@), None => None },
            match env_doc { Some(e) => Some(e@), None => None },
            *scoped,
            start_dir@,
        ),
{
    match doc_flag {
        Some(doc) => flag_plan_exec(doc, scoped, start_dir),
        None => match env_doc {
            Some(e) => {
                if crate::strutil::char_count(e) > 0 {
                    DocPlan::File {
                        path: resolve_relative(e, start_dir),
                        missing: cat3("PHYLLOTAXIS_DOCUMENT='", e, "' was set but the file was not found."),
                    }
                } else {
                    config_plan_exec(scoped, start_dir)
                }
            },
            None => config_plan_exec(scoped, start_dir),
        },
    }
}

// ───────────────────────── JSON pointers ─────────────────────────

/// A pointer segment as a key: `~1` read as `/`, then `~0` as `~`.
pub open spec fn decode_segment(seg: Seq<char>) -> Seq<char> {
    replace_all(replace_all(seg, "~1"@, "/"@), "~0"@, "~"@)
}

/// The keys a pointer names: its pieces between `/` after the first,
/// decoded.
pub open spec fn pointer_keys(p: Seq<char>) -> Seq<Seq<char>> {
    split_on(p, "/"@).drop_first().map_values(|s: Seq<char>| decode_segment(s))
}

/// The member of that key, the first where several share it.
pub open spec fn member_lookup(ms: Seq<(String, JsonValue)>, k: Seq<char>) -> Option<JsonValue>
    decreases ms.len(),
{
    if ms.len() == 0 {
        None
    } else if ms[0].0@ == k {
        Some(ms[0].1)
    } else {
        member_lookup(ms.drop_first(), k)
    }
}

/// The value reached from `v` through the keys, each naming a member of
/// an object; `None` where a key is missing or a value on the way is no
/// object.
pub open spec fn walk(v: JsonValue, keys: Seq<Seq<char>>) -> Option<JsonValue>
    decreases keys.len(),
{
    if keys.len() == 0 {
        Some(v)
    } else {
        match v {
            JsonValue::Object(ms) => match member_lookup(ms@, keys[0]) {
                Some(c) => walk(c, keys.drop_first()),
                None => None,
            },
            _ => None,
        }
    }
}

/// What a JSON pointer names in a value: the value itself for the empty
/// pointer.
pub open spec fn pointer_get(v: JsonValue, p: Seq<char>) -> Option<JsonValue> {
    if p.len() == 0 { Some(v) } else { walk(v, pointer_keys(p)) }
}

fn find_member<'a>(ms: &'a Vec<(String, JsonValue)>, k: &str) -> (r: Option<&'a JsonValue>)
    ensures
        match r {
            Some(x) => member_lookup(ms@, k@) == Some(*x),
            None => member_lookup(ms@, k@) is None,
        },
{
    let mut i: usize = 0;
    assert(ms@.skip(0) =~= ms@);
    while i < ms.len()
        invariant
            i <= ms.len(),
            member_lookup(ms@, k@) == member_lookup(ms@.skip(i as int), k@),
        decreases ms.len() - i,
    {
        assert(ms@.skip(i as int)[0] == ms@[i as int]);
        if str_eq(ms[i].0.as_str(), k) {
            return Some(&ms[i].1);
        }
        assert(ms@.skip(i as int).drop_first() =~= ms@.skip(i + 1));
        i = i + 1;
    }
    None
}

/// Follows an RFC 6901 JSON pointer through a value.
pub fn json_pointer_get<'a>(value: &'a JsonValue, pointer: &str) -> (r: Option<&'a JsonValue>)
    ensures
        match r {
            Some(x) => pointer_get(*value, pointer@) == Some(*x),
            None => pointer_get(*value, pointer@) is None,
        },
{
    if to_chars(pointer).len() == 0 {
        return Some(value);
    }
    proof { reveal_strlit("/"); reveal_strlit("~1"); reveal_strlit("~0"); }
    let pieces = split_str(pointer, "/");
    let ghost keys = pointer_keys(pointer@);
    let mut current: &'a JsonValue = value;
    let mut i: usize = 1;
    assert(keys.len() == pieces@.len() - 1 || pieces@.len() == 0);
    assert(pieces@.len() > 0) by {
        assert(split_on(pointer@, "/"@).len() > 0) by {
            lemma_split_nonempty(pointer@, "/"@, 0, 0);
        }
    }
    assert(keys.skip(0) =~= keys);
    while i < pieces.len()
        invariant
            1 <= i <= pieces.len(),
            keys == pointer_keys(pointer@),
            keys.len() == pieces@.len() - 1,
            forall|j: int| 0 <= j < keys.len() ==> #[trigger] keys[j] == decode_segment(pieces@[j + 1]@),
            pointer_get(*value, pointer@) == walk(*current, keys.skip(i - 1)),
        decreases pieces.len() - i,
    {
        proof { reveal_strlit("~1"); reveal_strlit("~0"); }
        let a = replace_str(pieces[i].as_str(), "~1", "/");
        let key = replace_str(a.as_str(), "~0", "~");
        assert(key@ == keys[i - 1]);
        assert(keys.skip(i - 1)[0] == keys[i - 1]);
        assert(keys.skip(i - 1).drop_first() =~= keys.skip(i as int));
        match current {
            JsonValue::Object(ms) => match find_member(ms, key.as_str()) {
                Some(c) => {
                    current = c;
                },
                None => return None,
            },
            _ => return None,
        }
        i = i + 1;
    }
    assert(keys.skip(i - 1).len() == 0);
    Some(current)
}

proof fn lemma_split_nonempty(s: Seq<char>, sep: Seq<char>, start: int, i: int)
    requires
        sep.len() > 0,
        0 <= start <= i,
    ensures
        split_from(s, sep, start, i).len() > 0,
    decreases s.len() - i,
{
    if i + sep.len() > s.len() {
    } else if s.subrange(i, i + sep.len()) == sep {
        lemma_split_nonempty(s, sep, i + sep.len(), i + sep.len());
    } else {
        lemma_split_nonempty(s, sep, start, i + 1);
    }
}

// ───────────────────────── inlining referenced files ─────────────────────────

/// What to do at one node of a document while references to other files
/// are inlined.
#[derive(Debug)]
pub enum BundleStep {
    /// Not a `$ref` object: look into its members or items.
    Descend,
    /// A `$ref` left as it is: local, or to a file of another kind.
    Keep,
    /// A `$ref` (`reference`) to another YAML or JSON file: read `file` and
    /// put the part that `fragment` names in place of the node.
    Load { reference: String, file: String, fragment: Option<String> },
}

/// The text of a node's `$ref` member, where it is an object with one that
/// is a string.
pub open spec fn ref_text(v: JsonValue) -> Option<Seq<char>> {
    match v {
        JsonValue::Object(ms) => match member_lookup(ms@, "$ref"@) {
            Some(JsonValue::Str(r)) => Some(r@),
            _ => None,
        },
        _ => None,
    }
}

pub open spec fn opt_string_view(o: Option<String>) -> Option<Seq<char>> {
    match o {
        Some(s) => Some(s@),
        None => None,
    }
}

/// The step for a node: descend where it holds no string `$ref`; else
/// load the file of an external YAML or JSON reference, or keep it.
pub open spec fn step_is(s: BundleStep, v: JsonValue) -> bool {
    match ref_text(v) {
        None => s is Descend,
        Some(r) => match spec_external_ref_target(r) {
            None => s is Keep,
            Some(t) => s matches BundleStep::Load { reference, file, fragment }
                && reference@ == r && file@ == t.0 && opt_string_view(fragment) == t.1,
        },
    }
}

/// Decides what to do at a node while inlining references to other files.
pub fn bundle_step(node: &JsonValue) -> (r: BundleStep)
    ensures
        step_is(r, *node),
{
    proof { reveal_strlit("$ref"); }
    match node {
        JsonValue::Object(ms) => match find_member(ms, "$ref") {
            Some(JsonValue::Str(r)) => match external_ref_target(r.as_str()) {
                Some((file, fragment)) => BundleStep::Load { reference: owned(r.as_str()), file, fragment },
                None => BundleStep::Keep,
            },
            _ => BundleStep::Descend,
        },
        _ => BundleStep::Descend,
    }
}

/// What to do with a file about to be inlined.
#[derive(Debug)]
pub enum Revisit {
    /// It is not being inlined further up: read and inline it.
    Inline,
    /// It is (a cycle), and where it was first inlined is not known: keep
    /// the reference.
    Keep,
    /// It is (a cycle): put this local reference to where it was first
    /// inlined in place of the node.
    Replace(JsonValue),
}

/// A local reference to a pointer: `{"$ref": "#<pointer>"}`.
pub open spec fn local_ref_view(pointer: Seq<char>) -> JsonView {
    JsonView::Object(seq![("$ref"@, JsonView::Str("#"@ + pointer))])
}

/// The text of the files being inlined, as a sequence.
pub open spec fn path_texts(v: Seq<String>) -> Seq<Seq<char>> {
    v.map_values(|s: String| s@)
}

/// Decides what to do with the file `canonical`: inline it unless it is
/// among the files being inlined further up (`visited`); then refer to
/// where it was inlined (`locations`), where known.
pub fn revisit(visited: &Vec<String>, locations: &Vec<(String, String)>, canonical: &str) -> (r: Revisit)
    ensures
        !path_texts(visited@).contains(canonical@) ==> r is Inline,
        path_texts(visited@).contains(canonical@) ==> match doc_lookup(locations@, canonical@) {
            Some(p) => r matches Revisit::Replace(v) && jview(v) == local_ref_view(p),
            None => r is Keep,
        },
{
    let mut i: usize = 0;
    let mut seen = false;
    while i < visited.len()
        invariant
            i <= visited.len(),
            seen <==> exists|k: int| 0 <= k < i && (#[trigger] visited@[k])@ == canonical@,
        decreases visited.len() - i,
    {
        if str_eq(visited[i].as_str(), canonical) {
            seen = true;
        }
        i = i + 1;
    }
    proof {
        if seen {
            let k = choose|k: int| 0 <= k < visited@.len() && (#[trigger] visited@[k])@ == canonical@;
            assert(path_texts(visited@)[k] == canonical@);
        }
        if path_texts(visited@).contains(canonical@) {
            let k = choose|k: int| 0 <= k < path_texts(visited@).len() && path_texts(visited@)[k] == canonical@;
            assert(visited@[k]@ == canonical@);
        }
    }
    if !seen {
        return Revisit::Inline;
    }
    match find_doc(locations, canonical) {
        Some(j) => {
            let mut target = owned("#");
            push_str(&mut target, locations[j].1.as_str());
            let key = owned("$ref");
            let mut ms: Vec<(String, JsonValue)> = Vec::new();
            ms.push((key, JsonValue::Str(target)));
            let v = JsonValue::Object(ms);
            proof {
                reveal_strlit("$ref");
                reveal_strlit("#");
                let p = locations@[j as int].1@;
                assert(target@ == "#"@ + p);
                assert(ms@.len() == 1);
                assert(ms@.subrange(0, 0) =~= Seq::<(String, JsonValue)>::empty());
                assert(jmembers(ms@.subrange(0, 0)) =~= Seq::<(Seq<char>, JsonView)>::empty());
                assert(jview(ms@[0].1) == JsonView::Str("#"@ + p));
                assert(jmembers(ms@) =~= seq![("$ref"@, JsonView::Str("#"@ + p))]);
                assert(jview(v) == local_ref_view(p));
            }
            Revisit::Replace(v)
        },
        None => Revisit::Keep,
    }
}

/// Records where a file is inlined: `pointer` for `canonical`, the other
/// files' places unchanged.
pub fn record_location(locations: &mut Vec<(String, String)>, canonical: &str, pointer: &str)
    ensures
        doc_lookup(final(locations)@, canonical@) == Some(pointer@),
        forall|k: Seq<char>| k != canonical@ ==> doc_lookup(final(locations)@, k) == doc_lookup(old(locations)@, k),
{
    locations.insert(0, (owned(canonical), owned(pointer)));
    assert(locations@.drop_first() =~= old(locations)@);
}

/// The pointer of a member or item below the node at `current`.
pub fn child_pointer(current: &str, key: &str) -> (r: String)
    ensures
        r@ == current@ + "/"@ + key@,
{
    let mut r = owned(current);
    push_str(&mut r, "/");
    push_str(&mut r, key);
    proof { reveal_strlit("/"); }
    r
}

/// The part of a referenced file put in place of a `$ref`: the whole file,
/// or what the fragment's pointer names in it (`None` where it names
/// nothing).
pub fn inline_part(external: JsonValue, fragment: &Option<String>) -> (r: Option<JsonValue>)
    ensures
        match fragment {
            None => r == Some(external),
            Some(f) => match pointer_get(external, f@) {
                Some(x) => r matches Some(y) && jview(y) == jview(x),
                None => r is None,
            },
        },
{
    match fragment {
        None => Some(external),
        Some(f) => match json_pointer_get(&external, f.as_str()) {
            Some(x) => Some(clone_json(x)),
            None => None,
        },
    }
}

} // verus!
