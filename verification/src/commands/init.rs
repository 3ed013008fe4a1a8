//! Document configuration: listing the configured documents, deriving a
//! nickname, and recognizing documentation frameworks.
use vstd::prelude::*;
use crate::strutil::{pad_right, push_padded, push_str};
use crate::render::sanitize::{only_if, owned, str_eq};
use crate::render::schema::{lemma_lex_asymmetric, lemma_lex_irreflexive, lemma_lex_total,
    lemma_lex_transitive, lex_lt, name_less};
use crate::document::{Config, ScopedConfig, project_config_path, spec_project_config_path};

verus! {

// ───────────────────────── documents in name order ─────────────────────────

/// The (nickname, path) pairs of a list of documents, as text.
pub open spec fn pairs_view(v: Seq<(String, String)>) -> Seq<(Seq<char>, Seq<char>)> {
    v.map_values(|p: (String, String)| (p.0@, p.1@))
}

/// No nickname occurs twice (what a map guarantees).
pub open spec fn keys_unique(ps: Seq<(Seq<char>, Seq<char>)>) -> bool {
    forall|i: int, j: int| 0 <= i < j < ps.len() ==> (#[trigger] ps[i]).0 != (#[trigger] ps[j]).0
}

/// Each nickname comes before the ones after it.
pub open spec fn sorted_by_key(ps: Seq<(Seq<char>, Seq<char>)>) -> bool {
    forall|i: int, j: int| 0 <= i < j < ps.len() ==> lex_lt((#[trigger] ps[i]).0, (#[trigger] ps[j]).0)
}

/// The documents in nickname order.
pub open spec fn sorted_docs(ps: Seq<(Seq<char>, Seq<char>)>) -> Seq<(Seq<char>, Seq<char>)> {
    choose|s: Seq<(Seq<char>, Seq<char>)>| sorted_by_key(s) && s.to_set() == ps.to_set()
}

/// Two lists of the same documents, both in nickname order, are the same.
pub proof fn lemma_sorted_docs_unique(a: Seq<(Seq<char>, Seq<char>)>, b: Seq<(Seq<char>, Seq<char>)>)
    requires
        sorted_by_key(a),
        sorted_by_key(b),
        a.to_set() == b.to_set(),
    ensures
        a == b,
    decreases a.len(),
{
    if a.len() == 0 {
        if b.len() > 0 {
            assert(b.to_set().contains(b[0]));
        }
        assert(a =~= b);
    } else {
        assert(a.to_set().contains(a[0]));
        if b.len() == 0 {
            assert(false);
        }
        assert(b.to_set().contains(a[0]));
        assert(a.to_set().contains(b[0]));
        let j = choose|j: int| 0 <= j < b.len() && b[j] == a[0];
        let i = choose|i: int| 0 <= i < a.len() && a[i] == b[0];
        if a[0] != b[0] {
            assert(i > 0 && j > 0);
            assert(lex_lt(a[0].0, a[i].0));
            assert(lex_lt(b[0].0, b[j].0));
            lemma_lex_asymmetric(a[0].0, b[0].0);
        }
        let ta = a.drop_first();
        let tb = b.drop_first();
        assert forall|x: (Seq<char>, Seq<char>)| ta.to_set().contains(x) <==> tb.to_set().contains(x) by {
            if ta.to_set().contains(x) {
                let k = choose|k: int| 0 <= k < ta.len() && ta[k] == x;
                assert(a[k + 1] == x);
                assert(lex_lt(a[0].0, x.0));
                lemma_lex_irreflexive(x.0);
                assert(a.to_set().contains(x));
                assert(b.to_set().contains(x));
                let m = choose|m: int| 0 <= m < b.len() && b[m] == x;
                assert(m != 0);
                assert(tb[m - 1] == x);
            }
            if tb.to_set().contains(x) {
                let k = choose|k: int| 0 <= k < tb.len() && tb[k] == x;
                assert(b[k + 1] == x);
                assert(lex_lt(b[0].0, x.0));
                lemma_lex_irreflexive(x.0);
                assert(b.to_set().contains(x));
                assert(a.to_set().contains(x));
                let m = choose|m: int| 0 <= m < a.len() && a[m] == x;
                assert(m != 0);
                assert(ta[m - 1] == x);
            }
        }
        assert(ta.to_set() =~= tb.to_set());
        lemma_sorted_docs_unique(ta, tb);
        assert(a =~= seq![a[0]] + ta);
        assert(b =~= seq![b[0]] + tb);
    }
}

/// Inserts a document whose nickname is not in the list yet, keeping
/// nickname order.
fn insert_doc(v: &mut Vec<(String, String)>, k: &str, p: &str)
    requires
        sorted_by_key(pairs_view(old(v)@)),
        forall|i: int| 0 <= i < old(v)@.len() ==> (#[trigger] old(v)@[i]).0@ != k@,
    ensures
        sorted_by_key(pairs_view(final(v)@)),
        pairs_view(final(v)@).to_set() == pairs_view(old(v)@).to_set().insert((k@, p@)),
        final(v)@.len() == old(v)@.len() + 1,
{
    let ghost ov = pairs_view(v@);
    let mut q: usize = 0;
    while q < v.len() && name_less(v[q].0.as_str(), k)
        invariant
            q <= v.len(),
            v@ == old(v)@,
            ov == pairs_view(v@),
            forall|t: int| 0 <= t < q ==> lex_lt((#[trigger] ov[t]).0, k@),
        decreases v.len() - q,
    {
        q = q + 1;
    }
    proof {
        if q < v.len() {
            assert(ov[q as int].0 == v@[q as int].0@);
            lemma_lex_total(ov[q as int].0, k@);
        }
    }
    v.insert(q, (owned(k), owned(p)));
    proof {
        let nv = pairs_view(v@);
        let x = (k@, p@);
        assert(nv =~= ov.insert(q as int, x));
        assert forall|i: int, j: int| 0 <= i < j < nv.len() implies lex_lt((#[trigger] nv[i]).0, (#[trigger] nv[j]).0) by {
            if j < q {
                assert(nv[i] == ov[i] && nv[j] == ov[j]);
            } else if j == q {
                assert(nv[i] == ov[i]);
            } else if i == q {
                assert(nv[j] == ov[j - 1]);
                if j - 1 > q {
                    assert(lex_lt(ov[q as int].0, ov[j - 1].0));
                    lemma_lex_transitive(k@, ov[q as int].0, ov[j - 1].0);
                }
            } else if i < q {
                assert(nv[i] == ov[i] && nv[j] == ov[j - 1]);
                lemma_lex_transitive(ov[i].0, k@, ov[q as int].0);
                if j - 1 > q {
                    lemma_lex_transitive(ov[i].0, ov[q as int].0, ov[j - 1].0);
                }
            } else {
                assert(nv[i] == ov[i - 1] && nv[j] == ov[j - 1]);
            }
        }
        assert(nv.to_set() =~= ov.to_set().insert(x)) by {
            assert forall|y: (Seq<char>, Seq<char>)| nv.to_set().contains(y) <==> ov.to_set().insert(x).contains(y) by {
                if nv.to_set().contains(y) {
                    let t = choose|t: int| 0 <= t < nv.len() && nv[t] == y;
                    if t < q {
                        assert(ov[t] == y);
                    } else if t > q {
                        assert(ov[t - 1] == y);
                    }
                }
                if ov.to_set().contains(y) {
                    let t = choose|t: int| 0 <= t < ov.len() && ov[t] == y;
                    if t < q {
                        assert(nv[t] == y);
                    } else {
                        assert(nv[t + 1] == y);
                    }
                }
                if y == x {
                    assert(nv[q as int] == y);
                }
            }
        }
    }
}

/// The documents in nickname order.
pub fn sort_docs(docs: &Vec<(String, String)>) -> (r: Vec<(String, String)>)
    requires
        keys_unique(pairs_view(docs@)),
    ensures
        pairs_view(r@) == sorted_docs(pairs_view(docs@)),
        r@.len() == docs@.len(),
{
    let ghost dv = pairs_view(docs@);
    let mut r: Vec<(String, String)> = Vec::new();
    let mut i: usize = 0;
    assert(pairs_view(r@).to_set() =~= dv.take(0).to_set());
    while i < docs.len()
        invariant
            i <= docs.len(),
            dv == pairs_view(docs@),
            keys_unique(dv),
            r@.len() == i,
            sorted_by_key(pairs_view(r@)),
            pairs_view(r@).to_set() == dv.take(i as int).to_set(),
        decreases docs.len() - i,
    {
        proof {
            assert forall|t: int| 0 <= t < r@.len() implies (#[trigger] r@[t]).0@ != docs@[i as int].0@ by {
                let rv = pairs_view(r@);
                assert(rv.to_set().contains(rv[t]));
                let u = choose|u: int| 0 <= u < i && dv.take(i as int)[u] == rv[t];
                assert(dv[u] == rv[t]);
                assert(dv[u].0 != dv[i as int].0);
            }
        }
        insert_doc(&mut r, docs[i].0.as_str(), docs[i].1.as_str());
        proof {
            assert(dv.take(i + 1) =~= dv.take(i as int).push(dv[i as int]));
            dv.take(i as int).lemma_push_to_set_commute(dv[i as int]);
        }
        i = i + 1;
    }
    proof {
        assert(dv.take(docs@.len() as int) =~= dv);
        lemma_sorted_docs_unique(pairs_view(r@), sorted_docs(dv));
    }
    r
}


// ───────────────────────── listing documents ─────────────────────────

/// The configuration file as written by init and the commands that change
/// it.
#[derive(Debug)]
pub struct PhyllotaxisConfig {
    pub active: Option<String>,
    pub documents: Vec<(String, String)>,
    pub variables: Option<Vec<(String, String)>>,
}

impl Default for PhyllotaxisConfig {
    fn default() -> (r: Self)
        ensures
            r.active is None,
            r.documents@.len() == 0,
            r.variables is None,
    {
        PhyllotaxisConfig { active: None, documents: Vec::new(), variables: None }
    }
}

pub open spec fn opt_view(o: Option<String>) -> Option<Seq<char>> {
    match o {
        Some(s) => Some(s@),
        None => None,
    }
}

pub open spec fn doc_line(p: (Seq<char>, Seq<char>), active: Option<Seq<char>>) -> Seq<char> {
    "    "@ + pad_right(p.0, 16) + " "@ + p.1 + only_if(active == Some(p.0), "  (active)"@) + "\n"@
}

/// One scope's section: its label, then each document in nickname order,
/// the active one marked.
pub open spec fn spec_list_docs_section(label: Seq<char>, c: PhyllotaxisConfig) -> Seq<char> {
    "  "@ + label + ":\n"@ + if c.documents@.len() == 0 {
        "    (none)\n"@
    } else {
        crate::strutil::concat_map(sorted_docs(pairs_view(c.documents@)),
            |p: (Seq<char>, Seq<char>)| doc_line(p, opt_view(c.active)))
    }
}

fn is_active(active: &Option<String>, name: &str) -> (r: bool)
    ensures
        r == (opt_view(*active) == Some(name@)),
{
    match active {
        Some(a) => str_eq(a.as_str(), name),
        None => false,
    }
}

/// Formats one scope's section of the document list.
pub fn format_list_docs_section(label: &str, config: &PhyllotaxisConfig, _is_tty: bool) -> (r: String)
    requires
        keys_unique(pairs_view(config.documents@)),
    ensures
        r@ == spec_list_docs_section(label@, *config),
{
    let mut out = owned("  ");
    push_str(&mut out, label);
    push_str(&mut out, ":\n");
    if config.documents.len() == 0 {
        push_str(&mut out, "    (none)\n");
        return out;
    }
    let sorted = sort_docs(&config.documents);
    let ghost sv = sorted_docs(pairs_view(config.documents@));
    let ghost start = out@;
    let mut i: usize = 0;
    while i < sorted.len()
        invariant
            i <= sorted.len(),
            pairs_view(sorted@) == sv,
            out@ == start + crate::strutil::concat_map(sv.take(i as int),
                |p: (Seq<char>, Seq<char>)| doc_line(p, opt_view(config.active))),
        decreases sorted.len() - i,
    {
        proof {
            crate::strutil::lemma_concat_map_take(sv, i as int,
                |p: (Seq<char>, Seq<char>)| doc_line(p, opt_view(config.active)));
        }
        let mut line = owned("    ");
        push_padded(&mut line, sorted[i].0.as_str(), 16);
        push_str(&mut line, " ");
        push_str(&mut line, sorted[i].1.as_str());
        if is_active(&config.active, sorted[i].0.as_str()) {
            push_str(&mut line, "  (active)");
        }
        push_str(&mut line, "\n");
        assert(line@ =~= doc_line(sv[i as int], opt_view(config.active)));
        push_str(&mut out, line.as_str());
        i = i + 1;
    }
    assert(sv.take(sv.len() as int) =~= sv);
    out
}

fn copy_opt(o: &Option<String>) -> (r: Option<String>)
    ensures
        opt_view(r) == opt_view(*o),
{
    match o {
        Some(s) => Some(owned(s.as_str())),
        None => None,
    }
}

fn copy_pairs(v: &Vec<(String, String)>) -> (r: Vec<(String, String)>)
    ensures
        pairs_view(r@) == pairs_view(v@),
{
    let mut r: Vec<(String, String)> = Vec::new();
    let mut i: usize = 0;
    while i < v.len()
        invariant
            i <= v.len(),
            pairs_view(r@) == pairs_view(v@).take(i as int),
        decreases v.len() - i,
    {
        let a = owned(v[i].0.as_str());
        let b = owned(v[i].1.as_str());
        let ghost before = r@;
        r.push((a, b));
        proof {
            assert(r@ == before.push((a, b)));
            assert(pairs_view(r@) =~= pairs_view(before).push((v@[i as int].0@, v@[i as int].1@)));
            assert(pairs_view(v@).take(i + 1) =~= pairs_view(v@).take(i as int).push((v@[i as int].0@, v@[i as int].1@)));
        }
        i = i + 1;
    }
    assert(pairs_view(v@).take(v@.len() as int) =~= pairs_view(v@));
    r
}

pub open spec fn opt_pairs_view(o: Option<Vec<(String, String)>>) -> Option<Seq<(Seq<char>, Seq<char>)>> {
    match o {
        Some(v) => Some(pairs_view(v@)),
        None => None,
    }
}

/// The configuration as the document list shows it.
pub fn to_display_config(cfg: &Config) -> (r: PhyllotaxisConfig)
    ensures
        opt_view(r.active) == opt_view(cfg.active),
        pairs_view(r.documents@) == pairs_view(cfg.documents@),
        opt_pairs_view(r.variables) == opt_pairs_view(cfg.variables),
{
    let variables = match &cfg.variables {
        Some(v) => Some(copy_pairs(v)),
        None => None,
    };
    PhyllotaxisConfig { active: copy_opt(&cfg.active), documents: copy_pairs(&cfg.documents), variables }
}

// ───────────────────────── the document list as data ─────────────────────────

#[derive(Debug)]
pub struct DocEntry {
    pub name: String,
    pub path: String,
    pub active: bool,
}

#[derive(Debug)]
pub struct ScopeJson {
    pub config_path: String,
    pub active: Option<String>,
    pub documents: Vec<DocEntry>,
}

#[derive(Debug)]
pub struct ListDocsJson {
    pub project: Option<ScopeJson>,
    pub user: Option<ScopeJson>,
}

pub open spec fn entries_view(v: Seq<DocEntry>) -> Seq<(Seq<char>, Seq<char>, bool)> {
    v.map_values(|e: DocEntry| (e.name@, e.path@, e.active))
}

/// The documents of a configuration in nickname order, each marked active
/// or not.
pub open spec fn scope_entries(c: Config) -> Seq<(Seq<char>, Seq<char>, bool)> {
    sorted_docs(pairs_view(c.documents@)).map_values(
        |p: (Seq<char>, Seq<char>)| (p.0, p.1, opt_view(c.active) == Some(p.0)))
}

pub open spec fn scope_matches(s: ScopeJson, c: Config, path: Seq<char>) -> bool {
    &&& s.config_path@ == path
    &&& opt_view(s.active) == opt_view(c.active)
    &&& entries_view(s.documents@) == scope_entries(c)
}

fn scope_json(cfg: &Config, config_path: String) -> (r: ScopeJson)
    requires
        keys_unique(pairs_view(cfg.documents@)),
    ensures
        scope_matches(r, *cfg, config_path@),
{
    let sorted = sort_docs(&cfg.documents);
    let ghost sv = sorted_docs(pairs_view(cfg.documents@));
    let mut documents: Vec<DocEntry> = Vec::new();
    let mut i: usize = 0;
    while i < sorted.len()
        invariant
            i <= sorted.len(),
            pairs_view(sorted@) == sv,
            entries_view(documents@) == sv.take(i as int).map_values(
                |p: (Seq<char>, Seq<char>)| (p.0, p.1, opt_view(cfg.active) == Some(p.0))),
        decreases sorted.len() - i,
    {
        let active = is_active(&cfg.active, sorted[i].0.as_str());
        let e = DocEntry {
            name: owned(sorted[i].0.as_str()),
            path: owned(sorted[i].1.as_str()),
            active,
        };
        let ghost before = documents@;
        documents.push(e);
        proof {
            let f = |p: (Seq<char>, Seq<char>)| (p.0, p.1, opt_view(cfg.active) == Some(p.0));
            assert(sv[i as int] == (sorted@[i as int].0@, sorted@[i as int].1@));
            assert(entries_view(documents@) =~= entries_view(before).push((e.name@, e.path@, e.active)));
            assert(sv.take(i + 1).map_values(f) =~= sv.take(i as int).map_values(f).push(f(sv[i as int])));
        }
        i = i + 1;
    }
    assert(sv.take(sv.len() as int) =~= sv);
    ScopeJson { config_path, active: copy_opt(&cfg.active), documents }
}

/// The document list of both scopes as data. `user_config_path` is where
/// the user configuration lives, where a home directory is known.
pub fn build_list_docs_json(scoped: &ScopedConfig, user_config_path: Option<&str>) -> (r: ListDocsJson)
    requires
        match scoped.project {
            Some(p) => keys_unique(pairs_view(p.0.documents@)),
            None => true,
        },
        match scoped.user {
            Some(u) => keys_unique(pairs_view(u.documents@)),
            None => true,
        },
    ensures
        match scoped.project {
            Some(p) => r.project matches Some(s) && scope_matches(s, p.0, spec_project_config_path(p.1@)),
            None => r.project is None,
        },
        match scoped.user {
            Some(u) => r.user matches Some(s) && scope_matches(s, u, match user_config_path {
                Some(x) => x@,
                None => "~/.config/phyllotaxis/config.yaml"@,
            }),
            None => r.user is None,
        },
{
    let project = match &scoped.project {
        Some(p) => Some(scope_json(&p.0, project_config_path(p.1.as_str()))),
        None => None,
    };
    let user = match &scoped.user {
        Some(u) => {
            let path = match user_config_path {
                Some(x) => owned(x),
                None => owned("~/.config/phyllotaxis/config.yaml"),
            };
            Some(scope_json(u, path))
        },
        None => None,
    };
    ListDocsJson { project, user }
}

// ───────────────────────── nicknames and frameworks ─────────────────────────

/// What `Path::file_stem` gives for a path: the file name without its last
/// extension.
pub uninterp spec fn file_stem_of(p: Seq<char>) -> Option<Seq<char>>;

/// `Path::file_stem`, on a path held as text.
#[verifier::external_body]
fn path_file_stem(p: &str) -> (r: Option<String>)
    ensures
        opt_view(r) == file_stem_of(p@),
{
    match std::path::Path::new(p).file_stem() {
        Some(s) => match s.to_str() {
            Some(t) => Some(t.to_string()),
            None => None,
        },
        None => None,
    }
}

pub open spec fn spec_resolve_nickname(name: Option<Seq<char>>, path: Seq<char>) -> Result<Seq<char>, Seq<char>> {
    match name {
        Some(n) => if n.len() == 0 {
            Err("Document name cannot be empty."@)
        } else {
            Ok(n)
        },
        None => match file_stem_of(path) {
            Some(s) => Ok(s),
            None => Err("Cannot derive nickname from path: "@ + path),
        },
    }
}

/// The nickname of a document: the name given, or the file stem of its
/// path.
pub fn resolve_nickname(name: Option<&str>, path_str: &str) -> (r: Result<String, String>)
    ensures
        match r {
            Ok(s) => spec_resolve_nickname(match name { Some(n) => Some(n@), None => None }, path_str@) == Ok::<Seq<char>, Seq<char>>(s@),
            Err(e) => spec_resolve_nickname(match name { Some(n) => Some(n@), None => None }, path_str@) == Err::<Seq<char>, Seq<char>>(e@),
        },
{
    match name {
        Some(n) => {
            if crate::strutil::char_count(n) == 0 {
                Err(owned("Document name cannot be empty."))
            } else {
                Ok(owned(n))
            }
        },
        None => match path_file_stem(path_str) {
            Some(s) => Ok(s),
            None => {
                let mut e = owned("Cannot derive nickname from path: ");
                push_str(&mut e, path_str);
                Err(e)
            },
        },
    }
}

/// The configuration file that a command changes: the project's unless
/// the user scope is asked for or there is no project.
pub fn target_config_path(project_root: Option<&str>, user_scope: bool, user_config_path: Option<&str>) -> (r: Result<String, String>)
    ensures
        match project_root {
            Some(root) if !user_scope => r matches Ok(p) && p@ == spec_project_config_path(root@),
            _ => match user_config_path {
                Some(u) => r matches Ok(p) && p@ == u@,
                None => r matches Err(e) && e@ == "Cannot determine home directory for user config"@,
            },
        },
{
    match project_root {
        Some(root) if !user_scope => Ok(project_config_path(root)),
        _ => match user_config_path {
            Some(u) => Ok(owned(u)),
            None => Err(owned("Cannot determine home directory for user config")),
        },
    }
}

pub open spec fn has_file(present: Seq<String>, name: Seq<char>) -> bool {
    exists|i: int| 0 <= i < present.len() && (#[trigger] present[i])@ == name
}

/// The documentation framework of a directory, by the first framework (in
/// a fixed order) one of whose signature files is present.
pub open spec fn spec_detect_framework(present: Seq<String>) -> Option<Seq<char>> {
    if has_file(present, "astro.config.mjs"@) || has_file(present, "astro.config.ts"@) {
        Some("Astro"@)
    } else if has_file(present, "docusaurus.config.js"@) || has_file(present, "docusaurus.config.ts"@) {
        Some("Docusaurus"@)
    } else if has_file(present, "hugo.toml"@) || has_file(present, "hugo.yaml"@) || has_file(present, "config.toml"@) {
        Some("Hugo"@)
    } else if has_file(present, "_config.yml"@) || has_file(present, "_config.yaml"@) {
        Some("Jekyll"@)
    } else if has_file(present, "mkdocs.yml"@) || has_file(present, "mkdocs.yaml"@) {
        Some("MkDocs"@)
    } else {
        None
    }
}

fn present_has(present: &Vec<String>, name: &str) -> (r: bool)
    ensures
        r == has_file(present@, name@),
{
    let mut i: usize = 0;
    while i < present.len()
        invariant
            i <= present.len(),
            forall|k: int| 0 <= k < i ==> (#[trigger] present@[k])@ != name@,
        decreases present.len() - i,
    {
        if str_eq(present[i].as_str(), name) {
            return true;
        }
        i = i + 1;
    }
    false
}

/// The signature files of the known frameworks, in the order they are
/// tried.
pub fn framework_signature_files() -> (r: Vec<&'static str>)
    ensures
        r@ == seq!["astro.config.mjs", "astro.config.ts", "docusaurus.config.js", "docusaurus.config.ts",
            "hugo.toml", "hugo.yaml", "config.toml", "_config.yml", "_config.yaml", "mkdocs.yml",
            "mkdocs.yaml"],
{
    let mut v: Vec<&'static str> = Vec::new();
    v.push("astro.config.mjs");
    v.push("astro.config.ts");
    v.push("docusaurus.config.js");
    v.push("docusaurus.config.ts");
    v.push("hugo.toml");
    v.push("hugo.yaml");
    v.push("config.toml");
    v.push("_config.yml");
    v.push("_config.yaml");
    v.push("mkdocs.yml");
    v.push("mkdocs.yaml");
    assert(v@ =~= seq!["astro.config.mjs", "astro.config.ts", "docusaurus.config.js", "docusaurus.config.ts",
        "hugo.toml", "hugo.yaml", "config.toml", "_config.yml", "_config.yaml", "mkdocs.yml",
        "mkdocs.yaml"]);
    v
}

/// The documentation framework whose signature files are among `present`
/// (the files that exist in the directory).
pub fn detect_framework(present: &Vec<String>) -> (r: Option<&'static str>)
    ensures
        match r {
            Some(n) => spec_detect_framework(present@) == Some(n@),
            None => spec_detect_framework(present@) is None,
        },
{
    if present_has(present, "astro.config.mjs") || present_has(present, "astro.config.ts") {
        Some("Astro")
    } else if present_has(present, "docusaurus.config.js") || present_has(present, "docusaurus.config.ts") {
        Some("Docusaurus")
    } else if present_has(present, "hugo.toml") || present_has(present, "hugo.yaml") || present_has(present, "config.toml") {
        Some("Hugo")
    } else if present_has(present, "_config.yml") || present_has(present, "_config.yaml") {
        Some("Jekyll")
    } else if present_has(present, "mkdocs.yml") || present_has(present, "mkdocs.yaml") {
        Some("MkDocs")
    } else {
        None
    }
}

/// The directories, under the project root, where a framework keeps its
/// documents.
pub open spec fn spec_framework_dirs(name: Seq<char>) -> Seq<Seq<char>> {
    if name == "Astro"@ {
        seq!["src/content"@]
    } else if name == "Docusaurus"@ || name == "Hugo"@ {
        seq!["static"@]
    } else if name == "Jekyll"@ {
        seq!["assets"@]
    } else if name == "MkDocs"@ {
        seq!["docs"@]
    } else {
        Seq::empty()
    }
}

/// The directories searched first for documents under a framework's
/// project (none for a name that is not a known framework).
pub fn framework_spec_dirs(name: &str) -> (r: Vec<&'static str>)
    ensures
        r@.len() == spec_framework_dirs(name@).len(),
        forall|i: int| 0 <= i < r@.len() ==> (#[trigger] r@[i])@ == spec_framework_dirs(name@)[i],
{
    let mut v: Vec<&'static str> = Vec::new();
    if str_eq(name, "Astro") {
        v.push("src/content");
    } else if str_eq(name, "Docusaurus") || str_eq(name, "Hugo") {
        v.push("static");
    } else if str_eq(name, "Jekyll") {
        v.push("assets");
    } else if str_eq(name, "MkDocs") {
        v.push("docs");
    }
    v
}

// ───────────────────────── changing the configured documents ─────────────────────────

/// Some document has that nickname.
pub open spec fn has_key(ps: Seq<(Seq<char>, Seq<char>)>, k: Seq<char>) -> bool {
    exists|i: int| 0 <= i < ps.len() && (#[trigger] ps[i]).0 == k
}

/// The documents without the one of that nickname.
pub open spec fn remove_key(ps: Seq<(Seq<char>, Seq<char>)>, k: Seq<char>) -> Seq<(Seq<char>, Seq<char>)>
    decreases ps.len(),
{
    if ps.len() == 0 {
        seq![]
    } else if ps.last().0 == k {
        remove_key(ps.drop_last(), k)
    } else {
        remove_key(ps.drop_last(), k).push(ps.last())
    }
}

/// Whether a document of that nickname is configured.
pub fn has_document(config: &PhyllotaxisConfig, name: &str) -> (r: bool)
    ensures
        r == has_key(pairs_view(config.documents@), name@),
{
    let ghost pv = pairs_view(config.documents@);
    let mut i: usize = 0;
    while i < config.documents.len()
        invariant
            i <= config.documents.len(),
            pv == pairs_view(config.documents@),
            forall|j: int| 0 <= j < i ==> (#[trigger] pv[j]).0 != name@,
        decreases config.documents.len() - i,
    {
        if str_eq(config.documents[i].0.as_str(), name) {
            assert(pv[i as int].0 == name@);
            return true;
        }
        i = i + 1;
    }
    false
}

/// Adds a document under a new nickname, not making it active and leaving
/// the variables as they are; an error where the nickname is taken, the
/// configuration then unchanged.
pub fn add_document(config: &mut PhyllotaxisConfig, nickname: &str, stored: &str) -> (r: Result<(), String>)
    ensures
        final(config).active == old(config).active,
        final(config).variables == old(config).variables,
        match r {
            Ok(()) => !has_key(pairs_view(old(config).documents@), nickname@)
                && pairs_view(final(config).documents@) == pairs_view(old(config).documents@).push((nickname@, stored@)),
            Err(e) => has_key(pairs_view(old(config).documents@), nickname@)
                && pairs_view(final(config).documents@) == pairs_view(old(config).documents@)
                && e@ == "Document '"@ + nickname@ + "' already exists. Use --remove-doc "@ + nickname@
                    + " first, or choose a different --name."@,
        },
{
    if has_document(config, nickname) {
        let mut e = owned("Document '");
        push_str(&mut e, nickname);
        push_str(&mut e, "' already exists. Use --remove-doc ");
        push_str(&mut e, nickname);
        push_str(&mut e, " first, or choose a different --name.");
        return Err(e);
    }
    let ghost before = pairs_view(config.documents@);
    config.documents.push((owned(nickname), owned(stored)));
    assert(pairs_view(config.documents@) =~= before.push((nickname@, stored@)));
    Ok(())
}

/// Removes the document of that nickname, and the active setting where it
/// names it; an error where there is none, the configuration then
/// unchanged.
pub fn remove_document(config: &mut PhyllotaxisConfig, name: &str) -> (r: Result<(), String>)
    ensures
        final(config).variables == old(config).variables,
        match r {
            Ok(()) => has_key(pairs_view(old(config).documents@), name@)
                && pairs_view(final(config).documents@) == remove_key(pairs_view(old(config).documents@), name@)
                && opt_view(final(config).active) == (if opt_view(old(config).active) == Some(name@) {
                    None
                } else {
                    opt_view(old(config).active)
                }),
            Err(e) => !has_key(pairs_view(old(config).documents@), name@)
                && pairs_view(final(config).documents@) == pairs_view(old(config).documents@)
                && final(config).active == old(config).active
                && e@ == "Document '"@ + name@ + "' not found in config."@,
        },
{
    if !has_document(config, name) {
        let mut e = owned("Document '");
        push_str(&mut e, name);
        push_str(&mut e, "' not found in config.");
        return Err(e);
    }
    let ghost pv = pairs_view(config.documents@);
    let mut kept: Vec<(String, String)> = Vec::new();
    let mut i: usize = 0;
    assert(pv.take(0) =~= Seq::<(Seq<char>, Seq<char>)>::empty());
    while i < config.documents.len()
        invariant
            i <= config.documents.len(),
            pv == pairs_view(config.documents@),
            pairs_view(kept@) == remove_key(pv.take(i as int), name@),
        decreases config.documents.len() - i,
    {
        proof {
            assert(pv.take(i + 1).drop_last() =~= pv.take(i as int));
            assert(pv.take(i + 1).last() == pv[i as int]);
        }
        if !str_eq(config.documents[i].0.as_str(), name) {
            let ghost b = pairs_view(kept@);
            kept.push((owned(config.documents[i].0.as_str()), owned(config.documents[i].1.as_str())));
            assert(pairs_view(kept@) =~= b.push(pv[i as int]));
        }
        i = i + 1;
    }
    assert(pv.take(pv.len() as int) =~= pv);
    let clear = match &config.active {
        Some(a) => str_eq(a.as_str(), name),
        None => false,
    };
    if clear {
        config.active = None;
    }
    config.documents = kept;
    Ok(())
}

/// Removing a document just added gives back the documents there were.
pub proof fn lemma_add_then_remove(ps: Seq<(Seq<char>, Seq<char>)>, k: Seq<char>, p: Seq<char>)
    requires
        !has_key(ps, k),
    ensures
        remove_key(ps.push((k, p)), k) == ps,
{
    assert(ps.push((k, p)).drop_last() =~= ps);
    lemma_remove_absent(ps, k);
}

proof fn lemma_has_key_drop_last(ps: Seq<(Seq<char>, Seq<char>)>, x: Seq<char>)
    requires
        ps.len() > 0,
        has_key(ps.drop_last(), x),
    ensures
        has_key(ps, x),
{
    let d = ps.drop_last();
    let i = choose|i: int| 0 <= i < d.len() && (#[trigger] d[i]).0 == x;
    assert(ps[i] == d[i]);
}

proof fn lemma_remove_key_keys(ps: Seq<(Seq<char>, Seq<char>)>, k: Seq<char>)
    requires
        keys_unique(ps),
    ensures
        keys_unique(remove_key(ps, k)),
        forall|x: Seq<char>| has_key(remove_key(ps, k), x) ==> has_key(ps, x) && x != k,
    decreases ps.len(),
{
    if ps.len() > 0 {
        let d = ps.drop_last();
        assert forall|i: int, j: int| 0 <= i < j < d.len() implies (#[trigger] d[i]).0 != (#[trigger] d[j]).0 by {
            assert(d[i] == ps[i] && d[j] == ps[j]);
        }
        lemma_remove_key_keys(d, k);
        let r = remove_key(d, k);
        let l = ps.last();
        assert forall|x: Seq<char>| has_key(r, x) implies has_key(ps, x) && x != k by {
            lemma_has_key_drop_last(ps, x);
        }
        if l.0 != k {
            assert(!has_key(d, l.0)) by {
                if has_key(d, l.0) {
                    let i = choose|i: int| 0 <= i < d.len() && (#[trigger] d[i]).0 == l.0;
                    assert(ps[i] == d[i]);
                    assert(ps[ps.len() - 1] == l);
                }
            }
            let rp = r.push(l);
            assert forall|i: int, j: int| 0 <= i < j < rp.len() implies (#[trigger] rp[i]).0 != (#[trigger] rp[j]).0 by {
                assert(rp[i] == r[i]);
                if j == r.len() {
                    assert(has_key(r, r[i].0));
                } else {
                    assert(rp[j] == r[j]);
                }
            }
            assert forall|x: Seq<char>| has_key(rp, x) implies has_key(ps, x) && x != k by {
                let i = choose|i: int| 0 <= i < rp.len() && (#[trigger] rp[i]).0 == x;
                if i == r.len() {
                    assert(ps[ps.len() - 1].0 == x);
                } else {
                    assert(rp[i] == r[i]);
                    assert(has_key(r, x));
                }
            }
            assert(remove_key(ps, k) == rp);
        }
    }
}

/// Nicknames stay distinct: adding one that is not there keeps them
/// distinct, and removing one keeps the rest distinct and leaves none of
/// it.
pub proof fn lemma_nicknames_stay_unique(ps: Seq<(Seq<char>, Seq<char>)>, k: Seq<char>, p: Seq<char>)
    requires
        keys_unique(ps),
    ensures
        !has_key(ps, k) ==> keys_unique(ps.push((k, p))),
        keys_unique(remove_key(ps, k)),
        !has_key(remove_key(ps, k), k),
{
    lemma_remove_key_keys(ps, k);
    if !has_key(ps, k) {
        let q = ps.push((k, p));
        assert forall|i: int, j: int| 0 <= i < j < q.len() implies (#[trigger] q[i]).0 != (#[trigger] q[j]).0 by {
            assert(q[i] == ps[i]);
            if j == ps.len() {
                assert(has_key(ps, ps[i].0));
            } else {
                assert(q[j] == ps[j]);
            }
        }
    }
}

proof fn lemma_remove_absent(ps: Seq<(Seq<char>, Seq<char>)>, k: Seq<char>)
    requires
        !has_key(ps, k),
    ensures
        remove_key(ps, k) == ps,
    decreases ps.len(),
{
    if ps.len() > 0 {
        assert(ps.last() == ps[ps.len() - 1]);
        assert forall|i: int| 0 <= i < ps.drop_last().len() implies (#[trigger] ps.drop_last()[i]).0 != k by {
            assert(ps.drop_last()[i] == ps[i]);
        }
        lemma_remove_absent(ps.drop_last(), k);
        assert(ps.drop_last().push(ps.last()) =~= ps);
    }
}

} // verus!
