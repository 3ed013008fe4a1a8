//! The API overview: the top level of progressive disclosure.
use vstd::prelude::*;
use crate::strutil::{chars_to_string, matches_at, push_char, push_str, to_chars};
use crate::models::resource::ResourceGroup;
use crate::document::{Config, doc_lookup};
use crate::render::sanitize::owned;

verus! {

#[derive(Debug)]
pub struct OverviewData {
    pub title: String,
    pub description: Option<String>,
    pub base_urls: Vec<String>,
    pub server_variables: Vec<ServerVar>,
    pub auth_schemes: Vec<String>,
    pub resource_count: usize,
    pub endpoint_count: usize,
    pub path_count: usize,
    pub schema_count: usize,
    pub callback_count: usize,
    /// `(slug, endpoint count)` of the largest resource groups.
    pub top_resources: Vec<(String, usize)>,
}

#[derive(Debug, Clone)]
pub struct ServerVar {
    pub name: String,
    pub required: bool,
    pub description: Option<String>,
    pub default: Option<String>,
}

// ───────────────────────── replacing text ─────────────────────────

/// `s` with each occurrence of `pat`, taken from the left and not
/// overlapping, replaced by `rep` (what `str::replace` gives for a
/// non-empty pattern).
pub open spec fn replace_all(s: Seq<char>, pat: Seq<char>, rep: Seq<char>) -> Seq<char>
    decreases s.len(),
{
    if pat.len() == 0 || s.len() < pat.len() {
        s
    } else if s.take(pat.len() as int) == pat {
        rep + replace_all(s.skip(pat.len() as int), pat, rep)
    } else {
        seq![s[0]] + replace_all(s.skip(1), pat, rep)
    }
}

proof fn lemma_replace_match(rest: Seq<char>, p: Seq<char>, rep: Seq<char>)
    requires
        p.len() > 0,
        rest.len() >= p.len(),
        rest.take(p.len() as int) == p,
    ensures
        replace_all(rest, p, rep) == rep + replace_all(rest.skip(p.len() as int), p, rep),
{
}

proof fn lemma_replace_no_match(rest: Seq<char>, p: Seq<char>, rep: Seq<char>)
    requires
        p.len() > 0,
        rest.len() > 0,
        !(rest.len() >= p.len() && rest.take(p.len() as int) == p),
    ensures
        replace_all(rest, p, rep) == seq![rest[0]] + replace_all(rest.skip(1), p, rep),
{
    if rest.len() < p.len() {
        assert(rest.skip(1).len() < p.len());
        assert(rest =~= seq![rest[0]] + rest.skip(1));
    }
}

/// `s` with every occurrence of a non-empty `pat` replaced by `rep`.
pub fn replace_str(s: &str, pat: &str, rep: &str) -> (r: String)
    requires
        pat@.len() > 0,
    ensures
        r@ == replace_all(s@, pat@, rep@),
{
    let v = to_chars(s);
    let p = to_chars(pat);
    let mut out = String::new();
    let mut i: usize = 0;
    assert(v@.skip(0) =~= v@);
    while i < v.len()
        invariant
            i <= v.len(),
            v@ == s@,
            p@ == pat@,
            p@.len() > 0,
            out@ + replace_all(v@.skip(i as int), p@, rep@) == replace_all(s@, pat@, rep@),
        decreases v.len() - i,
    {
        let ghost rest = v@.skip(i as int);
        let ghost before = out@;
        if p.len() <= v.len() - i && matches_at(&v, &p, i) {
            proof {
                assert(rest.take(p@.len() as int) =~= v@.subrange(i as int, i + p@.len()));
                assert(rest.skip(p@.len() as int) =~= v@.skip(i + p@.len()));
                lemma_replace_match(rest, p@, rep@);
            }
            push_str(&mut out, rep);
            i = i + p.len();
            assert(out@ + replace_all(v@.skip(i as int), p@, rep@) == before + replace_all(rest, p@, rep@));
        } else {
            proof {
                if rest.len() >= p@.len() {
                    assert(rest.take(p@.len() as int) =~= v@.subrange(i as int, i + p@.len()));
                }
                assert(rest.skip(1) =~= v@.skip(i + 1));
                lemma_replace_no_match(rest, p@, rep@);
            }
            push_char(&mut out, v[i]);
            i = i + 1;
            assert(out@ + replace_all(v@.skip(i as int), p@, rep@) =~= before + replace_all(rest, p@, rep@));
        }
    }
    assert(v@.skip(i as int) =~= Seq::<char>::empty());
    out
}


// ───────────────────────── largest resources ─────────────────────────

/// `x` placed after every entry whose count is at least its own.
pub open spec fn insert_desc(s: Seq<(Seq<char>, usize)>, x: (Seq<char>, usize)) -> Seq<(Seq<char>, usize)>
    decreases s.len(),
{
    if s.len() == 0 {
        seq![x]
    } else if s[0].1 < x.1 {
        seq![x] + s
    } else {
        seq![s[0]] + insert_desc(s.drop_first(), x)
    }
}

/// The entries by count, largest first, entries with equal counts in
/// the order they came in (a stable sort).
pub open spec fn sort_desc(s: Seq<(Seq<char>, usize)>) -> Seq<(Seq<char>, usize)>
    decreases s.len(),
{
    if s.len() == 0 {
        seq![]
    } else {
        insert_desc(sort_desc(s.drop_last()), s.last())
    }
}

/// (slug, endpoint count) of each group.
pub open spec fn group_counts(gs: Seq<ResourceGroup>) -> Seq<(Seq<char>, usize)> {
    gs.map_values(|g: ResourceGroup| (g.slug@, g.endpoints@.len() as usize))
}

/// The five largest groups, largest first.
pub open spec fn spec_top_resources(gs: Seq<ResourceGroup>) -> Seq<(Seq<char>, usize)> {
    let s = sort_desc(group_counts(gs));
    if s.len() > 5 { s.take(5) } else { s }
}

pub open spec fn top_view(v: Seq<(String, usize)>) -> Seq<(Seq<char>, usize)> {
    v.map_values(|t: (String, usize)| (t.0@, t.1))
}

proof fn lemma_insert_desc_at(s: Seq<(Seq<char>, usize)>, x: (Seq<char>, usize), q: int)
    requires
        0 <= q <= s.len(),
        forall|k: int| 0 <= k < q ==> !((#[trigger] s[k]).1 < x.1),
        q < s.len() ==> s[q].1 < x.1,
    ensures
        insert_desc(s, x) == s.insert(q, x),
        insert_desc(s, x).len() == s.len() + 1,
    decreases q,
{
    if q == 0 {
        if s.len() == 0 {
            assert(s.insert(0, x) =~= seq![x]);
        } else {
            assert(s.insert(0, x) =~= seq![x] + s);
        }
    } else {
        let t = s.drop_first();
        assert forall|k: int| 0 <= k < q - 1 implies !((#[trigger] t[k]).1 < x.1) by {
            assert(t[k] == s[k + 1]);
        }
        lemma_insert_desc_at(t, x, q - 1);
        assert(s.insert(q, x) =~= seq![s[0]] + t.insert(q - 1, x));
    }
}

pub proof fn lemma_sort_desc_len(s: Seq<(Seq<char>, usize)>)
    ensures
        sort_desc(s).len() == s.len(),
    decreases s.len(),
{
    if s.len() > 0 {
        lemma_sort_desc_len(s.drop_last());
        lemma_insert_desc_len(sort_desc(s.drop_last()), s.last());
    }
}

proof fn lemma_insert_desc_len(s: Seq<(Seq<char>, usize)>, x: (Seq<char>, usize))
    ensures
        insert_desc(s, x).len() == s.len() + 1,
    decreases s.len(),
{
    if s.len() > 0 && !(s[0].1 < x.1) {
        lemma_insert_desc_len(s.drop_first(), x);
    }
}

pub open spec fn descending(s: Seq<(Seq<char>, usize)>) -> bool {
    forall|i: int, j: int| 0 <= i < j < s.len() ==> (#[trigger] s[i]).1 >= (#[trigger] s[j]).1
}

proof fn lemma_insert_desc_sorted(s: Seq<(Seq<char>, usize)>, x: (Seq<char>, usize))
    requires
        descending(s),
    ensures
        descending(insert_desc(s, x)),
        insert_desc(s, x).len() == s.len() + 1,
        forall|k: int| 0 <= k < insert_desc(s, x).len() ==>
            (#[trigger] insert_desc(s, x)[k]) == x || s.contains(insert_desc(s, x)[k]),
    decreases s.len(),
{
    lemma_insert_desc_len(s, x);
    if s.len() > 0 && !(s[0].1 < x.1) {
        let t = s.drop_first();
        assert(descending(t)) by {
            assert forall|i: int, j: int| 0 <= i < j < t.len() implies (#[trigger] t[i]).1 >= (#[trigger] t[j]).1 by {
                assert(t[i] == s[i + 1] && t[j] == s[j + 1]);
            }
        }
        lemma_insert_desc_sorted(t, x);
        let r = insert_desc(s, x);
        let rt = insert_desc(t, x);
        assert(r == seq![s[0]] + rt);
        assert forall|k: int| 0 <= k < r.len() implies (#[trigger] r[k]) == x || s.contains(r[k]) by {
            if k > 0 {
                assert(r[k] == rt[k - 1]);
                if rt[k - 1] != x {
                    let m = choose|m: int| 0 <= m < t.len() && t[m] == rt[k - 1];
                    assert(s[m + 1] == r[k]);
                }
            } else {
                assert(s[0] == r[0]);
            }
        }
        assert forall|i: int, j: int| 0 <= i < j < r.len() implies (#[trigger] r[i]).1 >= (#[trigger] r[j]).1 by {
            if i == 0 {
                assert(r[j] == rt[j - 1]);
                if rt[j - 1] == x {
                } else {
                    let m = choose|m: int| 0 <= m < t.len() && t[m] == rt[j - 1];
                    assert(s[m + 1] == rt[j - 1]);
                }
            } else {
                assert(r[i] == rt[i - 1] && r[j] == rt[j - 1]);
            }
        }
    } else if s.len() > 0 {
        let r = insert_desc(s, x);
        assert(r == seq![x] + s);
        assert forall|k: int| 0 <= k < r.len() implies (#[trigger] r[k]) == x || s.contains(r[k]) by {
            if k > 0 {
                assert(r[k] == s[k - 1]);
            }
        }
        assert forall|i: int, j: int| 0 <= i < j < r.len() implies (#[trigger] r[i]).1 >= (#[trigger] r[j]).1 by {
            if i > 0 {
                assert(r[i] == s[i - 1] && r[j] == s[j - 1]);
            } else {
                assert(r[j] == s[j - 1]);
                assert(s[0].1 >= s[j - 1].1);
            }
        }
    } else {
        let r = insert_desc(s, x);
        assert(r == seq![x]);
    }
}

proof fn lemma_sort_desc_sorted(s: Seq<(Seq<char>, usize)>)
    ensures
        descending(sort_desc(s)),
    decreases s.len(),
{
    if s.len() > 0 {
        lemma_sort_desc_sorted(s.drop_last());
        lemma_insert_desc_sorted(sort_desc(s.drop_last()), s.last());
    }
}

/// The top resources are the largest groups, largest first, at most five
/// of them (fewer only where there are fewer groups).
pub proof fn lemma_top_resources_sorted(gs: Seq<ResourceGroup>)
    ensures
        descending(spec_top_resources(gs)),
        spec_top_resources(gs).len() == if gs.len() > 5 { 5 } else { gs.len() },
{
    let s = sort_desc(group_counts(gs));
    lemma_sort_desc_sorted(group_counts(gs));
    lemma_sort_desc_len(group_counts(gs));
    if s.len() > 5 {
        let t = s.take(5);
        assert forall|i: int, j: int| 0 <= i < j < t.len() implies (#[trigger] t[i]).1 >= (#[trigger] t[j]).1 by {
            assert(t[i] == s[i] && t[j] == s[j]);
        }
    }
}

/// (slug, endpoint count) of the groups, largest first, stable.
fn sorted_counts(groups: &[ResourceGroup]) -> (r: Vec<(String, usize)>)
    ensures
        top_view(r@) == sort_desc(group_counts(groups@)),
{
    let ghost gc = group_counts(groups@);
    let mut r: Vec<(String, usize)> = Vec::new();
    let mut i: usize = 0;
    while i < groups.len()
        invariant
            i <= groups.len(),
            gc == group_counts(groups@),
            top_view(r@) == sort_desc(gc.take(i as int)),
        decreases groups.len() - i,
    {
        let x = (owned(groups[i].slug.as_str()), groups[i].endpoints.len());
        let ghost xv = (x.0@, x.1);
        assert(xv == gc[i as int]);
        let ghost sv = top_view(r@);
        let mut q: usize = 0;
        while q < r.len() && !(r[q].1 < x.1)
            invariant
                q <= r.len(),
                sv == top_view(r@),
                xv.1 == x.1,
                forall|k: int| 0 <= k < q ==> !((#[trigger] sv[k]).1 < xv.1),
            decreases r.len() - q,
        {
            assert(sv[q as int].1 == r@[q as int].1);
            q = q + 1;
        }
        proof {
            if q < r.len() {
                assert(sv[q as int].1 == r@[q as int].1);
            }
            lemma_insert_desc_at(sv, xv, q as int);
            assert(gc.take(i + 1).drop_last() =~= gc.take(i as int));
        }
        let ghost before = r@;
        r.insert(q, x);
        assert(top_view(r@) =~= sv.insert(q as int, xv));
        i = i + 1;
    }
    assert(gc.take(groups@.len() as int) =~= gc);
    r
}

/// The five largest resource groups by endpoint count, largest first,
/// groups of equal size in the order they came in.
pub fn top_resources(groups: &[ResourceGroup]) -> (r: Vec<(String, usize)>)
    ensures
        top_view(r@) == spec_top_resources(groups@),
{
    let mut all = sorted_counts(groups);
    proof { lemma_sort_desc_len(group_counts(groups@)); }
    if all.len() > 5 {
        all.truncate(5);
        assert(top_view(all@) =~= sort_desc(group_counts(groups@)).take(5));
    }
    all
}


// ───────────────────────── building the overview ─────────────────────────

/// A server of the document: its URL template and its variables in order.
#[derive(Debug)]
pub struct ServerInfo {
    pub url: String,
    pub variables: Vec<ServerVariableInfo>,
}

#[derive(Debug)]
pub struct ServerVariableInfo {
    pub name: String,
    pub default: String,
    pub description: Option<String>,
}

/// What the overview reads of a document: its info, servers, the names of
/// its security schemes, its resource groups and a few counts.
#[derive(Debug)]
pub struct ApiSummary {
    pub title: String,
    pub description: Option<String>,
    pub servers: Vec<ServerInfo>,
    pub security_schemes: Vec<String>,
    pub resource_groups: Vec<ResourceGroup>,
    pub path_count: usize,
    pub schema_count: usize,
    pub callback_count: usize,
}

/// A description cut to 200 characters, with `...` where it was cut.
pub open spec fn short_description(d: Seq<char>) -> Seq<char> {
    if d.len() > 200 { d.take(200) + "..."@ } else { d }
}

/// The value of a server variable: the configured one, or its default.
pub open spec fn var_value(cv: Option<Vec<(String, String)>>, v: ServerVariableInfo) -> Seq<char> {
    match cv {
        Some(m) => match doc_lookup(m@, v.name@) {
            Some(x) => x,
            None => v.default@,
        },
        None => v.default@,
    }
}

/// The URL with `{name}` replaced by the value of each variable, in order.
pub open spec fn resolve_url(url: Seq<char>, vars: Seq<ServerVariableInfo>, cv: Option<Vec<(String, String)>>) -> Seq<char>
    decreases vars.len(),
{
    if vars.len() == 0 {
        url
    } else {
        replace_all(resolve_url(url, vars.drop_last(), cv), "{"@ + vars.last().name@ + "}"@,
            var_value(cv, vars.last()))
    }
}

pub open spec fn url_views(v: Seq<String>) -> Seq<Seq<char>> {
    v.map_values(|s: String| s@)
}

/// The variables of all servers, in order.
pub open spec fn all_vars(ss: Seq<ServerInfo>) -> Seq<ServerVariableInfo>
    decreases ss.len(),
{
    if ss.len() == 0 {
        seq![]
    } else {
        all_vars(ss.drop_last()) + ss.last().variables@
    }
}

pub open spec fn var_view(v: ServerVar) -> (Seq<char>, bool, Option<Seq<char>>, Option<Seq<char>>) {
    (v.name@, v.required, crate::commands::init::opt_view(v.description), crate::commands::init::opt_view(v.default))
}

pub open spec fn var_info_view(v: ServerVariableInfo) -> (Seq<char>, bool, Option<Seq<char>>, Option<Seq<char>>) {
    (v.name@, false, crate::commands::init::opt_view(v.description), Some(v.default@))
}

pub open spec fn endpoint_total(gs: Seq<ResourceGroup>) -> nat
    decreases gs.len(),
{
    if gs.len() == 0 { 0 } else { endpoint_total(gs.drop_last()) + gs.last().endpoints@.len() }
}

fn copy_str_opt(o: &Option<String>) -> (r: Option<String>)
    ensures
        crate::commands::init::opt_view(r) == crate::commands::init::opt_view(*o),
{
    match o {
        Some(s) => Some(owned(s.as_str())),
        None => None,
    }
}

fn var_value_exec(cv: &Option<Vec<(String, String)>>, v: &ServerVariableInfo) -> (r: String)
    ensures
        r@ == var_value(*cv, *v),
{
    match cv {
        Some(m) => {
            let mut i: usize = 0;
            assert(m@.skip(0) =~= m@);
            while i < m.len()
                invariant
                    i <= m.len(),
                    doc_lookup(m@, v.name@) == doc_lookup(m@.skip(i as int), v.name@),
                    var_value(*cv, *v) == match doc_lookup(m@, v.name@) {
                        Some(x) => x,
                        None => v.default@,
                    },
                decreases m.len() - i,
            {
                if crate::render::sanitize::str_eq(m[i].0.as_str(), v.name.as_str()) {
                    assert(m@.skip(i as int)[0] == m@[i as int]);
                    return owned(m[i].1.as_str());
                }
                assert(m@.skip(i as int).drop_first() =~= m@.skip(i + 1));
                i = i + 1;
            }
            owned(v.default.as_str())
        },
        None => owned(v.default.as_str()),
    }
}

fn resolve_url_exec(server: &ServerInfo, cv: &Option<Vec<(String, String)>>) -> (r: String)
    ensures
        r@ == resolve_url(server.url@, server.variables@, *cv),
{
    let mut url = owned(server.url.as_str());
    let mut i: usize = 0;
    while i < server.variables.len()
        invariant
            i <= server.variables.len(),
            url@ == resolve_url(server.url@, server.variables@.take(i as int), *cv),
        decreases server.variables.len() - i,
    {
        let v = &server.variables[i];
        let mut pat = owned("{");
        push_str(&mut pat, v.name.as_str());
        push_str(&mut pat, "}");
        let value = var_value_exec(cv, v);
        proof {
            reveal_strlit("{");
            assert(server.variables@.take(i + 1).drop_last() =~= server.variables@.take(i as int));
        }
        url = replace_str(url.as_str(), pat.as_str(), value.as_str());
        i = i + 1;
    }
    assert(server.variables@.take(server.variables@.len() as int) =~= server.variables@);
    url
}

fn short_description_exec(d: &String) -> (r: String)
    ensures
        r@ == short_description(d@),
{
    let v = to_chars(d.as_str());
    if v.len() > 200 {
        let mut out = String::new();
        let mut i: usize = 0;
        while i < 200
            invariant
                i <= 200 < v.len(),
                out@ == v@.take(i as int),
            decreases 200 - i,
        {
            push_char(&mut out, v[i]);
            i = i + 1;
            assert(out@ =~= v@.take(i as int));
        }
        push_str(&mut out, "...");
        out
    } else {
        owned(d.as_str())
    }
}

/// Builds the overview of a document: title and description (cut to 200
/// characters), server URLs with their variables filled in from `config`
/// or their defaults, the security schemes, counts, and the five largest
/// resource groups.
pub fn build(api: &ApiSummary, config: &Config) -> (r: OverviewData)
    requires
        endpoint_total(api.resource_groups@) <= usize::MAX,
    ensures
        r.title@ == api.title@,
        crate::commands::init::opt_view(r.description) == match api.description {
            Some(d) => Some(short_description(d@)),
            None => None,
        },
        url_views(r.base_urls@) == api.servers@.map_values(
            |sv: ServerInfo| resolve_url(sv.url@, sv.variables@, config.variables)),
        r.server_variables@.map_values(|v: ServerVar| var_view(v))
            == all_vars(api.servers@).map_values(|v: ServerVariableInfo| var_info_view(v)),
        url_views(r.auth_schemes@) == url_views(api.security_schemes@),
        r.resource_count == api.resource_groups@.len(),
        r.endpoint_count == endpoint_total(api.resource_groups@),
        r.path_count == api.path_count,
        r.schema_count == api.schema_count,
        r.callback_count == api.callback_count,
        top_view(r.top_resources@) == spec_top_resources(api.resource_groups@),
{
    let description = match &api.description {
        Some(d) => Some(short_description_exec(d)),
        None => None,
    };
    let mut base_urls: Vec<String> = Vec::new();
    let mut server_variables: Vec<ServerVar> = Vec::new();
    let mut i: usize = 0;
    while i < api.servers.len()
        invariant
            i <= api.servers.len(),
            url_views(base_urls@) == api.servers@.take(i as int).map_values(
                |sv: ServerInfo| resolve_url(sv.url@, sv.variables@, config.variables)),
            server_variables@.map_values(|v: ServerVar| var_view(v))
                == all_vars(api.servers@.take(i as int)).map_values(|v: ServerVariableInfo| var_info_view(v)),
        decreases api.servers.len() - i,
    {
        let server = &api.servers[i];
        let url = resolve_url_exec(server, &config.variables);
        let ghost ub = base_urls@;
        base_urls.push(url);
        proof {
            let f = |sv: ServerInfo| resolve_url(sv.url@, sv.variables@, config.variables);
            assert(api.servers@.take(i + 1) =~= api.servers@.take(i as int).push(api.servers@[i as int]));
            assert(url_views(base_urls@) =~= url_views(ub).push(url@));
            assert(api.servers@.take(i + 1).map_values(f) =~= api.servers@.take(i as int).map_values(f).push(f(api.servers@[i as int])));
        }
        let ghost vs_before = server_variables@;
        let mut j: usize = 0;
        while j < server.variables.len()
            invariant
                j <= server.variables.len(),
                server_variables@.map_values(|v: ServerVar| var_view(v))
                    == vs_before.map_values(|v: ServerVar| var_view(v))
                        + server.variables@.take(j as int).map_values(|v: ServerVariableInfo| var_info_view(v)),
            decreases server.variables.len() - j,
        {
            let v = &server.variables[j];
            let sv = ServerVar {
                name: owned(v.name.as_str()),
                required: false,
                description: copy_str_opt(&v.description),
                default: Some(owned(v.default.as_str())),
            };
            let ghost b = server_variables@;
            server_variables.push(sv);
            proof {
                let f = |v: ServerVariableInfo| var_info_view(v);
                let g = |v: ServerVar| var_view(v);
                assert(server_variables@.map_values(g) =~= b.map_values(g).push(g(sv)));
                assert(server.variables@.take(j + 1).map_values(f) =~= server.variables@.take(j as int).map_values(f).push(f(server.variables@[j as int])));
            }
            j = j + 1;
        }
        proof {
            let f = |v: ServerVariableInfo| var_info_view(v);
            assert(server.variables@.take(server.variables@.len() as int) =~= server.variables@);
            assert(api.servers@.take(i + 1).drop_last() =~= api.servers@.take(i as int));
            assert(all_vars(api.servers@.take(i + 1)) == all_vars(api.servers@.take(i as int)) + server.variables@);
            assert((all_vars(api.servers@.take(i as int)) + server.variables@).map_values(f)
                =~= all_vars(api.servers@.take(i as int)).map_values(f) + server.variables@.map_values(f));
        }
        i = i + 1;
    }
    assert(api.servers@.take(api.servers@.len() as int) =~= api.servers@);
    let mut auth_schemes: Vec<String> = Vec::new();
    let mut k: usize = 0;
    while k < api.security_schemes.len()
        invariant
            k <= api.security_schemes.len(),
            url_views(auth_schemes@) == url_views(api.security_schemes@).take(k as int),
        decreases api.security_schemes.len() - k,
    {
        let n = owned(api.security_schemes[k].as_str());
        let ghost b = auth_schemes@;
        auth_schemes.push(n);
        proof {
            assert(auth_schemes@ == b.push(n));
            assert(url_views(auth_schemes@) =~= url_views(b).push(n@));
            assert(url_views(api.security_schemes@).take(k + 1) =~= url_views(api.security_schemes@).take(k as int).push(api.security_schemes@[k as int]@));
        }
        k = k + 1;
    }
    assert(url_views(api.security_schemes@).take(api.security_schemes@.len() as int) =~= url_views(api.security_schemes@));
    let mut total: usize = 0;
    let mut g: usize = 0;
    while g < api.resource_groups.len()
        invariant
            g <= api.resource_groups.len(),
            endpoint_total(api.resource_groups@) <= usize::MAX,
            total == endpoint_total(api.resource_groups@.take(g as int)),
        decreases api.resource_groups.len() - g,
    {
        proof {
            assert(api.resource_groups@.take(g + 1).drop_last() =~= api.resource_groups@.take(g as int));
            lemma_endpoint_total_prefix(api.resource_groups@, g as int + 1);
        }
        total = total + api.resource_groups[g].endpoints.len();
        g = g + 1;
    }
    assert(api.resource_groups@.take(api.resource_groups@.len() as int) =~= api.resource_groups@);
    OverviewData {
        title: owned(api.title.as_str()),
        description,
        base_urls,
        server_variables,
        auth_schemes,
        resource_count: api.resource_groups.len(),
        endpoint_count: total,
        path_count: api.path_count,
        schema_count: api.schema_count,
        callback_count: api.callback_count,
        top_resources: top_resources(api.resource_groups.as_slice()),
    }
}

proof fn lemma_endpoint_total_prefix(gs: Seq<ResourceGroup>, k: int)
    requires
        0 <= k <= gs.len(),
    ensures
        endpoint_total(gs.take(k)) <= endpoint_total(gs),
    decreases gs.len() - k,
{
    if k < gs.len() {
        lemma_endpoint_total_prefix(gs, k + 1);
        assert(gs.take(k + 1).drop_last() =~= gs.take(k));
    } else {
        assert(gs.take(k) =~= gs);
    }
}

} // verus!
