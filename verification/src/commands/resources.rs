//! Resource groups: how endpoints are grouped when their operations carry
//! no tags, and the schemas shown expanded after an endpoint's detail.
use vstd::prelude::*;
use crate::strutil::{is_ascii_text, lowercase, str_to_lowercase, to_chars};
use crate::models::resource::{
    Endpoint, Field, ResourceGroup, humanize_tag_name, is_alpha_tag, is_deprecated_tag, slugify,
    spec_humanize, spec_slugify,
};
use crate::strutil::contains_seq;
use crate::commands::init::opt_view;
use crate::render::schema::{insert_name, lex_lt, name_less, names_of, sorted_set, strictly_sorted, lemma_sorted_set,
    lemma_lex_irreflexive, lemma_lex_transitive};
use crate::document::{char_pos, lemma_char_pos};
use crate::render::sanitize::{owned, str_eq, vec_eq_str};

verus! {

/// A schema shown expanded after an endpoint's detail.
#[derive(Debug)]
pub struct RelatedSchema {
    pub name: String,
    pub description: Option<String>,
    pub fields: Vec<Field>,
}

/// `v` followed by ASCII digits only (`v1`, `v20`, or `v` alone).
pub open spec fn is_version(l: Seq<char>) -> bool {
    l.len() >= 1 && l[0] == 'v' && forall|i: int| 1 <= i < l.len() ==> '0' <= #[trigger] l[i] <= '9'
}

/// A path segment that names no group: `api`, a version, or a parameter.
pub open spec fn skipped_segment(seg: Seq<char>) -> bool {
    lowercase(seg) == "api"@ || is_version(lowercase(seg)) || seg[0] == '{'
}

/// The first segment of `path` from position `i` on that is not empty and
/// not skipped.
pub open spec fn group_segment_from(path: Seq<char>, i: int) -> Option<Seq<char>>
    decreases path.len() + 1 - i,
{
    if i < 0 || i > path.len() {
        None
    } else {
        proof {
            lemma_char_pos(path, '/', i);
        }
        let e = char_pos(path, '/', i);
        let seg = path.subrange(i, e);
        if seg.len() > 0 && !skipped_segment(seg) {
            Some(seg)
        } else {
            group_segment_from(path, e + 1)
        }
    }
}

/// The group name taken from a path (from any position on) is a non-empty
/// segment of it, without a `/`, that is never `api` in any case, never a
/// version such as `v2`, and never a path parameter: `/api/v2/orders`
/// groups under `orders`, not `api`.
pub proof fn lemma_group_name_not_skipped(path: Seq<char>, i: int)
    ensures
        group_segment_from(path, i) matches Some(g) ==> {
            &&& g.len() > 0
            &&& !g.contains('/')
            &&& lowercase(g) != "api"@
            &&& !is_version(lowercase(g))
            &&& g[0] != '{'
            &&& exists|k: int| 0 <= k && k + g.len() <= path.len() && #[trigger] path.subrange(k, k + g.len()) == g
        },
    decreases path.len() + 1 - i,
{
    if 0 <= i <= path.len() {
        lemma_char_pos(path, '/', i);
        let e = char_pos(path, '/', i);
        let seg = path.subrange(i, e);
        if seg.len() > 0 && !skipped_segment(seg) {
            assert forall|j: int| 0 <= j < seg.len() implies seg[j] != '/' by {
                assert(seg[j] == path[i + j]);
            }
            assert(path.subrange(i, i + seg.len()) == seg);
        } else {
            lemma_group_name_not_skipped(path, e + 1);
        }
    }
}

proof fn lemma_char_pos_shift(pre: Seq<char>, q: Seq<char>, j: int)
    requires
        0 <= j <= q.len(),
    ensures
        char_pos(pre + q, '/', pre.len() + j) == pre.len() + char_pos(q, '/', j),
    decreases q.len() - j,
{
    if j < q.len() {
        assert((pre + q)[pre.len() + j] == q[j]);
        if q[j] != '/' {
            lemma_char_pos_shift(pre, q, j + 1);
        }
    }
}

proof fn lemma_segment_shift(pre: Seq<char>, q: Seq<char>, j: int)
    requires
        0 <= j,
    ensures
        group_segment_from(pre + q, pre.len() + j) == group_segment_from(q, j),
    decreases q.len() + 1 - j,
{
    if j <= q.len() {
        lemma_char_pos_shift(pre, q, j);
        lemma_char_pos(q, '/', j);
        let e = char_pos(q, '/', j);
        assert((pre + q).subrange(pre.len() + j, pre.len() + e) =~= q.subrange(j, e));
        lemma_segment_shift(pre, q, e + 1);
    }
}

/// A leading segment that is `api` in any case does not change the group:
/// `/api` followed by a path (empty or starting with `/`) groups as that
/// path does, so `/api/orders` and `/orders` group alike.
pub proof fn lemma_api_prefix_ignored(a: Seq<char>, rest: Seq<char>)
    requires
        lowercase(a) == "api"@,
        forall|k: int| 0 <= k < a.len() ==> a[k] != '/',
        rest.len() == 0 || rest[0] == '/',
    ensures
        group_segment_from(seq!['/'] + a + rest, 0) == group_segment_from(rest, 0),
{
    reveal_strlit("api");
    let pre = seq!['/'] + a;
    let path = pre + rest;
    assert(seq!['/'] + a + rest == path);
    if a.len() == 0 {
        assert(is_ascii_text(a));
        reveal(lowercase);
        assert(lowercase(a).len() == 0);
    }
    // the empty segment before the first `/`
    lemma_char_pos(path, '/', 0);
    assert(path[0] == '/');
    assert(char_pos(path, '/', 0) == 0);
    // the segment `a`, which is skipped
    lemma_char_pos(path, '/', 1);
    assert forall|k: int| 1 <= k < pre.len() implies path[k] != '/' by {
        assert(path[k] == a[k - 1]);
    }
    lemma_char_pos_shift(pre, rest, 0);
    lemma_char_pos(rest, '/', 0);
    assert(char_pos(rest, '/', 0) == 0);
    let e = char_pos(path, '/', 1);
    assert(e == pre.len()) by {
        if e < pre.len() {
            assert(path[e] != '/');
        }
        if e > pre.len() {
            assert(pre.len() < path.len());
            assert(path[pre.len() as int] == rest[0]);
        }
    }
    assert(path.subrange(1, e) =~= a);
    assert(skipped_segment(a));
    assert(group_segment_from(path, 1) == group_segment_from(path, e + 1));
    assert(path.subrange(0, 0).len() == 0);
    assert(group_segment_from(path, 0) == group_segment_from(path, 1));
    // what follows is `rest` from its first segment on
    lemma_segment_shift(pre, rest, 1);
    assert(rest.subrange(0, 0).len() == 0);
    assert(group_segment_from(rest, 0) == group_segment_from(rest, 1));
}

fn is_version_exec(l: &Vec<char>) -> (r: bool)
    ensures
        r == is_version(l@),
{
    if l.len() == 0 || l[0] != 'v' {
        return false;
    }
    let mut i: usize = 1;
    while i < l.len()
        invariant
            1 <= i <= l.len(),
            forall|k: int| 1 <= k < i ==> '0' <= #[trigger] l@[k] <= '9',
        decreases l.len() - i,
    {
        if !('0' <= l[i] && l[i] <= '9') {
            return false;
        }
        i = i + 1;
    }
    true
}

/// The group that a path belongs to when operations carry no tags: its
/// first segment that is not `api`, a version such as `v1`, or a path
/// parameter.
pub fn path_prefix_group_name(path: &str) -> (r: Option<String>)
    ensures
        match r {
            Some(s) => group_segment_from(path@, 0) == Some(s@),
            None => group_segment_from(path@, 0) is None,
        },
{
    let v = to_chars(path);
    let mut i: usize = 0;
    while i <= v.len()
        invariant
            v@ == path@,
            i <= v.len() + 1,
            group_segment_from(path@, 0) == group_segment_from(path@, i as int),
        decreases v.len() + 1 - i,
    {
        proof { lemma_char_pos(v@, '/', i as int); }
        let mut e: usize = i;
        while e < v.len() && v[e] != '/'
            invariant
                i <= e <= v.len(),
                char_pos(v@, '/', i as int) == char_pos(v@, '/', e as int),
            decreases v.len() - e,
        {
            e = e + 1;
        }
        let seg = path.substring_char(i, e);
        assert(seg@ =~= v@.subrange(i as int, e as int));
        if e > i {
            let lower = str_to_lowercase(seg);
            let lv = to_chars(lower.as_str());
            let first = v[i];
            assert(seg@[0] == first);
            if !(vec_eq_str(&lv, "api") || is_version_exec(&lv) || first == '{') {
                return Some(owned(seg));
            }
        }
        if e == v.len() {
            assert(group_segment_from(path@, e + 1) is None);
            return None;
        }
        i = e + 1;
    }
    None
}


// ───────────────────────── grouping endpoints ─────────────────────────

/// A tag declared by the document.
#[derive(Debug)]
pub struct TagInfo {
    pub name: String,
    pub description: Option<String>,
}

/// An operation as grouping reads it. The document's operations are given
/// in path order, each path's in the order GET, POST, PUT, DELETE, PATCH,
/// HEAD, OPTIONS, TRACE.
#[derive(Debug)]
pub struct OperationSummary {
    pub method: String,
    pub path: String,
    pub summary: Option<String>,
    pub description: Option<String>,
    pub deprecated: bool,
    /// `x-alpha: true`.
    pub alpha: bool,
    pub tags: Vec<String>,
}

pub open spec fn tagged(ops: Seq<OperationSummary>) -> bool {
    exists|i: int| 0 <= i < ops.len() && (#[trigger] ops[i]).tags@.len() > 0
}

pub open spec fn strings_set(ts: Seq<String>) -> Set<Seq<char>>
    decreases ts.len(),
{
    if ts.len() == 0 { Set::empty() } else { strings_set(ts.drop_last()).insert(ts.last()@) }
}

pub open spec fn op_tag_names(ops: Seq<OperationSummary>) -> Set<Seq<char>>
    decreases ops.len(),
{
    if ops.len() == 0 { Set::empty() } else { op_tag_names(ops.drop_last()) + strings_set(ops.last().tags@) }
}

pub open spec fn path_keys(ops: Seq<OperationSummary>) -> Set<Seq<char>>
    decreases ops.len(),
{
    if ops.len() == 0 {
        Set::empty()
    } else {
        match group_segment_from(ops.last().path@, 0) {
            Some(g) => path_keys(ops.drop_last()).insert(g),
            None => path_keys(ops.drop_last()),
        }
    }
}

/// `x` placed before the first key whose slug comes after its own.
pub open spec fn insert_by_slug(t: Seq<Seq<char>>, x: Seq<char>) -> Seq<Seq<char>>
    decreases t.len(),
{
    if t.len() == 0 {
        seq![x]
    } else if lex_lt(spec_slugify(x), spec_slugify(t[0])) {
        seq![x] + t
    } else {
        seq![t[0]] + insert_by_slug(t.drop_first(), x)
    }
}

/// The keys ordered by slug, keys with the same slug in their order (a
/// stable sort).
pub open spec fn by_slug(s: Seq<Seq<char>>) -> Seq<Seq<char>>
    decreases s.len(),
{
    if s.len() == 0 { seq![] } else { insert_by_slug(by_slug(s.drop_last()), s.last()) }
}

/// The keys of the groups, in the order the groups are listed: by the tags
/// operations use where any operation has a tag, else by the first
/// meaningful path segment; each in name order, then by slug. A declared
/// tag that no operation uses makes no group.
pub open spec fn group_keys(tags: Seq<TagInfo>, ops: Seq<OperationSummary>) -> Seq<Seq<char>> {
    if tagged(ops) {
        by_slug(sorted_set(op_tag_names(ops)))
    } else {
        by_slug(sorted_set(path_keys(ops)))
    }
}

/// The description of the last declared tag of that name.
pub open spec fn tag_desc(tags: Seq<TagInfo>, k: Seq<char>) -> Option<Seq<char>>
    decreases tags.len(),
{
    if tags.len() == 0 {
        None
    } else if tags.last().name@ == k {
        opt_view(tags.last().description)
    } else {
        tag_desc(tags.drop_last(), k)
    }
}

pub open spec fn tag_count(ts: Seq<String>, k: Seq<char>) -> nat
    decreases ts.len(),
{
    if ts.len() == 0 { 0 } else { tag_count(ts.drop_last(), k) + if ts.last()@ == k { 1nat } else { 0nat } }
}

/// The operations under a tag, each once per time it lists the tag.
pub open spec fn ops_with_tag(ops: Seq<OperationSummary>, k: Seq<char>) -> Seq<OperationSummary>
    decreases ops.len(),
{
    if ops.len() == 0 {
        seq![]
    } else {
        ops_with_tag(ops.drop_last(), k) + Seq::new(tag_count(ops.last().tags@, k), |i: int| ops.last())
    }
}

/// The operations whose path falls in a group.
pub open spec fn ops_in_group(ops: Seq<OperationSummary>, g: Seq<char>) -> Seq<OperationSummary>
    decreases ops.len(),
{
    if ops.len() == 0 {
        seq![]
    } else if group_segment_from(ops.last().path@, 0) == Some(g) {
        ops_in_group(ops.drop_last(), g).push(ops.last())
    } else {
        ops_in_group(ops.drop_last(), g)
    }
}

/// The endpoint listed for an operation: what it says of itself, and no
/// detail yet.
pub open spec fn endpoint_is(e: Endpoint, o: OperationSummary) -> bool {
    &&& e.method@ == o.method@
    &&& e.path@ == o.path@
    &&& opt_view(e.summary) == opt_view(o.summary)
    &&& opt_view(e.description) == opt_view(o.description)
    &&& e.is_deprecated == o.deprecated
    &&& e.is_alpha == o.alpha
    &&& e.external_docs is None
    &&& e.parameters@.len() == 0
    &&& e.request_body is None
    &&& e.responses@.len() == 0
    &&& e.security_schemes@.len() == 0
    &&& e.callbacks@.len() == 0
    &&& e.links@.len() == 0
    &&& e.drill_deeper@.len() == 0
}

pub open spec fn endpoints_are(es: Seq<Endpoint>, os: Seq<OperationSummary>) -> bool {
    es.len() == os.len() && forall|i: int| 0 <= i < es.len() ==> endpoint_is(#[trigger] es[i], os[i])
}

pub open spec fn tag_group_is(g: ResourceGroup, k: Seq<char>, tags: Seq<TagInfo>, ops: Seq<OperationSummary>) -> bool {
    &&& g.slug@ == spec_slugify(k)
    &&& g.display_name@ == spec_humanize(k)
    &&& opt_view(g.description) == tag_desc(tags, k)
    &&& g.is_deprecated == contains_seq(lowercase(k), "(deprecated)"@)
    &&& g.is_alpha == contains_seq(lowercase(k), "(alpha)"@)
    &&& endpoints_are(g.endpoints@, ops_with_tag(ops, k))
}

pub open spec fn path_group_is(g: ResourceGroup, k: Seq<char>, ops: Seq<OperationSummary>) -> bool {
    &&& g.slug@ == spec_slugify(k)
    &&& g.display_name@ == spec_humanize(k)
    &&& g.description is None
    &&& !g.is_deprecated
    &&& !g.is_alpha
    &&& endpoints_are(g.endpoints@, ops_in_group(ops, k))
}

/// No key's slug comes before that of a key listed earlier.
pub open spec fn slug_ordered(s: Seq<Seq<char>>) -> bool {
    forall|i: int, j: int| 0 <= i < j < s.len() ==> !lex_lt(spec_slugify(#[trigger] s[j]), spec_slugify(#[trigger] s[i]))
}

proof fn lemma_insert_by_slug_ordered(t: Seq<Seq<char>>, x: Seq<char>)
    requires
        slug_ordered(t),
    ensures
        slug_ordered(insert_by_slug(t, x)),
        insert_by_slug(t, x).len() == t.len() + 1,
        forall|k: int| 0 <= k < insert_by_slug(t, x).len() ==>
            (#[trigger] insert_by_slug(t, x)[k]) == x || t.contains(insert_by_slug(t, x)[k]),
    decreases t.len(),
{
    let r = insert_by_slug(t, x);
    if t.len() == 0 {
        assert(r == seq![x]);
    } else if lex_lt(spec_slugify(x), spec_slugify(t[0])) {
        assert(r == seq![x] + t);
        assert forall|k: int| 0 <= k < r.len() implies (#[trigger] r[k]) == x || t.contains(r[k]) by {
            if k > 0 {
                assert(r[k] == t[k - 1]);
            }
        }
        assert forall|i: int, j: int| 0 <= i < j < r.len() implies !lex_lt(spec_slugify(#[trigger] r[j]), spec_slugify(#[trigger] r[i])) by {
            if i > 0 {
                assert(r[i] == t[i - 1] && r[j] == t[j - 1]);
            } else {
                assert(r[j] == t[j - 1]);
                if lex_lt(spec_slugify(t[j - 1]), spec_slugify(x)) {
                    lemma_lex_transitive(spec_slugify(t[j - 1]), spec_slugify(x), spec_slugify(t[0]));
                    if j - 1 == 0 {
                        lemma_lex_irreflexive(spec_slugify(t[0]));
                    }
                }
            }
        }
    } else {
        let u = t.drop_first();
        assert(slug_ordered(u)) by {
            assert forall|i: int, j: int| 0 <= i < j < u.len() implies !lex_lt(spec_slugify(#[trigger] u[j]), spec_slugify(#[trigger] u[i])) by {
                assert(u[i] == t[i + 1] && u[j] == t[j + 1]);
            }
        }
        lemma_insert_by_slug_ordered(u, x);
        let ru = insert_by_slug(u, x);
        assert(r == seq![t[0]] + ru);
        assert forall|k: int| 0 <= k < r.len() implies (#[trigger] r[k]) == x || t.contains(r[k]) by {
            if k > 0 {
                assert(r[k] == ru[k - 1]);
                if ru[k - 1] != x {
                    let m = choose|m: int| 0 <= m < u.len() && u[m] == ru[k - 1];
                    assert(t[m + 1] == r[k]);
                }
            } else {
                assert(t[0] == r[0]);
            }
        }
        assert forall|i: int, j: int| 0 <= i < j < r.len() implies !lex_lt(spec_slugify(#[trigger] r[j]), spec_slugify(#[trigger] r[i])) by {
            if i > 0 {
                assert(r[i] == ru[i - 1] && r[j] == ru[j - 1]);
            } else {
                assert(r[j] == ru[j - 1]);
                if ru[j - 1] != x {
                    let m = choose|m: int| 0 <= m < u.len() && u[m] == ru[j - 1];
                    assert(t[m + 1] == ru[j - 1]);
                }
            }
        }
    }
}

proof fn lemma_by_slug_ordered(s: Seq<Seq<char>>)
    ensures
        slug_ordered(by_slug(s)),
        by_slug(s).len() == s.len(),
    decreases s.len(),
{
    if s.len() > 0 {
        lemma_by_slug_ordered(s.drop_last());
        lemma_insert_by_slug_ordered(by_slug(s.drop_last()), s.last());
    }
}

/// Resource groups are listed in slug order.
pub proof fn lemma_groups_in_slug_order(tags: Seq<TagInfo>, ops: Seq<OperationSummary>)
    ensures
        slug_ordered(group_keys(tags, ops)),
{
    if tagged(ops) {
        lemma_by_slug_ordered(sorted_set(op_tag_names(ops)));
    } else {
        lemma_by_slug_ordered(sorted_set(path_keys(ops)));
    }
}

fn endpoint_for(o: &OperationSummary) -> (e: Endpoint)
    ensures
        endpoint_is(e, *o),
{
    Endpoint {
        method: owned(o.method.as_str()),
        path: owned(o.path.as_str()),
        summary: match &o.summary { Some(s) => Some(owned(s.as_str())), None => None },
        description: match &o.description { Some(s) => Some(owned(s.as_str())), None => None },
        is_deprecated: o.deprecated,
        is_alpha: o.alpha,
        external_docs: None,
        parameters: Vec::new(),
        request_body: None,
        responses: Vec::new(),
        security_schemes: Vec::new(),
        callbacks: Vec::new(),
        links: Vec::new(),
        drill_deeper: Vec::new(),
    }
}


fn collect_tag_keys(ops: &Vec<OperationSummary>) -> (r: Vec<String>)
    ensures
        strictly_sorted(names_of(r@)),
        names_of(r@).to_set() == op_tag_names(ops@),
{
    let mut keys: Vec<String> = Vec::new();
    assert(names_of(keys@).to_set() =~= Set::<Seq<char>>::empty());
    let mut j: usize = 0;
    assert(op_tag_names(ops@.take(0)) =~= Set::<Seq<char>>::empty());
    while j < ops.len()
        invariant
            j <= ops.len(),
            strictly_sorted(names_of(keys@)),
            names_of(keys@).to_set() == op_tag_names(ops@.take(j as int)),
        decreases ops.len() - j,
    {
        let op = &ops[j];
        let ghost base = names_of(keys@).to_set();
        let mut t: usize = 0;
        assert(strings_set(op.tags@.take(0)) =~= Set::<Seq<char>>::empty());
        while t < op.tags.len()
            invariant
                t <= op.tags.len(),
                strictly_sorted(names_of(keys@)),
                names_of(keys@).to_set() == base + strings_set(op.tags@.take(t as int)),
            decreases op.tags.len() - t,
        {
            assert(op.tags@.take(t + 1).drop_last() =~= op.tags@.take(t as int));
            insert_name(&mut keys, op.tags[t].as_str());
            t = t + 1;
        }
        assert(op.tags@.take(op.tags@.len() as int) =~= op.tags@);
        assert(ops@.take(j + 1).drop_last() =~= ops@.take(j as int));
        assert(names_of(keys@).to_set() =~= op_tag_names(ops@.take(j + 1)));
        j = j + 1;
    }
    assert(ops@.take(ops@.len() as int) =~= ops@);
    keys
}

fn collect_path_keys(ops: &Vec<OperationSummary>) -> (r: Vec<String>)
    ensures
        strictly_sorted(names_of(r@)),
        names_of(r@).to_set() == path_keys(ops@),
{
    let mut keys: Vec<String> = Vec::new();
    assert(names_of(keys@).to_set() =~= path_keys(ops@.take(0)));
    let mut j: usize = 0;
    while j < ops.len()
        invariant
            j <= ops.len(),
            strictly_sorted(names_of(keys@)),
            names_of(keys@).to_set() == path_keys(ops@.take(j as int)),
        decreases ops.len() - j,
    {
        assert(ops@.take(j + 1).drop_last() =~= ops@.take(j as int));
        match path_prefix_group_name(ops[j].path.as_str()) {
            Some(g) => {
                insert_name(&mut keys, g.as_str());
            },
            None => {},
        }
        j = j + 1;
    }
    assert(ops@.take(ops@.len() as int) =~= ops@);
    keys
}

proof fn lemma_insert_by_slug_at(t: Seq<Seq<char>>, x: Seq<char>, q: int)
    requires
        0 <= q <= t.len(),
        forall|k: int| 0 <= k < q ==> !lex_lt(spec_slugify(x), spec_slugify(#[trigger] t[k])),
        q < t.len() ==> lex_lt(spec_slugify(x), spec_slugify(t[q])),
    ensures
        insert_by_slug(t, x) == t.insert(q, x),
    decreases q,
{
    if q == 0 {
        if t.len() == 0 {
            assert(t.insert(0, x) =~= seq![x]);
        } else {
            assert(t.insert(0, x) =~= seq![x] + t);
        }
    } else {
        let u = t.drop_first();
        assert forall|k: int| 0 <= k < q - 1 implies !lex_lt(spec_slugify(x), spec_slugify(#[trigger] u[k])) by {
            assert(u[k] == t[k + 1]);
        }
        lemma_insert_by_slug_at(u, x, q - 1);
        assert(t.insert(q, x) =~= seq![t[0]] + u.insert(q - 1, x));
    }
}

fn order_by_slug(keys: &Vec<String>) -> (r: Vec<String>)
    ensures
        names_of(r@) == by_slug(names_of(keys@)),
{
    let ghost kv = names_of(keys@);
    let mut r: Vec<String> = Vec::new();
    let mut slugs: Vec<String> = Vec::new();
    let mut i: usize = 0;
    while i < keys.len()
        invariant
            i <= keys.len(),
            kv == names_of(keys@),
            names_of(r@) == by_slug(kv.take(i as int)),
            slugs@.len() == r@.len(),
            forall|k: int| 0 <= k < r@.len() ==> (#[trigger] slugs@[k])@ == spec_slugify(r@[k]@),
        decreases keys.len() - i,
    {
        let x = &keys[i];
        let sx = slugify(x.as_str());
        let ghost rv = names_of(r@);
        let mut q: usize = 0;
        while q < r.len() && !name_less(sx.as_str(), slugs[q].as_str())
            invariant
                q <= r.len(),
                slugs@.len() == r@.len(),
                rv == names_of(r@),
                sx@ == spec_slugify(x@),
                forall|k: int| 0 <= k < r@.len() ==> (#[trigger] slugs@[k])@ == spec_slugify(r@[k]@),
                forall|k: int| 0 <= k < q ==> !lex_lt(spec_slugify(x@), spec_slugify(#[trigger] rv[k])),
            decreases r.len() - q,
        {
            assert(slugs@[q as int]@ == spec_slugify(rv[q as int]));
            q = q + 1;
        }
        proof {
            if q < r.len() {
                assert(slugs@[q as int]@ == spec_slugify(rv[q as int]));
            }
            lemma_insert_by_slug_at(rv, x@, q as int);
            assert(kv.take(i + 1).drop_last() =~= kv.take(i as int));
        }
        let ghost sb = slugs@;
        let ghost rb = r@;
        r.insert(q, owned(x.as_str()));
        slugs.insert(q, sx);
        proof {
            assert(names_of(r@) =~= rv.insert(q as int, x@));
            assert forall|k: int| 0 <= k < r@.len() implies (#[trigger] slugs@[k])@ == spec_slugify(r@[k]@) by {
                if k < q {
                    assert(slugs@[k] == sb[k] && r@[k] == rb[k]);
                } else if k > q {
                    assert(slugs@[k] == sb[k - 1] && r@[k] == rb[k - 1]);
                }
            }
        }
        i = i + 1;
    }
    assert(kv.take(kv.len() as int) =~= kv);
    r
}

fn tag_description(tags: &Vec<TagInfo>, k: &str) -> (r: Option<String>)
    ensures
        opt_view(r) == tag_desc(tags@, k@),
{
    let mut i: usize = tags.len();
    assert(tags@.take(tags@.len() as int) =~= tags@);
    while i > 0
        invariant
            i <= tags.len(),
            tag_desc(tags@, k@) == tag_desc(tags@.take(i as int), k@),
        decreases i,
    {
        assert(tags@.take(i as int).drop_last() =~= tags@.take(i - 1));
        if str_eq(tags[i - 1].name.as_str(), k) {
            return match &tags[i - 1].description {
                Some(d) => Some(owned(d.as_str())),
                None => None,
            };
        }
        i = i - 1;
    }
    None
}

fn tag_group(k: &str, tags: &Vec<TagInfo>, ops: &Vec<OperationSummary>) -> (g: ResourceGroup)
    ensures
        tag_group_is(g, k@, tags@, ops@),
{
    let mut endpoints: Vec<Endpoint> = Vec::new();
    let mut j: usize = 0;
    while j < ops.len()
        invariant
            j <= ops.len(),
            endpoints_are(endpoints@, ops_with_tag(ops@.take(j as int), k@)),
        decreases ops.len() - j,
    {
        let op = &ops[j];
        let ghost before = ops_with_tag(ops@.take(j as int), k@);
        let mut t: usize = 0;
        while t < op.tags.len()
            invariant
                t <= op.tags.len(),
                endpoints_are(endpoints@, before + Seq::new(tag_count(op.tags@.take(t as int), k@), |i: int| *op)),
            decreases op.tags.len() - t,
        {
            assert(op.tags@.take(t + 1).drop_last() =~= op.tags@.take(t as int));
            if str_eq(op.tags[t].as_str(), k) {
                let e = endpoint_for(op);
                let ghost eb = endpoints@;
                endpoints.push(e);
                proof {
                    let n = tag_count(op.tags@.take(t as int), k@);
                    let want = before + Seq::new(n + 1, |i: int| *op);
                    assert(want =~= (before + Seq::new(n, |i: int| *op)).push(*op));
                    assert forall|i: int| 0 <= i < endpoints@.len() implies endpoint_is(#[trigger] endpoints@[i], want[i]) by {
                        if i < eb.len() {
                            assert(endpoints@[i] == eb[i]);
                        }
                    }
                }
            }
            t = t + 1;
        }
        proof {
            assert(op.tags@.take(op.tags@.len() as int) =~= op.tags@);
            assert(ops@.take(j + 1).drop_last() =~= ops@.take(j as int));
            assert(ops@.take(j + 1).last() == *op);
        }
        j = j + 1;
    }
    assert(ops@.take(ops@.len() as int) =~= ops@);
    ResourceGroup {
        slug: slugify(k),
        display_name: humanize_tag_name(k),
        description: tag_description(tags, k),
        is_deprecated: is_deprecated_tag(k),
        is_alpha: is_alpha_tag(k),
        endpoints,
    }
}

fn path_group(k: &str, ops: &Vec<OperationSummary>) -> (g: ResourceGroup)
    ensures
        path_group_is(g, k@, ops@),
{
    let mut endpoints: Vec<Endpoint> = Vec::new();
    let mut j: usize = 0;
    while j < ops.len()
        invariant
            j <= ops.len(),
            endpoints_are(endpoints@, ops_in_group(ops@.take(j as int), k@)),
        decreases ops.len() - j,
    {
        let op = &ops[j];
        proof {
            assert(ops@.take(j + 1).drop_last() =~= ops@.take(j as int));
            assert(ops@.take(j + 1).last() == *op);
        }
        let name = path_prefix_group_name(op.path.as_str());
        let is_in = match &name {
            Some(g) => str_eq(g.as_str(), k),
            None => false,
        };
        if is_in {
            let e = endpoint_for(op);
            let ghost eb = endpoints@;
            endpoints.push(e);
            proof {
                let want = ops_in_group(ops@.take(j as int), k@).push(*op);
                assert forall|i: int| 0 <= i < endpoints@.len() implies endpoint_is(#[trigger] endpoints@[i], want[i]) by {
                    if i < eb.len() {
                        assert(endpoints@[i] == eb[i]);
                    }
                }
            }
        }
        j = j + 1;
    }
    assert(ops@.take(ops@.len() as int) =~= ops@);
    ResourceGroup {
        slug: slugify(k),
        display_name: humanize_tag_name(k),
        description: None,
        is_deprecated: false,
        is_alpha: false,
        endpoints,
    }
}

fn any_tagged(ops: &Vec<OperationSummary>) -> (r: bool)
    ensures
        r == tagged(ops@),
{
    let mut i: usize = 0;
    while i < ops.len()
        invariant
            i <= ops.len(),
            forall|k: int| 0 <= k < i ==> (#[trigger] ops@[k]).tags@.len() == 0,
        decreases ops.len() - i,
    {
        if ops[i].tags.len() > 0 {
            return true;
        }
        i = i + 1;
    }
    false
}

proof fn lemma_by_slug_members(s: Seq<Seq<char>>)
    ensures
        forall|k: int| 0 <= k < by_slug(s).len() ==> s.contains(#[trigger] by_slug(s)[k]),
        by_slug(s).len() == s.len(),
    decreases s.len(),
{
    if s.len() > 0 {
        let d = s.drop_last();
        lemma_by_slug_members(d);
        lemma_by_slug_ordered(d);
        lemma_insert_by_slug_ordered(by_slug(d), s.last());
        let b = by_slug(s);
        assert forall|k: int| 0 <= k < b.len() implies s.contains(#[trigger] b[k]) by {
            if b[k] == s.last() {
                assert(s[s.len() - 1] == b[k]);
            } else {
                let m = choose|m: int| 0 <= m < by_slug(d).len() && by_slug(d)[m] == b[k];
                let n = choose|n: int| 0 <= n < d.len() && d[n] == by_slug(d)[m];
                assert(s[n] == d[n]);
            }
        }
    }
}

proof fn lemma_tag_count_positive(ts: Seq<String>, k: Seq<char>)
    requires
        strings_set(ts).contains(k),
    ensures
        tag_count(ts, k) > 0,
    decreases ts.len(),
{
    if ts.len() > 0 && ts.last()@ != k {
        lemma_tag_count_positive(ts.drop_last(), k);
    }
}

/// A tag some operation uses has an endpoint under it.
proof fn lemma_used_tag_has_ops(ops: Seq<OperationSummary>, k: Seq<char>)
    requires
        op_tag_names(ops).contains(k),
    ensures
        ops_with_tag(ops, k).len() > 0,
    decreases ops.len(),
{
    if ops.len() > 0 {
        if strings_set(ops.last().tags@).contains(k) {
            lemma_tag_count_positive(ops.last().tags@, k);
        } else {
            lemma_used_tag_has_ops(ops.drop_last(), k);
        }
    }
}

/// A path group some operation falls in has an endpoint in it.
proof fn lemma_path_key_has_ops(ops: Seq<OperationSummary>, k: Seq<char>)
    requires
        path_keys(ops).contains(k),
    ensures
        ops_in_group(ops, k).len() > 0,
    decreases ops.len(),
{
    if ops.len() > 0 && group_segment_from(ops.last().path@, 0) != Some(k) {
        lemma_path_key_has_ops(ops.drop_last(), k);
    }
}

/// Groups the document's endpoints into resources: one group per tag that
/// some operation uses (the declared tags give descriptions), an endpoint
/// under each tag its operation lists; where no operation has a tag, one
/// group per leading path segment. Groups are ordered by slug, equal slugs
/// by name, and no group is empty.
pub fn extract_resource_groups(tags: &Vec<TagInfo>, ops: &Vec<OperationSummary>) -> (r: Vec<ResourceGroup>)
    ensures
        r@.len() == group_keys(tags@, ops@).len(),
        forall|i: int| 0 <= i < r@.len() ==> if tagged(ops@) {
            tag_group_is(#[trigger] r@[i], group_keys(tags@, ops@)[i], tags@, ops@)
        } else {
            path_group_is(#[trigger] r@[i], group_keys(tags@, ops@)[i], ops@)
        },
        forall|i: int| 0 <= i < r@.len() ==> (#[trigger] r@[i]).endpoints@.len() > 0,
{
    let is_tagged = any_tagged(ops);
    let keys = if is_tagged { collect_tag_keys(ops) } else { collect_path_keys(ops) };
    proof { lemma_sorted_set(names_of(keys@)); }
    let ordered = order_by_slug(&keys);
    let ghost gk = group_keys(tags@, ops@);
    assert(names_of(ordered@) == gk);
    proof { lemma_by_slug_members(names_of(keys@)); }
    let mut r: Vec<ResourceGroup> = Vec::new();
    let mut i: usize = 0;
    while i < ordered.len()
        invariant
            i <= ordered.len(),
            names_of(ordered@) == gk,
            gk == group_keys(tags@, ops@),
            is_tagged == tagged(ops@),
            r@.len() == i,
            forall|k: int| 0 <= k < gk.len() ==> names_of(keys@).contains(#[trigger] gk[k]),
            names_of(keys@).to_set() == if tagged(ops@) { op_tag_names(ops@) } else { path_keys(ops@) },
            forall|k: int| 0 <= k < i ==> (#[trigger] r@[k]).endpoints@.len() > 0,
            forall|k: int| 0 <= k < i ==> if tagged(ops@) {
                tag_group_is(#[trigger] r@[k], gk[k], tags@, ops@)
            } else {
                path_group_is(#[trigger] r@[k], gk[k], ops@)
            },
        decreases ordered.len() - i,
    {
        assert(ordered@[i as int]@ == gk[i as int]);
        proof {
            assert(names_of(keys@).contains(gk[i as int]));
            assert(names_of(keys@).to_set().contains(gk[i as int]));
            if tagged(ops@) {
                lemma_used_tag_has_ops(ops@, gk[i as int]);
            } else {
                lemma_path_key_has_ops(ops@, gk[i as int]);
            }
        }
        let g = if is_tagged {
            tag_group(ordered[i].as_str(), tags, ops)
        } else {
            path_group(ordered[i].as_str(), ops)
        };
        let ghost rb = r@;
        r.push(g);
        proof {
            assert forall|k: int| 0 <= k < r@.len() implies (if tagged(ops@) {
                tag_group_is(#[trigger] r@[k], gk[k], tags@, ops@)
            } else {
                path_group_is(r@[k], gk[k], ops@)
            }) by {
                if k < rb.len() {
                    assert(r@[k] == rb[k]);
                }
            }
            assert forall|k: int| 0 <= k < r@.len() implies (#[trigger] r@[k]).endpoints@.len() > 0 by {
                if k < rb.len() {
                    assert(r@[k] == rb[k]);
                }
            }
        }
        i = i + 1;
    }
    r
}


/// Finds a resource group by slug, ignoring case.
pub fn find_resource_group(groups: &[ResourceGroup], slug: &str) -> (r: Option<usize>)
    ensures
        match r {
            Some(i) => i < groups@.len() && lowercase(groups@[i as int].slug@) == lowercase(slug@)
                && forall|k: int| 0 <= k < i ==> lowercase((#[trigger] groups@[k]).slug@) != lowercase(slug@),
            None => forall|k: int| 0 <= k < groups@.len() ==> lowercase((#[trigger] groups@[k]).slug@) != lowercase(slug@),
        },
{
    let target = str_to_lowercase(slug);
    let mut i: usize = 0;
    while i < groups.len()
        invariant
            i <= groups.len(),
            target@ == lowercase(slug@),
            forall|k: int| 0 <= k < i ==> lowercase((#[trigger] groups@[k]).slug@) != lowercase(slug@),
        decreases groups.len() - i,
    {
        let l = str_to_lowercase(groups[i].slug.as_str());
        if str_eq(l.as_str(), target.as_str()) {
            return Some(i);
        }
        i = i + 1;
    }
    None
}

/// The group of a key, by tags where operations have them, else by path.
pub open spec fn group_is(g: ResourceGroup, k: Seq<char>, tags: Seq<TagInfo>, ops: Seq<OperationSummary>) -> bool {
    if tagged(ops) { tag_group_is(g, k, tags, ops) } else { path_group_is(g, k, ops) }
}

/// The first resource group whose slug matches, ignoring case, or `None`.
pub fn get_resource_detail(tags: &Vec<TagInfo>, ops: &Vec<OperationSummary>, slug: &str) -> (r: Option<ResourceGroup>)
    ensures
        match r {
            Some(g) => exists|i: int| 0 <= i < group_keys(tags@, ops@).len()
                && group_is(g, #[trigger] group_keys(tags@, ops@)[i], tags@, ops@)
                && lowercase(spec_slugify(group_keys(tags@, ops@)[i])) == lowercase(slug@)
                && forall|k: int| 0 <= k < i ==> lowercase(spec_slugify(#[trigger] group_keys(tags@, ops@)[k])) != lowercase(slug@),
            None => forall|k: int| 0 <= k < group_keys(tags@, ops@).len()
                ==> lowercase(spec_slugify(#[trigger] group_keys(tags@, ops@)[k])) != lowercase(slug@),
        },
{
    let groups = extract_resource_groups(tags, ops);
    let ghost gk = group_keys(tags@, ops@);
    let ghost g0 = groups@;
    assert forall|k: int| 0 <= k < g0.len() implies (#[trigger] g0[k]).slug@ == spec_slugify(gk[k]) by {
        assert(group_is(g0[k], gk[k], tags@, ops@));
    }
    let idx = match find_resource_group(groups.as_slice(), slug) {
        Some(i) => i,
        None => {
            assert forall|k: int| 0 <= k < gk.len() implies lowercase(spec_slugify(#[trigger] gk[k])) != lowercase(slug@) by {
                assert(g0[k].slug@ == spec_slugify(gk[k]));
            }
            return None;
        },
    };
    let mut rest = groups;
    let g = rest.remove(idx);
    proof {
        assert(g == g0[idx as int]);
        assert(group_is(g, gk[idx as int], tags@, ops@));
        assert forall|k: int| 0 <= k < idx implies lowercase(spec_slugify(#[trigger] gk[k])) != lowercase(slug@) by {
            assert(g0[k].slug@ == spec_slugify(gk[k]));
        }
    }
    Some(g)
}

} // verus!
