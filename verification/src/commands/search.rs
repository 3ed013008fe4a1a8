//! Results of a search across resources, endpoints, schemas, callbacks and
//! security schemes.
use vstd::prelude::*;
use crate::strutil::{contains_seq, lowercase, seq_contains, str_to_lowercase, to_chars};
use crate::models::resource::{ResourceGroup, slugify, spec_slugify};
use crate::commands::init::opt_view;
use crate::commands::resources::{group_segment_from, path_prefix_group_name};
use crate::render::sanitize::{opt_text, owned, str_eq};
use crate::models::openapi::{extract_object_properties, object_properties, SchemaKind, SchemaNode, SchemaRef};
use crate::commands::schemas::{find_schema, spec_find_schema};

verus! {

#[derive(Debug, Clone)]
pub struct CallbackMatch {
    pub name: String,
    pub defined_on_path: String,
}

#[derive(Debug, Clone)]
pub struct SecuritySchemeMatch {
    pub name: String,
    pub scheme_type: String,
    pub description: Option<String>,
}

#[derive(Debug)]
pub struct SearchResults {
    pub term: String,
    pub resources: Vec<ResourceMatch>,
    pub endpoints: Vec<EndpointMatch>,
    pub schemas: Vec<SchemaMatch>,
    pub callbacks: Vec<CallbackMatch>,
    pub security_schemes: Vec<SecuritySchemeMatch>,
    pub suggestions: Vec<String>,
}

#[derive(Debug, Clone)]
pub struct ResourceMatch {
    pub slug: String,
    pub description: Option<String>,
}

#[derive(Debug, Clone)]
pub struct EndpointMatch {
    pub method: String,
    pub path: String,
    pub summary: Option<String>,
    pub resource_slug: String,
    pub matched_on: Option<String>,
}

#[derive(Debug, Clone)]
pub struct SchemaMatch {
    pub name: String,
    pub matched_field: Option<String>,
    /// Why the schema matched where neither its name nor a property did.
    pub matched_on: Option<String>,
}


// ───────────────────────── what is searched ─────────────────────────

/// One operation of the document: its method and path, texts, tags, and
/// its parameters as (name, description).
#[derive(Debug)]
pub struct OperationEntry {
    pub method: String,
    pub path: String,
    pub summary: Option<String>,
    pub description: Option<String>,
    pub tags: Vec<String>,
    pub parameters: Vec<(String, Option<String>)>,
    /// The description of its request body, where given inline.
    pub body_description: Option<String>,
    /// The descriptions of its responses given inline.
    pub response_descriptions: Vec<String>,
}

/// A named schema and the names of the properties searched within it.
#[derive(Debug)]
pub struct SchemaEntry {
    pub name: String,
    pub description: Option<String>,
    pub field_names: Vec<String>,
}

/// What a search looks through: the resource groups, the operations (in
/// path order, then GET, PUT, POST, DELETE, OPTIONS, HEAD, PATCH, TRACE),
/// the schemas, the callbacks and the security schemes.
#[derive(Debug)]
pub struct SearchIndex {
    pub groups: Vec<ResourceGroup>,
    pub operations: Vec<OperationEntry>,
    pub schemas: Vec<SchemaEntry>,
    pub callbacks: Vec<CallbackMatch>,
    /// The security schemes: name, type and description.
    pub security_schemes: Vec<SecuritySchemeMatch>,
}

// ───────────────────────── what a schema is searched by ─────────────────────────

/// The names of a list of properties, in order.
pub open spec fn prop_names(ps: Seq<(String, SchemaRef)>) -> Seq<Seq<char>> {
    ps.map_values(|p: (String, SchemaRef)| p.0@)
}

/// The property names of an inline object part of an `allOf`.
pub open spec fn part_names(r: SchemaRef) -> Seq<Seq<char>> {
    match r {
        SchemaRef::Item(b) => match object_properties(*b) {
            Some(p) => prop_names(p.0),
            None => seq![],
        },
        SchemaRef::Reference(_) => seq![],
    }
}

pub open spec fn parts_names(parts: Seq<SchemaRef>) -> Seq<Seq<char>>
    decreases parts.len(),
{
    if parts.len() == 0 {
        seq![]
    } else {
        parts_names(parts.drop_last()) + part_names(parts.last())
    }
}

/// The property names a search looks at in a schema: its own, or else
/// those of the inline object parts of an `allOf`, in order.
pub open spec fn spec_searchable_fields(s: SchemaNode) -> Seq<Seq<char>> {
    match object_properties(s) {
        Some(p) => prop_names(p.0),
        None => match s.kind {
            SchemaKind::AllOf(parts) => parts_names(parts@),
            _ => seq![],
        },
    }
}

fn push_prop_names(out: &mut Vec<String>, ps: &Vec<(String, SchemaRef)>)
    ensures
        names_view(final(out)@) == names_view(old(out)@) + prop_names(ps@),
{
    let ghost b = names_view(out@);
    let mut i: usize = 0;
    while i < ps.len()
        invariant
            i <= ps.len(),
            names_view(out@) == b + prop_names(ps@).take(i as int),
        decreases ps.len() - i,
    {
        let ghost before = names_view(out@);
        out.push(owned(ps[i].0.as_str()));
        assert(names_view(out@) =~= before.push(ps@[i as int].0@));
        assert(prop_names(ps@).take(i + 1) =~= prop_names(ps@).take(i as int).push(ps@[i as int].0@));
        i = i + 1;
    }
    assert(prop_names(ps@).take(ps@.len() as int) =~= prop_names(ps@));
}

/// The property names a search looks at in a schema (see
/// `spec_searchable_fields`).
pub fn searchable_fields(s: &SchemaNode) -> (r: Vec<String>)
    ensures
        names_view(r@) == spec_searchable_fields(*s),
{
    let mut out: Vec<String> = Vec::new();
    match extract_object_properties(s) {
        Some((props, _)) => {
            push_prop_names(&mut out, props);
            assert(names_view(out@) =~= prop_names(props@));
            return out;
        },
        None => {},
    }
    match &s.kind {
        SchemaKind::AllOf(parts) => {
            let mut i: usize = 0;
            assert(parts_names(parts@.take(0)) =~= names_view(out@));
            while i < parts.len()
                invariant
                    i <= parts.len(),
                    names_view(out@) == parts_names(parts@.take(i as int)),
                decreases parts.len() - i,
            {
                proof {
                    assert(parts@.take(i + 1).drop_last() =~= parts@.take(i as int));
                    assert(parts@.take(i + 1).last() == parts@[i as int]);
                }
                match &parts[i] {
                    SchemaRef::Item(b) => match extract_object_properties(b) {
                        Some((props, _)) => push_prop_names(&mut out, props),
                        None => {
                            assert(names_view(out@) =~= names_view(out@) + Seq::<Seq<char>>::empty());
                        },
                    },
                    SchemaRef::Reference(_) => {
                        assert(names_view(out@) =~= names_view(out@) + Seq::<Seq<char>>::empty());
                    },
                }
                i = i + 1;
            }
            assert(parts@.take(parts@.len() as int) =~= parts@);
            out
        },
        _ => {
            assert(names_view(out@) =~= Seq::<Seq<char>>::empty());
            out
        },
    }
}

/// A named schema as a search reads it: the name, and the searchable
/// property names of the schema it finds (see `find_schema`), if any.
pub fn schema_entry(comps: &Vec<(String, SchemaRef)>, name: &str) -> (r: SchemaEntry)
    ensures
        r.name@ == name@,
        opt_view(r.description) == match spec_find_schema(comps@, name@) {
            Some(p) => opt_view(p.1.description),
            None => None,
        },
        names_view(r.field_names@) == match spec_find_schema(comps@, name@) {
            Some(p) => spec_searchable_fields(p.1),
            None => Seq::<Seq<char>>::empty(),
        },
{
    match find_schema(comps, name) {
        Some((_, s)) => SchemaEntry {
            name: owned(name),
            description: copy_opt_str(&s.description),
            field_names: searchable_fields(s),
        },
        None => {
            let v: Vec<String> = Vec::new();
            assert(names_view(v@) =~= Seq::<Seq<char>>::empty());
            SchemaEntry { name: owned(name), description: None, field_names: v }
        },
    }
}

/// The (lowercased) term occurs in the lowercased text.
pub open spec fn term_in(text: Seq<char>, t: Seq<char>) -> bool {
    contains_seq(lowercase(text), t)
}

pub open spec fn group_hit(g: ResourceGroup, t: Seq<char>) -> bool {
    term_in(g.slug@, t) || term_in(opt_text(g.description), t)
}

pub open spec fn resource_hits(gs: Seq<ResourceGroup>, t: Seq<char>) -> Seq<(Seq<char>, Option<Seq<char>>)>
    decreases gs.len(),
{
    if gs.len() == 0 {
        seq![]
    } else if group_hit(gs.last(), t) {
        resource_hits(gs.drop_last(), t).push((gs.last().slug@, opt_view(gs.last().description)))
    } else {
        resource_hits(gs.drop_last(), t)
    }
}

/// A resource group whose lowercased slug holds the (lowercased) term is
/// among the resources found, with its slug and description, whatever its
/// description says or lacks.
pub proof fn lemma_slug_match_found(gs: Seq<ResourceGroup>, t: Seq<char>, i: int)
    requires
        0 <= i < gs.len(),
        contains_seq(lowercase(gs[i].slug@), t),
    ensures
        resource_hits(gs, t).contains((gs[i].slug@, opt_view(gs[i].description))),
    decreases gs.len(),
{
    if i == gs.len() - 1 {
        assert(gs.last() == gs[i]);
        let r = resource_hits(gs, t);
        assert(r == resource_hits(gs.drop_last(), t).push((gs[i].slug@, opt_view(gs[i].description))));
        assert(r[r.len() - 1] == (gs[i].slug@, opt_view(gs[i].description)));
    } else {
        assert(gs.drop_last()[i] == gs[i]);
        lemma_slug_match_found(gs.drop_last(), t, i);
        let prev = resource_hits(gs.drop_last(), t);
        let k = choose|k: int| 0 <= k < prev.len() && prev[k] == (gs[i].slug@, opt_view(gs[i].description));
        if group_hit(gs.last(), t) {
            let r = prev.push((gs.last().slug@, opt_view(gs.last().description)));
            assert(r[k] == prev[k]);
        }
    }
}

/// The first parameter whose name or description holds the term.
pub open spec fn param_hit(ps: Seq<(String, Option<String>)>, t: Seq<char>) -> Option<Seq<char>>
    decreases ps.len(),
{
    if ps.len() == 0 {
        None
    } else if term_in(ps[0].0@, t) || term_in(opt_text(ps[0].1), t) {
        Some(ps[0].0@)
    } else {
        param_hit(ps.drop_first(), t)
    }
}

pub open spec fn text_hit(o: OperationEntry, t: Seq<char>) -> bool {
    term_in(o.path@, t) || term_in(opt_text(o.summary), t) || term_in(opt_text(o.description), t)
}

/// Some of the texts holds the term.
pub open spec fn any_text_hit(ds: Seq<String>, t: Seq<char>) -> bool {
    exists|i: int| 0 <= i < ds.len() && term_in((#[trigger] ds[i])@, t)
}

pub open spec fn op_hit(o: OperationEntry, t: Seq<char>) -> bool {
    text_hit(o, t) || param_hit(o.parameters@, t) is Some || term_in(opt_text(o.body_description), t)
        || any_text_hit(o.response_descriptions@, t)
}

/// The resource of an operation: its first tag as a slug, else the group
/// of its path, else nothing.
pub open spec fn op_slug(o: OperationEntry) -> Seq<char> {
    if o.tags@.len() > 0 {
        spec_slugify(o.tags@[0]@)
    } else {
        match group_segment_from(o.path@, 0) {
            Some(s) => s,
            None => seq![],
        }
    }
}

/// Why an operation matched, where neither its path nor its summary did:
/// its description, else the first parameter, else its request body's
/// description, else a response's description.
pub open spec fn op_matched_on(o: OperationEntry, t: Seq<char>) -> Option<Seq<char>> {
    if term_in(o.path@, t) || term_in(opt_text(o.summary), t) {
        None
    } else if term_in(opt_text(o.description), t) {
        Some("description"@)
    } else {
        match param_hit(o.parameters@, t) {
            Some(n) => Some("parameter: "@ + n),
            None => if term_in(opt_text(o.body_description), t) {
                Some("request body description"@)
            } else if any_text_hit(o.response_descriptions@, t) {
                Some("response description"@)
            } else {
                None
            },
        }
    }
}

pub open spec fn endpoint_view(m: EndpointMatch) -> (Seq<char>, Seq<char>, Option<Seq<char>>, Seq<char>, Option<Seq<char>>) {
    (m.method@, m.path@, opt_view(m.summary), m.resource_slug@, opt_view(m.matched_on))
}

pub open spec fn endpoint_hits(os: Seq<OperationEntry>, t: Seq<char>) -> Seq<(Seq<char>, Seq<char>, Option<Seq<char>>, Seq<char>, Option<Seq<char>>)>
    decreases os.len(),
{
    if os.len() == 0 {
        seq![]
    } else if op_hit(os.last(), t) {
        let o = os.last();
        endpoint_hits(os.drop_last(), t).push((o.method@, o.path@, opt_view(o.summary), op_slug(o), op_matched_on(o, t)))
    } else {
        endpoint_hits(os.drop_last(), t)
    }
}

/// The first property name that holds the term.
pub open spec fn field_hit(fs: Seq<String>, t: Seq<char>) -> Option<Seq<char>>
    decreases fs.len(),
{
    if fs.len() == 0 {
        None
    } else if term_in(fs[0]@, t) {
        Some(fs[0]@)
    } else {
        field_hit(fs.drop_first(), t)
    }
}

pub open spec fn schema_view(m: SchemaMatch) -> (Seq<char>, Option<Seq<char>>, Option<Seq<char>>) {
    (m.name@, opt_view(m.matched_field), opt_view(m.matched_on))
}

/// Schemas whose name holds the term; or else one of whose properties does
/// (with that property); or else whose description does (so annotated).
pub open spec fn schema_hits(ss: Seq<SchemaEntry>, t: Seq<char>) -> Seq<(Seq<char>, Option<Seq<char>>, Option<Seq<char>>)>
    decreases ss.len(),
{
    if ss.len() == 0 {
        seq![]
    } else {
        let s = ss.last();
        let rest = schema_hits(ss.drop_last(), t);
        if term_in(s.name@, t) {
            rest.push((s.name@, None, None))
        } else {
            match field_hit(s.field_names@, t) {
                Some(f) => rest.push((s.name@, Some(f), None)),
                None => if term_in(opt_text(s.description), t) {
                    rest.push((s.name@, None, Some("description"@)))
                } else {
                    rest
                },
            }
        }
    }
}

pub open spec fn callback_hits(cs: Seq<CallbackMatch>, t: Seq<char>) -> Seq<(Seq<char>, Seq<char>)>
    decreases cs.len(),
{
    if cs.len() == 0 {
        seq![]
    } else if term_in(cs.last().name@, t) || term_in(cs.last().defined_on_path@, t) {
        callback_hits(cs.drop_last(), t).push((cs.last().name@, cs.last().defined_on_path@))
    } else {
        callback_hits(cs.drop_last(), t)
    }
}

pub open spec fn scheme_view(m: SecuritySchemeMatch) -> (Seq<char>, Seq<char>, Option<Seq<char>>) {
    (m.name@, m.scheme_type@, opt_view(m.description))
}

/// The security schemes whose name or description holds the term.
pub open spec fn scheme_hits(ss: Seq<SecuritySchemeMatch>, t: Seq<char>) -> Seq<(Seq<char>, Seq<char>, Option<Seq<char>>)>
    decreases ss.len(),
{
    if ss.len() == 0 {
        seq![]
    } else if term_in(ss.last().name@, t) || term_in(opt_text(ss.last().description), t) {
        scheme_hits(ss.drop_last(), t).push(scheme_view(ss.last()))
    } else {
        scheme_hits(ss.drop_last(), t)
    }
}

// ───────────────────────── searching ─────────────────────────

fn hit(text: &str, t: &Vec<char>) -> (r: bool)
    ensures
        r == term_in(text@, t@),
{
    let l = str_to_lowercase(text);
    let v = to_chars(l.as_str());
    seq_contains(&v, t)
}

fn opt_hit(o: &Option<String>, t: &Vec<char>) -> (r: bool)
    ensures
        r == term_in(opt_text(*o), t@),
{
    match o {
        Some(s) => hit(s.as_str(), t),
        None => {
            let r = hit("", t);
            proof { reveal_strlit(""); }
            assert(""@ =~= opt_text(*o));
            r
        },
    }
}

fn copy_opt_str(o: &Option<String>) -> (r: Option<String>)
    ensures
        opt_view(r) == opt_view(*o),
{
    match o {
        Some(s) => Some(owned(s.as_str())),
        None => None,
    }
}

fn search_resources(gs: &Vec<ResourceGroup>, t: &Vec<char>) -> (r: Vec<ResourceMatch>)
    ensures
        r@.map_values(|m: ResourceMatch| (m.slug@, opt_view(m.description))) == resource_hits(gs@, t@),
{
    let mut r: Vec<ResourceMatch> = Vec::new();
    let mut i: usize = 0;
    while i < gs.len()
        invariant
            i <= gs.len(),
            r@.map_values(|m: ResourceMatch| (m.slug@, opt_view(m.description))) == resource_hits(gs@.take(i as int), t@),
        decreases gs.len() - i,
    {
        proof { assert(gs@.take(i + 1).drop_last() =~= gs@.take(i as int)); }
        let g = &gs[i];
        if hit(g.slug.as_str(), t) || opt_hit(&g.description, t) {
            let m = ResourceMatch { slug: owned(g.slug.as_str()), description: copy_opt_str(&g.description) };
            let ghost b = r@;
            r.push(m);
            assert(r@.map_values(|m: ResourceMatch| (m.slug@, opt_view(m.description)))
                =~= b.map_values(|m: ResourceMatch| (m.slug@, opt_view(m.description))).push((m.slug@, opt_view(m.description))));
        }
        i = i + 1;
    }
    assert(gs@.take(gs@.len() as int) =~= gs@);
    r
}

fn first_param_hit(ps: &Vec<(String, Option<String>)>, t: &Vec<char>) -> (r: Option<String>)
    ensures
        opt_view(r) == param_hit(ps@, t@),
{
    let mut i: usize = 0;
    assert(ps@.skip(0) =~= ps@);
    while i < ps.len()
        invariant
            i <= ps.len(),
            param_hit(ps@, t@) == param_hit(ps@.skip(i as int), t@),
        decreases ps.len() - i,
    {
        assert(ps@.skip(i as int)[0] == ps@[i as int]);
        if hit(ps[i].0.as_str(), t) || opt_hit(&ps[i].1, t) {
            return Some(owned(ps[i].0.as_str()));
        }
        assert(ps@.skip(i as int).drop_first() =~= ps@.skip(i + 1));
        i = i + 1;
    }
    None
}

fn endpoint_of(o: &OperationEntry, t: &Vec<char>) -> (r: Option<EndpointMatch>)
    ensures
        match r {
            Some(m) => op_hit(*o, t@) && endpoint_view(m) == (o.method@, o.path@, opt_view(o.summary), op_slug(*o), op_matched_on(*o, t@)),
            None => !op_hit(*o, t@),
        },
{
    let path_match = hit(o.path.as_str(), t);
    let summary_match = opt_hit(&o.summary, t);
    let desc_match = opt_hit(&o.description, t);
    let param = first_param_hit(&o.parameters, t);
    let body_match = opt_hit(&o.body_description, t);
    let response_match = any_hit(&o.response_descriptions, t);
    if !(path_match || summary_match || desc_match || param.is_some() || body_match || response_match) {
        return None;
    }
    let resource_slug = if o.tags.len() > 0 {
        slugify(o.tags[0].as_str())
    } else {
        match path_prefix_group_name(o.path.as_str()) {
            Some(s) => s,
            None => String::new(),
        }
    };
    assert(resource_slug@ =~= op_slug(*o));
    proof {
        reveal_strlit("description");
        reveal_strlit("request body description");
        reveal_strlit("response description");
    }
    let matched_on = if path_match || summary_match {
        None
    } else if desc_match {
        Some(owned("description"))
    } else {
        match &param {
            Some(n) => {
                let mut m = owned("parameter: ");
                crate::strutil::push_str(&mut m, n.as_str());
                Some(m)
            },
            None => if body_match {
                Some(owned("request body description"))
            } else if response_match {
                Some(owned("response description"))
            } else {
                None
            },
        }
    };
    Some(EndpointMatch {
        method: owned(o.method.as_str()),
        path: owned(o.path.as_str()),
        summary: copy_opt_str(&o.summary),
        resource_slug,
        matched_on,
    })
}

fn any_hit(ds: &Vec<String>, t: &Vec<char>) -> (r: bool)
    ensures
        r == any_text_hit(ds@, t@),
{
    let mut i: usize = 0;
    while i < ds.len()
        invariant
            i <= ds.len(),
            forall|k: int| 0 <= k < i ==> !term_in((#[trigger] ds@[k])@, t@),
        decreases ds.len() - i,
    {
        if hit(ds[i].as_str(), t) {
            return true;
        }
        i = i + 1;
    }
    false
}

fn search_endpoints(os: &Vec<OperationEntry>, t: &Vec<char>) -> (r: Vec<EndpointMatch>)
    ensures
        r@.map_values(|m: EndpointMatch| endpoint_view(m)) == endpoint_hits(os@, t@),
{
    let mut r: Vec<EndpointMatch> = Vec::new();
    let mut i: usize = 0;
    while i < os.len()
        invariant
            i <= os.len(),
            r@.map_values(|m: EndpointMatch| endpoint_view(m)) == endpoint_hits(os@.take(i as int), t@),
        decreases os.len() - i,
    {
        proof { assert(os@.take(i + 1).drop_last() =~= os@.take(i as int)); }
        match endpoint_of(&os[i], t) {
            Some(m) => {
                let ghost b = r@;
                let ghost mv = endpoint_view(m);
                r.push(m);
                assert(r@.map_values(|m: EndpointMatch| endpoint_view(m))
                    =~= b.map_values(|m: EndpointMatch| endpoint_view(m)).push(mv));
            },
            None => {},
        }
        i = i + 1;
    }
    assert(os@.take(os@.len() as int) =~= os@);
    r
}

fn first_field_hit(fs: &Vec<String>, t: &Vec<char>) -> (r: Option<String>)
    ensures
        opt_view(r) == field_hit(fs@, t@),
{
    let mut i: usize = 0;
    assert(fs@.skip(0) =~= fs@);
    while i < fs.len()
        invariant
            i <= fs.len(),
            field_hit(fs@, t@) == field_hit(fs@.skip(i as int), t@),
        decreases fs.len() - i,
    {
        assert(fs@.skip(i as int)[0] == fs@[i as int]);
        if hit(fs[i].as_str(), t) {
            return Some(owned(fs[i].as_str()));
        }
        assert(fs@.skip(i as int).drop_first() =~= fs@.skip(i + 1));
        i = i + 1;
    }
    None
}

fn search_schemas(ss: &Vec<SchemaEntry>, t: &Vec<char>) -> (r: Vec<SchemaMatch>)
    ensures
        r@.map_values(|m: SchemaMatch| schema_view(m)) == schema_hits(ss@, t@),
{
    let mut r: Vec<SchemaMatch> = Vec::new();
    let mut i: usize = 0;
    while i < ss.len()
        invariant
            i <= ss.len(),
            r@.map_values(|m: SchemaMatch| schema_view(m)) == schema_hits(ss@.take(i as int), t@),
        decreases ss.len() - i,
    {
        proof {
            assert(ss@.take(i + 1).drop_last() =~= ss@.take(i as int));
            reveal_strlit("description");
        }
        let s = &ss[i];
        let ghost b = r@;
        let found = if hit(s.name.as_str(), t) {
            Some(SchemaMatch { name: owned(s.name.as_str()), matched_field: None, matched_on: None })
        } else {
            match first_field_hit(&s.field_names, t) {
                Some(f) => Some(SchemaMatch { name: owned(s.name.as_str()), matched_field: Some(f), matched_on: None }),
                None => if opt_hit(&s.description, t) {
                    Some(SchemaMatch { name: owned(s.name.as_str()), matched_field: None, matched_on: Some(owned("description")) })
                } else {
                    None
                },
            }
        };
        match found {
            Some(m) => {
                let ghost mv = schema_view(m);
                r.push(m);
                assert(r@.map_values(|m: SchemaMatch| schema_view(m))
                    =~= b.map_values(|m: SchemaMatch| schema_view(m)).push(mv));
            },
            None => {},
        }
        i = i + 1;
    }
    assert(ss@.take(ss@.len() as int) =~= ss@);
    r
}

fn search_schemes(ss: &Vec<SecuritySchemeMatch>, t: &Vec<char>) -> (r: Vec<SecuritySchemeMatch>)
    ensures
        r@.map_values(|m: SecuritySchemeMatch| scheme_view(m)) == scheme_hits(ss@, t@),
{
    let mut r: Vec<SecuritySchemeMatch> = Vec::new();
    let mut i: usize = 0;
    while i < ss.len()
        invariant
            i <= ss.len(),
            r@.map_values(|m: SecuritySchemeMatch| scheme_view(m)) == scheme_hits(ss@.take(i as int), t@),
        decreases ss.len() - i,
    {
        proof { assert(ss@.take(i + 1).drop_last() =~= ss@.take(i as int)); }
        let s = &ss[i];
        if hit(s.name.as_str(), t) || opt_hit(&s.description, t) {
            let m = SecuritySchemeMatch {
                name: owned(s.name.as_str()),
                scheme_type: owned(s.scheme_type.as_str()),
                description: copy_opt_str(&s.description),
            };
            let ghost b = r@;
            let ghost mv = scheme_view(m);
            r.push(m);
            assert(r@.map_values(|m: SecuritySchemeMatch| scheme_view(m))
                =~= b.map_values(|m: SecuritySchemeMatch| scheme_view(m)).push(mv));
        }
        i = i + 1;
    }
    assert(ss@.take(ss@.len() as int) =~= ss@);
    r
}

fn search_callbacks(cs: &Vec<CallbackMatch>, t: &Vec<char>) -> (r: Vec<CallbackMatch>)
    ensures
        r@.map_values(|m: CallbackMatch| (m.name@, m.defined_on_path@)) == callback_hits(cs@, t@),
{
    let mut r: Vec<CallbackMatch> = Vec::new();
    let mut i: usize = 0;
    while i < cs.len()
        invariant
            i <= cs.len(),
            r@.map_values(|m: CallbackMatch| (m.name@, m.defined_on_path@)) == callback_hits(cs@.take(i as int), t@),
        decreases cs.len() - i,
    {
        proof { assert(cs@.take(i + 1).drop_last() =~= cs@.take(i as int)); }
        let c = &cs[i];
        if hit(c.name.as_str(), t) || hit(c.defined_on_path.as_str(), t) {
            let m = CallbackMatch { name: owned(c.name.as_str()), defined_on_path: owned(c.defined_on_path.as_str()) };
            let ghost b = r@;
            r.push(m);
            assert(r@.map_values(|m: CallbackMatch| (m.name@, m.defined_on_path@))
                =~= b.map_values(|m: CallbackMatch| (m.name@, m.defined_on_path@)).push((m.name@, m.defined_on_path@)));
        }
        i = i + 1;
    }
    assert(cs@.take(cs@.len() as int) =~= cs@);
    r
}

/// Searches resources (slug and description), endpoints (path, summary,
/// description, parameters, request body and response descriptions),
/// schemas (name, else property names, else description), callbacks (name
/// and path) and security schemes (name and description) for a term,
/// case-insensitively. What else to search for is added afterwards by
/// `with_suggestions`.
pub fn search(index: &SearchIndex, term: &str) -> (r: SearchResults)
    ensures
        r.term@ == term@,
        r.resources@.map_values(|m: ResourceMatch| (m.slug@, opt_view(m.description)))
            == resource_hits(index.groups@, lowercase(term@)),
        r.endpoints@.map_values(|m: EndpointMatch| endpoint_view(m))
            == endpoint_hits(index.operations@, lowercase(term@)),
        r.schemas@.map_values(|m: SchemaMatch| schema_view(m)) == schema_hits(index.schemas@, lowercase(term@)),
        r.callbacks@.map_values(|m: CallbackMatch| (m.name@, m.defined_on_path@))
            == callback_hits(index.callbacks@, lowercase(term@)),
        r.security_schemes@.map_values(|m: SecuritySchemeMatch| scheme_view(m))
            == scheme_hits(index.security_schemes@, lowercase(term@)),
        r.suggestions@.len() == 0,
{
    let tl = str_to_lowercase(term);
    let t = to_chars(tl.as_str());
    SearchResults {
        term: owned(term),
        resources: search_resources(&index.groups, &t),
        endpoints: search_endpoints(&index.operations, &t),
        schemas: search_schemas(&index.schemas, &t),
        callbacks: search_callbacks(&index.callbacks, &t),
        security_schemes: search_schemes(&index.security_schemes, &t),
        suggestions: Vec::new(),
    }
}


/// The list without repeats of the same name one after the other (what
/// `Vec::dedup` leaves).
pub open spec fn dedup_runs(s: Seq<Seq<char>>) -> Seq<Seq<char>>
    decreases s.len(),
{
    if s.len() <= 1 {
        s
    } else {
        let d = dedup_runs(s.drop_last());
        if s[s.len() - 2] == s.last() { d } else { d.push(s.last()) }
    }
}

pub open spec fn names_view(v: Seq<String>) -> Seq<Seq<char>> {
    v.map_values(|s: String| s@)
}

pub open spec fn found_anything(r: SearchResults) -> bool {
    r.resources@.len() > 0 || r.endpoints@.len() > 0 || r.schemas@.len() > 0 || r.callbacks@.len() > 0
        || r.security_schemes@.len() > 0
}

/// What to suggest: nothing where something was found; else the similar
/// resource names then the similar schema names, without repeats one after
/// the other, at most five.
pub open spec fn spec_suggestions(r: SearchResults, similar: Seq<Seq<char>>) -> Seq<Seq<char>> {
    if found_anything(r) {
        seq![]
    } else {
        let d = dedup_runs(similar);
        if d.len() > 5 { d.take(5) } else { d }
    }
}

proof fn lemma_dedup_runs(s: Seq<Seq<char>>)
    ensures
        dedup_runs(s).len() <= s.len(),
        forall|i: int| 0 <= i < dedup_runs(s).len() - 1 ==> dedup_runs(s)[i] != #[trigger] dedup_runs(s)[i + 1],
        s.len() > 0 ==> dedup_runs(s).len() > 0 && dedup_runs(s).last() == s.last(),
    decreases s.len(),
{
    if s.len() > 1 {
        lemma_dedup_runs(s.drop_last());
        let d = dedup_runs(s.drop_last());
        assert(s.drop_last().last() == s[s.len() - 2]);
        if s[s.len() - 2] != s.last() {
            let e = d.push(s.last());
            assert forall|i: int| 0 <= i < e.len() - 1 implies e[i] != #[trigger] e[i + 1] by {
                if i < d.len() - 1 {
                    assert(e[i] == d[i] && e[i + 1] == d[i + 1]);
                }
            }
        }
    }
}

/// At most five suggestions are made, none twice in a row, and none at
/// all when something was found.
pub proof fn lemma_suggestions_bounded(r: SearchResults, similar: Seq<Seq<char>>)
    ensures
        spec_suggestions(r, similar).len() <= 5,
        found_anything(r) ==> spec_suggestions(r, similar).len() == 0,
        forall|i: int| 0 <= i < spec_suggestions(r, similar).len() - 1
            ==> spec_suggestions(r, similar)[i] != #[trigger] spec_suggestions(r, similar)[i + 1],
{
    lemma_dedup_runs(similar);
    let d = dedup_runs(similar);
    if d.len() > 5 {
        let t = d.take(5);
        assert forall|i: int| 0 <= i < t.len() - 1 implies t[i] != #[trigger] t[i + 1] by {
            assert(t[i] == d[i] && t[i + 1] == d[i + 1]);
        }
    }
}

/// Adds what else to search for when nothing was found: the resource names
/// and schema names similar to the term (as the caller found them), in
/// that order.
pub fn with_suggestions(results: SearchResults, similar_resources: &Vec<String>, similar_schemas: &Vec<String>) -> (r: SearchResults)
    ensures
        r.term == results.term,
        r.resources == results.resources,
        r.endpoints == results.endpoints,
        r.schemas == results.schemas,
        r.callbacks == results.callbacks,
        r.security_schemes == results.security_schemes,
        names_view(r.suggestions@) == spec_suggestions(results,
            names_view(similar_resources@) + names_view(similar_schemas@)),
{
    let mut r = results;
    let ghost all = names_view(similar_resources@) + names_view(similar_schemas@);
    if r.resources.len() > 0 || r.endpoints.len() > 0 || r.schemas.len() > 0 || r.callbacks.len() > 0
        || r.security_schemes.len() > 0 {
        r.suggestions = Vec::new();
        assert(names_view(r.suggestions@) =~= Seq::<Seq<char>>::empty());
        return r;
    }
    let mut out: Vec<String> = Vec::new();
    let n = similar_resources.len();
    let mut i: usize = 0;
    while i < n
        invariant
            n == similar_resources.len(),
            i <= n,
            all == names_view(similar_resources@) + names_view(similar_schemas@),
            names_view(out@) == dedup_runs(all.take(i as int)),
        decreases n - i,
    {
        let x = &similar_resources[i];
        assert(x@ == all[i as int]);
        proof { assert(all.take(i + 1).drop_last() =~= all.take(i as int)); }
        let repeat = if i == 0 {
            false
        } else {
            assert(similar_resources[i - 1]@ == all[i - 1]);
            str_eq(similar_resources[i - 1].as_str(), x.as_str())
        };
        if !repeat {
            let ghost b = out@;
            out.push(owned(x.as_str()));
            assert(names_view(out@) =~= names_view(b).push(x@));
        }
        i = i + 1;
    }
    let mut j: usize = 0;
    while j < similar_schemas.len()
        invariant
            n == similar_resources.len(),
            j <= similar_schemas.len(),
            all == names_view(similar_resources@) + names_view(similar_schemas@),
            names_view(out@) == dedup_runs(all.take(n + j)),
        decreases similar_schemas.len() - j,
    {
        let x = &similar_schemas[j];
        assert(x@ == all[n + j]);
        proof { assert(all.take(n + j + 1).drop_last() =~= all.take(n + j)); }
        let repeat = if j == 0 {
            if n == 0 {
                false
            } else {
                assert(similar_resources[n - 1]@ == all[n + j - 1]);
                str_eq(similar_resources[n - 1].as_str(), x.as_str())
            }
        } else {
            assert(similar_schemas[j - 1]@ == all[n + j - 1]);
            str_eq(similar_schemas[j - 1].as_str(), x.as_str())
        };
        if !repeat {
            let ghost b = out@;
            out.push(owned(x.as_str()));
            assert(names_view(out@) =~= names_view(b).push(x@));
        }
        j = j + 1;
    }
    assert(all.take(all.len() as int) =~= all);
    if out.len() > 5 {
        out.truncate(5);
        assert(names_view(out@) =~= dedup_runs(all).take(5));
    }
    r.suggestions = out;
    r
}

} // verus!
