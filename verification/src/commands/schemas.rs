//! Schemas: finding one by name, expanding the schemas its fields refer
//! to, and which endpoints use a schema.
use vstd::prelude::*;
use crate::strutil::{int_decimal, lowercase, str_to_lowercase};
use crate::models::resource::Field;
use crate::models::openapi::{
    build_fields, component, composition_plans, copy_texts, extract_composition_fields, extract_enum_values,
    enum_values_of, fields_match, field_matches, field_matches_top, ints_of_some, nested_name, push_text,
    required_of, required_of_exec, resolve_variant, schema_plans, strings_of_some, texts, variant_schema,
    object_properties, resolve_ref, resolve_reference, FieldPlan, SchemaKind, SchemaNode, SchemaRef,
};
use crate::models::resource::{slugify, spec_slugify};
use crate::commands::resources::{group_segment_from, path_prefix_group_name};
use crate::models::operation::{ApiDef, BodyRef, MediaDef, OperationDef, ParamRef, PathRef, ResponseRef, StatusKey, ValueSchema};
use crate::render::schema::{insert_name, lemma_sorted_set, names_of, sorted_set, strictly_sorted};
use crate::models::schema::{
    disc_view, opt_comp_view, Composition, CompositionView, DiscriminatorInfo, SchemaModel,
};
use crate::commands::init::opt_view;
use crate::models::json::opt_jview;
use crate::document::{schema_name_from_ref, spec_schema_name_from_ref};
use crate::render::sanitize::{owned, str_eq};

verus! {

/// One use of a schema by an endpoint; `usage_type` is "request body",
/// "response" or "parameter".
#[derive(Debug, Clone)]
pub struct SchemaUsage {
    pub method: String,
    pub path: String,
    pub usage_type: String,
    pub resource_slug: Option<String>,
}

// ───────────────────────── listing schemas ─────────────────────────

/// The names of the components.
pub open spec fn component_names(comps: Seq<(String, SchemaRef)>) -> Set<Seq<char>> {
    comps.map_values(|c: (String, SchemaRef)| c.0@).to_set()
}

/// The names of all component schemas, in character order, each once.
pub fn list_schemas(comps: &Vec<(String, SchemaRef)>) -> (r: Vec<String>)
    ensures
        strictly_sorted(names_of(r@)),
        names_of(r@) == sorted_set(component_names(comps@)),
{
    let mut acc: Vec<String> = Vec::new();
    let mut i: usize = 0;
    assert(names_of(acc@).to_set() =~= comps@.take(0).map_values(|c: (String, SchemaRef)| c.0@).to_set());
    while i < comps.len()
        invariant
            i <= comps.len(),
            strictly_sorted(names_of(acc@)),
            names_of(acc@).to_set() == comps@.take(i as int).map_values(|c: (String, SchemaRef)| c.0@).to_set(),
        decreases comps.len() - i,
    {
        insert_name(&mut acc, comps[i].0.as_str());
        proof {
            let f = |c: (String, SchemaRef)| c.0@;
            assert(comps@.take(i + 1).map_values(f) =~= comps@.take(i as int).map_values(f).push(comps@[i as int].0@));
            comps@.take(i as int).map_values(f).lemma_push_to_set_commute(comps@[i as int].0@);
        }
        i = i + 1;
    }
    assert(comps@.take(comps@.len() as int) =~= comps@);
    proof { lemma_sorted_set(names_of(acc@)); }
    acc
}

// ───────────────────────── finding a schema ─────────────────────────

/// The first component at or after `i` whose name is `name`.
pub open spec fn key_index(comps: Seq<(String, SchemaRef)>, name: Seq<char>, i: int) -> Option<int>
    decreases comps.len() - i,
{
    if i < 0 || i >= comps.len() {
        None
    } else if comps[i].0@ == name {
        Some(i)
    } else {
        key_index(comps, name, i + 1)
    }
}

/// The first component at or after `i` whose name equals `name` ignoring
/// case.
pub open spec fn key_index_ci(comps: Seq<(String, SchemaRef)>, name: Seq<char>, i: int) -> Option<int>
    decreases comps.len() - i,
{
    if i < 0 || i >= comps.len() {
        None
    } else if lowercase(comps[i].0@) == lowercase(name) {
        Some(i)
    } else {
        key_index_ci(comps, name, i + 1)
    }
}

/// The schema at a component index with its name, where it is a schema.
pub open spec fn schema_at(comps: Seq<(String, SchemaRef)>, i: int) -> Option<(Seq<char>, SchemaNode)> {
    match comps[i].1 {
        SchemaRef::Item(b) => Some((comps[i].0@, *b)),
        SchemaRef::Reference(_) => None,
    }
}

/// A schema by name: the one of that exact name (following it once where it
/// is a reference), else the first whose name matches ignoring case; with
/// the name it is listed under.
pub open spec fn spec_find_schema(comps: Seq<(String, SchemaRef)>, name: Seq<char>) -> Option<(Seq<char>, SchemaNode)> {
    match key_index(comps, name, 0) {
        Some(i) => match comps[i].1 {
            SchemaRef::Item(b) => Some((comps[i].0@, *b)),
            SchemaRef::Reference(r) => match spec_schema_name_from_ref(r@) {
                Some(sn) => match key_index(comps, sn, 0) {
                    Some(j) => schema_at(comps, j),
                    None => None,
                },
                None => None,
            },
        },
        None => match key_index_ci(comps, name, 0) {
            Some(i) => schema_at(comps, i),
            None => None,
        },
    }
}

proof fn lemma_key_index(comps: Seq<(String, SchemaRef)>, name: Seq<char>, i: int)
    requires
        0 <= i <= comps.len(),
    ensures
        match key_index(comps, name, i) {
            Some(k) => i <= k < comps.len() && comps[k].0@ == name,
            None => true,
        },
    decreases comps.len() - i,
{
    if i < comps.len() && comps[i].0@ != name {
        lemma_key_index(comps, name, i + 1);
    }
}

proof fn lemma_key_index_ci(comps: Seq<(String, SchemaRef)>, name: Seq<char>, i: int)
    requires
        0 <= i <= comps.len(),
    ensures
        match key_index_ci(comps, name, i) {
            Some(k) => i <= k < comps.len(),
            None => true,
        },
    decreases comps.len() - i,
{
    if i < comps.len() && lowercase(comps[i].0@) != lowercase(name) {
        lemma_key_index_ci(comps, name, i + 1);
    }
}

fn find_key(comps: &Vec<(String, SchemaRef)>, name: &str) -> (r: Option<usize>)
    ensures
        match r {
            Some(k) => key_index(comps@, name@, 0) == Some(k as int),
            None => key_index(comps@, name@, 0) is None,
        },
{
    let mut i: usize = 0;
    while i < comps.len()
        invariant
            i <= comps.len(),
            key_index(comps@, name@, 0) == key_index(comps@, name@, i as int),
        decreases comps.len() - i,
    {
        if str_eq(comps[i].0.as_str(), name) {
            return Some(i);
        }
        i = i + 1;
    }
    None
}

fn find_key_ci(comps: &Vec<(String, SchemaRef)>, name: &str) -> (r: Option<usize>)
    ensures
        match r {
            Some(k) => key_index_ci(comps@, name@, 0) == Some(k as int),
            None => key_index_ci(comps@, name@, 0) is None,
        },
{
    let lower = str_to_lowercase(name);
    let mut i: usize = 0;
    while i < comps.len()
        invariant
            i <= comps.len(),
            lower@ == lowercase(name@),
            key_index_ci(comps@, name@, 0) == key_index_ci(comps@, name@, i as int),
        decreases comps.len() - i,
    {
        let k = str_to_lowercase(comps[i].0.as_str());
        if str_eq(k.as_str(), lower.as_str()) {
            return Some(i);
        }
        i = i + 1;
    }
    None
}

fn at<'a>(comps: &'a Vec<(String, SchemaRef)>, i: usize) -> (r: Option<(&'a str, &'a SchemaNode)>)
    requires
        i < comps@.len(),
    ensures
        match r {
            Some(p) => schema_at(comps@, i as int) == Some((p.0@, *p.1)),
            None => schema_at(comps@, i as int) is None,
        },
{
    match &comps[i].1 {
        SchemaRef::Item(b) => Some((comps[i].0.as_str(), &**b)),
        SchemaRef::Reference(_) => None,
    }
}

/// Finds a schema by name, exactly first, then ignoring case; with the
/// name it is listed under.
pub fn find_schema<'a>(comps: &'a Vec<(String, SchemaRef)>, name: &str) -> (r: Option<(&'a str, &'a SchemaNode)>)
    ensures
        match r {
            Some(p) => spec_find_schema(comps@, name@) == Some((p.0@, *p.1)),
            None => spec_find_schema(comps@, name@) is None,
        },
{
    proof {
        lemma_key_index(comps@, name@, 0);
        lemma_key_index_ci(comps@, name@, 0);
    }
    match find_key(comps, name) {
        Some(i) => match &comps[i].1 {
            SchemaRef::Item(b) => Some((comps[i].0.as_str(), &**b)),
            SchemaRef::Reference(r) => match schema_name_from_ref(r.as_str()) {
                Some(sn) => {
                    proof { lemma_key_index(comps@, sn@, 0); }
                    match find_key(comps, sn) {
                        Some(j) => at(comps, j),
                        None => None,
                    }
                },
                None => None,
            },
        },
        None => match find_key_ci(comps, name) {
            Some(i) => at(comps, i),
            None => None,
        },
    }
}


// ───────────────────────── expanding fields ─────────────────────────

fn contains_text(v: &Vec<String>, s: &str) -> (r: bool)
    ensures
        r == texts(v@).contains(s@),
{
    let mut k: usize = 0;
    while k < v.len()
        invariant
            k <= v.len(),
            forall|j: int| 0 <= j < k ==> v@[j]@ != s@,
        decreases v.len() - k,
    {
        if str_eq(v[k].as_str(), s) {
            assert(texts(v@)[k as int] == s@);
            return true;
        }
        k = k + 1;
    }
    proof {
        if texts(v@).contains(s@) {
            let j = choose|j: int| 0 <= j < texts(v@).len() && texts(v@)[j] == s@;
            assert(v@[j]@ == s@);
        }
    }
    false
}

/// Every attribute of a field but its nested fields.
pub open spec fn same_but_nested(a: Field, b: Field) -> bool {
    &&& a.name@ == b.name@
    &&& a.type_display@ == b.type_display@
    &&& a.required == b.required
    &&& a.optional == b.optional
    &&& a.nullable == b.nullable
    &&& a.read_only == b.read_only
    &&& a.write_only == b.write_only
    &&& a.deprecated == b.deprecated
    &&& opt_view(a.description) == opt_view(b.description)
    &&& texts(a.enum_values@) == texts(b.enum_values@)
    &&& texts(a.constraints@) == texts(b.constraints@)
    &&& opt_view(a.default_value) == opt_view(b.default_value)
    &&& opt_jview(a.example) == opt_jview(b.example)
    &&& opt_view(a.nested_schema_name) == opt_view(b.nested_schema_name)
}

/// The schema a field is expanded into: the one it refers to, where the
/// depth allows, it is not being expanded already further up, and it is
/// found.
pub open spec fn expansion(comps: Seq<(String, SchemaRef)>, nn: Option<Seq<char>>, visited: Seq<Seq<char>>, depth: nat, max: nat) -> Option<SchemaNode> {
    if depth > max {
        None
    } else {
        match nn {
            Some(n) => if visited.contains(n) {
                None
            } else {
                match spec_find_schema(comps, n) {
                    Some(p) => Some(p.1),
                    None => None,
                }
            },
            None => None,
        }
    }
}

/// The fields of the plans with each expandable one expanded, recursively.
pub open spec fn expanded_tree(rn: Seq<Field>, ps: Seq<FieldPlan>, comps: Seq<(String, SchemaRef)>, visited: Seq<Seq<char>>, depth: nat, max: nat) -> bool
    decreases max + 1 - depth,
{
    &&& rn.len() == ps.len()
    &&& forall|i: int| 0 <= i < rn.len() ==> {
        &&& field_matches_top(#[trigger] rn[i], ps[i])
        &&& match expansion(comps, nested_name(ps[i]), visited, depth, max) {
            Some(ns) => depth <= max && expanded_tree(rn[i].nested_fields@,
                schema_plans(comps, ns, required_of(ns), comps.len()), comps,
                visited.push(nested_name(ps[i])->0), depth + 1, max),
            None => rn[i].nested_fields@.len() == 0,
        }
    }
}

/// What expanding does to one field.
pub open spec fn field_expanded(r: Field, f: Field, comps: Seq<(String, SchemaRef)>, visited: Seq<Seq<char>>, depth: nat, max: nat) -> bool {
    &&& same_but_nested(r, f)
    &&& match expansion(comps, opt_view(f.nested_schema_name), visited, depth, max) {
        Some(ns) => expanded_tree(r.nested_fields@, schema_plans(comps, ns, required_of(ns), comps.len()), comps,
            visited.push(opt_view(f.nested_schema_name)->0), depth + 1, max),
        None => r.nested_fields == f.nested_fields,
    }
}

/// Expands each field that refers to a schema into that schema's fields,
/// and those in turn, down to `max_depth`, never expanding a schema inside
/// itself.
pub fn expand_fields(
    comps: &Vec<(String, SchemaRef)>,
    fields: Vec<Field>,
    visited: &mut Vec<String>,
    depth: usize,
    max_depth: usize,
) -> (r: Vec<Field>)
    ensures
        texts(final(visited)@) == texts(old(visited)@),
        r@.len() == fields@.len(),
        forall|i: int| 0 <= i < r@.len() ==> field_expanded(#[trigger] r@[i], fields@[i], comps@,
            texts(old(visited)@), depth as nat, max_depth as nat),
    decreases max_depth + 1 - depth,
{
    let ghost v0 = texts(visited@);
    let ghost orig = fields@;
    let mut out: Vec<Field> = Vec::new();
    let mut rest = fields;
    while rest.len() > 0
        invariant
            out@.len() + rest@.len() == orig.len(),
            rest@ == orig.skip(out@.len() as int),
            texts(visited@) == v0,
            forall|k: int| 0 <= k < out@.len() ==> field_expanded(#[trigger] out@[k], orig[k], comps@,
                v0, depth as nat, max_depth as nat),
        decreases rest@.len(),
    {
        let mut f = rest.remove(0);
        let ghost f0 = f;
        proof {
            assert(f0 == orig[out@.len() as int]);
            assert(rest@ =~= orig.skip((out@.len() + 1) as int));
        }
        let mut done = false;
        if depth <= max_depth {
            match &f.nested_schema_name {
                Some(n) => {
                    let nm = owned(n.as_str());
                    let seen = contains_text(visited, nm.as_str());
                    if !seen {
                        match find_schema(comps, nm.as_str()) {
                            Some((_, ns)) => {
                                let required = required_of_exec(ns);
                                let nested = build_fields(comps, ns, required.as_slice());
                                proof {
                                    assert(required@.map_values(|s: String| s@) =~= texts(required@));
                                }
                                let ghost nested_v = nested@;
                                let ghost v1 = v0.push(nm@);
                                let ghost ps = schema_plans(comps@, *ns, required_of(*ns), comps@.len());
                                let expanded = if depth < max_depth {
                                    visited.push(owned(nm.as_str()));
                                    assert(texts(visited@) =~= v1);
                                    let e = expand_fields(comps, nested, visited, depth + 1, max_depth);
                                    let ghost before = visited@;
                                    let _ = visited.pop();
                                    proof {
                                        assert(texts(before) == v1);
                                        assert(visited@ =~= before.drop_last());
                                        assert forall|j: int| 0 <= j < v0.len() implies texts(visited@)[j] == v0[j] by {
                                            assert(texts(before)[j] == v1[j]);
                                        }
                                        assert(texts(visited@) =~= v0);
                                        assert forall|i: int| 0 <= i < e@.len() implies {
                                            &&& field_matches_top(#[trigger] e@[i], ps[i])
                                            &&& match expansion(comps@, nested_name(ps[i]), v1, (depth + 1) as nat, max_depth as nat) {
                                                Some(ns2) => depth + 1 <= max_depth && expanded_tree(e@[i].nested_fields@,
                                                    schema_plans(comps@, ns2, required_of(ns2), comps@.len()), comps@,
                                                    v1.push(nested_name(ps[i])->0), (depth + 2) as nat, max_depth as nat),
                                                None => e@[i].nested_fields@.len() == 0,
                                            }
                                        } by {
                                            assert(field_expanded(e@[i], nested_v[i], comps@, v1, (depth + 1) as nat, max_depth as nat));
                                            assert(field_matches(nested_v[i], ps[i]));
                                        }
                                    }
                                    e
                                } else {
                                    proof {
                                        assert forall|i: int| 0 <= i < nested@.len() implies {
                                            &&& field_matches_top(#[trigger] nested@[i], ps[i])
                                            &&& expansion(comps@, nested_name(ps[i]), v1, (depth + 1) as nat, max_depth as nat) is None
                                            &&& nested@[i].nested_fields@.len() == 0
                                        } by {
                                            assert(field_matches(nested_v[i], ps[i]));
                                        }
                                    }
                                    nested
                                };
                                assert(expanded_tree(expanded@, ps, comps@, v1, (depth + 1) as nat, max_depth as nat));
                                f.nested_fields = expanded;
                                done = true;
                            },
                            None => {},
                        }
                    }
                },
                None => {},
            }
        }
        proof {
            if !done {
                assert(f.nested_fields == f0.nested_fields);
            }
        }
        let ghost ob = out@;
        out.push(f);
        proof {
            assert forall|k: int| 0 <= k < out@.len() implies field_expanded(#[trigger] out@[k], orig[k], comps@,
                v0, depth as nat, max_depth as nat) by {
                if k < ob.len() {
                    assert(out@[k] == ob[k]);
                }
            }
        }
    }
    out
}

// ───────────────────────── the schema model ─────────────────────────

/// The name a variant is listed under: the schema its reference names, or
/// the type of an inline schema that declares one.
pub open spec fn variant_name(v: SchemaRef) -> Option<Seq<char>> {
    match v {
        SchemaRef::Reference(r) => spec_schema_name_from_ref(r@),
        SchemaRef::Item(b) => match b.kind {
            SchemaKind::String { .. } => Some("string"@),
            SchemaKind::Number { .. } => Some("number"@),
            SchemaKind::Integer { .. } => Some("integer"@),
            SchemaKind::Boolean => Some("boolean"@),
            SchemaKind::Array { .. } => Some("array"@),
            SchemaKind::Object { .. } => Some("object"@),
            _ => None,
        },
    }
}

/// The names of the variants that have one, in order.
pub open spec fn variant_names(vs: Seq<SchemaRef>) -> Seq<Seq<char>>
    decreases vs.len(),
{
    if vs.len() == 0 {
        seq![]
    } else {
        match variant_name(vs.last()) {
            Some(n) => variant_names(vs.drop_last()).push(n),
            None => variant_names(vs.drop_last()),
        }
    }
}

/// The names of the variants of a `oneOf` or `anyOf`.
pub fn extract_variant_names(refs: &Vec<SchemaRef>) -> (r: Vec<String>)
    ensures
        texts(r@) == variant_names(refs@),
{
    let mut r: Vec<String> = Vec::new();
    let mut i: usize = 0;
    while i < refs.len()
        invariant
            i <= refs.len(),
            texts(r@) == variant_names(refs@.take(i as int)),
        decreases refs.len() - i,
    {
        proof {
            assert(refs@.take(i + 1).drop_last() =~= refs@.take(i as int));
            assert(refs@.take(i + 1).last() == refs@[i as int]);
        }
        match &refs[i] {
            SchemaRef::Reference(x) => match schema_name_from_ref(x.as_str()) {
                Some(n) => push_text(&mut r, owned(n)),
                None => {},
            },
            SchemaRef::Item(b) => match &b.kind {
                SchemaKind::String { .. } => push_text(&mut r, owned("string")),
                SchemaKind::Number { .. } => push_text(&mut r, owned("number")),
                SchemaKind::Integer { .. } => push_text(&mut r, owned("integer")),
                SchemaKind::Boolean => push_text(&mut r, owned("boolean")),
                SchemaKind::Array { .. } => push_text(&mut r, owned("array")),
                SchemaKind::Object { .. } => push_text(&mut r, owned("object")),
                _ => {},
            },
        }
        i = i + 1;
    }
    assert(refs@.take(refs@.len() as int) =~= refs@);
    r
}

/// What an array's items give a schema: the merged fields and the variant
/// names of a `oneOf` or `anyOf` they stand for; else nothing.
pub open spec fn items_composition(comps: Seq<(String, SchemaRef)>, items: SchemaRef) -> (Seq<FieldPlan>, Option<CompositionView>) {
    match variant_schema(comps, items) {
        Some(s) => match s.kind {
            SchemaKind::AnyOf(vs) => (composition_plans(comps, vs@), Some(CompositionView::AnyOf(variant_names(vs@)))),
            SchemaKind::OneOf(vs) => (composition_plans(comps, vs@), Some(CompositionView::OneOf(variant_names(vs@)))),
            _ => (seq![], None),
        },
        None => (seq![], None),
    }
}

/// The fields and composition of an array whose items are a `oneOf` or
/// `anyOf`.
pub fn extract_items_composition(comps: &Vec<(String, SchemaRef)>, items: &SchemaRef) -> (r: (Vec<Field>, Option<Composition>))
    ensures
        fields_match(r.0@, items_composition(comps@, *items).0),
        opt_comp_view(r.1) == items_composition(comps@, *items).1,
{
    match resolve_variant(comps, items) {
        Some(s) => match &s.kind {
            SchemaKind::AnyOf(vs) => {
                let names = extract_variant_names(vs);
                let fields = extract_composition_fields(comps, vs);
                (fields, Some(Composition::AnyOf(names)))
            },
            SchemaKind::OneOf(vs) => {
                let names = extract_variant_names(vs);
                let fields = extract_composition_fields(comps, vs);
                (fields, Some(Composition::OneOf(names)))
            },
            _ => (Vec::new(), None),
        },
        None => (Vec::new(), None),
    }
}

/// The fields and composition a schema is shown with, by its kind.
pub open spec fn model_content(comps: Seq<(String, SchemaRef)>, s: SchemaNode) -> (Seq<FieldPlan>, Option<CompositionView>) {
    match s.kind {
        SchemaKind::Object { required, .. } => (schema_plans(comps, s, texts(required@), comps.len()), None),
        SchemaKind::Any { properties, required, items, .. } => if properties@.len() > 0 {
            (schema_plans(comps, s, texts(required@), comps.len()), None)
        } else {
            match items {
                Some(i) => items_composition(comps, i),
                None => (seq![], None),
            }
        },
        SchemaKind::String { enumeration, .. } => if enumeration@.len() > 0 {
            (seq![], Some(CompositionView::Enum(strings_of_some(enumeration@))))
        } else {
            (seq![], None)
        },
        SchemaKind::Integer { enumeration, .. } => if enumeration@.len() > 0 {
            (seq![], Some(CompositionView::Enum(ints_of_some(enumeration@))))
        } else {
            (seq![], None)
        },
        SchemaKind::AllOf(_) => (schema_plans(comps, s, seq![], comps.len()), Some(CompositionView::AllOf)),
        SchemaKind::OneOf(vs) => (composition_plans(comps, vs@), Some(CompositionView::OneOf(variant_names(vs@)))),
        SchemaKind::AnyOf(vs) => (composition_plans(comps, vs@), Some(CompositionView::AnyOf(variant_names(vs@)))),
        SchemaKind::Array { items, .. } => match items {
            Some(i) => items_composition(comps, i),
            None => (seq![], None),
        },
        _ => (seq![], None),
    }
}

fn model_content_exec(comps: &Vec<(String, SchemaRef)>, s: &SchemaNode) -> (r: (Vec<Field>, Option<Composition>))
    ensures
        fields_match(r.0@, model_content(comps@, *s).0),
        opt_comp_view(r.1) == model_content(comps@, *s).1,
{
    let empty: Vec<String> = Vec::new();
    match &s.kind {
        SchemaKind::Object { required, .. } => {
            assert(required@.map_values(|x: String| x@) =~= texts(required@));
            (build_fields(comps, s, required.as_slice()), None)
        },
        SchemaKind::Any { properties, required, items, .. } => {
            if properties.len() > 0 {
                assert(required@.map_values(|x: String| x@) =~= texts(required@));
                (build_fields(comps, s, required.as_slice()), None)
            } else {
                match items {
                    Some(i) => extract_items_composition(comps, i),
                    None => (Vec::new(), None),
                }
            }
        },
        SchemaKind::String { enumeration, .. } => {
            if enumeration.len() > 0 {
                (Vec::new(), Some(Composition::Enum(extract_enum_values(&s.kind))))
            } else {
                (Vec::new(), None)
            }
        },
        SchemaKind::Integer { enumeration, .. } => {
            if enumeration.len() > 0 {
                (Vec::new(), Some(Composition::Enum(extract_enum_values(&s.kind))))
            } else {
                (Vec::new(), None)
            }
        },
        SchemaKind::AllOf(_) => {
            assert(empty@.map_values(|x: String| x@) =~= Seq::<Seq<char>>::empty());
            (build_fields(comps, s, empty.as_slice()), Some(Composition::AllOf))
        },
        SchemaKind::OneOf(vs) => {
            let names = extract_variant_names(vs);
            (extract_composition_fields(comps, vs), Some(Composition::OneOf(names)))
        },
        SchemaKind::AnyOf(vs) => {
            let names = extract_variant_names(vs);
            (extract_composition_fields(comps, vs), Some(Composition::AnyOf(names)))
        },
        SchemaKind::Array { items, .. } => match items {
            Some(i) => extract_items_composition(comps, i),
            None => (Vec::new(), None),
        },
        _ => (Vec::new(), None),
    }
}

/// The type label of a schema that has neither fields nor a composition.
pub open spec fn base_type_of(k: SchemaKind) -> Option<Seq<char>> {
    match k {
        SchemaKind::String { enumeration, .. } => if enumeration@.len() == 0 { Some("string"@) } else { None },
        SchemaKind::Integer { enumeration, .. } => if enumeration@.len() == 0 { Some("integer"@) } else { None },
        SchemaKind::Number { .. } => Some("number"@),
        SchemaKind::Boolean => Some("boolean"@),
        SchemaKind::Array { .. } => Some("array"@),
        SchemaKind::Not => Some("not"@),
        _ => None,
    }
}

fn base_type_exec(k: &SchemaKind) -> (r: Option<String>)
    ensures
        opt_view(r) == base_type_of(*k),
{
    match k {
        SchemaKind::String { enumeration, .. } => if enumeration.len() == 0 { Some(owned("string")) } else { None },
        SchemaKind::Integer { enumeration, .. } => if enumeration.len() == 0 { Some(owned("integer")) } else { None },
        SchemaKind::Number { .. } => Some(owned("number")),
        SchemaKind::Boolean => Some(owned("boolean")),
        SchemaKind::Array { .. } => Some(owned("array")),
        SchemaKind::Not => Some(owned("not")),
        _ => None,
    }
}

/// A mapping target as shown: the schema name of a schema reference, or
/// the target as written.
pub open spec fn mapped_name(r: Seq<char>) -> Seq<char> {
    match spec_schema_name_from_ref(r) {
        Some(n) => n,
        None => r,
    }
}

/// The discriminator of a schema as shown: its property, and each mapping
/// pair with the target reduced to a schema name.
pub open spec fn discriminator_of(d: Option<(String, Vec<(String, String)>)>) -> Option<(Seq<char>, Seq<(Seq<char>, Seq<char>)>)> {
    match d {
        Some(x) => Some((x.0@, x.1@.map_values(|e: (String, String)| (e.0@, mapped_name(e.1@))))),
        None => None,
    }
}

fn discriminator_exec(d: &Option<(String, Vec<(String, String)>)>) -> (r: Option<DiscriminatorInfo>)
    ensures
        disc_view(r) == discriminator_of(*d),
{
    match d {
        Some((prop, mapping)) => {
            let mut out: Vec<(String, String)> = Vec::new();
            let mut i: usize = 0;
            while i < mapping.len()
                invariant
                    i <= mapping.len(),
                    out@.len() == i,
                    forall|k: int| 0 <= k < i ==> (#[trigger] out@[k]).0@ == mapping@[k].0@
                        && out@[k].1@ == mapped_name(mapping@[k].1@),
                decreases mapping.len() - i,
            {
                let target = match schema_name_from_ref(mapping[i].1.as_str()) {
                    Some(n) => owned(n),
                    None => owned(mapping[i].1.as_str()),
                };
                out.push((owned(mapping[i].0.as_str()), target));
                i = i + 1;
            }
            let r = Some(DiscriminatorInfo { property_name: owned(prop.as_str()), mapping: out });
            proof {
                let a = disc_view(r)->0;
                let b = discriminator_of(*d)->0;
                assert(a.1 =~= b.1);
            }
            r
        },
        None => None,
    }
}

/// What a schema model holds for the schema found under `key`: that name,
/// the schema's title, description, fields (expanded where asked, the
/// name looked up counting as being expanded already), composition, type
/// label and discriminator.
pub open spec fn model_matches(
    m: SchemaModel,
    comps: Seq<(String, SchemaRef)>,
    key: Seq<char>,
    s: SchemaNode,
    asked: Seq<char>,
    expand: bool,
    max_depth: nat,
) -> bool {
    &&& m.name@ == key
    &&& opt_view(m.title) == opt_view(s.title)
    &&& opt_view(m.description) == opt_view(s.description)
    &&& if expand {
        expanded_tree(m.fields@, model_content(comps, s).0, comps, seq![asked], 1, max_depth)
    } else {
        fields_match(m.fields@, model_content(comps, s).0)
    }
    &&& opt_comp_view(m.composition) == model_content(comps, s).1
    &&& opt_view(m.base_type) == base_type_of(s.kind)
    &&& disc_view(m.discriminator) == discriminator_of(s.discriminator)
    &&& m.external_docs is None
}

proof fn lemma_ints_of_all_some(v: Seq<Option<i64>>)
    requires
        forall|k: int| 0 <= k < v.len() ==> (#[trigger] v[k]) is Some,
    ensures
        ints_of_some(v).len() == v.len(),
        forall|k: int| 0 <= k < v.len() ==> #[trigger] ints_of_some(v)[k] == int_decimal(v[k]->0 as int),
    decreases v.len(),
{
    if v.len() > 0 {
        assert forall|k: int| 0 <= k < v.drop_last().len() implies (#[trigger] v.drop_last()[k]) is Some by {
            assert(v.drop_last()[k] == v[k]);
        }
        lemma_ints_of_all_some(v.drop_last());
        assert(v.last() == v[v.len() - 1]);
        assert forall|k: int| 0 <= k < v.len() implies #[trigger] ints_of_some(v)[k] == int_decimal(v[k]->0 as int) by {
            if k < v.len() - 1 {
                assert(v.drop_last()[k] == v[k]);
            }
        }
    }
}

/// The model of an integer schema always shows what it allows: a type, or
/// its enum values. With enum values given, the model shows no type and
/// its composition is `Enum` of the decimal forms of the values, in the
/// order given (one for each value where every entry is a number).
pub proof fn lemma_integer_model_shows_values(
    m: SchemaModel,
    comps: Seq<(String, SchemaRef)>,
    key: Seq<char>,
    s: SchemaNode,
    asked: Seq<char>,
    expand: bool,
    max_depth: nat,
)
    requires
        model_matches(m, comps, key, s, asked, expand, max_depth),
        s.kind is Integer,
    ensures
        m.composition is Some || m.base_type is Some,
        match s.kind {
            SchemaKind::Integer { enumeration, .. } => enumeration@.len() > 0 ==> {
                &&& m.base_type is None
                &&& match m.composition {
                    Some(Composition::Enum(vals)) => {
                        &&& texts(vals@) == ints_of_some(enumeration@)
                        &&& (forall|k: int| 0 <= k < enumeration@.len() ==> (#[trigger] enumeration@[k]) is Some) ==> {
                            &&& vals@.len() == enumeration@.len()
                            &&& forall|k: int| 0 <= k < vals@.len() ==> (#[trigger] vals@[k])@ == int_decimal(enumeration@[k]->0 as int)
                        }
                    },
                    _ => false,
                }
            },
            _ => true,
        },
{
    match s.kind {
        SchemaKind::Integer { enumeration, .. } => {
            if enumeration@.len() > 0 {
                match m.composition {
                    Some(Composition::Enum(vals)) => {
                        if forall|k: int| 0 <= k < enumeration@.len() ==> (#[trigger] enumeration@[k]) is Some {
                            lemma_ints_of_all_some(enumeration@);
                            assert(texts(vals@).len() == vals@.len());
                            assert forall|k: int| 0 <= k < vals@.len() implies (#[trigger] vals@[k])@ == int_decimal(enumeration@[k]->0 as int) by {
                                assert(texts(vals@)[k] == vals@[k]@);
                            }
                        }
                    },
                    _ => {},
                }
            }
        },
        _ => {},
    }
}

/// The model of the schema of that name (see `find_schema`), or `None`
/// where there is none.
pub fn build_schema_model(comps: &Vec<(String, SchemaRef)>, name: &str, expand: bool, max_depth: usize) -> (r: Option<SchemaModel>)
    ensures
        match r {
            None => spec_find_schema(comps@, name@) is None,
            Some(m) => match spec_find_schema(comps@, name@) {
                Some(p) => model_matches(m, comps@, p.0, p.1, name@, expand, max_depth as nat),
                None => false,
            },
        },
{
    let (key, schema) = match find_schema(comps, name) {
        Some(p) => p,
        None => return None,
    };
    let (fields, composition) = model_content_exec(comps, schema);
    let ghost plans = model_content(comps@, *schema).0;
    let fields = if expand {
        let mut visited: Vec<String> = Vec::new();
        visited.push(owned(name));
        let ghost v0 = texts(visited@);
        assert(v0 =~= seq![name@]);
        let ghost base = fields@;
        let e = expand_fields(comps, fields, &mut visited, 1, max_depth);
        proof {
            assert forall|i: int| 0 <= i < e@.len() implies {
                &&& field_matches_top(#[trigger] e@[i], plans[i])
                &&& match expansion(comps@, nested_name(plans[i]), v0, 1, max_depth as nat) {
                    Some(ns) => 1 <= max_depth && expanded_tree(e@[i].nested_fields@,
                        schema_plans(comps@, ns, required_of(ns), comps@.len()), comps@,
                        v0.push(nested_name(plans[i])->0), 2, max_depth as nat),
                    None => e@[i].nested_fields@.len() == 0,
                }
            } by {
                assert(field_expanded(e@[i], base[i], comps@, v0, 1, max_depth as nat));
                assert(field_matches(base[i], plans[i]));
            }
            assert(expanded_tree(e@, plans, comps@, v0, 1, max_depth as nat));
        }
        e
    } else {
        fields
    };
    Some(SchemaModel {
        name: owned(key),
        title: copy_opt_text(&schema.title),
        description: copy_opt_text(&schema.description),
        fields,
        composition,
        discriminator: discriminator_exec(&schema.discriminator),
        external_docs: None,
        base_type: base_type_exec(&schema.kind),
    })
}

fn copy_opt_text(o: &Option<String>) -> (r: Option<String>)
    ensures
        opt_view(r) == opt_view(*o),
{
    match o {
        Some(x) => Some(owned(x.as_str())),
        None => None,
    }
}

// ───────────────────────── where a schema is used ─────────────────────────

/// A reference names the schema.
pub open spec fn names_schema(r: Seq<char>, name: Seq<char>) -> bool {
    spec_schema_name_from_ref(r) == Some(name)
}

/// A property refers to the schema: by a reference, or as an array of
/// references to it.
pub open spec fn field_refers(p: SchemaRef, name: Seq<char>) -> bool {
    match p {
        SchemaRef::Reference(r) => names_schema(r@, name),
        SchemaRef::Item(b) => match b.kind {
            SchemaKind::Array { items, .. } => match items {
                Some(SchemaRef::Reference(r)) => names_schema(r@, name),
                _ => false,
            },
            _ => false,
        },
    }
}

/// Some property refers to the schema named.
pub open spec fn props_refer_to(props: Seq<(String, SchemaRef)>, name: Seq<char>) -> bool {
    exists|i: int| 0 <= i < props.len() && field_refers(#[trigger] props[i].1, name)
}

/// A schema has a property that refers to the schema named: among its
/// own properties, or for `allOf` in any part. `fuel` bounds the
/// references followed along one chain of parts.
pub open spec fn has_field_ref(comps: Seq<(String, SchemaRef)>, s: SchemaNode, name: Seq<char>, fuel: nat) -> bool
    decreases fuel, s,
{
    match s.kind {
        SchemaKind::AllOf(parts) => allof_has_field_ref(comps, parts@, name, fuel),
        _ => match object_properties(s) {
            Some(p) => props_refer_to(p.0, name),
            None => false,
        },
    }
}

/// Some of the first parts of an `allOf` has a property that refers to
/// the schema named.
pub open spec fn allof_has_field_ref(comps: Seq<(String, SchemaRef)>, parts: Seq<SchemaRef>, name: Seq<char>, fuel: nat) -> bool
    decreases fuel, parts,
{
    if parts.len() == 0 {
        false
    } else {
        allof_has_field_ref(comps, parts.subrange(0, parts.len() - 1), name, fuel) || match parts[parts.len() - 1] {
            SchemaRef::Item(b) => has_field_ref(comps, *b, name, fuel),
            SchemaRef::Reference(x) => fuel > 0 && match resolve_ref(comps, x@) {
                Some(t) => has_field_ref(comps, t, name, (fuel - 1) as nat),
                None => false,
            },
        }
    }
}

/// A part is a reference to the schema named.
pub open spec fn is_ref_to(v: SchemaRef, name: Seq<char>) -> bool {
    match v {
        SchemaRef::Reference(r) => names_schema(r@, name),
        SchemaRef::Item(_) => false,
    }
}

/// Some part of a composition is a reference to the schema named.
pub open spec fn variant_refers(k: SchemaKind, name: Seq<char>) -> bool {
    match k {
        SchemaKind::AllOf(v) => exists|i: int| 0 <= i < v@.len() && is_ref_to(#[trigger] v@[i], name),
        SchemaKind::OneOf(v) => exists|i: int| 0 <= i < v@.len() && is_ref_to(#[trigger] v@[i], name),
        SchemaKind::AnyOf(v) => exists|i: int| 0 <= i < v@.len() && is_ref_to(#[trigger] v@[i], name),
        _ => false,
    }
}

/// A schema given to an operation uses the schema named: it is a
/// reference to it, or to a schema with a property referring to it; or it
/// is inline with a composition part referring to it or such a property.
pub open spec fn ref_matches(comps: Seq<(String, SchemaRef)>, sr: SchemaRef, name: Seq<char>) -> bool {
    match sr {
        SchemaRef::Reference(r) => names_schema(r@, name) || match resolve_ref(comps, r@) {
            Some(t) => has_field_ref(comps, t, name, comps.len()),
            None => false,
        },
        SchemaRef::Item(b) => variant_refers(b.kind, name) || has_field_ref(comps, *b, name, comps.len()),
    }
}

/// A content has a schema that uses the schema named.
pub open spec fn opt_matches(comps: Seq<(String, SchemaRef)>, o: Option<SchemaRef>, name: Seq<char>) -> bool {
    match o {
        Some(sr) => ref_matches(comps, sr, name),
        None => false,
    }
}

/// Some media type's schema uses the schema named.
pub open spec fn media_matches(comps: Seq<(String, SchemaRef)>, ms: Seq<MediaDef>, name: Seq<char>) -> bool {
    exists|i: int| 0 <= i < ms.len() && opt_matches(comps, (#[trigger] ms[i]).schema, name)
}

/// A usage as text: method, path, kind of use and resource slug.
pub type UsageView = (Seq<char>, Seq<char>, Seq<char>, Option<Seq<char>>);

pub open spec fn usage_view(u: SchemaUsage) -> UsageView {
    (u.method@, u.path@, u.usage_type@, opt_view(u.resource_slug))
}

pub open spec fn usages_view(v: Seq<SchemaUsage>) -> Seq<UsageView> {
    v.map_values(|u: SchemaUsage| usage_view(u))
}

/// An operation with its path and method.
pub type OpEntry = (Seq<char>, Seq<char>, OperationDef);

/// The operations of the paths given inline, in order of paths and methods.
pub open spec fn api_operations(paths: Seq<(String, PathRef)>) -> Seq<OpEntry>
    decreases paths.len(),
{
    if paths.len() == 0 {
        seq![]
    } else {
        let p = paths.last();
        api_operations(paths.drop_last()) + match p.1 {
            PathRef::Item(pi) => pi.operations@.map_values(|e: (String, OperationDef)| (p.0@, e.0@, e.1)),
            PathRef::Reference(_) => seq![],
        }
    }
}

/// The resource an operation belongs to: the slug of its first tag, else
/// the group of its path.
pub open spec fn op_slug(path: Seq<char>, op: OperationDef) -> Option<Seq<char>> {
    if op.tags@.len() > 0 {
        Some(spec_slugify(op.tags@[0]@))
    } else {
        group_segment_from(path, 0)
    }
}

pub open spec fn usage_of(e: OpEntry, kind: Seq<char>) -> UsageView {
    (e.1, e.0, kind, op_slug(e.0, e.2))
}

/// The media types of a request body given inline.
pub open spec fn body_media(op: OperationDef) -> Seq<MediaDef> {
    match op.request_body {
        Some(BodyRef::Item(b)) => b.content@,
        _ => seq![],
    }
}

/// Some response given inline has content that uses the schema.
pub open spec fn any_response_matches(comps: Seq<(String, SchemaRef)>, rs: Seq<(StatusKey, ResponseRef)>, name: Seq<char>) -> bool {
    exists|i: int| 0 <= i < rs.len() && response_uses(comps, (#[trigger] rs[i]).1, name)
}

/// A response given inline whose content uses the schema.
pub open spec fn response_uses(comps: Seq<(String, SchemaRef)>, r: ResponseRef, name: Seq<char>) -> bool {
    match r {
        ResponseRef::Item(d) => media_matches(comps, d.content@, name),
        ResponseRef::Reference(_) => false,
    }
}

/// A parameter given inline whose schema is a reference to the schema.
pub open spec fn param_refers(p: ParamRef, name: Seq<char>) -> bool {
    match p {
        ParamRef::Item(d) => match d.schema {
            ValueSchema::Schema(SchemaRef::Reference(r)) => names_schema(r@, name),
            _ => false,
        },
        ParamRef::Reference(_) => false,
    }
}

/// Some parameter of the operation refers to the schema.
pub open spec fn any_param_refers(ps: Seq<ParamRef>, name: Seq<char>) -> bool {
    exists|i: int| 0 <= i < ps.len() && param_refers(#[trigger] ps[i], name)
}

/// The usages of one operation, at most one of each kind: its request
/// body, then its responses, then its own parameters.
pub open spec fn op_usages(comps: Seq<(String, SchemaRef)>, e: OpEntry, name: Seq<char>) -> Seq<UsageView> {
    (if media_matches(comps, body_media(e.2), name) { seq![usage_of(e, "request body"@)] } else { seq![] })
        + (if any_response_matches(comps, e.2.responses@, name) { seq![usage_of(e, "response"@)] } else { seq![] })
        + (if any_param_refers(e.2.parameters@, name) { seq![usage_of(e, "parameter"@)] } else { seq![] })
}

/// The usages of the operations, in order.
pub open spec fn usages_of(comps: Seq<(String, SchemaRef)>, ops: Seq<OpEntry>, name: Seq<char>) -> Seq<UsageView>
    decreases ops.len(),
{
    if ops.len() == 0 {
        seq![]
    } else {
        usages_of(comps, ops.drop_last(), name) + op_usages(comps, ops.last(), name)
    }
}

fn names_schema_exec(r: &str, name: &str) -> (b: bool)
    ensures
        b == names_schema(r@, name@),
{
    match schema_name_from_ref(r) {
        Some(n) => str_eq(n, name),
        None => false,
    }
}

fn field_refers_exec(p: &SchemaRef, name: &str) -> (b: bool)
    ensures
        b == field_refers(*p, name@),
{
    match p {
        SchemaRef::Reference(r) => names_schema_exec(r.as_str(), name),
        SchemaRef::Item(b) => match &b.kind {
            SchemaKind::Array { items, .. } => match items {
                Some(SchemaRef::Reference(r)) => names_schema_exec(r.as_str(), name),
                _ => false,
            },
            _ => false,
        },
    }
}

fn props_refer(props: &Vec<(String, SchemaRef)>, name: &str) -> (b: bool)
    ensures
        b == props_refer_to(props@, name@),
{
    let mut i: usize = 0;
    while i < props.len()
        invariant
            i <= props.len(),
            forall|j: int| 0 <= j < i ==> !field_refers(#[trigger] props@[j].1, name@),
        decreases props.len() - i,
    {
        if field_refers_exec(&props[i].1, name) {
            return true;
        }
        i = i + 1;
    }
    false
}

fn has_field_ref_exec(comps: &Vec<(String, SchemaRef)>, s: &SchemaNode, name: &str, fuel: usize) -> (b: bool)
    ensures
        b == has_field_ref(comps@, *s, name@, fuel as nat),
    decreases fuel, *s, 1nat,
{
    match &s.kind {
        SchemaKind::AllOf(parts) => allof_has_field_ref_exec(comps, parts, name, fuel),
        SchemaKind::Object { properties, .. } => {
            let b = props_refer(properties, name);
            assert(object_properties(*s) == Some((properties@, required_of(*s))));
            b
        },
        SchemaKind::Any { properties, .. } => {
            if properties.len() > 0 {
                let b = props_refer(properties, name);
                assert(object_properties(*s) == Some((properties@, required_of(*s))));
                b
            } else {
                false
            }
        },
        _ => false,
    }
}

fn allof_has_field_ref_exec(comps: &Vec<(String, SchemaRef)>, parts: &Vec<SchemaRef>, name: &str, fuel: usize) -> (b: bool)
    ensures
        b == allof_has_field_ref(comps@, parts@, name@, fuel as nat),
    decreases fuel, parts@, 0nat,
{
    let mut found = false;
    let mut i: usize = 0;
    assert(parts@.subrange(0, 0) =~= Seq::<SchemaRef>::empty());
    while i < parts.len()
        invariant
            i <= parts.len(),
            found == allof_has_field_ref(comps@, parts@.subrange(0, i as int), name@, fuel as nat),
        decreases parts.len() - i,
    {
        let ghost pre = parts@.subrange(0, i + 1);
        proof {
            assert(pre.subrange(0, pre.len() - 1) =~= parts@.subrange(0, i as int));
            assert(pre[pre.len() - 1] == parts@[i as int]);
        }
        if !found {
            match &parts[i] {
                SchemaRef::Item(b) => {
                    proof {
                        assert(decreases_to!(parts@ => parts@[i as int]));
                    }
                    found = has_field_ref_exec(comps, &**b, name, fuel);
                },
                SchemaRef::Reference(x) => {
                    if fuel > 0 {
                        match resolve_reference(comps, x.as_str()) {
                            Some(t) => {
                                found = has_field_ref_exec(comps, t, name, fuel - 1);
                            },
                            None => {},
                        }
                    }
                },
            }
        }
        i = i + 1;
    }
    assert(parts@.subrange(0, parts@.len() as int) =~= parts@);
    found
}

fn any_variant_refers(v: &Vec<SchemaRef>, name: &str) -> (b: bool)
    ensures
        b == exists|i: int| 0 <= i < v@.len() && is_ref_to(#[trigger] v@[i], name@),
{
    let mut i: usize = 0;
    while i < v.len()
        invariant
            i <= v.len(),
            forall|j: int| 0 <= j < i ==> !is_ref_to(#[trigger] v@[j], name@),
        decreases v.len() - i,
    {
        match &v[i] {
            SchemaRef::Reference(r) => {
                if names_schema_exec(r.as_str(), name) {
                    return true;
                }
            },
            SchemaRef::Item(_) => {},
        }
        i = i + 1;
    }
    false
}

fn ref_matches_schema(comps: &Vec<(String, SchemaRef)>, sr: &SchemaRef, name: &str) -> (b: bool)
    ensures
        b == ref_matches(comps@, *sr, name@),
{
    match sr {
        SchemaRef::Reference(r) => {
            if names_schema_exec(r.as_str(), name) {
                return true;
            }
            match resolve_reference(comps, r.as_str()) {
                Some(t) => has_field_ref_exec(comps, t, name, comps.len()),
                None => false,
            }
        },
        SchemaRef::Item(b) => {
            let v = match &b.kind {
                SchemaKind::AllOf(v) => any_variant_refers(v, name),
                SchemaKind::OneOf(v) => any_variant_refers(v, name),
                SchemaKind::AnyOf(v) => any_variant_refers(v, name),
                _ => false,
            };
            if v {
                return true;
            }
            has_field_ref_exec(comps, &**b, name, comps.len())
        },
    }
}

fn media_matches_exec(comps: &Vec<(String, SchemaRef)>, ms: &Vec<MediaDef>, name: &str) -> (b: bool)
    ensures
        b == media_matches(comps@, ms@, name@),
{
    let mut i: usize = 0;
    while i < ms.len()
        invariant
            i <= ms.len(),
            forall|j: int| 0 <= j < i ==> !opt_matches(comps@, (#[trigger] ms@[j]).schema, name@),
        decreases ms.len() - i,
    {
        match &ms[i].schema {
            Some(sr) => {
                if ref_matches_schema(comps, sr, name) {
                    return true;
                }
            },
            None => {},
        }
        i = i + 1;
    }
    false
}

fn op_slug_exec(path: &str, op: &OperationDef) -> (r: Option<String>)
    ensures
        opt_view(r) == op_slug(path@, *op),
{
    if op.tags.len() > 0 {
        Some(slugify(op.tags[0].as_str()))
    } else {
        path_prefix_group_name(path)
    }
}

fn push_usage(out: &mut Vec<SchemaUsage>, path: &str, method: &str, op: &OperationDef, slug: &Option<String>, kind: &str)
    requires
        opt_view(*slug) == op_slug(path@, *op),
    ensures
        usages_view(final(out)@) == usages_view(old(out)@).push(usage_of((path@, method@, *op), kind@)),
{
    out.push(SchemaUsage {
        method: owned(method),
        path: owned(path),
        usage_type: owned(kind),
        resource_slug: copy_opt_text(slug),
    });
    assert(usages_view(out@) =~= usages_view(old(out)@).push(usage_of((path@, method@, *op), kind@)));
}

fn op_usages_exec(comps: &Vec<(String, SchemaRef)>, path: &str, method: &str, op: &OperationDef, name: &str, out: &mut Vec<SchemaUsage>)
    ensures
        usages_view(final(out)@) == usages_view(old(out)@) + op_usages(comps@, (path@, method@, *op), name@),
{
    let ghost e: OpEntry = (path@, method@, *op);
    let ghost start = usages_view(out@);
    let slug = op_slug_exec(path, op);
    let body_hit = match &op.request_body {
        Some(BodyRef::Item(b)) => media_matches_exec(comps, &b.content, name),
        _ => {
            assert(body_media(*op).len() == 0);
            false
        },
    };
    if body_hit {
        push_usage(out, path, method, op, &slug, "request body");
    }
    let ghost after_body = usages_view(out@);
    assert(after_body == start + (if media_matches(comps@, body_media(*op), name@) { seq![usage_of(e, "request body"@)] } else { Seq::<UsageView>::empty() }));
    let mut resp_hit = false;
    let mut k: usize = 0;
    while k < op.responses.len()
        invariant
            k <= op.responses.len(),
            resp_hit <==> exists|i: int| 0 <= i < k && response_uses(comps@, (#[trigger] op.responses@[i]).1, name@),
        decreases op.responses.len() - k,
    {
        match &op.responses[k].1 {
            ResponseRef::Item(d) => {
                if media_matches_exec(comps, &d.content, name) {
                    resp_hit = true;
                }
            },
            ResponseRef::Reference(_) => {},
        }
        k = k + 1;
    }
    assert(resp_hit == any_response_matches(comps@, op.responses@, name@));
    if resp_hit {
        push_usage(out, path, method, op, &slug, "response");
    }
    let ghost after_resp = usages_view(out@);
    let mut param_hit = false;
    let mut k: usize = 0;
    while k < op.parameters.len()
        invariant
            k <= op.parameters.len(),
            param_hit <==> exists|i: int| 0 <= i < k && param_refers(#[trigger] op.parameters@[i], name@),
        decreases op.parameters.len() - k,
    {
        let hit = match &op.parameters[k] {
            ParamRef::Item(d) => match &d.schema {
                ValueSchema::Schema(SchemaRef::Reference(r)) => names_schema_exec(r.as_str(), name),
                _ => false,
            },
            ParamRef::Reference(_) => false,
        };
        assert(hit == param_refers(op.parameters@[k as int], name@));
        if hit {
            param_hit = true;
        }
        k = k + 1;
    }
    assert(param_hit == any_param_refers(op.parameters@, name@));
    if param_hit {
        push_usage(out, path, method, op, &slug, "parameter");
    }
    assert(usages_view(out@) =~= start + op_usages(comps@, e, name@));
}

/// The endpoints that use a schema: where a request body's content, a
/// response's content or a parameter refers to it (see `ref_matches`),
/// one usage per operation and kind of use, in order of paths and
/// methods.
pub fn find_schema_usage(api: &ApiDef, schema_name: &str) -> (r: Vec<SchemaUsage>)
    ensures
        usages_view(r@) == usages_of(api.schemas@, api_operations(api.paths@), schema_name@),
{
    let comps = &api.schemas;
    let mut out: Vec<SchemaUsage> = Vec::new();
    let mut i: usize = 0;
    assert(usages_view(out@) =~= usages_of(comps@, api_operations(api.paths@.take(0)), schema_name@));
    while i < api.paths.len()
        invariant
            i <= api.paths.len(),
            comps == &api.schemas,
            usages_view(out@) == usages_of(comps@, api_operations(api.paths@.take(i as int)), schema_name@),
        decreases api.paths.len() - i,
    {
        proof {
            assert(api.paths@.take(i + 1).drop_last() =~= api.paths@.take(i as int));
            assert(api.paths@.take(i + 1).last() == api.paths@[i as int]);
        }
        let path = api.paths[i].0.as_str();
        let ghost before = api_operations(api.paths@.take(i as int));
        match &api.paths[i].1 {
            PathRef::Item(pi) => {
                let ops = &pi.operations;
                let ghost m = ops@.map_values(|e: (String, OperationDef)| (path@, e.0@, e.1));
                let mut k: usize = 0;
                assert(before + m.take(0) =~= before);
                while k < ops.len()
                    invariant
                        k <= ops.len(),
                        comps == &api.schemas,
                        m == ops@.map_values(|e: (String, OperationDef)| (path@, e.0@, e.1)),
                        usages_view(out@) == usages_of(comps@, before + m.take(k as int), schema_name@),
                    decreases ops.len() - k,
                {
                    op_usages_exec(comps, path, ops[k].0.as_str(), &ops[k].1, schema_name, &mut out);
                    proof {
                        let nxt = before + m.take(k + 1);
                        assert(nxt.drop_last() =~= before + m.take(k as int));
                        assert(nxt.last() == (path@, ops@[k as int].0@, ops@[k as int].1));
                    }
                    k = k + 1;
                }
                assert(m.take(ops@.len() as int) =~= m);
                assert(api_operations(api.paths@.take(i + 1)) =~= before + m);
            },
            PathRef::Reference(_) => {
                assert(api_operations(api.paths@.take(i + 1)) =~= before);
            },
        }
        i = i + 1;
    }
    assert(api.paths@.take(api.paths@.len() as int) =~= api.paths@);
    out
}

} // verus!
