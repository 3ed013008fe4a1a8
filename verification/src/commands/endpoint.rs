//! Endpoint detail: the parameters, request body and responses of one
//! operation, with their fields, links and the hints for drilling deeper.
use vstd::prelude::*;
use crate::strutil::{
    chars_to_string, decimal, ends_with, join, join_strings, matches_at, push_str, starts_with, str_to_uppercase,
    to_chars, uppercase, usize_to_string,
};
use crate::models::resource::{
    CallbackEntry, CallbackOperation, CallbackResponse, Endpoint, Field, Parameter, ParameterLocation, RequestBody,
    Response, ResponseHeader, ResponseLink, slugify, spec_slugify,
};
use crate::models::operation::{
    ApiDef, BodyRef, HeaderRef, RequestBodyDef, LinkRef, LinkTarget, MediaDef, OperationDef, ParamDef, ParamKind, ParamRef, PathItemDef, PathRef,
    ResponseDef, ResponseRef, StatusKey, ValueSchema,
};
use crate::models::openapi::{
    build_fields, component, enum_values_of, extract_enum_values, fields_match, field_matches, find_component,
    format_name, object_properties, StringFormat, required_of, required_of_exec,
    resolve_variant, schema_plans, texts, type_display, format_type_display, variant_schema,
    ref_name_or_object, SchemaKind, SchemaNode, SchemaRef,
};
use crate::commands::init::opt_view;
use crate::commands::schemas::{
    build_schema_model, expand_fields, expansion, expanded_tree, extract_variant_names, field_expanded, find_schema,
    model_content, same_but_nested, spec_find_schema, variant_names,
};
use crate::commands::resources::RelatedSchema;
use crate::document::{schema_name_from_ref, spec_schema_name_from_ref};
use crate::render::sanitize::{owned, str_eq};
use crate::render::schema::{insert_name, lemma_sorted_set, names_of, sorted_set, strictly_sorted};

verus! {

// ───────────────────────── what a response returns ─────────────────────────

/// The property of that name, the first where several share it.
pub open spec fn prop_lookup(props: Seq<(String, SchemaRef)>, name: Seq<char>) -> Option<SchemaRef>
    decreases props.len(),
{
    if props.len() == 0 {
        None
    } else if props[0].0@ == name {
        Some(props[0].1)
    } else {
        prop_lookup(props.drop_first(), name)
    }
}

fn find_prop<'a>(props: &'a Vec<(String, SchemaRef)>, name: &str) -> (r: Option<&'a SchemaRef>)
    ensures
        match r {
            Some(x) => prop_lookup(props@, name@) == Some(*x),
            None => prop_lookup(props@, name@) is None,
        },
{
    let mut i: usize = 0;
    assert(props@.skip(0) =~= props@);
    while i < props.len()
        invariant
            i <= props.len(),
            prop_lookup(props@, name@) == prop_lookup(props@.skip(i as int), name@),
        decreases props.len() - i,
    {
        assert(props@.skip(i as int)[0] == props@[i as int]);
        if str_eq(props[i].0.as_str(), name) {
            return Some(&props[i].1);
        }
        assert(props@.skip(i as int).drop_first() =~= props@.skip(i + 1));
        i = i + 1;
    }
    None
}

pub open spec fn suffixed(o: Option<Seq<char>>, suf: Seq<char>) -> Option<Seq<char>> {
    match o {
        Some(n) => Some(n + suf),
        None => None,
    }
}

/// What an array with these items is called, followed by `suf`: the
/// referenced name or the item type with `[]`, or `array`.
pub open spec fn array_name(items: Option<SchemaRef>, suf: Seq<char>) -> Option<Seq<char>> {
    match items {
        Some(SchemaRef::Reference(r)) => suffixed(spec_schema_name_from_ref(r@), "[]"@ + suf),
        Some(SchemaRef::Item(i)) => Some(type_display(i.kind) + "[]"@ + suf),
        None => Some("array"@ + suf),
    }
}

/// The schema a response returns, as shown: a referenced name; `Name[]`
/// for an array; the variants joined by ` | ` for `anyOf` and `oneOf`; for
/// an inline object, `Name[] (list)` or `Name (list)` where its `data`
/// property holds the items, else `object`.
pub open spec fn response_schema_name(sr: SchemaRef) -> Option<Seq<char>> {
    match sr {
        SchemaRef::Reference(r) => spec_schema_name_from_ref(r@),
        SchemaRef::Item(b) => match b.kind {
            SchemaKind::Array { items, .. } => array_name(items, ""@),
            SchemaKind::AnyOf(vs) => if variant_names(vs@).len() == 0 { None } else { Some(join(variant_names(vs@), " | "@)) },
            SchemaKind::OneOf(vs) => if variant_names(vs@).len() == 0 { None } else { Some(join(variant_names(vs@), " | "@)) },
            SchemaKind::Object { properties, .. } => match prop_lookup(properties@, "data"@) {
                Some(SchemaRef::Item(d)) => match d.kind {
                    SchemaKind::Array { items, .. } => array_name(items, " (list)"@),
                    _ => Some("object"@),
                },
                Some(SchemaRef::Reference(r)) => suffixed(spec_schema_name_from_ref(r@), " (list)"@),
                None => Some("object"@),
            },
            _ => None,
        },
    }
}

fn array_name_exec(items: &Option<SchemaRef>, suf: &str) -> (r: Option<String>)
    ensures
        opt_view(r) == array_name(*items, suf@),
{
    match items {
        Some(SchemaRef::Reference(x)) => match schema_name_from_ref(x.as_str()) {
            Some(n) => {
                let mut s = owned(n);
                push_str(&mut s, "[]");
                push_str(&mut s, suf);
                assert(s@ =~= n@ + ("[]"@ + suf@));
                Some(s)
            },
            None => None,
        },
        Some(SchemaRef::Item(i)) => {
            let mut s = format_type_display(&i.kind);
            push_str(&mut s, "[]");
            push_str(&mut s, suf);
            Some(s)
        },
        None => {
            let mut s = owned("array");
            push_str(&mut s, suf);
            Some(s)
        },
    }
}

fn joined_variants(vs: &Vec<SchemaRef>) -> (r: Option<String>)
    ensures
        opt_view(r) == (if variant_names(vs@).len() == 0 { None } else { Some(join(variant_names(vs@), " | "@)) }),
{
    let names = extract_variant_names(vs);
    if names.len() == 0 {
        None
    } else {
        assert(names@.map_values(|p: String| p@) =~= texts(names@));
        Some(join_strings(&names, " | "))
    }
}

/// The schema a response returns, as shown.
pub fn resolve_response_schema_ref(schema_ref: &SchemaRef) -> (r: Option<String>)
    ensures
        opt_view(r) == response_schema_name(*schema_ref),
{
    match schema_ref {
        SchemaRef::Reference(x) => match schema_name_from_ref(x.as_str()) {
            Some(n) => Some(owned(n)),
            None => None,
        },
        SchemaRef::Item(b) => match &b.kind {
            SchemaKind::Array { items, .. } => array_name_exec(items, ""),
            SchemaKind::AnyOf(vs) => joined_variants(vs),
            SchemaKind::OneOf(vs) => joined_variants(vs),
            SchemaKind::Object { properties, .. } => match find_prop(properties, "data") {
                Some(SchemaRef::Item(d)) => match &d.kind {
                    SchemaKind::Array { items, .. } => array_name_exec(items, " (list)"),
                    _ => Some(owned("object")),
                },
                Some(SchemaRef::Reference(x)) => match schema_name_from_ref(x.as_str()) {
                    Some(n) => {
                        let mut s = owned(n);
                        push_str(&mut s, " (list)");
                        Some(s)
                    },
                    None => None,
                },
                None => Some(owned("object")),
            },
            _ => None,
        },
    }
}

// ───────────────────────── expanding inline objects ─────────────────────────

/// One level deeper.
pub open spec fn deeper(d: nat) -> nat {
    d + 1
}

/// Each field expanded as `expand_fields` does it.
pub open spec fn fields_expanded(r: Seq<Field>, fs: Seq<Field>, comps: Seq<(String, SchemaRef)>, visited: Seq<Seq<char>>, depth: nat, max: nat) -> bool {
    &&& r.len() == fs.len()
    &&& forall|j: int| 0 <= j < r.len() ==> field_expanded(#[trigger] r[j], fs[j], comps, visited, depth, max)
}

/// The inline object a field of `schema` is expanded into: where the depth
/// allows, the field refers to no named schema and has no nested fields
/// yet, and its property resolves to a schema with properties.
pub open spec fn inline_target(comps: Seq<(String, SchemaRef)>, schema: SchemaNode, f: Field, depth: nat, max: nat) -> Option<SchemaNode> {
    if depth > max || f.nested_schema_name is Some || f.nested_fields@.len() > 0 {
        None
    } else {
        match object_properties(schema) {
            None => None,
            Some(p) => match prop_lookup(p.0, f.name@) {
                None => None,
                Some(sr) => match variant_schema(comps, sr) {
                    None => None,
                    Some(t) => match object_properties(t) {
                        Some(q) => if q.0.len() > 0 { Some(t) } else { None },
                        None => None,
                    },
                },
            },
        }
    }
}

/// `r` is `fs` with each field whose property is an inline object given
/// that object's fields, themselves expanded the same way and then by
/// `expand_fields`, one level deeper each time, down to `max`.
pub open spec fn inline_expanded(r: Seq<Field>, fs: Seq<Field>, comps: Seq<(String, SchemaRef)>, schema: SchemaNode, depth: nat, max: nat) -> bool
    decreases max + 1 - depth,
{
    &&& r.len() == fs.len()
    &&& forall|i: int| 0 <= i < r.len() ==> {
        &&& same_but_nested(#[trigger] r[i], fs[i])
        &&& match inline_target(comps, schema, fs[i], depth, max) {
            Some(t) => depth <= max && exists|b: Seq<Field>, m: Seq<Field>|
                #![trigger fields_match(b, schema_plans(comps, t, required_of(t), comps.len())), fields_expanded(r[i].nested_fields@, m, comps, seq![], deeper(depth), max)]
                fields_match(b, schema_plans(comps, t, required_of(t), comps.len()))
                && inline_expanded(m, b, comps, t, deeper(depth), max)
                && fields_expanded(r[i].nested_fields@, m, comps, seq![], deeper(depth), max),
            None => r[i].nested_fields == fs[i].nested_fields,
        }
    }
}

fn inline_target_exec<'a>(comps: &'a Vec<(String, SchemaRef)>, schema: &'a SchemaNode, f: &Field, depth: usize, max_depth: usize) -> (r: Option<&'a SchemaNode>)
    ensures
        match r {
            Some(t) => inline_target(comps@, *schema, *f, depth as nat, max_depth as nat) == Some(*t),
            None => inline_target(comps@, *schema, *f, depth as nat, max_depth as nat) is None,
        },
{
    if depth > max_depth || f.nested_schema_name.is_some() || f.nested_fields.len() > 0 {
        return None;
    }
    let props = match &schema.kind {
        SchemaKind::Object { properties, .. } => properties,
        SchemaKind::Any { properties, .. } => {
            if properties.len() > 0 {
                properties
            } else {
                return None;
            }
        },
        _ => return None,
    };
    assert(object_properties(*schema) == Some((props@, required_of(*schema))));
    let sr = match find_prop(props, f.name.as_str()) {
        Some(x) => x,
        None => return None,
    };
    let t = match resolve_variant(comps, sr) {
        Some(t) => t,
        None => return None,
    };
    let has_props = match &t.kind {
        SchemaKind::Object { properties, .. } => properties.len() > 0,
        SchemaKind::Any { properties, .. } => properties.len() > 0,
        _ => false,
    };
    if has_props { Some(t) } else { None }
}

proof fn lemma_unexpanded(fs: Seq<Field>, comps: Seq<(String, SchemaRef)>, schema: SchemaNode, depth: nat, max: nat)
    requires
        depth > max,
    ensures
        inline_expanded(fs, fs, comps, schema, depth, max),
        fields_expanded(fs, fs, comps, seq![], depth, max),
{
}

/// Gives each field whose property is an inline object the fields of that
/// object, expanded in turn, down to `max_depth`.
pub fn expand_inline_objects(
    comps: &Vec<(String, SchemaRef)>,
    schema: &SchemaNode,
    fields: Vec<Field>,
    depth: usize,
    max_depth: usize,
) -> (r: Vec<Field>)
    ensures
        inline_expanded(r@, fields@, comps@, *schema, depth as nat, max_depth as nat),
    decreases max_depth + 1 - depth,
{
    let ghost orig = fields@;
    let mut out: Vec<Field> = Vec::new();
    let mut rest = fields;
    while rest.len() > 0
        invariant
            out@.len() + rest@.len() == orig.len(),
            rest@ == orig.skip(out@.len() as int),
            forall|k: int| 0 <= k < out@.len() ==> {
                &&& same_but_nested(#[trigger] out@[k], orig[k])
                &&& match inline_target(comps@, *schema, orig[k], depth as nat, max_depth as nat) {
                    Some(t) => depth <= max_depth && exists|b: Seq<Field>, m: Seq<Field>|
                        #![trigger fields_match(b, schema_plans(comps@, t, required_of(t), comps@.len())), fields_expanded(out@[k].nested_fields@, m, comps@, seq![], deeper(depth as nat), max_depth as nat)]
                        fields_match(b, schema_plans(comps@, t, required_of(t), comps@.len()))
                        && inline_expanded(m, b, comps@, t, deeper(depth as nat), max_depth as nat)
                        && fields_expanded(out@[k].nested_fields@, m, comps@, seq![], deeper(depth as nat), max_depth as nat),
                    None => out@[k].nested_fields == orig[k].nested_fields,
                }
            },
        decreases rest@.len(),
    {
        let mut f = rest.remove(0);
        let ghost f0 = f;
        proof {
            assert(f0 == orig[out@.len() as int]);
            assert(rest@ =~= orig.skip((out@.len() + 1) as int));
        }
        match inline_target_exec(comps, schema, &f, depth, max_depth) {
            Some(t) => {
                let req = required_of_exec(t);
                proof {
                    assert(req@.map_values(|s: String| s@) =~= texts(req@));
                }
                let b = build_fields(comps, t, req.as_slice());
                let ghost bv = b@;
                let m = if depth < max_depth {
                    expand_inline_objects(comps, t, b, depth + 1, max_depth)
                } else {
                    proof { lemma_unexpanded(bv, comps@, *t, deeper(depth as nat), max_depth as nat); }
                    b
                };
                let ghost mv = m@;
                let e = if depth < max_depth {
                    let mut visited: Vec<String> = Vec::new();
                    assert(texts(visited@) =~= Seq::<Seq<char>>::empty());
                    expand_fields(comps, m, &mut visited, depth + 1, max_depth)
                } else {
                    proof { lemma_unexpanded(mv, comps@, *t, deeper(depth as nat), max_depth as nat); }
                    m
                };
                f.nested_fields = e;
                proof {
                    assert(fields_match(bv, schema_plans(comps@, *t, required_of(*t), comps@.len())));
                    assert(inline_expanded(mv, bv, comps@, *t, deeper(depth as nat), max_depth as nat));
                    assert(fields_expanded(f.nested_fields@, mv, comps@, seq![], deeper(depth as nat), max_depth as nat));
                }
            },
            None => {},
        }
        let ghost ob = out@;
        out.push(f);
        proof {
            assert forall|k: int| 0 <= k < out@.len() implies {
                &&& same_but_nested(#[trigger] out@[k], orig[k])
                &&& match inline_target(comps@, *schema, orig[k], depth as nat, max_depth as nat) {
                    Some(t) => depth <= max_depth && exists|b: Seq<Field>, m: Seq<Field>|
                        #![trigger fields_match(b, schema_plans(comps@, t, required_of(t), comps@.len())), fields_expanded(out@[k].nested_fields@, m, comps@, seq![], deeper(depth as nat), max_depth as nat)]
                        fields_match(b, schema_plans(comps@, t, required_of(t), comps@.len()))
                        && inline_expanded(m, b, comps@, t, deeper(depth as nat), max_depth as nat)
                        && fields_expanded(out@[k].nested_fields@, m, comps@, seq![], deeper(depth as nat), max_depth as nat),
                    None => out@[k].nested_fields == orig[k].nested_fields,
                }
            } by {
                if k < ob.len() {
                    assert(out@[k] == ob[k]);
                }
            }
        }
    }
    assert(out@.len() == orig.len());
    assert(orig == fields@);
    out
}

// ───────────────────────── fields of a response ─────────────────────────

/// `s` without the suffix `suf`, where it ends so.
pub open spec fn strip_suffix(s: Seq<char>, suf: Seq<char>) -> Seq<char> {
    if ends_with(s, suf) { s.take(s.len() - suf.len()) } else { s }
}

/// The pieces of `s` between the occurrences of `sep`, found from the left
/// without overlap, from position `i` on, the current piece starting at
/// `start` (what `str::split` gives).
pub open spec fn split_from(s: Seq<char>, sep: Seq<char>, start: int, i: int) -> Seq<Seq<char>>
    decreases s.len() - i when sep.len() > 0 && 0 <= start <= i
{
    if i + sep.len() > s.len() {
        seq![s.subrange(start, s.len() as int)]
    } else if s.subrange(i, i + sep.len()) == sep {
        seq![s.subrange(start, i)] + split_from(s, sep, i + sep.len(), i + sep.len())
    } else {
        split_from(s, sep, start, i + 1)
    }
}

pub open spec fn split_on(s: Seq<char>, sep: Seq<char>) -> Seq<Seq<char>> {
    split_from(s, sep, 0, 0)
}

fn strip_suffix_exec(s: &str, suf: &str) -> (r: String)
    ensures
        r@ == strip_suffix(s@, suf@),
{
    let v = to_chars(s);
    let p = to_chars(suf);
    if p.len() <= v.len() && matches_at(&v, &p, v.len() - p.len()) {
        let mut out: Vec<char> = Vec::new();
        let mut i: usize = 0;
        while i < v.len() - p.len()
            invariant
                p.len() <= v.len(),
                i <= v.len() - p.len(),
                out@ == v@.take(i as int),
            decreases v.len() - p.len() - i,
        {
            out.push(v[i]);
            assert(v@.take(i + 1) =~= v@.take(i as int).push(v@[i as int]));
            i = i + 1;
        }
        chars_to_string(&out)
    } else {
        chars_to_string(&v)
    }
}

fn piece(v: &Vec<char>, a: usize, b: usize) -> (r: String)
    requires
        a <= b <= v.len(),
    ensures
        r@ == v@.subrange(a as int, b as int),
{
    let mut out: Vec<char> = Vec::new();
    let mut i: usize = a;
    while i < b
        invariant
            a <= i <= b <= v.len(),
            out@ == v@.subrange(a as int, i as int),
        decreases b - i,
    {
        out.push(v[i]);
        assert(v@.subrange(a as int, i + 1) =~= v@.subrange(a as int, i as int).push(v@[i as int]));
        i = i + 1;
    }
    chars_to_string(&out)
}

/// The pieces of `s` between the occurrences of `sep`.
pub fn split_str(s: &str, sep: &str) -> (r: Vec<String>)
    requires
        sep@.len() > 0,
    ensures
        texts(r@) == split_on(s@, sep@),
{
    let v = to_chars(s);
    let p = to_chars(sep);
    let mut out: Vec<String> = Vec::new();
    let mut start: usize = 0;
    let mut i: usize = 0;
    while p.len() <= v.len() - i
        invariant
            v@ == s@,
            p@ == sep@,
            p@.len() > 0,
            start <= i <= v.len(),
            texts(out@) + split_from(v@, p@, start as int, i as int) == split_on(s@, sep@),
        decreases v.len() - i,
    {
        if matches_at(&v, &p, i) {
            let pc = piece(&v, start, i);
            let ghost before = texts(out@);
            out.push(pc);
            proof {
                assert(texts(out@) =~= before.push(pc@));
                assert(before + split_from(v@, p@, start as int, i as int)
                    =~= texts(out@) + split_from(v@, p@, (i + p@.len()) as int, (i + p@.len()) as int));
            }
            i = i + p.len();
            start = i;
        } else {
            i = i + 1;
        }
    }
    let pc = piece(&v, start, v.len());
    let ghost before = texts(out@);
    out.push(pc);
    assert(texts(out@) =~= before.push(pc@));
    assert(texts(out@) =~= before + split_from(v@, p@, start as int, i as int));
    out
}

/// The fields without any of the given name.
pub open spec fn remove_named_fields(fs: Seq<Field>, n: Seq<char>) -> Seq<Field>
    decreases fs.len(),
{
    if fs.len() == 0 {
        seq![]
    } else if fs.last().name@ == n {
        remove_named_fields(fs.drop_last(), n)
    } else {
        remove_named_fields(fs.drop_last(), n).push(fs.last())
    }
}

/// `extra` added to `acc`, each field replacing an earlier one of its name.
pub open spec fn merge_fields(acc: Seq<Field>, extra: Seq<Field>) -> Seq<Field>
    decreases extra.len(),
{
    if extra.len() == 0 {
        acc
    } else {
        remove_named_fields(merge_fields(acc, extra.drop_last()), extra.last().name@).push(extra.last())
    }
}

/// The field lists merged in order.
pub open spec fn merge_all(parts: Seq<Seq<Field>>) -> Seq<Field>
    decreases parts.len(),
{
    if parts.len() == 0 {
        seq![]
    } else {
        merge_fields(merge_all(parts.drop_last()), parts.last())
    }
}

fn remove_named_fields_exec(fs: Vec<Field>, n: &str) -> (r: Vec<Field>)
    ensures
        r@ == remove_named_fields(fs@, n@),
{
    let ghost orig = fs@;
    let mut out: Vec<Field> = Vec::new();
    let mut rest = fs;
    let n0 = rest.len();
    assert(orig.len() == n0);
    let mut k: usize = 0;
    assert(orig.take(0) =~= Seq::<Field>::empty());
    while rest.len() > 0
        invariant
            orig.len() <= usize::MAX,
            k + rest@.len() == orig.len(),
            rest@ == orig.skip(k as int),
            out@ == remove_named_fields(orig.take(k as int), n@),
        decreases rest@.len(),
    {
        let f = rest.remove(0);
        proof {
            assert(f == orig[k as int]);
            assert(rest@ =~= orig.skip(k + 1));
            assert(orig.take(k + 1).drop_last() =~= orig.take(k as int));
        }
        if !str_eq(f.name.as_str(), n) {
            out.push(f);
        }
        k = k + 1;
    }
    assert(orig.take(k as int) =~= orig);
    out
}

fn merge_fields_exec(acc: Vec<Field>, extra: Vec<Field>) -> (r: Vec<Field>)
    ensures
        r@ == merge_fields(acc@, extra@),
{
    let ghost a0 = acc@;
    let ghost orig = extra@;
    let mut all = acc;
    let mut rest = extra;
    let n0 = rest.len();
    assert(orig.len() == n0);
    let mut k: usize = 0;
    assert(orig.take(0) =~= Seq::<Field>::empty());
    while rest.len() > 0
        invariant
            orig.len() <= usize::MAX,
            k + rest@.len() == orig.len(),
            rest@ == orig.skip(k as int),
            all@ == merge_fields(a0, orig.take(k as int)),
        decreases rest@.len(),
    {
        let f = rest.remove(0);
        proof {
            assert(f == orig[k as int]);
            assert(rest@ =~= orig.skip(k + 1));
            assert(orig.take(k + 1).drop_last() =~= orig.take(k as int));
        }
        let mut kept = remove_named_fields_exec(all, f.name.as_str());
        kept.push(f);
        all = kept;
        k = k + 1;
    }
    assert(orig.take(k as int) =~= orig);
    all
}

/// What the response fields hold for one variant name: nothing where no
/// schema has that name; else the schema's fields with inline objects and
/// then referenced schemas expanded, five levels deep, the name itself
/// counting as being expanded.
pub open spec fn variant_expansion(comps: Seq<(String, SchemaRef)>, v: Seq<char>, r: Seq<Field>) -> bool {
    match spec_find_schema(comps, v) {
        None => r.len() == 0,
        Some(p) => exists|b: Seq<Field>, m: Seq<Field>|
            #![trigger fields_match(b, schema_plans(comps, p.1, required_of(p.1), comps.len())), fields_expanded(r, m, comps, seq![v], 1, 5)]
            fields_match(b, schema_plans(comps, p.1, required_of(p.1), comps.len()))
            && inline_expanded(m, b, comps, p.1, 1, 5)
            && fields_expanded(r, m, comps, seq![v], 1, 5),
    }
}

/// The variant names a response's schema stands for: the shown name
/// without ` (list)` and `[]`, split at ` | `.
pub open spec fn response_variants(schema_ref: Option<Seq<char>>) -> Seq<Seq<char>> {
    match schema_ref {
        Some(n) => split_on(strip_suffix(strip_suffix(n, " (list)"@), "[]"@), " | "@),
        None => seq![],
    }
}

/// The fields of a response: those of each variant merged in order, a
/// later field replacing an earlier one of the same name.
pub open spec fn response_expansion(comps: Seq<(String, SchemaRef)>, schema_ref: Option<Seq<char>>, r: Seq<Field>) -> bool {
    let vs = response_variants(schema_ref);
    exists|parts: Seq<Seq<Field>>|
        #![trigger merge_all(parts)]
        parts.len() == vs.len()
        && (forall|k: int| 0 <= k < vs.len() ==> variant_expansion(comps, vs[k], #[trigger] parts[k]))
        && r == merge_all(parts)
}

fn expand_variant(comps: &Vec<(String, SchemaRef)>, v: &str) -> (r: Vec<Field>)
    ensures
        variant_expansion(comps@, v@, r@),
{
    match find_schema(comps, v) {
        Some((key, schema)) => {
            assert(spec_find_schema(comps@, v@) == Some((key@, *schema)));
            let req = required_of_exec(schema);
            proof {
                assert(req@.map_values(|s: String| s@) =~= texts(req@));
            }
            let b = build_fields(comps, schema, req.as_slice());
            let ghost bv = b@;
            let m = expand_inline_objects(comps, schema, b, 1, 5);
            let ghost mv = m@;
            let mut visited: Vec<String> = Vec::new();
            visited.push(owned(v));
            assert(texts(visited@) =~= seq![v@]);
            let e = expand_fields(comps, m, &mut visited, 1, 5);
            proof {
                let p = spec_find_schema(comps@, v@)->0;
                assert(p.1 == *schema);
                assert(fields_match(bv, schema_plans(comps@, p.1, required_of(p.1), comps@.len())));
                assert(fields_expanded(e@, mv, comps@, seq![v@], 1, 5));
                assert(inline_expanded(mv, bv, comps@, p.1, 1, 5));
            }
            e
        },
        None => Vec::new(),
    }
}

/// The fields of a response's schema: each variant's schema expanded and
/// the fields merged by name.
pub fn expand_response_schema(comps: &Vec<(String, SchemaRef)>, schema_ref: &Option<String>) -> (r: Vec<Field>)
    ensures
        response_expansion(comps@, opt_view(*schema_ref), r@),
{
    let names: Vec<String> = match schema_ref {
        Some(n) => {
            let a = strip_suffix_exec(n.as_str(), " (list)");
            let b = strip_suffix_exec(a.as_str(), "[]");
            proof { reveal_strlit(" | "); }
            split_str(b.as_str(), " | ")
        },
        None => Vec::new(),
    };
    let ghost vs = response_variants(opt_view(*schema_ref));
    assert(texts(names@) =~= vs);
    let mut all: Vec<Field> = Vec::new();
    let ghost mut parts: Seq<Seq<Field>> = seq![];
    let mut i: usize = 0;
    while i < names.len()
        invariant
            i <= names.len(),
            texts(names@) == vs,
            parts.len() == i,
            forall|k: int| 0 <= k < i ==> variant_expansion(comps@, vs[k], #[trigger] parts[k]),
            all@ == merge_all(parts),
        decreases names.len() - i,
    {
        let e = expand_variant(comps, names[i].as_str());
        assert(names@[i as int]@ == vs[i as int]);
        proof {
            let p2 = parts.push(e@);
            assert(p2.drop_last() =~= parts);
            assert forall|k: int| 0 <= k < i + 1 implies variant_expansion(comps@, vs[k], #[trigger] p2[k]) by {
                if k < i {
                    assert(p2[k] == parts[k]);
                }
            }
            parts = p2;
        }
        all = merge_fields_exec(all, e);
        i = i + 1;
    }
    assert(all@ == merge_all(parts));
    all
}

// ───────────────────────── headers and links ─────────────────────────

/// The type a header is shown with: its schema's type, the referenced
/// name (or `object`), or `string` where content describes it.
pub open spec fn header_type(v: ValueSchema) -> Seq<char> {
    match v {
        ValueSchema::Schema(SchemaRef::Item(b)) => type_display(b.kind),
        ValueSchema::Schema(SchemaRef::Reference(r)) => ref_name_or_object(r@),
        ValueSchema::Content => "string"@,
    }
}

/// A header as text: name, type, description.
pub type HeaderView = (Seq<char>, Seq<char>, Option<Seq<char>>);

pub open spec fn header_view(h: ResponseHeader) -> HeaderView {
    (h.name@, h.type_display@, opt_view(h.description))
}

pub open spec fn headers_view(hs: Seq<ResponseHeader>) -> Seq<HeaderView> {
    hs.map_values(|h: ResponseHeader| header_view(h))
}

/// The headers given inline, in order.
pub open spec fn headers_of(hs: Seq<HeaderRef>) -> Seq<HeaderView>
    decreases hs.len(),
{
    if hs.len() == 0 {
        seq![]
    } else {
        match hs.last() {
            HeaderRef::Item(h) => headers_of(hs.drop_last()).push((h.name@, header_type(h.schema), opt_view(h.description))),
            HeaderRef::Reference(_) => headers_of(hs.drop_last()),
        }
    }
}

fn copy_opt(o: &Option<String>) -> (r: Option<String>)
    ensures
        opt_view(r) == opt_view(*o),
{
    match o {
        Some(x) => Some(owned(x.as_str())),
        None => None,
    }
}

fn header_type_exec(v: &ValueSchema) -> (r: String)
    ensures
        r@ == header_type(*v),
{
    match v {
        ValueSchema::Schema(SchemaRef::Item(b)) => format_type_display(&b.kind),
        ValueSchema::Schema(SchemaRef::Reference(x)) => match schema_name_from_ref(x.as_str()) {
            Some(n) => owned(n),
            None => owned("object"),
        },
        ValueSchema::Content => owned("string"),
    }
}

fn extract_headers(hs: &Vec<HeaderRef>) -> (r: Vec<ResponseHeader>)
    ensures
        headers_view(r@) == headers_of(hs@),
{
    let mut r: Vec<ResponseHeader> = Vec::new();
    let mut i: usize = 0;
    while i < hs.len()
        invariant
            i <= hs.len(),
            headers_view(r@) == headers_of(hs@.take(i as int)),
        decreases hs.len() - i,
    {
        proof {
            assert(hs@.take(i + 1).drop_last() =~= hs@.take(i as int));
            assert(hs@.take(i + 1).last() == hs@[i as int]);
        }
        match &hs[i] {
            HeaderRef::Item(h) => {
                let ghost before = headers_view(r@);
                r.push(ResponseHeader {
                    name: owned(h.name.as_str()),
                    type_display: header_type_exec(&h.schema),
                    description: copy_opt(&h.description),
                });
                assert(headers_view(r@) =~= before.push((h.name@, header_type(h.schema), opt_view(h.description))));
            },
            HeaderRef::Reference(_) => {},
        }
        i = i + 1;
    }
    assert(hs@.take(hs@.len() as int) =~= hs@);
    r
}

/// The methods whose operations a link can point at.
pub open spec fn is_link_method(m: Seq<char>) -> bool {
    m == "GET"@ || m == "POST"@ || m == "PUT"@ || m == "DELETE"@ || m == "PATCH"@
}

/// The command that shows the operation with that id, among these
/// operations of one path: the first, by GET, POST, PUT, DELETE or PATCH,
/// that has the id and a tag.
pub open spec fn ops_drill(path: Seq<char>, ops: Seq<(String, OperationDef)>, op_id: Seq<char>, bin: Seq<char>) -> Option<Seq<char>>
    decreases ops.len(),
{
    if ops.len() == 0 {
        None
    } else if is_link_method(ops[0].0@) && opt_view(ops[0].1.operation_id) == Some(op_id) && ops[0].1.tags@.len() > 0 {
        Some(bin + " resources "@ + spec_slugify(ops[0].1.tags@[0]@) + " "@ + ops[0].0@ + " "@ + path)
    } else {
        ops_drill(path, ops.drop_first(), op_id, bin)
    }
}

/// The command for the first such operation among the paths, in order.
pub open spec fn paths_drill(paths: Seq<(String, PathRef)>, op_id: Seq<char>, bin: Seq<char>) -> Option<Seq<char>>
    decreases paths.len(),
{
    if paths.len() == 0 {
        None
    } else {
        match paths[0].1 {
            PathRef::Item(pi) => match ops_drill(paths[0].0@, pi.operations@, op_id, bin) {
                Some(c) => Some(c),
                None => paths_drill(paths.drop_first(), op_id, bin),
            },
            PathRef::Reference(_) => paths_drill(paths.drop_first(), op_id, bin),
        }
    }
}

fn is_link_method_exec(m: &str) -> (r: bool)
    ensures
        r == is_link_method(m@),
{
    str_eq(m, "GET") || str_eq(m, "POST") || str_eq(m, "PUT") || str_eq(m, "DELETE") || str_eq(m, "PATCH")
}

fn same_id(o: &Option<String>, id: &str) -> (r: bool)
    ensures
        r == (opt_view(*o) == Some(id@)),
{
    match o {
        Some(x) => str_eq(x.as_str(), id),
        None => false,
    }
}

fn ops_drill_exec(path: &str, ops: &Vec<(String, OperationDef)>, operation_id: &str, bin_name: &str) -> (r: Option<String>)
    ensures
        opt_view(r) == ops_drill(path@, ops@, operation_id@, bin_name@),
{
    let mut k: usize = 0;
    assert(ops@.skip(0) =~= ops@);
    while k < ops.len()
        invariant
            k <= ops.len(),
            ops_drill(path@, ops@, operation_id@, bin_name@) == ops_drill(path@, ops@.skip(k as int), operation_id@, bin_name@),
        decreases ops.len() - k,
    {
        assert(ops@.skip(k as int)[0] == ops@[k as int]);
        assert(ops@.skip(k as int).drop_first() =~= ops@.skip(k + 1));
        let op = &ops[k].1;
        if is_link_method_exec(ops[k].0.as_str()) && same_id(&op.operation_id, operation_id) && op.tags.len() > 0 {
            let mut c = owned(bin_name);
            push_str(&mut c, " resources ");
            let slug = slugify(op.tags[0].as_str());
            push_str(&mut c, slug.as_str());
            push_str(&mut c, " ");
            push_str(&mut c, ops[k].0.as_str());
            push_str(&mut c, " ");
            push_str(&mut c, path);
            return Some(c);
        }
        k = k + 1;
    }
    None
}

/// The command that shows the operation with that id, where one with a tag
/// has it.
pub fn build_link_drill_command(api: &ApiDef, operation_id: &str, bin_name: &str) -> (r: Option<String>)
    ensures
        opt_view(r) == paths_drill(api.paths@, operation_id@, bin_name@),
{
    let mut i: usize = 0;
    assert(api.paths@.skip(0) =~= api.paths@);
    while i < api.paths.len()
        invariant
            i <= api.paths.len(),
            paths_drill(api.paths@, operation_id@, bin_name@) == paths_drill(api.paths@.skip(i as int), operation_id@, bin_name@),
        decreases api.paths.len() - i,
    {
        assert(api.paths@.skip(i as int)[0] == api.paths@[i as int]);
        assert(api.paths@.skip(i as int).drop_first() =~= api.paths@.skip(i + 1));
        match &api.paths[i].1 {
            PathRef::Item(pi) => {
                match ops_drill_exec(api.paths[i].0.as_str(), &pi.operations, operation_id, bin_name) {
                    Some(c) => return Some(c),
                    None => {},
                }
            },
            PathRef::Reference(_) => {},
        }
        i = i + 1;
    }
    None
}

/// A link parameter as shown: `name = value`.
pub open spec fn link_param(p: (String, String)) -> Seq<char> {
    p.0@ + " = "@ + p.1@
}

/// A link as text: name, operation id, parameters, description, command.
pub type LinkView = (Seq<char>, Seq<char>, Seq<Seq<char>>, Option<Seq<char>>, Option<Seq<char>>);

pub open spec fn link_view(l: ResponseLink) -> LinkView {
    (l.name@, l.operation_id@, texts(l.parameters@), opt_view(l.description), opt_view(l.drill_command))
}

pub open spec fn links_view(ls: Seq<ResponseLink>) -> Seq<LinkView> {
    ls.map_values(|l: ResponseLink| link_view(l))
}

/// The links given inline that point at an operation id, in order, each
/// with the command that shows that operation.
pub open spec fn links_of(api: ApiDef, ls: Seq<LinkRef>, bin: Seq<char>) -> Seq<LinkView>
    decreases ls.len(),
{
    if ls.len() == 0 {
        seq![]
    } else {
        let prev = links_of(api, ls.drop_last(), bin);
        match ls.last() {
            LinkRef::Item(l) => match l.target {
                LinkTarget::OperationId(id) => prev.push((l.name@, id@,
                    l.parameters@.map_values(|p: (String, String)| link_param(p)), opt_view(l.description),
                    paths_drill(api.paths@, id@, bin))),
                LinkTarget::OperationRef(_) => prev,
            },
            LinkRef::Reference(_) => prev,
        }
    }
}

fn link_params_exec(ps: &Vec<(String, String)>) -> (r: Vec<String>)
    ensures
        texts(r@) == ps@.map_values(|p: (String, String)| link_param(p)),
{
    let mut r: Vec<String> = Vec::new();
    let mut i: usize = 0;
    while i < ps.len()
        invariant
            i <= ps.len(),
            texts(r@) == ps@.take(i as int).map_values(|p: (String, String)| link_param(p)),
        decreases ps.len() - i,
    {
        let mut t = owned(ps[i].0.as_str());
        push_str(&mut t, " = ");
        push_str(&mut t, ps[i].1.as_str());
        let ghost before = texts(r@);
        r.push(t);
        assert(texts(r@) =~= before.push(t@));
        assert(ps@.take(i + 1).map_values(|p: (String, String)| link_param(p))
            =~= ps@.take(i as int).map_values(|p: (String, String)| link_param(p)).push(link_param(ps@[i as int])));
        i = i + 1;
    }
    assert(ps@.take(ps@.len() as int) =~= ps@);
    r
}

/// The links of a response that point at an operation id.
pub fn extract_links_from_response(api: &ApiDef, links: &Vec<LinkRef>, bin_name: &str) -> (r: Vec<ResponseLink>)
    ensures
        links_view(r@) == links_of(*api, links@, bin_name@),
{
    let mut r: Vec<ResponseLink> = Vec::new();
    let mut i: usize = 0;
    while i < links.len()
        invariant
            i <= links.len(),
            links_view(r@) == links_of(*api, links@.take(i as int), bin_name@),
        decreases links.len() - i,
    {
        proof {
            assert(links@.take(i + 1).drop_last() =~= links@.take(i as int));
            assert(links@.take(i + 1).last() == links@[i as int]);
        }
        match &links[i] {
            LinkRef::Item(l) => match &l.target {
                LinkTarget::OperationId(id) => {
                    let ghost before = links_view(r@);
                    let link = ResponseLink {
                        name: owned(l.name.as_str()),
                        operation_id: owned(id.as_str()),
                        parameters: link_params_exec(&l.parameters),
                        description: copy_opt(&l.description),
                        drill_command: build_link_drill_command(api, id.as_str(), bin_name),
                    };
                    r.push(link);
                    assert(links_view(r@) =~= before.push(link_view(link)));
                },
                LinkTarget::OperationRef(_) => {},
            },
            LinkRef::Reference(_) => {},
        }
        i = i + 1;
    }
    assert(links@.take(links@.len() as int) =~= links@);
    r
}

// ───────────────────────── responses ─────────────────────────

/// The media type of that content type, the first where several share it.
pub open spec fn media_lookup(ms: Seq<MediaDef>, ct: Seq<char>) -> Option<MediaDef>
    decreases ms.len(),
{
    if ms.len() == 0 {
        None
    } else if ms[0].content_type@ == ct {
        Some(ms[0])
    } else {
        media_lookup(ms.drop_first(), ct)
    }
}

fn find_media<'a>(ms: &'a Vec<MediaDef>, ct: &str) -> (r: Option<&'a MediaDef>)
    ensures
        match r {
            Some(x) => media_lookup(ms@, ct@) == Some(*x),
            None => media_lookup(ms@, ct@) is None,
        },
{
    let mut i: usize = 0;
    assert(ms@.skip(0) =~= ms@);
    while i < ms.len()
        invariant
            i <= ms.len(),
            media_lookup(ms@, ct@) == media_lookup(ms@.skip(i as int), ct@),
        decreases ms.len() - i,
    {
        assert(ms@.skip(i as int)[0] == ms@[i as int]);
        if str_eq(ms[i].content_type.as_str(), ct) {
            return Some(&ms[i]);
        }
        assert(ms@.skip(i as int).drop_first() =~= ms@.skip(i + 1));
        i = i + 1;
    }
    None
}

/// The schema a response's JSON content returns, as shown.
pub open spec fn json_schema_ref(ms: Seq<MediaDef>) -> Option<Seq<char>> {
    match media_lookup(ms, "application/json"@) {
        Some(m) => match m.schema {
            Some(sr) => response_schema_name(sr),
            None => None,
        },
        None => None,
    }
}

/// The example of a response's JSON content.
pub open spec fn json_example(ms: Seq<MediaDef>) -> Option<Seq<char>> {
    match media_lookup(ms, "application/json"@) {
        Some(m) => opt_view(m.example),
        None => None,
    }
}

/// A status key as shown: the code, or the range's digit with `XX`.
pub open spec fn status_text(k: StatusKey) -> Seq<char> {
    match k {
        StatusKey::Code(c) => decimal(c as nat),
        StatusKey::Range(r) => decimal(r as nat) + "XX"@,
    }
}

/// What a response holds of its definition: status, description, the
/// schema and example of its JSON content, its headers and links, and
/// where asked its schema's fields.
pub open spec fn response_is(r: Response, api: ApiDef, status: Seq<char>, d: ResponseDef, expand: bool, bin: Seq<char>) -> bool {
    &&& r.status_code@ == status
    &&& r.description@ == d.description@
    &&& opt_view(r.schema_ref) == json_schema_ref(d.content@)
    &&& opt_view(r.example) == json_example(d.content@)
    &&& headers_view(r.headers@) == headers_of(d.headers@)
    &&& links_view(r.links@) == links_of(api, d.links@, bin)
    &&& if expand {
        response_expansion(api.schemas@, json_schema_ref(d.content@), r.fields@)
    } else {
        r.fields@.len() == 0
    }
}

/// The responses given inline, in order, each with its status as shown.
pub open spec fn inline_responses(rs: Seq<(StatusKey, ResponseRef)>) -> Seq<(Seq<char>, ResponseDef)>
    decreases rs.len(),
{
    if rs.len() == 0 {
        seq![]
    } else {
        match rs.last().1 {
            ResponseRef::Item(d) => inline_responses(rs.drop_last()).push((status_text(rs.last().0), d)),
            ResponseRef::Reference(_) => inline_responses(rs.drop_last()),
        }
    }
}

/// The responses of an operation as listed: those given inline, then the
/// default response where it is given inline.
pub open spec fn listed_responses(op: OperationDef) -> Seq<(Seq<char>, ResponseDef)> {
    let rs = inline_responses(op.responses@);
    match op.default_response {
        Some(ResponseRef::Item(d)) => rs.push(("default"@, d)),
        _ => rs,
    }
}

pub open spec fn responses_are(r: Seq<Response>, api: ApiDef, ds: Seq<(Seq<char>, ResponseDef)>, expand: bool, bin: Seq<char>) -> bool {
    &&& r.len() == ds.len()
    &&& forall|i: int| 0 <= i < r.len() ==> response_is(#[trigger] r[i], api, ds[i].0, ds[i].1, expand, bin)
}

fn status_text_exec(k: StatusKey) -> (r: String)
    ensures
        r@ == status_text(k),
{
    match k {
        StatusKey::Code(c) => usize_to_string(c as usize),
        StatusKey::Range(x) => {
            let mut s = usize_to_string(x as usize);
            push_str(&mut s, "XX");
            s
        },
    }
}

fn build_response(api: &ApiDef, status: String, d: &ResponseDef, expand: bool, bin_name: &str) -> (r: Response)
    ensures
        response_is(r, *api, status@, *d, expand, bin_name@),
{
    let (schema_ref, example) = match find_media(&d.content, "application/json") {
        Some(m) => {
            let sr = match &m.schema {
                Some(x) => resolve_response_schema_ref(x),
                None => None,
            };
            (sr, copy_opt(&m.example))
        },
        None => (None, None),
    };
    let headers = extract_headers(&d.headers);
    let links = extract_links_from_response(api, &d.links, bin_name);
    let fields = if expand {
        expand_response_schema(&api.schemas, &schema_ref)
    } else {
        Vec::new()
    };
    Response {
        status_code: status,
        description: owned(d.description.as_str()),
        schema_ref,
        example,
        headers,
        links,
        fields,
    }
}

/// The responses of an operation: each given inline, then the default
/// response, with its JSON schema and example, headers, links, and where
/// asked its fields.
pub fn extract_responses(api: &ApiDef, operation: &OperationDef, expand: bool, bin_name: &str) -> (r: Vec<Response>)
    ensures
        responses_are(r@, *api, listed_responses(*operation), expand, bin_name@),
{
    let rs = &operation.responses;
    let mut out: Vec<Response> = Vec::new();
    let mut i: usize = 0;
    while i < rs.len()
        invariant
            i <= rs.len(),
            responses_are(out@, *api, inline_responses(rs@.take(i as int)), expand, bin_name@),
        decreases rs.len() - i,
    {
        proof {
            assert(rs@.take(i + 1).drop_last() =~= rs@.take(i as int));
            assert(rs@.take(i + 1).last() == rs@[i as int]);
        }
        match &rs[i].1 {
            ResponseRef::Item(d) => {
                let status = status_text_exec(rs[i].0);
                let resp = build_response(api, status, d, expand, bin_name);
                let ghost before = out@;
                out.push(resp);
                proof {
                    let ds = inline_responses(rs@.take(i + 1));
                    assert forall|k: int| 0 <= k < out@.len() implies response_is(#[trigger] out@[k], *api, ds[k].0, ds[k].1, expand, bin_name@) by {
                        if k < before.len() {
                            assert(out@[k] == before[k]);
                        }
                    }
                }
            },
            ResponseRef::Reference(_) => {},
        }
        i = i + 1;
    }
    assert(rs@.take(rs@.len() as int) =~= rs@);
    match &operation.default_response {
        Some(ResponseRef::Item(d)) => {
            let resp = build_response(api, owned("default"), d, expand, bin_name);
            let ghost before = out@;
            out.push(resp);
            proof {
                let ds = listed_responses(*operation);
                assert forall|k: int| 0 <= k < out@.len() implies response_is(#[trigger] out@[k], *api, ds[k].0, ds[k].1, expand, bin_name@) by {
                    if k < before.len() {
                        assert(out@[k] == before[k]);
                    }
                }
            }
        },
        _ => {},
    }
    out
}

// ───────────────────────── parameters ─────────────────────────

/// `s` without the prefix `pre`, where it starts so.
pub open spec fn strip_prefix(s: Seq<char>, pre: Seq<char>) -> Option<Seq<char>> {
    if pre.len() <= s.len() && s.take(pre.len() as int) == pre {
        Some(s.skip(pre.len() as int))
    } else {
        None
    }
}

pub fn strip_prefix_exec(s: &str, pre: &str) -> (r: Option<String>)
    ensures
        opt_view(r) == strip_prefix(s@, pre@),
{
    let v = to_chars(s);
    let p = to_chars(pre);
    if p.len() <= v.len() && matches_at(&v, &p, 0) {
        assert(v@.subrange(0, p@.len() as int) =~= v@.take(p@.len() as int));
        let mut out: Vec<char> = Vec::new();
        let mut i: usize = p.len();
        while i < v.len()
            invariant
                p.len() <= i <= v.len(),
                out@ == v@.subrange(p.len() as int, i as int),
            decreases v.len() - i,
        {
            out.push(v[i]);
            assert(v@.subrange(p.len() as int, i + 1) =~= v@.subrange(p.len() as int, i as int).push(v@[i as int]));
            i = i + 1;
        }
        assert(out@ =~= v@.skip(p.len() as int));
        Some(chars_to_string(&out))
    } else {
        proof {
            if p.len() <= v.len() {
                assert(v@.subrange(0, p@.len() as int) =~= v@.take(p@.len() as int));
            }
        }
        None
    }
}

/// The entry of that name, the first where several share it.
pub open spec fn entry_lookup<X>(es: Seq<(String, X)>, name: Seq<char>) -> Option<X>
    decreases es.len(),
{
    if es.len() == 0 {
        None
    } else if es[0].0@ == name {
        Some(es[0].1)
    } else {
        entry_lookup(es.drop_first(), name)
    }
}

fn find_entry<'a, X>(es: &'a Vec<(String, X)>, name: &str) -> (r: Option<&'a X>)
    ensures
        match r {
            Some(x) => entry_lookup(es@, name@) == Some(*x),
            None => entry_lookup(es@, name@) is None,
        },
{
    let mut i: usize = 0;
    assert(es@.skip(0) =~= es@);
    while i < es.len()
        invariant
            i <= es.len(),
            entry_lookup(es@, name@) == entry_lookup(es@.skip(i as int), name@),
        decreases es.len() - i,
    {
        assert(es@.skip(i as int)[0] == es@[i as int]);
        if str_eq(es[i].0.as_str(), name) {
            return Some(&es[i].1);
        }
        assert(es@.skip(i as int).drop_first() =~= es@.skip(i + 1));
        i = i + 1;
    }
    None
}

/// The parameter a reference under `#/components/parameters/` names, or
/// the one given inline.
pub open spec fn resolve_param(params: Seq<(String, ParamRef)>, pr: ParamRef) -> Option<ParamDef> {
    match pr {
        ParamRef::Item(p) => Some(p),
        ParamRef::Reference(r) => match strip_prefix(r@, "#/components/parameters/"@) {
            Some(n) => match entry_lookup(params, n) {
                Some(ParamRef::Item(p)) => Some(p),
                _ => None,
            },
            None => None,
        },
    }
}

/// The parameters that resolve and are not cookies, in order.
pub open spec fn accepted_params(params: Seq<(String, ParamRef)>, prs: Seq<ParamRef>) -> Seq<ParamDef>
    decreases prs.len(),
{
    if prs.len() == 0 {
        seq![]
    } else {
        let prev = accepted_params(params, prs.drop_last());
        match resolve_param(params, prs.last()) {
            Some(p) => match p.kind {
                ParamKind::Cookie => prev,
                _ => prev.push(p),
            },
            None => prev,
        }
    }
}

/// The last parameter of that name.
pub open spec fn last_named(ps: Seq<ParamDef>, n: Seq<char>) -> Option<ParamDef>
    decreases ps.len(),
{
    if ps.len() == 0 {
        None
    } else if ps.last().name@ == n {
        Some(ps.last())
    } else {
        last_named(ps.drop_last(), n)
    }
}

pub open spec fn param_names(ps: Seq<ParamDef>) -> Set<Seq<char>> {
    ps.map_values(|p: ParamDef| p.name@).to_set()
}

/// The format of a string schema, where it has one.
pub open spec fn string_format(k: SchemaKind) -> Option<Seq<char>> {
    match k {
        SchemaKind::String { format, .. } => match format {
            StringFormat::Empty => None,
            _ => Some(format_name(format)),
        },
        _ => None,
    }
}

/// Type, format and enum values of a schema.
pub open spec fn info_of(s: SchemaNode) -> (Seq<char>, Option<Seq<char>>, Seq<Seq<char>>) {
    (type_display(s.kind), string_format(s.kind), enum_values_of(s.kind))
}

/// What a parameter's schema gives it: type, format and enum values; the
/// referenced name alone where the reference does not resolve; `string`
/// where content describes it or the reference names no schema.
pub open spec fn param_info(comps: Seq<(String, SchemaRef)>, v: ValueSchema) -> (Seq<char>, Option<Seq<char>>, Seq<Seq<char>>) {
    match v {
        ValueSchema::Content => ("string"@, None, seq![]),
        ValueSchema::Schema(SchemaRef::Item(b)) => info_of(*b),
        ValueSchema::Schema(SchemaRef::Reference(r)) => match spec_schema_name_from_ref(r@) {
            Some(n) => match component(comps, n) {
                Some(s) => info_of(s),
                None => (n, None, seq![]),
            },
            None => ("string"@, None, seq![]),
        },
    }
}

pub open spec fn location_of(k: ParamKind) -> ParameterLocation {
    match k {
        ParamKind::Query => ParameterLocation::Query,
        ParamKind::Path => ParameterLocation::Path,
        ParamKind::Header => ParameterLocation::Header,
        ParamKind::Cookie => ParameterLocation::Cookie,
    }
}

/// What a parameter holds of its definition.
pub open spec fn param_is(p: Parameter, comps: Seq<(String, SchemaRef)>, d: ParamDef) -> bool {
    &&& p.name@ == d.name@
    &&& p.location == location_of(d.kind)
    &&& p.required == d.required
    &&& p.schema_type@ == param_info(comps, d.schema).0
    &&& opt_view(p.format) == param_info(comps, d.schema).1
    &&& texts(p.enum_values@) == param_info(comps, d.schema).2
    &&& opt_view(p.description) == opt_view(d.description)
}

pub open spec fn param_names_view(ps: Seq<Parameter>) -> Seq<Seq<char>> {
    ps.map_values(|p: Parameter| p.name@)
}

fn string_format_exec(k: &SchemaKind) -> (r: Option<String>)
    ensures
        opt_view(r) == string_format(*k),
{
    match k {
        SchemaKind::String { format, .. } => match format {
            StringFormat::Empty => None,
            StringFormat::DateTime => Some(owned("date-time")),
            StringFormat::Date => Some(owned("date")),
            StringFormat::Password => Some(owned("password")),
            StringFormat::Byte => Some(owned("byte")),
            StringFormat::Binary => Some(owned("binary")),
            StringFormat::Unknown(x) => Some(owned(x.as_str())),
        },
        _ => None,
    }
}

fn info_exec(s: &SchemaNode) -> (r: (String, Option<String>, Vec<String>))
    ensures
        (r.0@, opt_view(r.1), texts(r.2@)) == info_of(*s),
{
    (format_type_display(&s.kind), string_format_exec(&s.kind), extract_enum_values(&s.kind))
}

/// Type, format and enum values of a parameter's schema.
pub fn extract_param_schema_info(comps: &Vec<(String, SchemaRef)>, v: &ValueSchema) -> (r: (String, Option<String>, Vec<String>))
    ensures
        (r.0@, opt_view(r.1), texts(r.2@)) == param_info(comps@, *v),
{
    match v {
        ValueSchema::Content => {
            let e: Vec<String> = Vec::new();
            assert(texts(e@) =~= Seq::<Seq<char>>::empty());
            (owned("string"), None, e)
        },
        ValueSchema::Schema(SchemaRef::Item(b)) => info_exec(&**b),
        ValueSchema::Schema(SchemaRef::Reference(x)) => match schema_name_from_ref(x.as_str()) {
            Some(n) => match find_component(comps, n) {
                Some(s) => info_exec(s),
                None => {
                    let e: Vec<String> = Vec::new();
                    assert(texts(e@) =~= Seq::<Seq<char>>::empty());
                    (owned(n), None, e)
                },
            },
            None => {
                let e: Vec<String> = Vec::new();
                assert(texts(e@) =~= Seq::<Seq<char>>::empty());
                (owned("string"), None, e)
            },
        },
    }
}

fn resolve_param_exec<'a>(params: &'a Vec<(String, ParamRef)>, pr: &'a ParamRef) -> (r: Option<&'a ParamDef>)
    ensures
        match r {
            Some(p) => resolve_param(params@, *pr) == Some(*p),
            None => resolve_param(params@, *pr) is None,
        },
{
    match pr {
        ParamRef::Item(p) => Some(p),
        ParamRef::Reference(x) => match strip_prefix_exec(x.as_str(), "#/components/parameters/") {
            Some(n) => match find_entry(params, n.as_str()) {
                Some(ParamRef::Item(p)) => Some(p),
                _ => None,
            },
            None => None,
        },
    }
}

pub open spec fn derefs(v: Seq<&ParamDef>) -> Seq<ParamDef> {
    v.map_values(|q: &ParamDef| *q)
}

fn accept_into<'a>(params: &'a Vec<(String, ParamRef)>, prs: &'a Vec<ParamRef>, acc: &mut Vec<&'a ParamDef>)
    ensures
        derefs(final(acc)@) == derefs(old(acc)@) + accepted_params(params@, prs@),
{
    let ghost a0 = derefs(acc@);
    let mut i: usize = 0;
    assert(a0 + accepted_params(params@, prs@.take(0)) =~= a0);
    while i < prs.len()
        invariant
            i <= prs.len(),
            derefs(acc@) == a0 + accepted_params(params@, prs@.take(i as int)),
        decreases prs.len() - i,
    {
        proof {
            assert(prs@.take(i + 1).drop_last() =~= prs@.take(i as int));
            assert(prs@.take(i + 1).last() == prs@[i as int]);
        }
        match resolve_param_exec(params, &prs[i]) {
            Some(p) => match p.kind {
                ParamKind::Cookie => {},
                _ => {
                    let ghost before = derefs(acc@);
                    acc.push(p);
                    assert(derefs(acc@) =~= before.push(*p));
                    assert(derefs(acc@) =~= a0 + accepted_params(params@, prs@.take(i + 1)));
                },
            },
            None => {},
        }
        i = i + 1;
    }
    assert(prs@.take(prs@.len() as int) =~= prs@);
}

proof fn lemma_accepted_concat(params: Seq<(String, ParamRef)>, a: Seq<ParamRef>, b: Seq<ParamRef>)
    ensures
        accepted_params(params, a + b) == accepted_params(params, a) + accepted_params(params, b),
    decreases b.len(),
{
    if b.len() == 0 {
        assert(a + b =~= a);
        assert(accepted_params(params, a) + accepted_params(params, b) =~= accepted_params(params, a));
    } else {
        assert((a + b).drop_last() =~= a + b.drop_last());
        assert((a + b).last() == b.last());
        lemma_accepted_concat(params, a, b.drop_last());
        let x = accepted_params(params, a);
        let y = accepted_params(params, b.drop_last());
        match resolve_param(params, b.last()) {
            Some(p) => match p.kind {
                ParamKind::Cookie => {},
                _ => { assert((x + y).push(p) =~= x + y.push(p)); },
            },
            None => {},
        }
    }
}

fn last_named_exec<'a>(ps: &Vec<&'a ParamDef>, n: &str) -> (r: Option<&'a ParamDef>)
    ensures
        match r {
            Some(p) => last_named(ps@.map_values(|q: &ParamDef| *q), n@) == Some(*p),
            None => last_named(ps@.map_values(|q: &ParamDef| *q), n@) is None,
        },
{
    let ghost all = ps@.map_values(|q: &ParamDef| *q);
    let mut i: usize = ps.len();
    assert(all.take(ps.len() as int) =~= all);
    while i > 0
        invariant
            i <= ps.len(),
            all == ps@.map_values(|q: &ParamDef| *q),
            last_named(all, n@) == last_named(all.take(i as int), n@),
        decreases i,
    {
        assert(all.take(i as int).last() == *ps@[i - 1]);
        assert(all.take(i as int).drop_last() =~= all.take(i - 1));
        if str_eq(ps[i - 1].name.as_str(), n) {
            return Some(ps[i - 1]);
        }
        i = i - 1;
    }
    None
}

/// The parameters of an operation with those of its path: each that
/// resolves and is not a cookie, by name in character order, where several
/// share a name the last (the operation's over the path's).
pub fn merge_parameters(api: &ApiDef, path_item: &PathItemDef, operation: &OperationDef) -> (r: Vec<Parameter>)
    ensures
        strictly_sorted(param_names_view(r@)),
        param_names_view(r@) == sorted_set(param_names(accepted_params(api.parameters@, path_item.parameters@ + operation.parameters@))),
        forall|i: int| 0 <= i < r@.len() ==> {
            let all = accepted_params(api.parameters@, path_item.parameters@ + operation.parameters@);
            &&& last_named(all, (#[trigger] r@[i]).name@) is Some
            &&& param_is(r@[i], api.schemas@, last_named(all, r@[i].name@)->0)
        },
{
    let ghost all = accepted_params(api.parameters@, path_item.parameters@ + operation.parameters@);
    let mut acc: Vec<&ParamDef> = Vec::new();
    assert(derefs(acc@) =~= Seq::<ParamDef>::empty());
    accept_into(&api.parameters, &path_item.parameters, &mut acc);
    accept_into(&api.parameters, &operation.parameters, &mut acc);
    proof {
        lemma_accepted_concat(api.parameters@, path_item.parameters@, operation.parameters@);
        assert(derefs(acc@) =~= Seq::<ParamDef>::empty() + all);
    }
    let ghost accv = acc@.map_values(|q: &ParamDef| *q);
    assert(accv =~= all);
    let mut names: Vec<String> = Vec::new();
    let mut i: usize = 0;
    assert(names_of(names@).to_set() =~= all.take(0).map_values(|p: ParamDef| p.name@).to_set());
    while i < acc.len()
        invariant
            i <= acc.len(),
            accv == acc@.map_values(|q: &ParamDef| *q),
            strictly_sorted(names_of(names@)),
            names_of(names@).to_set() == accv.take(i as int).map_values(|p: ParamDef| p.name@).to_set(),
        decreases acc.len() - i,
    {
        insert_name(&mut names, acc[i].name.as_str());
        proof {
            let f = |p: ParamDef| p.name@;
            assert(accv.take(i + 1).map_values(f) =~= accv.take(i as int).map_values(f).push(acc@[i as int].name@));
            accv.take(i as int).map_values(f).lemma_push_to_set_commute(acc@[i as int].name@);
        }
        i = i + 1;
    }
    assert(accv.take(acc@.len() as int) =~= accv);
    proof { lemma_sorted_set(names_of(names@)); }
    let ghost nv = names_of(names@);
    let mut out: Vec<Parameter> = Vec::new();
    let mut k: usize = 0;
    while k < names.len()
        invariant
            k <= names.len(),
            nv == names_of(names@),
            accv == acc@.map_values(|q: &ParamDef| *q),
            accv == all,
            nv.to_set() == param_names(all),
            out@.len() == k,
            forall|j: int| 0 <= j < k ==> (#[trigger] out@[j]).name@ == nv[j],
            forall|j: int| 0 <= j < k ==> {
                &&& last_named(all, (#[trigger] out@[j]).name@) is Some
                &&& param_is(out@[j], api.schemas@, last_named(all, out@[j].name@)->0)
            },
        decreases names.len() - k,
    {
        proof {
            assert(nv.to_set().contains(nv[k as int]));
            lemma_last_named_some(all, nv[k as int]);
        }
        match last_named_exec(&acc, names[k].as_str()) {
            Some(d) => {
                let (schema_type, format, enum_values) = extract_param_schema_info(&api.schemas, &d.schema);
                let location = match d.kind {
                    ParamKind::Query => ParameterLocation::Query,
                    ParamKind::Path => ParameterLocation::Path,
                    ParamKind::Header => ParameterLocation::Header,
                    ParamKind::Cookie => ParameterLocation::Cookie,
                };
                let ghost before = out@;
                out.push(Parameter {
                    name: owned(d.name.as_str()),
                    location,
                    required: d.required,
                    schema_type,
                    format,
                    description: copy_opt(&d.description),
                    enum_values,
                });
                proof {
                    assert forall|j: int| 0 <= j < out@.len() implies (#[trigger] out@[j]).name@ == nv[j] by {
                        if j < before.len() { assert(out@[j] == before[j]); }
                    }
                    assert forall|j: int| 0 <= j < out@.len() implies {
                        &&& last_named(all, (#[trigger] out@[j]).name@) is Some
                        &&& param_is(out@[j], api.schemas@, last_named(all, out@[j].name@)->0)
                    } by {
                        if j < before.len() { assert(out@[j] == before[j]); }
                    }
                }
            },
            None => {
                assert(false);
            },
        }
        k = k + 1;
    }
    assert(param_names_view(out@) =~= nv);
    out
}

proof fn lemma_last_named_some(ps: Seq<ParamDef>, n: Seq<char>)
    requires
        param_names(ps).contains(n),
    ensures
        last_named(ps, n) matches Some(d) && d.name@ == n,
    decreases ps.len(),
{
    let f = |p: ParamDef| p.name@;
    let j = choose|j: int| 0 <= j < ps.map_values(f).len() && ps.map_values(f)[j] == n;
    if ps.last().name@ != n {
        assert(j < ps.len() - 1);
        assert(ps.drop_last().map_values(f)[j] == n);
        assert(param_names(ps.drop_last()).contains(n));
        lemma_last_named_some(ps.drop_last(), n);
    }
}

// ───────────────────────── request body ─────────────────────────

/// The request body a reference under `#/components/requestBodies/` names,
/// or the one given inline.
pub open spec fn resolve_body(bodies: Seq<(String, BodyRef)>, br: BodyRef) -> Option<RequestBodyDef> {
    match br {
        BodyRef::Item(b) => Some(b),
        BodyRef::Reference(r) => match strip_prefix(r@, "#/components/requestBodies/"@) {
            Some(n) => match entry_lookup(bodies, n) {
                Some(BodyRef::Item(b)) => Some(b),
                _ => None,
            },
            None => None,
        },
    }
}

/// The media type a request body is shown by: JSON, else multipart form
/// data, else a URL-encoded form, else the first there is.
pub open spec fn chosen_media(ms: Seq<MediaDef>) -> Option<MediaDef> {
    match media_lookup(ms, "application/json"@) {
        Some(m) => Some(m),
        None => match media_lookup(ms, "multipart/form-data"@) {
            Some(m) => Some(m),
            None => match media_lookup(ms, "application/x-www-form-urlencoded"@) {
                Some(m) => Some(m),
                None => if ms.len() > 0 { Some(ms[0]) } else { None },
            },
        },
    }
}

/// A schema and the name it is listed under where it is a reference to a
/// component schema; `None` where a reference does not resolve.
pub open spec fn named_schema(comps: Seq<(String, SchemaRef)>, sr: SchemaRef) -> Option<(SchemaNode, Option<Seq<char>>)> {
    match sr {
        SchemaRef::Item(b) => Some((*b, None)),
        SchemaRef::Reference(r) => match spec_schema_name_from_ref(r@) {
            Some(n) => match component(comps, n) {
                Some(t) => Some((t, Some(n))),
                None => None,
            },
            None => None,
        },
    }
}

/// The names of the variants that are references to schemas.
pub open spec fn ref_names(vs: Seq<SchemaRef>) -> Seq<Seq<char>>
    decreases vs.len(),
{
    if vs.len() == 0 {
        seq![]
    } else {
        let prev = ref_names(vs.drop_last());
        match vs.last() {
            SchemaRef::Reference(r) => match spec_schema_name_from_ref(r@) {
                Some(n) => prev.push(n),
                None => prev,
            },
            SchemaRef::Item(_) => prev,
        }
    }
}

/// The options of a `oneOf` or `anyOf` body: its variants that name a
/// schema.
pub open spec fn body_options(k: SchemaKind) -> Seq<Seq<char>> {
    match k {
        SchemaKind::OneOf(vs) => ref_names(vs@),
        SchemaKind::AnyOf(vs) => ref_names(vs@),
        _ => seq![],
    }
}

/// The items of an array body, where they resolve, with their name.
pub open spec fn array_item(comps: Seq<(String, SchemaRef)>, k: SchemaKind) -> Option<(SchemaNode, Option<Seq<char>>)> {
    match k {
        SchemaKind::Array { items, .. } => match items {
            Some(it) => named_schema(comps, it),
            None => None,
        },
        _ => None,
    }
}

/// The fields of a schema as a request body shows them: expanded where
/// asked (inline objects, then referenced schemas, five levels deep).
pub open spec fn body_fields(comps: Seq<(String, SchemaRef)>, s: SchemaNode, expand: bool, r: Seq<Field>) -> bool {
    if expand {
        exists|b: Seq<Field>, m: Seq<Field>|
            #![trigger fields_match(b, schema_plans(comps, s, required_of(s), comps.len())), fields_expanded(r, m, comps, seq![], 1, 5)]
            fields_match(b, schema_plans(comps, s, required_of(s), comps.len()))
            && inline_expanded(m, b, comps, s, 1, 5)
            && fields_expanded(r, m, comps, seq![], 1, 5)
    } else {
        fields_match(r, schema_plans(comps, s, required_of(s), comps.len()))
    }
}

/// What an operation's request body is shown from: the chosen media type,
/// its schema and the name it is listed under; `None` where there is no
/// body, it does not resolve, or has no media type or schema.
pub open spec fn body_source(comps: Seq<(String, SchemaRef)>, bodies: Seq<(String, BodyRef)>, op: OperationDef) -> Option<(MediaDef, SchemaNode, Option<Seq<char>>)> {
    match op.request_body {
        None => None,
        Some(br) => match resolve_body(bodies, br) {
            None => None,
            Some(b) => match chosen_media(b.content@) {
                None => None,
                Some(m) => match m.schema {
                    None => None,
                    Some(sr) => match named_schema(comps, sr) {
                        Some(p) => Some((m, p.0, p.1)),
                        None => None,
                    },
                },
            },
        },
    }
}

/// What a request body holds: the media type and example; the options of
/// a `oneOf`/`anyOf` body where it has some; else the fields of an array
/// body's items, named by them; else the body schema's own fields.
pub open spec fn body_matches(rb: RequestBody, comps: Seq<(String, SchemaRef)>, m: MediaDef, s: SchemaNode, top: Option<Seq<char>>, expand: bool) -> bool {
    &&& rb.content_type@ == m.content_type@
    &&& opt_view(rb.example) == opt_view(m.example)
    &&& if body_options(s.kind).len() > 0 {
        &&& texts(rb.options@) == body_options(s.kind)
        &&& rb.fields@.len() == 0
        &&& rb.schema_ref is None
        &&& rb.array_item_type is None
    } else {
        &&& rb.options@.len() == 0
        &&& match array_item(comps, s.kind) {
            Some(p) => {
                &&& body_fields(comps, p.0, expand, rb.fields@)
                &&& opt_view(rb.schema_ref) == p.1
                &&& opt_view(rb.array_item_type) == p.1
            },
            None => {
                &&& body_fields(comps, s, expand, rb.fields@)
                &&& opt_view(rb.schema_ref) == top
                &&& rb.array_item_type is None
            },
        }
    }
}

fn resolve_body_exec<'a>(bodies: &'a Vec<(String, BodyRef)>, br: &'a BodyRef) -> (r: Option<&'a RequestBodyDef>)
    ensures
        match r {
            Some(b) => resolve_body(bodies@, *br) == Some(*b),
            None => resolve_body(bodies@, *br) is None,
        },
{
    match br {
        BodyRef::Item(b) => Some(b),
        BodyRef::Reference(x) => match strip_prefix_exec(x.as_str(), "#/components/requestBodies/") {
            Some(n) => match find_entry(bodies, n.as_str()) {
                Some(BodyRef::Item(b)) => Some(b),
                _ => None,
            },
            None => None,
        },
    }
}

fn chosen_media_exec(ms: &Vec<MediaDef>) -> (r: Option<&MediaDef>)
    ensures
        match r {
            Some(m) => chosen_media(ms@) == Some(*m),
            None => chosen_media(ms@) is None,
        },
{
    match find_media(ms, "application/json") {
        Some(m) => Some(m),
        None => match find_media(ms, "multipart/form-data") {
            Some(m) => Some(m),
            None => match find_media(ms, "application/x-www-form-urlencoded") {
                Some(m) => Some(m),
                None => if ms.len() > 0 { Some(&ms[0]) } else { None },
            },
        },
    }
}

fn named_schema_exec<'a>(comps: &'a Vec<(String, SchemaRef)>, sr: &'a SchemaRef) -> (r: Option<(&'a SchemaNode, Option<String>)>)
    ensures
        match r {
            Some(p) => named_schema(comps@, *sr) == Some((*p.0, opt_view(p.1))),
            None => named_schema(comps@, *sr) is None,
        },
{
    match sr {
        SchemaRef::Item(b) => Some((&**b, None)),
        SchemaRef::Reference(x) => match schema_name_from_ref(x.as_str()) {
            Some(n) => match find_component(comps, n) {
                Some(t) => Some((t, Some(owned(n)))),
                None => None,
            },
            None => None,
        },
    }
}

fn ref_names_exec(vs: &Vec<SchemaRef>) -> (r: Vec<String>)
    ensures
        texts(r@) == ref_names(vs@),
{
    let mut r: Vec<String> = Vec::new();
    let mut i: usize = 0;
    while i < vs.len()
        invariant
            i <= vs.len(),
            texts(r@) == ref_names(vs@.take(i as int)),
        decreases vs.len() - i,
    {
        proof {
            assert(vs@.take(i + 1).drop_last() =~= vs@.take(i as int));
            assert(vs@.take(i + 1).last() == vs@[i as int]);
        }
        match &vs[i] {
            SchemaRef::Reference(x) => match schema_name_from_ref(x.as_str()) {
                Some(n) => {
                    let ghost before = texts(r@);
                    r.push(owned(n));
                    assert(texts(r@) =~= before.push(n@));
                },
                None => {},
            },
            SchemaRef::Item(_) => {},
        }
        i = i + 1;
    }
    assert(vs@.take(vs@.len() as int) =~= vs@);
    r
}

fn body_fields_exec(comps: &Vec<(String, SchemaRef)>, s: &SchemaNode, expand: bool) -> (r: Vec<Field>)
    ensures
        body_fields(comps@, *s, expand, r@),
{
    let req = required_of_exec(s);
    proof {
        assert(req@.map_values(|x: String| x@) =~= texts(req@));
    }
    let b = build_fields(comps, s, req.as_slice());
    if expand {
        let ghost bv = b@;
        let m = expand_inline_objects(comps, s, b, 1, 5);
        let ghost mv = m@;
        let mut visited: Vec<String> = Vec::new();
        assert(texts(visited@) =~= Seq::<Seq<char>>::empty());
        let e = expand_fields(comps, m, &mut visited, 1, 5);
        assert(fields_match(bv, schema_plans(comps@, *s, required_of(*s), comps@.len())));
        assert(fields_expanded(e@, mv, comps@, seq![], 1, 5));
        e
    } else {
        b
    }
}

/// The request body of an operation (see `body_source` and
/// `body_matches`), or `None` where there is none to show.
pub fn extract_request_body(api: &ApiDef, operation: &OperationDef, expand: bool) -> (r: Option<RequestBody>)
    ensures
        match r {
            None => body_source(api.schemas@, api.request_bodies@, *operation) is None,
            Some(rb) => match body_source(api.schemas@, api.request_bodies@, *operation) {
                Some(src) => body_matches(rb, api.schemas@, src.0, src.1, src.2, expand),
                None => false,
            },
        },
{
    let comps = &api.schemas;
    let br = match &operation.request_body {
        Some(br) => br,
        None => return None,
    };
    let rb = match resolve_body_exec(&api.request_bodies, br) {
        Some(b) => b,
        None => return None,
    };
    let media = match chosen_media_exec(&rb.content) {
        Some(m) => m,
        None => return None,
    };
    let sr = match &media.schema {
        Some(x) => x,
        None => return None,
    };
    let (schema, top) = match named_schema_exec(comps, sr) {
        Some(p) => p,
        None => return None,
    };
    let example = copy_opt(&media.example);
    let options = match &schema.kind {
        SchemaKind::OneOf(vs) => ref_names_exec(vs),
        SchemaKind::AnyOf(vs) => ref_names_exec(vs),
        _ => {
            let e: Vec<String> = Vec::new();
            assert(texts(e@) =~= body_options(schema.kind));
            e
        },
    };
    if options.len() > 0 {
        return Some(RequestBody {
            content_type: owned(media.content_type.as_str()),
            fields: Vec::new(),
            options,
            schema_ref: None,
            example,
            array_item_type: None,
        });
    }
    match &schema.kind {
        SchemaKind::Array { items: Some(it), .. } => {
            match named_schema_exec(comps, it) {
                Some((item, name)) => {
                    let fields = body_fields_exec(comps, item, expand);
                    return Some(RequestBody {
                        content_type: owned(media.content_type.as_str()),
                        fields,
                        options: Vec::new(),
                        schema_ref: copy_opt(&name),
                        example,
                        array_item_type: name,
                    });
                },
                None => {},
            }
        },
        _ => {},
    }
    let fields = body_fields_exec(comps, schema, expand);
    Some(RequestBody {
        content_type: owned(media.content_type.as_str()),
        fields,
        options: Vec::new(),
        schema_ref: top,
        example,
        array_item_type: None,
    })
}

// ───────────────────────── security ─────────────────────────

/// The scheme names of the requirements, in order.
pub open spec fn flatten_names(reqs: Seq<Vec<String>>) -> Seq<Seq<char>>
    decreases reqs.len(),
{
    if reqs.len() == 0 {
        seq![]
    } else {
        flatten_names(reqs.drop_last()) + texts(reqs.last()@)
    }
}

/// The schemes an operation requires: its own requirements where it has
/// them, else the document's.
pub open spec fn security_of(api: ApiDef, op: OperationDef) -> Seq<Seq<char>> {
    match op.security {
        Some(v) => flatten_names(v@),
        None => match api.security {
            Some(v) => flatten_names(v@),
            None => seq![],
        },
    }
}

fn flatten_exec(reqs: &Vec<Vec<String>>) -> (r: Vec<String>)
    ensures
        texts(r@) == flatten_names(reqs@),
{
    let mut r: Vec<String> = Vec::new();
    let mut i: usize = 0;
    while i < reqs.len()
        invariant
            i <= reqs.len(),
            texts(r@) == flatten_names(reqs@.take(i as int)),
        decreases reqs.len() - i,
    {
        proof {
            assert(reqs@.take(i + 1).drop_last() =~= reqs@.take(i as int));
            assert(reqs@.take(i + 1).last() == reqs@[i as int]);
        }
        let ghost before = texts(r@);
        let names = &reqs[i];
        let mut k: usize = 0;
        while k < names.len()
            invariant
                k <= names.len(),
                texts(r@) == before + texts(names@).take(k as int),
            decreases names.len() - k,
        {
            let ghost b2 = texts(r@);
            r.push(owned(names[k].as_str()));
            assert(texts(r@) =~= b2.push(names@[k as int]@));
            assert(texts(names@).take(k + 1) =~= texts(names@).take(k as int).push(names@[k as int]@));
            assert(texts(r@) =~= before + texts(names@).take(k + 1));
            k = k + 1;
        }
        assert(texts(names@).take(names@.len() as int) =~= texts(names@));
        i = i + 1;
    }
    assert(reqs@.take(reqs@.len() as int) =~= reqs@);
    r
}

/// The security schemes an operation requires.
pub fn extract_security(api: &ApiDef, operation: &OperationDef) -> (r: Vec<String>)
    ensures
        texts(r@) == security_of(*api, *operation),
{
    match &operation.security {
        Some(v) => flatten_exec(v),
        None => match &api.security {
            Some(v) => flatten_exec(v),
            None => {
                let r: Vec<String> = Vec::new();
                assert(texts(r@) =~= security_of(*api, *operation));
                r
            },
        },
    }
}

// ───────────────────────── callbacks ─────────────────────────

/// The operation under that method, the first where several share it.
pub open spec fn op_lookup(ops: Seq<(String, OperationDef)>, m: Seq<char>) -> Option<OperationDef>
    decreases ops.len(),
{
    if ops.len() == 0 {
        None
    } else if ops[0].0@ == m {
        Some(ops[0].1)
    } else {
        op_lookup(ops.drop_first(), m)
    }
}

fn find_op<'a>(ops: &'a Vec<(String, OperationDef)>, m: &str) -> (r: Option<&'a OperationDef>)
    ensures
        match r {
            Some(x) => op_lookup(ops@, m@) == Some(*x),
            None => op_lookup(ops@, m@) is None,
        },
{
    let mut i: usize = 0;
    assert(ops@.skip(0) =~= ops@);
    while i < ops.len()
        invariant
            i <= ops.len(),
            op_lookup(ops@, m@) == op_lookup(ops@.skip(i as int), m@),
        decreases ops.len() - i,
    {
        assert(ops@.skip(i as int)[0] == ops@[i as int]);
        if str_eq(ops[i].0.as_str(), m) {
            return Some(&ops[i].1);
        }
        assert(ops@.skip(i as int).drop_first() =~= ops@.skip(i + 1));
        i = i + 1;
    }
    None
}

/// The methods a callback is looked at under, in this order.
pub open spec fn callback_methods() -> Seq<Seq<char>> {
    seq!["POST"@, "GET"@, "PUT"@, "DELETE"@, "PATCH"@]
}

/// The operations of one callback URL expression under the first `k`
/// methods of the order POST, GET, PUT, DELETE, PATCH.
pub open spec fn url_ops_to(url: Seq<char>, pi: PathItemDef, k: nat) -> Seq<(Seq<char>, Seq<char>, OperationDef)>
    decreases k,
{
    if k == 0 {
        seq![]
    } else {
        let prev = url_ops_to(url, pi, (k - 1) as nat);
        match op_lookup(pi.operations@, callback_methods()[k - 1]) {
            Some(op) => prev.push((callback_methods()[k - 1], url, op)),
            None => prev,
        }
    }
}

/// The operations of one callback URL expression, by method.
pub open spec fn url_ops(url: Seq<char>, pi: PathItemDef) -> Seq<(Seq<char>, Seq<char>, OperationDef)> {
    url_ops_to(url, pi, 5)
}

/// The operations of a callback: for each URL expression in order, its
/// operations by method.
pub open spec fn callback_ops(cb: Seq<(String, PathItemDef)>) -> Seq<(Seq<char>, Seq<char>, OperationDef)>
    decreases cb.len(),
{
    if cb.len() == 0 {
        seq![]
    } else {
        callback_ops(cb.drop_last()) + url_ops(cb.last().0@, cb.last().1)
    }
}

/// What a callback operation's body is: the referenced schema's name, or
/// `inline object`; taken from its JSON media type, else its first.
pub open spec fn callback_body(op: OperationDef) -> Option<Seq<char>> {
    match op.request_body {
        Some(BodyRef::Item(rb)) => {
            let m = match media_lookup(rb.content@, "application/json"@) {
                Some(m) => Some(m),
                None => if rb.content@.len() > 0 { Some(rb.content@[0]) } else { None },
            };
            match m {
                Some(md) => match md.schema {
                    Some(SchemaRef::Reference(r)) => spec_schema_name_from_ref(r@),
                    Some(SchemaRef::Item(_)) => Some("inline object"@),
                    None => None,
                },
                None => None,
            }
        },
        _ => None,
    }
}

/// A callback response as text: status and description (empty for a
/// reference).
pub open spec fn callback_response(e: (StatusKey, ResponseRef)) -> (Seq<char>, Seq<char>) {
    (status_text(e.0), match e.1 {
        ResponseRef::Item(d) => d.description@,
        ResponseRef::Reference(_) => seq![],
    })
}

pub open spec fn callback_responses_view(rs: Seq<CallbackResponse>) -> Seq<(Seq<char>, Seq<char>)> {
    rs.map_values(|r: CallbackResponse| (r.status_code@, r.description@))
}

pub open spec fn callback_op_is(co: CallbackOperation, m: Seq<char>, url: Seq<char>, op: OperationDef) -> bool {
    &&& co.method@ == m
    &&& co.url_expression@ == url
    &&& opt_view(co.summary) == opt_view(op.summary)
    &&& opt_view(co.body_schema) == callback_body(op)
    &&& callback_responses_view(co.responses@) == op.responses@.map_values(|e: (StatusKey, ResponseRef)| callback_response(e))
}

pub open spec fn callback_ops_are(cs: Seq<CallbackOperation>, ops: Seq<(Seq<char>, Seq<char>, OperationDef)>) -> bool {
    &&& cs.len() == ops.len()
    &&& forall|i: int| 0 <= i < cs.len() ==> callback_op_is(#[trigger] cs[i], ops[i].0, ops[i].1, ops[i].2)
}

/// The callbacks that have operations, in order.
pub open spec fn listed_callbacks(cbs: Seq<(String, Vec<(String, PathItemDef)>)>) -> Seq<(String, Vec<(String, PathItemDef)>)>
    decreases cbs.len(),
{
    if cbs.len() == 0 {
        seq![]
    } else if callback_ops(cbs.last().1@).len() > 0 {
        listed_callbacks(cbs.drop_last()).push(cbs.last())
    } else {
        listed_callbacks(cbs.drop_last())
    }
}

pub open spec fn callback_entry_is(e: CallbackEntry, cb: (String, Vec<(String, PathItemDef)>), op: OperationDef, method: Seq<char>, path: Seq<char>) -> bool {
    &&& e.name@ == cb.0@
    &&& opt_view(e.defined_on_operation_id) == opt_view(op.operation_id)
    &&& e.defined_on_method@ == uppercase(method)
    &&& e.defined_on_path@ == path
    &&& callback_ops_are(e.operations@, callback_ops(cb.1@))
}

pub open spec fn callbacks_are(es: Seq<CallbackEntry>, op: OperationDef, method: Seq<char>, path: Seq<char>) -> bool {
    let cbs = listed_callbacks(op.callbacks@);
    &&& es.len() == cbs.len()
    &&& forall|i: int| 0 <= i < es.len() ==> callback_entry_is(#[trigger] es[i], cbs[i], op, method, path)
}

fn callback_body_exec(op: &OperationDef) -> (r: Option<String>)
    ensures
        opt_view(r) == callback_body(*op),
{
    match &op.request_body {
        Some(BodyRef::Item(rb)) => {
            let m = match find_media(&rb.content, "application/json") {
                Some(m) => Some(m),
                None => if rb.content.len() > 0 { Some(&rb.content[0]) } else { None },
            };
            match m {
                Some(md) => match &md.schema {
                    Some(SchemaRef::Reference(x)) => match schema_name_from_ref(x.as_str()) {
                        Some(n) => Some(owned(n)),
                        None => None,
                    },
                    Some(SchemaRef::Item(_)) => Some(owned("inline object")),
                    None => None,
                },
                None => None,
            }
        },
        _ => None,
    }
}

fn callback_responses_exec(rs: &Vec<(StatusKey, ResponseRef)>) -> (r: Vec<CallbackResponse>)
    ensures
        callback_responses_view(r@) == rs@.map_values(|e: (StatusKey, ResponseRef)| callback_response(e)),
{
    let mut r: Vec<CallbackResponse> = Vec::new();
    let mut i: usize = 0;
    while i < rs.len()
        invariant
            i <= rs.len(),
            callback_responses_view(r@) == rs@.take(i as int).map_values(|e: (StatusKey, ResponseRef)| callback_response(e)),
        decreases rs.len() - i,
    {
        let desc = match &rs[i].1 {
            ResponseRef::Item(d) => owned(d.description.as_str()),
            ResponseRef::Reference(_) => String::new(),
        };
        let c = CallbackResponse { status_code: status_text_exec(rs[i].0), description: desc };
        let ghost before = callback_responses_view(r@);
        r.push(c);
        assert(callback_responses_view(r@) =~= before.push((c.status_code@, c.description@)));
        assert(rs@.take(i + 1).map_values(|e: (StatusKey, ResponseRef)| callback_response(e))
            =~= rs@.take(i as int).map_values(|e: (StatusKey, ResponseRef)| callback_response(e)).push(callback_response(rs@[i as int])));
        i = i + 1;
    }
    assert(rs@.take(rs@.len() as int) =~= rs@);
    r
}

fn method_name(k: usize) -> (r: &'static str)
    requires
        k < 5,
    ensures
        r@ == callback_methods()[k as int],
{
    if k == 0 { "POST" } else if k == 1 { "GET" } else if k == 2 { "PUT" } else if k == 3 { "DELETE" } else { "PATCH" }
}

fn push_callback_op(out: &mut Vec<CallbackOperation>, co: CallbackOperation, Ghost(ops): Ghost<Seq<(Seq<char>, Seq<char>, OperationDef)>>, Ghost(x): Ghost<(Seq<char>, Seq<char>, OperationDef)>)
    requires
        callback_ops_are(old(out)@, ops),
        callback_op_is(co, x.0, x.1, x.2),
    ensures
        callback_ops_are(final(out)@, ops.push(x)),
{
    let ghost before = out@;
    out.push(co);
    assert forall|i: int| 0 <= i < out@.len() implies callback_op_is(#[trigger] out@[i], ops.push(x)[i].0, ops.push(x)[i].1, ops.push(x)[i].2) by {
        if i < before.len() { assert(out@[i] == before[i]); }
    }
}

fn url_ops_into(url: &str, pi: &PathItemDef, out: &mut Vec<CallbackOperation>, Ghost(ops): Ghost<Seq<(Seq<char>, Seq<char>, OperationDef)>>)
    requires
        callback_ops_are(old(out)@, ops),
    ensures
        callback_ops_are(final(out)@, ops + url_ops(url@, *pi)),
{
    let mut k: usize = 0;
    assert(ops + url_ops_to(url@, *pi, 0) =~= ops);
    while k < 5
        invariant
            k <= 5,
            callback_ops_are(out@, ops + url_ops_to(url@, *pi, k as nat)),
        decreases 5 - k,
    {
        let m = method_name(k);
        match find_op(&pi.operations, m) {
            Some(op) => {
                let co = CallbackOperation {
                    method: owned(m),
                    url_expression: owned(url),
                    summary: copy_opt(&op.summary),
                    body_schema: callback_body_exec(op),
                    responses: callback_responses_exec(&op.responses),
                };
                push_callback_op(out, co, Ghost(ops + url_ops_to(url@, *pi, k as nat)), Ghost((callback_methods()[k as int], url@, *op)));
                assert((ops + url_ops_to(url@, *pi, k as nat)).push((callback_methods()[k as int], url@, *op))
                    =~= ops + url_ops_to(url@, *pi, (k + 1) as nat));
            },
            None => {
                assert(ops + url_ops_to(url@, *pi, (k + 1) as nat) =~= ops + url_ops_to(url@, *pi, k as nat));
            },
        }
        k = k + 1;
    }
}

fn build_callback_entry(cb: &(String, Vec<(String, PathItemDef)>), operation: &OperationDef, method: &str, path: &str) -> (r: Option<CallbackEntry>)
    ensures
        match r {
            Some(e) => callback_ops(cb.1@).len() > 0 && callback_entry_is(e, *cb, *operation, method@, path@),
            None => callback_ops(cb.1@).len() == 0,
        },
{
    let urls = &cb.1;
    let mut ops: Vec<CallbackOperation> = Vec::new();
    let mut i: usize = 0;
    assert(callback_ops(urls@.take(0)) =~= Seq::<(Seq<char>, Seq<char>, OperationDef)>::empty());
    while i < urls.len()
        invariant
            i <= urls.len(),
            callback_ops_are(ops@, callback_ops(urls@.take(i as int))),
        decreases urls.len() - i,
    {
        proof {
            assert(urls@.take(i + 1).drop_last() =~= urls@.take(i as int));
            assert(urls@.take(i + 1).last() == urls@[i as int]);
        }
        url_ops_into(urls[i].0.as_str(), &urls[i].1, &mut ops, Ghost(callback_ops(urls@.take(i as int))));
        i = i + 1;
    }
    assert(urls@.take(urls@.len() as int) =~= urls@);
    if ops.len() == 0 {
        return None;
    }
    Some(CallbackEntry {
        name: owned(cb.0.as_str()),
        defined_on_operation_id: copy_opt(&operation.operation_id),
        defined_on_method: str_to_uppercase(method),
        defined_on_path: owned(path),
        operations: ops,
    })
}

/// The callbacks of an operation that have operations, each with the
/// operation it is defined on.
pub fn extract_callbacks_from_operation(operation: &OperationDef, method: &str, path: &str) -> (r: Vec<CallbackEntry>)
    ensures
        callbacks_are(r@, *operation, method@, path@),
{
    let cbs = &operation.callbacks;
    let mut out: Vec<CallbackEntry> = Vec::new();
    let mut i: usize = 0;
    while i < cbs.len()
        invariant
            i <= cbs.len(),
            out@.len() == listed_callbacks(cbs@.take(i as int)).len(),
            forall|k: int| 0 <= k < out@.len() ==> callback_entry_is(#[trigger] out@[k], listed_callbacks(cbs@.take(i as int))[k], *operation, method@, path@),
        decreases cbs.len() - i,
    {
        proof {
            assert(cbs@.take(i + 1).drop_last() =~= cbs@.take(i as int));
            assert(cbs@.take(i + 1).last() == cbs@[i as int]);
        }
        match build_callback_entry(&cbs[i], operation, method, path) {
            Some(e) => {
                let ghost before = out@;
                out.push(e);
                proof {
                    let l = listed_callbacks(cbs@.take(i + 1));
                    assert forall|k: int| 0 <= k < out@.len() implies callback_entry_is(#[trigger] out@[k], l[k], *operation, method@, path@) by {
                        if k < before.len() { assert(out@[k] == before[k]); }
                    }
                }
            },
            None => {},
        }
        i = i + 1;
    }
    assert(cbs@.take(cbs@.len() as int) =~= cbs@);
    out
}

/// Where a callback is listed from: the callback, the operation it is
/// defined on, that operation's method and path.
pub type CallbackSource = ((String, Vec<(String, PathItemDef)>), OperationDef, Seq<char>, Seq<char>);

/// The callbacks of the operations of one path, in order.
pub open spec fn ops_callbacks(path: Seq<char>, ops: Seq<(String, OperationDef)>) -> Seq<CallbackSource>
    decreases ops.len(),
{
    if ops.len() == 0 {
        seq![]
    } else {
        let op = ops.last().1;
        let m = ops.last().0@;
        ops_callbacks(path, ops.drop_last())
            + listed_callbacks(op.callbacks@).map_values(|cb: (String, Vec<(String, PathItemDef)>)| (cb, op, m, path))
    }
}

/// The callbacks of all operations of the paths given inline, in order.
pub open spec fn all_callbacks(paths: Seq<(String, PathRef)>) -> Seq<CallbackSource>
    decreases paths.len(),
{
    if paths.len() == 0 {
        seq![]
    } else {
        all_callbacks(paths.drop_last()) + match paths.last().1 {
            PathRef::Item(pi) => ops_callbacks(paths.last().0@, pi.operations@),
            PathRef::Reference(_) => seq![],
        }
    }
}

pub open spec fn entries_are(es: Seq<CallbackEntry>, srcs: Seq<CallbackSource>) -> bool {
    &&& es.len() == srcs.len()
    &&& forall|i: int| 0 <= i < es.len() ==> callback_entry_is(#[trigger] es[i], srcs[i].0, srcs[i].1, srcs[i].2, srcs[i].3)
}

fn append_entries(out: &mut Vec<CallbackEntry>, found: Vec<CallbackEntry>, Ghost(srcs): Ghost<Seq<CallbackSource>>, Ghost(more): Ghost<Seq<CallbackSource>>)
    requires
        entries_are(old(out)@, srcs),
        entries_are(found@, more),
    ensures
        entries_are(final(out)@, srcs + more),
{
    let ghost o0 = out@;
    let ghost f0 = found@;
    let mut rest = found;
    let mut k: usize = 0;
    let n0 = rest.len();
    while rest.len() > 0
        invariant
            k + rest@.len() == f0.len(),
            f0.len() == n0,
            rest@ == f0.skip(k as int),
            out@ == o0 + f0.take(k as int),
            entries_are(o0, srcs),
            entries_are(f0, more),
        decreases rest@.len(),
    {
        let e = rest.remove(0);
        assert(e == f0[k as int]);
        assert(rest@ =~= f0.skip(k + 1));
        out.push(e);
        assert(out@ =~= o0 + f0.take(k + 1));
        k = k + 1;
    }
    assert(f0.take(k as int) =~= f0);
    assert forall|i: int| 0 <= i < out@.len() implies callback_entry_is(#[trigger] out@[i], (srcs + more)[i].0, (srcs + more)[i].1, (srcs + more)[i].2, (srcs + more)[i].3) by {
        if i < o0.len() {
            assert(out@[i] == o0[i]);
        } else {
            assert(out@[i] == f0[i - o0.len()]);
        }
    }
}

/// Every callback defined on any operation, in order of paths and methods.
pub fn list_all_callbacks(api: &ApiDef) -> (r: Vec<CallbackEntry>)
    ensures
        entries_are(r@, all_callbacks(api.paths@)),
{
    let mut out: Vec<CallbackEntry> = Vec::new();
    let mut i: usize = 0;
    while i < api.paths.len()
        invariant
            i <= api.paths.len(),
            entries_are(out@, all_callbacks(api.paths@.take(i as int))),
        decreases api.paths.len() - i,
    {
        proof {
            assert(api.paths@.take(i + 1).drop_last() =~= api.paths@.take(i as int));
            assert(api.paths@.take(i + 1).last() == api.paths@[i as int]);
        }
        let path = api.paths[i].0.as_str();
        match &api.paths[i].1 {
            PathRef::Item(pi) => {
                let ops = &pi.operations;
                let ghost start = all_callbacks(api.paths@.take(i as int));
                let mut k: usize = 0;
                assert(start + ops_callbacks(path@, ops@.take(0)) =~= start);
                while k < ops.len()
                    invariant
                        k <= ops.len(),
                        entries_are(out@, start + ops_callbacks(path@, ops@.take(k as int))),
                    decreases ops.len() - k,
                {
                    proof {
                        assert(ops@.take(k + 1).drop_last() =~= ops@.take(k as int));
                        assert(ops@.take(k + 1).last() == ops@[k as int]);
                    }
                    let found = extract_callbacks_from_operation(&ops[k].1, ops[k].0.as_str(), path);
                    let ghost op = ops@[k as int].1;
                    let ghost m = ops@[k as int].0@;
                    let ghost more = listed_callbacks(op.callbacks@).map_values(|cb: (String, Vec<(String, PathItemDef)>)| (cb, op, m, path@));
                    assert(entries_are(found@, more));
                    append_entries(&mut out, found, Ghost(start + ops_callbacks(path@, ops@.take(k as int))), Ghost(more));
                    assert(start + ops_callbacks(path@, ops@.take(k as int)) + more =~= start + ops_callbacks(path@, ops@.take(k + 1)));
                    k = k + 1;
                }
                assert(ops@.take(ops@.len() as int) =~= ops@);
            },
            PathRef::Reference(_) => {
                assert(all_callbacks(api.paths@.take(i + 1)) =~= all_callbacks(api.paths@.take(i as int)));
            },
        }
        i = i + 1;
    }
    assert(api.paths@.take(api.paths@.len() as int) =~= api.paths@);
    out
}

/// The first callback of that name (case-sensitive), or `None`.
pub fn find_callback(api: &ApiDef, name: &str) -> (r: Option<CallbackEntry>)
    ensures
        match r {
            Some(e) => exists|k: int| 0 <= k < all_callbacks(api.paths@).len()
                && (forall|j: int| 0 <= j < k ==> (#[trigger] all_callbacks(api.paths@)[j]).0.0@ != name@)
                && all_callbacks(api.paths@)[k].0.0@ == name@
                && callback_entry_is(e, all_callbacks(api.paths@)[k].0, all_callbacks(api.paths@)[k].1,
                    all_callbacks(api.paths@)[k].2, all_callbacks(api.paths@)[k].3),
            None => forall|j: int| 0 <= j < all_callbacks(api.paths@).len() ==> (#[trigger] all_callbacks(api.paths@)[j]).0.0@ != name@,
        },
{
    let ghost srcs = all_callbacks(api.paths@);
    let all = list_all_callbacks(api);
    let ghost a0 = all@;
    let mut rest = all;
    let mut k: usize = 0;
    let n0 = rest.len();
    while rest.len() > 0
        invariant
            k + rest@.len() == a0.len(),
            a0.len() == n0,
            rest@ == a0.skip(k as int),
            entries_are(a0, srcs),
            srcs == all_callbacks(api.paths@),
            forall|j: int| 0 <= j < k ==> (#[trigger] srcs[j]).0.0@ != name@,
        decreases rest@.len(),
    {
        let e = rest.remove(0);
        assert(e == a0[k as int]);
        assert(rest@ =~= a0.skip(k + 1));
        if str_eq(e.name.as_str(), name) {
            assert(callback_entry_is(a0[k as int], srcs[k as int].0, srcs[k as int].1, srcs[k as int].2, srcs[k as int].3));
            assert(srcs == all_callbacks(api.paths@));
            assert(srcs[k as int].0.0@ == name@);
            assert(0 <= k < all_callbacks(api.paths@).len()
                && (forall|j: int| 0 <= j < k ==> (#[trigger] all_callbacks(api.paths@)[j]).0.0@ != name@)
                && all_callbacks(api.paths@)[k as int].0.0@ == name@
                && callback_entry_is(e, all_callbacks(api.paths@)[k as int].0, all_callbacks(api.paths@)[k as int].1,
                    all_callbacks(api.paths@)[k as int].2, all_callbacks(api.paths@)[k as int].3));
            return Some(e);
        }
        assert(callback_entry_is(a0[k as int], srcs[k as int].0, srcs[k as int].1, srcs[k as int].2, srcs[k as int].3));
        k = k + 1;
    }
    None
}

// ───────────────────────── endpoint detail ─────────────────────────

/// The path item and operation an endpoint is shown from: the path given
/// inline under that path, and its operation under the method in upper
/// case.
pub open spec fn endpoint_source(api: ApiDef, method: Seq<char>, path: Seq<char>) -> Option<(PathItemDef, OperationDef)> {
    match entry_lookup(api.paths@, path) {
        Some(PathRef::Item(pi)) => match op_lookup(pi.operations@, uppercase(method)) {
            Some(op) => Some((pi, op)),
            None => None,
        },
        _ => None,
    }
}

/// The parameters as `merge_parameters` gives them.
pub open spec fn params_are(ps: Seq<Parameter>, api: ApiDef, pi: PathItemDef, op: OperationDef) -> bool {
    let all = accepted_params(api.parameters@, pi.parameters@ + op.parameters@);
    &&& strictly_sorted(param_names_view(ps))
    &&& param_names_view(ps) == sorted_set(param_names(all))
    &&& forall|i: int| 0 <= i < ps.len() ==> {
        &&& last_named(all, (#[trigger] ps[i]).name@) is Some
        &&& param_is(ps[i], api.schemas@, last_named(all, ps[i].name@)->0)
    }
}

/// The request body as `extract_request_body` gives it.
pub open spec fn request_body_is(r: Option<RequestBody>, api: ApiDef, op: OperationDef, expand: bool) -> bool {
    match r {
        None => body_source(api.schemas@, api.request_bodies@, op) is None,
        Some(rb) => match body_source(api.schemas@, api.request_bodies@, op) {
            Some(src) => body_matches(rb, api.schemas@, src.0, src.1, src.2, expand),
            None => false,
        },
    }
}

/// The names without `object`.
pub open spec fn not_object(s: Seq<Seq<char>>) -> Seq<Seq<char>>
    decreases s.len(),
{
    if s.len() == 0 {
        seq![]
    } else if s.last() == "object"@ {
        not_object(s.drop_last())
    } else {
        not_object(s.drop_last()).push(s.last())
    }
}

/// The schemas the successful responses return: each 2xx response's
/// shown schema without ` (list)` and `[]`, split at ` | `, but `object`.
pub open spec fn response_hint_names(rs: Seq<Response>) -> Seq<Seq<char>>
    decreases rs.len(),
{
    if rs.len() == 0 {
        seq![]
    } else {
        let r = rs.last();
        response_hint_names(rs.drop_last()) + if starts_with(r.status_code@, "2"@) {
            match r.schema_ref {
                Some(n) => not_object(split_on(strip_suffix(strip_suffix(n@, " (list)"@), "[]"@), " | "@)),
                None => seq![],
            }
        } else {
            seq![]
        }
    }
}

/// The schemas a request body names: its options, else its schema.
pub open spec fn body_hint_names(b: Option<RequestBody>) -> Seq<Seq<char>> {
    match b {
        Some(rb) => if rb.options@.len() > 0 {
            texts(rb.options@)
        } else {
            match rb.schema_ref {
                Some(n) => seq![n@],
                None => seq![],
            }
        },
        None => seq![],
    }
}

/// The names, each kept where it first occurs.
pub open spec fn dedup(s: Seq<Seq<char>>) -> Seq<Seq<char>>
    decreases s.len(),
{
    if s.len() == 0 {
        seq![]
    } else if s.drop_last().contains(s.last()) {
        dedup(s.drop_last())
    } else {
        dedup(s.drop_last()).push(s.last())
    }
}

pub open spec fn schema_hint(bin: Seq<char>, n: Seq<char>) -> Seq<char> {
    bin + " schemas "@ + n
}

/// The commands to drill deeper: one per schema named by the successful
/// responses and then the request body, each once.
pub open spec fn drill_hints(rs: Seq<Response>, b: Option<RequestBody>, bin: Seq<char>) -> Seq<Seq<char>> {
    dedup(response_hint_names(rs) + body_hint_names(b)).map_values(|n: Seq<char>| schema_hint(bin, n))
}

/// The links of all responses, in order.
pub open spec fn all_links(rs: Seq<Response>) -> Seq<LinkView>
    decreases rs.len(),
{
    if rs.len() == 0 {
        seq![]
    } else {
        all_links(rs.drop_last()) + links_view(rs.last().links@)
    }
}

/// What an endpoint holds: method in upper case, path, the operation's
/// texts and flags, parameters, request body, responses, security schemes,
/// callbacks, the responses' links, and the hints to drill deeper.
pub open spec fn endpoint_is(e: Endpoint, api: ApiDef, pi: PathItemDef, op: OperationDef, method: Seq<char>, path: Seq<char>, expand: bool, bin: Seq<char>) -> bool {
    &&& e.method@ == uppercase(method)
    &&& e.path@ == path
    &&& opt_view(e.summary) == opt_view(op.summary)
    &&& opt_view(e.description) == opt_view(op.description)
    &&& e.is_deprecated == op.deprecated
    &&& e.is_alpha == op.alpha
    &&& e.external_docs is None
    &&& params_are(e.parameters@, api, pi, op)
    &&& request_body_is(e.request_body, api, op, expand)
    &&& responses_are(e.responses@, api, listed_responses(op), expand, bin)
    &&& texts(e.security_schemes@) == security_of(api, op)
    &&& callbacks_are(e.callbacks@, op, method, path)
    &&& links_view(e.links@) == all_links(e.responses@)
    &&& texts(e.drill_deeper@) == drill_hints(e.responses@, e.request_body, bin)
}

proof fn lemma_dedup_contains(s: Seq<Seq<char>>, x: Seq<char>)
    ensures
        dedup(s).contains(x) == s.contains(x),
    decreases s.len(),
{
    if s.len() > 0 {
        lemma_dedup_contains(s.drop_last(), x);
        if s.contains(x) && !s.drop_last().contains(x) {
            let i = choose|i: int| 0 <= i < s.len() && s[i] == x;
            if i < s.len() - 1 {
                assert(s.drop_last()[i] == x);
            }
        }
        if s.drop_last().contains(x) {
            let i = choose|i: int| 0 <= i < s.drop_last().len() && s.drop_last()[i] == x;
            assert(s[i] == x);
        }
        if !s.drop_last().contains(s.last()) {
            assert(dedup(s).last() == s.last());
            if dedup(s.drop_last()).contains(x) {
                let i = choose|i: int| 0 <= i < dedup(s.drop_last()).len() && dedup(s.drop_last())[i] == x;
                assert(dedup(s)[i] == x);
            }
            if dedup(s).contains(x) && x != s.last() {
                let i = choose|i: int| 0 <= i < dedup(s).len() && dedup(s)[i] == x;
                assert(dedup(s.drop_last())[i] == x);
            }
        }
    }
}

fn has_text(v: &Vec<String>, s: &str) -> (r: bool)
    ensures
        r == texts(v@).contains(s@),
{
    let mut k: usize = 0;
    while k < v.len()
        invariant
            k <= v.len(),
            forall|j: int| 0 <= j < k ==> v@[j]@ != s@,
        decreases v.len() - k,
    {
        if str_eq(v[k].as_str(), s) {
            assert(texts(v@)[k as int] == s@);
            return true;
        }
        k = k + 1;
    }
    proof {
        if texts(v@).contains(s@) {
            let j = choose|j: int| 0 <= j < texts(v@).len() && texts(v@)[j] == s@;
            assert(v@[j]@ == s@);
        }
    }
    false
}

/// Adds a candidate name: where it was not seen, it is seen now and its
/// hint is added.
fn offer(seen: &mut Vec<String>, hints: &mut Vec<String>, name: &str, bin_name: &str, Ghost(cands): Ghost<Seq<Seq<char>>>)
    requires
        texts(old(seen)@) == dedup(cands),
        texts(old(hints)@) == dedup(cands).map_values(|n: Seq<char>| schema_hint(bin_name@, n)),
    ensures
        texts(final(seen)@) == dedup(cands.push(name@)),
        texts(final(hints)@) == dedup(cands.push(name@)).map_values(|n: Seq<char>| schema_hint(bin_name@, n)),
{
    proof {
        lemma_dedup_contains(cands, name@);
        assert(cands.push(name@).drop_last() =~= cands);
    }
    if !has_text(seen, name) {
        let ghost s0 = texts(seen@);
        let ghost h0 = texts(hints@);
        seen.push(owned(name));
        assert(texts(seen@) =~= s0.push(name@));
        let mut h = owned(bin_name);
        push_str(&mut h, " schemas ");
        push_str(&mut h, name);
        hints.push(h);
        assert(texts(hints@) =~= h0.push(schema_hint(bin_name@, name@)));
        assert(dedup(cands.push(name@)).map_values(|n: Seq<char>| schema_hint(bin_name@, n))
            =~= dedup(cands).map_values(|n: Seq<char>| schema_hint(bin_name@, n)).push(schema_hint(bin_name@, name@)));
    }
}

proof fn lemma_not_object_push(s: Seq<Seq<char>>, x: Seq<char>)
    ensures
        not_object(s.push(x)) == if x == "object"@ { not_object(s) } else { not_object(s).push(x) },
{
    assert(s.push(x).drop_last() =~= s);
}

fn response_hints(responses: &Vec<Response>, seen: &mut Vec<String>, hints: &mut Vec<String>, bin_name: &str)
    requires
        texts(old(seen)@) == dedup(seq![]),
        texts(old(hints)@) == dedup(Seq::<Seq<char>>::empty()).map_values(|n: Seq<char>| schema_hint(bin_name@, n)),
    ensures
        texts(final(seen)@) == dedup(response_hint_names(responses@)),
        texts(final(hints)@) == dedup(response_hint_names(responses@)).map_values(|n: Seq<char>| schema_hint(bin_name@, n)),
{
    let mut i: usize = 0;
    assert(responses@.take(0) =~= Seq::<Response>::empty());
    while i < responses.len()
        invariant
            i <= responses.len(),
            texts(seen@) == dedup(response_hint_names(responses@.take(i as int))),
            texts(hints@) == dedup(response_hint_names(responses@.take(i as int))).map_values(|n: Seq<char>| schema_hint(bin_name@, n)),
        decreases responses.len() - i,
    {
        let ghost base = response_hint_names(responses@.take(i as int));
        proof {
            assert(responses@.take(i + 1).drop_last() =~= responses@.take(i as int));
            assert(responses@.take(i + 1).last() == responses@[i as int]);
        }
        let r = &responses[i];
        let two = to_chars("2");
        let code = to_chars(r.status_code.as_str());
        let is2 = two.len() <= code.len() && matches_at(&code, &two, 0);
        assert(is2 == starts_with(r.status_code@, "2"@));
        if is2 {
            match &r.schema_ref {
                Some(n) => {
                    let a = strip_suffix_exec(n.as_str(), " (list)");
                    let b = strip_suffix_exec(a.as_str(), "[]");
                    proof { reveal_strlit(" | "); }
                    let parts = split_str(b.as_str(), " | ");
                    let ghost pv = texts(parts@);
                    let mut k: usize = 0;
                    assert(not_object(pv.take(0)) =~= Seq::<Seq<char>>::empty());
                    assert(base + not_object(pv.take(0)) =~= base);
                    while k < parts.len()
                        invariant
                            k <= parts.len(),
                            pv == texts(parts@),
                            texts(seen@) == dedup(base + not_object(pv.take(k as int))),
                            texts(hints@) == dedup(base + not_object(pv.take(k as int))).map_values(|n: Seq<char>| schema_hint(bin_name@, n)),
                        decreases parts.len() - k,
                    {
                        proof {
                            assert(pv.take(k + 1) =~= pv.take(k as int).push(pv[k as int]));
                            lemma_not_object_push(pv.take(k as int), pv[k as int]);
                        }
                        if !str_eq(parts[k].as_str(), "object") {
                            offer(seen, hints, parts[k].as_str(), bin_name, Ghost(base + not_object(pv.take(k as int))));
                            assert((base + not_object(pv.take(k as int))).push(pv[k as int]) =~= base + not_object(pv.take(k + 1)));
                        }
                        k = k + 1;
                    }
                    assert(pv.take(parts@.len() as int) =~= pv);
                },
                None => {
                    assert(base + Seq::<Seq<char>>::empty() =~= base);
                },
            }
        } else {
            assert(base + Seq::<Seq<char>>::empty() =~= base);
        }
        i = i + 1;
    }
    assert(responses@.take(responses@.len() as int) =~= responses@);
}

fn copy_texts_of(v: &Vec<String>) -> (r: Vec<String>)
    ensures
        texts(r@) == texts(v@),
{
    let mut r: Vec<String> = Vec::new();
    let mut i: usize = 0;
    while i < v.len()
        invariant
            i <= v.len(),
            texts(r@) == texts(v@).take(i as int),
        decreases v.len() - i,
    {
        let ghost b = texts(r@);
        r.push(owned(v[i].as_str()));
        assert(texts(r@) =~= b.push(v@[i as int]@));
        assert(texts(v@).take(i + 1) =~= texts(v@).take(i as int).push(v@[i as int]@));
        i = i + 1;
    }
    assert(texts(v@).take(v@.len() as int) =~= texts(v@));
    r
}

fn copy_link(l: &ResponseLink) -> (r: ResponseLink)
    ensures
        link_view(r) == link_view(*l),
{
    ResponseLink {
        name: owned(l.name.as_str()),
        operation_id: owned(l.operation_id.as_str()),
        parameters: copy_texts_of(&l.parameters),
        description: copy_opt(&l.description),
        drill_command: copy_opt(&l.drill_command),
    }
}

fn collect_links(responses: &Vec<Response>) -> (r: Vec<ResponseLink>)
    ensures
        links_view(r@) == all_links(responses@),
{
    let mut out: Vec<ResponseLink> = Vec::new();
    let mut i: usize = 0;
    assert(responses@.take(0) =~= Seq::<Response>::empty());
    while i < responses.len()
        invariant
            i <= responses.len(),
            links_view(out@) == all_links(responses@.take(i as int)),
        decreases responses.len() - i,
    {
        proof {
            assert(responses@.take(i + 1).drop_last() =~= responses@.take(i as int));
            assert(responses@.take(i + 1).last() == responses@[i as int]);
        }
        let ls = &responses[i].links;
        let ghost base = links_view(out@);
        let mut k: usize = 0;
        while k < ls.len()
            invariant
                k <= ls.len(),
                links_view(out@) == base + links_view(ls@).take(k as int),
            decreases ls.len() - k,
        {
            let c = copy_link(&ls[k]);
            let ghost b2 = links_view(out@);
            out.push(c);
            assert(links_view(out@) =~= b2.push(link_view(c)));
            assert(links_view(ls@).take(k + 1) =~= links_view(ls@).take(k as int).push(link_view(ls@[k as int])));
            assert(links_view(out@) =~= base + links_view(ls@).take(k + 1));
            k = k + 1;
        }
        assert(links_view(ls@).take(ls@.len() as int) =~= links_view(ls@));
        i = i + 1;
    }
    assert(responses@.take(responses@.len() as int) =~= responses@);
    out
}

/// The schemas the fields name directly, in order of the fields.
pub open spec fn nested_names(fs: Seq<Field>) -> Seq<Seq<char>>
    decreases fs.len(),
{
    if fs.len() == 0 {
        seq![]
    } else {
        nested_names(fs.drop_last()) + match fs.last().nested_schema_name {
            Some(n) => seq![n@],
            None => seq![],
        }
    }
}

/// The commands to show the schemas that a schema's fields name: one per
/// schema, where it first occurs among the fields.
pub fn schema_drill_commands(fields: &Vec<Field>, bin_name: &str) -> (r: Vec<String>)
    ensures
        texts(r@) == dedup(nested_names(fields@)).map_values(|n: Seq<char>| schema_hint(bin_name@, n)),
{
    let mut seen: Vec<String> = Vec::new();
    let mut hints: Vec<String> = Vec::new();
    assert(texts(seen@) =~= dedup(seq![]));
    assert(texts(hints@) =~= dedup(Seq::<Seq<char>>::empty()).map_values(|n: Seq<char>| schema_hint(bin_name@, n)));
    let mut i: usize = 0;
    assert(fields@.take(0) =~= Seq::<Field>::empty());
    while i < fields.len()
        invariant
            i <= fields.len(),
            texts(seen@) == dedup(nested_names(fields@.take(i as int))),
            texts(hints@) == dedup(nested_names(fields@.take(i as int))).map_values(|n: Seq<char>| schema_hint(bin_name@, n)),
        decreases fields.len() - i,
    {
        let ghost before = nested_names(fields@.take(i as int));
        proof {
            assert(fields@.take(i + 1).drop_last() =~= fields@.take(i as int));
            assert(fields@.take(i + 1).last() == fields@[i as int]);
        }
        match &fields[i].nested_schema_name {
            Some(n) => {
                offer(&mut seen, &mut hints, n.as_str(), bin_name, Ghost(before));
                assert(before.push(n@) =~= before + seq![n@]);
            },
            None => {
                assert(before + Seq::<Seq<char>>::empty() =~= before);
            },
        }
        i = i + 1;
    }
    assert(fields@.take(fields@.len() as int) =~= fields@);
    hints
}

proof fn lemma_dedup_distinct(s: Seq<Seq<char>>)
    ensures
        dedup(s).no_duplicates(),
    decreases s.len(),
{
    if s.len() > 0 {
        lemma_dedup_distinct(s.drop_last());
        if !s.drop_last().contains(s.last()) {
            let d = dedup(s.drop_last());
            let x = s.last();
            lemma_dedup_contains(s.drop_last(), x);
            assert forall|i: int, j: int|
                0 <= i < d.push(x).len() && 0 <= j < d.push(x).len() && i != j
                implies #[trigger] d.push(x)[i] != #[trigger] d.push(x)[j] by {
                if i == d.len() && d[j] == x {
                    assert(d.contains(x));
                }
                if j == d.len() && d[i] == x {
                    assert(d.contains(x));
                }
            }
        }
    }
}

/// The commands to drill deeper from an endpoint name each schema once:
/// no command occurs twice.
pub proof fn lemma_drill_deeper_distinct(
    e: Endpoint,
    api: ApiDef,
    pi: PathItemDef,
    op: OperationDef,
    method: Seq<char>,
    path: Seq<char>,
    expand: bool,
    bin: Seq<char>,
)
    requires
        endpoint_is(e, api, pi, op, method, path, expand, bin),
    ensures
        texts(e.drill_deeper@).no_duplicates(),
{
    let d = dedup(response_hint_names(e.responses@) + body_hint_names(e.request_body));
    lemma_dedup_distinct(response_hint_names(e.responses@) + body_hint_names(e.request_body));
    let m = d.map_values(|n: Seq<char>| schema_hint(bin, n));
    let p = bin + " schemas "@;
    assert forall|i: int, j: int| 0 <= i < m.len() && 0 <= j < m.len() && i != j implies #[trigger] m[i] != #[trigger] m[j] by {
        assert(m[i] == p + d[i]);
        assert(m[j] == p + d[j]);
        assert((p + d[i]).skip(p.len() as int) =~= d[i]);
        assert((p + d[j]).skip(p.len() as int) =~= d[j]);
    }
    assert(texts(e.drill_deeper@) == m);
}

/// The schema names an endpoint points to (see `drill_hints`), each once,
/// and the commands that show them.
fn drill_names(responses: &Vec<Response>, request_body: &Option<RequestBody>, bin_name: &str) -> (r: (Vec<String>, Vec<String>))
    ensures
        texts(r.0@) == dedup(response_hint_names(responses@) + body_hint_names(*request_body)),
        texts(r.1@) == dedup(response_hint_names(responses@) + body_hint_names(*request_body)).map_values(|n: Seq<char>| schema_hint(bin_name@, n)),
{
    let mut seen: Vec<String> = Vec::new();
    let mut drill_deeper: Vec<String> = Vec::new();
    assert(texts(seen@) =~= dedup(seq![]));
    assert(texts(drill_deeper@) =~= dedup(Seq::<Seq<char>>::empty()).map_values(|n: Seq<char>| schema_hint(bin_name@, n)));
    response_hints(responses, &mut seen, &mut drill_deeper, bin_name);
    let ghost rh = response_hint_names(responses@);
    match request_body {
        Some(body) => {
            if body.options.len() > 0 {
                let mut k: usize = 0;
                assert(rh + texts(body.options@).take(0) =~= rh);
                while k < body.options.len()
                    invariant
                        k <= body.options.len(),
                        texts(seen@) == dedup(rh + texts(body.options@).take(k as int)),
                        texts(drill_deeper@) == dedup(rh + texts(body.options@).take(k as int)).map_values(|n: Seq<char>| schema_hint(bin_name@, n)),
                    decreases body.options.len() - k,
                {
                    offer(&mut seen, &mut drill_deeper, body.options[k].as_str(), bin_name, Ghost(rh + texts(body.options@).take(k as int)));
                    assert((rh + texts(body.options@).take(k as int)).push(body.options@[k as int]@) =~= rh + texts(body.options@).take(k + 1));
                    k = k + 1;
                }
                assert(texts(body.options@).take(body.options@.len() as int) =~= texts(body.options@));
            } else {
                match &body.schema_ref {
                    Some(n) => {
                        offer(&mut seen, &mut drill_deeper, n.as_str(), bin_name, Ghost(rh));
                        assert(rh.push(n@) =~= rh + seq![n@]);
                    },
                    None => {
                        assert(rh + Seq::<Seq<char>>::empty() =~= rh);
                    },
                }
            }
        },
        None => {
            assert(rh + Seq::<Seq<char>>::empty() =~= rh);
        },
    }
    (seen, drill_deeper)
}

/// The schemas an endpoint's successful responses and request body name,
/// each once, in that order: those its drill-down commands show.
pub fn related_schema_names(endpoint: &Endpoint) -> (r: Vec<String>)
    ensures
        texts(r@) == dedup(response_hint_names(endpoint.responses@) + body_hint_names(endpoint.request_body)),
{
    drill_names(&endpoint.responses, &endpoint.request_body, "").0
}

/// A related schema as it is shown: the name it was found under, its
/// description and its fields (not expanded).
pub open spec fn related_is(r: RelatedSchema, comps: Seq<(String, SchemaRef)>, p: (Seq<char>, SchemaNode)) -> bool {
    &&& r.name@ == p.0
    &&& opt_view(r.description) == opt_view(p.1.description)
    &&& fields_match(r.fields@, model_content(comps, p.1).0)
}

/// One related schema for each of `names` that names a schema (see
/// `find_schema`), in order.
pub open spec fn related_match(rs: Seq<RelatedSchema>, comps: Seq<(String, SchemaRef)>, names: Seq<Seq<char>>) -> bool
    decreases names.len(),
{
    if names.len() == 0 {
        rs.len() == 0
    } else {
        match spec_find_schema(comps, names.last()) {
            Some(p) => rs.len() > 0 && related_is(rs.last(), comps, p)
                && related_match(rs.drop_last(), comps, names.drop_last()),
            None => related_match(rs, comps, names.drop_last()),
        }
    }
}

/// The schemas related to an endpoint: those of `related_schema_names`
/// that are among the components, each with its fields.
pub fn collect_related_schemas(comps: &Vec<(String, SchemaRef)>, endpoint: &Endpoint) -> (r: Vec<RelatedSchema>)
    ensures
        related_match(r@, comps@, dedup(response_hint_names(endpoint.responses@) + body_hint_names(endpoint.request_body))),
{
    let names = related_schema_names(endpoint);
    let ghost ns = texts(names@);
    let mut out: Vec<RelatedSchema> = Vec::new();
    let mut i: usize = 0;
    assert(ns.take(0) =~= Seq::<Seq<char>>::empty());
    while i < names.len()
        invariant
            i <= names.len(),
            ns == texts(names@),
            related_match(out@, comps@, ns.take(i as int)),
        decreases names.len() - i,
    {
        proof {
            assert(ns.take(i + 1).drop_last() =~= ns.take(i as int));
            assert(ns.take(i + 1).last() == names@[i as int]@);
        }
        match build_schema_model(comps, names[i].as_str(), false, 5) {
            Some(m) => {
                let rel = RelatedSchema { name: m.name, description: m.description, fields: m.fields };
                let ghost before = out@;
                out.push(rel);
                assert(out@.drop_last() =~= before);
            },
            None => {},
        }
        i = i + 1;
    }
    assert(ns.take(names@.len() as int) =~= ns);
    out
}

/// The detail of one endpoint (see `endpoint_is`), or `None` where the
/// path or its operation under that method is not there.
pub fn get_endpoint_detail(api: &ApiDef, method: &str, path: &str, expand: bool, bin_name: &str) -> (r: Option<Endpoint>)
    ensures
        match r {
            None => endpoint_source(*api, method@, path@) is None,
            Some(e) => match endpoint_source(*api, method@, path@) {
                Some(src) => endpoint_is(e, *api, src.0, src.1, method@, path@, expand, bin_name@),
                None => false,
            },
        },
{
    let pi = match find_entry(&api.paths, path) {
        Some(PathRef::Item(pi)) => pi,
        _ => return None,
    };
    let up = str_to_uppercase(method);
    let operation = match find_op(&pi.operations, up.as_str()) {
        Some(op) => op,
        None => return None,
    };
    let parameters = merge_parameters(api, pi, operation);
    let request_body = extract_request_body(api, operation, expand);
    let responses = extract_responses(api, operation, expand, bin_name);
    let security_schemes = extract_security(api, operation);
    let callbacks = extract_callbacks_from_operation(operation, method, path);
    let (_, drill_deeper) = drill_names(&responses, &request_body, bin_name);
    let links = collect_links(&responses);
    Some(Endpoint {
        method: up,
        path: owned(path),
        summary: copy_opt(&operation.summary),
        description: copy_opt(&operation.description),
        is_deprecated: operation.deprecated,
        is_alpha: operation.alpha,
        external_docs: None,
        parameters,
        request_body,
        responses,
        security_schemes,
        callbacks,
        links,
        drill_deeper,
    })
}

} // verus!
