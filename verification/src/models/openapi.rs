//! The parts of an OpenAPI document that schema rendering reads: schemas
//! with their kinds and flags, and references to named schemas.
use vstd::prelude::*;
use crate::strutil::{decimal, int_decimal, i64_to_string, push_str, usize_to_string};
use crate::commands::init::opt_view;
use crate::models::resource::Field;
use crate::models::json::{clone_json, opt_jview, JsonValue};
use crate::document::{schema_name_from_ref, spec_schema_name_from_ref};
use crate::render::sanitize::{owned, str_eq};

verus! {

/// The `format` of a string schema.
#[derive(Debug)]
pub enum StringFormat {
    Empty,
    DateTime,
    Date,
    Password,
    Byte,
    Binary,
    Unknown(String),
}

/// A schema given inline, or a `$ref` to one.
#[derive(Debug)]
pub enum SchemaRef {
    Reference(String),
    Item(Box<SchemaNode>),
}

/// What kind of schema it is, with what each kind constrains.
#[derive(Debug)]
pub enum SchemaKind {
    String {
        format: StringFormat,
        enumeration: Vec<Option<String>>,
        min_length: Option<usize>,
        max_length: Option<usize>,
        pattern: Option<String>,
    },
    Integer {
        enumeration: Vec<Option<i64>>,
        minimum: Option<i64>,
        exclusive_minimum: bool,
        maximum: Option<i64>,
        exclusive_maximum: bool,
        multiple_of: Option<i64>,
    },
    /// A number schema; its constraints and enum values are given as the
    /// text they are shown as.
    Number { constraints: Vec<String>, enum_values: Vec<String> },
    Boolean,
    Object {
        properties: Vec<(String, SchemaRef)>,
        required: Vec<String>,
        min_properties: Option<usize>,
        max_properties: Option<usize>,
    },
    Array { items: Option<SchemaRef>, min_items: Option<usize>, max_items: Option<usize>, unique_items: bool },
    AllOf(Vec<SchemaRef>),
    OneOf(Vec<SchemaRef>),
    AnyOf(Vec<SchemaRef>),
    Not,
    /// No declared type: what is known of it.
    Any { typ: Option<String>, properties: Vec<(String, SchemaRef)>, required: Vec<String>, items: Option<SchemaRef> },
}

/// A schema: its kind and the data every schema carries. `default` holds
/// JSON text.
#[derive(Debug)]
pub struct SchemaNode {
    pub kind: SchemaKind,
    pub title: Option<String>,
    pub description: Option<String>,
    pub nullable: bool,
    pub read_only: bool,
    pub write_only: bool,
    pub deprecated: bool,
    pub default: Option<String>,
    pub example: Option<JsonValue>,
    /// The discriminator: property name and (value, reference) pairs.
    pub discriminator: Option<(String, Vec<(String, String)>)>,
}

// ───────────────────────── named schemas ─────────────────────────

/// The schema of that name among the components (the document's named
/// schemas, in order): `None` where there is none, or where the entry is
/// itself a reference.
pub open spec fn component(comps: Seq<(String, SchemaRef)>, name: Seq<char>) -> Option<SchemaNode>
    decreases comps.len(),
{
    if comps.len() == 0 {
        None
    } else if comps[0].0@ == name {
        match comps[0].1 {
            SchemaRef::Item(b) => Some(*b),
            SchemaRef::Reference(_) => None,
        }
    } else {
        component(comps.drop_first(), name)
    }
}

/// The schema a reference under `#/components/schemas/` names.
pub open spec fn resolve_ref(comps: Seq<(String, SchemaRef)>, r: Seq<char>) -> Option<SchemaNode> {
    match spec_schema_name_from_ref(r) {
        Some(n) => component(comps, n),
        None => None,
    }
}

/// Finds a component schema by name.
pub fn find_component<'a>(comps: &'a Vec<(String, SchemaRef)>, name: &str) -> (r: Option<&'a SchemaNode>)
    ensures
        match r {
            Some(s) => component(comps@, name@) == Some(*s),
            None => component(comps@, name@) is None,
        },
{
    let mut i: usize = 0;
    assert(comps@.skip(0) =~= comps@);
    while i < comps.len()
        invariant
            i <= comps.len(),
            component(comps@, name@) == component(comps@.skip(i as int), name@),
        decreases comps.len() - i,
    {
        assert(comps@.skip(i as int)[0] == comps@[i as int]);
        if str_eq(comps[i].0.as_str(), name) {
            return match &comps[i].1 {
                SchemaRef::Item(b) => Some(&**b),
                SchemaRef::Reference(_) => None,
            };
        }
        assert(comps@.skip(i as int).drop_first() =~= comps@.skip(i + 1));
        i = i + 1;
    }
    None
}

/// Follows a reference to a component schema.
pub fn resolve_reference<'a>(comps: &'a Vec<(String, SchemaRef)>, r: &str) -> (s: Option<&'a SchemaNode>)
    ensures
        match s {
            Some(x) => resolve_ref(comps@, r@) == Some(*x),
            None => resolve_ref(comps@, r@) is None,
        },
{
    match schema_name_from_ref(r) {
        Some(n) => find_component(comps, n),
        None => None,
    }
}

// ───────────────────────── how a schema is shown ─────────────────────────

pub open spec fn format_name(f: StringFormat) -> Seq<char> {
    match f {
        StringFormat::DateTime => "date-time"@,
        StringFormat::Date => "date"@,
        StringFormat::Password => "password"@,
        StringFormat::Byte => "byte"@,
        StringFormat::Binary => "binary"@,
        StringFormat::Unknown(s) => s@,
        StringFormat::Empty => seq![],
    }
}

/// The name of a referenced schema, or `object` where it names none.
pub open spec fn ref_name_or_object(r: Seq<char>) -> Seq<char> {
    match spec_schema_name_from_ref(r) {
        Some(n) => n,
        None => "object"@,
    }
}

/// The type of a schema as a field table shows it: `string`,
/// `string/<format>`, `binary`, `integer`, `number`, `boolean`,
/// `<items>[]`, `array`, `object`, or the declared type of an untyped one.
pub open spec fn type_display(k: SchemaKind) -> Seq<char>
    decreases k,
{
    match k {
        SchemaKind::String { format, .. } => match format {
            StringFormat::Binary => "binary"@,
            StringFormat::Empty => "string"@,
            _ => "string/"@ + format_name(format),
        },
        SchemaKind::Integer { .. } => "integer"@,
        SchemaKind::Number { .. } => "number"@,
        SchemaKind::Boolean => "boolean"@,
        SchemaKind::Array { items, .. } => match items {
            Some(SchemaRef::Reference(r)) => ref_name_or_object(r@) + "[]"@,
            Some(SchemaRef::Item(b)) => type_display((*b).kind) + "[]"@,
            None => "array"@,
        },
        SchemaKind::Object { .. } => "object"@,
        SchemaKind::Any { typ, .. } => match typ {
            Some(t) => t@,
            None => "object"@,
        },
        _ => "object"@,
    }
}

fn format_name_exec(f: &StringFormat) -> (r: String)
    ensures
        r@ == format_name(*f),
{
    match f {
        StringFormat::DateTime => owned("date-time"),
        StringFormat::Date => owned("date"),
        StringFormat::Password => owned("password"),
        StringFormat::Byte => owned("byte"),
        StringFormat::Binary => owned("binary"),
        StringFormat::Unknown(s) => owned(s.as_str()),
        StringFormat::Empty => {
            let r = String::new();
            assert(r@ =~= format_name(*f));
            r
        },
    }
}

/// The type of a schema as a field table shows it.
pub fn format_type_display(kind: &SchemaKind) -> (r: String)
    ensures
        r@ == type_display(*kind),
    decreases kind,
{
    match kind {
        SchemaKind::String { format, .. } => match format {
            StringFormat::Binary => owned("binary"),
            StringFormat::Empty => owned("string"),
            _ => {
                let mut r = owned("string/");
                let n = format_name_exec(format);
                push_str(&mut r, n.as_str());
                r
            },
        },
        SchemaKind::Integer { .. } => owned("integer"),
        SchemaKind::Number { .. } => owned("number"),
        SchemaKind::Boolean => owned("boolean"),
        SchemaKind::Array { items, .. } => match items {
            Some(SchemaRef::Reference(r)) => {
                let mut s = match schema_name_from_ref(r.as_str()) {
                    Some(n) => owned(n),
                    None => owned("object"),
                };
                push_str(&mut s, "[]");
                s
            },
            Some(SchemaRef::Item(b)) => {
                let mut s = format_type_display(&b.kind);
                push_str(&mut s, "[]");
                s
            },
            None => owned("array"),
        },
        SchemaKind::Object { .. } => owned("object"),
        SchemaKind::Any { typ, .. } => match typ {
            Some(t) => owned(t.as_str()),
            None => owned("object"),
        },
        _ => owned("object"),
    }
}

pub open spec fn strings_of_some(v: Seq<Option<String>>) -> Seq<Seq<char>>
    decreases v.len(),
{
    if v.len() == 0 {
        seq![]
    } else {
        match v.last() {
            Some(s) => strings_of_some(v.drop_last()).push(s@),
            None => strings_of_some(v.drop_last()),
        }
    }
}

pub open spec fn ints_of_some(v: Seq<Option<i64>>) -> Seq<Seq<char>>
    decreases v.len(),
{
    if v.len() == 0 {
        seq![]
    } else {
        match v.last() {
            Some(n) => ints_of_some(v.drop_last()).push(int_decimal(n as int)),
            None => ints_of_some(v.drop_last()),
        }
    }
}

pub open spec fn texts(v: Seq<String>) -> Seq<Seq<char>> {
    v.map_values(|s: String| s@)
}

/// The enum values of a schema as text: strings, integers and numbers.
pub open spec fn enum_values_of(k: SchemaKind) -> Seq<Seq<char>> {
    match k {
        SchemaKind::String { enumeration, .. } => strings_of_some(enumeration@),
        SchemaKind::Integer { enumeration, .. } => ints_of_some(enumeration@),
        SchemaKind::Number { enum_values, .. } => texts(enum_values@),
        _ => seq![],
    }
}

pub(crate) fn push_text(v: &mut Vec<String>, s: String)
    ensures
        texts(final(v)@) == texts(old(v)@).push(s@),
{
    v.push(s);
    assert(texts(v@) =~= texts(old(v)@).push(s@));
}

pub(crate) fn copy_texts(v: &Vec<String>) -> (r: Vec<String>)
    ensures
        texts(r@) == texts(v@),
{
    let mut r: Vec<String> = Vec::new();
    let mut i: usize = 0;
    while i < v.len()
        invariant
            i <= v.len(),
            texts(r@) == texts(v@).take(i as int),
        decreases v.len() - i,
    {
        push_text(&mut r, owned(v[i].as_str()));
        assert(texts(v@).take(i + 1) =~= texts(v@).take(i as int).push(v@[i as int]@));
        i = i + 1;
    }
    assert(texts(v@).take(v@.len() as int) =~= texts(v@));
    r
}

/// The enum values of a schema as text.
pub fn extract_enum_values(kind: &SchemaKind) -> (r: Vec<String>)
    ensures
        texts(r@) == enum_values_of(*kind),
{
    let mut r: Vec<String> = Vec::new();
    match kind {
        SchemaKind::String { enumeration, .. } => {
            let mut i: usize = 0;
            while i < enumeration.len()
                invariant
                    i <= enumeration.len(),
                    texts(r@) == strings_of_some(enumeration@.take(i as int)),
                decreases enumeration.len() - i,
            {
                assert(enumeration@.take(i + 1).drop_last() =~= enumeration@.take(i as int));
                match &enumeration[i] {
                    Some(s) => push_text(&mut r, owned(s.as_str())),
                    None => {},
                }
                i = i + 1;
            }
            assert(enumeration@.take(enumeration@.len() as int) =~= enumeration@);
            r
        },
        SchemaKind::Integer { enumeration, .. } => {
            let mut i: usize = 0;
            while i < enumeration.len()
                invariant
                    i <= enumeration.len(),
                    texts(r@) == ints_of_some(enumeration@.take(i as int)),
                decreases enumeration.len() - i,
            {
                assert(enumeration@.take(i + 1).drop_last() =~= enumeration@.take(i as int));
                match enumeration[i] {
                    Some(n) => push_text(&mut r, i64_to_string(n)),
                    None => {},
                }
                i = i + 1;
            }
            assert(enumeration@.take(enumeration@.len() as int) =~= enumeration@);
            r
        },
        SchemaKind::Number { enum_values, .. } => copy_texts(enum_values),
        _ => {
            assert(texts(r@) =~= enum_values_of(*kind));
            r
        },
    }
}


// ───────────────────────── constraints ─────────────────────────

pub open spec fn count_item(o: Option<usize>, label: Seq<char>) -> Seq<Seq<char>> {
    match o {
        Some(n) => seq![label + decimal(n as nat)],
        None => seq![],
    }
}

pub open spec fn int_bound(o: Option<i64>, exclusive: bool, strict: Seq<char>, label: Seq<char>) -> Seq<Seq<char>> {
    match o {
        Some(n) => seq![(if exclusive { strict } else { label }) + int_decimal(n as int)],
        None => seq![],
    }
}

/// The constraints of a schema as shown after its description: lengths
/// and pattern, bounds (`>`/`<` where exclusive) and multiples, item and
/// property counts, uniqueness.
pub open spec fn constraints_of(k: SchemaKind) -> Seq<Seq<char>> {
    match k {
        SchemaKind::String { min_length, max_length, pattern, .. } => count_item(min_length, "min:"@)
            + count_item(max_length, "max:"@) + (match pattern {
                Some(p) => seq!["pattern:"@ + p@],
                None => seq![],
            }),
        SchemaKind::Integer { minimum, exclusive_minimum, maximum, exclusive_maximum, multiple_of, .. } =>
            int_bound(minimum, exclusive_minimum, ">"@, "min:"@)
                + int_bound(maximum, exclusive_maximum, "<"@, "max:"@) + (match multiple_of {
                    Some(m) => seq!["multipleOf:"@ + int_decimal(m as int)],
                    None => seq![],
                }),
        SchemaKind::Number { constraints, .. } => texts(constraints@),
        SchemaKind::Array { min_items, max_items, unique_items, .. } => count_item(min_items, "minItems:"@)
            + count_item(max_items, "maxItems:"@) + (if unique_items { seq!["uniqueItems"@] } else { seq![] }),
        SchemaKind::Object { min_properties, max_properties, .. } => count_item(min_properties, "minProperties:"@)
            + count_item(max_properties, "maxProperties:"@),
        _ => seq![],
    }
}

fn labeled(label: &str, value: String) -> (r: String)
    ensures
        r@ == label@ + value@,
{
    let mut r = owned(label);
    push_str(&mut r, value.as_str());
    r
}

fn push_count(v: &mut Vec<String>, o: Option<usize>, label: &str)
    ensures
        texts(final(v)@) == texts(old(v)@) + count_item(o, label@),
{
    match o {
        Some(n) => push_text(v, labeled(label, usize_to_string(n))),
        None => {},
    }
    assert(texts(v@) =~= texts(old(v)@) + count_item(o, label@));
}

fn push_bound(v: &mut Vec<String>, o: Option<i64>, exclusive: bool, strict: &str, label: &str)
    ensures
        texts(final(v)@) == texts(old(v)@) + int_bound(o, exclusive, strict@, label@),
{
    match o {
        Some(n) => {
            let l = if exclusive { strict } else { label };
            push_text(v, labeled(l, i64_to_string(n)));
        },
        None => {},
    }
    assert(texts(v@) =~= texts(old(v)@) + int_bound(o, exclusive, strict@, label@));
}

/// The constraints of a schema as text.
pub fn extract_constraints(kind: &SchemaKind) -> (r: Vec<String>)
    ensures
        texts(r@) == constraints_of(*kind),
{
    let mut c: Vec<String> = Vec::new();
    assert(texts(c@) =~= Seq::<Seq<char>>::empty());
    match kind {
        SchemaKind::String { min_length, max_length, pattern, .. } => {
            push_count(&mut c, *min_length, "min:");
            push_count(&mut c, *max_length, "max:");
            let ghost before = texts(c@);
            match pattern {
                Some(p) => push_text(&mut c, labeled("pattern:", owned(p.as_str()))),
                None => {},
            }
            assert(texts(c@) =~= before + (match pattern {
                Some(p) => seq!["pattern:"@ + p@],
                None => seq![],
            }));
            c
        },
        SchemaKind::Integer { minimum, exclusive_minimum, maximum, exclusive_maximum, multiple_of, .. } => {
            push_bound(&mut c, *minimum, *exclusive_minimum, ">", "min:");
            push_bound(&mut c, *maximum, *exclusive_maximum, "<", "max:");
            let ghost before = texts(c@);
            match multiple_of {
                Some(m) => push_text(&mut c, labeled("multipleOf:", i64_to_string(*m))),
                None => {},
            }
            assert(texts(c@) =~= before + (match multiple_of {
                Some(m) => seq!["multipleOf:"@ + int_decimal(m as int)],
                None => seq![],
            }));
            c
        },
        SchemaKind::Number { constraints, .. } => copy_texts(constraints),
        SchemaKind::Array { min_items, max_items, unique_items, .. } => {
            push_count(&mut c, *min_items, "minItems:");
            push_count(&mut c, *max_items, "maxItems:");
            let ghost before = texts(c@);
            if *unique_items {
                push_text(&mut c, owned("uniqueItems"));
            }
            assert(texts(c@) =~= before + (if *unique_items { seq!["uniqueItems"@] } else { seq![] }));
            c
        },
        SchemaKind::Object { min_properties, max_properties, .. } => {
            push_count(&mut c, *min_properties, "minProperties:");
            push_count(&mut c, *max_properties, "maxProperties:");
            c
        },
        _ => c,
    }
}


// ───────────────────────── fields of a schema ─────────────────────────

/// The properties and required names of an object, or of an untyped
/// schema that has properties.
pub open spec fn object_properties(s: SchemaNode) -> Option<(Seq<(String, SchemaRef)>, Seq<Seq<char>>)> {
    match s.kind {
        SchemaKind::Object { properties, required, .. } => Some((properties@, texts(required@))),
        SchemaKind::Any { properties, required, .. } => if properties@.len() > 0 {
            Some((properties@, texts(required@)))
        } else {
            None
        },
        _ => None,
    }
}

/// The required names of an object-like schema, or none.
pub open spec fn required_of(s: SchemaNode) -> Seq<Seq<char>> {
    match object_properties(s) {
        Some(p) => p.1,
        None => seq![],
    }
}

/// The properties of an object (or of an untyped schema that has
/// properties), with a copy of its required names; `None` for any other
/// schema.
pub fn extract_object_properties(schema: &SchemaNode) -> (r: Option<(&Vec<(String, SchemaRef)>, Vec<String>)>)
    ensures
        match r {
            Some((props, req)) => object_properties(*schema) == Some((props@, texts(req@))),
            None => object_properties(*schema) is None,
        },
{
    match &schema.kind {
        SchemaKind::Object { properties, required, .. } => Some((properties, copy_texts(required))),
        SchemaKind::Any { properties, required, .. } => {
            if properties.len() > 0 {
                Some((properties, copy_texts(required)))
            } else {
                None
            }
        },
        _ => None,
    }
}

/// What a field is made from: its name, its schema, the name of the schema
/// it refers to where it is a reference, and whether it is required.
pub type FieldPlan = (Seq<char>, SchemaNode, Option<Seq<char>>, bool);

/// The plan of each property that resolves, in order.
pub open spec fn property_plans(comps: Seq<(String, SchemaRef)>, props: Seq<(String, SchemaRef)>, req: Seq<Seq<char>>) -> Seq<FieldPlan>
    decreases props.len(),
{
    if props.len() == 0 {
        seq![]
    } else {
        let rest = property_plans(comps, props.drop_last(), req);
        let n = props.last().0@;
        match props.last().1 {
            SchemaRef::Item(b) => rest.push((n, *b, None, req.contains(n))),
            SchemaRef::Reference(r) => match spec_schema_name_from_ref(r@) {
                Some(sn) => match component(comps, sn) {
                    Some(x) => rest.push((n, x, Some(sn), req.contains(n))),
                    None => rest,
                },
                None => rest,
            },
        }
    }
}

/// The plans without any of the given name.
pub open spec fn remove_named(ps: Seq<FieldPlan>, n: Seq<char>) -> Seq<FieldPlan>
    decreases ps.len(),
{
    if ps.len() == 0 {
        seq![]
    } else if ps.last().0 == n {
        remove_named(ps.drop_last(), n)
    } else {
        remove_named(ps.drop_last(), n).push(ps.last())
    }
}

/// `extra` added to `acc`, each replacing an earlier plan of its name.
pub open spec fn merge_plans(acc: Seq<FieldPlan>, extra: Seq<FieldPlan>) -> Seq<FieldPlan>
    decreases extra.len(),
{
    if extra.len() == 0 {
        acc
    } else {
        remove_named(merge_plans(acc, extra.drop_last()), extra.last().0).push(extra.last())
    }
}

/// `req` with the names of `extra` it lacks added, in order.
pub open spec fn add_required(req: Seq<Seq<char>>, extra: Seq<Seq<char>>) -> Seq<Seq<char>>
    decreases extra.len(),
{
    if extra.len() == 0 {
        req
    } else {
        let r = add_required(req, extra.drop_last());
        if r.contains(extra.last()) { r } else { r.push(extra.last()) }
    }
}

/// The fields of a schema: its properties, or for `allOf` the fields of
/// each part in turn, a later field replacing an earlier one of the same
/// name, each part also adding its required names to those that follow.
/// `fuel` bounds how many references are followed along one chain of
/// `allOf` parts.
pub open spec fn schema_plans(comps: Seq<(String, SchemaRef)>, s: SchemaNode, req: Seq<Seq<char>>, fuel: nat) -> Seq<FieldPlan>
    decreases fuel, s,
{
    match s.kind {
        SchemaKind::AllOf(parts) => allof_plans(comps, parts@, req, fuel).0,
        _ => match object_properties(s) {
            Some(p) => property_plans(comps, p.0, req),
            None => seq![],
        },
    }
}

/// The fields of the first parts of an `allOf`, and the required names
/// gathered by then.
pub open spec fn allof_plans(comps: Seq<(String, SchemaRef)>, parts: Seq<SchemaRef>, req: Seq<Seq<char>>, fuel: nat) -> (Seq<FieldPlan>, Seq<Seq<char>>)
    decreases fuel, parts,
{
    if parts.len() == 0 {
        (seq![], req)
    } else {
        let prev = allof_plans(comps, parts.subrange(0, parts.len() - 1), req, fuel);
        match parts[parts.len() - 1] {
            SchemaRef::Item(b) => {
                let r2 = add_required(prev.1, required_of(*b));
                (merge_plans(prev.0, schema_plans(comps, *b, r2, fuel)), r2)
            },
            SchemaRef::Reference(x) => if fuel == 0 {
                prev
            } else {
                match resolve_ref(comps, x@) {
                    Some(t) => {
                        let r2 = add_required(prev.1, required_of(t));
                        (merge_plans(prev.0, schema_plans(comps, t, r2, (fuel - 1) as nat)), r2)
                    },
                    None => prev,
                }
            },
        }
    }
}


pub open spec fn opt_str(o: Option<&str>) -> Option<Seq<char>> {
    match o {
        Some(x) => Some(x@),
        None => None,
    }
}

pub open spec fn plan_view(p: (&String, &SchemaNode, Option<&str>, bool)) -> FieldPlan {
    (p.0@, *p.1, opt_str(p.2), p.3)
}

pub open spec fn plans_view(v: Seq<(&String, &SchemaNode, Option<&str>, bool)>) -> Seq<FieldPlan> {
    v.map_values(|p: (&String, &SchemaNode, Option<&str>, bool)| plan_view(p))
}

fn names_contain(req: &Vec<String>, n: &str) -> (r: bool)
    ensures
        r == texts(req@).contains(n@),
{
    let mut i: usize = 0;
    while i < req.len()
        invariant
            i <= req.len(),
            forall|k: int| 0 <= k < i ==> (#[trigger] req@[k])@ != n@,
        decreases req.len() - i,
    {
        if str_eq(req[i].as_str(), n) {
            assert(texts(req@)[i as int] == n@);
            return true;
        }
        i = i + 1;
    }
    proof {
        if texts(req@).contains(n@) {
            let k = choose|k: int| 0 <= k < texts(req@).len() && texts(req@)[k] == n@;
            assert(req@[k]@ == n@);
        }
    }
    false
}

fn push_plan<'a>(v: &mut Vec<(&'a String, &'a SchemaNode, Option<&'a str>, bool)>, p: (&'a String, &'a SchemaNode, Option<&'a str>, bool))
    ensures
        plans_view(final(v)@) == plans_view(old(v)@).push(plan_view(p)),
{
    v.push(p);
    assert(plans_view(v@) =~= plans_view(old(v)@).push(plan_view(p)));
}

fn property_plans_exec<'a>(
    comps: &'a Vec<(String, SchemaRef)>,
    props: &'a Vec<(String, SchemaRef)>,
    req: &Vec<String>,
) -> (r: Vec<(&'a String, &'a SchemaNode, Option<&'a str>, bool)>)
    ensures
        plans_view(r@) == property_plans(comps@, props@, texts(req@)),
{
    let mut r: Vec<(&'a String, &'a SchemaNode, Option<&'a str>, bool)> = Vec::new();
    let mut i: usize = 0;
    while i < props.len()
        invariant
            i <= props.len(),
            plans_view(r@) == property_plans(comps@, props@.take(i as int), texts(req@)),
        decreases props.len() - i,
    {
        proof { assert(props@.take(i + 1).drop_last() =~= props@.take(i as int)); }
        let name = &props[i].0;
        let is_req = names_contain(req, name.as_str());
        match &props[i].1 {
            SchemaRef::Item(b) => {
                push_plan(&mut r, (name, &**b, None, is_req));
            },
            SchemaRef::Reference(x) => {
                match schema_name_from_ref(x.as_str()) {
                    Some(sn) => match find_component(comps, sn) {
                        Some(t) => push_plan(&mut r, (name, t, Some(sn), is_req)),
                        None => {},
                    },
                    None => {},
                }
            },
        }
        i = i + 1;
    }
    assert(props@.take(props@.len() as int) =~= props@);
    r
}

fn remove_named_exec<'a>(v: &Vec<(&'a String, &'a SchemaNode, Option<&'a str>, bool)>, n: &str) -> (r: Vec<(&'a String, &'a SchemaNode, Option<&'a str>, bool)>)
    ensures
        plans_view(r@) == remove_named(plans_view(v@), n@),
{
    let mut r: Vec<(&'a String, &'a SchemaNode, Option<&'a str>, bool)> = Vec::new();
    let mut i: usize = 0;
    while i < v.len()
        invariant
            i <= v.len(),
            plans_view(r@) == remove_named(plans_view(v@).take(i as int), n@),
        decreases v.len() - i,
    {
        proof { assert(plans_view(v@).take(i + 1).drop_last() =~= plans_view(v@).take(i as int)); }
        if !str_eq(v[i].0.as_str(), n) {
            push_plan(&mut r, v[i]);
        }
        i = i + 1;
    }
    assert(plans_view(v@).take(v@.len() as int) =~= plans_view(v@));
    r
}

fn merge_plans_exec<'a>(acc: Vec<(&'a String, &'a SchemaNode, Option<&'a str>, bool)>, extra: &Vec<(&'a String, &'a SchemaNode, Option<&'a str>, bool)>) -> (r: Vec<(&'a String, &'a SchemaNode, Option<&'a str>, bool)>)
    ensures
        plans_view(r@) == merge_plans(plans_view(acc@), plans_view(extra@)),
{
    let mut all = acc;
    let ghost a0 = plans_view(all@);
    let mut i: usize = 0;
    while i < extra.len()
        invariant
            i <= extra.len(),
            plans_view(all@) == merge_plans(a0, plans_view(extra@).take(i as int)),
        decreases extra.len() - i,
    {
        proof { assert(plans_view(extra@).take(i + 1).drop_last() =~= plans_view(extra@).take(i as int)); }
        let mut kept = remove_named_exec(&all, extra[i].0.as_str());
        push_plan(&mut kept, extra[i]);
        all = kept;
        i = i + 1;
    }
    assert(plans_view(extra@).take(extra@.len() as int) =~= plans_view(extra@));
    all
}

fn add_required_exec(req: &mut Vec<String>, extra: &Vec<String>)
    ensures
        texts(final(req)@) == add_required(texts(old(req)@), texts(extra@)),
{
    let ghost r0 = texts(req@);
    let mut i: usize = 0;
    while i < extra.len()
        invariant
            i <= extra.len(),
            texts(req@) == add_required(r0, texts(extra@).take(i as int)),
        decreases extra.len() - i,
    {
        proof { assert(texts(extra@).take(i + 1).drop_last() =~= texts(extra@).take(i as int)); }
        if !names_contain(req, extra[i].as_str()) {
            push_text(req, owned(extra[i].as_str()));
        }
        i = i + 1;
    }
    assert(texts(extra@).take(extra@.len() as int) =~= texts(extra@));
}

pub fn required_of_exec(s: &SchemaNode) -> (r: Vec<String>)
    ensures
        texts(r@) == required_of(*s),
{
    match &s.kind {
        SchemaKind::Object { required, .. } => copy_texts(required),
        SchemaKind::Any { properties, required, .. } => {
            if properties.len() > 0 {
                copy_texts(required)
            } else {
                let r: Vec<String> = Vec::new();
                assert(texts(r@) =~= required_of(*s));
                r
            }
        },
        _ => {
            let r: Vec<String> = Vec::new();
            assert(texts(r@) =~= required_of(*s));
            r
        },
    }
}

fn copy_required(req: &[String]) -> (r: Vec<String>)
    ensures
        texts(r@) == req@.map_values(|s: String| s@),
{
    let mut r: Vec<String> = Vec::new();
    let mut i: usize = 0;
    while i < req.len()
        invariant
            i <= req.len(),
            texts(r@) == req@.map_values(|s: String| s@).take(i as int),
        decreases req.len() - i,
    {
        push_text(&mut r, owned(req[i].as_str()));
        assert(req@.map_values(|s: String| s@).take(i + 1) =~= req@.map_values(|s: String| s@).take(i as int).push(req@[i as int]@));
        i = i + 1;
    }
    assert(req@.map_values(|s: String| s@).take(req@.len() as int) =~= req@.map_values(|s: String| s@));
    r
}

fn schema_plans_exec<'a>(
    comps: &'a Vec<(String, SchemaRef)>,
    s: &'a SchemaNode,
    req: &Vec<String>,
    fuel: usize,
) -> (r: Vec<(&'a String, &'a SchemaNode, Option<&'a str>, bool)>)
    ensures
        plans_view(r@) == schema_plans(comps@, *s, texts(req@), fuel as nat),
    decreases fuel, *s, 1nat,
{
    match &s.kind {
        SchemaKind::AllOf(parts) => {
            let (p, _) = allof_plans_exec(comps, parts, req, fuel);
            p
        },
        SchemaKind::Object { properties, .. } => property_plans_exec(comps, properties, req),
        SchemaKind::Any { properties, .. } => {
            if properties.len() > 0 {
                property_plans_exec(comps, properties, req)
            } else {
                let r: Vec<(&'a String, &'a SchemaNode, Option<&'a str>, bool)> = Vec::new();
                assert(plans_view(r@) =~= schema_plans(comps@, *s, texts(req@), fuel as nat));
                r
            }
        },
        _ => {
            let r: Vec<(&'a String, &'a SchemaNode, Option<&'a str>, bool)> = Vec::new();
            assert(plans_view(r@) =~= schema_plans(comps@, *s, texts(req@), fuel as nat));
            r
        },
    }
}

fn allof_plans_exec<'a>(
    comps: &'a Vec<(String, SchemaRef)>,
    parts: &'a Vec<SchemaRef>,
    req: &Vec<String>,
    fuel: usize,
) -> (r: (Vec<(&'a String, &'a SchemaNode, Option<&'a str>, bool)>, Vec<String>))
    ensures
        plans_view(r.0@) == allof_plans(comps@, parts@, texts(req@), fuel as nat).0,
        texts(r.1@) == allof_plans(comps@, parts@, texts(req@), fuel as nat).1,
    decreases fuel, parts@, 0nat,
{
    let mut acc: Vec<(&'a String, &'a SchemaNode, Option<&'a str>, bool)> = Vec::new();
    let mut merged = copy_required(req.as_slice());
    assert(texts(merged@) =~= texts(req@));
    assert(parts@.subrange(0, 0) =~= Seq::<SchemaRef>::empty());
    assert(plans_view(acc@) =~= allof_plans(comps@, parts@.subrange(0, 0), texts(req@), fuel as nat).0);
    let mut i: usize = 0;
    while i < parts.len()
        invariant
            i <= parts.len(),
            plans_view(acc@) == allof_plans(comps@, parts@.subrange(0, i as int), texts(req@), fuel as nat).0,
            texts(merged@) == allof_plans(comps@, parts@.subrange(0, i as int), texts(req@), fuel as nat).1,
        decreases parts.len() - i,
    {
        let ghost pre = parts@.subrange(0, i + 1);
        proof {
            assert(pre.subrange(0, pre.len() - 1) =~= parts@.subrange(0, i as int));
            assert(pre[pre.len() - 1] == parts@[i as int]);
        }
        match &parts[i] {
            SchemaRef::Item(b) => {
                let extra = required_of_exec(&**b);
                add_required_exec(&mut merged, &extra);
                proof {
                    assert(decreases_to!(parts@ => parts@[i as int]));
                }
                let sub = schema_plans_exec(comps, &**b, &merged, fuel);
                acc = merge_plans_exec(acc, &sub);
            },
            SchemaRef::Reference(x) => {
                if fuel > 0 {
                    match resolve_reference(comps, x.as_str()) {
                        Some(t) => {
                            let extra = required_of_exec(t);
                            add_required_exec(&mut merged, &extra);
                            let sub = schema_plans_exec(comps, t, &merged, fuel - 1);
                            acc = merge_plans_exec(acc, &sub);
                        },
                        None => {},
                    }
                }
            },
        }
        i = i + 1;
    }
    assert(parts@.subrange(0, parts@.len() as int) =~= parts@);
    (acc, merged)
}


/// The schema a field can be expanded into: the one it refers to, or the
/// items of an array of references.
pub open spec fn nested_name(p: FieldPlan) -> Option<Seq<char>> {
    match p.2 {
        Some(n) => Some(n),
        None => match p.1.kind {
            SchemaKind::Array { items, .. } => match items {
                Some(SchemaRef::Reference(r)) => spec_schema_name_from_ref(r@),
                _ => None,
            },
            _ => None,
        },
    }
}

/// A field as made from its plan: type shown as the referenced name or
/// the schema's type, required or optional, the schema's flags, texts,
/// enum values and constraints, nothing nested yet.
pub open spec fn field_matches(f: Field, p: FieldPlan) -> bool {
    field_matches_top(f, p) && f.nested_fields@.len() == 0
}

/// A field as made from its plan, whatever its nested fields.
pub open spec fn field_matches_top(f: Field, p: FieldPlan) -> bool {
    &&& f.name@ == p.0
    &&& f.type_display@ == (match p.2 {
        Some(n) => n,
        None => type_display(p.1.kind),
    })
    &&& f.required == p.3
    &&& f.optional == !p.3
    &&& f.nullable == p.1.nullable
    &&& f.read_only == p.1.read_only
    &&& f.write_only == p.1.write_only
    &&& f.deprecated == p.1.deprecated
    &&& opt_view(f.description) == opt_view(p.1.description)
    &&& texts(f.enum_values@) == enum_values_of(p.1.kind)
    &&& texts(f.constraints@) == constraints_of(p.1.kind)
    &&& opt_view(f.default_value) == opt_view(p.1.default)
    &&& opt_jview(f.example) == opt_jview(p.1.example)
    &&& opt_view(f.nested_schema_name) == nested_name(p)
}

pub open spec fn fields_match(fs: Seq<Field>, ps: Seq<FieldPlan>) -> bool {
    fs.len() == ps.len() && forall|i: int| 0 <= i < fs.len() ==> field_matches(#[trigger] fs[i], ps[i])
}

fn copy_opt(o: &Option<String>) -> (r: Option<String>)
    ensures
        opt_view(r) == opt_view(*o),
{
    match o {
        Some(x) => Some(owned(x.as_str())),
        None => None,
    }
}

fn clone_opt_json(o: &Option<JsonValue>) -> (r: Option<JsonValue>)
    ensures
        opt_jview(r) == opt_jview(*o),
{
    match o {
        Some(v) => Some(clone_json(v)),
        None => None,
    }
}

fn field_of(p: (&String, &SchemaNode, Option<&str>, bool)) -> (f: Field)
    ensures
        field_matches(f, plan_view(p)),
{
    let (name, sch, sname, req) = p;
    let type_display = match sname {
        Some(n) => owned(n),
        None => format_type_display(&sch.kind),
    };
    let nested_schema_name = match sname {
        Some(n) => Some(owned(n)),
        None => match &sch.kind {
            SchemaKind::Array { items, .. } => match items {
                Some(SchemaRef::Reference(r)) => match schema_name_from_ref(r.as_str()) {
                    Some(n) => Some(owned(n)),
                    None => None,
                },
                _ => None,
            },
            _ => None,
        },
    };
    Field {
        name: owned(name.as_str()),
        type_display,
        required: req,
        optional: !req,
        nullable: sch.nullable,
        read_only: sch.read_only,
        write_only: sch.write_only,
        deprecated: sch.deprecated,
        description: copy_opt(&sch.description),
        enum_values: extract_enum_values(&sch.kind),
        constraints: extract_constraints(&sch.kind),
        default_value: copy_opt(&sch.default),
        example: clone_opt_json(&sch.example),
        nested_schema_name,
        nested_fields: Vec::new(),
    }
}

/// The fields of a schema with the given required names: one per
/// property that resolves, or for `allOf` the merged fields of its parts.
/// References are followed as far as there are component schemas (no
/// chain of distinct references can be longer).
pub fn build_fields(comps: &Vec<(String, SchemaRef)>, schema: &SchemaNode, required_fields: &[String]) -> (r: Vec<Field>)
    ensures
        fields_match(r@, schema_plans(comps@, *schema, required_fields@.map_values(|s: String| s@), comps@.len())),
{
    let req = copy_required(required_fields);
    let plans = schema_plans_exec(comps, schema, &req, comps.len());
    fields_of_plans(&plans)
}

fn fields_of_plans(plans: &Vec<(&String, &SchemaNode, Option<&str>, bool)>) -> (r: Vec<Field>)
    ensures
        fields_match(r@, plans_view(plans@)),
{
    let ghost pv = plans_view(plans@);
    let mut r: Vec<Field> = Vec::new();
    let mut i: usize = 0;
    while i < plans.len()
        invariant
            i <= plans.len(),
            pv == plans_view(plans@),
            r@.len() == i,
            forall|k: int| 0 <= k < i ==> field_matches(#[trigger] r@[k], pv[k]),
        decreases plans.len() - i,
    {
        let f = field_of(plans[i]);
        let ghost rb = r@;
        r.push(f);
        proof {
            assert forall|k: int| 0 <= k < r@.len() implies field_matches(#[trigger] r@[k], pv[k]) by {
                if k < rb.len() {
                    assert(r@[k] == rb[k]);
                }
            }
        }
        i = i + 1;
    }
    r
}

// ───────────────────────── variants of oneOf / anyOf ─────────────────────────

/// The schema a variant (or an array's items) stands for: itself, or the
/// component its reference names.
pub open spec fn variant_schema(comps: Seq<(String, SchemaRef)>, v: SchemaRef) -> Option<SchemaNode> {
    match v {
        SchemaRef::Item(b) => Some(*b),
        SchemaRef::Reference(r) => resolve_ref(comps, r@),
    }
}

/// The required names of an object schema; none for any other kind.
pub open spec fn object_required(s: SchemaNode) -> Seq<Seq<char>> {
    match s.kind {
        SchemaKind::Object { required, .. } => texts(required@),
        _ => seq![],
    }
}

/// The fields of the variants that resolve, merged in order: a later
/// field replaces an earlier one of the same name.
pub open spec fn composition_plans(comps: Seq<(String, SchemaRef)>, vs: Seq<SchemaRef>) -> Seq<FieldPlan>
    decreases vs.len(),
{
    if vs.len() == 0 {
        seq![]
    } else {
        let prev = composition_plans(comps, vs.drop_last());
        match variant_schema(comps, vs.last()) {
            Some(s) => merge_plans(prev, schema_plans(comps, s, object_required(s), comps.len())),
            None => prev,
        }
    }
}

/// Resolves a variant to the schema it stands for.
pub fn resolve_variant<'a>(comps: &'a Vec<(String, SchemaRef)>, v: &'a SchemaRef) -> (r: Option<&'a SchemaNode>)
    ensures
        match r {
            Some(x) => variant_schema(comps@, *v) == Some(*x),
            None => variant_schema(comps@, *v) is None,
        },
{
    match v {
        SchemaRef::Item(b) => Some(&**b),
        SchemaRef::Reference(x) => resolve_reference(comps, x.as_str()),
    }
}

fn object_required_exec(s: &SchemaNode) -> (r: Vec<String>)
    ensures
        texts(r@) == object_required(*s),
{
    match &s.kind {
        SchemaKind::Object { required, .. } => copy_texts(required),
        _ => {
            let r: Vec<String> = Vec::new();
            assert(texts(r@) =~= object_required(*s));
            r
        },
    }
}

/// The fields that the variants of a `oneOf` or `anyOf` provide, merged
/// by name, a later variant's field replacing an earlier one.
pub fn extract_composition_fields(comps: &Vec<(String, SchemaRef)>, variants: &Vec<SchemaRef>) -> (r: Vec<Field>)
    ensures
        fields_match(r@, composition_plans(comps@, variants@)),
{
    let mut acc: Vec<(&String, &SchemaNode, Option<&str>, bool)> = Vec::new();
    let mut i: usize = 0;
    assert(variants@.take(0) =~= Seq::<SchemaRef>::empty());
    while i < variants.len()
        invariant
            i <= variants.len(),
            plans_view(acc@) == composition_plans(comps@, variants@.take(i as int)),
        decreases variants.len() - i,
    {
        proof {
            assert(variants@.take(i + 1).drop_last() =~= variants@.take(i as int));
            assert(variants@.take(i + 1).last() == variants@[i as int]);
        }
        match resolve_variant(comps, &variants[i]) {
            Some(sch) => {
                let req = object_required_exec(sch);
                let sub = schema_plans_exec(comps, sch, &req, comps.len());
                acc = merge_plans_exec(acc, &sub);
            },
            None => {},
        }
        i = i + 1;
    }
    assert(variants@.take(variants@.len() as int) =~= variants@);
    fields_of_plans(&acc)
}

} // verus!
